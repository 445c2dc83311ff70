use smoothie::api::deployments::{
    apply_router_deployment, check_deployment_owner, deployment_to_stop, deployment_to_stop_before_retry,
    key_service_deployments, mark_failed, mark_not_found, mark_stopped, new_deployment, package_to_start,
    prepare_retry, require_available_blob, retry_status, router_deployment_url, runtime_argv,
    sort_deployments_newest_first, Deployment, RouterDeployment,
};
use smoothie::api::packages::{BlobStatus, Package};
use smoothie::api::services::Service;

fn make(id: &str, created_at: &str) -> Deployment {
    Deployment {
        id: id.into(),
        service_id: "s".into(),
        package_id: "p".into(),
        app_id: "a".into(),
        owner: 1,
        argv: vec!["./main".into()],
        port: 3000,
        status: "running".into(),
        host: None,
        host_port: None,
        container_port: None,
        container_id: None,
        error: None,
        created_at: created_at.into(),
        updated_at: created_at.into(),
    }
}

fn service() -> Service {
    Service {
        id: "s".into(),
        app_id: "a".into(),
        owner: 1,
        name: "api".into(),
        position_x: 0,
        position_y: 0,
        container_port: 8080,
        argv: vec!["--port".into(), "8080".into()],
        active_package_id: None,
        active_deployment_id: None,
        package_ids: Vec::new(),
        created_at: "t0".into(),
        updated_at: "t0".into(),
    }
}

#[test]
fn deployment_keys_are_scoped_to_the_owner_and_service() {
    assert_eq!(key_service_deployments(7, "a", "s"), "user:7:app:a:service:s:deployments");
}

#[test]
fn deployment_lists_are_newest_first() {
    let mut deployments = vec![make("old", "2024-01-01"), make("new", "2024-01-02")];
    sort_deployments_newest_first(&mut deployments);
    assert_eq!(deployments[0].id, "new");
}

#[test]
fn runtime_argv_always_starts_with_root_main() {
    assert_eq!(runtime_argv(&vec![]), vec!["./main"]);
    assert_eq!(runtime_argv(&vec!["--port".into(), "8080".into()]), vec!["./main", "--port", "8080"]);
}

#[test]
fn equal_times_keep_their_order_when_sorted() {
    let mut deployments = vec![
        make("b", "2024-01-02"),
        make("a1", "2024-01-01"),
        make("c", "2024-01-03"),
        make("a2", "2024-01-01"),
        make("b2", "2024-01-02"),
    ];
    sort_deployments_newest_first(&mut deployments);
    let ids: Vec<&str> = deployments.iter().map(|d| d.id.as_str()).collect();
    assert_eq!(ids, vec!["c", "b", "b2", "a1", "a2"]);
}

#[test]
fn router_url_names_the_deployment() {
    assert_eq!(router_deployment_url("127.0.0.1:3300/", "d1"), "http://127.0.0.1:3300/deployments/d1");
}

#[test]
fn starting_records_a_deploying_deployment_and_the_active_ids() {
    let mut s = service();
    let d = new_deployment(&mut s, "p1", "d1".into(), "t1".into());
    assert_eq!(d.id, "d1");
    assert_eq!(d.package_id, "p1");
    assert_eq!(d.argv, vec!["./main", "--port", "8080"]);
    assert_eq!(d.port, 8080);
    assert_eq!(d.status, "deploying");
    assert_eq!(s.active_package_id.as_deref(), Some("p1"));
    assert_eq!(s.active_deployment_id.as_deref(), Some("d1"));
    assert_eq!(s.updated_at, "t1");
}

#[test]
fn router_answers_are_recorded() {
    let mut d = make("d1", "t0");
    d.error = Some("earlier".into());
    apply_router_deployment(
        &mut d,
        RouterDeployment {
            status: "running".into(),
            host: Some("10.0.0.2".into()),
            host_port: Some(31000),
            container_port: Some(8080),
            container_id: Some("c1".into()),
        },
        "t1".into(),
    );
    assert_eq!(d.status, "running");
    assert_eq!(d.host.as_deref(), Some("10.0.0.2"));
    assert_eq!(d.host_port, Some(31000));
    assert_eq!(d.container_id.as_deref(), Some("c1"));
    assert_eq!(d.error, None);
    assert_eq!(d.updated_at, "t1");

    mark_failed(&mut d, "router returned 502".into(), "t2".into());
    assert_eq!(d.status, "failed");
    assert_eq!(d.error.as_deref(), Some("router returned 502"));
    mark_not_found(&mut d, "t3".into());
    assert_eq!(d.status, "not_found");
}

#[test]
fn stopping_clears_only_the_active_deployment() {
    let mut s = service();
    s.active_deployment_id = Some("d1".into());
    let mut d = make("d1", "t0");
    mark_stopped(&mut s, &mut d, "d1", "t1".into());
    assert_eq!(d.status, "stopped");
    assert_eq!(s.active_deployment_id, None);
    assert_eq!(s.updated_at, "t1");

    let mut s = service();
    s.active_deployment_id = Some("d2".into());
    let mut d = make("d1", "t0");
    mark_stopped(&mut s, &mut d, "d1", "t1".into());
    assert_eq!(s.active_deployment_id.as_deref(), Some("d2"));
    assert_eq!(s.updated_at, "t0");
}

#[test]
fn retries_restore_the_main_command_and_activate() {
    let mut s = service();
    s.active_deployment_id = Some("d0".into());
    assert_eq!(deployment_to_stop_before_retry(&s, "d1").as_deref(), Some("d0"));
    assert_eq!(deployment_to_stop_before_retry(&s, "d0"), None);
    let mut d = make("d1", "t0");
    d.argv = vec!["--port".into()];
    d.status = "failed".into();
    d.error = Some("x".into());
    prepare_retry(&mut s, &mut d, "t1".into());
    assert_eq!(d.argv, vec!["./main", "--port"]);
    assert_eq!(d.status, "deploying");
    assert_eq!(d.error, None);
    assert_eq!(s.active_deployment_id.as_deref(), Some("d1"));
    assert_eq!(s.active_package_id.as_deref(), Some("p"));
    let mut d2 = make("d2", "t0");
    prepare_retry(&mut s, &mut d2, "t2".into());
    assert_eq!(d2.argv, vec!["./main"]);
    assert_eq!(retry_status(&Some("e".into())), 502);
    assert_eq!(retry_status(&None), 200);
}

#[test]
fn conflicts_and_ownership_are_answered() {
    let s = service();
    let e = package_to_start(&s).err().unwrap();
    assert_eq!((e.status, e.message.as_str()), (409, "service has no active package"));
    let e = deployment_to_stop(&s).err().unwrap();
    assert_eq!((e.status, e.message.as_str()), (409, "service has no active deployment"));
    let mut other = make("d1", "t0");
    assert!(check_deployment_owner(&other, &s).is_ok());
    other.service_id = "s2".into();
    let e = check_deployment_owner(&other, &s).err().unwrap();
    assert_eq!((e.status, e.message.as_str()), (404, "deployment not found"));
    let package = Package {
        id: "p".into(),
        service_id: "s".into(),
        app_id: "a".into(),
        owner: 1,
        filename: "p.tar".into(),
        sha256: "h".into(),
        size_bytes: 1,
        blob_status: BlobStatus::Pruned,
        created_at: "t".into(),
        pruned_at: None,
        deleted_at: None,
    };
    let e = require_available_blob(&package, "active package blob is not available").err().unwrap();
    assert_eq!((e.status, e.message.as_str()), (409, "active package blob is not available"));
}

use smoothie::api::deployments::deployments_for_listing;

#[test]
fn deployment_listings_hold_only_the_services_deployments() {
    let mut foreign = make("f", "2024-01-09");
    foreign.service_id = "other".into();
    let ids: Vec<String> = deployments_for_listing(
        vec![make("a", "2024-01-01"), foreign, make("c", "2024-01-03"), make("b", "2024-01-02")],
        &service(),
    )
    .into_iter()
    .map(|d| d.id)
    .collect();
    assert_eq!(ids, vec!["c", "b", "a"]);
}

use smoothie::api::deployments::stop_after_reply;
use smoothie::reply::Reply;

fn answered(status: u16, line: &str, body: &str) -> Reply {
    Reply::Answered { status, status_line: line.into(), body: body.into() }
}

#[test]
fn router_stop_replies_decide_the_stop() {
    for reply in [answered(200, "200 OK", ""), answered(204, "204 No Content", ""), answered(404, "404 Not Found", "")] {
        let mut s = service();
        s.active_deployment_id = Some("d1".into());
        let mut d = make("d1", "t0");
        d.error = Some("old".into());
        assert!(stop_after_reply(&mut s, &mut d, "d1", &reply, "t1".into()).is_ok());
        assert_eq!(d.status, "stopped");
        assert_eq!(d.error, None);
        assert_eq!(d.updated_at, "t1");
        assert_eq!(s.active_deployment_id, None);
    }

    let mut s = service();
    s.active_deployment_id = Some("d1".into());
    let mut d = make("d1", "t0");
    let e = stop_after_reply(&mut s, &mut d, "d1", &answered(500, "500 Internal Server Error", "boom"), "t1".into())
        .err()
        .unwrap();
    assert_eq!(e.status, 502);
    assert_eq!(e.message, "router stop returned 500 Internal Server Error: boom");
    assert_eq!(d.status, "running");
    assert_eq!(s.active_deployment_id.as_deref(), Some("d1"));
    assert_eq!(s.updated_at, "t0");

    let e = stop_after_reply(&mut s, &mut d, "d1", &Reply::Unreachable("refused".into()), "t1".into()).err().unwrap();
    assert_eq!((e.status, e.message.as_str()), (502, "router stop request failed: refused"));
    assert_eq!(d.status, "running");
}

use smoothie::api::deployments::{record_router_deploy, router_deploy_result, router_status_outcome};

fn router_report() -> RouterDeployment {
    RouterDeployment {
        status: "running".into(),
        host: Some("10.0.0.2".into()),
        host_port: Some(31000),
        container_port: Some(8080),
        container_id: Some("c1".into()),
    }
}

#[test]
fn a_failed_router_keeps_the_deployment_and_its_selection() {
    let mut d = make("d1", "t0");
    let reply = answered(503, "503 Service Unavailable", "no servers");
    let result = router_deploy_result(&reply, Err("unused".into()));
    let error = record_router_deploy(&mut d, result, "t1".into());
    assert_eq!(error.as_deref(), Some("router returned 503 Service Unavailable: no servers"));
    assert_eq!(d.status, "failed");
    assert_eq!(d.error.as_deref(), Some("router returned 503 Service Unavailable: no servers"));
    assert_eq!((d.id.as_str(), d.package_id.as_str(), d.service_id.as_str(), d.port), ("d1", "p", "s", 3000));
    assert_eq!((d.app_id.as_str(), d.owner, d.created_at.as_str()), ("a", 1, "t0"));
    assert_eq!(d.argv, vec!["./main".to_string()]);

    let mut d = make("d2", "t0");
    let unreachable = router_deploy_result(&Reply::Unreachable("refused".into()), Ok(router_report()));
    assert_eq!(record_router_deploy(&mut d, unreachable, "t1".into()).as_deref(), Some("router request failed: refused"));
    let garbled = router_deploy_result(&answered(200, "200 OK", "{"), Err("EOF".into()));
    assert_eq!(garbled.err().unwrap(), "invalid router deployment response: EOF");

    let mut d = make("d3", "t0");
    let ok = router_deploy_result(&answered(200, "200 OK", ""), Ok(router_report()));
    assert_eq!(record_router_deploy(&mut d, ok, "t1".into()), None);
    assert_eq!((d.status.as_str(), d.host_port, d.port), ("running", Some(31000), 3000));
}

#[test]
fn router_status_replies_refresh_or_refuse() {
    let mut d = make("d1", "t0");
    assert!(router_status_outcome(&mut d, &answered(404, "404 Not Found", ""), Err("unused".into()), "t1".into()).is_ok());
    assert_eq!((d.status.as_str(), d.updated_at.as_str(), d.port), ("not_found", "t1", 3000));

    let mut d = make("d2", "t0");
    assert!(router_status_outcome(&mut d, &answered(200, "200 OK", ""), Ok(router_report()), "t1".into()).is_ok());
    assert_eq!((d.status.as_str(), d.container_id.as_deref()), ("running", Some("c1")));

    let mut d = make("d3", "t0");
    let e = router_status_outcome(&mut d, &answered(500, "500 Internal Server Error", "x"), Ok(router_report()), "t1".into())
        .err()
        .unwrap();
    assert_eq!((e.status, e.message.as_str()), (502, "router status returned 500 Internal Server Error: x"));
    assert_eq!((d.status.as_str(), d.updated_at.as_str()), ("running", "t0"));
    let e = router_status_outcome(&mut d, &Reply::Unreachable("down".into()), Ok(router_report()), "t1".into())
        .err()
        .unwrap();
    assert_eq!(e.message, "router status request failed: down");
    let e = router_status_outcome(&mut d, &answered(200, "200 OK", "{"), Err("EOF".into()), "t1".into()).err().unwrap();
    assert_eq!(e.message, "invalid router status response: EOF");
    assert_eq!(d.status, "running");
}
