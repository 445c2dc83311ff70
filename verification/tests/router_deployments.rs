use dashmap::DashMap;
use smoothie::router::{
    bind_host, check_existing_deployment, check_servers, deleted_deployment_response, deployment_id_blank,
    deployment_matches_request, deployment_response, dial_body, drain_idle_bindings, find_running_deployment,
    hypervisor_base_url, lookup_route, register_started_deployment, remove_deployment, route_package,
    server_dial_host, server_failure, validate_deployment_request, Bind, ContainerTarget, DeploymentBinding,
    DeploymentRequest, DeploymentStatus, ExistingDeployment, RouteLookup, ServerConfig,
    CONTAINER_IDLE_TIMEOUT_NANOS,
};

fn binding(id: &str, last: u64) -> Bind {
    Bind {
        port: 3000,
        host: "127.0.0.1".into(),
        container: ContainerTarget { id: id.into(), hypervisor_url: "http://127.0.0.1:3100".into() },
        last,
    }
}

fn deployment_binding() -> DeploymentBinding {
    DeploymentBinding {
        service_id: "service-1".into(),
        package_id: "package-1".into(),
        argv: vec!["./server".into()],
        container: ContainerTarget { id: "container-1".into(), hypervisor_url: "http://127.0.0.1:3100".into() },
        hypervisor_id: "hypervisor-1".into(),
        host: "127.0.0.1".into(),
        host_port: 3000,
        container_port: 8080,
        status: DeploymentStatus::Running,
    }
}

fn deployment_request() -> DeploymentRequest {
    DeploymentRequest {
        service_id: "service-1".into(),
        package_id: "package-1".into(),
        argv: vec!["./server".into()],
        port: 8080,
    }
}

fn server(id: &str, address: &str) -> ServerConfig {
    ServerConfig { id: id.into(), address: address.into(), tunnel: false, tunnel_address: None, power: 1 }
}

#[test]
fn validates_explicit_deployment_requests() {
    let mut request = deployment_request();
    assert_eq!(validate_deployment_request("deployment-1", &request), Ok(()));

    assert_eq!(validate_deployment_request("  ", &request), Err("deployment_id must not be empty"));

    request.service_id = " ".into();
    assert_eq!(validate_deployment_request("deployment-1", &request), Err("service_id must not be empty"));
    request = deployment_request();
    request.package_id.clear();
    assert_eq!(validate_deployment_request("deployment-1", &request), Err("package_id must not be empty"));
    request = deployment_request();
    request.argv.clear();
    assert_eq!(validate_deployment_request("deployment-1", &request), Err("argv must not be empty"));
    request = deployment_request();
    request.port = 0;
    assert_eq!(validate_deployment_request("deployment-1", &request), Err("port must not be zero"));
}

#[test]
fn deployment_request_compatibility_uses_full_launch_config() {
    let binding = deployment_binding();
    let request = deployment_request();
    assert!(deployment_matches_request(&binding, &request));

    let mut changed = deployment_request();
    changed.service_id = "service-2".into();
    assert!(!deployment_matches_request(&binding, &changed));

    let mut changed = deployment_request();
    changed.package_id = "package-2".into();
    assert!(!deployment_matches_request(&binding, &changed));

    let mut changed = deployment_request();
    changed.argv.push("--production".into());
    assert!(!deployment_matches_request(&binding, &changed));

    let mut changed = request;
    changed.port = 9090;
    assert!(!deployment_matches_request(&binding, &changed));
}

#[test]
fn deployment_registry_lookup_and_removal_are_idempotent() {
    let mut deployments = DashMap::new();
    deployments.insert("deployment-1".to_string(), deployment_binding());

    let first = find_running_deployment(&deployments, "deployment-1").unwrap();
    let second = find_running_deployment(&deployments, "deployment-1").unwrap();
    assert_eq!(first.container.id, "container-1");
    assert_eq!(second.container.id, "container-1");
    assert_eq!(deployments.len(), 1);

    assert!(remove_deployment(&mut deployments, "deployment-1").is_some());
    assert!(remove_deployment(&mut deployments, "deployment-1").is_none());
}

#[test]
fn drains_only_bindings_idle_for_thirty_minutes() {
    let now = 10 * CONTAINER_IDLE_TIMEOUT_NANOS;
    let mut bindings = DashMap::new();
    bindings.insert("idle.example".to_string(), binding("idle", now - CONTAINER_IDLE_TIMEOUT_NANOS));
    bindings.insert("active.example".to_string(), binding("active", now));

    let targets = drain_idle_bindings(&mut bindings, CONTAINER_IDLE_TIMEOUT_NANOS, now);

    assert_eq!(targets.len(), 1);
    assert_eq!(targets[0].id, "idle");
    assert!(!bindings.contains_key("idle.example"));
    assert!(bindings.contains_key("active.example"));
}

#[test]
fn stopped_deployments_are_not_running() {
    let deployments = DashMap::new();
    let mut stopped = deployment_binding();
    stopped.status = DeploymentStatus::Deleted;
    deployments.insert("d".to_string(), stopped);
    assert!(find_running_deployment(&deployments, "d").is_none());
    assert!(find_running_deployment(&deployments, "missing").is_none());
}

#[test]
fn existing_deployments_are_reused_or_conflict() {
    let deployments = DashMap::new();
    deployments.insert("d1".to_string(), deployment_binding());
    match check_existing_deployment(&deployments, "d1", &deployment_request()) {
        ExistingDeployment::Reuse(response) => {
            assert_eq!(response.deployment_id, "d1");
            assert_eq!(response.container_id.as_deref(), Some("container-1"));
            assert_eq!(response.host_port, Some(3000));
        }
        _ => panic!("expected reuse"),
    }
    let mut other = deployment_request();
    other.port = 1;
    assert!(matches!(check_existing_deployment(&deployments, "d1", &other), ExistingDeployment::Conflict));
    assert!(matches!(check_existing_deployment(&deployments, "d2", &other), ExistingDeployment::Absent));
}

#[test]
fn started_deployments_are_registered_and_answered() {
    let mut deployments = DashMap::new();
    let request = deployment_request();
    let response = register_started_deployment(
        &mut deployments,
        "d1",
        &request,
        "c9".into(),
        &server("h1", "10.0.0.5:3100/"),
        "10.0.0.5".into(),
        31000,
    );
    assert_eq!(response.status, DeploymentStatus::Running);
    assert_eq!(response.container_id.as_deref(), Some("c9"));
    assert_eq!(response.container_port, Some(8080));
    let stored = find_running_deployment(&deployments, "d1").unwrap();
    assert_eq!(stored.container.hypervisor_url, "http://10.0.0.5:3100");
    assert_eq!(stored.hypervisor_id, "h1");
    assert!(deployment_matches_request(&stored, &request));
    let again = deployment_response("d1", &stored);
    assert_eq!(again.host.as_deref(), Some("10.0.0.5"));
    let deleted = deleted_deployment_response("d1");
    assert_eq!(deleted.status, DeploymentStatus::Deleted);
    assert!(deleted.host.is_none() && deleted.container_id.is_none());
}

#[test]
fn routes_reuse_fresh_bindings_and_expire_stale_ones() {
    let mut bindings = DashMap::new();
    bindings.insert("app.example".to_string(), binding("c1", 1_000));
    match lookup_route(&mut bindings, "app.example", 2_000, CONTAINER_IDLE_TIMEOUT_NANOS) {
        RouteLookup::Bound { host, port } => assert_eq!((host.as_str(), port), ("127.0.0.1", 3000)),
        _ => panic!("expected a bound route"),
    }
    assert_eq!(bindings.get("app.example").unwrap().last, 2_000);
    let later = 2_000 + CONTAINER_IDLE_TIMEOUT_NANOS;
    match lookup_route(&mut bindings, "app.example", later, CONTAINER_IDLE_TIMEOUT_NANOS) {
        RouteLookup::Stale(container) => assert_eq!(container.id, "c1"),
        _ => panic!("expected a stale route"),
    }
    assert!(bindings.is_empty());
    assert!(matches!(
        lookup_route(&mut bindings, "app.example", later, CONTAINER_IDLE_TIMEOUT_NANOS),
        RouteLookup::Unbound
    ));
    bind_host(&mut bindings, "app.example", "10.0.0.5".into(), 31001, "c2".into(), &server("h", "10.0.0.5:3100"), 7);
    let b = bindings.get("app.example").unwrap();
    assert_eq!((b.port, b.host.as_str(), b.container.id.as_str(), b.last), (31001, "10.0.0.5", "c2", 7));
}

#[test]
fn answers_and_failures_are_formatted() {
    assert_eq!(dial_body("10.0.0.5", 31000), "[{\"dial\":\"10.0.0.5:31000\"}]");
    assert_eq!(server_failure("h1", "invalid address"), "h1: invalid address");
    assert_eq!(route_package(Ok(Some("p1".into()))).ok().unwrap(), "p1");
    let f = route_package(Ok(None)).err().unwrap();
    assert_eq!((f.status, f.error.as_str()), (404, "No package is bound to this host"));
    let f = route_package(Err("timeout".into())).err().unwrap();
    assert_eq!((f.status, f.error.as_str()), (500, "Redis lookup failed: timeout"));
    let f = check_servers(false, &vec![]).err().unwrap();
    assert_eq!((f.status, f.error.as_str()), (500, "SERVERS not initialized"));
    let f = check_servers(true, &vec![]).err().unwrap();
    assert_eq!((f.status, f.error.as_str()), (503, "No servers configured"));
    assert!(check_servers(true, &vec![server("h", "x")]).is_ok());
    assert!(deployment_id_blank(" \t"));
    assert!(!deployment_id_blank("d"));
}

#[test]
fn servers_are_dialed_at_the_host_of_their_address() {
    assert_eq!(hypervisor_base_url("10.0.0.5:3100/"), "http://10.0.0.5:3100");
    assert_eq!(server_dial_host(&server("h", "10.0.0.5:3100")).as_deref(), Some("10.0.0.5"));
    assert_eq!(server_dial_host(&server("h", "https://hv.example/")).as_deref(), Some("hv.example"));
    assert_eq!(server_dial_host(&server("h", "[::1")), None);
}

use smoothie::router::{
    allow_after_lookup, allow_without_lookup, app_key, build_key, domain_key, legacy_domain_package, AllowAnswer,
    CacheMark,
};

#[test]
fn access_checks_use_the_cache_then_the_lookup() {
    assert!(matches!(allow_without_lookup("localhost", Some(false)), Some(AllowAnswer::Allowed(CacheMark::Unmarked))));
    assert!(matches!(allow_without_lookup("a.example", Some(true)), Some(AllowAnswer::Allowed(CacheMark::Hit))));
    assert!(matches!(allow_without_lookup("a.example", Some(false)), Some(AllowAnswer::Forbidden(CacheMark::Hit))));
    assert!(allow_without_lookup("a.example", None).is_none());
    assert!(matches!(allow_after_lookup(Ok(true)), AllowAnswer::Allowed(CacheMark::Miss)));
    assert!(matches!(allow_after_lookup(Ok(false)), AllowAnswer::Forbidden(CacheMark::Miss)));
    assert!(matches!(allow_after_lookup(Err("down".into())), AllowAnswer::Failed(m) if m == "Redis lookup failed: down"));
}

#[test]
fn package_lookup_keys() {
    assert_eq!(domain_key("a.example"), "domains:a.example");
    assert_eq!(app_key("a1"), "apps:a1");
    assert_eq!(build_key("b1"), "builds:b1");
    assert_eq!(legacy_domain_package(Some("0".into())), None);
    assert_eq!(legacy_domain_package(Some("p1".into())).as_deref(), Some("p1"));
    assert_eq!(legacy_domain_package(None), None);
}

use smoothie::router::{all_servers_failed, is_tunnel};

#[test]
fn tunnels_and_total_failure() {
    let mut s = server("h", "x");
    assert!(!is_tunnel(&s));
    s.tunnel_address = Some("t.example".into());
    assert!(is_tunnel(&s));
    let f = all_servers_failed();
    assert_eq!((f.status, f.error.as_str()), (502, "All hypervisors failed"));
}

use smoothie::reply::Reply;
use smoothie::router::{finish_delete_deployment, first_startable, next_server_step, shutdown_outcome, FailoverAction};

#[test]
fn shutdown_replies_decide_the_deletion() {
    let ok = Reply::Answered { status: 404, status_line: "404 Not Found".into(), body: String::new() };
    assert!(shutdown_outcome(&ok).is_ok());
    let bad = Reply::Answered { status: 500, status_line: "500 Internal Server Error".into(), body: "x".into() };
    assert_eq!(shutdown_outcome(&bad).err().unwrap(), "shutdown returned 500 Internal Server Error: x");
    assert_eq!(
        shutdown_outcome(&Reply::Unreachable("timeout".into())).err().unwrap(),
        "shutdown request failed: timeout"
    );

    let mut deployments = DashMap::new();
    deployments.insert("d1".to_string(), deployment_binding());
    let failure = finish_delete_deployment(&mut deployments, "d1", &bad).err().unwrap();
    assert_eq!((failure.status, failure.error.as_str()), (502, "shutdown returned 500 Internal Server Error: x"));
    assert!(deployments.contains_key("d1"));

    let done = Reply::Answered { status: 200, status_line: "200 OK".into(), body: String::new() };
    let response = finish_delete_deployment(&mut deployments, "d1", &done).ok().unwrap();
    assert_eq!(response.deployment_id, "d1");
    assert_eq!(response.status, DeploymentStatus::Deleted);
    assert!(response.host.is_none() && response.container_id.is_none());
    assert!(!deployments.contains_key("d1"));
}

#[test]
fn failing_servers_pass_the_start_to_the_next_ranked_one() {
    let ranked = vec![server("bad", "[::1"), server("h1", "10.0.0.1:3100"), server("h2", "10.0.0.2:3100")];
    let mut failures: Vec<String> = Vec::new();
    let first = first_startable(&ranked, 0, &mut failures);
    assert!(matches!(&first, FailoverAction::Start { index: 1, dial_host } if dial_host == "10.0.0.1"));
    assert_eq!(failures, vec!["bad: invalid address".to_string()]);

    let failed: Result<(), String> = Err("inject returned 503 Service Unavailable: busy".into());
    let next = next_server_step(&ranked, 1, &failed, &mut failures);
    assert!(matches!(&next, FailoverAction::Start { index: 2, dial_host } if dial_host == "10.0.0.2"));
    assert_eq!(failures[1], "h1: inject returned 503 Service Unavailable: busy");

    let started: Result<u16, String> = Ok(40000);
    assert!(matches!(next_server_step(&ranked, 2, &started, &mut failures), FailoverAction::Bind { index: 2 }));
    assert_eq!(failures.len(), 2);

    let last = next_server_step(&ranked, 2, &failed, &mut failures);
    match last {
        FailoverAction::GiveUp(f) => assert_eq!((f.status, f.error.as_str()), (502, "All hypervisors failed")),
        _ => panic!("expected to give up"),
    }
    assert_eq!(failures.len(), 3);
}

use smoothie::router::{inject_result, run_result};

#[test]
fn hypervisor_replies_to_inject_and_run_are_read() {
    let ok = Reply::Answered { status: 200, status_line: "200 OK".into(), body: String::new() };
    assert_eq!(inject_result(&ok, Ok("c1".into())).ok(), Some("c1".to_string()));
    assert_eq!(inject_result(&ok, Err("EOF".into())).err().unwrap(), "invalid inject response: EOF");
    let busy = Reply::Answered { status: 503, status_line: "503 Service Unavailable".into(), body: "busy".into() };
    assert_eq!(inject_result(&busy, Ok("c1".into())).err().unwrap(), "inject returned 503 Service Unavailable: busy");
    assert_eq!(
        inject_result(&Reply::Unreachable("refused".into()), Ok("c1".into())).err().unwrap(),
        "inject request failed: refused"
    );

    let started = run_result(&ok, Ok(("c1".into(), 40001)), 8080).ok().unwrap();
    assert_eq!((started.id.as_str(), started.host_port, started.container_port), ("c1", 40001, 8080));
    assert_eq!(run_result(&busy, Ok(("c1".into(), 1)), 8080).err().unwrap(), "run returned 503 Service Unavailable: busy");
    assert_eq!(run_result(&ok, Err("bad".into()), 8080).err().unwrap(), "invalid run response: bad");
    assert_eq!(
        run_result(&Reply::Unreachable("t".into()), Ok(("c1".into(), 1)), 8080).err().unwrap(),
        "run request failed: t"
    );
}
