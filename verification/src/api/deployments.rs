//! Deployments of a service: storage key, the records that starting,
//! retrying and stopping a service write, how the router's answers are
//! recorded, and the order of deployment listings.

use vstd::prelude::*;
use crate::api::config::{base_url, router_base_url};
use crate::api::packages::{BlobStatus, Package};
use crate::api::services::Service;
use crate::api::state::{json_error, ApiError};
use crate::order::{lemma_insert_by_at, lemma_text_lt_irreflexive, lemma_text_lt_transitive, lemma_text_not_lt_transitive, stable_sort_is_ordered, stable_sort_is_permutation, stable_sort_keeps_ties_in_order, stable_sorted_by, strict_weak_order, tied_with};
use crate::reply::{is_stop_accepted, read_reply, reply_result, stop_accepted, Reply};
use crate::text::{clone_strings, concat_str, decimal, push_decimal, push_str, str_eq, str_lt, text_lt};

verus! {

/// One attempt to run a package of a service.
pub struct Deployment {
    pub id: String,
    pub service_id: String,
    pub package_id: String,
    pub app_id: String,
    pub owner: u64,
    pub argv: Vec<String>,
    pub port: u16,
    pub status: String,
    pub host: Option<String>,
    pub host_port: Option<u16>,
    pub container_port: Option<u16>,
    pub container_id: Option<String>,
    pub error: Option<String>,
    pub created_at: String,
    pub updated_at: String,
}

/// What the router reports of a deployment.
pub struct RouterDeployment {
    pub status: String,
    pub host: Option<String>,
    pub host_port: Option<u16>,
    pub container_port: Option<u16>,
    pub container_id: Option<String>,
}

/// `user:{owner}:app:{app_id}:service:{service_id}:deployments`
pub fn key_service_deployments(owner: u64, app_id: &str, service_id: &str) -> (k: String)
    ensures
        k@ == "user:"@ + decimal(owner as nat) + ":app:"@ + app_id@ + ":service:"@ + service_id@
            + ":deployments"@,
{
    let k = push_decimal(String::from_str("user:"), owner);
    let k = push_str(push_str(k, ":app:"), app_id);
    let k = push_str(push_str(k, ":service:"), service_id);
    push_str(k, ":deployments")
}

/// The router's URL for one deployment: `{router base}/deployments/{id}`.
pub fn router_deployment_url(router_address: &str, deployment_id: &str) -> (url: String)
    ensures
        url@ == base_url(router_address@) + "/deployments/"@ + deployment_id@,
{
    let base = router_base_url(router_address);
    push_str(push_str(base, "/deployments/"), deployment_id)
}

pub open spec fn texts(v: Seq<String>) -> Seq<Seq<char>> {
    v.map_values(|s: String| s@)
}

/// The argv a deployment runs: the package's root `./main`, then the
/// service's own arguments.
pub fn runtime_argv(service_argv: &Vec<String>) -> (argv: Vec<String>)
    ensures
        texts(argv@) == seq!["./main"@] + texts(service_argv@),
{
    let rest = clone_strings(service_argv);
    let mut argv: Vec<String> = Vec::new();
    argv.push(String::from_str("./main"));
    let mut i: usize = 0;
    while i < rest.len()
        invariant
            i <= rest@.len(),
            texts(rest@) == texts(service_argv@),
            texts(argv@) == seq!["./main"@] + texts(rest@).subrange(0, i as int),
        decreases rest@.len() - i,
    {
        let ghost before = argv@;
        let item = rest[i].clone();
        argv.push(item);
        proof {
            assert(argv@ == before.push(rest@[i as int]));
            assert(texts(argv@) =~= texts(before).push(rest@[i as int]@));
            assert(texts(rest@).subrange(0, i + 1) =~= texts(rest@).subrange(0, i as int).push(rest@[i as int]@));
        }
        i = i + 1;
    }
    proof {
        assert(texts(rest@).subrange(0, rest@.len() as int) =~= texts(rest@));
    }
    argv
}

/// Law: every argv a deployment runs starts with `./main`, followed by
/// the service's arguments unchanged.
pub proof fn runtime_argv_starts_with_main(service_argv: Seq<String>, argv: Seq<String>)
    requires
        texts(argv) == seq!["./main"@] + texts(service_argv),
    ensures
        argv.len() == service_argv.len() + 1,
        argv[0]@ == "./main"@,
        forall|i: int| 0 <= i < service_argv.len() ==> #[trigger] argv[i + 1]@ == service_argv[i]@,
{
    assert(texts(argv).len() == argv.len());
    assert(texts(argv)[0] == argv[0]@);
    assert forall|i: int| 0 <= i < service_argv.len() implies #[trigger] argv[i + 1]@ == service_argv[i]@ by {
        assert(texts(argv)[i + 1] == argv[i + 1]@);
        assert(texts(service_argv)[i] == service_argv[i]@);
    }
}

/// A new deployment of a package for a service, waiting for the router:
/// status `deploying`, the service's runtime argv and container port.
/// The service records the package and the deployment as active.
pub fn new_deployment(service: &mut Service, package_id: &str, id: String, now: String) -> (d: Deployment)
    ensures
        d.id == id,
        d.service_id == old(service).id,
        d.package_id@ == package_id@,
        d.app_id == old(service).app_id,
        d.owner == old(service).owner,
        texts(d.argv@) == seq!["./main"@] + texts(old(service).argv@),
        d.port == old(service).container_port,
        d.status@ == "deploying"@,
        d.host is None && d.host_port is None && d.container_port is None && d.container_id is None,
        d.error is None,
        d.created_at == now && d.updated_at == now,
        final(service).active_package_id matches Some(p) && p@ == package_id@,
        final(service).active_deployment_id == Some(id),
        final(service).updated_at == now,
        final(service).id == old(service).id && final(service).app_id == old(service).app_id
            && final(service).owner == old(service).owner && final(service).name == old(service).name
            && final(service).container_port == old(service).container_port && final(service).argv@
            == old(service).argv@ && final(service).package_ids@ == old(service).package_ids@
            && final(service).created_at == old(service).created_at,
{
    let argv = runtime_argv(&service.argv);
    let d = Deployment {
        id: id.clone(),
        service_id: service.id.clone(),
        package_id: String::from_str(package_id),
        app_id: service.app_id.clone(),
        owner: service.owner,
        argv,
        port: service.container_port,
        status: String::from_str("deploying"),
        host: None,
        host_port: None,
        container_port: None,
        container_id: None,
        error: None,
        created_at: now.clone(),
        updated_at: now.clone(),
    };
    service.active_package_id = Some(String::from_str(package_id));
    service.active_deployment_id = Some(id);
    service.updated_at = now;
    d
}

/// Records what the router reported of a deployment; a reported
/// deployment carries no error.
pub fn apply_router_deployment(deployment: &mut Deployment, router: RouterDeployment, now: String)
    ensures
        *final(deployment) == (Deployment {
            status: router.status,
            host: router.host,
            host_port: router.host_port,
            container_port: router.container_port,
            container_id: router.container_id,
            error: None,
            updated_at: now,
            ..*old(deployment)
        }),
{
    let RouterDeployment { status, host, host_port, container_port, container_id } = router;
    deployment.status = status;
    deployment.host = host;
    deployment.host_port = host_port;
    deployment.container_port = container_port;
    deployment.container_id = container_id;
    deployment.error = None;
    deployment.updated_at = now;
}

/// Records that the router could not start a deployment.
pub fn mark_failed(deployment: &mut Deployment, error: String, now: String)
    ensures
        final(deployment).status@ == "failed"@,
        *final(deployment) == (Deployment {
            status: final(deployment).status,
            error: Some(error),
            updated_at: now,
            ..*old(deployment)
        }),
{
    deployment.status = String::from_str("failed");
    deployment.error = Some(error);
    deployment.updated_at = now;
}

/// Records that the router no longer knows a deployment.
pub fn mark_not_found(deployment: &mut Deployment, now: String)
    ensures
        final(deployment).status@ == "not_found"@,
        *final(deployment) == (Deployment { status: final(deployment).status, updated_at: now, ..*old(deployment) }),
{
    deployment.status = String::from_str("not_found");
    deployment.updated_at = now;
}

/// Reads the router's reply to `POST {router}/deployments/{id}`;
/// `decoded` is the reading of a successful answer's body.
pub fn router_deploy_result(reply: &Reply, decoded: Result<RouterDeployment, String>) -> (r: Result<
    RouterDeployment,
    String,
>)
    ensures
        match reply_result(
            *reply,
            decoded,
            "router request failed: "@,
            "router returned "@,
            "invalid router deployment response: "@,
        ) {
            Ok(v) => r == Ok::<RouterDeployment, String>(v),
            Err(m) => r matches Err(s) && s@ == m,
        },
{
    read_reply(reply, decoded, "router request failed: ", "router returned ", "invalid router deployment response: ")
}

/// Records the outcome of asking the router to run a deployment: what it
/// reported, or the failure, which is also handed back.
pub fn record_router_deploy(deployment: &mut Deployment, result: Result<RouterDeployment, String>, now: String) -> (r:
    Option<String>)
    ensures
        match result {
            Ok(router) => r is None && *final(deployment) == (Deployment {
                status: router.status,
                host: router.host,
                host_port: router.host_port,
                container_port: router.container_port,
                container_id: router.container_id,
                error: None,
                updated_at: now,
                ..*old(deployment)
            }),
            Err(e) => r == Some(e) && final(deployment).status@ == "failed"@ && *final(deployment) == (Deployment {
                status: final(deployment).status,
                error: Some(e),
                updated_at: now,
                ..*old(deployment)
            }),
        },
{
    match result {
        Ok(router) => {
            apply_router_deployment(deployment, router, now);
            None
        },
        Err(e) => {
            let handed = e.clone();
            mark_failed(deployment, e, now);
            Some(handed)
        },
    }
}

/// Refreshes a deployment from the router's reply to
/// `GET {router}/deployments/{id}` (`decoded` reads a successful answer's
/// body): 404 marks it `not_found`, a report is recorded; anything else is
/// answered 502 and changes nothing.
pub fn router_status_outcome(
    deployment: &mut Deployment,
    reply: &Reply,
    decoded: Result<RouterDeployment, String>,
    now: String,
) -> (r: Result<(), ApiError>)
    ensures
        (reply matches Reply::Answered { status, .. } && status == 404) ==> r is Ok && final(deployment).status@
            == "not_found"@ && *final(deployment) == (Deployment {
            status: final(deployment).status,
            updated_at: now,
            ..*old(deployment)
        }),
        !(reply matches Reply::Answered { status, .. } && status == 404) ==> match reply_result(
            *reply,
            decoded,
            "router status request failed: "@,
            "router status returned "@,
            "invalid router status response: "@,
        ) {
            Ok(router) => r is Ok && *final(deployment) == (Deployment {
                status: router.status,
                host: router.host,
                host_port: router.host_port,
                container_port: router.container_port,
                container_id: router.container_id,
                error: None,
                updated_at: now,
                ..*old(deployment)
            }),
            Err(m) => r matches Err(e) && e.status == 502 && e.message@ == m && *final(deployment) == *old(
                deployment,
            ),
        },
{
    let not_found = match reply {
        Reply::Answered { status, .. } => *status == 404,
        Reply::Unreachable(_) => false,
    };
    if not_found {
        mark_not_found(deployment, now);
        return Ok(());
    }
    match read_reply(
        reply,
        decoded,
        "router status request failed: ",
        "router status returned ",
        "invalid router status response: ",
    ) {
        Ok(router) => {
            apply_router_deployment(deployment, router, now);
            Ok(())
        },
        Err(m) => Err(json_error(502, m)),
    }
}

/// Whether the service's active deployment is the one named.
pub open spec fn is_active_deployment(service: Service, deployment_id: Seq<char>) -> bool {
    service.active_deployment_id matches Some(a) && a@ == deployment_id
}

/// What stopping a deployment records: the deployment is `stopped` with
/// no error; the service loses it as its active deployment.  Nothing else
/// changes.
pub open spec fn stop_recorded(
    s0: Service,
    s1: Service,
    d0: Deployment,
    d1: Deployment,
    deployment_id: Seq<char>,
    now: String,
) -> bool {
    &&& d1.status@ == "stopped"@
    &&& d1 == (Deployment { status: d1.status, error: None, updated_at: now, ..d0 })
    &&& if is_active_deployment(s0, deployment_id) {
        s1 == (Service { active_deployment_id: None, updated_at: now, ..s0 })
    } else {
        s1 == s0
    }
}

/// Records a stopped deployment; if it was the service's active one, the
/// service no longer has an active deployment.
pub fn mark_stopped(service: &mut Service, deployment: &mut Deployment, deployment_id: &str, now: String)
    ensures
        stop_recorded(*old(service), *final(service), *old(deployment), *final(deployment), deployment_id@, now),
{
    deployment.status = String::from_str("stopped");
    deployment.error = None;
    deployment.updated_at = now.clone();
    let is_active = match &service.active_deployment_id {
        Some(a) => str_eq(a.as_str(), deployment_id),
        None => false,
    };
    if is_active {
        service.active_deployment_id = None;
        service.updated_at = now;
    }
}

/// Stops a deployment after the router's reply to
/// `DELETE {router}/deployments/{id}`: on a 2xx or 404 answer the stop is
/// recorded; otherwise the answer is 502 and nothing changes.
pub fn stop_after_reply(
    service: &mut Service,
    deployment: &mut Deployment,
    deployment_id: &str,
    reply: &Reply,
    now: String,
) -> (r: Result<(), ApiError>)
    ensures
        match *reply {
            Reply::Unreachable(e) => r matches Err(x) && x.status == 502 && x.message@
                == "router stop request failed: "@ + e@,
            Reply::Answered { status, status_line, body } => if stop_accepted(status) {
                r is Ok
            } else {
                r matches Err(x) && x.status == 502 && x.message@ == "router stop returned "@ + status_line@
                    + ": "@ + body@
            },
        },
        r is Ok ==> stop_recorded(*old(service), *final(service), *old(deployment), *final(deployment), deployment_id@, now),
        r is Err ==> *final(service) == *old(service) && *final(deployment) == *old(deployment),
{
    match reply {
        Reply::Unreachable(e) => Err(json_error(502, concat_str("router stop request failed: ", e.as_str()))),
        Reply::Answered { status, status_line, body } => {
            if is_stop_accepted(*status) {
                mark_stopped(service, deployment, deployment_id, now);
                Ok(())
            } else {
                let m = push_str(push_str(concat_str("router stop returned ", status_line.as_str()), ": "), body.as_str());
                Err(json_error(502, m))
            }
        },
    }
}

/// The active deployment to stop before retrying another one: the
/// service's active deployment, unless it is the one retried.
pub fn deployment_to_stop_before_retry(service: &Service, deployment_id: &str) -> (r: Option<String>)
    ensures
        match service.active_deployment_id {
            Some(a) => if a@ == deployment_id@ {
                r is None
            } else {
                r == Some(a)
            },
            None => r is None,
        },
{
    match &service.active_deployment_id {
        Some(a) => if str_eq(a.as_str(), deployment_id) {
            None
        } else {
            Some(a.clone())
        },
        None => None,
    }
}

/// Readies a deployment to be retried: its argv gains a leading `./main`
/// if it lacks one, it is `deploying` again without error, and the
/// service records its package and it as active.
pub fn prepare_retry(service: &mut Service, deployment: &mut Deployment, now: String)
    ensures
        (old(deployment).argv@.len() > 0 && old(deployment).argv@[0]@ == "./main"@) ==> final(deployment).argv@
            == old(deployment).argv@,
        !(old(deployment).argv@.len() > 0 && old(deployment).argv@[0]@ == "./main"@) ==> texts(
            final(deployment).argv@,
        ) == seq!["./main"@] + texts(old(deployment).argv@),
        final(deployment).status@ == "deploying"@,
        final(deployment).error is None,
        final(deployment).updated_at == now,
        final(deployment).id == old(deployment).id && final(deployment).package_id == old(deployment).package_id
            && final(deployment).port == old(deployment).port && final(deployment).created_at == old(deployment).created_at,
        final(service).active_package_id == Some(old(deployment).package_id),
        final(service).active_deployment_id == Some(old(deployment).id),
        final(service).updated_at == now,
        final(service).id == old(service).id && final(service).argv@ == old(service).argv@,
{
    let starts_with_main = deployment.argv.len() > 0 && str_eq(deployment.argv[0].as_str(), "./main");
    if !starts_with_main {
        let ghost before = deployment.argv@;
        deployment.argv.insert(0, String::from_str("./main"));
        proof {
            assert(texts(deployment.argv@) =~= seq!["./main"@] + texts(before));
        }
    }
    deployment.status = String::from_str("deploying");
    deployment.error = None;
    deployment.updated_at = now.clone();
    service.active_package_id = Some(deployment.package_id.clone());
    service.active_deployment_id = Some(deployment.id.clone());
    service.updated_at = now;
}

/// The HTTP status of a retry's answer: 502 when the router refused the
/// deployment, 200 otherwise.
pub fn retry_status(error: &Option<String>) -> (s: u16)
    ensures
        s == (if error is Some {
            502u16
        } else {
            200u16
        }),
{
    if error.is_some() {
        502
    } else {
        200
    }
}

/// Refuses to deploy a package whose archive is no longer stored (409).
pub fn require_available_blob(package: &Package, message: &str) -> (r: Result<(), ApiError>)
    ensures
        if package.blob_status == BlobStatus::Available {
            r is Ok
        } else {
            r matches Err(e) && e.status == 409 && e.message@ == message@
        },
{
    if package.blob_status == BlobStatus::Available {
        Ok(())
    } else {
        Err(json_error(409, String::from_str(message)))
    }
}

/// The package a service is started with: its active package, or 409
/// `service has no active package`.
pub fn package_to_start(service: &Service) -> (r: Result<String, ApiError>)
    ensures
        match service.active_package_id {
            Some(p) => r == Ok::<String, ApiError>(p),
            None => r matches Err(e) && e.status == 409 && e.message@ == "service has no active package"@,
        },
{
    match &service.active_package_id {
        Some(p) => Ok(p.clone()),
        None => Err(json_error(409, String::from_str("service has no active package"))),
    }
}

/// The deployment a stop request stops: the service's active deployment,
/// or 409 `service has no active deployment`.
pub fn deployment_to_stop(service: &Service) -> (r: Result<String, ApiError>)
    ensures
        match service.active_deployment_id {
            Some(d) => r == Ok::<String, ApiError>(d),
            None => r matches Err(e) && e.status == 409 && e.message@ == "service has no active deployment"@,
        },
{
    match &service.active_deployment_id {
        Some(d) => Ok(d.clone()),
        None => Err(json_error(409, String::from_str("service has no active deployment"))),
    }
}

/// Whether a stored deployment belongs to the service.
pub open spec fn deployment_of(d: Deployment, service: Service) -> bool {
    d.owner == service.owner && d.app_id@ == service.app_id@ && d.service_id@ == service.id@
}

/// Answers 404 `deployment not found` for a stored deployment of another
/// service.
pub fn check_deployment_owner(deployment: &Deployment, service: &Service) -> (r: Result<(), ApiError>)
    ensures
        if deployment_of(*deployment, *service) {
            r is Ok
        } else {
            r matches Err(e) && e.status == 404 && e.message@ == "deployment not found"@
        },
{
    if deployment.owner != service.owner || !str_eq(deployment.app_id.as_str(), service.app_id.as_str())
        || !str_eq(deployment.service_id.as_str(), service.id.as_str()) {
        return Err(json_error(404, String::from_str("deployment not found")));
    }
    Ok(())
}

/// Deployments are listed newest first: `a` comes before `b` when it was
/// created strictly later (text order of the timestamps).
pub open spec fn created_later() -> spec_fn(Deployment, Deployment) -> bool {
    |a: Deployment, b: Deployment| text_lt(b.created_at@, a.created_at@)
}

/// Sorts deployments newest first; deployments created at the same time
/// keep their relative order.
pub fn sort_deployments_newest_first(deployments: &mut Vec<Deployment>)
    ensures
        final(deployments)@ == stable_sorted_by(old(deployments)@, created_later()),
{
    let mut rest: Vec<Deployment> = Vec::new();
    std::mem::swap(&mut rest, deployments);
    let ghost orig = rest@;
    let total: usize = rest.len();
    let mut out: Vec<Deployment> = Vec::new();
    let mut k: usize = 0;
    while rest.len() > 0
        invariant
            k + rest@.len() == orig.len(),
            orig.len() == total,
            rest@ == orig.subrange(k as int, orig.len() as int),
            out@ == stable_sorted_by(orig.subrange(0, k as int), created_later()),
        decreases rest@.len(),
    {
        let d = rest.remove(0);
        proof {
            assert(d == orig[k as int]);
            crate::order::lemma_stable_sorted_step(orig, k as int, created_later());
        }
        let ghost before = out@;
        let mut p: usize = out.len();
        while p > 0 && str_lt(out[p - 1].created_at.as_str(), d.created_at.as_str())
            invariant
                p <= out@.len(),
                out@ == before,
                forall|j: int| p <= j < out@.len() ==> (created_later())(d, #[trigger] out@[j]),
            decreases p,
        {
            p = p - 1;
        }
        proof {
            lemma_insert_by_at(before, d, created_later(), p as int);
        }
        out.insert(p, d);
        k = k + 1;
        proof {
            assert(rest@ =~= orig.subrange(k as int, orig.len() as int));
        }
    }
    proof {
        assert(orig.subrange(0, orig.len() as int) =~= orig);
    }
    *deployments = out;
}

/// Newest-first is a strict weak order.
pub proof fn created_later_is_strict_weak()
    ensures
        strict_weak_order(created_later()),
{
    let f = created_later();
    assert forall|a: Deployment| !#[trigger] f(a, a) by {
        lemma_text_lt_irreflexive(a.created_at@);
    }
    assert forall|a: Deployment, b: Deployment, c: Deployment| #[trigger] f(a, b) && #[trigger] f(b, c) implies f(
        a,
        c,
    ) by {
        lemma_text_lt_transitive(c.created_at@, b.created_at@, a.created_at@);
    }
    assert forall|a: Deployment, b: Deployment, c: Deployment| !#[trigger] f(a, b) && !#[trigger] f(b, c) implies !f(
        a,
        c,
    ) by {
        lemma_text_not_lt_transitive(a.created_at@, b.created_at@, c.created_at@);
    }
}

/// Law: a deployment listing is newest first (no deployment is listed
/// after one created earlier), lists every deployment it was given, as
/// often as it was given, and keeps deployments created at the same time
/// in the order given.
pub proof fn deployment_listing_is_newest_first(deployments: Seq<Deployment>)
    ensures
        forall|i: int, j: int|
            0 <= i < j < stable_sorted_by(deployments, created_later()).len() ==> !text_lt(
                #[trigger] stable_sorted_by(deployments, created_later())[i].created_at@,
                #[trigger] stable_sorted_by(deployments, created_later())[j].created_at@,
            ),
        stable_sorted_by(deployments, created_later()).to_multiset() == deployments.to_multiset(),
        forall|c: Deployment|
            #[trigger] stable_sorted_by(deployments, created_later()).filter(tied_with(c, created_later()))
                == deployments.filter(tied_with(c, created_later())),
{
    created_later_is_strict_weak();
    assert forall|c: Deployment|
        #[trigger] stable_sorted_by(deployments, created_later()).filter(tied_with(c, created_later()))
            == deployments.filter(tied_with(c, created_later())) by {
        stable_sort_keeps_ties_in_order(deployments, created_later(), c);
    }
    stable_sort_is_ordered(deployments, created_later());
    stable_sort_is_permutation(deployments, created_later());
    let r = stable_sorted_by(deployments, created_later());
    assert forall|i: int, j: int| 0 <= i < j < r.len() implies !text_lt(
        #[trigger] r[i].created_at@,
        #[trigger] r[j].created_at@,
    ) by {
        assert(!(created_later())(r[j], r[i]));
    }
}

/// The deployments of the service among `s`, in the order given.
pub open spec fn service_deployments(s: Seq<Deployment>, service: Service) -> Seq<Deployment>
    decreases s.len(),
{
    if s.len() == 0 {
        s
    } else {
        let rest = service_deployments(s.drop_last(), service);
        if deployment_of(s.last(), service) {
            rest.push(s.last())
        } else {
            rest
        }
    }
}

/// The deployments of a listing: those of the service, newest first.
pub fn deployments_for_listing(deployments: Vec<Deployment>, service: &Service) -> (r: Vec<Deployment>)
    ensures
        r@ == stable_sorted_by(service_deployments(deployments@, *service), created_later()),
{
    let mut rest = deployments;
    let ghost orig = rest@;
    let total: usize = rest.len();
    let mut kept: Vec<Deployment> = Vec::new();
    let mut k: usize = 0;
    while rest.len() > 0
        invariant
            k + rest@.len() == orig.len(),
            orig.len() == total,
            rest@ == orig.subrange(k as int, orig.len() as int),
            kept@ == service_deployments(orig.subrange(0, k as int), *service),
        decreases rest@.len(),
    {
        let d = rest.remove(0);
        proof {
            assert(d == orig[k as int]);
            assert(orig.subrange(0, k + 1).drop_last() =~= orig.subrange(0, k as int));
        }
        if check_deployment_owner(&d, service).is_ok() {
            kept.push(d);
        }
        k = k + 1;
        proof {
            assert(rest@ =~= orig.subrange(k as int, orig.len() as int));
        }
    }
    proof {
        assert(orig.subrange(0, orig.len() as int) =~= orig);
    }
    sort_deployments_newest_first(&mut kept);
    kept
}

} // verus!
