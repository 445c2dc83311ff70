//! The router's logic: explicit deployments (validation, reuse and
//! conflicts, the registry of running deployments), host bindings for
//! routed traffic and their idle expiry, and the answers it gives.
//!
//! Clock readings are nanoseconds of a monotonic clock, supplied by the
//! caller.

pub mod utils;

use vstd::prelude::*;
use dashmap::DashMap;
use crate::api::config::{base_url, router_base_url};
use crate::api::deployments::texts;
use crate::reply::{is_stop_accepted, read_reply, reply_result, stop_accepted, Reply};
use crate::text::{clone_strings, concat_str, decimal, push_decimal, push_str, str_eq, strings_eq, trim, trimmed};

verus! {

/// How long a host binding may stay unused before its container is
/// stopped, in nanoseconds (30 minutes).
pub const CONTAINER_IDLE_TIMEOUT_NANOS: u64 = 1800000000000;

/// A hypervisor server the router can start containers on.
pub struct ServerConfig {
    pub id: String,
    pub address: String,
    pub tunnel: bool,
    pub tunnel_address: Option<String>,
    pub power: u32,
}

/// A copy of a server's configuration.
pub fn copy_server(s: &ServerConfig) -> (r: ServerConfig)
    ensures
        r == *s,
{
    ServerConfig {
        id: s.id.clone(),
        address: s.address.clone(),
        tunnel: s.tunnel,
        tunnel_address: crate::text::clone_opt(&s.tunnel_address),
        power: s.power,
    }
}

/// Whether traffic to a server goes through a tunnel.
pub fn is_tunnel(server: &ServerConfig) -> (r: bool)
    ensures
        r == (server.tunnel || server.tunnel_address is Some),
{
    server.tunnel || server.tunnel_address.is_some()
}

/// The base URL of a hypervisor from its configured address: trailing
/// `/` removed, `http://` prepended unless it names `http` or `https`.
pub fn hypervisor_base_url(address: &str) -> (url: String)
    ensures
        url@ == base_url(address@),
{
    router_base_url(address)
}

/// The host part of a URL, as `reqwest::Url::parse` then `host_str` find
/// it; none when the text does not parse or has no host.
pub uninterp spec fn url_host(url: Seq<char>) -> Option<Seq<char>>;

/// `reqwest::Url::parse(url)`, then `Url::host_str`: the parsed URL's
/// host, or none.  The result is named by `url_host`.
#[verifier::external_body]
fn parse_url_host(url: &str) -> (r: Option<String>)
    ensures
        crate::api::apps::opt_view(r) == url_host(url@),
{
    reqwest::Url::parse(url).ok()?.host_str().map(|h| h.to_owned())
}

/// The host the router dials for a server: the host of its base URL.
pub fn server_dial_host(server: &ServerConfig) -> (r: Option<String>)
    ensures
        crate::api::apps::opt_view(r) == url_host(base_url(server.address@)),
{
    let base = hypervisor_base_url(server.address.as_str());
    parse_url_host(base.as_str())
}

/// Where a deployment's container runs: its id and its hypervisor.
pub struct ContainerTarget {
    pub id: String,
    pub hypervisor_url: String,
}

/// The state of an explicit deployment.
#[derive(Clone, Copy, Debug, PartialEq, Eq, Structural)]
pub enum DeploymentStatus {
    Running,
    Deleted,
}

/// A running explicit deployment.
pub struct DeploymentBinding {
    pub service_id: String,
    pub package_id: String,
    pub argv: Vec<String>,
    pub container: ContainerTarget,
    pub hypervisor_id: String,
    pub host: String,
    pub host_port: u16,
    pub container_port: u16,
    pub status: DeploymentStatus,
}

/// A request to run a package for a service.
pub struct DeploymentRequest {
    pub service_id: String,
    pub package_id: String,
    pub argv: Vec<String>,
    pub port: u16,
}

/// What the router answers about an explicit deployment.
pub struct DeploymentResponse {
    pub deployment_id: String,
    pub status: DeploymentStatus,
    pub host: Option<String>,
    pub host_port: Option<u16>,
    pub container_port: Option<u16>,
    pub container_id: Option<String>,
}

/// A host binding of routed traffic: where to dial, the container, and
/// when it was last used.
pub struct Bind {
    pub port: u16,
    pub host: String,
    pub container: ContainerTarget,
    pub last: u64,
}

/// Why a deployment request is refused, if it is: a blank deployment,
/// service or package id, an empty argv, or port 0, checked in that order.
pub open spec fn deployment_request_fault(deployment_id: Seq<char>, request: DeploymentRequest) -> Option<Seq<char>> {
    if trim(deployment_id).len() == 0 {
        Some("deployment_id must not be empty"@)
    } else if trim(request.service_id@).len() == 0 {
        Some("service_id must not be empty"@)
    } else if trim(request.package_id@).len() == 0 {
        Some("package_id must not be empty"@)
    } else if request.argv@.len() == 0 {
        Some("argv must not be empty"@)
    } else if request.port == 0 {
        Some("port must not be zero"@)
    } else {
        None
    }
}

/// Checks an explicit deployment request.
pub fn validate_deployment_request(deployment_id: &str, request: &DeploymentRequest) -> (r: Result<(), &'static str>)
    ensures
        match deployment_request_fault(deployment_id@, *request) {
            Some(m) => r matches Err(e) && e@ == m,
            None => r is Ok,
        },
{
    if trimmed(deployment_id).len() == 0 {
        return Err("deployment_id must not be empty");
    }
    if trimmed(request.service_id.as_str()).len() == 0 {
        return Err("service_id must not be empty");
    }
    if trimmed(request.package_id.as_str()).len() == 0 {
        return Err("package_id must not be empty");
    }
    if request.argv.len() == 0 {
        return Err("argv must not be empty");
    }
    if request.port == 0 {
        return Err("port must not be zero");
    }
    Ok(())
}

/// Whether a running deployment was started with the full launch
/// configuration of a request: service, package, argv and port.
pub open spec fn same_launch(binding: DeploymentBinding, request: DeploymentRequest) -> bool {
    &&& binding.service_id@ == request.service_id@
    &&& binding.package_id@ == request.package_id@
    &&& texts(binding.argv@) == texts(request.argv@)
    &&& binding.container_port == request.port
}

/// Whether a request asks for what the running deployment already runs.
pub fn deployment_matches_request(binding: &DeploymentBinding, request: &DeploymentRequest) -> (r: bool)
    ensures
        r == same_launch(*binding, *request),
{
    str_eq(binding.service_id.as_str(), request.service_id.as_str()) && str_eq(
        binding.package_id.as_str(),
        request.package_id.as_str(),
    ) && strings_eq(&binding.argv, &request.argv) && binding.container_port == request.port
}

/// The answer for a running deployment.
pub fn deployment_response(deployment_id: &str, binding: &DeploymentBinding) -> (r: DeploymentResponse)
    ensures
        r.deployment_id@ == deployment_id@,
        r.status == binding.status,
        r.host == Some(binding.host),
        r.host_port == Some(binding.host_port),
        r.container_port == Some(binding.container_port),
        r.container_id == Some(binding.container.id),
{
    DeploymentResponse {
        deployment_id: String::from_str(deployment_id),
        status: binding.status,
        host: Some(binding.host.clone()),
        host_port: Some(binding.host_port),
        container_port: Some(binding.container_port),
        container_id: Some(binding.container.id.clone()),
    }
}

/// The answer for a deployment that no longer runs.
pub fn deleted_deployment_response(deployment_id: &str) -> (r: DeploymentResponse)
    ensures
        r.deployment_id@ == deployment_id@,
        r.status == DeploymentStatus::Deleted,
        r.host is None && r.host_port is None && r.container_port is None && r.container_id is None,
{
    DeploymentResponse {
        deployment_id: String::from_str(deployment_id),
        status: DeploymentStatus::Deleted,
        host: None,
        host_port: None,
        container_port: None,
        container_id: None,
    }
}

/// Whether a deployment id in a path is blank (answered with 400).
pub fn deployment_id_blank(deployment_id: &str) -> (r: bool)
    ensures
        r == (trim(deployment_id@).len() == 0),
{
    trimmed(deployment_id).len() == 0
}

/// Two bindings with the same content.
pub open spec fn same_binding(a: DeploymentBinding, b: DeploymentBinding) -> bool {
    &&& a.service_id == b.service_id
    &&& a.package_id == b.package_id
    &&& texts(a.argv@) == texts(b.argv@)
    &&& a.container == b.container
    &&& a.hypervisor_id == b.hypervisor_id
    &&& a.host == b.host
    &&& a.host_port == b.host_port
    &&& a.container_port == b.container_port
    &&& a.status == b.status
}

/// A copy of a deployment binding.
pub fn copy_binding(b: &DeploymentBinding) -> (r: DeploymentBinding)
    ensures
        same_binding(r, *b),
{
    DeploymentBinding {
        service_id: b.service_id.clone(),
        package_id: b.package_id.clone(),
        argv: clone_strings(&b.argv),
        container: ContainerTarget { id: b.container.id.clone(), hypervisor_url: b.container.hypervisor_url.clone() },
        hypervisor_id: b.hypervisor_id.clone(),
        host: b.host.clone(),
        host_port: b.host_port,
        container_port: b.container_port,
        status: b.status,
    }
}

/// A copy of a host binding.
pub fn copy_bind(b: &Bind) -> (r: Bind)
    ensures
        r == *b,
{
    Bind {
        port: b.port,
        host: b.host.clone(),
        container: ContainerTarget { id: b.container.id.clone(), hypervisor_url: b.container.hypervisor_url.clone() },
        last: b.last,
    }
}

/// A concurrent map of `dashmap`, used as the registry of deployments
/// and of host bindings.
#[verifier::external_type_specification]
#[verifier::external_body]
#[verifier::reject_recursive_types(K)]
#[verifier::reject_recursive_types(V)]
#[verifier::reject_recursive_types(S)]
pub struct ExDashMap<K, V, S>(DashMap<K, V, S>);

/// The deployments a registry holds, by deployment id.
pub uninterp spec fn deployments_held(m: DashMap<String, DeploymentBinding>) -> Map<Seq<char>, DeploymentBinding>;

/// The host bindings a registry holds, by host.
pub uninterp spec fn bindings_held(m: DashMap<String, Bind>) -> Map<Seq<char>, Bind>;

/// The entry under `k`, if any.
pub open spec fn entry_at<V>(m: Map<Seq<char>, V>, k: Seq<char>) -> Option<V> {
    if m.dom().contains(k) {
        Some(m[k])
    } else {
        None
    }
}

/// `DashMap::get`, copying the deployment found under the id.
#[verifier::external_body]
fn registry_get(m: &DashMap<String, DeploymentBinding>, id: &str) -> (r: Option<DeploymentBinding>)
    ensures
        r is Some <==> deployments_held(*m).dom().contains(id@),
        r matches Some(b) ==> same_binding(b, deployments_held(*m)[id@]),
{
    m.get(id).map(|entry| copy_binding(entry.value()))
}

/// `DashMap::remove`: takes the deployment under the id out of the
/// registry and hands it back.
#[verifier::external_body]
fn registry_remove(m: &mut DashMap<String, DeploymentBinding>, id: &str) -> (r: Option<DeploymentBinding>)
    ensures
        r == entry_at(deployments_held(*old(m)), id@),
        deployments_held(*final(m)) == deployments_held(*old(m)).remove(id@),
{
    m.remove(id).map(|(_, binding)| binding)
}

/// `DashMap::insert`: stores the deployment under the id, replacing and
/// handing back any earlier one.
#[verifier::external_body]
fn registry_insert(m: &mut DashMap<String, DeploymentBinding>, id: String, binding: DeploymentBinding) -> (r: Option<
    DeploymentBinding,
>)
    ensures
        r == entry_at(deployments_held(*old(m)), id@),
        deployments_held(*final(m)) == deployments_held(*old(m)).insert(id@, binding),
{
    m.insert(id, binding)
}

/// `DashMap::get` on host bindings, copying the binding found.
#[verifier::external_body]
fn bind_get(m: &DashMap<String, Bind>, host: &str) -> (r: Option<Bind>)
    ensures
        r == entry_at(bindings_held(*m), host@),
{
    m.get(host).map(|entry| copy_bind(entry.value()))
}

/// `DashMap::remove` on host bindings.
#[verifier::external_body]
fn bind_remove(m: &mut DashMap<String, Bind>, host: &str) -> (r: Option<Bind>)
    ensures
        r == entry_at(bindings_held(*old(m)), host@),
        bindings_held(*final(m)) == bindings_held(*old(m)).remove(host@),
{
    m.remove(host).map(|(_, binding)| binding)
}

/// `DashMap::insert` on host bindings.
#[verifier::external_body]
fn bind_insert(m: &mut DashMap<String, Bind>, host: String, binding: Bind) -> (r: Option<Bind>)
    ensures
        r == entry_at(bindings_held(*old(m)), host@),
        bindings_held(*final(m)) == bindings_held(*old(m)).insert(host@, binding),
{
    m.insert(host, binding)
}

/// `DashMap::iter`, keeping each entry's key: every host of the map
/// once, in the map's own order.
#[verifier::external_body]
fn bind_hosts(m: &DashMap<String, Bind>) -> (hosts: Vec<String>)
    ensures
        forall|k: Seq<char>| #[trigger] bindings_held(*m).dom().contains(k) <==> exists|i: int|
            0 <= i < hosts@.len() && #[trigger] hosts@[i]@ == k,
        forall|i: int, j: int| 0 <= i < j < hosts@.len() ==> #[trigger] hosts@[i]@ != #[trigger] hosts@[j]@,
{
    m.iter().map(|entry| entry.key().clone()).collect()
}

/// The running deployment registered under the id, if any.
pub fn find_running_deployment(deployments: &DashMap<String, DeploymentBinding>, deployment_id: &str) -> (r: Option<
    DeploymentBinding,
>)
    ensures
        r is Some <==> (deployments_held(*deployments).dom().contains(deployment_id@)
            && deployments_held(*deployments)[deployment_id@].status == DeploymentStatus::Running),
        r matches Some(b) ==> same_binding(b, deployments_held(*deployments)[deployment_id@]),
{
    match registry_get(deployments, deployment_id) {
        Some(b) => if b.status == DeploymentStatus::Running {
            Some(b)
        } else {
            None
        },
        None => None,
    }
}

/// Takes a deployment out of the registry, handing it back if it was
/// there.
pub fn remove_deployment(deployments: &mut DashMap<String, DeploymentBinding>, deployment_id: &str) -> (r: Option<
    DeploymentBinding,
>)
    ensures
        r == entry_at(deployments_held(*old(deployments)), deployment_id@),
        deployments_held(*final(deployments)) == deployments_held(*old(deployments)).remove(deployment_id@),
{
    registry_remove(deployments, deployment_id)
}

/// Law: removing a deployment twice finds it at most once; the second
/// removal finds nothing and changes nothing.
pub proof fn removal_is_idempotent(held: Map<Seq<char>, DeploymentBinding>, id: Seq<char>)
    ensures
        entry_at(held.remove(id), id) is None,
        held.remove(id).remove(id) == held.remove(id),
{
    assert(held.remove(id).remove(id) =~= held.remove(id));
}

/// The error of a shutdown request read from the hypervisor's reply:
/// none on a 2xx or 404 answer.
pub open spec fn shutdown_error(reply: Reply) -> Option<Seq<char>> {
    match reply {
        Reply::Unreachable(e) => Some("shutdown request failed: "@ + e@),
        Reply::Answered { status, status_line, body } => if stop_accepted(status) {
            None
        } else {
            Some("shutdown returned "@ + status_line@ + ": "@ + body@)
        },
    }
}

/// Reads a hypervisor's reply to `POST {hypervisor}/container/shutdown/{id}`.
pub fn shutdown_outcome(reply: &Reply) -> (r: Result<(), String>)
    ensures
        match shutdown_error(*reply) {
            None => r is Ok,
            Some(m) => r matches Err(s) && s@ == m,
        },
{
    match reply {
        Reply::Unreachable(e) => Err(concat_str("shutdown request failed: ", e.as_str())),
        Reply::Answered { status, status_line, body } => {
            if is_stop_accepted(*status) {
                Ok(())
            } else {
                Err(push_str(push_str(concat_str("shutdown returned ", status_line.as_str()), ": "), body.as_str()))
            }
        },
    }
}

/// Finishes deleting a running deployment once its container's shutdown
/// was answered: when the shutdown is done the deployment leaves the
/// registry and the answer is the deleted deployment; otherwise the
/// answer is 502 with the shutdown's error and the registry keeps it.
pub fn finish_delete_deployment(
    deployments: &mut DashMap<String, DeploymentBinding>,
    deployment_id: &str,
    reply: &Reply,
) -> (r: Result<DeploymentResponse, RouteFailure>)
    ensures
        match shutdown_error(*reply) {
            None => r matches Ok(resp) && resp.deployment_id@ == deployment_id@ && resp.status
                == DeploymentStatus::Deleted && resp.host is None && resp.host_port is None
                && resp.container_port is None && resp.container_id is None && deployments_held(
                *final(deployments),
            ) == deployments_held(*old(deployments)).remove(deployment_id@),
            Some(m) => r matches Err(f) && f.status == 502 && f.error@ == m && deployments_held(
                *final(deployments),
            ) == deployments_held(*old(deployments)),
        },
{
    match shutdown_outcome(reply) {
        Ok(()) => {
            remove_deployment(deployments, deployment_id);
            Ok(deleted_deployment_response(deployment_id))
        },
        Err(error) => Err(RouteFailure { status: 502, error }),
    }
}

/// What an explicit deployment request finds in the registry.
pub enum ExistingDeployment {
    /// A running deployment with the same launch configuration: answered
    /// as it is.
    Reuse(DeploymentResponse),
    /// A running deployment with another configuration (409).
    Conflict,
    /// No running deployment under the id.
    Absent,
}

/// Looks up an explicit deployment request in the registry.
pub fn check_existing_deployment(
    deployments: &DashMap<String, DeploymentBinding>,
    deployment_id: &str,
    request: &DeploymentRequest,
) -> (r: ExistingDeployment)
    ensures
        !(deployments_held(*deployments).dom().contains(deployment_id@) && deployments_held(
            *deployments,
        )[deployment_id@].status == DeploymentStatus::Running) ==> r is Absent,
        (deployments_held(*deployments).dom().contains(deployment_id@) && deployments_held(
            *deployments,
        )[deployment_id@].status == DeploymentStatus::Running) ==> {
            let b = deployments_held(*deployments)[deployment_id@];
            if same_launch(b, *request) {
                r matches ExistingDeployment::Reuse(resp) && resp.deployment_id@ == deployment_id@ && resp.status
                    == DeploymentStatus::Running && resp.host == Some(b.host) && resp.host_port == Some(b.host_port)
                    && resp.container_port == Some(b.container_port) && resp.container_id == Some(b.container.id)
            } else {
                r is Conflict
            }
        },
{
    match find_running_deployment(deployments, deployment_id) {
        Some(b) => if deployment_matches_request(&b, request) {
            ExistingDeployment::Reuse(deployment_response(deployment_id, &b))
        } else {
            ExistingDeployment::Conflict
        },
        None => ExistingDeployment::Absent,
    }
}

/// Registers a deployment the router just started and gives its answer.
pub fn register_started_deployment(
    deployments: &mut DashMap<String, DeploymentBinding>,
    deployment_id: &str,
    request: &DeploymentRequest,
    container_id: String,
    server: &ServerConfig,
    host: String,
    host_port: u16,
) -> (r: DeploymentResponse)
    ensures
        deployments_held(*final(deployments)).dom() == deployments_held(*old(deployments)).dom().insert(deployment_id@),
        forall|k: Seq<char>| k != deployment_id@ && #[trigger] deployments_held(*old(deployments)).dom().contains(k)
            ==> deployments_held(*final(deployments))[k] == deployments_held(*old(deployments))[k],
        ({
            let b = deployments_held(*final(deployments))[deployment_id@];
            &&& same_launch(b, *request)
            &&& b.container.id == container_id
            &&& b.container.hypervisor_url@ == base_url(server.address@)
            &&& b.hypervisor_id == server.id
            &&& b.host == host
            &&& b.host_port == host_port
            &&& b.status == DeploymentStatus::Running
        }),
        r.deployment_id@ == deployment_id@,
        r.status == DeploymentStatus::Running,
        r.host == Some(host),
        r.host_port == Some(host_port),
        r.container_port == Some(request.port),
        r.container_id == Some(container_id),
{
    let binding = DeploymentBinding {
        service_id: request.service_id.clone(),
        package_id: request.package_id.clone(),
        argv: clone_strings(&request.argv),
        container: ContainerTarget { id: container_id, hypervisor_url: hypervisor_base_url(server.address.as_str()) },
        hypervisor_id: server.id.clone(),
        host,
        host_port,
        container_port: request.port,
        status: DeploymentStatus::Running,
    };
    let response = deployment_response(deployment_id, &binding);
    let ghost stored = binding;
    registry_insert(deployments, String::from_str(deployment_id), binding);
    proof {
        assert(deployments_held(*deployments)[deployment_id@] == stored);
    }
    response
}

/// The time elapsed from `last` to `now`; zero when the clock reads
/// earlier than `last`.
pub open spec fn elapsed(last: u64, now: u64) -> int {
    if now >= last {
        now - last
    } else {
        0
    }
}

/// A host binding unused for at least `idle_timeout`.
pub open spec fn is_idle(b: Bind, now: u64, idle_timeout: u64) -> bool {
    elapsed(b.last, now) >= idle_timeout
}

/// What routing finds for a host among the bindings.
pub enum RouteLookup {
    /// A binding in use: dial this host and port.
    Bound { host: String, port: u16 },
    /// An idle binding, now removed: its container is to be stopped.
    Stale(ContainerTarget),
    /// No binding.
    Unbound,
}

/// Looks up the binding of a host for a request at `now`.  A binding in
/// use is refreshed and dialed; an idle one is removed and its container
/// handed back to be stopped.
pub fn lookup_route(bindings: &mut DashMap<String, Bind>, host: &str, now: u64, idle_timeout: u64) -> (r: RouteLookup)
    ensures
        match entry_at(bindings_held(*old(bindings)), host@) {
            None => r is Unbound && bindings_held(*final(bindings)) == bindings_held(*old(bindings)),
            Some(b) => if is_idle(b, now, idle_timeout) {
                r == RouteLookup::Stale(b.container) && bindings_held(*final(bindings)) == bindings_held(
                    *old(bindings),
                ).remove(host@)
            } else {
                r == (RouteLookup::Bound { host: b.host, port: b.port }) && bindings_held(*final(bindings))
                    == bindings_held(*old(bindings)).insert(host@, Bind { last: now, ..b })
            },
        },
{
    match bind_get(bindings, host) {
        None => RouteLookup::Unbound,
        Some(b) => {
            let idle_for: u64 = if now >= b.last {
                now - b.last
            } else {
                0
            };
            if idle_for >= idle_timeout {
                bind_remove(bindings, host);
                RouteLookup::Stale(b.container)
            } else {
                let answer = RouteLookup::Bound { host: b.host.clone(), port: b.port };
                let refreshed = Bind { last: now, ..b };
                bind_insert(bindings, String::from_str(host), refreshed);
                answer
            }
        },
    }
}

/// Records the binding of a host to a container the router just started
/// for it, used at `now`.
pub fn bind_host(
    bindings: &mut DashMap<String, Bind>,
    host: &str,
    dial_host: String,
    port: u16,
    container_id: String,
    server: &ServerConfig,
    now: u64,
)
    ensures
        bindings_held(*final(bindings)).dom().contains(host@),
        bindings_held(*final(bindings)) == bindings_held(*old(bindings)).insert(
            host@,
            bindings_held(*final(bindings))[host@],
        ),
        ({
            let b = bindings_held(*final(bindings))[host@];
            &&& b.port == port
            &&& b.host == dial_host
            &&& b.container.id == container_id
            &&& b.container.hypervisor_url@ == base_url(server.address@)
            &&& b.last == now
        }),
{
    let b = Bind {
        port,
        host: dial_host,
        container: ContainerTarget { id: container_id, hypervisor_url: hypervisor_base_url(server.address.as_str()) },
        last: now,
    };
    bind_insert(bindings, String::from_str(host), b);
}

/// Whether `k` is among the first `n` hosts.
pub open spec fn seen(hosts: Seq<String>, n: int, k: Seq<char>) -> bool {
    exists|x: int| 0 <= x < n && #[trigger] hosts[x]@ == k
}

proof fn lemma_seen_step(hosts: Seq<String>, n: int, k: Seq<char>)
    requires
        0 <= n < hosts.len(),
    ensures
        seen(hosts, n + 1, k) <==> (seen(hosts, n, k) || hosts[n]@ == k),
{
    if seen(hosts, n + 1, k) {
        let x = choose|x: int| 0 <= x < n + 1 && #[trigger] hosts[x]@ == k;
        if x < n {
            assert(seen(hosts, n, k));
        }
    }
    if hosts[n]@ == k {
        assert(hosts[n]@ == k);
    }
}

/// Removes every host binding idle at `now` and hands back their
/// containers, to be stopped.
pub fn drain_idle_bindings(bindings: &mut DashMap<String, Bind>, idle_timeout: u64, now: u64) -> (targets: Vec<
    ContainerTarget,
>)
    ensures
        forall|k: Seq<char>| #[trigger] bindings_held(*final(bindings)).dom().contains(k) <==> (bindings_held(
            *old(bindings),
        ).dom().contains(k) && !is_idle(bindings_held(*old(bindings))[k], now, idle_timeout)),
        forall|k: Seq<char>| #[trigger] bindings_held(*final(bindings)).dom().contains(k) ==> bindings_held(
            *final(bindings),
        )[k] == bindings_held(*old(bindings))[k],
        exists|hosts: Seq<Seq<char>>|
            #![trigger hosts.len()]
            {
                &&& hosts.len() == targets@.len()
                &&& forall|i: int, j: int| 0 <= i < j < hosts.len() ==> #[trigger] hosts[i] != #[trigger] hosts[j]
                &&& forall|k: Seq<char>| #[trigger] hosts.contains(k) <==> (bindings_held(*old(bindings)).dom().contains(k)
                    && is_idle(bindings_held(*old(bindings))[k], now, idle_timeout))
                &&& forall|i: int| 0 <= i < hosts.len() ==> #[trigger] targets@[i] == bindings_held(
                    *old(bindings),
                )[hosts[i]].container
            },
{
    let ghost held0 = bindings_held(*bindings);
    let hosts = bind_hosts(bindings);
    let mut targets: Vec<ContainerTarget> = Vec::new();
    let ghost mut drained: Seq<Seq<char>> = Seq::empty();
    let mut i: usize = 0;
    while i < hosts.len()
        invariant
            i <= hosts@.len(),
            forall|k: Seq<char>| #[trigger] held0.dom().contains(k) <==> seen(hosts@, hosts@.len() as int, k),
            forall|x: int, y: int| 0 <= x < y < hosts@.len() ==> #[trigger] hosts@[x]@ != #[trigger] hosts@[y]@,
            forall|k: Seq<char>| #[trigger] bindings_held(*bindings).dom().contains(k) <==> (held0.dom().contains(k)
                && !(is_idle(held0[k], now, idle_timeout) && seen(hosts@, i as int, k))),
            forall|k: Seq<char>| #[trigger] bindings_held(*bindings).dom().contains(k) ==> bindings_held(*bindings)[k]
                == held0[k],
            drained.len() == targets@.len(),
            forall|a: int, b: int| 0 <= a < b < drained.len() ==> #[trigger] drained[a] != #[trigger] drained[b],
            forall|k: Seq<char>| #[trigger] drained.contains(k) <==> (held0.dom().contains(k) && is_idle(
                held0[k],
                now,
                idle_timeout,
            ) && seen(hosts@, i as int, k)),
            forall|a: int| 0 <= a < drained.len() ==> #[trigger] targets@[a] == held0[drained[a]].container,
        decreases hosts@.len() - i,
    {
        let h = &hosts[i];
        let ghost hk = h@;
        let ghost d0 = drained;
        let ghost b0 = bindings_held(*bindings);
        proof {
            assert(seen(hosts@, hosts@.len() as int, hk));
            assert(held0.dom().contains(hk));
            assert(!seen(hosts@, i as int, hk)) by {
                if seen(hosts@, i as int, hk) {
                    let x = choose|x: int| 0 <= x < i && #[trigger] hosts@[x]@ == hk;
                    assert(hosts@[x]@ != hosts@[i as int]@);
                }
            }
            assert(b0.dom().contains(hk));
        }
        let idle = match bind_get(bindings, h.as_str()) {
            Some(b) => {
                let idle_for: u64 = if now >= b.last {
                    now - b.last
                } else {
                    0
                };
                if idle_for >= idle_timeout {
                    bind_remove(bindings, h.as_str());
                    targets.push(b.container);
                    true
                } else {
                    false
                }
            },
            None => false,
        };
        proof {
            assert(idle == is_idle(held0[hk], now, idle_timeout));
            if idle {
                assert(!d0.contains(hk));
                drained = d0.push(hk);
                assert forall|a: int, c: int| 0 <= a < c < drained.len() implies #[trigger] drained[a]
                    != #[trigger] drained[c] by {
                    assert(drained[a] == d0[a]);
                    if c == drained.len() - 1 {
                        assert(d0.contains(d0[a]));
                    } else {
                        assert(drained[c] == d0[c]);
                    }
                }
                assert forall|a: int| 0 <= a < drained.len() implies #[trigger] targets@[a] == held0[drained[a]].container by {
                    if a < d0.len() {
                        assert(drained[a] == d0[a]);
                    }
                }
            }
            assert forall|k: Seq<char>| #[trigger] drained.contains(k) <==> (held0.dom().contains(k) && is_idle(
                held0[k],
                now,
                idle_timeout,
            ) && seen(hosts@, i + 1, k)) by {
                lemma_seen_step(hosts@, i as int, k);
                if idle && k != hk {
                    if drained.contains(k) {
                        let a = choose|a: int| 0 <= a < drained.len() && drained[a] == k;
                        assert(d0[a] == k);
                    }
                    if d0.contains(k) {
                        let a = choose|a: int| 0 <= a < d0.len() && d0[a] == k;
                        assert(drained[a] == k);
                    }
                }
                if idle && k == hk {
                    assert(drained[drained.len() - 1] == k);
                }
            }
            assert forall|k: Seq<char>| #[trigger] bindings_held(*bindings).dom().contains(k) <==> (held0.dom().contains(k)
                && !(is_idle(held0[k], now, idle_timeout) && seen(hosts@, i + 1, k))) by {
                lemma_seen_step(hosts@, i as int, k);
            }
        }
        i = i + 1;
    }
    proof {
        assert(drained.len() == targets@.len());
        assert forall|k: Seq<char>| #[trigger] drained.contains(k) <==> (held0.dom().contains(k) && is_idle(
            held0[k],
            now,
            idle_timeout,
        )) by {}
        assert forall|k: Seq<char>| #[trigger] bindings_held(*bindings).dom().contains(k) <==> (held0.dom().contains(k)
            && !is_idle(held0[k], now, idle_timeout)) by {}
    }
    targets
}

/// The body of a routing answer: `[{"dial":"host:port"}]`.
pub fn dial_body(host: &str, port: u16) -> (body: String)
    ensures
        body@ == "[{\"dial\":\""@ + host@ + ":"@ + decimal(port as nat) + "\"}]"@,
{
    let b = push_str(String::from_str("[{\"dial\":\""), host);
    let b = push_str(b, ":");
    let b = push_decimal(b, port as u64);
    push_str(b, "\"}]")
}

/// A failed attempt on one server, as reported in the router's log:
/// `{server id}: {error}`.
pub fn server_failure(server_id: &str, error: &str) -> (line: String)
    ensures
        line@ == server_id@ + ": "@ + error@,
{
    push_str(push_str(String::from_str(server_id), ": "), error)
}

/// An answer the router gives instead of a dial target or deployment:
/// the HTTP status and the error text.
pub struct RouteFailure {
    pub status: u16,
    pub error: String,
}

/// What the package lookup for a routed host decides: the package to
/// start, 404 when no package is bound, 500 when the lookup failed.
pub fn route_package(resolved: Result<Option<String>, String>) -> (r: Result<String, RouteFailure>)
    ensures
        match resolved {
            Ok(Some(p)) => r == Ok::<String, RouteFailure>(p),
            Ok(None) => r matches Err(f) && f.status == 404 && f.error@ == "No package is bound to this host"@,
            Err(e) => r matches Err(f) && f.status == 500 && f.error@ == "Redis lookup failed: "@ + e@,
        },
{
    match resolved {
        Ok(Some(p)) => Ok(p),
        Ok(None) => Err(RouteFailure { status: 404, error: String::from_str("No package is bound to this host") }),
        Err(e) => Err(RouteFailure { status: 500, error: String::from_str("Redis lookup failed: ").concat(e.as_str()) }),
    }
}

/// What the configured servers allow: 500 when they were never loaded,
/// 503 when there are none.
pub fn check_servers(loaded: bool, servers: &Vec<ServerConfig>) -> (r: Result<(), RouteFailure>)
    ensures
        if !loaded {
            r matches Err(f) && f.status == 500 && f.error@ == "SERVERS not initialized"@
        } else if servers@.len() == 0 {
            r matches Err(f) && f.status == 503 && f.error@ == "No servers configured"@
        } else {
            r is Ok
        },
{
    if !loaded {
        Err(RouteFailure { status: 500, error: String::from_str("SERVERS not initialized") })
    } else if servers.len() == 0 {
        Err(RouteFailure { status: 503, error: String::from_str("No servers configured") })
    } else {
        Ok(())
    }
}

/// The answer when every server failed: 502 `All hypervisors failed`.
pub fn all_servers_failed() -> (f: RouteFailure)
    ensures
        f.status == 502,
        f.error@ == "All hypervisors failed"@,
{
    RouteFailure { status: 502, error: String::from_str("All hypervisors failed") }
}

/// A container a hypervisor started for the router.
pub struct StartedContainer {
    pub id: String,
    pub host_port: u16,
    pub container_port: u16,
}

/// Reads a hypervisor's reply to `POST {hypervisor}/container/inject/{package}`;
/// `decoded` is the injected container's id read from a successful
/// answer's body.
pub fn inject_result(reply: &Reply, decoded: Result<String, String>) -> (r: Result<String, String>)
    ensures
        match reply_result(*reply, decoded, "inject request failed: "@, "inject returned "@, "invalid inject response: "@) {
            Ok(id) => r == Ok::<String, String>(id),
            Err(m) => r matches Err(s) && s@ == m,
        },
{
    read_reply(reply, decoded, "inject request failed: ", "inject returned ", "invalid inject response: ")
}

/// Reads a hypervisor's reply to `POST {hypervisor}/container/run/{id}`;
/// `decoded` is the container id and host port read from a successful
/// answer's body.  The started container listens on `container_port`.
pub fn run_result(reply: &Reply, decoded: Result<(String, u16), String>, container_port: u16) -> (r: Result<
    StartedContainer,
    String,
>)
    ensures
        match reply_result(*reply, decoded, "run request failed: "@, "run returned "@, "invalid run response: "@) {
            Ok((id, host_port)) => r matches Ok(c) && c.id == id && c.host_port == host_port && c.container_port
                == container_port,
            Err(m) => r matches Err(s) && s@ == m,
        },
{
    match read_reply(reply, decoded, "run request failed: ", "run returned ", "invalid run response: ") {
        Ok((id, host_port)) => Ok(StartedContainer { id, host_port, container_port }),
        Err(m) => Err(m),
    }
}

/// The host the router dials for a server, if its address has one.
pub open spec fn dial_host_of(server: ServerConfig) -> Option<Seq<char>> {
    url_host(base_url(server.address@))
}

/// The first of the ranked servers at or after `from` that can be
/// dialled.
pub open spec fn first_dialable(ranked: Seq<ServerConfig>, from: int) -> Option<int>
    decreases ranked.len() - from,
{
    if from < 0 || from >= ranked.len() {
        None
    } else if dial_host_of(ranked[from]) is Some {
        Some(from)
    } else {
        first_dialable(ranked, from + 1)
    }
}

/// The failure lines of servers passed over for want of a dial host:
/// `{server id}: invalid address`.
pub open spec fn invalid_address_lines(skipped: Seq<ServerConfig>) -> Seq<Seq<char>> {
    skipped.map_values(|s: ServerConfig| s.id@ + ": "@ + "invalid address"@)
}

/// What the router does next while it starts a package on its ranked
/// servers, trying each in turn until one succeeds.
pub enum FailoverAction {
    /// Start the package on ranked server `index`, dialled at `dial_host`.
    Start { index: usize, dial_host: String },
    /// Ranked server `index` started it: bind to that server.
    Bind { index: usize },
    /// Every server failed.
    GiveUp(RouteFailure),
}

/// The step taken on reaching ranked server `from` with the failure
/// lines `failures`: start on the first server from there that can be
/// dialled, noting the ones passed over, or give up with 502
/// `All hypervisors failed` when none is left.
pub open spec fn failover_from(
    ranked: Seq<ServerConfig>,
    from: int,
    failures: Seq<Seq<char>>,
    a: FailoverAction,
    after: Seq<Seq<char>>,
) -> bool {
    match first_dialable(ranked, from) {
        Some(i) => a matches FailoverAction::Start { index, dial_host } && index == i && dial_host_of(ranked[i])
            == Some(dial_host@) && after == failures + invalid_address_lines(ranked.subrange(from, i)),
        None => a matches FailoverAction::GiveUp(f) && f.status == 502 && f.error@ == "All hypervisors failed"@
            && after == failures + invalid_address_lines(ranked.subrange(from, ranked.len() as int)),
    }
}

/// Law: the failover passes a server over only when it cannot be
/// dialled, so it gives up only when no ranked server from that point on
/// can be, and otherwise tries the first one that can.
pub proof fn failover_skips_only_undialable(ranked: Seq<ServerConfig>, from: int)
    requires
        0 <= from <= ranked.len(),
    ensures
        first_dialable(ranked, from) is None <==> forall|j: int|
            from <= j < ranked.len() ==> #[trigger] dial_host_of(ranked[j]) is None,
        first_dialable(ranked, from) matches Some(i) ==> from <= i < ranked.len() && dial_host_of(ranked[i]) is Some
            && forall|j: int| from <= j < i ==> #[trigger] dial_host_of(ranked[j]) is None,
    decreases ranked.len() - from,
{
    if from < ranked.len() && dial_host_of(ranked[from]) is None {
        failover_skips_only_undialable(ranked, from + 1);
    }
}

proof fn lemma_texts_push(v: Seq<String>, s: String)
    ensures
        texts(v.push(s)) == texts(v).push(s@),
{
    assert(texts(v.push(s)) =~= texts(v).push(s@));
}

/// The first attempt, or the next one after servers that cannot be
/// dialled: see `failover_from`.
pub fn first_startable(ranked: &Vec<ServerConfig>, from: usize, failures: &mut Vec<String>) -> (a: FailoverAction)
    requires
        from <= ranked@.len(),
    ensures
        failover_from(ranked@, from as int, texts(old(failures)@), a, texts(final(failures)@)),
{
    let ghost f0 = texts(failures@);
    let mut i: usize = from;
    while i < ranked.len()
        invariant
            from <= i <= ranked@.len(),
            f0 == texts(old(failures)@),
            first_dialable(ranked@, from as int) == first_dialable(ranked@, i as int),
            texts(failures@) == f0 + invalid_address_lines(ranked@.subrange(from as int, i as int)),
        decreases ranked@.len() - i,
    {
        match server_dial_host(&ranked[i]) {
            Some(h) => {
                proof {
                    assert(dial_host_of(ranked@[i as int]) == Some(h@));
                    assert(first_dialable(ranked@, i as int) == Some(i as int));
                }
                return FailoverAction::Start { index: i, dial_host: h };
            },
            None => {
                let ghost before = failures@;
                let line = server_failure(ranked[i].id.as_str(), "invalid address");
                failures.push(line);
                proof {
                    lemma_texts_push(before, line);
                    assert(ranked@.subrange(from as int, i + 1) =~= ranked@.subrange(from as int, i as int).push(
                        ranked@[i as int],
                    ));
                    assert(invalid_address_lines(ranked@.subrange(from as int, i + 1)) =~= invalid_address_lines(
                        ranked@.subrange(from as int, i as int),
                    ).push(ranked@[i as int].id@ + ": "@ + "invalid address"@));
                }
                i = i + 1;
            },
        }
    }
    FailoverAction::GiveUp(all_servers_failed())
}

/// The step after an attempt on ranked server `index`: bind to it when
/// it started the package; otherwise note `{server id}: {error}` and go
/// on to the next server (see `failover_from`).
pub fn next_server_step<T>(
    ranked: &Vec<ServerConfig>,
    index: usize,
    outcome: &Result<T, String>,
    failures: &mut Vec<String>,
) -> (a: FailoverAction)
    requires
        index < ranked@.len(),
    ensures
        match *outcome {
            Ok(_) => a matches FailoverAction::Bind { index: i } && i == index && final(failures)@ == old(
                failures,
            )@,
            Err(e) => failover_from(
                ranked@,
                index + 1,
                texts(old(failures)@).push(ranked@[index as int].id@ + ": "@ + e@),
                a,
                texts(final(failures)@),
            ),
        },
{
    match outcome {
        Ok(_) => FailoverAction::Bind { index },
        Err(e) => {
            let n = ranked.len();
            let ghost before = failures@;
            let line = server_failure(ranked[index].id.as_str(), e.as_str());
            failures.push(line);
            proof {
                lemma_texts_push(before, line);
            }
            first_startable(ranked, index + 1, failures)
        },
    }
}

/// The key of a domain's binding: `domains:{host}`.
pub fn domain_key(host: &str) -> (k: String)
    ensures
        k@ == "domains:"@ + host@,
{
    push_str(String::from_str("domains:"), host)
}

/// The key of an app: `apps:{app_id}`.
pub fn app_key(app_id: &str) -> (k: String)
    ensures
        k@ == "apps:"@ + app_id@,
{
    push_str(String::from_str("apps:"), app_id)
}

/// The key of a build: `builds:{build_id}`.
pub fn build_key(build_id: &str) -> (k: String)
    ensures
        k@ == "builds:"@ + build_id@,
{
    push_str(String::from_str("builds:"), build_id)
}

/// The package an early installation bound a domain to directly: its
/// value, unless that is `0`.
pub fn legacy_domain_package(value: Option<String>) -> (r: Option<String>)
    ensures
        match value {
            Some(v) => if v@ == "0"@ {
                r is None
            } else {
                r == Some(v)
            },
            None => r is None,
        },
{
    match value {
        Some(v) => if str_eq(v.as_str(), "0") {
            None
        } else {
            Some(v)
        },
        None => None,
    }
}

/// The `X-Cache` mark of an access check's answer.
pub enum CacheMark {
    /// No mark (`localhost`).
    Unmarked,
    /// Answered from the cache.
    Hit,
    /// Looked up; the verdict is to be cached.
    Miss,
}

/// How an access check is answered.
pub enum AllowAnswer {
    /// 200.
    Allowed(CacheMark),
    /// 403.
    Forbidden(CacheMark),
    /// 500 with this error.
    Failed(String),
}

/// The answer to an access check that the host or the cache alone
/// decides: `localhost` is always allowed, a cached verdict is answered
/// as a hit; otherwise nothing is decided yet.
pub fn allow_without_lookup(domain: &str, cached: Option<bool>) -> (r: Option<AllowAnswer>)
    ensures
        if domain@ == "localhost"@ {
            r == Some(AllowAnswer::Allowed(CacheMark::Unmarked))
        } else {
            match cached {
                Some(true) => r == Some(AllowAnswer::Allowed(CacheMark::Hit)),
                Some(false) => r == Some(AllowAnswer::Forbidden(CacheMark::Hit)),
                None => r is None,
            }
        },
{
    if str_eq(domain, "localhost") {
        return Some(AllowAnswer::Allowed(CacheMark::Unmarked));
    }
    match cached {
        Some(true) => Some(AllowAnswer::Allowed(CacheMark::Hit)),
        Some(false) => Some(AllowAnswer::Forbidden(CacheMark::Hit)),
        None => None,
    }
}

/// The answer to an access check after looking the domain up: allowed
/// when a package is bound, forbidden when none is (both a cache miss),
/// 500 when the lookup failed.
pub fn allow_after_lookup(resolved: Result<bool, String>) -> (r: AllowAnswer)
    ensures
        match resolved {
            Ok(true) => r == AllowAnswer::Allowed(CacheMark::Miss),
            Ok(false) => r == AllowAnswer::Forbidden(CacheMark::Miss),
            Err(e) => r matches AllowAnswer::Failed(m) && m@ == "Redis lookup failed: "@ + e@,
        },
{
    match resolved {
        Ok(true) => AllowAnswer::Allowed(CacheMark::Miss),
        Ok(false) => AllowAnswer::Forbidden(CacheMark::Miss),
        Err(e) => AllowAnswer::Failed(push_str(String::from_str("Redis lookup failed: "), e.as_str())),
    }
}

} // verus!
