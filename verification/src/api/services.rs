//! Services of an app: storage key, validation of the runtime fields
//! (name, container port, argv), the record a creation request makes, the
//! changes an update request asks for, and the order of service listings.

use vstd::prelude::*;
use crate::api::apps::{opt_view, App, JsonText};
use crate::api::state::{json_error, ApiError};
use crate::order::{
    lemma_insert_by_at, lemma_text_lt_irreflexive, lemma_text_lt_transitive, lemma_text_not_lt_transitive,
    stable_sort_is_ordered, stable_sort_is_permutation, stable_sort_keeps_ties_in_order, stable_sorted_by,
    strict_weak_order, tied_with,
};
use crate::text::{chars_of, decimal, push_decimal, push_str, str_lt, string_from_chars, text_lt, trim, trimmed, utf8_len};

verus! {

/// Port a service listens on inside its container unless told otherwise.
pub const DEFAULT_CONTAINER_PORT: u16 = 3000;
/// Most argv items a service may have.
pub const MAX_ARGV_ITEMS: usize = 64;
/// Longest argv item, in bytes.
pub const MAX_ARG_LENGTH: usize = 4096;

/// `user:{github_id}:app:{app_id}:services`
pub fn key_user_app_services(github_id: u64, app_id: &str) -> (k: String)
    ensures
        k@ == "user:"@ + decimal(github_id as nat) + ":app:"@ + app_id@ + ":services"@,
{
    let k = push_decimal(String::from_str("user:"), github_id);
    let k = push_str(k, ":app:");
    let k = push_str(k, app_id);
    push_str(k, ":services")
}

/// The container port of a service record that does not name one.
pub fn default_container_port() -> (p: u16)
    ensures
        p == DEFAULT_CONTAINER_PORT,
{
    DEFAULT_CONTAINER_PORT
}

/// A deployable unit of an app.
pub struct Service {
    pub id: String,
    pub app_id: String,
    pub owner: u64,
    pub name: String,
    pub position_x: i32,
    pub position_y: i32,
    pub container_port: u16,
    pub argv: Vec<String>,
    pub active_package_id: Option<String>,
    pub active_deployment_id: Option<String>,
    pub package_ids: Vec<String>,
    pub created_at: String,
    pub updated_at: String,
}

/// The body of a service creation request.
pub struct CreateServiceBody {
    pub name: Option<String>,
    pub position_x: i32,
    pub position_y: i32,
    pub container_port: u16,
    pub argv: Vec<String>,
}

/// The verdict on a proposed service name: the trimmed name, present and
/// at most 64 characters long.
pub open spec fn service_name_verdict(name: Seq<char>) -> Result<Seq<char>, Seq<char>> {
    let t = trim(name);
    if t.len() == 0 {
        Err("service name is required"@)
    } else if t.len() > 64 {
        Err("service name must be at most 64 characters"@)
    } else {
        Ok(t)
    }
}

/// Trims a service name and checks that it is present and at most 64
/// characters long.
pub fn validate_service_name(name: &str) -> (r: Result<String, String>)
    ensures
        match service_name_verdict(name@) {
            Ok(t) => r matches Ok(s) && s@ == t,
            Err(m) => r matches Err(s) && s@ == m,
        },
{
    let t = trimmed(name);
    if t.len() == 0 {
        return Err(String::from_str("service name is required"));
    }
    if t.len() > 64 {
        return Err(String::from_str("service name must be at most 64 characters"));
    }
    Ok(string_from_chars(&t))
}

/// The message for a container port outside 1..=65535.
pub open spec fn port_range_message() -> Seq<char> {
    "container_port must be between 1 and 65535"@
}

/// Accepts any port but 0.
pub fn validate_container_port(port: u16) -> (r: Result<u16, String>)
    ensures
        if port == 0 {
            r matches Err(m) && m@ == port_range_message()
        } else {
            r == Ok::<u16, String>(port)
        },
{
    if port == 0 {
        Err(String::from_str("container_port must be between 1 and 65535"))
    } else {
        Ok(port)
    }
}

/// Whether a text holds the NUL character (the only character whose UTF-8
/// encoding holds a zero byte).
pub open spec fn has_nul(s: Seq<char>) -> bool {
    s.contains('\0')
}

/// Why an argv is refused, if it is: more than 64 items, an item with a
/// NUL, or an item longer than 4096 bytes, checked in that order.
pub open spec fn argv_fault(argv: Seq<String>) -> Option<Seq<char>> {
    if argv.len() > 64 {
        Some("argv must contain at most 64 items"@)
    } else if exists|i: int| 0 <= i < argv.len() && has_nul(#[trigger] argv[i]@) {
        Some("argv may not contain NUL bytes"@)
    } else if exists|i: int| 0 <= i < argv.len() && utf8_len(#[trigger] argv[i]@) > 4096 {
        Some("each argv item must be at most 4096 bytes"@)
    } else {
        None
    }
}

fn contains_nul(s: &String) -> (r: bool)
    ensures
        r == has_nul(s@),
{
    let c = chars_of(s.as_str());
    let mut i: usize = 0;
    while i < c.len()
        invariant
            c@ == s@,
            i <= c@.len(),
            forall|j: int| 0 <= j < i ==> c@[j] != '\0',
        decreases c@.len() - i,
    {
        if c[i] == '\0' {
            assert(c@[i as int] == '\0');
            return true;
        }
        i = i + 1;
    }
    false
}

/// Checks an argv: at most 64 items, none with a NUL, none longer than
/// 4096 bytes.  An accepted argv is handed back unchanged.
pub fn validate_argv(argv: Vec<String>) -> (r: Result<Vec<String>, String>)
    ensures
        match argv_fault(argv@) {
            Some(m) => r matches Err(s) && s@ == m,
            None => r matches Ok(v) && v@ == argv@,
        },
{
    if argv.len() > MAX_ARGV_ITEMS {
        return Err(String::from_str("argv must contain at most 64 items"));
    }
    let mut i: usize = 0;
    while i < argv.len()
        invariant
            i <= argv@.len(),
            argv@.len() <= 64,
            forall|j: int| 0 <= j < i ==> !has_nul(#[trigger] argv@[j]@),
        decreases argv@.len() - i,
    {
        if contains_nul(&argv[i]) {
            assert(has_nul(argv@[i as int]@));
            return Err(String::from_str("argv may not contain NUL bytes"));
        }
        i = i + 1;
    }
    let mut i: usize = 0;
    while i < argv.len()
        invariant
            i <= argv@.len(),
            argv@.len() <= 64,
            forall|j: int| 0 <= j < argv@.len() ==> !has_nul(#[trigger] argv@[j]@),
            forall|j: int| 0 <= j < i ==> utf8_len(#[trigger] argv@[j]@) <= 4096,
        decreases argv@.len() - i,
    {
        if argv[i].as_str().len() > MAX_ARG_LENGTH {
            assert(utf8_len(argv@[i as int]@) > 4096);
            return Err(String::from_str("each argv item must be at most 4096 bytes"));
        }
        i = i + 1;
    }
    Ok(argv)
}

/// The service a creation request makes, or why it is refused (400): the
/// name (missing counts as empty), then the container port, then argv.
pub open spec fn new_service_verdict(body: CreateServiceBody) -> Result<Seq<char>, Seq<char>> {
    let name = match body.name {
        Some(n) => n@,
        None => Seq::empty(),
    };
    match service_name_verdict(name) {
        Err(m) => Err(m),
        Ok(n) => if body.container_port == 0 {
            Err(port_range_message())
        } else {
            match argv_fault(body.argv@) {
                Some(m) => Err(m),
                None => Ok(n),
            }
        },
    }
}

/// Validates a creation request and builds the new service of the app
/// with the given id, owner and creation time: no package, no deployment.
pub fn create_service_record(body: CreateServiceBody, app_id: &str, owner: u64, id: String, now: String) -> (r:
    Result<Service, ApiError>)
    ensures
        match new_service_verdict(body) {
            Err(m) => r matches Err(e) && e.status == 400 && e.message@ == m,
            Ok(n) => r matches Ok(s) && s.id == id && s.app_id@ == app_id@ && s.owner == owner && s.name@ == n
                && s.position_x == body.position_x && s.position_y == body.position_y && s.container_port
                == body.container_port && s.argv@ == body.argv@ && s.active_package_id is None
                && s.active_deployment_id is None && s.package_ids@.len() == 0 && s.created_at == now
                && s.updated_at == now,
        },
{
    let CreateServiceBody { name, position_x, position_y, container_port, argv } = body;
    let checked = match &name {
        Some(n) => validate_service_name(n.as_str()),
        None => validate_service_name(""),
    };
    proof {
        reveal_strlit("");
    }
    let name = match checked {
        Ok(n) => n,
        Err(m) => {
            return Err(json_error(400, m));
        },
    };
    let container_port = match validate_container_port(container_port) {
        Ok(p) => p,
        Err(m) => {
            return Err(json_error(400, m));
        },
    };
    let argv = match validate_argv(argv) {
        Ok(a) => a,
        Err(m) => {
            return Err(json_error(400, m));
        },
    };
    let created_at = now.clone();
    Ok(
        Service {
            id,
            app_id: String::from_str(app_id),
            owner,
            name,
            position_x,
            position_y,
            container_port,
            argv,
            active_package_id: None,
            active_deployment_id: None,
            package_ids: Vec::new(),
            created_at,
            updated_at: now,
        },
    )
}

/// A `container_port` field of an update request: missing, a port, or a
/// value that is not a `u16`.
pub enum PortField {
    Absent,
    Port(u16),
    Invalid,
}

/// An `argv` field of an update request: missing, a list of strings, or
/// a value that is not one.
pub enum ArgvField {
    Absent,
    Items(Vec<String>),
    Invalid,
}

/// The fields of a service update request body.
pub struct ServicePatch {
    pub name: JsonText,
    pub container_port: PortField,
    pub argv: ArgvField,
    pub active_package_id: JsonText,
}

/// The changes an accepted update request makes.
pub struct ServiceUpdate {
    pub name: Option<String>,
    pub container_port: Option<u16>,
    pub argv: Option<Vec<String>>,
    pub clear_active_package: bool,
}

/// The message for an `active_package_id` that is not `null`.
pub open spec fn package_select_message() -> Seq<char> {
    "active_package_id can only be cleared with null; use the package activation endpoint to select a package"@
}

/// The changes an update request asks for (new name, port, argv, and
/// whether the active package is cleared), or why it is refused (400).
pub open spec fn service_update_verdict(is_object: bool, patch: ServicePatch) -> Result<
    (Option<Seq<char>>, Option<u16>, Option<Seq<String>>, bool),
    Seq<char>,
> {
    if !is_object {
        Err("body must be an object"@)
    } else if patch.name is Absent && patch.container_port is Absent && patch.argv is Absent
        && patch.active_package_id is Absent {
        Err("nothing to update (want name, container_port, argv, active_package_id)"@)
    } else {
        let name: Result<Option<Seq<char>>, Seq<char>> = match patch.name {
            JsonText::Absent => Ok(None),
            JsonText::Text(s) => match service_name_verdict(s@) {
                Ok(t) => Ok(Some(t)),
                Err(m) => Err(m),
            },
            _ => Err("name must be a string"@),
        };
        let port: Result<Option<u16>, Seq<char>> = match patch.container_port {
            PortField::Absent => Ok(None),
            PortField::Port(p) => if p == 0 {
                Err(port_range_message())
            } else {
                Ok(Some(p))
            },
            PortField::Invalid => Err(port_range_message()),
        };
        let argv: Result<Option<Seq<String>>, Seq<char>> = match patch.argv {
            ArgvField::Absent => Ok(None),
            ArgvField::Items(v) => match argv_fault(v@) {
                Some(m) => Err(m),
                None => Ok(Some(v@)),
            },
            ArgvField::Invalid => Err("argv must be an array of strings"@),
        };
        let clear: Result<bool, Seq<char>> = match patch.active_package_id {
            JsonText::Absent => Ok(false),
            JsonText::Null => Ok(true),
            _ => Err(package_select_message()),
        };
        match (name, port, argv, clear) {
            (Err(m), _, _, _) => Err(m),
            (Ok(_), Err(m), _, _) => Err(m),
            (Ok(_), Ok(_), Err(m), _) => Err(m),
            (Ok(_), Ok(_), Ok(_), Err(m)) => Err(m),
            (Ok(n), Ok(p), Ok(a), Ok(c)) => Ok((n, p, a, c)),
        }
    }
}

pub open spec fn opt_argv_view(o: Option<Vec<String>>) -> Option<Seq<String>> {
    match o {
        Some(v) => Some(v@),
        None => None,
    }
}

/// Reads and validates an update request, field by field in the order
/// name, container port, argv, active package.
pub fn plan_service_update(is_object: bool, patch: ServicePatch) -> (r: Result<ServiceUpdate, ApiError>)
    ensures
        match service_update_verdict(is_object, patch) {
            Err(m) => r matches Err(e) && e.status == 400 && e.message@ == m,
            Ok((n, p, a, c)) => r matches Ok(u) && opt_view(u.name) == n && u.container_port == p
                && opt_argv_view(u.argv) == a && u.clear_active_package == c,
        },
{
    if !is_object {
        return Err(json_error(400, String::from_str("body must be an object")));
    }
    let ServicePatch { name, container_port, argv, active_package_id } = patch;
    if matches!(name, JsonText::Absent) && matches!(container_port, PortField::Absent) && matches!(
        argv,
        ArgvField::Absent
    ) && matches!(active_package_id, JsonText::Absent) {
        return Err(
            json_error(400, String::from_str("nothing to update (want name, container_port, argv, active_package_id)")),
        );
    }
    let name = match name {
        JsonText::Absent => None,
        JsonText::Text(s) => match validate_service_name(s.as_str()) {
            Ok(t) => Some(t),
            Err(m) => {
                return Err(json_error(400, m));
            },
        },
        _ => {
            return Err(json_error(400, String::from_str("name must be a string")));
        },
    };
    let container_port = match container_port {
        PortField::Absent => None,
        PortField::Port(p) => match validate_container_port(p) {
            Ok(p) => Some(p),
            Err(m) => {
                return Err(json_error(400, m));
            },
        },
        PortField::Invalid => {
            return Err(json_error(400, String::from_str("container_port must be between 1 and 65535")));
        },
    };
    let argv = match argv {
        ArgvField::Absent => None,
        ArgvField::Items(v) => match validate_argv(v) {
            Ok(v) => Some(v),
            Err(m) => {
                return Err(json_error(400, m));
            },
        },
        ArgvField::Invalid => {
            return Err(json_error(400, String::from_str("argv must be an array of strings")));
        },
    };
    let clear_active_package = match active_package_id {
        JsonText::Absent => false,
        JsonText::Null => true,
        _ => {
            return Err(
                json_error(
                    400,
                    String::from_str(
                        "active_package_id can only be cleared with null; use the package activation endpoint to select a package",
                    ),
                ),
            );
        },
    };
    Ok(ServiceUpdate { name, container_port, argv, clear_active_package })
}

/// Whether the running deployment must be stopped before the update is
/// applied: the update clears the active package and one is deployed.
pub fn stops_runtime_first(update: &ServiceUpdate, service: &Service) -> (r: bool)
    ensures
        r == (update.clear_active_package && service.active_deployment_id is Some),
{
    update.clear_active_package && service.active_deployment_id.is_some()
}

/// Applies an accepted update: the active package is cleared if asked,
/// each given field replaces the stored one, and the update time is set.
pub fn apply_service_update(service: &mut Service, update: ServiceUpdate, now: String)
    ensures
        final(service).active_package_id == (if update.clear_active_package {
            None
        } else {
            old(service).active_package_id
        }),
        final(service).name == (match update.name {
            Some(n) => n,
            None => old(service).name,
        }),
        final(service).container_port == (match update.container_port {
            Some(p) => p,
            None => old(service).container_port,
        }),
        final(service).argv@ == (match update.argv {
            Some(a) => a@,
            None => old(service).argv@,
        }),
        final(service).updated_at == now,
        final(service).id == old(service).id,
        final(service).app_id == old(service).app_id,
        final(service).owner == old(service).owner,
        final(service).position_x == old(service).position_x,
        final(service).position_y == old(service).position_y,
        final(service).active_deployment_id == old(service).active_deployment_id,
        final(service).package_ids@ == old(service).package_ids@,
        final(service).created_at == old(service).created_at,
{
    let ServiceUpdate { name, container_port, argv, clear_active_package } = update;
    if clear_active_package {
        service.active_package_id = None;
    }
    if let Some(n) = name {
        service.name = n;
    }
    if let Some(p) = container_port {
        service.container_port = p;
    }
    if let Some(a) = argv {
        service.argv = a;
    }
    service.updated_at = now;
}

/// Moves a service on the app's canvas.
pub fn apply_position(service: &mut Service, position_x: i32, position_y: i32, now: String)
    ensures
        final(service).position_x == position_x,
        final(service).position_y == position_y,
        final(service).updated_at == now,
        final(service).id == old(service).id,
        final(service).app_id == old(service).app_id,
        final(service).owner == old(service).owner,
        final(service).name == old(service).name,
        final(service).container_port == old(service).container_port,
        final(service).argv@ == old(service).argv@,
        final(service).active_package_id == old(service).active_package_id,
        final(service).active_deployment_id == old(service).active_deployment_id,
        final(service).package_ids@ == old(service).package_ids@,
        final(service).created_at == old(service).created_at,
{
    service.position_x = position_x;
    service.position_y = position_y;
    service.updated_at = now;
}

/// Refuses a malformed service id (400 `invalid service id`): blank, or
/// longer than 128 bytes.
pub fn check_service_id(service_id: &str) -> (r: Result<(), ApiError>)
    ensures
        if trim(service_id@).len() == 0 || utf8_len(service_id@) > 128 {
            r matches Err(e) && e.status == 400 && e.message@ == "invalid service id"@
        } else {
            r is Ok
        },
{
    if trimmed(service_id).len() == 0 || service_id.len() > 128 {
        return Err(json_error(400, String::from_str("invalid service id")));
    }
    Ok(())
}

/// Answers 404 `app not found` for an app stored under the user's list
/// but owned by someone else.
pub fn check_app_owner(app: &App, github_id: u64) -> (r: Result<(), ApiError>)
    ensures
        if app.owner_id != github_id {
            r matches Err(e) && e.status == 404 && e.message@ == "app not found"@
        } else {
            r is Ok
        },
{
    if app.owner_id != github_id {
        return Err(json_error(404, String::from_str("app not found")));
    }
    Ok(())
}

/// Whether a service belongs to the user's app.
pub open spec fn owned_service(s: Service, github_id: u64, app_id: Seq<char>) -> bool {
    s.owner == github_id && s.app_id@ == app_id
}

/// Answers 404 `service not found` for a stored service of another user
/// or another app.
pub fn check_service_owner(service: &Service, github_id: u64, app_id: &str) -> (r: Result<(), ApiError>)
    ensures
        if !owned_service(*service, github_id, app_id@) {
            r matches Err(e) && e.status == 404 && e.message@ == "service not found"@
        } else {
            r is Ok
        },
{
    if service.owner != github_id || !crate::text::str_eq(service.app_id.as_str(), app_id) {
        return Err(json_error(404, String::from_str("service not found")));
    }
    Ok(())
}

/// The user's app as read from storage: 404 `app not found` both when no
/// record is stored and when the stored app belongs to someone else.
pub fn owned_app_record(stored: Option<App>, github_id: u64) -> (r: Result<App, ApiError>)
    ensures
        match stored {
            Some(app) => if app.owner_id == github_id {
                r == Ok::<App, ApiError>(app)
            } else {
                r matches Err(e) && e.status == 404 && e.message@ == "app not found"@
            },
            None => r matches Err(e) && e.status == 404 && e.message@ == "app not found"@,
        },
{
    match stored {
        Some(app) => match check_app_owner(&app, github_id) {
            Ok(()) => Ok(app),
            Err(e) => Err(e),
        },
        None => Err(json_error(404, String::from_str("app not found"))),
    }
}

/// The service of the user's app as read from storage: 404 `service not
/// found` both when no record is stored and when the stored service is of
/// another user or app.
pub fn owned_service_record(stored: Option<Service>, github_id: u64, app_id: &str) -> (r: Result<Service, ApiError>)
    ensures
        match stored {
            Some(service) => if owned_service(service, github_id, app_id@) {
                r == Ok::<Service, ApiError>(service)
            } else {
                r matches Err(e) && e.status == 404 && e.message@ == "service not found"@
            },
            None => r matches Err(e) && e.status == 404 && e.message@ == "service not found"@,
        },
{
    match stored {
        Some(service) => match check_service_owner(&service, github_id, app_id) {
            Ok(()) => Ok(service),
            Err(e) => Err(e),
        },
        None => Err(json_error(404, String::from_str("service not found"))),
    }
}

/// Services are listed oldest first: `a` comes before `b` when it was
/// created strictly earlier (text order of the timestamps).
pub open spec fn created_earlier() -> spec_fn(Service, Service) -> bool {
    |a: Service, b: Service| text_lt(a.created_at@, b.created_at@)
}

/// The services of the user's app among `s`, in the order given.
pub open spec fn owned_services(s: Seq<Service>, github_id: u64, app_id: Seq<char>) -> Seq<Service>
    decreases s.len(),
{
    if s.len() == 0 {
        s
    } else {
        let rest = owned_services(s.drop_last(), github_id, app_id);
        if owned_service(s.last(), github_id, app_id) {
            rest.push(s.last())
        } else {
            rest
        }
    }
}

/// The services of a listing: those of the user's app, oldest first;
/// services created at the same time keep the order they came in.
pub fn services_for_listing(services: Vec<Service>, github_id: u64, app_id: &str) -> (r: Vec<Service>)
    ensures
        r@ == stable_sorted_by(owned_services(services@, github_id, app_id@), created_earlier()),
{
    let mut rest = services;
    let ghost orig = rest@;
    let total: usize = rest.len();
    let mut out: Vec<Service> = Vec::new();
    let mut k: usize = 0;
    let ghost mut kept: Seq<Service> = Seq::empty();
    while rest.len() > 0
        invariant
            k + rest@.len() == orig.len(),
            orig.len() == total,
            rest@ == orig.subrange(k as int, orig.len() as int),
            kept == owned_services(orig.subrange(0, k as int), github_id, app_id@),
            out@ == stable_sorted_by(kept, created_earlier()),
        decreases rest@.len(),
    {
        let s = rest.remove(0);
        proof {
            assert(s == orig[k as int]);
            assert(orig.subrange(0, k + 1).drop_last() =~= orig.subrange(0, k as int));
        }
        if s.owner == github_id && crate::text::str_eq(s.app_id.as_str(), app_id) {
            let ghost before = out@;
            let mut p: usize = out.len();
            while p > 0 && str_lt(s.created_at.as_str(), out[p - 1].created_at.as_str())
                invariant
                    p <= out@.len(),
                    out@ == before,
                    forall|j: int| p <= j < out@.len() ==> (created_earlier())(s, #[trigger] out@[j]),
                decreases p,
            {
                p = p - 1;
            }
            proof {
                lemma_insert_by_at(before, s, created_earlier(), p as int);
                assert(kept.push(s).drop_last() =~= kept);
                assert(kept.push(s).last() == s);
                kept = kept.push(s);
            }
            out.insert(p, s);
        }
        k = k + 1;
        proof {
            assert(rest@ =~= orig.subrange(k as int, orig.len() as int));
        }
    }
    proof {
        assert(orig.subrange(0, orig.len() as int) =~= orig);
    }
    out
}

/// Oldest-first is a strict weak order.
pub proof fn created_earlier_is_strict_weak()
    ensures
        strict_weak_order(created_earlier()),
{
    let f = created_earlier();
    assert forall|a: Service| !#[trigger] f(a, a) by {
        lemma_text_lt_irreflexive(a.created_at@);
    }
    assert forall|a: Service, b: Service, c: Service| #[trigger] f(a, b) && #[trigger] f(b, c) implies f(a, c) by {
        lemma_text_lt_transitive(a.created_at@, b.created_at@, c.created_at@);
    }
    assert forall|a: Service, b: Service, c: Service| !#[trigger] f(a, b) && !#[trigger] f(b, c) implies !f(a, c) by {
        lemma_text_not_lt_transitive(c.created_at@, b.created_at@, a.created_at@);
    }
}

proof fn lemma_owned_services_are_owned(s: Seq<Service>, github_id: u64, app_id: Seq<char>)
    ensures
        forall|k: int| 0 <= k < owned_services(s, github_id, app_id).len() ==> owned_service(
            #[trigger] owned_services(s, github_id, app_id)[k],
            github_id,
            app_id,
        ),
    decreases s.len(),
{
    if s.len() > 0 {
        let rest = owned_services(s.drop_last(), github_id, app_id);
        let o = owned_services(s, github_id, app_id);
        lemma_owned_services_are_owned(s.drop_last(), github_id, app_id);
        assert forall|k: int| 0 <= k < o.len() implies owned_service(#[trigger] o[k], github_id, app_id) by {
            if k < rest.len() {
                assert(o[k] == rest[k]);
            }
        }
    }
}

/// Law: a service listing is oldest first, holds only services of the
/// user's app, holds each of them as often as it was stored, and keeps
/// services created at the same time in the order stored.
pub proof fn service_listing_is_oldest_first(services: Seq<Service>, github_id: u64, app_id: Seq<char>)
    ensures
        forall|i: int, j: int|
            0 <= i < j < stable_sorted_by(owned_services(services, github_id, app_id), created_earlier()).len()
                ==> !text_lt(
                #[trigger] stable_sorted_by(owned_services(services, github_id, app_id), created_earlier())[j].created_at@,
                #[trigger] stable_sorted_by(owned_services(services, github_id, app_id), created_earlier())[i].created_at@,
            ),
        stable_sorted_by(owned_services(services, github_id, app_id), created_earlier()).to_multiset()
            == owned_services(services, github_id, app_id).to_multiset(),
        forall|k: int| 0 <= k < stable_sorted_by(owned_services(services, github_id, app_id), created_earlier()).len()
            ==> owned_service(
            #[trigger] stable_sorted_by(owned_services(services, github_id, app_id), created_earlier())[k],
            github_id,
            app_id,
        ),
        forall|c: Service|
            #[trigger] stable_sorted_by(owned_services(services, github_id, app_id), created_earlier()).filter(
                tied_with(c, created_earlier()),
            ) == owned_services(services, github_id, app_id).filter(tied_with(c, created_earlier())),
{
    let o = owned_services(services, github_id, app_id);
    let r = stable_sorted_by(o, created_earlier());
    created_earlier_is_strict_weak();
    assert forall|c: Service|
        #[trigger] stable_sorted_by(o, created_earlier()).filter(tied_with(c, created_earlier())) == o.filter(
            tied_with(c, created_earlier()),
        ) by {
        stable_sort_keeps_ties_in_order(o, created_earlier(), c);
    }
    stable_sort_is_ordered(o, created_earlier());
    stable_sort_is_permutation(o, created_earlier());
    lemma_owned_services_are_owned(services, github_id, app_id);
    assert forall|i: int, j: int| 0 <= i < j < r.len() implies !text_lt(
        #[trigger] r[j].created_at@,
        #[trigger] r[i].created_at@,
    ) by {
        assert(!(created_earlier())(r[j], r[i]));
    }
    assert forall|k: int| 0 <= k < r.len() implies owned_service(#[trigger] r[k], github_id, app_id) by {
        broadcast use vstd::seq_lib::group_to_multiset_ensures;
        assert(r.contains(r[k]));
        assert(r.to_multiset().count(r[k]) > 0);
        assert(o.contains(r[k]));
        let w = choose|w: int| 0 <= w < o.len() && o[w] == r[k];
        assert(owned_service(o[w], github_id, app_id));
    }
}

} // verus!
