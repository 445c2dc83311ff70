//! Container lifecycle values: the errors of the `select_tarball ->
//! inject -> run -> kill` API and their HTTP statuses, injected
//! containers, the pool of idle containers, and container listings.

use vstd::prelude::*;
use std::collections::VecDeque;


verus! {

/// Why a container request failed.  Outside errors are kept as the text
/// their `Display` writes.
pub enum ContainerError {
    EmptyCommand,
    Package(String),
    Io(String),
    IdlePoolExhausted,
    Engine(String),
}

/// The message of a container error.
pub open spec fn container_error_message(e: ContainerError) -> Seq<char> {
    match e {
        ContainerError::EmptyCommand => "a container needs at least one argument to run"@,
        ContainerError::Package(m) => "failed to load package: "@ + m@,
        ContainerError::Io(m) => "network I/O failed: "@ + m@,
        ContainerError::IdlePoolExhausted => "no idle containers are available"@,
        ContainerError::Engine(m) => "container engine request failed: "@ + m@,
    }
}

impl ContainerError {
    /// The message, as the error's `Display` writes it.
    pub fn to_string(&self) -> (s: String)
        ensures
            s@ == container_error_message(*self),
    {
        match self {
            ContainerError::EmptyCommand => String::from_str("a container needs at least one argument to run"),
            ContainerError::Package(m) => String::from_str("failed to load package: ").concat(m.as_str()),
            ContainerError::Io(m) => String::from_str("network I/O failed: ").concat(m.as_str()),
            ContainerError::IdlePoolExhausted => String::from_str("no idle containers are available"),
            ContainerError::Engine(m) => String::from_str("container engine request failed: ").concat(m.as_str()),
        }
    }
}

/// The HTTP status a container error is answered with: 400 for the
/// caller's mistakes, 503 when no idle container is left, 500 otherwise.
pub fn container_error_status(error: &ContainerError) -> (s: u16)
    ensures
        s == match *error {
            ContainerError::EmptyCommand | ContainerError::Package(_) => 400u16,
            ContainerError::IdlePoolExhausted => 503u16,
            ContainerError::Io(_) | ContainerError::Engine(_) => 500u16,
        },
{
    match error {
        ContainerError::EmptyCommand | ContainerError::Package(_) => 400,
        ContainerError::IdlePoolExhausted => 503,
        ContainerError::Io(_) | ContainerError::Engine(_) => 500,
    }
}

/// A package archive chosen to be injected.
pub struct SelectedTarball {
    pub path: String,
}

/// Selects a package archive; a path that is not a regular file is
/// refused.
pub fn select_tarball(path: String, is_file: bool) -> (r: Result<SelectedTarball, ContainerError>)
    ensures
        if is_file {
            r matches Ok(t) && t.path == path
        } else {
            r matches Err(ContainerError::Package(m)) && m@ == "tarball path is not a file"@
        },
{
    if is_file {
        Ok(SelectedTarball { path })
    } else {
        Err(ContainerError::Package(String::from_str("tarball path is not a file")))
    }
}

/// A container holding a package, ready to run its command.
pub struct InjectedContainer {
    id: String,
    argv: Vec<String>,
}

impl InjectedContainer {
    /// A container with an injected package and the command to run; an
    /// empty command is refused.
    pub fn new(id: String, argv: Vec<String>) -> (r: Result<InjectedContainer, ContainerError>)
        ensures
            if argv@.len() == 0 {
                r matches Err(ContainerError::EmptyCommand)
            } else {
                r matches Ok(c) && c.spec_id() == id && c.spec_argv() == argv@
            },
    {
        match check_command(&argv) {
            Ok(()) => Ok(InjectedContainer { id, argv }),
            Err(e) => Err(e),
        }
    }

    pub closed spec fn spec_id(&self) -> String {
        self.id
    }

    pub closed spec fn spec_argv(&self) -> Seq<String> {
        self.argv@
    }

    /// The container's id.
    pub fn id(&self) -> (s: &str)
        ensures
            s@ == self.spec_id()@,
    {
        self.id.as_str()
    }

    /// The command the container will run.
    pub fn argv(&self) -> (v: &Vec<String>)
        ensures
            v@ == self.spec_argv(),
    {
        &self.argv
    }
}

/// What uploading a package into an acquired idle container leads to.
pub enum UploadOutcome {
    /// The package is in place: the container is ready to run the command.
    Injected(InjectedContainer),
    /// The upload failed: the container may hold a partial extraction, so
    /// it is destroyed rather than returned to the pool, and the engine's
    /// error is reported.
    Discard { container_id: String, error: ContainerError },
}

/// The step after the upload of a package into container `container_id`,
/// for the command `argv` that was checked before the upload.
pub fn after_upload(container_id: String, argv: Vec<String>, upload: Result<(), String>) -> (r: UploadOutcome)
    ensures
        match upload {
            Ok(()) => r matches UploadOutcome::Injected(c) && c.spec_id() == container_id && c.spec_argv()
                == argv@,
            Err(e) => r matches UploadOutcome::Discard { container_id: d, error: ContainerError::Engine(m) } && d
                == container_id && m == e,
        },
{
    match upload {
        Ok(()) => UploadOutcome::Injected(InjectedContainer { id: container_id, argv }),
        Err(e) => UploadOutcome::Discard { container_id, error: ContainerError::Engine(e) },
    }
}

/// Refuses an empty command.
pub fn check_command(argv: &Vec<String>) -> (r: Result<(), ContainerError>)
    ensures
        argv@.len() == 0 ==> r matches Err(ContainerError::EmptyCommand),
        argv@.len() > 0 ==> r is Ok,
{
    if argv.len() == 0 {
        Err(ContainerError::EmptyCommand)
    } else {
        Ok(())
    }
}

/// The command of an inject request: the one given, or `./main`.
pub fn inject_argv(argv: Option<Vec<String>>) -> (r: Vec<String>)
    ensures
        match argv {
            Some(v) => r@ == v@,
            None => r@.len() == 1 && r@[0]@ == "./main"@,
        },
{
    match argv {
        Some(v) => v,
        None => {
            let mut v: Vec<String> = Vec::new();
            v.push(String::from_str("./main"));
            v
        },
    }
}

/// The container port of a run request: the one given, or 8080.
pub fn run_port(port: Option<u16>) -> (p: u16)
    ensures
        p == match port {
            Some(q) => q,
            None => 8080u16,
        },
{
    match port {
        Some(q) => q,
        None => 8080,
    }
}

/// The idle container taken for an injection, or `IdlePoolExhausted`.
pub fn acquired_container(id: Option<String>) -> (r: Result<String, ContainerError>)
    ensures
        match id {
            Some(i) => r == Ok::<String, ContainerError>(i),
            None => r matches Err(ContainerError::IdlePoolExhausted),
        },
{
    match id {
        Some(i) => Ok(i),
        None => Err(ContainerError::IdlePoolExhausted),
    }
}

/// The pool of pre-started containers waiting for a package: handed out
/// oldest first, and topped back up to its target.
pub struct IdlePool {
    available: VecDeque<String>,
    target: usize,
}

impl IdlePool {
    /// The ids waiting, oldest first.
    pub closed spec fn waiting(&self) -> Seq<String> {
        self.available@
    }

    /// How many idle containers the pool keeps ready.
    pub closed spec fn spec_target(&self) -> usize {
        self.target
    }

    /// A pool of the given containers, waiting in that order.
    pub fn new(target: usize, ids: Vec<String>) -> (p: IdlePool)
        ensures
            p.waiting() == ids@,
            p.spec_target() == target,
    {
        let mut available: VecDeque<String> = VecDeque::new();
        let mut i: usize = 0;
        let mut rest = ids;
        let ghost orig = rest@;
        while rest.len() > 0
            invariant
                available@ + rest@ == orig,
            decreases rest@.len(),
        {
            let id = rest.remove(0);
            let ghost before = available@;
            available.push_back(id);
            proof {
                assert(available@ + rest@ =~= orig);
            }
        }
        proof {
            assert(available@ + rest@ =~= available@);
        }
        IdlePool { available, target }
    }

    /// Takes the oldest idle container out of the pool.
    pub fn acquire(&mut self) -> (id: Option<String>)
        ensures
            final(self).spec_target() == old(self).spec_target(),
            match id {
                Some(i) => old(self).waiting().len() > 0 && i == old(self).waiting()[0] && final(self).waiting()
                    == old(self).waiting().drop_first(),
                None => old(self).waiting().len() == 0 && final(self).waiting() == old(self).waiting(),
            },
    {
        let id = self.available.pop_front();
        proof {
            if id is Some {
                assert(self.available@ =~= old(self).available@.drop_first());
            }
        }
        id
    }

    /// Whether the pool is below its target and another container should
    /// be started.
    pub fn needs_replenish(&self) -> (r: bool)
        ensures
            r == (self.waiting().len() < self.spec_target()),
    {
        self.available.len() < self.target
    }

    /// Adds a newly started container behind the others.
    pub fn add(&mut self, id: String)
        ensures
            final(self).waiting() == old(self).waiting().push(id),
            final(self).spec_target() == old(self).spec_target(),
    {
        self.available.push_back(id);
    }

    /// The ids waiting, oldest first.
    pub fn list_ids(&self) -> (ids: Vec<String>)
        ensures
            ids@ == self.waiting(),
    {
        let mut ids: Vec<String> = Vec::new();
        let mut i: usize = 0;
        while i < self.available.len()
            invariant
                i <= self.available@.len(),
                ids@ == self.available@.subrange(0, i as int),
            decreases self.available@.len() - i,
        {
            ids.push(self.available[i].clone());
            i = i + 1;
        }
        proof {
            assert(self.available@.subrange(0, self.available@.len() as int) =~= self.available@);
        }
        ids
    }
}

/// Law: the pool hands out containers in the order they were added.
pub proof fn pool_is_first_in_first_out(waiting: Seq<String>, added: String)
    requires
        waiting.len() > 0,
    ensures
        waiting.push(added)[0] == waiting[0],
        waiting.push(added).drop_first() == waiting.drop_first().push(added),
{
    assert(waiting.push(added).drop_first() =~= waiting.drop_first().push(added));
}

/// One line of a container listing.
pub struct ContainerInfo {
    pub id: String,
    pub package: Option<String>,
    pub idle: Option<bool>,
    pub c_port: Option<u16>,
    pub h_port: Option<u16>,
}

/// An injected container awaiting its run.
pub struct InjectedListing {
    pub id: String,
    pub package_id: String,
}

/// A running container and its ports.
pub struct RunningListing {
    pub id: String,
    pub package_id: String,
    pub container_port: u16,
    pub host_port: u16,
}

pub open spec fn idle_info(id: String) -> ContainerInfo {
    ContainerInfo { id, package: None, idle: Some(true), c_port: None, h_port: None }
}

pub open spec fn injected_info(e: InjectedListing) -> ContainerInfo {
    ContainerInfo { id: e.id, package: Some(e.package_id), idle: None, c_port: None, h_port: None }
}

pub open spec fn running_info(e: RunningListing) -> ContainerInfo {
    ContainerInfo {
        id: e.id,
        package: Some(e.package_id),
        idle: None,
        c_port: Some(e.container_port),
        h_port: Some(e.host_port),
    }
}

/// The container listing: idle containers, then injected ones with
/// their package, then running ones with their package and ports.
pub fn container_listing(idle: Vec<String>, injected: Vec<InjectedListing>, running: Vec<RunningListing>) -> (r: Vec<
    ContainerInfo,
>)
    ensures
        r@ == idle@.map_values(|id: String| idle_info(id)) + injected@.map_values(
            |e: InjectedListing| injected_info(e),
        ) + running@.map_values(|e: RunningListing| running_info(e)),
{
    let ghost a = idle@.map_values(|id: String| idle_info(id));
    let ghost b = injected@.map_values(|e: InjectedListing| injected_info(e));
    let ghost c = running@.map_values(|e: RunningListing| running_info(e));
    let mut out: Vec<ContainerInfo> = Vec::new();
    let mut rest = idle;
    let ghost orig = rest@;
    while rest.len() > 0
        invariant
            out@ + rest@.map_values(|id: String| idle_info(id)) == orig.map_values(|id: String| idle_info(id)),
        decreases rest@.len(),
    {
        let ghost before = rest@;
        let id = rest.remove(0);
        out.push(ContainerInfo { id, package: None, idle: Some(true), c_port: None, h_port: None });
        proof {
            assert(before =~= seq![id] + rest@);
            assert(before.map_values(|id: String| idle_info(id)) =~= seq![idle_info(id)] + rest@.map_values(
                |id: String| idle_info(id),
            ));
            assert(out@ + rest@.map_values(|id: String| idle_info(id)) =~= orig.map_values(|id: String| idle_info(id)));
        }
    }
    proof {
        assert(out@ =~= a);
    }
    let mut rest = injected;
    let ghost orig = rest@;
    while rest.len() > 0
        invariant
            out@ + rest@.map_values(|e: InjectedListing| injected_info(e)) == a + orig.map_values(
                |e: InjectedListing| injected_info(e),
            ),
        decreases rest@.len(),
    {
        let ghost before = rest@;
        let e = rest.remove(0);
        let ghost ev = e;
        out.push(ContainerInfo { id: e.id, package: Some(e.package_id), idle: None, c_port: None, h_port: None });
        proof {
            assert(before =~= seq![ev] + rest@);
            assert(before.map_values(|e: InjectedListing| injected_info(e)) =~= seq![injected_info(ev)]
                + rest@.map_values(|e: InjectedListing| injected_info(e)));
            assert(out@ + rest@.map_values(|e: InjectedListing| injected_info(e)) =~= a + orig.map_values(
                |e: InjectedListing| injected_info(e),
            ));
        }
    }
    proof {
        assert(out@ =~= a + b);
    }
    let mut rest = running;
    let ghost orig = rest@;
    while rest.len() > 0
        invariant
            out@ + rest@.map_values(|e: RunningListing| running_info(e)) == a + b + orig.map_values(
                |e: RunningListing| running_info(e),
            ),
        decreases rest@.len(),
    {
        let ghost before = rest@;
        let e = rest.remove(0);
        let ghost ev = e;
        out.push(
            ContainerInfo {
                id: e.id,
                package: Some(e.package_id),
                idle: None,
                c_port: Some(e.container_port),
                h_port: Some(e.host_port),
            },
        );
        proof {
            assert(before =~= seq![ev] + rest@);
            assert(before.map_values(|e: RunningListing| running_info(e)) =~= seq![running_info(ev)]
                + rest@.map_values(|e: RunningListing| running_info(e)));
            assert(out@ + rest@.map_values(|e: RunningListing| running_info(e)) =~= a + b + orig.map_values(
                |e: RunningListing| running_info(e),
            ));
        }
    }
    proof {
        assert(out@ =~= a + b + c);
    }
    out
}

} // verus!
