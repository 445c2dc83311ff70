//! Values of the Docker / Podman runtime: where the daemon's socket is
//! looked for, and how log output is labelled.

use vstd::prelude::*;
use crate::hypervisor::log::OutputKind;
use crate::text::{chars_from, chars_start_with, string_from_chars, trim, trimmed, seq_starts_with};

verus! {

/// Tag of the base image built from the root filesystem.
pub const BASE_IMAGE_TAG: &'static str = "smoothie/base:latest";
/// Label of containers the runtime manages.
pub const SMOOTHIE_LABEL: &'static str = "io.smoothie.managed";

/// The stream a log frame came from.
#[derive(Clone, Copy, Debug, PartialEq, Eq, Structural)]
pub enum LogStream {
    Stdout,
    Stderr,
    Stdin,
}

/// A chunk of a container's log and its stream.
pub struct LogFrame {
    pub stream: LogStream,
    pub payload: Vec<u8>,
}

/// The stream of a log chunk: console output counts as standard output.
pub fn frame_stream(kind: &OutputKind) -> (s: LogStream)
    ensures
        s == match *kind {
            OutputKind::StdOut | OutputKind::Console => LogStream::Stdout,
            OutputKind::StdErr => LogStream::Stderr,
            OutputKind::StdIn => LogStream::Stdin,
        },
{
    match kind {
        OutputKind::StdOut | OutputKind::Console => LogStream::Stdout,
        OutputKind::StdErr => LogStream::Stderr,
        OutputKind::StdIn => LogStream::Stdin,
    }
}

/// The socket a `DOCKER_HOST`-style value names: `unix://` followed by a
/// path, or an absolute path, after trimming whitespace.
pub open spec fn unix_socket_of(value: Seq<char>) -> Option<Seq<char>> {
    let v = trim(value);
    if seq_starts_with(v, "unix://"@) {
        Some(v.subrange(7, v.len() as int))
    } else if v.len() > 0 && v[0] == '/' {
        Some(v)
    } else {
        None
    }
}

/// Reads a socket path from a `DOCKER_HOST`-style value.
pub fn parse_unix_socket(value: &str) -> (r: Option<String>)
    ensures
        crate::api::apps::opt_view(r) == unix_socket_of(value@),
{
    let v = trimmed(value);
    proof {
        reveal_strlit("unix://");
    }
    if chars_start_with(&v, "unix://") {
        let rest = chars_from(&v, 7);
        Some(string_from_chars(&rest))
    } else if v.len() > 0 && v[0] == '/' {
        Some(string_from_chars(&v))
    } else {
        None
    }
}

/// The well-known socket locations, in the order they are tried.
pub fn docker_candidate_sockets() -> (v: Vec<String>)
    ensures
        v@.len() == 4,
        v@[0]@ == "/var/run/docker.sock"@,
        v@[1]@ == "/run/docker.sock"@,
        v@[2]@ == "/run/podman/podman.sock"@,
        v@[3]@ == "/var/run/podman/podman.sock"@,
{
    let mut v: Vec<String> = Vec::new();
    v.push(String::from_str("/var/run/docker.sock"));
    v.push(String::from_str("/run/docker.sock"));
    v.push(String::from_str("/run/podman/podman.sock"));
    v.push(String::from_str("/var/run/podman/podman.sock"));
    v
}

} // verus!
