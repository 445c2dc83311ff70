//! Interactive boxes: a fresh Alpine container running a shell for four
//! hours, reached over a websocket.  This module holds the answer to a
//! box creation and the decisions the shell and websocket relays take on
//! each event.

use vstd::prelude::*;
use crate::text::{concat_str, push_str, str_eq};

verus! {

/// How long a box lives, in seconds (four hours).
pub const BOX_LIFETIME_SECS: u64 = 14400;
/// How many output chunks a slow websocket client may lag behind.
pub const OUTPUT_BUFFER_CHUNKS: usize = 256;

/// The answer to a box creation.
pub struct CreateBoxResponse {
    pub id: String,
    pub ws_endpoint: String,
    pub expires_in_seconds: u64,
}

/// The websocket URL of a box: `wss://` when the request came over
/// `https`, `ws://` otherwise, then `{host}/box/{id}/ws`.
pub open spec fn ws_url(scheme: Seq<char>, host: Seq<char>, id: Seq<char>) -> Seq<char> {
    (if scheme == "https"@ {
        "wss"@
    } else {
        "ws"@
    }) + "://"@ + host + "/box/"@ + id + "/ws"@
}

/// The answer to a box creation made over `scheme` to `host`.
pub fn create_box_response(id: String, scheme: &str, host: &str) -> (r: CreateBoxResponse)
    ensures
        r.id == id,
        r.ws_endpoint@ == ws_url(scheme@, host@, id@),
        r.expires_in_seconds == BOX_LIFETIME_SECS,
{
    let ws_scheme = if str_eq(scheme, "https") {
        "wss"
    } else {
        "ws"
    };
    let url = push_str(concat_str(ws_scheme, "://"), host);
    let url = push_str(push_str(url, "/box/"), id.as_str());
    let url = push_str(url, "/ws");
    CreateBoxResponse { id, ws_endpoint: url, expires_in_seconds: BOX_LIFETIME_SECS }
}

/// What follows starting the interactive shell of a new box container.
pub enum ShellStart {
    /// The shell runs: the box session of this container opens.
    Session(String),
    /// The shell did not start: the container is removed and the error
    /// reported.
    Discard { container_id: String, error: String },
}

/// The step after starting the shell of box container `container_id`.
pub fn after_shell_start(container_id: String, started: Result<(), String>) -> (r: ShellStart)
    ensures
        match started {
            Ok(()) => r == ShellStart::Session(container_id),
            Err(e) => r == (ShellStart::Discard { container_id, error: e }),
        },
{
    match started {
        Ok(()) => ShellStart::Session(container_id),
        Err(error) => ShellStart::Discard { container_id, error },
    }
}

/// What happens to a box's shell: output, something else, a failure, its
/// end, or the end of the box's lifetime.
pub enum ShellEvent {
    Output(Vec<u8>),
    Other,
    Failed,
    Exited,
    Expired,
}

/// What the shell relay does next.
pub enum ShellStep {
    /// Broadcast the output to the connected clients.
    Forward(Vec<u8>),
    /// Nothing to relay.
    Ignore,
    /// Stop: the box's container is removed and its clients told.
    Stop,
}

/// The shell relay's decision on an event.
pub fn shell_step(event: ShellEvent) -> (s: ShellStep)
    ensures
        match event {
            ShellEvent::Output(b) => s == ShellStep::Forward(b),
            ShellEvent::Other => s is Ignore,
            _ => s is Stop,
        },
{
    match event {
        ShellEvent::Output(b) => ShellStep::Forward(b),
        ShellEvent::Other => ShellStep::Ignore,
        _ => ShellStep::Stop,
    }
}

/// What happens on a box's websocket: a client message, the shell's
/// output, the box closing, or a failed send.
pub enum SocketEvent {
    Text(String),
    Binary(Vec<u8>),
    Ping(Vec<u8>),
    Close,
    Continuation,
    PongOrNop,
    IncomingEnded,
    Output(Vec<u8>),
    OutputLagged,
    OutputClosed,
    ClosedChanged { ok: bool, closed: bool },
    InputFailed,
    PongFailed,
    BinaryFailed,
}

/// Why the relay closes a websocket.
pub enum CloseKind {
    /// The shell is gone (`Normal`, "shell terminated").
    Normal,
    /// Fragmented messages (`Unsupported`).
    Unsupported,
    /// The client fell behind (`Error`).
    Error,
}

/// What the websocket relay does next.
pub enum SocketStep {
    SendText(String),
    SendInput(Vec<u8>),
    SendPong(Vec<u8>),
    SendBinary(Vec<u8>),
    Continue,
    /// Close with the client's own reason, and stop.
    EchoClose,
    /// Close with this code and description, and stop.
    Close(CloseKind, String),
    /// Stop without closing.
    Return,
}

/// The websocket relay's decision on an event.
pub fn socket_step(event: SocketEvent) -> (s: SocketStep)
    ensures
        match event {
            SocketEvent::Text(t) => s == SocketStep::SendText(t),
            SocketEvent::Binary(b) => s == SocketStep::SendInput(b),
            SocketEvent::Ping(b) => s == SocketStep::SendPong(b),
            SocketEvent::Close => s is EchoClose,
            SocketEvent::Continuation => s matches SocketStep::Close(CloseKind::Unsupported, d) && d@
                == "fragmented messages are not supported"@,
            SocketEvent::PongOrNop => s is Continue,
            SocketEvent::IncomingEnded => s is Return,
            SocketEvent::Output(b) => s == SocketStep::SendBinary(b),
            SocketEvent::OutputLagged => s matches SocketStep::Close(CloseKind::Error, d) && d@
                == "client could not keep up with shell output"@,
            SocketEvent::OutputClosed => s matches SocketStep::Close(CloseKind::Normal, d) && d@ == "shell terminated"@,
            SocketEvent::ClosedChanged { ok, closed } => if !ok || closed {
                s matches SocketStep::Close(CloseKind::Normal, d) && d@ == "shell terminated"@
            } else {
                s is Continue
            },
            SocketEvent::InputFailed | SocketEvent::PongFailed => s matches SocketStep::Close(CloseKind::Normal, d)
                && d@ == "shell terminated"@,
            SocketEvent::BinaryFailed => s is Return,
        },
{
    match event {
        SocketEvent::Text(t) => SocketStep::SendText(t),
        SocketEvent::Binary(b) => SocketStep::SendInput(b),
        SocketEvent::Ping(b) => SocketStep::SendPong(b),
        SocketEvent::Close => SocketStep::EchoClose,
        SocketEvent::Continuation => SocketStep::Close(
            CloseKind::Unsupported,
            String::from_str("fragmented messages are not supported"),
        ),
        SocketEvent::PongOrNop => SocketStep::Continue,
        SocketEvent::IncomingEnded => SocketStep::Return,
        SocketEvent::Output(b) => SocketStep::SendBinary(b),
        SocketEvent::OutputLagged => SocketStep::Close(
            CloseKind::Error,
            String::from_str("client could not keep up with shell output"),
        ),
        SocketEvent::OutputClosed => SocketStep::Close(CloseKind::Normal, String::from_str("shell terminated")),
        SocketEvent::ClosedChanged { ok, closed } => if !ok || closed {
            SocketStep::Close(CloseKind::Normal, String::from_str("shell terminated"))
        } else {
            SocketStep::Continue
        },
        SocketEvent::InputFailed | SocketEvent::PongFailed => SocketStep::Close(
            CloseKind::Normal,
            String::from_str("shell terminated"),
        ),
        SocketEvent::BinaryFailed => SocketStep::Return,
    }
}

} // verus!
