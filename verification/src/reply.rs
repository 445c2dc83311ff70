//! Replies of other services (the router, a hypervisor) to the requests
//! the logic makes, as the logic reads them.

use vstd::prelude::*;
use crate::text::{concat_str, push_str};

verus! {

/// What came back from an HTTP request to another service.
pub enum Reply {
    /// No answer: the request could not be sent or its answer not read;
    /// the transport's error text.
    Unreachable(String),
    /// An answer: its status code, the status as text (code and reason,
    /// such as `404 Not Found`), and its body.
    Answered { status: u16, status_line: String, body: String },
}

/// A stop or shutdown request has done its work on a 2xx answer, and on
/// 404: there is nothing left to stop.
pub open spec fn stop_accepted(status: u16) -> bool {
    (200 <= status && status < 300) || status == 404
}

/// Whether an answer to a stop or shutdown request means it is done.
pub fn is_stop_accepted(status: u16) -> (r: bool)
    ensures
        r == stop_accepted(status),
{
    (200 <= status && status < 300) || status == 404
}

/// Whether an answer is a success (2xx).
pub open spec fn success(status: u16) -> bool {
    200 <= status && status < 300
}

/// The result of a request whose successful answer carries a body, given
/// the caller's decoding of that body (read only on a 2xx answer).  The
/// failures are `{unreachable}{error}`, `{refused}{status}: {body}` and
/// `{invalid}{decoding error}`.
pub open spec fn reply_result<T>(
    reply: Reply,
    decoded: Result<T, String>,
    unreachable: Seq<char>,
    refused: Seq<char>,
    invalid: Seq<char>,
) -> Result<T, Seq<char>> {
    match reply {
        Reply::Unreachable(e) => Err(unreachable + e@),
        Reply::Answered { status, status_line, body } => if success(status) {
            match decoded {
                Ok(v) => Ok(v),
                Err(e) => Err(invalid + e@),
            }
        } else {
            Err(refused + status_line@ + ": "@ + body@)
        },
    }
}

/// Reads a reply as `reply_result` states.
pub fn read_reply<T>(
    reply: &Reply,
    decoded: Result<T, String>,
    unreachable: &str,
    refused: &str,
    invalid: &str,
) -> (r: Result<T, String>)
    ensures
        match reply_result(*reply, decoded, unreachable@, refused@, invalid@) {
            Ok(v) => r == Ok::<T, String>(v),
            Err(m) => r matches Err(s) && s@ == m,
        },
{
    match reply {
        Reply::Unreachable(e) => Err(concat_str(unreachable, e.as_str())),
        Reply::Answered { status, status_line, body } => {
            if 200 <= *status && *status < 300 {
                match decoded {
                    Ok(v) => Ok(v),
                    Err(e) => Err(concat_str(invalid, e.as_str())),
                }
            } else {
                Err(push_str(push_str(concat_str(refused, status_line.as_str()), ": "), body.as_str()))
            }
        },
    }
}

} // verus!
