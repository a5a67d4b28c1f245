//! Maelstrom error replies.

use vstd::prelude::*;

use crate::message::{opt_id, Message, MsgId};

verus! {

/// The error code of a request whose handler failed: the request may or may not have
/// taken effect ("crash", an indefinite error).
pub const CRASH: u32 = 13;

/// A maelstrom [error] message provides an error code and a descriptive error message.
///
/// [error]: https://github.com/jepsen-io/maelstrom/blob/main/doc/protocol.md#errors
#[derive(Debug, PartialEq)]
pub struct Error {
    pub code: u32,
    pub text: String,
}

impl Error {
    /// The reply to a request whose handler failed with `text`.
    pub fn crash(text: String) -> (res: Error)
        ensures
            res.code == CRASH,
            res.text == text,
    {
        Error { code: CRASH, text }
    }
}

/// What a node does with an error message it receives: when the error answers one of its
/// RPCs, the id of that RPC, to report to the outbox; otherwise nothing, and the error is
/// only logged.
pub fn error(msg: &Message<Error>) -> (res: Option<MsgId>)
    ensures
        opt_id(res) == opt_id(msg.headers.in_reply_to),
{
    msg.headers.in_reply_to
}

} // verus!
