//! The echo service: every `echo` request is answered with its own payload.

use vstd::prelude::*;

verus! {

/// A request to echo a payload back.
#[derive(Debug)]
pub struct Echo {
    pub echo: String,
}

/// The reply to [`Echo`], carrying the same payload.
#[derive(Debug)]
pub struct EchoOk {
    pub echo: String,
}

impl Echo {
    pub fn ok(self) -> (res: EchoOk)
        ensures
            res.echo == self.echo,
    {
        EchoOk { echo: self.echo }
    }
}

/// Answers an echo request with its own payload.
pub fn echo(req: Echo) -> (res: EchoOk)
    ensures
        res.echo == req.echo,
{
    req.ok()
}

} // verus!
