//! The request log: one line per request, written around the chain.

use vstd::prelude::*;

verus! {

/// The request logger.
pub struct LogMiddleware;

impl LogMiddleware {
    /// The logger.
    pub fn new() -> (m: Self) {
        LogMiddleware
    }

    /// The middleware's name.
    pub fn name(&self) -> (n: &'static str)
        ensures
            n@ == "logger"@,
    {
        proof {
            reveal_strlit("logger");
        }
        "logger"
    }

    /// Its place in the chain: last, wrapping everything.
    pub fn priority(&self) -> (p: i32)
        ensures
            p == -100,
    {
        -100
    }
}

} // verus!
