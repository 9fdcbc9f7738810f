//! The wall clock, read through `std::time::SystemTime`.

use vstd::prelude::*;
use crate::text::{decimal_spec, push_decimal};

verus! {

/// Milliseconds since the Unix epoch, read from `SystemTime::now`.  Nothing is
/// promised of the value: it comes from the machine's clock, which may even go
/// back.  A clock set before the epoch reads as 0.
#[verifier::external_body]
pub(crate) fn now_millis() -> (t: u64) {
    std::time::SystemTime::now()
        .duration_since(std::time::UNIX_EPOCH)
        .map(|d| d.as_millis() as u64)
        .unwrap_or(0)
}

/// The whole seconds in `millis` milliseconds, written in decimal.
pub fn timestamp_text(millis: u64) -> (s: String)
    ensures
        s@ == decimal_spec((millis / 1000) as nat),
{
    let mut s = String::new();
    push_decimal(&mut s, millis / 1000);
    s
}

/// The dashboard's timestamp: the seconds since the Unix epoch on the clock,
/// in decimal (0 when the clock reads before the epoch).
pub fn chrono_timestamp() -> (s: String)
    ensures
        exists|millis: u64| s@ == #[trigger] decimal_spec((millis / 1000) as nat),
{
    timestamp_text(now_millis())
}

} // verus!
