//! The wall clock.

use vstd::prelude::*;

verus! {

/// The current instant in whole seconds since the Unix epoch. Trusted: calls
/// `chrono::Utc::now` and `DateTime::timestamp`. The value differs from call
/// to call; all that is claimed of it is that it is not negative, since
/// `Utc::now` takes the time that has passed since the epoch and does not
/// return where the clock stands before it.
#[verifier::external_body]
pub(crate) fn now_timestamp() -> (t: i64)
    ensures
        0 <= t,
{
    chrono::Utc::now().timestamp()
}

} // verus!
