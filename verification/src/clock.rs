use vstd::prelude::*;

verus! {

/// The current instant, from `chrono::Utc::now` and
/// `DateTime::timestamp_millis`: milliseconds since the Unix epoch. Nothing is
/// claimed of the value but that it is not negative: the clock is read as a
/// duration since the epoch. (`Utc::now` panics on a machine whose clock
/// stands before the epoch.)
#[verifier::external_body]
pub(crate) fn utc_now_millis() -> (now: i64)
    ensures
        now >= 0,
{
    chrono::Utc::now().timestamp_millis()
}

} // verus!
