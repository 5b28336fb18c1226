use vstd::prelude::*;

verus! {

/// Relies on chrono's `Utc::now`: the wall-clock moment of the call, as
/// milliseconds since the Unix epoch. Nothing is promised of the value.
#[verifier::external_body]
pub(crate) fn now_millis() -> i64 {
    chrono::Utc::now().timestamp_millis()
}

} // verus!
