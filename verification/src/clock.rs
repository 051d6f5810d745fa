use vstd::prelude::*;

verus! {

/// Relies on `std::time::SystemTime::now`: the current wall-clock time
/// as Unix seconds (negative before the epoch). Nothing is promised of
/// the value; callers state what holds whatever instant comes back.
#[verifier::external_body]
pub(crate) fn now_unix() -> i64 {
    match std::time::SystemTime::now().duration_since(std::time::UNIX_EPOCH) {
        Ok(since) => since.as_secs() as i64,
        Err(before) => -(before.duration().as_secs() as i64),
    }
}

} // verus!
