//! The ambient wall clock.
//!
//! Every scheduling operation exists in an `_at` form taking the instant as
//! a plain argument, so the whole engine is verified for every possible
//! time; this module only supplies the default instant.

use vstd::prelude::*;
use crate::cards::TIME_MAX;

verus! {

/// Relies on `chrono::Utc::now` and `DateTime::timestamp`: the current UTC
/// time as whole seconds since the Unix epoch, an `i64`; dividing by 60
/// keeps the magnitude under `i64::MAX / 60`.  Nothing else is assumed of
/// the clock.
#[verifier::external_body]
pub fn now_minutes() -> (r: i64)
    ensures
        -TIME_MAX <= r <= TIME_MAX,
{
    chrono::Utc::now().timestamp() / 60
}

} // verus!
