//! Wall-clock access: the only place the library reads the environment.

use vstd::prelude::*;

verus! {

/// Relies on chrono::Utc::now and chrono::DateTime::timestamp for the current
/// wall-clock moment as whole seconds since the Unix epoch. Nothing useful can
/// be promised of a clock reading, so the contract is empty: every caller
/// states what holds of its behaviour whatever value came back.
#[verifier::external_body]
pub fn now_seconds() -> i64 {
    chrono::Utc::now().timestamp()
}

} // verus!
