//! The time of day.

use std::time::SystemTime;
use vstd::prelude::*;

verus! {

/// A time of day, as the standard library holds it. Nothing is read from it
/// here.
#[verifier::external_type_specification]
#[verifier::external_body]
pub struct TimeOfDay(std::time::SystemTime);

/// `SystemTime::now` of the standard library. Nothing is claimed of the time
/// that it gives.
#[verifier::external_body]
pub(crate) fn now() -> (t: SystemTime) {
    SystemTime::now()
}

} // verus!
