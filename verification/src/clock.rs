//! The two values that come from outside the program: the time and fresh
//! identifiers. Nothing is claimed of either; every function that uses one
//! has a counterpart that takes it as an argument.

use vstd::prelude::*;

verus! {

/// Trusted: calls `chrono::Utc::now` and formats the result with
/// `DateTime::to_rfc3339`. The text depends on the clock, so nothing is
/// stated of it. `Utc::now` panics only where the system clock stands before
/// 1970.
#[verifier::external_body]
pub(crate) fn now_rfc3339() -> String {
    chrono::Utc::now().to_rfc3339()
}

/// Trusted: calls `uuid::Uuid::new_v4` and formats the result. The identifier
/// is random, so nothing is stated of it.
#[verifier::external_body]
pub(crate) fn new_document_id() -> String {
    uuid::Uuid::new_v4().to_string()
}

} // verus!
