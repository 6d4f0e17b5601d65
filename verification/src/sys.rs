//! Trusted boundary to the process environment: fresh identifiers and the
//! wall clock. Nothing else in the library performs an outside call.

use vstd::prelude::*;

verus! {

/// Relies on uuid's `Uuid::new_v4()` and its hyphenated `to_string` form,
/// which is always 36 characters. The value itself is random, so nothing
/// more can be promised of it.
#[verifier::external_body]
pub(crate) fn mint_id() -> (r: String)
    ensures
        r@.len() == 36,
{
    uuid::Uuid::new_v4().to_string()
}

/// Relies on chrono's `Utc::now().to_rfc3339()`: an RFC 3339 rendering of a
/// timestamp is never the empty string. The value depends on the clock, so
/// nothing more can be promised of it.
#[verifier::external_body]
pub(crate) fn now_rfc3339() -> (r: String)
    ensures
        r@.len() > 0,
{
    chrono::Utc::now().to_rfc3339()
}

} // verus!
