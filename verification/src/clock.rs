//! The wall clock, as timestamp text.

use vstd::prelude::*;

verus! {

/// Trusted: reads the current UTC time with `chrono::Utc::now` and renders it
/// with `DateTime::to_rfc3339`. Nothing is claimed of the text: it depends on
/// the moment of the call. The system clock must not stand before the Unix
/// epoch, where `Utc::now` would stop the program.
#[verifier::external_body]
pub(crate) fn utc_now_rfc3339() -> (now: String) {
    chrono::Utc::now().to_rfc3339()
}

} // verus!
