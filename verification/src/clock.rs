//! What the library takes from outside itself: the time of day, and fresh
//! identifiers.

use vstd::prelude::*;

verus! {

/// `time::OffsetDateTime::now_utc`, formatted by `OffsetDateTime::format` as
/// RFC 3339: the current time as a text, or nothing where it cannot be
/// formatted. Nothing is known of the time.
#[verifier::external_body]
pub(crate) fn now_rfc3339() -> (r: Option<String>) {
    match time::OffsetDateTime::now_utc().format(&time::format_description::well_known::Rfc3339) {
        Ok(s) => Some(s),
        Err(_) => None,
    }
}

/// `uuid::Uuid::new_v4`, as a text: a random identifier. Nothing is known of
/// it.
#[verifier::external_body]
pub(crate) fn random_id() -> (r: String) {
    uuid::Uuid::new_v4().to_string()
}

} // verus!
