//! The one clock read the ledger makes: the creation timestamp stamped
//! on a freshly mined block. Timestamps are informational only and are
//! never validated, so nothing is promised about the value.

use vstd::prelude::*;

verus! {

/// Relies on `chrono::DateTime::<Utc>::from` applied to the system
/// clock, and `DateTime::timestamp`: seconds since the Unix epoch,
/// negative for instants before it (this conversion path, unlike
/// `Utc::now`, does not abort on a pre-epoch clock). The value depends
/// on the wall clock, so no two calls are related; nothing is promised
/// about the result.
#[verifier::external_body]
pub fn now_timestamp() -> (r: i64) {
    chrono::DateTime::<chrono::Utc>::from(std::time::SystemTime::now()).timestamp()
}

} // verus!
