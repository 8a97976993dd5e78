//! The one place the library reads the wall clock. Everything that depends
//! on the current moment takes the reading as an argument, so that it is
//! verified for every value the clock may hand back.

use vstd::prelude::*;

verus! {

/// Relies on `time::OffsetDateTime::now_utc` and `unix_timestamp`: the
/// current moment as whole seconds since the Unix epoch. The value depends
/// on the wall clock, so nothing is promised of it; callers state what
/// holds for every reading.
#[verifier::external_body]
pub(crate) fn now_utc() -> i64 {
    time::OffsetDateTime::now_utc().unix_timestamp()
}

} // verus!
