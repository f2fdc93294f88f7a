//! The present time.

use vstd::prelude::*;

verus! {

/// `bson::DateTime::now`: the present time in milliseconds since the Unix
/// epoch. Nothing is claimed of it: every caller holds for every time.
#[verifier::external_body]
pub(crate) fn now_millis() -> (millis: i64) {
    bson::DateTime::now().timestamp_millis()
}

} // verus!
