//! The crate's one randomness source.

use vstd::prelude::*;

verus! {

/// Relies on rand::random::<bool>: a fair fresh draw; nothing is promised
/// of its value.
#[verifier::external_body]
pub(crate) fn coin() -> bool {
    rand::random::<bool>()
}

} // verus!
