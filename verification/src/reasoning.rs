//! Single entry point for document checks.

use vstd::prelude::*;
use crate::verification::{detect_strong_claims as detect_strong_claims_impl, strong_claims_spec};

verus! {

/// Entry point for the checks on processed documents. It holds no state.
#[derive(Debug, Default, Clone)]
pub struct Verifier;

impl Verifier {
    pub fn new() -> (r: Self) {
        Verifier
    }

    /// The strong claims of `processed` (see `detect_strong_claims`).
    pub fn detect_strong_claims(&self, processed: &str) -> (r: Vec<String>)
        ensures
            r@.len() == strong_claims_spec(processed@).len(),
            forall|i: int| 0 <= i < r@.len() ==> (#[trigger] r@[i])@ == strong_claims_spec(processed@)[i],
    {
        detect_strong_claims_impl(processed)
    }
}

} // verus!
