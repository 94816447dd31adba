use vstd::prelude::*;

verus! {

/// The failure value every operation reports: a human-readable diagnostic
/// naming the path or identity that the operation could not handle.
#[derive(Debug, Clone)]
pub struct OabError {
    pub message: String,
}

} // verus!
