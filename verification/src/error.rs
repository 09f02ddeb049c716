use vstd::prelude::*;

verus! {

/// Why a request was turned away before any work was queued.
#[derive(Clone, Copy, Debug, PartialEq, Eq, Structural)]
pub enum ApiError {
    /// A required field is blank, or a set that must hold something is empty.
    InvalidInput,
    /// A batch names more addresses than one request may carry.
    PayloadTooLarge,
    /// The chain name has no configured numeric identifier.
    UnknownChain,
}

} // verus!
