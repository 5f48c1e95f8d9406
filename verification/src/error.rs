//! Why a mesh was not built.

use vstd::prelude::*;

verus! {

/// The reason for which a request for a mesh is refused.
#[derive(Clone, Copy, Debug, PartialEq, Eq, Structural)]
pub enum MeshError {
    /// The recursion level is negative or above `MAX_RECURSION_LEVEL`.
    InvalidInput,
}

} // verus!
