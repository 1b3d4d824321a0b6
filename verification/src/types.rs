//! The runtime's error surface.

use vstd::prelude::*;

verus! {

/// The runtime's whole error surface: three kinds, no hierarchy.
///
/// Every fallible operation of the heap reports one of these; none of them
/// carries payload, so recovery decisions stay with the caller.
#[derive(Clone, Copy, Debug, PartialEq, Eq, Structural)]
pub enum GCError {
    /// The operating system refused to provide the underlying region.
    OSOutOfMemory,
    /// There is no memory left in this space.
    NoSpace,
    /// A type-narrowing conversion did not match the stored kind.
    TypeError,
}

impl GCError {
    /// A short human-readable description of the error.
    pub fn message(&self) -> (r: &'static str)
        ensures
            *self == GCError::OSOutOfMemory ==> r@ == "OS failed to provide memory"@,
            *self == GCError::NoSpace ==> r@ == "No memory left in space"@,
            *self == GCError::TypeError ==> r@ == "Type coercion failed"@,
    {
        match self {
            GCError::OSOutOfMemory => "OS failed to provide memory",
            GCError::NoSpace => "No memory left in space",
            GCError::TypeError => "Type coercion failed",
        }
    }
}

} // verus!
