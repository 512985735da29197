//! Kinds of simulator breakpoints.
use vstd::prelude::*;

verus! {

/// What a simulator breakpoint watches.
#[derive(Debug, Clone, Copy, PartialEq, Eq, Structural)]
pub enum Type {
    /// An instruction address.
    Code,
    /// A data access.
    Data,
    /// A register access.
    Register,
}

} // verus!
