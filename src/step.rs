//! Units of single-stepping.
use vstd::prelude::*;

verus! {

/// What a step counts.
#[derive(Debug, Clone, Copy, PartialEq, Eq, Structural)]
pub enum Unit {
    Instruction,
    Cycle,
}

} // verus!
