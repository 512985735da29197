//! The simulation clock.
use vstd::prelude::*;

verus! {

/// Where simulation time stands and whether it runs.
#[derive(Debug, Clone, Copy, PartialEq, Eq, Structural)]
pub struct Time {
    pub ticks: u64,
    pub tick_hz: u64,
    pub running: bool,
}

} // verus!
