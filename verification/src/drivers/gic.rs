//! Interrupt-controller constants the scheduler path relies on. The
//! register programming itself is hardware access and lives outside
//! this crate.

use vstd::prelude::*;

verus! {

/// Private peripheral interrupt number of the generic timer.
pub const TIMER_PPI: u32 = 30;

/// The interrupt id the periodic scheduler tick arrives on.
pub fn timer_irq_id() -> (r: u32)
    ensures
        r == TIMER_PPI,
{
    TIMER_PPI
}

} // verus!
