//! Address translation between the ARM and videocore views of memory.
//! The mailbox register protocol itself is hardware access and lives
//! outside this crate.

use vstd::prelude::*;
use crate::platform::board::{VC_MEM_BASE, VC_MEM_MASK};

verus! {

/// Translates a videocore bus address to the ARM physical address.
pub fn vc_to_arm(addr: u32) -> (r: usize)
    ensures
        r == (addr & VC_MEM_MASK) as usize,
{
    (addr & VC_MEM_MASK) as usize
}

/// Translates an ARM physical address to the videocore bus alias.
pub fn arm_to_vc(addr: usize) -> (r: u32)
    ensures
        r == (addr as u32 & VC_MEM_MASK) | VC_MEM_BASE,
{
    (addr as u32 & VC_MEM_MASK) | VC_MEM_BASE
}

} // verus!
