//! The saved-register snapshot pushed by the exception entry path and
//! restored on exception return. The layout order — 31 general
//! registers, a padding slot, the exception return address, the saved
//! processor state and the saved user stack pointer, eight bytes each —
//! is load-bearing for the assembly entry/exit contract.

use vstd::prelude::*;

verus! {

/// Number of general registers saved in a trap frame.
pub const TRAP_FRAME_REGS: usize = 31;

/// Size in bytes of the whole frame: 31 registers, one padding slot,
/// `elr`, `spsr` and `sp_el0`, eight bytes each.
pub const TRAP_FRAME_SIZE: usize = 280;

/// Saved processor state selecting the kernel level with interrupts
/// enabled.
pub const SPSR_KERNEL_IRQ_ENABLED: u64 = 0x5;

/// Saved processor state selecting the unprivileged level with
/// interrupts enabled.
pub const SPSR_USER_IRQ_ENABLED: u64 = 0x0;

/// The register snapshot saved across an exception.
pub struct TrapFrame {
    pub x: Vec<u64>,
    pub pad: u64,
    pub elr: u64,
    pub spsr: u64,
    pub sp_el0: u64,
}

impl TrapFrame {
    pub open spec fn wf(&self) -> bool {
        self.x@.len() == TRAP_FRAME_REGS
    }

    /// A fresh frame for a process entering at `entry`: all registers
    /// zero, the return address at the entry point, and a processor
    /// state that enables interrupts at the kernel level.
    pub fn new(entry: usize) -> (r: TrapFrame)
        ensures
            r.wf(),
            forall|i: int| 0 <= i < TRAP_FRAME_REGS ==> r.x@[i] == 0,
            r.pad == 0,
            r.elr == entry,
            r.spsr == SPSR_KERNEL_IRQ_ENABLED,
            r.sp_el0 == 0,
    {
        TrapFrame::new_with_state(entry, SPSR_KERNEL_IRQ_ENABLED)
    }

    /// A fresh frame for a process entering at `entry` under the given
    /// saved processor state.
    pub fn new_with_state(entry: usize, spsr: u64) -> (r: TrapFrame)
        ensures
            r.wf(),
            forall|i: int| 0 <= i < TRAP_FRAME_REGS ==> r.x@[i] == 0,
            r.pad == 0,
            r.elr == entry,
            r.spsr == spsr,
            r.sp_el0 == 0,
    {
        let frame = TrapFrame {
            x: vec![0u64; TRAP_FRAME_REGS],
            pad: 0,
            elr: entry as u64,
            spsr,
            sp_el0: 0,
        };
        frame
    }
}

/// The address at which a new process's seed frame is placed: just below
/// the stack top, rounded down to a 16-byte boundary.
pub fn init_frame_addr(stack_top: usize) -> (r: usize)
    requires
        stack_top >= TRAP_FRAME_SIZE,
    ensures
        r % 16 == 0,
        r + TRAP_FRAME_SIZE <= stack_top,
        stack_top - TRAP_FRAME_SIZE - 16 < r,
{
    let v = stack_top - TRAP_FRAME_SIZE;
    proof {
        lemma_frame_align(v);
    }
    v & !0xF
}

proof fn lemma_frame_align(v: usize)
    by (bit_vector)
    ensures
        (v & !0xFusize) % 16 == 0,
        (v & !0xFusize) <= v,
        v < (v & !0xFusize) + 16,
{
}

} // verus!
