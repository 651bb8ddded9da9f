//! Synchronous-exception decoding and syscall dispatch. The dispatcher
//! works on the saved trap frame and the process table; fetching bytes
//! through user pointers, the busy-wait sleep and the heap calls are
//! actions the surrounding interrupt path performs, guided by the
//! returned outcome, before completing the call through the
//! `complete_*` functions here.

use vstd::prelude::*;
use crate::kernel::process::{same_table, spec_get_fd, ProcessTable};
use crate::kernel::vfs;
use crate::trap::TrapFrame;
use crate::drivers::framebuffer::ConsoleState;
use crate::drivers::keyboard::Keyboard;

verus! {

pub const SYSCALL_OPEN: u64 = 1;

pub const SYSCALL_READ: u64 = 2;

pub const SYSCALL_WRITE: u64 = 3;

pub const SYSCALL_CLOSE: u64 = 4;

pub const SYSCALL_SLEEP_MS: u64 = 5;

pub const SYSCALL_ALLOC: u64 = 6;

pub const SYSCALL_REALLOC: u64 = 7;

pub const SYSCALL_FREE: u64 = 8;

/// The generic failure sentinel returned in x0.
pub const SYSCALL_FAIL: u64 = 0xFFFF_FFFF_FFFF_FFFF;

/// Exception-class value of an SVC instruction.
pub const EC_SVC: u64 = 0x15;

/// The exception-class field of the syndrome register.
pub fn exception_class(esr: u64) -> (r: u64)
    ensures
        r == (esr >> 26) & 0x3f,
{
    (esr >> 26) & 0x3f
}

/// What the interrupt path still has to do after dispatch: nothing,
/// fetch bytes through a user pointer and complete the call, perform
/// the timed wait, perform a heap call, or treat the exception as a
/// fatal fault.
#[derive(Clone, Copy, Debug, Eq, PartialEq, Structural)]
pub enum SyscallOutcome {
    Done,
    FetchPath { ptr: u64, len: u64, flags: u64 },
    ReadInto { fd: u64, ptr: u64, len: u64 },
    WriteFrom { fd: u64, ptr: u64, len: u64 },
    Sleep { ms: u64 },
    HeapAlloc { size: u64, align: u64 },
    HeapRealloc { ptr: u64, old_size: u64, new_size: u64, align: u64 },
    HeapFree { ptr: u64, size: u64 },
    Fault { ec: u64 },
}

/// Whether a size/alignment pair forms a valid allocation layout: the
/// alignment a power of two and the size, rounded up to it, within the
/// signed address range.
pub open spec fn spec_layout_ok(size: int, align: int) -> bool {
    &&& align >= 1
    &&& crate::layout::is_pow2(align as u64)
    &&& size + align - 1 <= 0x7FFF_FFFF_FFFF_FFFF
}

/// Checks a size/alignment pair.
pub fn layout_ok(size: u64, align: u64) -> (r: bool)
    ensures
        r == spec_layout_ok(size as int, align as int),
{
    if align == 0 {
        return false;
    }
    let mut k: u64 = 0;
    let mut pow = false;
    while k < 64 && !pow
        invariant
            k <= 64,
            !pow ==> forall|j: u64| j < k ==> align != (1u64 << j),
            pow ==> crate::layout::is_pow2(align) && align <= 0x8000_0000_0000_0000,
        decreases 64 - k, (if pow { 0int } else { 1int }),
    {
        if align == (1u64 << k) {
            pow = true;
            proof {
                vstd::bits::lemma_u64_pow2_no_overflow(k as nat);
                vstd::bits::lemma_u64_shl_is_mul(1u64, k);
                assert(align == vstd::arithmetic::power2::pow2(k as nat));
                assert((1u64 << k) <= 0x8000_0000_0000_0000) by (bit_vector)
                    requires
                        k < 64,
                ;
            }
        } else {
            k += 1;
        }
    }
    if !pow {
        proof {
            if crate::layout::is_pow2(align) {
                let j = choose|j: nat| j < 64 && align == vstd::arithmetic::power2::pow2(j);
                vstd::bits::lemma_u64_pow2_no_overflow(j);
                vstd::bits::lemma_u64_shl_is_mul(1u64, j as u64);
                assert(align == (1u64 << (j as u64)));
            }
        }
        return false;
    }
    size <= 0x7FFF_FFFF_FFFF_FFFF - (align - 1)
}

/// Dispatches a synchronous exception. A non-SVC class is a fault and
/// leaves the frame untouched. For an SVC, the syscall number in x8
/// selects the service; results are written to x0 and everything else
/// in the frame is left as it was. An unknown number writes the
/// failure sentinel to x0 and has no other effect.
pub fn sync_handler(table: &mut ProcessTable, cpu: usize, esr: u64, frame: &mut TrapFrame) -> (r:
    SyscallOutcome)
    requires
        old(table).wf(),
        cpu < 4,
        old(frame).wf(),
    ensures
        final(table).wf(),
        final(frame).wf(),
        final(frame).elr == old(frame).elr,
        final(frame).spsr == old(frame).spsr,
        final(frame).sp_el0 == old(frame).sp_el0,
        final(frame).pad == old(frame).pad,
        forall|i: int| 1 <= i < 31 ==> final(frame).x@[i] == old(frame).x@[i],
        ({
            let ec = (esr >> 26) & 0x3f;
            let num = old(frame).x@[8];
            let x0 = old(frame).x@[0];
            let x1 = old(frame).x@[1];
            let x2 = old(frame).x@[2];
            let x3 = old(frame).x@[3];
            if ec != EC_SVC {
                &&& r == (SyscallOutcome::Fault { ec })
                &&& final(frame).x@ == old(frame).x@
                &&& same_table(*final(table), *old(table))
            } else if num == SYSCALL_OPEN {
                &&& same_table(*final(table), *old(table))
                &&& if x0 == 0 || x1 == 0 {
                    r == SyscallOutcome::Done && final(frame).x@ == old(frame).x@.update(
                        0,
                        SYSCALL_FAIL,
                    )
                } else {
                    r == (SyscallOutcome::FetchPath { ptr: x0, len: x1, flags: x2 }) && final(frame).x@ == old(frame).x@
                }
            } else if num == SYSCALL_READ || num == SYSCALL_WRITE {
                &&& same_table(*final(table), *old(table))
                &&& if x1 == 0 || x2 == 0 {
                    r == SyscallOutcome::Done && final(frame).x@ == old(frame).x@.update(0, 0u64)
                } else if spec_get_fd(*old(table), cpu as int, x0 as int) is None {
                    r == SyscallOutcome::Done && final(frame).x@ == old(frame).x@.update(
                        0,
                        SYSCALL_FAIL,
                    )
                } else if num == SYSCALL_READ {
                    r == (SyscallOutcome::ReadInto { fd: x0, ptr: x1, len: x2 }) && final(frame).x@ == old(frame).x@
                } else {
                    r == (SyscallOutcome::WriteFrom { fd: x0, ptr: x1, len: x2 }) && final(frame).x@ == old(frame).x@
                }
            } else if num == SYSCALL_CLOSE {
                &&& r == SyscallOutcome::Done
                &&& if x0 < 8 && old(table).current()[cpu as int]
                    != crate::kernel::process::INVALID_IDX {
                    final(frame).x@ == old(frame).x@.update(0, 0u64)
                } else {
                    final(frame).x@ == old(frame).x@.update(0, SYSCALL_FAIL) && same_table(
                        *final(table),
                        *old(table),
                    )
                }
            } else if num == SYSCALL_SLEEP_MS {
                &&& same_table(*final(table), *old(table))
                &&& r == (SyscallOutcome::Sleep { ms: x0 })
                &&& final(frame).x@ == old(frame).x@.update(0, 0u64)
            } else if num == SYSCALL_ALLOC {
                &&& same_table(*final(table), *old(table))
                &&& if x0 == 0 {
                    r == SyscallOutcome::Done && final(frame).x@ == old(frame).x@.update(0, 0u64)
                } else if !spec_layout_ok(x0 as int, if x1 == 0 {
                    1
                } else {
                    x1 as int
                }) {
                    r == SyscallOutcome::Done && final(frame).x@ == old(frame).x@.update(
                        0,
                        SYSCALL_FAIL,
                    )
                } else {
                    r == (SyscallOutcome::HeapAlloc {
                        size: x0,
                        align: if x1 == 0 {
                            1
                        } else {
                            x1
                        },
                    }) && final(frame).x@ == old(frame).x@
                }
            } else if num == SYSCALL_REALLOC {
                &&& same_table(*final(table), *old(table))
                &&& {
                    let align = if x3 == 0 {
                        1u64
                    } else {
                        x3
                    };
                    let old_size = if x1 == 0 {
                        1u64
                    } else {
                        x1
                    };
                    if !spec_layout_ok(old_size as int, align as int) {
                        r == SyscallOutcome::Done && final(frame).x@ == old(frame).x@.update(
                            0,
                            SYSCALL_FAIL,
                        )
                    } else if x0 == 0 && x2 == 0 {
                        r == SyscallOutcome::Done && final(frame).x@ == old(frame).x@.update(
                            0,
                            0u64,
                        )
                    } else if x0 == 0 {
                        if spec_layout_ok(x2 as int, align as int) {
                            r == (SyscallOutcome::HeapAlloc { size: x2, align }) && final(frame).x@ == old(frame).x@
                        } else {
                            r == SyscallOutcome::Done && final(frame).x@ == old(frame).x@.update(
                                0,
                                SYSCALL_FAIL,
                            )
                        }
                    } else if x2 == 0 {
                        r == (SyscallOutcome::HeapFree { ptr: x0, size: old_size }) && final(frame).x@ == old(frame).x@.update(0, 0u64)
                    } else {
                        r == (SyscallOutcome::HeapRealloc {
                            ptr: x0,
                            old_size,
                            new_size: x2,
                            align,
                        }) && final(frame).x@ == old(frame).x@
                    }
                }
            } else if num == SYSCALL_FREE {
                &&& same_table(*final(table), *old(table))
                &&& if x0 == 0 || x1 == 0 {
                    r == SyscallOutcome::Done && final(frame).x@ == old(frame).x@.update(0, 0u64)
                } else if !spec_layout_ok(x1 as int, if x2 == 0 {
                    1
                } else {
                    x2 as int
                }) {
                    r == SyscallOutcome::Done && final(frame).x@ == old(frame).x@.update(
                        0,
                        SYSCALL_FAIL,
                    )
                } else {
                    r == (SyscallOutcome::HeapFree { ptr: x0, size: x1 }) && final(frame).x@ == old(frame).x@.update(0, 0u64)
                }
            } else {
                &&& same_table(*final(table), *old(table))
                &&& r == SyscallOutcome::Done
                &&& final(frame).x@ == old(frame).x@.update(0, SYSCALL_FAIL)
            }
        }),
{
    let ec = exception_class(esr);
    if ec != EC_SVC {
        return SyscallOutcome::Fault { ec };
    }
    let num = frame.x[8];
    let x0 = frame.x[0];
    let x1 = frame.x[1];
    let x2 = frame.x[2];
    let x3 = frame.x[3];
    if num == SYSCALL_OPEN {
        if x0 == 0 || x1 == 0 {
            frame.x[0] = SYSCALL_FAIL;
            return SyscallOutcome::Done;
        }
        SyscallOutcome::FetchPath { ptr: x0, len: x1, flags: x2 }
    } else if num == SYSCALL_READ || num == SYSCALL_WRITE {
        if x1 == 0 || x2 == 0 {
            frame.x[0] = 0;
            return SyscallOutcome::Done;
        }
        let fd_ok = if x0 < 8 {
            table.get_fd_current(cpu, x0 as usize).is_some()
        } else {
            false
        };
        if !fd_ok {
            frame.x[0] = SYSCALL_FAIL;
            return SyscallOutcome::Done;
        }
        if num == SYSCALL_READ {
            SyscallOutcome::ReadInto { fd: x0, ptr: x1, len: x2 }
        } else {
            SyscallOutcome::WriteFrom { fd: x0, ptr: x1, len: x2 }
        }
    } else if num == SYSCALL_CLOSE {
        let closed = if x0 < 8 {
            table.close_fd_current(cpu, x0 as usize)
        } else {
            false
        };
        if closed {
            frame.x[0] = 0;
        } else {
            frame.x[0] = SYSCALL_FAIL;
        }
        SyscallOutcome::Done
    } else if num == SYSCALL_SLEEP_MS {
        frame.x[0] = 0;
        SyscallOutcome::Sleep { ms: x0 }
    } else if num == SYSCALL_ALLOC {
        if x0 == 0 {
            frame.x[0] = 0;
            return SyscallOutcome::Done;
        }
        let align = if x1 == 0 {
            1
        } else {
            x1
        };
        if !layout_ok(x0, align) {
            frame.x[0] = SYSCALL_FAIL;
            return SyscallOutcome::Done;
        }
        SyscallOutcome::HeapAlloc { size: x0, align }
    } else if num == SYSCALL_REALLOC {
        let align = if x3 == 0 {
            1
        } else {
            x3
        };
        let old_size = if x1 == 0 {
            1
        } else {
            x1
        };
        if !layout_ok(old_size, align) {
            frame.x[0] = SYSCALL_FAIL;
            return SyscallOutcome::Done;
        }
        if x0 == 0 && x2 == 0 {
            frame.x[0] = 0;
            return SyscallOutcome::Done;
        }
        if x0 == 0 {
            if layout_ok(x2, align) {
                return SyscallOutcome::HeapAlloc { size: x2, align };
            }
            frame.x[0] = SYSCALL_FAIL;
            return SyscallOutcome::Done;
        }
        if x2 == 0 {
            frame.x[0] = 0;
            return SyscallOutcome::HeapFree { ptr: x0, size: old_size };
        }
        SyscallOutcome::HeapRealloc { ptr: x0, old_size, new_size: x2, align }
    } else if num == SYSCALL_FREE {
        if x0 == 0 || x1 == 0 {
            frame.x[0] = 0;
            return SyscallOutcome::Done;
        }
        let align = if x2 == 0 {
            1
        } else {
            x2
        };
        if !layout_ok(x1, align) {
            frame.x[0] = SYSCALL_FAIL;
            return SyscallOutcome::Done;
        }
        frame.x[0] = 0;
        SyscallOutcome::HeapFree { ptr: x0, size: x1 }
    } else {
        frame.x[0] = SYSCALL_FAIL;
        SyscallOutcome::Done
    }
}

/// Completes an `OPEN` call once the path bytes have been fetched:
/// resolves the path, allocates the lowest free descriptor slot of the
/// process on `cpu`, and writes the descriptor number to x0. The
/// sentinel is written — and no slot consumed — exactly when the path
/// does not name a device, no process runs on the core, or its
/// descriptor table is full.
pub fn complete_open(
    table: &mut ProcessTable,
    cpu: usize,
    frame: &mut TrapFrame,
    path: &[u8],
    flags: u64,
)
    requires
        old(table).wf(),
        cpu < 4,
        old(frame).wf(),
    ensures
        final(table).wf(),
        final(frame).wf(),
        final(frame).elr == old(frame).elr,
        final(frame).spsr == old(frame).spsr,
        final(frame).sp_el0 == old(frame).sp_el0,
        forall|i: int| 1 <= i < 31 ==> final(frame).x@[i] == old(frame).x@[i],
        ({
            let d_opt = vfs::spec_open(path@, vfs::spec_flags_from_bits(flags));
            let cur = old(table).current()[cpu as int];
            match d_opt {
                None => final(frame).x@ == old(frame).x@.update(0, SYSCALL_FAIL) && same_table(
                    *final(table),
                    *old(table),
                ),
                Some(d) => {
                    if cur == crate::kernel::process::INVALID_IDX {
                        final(frame).x@ == old(frame).x@.update(0, SYSCALL_FAIL) && same_table(
                            *final(table),
                            *old(table),
                        )
                    } else {
                        let fds = old(table).slots()[cur as int]->Some_0.fds@;
                        if forall|g: int| 0 <= g < 8 ==> (#[trigger] fds[g]) is Some {
                            final(frame).x@ == old(frame).x@.update(0, SYSCALL_FAIL)
                                && same_table(*final(table), *old(table))
                        } else {
                            let fd = final(frame).x@[0] as int;
                            &&& 0 <= fd < 8
                            &&& fds[fd] is None
                            &&& forall|g: int| 0 <= g < fd ==> (#[trigger] fds[g]) is Some
                            &&& final(frame).x@ == old(frame).x@.update(
                                0,
                                final(frame).x@[0],
                            )
                            &&& crate::kernel::process::fds_updated(
                                old(table).slots(),
                                final(table).slots(),
                                cur as int,
                                fd,
                                Some(d),
                            )
                            &&& final(table).queue() == old(table).queue()
                            &&& final(table).current() == old(table).current()
                            &&& final(table).spec_next_pid() == old(table).spec_next_pid()
                            &&& final(table).init_fds() == old(table).init_fds()
                            &&& final(table).stack_pool() == old(table).stack_pool()
                        }
                    }
                },
            }
        }),
{
    let desc = vfs::open_bytes(path, vfs::OpenFlags::from_bits(flags));
    match desc {
        None => {
            frame.x[0] = SYSCALL_FAIL;
        },
        Some(desc) => {
            match table.alloc_fd_current(cpu, desc) {
                Some(fd) => {
                    frame.x[0] = fd as u64;
                },
                None => {
                    frame.x[0] = SYSCALL_FAIL;
                },
            }
        },
    }
}

/// Completes a `WRITE` call once the bytes have been fetched: the
/// whole buffer is transferred — and its length recorded in x0 —
/// exactly when the descriptor exists, is writable, names the console
/// device, and a console is set up; otherwise x0 records zero.
pub fn complete_write(
    table: &ProcessTable,
    cpu: usize,
    frame: &mut TrapFrame,
    fd: u64,
    buf: &[u8],
    console: &mut ConsoleState,
)
    requires
        table.wf(),
        cpu < 4,
        old(frame).wf(),
        old(console).wf(),
    ensures
        final(frame).wf(),
        final(console).wf(),
        final(console).console is Some <==> old(console).console is Some,
        forall|i: int| 1 <= i < 31 ==> final(frame).x@[i] == old(frame).x@[i],
        final(frame).elr == old(frame).elr,
        final(frame).spsr == old(frame).spsr,
        final(frame).sp_el0 == old(frame).sp_el0,
        final(frame).x@ == old(frame).x@.update(
            0,
            crate::kernel::process::spec_write_count(
                *table,
                cpu as int,
                fd as int,
                buf@.len() as int,
                old(console).console is Some,
            ) as u64,
        ),
{
    let n = table.write_current_fd(cpu, if fd < 8 {
        fd as usize
    } else {
        8
    }, buf, console);
    frame.x[0] = n as u64;
}

/// Completes a `READ` call: for a readable keyboard descriptor the
/// buffered bytes are drained into the destination's prefix and the
/// count recorded in x0; any other existing descriptor transfers
/// nothing; a missing descriptor writes the sentinel. The caller
/// copies the buffer back through the user pointer.
pub fn complete_read(
    table: &ProcessTable,
    cpu: usize,
    frame: &mut TrapFrame,
    fd: u64,
    buf: &mut Vec<u8>,
    kbd: &mut Keyboard,
)
    requires
        table.wf(),
        cpu < 4,
        old(frame).wf(),
        old(kbd).wf(),
    ensures
        final(frame).wf(),
        final(kbd).wf(),
        final(buf)@.len() == old(buf)@.len(),
        forall|i: int| 1 <= i < 31 ==> final(frame).x@[i] == old(frame).x@[i],
        final(frame).elr == old(frame).elr,
        final(frame).spsr == old(frame).spsr,
        final(frame).sp_el0 == old(frame).sp_el0,
        ({
            match spec_get_fd(*table, cpu as int, fd as int) {
                None => final(frame).x@ == old(frame).x@.update(0, SYSCALL_FAIL) && final(kbd)@
                    == old(kbd)@ && final(buf)@ == old(buf)@,
                Some(d) => {
                    if d.flags.read && d.handle == vfs::FileHandle::DevKbd0 {
                        let n = vstd::math::min(old(buf)@.len() as int, old(kbd)@.len() as int);
                        &&& final(frame).x@ == old(frame).x@.update(0, n as u64)
                        &&& final(kbd)@ == old(kbd)@.skip(n)
                        &&& forall|k: int|
                            0 <= k < old(buf)@.len() ==> final(buf)@[k] == if k < n {
                                old(kbd)@[k]
                            } else {
                                old(buf)@[k]
                            }
                    } else {
                        final(frame).x@ == old(frame).x@.update(0, 0u64) && final(kbd)@ == old(
                            kbd,
                        )@ && final(buf)@ == old(buf)@
                    }
                },
            }
        }),
{
    let desc = table.get_fd_current(cpu, if fd < 8 {
        fd as usize
    } else {
        8
    });
    match desc {
        Some(desc) => {
            let n = vfs::read(&desc, buf, kbd);
            frame.x[0] = n as u64;
        },
        None => {
            frame.x[0] = SYSCALL_FAIL;
        },
    }
}

/// Records a heap call's result pointer in x0; a null result becomes
/// the failure sentinel.
pub fn store_heap_result(frame: &mut TrapFrame, ptr: u64)
    requires
        old(frame).wf(),
    ensures
        final(frame).wf(),
        final(frame).elr == old(frame).elr,
        final(frame).spsr == old(frame).spsr,
        final(frame).sp_el0 == old(frame).sp_el0,
        final(frame).x@ == old(frame).x@.update(
            0,
            if ptr == 0 {
                SYSCALL_FAIL
            } else {
                ptr
            },
        ),
{
    if ptr == 0 {
        frame.x[0] = SYSCALL_FAIL;
    } else {
        frame.x[0] = ptr;
    }
}

} // verus!
