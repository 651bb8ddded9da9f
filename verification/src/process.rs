//! The per-core process table with affinity-based selection: the
//! earlier, queue-less scheduler. Each record carries a core affinity;
//! dispatch scans the table round-robin from the last slot a core ran.

use vstd::prelude::*;
use crate::trap::{init_frame_addr, TRAP_FRAME_SIZE};

verus! {

pub const MAX_PROCS: usize = 64;

pub const MAX_CPUS: usize = 4;

/// Affinity value of a process allowed on any core.
pub const CPU_ANY: usize = usize::MAX;

/// `current` value of a core with no process yet.
pub const INVALID_IDX: usize = usize::MAX;

pub const STACK_SIZE: usize = 0x4000;

/// Process identifier; never 0.
#[derive(Clone, Copy, Debug, Eq, PartialEq, Structural)]
pub struct ProcessId(pub u32);

/// Lifecycle state of a record.
#[derive(Clone, Copy, Debug, Eq, PartialEq, Structural)]
pub enum ProcessState {
    Ready,
    Running,
    Blocked,
    Terminated,
}

/// One process record.
#[derive(Clone, Copy, Debug)]
pub struct Process {
    pub id: ProcessId,
    pub name: &'static str,
    pub entry: usize,
    pub state: ProcessState,
    pub stack_top: usize,
    pub cpu_affinity: usize,
    pub context_sp: usize,
}

/// First free slot scanning from `k`.
pub open spec fn first_free_at(slots: Seq<Option<Process>>, k: int) -> Option<int>
    decreases slots.len() - k,
{
    if k < 0 || k >= slots.len() {
        None
    } else if slots[k] is None {
        Some(k)
    } else {
        first_free_at(slots, k + 1)
    }
}

/// First slot holding the given pid, scanning from `k`.
pub open spec fn find_pid_at(slots: Seq<Option<Process>>, pid: ProcessId, k: int) -> Option<int>
    decreases slots.len() - k,
{
    if k < 0 || k >= slots.len() {
        None
    } else if slots[k] is Some && slots[k]->Some_0.id == pid {
        Some(k)
    } else {
        find_pid_at(slots, pid, k + 1)
    }
}

/// Whether the record in slot `idx` may run on `cpu`: occupied, ready
/// or already running, and pinned to this core or to none.
pub open spec fn eligible(slots: Seq<Option<Process>>, idx: int, cpu: int) -> bool {
    &&& 0 <= idx < slots.len()
    &&& slots[idx] is Some
    &&& (slots[idx]->Some_0.state == ProcessState::Ready || slots[idx]->Some_0.state
        == ProcessState::Running)
    &&& (slots[idx]->Some_0.cpu_affinity == cpu || slots[idx]->Some_0.cpu_affinity == CPU_ANY)
}

/// The slot index probed at the given offset of the round-robin scan.
pub open spec fn probe(start: usize, off: int) -> int {
    if start == INVALID_IDX {
        (off - 1) % 64
    } else {
        (start + off) % 64
    }
}

/// The first eligible slot at or after scan offset `off` (offsets run
/// from 1 to the table size).
pub open spec fn next_runnable_from(
    slots: Seq<Option<Process>>,
    cpu: int,
    start: usize,
    off: int,
) -> Option<int>
    decreases 65 - off,
{
    if off < 1 || off > 64 {
        None
    } else if eligible(slots, probe(start, off), cpu) {
        Some(probe(start, off))
    } else {
        next_runnable_from(slots, cpu, start, off + 1)
    }
}

/// What saving the interrupted context does to the slots: the frame
/// pointer recorded in the current record, a running record demoted to
/// ready.
pub open spec fn demoted_slots(slots: Seq<Option<Process>>, cur: usize, frame: usize) -> Seq<
    Option<Process>,
> {
    if cur != INVALID_IDX && cur < 64 && slots[cur as int] is Some {
        let p = slots[cur as int]->Some_0;
        let st = if p.state == ProcessState::Running {
            ProcessState::Ready
        } else {
            p.state
        };
        slots.update(cur as int, Some(Process { state: st, context_sp: frame, ..p }))
    } else {
        slots
    }
}

/// What one scheduler tick does on `cpu`: the interrupted frame pointer
/// is saved and the current record demoted; the next eligible record
/// after it in the round-robin scan — falling back to the current one —
/// is promoted to running and its saved frame pointer returned; a core
/// with nothing current and nothing eligible returns the interrupted
/// frame unchanged.
pub open spec fn schedule_post(
    pre: ProcessTable,
    post: ProcessTable,
    cpu: int,
    frame: usize,
    r: usize,
) -> bool {
    let cur = pre.current()[cpu];
    let s1 = demoted_slots(pre.slots(), cur, frame);
    let scan = next_runnable_from(s1, cpu, cur, 1);
    &&& post.spec_next_pid() == pre.spec_next_pid()
    &&& post.stack_pool() == pre.stack_pool()
    &&& if cur == INVALID_IDX && scan is None {
        &&& r == frame
        &&& post.slots() == pre.slots()
        &&& post.current() == pre.current()
    } else {
        let n = match scan {
            Some(j) => j,
            None => cur as int,
        };
        &&& 0 <= n < 64
        &&& s1[n] is Some
        &&& post.slots() =~= s1.update(
            n,
            Some(Process { state: ProcessState::Running, ..s1[n]->Some_0 }),
        )
        &&& post.current() =~= pre.current().update(cpu, n as usize)
        &&& r == s1[n]->Some_0.context_sp
    }
}

/// The affinity-based process table.
pub struct ProcessTable {
    slots: Vec<Option<Process>>,
    next_pid: u32,
    current: Vec<usize>,
    stack_pool_base: usize,
}

impl ProcessTable {
    pub closed spec fn slots(&self) -> Seq<Option<Process>> {
        self.slots@
    }

    pub closed spec fn current(&self) -> Seq<usize> {
        self.current@
    }

    pub closed spec fn spec_next_pid(&self) -> u32 {
        self.next_pid
    }

    pub closed spec fn stack_pool(&self) -> usize {
        self.stack_pool_base
    }

    pub open spec fn wf(&self) -> bool {
        &&& self.slots().len() == 64
        &&& self.current().len() == 4
        &&& self.spec_next_pid() >= 1
        &&& self.stack_pool() <= usize::MAX - 0x100000
        &&& forall|c: int|
            0 <= c < 4 ==> (#[trigger] self.current()[c]) == INVALID_IDX || (self.current()[c]
                < 64 && self.slots()[self.current()[c] as int] is Some)
    }

    /// A fresh, empty table.
    pub fn init() -> (r: ProcessTable)
        ensures
            r.wf(),
            r.slots() =~= Seq::new(64, |i: int| None::<Process>),
            r.current() =~= Seq::new(4, |c: int| INVALID_IDX),
            r.spec_next_pid() == 1,
    {
        let mut slots: Vec<Option<Process>> = Vec::new();
        let mut i: usize = 0;
        while i < MAX_PROCS
            invariant
                i <= 64,
                slots@.len() == i,
                forall|j: int| 0 <= j < i ==> slots@[j] is None,
            decreases 64 - i,
        {
            slots.push(None);
            i += 1;
        }
        let r = ProcessTable {
            slots,
            next_pid: 1,
            current: vec![INVALID_IDX; MAX_CPUS],
            stack_pool_base: 0,
        };
        proof {
            assert(r.slots() =~= Seq::new(64, |i: int| None::<Process>));
            assert(r.current() =~= Seq::new(4, |c: int| INVALID_IDX));
        }
        r
    }

    /// Records where the static per-slot stacks live.
    pub fn set_stack_pool(&mut self, base: usize)
        requires
            old(self).wf(),
            base <= usize::MAX - 0x100000,
        ensures
            final(self).wf(),
            final(self).stack_pool() == base,
            final(self).slots() == old(self).slots(),
            final(self).current() == old(self).current(),
            final(self).spec_next_pid() == old(self).spec_next_pid(),
    {
        self.stack_pool_base = base;
    }

    /// Hands out the next pid, skipping 0 on wrap.
    pub fn alloc_pid(&mut self) -> (r: ProcessId)
        requires
            old(self).wf(),
        ensures
            final(self).wf(),
            r == ProcessId(old(self).spec_next_pid()),
            final(self).slots() == old(self).slots(),
            final(self).current() == old(self).current(),
            final(self).stack_pool() == old(self).stack_pool(),
    {
        let pid = ProcessId(self.next_pid);
        self.next_pid = if self.next_pid == u32::MAX {
            1
        } else {
            self.next_pid + 1
        };
        pid
    }

    /// Creates a process that may run on any core.
    pub fn create(&mut self, name: &'static str, entry: usize, stack_top: usize) -> (r: Option<
        ProcessId,
    >)
        requires
            old(self).wf(),
            stack_top == 0 || stack_top >= TRAP_FRAME_SIZE,
        ensures
            final(self).wf(),
            created_post(*old(self), *final(self), name, entry, stack_top, CPU_ANY, r),
    {
        self.create_on_cpu(name, entry, stack_top, CPU_ANY)
    }

    /// Creates a process pinned to `cpu_affinity` (or `CPU_ANY`): takes
    /// the first free slot and seeds a trap frame position below the
    /// resolved stack top.
    pub fn create_on_cpu(
        &mut self,
        name: &'static str,
        entry: usize,
        stack_top: usize,
        cpu_affinity: usize,
    ) -> (r: Option<ProcessId>)
        requires
            old(self).wf(),
            stack_top == 0 || stack_top >= TRAP_FRAME_SIZE,
        ensures
            final(self).wf(),
            created_post(*old(self), *final(self), name, entry, stack_top, cpu_affinity, r),
    {
        let ghost pre = *self;
        let mut idx: usize = 0;
        while idx < MAX_PROCS
            invariant
                self.wf(),
                *self == pre,
                pre == *old(self),
                idx <= 64,
                stack_top == 0 || stack_top >= TRAP_FRAME_SIZE,
                first_free_at(self.slots(), 0) == first_free_at(self.slots(), idx as int),
            decreases 64 - idx,
        {
            if self.slots[idx].is_none() {
                let pid = self.alloc_pid();
                let resolved = if stack_top == 0 {
                    self.stack_pool_base + idx * STACK_SIZE + STACK_SIZE
                } else {
                    stack_top
                };
                let context_sp = init_frame_addr(resolved);
                self.slots[idx] = Some(
                    Process {
                        id: pid,
                        name,
                        entry,
                        state: ProcessState::Ready,
                        stack_top: resolved,
                        cpu_affinity,
                        context_sp,
                    },
                );
                return Some(pid);
            }
            idx += 1;
        }
        None
    }

    /// Copies of every occupied record, in slot order — the table
    /// iteration the boot log walks.
    pub fn processes(&self) -> (r: Vec<Process>)
        requires
            self.wf(),
        ensures
            flat_processes_match(r@, self.slots(), 64),
    {
        let mut out: Vec<Process> = Vec::new();
        let mut i: usize = 0;
        proof {
            assert(self.slots().take(0).filter(|s: Option<Process>| s is Some) =~= Seq::<
                Option<Process>,
            >::empty());
        }
        while i < MAX_PROCS
            invariant
                self.wf(),
                i <= 64,
                flat_processes_match(out@, self.slots(), i as int),
            decreases 64 - i,
        {
            let ghost pre_out = out@;
            proof {
                broadcast use vstd::prelude::Seq::lemma_filter_push;

                assert(self.slots().take(i + 1) =~= self.slots().take(i as int).push(
                    self.slots()[i as int],
                ));
            }
            match &self.slots[i] {
                Some(p) => {
                    let c = *p;
                    out.push(c);
                    proof {
                        let pred = |s: Option<Process>| s is Some;
                        let f0 = self.slots().take(i as int).filter(pred);
                        let f1 = self.slots().take(i + 1).filter(pred);
                        assert(f1 == f0.push(self.slots()[i as int]));
                        assert forall|k: int| 0 <= k < out@.len() implies #[trigger] out@[k]
                            == f1[k]->Some_0 by {
                            if k < pre_out.len() {
                                assert(out@[k] == pre_out[k]);
                                assert(pre_out[k] == f0[k]->Some_0);
                            } else {
                                assert(out@[k] == c);
                            }
                        }
                        assert(flat_processes_match(out@, self.slots(), i + 1));
                    }
                },
                None => {
                    proof {
                        let pred = |s: Option<Process>| s is Some;
                        assert(self.slots().take(i + 1).filter(pred) == self.slots().take(
                            i as int,
                        ).filter(pred));
                        assert(flat_processes_match(out@, self.slots(), i + 1));
                    }
                },
            }
            i += 1;
        }
        proof {
            assert(flat_processes_match(out@, self.slots(), 64));
        }
        out
    }

    /// A copy of the record with the given pid, if any.
    pub fn get(&self, pid: ProcessId) -> (r: Option<Process>)
        requires
            self.wf(),
        ensures
            match find_pid_at(self.slots(), pid, 0) {
                Some(j) => r == Some(self.slots()[j]->Some_0),
                None => r is None,
            },
    {
        let mut i: usize = 0;
        while i < MAX_PROCS
            invariant
                self.wf(),
                i <= 64,
                find_pid_at(self.slots(), pid, 0) == find_pid_at(self.slots(), pid, i as int),
            decreases 64 - i,
        {
            match &self.slots[i] {
                Some(p) => {
                    if p.id == pid {
                        return Some(*p);
                    }
                },
                None => {},
            }
            i += 1;
        }
        None
    }

    /// Sets the state of the record with the given pid; reports whether
    /// one was found.
    pub fn set_state(&mut self, pid: ProcessId, state: ProcessState) -> (r: bool)
        requires
            old(self).wf(),
        ensures
            final(self).wf(),
            final(self).current() == old(self).current(),
            final(self).spec_next_pid() == old(self).spec_next_pid(),
            final(self).stack_pool() == old(self).stack_pool(),
            match find_pid_at(old(self).slots(), pid, 0) {
                Some(j) => r && final(self).slots() =~= old(self).slots().update(
                    j,
                    Some(Process { state, ..old(self).slots()[j]->Some_0 }),
                ),
                None => !r && final(self).slots() == old(self).slots(),
            },
    {
        let ghost pre = *self;
        let mut i: usize = 0;
        while i < MAX_PROCS
            invariant
                self.wf(),
                *self == pre,
                pre == *old(self),
                i <= 64,
                find_pid_at(self.slots(), pid, 0) == find_pid_at(self.slots(), pid, i as int),
            decreases 64 - i,
        {
            let hit = match &self.slots[i] {
                Some(p) => p.id == pid,
                None => false,
            };
            if hit {
                let p = match &self.slots[i] {
                    Some(p) => *p,
                    None => {
                        proof {
                            assert(false);
                        }
                        return false;
                    },
                };
                self.slots[i] = Some(Process { state, ..p });
                return true;
            }
            i += 1;
        }
        false
    }

    /// Round-robin scan for the next record allowed on `cpu`, starting
    /// just after slot `start`.
    pub fn find_next_runnable(&self, cpu: usize, start: usize) -> (r: Option<usize>)
        requires
            self.wf(),
            cpu < 4,
            start < 64 || start == INVALID_IDX,
        ensures
            match next_runnable_from(self.slots(), cpu as int, start, 1) {
                Some(j) => r == Some(j as usize),
                None => r is None,
            },
    {
        let mut off: usize = 1;
        while off <= MAX_PROCS
            invariant
                self.wf(),
                cpu < 4,
                start < 64 || start == INVALID_IDX,
                1 <= off <= 65,
                next_runnable_from(self.slots(), cpu as int, start, 1) == next_runnable_from(
                    self.slots(),
                    cpu as int,
                    start,
                    off as int,
                ),
            decreases 65 - off,
        {
            let idx = if start == INVALID_IDX {
                (off - 1) % MAX_PROCS
            } else {
                (start + off) % MAX_PROCS
            };
            proof {
                vstd::arithmetic::div_mod::lemma_mod_bound(
                    if start == INVALID_IDX {
                        off - 1
                    } else {
                        start + off
                    },
                    64,
                );
            }
            let ok = match &self.slots[idx] {
                Some(p) => {
                    let state_ok = match p.state {
                        ProcessState::Ready => true,
                        ProcessState::Running => true,
                        _ => false,
                    };
                    state_ok && (p.cpu_affinity == cpu || p.cpu_affinity == CPU_ANY)
                },
                None => false,
            };
            if ok {
                return Some(idx);
            }
            off += 1;
        }
        None
    }

    /// One scheduler tick on `cpu`: saves the interrupted frame pointer
    /// in the current record, demotes it if running, promotes the next
    /// eligible record (falling back to the current one), and returns
    /// the frame pointer to resume from.
    pub fn schedule_from_irq(&mut self, cpu: usize, frame: usize) -> (r: usize)
        requires
            old(self).wf(),
            cpu < 4,
        ensures
            final(self).wf(),
            schedule_post(*old(self), *final(self), cpu as int, frame, r),
    {
        let ghost pre = *self;
        let cur = self.current[cpu];
        if cur != INVALID_IDX {
            let p = match &self.slots[cur] {
                Some(p) => Some(*p),
                None => None,
            };
            match p {
                Some(p) => {
                    let demoted = match p.state {
                        ProcessState::Running => ProcessState::Ready,
                        other => other,
                    };
                    self.slots[cur] = Some(Process { state: demoted, context_sp: frame, ..p });
                },
                None => {},
            }
        }
        proof {
            assert(self.slots() =~= demoted_slots(pre.slots(), cur, frame));
        }
        proof {
            if next_runnable_from(self.slots(), cpu as int, cur, 1) is Some {
                lemma_next_runnable_bounds(self.slots(), cpu as int, cur, 1);
            }
        }
        let next = match self.find_next_runnable(cpu, cur) {
            Some(n) => n,
            None => cur,
        };
        if next == INVALID_IDX {
            return frame;
        }
        let p = match &self.slots[next] {
            Some(p) => Some(*p),
            None => None,
        };
        match p {
            Some(p) => {
                self.slots[next] = Some(Process { state: ProcessState::Running, ..p });
                self.current[cpu] = next;
                p.context_sp
            },
            None => {
                proof {
                    assert(false);
                }
                frame
            },
        }
    }

    /// First dispatch on a core: picks an eligible record, promotes it,
    /// and returns its entry point and stack top; `None` when nothing
    /// is eligible, which at boot is fatal for the caller.
    pub fn start_on_cpu(&mut self, cpu: usize) -> (r: Option<(usize, usize)>)
        requires
            old(self).wf(),
            cpu < 4,
        ensures
            final(self).wf(),
            match next_runnable_from(old(self).slots(), cpu as int, INVALID_IDX, 1) {
                None => {
                    &&& r is None
                    &&& final(self).slots() == old(self).slots()
                    &&& final(self).current() == old(self).current()
                    &&& final(self).spec_next_pid() == old(self).spec_next_pid()
                    &&& final(self).stack_pool() == old(self).stack_pool()
                },
                Some(j) => {
                    let p = old(self).slots()[j]->Some_0;
                    &&& r == Some((p.entry, p.stack_top))
                    &&& final(self).slots() =~= old(self).slots().update(
                        j,
                        Some(Process { state: ProcessState::Running, ..p }),
                    )
                    &&& final(self).current() =~= old(self).current().update(
                        cpu as int,
                        j as usize,
                    )
                    &&& final(self).spec_next_pid() == old(self).spec_next_pid()
                    &&& final(self).stack_pool() == old(self).stack_pool()
                },
            },
    {
        let next = match self.find_next_runnable(cpu, INVALID_IDX) {
            Some(n) => n,
            None => {
                return None;
            },
        };
        proof {
            lemma_next_runnable_bounds(self.slots(), cpu as int, INVALID_IDX, 1);
        }
        let p = match &self.slots[next] {
            Some(p) => *p,
            None => {
                proof {
                    assert(false);
                }
                return None;
            },
        };
        self.slots[next] = Some(Process { state: ProcessState::Running, ..p });
        self.current[cpu] = next;
        Some((p.entry, p.stack_top))
    }
}

/// The copied table `out` lists, in order, exactly the occupied
/// records among the first `upto` slots.
pub open spec fn flat_processes_match(
    out: Seq<Process>,
    slots: Seq<Option<Process>>,
    upto: int,
) -> bool {
    let occupied = slots.take(upto).filter(|s: Option<Process>| s is Some);
    &&& out.len() == occupied.len()
    &&& forall|k: int| 0 <= k < out.len() ==> #[trigger] out[k] == occupied[k]->Some_0
}

/// What creating a record does: the first free slot gets a fresh ready
/// record with the next pid; a full table changes nothing.
pub open spec fn created_post(
    pre: ProcessTable,
    post: ProcessTable,
    name: &'static str,
    entry: usize,
    stack_top: usize,
    cpu_affinity: usize,
    r: Option<ProcessId>,
) -> bool {
    &&& post.current() == pre.current()
    &&& post.stack_pool() == pre.stack_pool()
    &&& match first_free_at(pre.slots(), 0) {
        None => {
            &&& r is None
            &&& post.slots() == pre.slots()
            &&& post.spec_next_pid() == pre.spec_next_pid()
        },
        Some(i) => {
            &&& r == Some(ProcessId(pre.spec_next_pid()))
            &&& post.slots().len() == 64
            &&& forall|j: int| 0 <= j < 64 && j != i ==> post.slots()[j] == pre.slots()[j]
            &&& post.slots()[i] is Some
            &&& {
                let p = post.slots()[i]->Some_0;
                let resolved = if stack_top == 0 {
                    (pre.stack_pool() + i * STACK_SIZE + STACK_SIZE) as usize
                } else {
                    stack_top
                };
                &&& p.id == ProcessId(pre.spec_next_pid())
                &&& p.name == name
                &&& p.entry == entry
                &&& p.state == ProcessState::Ready
                &&& p.stack_top == resolved
                &&& p.cpu_affinity == cpu_affinity
                &&& p.context_sp % 16 == 0
                &&& p.context_sp + TRAP_FRAME_SIZE <= resolved
            }
        },
    }
}

/// A successful scan names an occupied, eligible slot.
proof fn lemma_next_runnable_bounds(slots: Seq<Option<Process>>, cpu: int, start: usize, off: int)
    requires
        next_runnable_from(slots, cpu, start, off) is Some,
        1 <= off,
    ensures
        ({
            let j = next_runnable_from(slots, cpu, start, off)->Some_0;
            &&& 0 <= j < slots.len()
            &&& eligible(slots, j, cpu)
        }),
    decreases 65 - off,
{
    if !(off < 1 || off > 64) {
        if !eligible(slots, probe(start, off), cpu) {
            lemma_next_runnable_bounds(slots, cpu, start, off + 1);
        }
    }
}

} // verus!
