//! The process table and its FIFO run queue: fixed-capacity records,
//! monotone pid allocation, descriptor inheritance, and the round-robin
//! scheduler driven from the timer interrupt.

use vstd::prelude::*;
use crate::kernel::vfs::FileDesc;
use crate::trap::{init_frame_addr, TrapFrame, SPSR_KERNEL_IRQ_ENABLED, SPSR_USER_IRQ_ENABLED, TRAP_FRAME_SIZE};

verus! {

/// Capacity of the process table and of the run queue.
pub const MAX_PROCS: usize = 64;

/// Number of cores the scheduler serves.
pub const MAX_CPUS: usize = 4;

/// `running_on` value of a process not running anywhere.
pub const CPU_NONE: usize = usize::MAX;

/// `current` value of a core with no process yet.
pub const INVALID_IDX: usize = usize::MAX;

/// Descriptor slots per process.
pub const MAX_FDS: usize = 8;

/// Per-slot stack size in the static stack pool.
pub const STACK_SIZE: usize = 0x4000;

/// Process identifier; never 0, never reissued as 0.
#[derive(Clone, Copy, Debug, Eq, PartialEq, Structural)]
pub struct ProcessId(pub u32);

/// Privilege mode a process runs in.
#[derive(Clone, Copy, Debug, Eq, PartialEq, Structural)]
pub enum ProcessMode {
    Kernel,
    User,
}

/// Lifecycle state of a process record.
#[derive(Clone, Copy, Debug, Eq, PartialEq, Structural)]
pub enum ProcessState {
    Ready,
    Running,
    Blocked,
    Terminated,
}

/// One process record.
pub struct Process {
    pub id: ProcessId,
    pub name: &'static str,
    pub entry: usize,
    pub state: ProcessState,
    pub stack_top: usize,
    pub context_sp: usize,
    pub running_on: usize,
    pub in_run_queue: bool,
    pub mode: ProcessMode,
    pub parent: Option<ProcessId>,
    pub fds: Vec<Option<FileDesc>>,
    pub ttbr0: u64,
}

/// Fixed ring of process-table indices, FIFO.
pub struct RunQueue {
    slots: Vec<usize>,
    head: usize,
    tail: usize,
    len: usize,
}

impl RunQueue {
    pub closed spec fn view(&self) -> Seq<usize> {
        Seq::new(self.len as nat, |k: int| self.slots@[(self.head + k) % 64])
    }

    pub closed spec fn wf(&self) -> bool {
        self.slots@.len() == 64 && self.head < 64 && self.tail < 64 && self.len <= 64
            && self.tail == (self.head + self.len) % 64
    }

    /// An empty queue.
    pub fn new() -> (r: RunQueue)
        ensures
            r.wf(),
            r@ =~= Seq::<usize>::empty(),
    {
        RunQueue { slots: vec![0usize; 64], head: 0, tail: 0, len: 0 }
    }

    /// Number of queued indices.
    pub fn len(&self) -> (r: usize)
        requires
            self.wf(),
        ensures
            r == self@.len(),
    {
        self.len
    }

    /// Appends an index at the tail; a full queue stays unchanged.
    pub fn push(&mut self, idx: usize) -> (r: bool)
        requires
            old(self).wf(),
        ensures
            final(self).wf(),
            r == (old(self)@.len() < 64),
            r ==> final(self)@ == old(self)@.push(idx),
            !r ==> final(self)@ == old(self)@,
    {
        if self.len >= MAX_PROCS {
            return false;
        }
        let ghost pre = *self;
        self.slots[self.tail] = idx;
        self.tail = (self.tail + 1) % MAX_PROCS;
        self.len = self.len + 1;
        proof {
            assert forall|k: int| 0 <= k < self@.len() implies #[trigger] self@[k] == pre@.push(
                idx,
            )[k] by {
                vstd::arithmetic::div_mod::lemma_mod_bound(pre.head + k, 64);
                if k < pre.len {
                    assert((pre.head + k) % 64 != (pre.head + pre.len) % 64) by {
                        lemma_ring_mod_ne(pre.head as int, k, pre.len as int);
                    }
                } else {
                    assert((pre.head + k) % 64 == pre.tail);
                }
            }
            assert(self@ =~= pre@.push(idx));
        }
        true
    }

    /// Removes and returns the head index, or `None` when empty.
    pub fn pop(&mut self) -> (r: Option<usize>)
        requires
            old(self).wf(),
        ensures
            final(self).wf(),
            old(self)@.len() == 0 ==> r is None && final(self)@ == old(self)@,
            old(self)@.len() > 0 ==> r == Some(old(self)@[0]) && final(self)@ == old(
                self,
            )@.subrange(1, old(self)@.len() as int),
    {
        if self.len == 0 {
            return None;
        }
        let ghost pre = *self;
        let idx = self.slots[self.head];
        self.head = (self.head + 1) % MAX_PROCS;
        self.len = self.len - 1;
        proof {
            assert((pre.head + 0) % 64 == pre.head) by {
                vstd::arithmetic::div_mod::lemma_small_mod(pre.head as nat, 64);
            }
            assert forall|k: int| 0 <= k < self@.len() implies #[trigger] self@[k] == pre@.subrange(
                1,
                pre@.len() as int,
            )[k] by {
                assert((self.head + k) % 64 == (pre.head + (k + 1)) % 64) by {
                    lemma_ring_mod_shift(pre.head as int, k);
                }
            }
            assert(self@ =~= pre@.subrange(1, pre@.len() as int));
            assert((pre.head + pre.len) % 64 == (self.head + self.len) % 64) by {
                lemma_ring_mod_shift(pre.head as int, self.len as int);
            }
        }
        Some(idx)
    }
}

/// Offsets below the capacity stay distinct modulo the capacity.
proof fn lemma_ring_mod_ne(h: int, a: int, b: int)
    requires
        0 <= h,
        0 <= a < b,
        b < 64,
    ensures
        (h + a) % 64 != (h + b) % 64,
{
    vstd::arithmetic::div_mod::lemma_fundamental_div_mod(h + a, 64);
    vstd::arithmetic::div_mod::lemma_fundamental_div_mod(h + b, 64);
    vstd::arithmetic::div_mod::lemma_mod_bound(h + a, 64);
    vstd::arithmetic::div_mod::lemma_mod_bound(h + b, 64);
    if (h + a) % 64 == (h + b) % 64 {
        let qa = (h + a) / 64;
        let qb = (h + b) / 64;
        assert(b - a == 64 * (qb - qa));
        assert(qb - qa >= 1 ==> 64 * (qb - qa) >= 64) by (nonlinear_arith);
        assert(qb - qa <= 0 ==> 64 * (qb - qa) <= 0) by (nonlinear_arith);
        assert(false);
    }
}

/// Advancing the head commutes with advancing the offset.
proof fn lemma_ring_mod_shift(h: int, k: int)
    requires
        0 <= h,
        0 <= k,
    ensures
        ((h + 1) % 64 + k) % 64 == (h + (k + 1)) % 64,
{
    vstd::arithmetic::div_mod::lemma_add_mod_noop((h + 1) % 64, k, 64);
    vstd::arithmetic::div_mod::lemma_mod_twice(h + 1, 64);
    vstd::arithmetic::div_mod::lemma_add_mod_noop(h + 1, k, 64);
}

/// A slot index is runnable: occupied, ready, and not on any core.
pub open spec fn runnable(slots: Seq<Option<Process>>, idx: usize) -> bool {
    &&& (idx as int) < slots.len()
    &&& slots[idx as int] is Some
    &&& slots[idx as int]->Some_0.state == ProcessState::Ready
    &&& slots[idx as int]->Some_0.running_on == CPU_NONE
}

/// Position of the first runnable entry in the queue at or after `k`.
pub open spec fn first_runnable_at(slots: Seq<Option<Process>>, q: Seq<usize>, k: int) -> Option<
    int,
>
    decreases q.len() - k,
{
    if k < 0 || k >= q.len() {
        None
    } else if runnable(slots, q[k]) {
        Some(k)
    } else {
        first_runnable_at(slots, q, k + 1)
    }
}

/// Position of the first runnable entry in the queue.
pub open spec fn first_runnable(slots: Seq<Option<Process>>, q: Seq<usize>) -> Option<int> {
    first_runnable_at(slots, q, 0)
}

/// First free (unoccupied) slot of the table, scanning from `k`.
pub open spec fn first_free_at(slots: Seq<Option<Process>>, k: int) -> Option<int>
    decreases slots.len() - k,
{
    if k < 0 || k >= slots.len() {
        None
    } else if slots[k] is None {
        Some(k)
    } else {
        first_free_at(slots, k + 1)
    }
}

/// First free slot of the table.
pub open spec fn first_free(slots: Seq<Option<Process>>) -> Option<int> {
    first_free_at(slots, 0)
}

/// First slot holding the process with the given id, scanning from `k`.
pub open spec fn find_pid_at(slots: Seq<Option<Process>>, pid: ProcessId, k: int) -> Option<int>
    decreases slots.len() - k,
{
    if k < 0 || k >= slots.len() {
        None
    } else if slots[k] is Some && slots[k]->Some_0.id == pid {
        Some(k)
    } else {
        find_pid_at(slots, pid, k + 1)
    }
}

/// First slot holding the process with the given id.
pub open spec fn find_pid(slots: Seq<Option<Process>>, pid: ProcessId) -> Option<int> {
    find_pid_at(slots, pid, 0)
}

/// The process table: fixed slots, pid counter, run queue, per-core
/// current slot, descriptor defaults for the first processes, and the
/// base of the static per-slot stack pool.
pub struct ProcessTable {
    slots: Vec<Option<Process>>,
    next_pid: u32,
    run_queue: RunQueue,
    current: Vec<usize>,
    init_fds: Vec<Option<FileDesc>>,
    stack_pool_base: usize,
}

impl ProcessTable {
    pub closed spec fn slots(&self) -> Seq<Option<Process>> {
        self.slots@
    }

    pub closed spec fn queue(&self) -> Seq<usize> {
        self.run_queue@
    }

    pub closed spec fn current(&self) -> Seq<usize> {
        self.current@
    }

    pub closed spec fn spec_next_pid(&self) -> u32 {
        self.next_pid
    }

    pub closed spec fn init_fds(&self) -> Seq<Option<FileDesc>> {
        self.init_fds@
    }

    pub closed spec fn stack_pool(&self) -> usize {
        self.stack_pool_base
    }

    pub closed spec fn queue_wf(&self) -> bool {
        self.run_queue.wf()
    }

    /// The table invariant: the run queue holds exactly the indices of
    /// occupied slots whose `in_run_queue` flag is set, each once; a
    /// process not in the `Running` state sits on no core; a `Running`
    /// process is never queued; and a core's bookkeeping agrees with
    /// the record it points at.
    pub open spec fn wf(&self) -> bool {
        &&& self.slots().len() == 64
        &&& self.current().len() == 4
        &&& self.init_fds().len() == 8
        &&& self.queue_wf()
        &&& self.spec_next_pid() >= 1
        &&& self.stack_pool() <= usize::MAX - 0x100000
        &&& forall|k: int|
            0 <= k < self.queue().len() ==> (#[trigger] self.queue()[k]) < 64 && self.slots()[
                self.queue()[k] as int
            ] is Some && self.slots()[self.queue()[k] as int]->Some_0.in_run_queue
        &&& forall|k1: int, k2: int|
            0 <= k1 < k2 < self.queue().len() ==> (#[trigger] self.queue()[k1])
                != #[trigger] self.queue()[k2]
        &&& forall|i: int|
            0 <= i < 64 && (#[trigger] self.slots()[i]) is Some
                && self.slots()[i]->Some_0.in_run_queue ==> self.queue().contains(i as usize)
        &&& forall|i: int|
            0 <= i < 64 && (#[trigger] self.slots()[i]) is Some ==> {
                let p = self.slots()[i]->Some_0;
                &&& p.fds@.len() == 8
                &&& (p.state != ProcessState::Running ==> p.running_on == CPU_NONE)
                &&& (p.state == ProcessState::Running ==> !p.in_run_queue)
                &&& (p.running_on != CPU_NONE ==> p.running_on < 4 && self.current()[
                    p.running_on as int
                ] == i && p.state == ProcessState::Running)
            }
        &&& forall|c: int|
            0 <= c < 4 && (#[trigger] self.current()[c]) != INVALID_IDX ==> self.current()[c] < 64
                && self.slots()[self.current()[c] as int] is Some
    }

    /// A fresh, empty table.
    pub fn init() -> (r: ProcessTable)
        ensures
            r.wf(),
            r.slots() =~= Seq::new(64, |i: int| None::<Process>),
            r.queue() =~= Seq::<usize>::empty(),
            r.current() =~= Seq::new(4, |c: int| INVALID_IDX),
            r.init_fds() =~= Seq::new(8, |f: int| None::<FileDesc>),
            r.spec_next_pid() == 1,
            r.stack_pool() == 0,
    {
        let mut slots: Vec<Option<Process>> = Vec::new();
        let mut i: usize = 0;
        while i < MAX_PROCS
            invariant
                i <= 64,
                slots@.len() == i,
                forall|j: int| 0 <= j < i ==> slots@[j] is None,
            decreases 64 - i,
        {
            slots.push(None);
            i += 1;
        }
        let current: Vec<usize> = vec![INVALID_IDX; MAX_CPUS];
        let init_fds: Vec<Option<FileDesc>> = vec![None; MAX_FDS];
        let r = ProcessTable {
            slots,
            next_pid: 1,
            run_queue: RunQueue::new(),
            current,
            init_fds,
            stack_pool_base: 0,
        };
        proof {
            assert(r.slots() =~= Seq::new(64, |i: int| None::<Process>));
            assert(r.current() =~= Seq::new(4, |c: int| INVALID_IDX));
            assert(r.init_fds() =~= Seq::new(8, |f: int| None::<FileDesc>));
        }
        r
    }

    /// Records where the static per-slot stacks live; processes created
    /// with no caller-supplied stack draw theirs from here.
    pub fn set_stack_pool(&mut self, base: usize)
        requires
            old(self).wf(),
            base <= usize::MAX - 0x100000,
        ensures
            final(self).wf(),
            final(self).stack_pool() == base,
            final(self).slots() == old(self).slots(),
            final(self).queue() == old(self).queue(),
            final(self).current() == old(self).current(),
            final(self).spec_next_pid() == old(self).spec_next_pid(),
            final(self).init_fds() == old(self).init_fds(),
    {
        self.stack_pool_base = base;
    }

    /// Hands out the next pid: a monotone counter that skips 0 when it
    /// wraps, so pid 0 is never issued.
    pub fn alloc_pid(&mut self) -> (r: ProcessId)
        requires
            old(self).wf(),
        ensures
            final(self).wf(),
            r == ProcessId(old(self).spec_next_pid()),
            final(self).spec_next_pid() == if old(self).spec_next_pid() == u32::MAX {
                1u32
            } else {
                (old(self).spec_next_pid() + 1) as u32
            },
            final(self).slots() == old(self).slots(),
            final(self).queue() == old(self).queue(),
            final(self).current() == old(self).current(),
            final(self).init_fds() == old(self).init_fds(),
            final(self).stack_pool() == old(self).stack_pool(),
    {
        let pid = ProcessId(self.next_pid);
        self.next_pid = if self.next_pid == u32::MAX {
            1
        } else {
            self.next_pid + 1
        };
        pid
    }

    /// Sets a descriptor that every process created without a parent
    /// will inherit.
    pub fn set_init_fd(&mut self, fd: usize, desc: Option<FileDesc>)
        requires
            old(self).wf(),
        ensures
            final(self).wf(),
            fd < 8 ==> final(self).init_fds() == old(self).init_fds().update(fd as int, desc),
            fd >= 8 ==> final(self).init_fds() == old(self).init_fds(),
            final(self).slots() == old(self).slots(),
            final(self).queue() == old(self).queue(),
            final(self).current() == old(self).current(),
            final(self).spec_next_pid() == old(self).spec_next_pid(),
            final(self).stack_pool() == old(self).stack_pool(),
    {
        if fd >= MAX_FDS {
            return ;
        }
        self.init_fds[fd] = desc;
    }

    /// Occupancy of the run queue.
    pub fn queue_len(&self) -> (r: usize)
        requires
            self.wf(),
        ensures
            r == self.queue().len(),
    {
        self.run_queue.len()
    }

    /// The pid of the process currently on `cpu`, if any.
    pub fn current_pid(&self, cpu: usize) -> (r: Option<ProcessId>)
        requires
            self.wf(),
            cpu < 4,
        ensures
            r == if self.current()[cpu as int] == INVALID_IDX {
                None::<ProcessId>
            } else {
                Some(self.slots()[self.current()[cpu as int] as int]->Some_0.id)
            },
    {
        let idx = self.current[cpu];
        if idx == INVALID_IDX {
            return None;
        }
        match &self.slots[idx] {
            Some(p) => Some(p.id),
            None => None,
        }
    }

    /// The record of the process currently on `cpu`, if any.
    pub fn with_current(&self, cpu: usize) -> (r: Option<&Process>)
        requires
            self.wf(),
            cpu < 4,
        ensures
            match r {
                Some(p) => self.current()[cpu as int] != INVALID_IDX && *p == self.slots()[
                    self.current()[cpu as int] as int
                ]->Some_0,
                None => self.current()[cpu as int] == INVALID_IDX,
            },
    {
        let idx = self.current[cpu];
        if idx == INVALID_IDX {
            return None;
        }
        match &self.slots[idx] {
            Some(p) => Some(p),
            None => None,
        }
    }

    /// Copies of every occupied record, in slot order — the table
    /// iteration the boot log walks.
    pub fn processes(&self) -> (r: Vec<Process>)
        requires
            self.wf(),
        ensures
            processes_match(r@, self.slots(), 64),
    {
        let mut out: Vec<Process> = Vec::new();
        let mut i: usize = 0;
        proof {
            assert(self.slots().take(0).filter(|s: Option<Process>| s is Some) =~= Seq::<
                Option<Process>,
            >::empty());
        }
        while i < MAX_PROCS
            invariant
                self.wf(),
                i <= 64,
                processes_match(out@, self.slots(), i as int),
            decreases 64 - i,
        {
            let ghost pre_out = out@;
            proof {
                broadcast use vstd::prelude::Seq::lemma_filter_push;

                assert(self.slots().take(i + 1) =~= self.slots().take(i as int).push(
                    self.slots()[i as int],
                ));
            }
            match &self.slots[i] {
                Some(p) => {
                    let c = copy_process(p);
                    out.push(c);
                    proof {
                        let pred = |s: Option<Process>| s is Some;
                        let f0 = self.slots().take(i as int).filter(pred);
                        let f1 = self.slots().take(i + 1).filter(pred);
                        assert(f1 == f0.push(self.slots()[i as int]));
                        assert forall|k: int| 0 <= k < out@.len() implies process_eq(
                            out@[k],
                            f1[k]->Some_0,
                        ) by {
                            if k < pre_out.len() {
                                assert(out@[k] == pre_out[k]);
                                assert(process_eq(pre_out[k], f0[k]->Some_0));
                            } else {
                                assert(out@[k] == c);
                            }
                        }
                        assert(processes_match(out@, self.slots(), i + 1));
                    }
                },
                None => {
                    proof {
                        let pred = |s: Option<Process>| s is Some;
                        assert(self.slots().take(i + 1).filter(pred) == self.slots().take(
                            i as int,
                        ).filter(pred));
                        assert(processes_match(out@, self.slots(), i + 1));
                    }
                },
            }
            i += 1;
        }
        proof {
            assert(processes_match(out@, self.slots(), 64));
        }
        out
    }

    /// A copy of the record of the process with the given pid, if any.
    pub fn get(&self, pid: ProcessId) -> (r: Option<Process>)
        requires
            self.wf(),
        ensures
            match find_pid(self.slots(), pid) {
                Some(j) => r is Some && process_eq(r->Some_0, self.slots()[j]->Some_0),
                None => r is None,
            },
    {
        let mut i: usize = 0;
        while i < MAX_PROCS
            invariant
                self.wf(),
                i <= 64,
                find_pid_at(self.slots(), pid, 0) == find_pid_at(self.slots(), pid, i as int),
                forall|j: int|
                    0 <= j < i ==> !((#[trigger] self.slots()[j]) is Some && self.slots()[
                        j
                    ]->Some_0.id == pid),
            decreases 64 - i,
        {
            match &self.slots[i] {
                Some(p) => {
                    if p.id == pid {
                        return Some(copy_process(p));
                    }
                },
                None => {},
            }
            i += 1;
        }
        None
    }

    /// Applies an explicit state transition to the process with the
    /// given pid: `Ready`, `Blocked` or `Terminated` (taking it off its
    /// core); promotion to `Running` is the scheduler's alone and is
    /// refused here. Returns whether a record was changed.
    pub fn set_state(&mut self, pid: ProcessId, state: ProcessState) -> (r: bool)
        requires
            old(self).wf(),
        ensures
            final(self).wf(),
            final(self).queue() == old(self).queue(),
            final(self).current() == old(self).current(),
            final(self).spec_next_pid() == old(self).spec_next_pid(),
            final(self).init_fds() == old(self).init_fds(),
            final(self).stack_pool() == old(self).stack_pool(),
            state == ProcessState::Running ==> !r && final(self).slots() == old(self).slots(),
            state != ProcessState::Running ==> match find_pid(old(self).slots(), pid) {
                Some(j) => r && final(self).slots() =~= old(self).slots().update(
                    j,
                    Some(
                        Process {
                            state,
                            running_on: CPU_NONE,
                            ..old(self).slots()[j]->Some_0
                        },
                    ),
                ),
                None => !r && final(self).slots() == old(self).slots(),
            },
    {
        match state {
            ProcessState::Running => {
                return false;
            },
            _ => {},
        }
        proof {
            assert(state != ProcessState::Running);
        }
        let mut i: usize = 0;
        while i < MAX_PROCS
            invariant
                self.wf(),
                *self == *old(self),
                state != ProcessState::Running,
                i <= 64,
                find_pid_at(self.slots(), pid, 0) == find_pid_at(self.slots(), pid, i as int),
                forall|j: int|
                    0 <= j < i ==> !((#[trigger] self.slots()[j]) is Some && self.slots()[
                        j
                    ]->Some_0.id == pid),
            decreases 64 - i,
        {
            let hit = match &self.slots[i] {
                Some(p) => p.id == pid,
                None => false,
            };
            if hit {
                let slot = vstd::std_specs::vec::vec_index_mut(&mut self.slots, i);
                match slot {
                    Some(p) => {
                        p.state = state;
                        p.running_on = CPU_NONE;
                    },
                    None => {},
                }
                return true;
            }
            i += 1;
        }
        false
    }

    /// Installs a descriptor in the fd table of the process with the
    /// given pid. Returns whether a record was changed.
    pub fn set_fd(&mut self, pid: ProcessId, fd: usize, desc: Option<FileDesc>) -> (r: bool)
        requires
            old(self).wf(),
        ensures
            final(self).wf(),
            final(self).queue() == old(self).queue(),
            final(self).current() == old(self).current(),
            final(self).spec_next_pid() == old(self).spec_next_pid(),
            final(self).init_fds() == old(self).init_fds(),
            final(self).stack_pool() == old(self).stack_pool(),
            fd >= 8 ==> !r && final(self).slots() == old(self).slots(),
            fd < 8 ==> match find_pid(old(self).slots(), pid) {
                Some(j) => r && fds_updated(
                    old(self).slots(),
                    final(self).slots(),
                    j,
                    fd as int,
                    desc,
                ),
                None => !r && final(self).slots() == old(self).slots(),
            },
    {
        if fd >= MAX_FDS {
            return false;
        }
        let mut i: usize = 0;
        while i < MAX_PROCS
            invariant
                self.wf(),
                *self == *old(self),
                fd < 8,
                i <= 64,
                find_pid_at(self.slots(), pid, 0) == find_pid_at(self.slots(), pid, i as int),
                forall|j: int|
                    0 <= j < i ==> !((#[trigger] self.slots()[j]) is Some && self.slots()[
                        j
                    ]->Some_0.id == pid),
            decreases 64 - i,
        {
            let hit = match &self.slots[i] {
                Some(p) => p.id == pid,
                None => false,
            };
            if hit {
                let slot = vstd::std_specs::vec::vec_index_mut(&mut self.slots, i);
                match slot {
                    Some(p) => {
                        p.fds[fd] = desc;
                    },
                    None => {},
                }
                return true;
            }
            i += 1;
        }
        false
    }

    /// Allocates the first free descriptor slot of the process on `cpu`
    /// and installs `desc` there; `None` when no process runs on the
    /// core or its table is full.
    pub fn alloc_fd_current(&mut self, cpu: usize, desc: FileDesc) -> (r: Option<usize>)
        requires
            old(self).wf(),
            cpu < 4,
        ensures
            final(self).wf(),
            final(self).queue() == old(self).queue(),
            final(self).current() == old(self).current(),
            final(self).spec_next_pid() == old(self).spec_next_pid(),
            final(self).init_fds() == old(self).init_fds(),
            final(self).stack_pool() == old(self).stack_pool(),
            old(self).current()[cpu as int] == INVALID_IDX ==> r is None && final(self).slots()
                == old(self).slots(),
            old(self).current()[cpu as int] != INVALID_IDX ==> {
                let i = old(self).current()[cpu as int] as int;
                let fds = old(self).slots()[i]->Some_0.fds@;
                match r {
                    Some(fd) => {
                        &&& fd < 8
                        &&& fds[fd as int] is None
                        &&& forall|g: int| 0 <= g < fd ==> (#[trigger] fds[g]) is Some
                        &&& fds_updated(
                            old(self).slots(),
                            final(self).slots(),
                            i,
                            fd as int,
                            Some(desc),
                        )
                    },
                    None => final(self).slots() == old(self).slots() && forall|g: int|
                        0 <= g < 8 ==> (#[trigger] fds[g]) is Some,
                }
            },
    {
        let idx = self.current[cpu];
        if idx == INVALID_IDX {
            return None;
        }
        let mut fd: usize = 0;
        while fd < MAX_FDS
            invariant
                self.wf(),
                *self == *old(self),
                cpu < 4,
                idx == old(self).current()[cpu as int],
                idx != INVALID_IDX,
                idx < 64,
                self.slots()[idx as int] is Some,
                fd <= 8,
                forall|g: int|
                    0 <= g < fd ==> (#[trigger] self.slots()[idx as int]->Some_0.fds@[g]) is Some,
            decreases 8 - fd,
        {
            let free = match &self.slots[idx] {
                Some(p) => p.fds[fd].is_none(),
                None => false,
            };
            if free {
                let slot = vstd::std_specs::vec::vec_index_mut(&mut self.slots, idx);
                match slot {
                    Some(p) => {
                        p.fds[fd] = Some(desc);
                    },
                    None => {},
                }
                return Some(fd);
            }
            fd += 1;
        }
        None
    }

    /// Clears a descriptor slot of the process on `cpu`. Returns whether
    /// a slot was cleared.
    pub fn close_fd_current(&mut self, cpu: usize, fd: usize) -> (r: bool)
        requires
            old(self).wf(),
            cpu < 4,
        ensures
            final(self).wf(),
            final(self).queue() == old(self).queue(),
            final(self).current() == old(self).current(),
            final(self).spec_next_pid() == old(self).spec_next_pid(),
            final(self).init_fds() == old(self).init_fds(),
            final(self).stack_pool() == old(self).stack_pool(),
            r == (fd < 8 && old(self).current()[cpu as int] != INVALID_IDX),
            !r ==> final(self).slots() == old(self).slots(),
            r ==> fds_updated(
                old(self).slots(),
                final(self).slots(),
                old(self).current()[cpu as int] as int,
                fd as int,
                None,
            ),
    {
        if fd >= MAX_FDS {
            return false;
        }
        let idx = self.current[cpu];
        if idx == INVALID_IDX {
            return false;
        }
        let slot = vstd::std_specs::vec::vec_index_mut(&mut self.slots, idx);
        match slot {
            Some(p) => {
                p.fds[fd] = None;
            },
            None => {},
        }
        true
    }

    /// The descriptor in slot `fd` of the process on `cpu`, if any.
    pub fn get_fd_current(&self, cpu: usize, fd: usize) -> (r: Option<FileDesc>)
        requires
            self.wf(),
            cpu < 4,
        ensures
            r == if fd < 8 && self.current()[cpu as int] != INVALID_IDX {
                self.slots()[self.current()[cpu as int] as int]->Some_0.fds@[fd as int]
            } else {
                None::<FileDesc>
            },
    {
        if fd >= MAX_FDS {
            return None;
        }
        let idx = self.current[cpu];
        if idx == INVALID_IDX {
            return None;
        }
        match &self.slots[idx] {
            Some(p) => p.fds[fd],
            None => None,
        }
    }

    /// Writes `buf` through descriptor `fd` of the process on `cpu`:
    /// the whole buffer is transferred exactly when the descriptor
    /// exists, is writable, names the console device, and a console is
    /// set up; everything else transfers nothing. Failure is reported
    /// as a zero count, never as a fault.
    pub fn write_current_fd(
        &self,
        cpu: usize,
        fd: usize,
        buf: &[u8],
        console: &mut crate::drivers::framebuffer::ConsoleState,
    ) -> (n: usize)
        requires
            self.wf(),
            cpu < 4,
            old(console).wf(),
        ensures
            final(console).wf(),
            final(console).console is Some <==> old(console).console is Some,
            n == spec_write_count(*self, cpu as int, fd as int, buf@.len() as int, old(console).console is Some),
    {
        let desc = self.get_fd_current(cpu, fd);
        match desc {
            Some(desc) => crate::kernel::vfs::write(&desc, buf, console),
            None => 0,
        }
    }

    /// Writes to the standard-output descriptor of the process on `cpu`.
    pub fn write_stdout(
        &self,
        cpu: usize,
        buf: &[u8],
        console: &mut crate::drivers::framebuffer::ConsoleState,
    ) -> (n: usize)
        requires
            self.wf(),
            cpu < 4,
            old(console).wf(),
        ensures
            final(console).wf(),
            final(console).console is Some <==> old(console).console is Some,
            n == spec_write_count(*self, cpu as int, 1, buf@.len() as int, old(console).console is Some),
    {
        self.write_current_fd(cpu, crate::kernel::vfs::FD_STDOUT, buf, console)
    }

    /// Writes to the standard-error descriptor of the process on `cpu`.
    pub fn write_stderr(
        &self,
        cpu: usize,
        buf: &[u8],
        console: &mut crate::drivers::framebuffer::ConsoleState,
    ) -> (n: usize)
        requires
            self.wf(),
            cpu < 4,
            old(console).wf(),
        ensures
            final(console).wf(),
            final(console).console is Some <==> old(console).console is Some,
            n == spec_write_count(*self, cpu as int, 2, buf@.len() as int, old(console).console is Some),
    {
        self.write_current_fd(cpu, crate::kernel::vfs::FD_STDERR, buf, console)
    }
}

/// A found pid names an occupied slot with that id.
proof fn lemma_find_pid_props(slots: Seq<Option<Process>>, pid: ProcessId, k: int)
    requires
        find_pid_at(slots, pid, k) is Some,
    ensures
        ({
            let j = find_pid_at(slots, pid, k)->Some_0;
            &&& k <= j < slots.len()
            &&& slots[j] is Some
            &&& slots[j]->Some_0.id == pid
        }),
    decreases slots.len() - k,
{
    if !(k < 0 || k >= slots.len()) {
        if slots[k] is Some && slots[k]->Some_0.id == pid {
        } else {
            lemma_find_pid_props(slots, pid, k + 1);
        }
    }
}

/// The descriptor table a new process starts with: a copy of its
/// parent's table when the parent still has a record, else the boot
/// defaults.
pub open spec fn inherited_fds(
    slots: Seq<Option<Process>>,
    init_fds: Seq<Option<FileDesc>>,
    parent: Option<ProcessId>,
) -> Seq<Option<FileDesc>> {
    match parent {
        Some(pid) => match find_pid(slots, pid) {
            Some(j) => slots[j]->Some_0.fds@,
            None => init_fds,
        },
        None => init_fds,
    }
}

impl ProcessTable {
    /// Creates a kernel-mode process; the process on `cpu` becomes its
    /// parent.
    pub fn create(&mut self, cpu: usize, name: &'static str, entry: usize, stack_top: usize) -> (r:
        Option<ProcessId>)
        requires
            old(self).wf(),
            cpu < 4,
            stack_top == 0 || stack_top >= TRAP_FRAME_SIZE,
        ensures
            final(self).wf(),
            created_post(
                *old(self),
                *final(self),
                name,
                entry,
                stack_top,
                ProcessMode::Kernel,
                spec_current_pid(*old(self), cpu as int),
                r,
            ),
    {
        let parent = self.current_pid(cpu);
        self.create_with_mode(name, entry, stack_top, ProcessMode::Kernel, parent)
    }

    /// Creates a user-mode process; the process on `cpu` becomes its
    /// parent.
    pub fn create_user(
        &mut self,
        cpu: usize,
        name: &'static str,
        entry: usize,
        stack_top: usize,
    ) -> (r: Option<ProcessId>)
        requires
            old(self).wf(),
            cpu < 4,
            stack_top == 0 || stack_top >= TRAP_FRAME_SIZE,
        ensures
            final(self).wf(),
            created_post(
                *old(self),
                *final(self),
                name,
                entry,
                stack_top,
                ProcessMode::User,
                spec_current_pid(*old(self), cpu as int),
                r,
            ),
    {
        let parent = self.current_pid(cpu);
        self.create_with_mode(name, entry, stack_top, ProcessMode::User, parent)
    }

    /// Creates a process: takes the first free slot, places the seed
    /// frame position below the resolved stack top (the boot path
    /// writes `seed_frame(entry, mode)` there), copies the parent's
    /// descriptors, and enqueues the new process ready to run.
    pub fn create_with_mode(
        &mut self,
        name: &'static str,
        entry: usize,
        stack_top: usize,
        mode: ProcessMode,
        parent: Option<ProcessId>,
    ) -> (r: Option<ProcessId>)
        requires
            old(self).wf(),
            stack_top == 0 || stack_top >= TRAP_FRAME_SIZE,
        ensures
            final(self).wf(),
            created_post(*old(self), *final(self), name, entry, stack_top, mode, parent, r),
    {
        let ghost pre = *self;
        // Copy the descriptors to inherit before taking a slot.
        let mut fds: Vec<Option<FileDesc>> = Vec::new();
        let mut found_parent = false;
        match parent {
            Some(pid) => {
                let mut i: usize = 0;
                while !found_parent && i < MAX_PROCS
                    invariant
                        self.wf(),
                        *self == pre,
                        pre == *old(self),
                        i <= 64,
                        !found_parent ==> find_pid_at(self.slots(), pid, 0) == find_pid_at(
                            self.slots(),
                            pid,
                            i as int,
                        ),
                        found_parent ==> find_pid(self.slots(), pid) is Some && fds@ =~= self.slots()[
                            find_pid(self.slots(), pid)->Some_0
                        ]->Some_0.fds@,
                    decreases 64 - i, (if found_parent { 0int } else { 1int }),
                {
                    let hit = match &self.slots[i] {
                        Some(p) => p.id == pid,
                        None => false,
                    };
                    if hit {
                        match &self.slots[i] {
                            Some(p) => {
                                fds = copy_fds(&p.fds);
                            },
                            None => {},
                        }
                        found_parent = true;
                        proof {
                            assert(find_pid(self.slots(), pid) == Some(i as int));
                        }
                    } else {
                        i += 1;
                    }
                }
                if !found_parent {
                    fds = copy_fds(&self.init_fds);
                }
            },
            None => {
                fds = copy_fds(&self.init_fds);
            },
        }
        proof {
            match parent {
                Some(pid) => {
                    if find_pid(pre.slots(), pid) is Some {
                        lemma_find_pid_props(pre.slots(), pid, 0);
                    }
                },
                None => {},
            }
            assert(fds@ =~= inherited_fds(pre.slots(), pre.init_fds(), parent));
            assert(fds@.len() == 8);
        }
        let mut idx: usize = 0;
        while idx < MAX_PROCS
            invariant
                self.wf(),
                *self == pre,
                pre == *old(self),
                idx <= 64,
                fds@ == inherited_fds(pre.slots(), pre.init_fds(), parent),
                fds@.len() == 8,
                stack_top == 0 || stack_top >= TRAP_FRAME_SIZE,
                first_free_at(self.slots(), 0) == first_free_at(self.slots(), idx as int),
            decreases 64 - idx,
        {
            if self.slots[idx].is_none() {
                proof {
                    assert(first_free(pre.slots()) == Some(idx as int));
                }
                let pid = self.alloc_pid();
                let resolved = if stack_top == 0 {
                    self.stack_pool_base + idx * STACK_SIZE + STACK_SIZE
                } else {
                    stack_top
                };
                let context_sp = init_frame_addr(resolved);
                let proc = Process {
                    id: pid,
                    name,
                    entry,
                    state: ProcessState::Ready,
                    stack_top: resolved,
                    context_sp,
                    running_on: CPU_NONE,
                    in_run_queue: true,
                    mode,
                    parent,
                    fds,
                    ttbr0: 0,
                };
                self.slots[idx] = Some(proc);
                proof {
                    lemma_queue_not_full(self.queue(), pre.slots(), idx as int);
                    assert forall|k: int| 0 <= k < self.queue().len() implies (
                    #[trigger] self.queue()[k]) < 64 && self.slots()[
                        self.queue()[k] as int
                    ] is Some && self.slots()[self.queue()[k] as int]->Some_0.in_run_queue by {
                        assert(self.queue()[k] != idx);
                    }
                }
                let pushed = self.run_queue.push(idx);
                proof {
                    assert(pushed);
                    assert forall|i: int|
                        0 <= i < 64 && (#[trigger] self.slots()[i]) is Some && self.slots()[
                            i
                        ]->Some_0.in_run_queue implies self.queue().contains(i as usize) by {
                        if i != idx {
                            assert(pre.queue().contains(i as usize));
                            let w = choose|w: int|
                                0 <= w < pre.queue().len() && pre.queue()[w] == i as usize;
                            assert(self.queue()[w] == i as usize);
                        } else {
                            assert(self.queue()[self.queue().len() - 1] == idx);
                        }
                    }
                }
                return Some(pid);
            }
            idx += 1;
        }
        None
    }
}

/// The slot lists agree except at `i`, whose record is unchanged but
/// for the `in_run_queue` flag now being `v`.
pub open spec fn flag_set(
    pre: Seq<Option<Process>>,
    post: Seq<Option<Process>>,
    i: int,
    v: bool,
) -> bool {
    &&& 0 <= i < pre.len()
    &&& pre[i] is Some
    &&& post =~= pre.update(i, Some(Process { in_run_queue: v, ..pre[i]->Some_0 }))
}

impl ProcessTable {
    /// Round-robin scan of the run queue: pops entries, re-queues the
    /// ones that are not runnable, and returns the first runnable slot
    /// with its queue flag cleared; `None` after one full rotation.
    #[verifier::rlimit(100)]
    pub fn dequeue_next_runnable(&mut self) -> (r: Option<usize>)
        requires
            old(self).wf(),
        ensures
            final(self).wf(),
            final(self).current() == old(self).current(),
            final(self).spec_next_pid() == old(self).spec_next_pid(),
            final(self).init_fds() == old(self).init_fds(),
            final(self).stack_pool() == old(self).stack_pool(),
            match first_runnable(old(self).slots(), old(self).queue()) {
                None => {
                    &&& r is None
                    &&& final(self).slots() == old(self).slots()
                    &&& final(self).queue() =~= old(self).queue()
                },
                Some(k) => {
                    &&& r == Some(old(self).queue()[k])
                    &&& final(self).queue() =~= old(self).queue().subrange(
                        k + 1,
                        old(self).queue().len() as int,
                    ) + old(self).queue().take(k)
                    &&& flag_set(
                        old(self).slots(),
                        final(self).slots(),
                        old(self).queue()[k] as int,
                        false,
                    )
                    &&& runnable(old(self).slots(), old(self).queue()[k])
                },
            },
    {
        let ghost pre = *self;
        let ghost q = self.run_queue@;
        let n = self.run_queue.len();
        let mut t: usize = 0;
        proof {
            assert(q.subrange(0, n as int) + q.take(0) =~= q);
        }
        while t < n
            invariant
                self.wf(),
                pre == *old(self),
                pre.wf(),
                self.slots() == pre.slots(),
                self.current() == pre.current(),
                self.spec_next_pid() == pre.spec_next_pid(),
                self.init_fds() == pre.init_fds(),
                self.stack_pool() == pre.stack_pool(),
                q == pre.queue(),
                n == q.len(),
                t <= n,
                self.queue() =~= q.subrange(t as int, n as int) + q.take(t as int),
                forall|j: int| 0 <= j < t ==> !runnable(pre.slots(), q[j]),
            decreases n - t,
        {
            let ghost q_t = self.queue();
            let popped = self.run_queue.pop();
            let idx = match popped {
                Some(idx) => idx,
                None => {
                    proof {
                        assert(false);
                    }
                    0
                },
            };
            proof {
                assert(q_t[0] == q[t as int]);
                assert(idx == q[t as int]);
            }
            let take = match &self.slots[idx] {
                Some(p) => match p.state {
                    ProcessState::Ready => p.running_on == CPU_NONE,
                    _ => false,
                },
                None => false,
            };
            if take {
                let slot = vstd::std_specs::vec::vec_index_mut(&mut self.slots, idx);
                match slot {
                    Some(p) => {
                        p.in_run_queue = false;
                    },
                    None => {},
                }
                proof {
                    lemma_first_runnable_prefix(pre.slots(), q, t as int);
                    assert(first_runnable(pre.slots(), q) == Some(t as int));
                    assert(self.queue() =~= q.subrange(t + 1, n as int) + q.take(t as int));
                    assert forall|k: int|
                        0 <= k < self.queue().len() implies (#[trigger] self.queue()[k]) < 64
                        && self.slots()[self.queue()[k] as int] is Some && self.slots()[
                        self.queue()[k] as int
                    ]->Some_0.in_run_queue by {
                        assert(self.queue()[k] != idx) by {
                            lemma_rotation_distinct(q, t as int, k);
                        }
                    }
                    assert forall|i: int|
                        0 <= i < 64 && (#[trigger] self.slots()[i]) is Some && self.slots()[
                            i
                        ]->Some_0.in_run_queue implies self.queue().contains(i as usize) by {
                        assert(pre.slots()[i] is Some && pre.slots()[i]->Some_0.in_run_queue);
                        assert(pre.queue().contains(i as usize));
                        let w = choose|w: int| 0 <= w < q.len() && q[w] == i as usize;
                        lemma_rotation_member(q, t as int, w);
                        assert(w != t);
                    }
                }
                return Some(idx);
            }
            let pushed = self.run_queue.push(idx);
            proof {
                assert(pushed);
                assert(self.queue() =~= q.subrange(t + 1, n as int) + q.take(t + 1));
                lemma_rotation_props(q, t + 1);
                let rot = q.subrange(t + 1, n as int) + q.take(t + 1);
                assert forall|k: int|
                    0 <= k < self.queue().len() implies (#[trigger] self.queue()[k]) < 64
                    && self.slots()[self.queue()[k] as int] is Some && self.slots()[
                    self.queue()[k] as int
                ]->Some_0.in_run_queue by {
                    assert(self.queue()[k] == rot[k]);
                    let m = if k < q.len() - (t + 1) {
                        t + 1 + k
                    } else {
                        k - (q.len() - (t + 1))
                    };
                    assert(rot[k] == q[m]);
                    assert(pre.queue()[m] == q[m]);
                }
                assert forall|i: int|
                    0 <= i < 64 && (#[trigger] self.slots()[i]) is Some && self.slots()[
                        i
                    ]->Some_0.in_run_queue implies self.queue().contains(i as usize) by {
                    assert(pre.queue().contains(i as usize));
                    let w = choose|w: int| 0 <= w < q.len() && q[w] == i as usize;
                    assert(rot.contains(q[w]));
                }
            }
            t += 1;
        }
        proof {
            lemma_first_runnable_prefix(pre.slots(), q, n as int);
            assert(first_runnable(pre.slots(), q) is None);
            assert(self.queue() =~= q);
        }
        None
    }
}

/// A rotation of a duplicate-free queue keeps its entries, each once.
proof fn lemma_rotation_props(q: Seq<usize>, s: int)
    requires
        0 <= s <= q.len(),
        forall|k1: int, k2: int| 0 <= k1 < k2 < q.len() ==> (#[trigger] q[k1]) != #[trigger] q[k2],
    ensures
        ({
            let rot = q.subrange(s, q.len() as int) + q.take(s);
            &&& rot.len() == q.len()
            &&& forall|k: int|
                0 <= k < q.len() ==> (#[trigger] rot[k]) == if k < q.len() - s {
                    q[s + k]
                } else {
                    q[k - (q.len() - s)]
                }
            &&& forall|k1: int, k2: int|
                0 <= k1 < k2 < q.len() ==> (#[trigger] rot[k1]) != #[trigger] rot[k2]
            &&& forall|w: int| 0 <= w < q.len() ==> rot.contains(#[trigger] q[w])
        }),
{
    let rot = q.subrange(s, q.len() as int) + q.take(s);
    assert forall|k1: int, k2: int| 0 <= k1 < k2 < q.len() implies (#[trigger] rot[k1])
        != #[trigger] rot[k2] by {
        let m1 = if k1 < q.len() - s {
            s + k1
        } else {
            k1 - (q.len() - s)
        };
        let m2 = if k2 < q.len() - s {
            s + k2
        } else {
            k2 - (q.len() - s)
        };
        assert(rot[k1] == q[m1] && rot[k2] == q[m2]);
        if m1 < m2 {
            assert(q[m1] != q[m2]);
        } else {
            assert(q[m2] != q[m1]);
        }
    }
    assert forall|w: int| 0 <= w < q.len() implies rot.contains(#[trigger] q[w]) by {
        if w >= s {
            assert(rot[w - s] == q[w]);
        } else {
            assert(rot[q.len() - s + w] == q[w]);
        }
    }
}

/// What saving the interrupted context does to the slots: the frame
/// pointer is recorded in the current record, and a running current
/// record is demoted to ready, off-core and unqueued.
pub open spec fn saved_slots(slots: Seq<Option<Process>>, cur: usize, frame: usize) -> Seq<
    Option<Process>,
> {
    if cur != INVALID_IDX && cur < 64 && slots[cur as int] is Some {
        let p = slots[cur as int]->Some_0;
        if p.state == ProcessState::Running {
            slots.update(
                cur as int,
                Some(
                    Process {
                        context_sp: frame,
                        state: ProcessState::Ready,
                        running_on: CPU_NONE,
                        in_run_queue: false,
                        ..p
                    },
                ),
            )
        } else {
            slots.update(cur as int, Some(Process { context_sp: frame, ..p }))
        }
    } else {
        slots
    }
}

/// What one timer tick of the scheduler does on `cpu`, given the
/// interrupted frame pointer: the current record is saved and demoted;
/// the first runnable queue entry, if any, is dequeued and promoted,
/// the previous record re-enqueued at the tail, and the chosen saved
/// frame pointer returned; with no runnable candidate the previous
/// record — if it was the one running — is restored and the interrupted
/// frame returned unchanged. The re-enqueue happens only when the
/// previous record is ready, unqueued and distinct from the chosen one:
/// anything looser would double-enqueue and break the queue-flag
/// invariant that scheduling fairness rests on.
pub open spec fn schedule_post(
    pre: ProcessTable,
    post: ProcessTable,
    cpu: int,
    frame: usize,
    r: usize,
) -> bool {
    let cur = pre.current()[cpu];
    let s1 = saved_slots(pre.slots(), cur, frame);
    let was_running = cur != INVALID_IDX && pre.slots()[cur as int] is Some && pre.slots()[
        cur as int
    ]->Some_0.state == ProcessState::Running;
    &&& post.spec_next_pid() == pre.spec_next_pid()
    &&& post.init_fds() == pre.init_fds()
    &&& post.stack_pool() == pre.stack_pool()
    &&& match first_runnable(s1, pre.queue()) {
        None => {
            &&& r == frame
            &&& post.queue() =~= pre.queue()
            &&& post.current() == pre.current()
            &&& post.slots() =~= if was_running {
                s1.update(
                    cur as int,
                    Some(
                        Process {
                            state: ProcessState::Running,
                            running_on: cpu as usize,
                            ..s1[cur as int]->Some_0
                        },
                    ),
                )
            } else {
                s1
            }
        },
        Some(k) => {
            let next = pre.queue()[k];
            let s2 = s1.update(
                next as int,
                Some(Process { in_run_queue: false, ..s1[next as int]->Some_0 }),
            );
            let q2 = pre.queue().subrange(k + 1, pre.queue().len() as int) + pre.queue().take(k);
            let req = cur != INVALID_IDX && cur != next && s2[cur as int] is Some && s2[
                cur as int
            ]->Some_0.state == ProcessState::Ready && !s2[cur as int]->Some_0.in_run_queue;
            let s3 = if req {
                s2.update(cur as int, Some(Process { in_run_queue: true, ..s2[cur as int]->Some_0 }))
            } else {
                s2
            };
            &&& r == s1[next as int]->Some_0.context_sp
            &&& post.queue() =~= if req {
                q2.push(cur)
            } else {
                q2
            }
            &&& post.current() =~= pre.current().update(cpu, next)
            &&& post.slots() =~= s3.update(
                next as int,
                Some(
                    Process {
                        state: ProcessState::Running,
                        running_on: cpu as usize,
                        in_run_queue: false,
                        ..s3[next as int]->Some_0
                    },
                ),
            )
        },
    }
}

impl ProcessTable {
    /// Records the interrupted frame pointer in the current record of
    /// `cpu` and demotes it if it was running; reports whether it was.
    fn save_current(&mut self, cpu: usize, frame: usize) -> (was_running: bool)
        requires
            old(self).wf(),
            cpu < 4,
        ensures
            final(self).wf(),
            final(self).slots() =~= saved_slots(
                old(self).slots(),
                old(self).current()[cpu as int],
                frame,
            ),
            final(self).queue() == old(self).queue(),
            final(self).current() == old(self).current(),
            final(self).spec_next_pid() == old(self).spec_next_pid(),
            final(self).init_fds() == old(self).init_fds(),
            final(self).stack_pool() == old(self).stack_pool(),
            was_running == ({
                let cur = old(self).current()[cpu as int];
                cur != INVALID_IDX && old(self).slots()[cur as int] is Some && old(self).slots()[
                    cur as int
                ]->Some_0.state == ProcessState::Running
            }),
    {
        let ghost pre = *self;
        let cur = self.current[cpu];
        let mut was_running = false;
        if cur != INVALID_IDX {
            let slot = vstd::std_specs::vec::vec_index_mut(&mut self.slots, cur);
            match slot {
                Some(p) => {
                    p.context_sp = frame;
                    match p.state {
                        ProcessState::Running => {
                            was_running = true;
                            p.state = ProcessState::Ready;
                            p.running_on = CPU_NONE;
                            p.in_run_queue = false;
                        },
                        _ => {},
                    }
                },
                None => {},
            }
        }
        proof {
            assert(self.slots() =~= saved_slots(pre.slots(), cur, frame));
            assert forall|k: int|
                0 <= k < self.queue().len() implies (#[trigger] self.queue()[k]) < 64
                && self.slots()[self.queue()[k] as int] is Some && self.slots()[
                self.queue()[k] as int
            ]->Some_0.in_run_queue by {
                assert(pre.queue()[k] == self.queue()[k]);
            }
            assert forall|i: int|
                0 <= i < 64 && (#[trigger] self.slots()[i]) is Some && self.slots()[
                    i
                ]->Some_0.in_run_queue implies self.queue().contains(i as usize) by {
                assert(pre.slots()[i] is Some && pre.slots()[i]->Some_0.in_run_queue);
            }
            assert(self.wf());
        }
        was_running
    }

    /// Marks the record at `cur` queued again and appends it at the
    /// tail of the run queue.
    fn enqueue_ready(&mut self, cur: usize)
        requires
            old(self).wf(),
            cur < 64,
            old(self).slots()[cur as int] is Some,
            old(self).slots()[cur as int]->Some_0.state == ProcessState::Ready,
            !old(self).slots()[cur as int]->Some_0.in_run_queue,
            old(self).queue().len() < 64,
        ensures
            final(self).wf(),
            flag_set(old(self).slots(), final(self).slots(), cur as int, true),
            final(self).queue() =~= old(self).queue().push(cur),
            final(self).current() == old(self).current(),
            final(self).spec_next_pid() == old(self).spec_next_pid(),
            final(self).init_fds() == old(self).init_fds(),
            final(self).stack_pool() == old(self).stack_pool(),
    {
        let ghost pre = *self;
        let slot = vstd::std_specs::vec::vec_index_mut(&mut self.slots, cur);
        match slot {
            Some(p) => {
                p.in_run_queue = true;
            },
            None => {},
        }
        proof {
            assert forall|j: int|
                0 <= j < self.queue().len() implies (#[trigger] self.queue()[j]) < 64
                && self.slots()[self.queue()[j] as int] is Some && self.slots()[
                self.queue()[j] as int
            ]->Some_0.in_run_queue by {
                assert(pre.queue()[j] == self.queue()[j]);
                assert(self.queue()[j] != cur);
            }
        }
        let ghost staged = *self;
        let pushed = self.run_queue.push(cur);
        proof {
            assert(pushed);
            assert forall|i: int|
                0 <= i < 64 && (#[trigger] self.slots()[i]) is Some && self.slots()[
                    i
                ]->Some_0.in_run_queue implies self.queue().contains(i as usize) by {
                if i != cur {
                    assert(pre.slots()[i] is Some && pre.slots()[i]->Some_0.in_run_queue);
                    assert(pre.queue().contains(i as usize));
                    let w = choose|w: int| 0 <= w < pre.queue().len() && pre.queue()[w] == i as usize;
                    assert(self.queue()[w] == i as usize);
                } else {
                    assert(self.queue()[self.queue().len() - 1] == cur);
                }
            }
            assert forall|k1: int, k2: int|
                0 <= k1 < k2 < self.queue().len() implies (#[trigger] self.queue()[k1])
                != #[trigger] self.queue()[k2] by {
                if k2 == self.queue().len() - 1 {
                    assert(self.queue()[k1] == pre.queue()[k1]);
                    assert(staged.slots()[pre.queue()[k1] as int]->Some_0.in_run_queue);
                }
            }
            assert(self.wf());
        }
    }

    /// Promotes the record at `next` to running on `cpu` and points the
    /// core's bookkeeping at it.
    fn promote(&mut self, next: usize, cpu: usize)
        requires
            old(self).wf(),
            cpu < 4,
            next < 64,
            old(self).slots()[next as int] is Some,
            !old(self).slots()[next as int]->Some_0.in_run_queue,
            forall|i: int|
                0 <= i < 64 && (#[trigger] old(self).slots()[i]) is Some ==> old(self).slots()[
                    i
                ]->Some_0.running_on != cpu,
        ensures
            final(self).wf(),
            final(self).slots() =~= old(self).slots().update(
                next as int,
                Some(
                    Process {
                        state: ProcessState::Running,
                        running_on: cpu,
                        in_run_queue: false,
                        ..old(self).slots()[next as int]->Some_0
                    },
                ),
            ),
            final(self).queue() == old(self).queue(),
            final(self).current() =~= old(self).current().update(cpu as int, next),
            final(self).spec_next_pid() == old(self).spec_next_pid(),
            final(self).init_fds() == old(self).init_fds(),
            final(self).stack_pool() == old(self).stack_pool(),
    {
        let ghost pre = *self;
        let slot = vstd::std_specs::vec::vec_index_mut(&mut self.slots, next);
        match slot {
            Some(p) => {
                p.state = ProcessState::Running;
                p.running_on = cpu;
                p.in_run_queue = false;
            },
            None => {},
        }
        self.current[cpu] = next;
        proof {
            assert forall|j: int|
                0 <= j < self.queue().len() implies (#[trigger] self.queue()[j]) < 64
                && self.slots()[self.queue()[j] as int] is Some && self.slots()[
                self.queue()[j] as int
            ]->Some_0.in_run_queue by {
                assert(pre.queue()[j] == self.queue()[j]);
                assert(self.queue()[j] != next);
            }
            assert forall|i: int|
                0 <= i < 64 && (#[trigger] self.slots()[i]) is Some && self.slots()[
                    i
                ]->Some_0.in_run_queue implies self.queue().contains(i as usize) by {
                assert(pre.slots()[i] is Some && pre.slots()[i]->Some_0.in_run_queue);
            }
            assert(self.wf());
        }
    }

    /// One scheduler tick from the timer interrupt on `cpu`: saves the
    /// interrupted frame pointer, rotates the run queue to the next
    /// runnable process, and returns the frame pointer to resume from.
    #[verifier::rlimit(100)]
    pub fn schedule_from_irq(&mut self, cpu: usize, frame: usize) -> (r: usize)
        requires
            old(self).wf(),
            cpu < 4,
        ensures
            final(self).wf(),
            schedule_post(*old(self), *final(self), cpu as int, frame, r),
    {
        let ghost pre = *self;
        let cur = self.current[cpu];
        let was_running = self.save_current(cpu, frame);
        let ghost mid = *self;
        let next_opt = self.dequeue_next_runnable();
        match next_opt {
            None => {
                if cur != INVALID_IDX && was_running {
                    let slot = vstd::std_specs::vec::vec_index_mut(&mut self.slots, cur);
                    match slot {
                        Some(p) => {
                            p.state = ProcessState::Running;
                            p.running_on = cpu;
                        },
                        None => {},
                    }
                }
                proof {
                    assert forall|i: int|
                        0 <= i < 64 && (#[trigger] self.slots()[i]) is Some && self.slots()[
                            i
                        ]->Some_0.in_run_queue implies self.queue().contains(i as usize) by {
                        assert(mid.slots()[i] is Some && mid.slots()[i]->Some_0.in_run_queue);
                        assert(mid.queue().contains(i as usize));
                    }
                    assert(self.wf());
                }
                frame
            },
            Some(next) => {
                let ghost k = first_runnable(mid.slots(), mid.queue())->Some_0;
                proof {
                    lemma_first_runnable_bounds(mid.slots(), mid.queue(), 0);
                    lemma_rotation_skip(pre.queue(), k);
                }
                let result = match &self.slots[next] {
                    Some(p) => p.context_sp,
                    None => 0,
                };
                if cur != INVALID_IDX && cur != next {
                    let req = match &self.slots[cur] {
                        Some(p) => match p.state {
                            ProcessState::Ready => !p.in_run_queue,
                            _ => false,
                        },
                        None => false,
                    };
                    if req {
                        self.enqueue_ready(cur);
                    }
                }
                proof {
                    assert forall|i: int|
                        0 <= i < 64 && (#[trigger] self.slots()[i]) is Some implies self.slots()[
                        i
                    ]->Some_0.running_on != cpu by {
                        if self.slots()[i]->Some_0.running_on == cpu {
                            assert(self.current()[cpu as int] == i);
                            assert(self.slots()[i]->Some_0.state == ProcessState::Running);
                        }
                    }
                }
                self.promote(next, cpu);
                result
            },
        }
    }
}

impl ProcessTable {
    /// First dispatch on a freshly started core: picks the first
    /// runnable process, promotes it, and hands back its entry point
    /// and stack top to jump into; `None` when nothing is runnable,
    /// which at boot is fatal for the caller.
    pub fn start_on_cpu(&mut self, cpu: usize) -> (r: Option<(usize, usize)>)
        requires
            old(self).wf(),
            cpu < 4,
            old(self).current()[cpu as int] == INVALID_IDX,
        ensures
            final(self).wf(),
            final(self).spec_next_pid() == old(self).spec_next_pid(),
            final(self).init_fds() == old(self).init_fds(),
            final(self).stack_pool() == old(self).stack_pool(),
            match first_runnable(old(self).slots(), old(self).queue()) {
                None => {
                    &&& r is None
                    &&& final(self).slots() == old(self).slots()
                    &&& final(self).queue() =~= old(self).queue()
                    &&& final(self).current() == old(self).current()
                },
                Some(k) => {
                    let next = old(self).queue()[k];
                    let p = old(self).slots()[next as int]->Some_0;
                    &&& r == Some((p.entry, p.stack_top))
                    &&& final(self).queue() =~= old(self).queue().subrange(
                        k + 1,
                        old(self).queue().len() as int,
                    ) + old(self).queue().take(k)
                    &&& final(self).current() =~= old(self).current().update(cpu as int, next)
                    &&& final(self).slots() =~= old(self).slots().update(
                        next as int,
                        Some(
                            Process {
                                state: ProcessState::Running,
                                running_on: cpu,
                                in_run_queue: false,
                                ..p
                            },
                        ),
                    )
                },
            },
    {
        let ghost pre = *self;
        let next_opt = self.dequeue_next_runnable();
        match next_opt {
            None => None,
            Some(next) => {
                let r = match &self.slots[next] {
                    Some(p) => Some((p.entry, p.stack_top)),
                    None => None,
                };
                proof {
                    assert forall|i: int|
                        0 <= i < 64 && (#[trigger] self.slots()[i]) is Some implies self.slots()[
                        i
                    ]->Some_0.running_on != cpu by {
                        if self.slots()[i]->Some_0.running_on == cpu {
                            assert(self.current()[cpu as int] == i);
                        }
                    }
                }
                self.promote(next, cpu);
                r
            },
        }
    }
}

/// Number of occupied slots whose queue flag is set.
pub open spec fn count_flagged(slots: Seq<Option<Process>>) -> int
    decreases slots.len(),
{
    if slots.len() == 0 {
        0
    } else {
        count_flagged(slots.drop_last()) + if slots.last() is Some
            && slots.last()->Some_0.in_run_queue {
            1int
        } else {
            0int
        }
    }
}

/// The set of flagged slot indices below `n`.
spec fn flagged_below(slots: Seq<Option<Process>>, n: int) -> Set<int> {
    Set::new(
        |i: int| 0 <= i < n && slots[i] is Some && slots[i]->Some_0.in_run_queue,
    )
}

/// The flag count of a prefix is the cardinality of its flagged set.
proof fn lemma_count_is_card(slots: Seq<Option<Process>>, n: int)
    requires
        0 <= n <= slots.len(),
    ensures
        flagged_below(slots.take(n), n).finite(),
        count_flagged(slots.take(n)) == flagged_below(slots.take(n), n).len(),
        flagged_below(slots.take(n), n) =~= flagged_below(slots, n),
    decreases n,
{
    broadcast use vstd::set::group_set_axioms;

    if n == 0 {
        assert(slots.take(0).len() == 0);
        assert(flagged_below(slots.take(0), 0) =~= Set::<int>::empty());
    } else {
        lemma_count_is_card(slots, n - 1);
        let t = slots.take(n);
        assert(t.drop_last() =~= slots.take(n - 1));
        assert(t.last() == slots[n - 1]);
        if slots[n - 1] is Some && slots[n - 1]->Some_0.in_run_queue {
            assert(flagged_below(t, n) =~= flagged_below(slots.take(n - 1), n - 1).insert(n - 1));
            assert(!flagged_below(slots.take(n - 1), n - 1).contains(n - 1));
        } else {
            assert(flagged_below(t, n) =~= flagged_below(slots.take(n - 1), n - 1));
        }
        assert(flagged_below(slots.take(n), n) =~= flagged_below(slots, n));
    }
}

/// Run-queue conservation: in a well-formed table the number of slots
/// whose `in_run_queue` flag is set equals the run queue's occupancy.
pub proof fn lemma_run_queue_conservation(t: ProcessTable)
    requires
        t.wf(),
    ensures
        count_flagged(t.slots()) == t.queue().len(),
{
    broadcast use vstd::set::group_set_axioms;

    lemma_count_is_card(t.slots(), 64);
    assert(t.slots().take(64) =~= t.slots());
    let q = t.queue();
    let qi = q.map_values(|v: usize| v as int);
    assert(qi.no_duplicates()) by {
        assert forall|k1: int, k2: int|
            0 <= k1 < qi.len() && 0 <= k2 < qi.len() && k1 != k2 implies qi[k1] != qi[k2] by {
            if k1 < k2 {
                assert(q[k1] != q[k2]);
            } else {
                assert(q[k2] != q[k1]);
            }
        }
    }
    qi.unique_seq_to_set();
    assert(qi.to_set() =~= flagged_below(t.slots(), 64)) by {
        assert forall|v: int| qi.to_set().contains(v) implies flagged_below(
            t.slots(),
            64,
        ).contains(v) by {
            let w = choose|w: int| 0 <= w < qi.len() && qi[w] == v;
            assert(q[w] < 64 && t.slots()[q[w] as int] is Some && t.slots()[
                q[w] as int
            ]->Some_0.in_run_queue);
        }
        assert forall|v: int| flagged_below(t.slots(), 64).contains(v) implies
        qi.to_set().contains(v) by {
            assert(t.queue().contains(v as usize));
            let w = choose|w: int| 0 <= w < q.len() && q[w] == v as usize;
            assert(qi[w] == v);
        }
    }
}

/// A table in round-robin position on `cpu`: some process is running
/// there, and every queued process is ready to take over.
pub open spec fn round_robin_ready(t: ProcessTable, cpu: int) -> bool {
    &&& t.wf()
    &&& 0 <= cpu < 4
    &&& t.queue().len() > 0
    &&& forall|k: int| 0 <= k < t.queue().len() ==> runnable(t.slots(), #[trigger] t.queue()[k])
    &&& ({
        let cur = t.current()[cpu];
        &&& cur != INVALID_IDX
        &&& cur < 64
        &&& t.slots()[cur as int] is Some
        &&& t.slots()[cur as int]->Some_0.state == ProcessState::Running
        &&& t.slots()[cur as int]->Some_0.running_on == cpu
    })
}

/// One tick of round-robin: from a round-robin position the scheduler
/// hands the core to the head of the queue, re-enqueues the preempted
/// process at the tail, and is in round-robin position again.
pub proof fn lemma_schedule_round_robin(
    pre: ProcessTable,
    post: ProcessTable,
    cpu: int,
    frame: usize,
    r: usize,
)
    requires
        round_robin_ready(pre, cpu),
        post.wf(),
        schedule_post(pre, post, cpu, frame, r),
    ensures
        post.current()[cpu] == pre.queue()[0],
        post.queue() =~= pre.queue().subrange(1, pre.queue().len() as int).push(
            pre.current()[cpu],
        ),
        round_robin_ready(post, cpu),
        r == pre.slots()[pre.queue()[0] as int]->Some_0.context_sp,
{
    let cur = pre.current()[cpu];
    let q = pre.queue();
    let s1 = saved_slots(pre.slots(), cur, frame);
    assert(!pre.slots()[cur as int]->Some_0.in_run_queue);
    assert forall|k: int| 0 <= k < q.len() implies (#[trigger] q[k]) != cur by {
        if q[k] == cur {
            assert(pre.slots()[q[k] as int]->Some_0.in_run_queue);
        }
    }
    assert(runnable(s1, q[0]));
    assert(first_runnable(s1, q) == Some(0int));
    let next = q[0];
    assert(q.subrange(1, q.len() as int) + q.take(0) =~= q.subrange(1, q.len() as int));
    let s2 = s1.update(next as int, Some(Process { in_run_queue: false, ..s1[next as int]->Some_0 }));
    assert(s2[cur as int] == s1[cur as int]);
    assert(s1[cur as int]->Some_0.state == ProcessState::Ready);
    assert(!s1[cur as int]->Some_0.in_run_queue);
    assert(cur != next);
    assert(post.queue() =~= q.subrange(1, q.len() as int).push(cur));
    assert(post.current()[cpu] == next);
    // The new position is again a round-robin position.
    assert forall|k: int| 0 <= k < post.queue().len() implies runnable(
        post.slots(),
        #[trigger] post.queue()[k],
    ) by {
        if k < q.len() - 1 {
            assert(post.queue()[k] == q[k + 1]);
            assert(q[k + 1] != cur && q[k + 1] != next) by {
                assert(q[0] != q[k + 1]);
            }
            assert(runnable(pre.slots(), q[k + 1]));
        } else {
            assert(post.queue()[k] == cur);
        }
    }
}

/// Round-robin fairness: from a round-robin position, over any run of
/// `n` consecutive ticks with `n` at most the queue length, the
/// processes taking the running position on the core are exactly the
/// first `n` queue entries in order — so no process runs twice before
/// every queued process has had its turn. `ts` is the trace of table
/// states, tick `t` relating `ts[t]` to `ts[t + 1]`.
pub proof fn lemma_round_robin_fair(
    ts: Seq<ProcessTable>,
    cpu: int,
    frames: Seq<usize>,
    rs: Seq<usize>,
    n: int,
)
    requires
        0 < n <= ts[0].queue().len(),
        ts.len() == n + 1,
        frames.len() == n,
        rs.len() == n,
        round_robin_ready(ts[0], cpu),
        forall|t: int|
            0 <= t < n ==> (#[trigger] ts[t + 1]).wf() && schedule_post(
                ts[t],
                ts[t + 1],
                cpu,
                frames[t],
                rs[t],
            ),
    ensures
        forall|t: int| 0 <= t < n ==> (#[trigger] ts[t + 1]).current()[cpu] == ts[0].queue()[t],
        forall|t1: int, t2: int|
            0 <= t1 < t2 < n ==> (#[trigger] ts[t1 + 1]).current()[cpu] != (#[trigger] ts[t2
                + 1]).current()[cpu],
    decreases n,
{
    let q0 = ts[0].queue();
    let cur0 = ts[0].current()[cpu];
    if n == 1 {
        lemma_schedule_round_robin(ts[0], ts[1], cpu, frames[0], rs[0]);
    } else {
        lemma_round_robin_fair(ts.take(n), cpu, frames.take(n - 1), rs.take(n - 1), n - 1);
        assert(forall|t: int|
            0 <= t < n - 1 ==> (#[trigger] ts.take(n)[t + 1]).current()[cpu] == ts.take(
                n,
            )[0].queue()[t]);
        assert forall|t: int| 0 <= t < n implies (#[trigger] ts[t + 1]).current()[cpu]
            == q0[t] by {
            if t < n - 1 {
                assert(ts.take(n)[t + 1] == ts[t + 1]);
                assert(ts.take(n)[0] == ts[0]);
            } else {
                // Walk the queue shape forward to the last tick.
                lemma_rr_queue_shape(ts, cpu, frames, rs, n - 1);
                assert(ts[n - 1 + 1].wf() && schedule_post(ts[n - 1], ts[n - 1 + 1], cpu, frames[n - 1], rs[n - 1]));
                assert(ts[n - 1 + 1] == ts[n]);
                lemma_schedule_round_robin(ts[n - 1], ts[n], cpu, frames[n - 1], rs[n - 1]);
                assert(ts[n - 1].queue()[0] == q0[n - 1]);
            }
        }
        assert forall|t1: int, t2: int| 0 <= t1 < t2 < n implies (#[trigger] ts[t1
            + 1]).current()[cpu] != (#[trigger] ts[t2 + 1]).current()[cpu] by {
            assert(ts[t1 + 1].current()[cpu] == q0[t1]);
            assert(ts[t2 + 1].current()[cpu] == q0[t2]);
            assert(q0[t1] != q0[t2]);
        }
    }
}

/// After `t` ticks from a round-robin position the queue is the
/// original one rotated: the untouched tail, then the originally
/// running process, then the already-served entries.
proof fn lemma_rr_queue_shape(
    ts: Seq<ProcessTable>,
    cpu: int,
    frames: Seq<usize>,
    rs: Seq<usize>,
    t: int,
)
    requires
        0 <= t < ts.len() - 1,
        t < ts[0].queue().len(),
        frames.len() >= t,
        rs.len() >= t,
        round_robin_ready(ts[0], cpu),
        forall|u: int|
            0 <= u < ts.len() - 1 ==> (#[trigger] ts[u + 1]).wf() && schedule_post(
                ts[u],
                ts[u + 1],
                cpu,
                frames[u],
                rs[u],
            ),
    ensures
        round_robin_ready(ts[t], cpu),
        ts[t].queue() =~= if t == 0 {
            ts[0].queue()
        } else {
            ts[0].queue().subrange(t, ts[0].queue().len() as int) + seq![ts[0].current()[cpu]]
                + ts[0].queue().take(t - 1)
        },
        t > 0 ==> ts[t].current()[cpu] == ts[0].queue()[t - 1],
    decreases t,
{
    let q0 = ts[0].queue();
    let cur0 = ts[0].current()[cpu];
    if t > 0 {
        lemma_rr_queue_shape(ts, cpu, frames, rs, t - 1);
        assert(ts[t - 1 + 1].wf() && schedule_post(ts[t - 1], ts[t - 1 + 1], cpu, frames[t - 1], rs[t - 1]));
        assert(ts[t - 1 + 1] == ts[t]);
        lemma_schedule_round_robin(ts[t - 1], ts[t], cpu, frames[t - 1], rs[t - 1]);
        let qprev = ts[t - 1].queue();
        if t == 1 {
            assert(qprev =~= q0);
            assert(ts[1].queue() =~= q0.subrange(1, q0.len() as int).push(cur0));
            assert(ts[1].queue() =~= q0.subrange(1, q0.len() as int) + seq![cur0] + q0.take(0));
        } else {
            assert(qprev =~= q0.subrange(t - 1, q0.len() as int) + seq![cur0] + q0.take(t - 2));
            assert(ts[t - 1].current()[cpu] == q0[t - 2]);
            assert(ts[t].queue() =~= qprev.subrange(1, qprev.len() as int).push(q0[t - 2]));
            assert(qprev[0] == q0[t - 1]);
            assert(ts[t].queue() =~= q0.subrange(t, q0.len() as int) + seq![cur0] + q0.take(t - 1));
        }
        assert(ts[t].current()[cpu] == qprev[0]);
        assert(qprev[0] == q0[t - 1]);
    }
}

/// The position returned by the runnable scan is in range and runnable.
proof fn lemma_first_runnable_bounds(slots: Seq<Option<Process>>, q: Seq<usize>, k0: int)
    requires
        first_runnable_at(slots, q, k0) is Some,
        0 <= k0,
    ensures
        ({
            let k = first_runnable_at(slots, q, k0)->Some_0;
            &&& k0 <= k < q.len()
            &&& runnable(slots, q[k])
        }),
    decreases q.len() - k0,
{
    if !(k0 < 0 || k0 >= q.len()) {
        if !runnable(slots, q[k0]) {
            lemma_first_runnable_bounds(slots, q, k0 + 1);
        }
    }
}

/// Removing the entry at `k` and rotating keeps every other entry of a
/// duplicate-free queue exactly once, and drops the removed one.
proof fn lemma_rotation_skip(q: Seq<usize>, k: int)
    requires
        0 <= k < q.len(),
        forall|k1: int, k2: int| 0 <= k1 < k2 < q.len() ==> (#[trigger] q[k1]) != #[trigger] q[k2],
    ensures
        ({
            let rot = q.subrange(k + 1, q.len() as int) + q.take(k);
            &&& rot.len() == q.len() - 1
            &&& forall|j: int|
                0 <= j < rot.len() ==> (#[trigger] rot[j]) == if j < q.len() - k - 1 {
                    q[k + 1 + j]
                } else {
                    q[j - (q.len() - k - 1)]
                }
            &&& forall|j: int| 0 <= j < rot.len() ==> (#[trigger] rot[j]) != q[k]
            &&& forall|j1: int, j2: int|
                0 <= j1 < j2 < rot.len() ==> (#[trigger] rot[j1]) != #[trigger] rot[j2]
            &&& forall|w: int| 0 <= w < q.len() && w != k ==> rot.contains(#[trigger] q[w])
        }),
{
    let rot = q.subrange(k + 1, q.len() as int) + q.take(k);
    assert forall|j: int| 0 <= j < rot.len() implies (#[trigger] rot[j]) != q[k] by {
        let m = if j < q.len() - k - 1 {
            k + 1 + j
        } else {
            j - (q.len() - k - 1)
        };
        assert(rot[j] == q[m]);
        if m < k {
            assert(q[m] != q[k]);
        } else {
            assert(q[k] != q[m]);
        }
    }
    assert forall|j1: int, j2: int| 0 <= j1 < j2 < rot.len() implies (#[trigger] rot[j1])
        != #[trigger] rot[j2] by {
        let m1 = if j1 < q.len() - k - 1 {
            k + 1 + j1
        } else {
            j1 - (q.len() - k - 1)
        };
        let m2 = if j2 < q.len() - k - 1 {
            k + 1 + j2
        } else {
            j2 - (q.len() - k - 1)
        };
        assert(rot[j1] == q[m1] && rot[j2] == q[m2]);
        if m1 < m2 {
            assert(q[m1] != q[m2]);
        } else {
            assert(q[m2] != q[m1]);
        }
    }
    assert forall|w: int| 0 <= w < q.len() && w != k implies rot.contains(#[trigger] q[w]) by {
        if w > k {
            assert(rot[w - k - 1] == q[w]);
        } else {
            assert(rot[q.len() - k - 1 + w] == q[w]);
        }
    }
}

/// Skipping a non-runnable prefix does not change the first runnable
/// position.
proof fn lemma_first_runnable_prefix(slots: Seq<Option<Process>>, q: Seq<usize>, t: int)
    requires
        0 <= t <= q.len(),
        forall|j: int| 0 <= j < t ==> !runnable(slots, q[j]),
    ensures
        first_runnable(slots, q) == first_runnable_at(slots, q, t),
    decreases t,
{
    if t > 0 {
        lemma_first_runnable_prefix(slots, q, t - 1);
    }
}

/// An entry of the rotated remainder differs from the entry at `t`.
proof fn lemma_rotation_distinct(q: Seq<usize>, t: int, k: int)
    requires
        0 <= t < q.len(),
        forall|k1: int, k2: int| 0 <= k1 < k2 < q.len() ==> (#[trigger] q[k1]) != #[trigger] q[k2],
        0 <= k < q.len() - 1,
    ensures
        (q.subrange(t + 1, q.len() as int) + q.take(t))[k] != q[t],
{
    let rot = q.subrange(t + 1, q.len() as int) + q.take(t);
    if k < q.len() - t - 1 {
        assert(rot[k] == q[t + 1 + k]);
    } else {
        assert(rot[k] == q[k - (q.len() - t - 1)]);
    }
}

/// An entry of the original queue other than the one at `t` is still in
/// the rotated remainder.
proof fn lemma_rotation_member(q: Seq<usize>, t: int, w: int)
    requires
        0 <= t < q.len(),
        0 <= w < q.len(),
        w != t,
    ensures
        (q.subrange(t + 1, q.len() as int) + q.take(t)).contains(q[w]),
{
    let rot = q.subrange(t + 1, q.len() as int) + q.take(t);
    if w > t {
        assert(rot[w - t - 1] == q[w]);
    } else {
        assert(rot[q.len() - t - 1 + w] == q[w]);
    }
}

/// The copied table `out` lists, in order, exactly the occupied
/// records among the first `upto` slots.
pub open spec fn processes_match(out: Seq<Process>, slots: Seq<Option<Process>>, upto: int) -> bool {
    let occupied = slots.take(upto).filter(|s: Option<Process>| s is Some);
    &&& out.len() == occupied.len()
    &&& forall|k: int| 0 <= k < out.len() ==> process_eq(#[trigger] out[k], occupied[k]->Some_0)
}

/// The trap frame seeded below a new process's stack top, which the
/// boot path writes at the record's `context_sp`: registers zero, the
/// return address at the entry point, and a saved processor state that
/// selects the privilege level matching the process's mode, interrupts
/// enabled.
pub fn seed_frame(entry: usize, mode: ProcessMode) -> (r: TrapFrame)
    ensures
        r.wf(),
        forall|i: int| 0 <= i < crate::trap::TRAP_FRAME_REGS ==> r.x@[i] == 0,
        r.pad == 0,
        r.elr == entry,
        r.sp_el0 == 0,
        r.spsr == match mode {
            ProcessMode::Kernel => SPSR_KERNEL_IRQ_ENABLED,
            ProcessMode::User => SPSR_USER_IRQ_ENABLED,
        },
{
    let spsr = match mode {
        ProcessMode::Kernel => SPSR_KERNEL_IRQ_ENABLED,
        ProcessMode::User => SPSR_USER_IRQ_ENABLED,
    };
    TrapFrame::new_with_state(entry, spsr)
}

/// The pid of the process a core is running, if any.
pub open spec fn spec_current_pid(t: ProcessTable, cpu: int) -> Option<ProcessId> {
    if t.current()[cpu] == INVALID_IDX {
        None
    } else {
        Some(t.slots()[t.current()[cpu] as int]->Some_0.id)
    }
}

/// What creating a process does: on a full table nothing changes and
/// nothing is returned; otherwise the first free slot receives a fresh
/// ready record, enqueued at the tail, with the next pid.
pub open spec fn created_post(
    pre: ProcessTable,
    post: ProcessTable,
    name: &'static str,
    entry: usize,
    stack_top: usize,
    mode: ProcessMode,
    parent: Option<ProcessId>,
    r: Option<ProcessId>,
) -> bool {
    &&& post.current() == pre.current()
    &&& post.init_fds() == pre.init_fds()
    &&& post.stack_pool() == pre.stack_pool()
    &&& match first_free(pre.slots()) {
        None => {
            &&& r is None
            &&& post.slots() == pre.slots()
            &&& post.queue() == pre.queue()
            &&& post.spec_next_pid() == pre.spec_next_pid()
        },
        Some(i) => {
            &&& r == Some(ProcessId(pre.spec_next_pid()))
            &&& post.spec_next_pid() == if pre.spec_next_pid() == u32::MAX {
                1u32
            } else {
                (pre.spec_next_pid() + 1) as u32
            }
            &&& post.queue() == pre.queue().push(i as usize)
            &&& post.slots().len() == 64
            &&& forall|j: int| 0 <= j < 64 && j != i ==> post.slots()[j] == pre.slots()[j]
            &&& post.slots()[i] is Some
            &&& {
                let p = post.slots()[i]->Some_0;
                let resolved = if stack_top == 0 {
                    (pre.stack_pool() + i * STACK_SIZE + STACK_SIZE) as usize
                } else {
                    stack_top
                };
                &&& p.id == ProcessId(pre.spec_next_pid())
                &&& p.name == name
                &&& p.entry == entry
                &&& p.state == ProcessState::Ready
                &&& p.stack_top == resolved
                &&& p.context_sp % 16 == 0
                &&& p.context_sp + TRAP_FRAME_SIZE <= resolved
                &&& resolved - TRAP_FRAME_SIZE - 16 < p.context_sp
                &&& p.running_on == CPU_NONE
                &&& p.in_run_queue
                &&& p.mode == mode
                &&& p.parent == parent
                &&& p.fds@ == inherited_fds(pre.slots(), pre.init_fds(), parent)
                &&& p.ttbr0 == 0
            }
        },
    }
}

/// A queue of distinct occupied slot indices that avoids one free slot
/// cannot be full.
proof fn lemma_queue_not_full(q: Seq<usize>, slots: Seq<Option<Process>>, idx: int)
    requires
        slots.len() == 64,
        0 <= idx < 64,
        slots[idx] is None,
        forall|k: int|
            0 <= k < q.len() ==> (#[trigger] q[k]) < 64 && slots[q[k] as int] is Some,
        forall|k1: int, k2: int| 0 <= k1 < k2 < q.len() ==> (#[trigger] q[k1]) != #[trigger] q[k2],
    ensures
        q.len() < 64,
{
    let qi = q.map_values(|v: usize| v as int);
    assert(qi.no_duplicates()) by {
        assert forall|k1: int, k2: int|
            0 <= k1 < qi.len() && 0 <= k2 < qi.len() && k1 != k2 implies qi[k1] != qi[k2] by {
            if k1 < k2 {
                assert(q[k1] != q[k2]);
            } else {
                assert(q[k2] != q[k1]);
            }
        }
    }
    qi.unique_seq_to_set();
    let s = qi.to_set();
    let range = vstd::set_lib::set_int_range(0, 64).remove(idx);
    vstd::set_lib::lemma_int_range(0, 64);
    assert(s.subset_of(range)) by {
        assert forall|v: int| s.contains(v) implies range.contains(v) by {
            let w = choose|w: int| 0 <= w < qi.len() && qi[w] == v;
            assert(q[w] < 64 && slots[q[w] as int] is Some);
        }
    }
    vstd::set_lib::lemma_len_subset(s, range);
    assert(vstd::set_lib::set_int_range(0, 64).contains(idx));
    assert(range.len() == 63);
}

/// The descriptor in slot `fd` of the process on `cpu`, as the table
/// resolves it.
pub open spec fn spec_get_fd(t: ProcessTable, cpu: int, fd: int) -> Option<FileDesc> {
    if 0 <= fd < 8 && t.current()[cpu] != INVALID_IDX {
        t.slots()[t.current()[cpu] as int]->Some_0.fds@[fd]
    } else {
        None
    }
}

/// The byte count a write through descriptor `fd` of the process on
/// `cpu` transfers: the whole buffer for a writable console
/// descriptor with a console present, nothing otherwise.
pub open spec fn spec_write_count(
    t: ProcessTable,
    cpu: int,
    fd: int,
    len: int,
    console_present: bool,
) -> int {
    match spec_get_fd(t, cpu, fd) {
        Some(d) => if d.flags.write && d.handle == crate::kernel::vfs::FileHandle::DevFb0
            && console_present {
            len
        } else {
            0
        },
        None => 0,
    }
}

/// Component-wise equality of two tables.
pub open spec fn same_table(a: ProcessTable, b: ProcessTable) -> bool {
    &&& a.slots() == b.slots()
    &&& a.queue() == b.queue()
    &&& a.current() == b.current()
    &&& a.spec_next_pid() == b.spec_next_pid()
    &&& a.init_fds() == b.init_fds()
    &&& a.stack_pool() == b.stack_pool()
}

/// Field-for-field equality of two process records.
pub open spec fn process_eq(a: Process, b: Process) -> bool {
    a.id == b.id && a.name == b.name && a.entry == b.entry && a.state == b.state && a.stack_top
        == b.stack_top && a.context_sp == b.context_sp && a.running_on == b.running_on
        && a.in_run_queue == b.in_run_queue && a.mode == b.mode && a.parent == b.parent && a.fds@
        =~= b.fds@ && a.ttbr0 == b.ttbr0
}

/// The slot lists agree except at `i`, whose record is unchanged but
/// for descriptor slot `fd` now holding `v`.
pub open spec fn fds_updated(
    pre: Seq<Option<Process>>,
    post: Seq<Option<Process>>,
    i: int,
    fd: int,
    v: Option<FileDesc>,
) -> bool {
    &&& post.len() == pre.len()
    &&& 0 <= i < pre.len()
    &&& forall|j: int| 0 <= j < pre.len() && j != i ==> post[j] == pre[j]
    &&& post[i] is Some
    &&& pre[i] is Some
    &&& {
        let a = post[i]->Some_0;
        let b = pre[i]->Some_0;
        &&& a.id == b.id
        &&& a.name == b.name
        &&& a.entry == b.entry
        &&& a.state == b.state
        &&& a.stack_top == b.stack_top
        &&& a.context_sp == b.context_sp
        &&& a.running_on == b.running_on
        &&& a.in_run_queue == b.in_run_queue
        &&& a.mode == b.mode
        &&& a.parent == b.parent
        &&& a.ttbr0 == b.ttbr0
        &&& a.fds@ == b.fds@.update(fd, v)
    }
}

/// A field-for-field copy of a process record.
fn copy_process(p: &Process) -> (r: Process)
    requires
        p.fds@.len() == 8,
    ensures
        process_eq(r, *p),
{
    let fds = copy_fds(&p.fds);
    Process {
        id: p.id,
        name: p.name,
        entry: p.entry,
        state: p.state,
        stack_top: p.stack_top,
        context_sp: p.context_sp,
        running_on: p.running_on,
        in_run_queue: p.in_run_queue,
        mode: p.mode,
        parent: p.parent,
        fds,
        ttbr0: p.ttbr0,
    }
}

/// A copy of a descriptor table.
fn copy_fds(fds: &Vec<Option<FileDesc>>) -> (r: Vec<Option<FileDesc>>)
    ensures
        r@ =~= fds@,
{
    let mut out: Vec<Option<FileDesc>> = Vec::new();
    let mut i: usize = 0;
    while i < fds.len()
        invariant
            i <= fds@.len(),
            out@.len() == i,
            forall|j: int| 0 <= j < i ==> out@[j] == fds@[j],
        decreases fds@.len() - i,
    {
        out.push(fds[i]);
        i += 1;
    }
    out
}

} // verus!
