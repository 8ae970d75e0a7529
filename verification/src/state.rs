//! The per-process concurrency state: slot tables for the three primitive
//! kinds, the thread table, and the detector block, together with the
//! well-formedness invariant that every entry point preserves.

use vstd::prelude::*;
use crate::detector::{col_total, matv, rect, DetectorBlock};

verus! {

/// What a potentially blocking entry point reports back to the trap layer.
#[derive(Clone, Copy, Debug, PartialEq, Eq, Structural)]
pub enum SysOutcome {
    /// The call completed; the value is its return code.
    Ret(isize),
    /// The caller was placed on a FIFO wait queue and suspended; a later
    /// wake completes its call.
    Blocked,
    /// The caller busy-polls a spinning lock; it yields and retries.
    Spinning,
}

/// Where a thread stands with respect to this subsystem.
#[derive(Clone, Copy, Debug, PartialEq, Eq, Structural)]
pub enum ThreadStatus {
    /// Schedulable; only such a thread can issue a call.
    Runnable,
    /// Suspended on the wait queue of the blocking lock with this id.
    BlockedOnMutex(usize),
    /// Suspended on the wait queue of the semaphore with this id.
    BlockedOnSem(usize),
    /// Suspended on the wait queue of the condition variable with this id.
    BlockedOnCondvar(usize),
    /// Busy-polling the spinning lock with this id; retries until it is free.
    SpinningOnMutex(usize),
    /// Finished with this exit code; reaped by a successful join.
    Exited(i32),
}

/// One thread's control record.
pub struct ThreadState {
    /// Entry address handed to thread creation (opaque to this subsystem).
    pub entry: usize,
    /// Argument word handed to thread creation.
    pub arg: usize,
    pub status: ThreadStatus,
}

/// A lock; the variant is chosen at creation and fixed thereafter.
pub enum MutexState {
    /// Busy-polls an ownership flag; contention never suspends the caller.
    Spin { locked: bool },
    /// Ownership flag plus a FIFO wait queue of suspended thread ids;
    /// unlocking a contended lock hands ownership directly to the head.
    Blocking { locked: bool, wait_queue: Vec<usize> },
}

impl MutexState {
    pub open spec fn locked(self) -> bool {
        match self {
            MutexState::Spin { locked } => locked,
            MutexState::Blocking { locked, .. } => locked,
        }
    }

    pub open spec fn queue(self) -> Seq<usize> {
        match self {
            MutexState::Spin { .. } => Seq::empty(),
            MutexState::Blocking { wait_queue, .. } => wait_queue@,
        }
    }

    pub open spec fn is_blocking(self) -> bool {
        self is Blocking
    }
}

/// A counting semaphore: a counter that goes one below zero per waiter,
/// plus a FIFO wait queue; the capacity is fixed at creation.
pub struct SemaphoreState {
    pub count: isize,
    /// The creation count; the detector's capacity for this slot.
    pub cap: isize,
    pub wait_queue: Vec<usize>,
}

/// A condition variable: a FIFO wait queue only.
pub struct CondvarState {
    pub wait_queue: Vec<usize>,
}

/// Process Concurrency State: one instance per process, mutated only under
/// the process's single metadata guard; each entry point of this crate is
/// one such guarded transition.
pub struct ProcessState {
    /// Lock slot table; handles are indices, stable once issued.
    pub mutexes: Vec<Option<MutexState>>,
    /// Semaphore slot table.
    pub semaphores: Vec<Option<SemaphoreState>>,
    /// Condition-variable slot table.
    pub condvars: Vec<Option<CondvarState>>,
    /// Thread table indexed by thread id; a slot is cleared when the thread
    /// is reaped by a successful join.
    pub tasks: Vec<Option<ThreadState>>,
    /// The Deadlock Detector Block.
    pub detector: DetectorBlock,
}

impl ProcessState {
    /// Row count of the detector matrices: one row per thread id ever
    /// created (reaping never removes a row).
    pub open spec fn rows(self) -> int {
        self.tasks@.len() as int
    }

    pub open spec fn n_mutex(self) -> int {
        self.mutexes@.len() as int
    }

    pub open spec fn n_sem(self) -> int {
        self.semaphores@.len() as int
    }

    pub open spec fn n_cv(self) -> int {
        self.condvars@.len() as int
    }

    pub open spec fn thread_live(self, t: int) -> bool {
        0 <= t < self.rows() && self.tasks@[t] is Some
    }

    pub open spec fn status_of(self, t: int) -> ThreadStatus {
        self.tasks@[t]->Some_0.status
    }

    /// The thread exists and can issue calls.
    pub open spec fn runnable(self, t: int) -> bool {
        self.thread_live(t) && self.status_of(t) == ThreadStatus::Runnable
    }

    pub open spec fn mutex_live(self, r: int) -> bool {
        0 <= r < self.n_mutex() && self.mutexes@[r] is Some
    }

    pub open spec fn mutex_of(self, r: int) -> MutexState {
        self.mutexes@[r]->Some_0
    }

    pub open spec fn sem_live(self, r: int) -> bool {
        0 <= r < self.n_sem() && self.semaphores@[r] is Some
    }

    pub open spec fn sem_of(self, r: int) -> SemaphoreState {
        self.semaphores@[r]->Some_0
    }

    pub open spec fn cv_live(self, r: int) -> bool {
        0 <= r < self.n_cv() && self.condvars@[r] is Some
    }

    pub open spec fn cv_of(self, r: int) -> CondvarState {
        self.condvars@[r]->Some_0
    }

    /// The thread tables agree everywhere but at `t`.
    pub open spec fn tasks_same_except(self, other: ProcessState, t: int) -> bool {
        &&& other.tasks@.len() == self.tasks@.len()
        &&& forall|j: int|
            0 <= j < self.tasks@.len() && j != t ==> other.tasks@[j] == self.tasks@[j]
    }

    /// Capacity conservation: for every live lock, the free capacity plus
    /// all granted units equals 1; for every live semaphore, its creation
    /// count.  Every operation of the subsystem preserves this.
    pub open spec fn capacity_conserved(self) -> bool {
        &&& forall|r: int| #[trigger] self.mutex_live(r) ==> self.detector.available_mutex@[r] as int
            + col_total(self.detector.alloc_m(), r, self.rows()) == 1
        &&& forall|r: int| #[trigger] self.sem_live(r) ==> self.detector.available_sem@[r] as int
            + col_total(self.detector.alloc_s(), r, self.rows()) == self.sem_of(r).cap as int
    }

    /// Outstanding requests are never negative.
    pub open spec fn needs_nonneg(self) -> bool {
        &&& forall|t: int, r: int|
            0 <= t < self.rows() && 0 <= r < self.n_mutex()
                ==> #[trigger] self.detector.need_m()[t][r] >= 0
        &&& forall|t: int, r: int|
            0 <= t < self.rows() && 0 <= r < self.n_sem()
                ==> #[trigger] self.detector.need_s()[t][r] >= 0
    }

    /// The wait queue of a live lock holds distinct, live, blocked threads,
    /// each with a pending request on exactly this lock; a non-empty queue
    /// implies the lock is held.
    pub open spec fn mutex_queue_wf(self, r: int) -> bool {
        let q = self.mutex_of(r).queue();
        &&& (q.len() > 0 ==> self.mutex_of(r).locked())
        &&& (q.len() > 0 ==> self.mutex_of(r).is_blocking())
        &&& forall|i: int|
            0 <= i < q.len() ==> {
                let t = (#[trigger] q[i]) as int;
                &&& self.thread_live(t)
                &&& self.status_of(t) == ThreadStatus::BlockedOnMutex(r as usize)
                &&& self.detector.need_m()[t][r] >= 1
            }
        &&& forall|i: int, j: int| 0 <= i < j < q.len() ==> q[i] != q[j]
    }

    /// A live semaphore's queue length matches its negative count, and the
    /// queued threads are distinct, live, blocked here, with pending
    /// requests.
    pub open spec fn sem_wf(self, r: int) -> bool {
        let s = self.sem_of(r);
        let q = s.wait_queue@;
        &&& s.cap >= 0
        &&& (s.count < 0 ==> q.len() == -(s.count as int))
        &&& (s.count >= 0 ==> q.len() == 0)
        &&& forall|i: int|
            0 <= i < q.len() ==> {
                let t = (#[trigger] q[i]) as int;
                &&& self.thread_live(t)
                &&& self.status_of(t) == ThreadStatus::BlockedOnSem(r as usize)
                &&& self.detector.need_s()[t][r] >= 1
            }
        &&& forall|i: int, j: int| 0 <= i < j < q.len() ==> q[i] != q[j]
    }

    /// A live condition variable's queue holds distinct, live threads
    /// blocked on it.
    pub open spec fn cv_wf(self, r: int) -> bool {
        let q = self.cv_of(r).wait_queue@;
        &&& forall|i: int|
            0 <= i < q.len() ==> {
                let t = (#[trigger] q[i]) as int;
                &&& self.thread_live(t)
                &&& self.status_of(t) == ThreadStatus::BlockedOnCondvar(r as usize)
            }
        &&& forall|i: int, j: int| 0 <= i < j < q.len() ==> q[i] != q[j]
    }

    /// If thread `t` spins, it spins on a live spinning lock with its
    /// request recorded.
    pub open spec fn spinner_ok(self, t: int) -> bool {
        match self.status_of(t) {
            ThreadStatus::SpinningOnMutex(m) => {
                &&& self.mutex_live(m as int)
                &&& !self.mutex_of(m as int).is_blocking()
                &&& self.detector.need_m()[t][m as int] >= 1
            },
            _ => true,
        }
    }

    /// Every spinning thread spins on a live spinning lock with its request
    /// recorded.
    pub open spec fn spinners_wf(self) -> bool {
        forall|t: int| self.thread_live(t) ==> #[trigger] self.spinner_ok(t)
    }

    /// Machine-limit room for booking thread `t`'s request and grant on
    /// lock `r`.
    pub open spec fn mutex_book_fits(self, t: int, r: int) -> bool {
        &&& self.detector.need_m()[t][r] < isize::MAX
        &&& self.detector.alloc_m()[t][r] < isize::MAX
        &&& self.detector.available_mutex@[r] > isize::MIN
    }

    /// Machine-limit room for booking thread `t`'s request and grant on
    /// semaphore `r`.
    pub open spec fn sem_book_fits(self, t: int, r: int) -> bool {
        &&& self.detector.need_s()[t][r] < isize::MAX
        &&& self.detector.alloc_s()[t][r] < isize::MAX
        &&& self.detector.available_sem@[r] > isize::MIN
    }

    /// Machine-limit room for handing lock `r` to the head of its queue.
    pub open spec fn mutex_handoff_fits(self, r: int) -> bool {
        self.mutex_of(r).queue().len() > 0 ==> {
            &&& self.detector.alloc_m()[self.mutex_of(r).queue()[0] as int][r] < isize::MAX
            &&& self.detector.available_mutex@[r] > isize::MIN
        }
    }

    /// Machine-limit room for handing a unit of semaphore `r` to the head
    /// of its queue.
    pub open spec fn sem_handoff_fits(self, r: int) -> bool {
        self.sem_of(r).wait_queue@.len() > 0 ==> {
            &&& self.detector.alloc_s()[self.sem_of(r).wait_queue@[0] as int][r] < isize::MAX
            &&& self.detector.available_sem@[r] > isize::MIN
        }
    }

    /// Machine-limit room for the caller's release bookkeeping on lock `r`.
    pub open spec fn mutex_release_fits(self, t: int, r: int) -> bool {
        &&& self.detector.alloc_m()[t][r] > isize::MIN
        &&& self.detector.available_mutex@[r] < isize::MAX
    }

    /// Machine-limit room for the caller's release bookkeeping on
    /// semaphore `r`.
    pub open spec fn sem_release_fits(self, t: int, r: int) -> bool {
        &&& self.detector.alloc_s()[t][r] > isize::MIN
        &&& self.detector.available_sem@[r] < isize::MAX
        &&& self.sem_of(r).count < isize::MAX
    }

    /// Well-formedness of the whole process state; established by `new` and
    /// preserved by every entry point.
    pub open spec fn wf(self) -> bool {
        &&& self.detector.shape_ok(self.rows(), self.n_mutex(), self.n_sem())
        &&& self.needs_nonneg()
        &&& self.capacity_conserved()
        &&& forall|r: int| #[trigger] self.mutex_live(r) ==> self.mutex_queue_wf(r)
        &&& forall|r: int| #[trigger] self.sem_live(r) ==> self.sem_wf(r)
        &&& forall|r: int| #[trigger] self.cv_live(r) ==> self.cv_wf(r)
        &&& self.spinners_wf()
    }

    /// A fresh process: no primitives, no threads, detection disabled.
    pub fn new() -> (st: ProcessState)
        ensures
            st.wf(),
            st.rows() == 0,
            st.n_mutex() == 0,
            st.n_sem() == 0,
            st.n_cv() == 0,
            !st.detector.enabled,
    {
        ProcessState {
            mutexes: Vec::new(),
            semaphores: Vec::new(),
            condvars: Vec::new(),
            tasks: Vec::new(),
            detector: DetectorBlock {
                available_mutex: Vec::new(),
                need_mutex: Vec::new(),
                allocation_mutex: Vec::new(),
                available_sem: Vec::new(),
                need_sem: Vec::new(),
                allocation_sem: Vec::new(),
                enabled: false,
            },
        }
    }
}

/// Sets the status of live thread `t`, leaving its other fields and all
/// other slots unchanged.
pub fn set_task_status(tasks: &mut Vec<Option<ThreadState>>, t: usize, s: ThreadStatus)
    requires
        t < old(tasks)@.len(),
        old(tasks)@[t as int] is Some,
    ensures
        final(tasks)@.len() == old(tasks)@.len(),
        final(tasks)@[t as int] is Some,
        final(tasks)@[t as int]->Some_0.status == s,
        final(tasks)@[t as int]->Some_0.entry == old(tasks)@[t as int]->Some_0.entry,
        final(tasks)@[t as int]->Some_0.arg == old(tasks)@[t as int]->Some_0.arg,
        forall|j: int|
            0 <= j < old(tasks)@.len() && j != t ==> final(tasks)@[j] == old(tasks)@[j],
{
    match &mut tasks[t] {
        Some(th) => {
            th.status = s;
        },
        None => {
            proof {
                assert(false);
            }
        },
    }
}

/// Well-formedness does not depend on the detection toggle: a state whose
/// tables and matrices agree with a well-formed one is well-formed.
pub proof fn lemma_wf_preserved_fields(a: ProcessState, b: ProcessState)
    requires
        a.wf(),
        b.mutexes == a.mutexes,
        b.semaphores == a.semaphores,
        b.condvars == a.condvars,
        b.tasks == a.tasks,
        b.detector.available_mutex == a.detector.available_mutex,
        b.detector.need_mutex == a.detector.need_mutex,
        b.detector.allocation_mutex == a.detector.allocation_mutex,
        b.detector.available_sem == a.detector.available_sem,
        b.detector.need_sem == a.detector.need_sem,
        b.detector.allocation_sem == a.detector.allocation_sem,
    ensures
        b.wf(),
{
    assert forall|r: int| #[trigger] b.mutex_live(r) implies b.detector.available_mutex@[r] as int
        + crate::detector::col_total(b.detector.alloc_m(), r, b.rows()) == 1 by {
        assert(a.mutex_live(r));
    }
    assert forall|r: int| #[trigger] b.sem_live(r) implies b.detector.available_sem@[r] as int
        + crate::detector::col_total(b.detector.alloc_s(), r, b.rows()) == b.sem_of(
        r,
    ).cap as int by {
        assert(a.sem_live(r));
    }
    assert forall|r: int| #[trigger] b.mutex_live(r) implies b.mutex_queue_wf(r) by {
        assert(a.mutex_live(r));
        assert(a.mutex_queue_wf(r));
    }
    assert forall|r: int| #[trigger] b.sem_live(r) implies b.sem_wf(r) by {
        assert(a.sem_live(r));
        assert(a.sem_wf(r));
    }
    assert forall|r: int| #[trigger] b.cv_live(r) implies b.cv_wf(r) by {
        assert(a.cv_live(r));
        assert(a.cv_wf(r));
    }
    assert forall|t: int| b.thread_live(t) implies #[trigger] b.spinner_ok(t) by {
        assert(a.thread_live(t));
        assert(a.spinner_ok(t));
    }
}

/// Recording one more unit of need for a runnable thread keeps the state
/// well-formed (lock side).
pub proof fn lemma_wf_need_m_inc(a: ProcessState, b: ProcessState, t: int, r: int, v: isize)
    requires
        a.wf(),
        a.runnable(t),
        0 <= r < a.n_mutex(),
        b.mutexes == a.mutexes,
        b.semaphores == a.semaphores,
        b.condvars == a.condvars,
        b.tasks == a.tasks,
        b.detector.available_mutex == a.detector.available_mutex,
        b.detector.allocation_mutex == a.detector.allocation_mutex,
        b.detector.available_sem == a.detector.available_sem,
        b.detector.need_sem == a.detector.need_sem,
        b.detector.allocation_sem == a.detector.allocation_sem,
        b.detector.need_m() == a.detector.need_m().update(
            t,
            a.detector.need_m()[t].update(r, v),
        ),
        v as int == a.detector.need_m()[t][r] + 1,
    ensures
        b.wf(),
{
    assert(rect(b.detector.need_m(), b.rows(), b.n_mutex()));
    assert forall|t2: int, r2: int|
        0 <= t2 < b.rows() && 0 <= r2 < b.n_mutex() implies #[trigger] b.detector.need_m()[t2][r2]
        >= 0 by {
        assert(a.detector.need_m()[t2][r2] >= 0);
        if t2 == t && r2 == r {
            assert(b.detector.need_m()[t2][r2] == v);
        } else {
            assert(b.detector.need_m()[t2][r2] == a.detector.need_m()[t2][r2]);
        }
    }
    assert forall|r2: int| #[trigger] b.mutex_live(r2) implies b.detector.available_mutex@[r2] as int
        + crate::detector::col_total(b.detector.alloc_m(), r2, b.rows()) == 1 by {
        assert(a.mutex_live(r2));
    }
    assert forall|r2: int| #[trigger] b.sem_live(r2) implies b.detector.available_sem@[r2] as int
        + crate::detector::col_total(b.detector.alloc_s(), r2, b.rows()) == b.sem_of(
        r2,
    ).cap as int by {
        assert(a.sem_live(r2));
    }
    assert forall|r2: int| #[trigger] b.mutex_live(r2) implies b.mutex_queue_wf(r2) by {
        assert(a.mutex_live(r2));
        assert(a.mutex_queue_wf(r2));
        let q = a.mutex_of(r2).queue();
        assert forall|i: int| 0 <= i < q.len() implies q[i] != t by {
            assert(a.status_of(q[i] as int) == ThreadStatus::BlockedOnMutex(r2 as usize));
        }
    }
    assert forall|r2: int| #[trigger] b.sem_live(r2) implies b.sem_wf(r2) by {
        assert(a.sem_live(r2));
        assert(a.sem_wf(r2));
    }
    assert forall|r2: int| #[trigger] b.cv_live(r2) implies b.cv_wf(r2) by {
        assert(a.cv_live(r2));
        assert(a.cv_wf(r2));
    }
    assert forall|t2: int| b.thread_live(t2) implies #[trigger] b.spinner_ok(t2) by {
        assert(a.thread_live(t2));
        assert(a.spinner_ok(t2));
        if t2 == t {
            assert(a.status_of(t) == ThreadStatus::Runnable);
        }
    }
}

/// Recording one more unit of need for a runnable thread keeps the state
/// well-formed (semaphore side).
pub proof fn lemma_wf_need_s_inc(a: ProcessState, b: ProcessState, t: int, r: int, v: isize)
    requires
        a.wf(),
        a.runnable(t),
        0 <= r < a.n_sem(),
        b.mutexes == a.mutexes,
        b.semaphores == a.semaphores,
        b.condvars == a.condvars,
        b.tasks == a.tasks,
        b.detector.available_mutex == a.detector.available_mutex,
        b.detector.need_mutex == a.detector.need_mutex,
        b.detector.allocation_mutex == a.detector.allocation_mutex,
        b.detector.available_sem == a.detector.available_sem,
        b.detector.allocation_sem == a.detector.allocation_sem,
        b.detector.need_s() == a.detector.need_s().update(
            t,
            a.detector.need_s()[t].update(r, v),
        ),
        v as int == a.detector.need_s()[t][r] + 1,
    ensures
        b.wf(),
{
    assert(rect(b.detector.need_s(), b.rows(), b.n_sem()));
    assert forall|t2: int, r2: int|
        0 <= t2 < b.rows() && 0 <= r2 < b.n_sem() implies #[trigger] b.detector.need_s()[t2][r2]
        >= 0 by {
        assert(a.detector.need_s()[t2][r2] >= 0);
        if t2 == t && r2 == r {
            assert(b.detector.need_s()[t2][r2] == v);
        } else {
            assert(b.detector.need_s()[t2][r2] == a.detector.need_s()[t2][r2]);
        }
    }
    assert forall|r2: int| #[trigger] b.mutex_live(r2) implies b.detector.available_mutex@[r2] as int
        + crate::detector::col_total(b.detector.alloc_m(), r2, b.rows()) == 1 by {
        assert(a.mutex_live(r2));
    }
    assert forall|r2: int| #[trigger] b.sem_live(r2) implies b.detector.available_sem@[r2] as int
        + crate::detector::col_total(b.detector.alloc_s(), r2, b.rows()) == b.sem_of(
        r2,
    ).cap as int by {
        assert(a.sem_live(r2));
    }
    assert forall|r2: int| #[trigger] b.mutex_live(r2) implies b.mutex_queue_wf(r2) by {
        assert(a.mutex_live(r2));
        assert(a.mutex_queue_wf(r2));
    }
    assert forall|r2: int| #[trigger] b.sem_live(r2) implies b.sem_wf(r2) by {
        assert(a.sem_live(r2));
        assert(a.sem_wf(r2));
        let q = a.sem_of(r2).wait_queue@;
        assert forall|i: int| 0 <= i < q.len() implies q[i] != t by {
            assert(a.status_of(q[i] as int) == ThreadStatus::BlockedOnSem(r2 as usize));
        }
    }
    assert forall|r2: int| #[trigger] b.cv_live(r2) implies b.cv_wf(r2) by {
        assert(a.cv_live(r2));
        assert(a.cv_wf(r2));
    }
    assert forall|t2: int| b.thread_live(t2) implies #[trigger] b.spinner_ok(t2) by {
        assert(a.thread_live(t2));
        assert(a.spinner_ok(t2));
    }
}

/// Capacity conservation for a lock, stated on its own: at every observed
/// instant, `available[r] + Σ_t allocation[t][r] == 1`.
pub proof fn lemma_capacity_conservation_mutex(st: ProcessState, r: int)
    requires
        st.wf(),
        st.mutex_live(r),
    ensures
        st.detector.available_mutex@[r] as int + col_total(st.detector.alloc_m(), r, st.rows())
            == 1,
{
}

/// Capacity conservation for a semaphore: at every observed instant,
/// `available[r] + Σ_t allocation[t][r] == capacity(r)`, the creation count.
pub proof fn lemma_capacity_conservation_sem(st: ProcessState, r: int)
    requires
        st.wf(),
        st.sem_live(r),
    ensures
        st.detector.available_sem@[r] as int + col_total(st.detector.alloc_s(), r, st.rows())
            == st.sem_of(r).cap as int,
{
}

} // verus!
