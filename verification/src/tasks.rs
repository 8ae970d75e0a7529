//! Thread-lifecycle entry points, and their binding to the detector:
//! thread creation must extend every detector matrix with a zeroed row for
//! the new id; reaping a joined thread clears its table slot but never its
//! detector rows (stale all-zero rows persist by design).

use vstd::prelude::*;
use crate::detector::{col_total, matv};
use crate::state::{set_task_status, ProcessState, ThreadState, ThreadStatus};

verus! {

/// A row of `width` zeroes.
fn zero_row(width: usize) -> (row: Vec<isize>)
    ensures
        row@.len() == width,
        forall|j: int| 0 <= j < width ==> row@[j] == 0,
{
    let mut row: Vec<isize> = Vec::new();
    for i in 0..width
        invariant
            row@.len() == i,
            forall|j: int| 0 <= j < i ==> row@[j] == 0,
    {
        row.push(0);
    }
    row
}

/// Appends a zeroed row for one new thread to the matrix.
fn push_zero_row(m: &mut Vec<Vec<isize>>, width: usize)
    ensures
        final(m)@.len() == old(m)@.len() + 1,
        matv(*final(m)) == matv(*old(m)).push(matv(*final(m))[old(m)@.len() as int]),
        forall|t: int| 0 <= t < old(m)@.len() ==> matv(*final(m))[t] == matv(*old(m))[t],
        matv(*final(m))[old(m)@.len() as int].len() == width,
        forall|j: int| 0 <= j < width ==> matv(*final(m))[old(m)@.len() as int][j] == 0,
        forall|c: int|
            0 <= c ==> #[trigger] col_total(matv(*final(m)), c, old(m)@.len() as int) == col_total(
                matv(*old(m)),
                c,
                old(m)@.len() as int,
            ),
{
    let row = zero_row(width);
    m.push(row);
    proof {
        let n = old(m)@.len() as int;
        assert(matv(*m) =~= matv(*old(m)).push(matv(*m)[n]));
        assert forall|c: int| 0 <= c implies #[trigger] col_total(matv(*m), c, n) == col_total(
            matv(*old(m)),
            c,
            n,
        ) by {
            crate::detector::lemma_col_total_pointwise(matv(*old(m)), matv(*m), c, n);
        }
    }
}

/// Creates a thread: binds the next free id (ids grow monotonically; reaped
/// slots stay cleared), records the entry address and argument word for the
/// trap layer, marks the thread schedulable, and gives every detector
/// matrix a zeroed row for the new id, one entry per existing resource
/// slot of its type.
pub fn sys_thread_create(st: &mut ProcessState, entry: usize, arg: usize) -> (r: isize)
    requires
        old(st).wf(),
        old(st).tasks@.len() < isize::MAX as usize,
    ensures
        final(st).wf(),
        r == old(st).rows(),
        final(st).rows() == old(st).rows() + 1,
        final(st).thread_live(r as int),
        final(st).status_of(r as int) == ThreadStatus::Runnable,
        final(st).tasks@[r as int]->Some_0.entry == entry,
        final(st).tasks@[r as int]->Some_0.arg == arg,
        forall|j: int| 0 <= j < old(st).rows() ==> final(st).tasks@[j] == old(st).tasks@[j],
        forall|c: int|
            0 <= c < old(st).n_mutex() ==> final(st).detector.need_m()[r as int][c] == 0 && final(st).detector.alloc_m()[r as int][c] == 0,
        forall|c: int|
            0 <= c < old(st).n_sem() ==> final(st).detector.need_s()[r as int][c] == 0 && final(st).detector.alloc_s()[r as int][c] == 0,
        forall|t: int|
            0 <= t < old(st).rows() ==> final(st).detector.need_m()[t] == old(st).detector.need_m()[t] && final(st).detector.alloc_m()[t] == old(st).detector.alloc_m()[t] && final(st).detector.need_s()[t] == old(st).detector.need_s()[t] && final(st).detector.alloc_s()[t] == old(st).detector.alloc_s()[t],
        final(st).mutexes == old(st).mutexes,
        final(st).semaphores == old(st).semaphores,
        final(st).condvars == old(st).condvars,
        final(st).detector.available_mutex == old(st).detector.available_mutex,
        final(st).detector.available_sem == old(st).detector.available_sem,
        final(st).detector.enabled == old(st).detector.enabled,
{
    let tid = st.tasks.len();
    let n_mutex = st.detector.available_mutex.len();
    let n_sem = st.detector.available_sem.len();
    st.tasks.push(
        Some(ThreadState { entry, arg, status: ThreadStatus::Runnable }),
    );
    push_zero_row(&mut st.detector.need_mutex, n_mutex);
    push_zero_row(&mut st.detector.allocation_mutex, n_mutex);
    push_zero_row(&mut st.detector.need_sem, n_sem);
    push_zero_row(&mut st.detector.allocation_sem, n_sem);
    proof {
        let a = *old(st);
        let b = *st;
        let ti = tid as int;
        assert forall|t2: int, r2: int|
            0 <= t2 < b.rows() && 0 <= r2 < b.n_mutex() implies #[trigger] b.detector.need_m()[t2][
            r2
        ] >= 0 by {
            if t2 < ti {
                assert(a.detector.need_m()[t2][r2] >= 0);
            }
        }
        assert forall|t2: int, r2: int|
            0 <= t2 < b.rows() && 0 <= r2 < b.n_sem() implies #[trigger] b.detector.need_s()[t2][
            r2
        ] >= 0 by {
            if t2 < ti {
                assert(a.detector.need_s()[t2][r2] >= 0);
            }
        }
        assert forall|r2: int| #[trigger] b.mutex_live(r2) implies b.detector.available_mutex@[
            r2
        ] as int + col_total(b.detector.alloc_m(), r2, b.rows()) == 1 by {
            assert(a.mutex_live(r2));
            assert(col_total(b.detector.alloc_m(), r2, ti) == col_total(
                a.detector.alloc_m(),
                r2,
                ti,
            ));
            assert(col_total(b.detector.alloc_m(), r2, ti + 1) == col_total(
                b.detector.alloc_m(),
                r2,
                ti,
            ) + b.detector.alloc_m()[ti][r2]);
            assert(b.detector.alloc_m()[ti][r2] == 0);
        }
        assert forall|r2: int| #[trigger] b.sem_live(r2) implies b.detector.available_sem@[
            r2
        ] as int + col_total(b.detector.alloc_s(), r2, b.rows()) == b.sem_of(r2).cap as int by {
            assert(a.sem_live(r2));
            assert(col_total(b.detector.alloc_s(), r2, ti) == col_total(
                a.detector.alloc_s(),
                r2,
                ti,
            ));
            assert(col_total(b.detector.alloc_s(), r2, ti + 1) == col_total(
                b.detector.alloc_s(),
                r2,
                ti,
            ) + b.detector.alloc_s()[ti][r2]);
            assert(b.detector.alloc_s()[ti][r2] == 0);
        }
        assert forall|r2: int| #[trigger] b.mutex_live(r2) implies b.mutex_queue_wf(r2) by {
            assert(a.mutex_live(r2));
            assert(a.mutex_queue_wf(r2));
        }
        assert forall|r2: int| #[trigger] b.sem_live(r2) implies b.sem_wf(r2) by {
            assert(a.sem_live(r2));
            assert(a.sem_wf(r2));
        }
        assert forall|r2: int| #[trigger] b.cv_live(r2) implies b.cv_wf(r2) by {
            assert(a.cv_live(r2));
            assert(a.cv_wf(r2));
        }
        assert forall|t2: int| b.thread_live(t2) implies #[trigger] b.spinner_ok(t2) by {
            if t2 < ti {
                assert(a.thread_live(t2));
                assert(a.spinner_ok(t2));
            }
        }
    }
    tid as isize
}

/// The calling thread's own id, as the trap layer reports it.
pub fn sys_gettid(st: &ProcessState, tid: usize) -> (r: isize)
    requires
        st.wf(),
        st.runnable(tid as int),
        tid <= isize::MAX as usize,
    ensures
        r == tid as isize,
        r >= 0,
{
    tid as isize
}

/// Records the terminal exit code of a finishing thread; the thread stops
/// being schedulable, and its table slot persists until a join reaps it.
pub fn thread_exit(st: &mut ProcessState, tid: usize, exit_code: i32)
    requires
        old(st).wf(),
        old(st).runnable(tid as int),
    ensures
        final(st).wf(),
        final(st).thread_live(tid as int),
        final(st).status_of(tid as int) == ThreadStatus::Exited(exit_code),
        old(st).tasks_same_except(*final(st), tid as int),
        final(st).mutexes == old(st).mutexes,
        final(st).semaphores == old(st).semaphores,
        final(st).condvars == old(st).condvars,
        final(st).detector == old(st).detector,
{
    set_task_status(&mut st.tasks, tid, ThreadStatus::Exited(exit_code));
    proof {
        let a = *old(st);
        let b = *st;
        assert forall|r2: int| #[trigger] b.mutex_live(r2) implies b.detector.available_mutex@[
            r2
        ] as int + col_total(b.detector.alloc_m(), r2, b.rows()) == 1 by {
            assert(a.mutex_live(r2));
        }
        assert forall|r2: int| #[trigger] b.sem_live(r2) implies b.detector.available_sem@[
            r2
        ] as int + col_total(b.detector.alloc_s(), r2, b.rows()) == b.sem_of(r2).cap as int by {
            assert(a.sem_live(r2));
        }
        assert forall|r2: int| #[trigger] b.mutex_live(r2) implies b.mutex_queue_wf(r2) by {
            assert(a.mutex_live(r2));
            assert(a.mutex_queue_wf(r2));
            let q = a.mutex_of(r2).queue();
            assert forall|i: int| 0 <= i < q.len() implies q[i] != tid by {
                assert(a.status_of(q[i] as int) == ThreadStatus::BlockedOnMutex(r2 as usize));
            }
        }
        assert forall|r2: int| #[trigger] b.sem_live(r2) implies b.sem_wf(r2) by {
            assert(a.sem_live(r2));
            assert(a.sem_wf(r2));
            let q = a.sem_of(r2).wait_queue@;
            assert forall|i: int| 0 <= i < q.len() implies q[i] != tid by {
                assert(a.status_of(q[i] as int) == ThreadStatus::BlockedOnSem(r2 as usize));
            }
        }
        assert forall|r2: int| #[trigger] b.cv_live(r2) implies b.cv_wf(r2) by {
            assert(a.cv_live(r2));
            assert(a.cv_wf(r2));
            let q = a.cv_of(r2).wait_queue@;
            assert forall|i: int| 0 <= i < q.len() implies q[i] != tid by {
                assert(a.status_of(q[i] as int) == ThreadStatus::BlockedOnCondvar(r2 as usize));
            }
        }
        assert forall|t2: int| b.thread_live(t2) implies #[trigger] b.spinner_ok(t2) by {
            assert(a.thread_live(t2));
            assert(a.spinner_ok(t2));
        }
    }
}

/// Join: a self-wait or an unbound id is rejected with -1; a live target
/// that has not recorded its exit code yet reports -2 (transient; the
/// caller retries); an exited target yields its exit code exactly once —
/// the slot is cleared, so a second join reports -1.  The reaped thread's
/// detector rows are not cleared.
pub fn sys_waittid(st: &mut ProcessState, tid: usize, target: usize) -> (r: i32)
    requires
        old(st).wf(),
        old(st).runnable(tid as int),
    ensures
        final(st).wf(),
        target == tid ==> r == -1 && *final(st) == *old(st),
        target != tid && !old(st).thread_live(target as int) ==> r == -1 && *final(st) == *old(st),
        target != tid && old(st).thread_live(target as int) && !(old(st).status_of(
            target as int,
        ) is Exited) ==> r == -2 && *final(st) == *old(st),
        target != tid && old(st).thread_live(target as int) && old(st).status_of(target as int)
            is Exited ==> {
            &&& r == old(st).status_of(target as int)->Exited_0
            &&& final(st).tasks@[target as int] is None
            &&& old(st).tasks_same_except(*final(st), target as int)
            &&& final(st).mutexes == old(st).mutexes
            &&& final(st).semaphores == old(st).semaphores
            &&& final(st).condvars == old(st).condvars
            &&& final(st).detector == old(st).detector
        },
{
    if target == tid {
        return -1;
    }
    if target >= st.tasks.len() {
        return -1;
    }
    let exited: Option<i32> = match &st.tasks[target] {
        Some(th) => match th.status {
            ThreadStatus::Exited(code) => Some(code),
            _ => None,
        },
        None => {
            return -1;
        },
    };
    match exited {
        Some(code) => {
            st.tasks.set(target, None);
            proof {
                let a = *old(st);
                let b = *st;
                assert forall|r2: int| #[trigger] b.mutex_live(r2)
                    implies b.detector.available_mutex@[r2] as int + col_total(
                    b.detector.alloc_m(),
                    r2,
                    b.rows(),
                ) == 1 by {
                    assert(a.mutex_live(r2));
                }
                assert forall|r2: int| #[trigger] b.sem_live(r2) implies b.detector.available_sem@[
                    r2
                ] as int + col_total(b.detector.alloc_s(), r2, b.rows()) == b.sem_of(
                    r2,
                ).cap as int by {
                    assert(a.sem_live(r2));
                }
                assert forall|r2: int| #[trigger] b.mutex_live(r2) implies b.mutex_queue_wf(
                    r2,
                ) by {
                    assert(a.mutex_live(r2));
                    assert(a.mutex_queue_wf(r2));
                    let q = a.mutex_of(r2).queue();
                    assert forall|i: int| 0 <= i < q.len() implies q[i] != target by {
                        assert(a.status_of(q[i] as int) == ThreadStatus::BlockedOnMutex(
                            r2 as usize,
                        ));
                    }
                }
                assert forall|r2: int| #[trigger] b.sem_live(r2) implies b.sem_wf(r2) by {
                    assert(a.sem_live(r2));
                    assert(a.sem_wf(r2));
                    let q = a.sem_of(r2).wait_queue@;
                    assert forall|i: int| 0 <= i < q.len() implies q[i] != target by {
                        assert(a.status_of(q[i] as int) == ThreadStatus::BlockedOnSem(
                            r2 as usize,
                        ));
                    }
                }
                assert forall|r2: int| #[trigger] b.cv_live(r2) implies b.cv_wf(r2) by {
                    assert(a.cv_live(r2));
                    assert(a.cv_wf(r2));
                    let q = a.cv_of(r2).wait_queue@;
                    assert forall|i: int| 0 <= i < q.len() implies q[i] != target by {
                        assert(a.status_of(q[i] as int) == ThreadStatus::BlockedOnCondvar(
                            r2 as usize,
                        ));
                    }
                }
                assert forall|t2: int| b.thread_live(t2) implies #[trigger] b.spinner_ok(t2) by {
                    assert(a.thread_live(t2));
                    assert(a.spinner_ok(t2));
                }
            }
            code
        },
        None => -2,
    }
}

} // verus!
