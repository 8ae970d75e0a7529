//! Entry points for locks, semaphores, condition variables and the
//! deadlock-detection toggle.  Each takes the process state and, where the
//! operation books against the detector, the calling thread id, and
//! performs one transition under the process's metadata guard.

use vstd::prelude::*;
use crate::registry::alloc_slot;
use crate::state::{
    lemma_wf_need_m_inc, lemma_wf_need_s_inc, lemma_wf_preserved_fields, set_task_status,
    CondvarState, MutexState, ProcessState, SemaphoreState, SysOutcome, ThreadStatus,
};

verus! {

/// The deadlock-refusal sentinel, `-0xDEAD`.
pub const DEADLOCK_SENTINEL: isize = -0xDEAD;

/// Result code for a handle that names no live primitive.  Referencing a
/// handle that was never created is a caller error, reported as a
/// recoverable result code rather than a fault.
pub const NO_SUCH_RESOURCE: isize = -1;

/// Computes the wake-up instant of a timed sleep: the caller's trap layer
/// registers a timer for the result, suspends the thread, and reports 0
/// when the timer fires.
pub fn sys_sleep(now_ms: usize, ms: usize) -> (expire_ms: usize)
    requires
        now_ms + ms <= usize::MAX,
    ensures
        expire_ms == now_ms + ms,
{
    now_ms + ms
}

/// Turns deadlock detection on (`flag == 1`) or off (`flag == 0`); any
/// other flag is rejected with -1 and changes nothing.
pub fn sys_enable_deadlock_detect(st: &mut ProcessState, flag: usize) -> (r: isize)
    requires
        old(st).wf(),
    ensures
        final(st).wf(),
        flag == 1 ==> r == 0 && final(st).detector.enabled,
        flag == 0 ==> r == 0 && !final(st).detector.enabled,
        flag != 0 && flag != 1 ==> r == -1 && final(st).detector.enabled == old(st).detector.enabled,
        final(st).mutexes == old(st).mutexes,
        final(st).semaphores == old(st).semaphores,
        final(st).condvars == old(st).condvars,
        final(st).tasks == old(st).tasks,
        final(st).detector.available_mutex == old(st).detector.available_mutex,
        final(st).detector.need_mutex == old(st).detector.need_mutex,
        final(st).detector.allocation_mutex == old(st).detector.allocation_mutex,
        final(st).detector.available_sem == old(st).detector.available_sem,
        final(st).detector.need_sem == old(st).detector.need_sem,
        final(st).detector.allocation_sem == old(st).detector.allocation_sem,
{
    if flag == 1 {
        st.detector.enabled = true;
        proof {
            lemma_wf_preserved_fields(*old(st), *st);
        }
        0
    } else if flag == 0 {
        st.detector.enabled = false;
        proof {
            lemma_wf_preserved_fields(*old(st), *st);
        }
        0
    } else {
        -1
    }
}

/// Creates a lock — blocking (FIFO wait queue) or spinning, fixed for its
/// lifetime — installs it in the first free slot or a new one, and gives
/// every existing thread row a zeroed detector column with capacity 1.
pub fn sys_mutex_create(st: &mut ProcessState, blocking: bool) -> (r: isize)
    requires
        old(st).wf(),
        old(st).mutexes@.len() < isize::MAX as usize,
    ensures
        final(st).wf(),
        r >= 0,
        ({
            let id = r as int;
            &&& id <= old(st).n_mutex()
            &&& final(st).mutex_live(id)
            &&& final(st).mutex_of(id).is_blocking() == blocking
            &&& !final(st).mutex_of(id).locked()
            &&& final(st).mutex_of(id).queue().len() == 0
            &&& final(st).detector.available_mutex@[id] == 1
            &&& (forall|t: int|
                0 <= t < final(st).rows() ==> final(st).detector.need_m()[t][id] == 0 && final(st).detector.alloc_m()[t][id] == 0)
            &&& (forall|j: int| 0 <= j < id ==> old(st).mutexes@[j] is Some)
            &&& (id < old(st).n_mutex() ==> old(st).mutexes@[id] is None && final(st).n_mutex()
                == old(st).n_mutex())
            &&& (id == old(st).n_mutex() ==> final(st).n_mutex() == old(st).n_mutex() + 1)
            &&& (forall|j: int|
                0 <= j < old(st).n_mutex() && j != id ==> final(st).mutexes@[j] == old(st).mutexes@[j])
            &&& (forall|t: int, c: int|
                0 <= t < old(st).rows() && 0 <= c < old(st).n_mutex() && c != id ==> final(st).detector.need_m()[t][c] == old(st).detector.need_m()[t][c] && final(st).detector.alloc_m()[t][c] == old(st).detector.alloc_m()[t][c])
            &&& (forall|c: int|
                0 <= c < old(st).n_mutex() && c != id ==> final(st).detector.available_mutex@[c]
                    == old(st).detector.available_mutex@[c])
        }),
        final(st).semaphores == old(st).semaphores,
        final(st).condvars == old(st).condvars,
        final(st).tasks == old(st).tasks,
        final(st).detector.available_sem == old(st).detector.available_sem,
        final(st).detector.need_sem == old(st).detector.need_sem,
        final(st).detector.allocation_sem == old(st).detector.allocation_sem,
        final(st).detector.enabled == old(st).detector.enabled,
{
    let rows = st.tasks.len();
    let m = if blocking {
        MutexState::Blocking { locked: false, wait_queue: Vec::new() }
    } else {
        MutexState::Spin { locked: false }
    };
    let id = alloc_slot(&mut st.mutexes, m);
    crate::detector::grow_column(
        &mut st.detector.available_mutex,
        &mut st.detector.need_mutex,
        &mut st.detector.allocation_mutex,
        id,
        1,
        rows,
    );
    proof {
        let a = *old(st);
        let b = *st;
        let idi = id as int;
        assert forall|t: int, c: int|
            0 <= t < b.rows() && 0 <= c < b.n_mutex() implies #[trigger] b.detector.need_m()[t][c]
            >= 0 by {
            if c != idi {
                assert(a.detector.need_m()[t][c] >= 0);
            }
        }
        assert forall|r: int| #[trigger] b.mutex_live(r) implies b.detector.available_mutex@[r] as int
            + crate::detector::col_total(b.detector.alloc_m(), r, b.rows()) == 1 by {
            if r != idi {
                assert(a.mutex_live(r));
            }
        }
        assert forall|r: int| #[trigger] b.sem_live(r) implies b.detector.available_sem@[r] as int
            + crate::detector::col_total(b.detector.alloc_s(), r, b.rows()) == b.sem_of(
            r,
        ).cap as int by {
            assert(a.sem_live(r));
        }
        assert forall|r: int| #[trigger] b.mutex_live(r) implies b.mutex_queue_wf(r) by {
            if r != idi {
                assert(a.mutex_live(r));
                assert(a.mutex_queue_wf(r));
            }
        }
        assert forall|r: int| #[trigger] b.sem_live(r) implies b.sem_wf(r) by {
            assert(a.sem_live(r));
            assert(a.sem_wf(r));
        }
        assert forall|r: int| #[trigger] b.cv_live(r) implies b.cv_wf(r) by {
            assert(a.cv_live(r));
            assert(a.cv_wf(r));
        }
        assert forall|t: int| b.thread_live(t) implies #[trigger] b.spinner_ok(t) by {
            assert(a.thread_live(t));
            assert(a.spinner_ok(t));
        }
    }
    id as isize
}

/// The primitive-level release of a lock: hands ownership directly to the
/// head of the wait queue — waking it, completing its pending acquisition
/// and booking its grant — or marks the lock free when nobody waits.  The
/// caller's own release bookkeeping, where the design performs it, is
/// separate.
fn release_and_handoff(st: &mut ProcessState, mutex_id: usize) -> (w: Option<usize>)
    requires
        old(st).wf(),
        old(st).mutex_live(mutex_id as int),
        old(st).mutex_handoff_fits(mutex_id as int),
    ensures
        final(st).wf(),
        ({
            let mid = mutex_id as int;
            let q = old(st).mutex_of(mid).queue();
            &&& final(st).mutex_live(mid)
            &&& final(st).mutex_of(mid).is_blocking() == old(st).mutex_of(mid).is_blocking()
            &&& (q.len() == 0 ==> {
                &&& w is None
                &&& !final(st).mutex_of(mid).locked()
                &&& final(st).mutex_of(mid).queue().len() == 0
                &&& final(st).tasks == old(st).tasks
                &&& final(st).detector.available_mutex == old(st).detector.available_mutex
                &&& final(st).detector.need_mutex == old(st).detector.need_mutex
                &&& final(st).detector.allocation_mutex == old(st).detector.allocation_mutex
            })
            &&& (q.len() > 0 ==> {
                let h = q[0] as int;
                &&& w == Some(q[0])
                &&& final(st).mutex_of(mid).locked()
                &&& final(st).mutex_of(mid).queue() == q.drop_first()
                &&& final(st).runnable(h)
                &&& old(st).tasks_same_except(*final(st), h)
                &&& final(st).detector.need_m() == old(st).detector.need_m().update(
                    h,
                    old(st).detector.need_m()[h].update(
                        mid,
                        (old(st).detector.need_m()[h][mid] - 1) as isize,
                    ),
                )
                &&& final(st).detector.alloc_m() == old(st).detector.alloc_m().update(
                    h,
                    old(st).detector.alloc_m()[h].update(
                        mid,
                        (old(st).detector.alloc_m()[h][mid] + 1) as isize,
                    ),
                )
                &&& final(st).detector.available_mutex@ == old(
                    st,
                ).detector.available_mutex@.update(
                    mid,
                    (old(st).detector.available_mutex@[mid] - 1) as isize,
                )
            })
            &&& (forall|j: int|
                0 <= j < old(st).n_mutex() && j != mid ==> final(st).mutexes@[j] == old(
                    st,
                ).mutexes@[j])
            &&& final(st).n_mutex() == old(st).n_mutex()
            &&& final(st).semaphores == old(st).semaphores
            &&& final(st).condvars == old(st).condvars
            &&& final(st).detector.available_sem == old(st).detector.available_sem
            &&& final(st).detector.need_sem == old(st).detector.need_sem
            &&& final(st).detector.allocation_sem == old(st).detector.allocation_sem
            &&& final(st).detector.enabled == old(st).detector.enabled
        }),
{
    let has_waiter = match &st.mutexes[mutex_id] {
        Some(MutexState::Blocking { wait_queue, .. }) => wait_queue.len() > 0,
        Some(MutexState::Spin { .. }) => false,
        None => {
            proof {
                assert(false);
            }
            false
        },
    };
    if has_waiter {
        proof {
            assert(old(st).mutex_queue_wf(mutex_id as int));
        }
        let h = match &mut st.mutexes[mutex_id] {
            Some(MutexState::Blocking { wait_queue, .. }) => wait_queue.remove(0),
            _ => {
                proof {
                    assert(false);
                }
                0
            },
        };
        proof {
            assert(h == old(st).mutex_of(mutex_id as int).queue()[0]);
            assert(old(st).thread_live(h as int));
            assert(st.mutexes@[mutex_id as int]->Some_0.queue() =~= old(st).mutex_of(
                mutex_id as int,
            ).queue().drop_first());
        }
        set_task_status(&mut st.tasks, h, ThreadStatus::Runnable);
        proof {
            assert(st.detector.need_mutex@[h as int]@ == st.detector.need_m()[h as int]);
            assert(st.detector.allocation_mutex@[h as int]@ == st.detector.alloc_m()[h as int]);
            assert(old(st).detector.need_m()[h as int][mutex_id as int] >= 1);
        }
        crate::detector::book_grant(
            &mut st.detector.need_mutex,
            &mut st.detector.allocation_mutex,
            &mut st.detector.available_mutex,
            h,
            mutex_id,
        );
        proof {
            let a = *old(st);
            let b = *st;
            let mid = mutex_id as int;
            let hi = h as int;
            let q = a.mutex_of(mid).queue();
            assert(a.mutex_live(mid));
            assert(a.mutex_queue_wf(mid));
            assert(a.status_of(hi) == ThreadStatus::BlockedOnMutex(mutex_id));
            assert forall|t2: int, r2: int|
                0 <= t2 < b.rows() && 0 <= r2 < b.n_mutex() implies #[trigger] b.detector.need_m()[
                t2
            ][r2] >= 0 by {
                assert(a.detector.need_m()[t2][r2] >= 0);
            }
            assert forall|r2: int| #[trigger] b.mutex_live(r2)
                implies b.detector.available_mutex@[r2] as int + crate::detector::col_total(
                b.detector.alloc_m(),
                r2,
                b.rows(),
            ) == 1 by {
                assert(a.mutex_live(r2));
            }
            assert forall|r2: int| #[trigger] b.sem_live(r2) implies b.detector.available_sem@[
                r2
            ] as int + crate::detector::col_total(b.detector.alloc_s(), r2, b.rows()) == b.sem_of(
                r2,
            ).cap as int by {
                assert(a.sem_live(r2));
            }
            assert forall|r2: int| #[trigger] b.mutex_live(r2) implies b.mutex_queue_wf(r2) by {
                assert(a.mutex_live(r2));
                assert(a.mutex_queue_wf(r2));
                if r2 == mid {
                    assert forall|i: int| 0 <= i < q.drop_first().len() implies q.drop_first()[i]
                        != h by {
                        assert(q.drop_first()[i] == q[i + 1]);
                    }
                } else {
                    let q2 = a.mutex_of(r2).queue();
                    assert forall|i: int| 0 <= i < q2.len() implies q2[i] != h by {
                        assert(a.status_of(q2[i] as int) == ThreadStatus::BlockedOnMutex(
                            r2 as usize,
                        ));
                        if q2[i] == h {
                            assert(r2 as usize == mutex_id);
                            assert(0 <= r2 < a.mutexes@.len());
                            assert(a.mutexes.len() == a.mutexes@.len());
                            assert(a.mutexes@.len() <= usize::MAX);
                            assert(r2 == mid);
                            assert(false);
                        }
                    }
                }
            }
            assert forall|r2: int| #[trigger] b.sem_live(r2) implies b.sem_wf(r2) by {
                assert(a.sem_live(r2));
                assert(a.sem_wf(r2));
                let q2 = a.sem_of(r2).wait_queue@;
                assert forall|i: int| 0 <= i < q2.len() implies q2[i] != h by {
                    assert(a.status_of(q2[i] as int) == ThreadStatus::BlockedOnSem(r2 as usize));
                }
            }
            assert forall|r2: int| #[trigger] b.cv_live(r2) implies b.cv_wf(r2) by {
                assert(a.cv_live(r2));
                assert(a.cv_wf(r2));
                let q2 = a.cv_of(r2).wait_queue@;
                assert forall|i: int| 0 <= i < q2.len() implies q2[i] != h by {
                    assert(a.status_of(q2[i] as int) == ThreadStatus::BlockedOnCondvar(
                        r2 as usize,
                    ));
                }
            }
            assert forall|t2: int| b.thread_live(t2) implies #[trigger] b.spinner_ok(t2) by {
                assert(a.thread_live(t2));
                assert(a.spinner_ok(t2));
            }
        }
        Some(h)
    } else {
        match &mut st.mutexes[mutex_id] {
            Some(MutexState::Blocking { locked, .. }) => {
                *locked = false;
            },
            Some(MutexState::Spin { locked }) => {
                *locked = false;
            },
            None => {
                proof {
                    assert(false);
                }
            },
        }
        proof {
            let a = *old(st);
            let b = *st;
            let mid = mutex_id as int;
            assert forall|r2: int| #[trigger] b.mutex_live(r2)
                implies b.detector.available_mutex@[r2] as int + crate::detector::col_total(
                b.detector.alloc_m(),
                r2,
                b.rows(),
            ) == 1 by {
                assert(a.mutex_live(r2));
            }
            assert forall|r2: int| #[trigger] b.sem_live(r2) implies b.detector.available_sem@[
                r2
            ] as int + crate::detector::col_total(b.detector.alloc_s(), r2, b.rows()) == b.sem_of(
                r2,
            ).cap as int by {
                assert(a.sem_live(r2));
            }
            assert forall|r2: int| #[trigger] b.mutex_live(r2) implies b.mutex_queue_wf(r2) by {
                assert(a.mutex_live(r2));
                assert(a.mutex_queue_wf(r2));
            }
            assert forall|r2: int| #[trigger] b.sem_live(r2) implies b.sem_wf(r2) by {
                assert(a.sem_live(r2));
                assert(a.sem_wf(r2));
            }
            assert forall|r2: int| #[trigger] b.cv_live(r2) implies b.cv_wf(r2) by {
                assert(a.cv_live(r2));
                assert(a.cv_wf(r2));
            }
            assert forall|t2: int| b.thread_live(t2) implies #[trigger] b.spinner_ok(t2) by {
                assert(a.thread_live(t2));
                assert(a.spinner_ok(t2));
            }
        }
        None
    }
}

/// The lock-release path: the primitive's release runs first — handing the
/// lock to the head of the queue and waking it, or marking the lock free —
/// then the caller's bookkeeping, `allocation[tid][id] -= 1` and
/// `available[id] += 1`, runs under the metadata guard.
pub fn sys_mutex_unlock(st: &mut ProcessState, tid: usize, mutex_id: usize) -> (r: isize)
    requires
        old(st).wf(),
        old(st).runnable(tid as int),
        old(st).mutex_live(mutex_id as int) ==> old(st).mutex_release_fits(
            tid as int,
            mutex_id as int,
        ) && old(st).mutex_handoff_fits(mutex_id as int),
    ensures
        final(st).wf(),
        !old(st).mutex_live(mutex_id as int) ==> r == NO_SUCH_RESOURCE && *final(st) == *old(st),
        old(st).mutex_live(mutex_id as int) ==> ({
            let mid = mutex_id as int;
            let ti = tid as int;
            let q = old(st).mutex_of(mid).queue();
            &&& r == 0
            &&& final(st).mutex_live(mid)
            &&& final(st).mutex_of(mid).is_blocking() == old(st).mutex_of(mid).is_blocking()
            &&& (q.len() == 0 ==> {
                &&& !final(st).mutex_of(mid).locked()
                &&& final(st).mutex_of(mid).queue().len() == 0
                &&& final(st).tasks == old(st).tasks
                &&& final(st).detector.need_mutex == old(st).detector.need_mutex
                &&& final(st).detector.alloc_m() == old(st).detector.alloc_m().update(
                    ti,
                    old(st).detector.alloc_m()[ti].update(
                        mid,
                        (old(st).detector.alloc_m()[ti][mid] - 1) as isize,
                    ),
                )
                &&& final(st).detector.available_mutex@ == old(
                    st,
                ).detector.available_mutex@.update(
                    mid,
                    (old(st).detector.available_mutex@[mid] + 1) as isize,
                )
            })
            &&& (q.len() > 0 ==> {
                let h = q[0] as int;
                &&& final(st).mutex_of(mid).locked()
                &&& final(st).mutex_of(mid).queue() == q.drop_first()
                &&& final(st).runnable(h)
                &&& old(st).tasks_same_except(*final(st), h)
                &&& final(st).detector.need_m() == old(st).detector.need_m().update(
                    h,
                    old(st).detector.need_m()[h].update(
                        mid,
                        (old(st).detector.need_m()[h][mid] - 1) as isize,
                    ),
                )
                &&& final(st).detector.alloc_m()[h][mid] == old(st).detector.alloc_m()[h][mid] + 1
                &&& final(st).detector.alloc_m()[ti][mid] == old(st).detector.alloc_m()[ti][mid]
                    - 1
                &&& (forall|t2: int, c2: int|
                    0 <= t2 < old(st).rows() && 0 <= c2 < old(st).n_mutex() && !(t2 == h && c2
                        == mid) && !(t2 == ti && c2 == mid) ==> final(st).detector.alloc_m()[t2][
                        c2
                    ] == old(st).detector.alloc_m()[t2][c2])
                &&& final(st).detector.available_mutex@ == old(st).detector.available_mutex@
            })
            &&& (forall|j: int|
                0 <= j < old(st).n_mutex() && j != mid ==> final(st).mutexes@[j] == old(
                    st,
                ).mutexes@[j])
            &&& final(st).n_mutex() == old(st).n_mutex()
            &&& final(st).semaphores == old(st).semaphores
            &&& final(st).condvars == old(st).condvars
            &&& final(st).detector.available_sem == old(st).detector.available_sem
            &&& final(st).detector.need_sem == old(st).detector.need_sem
            &&& final(st).detector.allocation_sem == old(st).detector.allocation_sem
            &&& final(st).detector.enabled == old(st).detector.enabled
        }),
{
    if mutex_id >= st.mutexes.len() {
        return NO_SUCH_RESOURCE;
    }
    if st.mutexes[mutex_id].is_none() {
        return NO_SUCH_RESOURCE;
    }
    let ghost a = *old(st);
    let ghost hq = old(st).mutex_of(mutex_id as int).queue();
    let w = release_and_handoff(st, mutex_id);
    let ghost st1 = *st;
    proof {
        assert(st.detector.allocation_mutex@[tid as int]@ == st.detector.alloc_m()[tid as int]);
        if hq.len() > 0 {
            assert(hq[0] as int != tid as int) by {
                assert(a.mutex_live(mutex_id as int));
                assert(a.mutex_queue_wf(mutex_id as int));
                assert(a.status_of(hq[0] as int) == ThreadStatus::BlockedOnMutex(mutex_id));
            }
            assert(st1.detector.alloc_m()[tid as int][mutex_id as int] == a.detector.alloc_m()[
                tid as int
            ][mutex_id as int]);
        }
    }
    crate::detector::book_release(
        &mut st.detector.allocation_mutex,
        &mut st.detector.available_mutex,
        tid,
        mutex_id,
    );
    proof {
        let b = *st;
        let mid = mutex_id as int;
        let ti = tid as int;
        if hq.len() > 0 {
            assert(b.detector.available_mutex@ =~= a.detector.available_mutex@);
        }
        assert forall|r2: int| #[trigger] b.mutex_live(r2) implies b.detector.available_mutex@[
            r2
        ] as int + crate::detector::col_total(b.detector.alloc_m(), r2, b.rows()) == 1 by {
            assert(st1.mutex_live(r2));
            if r2 == mid {
                assert(crate::detector::col_total(b.detector.alloc_m(), mid, b.rows())
                    == crate::detector::col_total(st1.detector.alloc_m(), mid, b.rows()) - 1);
            } else {
                assert(crate::detector::col_total(b.detector.alloc_m(), r2, b.rows())
                    == crate::detector::col_total(st1.detector.alloc_m(), r2, b.rows()));
            }
        }
        assert forall|r2: int| #[trigger] b.sem_live(r2) implies b.detector.available_sem@[
            r2
        ] as int + crate::detector::col_total(b.detector.alloc_s(), r2, b.rows()) == b.sem_of(
            r2,
        ).cap as int by {
            assert(st1.sem_live(r2));
        }
        assert forall|t2: int, r2: int|
            0 <= t2 < b.rows() && 0 <= r2 < b.n_mutex() implies #[trigger] b.detector.need_m()[t2][
            r2
        ] >= 0 by {
            assert(st1.detector.need_m()[t2][r2] >= 0);
        }
        assert forall|r2: int| #[trigger] b.mutex_live(r2) implies b.mutex_queue_wf(r2) by {
            assert(st1.mutex_live(r2));
            assert(st1.mutex_queue_wf(r2));
        }
        assert forall|r2: int| #[trigger] b.sem_live(r2) implies b.sem_wf(r2) by {
            assert(st1.sem_live(r2));
            assert(st1.sem_wf(r2));
        }
        assert forall|r2: int| #[trigger] b.cv_live(r2) implies b.cv_wf(r2) by {
            assert(st1.cv_live(r2));
            assert(st1.cv_wf(r2));
        }
        assert forall|t2: int| b.thread_live(t2) implies #[trigger] b.spinner_ok(t2) by {
            assert(st1.thread_live(t2));
            assert(st1.spinner_ok(t2));
        }
    }
    0
}

/// Creates a counting semaphore with `res_count` units, installs it in the
/// first free slot or a new one, and gives every existing thread row a
/// zeroed detector column with capacity `res_count`.
pub fn sys_semaphore_create(st: &mut ProcessState, res_count: usize) -> (r: isize)
    requires
        old(st).wf(),
        old(st).semaphores@.len() < isize::MAX as usize,
        res_count <= isize::MAX as usize,
    ensures
        final(st).wf(),
        r >= 0,
        ({
            let id = r as int;
            &&& id <= old(st).n_sem()
            &&& final(st).sem_live(id)
            &&& final(st).sem_of(id).count == res_count as isize
            &&& final(st).sem_of(id).cap == res_count as isize
            &&& final(st).sem_of(id).wait_queue@.len() == 0
            &&& final(st).detector.available_sem@[id] == res_count as isize
            &&& (forall|t: int|
                0 <= t < final(st).rows() ==> final(st).detector.need_s()[t][id] == 0 && final(st).detector.alloc_s()[t][id] == 0)
            &&& (forall|j: int| 0 <= j < id ==> old(st).semaphores@[j] is Some)
            &&& (id < old(st).n_sem() ==> old(st).semaphores@[id] is None && final(st).n_sem()
                == old(st).n_sem())
            &&& (id == old(st).n_sem() ==> final(st).n_sem() == old(st).n_sem() + 1)
            &&& (forall|j: int|
                0 <= j < old(st).n_sem() && j != id ==> final(st).semaphores@[j] == old(st).semaphores@[j])
            &&& (forall|t: int, c: int|
                0 <= t < old(st).rows() && 0 <= c < old(st).n_sem() && c != id ==> final(st).detector.need_s()[t][c] == old(st).detector.need_s()[t][c] && final(st).detector.alloc_s()[t][c] == old(st).detector.alloc_s()[t][c])
            &&& (forall|c: int|
                0 <= c < old(st).n_sem() && c != id ==> final(st).detector.available_sem@[c]
                    == old(st).detector.available_sem@[c])
        }),
        final(st).mutexes == old(st).mutexes,
        final(st).condvars == old(st).condvars,
        final(st).tasks == old(st).tasks,
        final(st).detector.available_mutex == old(st).detector.available_mutex,
        final(st).detector.need_mutex == old(st).detector.need_mutex,
        final(st).detector.allocation_mutex == old(st).detector.allocation_mutex,
        final(st).detector.enabled == old(st).detector.enabled,
{
    let rows = st.tasks.len();
    let cap = res_count as isize;
    let s = SemaphoreState { count: cap, cap, wait_queue: Vec::new() };
    let id = alloc_slot(&mut st.semaphores, s);
    crate::detector::grow_column(
        &mut st.detector.available_sem,
        &mut st.detector.need_sem,
        &mut st.detector.allocation_sem,
        id,
        cap,
        rows,
    );
    proof {
        let a = *old(st);
        let b = *st;
        let idi = id as int;
        assert forall|t: int, c: int|
            0 <= t < b.rows() && 0 <= c < b.n_sem() implies #[trigger] b.detector.need_s()[t][c]
            >= 0 by {
            if c != idi {
                assert(a.detector.need_s()[t][c] >= 0);
            }
        }
        assert forall|r: int| #[trigger] b.sem_live(r) implies b.detector.available_sem@[r] as int
            + crate::detector::col_total(b.detector.alloc_s(), r, b.rows()) == b.sem_of(
            r,
        ).cap as int by {
            if r != idi {
                assert(a.sem_live(r));
                assert(b.sem_of(r) == a.sem_of(r));
            }
        }
        assert forall|r: int| #[trigger] b.mutex_live(r) implies b.detector.available_mutex@[r] as int
            + crate::detector::col_total(b.detector.alloc_m(), r, b.rows()) == 1 by {
            assert(a.mutex_live(r));
        }
        assert forall|r: int| #[trigger] b.mutex_live(r) implies b.mutex_queue_wf(r) by {
            assert(a.mutex_live(r));
            assert(a.mutex_queue_wf(r));
        }
        assert forall|r: int| #[trigger] b.sem_live(r) implies b.sem_wf(r) by {
            if r != idi {
                assert(a.sem_live(r));
                assert(a.sem_wf(r));
            }
        }
        assert forall|r: int| #[trigger] b.cv_live(r) implies b.cv_wf(r) by {
            assert(a.cv_live(r));
            assert(a.cv_wf(r));
        }
        assert forall|t: int| b.thread_live(t) implies #[trigger] b.spinner_ok(t) by {
            assert(a.thread_live(t));
            assert(a.spinner_ok(t));
        }
    }
    id as isize
}

/// The lock-acquisition path: records the request (`need += 1`, kept even
/// on refusal), runs the safety check, and on a safe verdict acquires the
/// lock — immediately when free (booking the grant), else by suspending on
/// the FIFO queue (blocking variant) or spinning (spinning variant).  When
/// detection is enabled and the check finds the request unsafe, returns the
/// deadlock sentinel; detection-disabled mode never returns the sentinel.
pub fn sys_mutex_lock(st: &mut ProcessState, tid: usize, mutex_id: usize) -> (r: SysOutcome)
    requires
        old(st).wf(),
        old(st).runnable(tid as int),
        old(st).mutex_live(mutex_id as int) ==> old(st).mutex_book_fits(
            tid as int,
            mutex_id as int,
        ),
    ensures
        final(st).wf(),
        !old(st).mutex_live(mutex_id as int) ==> r == SysOutcome::Ret(NO_SUCH_RESOURCE) && *final(st) == *old(st),
        !old(st).detector.enabled ==> r != SysOutcome::Ret(DEADLOCK_SENTINEL),
        old(st).mutex_live(mutex_id as int) ==> ({
            let mid = mutex_id as int;
            let ti = tid as int;
            let need1 = old(st).detector.need_m().update(
                ti,
                old(st).detector.need_m()[ti].update(
                    mid,
                    (old(st).detector.need_m()[ti][mid] + 1) as isize,
                ),
            );
            let refused = old(st).detector.enabled && !crate::detector::bankers_safe(
                old(st).detector.available_mutex@,
                old(st).detector.alloc_m(),
                need1,
            );
            let mx = old(st).mutex_of(mid);
            &&& (refused ==> {
                &&& r == SysOutcome::Ret(DEADLOCK_SENTINEL)
                &&& final(st).detector.need_m() == need1
                &&& final(st).mutexes == old(st).mutexes
                &&& final(st).tasks == old(st).tasks
                &&& final(st).detector.allocation_mutex == old(st).detector.allocation_mutex
                &&& final(st).detector.available_mutex == old(st).detector.available_mutex
            })
            &&& (!refused && !mx.locked() ==> {
                &&& r == SysOutcome::Ret(0)
                &&& final(st).mutex_live(mid)
                &&& final(st).mutex_of(mid).locked()
                &&& final(st).mutex_of(mid).is_blocking() == mx.is_blocking()
                &&& final(st).mutex_of(mid).queue() == mx.queue()
                &&& final(st).detector.need_m() == old(st).detector.need_m()
                &&& final(st).detector.alloc_m() == old(st).detector.alloc_m().update(
                    ti,
                    old(st).detector.alloc_m()[ti].update(
                        mid,
                        (old(st).detector.alloc_m()[ti][mid] + 1) as isize,
                    ),
                )
                &&& final(st).detector.available_mutex@ == old(st).detector.available_mutex@.update(
                    mid,
                    (old(st).detector.available_mutex@[mid] - 1) as isize,
                )
                &&& final(st).tasks == old(st).tasks
            })
            &&& (!refused && mx.locked() && mx.is_blocking() ==> {
                &&& r == SysOutcome::Blocked
                &&& final(st).mutex_live(mid)
                &&& final(st).mutex_of(mid).locked()
                &&& final(st).mutex_of(mid).queue() == mx.queue().push(tid)
                &&& final(st).detector.need_m() == need1
                &&& final(st).detector.allocation_mutex == old(st).detector.allocation_mutex
                &&& final(st).detector.available_mutex == old(st).detector.available_mutex
                &&& final(st).thread_live(ti)
                &&& final(st).status_of(ti) == ThreadStatus::BlockedOnMutex(mutex_id)
                &&& old(st).tasks_same_except(*final(st), ti)
            })
            &&& (!refused && mx.locked() && !mx.is_blocking() ==> {
                &&& r == SysOutcome::Spinning
                &&& final(st).mutexes == old(st).mutexes
                &&& final(st).detector.need_m() == need1
                &&& final(st).detector.allocation_mutex == old(st).detector.allocation_mutex
                &&& final(st).detector.available_mutex == old(st).detector.available_mutex
                &&& final(st).thread_live(ti)
                &&& final(st).status_of(ti) == ThreadStatus::SpinningOnMutex(mutex_id)
                &&& old(st).tasks_same_except(*final(st), ti)
            })
            &&& (forall|j: int|
                0 <= j < old(st).n_mutex() && j != mid ==> final(st).mutexes@[j] == old(st).mutexes@[j])
            &&& final(st).n_mutex() == old(st).n_mutex()
            &&& final(st).semaphores == old(st).semaphores
            &&& final(st).condvars == old(st).condvars
            &&& final(st).detector.available_sem == old(st).detector.available_sem
            &&& final(st).detector.need_sem == old(st).detector.need_sem
            &&& final(st).detector.allocation_sem == old(st).detector.allocation_sem
            &&& final(st).detector.enabled == old(st).detector.enabled
        }),
{
    if mutex_id >= st.mutexes.len() {
        return SysOutcome::Ret(NO_SUCH_RESOURCE);
    }
    if st.mutexes[mutex_id].is_none() {
        return SysOutcome::Ret(NO_SUCH_RESOURCE);
    }
    proof {
        assert(old(st).mutex_live(mutex_id as int));
        assert(st.detector.need_mutex@[tid as int]@ == st.detector.need_m()[tid as int]);
    }
    let cur = st.detector.need_mutex[tid][mutex_id];
    crate::detector::mat_set(&mut st.detector.need_mutex, tid, mutex_id, cur + 1);
    proof {
        lemma_wf_need_m_inc(*old(st), *st, tid as int, mutex_id as int, (cur + 1) as isize);
    }
    let ghost st1 = *st;
    let safe = st.detector.detect_mutex();
    if !safe {
        return SysOutcome::Ret(DEADLOCK_SENTINEL);
    }
    let (is_blocking, locked) = match &st.mutexes[mutex_id] {
        Some(MutexState::Spin { locked }) => (false, *locked),
        Some(MutexState::Blocking { locked, .. }) => (true, *locked),
        None => {
            proof {
                assert(false);
            }
            (false, false)
        },
    };
    if !locked {
        match &mut st.mutexes[mutex_id] {
            Some(MutexState::Spin { locked }) => {
                *locked = true;
            },
            Some(MutexState::Blocking { locked, .. }) => {
                *locked = true;
            },
            None => {
                proof {
                    assert(false);
                }
            },
        }
        proof {
            assert(st.detector.need_mutex@[tid as int]@ == st.detector.need_m()[tid as int]);
            assert(st.detector.allocation_mutex@[tid as int]@ == st.detector.alloc_m()[
                tid as int
            ]);
        }
        crate::detector::book_grant(
            &mut st.detector.need_mutex,
            &mut st.detector.allocation_mutex,
            &mut st.detector.available_mutex,
            tid,
            mutex_id,
        );
        proof {
            let a = *old(st);
            let b = *st;
            let mid = mutex_id as int;
            let ti = tid as int;
            assert(b.detector.need_m() =~~= a.detector.need_m());
            assert forall|t2: int, r2: int|
                0 <= t2 < b.rows() && 0 <= r2 < b.n_mutex() implies #[trigger] b.detector.need_m()[
                t2
            ][r2] >= 0 by {
                assert(a.detector.need_m()[t2][r2] >= 0);
            }
            assert forall|r2: int| #[trigger] b.mutex_live(r2)
                implies b.detector.available_mutex@[r2] as int + crate::detector::col_total(
                b.detector.alloc_m(),
                r2,
                b.rows(),
            ) == 1 by {
                assert(a.mutex_live(r2));
                if r2 == mid {
                    assert(crate::detector::col_total(b.detector.alloc_m(), mid, b.rows())
                        == crate::detector::col_total(st1.detector.alloc_m(), mid, b.rows()) + 1);
                } else {
                    assert(crate::detector::col_total(b.detector.alloc_m(), r2, b.rows())
                        == crate::detector::col_total(st1.detector.alloc_m(), r2, b.rows()));
                }
            }
            assert forall|r2: int| #[trigger] b.sem_live(r2) implies b.detector.available_sem@[
                r2
            ] as int + crate::detector::col_total(b.detector.alloc_s(), r2, b.rows()) == b.sem_of(
                r2,
            ).cap as int by {
                assert(a.sem_live(r2));
            }
            assert forall|r2: int| #[trigger] b.mutex_live(r2) implies b.mutex_queue_wf(r2) by {
                assert(a.mutex_live(r2));
                assert(a.mutex_queue_wf(r2));
                let q = a.mutex_of(r2).queue();
                assert forall|i: int| 0 <= i < q.len() implies q[i] != tid by {
                    assert(a.status_of(q[i] as int) == ThreadStatus::BlockedOnMutex(r2 as usize));
                }
                if r2 == mid {
                    assert(q.len() == 0);
                }
            }
            assert forall|r2: int| #[trigger] b.sem_live(r2) implies b.sem_wf(r2) by {
                assert(a.sem_live(r2));
                assert(a.sem_wf(r2));
            }
            assert forall|r2: int| #[trigger] b.cv_live(r2) implies b.cv_wf(r2) by {
                assert(a.cv_live(r2));
                assert(a.cv_wf(r2));
            }
            assert forall|t2: int| b.thread_live(t2) implies #[trigger] b.spinner_ok(t2) by {
                assert(a.thread_live(t2));
                assert(a.spinner_ok(t2));
                if t2 == ti {
                    assert(a.status_of(ti) == ThreadStatus::Runnable);
                }
            }
        }
        SysOutcome::Ret(0)
    } else if is_blocking {
        match &mut st.mutexes[mutex_id] {
            Some(MutexState::Blocking { wait_queue, .. }) => {
                wait_queue.push(tid);
            },
            _ => {
                proof {
                    assert(false);
                }
            },
        }
        set_task_status(&mut st.tasks, tid, ThreadStatus::BlockedOnMutex(mutex_id));
        proof {
            let a = *old(st);
            let b = *st;
            let mid = mutex_id as int;
            let ti = tid as int;
            let q0 = a.mutex_of(mid).queue();
            assert(b.mutex_of(mid).queue() == q0.push(tid));
            assert forall|r2: int| #[trigger] b.mutex_live(r2)
                implies b.detector.available_mutex@[r2] as int + crate::detector::col_total(
                b.detector.alloc_m(),
                r2,
                b.rows(),
            ) == 1 by {
                assert(a.mutex_live(r2));
            }
            assert forall|r2: int| #[trigger] b.sem_live(r2) implies b.detector.available_sem@[
                r2
            ] as int + crate::detector::col_total(b.detector.alloc_s(), r2, b.rows()) == b.sem_of(
                r2,
            ).cap as int by {
                assert(a.sem_live(r2));
            }
            assert forall|r2: int| #[trigger] b.mutex_live(r2) implies b.mutex_queue_wf(r2) by {
                assert(a.mutex_live(r2));
                assert(st1.mutex_queue_wf(r2));
                let q = a.mutex_of(r2).queue();
                assert forall|i: int| 0 <= i < q.len() implies q[i] != tid by {
                    assert(a.status_of(q[i] as int) == ThreadStatus::BlockedOnMutex(r2 as usize));
                }
            }
            assert forall|r2: int| #[trigger] b.sem_live(r2) implies b.sem_wf(r2) by {
                assert(a.sem_live(r2));
                assert(st1.sem_wf(r2));
                let q = a.sem_of(r2).wait_queue@;
                assert forall|i: int| 0 <= i < q.len() implies q[i] != tid by {
                    assert(a.status_of(q[i] as int) == ThreadStatus::BlockedOnSem(r2 as usize));
                }
            }
            assert forall|r2: int| #[trigger] b.cv_live(r2) implies b.cv_wf(r2) by {
                assert(a.cv_live(r2));
                assert(st1.cv_wf(r2));
                let q = a.cv_of(r2).wait_queue@;
                assert forall|i: int| 0 <= i < q.len() implies q[i] != tid by {
                    assert(a.status_of(q[i] as int) == ThreadStatus::BlockedOnCondvar(
                        r2 as usize,
                    ));
                }
            }
            assert forall|t2: int| b.thread_live(t2) implies #[trigger] b.spinner_ok(t2) by {
                assert(st1.thread_live(t2));
                assert(st1.spinner_ok(t2));
            }
        }
        SysOutcome::Blocked
    } else {
        set_task_status(&mut st.tasks, tid, ThreadStatus::SpinningOnMutex(mutex_id));
        proof {
            let a = *old(st);
            let b = *st;
            let mid = mutex_id as int;
            let ti = tid as int;
            assert forall|r2: int| #[trigger] b.mutex_live(r2)
                implies b.detector.available_mutex@[r2] as int + crate::detector::col_total(
                b.detector.alloc_m(),
                r2,
                b.rows(),
            ) == 1 by {
                assert(a.mutex_live(r2));
            }
            assert forall|r2: int| #[trigger] b.sem_live(r2) implies b.detector.available_sem@[
                r2
            ] as int + crate::detector::col_total(b.detector.alloc_s(), r2, b.rows()) == b.sem_of(
                r2,
            ).cap as int by {
                assert(a.sem_live(r2));
            }
            assert forall|r2: int| #[trigger] b.mutex_live(r2) implies b.mutex_queue_wf(r2) by {
                assert(a.mutex_live(r2));
                assert(st1.mutex_queue_wf(r2));
                let q = a.mutex_of(r2).queue();
                assert forall|i: int| 0 <= i < q.len() implies q[i] != tid by {
                    assert(a.status_of(q[i] as int) == ThreadStatus::BlockedOnMutex(r2 as usize));
                }
            }
            assert forall|r2: int| #[trigger] b.sem_live(r2) implies b.sem_wf(r2) by {
                assert(a.sem_live(r2));
                assert(st1.sem_wf(r2));
                let q = a.sem_of(r2).wait_queue@;
                assert forall|i: int| 0 <= i < q.len() implies q[i] != tid by {
                    assert(a.status_of(q[i] as int) == ThreadStatus::BlockedOnSem(r2 as usize));
                }
            }
            assert forall|r2: int| #[trigger] b.cv_live(r2) implies b.cv_wf(r2) by {
                assert(a.cv_live(r2));
                assert(st1.cv_wf(r2));
                let q = a.cv_of(r2).wait_queue@;
                assert forall|i: int| 0 <= i < q.len() implies q[i] != tid by {
                    assert(a.status_of(q[i] as int) == ThreadStatus::BlockedOnCondvar(
                        r2 as usize,
                    ));
                }
            }
            assert forall|t2: int| b.thread_live(t2) implies #[trigger] b.spinner_ok(t2) by {
                assert(st1.thread_live(t2));
                assert(st1.spinner_ok(t2));
                if t2 == ti {
                    assert(b.status_of(ti) == ThreadStatus::SpinningOnMutex(mutex_id));
                    assert(b.mutex_live(mid));
                    assert(!b.mutex_of(mid).is_blocking());
                    assert(b.detector.need_m()[ti][mid] >= 1);
                }
            }
        }
        SysOutcome::Spinning
    }
}

/// One poll of a spinning lock by a thread already spinning on it (after a
/// safe verdict in the acquisition path): acquires the lock and books the
/// grant when it is free, else keeps spinning.  The trap layer calls this
/// each time the spinner is rescheduled.
pub fn sys_mutex_lock_retry(st: &mut ProcessState, tid: usize, mutex_id: usize) -> (r: SysOutcome)
    requires
        old(st).wf(),
        old(st).thread_live(tid as int),
        old(st).status_of(tid as int) == ThreadStatus::SpinningOnMutex(mutex_id),
        old(st).mutex_book_fits(tid as int, mutex_id as int),
    ensures
        final(st).wf(),
        ({
            let mid = mutex_id as int;
            let ti = tid as int;
            &&& (old(st).mutex_of(mid).locked() ==> r == SysOutcome::Spinning && *final(st)
                == *old(st))
            &&& (!old(st).mutex_of(mid).locked() ==> {
                &&& r == SysOutcome::Ret(0)
                &&& final(st).mutex_live(mid)
                &&& final(st).mutex_of(mid).locked()
                &&& !final(st).mutex_of(mid).is_blocking()
                &&& final(st).runnable(ti)
                &&& old(st).tasks_same_except(*final(st), ti)
                &&& final(st).detector.need_m() == old(st).detector.need_m().update(
                    ti,
                    old(st).detector.need_m()[ti].update(
                        mid,
                        (old(st).detector.need_m()[ti][mid] - 1) as isize,
                    ),
                )
                &&& final(st).detector.alloc_m() == old(st).detector.alloc_m().update(
                    ti,
                    old(st).detector.alloc_m()[ti].update(
                        mid,
                        (old(st).detector.alloc_m()[ti][mid] + 1) as isize,
                    ),
                )
                &&& final(st).detector.available_mutex@ == old(
                    st,
                ).detector.available_mutex@.update(
                    mid,
                    (old(st).detector.available_mutex@[mid] - 1) as isize,
                )
                &&& (forall|j: int|
                    0 <= j < old(st).n_mutex() && j != mid ==> final(st).mutexes@[j] == old(
                        st,
                    ).mutexes@[j])
                &&& final(st).semaphores == old(st).semaphores
                &&& final(st).condvars == old(st).condvars
                &&& final(st).detector.available_sem == old(st).detector.available_sem
                &&& final(st).detector.need_sem == old(st).detector.need_sem
                &&& final(st).detector.allocation_sem == old(st).detector.allocation_sem
                &&& final(st).detector.enabled == old(st).detector.enabled
            })
        }),
{
    proof {
        assert(old(st).thread_live(tid as int));
        assert(old(st).spinner_ok(tid as int));
        assert(old(st).mutex_live(mutex_id as int));
    }
    let locked = match &st.mutexes[mutex_id] {
        Some(MutexState::Spin { locked }) => *locked,
        _ => {
            proof {
                assert(false);
            }
            true
        },
    };
    if locked {
        return SysOutcome::Spinning;
    }
    match &mut st.mutexes[mutex_id] {
        Some(MutexState::Spin { locked }) => {
            *locked = true;
        },
        _ => {
            proof {
                assert(false);
            }
        },
    }
    proof {
        assert(st.detector.need_mutex@[tid as int]@ == st.detector.need_m()[tid as int]);
        assert(st.detector.allocation_mutex@[tid as int]@ == st.detector.alloc_m()[tid as int]);
        assert(old(st).detector.need_m()[tid as int][mutex_id as int] >= 1);
    }
    crate::detector::book_grant(
        &mut st.detector.need_mutex,
        &mut st.detector.allocation_mutex,
        &mut st.detector.available_mutex,
        tid,
        mutex_id,
    );
    set_task_status(&mut st.tasks, tid, ThreadStatus::Runnable);
    proof {
        let a = *old(st);
        let b = *st;
        let mid = mutex_id as int;
        let ti = tid as int;
        assert forall|t2: int, r2: int|
            0 <= t2 < b.rows() && 0 <= r2 < b.n_mutex() implies #[trigger] b.detector.need_m()[t2][
            r2
        ] >= 0 by {
            assert(a.detector.need_m()[t2][r2] >= 0);
        }
        assert forall|r2: int| #[trigger] b.mutex_live(r2) implies b.detector.available_mutex@[
            r2
        ] as int + crate::detector::col_total(b.detector.alloc_m(), r2, b.rows()) == 1 by {
            assert(a.mutex_live(r2));
        }
        assert forall|r2: int| #[trigger] b.sem_live(r2) implies b.detector.available_sem@[
            r2
        ] as int + crate::detector::col_total(b.detector.alloc_s(), r2, b.rows()) == b.sem_of(
            r2,
        ).cap as int by {
            assert(a.sem_live(r2));
        }
        assert forall|r2: int| #[trigger] b.mutex_live(r2) implies b.mutex_queue_wf(r2) by {
            assert(a.mutex_live(r2));
            assert(a.mutex_queue_wf(r2));
            let q = a.mutex_of(r2).queue();
            assert forall|i: int| 0 <= i < q.len() implies q[i] != tid by {
                assert(a.status_of(q[i] as int) == ThreadStatus::BlockedOnMutex(r2 as usize));
            }
        }
        assert forall|r2: int| #[trigger] b.sem_live(r2) implies b.sem_wf(r2) by {
            assert(a.sem_live(r2));
            assert(a.sem_wf(r2));
            let q = a.sem_of(r2).wait_queue@;
            assert forall|i: int| 0 <= i < q.len() implies q[i] != tid by {
                assert(a.status_of(q[i] as int) == ThreadStatus::BlockedOnSem(r2 as usize));
            }
        }
        assert forall|r2: int| #[trigger] b.cv_live(r2) implies b.cv_wf(r2) by {
            assert(a.cv_live(r2));
            assert(a.cv_wf(r2));
            let q = a.cv_of(r2).wait_queue@;
            assert forall|i: int| 0 <= i < q.len() implies q[i] != tid by {
                assert(a.status_of(q[i] as int) == ThreadStatus::BlockedOnCondvar(r2 as usize));
            }
        }
        assert forall|t2: int| b.thread_live(t2) implies #[trigger] b.spinner_ok(t2) by {
            assert(a.thread_live(t2));
            assert(a.spinner_ok(t2));
        }
    }
    SysOutcome::Ret(0)
}

/// The semaphore-acquisition path: records the request (`need += 1`, kept
/// even on refusal), runs the safety check, and on a safe verdict performs
/// `down()`: decrements the counter, booking the grant when a unit was
/// free, else suspending the caller at the tail of the FIFO queue.
/// Detection-disabled mode never returns the sentinel.
pub fn sys_semaphore_down(st: &mut ProcessState, tid: usize, sem_id: usize) -> (r: SysOutcome)
    requires
        old(st).wf(),
        old(st).runnable(tid as int),
        old(st).sem_live(sem_id as int) ==> old(st).sem_book_fits(tid as int, sem_id as int)
            && old(st).sem_of(sem_id as int).count > isize::MIN,
    ensures
        final(st).wf(),
        !old(st).sem_live(sem_id as int) ==> r == SysOutcome::Ret(NO_SUCH_RESOURCE) && *final(st)
            == *old(st),
        !old(st).detector.enabled ==> r != SysOutcome::Ret(DEADLOCK_SENTINEL),
        old(st).sem_live(sem_id as int) ==> ({
            let sid = sem_id as int;
            let ti = tid as int;
            let need1 = old(st).detector.need_s().update(
                ti,
                old(st).detector.need_s()[ti].update(
                    sid,
                    (old(st).detector.need_s()[ti][sid] + 1) as isize,
                ),
            );
            let refused = old(st).detector.enabled && !crate::detector::bankers_safe(
                old(st).detector.available_sem@,
                old(st).detector.alloc_s(),
                need1,
            );
            let s0 = old(st).sem_of(sid);
            &&& (refused ==> {
                &&& r == SysOutcome::Ret(DEADLOCK_SENTINEL)
                &&& final(st).detector.need_s() == need1
                &&& final(st).semaphores == old(st).semaphores
                &&& final(st).tasks == old(st).tasks
                &&& final(st).detector.allocation_sem == old(st).detector.allocation_sem
                &&& final(st).detector.available_sem == old(st).detector.available_sem
            })
            &&& (!refused && s0.count >= 1 ==> {
                &&& r == SysOutcome::Ret(0)
                &&& final(st).sem_live(sid)
                &&& final(st).sem_of(sid).count == s0.count - 1
                &&& final(st).sem_of(sid).cap == s0.cap
                &&& final(st).sem_of(sid).wait_queue@ == s0.wait_queue@
                &&& final(st).detector.need_s() == old(st).detector.need_s()
                &&& final(st).detector.alloc_s() == old(st).detector.alloc_s().update(
                    ti,
                    old(st).detector.alloc_s()[ti].update(
                        sid,
                        (old(st).detector.alloc_s()[ti][sid] + 1) as isize,
                    ),
                )
                &&& final(st).detector.available_sem@ == old(st).detector.available_sem@.update(
                    sid,
                    (old(st).detector.available_sem@[sid] - 1) as isize,
                )
                &&& final(st).tasks == old(st).tasks
            })
            &&& (!refused && s0.count < 1 ==> {
                &&& r == SysOutcome::Blocked
                &&& final(st).sem_live(sid)
                &&& final(st).sem_of(sid).count == s0.count - 1
                &&& final(st).sem_of(sid).cap == s0.cap
                &&& final(st).sem_of(sid).wait_queue@ == s0.wait_queue@.push(tid)
                &&& final(st).detector.need_s() == need1
                &&& final(st).detector.allocation_sem == old(st).detector.allocation_sem
                &&& final(st).detector.available_sem == old(st).detector.available_sem
                &&& final(st).thread_live(ti)
                &&& final(st).status_of(ti) == ThreadStatus::BlockedOnSem(sem_id)
                &&& old(st).tasks_same_except(*final(st), ti)
            })
            &&& (forall|j: int|
                0 <= j < old(st).n_sem() && j != sid ==> final(st).semaphores@[j] == old(
                    st,
                ).semaphores@[j])
            &&& final(st).n_sem() == old(st).n_sem()
            &&& final(st).mutexes == old(st).mutexes
            &&& final(st).condvars == old(st).condvars
            &&& final(st).detector.available_mutex == old(st).detector.available_mutex
            &&& final(st).detector.need_mutex == old(st).detector.need_mutex
            &&& final(st).detector.allocation_mutex == old(st).detector.allocation_mutex
            &&& final(st).detector.enabled == old(st).detector.enabled
        }),
{
    if sem_id >= st.semaphores.len() {
        return SysOutcome::Ret(NO_SUCH_RESOURCE);
    }
    if st.semaphores[sem_id].is_none() {
        return SysOutcome::Ret(NO_SUCH_RESOURCE);
    }
    proof {
        assert(old(st).sem_live(sem_id as int));
        assert(st.detector.need_sem@[tid as int]@ == st.detector.need_s()[tid as int]);
    }
    let cur = st.detector.need_sem[tid][sem_id];
    crate::detector::mat_set(&mut st.detector.need_sem, tid, sem_id, cur + 1);
    proof {
        lemma_wf_need_s_inc(*old(st), *st, tid as int, sem_id as int, (cur + 1) as isize);
    }
    let ghost st1 = *st;
    let safe = st.detector.detect_sem();
    if !safe {
        return SysOutcome::Ret(DEADLOCK_SENTINEL);
    }
    let count = match &st.semaphores[sem_id] {
        Some(s) => s.count,
        None => {
            proof {
                assert(false);
            }
            0
        },
    };
    if count >= 1 {
        proof {
            assert(st1.sem_live(sem_id as int));
            assert(st1.sem_wf(sem_id as int));
        }
        match &mut st.semaphores[sem_id] {
            Some(s) => {
                s.count = s.count - 1;
            },
            None => {
                proof {
                    assert(false);
                }
            },
        }
        proof {
            assert(st.detector.need_sem@[tid as int]@ == st.detector.need_s()[tid as int]);
            assert(st.detector.allocation_sem@[tid as int]@ == st.detector.alloc_s()[tid as int]);
        }
        crate::detector::book_grant(
            &mut st.detector.need_sem,
            &mut st.detector.allocation_sem,
            &mut st.detector.available_sem,
            tid,
            sem_id,
        );
        proof {
            let a = *old(st);
            let b = *st;
            let sid = sem_id as int;
            let ti = tid as int;
            assert(b.detector.need_s() =~~= a.detector.need_s());
            assert forall|t2: int, r2: int|
                0 <= t2 < b.rows() && 0 <= r2 < b.n_sem() implies #[trigger] b.detector.need_s()[
                t2
            ][r2] >= 0 by {
                assert(a.detector.need_s()[t2][r2] >= 0);
            }
            assert forall|r2: int| #[trigger] b.sem_live(r2) implies b.detector.available_sem@[
                r2
            ] as int + crate::detector::col_total(b.detector.alloc_s(), r2, b.rows()) == b.sem_of(
                r2,
            ).cap as int by {
                assert(a.sem_live(r2));
                if r2 == sid {
                    assert(crate::detector::col_total(b.detector.alloc_s(), sid, b.rows())
                        == crate::detector::col_total(st1.detector.alloc_s(), sid, b.rows()) + 1);
                } else {
                    assert(crate::detector::col_total(b.detector.alloc_s(), r2, b.rows())
                        == crate::detector::col_total(st1.detector.alloc_s(), r2, b.rows()));
                }
            }
            assert forall|r2: int| #[trigger] b.mutex_live(r2)
                implies b.detector.available_mutex@[r2] as int + crate::detector::col_total(
                b.detector.alloc_m(),
                r2,
                b.rows(),
            ) == 1 by {
                assert(a.mutex_live(r2));
            }
            assert forall|r2: int| #[trigger] b.mutex_live(r2) implies b.mutex_queue_wf(r2) by {
                assert(a.mutex_live(r2));
                assert(st1.mutex_queue_wf(r2));
            }
            assert forall|r2: int| #[trigger] b.sem_live(r2) implies b.sem_wf(r2) by {
                assert(a.sem_live(r2));
                assert(st1.sem_wf(r2));
                let q = a.sem_of(r2).wait_queue@;
                assert forall|i: int| 0 <= i < q.len() implies q[i] != tid by {
                    assert(a.status_of(q[i] as int) == ThreadStatus::BlockedOnSem(r2 as usize));
                }
            }
            assert forall|r2: int| #[trigger] b.cv_live(r2) implies b.cv_wf(r2) by {
                assert(a.cv_live(r2));
                assert(st1.cv_wf(r2));
            }
            assert forall|t2: int| b.thread_live(t2) implies #[trigger] b.spinner_ok(t2) by {
                assert(st1.thread_live(t2));
                assert(st1.spinner_ok(t2));
            }
        }
        SysOutcome::Ret(0)
    } else {
        proof {
            assert(st1.sem_live(sem_id as int));
            assert(st1.sem_wf(sem_id as int));
        }
        match &mut st.semaphores[sem_id] {
            Some(s) => {
                s.count = s.count - 1;
                s.wait_queue.push(tid);
            },
            None => {
                proof {
                    assert(false);
                }
            },
        }
        set_task_status(&mut st.tasks, tid, ThreadStatus::BlockedOnSem(sem_id));
        proof {
            let a = *old(st);
            let b = *st;
            let sid = sem_id as int;
            let ti = tid as int;
            assert forall|r2: int| #[trigger] b.sem_live(r2) implies b.detector.available_sem@[
                r2
            ] as int + crate::detector::col_total(b.detector.alloc_s(), r2, b.rows()) == b.sem_of(
                r2,
            ).cap as int by {
                assert(a.sem_live(r2));
            }
            assert forall|r2: int| #[trigger] b.mutex_live(r2)
                implies b.detector.available_mutex@[r2] as int + crate::detector::col_total(
                b.detector.alloc_m(),
                r2,
                b.rows(),
            ) == 1 by {
                assert(a.mutex_live(r2));
            }
            assert forall|r2: int| #[trigger] b.mutex_live(r2) implies b.mutex_queue_wf(r2) by {
                assert(a.mutex_live(r2));
                assert(st1.mutex_queue_wf(r2));
                let q = a.mutex_of(r2).queue();
                assert forall|i: int| 0 <= i < q.len() implies q[i] != tid by {
                    assert(a.status_of(q[i] as int) == ThreadStatus::BlockedOnMutex(r2 as usize));
                }
            }
            assert forall|r2: int| #[trigger] b.sem_live(r2) implies b.sem_wf(r2) by {
                assert(a.sem_live(r2));
                assert(st1.sem_wf(r2));
                let q = a.sem_of(r2).wait_queue@;
                assert forall|i: int| 0 <= i < q.len() implies q[i] != tid by {
                    assert(a.status_of(q[i] as int) == ThreadStatus::BlockedOnSem(r2 as usize));
                }
            }
            assert forall|r2: int| #[trigger] b.cv_live(r2) implies b.cv_wf(r2) by {
                assert(a.cv_live(r2));
                assert(st1.cv_wf(r2));
                let q = a.cv_of(r2).wait_queue@;
                assert forall|i: int| 0 <= i < q.len() implies q[i] != tid by {
                    assert(a.status_of(q[i] as int) == ThreadStatus::BlockedOnCondvar(
                        r2 as usize,
                    ));
                }
            }
            assert forall|t2: int| b.thread_live(t2) implies #[trigger] b.spinner_ok(t2) by {
                assert(st1.thread_live(t2));
                assert(st1.spinner_ok(t2));
            }
        }
        SysOutcome::Blocked
    }
}

/// The semaphore-release path, `up()`: increments the counter and, when
/// threads wait, wakes exactly the head of the FIFO queue, handing it the
/// unit — completing its pending `down()` and booking its grant — then
/// books the caller's release, `allocation[tid][id] -= 1` and
/// `available[id] += 1`.
pub fn sys_semaphore_up(st: &mut ProcessState, tid: usize, sem_id: usize) -> (r: isize)
    requires
        old(st).wf(),
        old(st).runnable(tid as int),
        old(st).sem_live(sem_id as int) ==> old(st).sem_release_fits(tid as int, sem_id as int)
            && old(st).sem_handoff_fits(sem_id as int),
    ensures
        final(st).wf(),
        !old(st).sem_live(sem_id as int) ==> r == NO_SUCH_RESOURCE && *final(st) == *old(st),
        old(st).sem_live(sem_id as int) ==> ({
            let sid = sem_id as int;
            let ti = tid as int;
            let s0 = old(st).sem_of(sid);
            let q = s0.wait_queue@;
            &&& r == 0
            &&& final(st).sem_live(sid)
            &&& final(st).sem_of(sid).count == s0.count + 1
            &&& final(st).sem_of(sid).cap == s0.cap
            &&& (s0.count >= 0 ==> {
                &&& final(st).sem_of(sid).wait_queue@ == q
                &&& final(st).tasks == old(st).tasks
                &&& final(st).detector.need_sem == old(st).detector.need_sem
                &&& final(st).detector.alloc_s() == old(st).detector.alloc_s().update(
                    ti,
                    old(st).detector.alloc_s()[ti].update(
                        sid,
                        (old(st).detector.alloc_s()[ti][sid] - 1) as isize,
                    ),
                )
                &&& final(st).detector.available_sem@ == old(st).detector.available_sem@.update(
                    sid,
                    (old(st).detector.available_sem@[sid] + 1) as isize,
                )
            })
            &&& (s0.count < 0 ==> {
                let h = q[0] as int;
                &&& final(st).sem_of(sid).wait_queue@ == q.drop_first()
                &&& final(st).runnable(h)
                &&& old(st).tasks_same_except(*final(st), h)
                &&& final(st).detector.need_s() == old(st).detector.need_s().update(
                    h,
                    old(st).detector.need_s()[h].update(
                        sid,
                        (old(st).detector.need_s()[h][sid] - 1) as isize,
                    ),
                )
                &&& final(st).detector.alloc_s()[h][sid] == old(st).detector.alloc_s()[h][sid] + 1
                &&& final(st).detector.alloc_s()[ti][sid] == old(st).detector.alloc_s()[ti][sid]
                    - 1
                &&& (forall|t2: int, c2: int|
                    0 <= t2 < old(st).rows() && 0 <= c2 < old(st).n_sem() && !(t2 == h && c2
                        == sid) && !(t2 == ti && c2 == sid) ==> final(st).detector.alloc_s()[t2][
                        c2
                    ] == old(st).detector.alloc_s()[t2][c2])
                &&& final(st).detector.available_sem@ == old(st).detector.available_sem@
            })
            &&& (forall|j: int|
                0 <= j < old(st).n_sem() && j != sid ==> final(st).semaphores@[j] == old(
                    st,
                ).semaphores@[j])
            &&& final(st).n_sem() == old(st).n_sem()
            &&& final(st).mutexes == old(st).mutexes
            &&& final(st).condvars == old(st).condvars
            &&& final(st).detector.available_mutex == old(st).detector.available_mutex
            &&& final(st).detector.need_mutex == old(st).detector.need_mutex
            &&& final(st).detector.allocation_mutex == old(st).detector.allocation_mutex
            &&& final(st).detector.enabled == old(st).detector.enabled
        }),
{
    if sem_id >= st.semaphores.len() {
        return NO_SUCH_RESOURCE;
    }
    if st.semaphores[sem_id].is_none() {
        return NO_SUCH_RESOURCE;
    }
    let ghost a = *old(st);
    proof {
        assert(a.sem_live(sem_id as int));
        assert(a.sem_wf(sem_id as int));
    }
    let count = match &st.semaphores[sem_id] {
        Some(s) => s.count,
        None => {
            proof {
                assert(false);
            }
            0
        },
    };
    if count >= 0 {
        match &mut st.semaphores[sem_id] {
            Some(s) => {
                s.count = s.count + 1;
            },
            None => {
                proof {
                    assert(false);
                }
            },
        }
        proof {
            assert(st.detector.allocation_sem@[tid as int]@ == st.detector.alloc_s()[tid as int]);
        }
        crate::detector::book_release(
            &mut st.detector.allocation_sem,
            &mut st.detector.available_sem,
            tid,
            sem_id,
        );
        proof {
            let b = *st;
            let sid = sem_id as int;
            let ti = tid as int;
            assert forall|r2: int| #[trigger] b.sem_live(r2) implies b.detector.available_sem@[
                r2
            ] as int + crate::detector::col_total(b.detector.alloc_s(), r2, b.rows()) == b.sem_of(
                r2,
            ).cap as int by {
                assert(a.sem_live(r2));
                if r2 == sid {
                    assert(crate::detector::col_total(b.detector.alloc_s(), sid, b.rows())
                        == crate::detector::col_total(a.detector.alloc_s(), sid, b.rows()) - 1);
                } else {
                    assert(crate::detector::col_total(b.detector.alloc_s(), r2, b.rows())
                        == crate::detector::col_total(a.detector.alloc_s(), r2, b.rows()));
                }
            }
            assert forall|r2: int| #[trigger] b.mutex_live(r2)
                implies b.detector.available_mutex@[r2] as int + crate::detector::col_total(
                b.detector.alloc_m(),
                r2,
                b.rows(),
            ) == 1 by {
                assert(a.mutex_live(r2));
            }
            assert forall|r2: int| #[trigger] b.mutex_live(r2) implies b.mutex_queue_wf(r2) by {
                assert(a.mutex_live(r2));
                assert(a.mutex_queue_wf(r2));
            }
            assert forall|r2: int| #[trigger] b.sem_live(r2) implies b.sem_wf(r2) by {
                assert(a.sem_live(r2));
                assert(a.sem_wf(r2));
            }
            assert forall|r2: int| #[trigger] b.cv_live(r2) implies b.cv_wf(r2) by {
                assert(a.cv_live(r2));
                assert(a.cv_wf(r2));
            }
            assert forall|t2: int| b.thread_live(t2) implies #[trigger] b.spinner_ok(t2) by {
                assert(a.thread_live(t2));
                assert(a.spinner_ok(t2));
            }
        }
        0
    } else {
        let h = match &mut st.semaphores[sem_id] {
            Some(s) => {
                s.count = s.count + 1;
                s.wait_queue.remove(0)
            },
            None => {
                proof {
                    assert(false);
                }
                0
            },
        };
        proof {
            let hq = a.sem_of(sem_id as int).wait_queue@;
            assert(h == hq[0]);
            assert(a.thread_live(h as int));
            assert(a.status_of(h as int) == ThreadStatus::BlockedOnSem(sem_id));
            assert(h as int != tid as int);
            assert(st.semaphores@[sem_id as int]->Some_0.wait_queue@ =~= hq.drop_first());
        }
        set_task_status(&mut st.tasks, h, ThreadStatus::Runnable);
        proof {
            assert(st.detector.allocation_sem@[tid as int]@ == st.detector.alloc_s()[tid as int]);
        }
        crate::detector::book_release(
            &mut st.detector.allocation_sem,
            &mut st.detector.available_sem,
            tid,
            sem_id,
        );
        let ghost st1 = *st;
        proof {
            assert(st.detector.need_sem@[h as int]@ == st.detector.need_s()[h as int]);
            assert(st.detector.allocation_sem@[h as int]@ == st.detector.alloc_s()[h as int]);
            assert(a.detector.need_s()[h as int][sem_id as int] >= 1);
            assert(st1.detector.need_s()[h as int][sem_id as int] >= 1);
            assert(st1.detector.alloc_s()[h as int][sem_id as int] == a.detector.alloc_s()[
                h as int
            ][sem_id as int]);
        }
        crate::detector::book_grant(
            &mut st.detector.need_sem,
            &mut st.detector.allocation_sem,
            &mut st.detector.available_sem,
            h,
            sem_id,
        );
        proof {
            let b = *st;
            let sid = sem_id as int;
            let ti = tid as int;
            let hi = h as int;
            let hq = a.sem_of(sid).wait_queue@;
            assert(b.detector.available_sem@ =~= a.detector.available_sem@);
            assert forall|t2: int, r2: int|
                0 <= t2 < b.rows() && 0 <= r2 < b.n_sem() implies #[trigger] b.detector.need_s()[
                t2
            ][r2] >= 0 by {
                assert(a.detector.need_s()[t2][r2] >= 0);
            }
            assert forall|r2: int| #[trigger] b.sem_live(r2) implies b.detector.available_sem@[
                r2
            ] as int + crate::detector::col_total(b.detector.alloc_s(), r2, b.rows()) == b.sem_of(
                r2,
            ).cap as int by {
                assert(a.sem_live(r2));
                if r2 == sid {
                    assert(crate::detector::col_total(st1.detector.alloc_s(), sid, b.rows())
                        == crate::detector::col_total(a.detector.alloc_s(), sid, b.rows()) - 1);
                    assert(crate::detector::col_total(b.detector.alloc_s(), sid, b.rows())
                        == crate::detector::col_total(st1.detector.alloc_s(), sid, b.rows()) + 1);
                } else {
                    assert(crate::detector::col_total(st1.detector.alloc_s(), r2, b.rows())
                        == crate::detector::col_total(a.detector.alloc_s(), r2, b.rows()));
                    assert(crate::detector::col_total(b.detector.alloc_s(), r2, b.rows())
                        == crate::detector::col_total(st1.detector.alloc_s(), r2, b.rows()));
                }
            }
            assert forall|r2: int| #[trigger] b.mutex_live(r2)
                implies b.detector.available_mutex@[r2] as int + crate::detector::col_total(
                b.detector.alloc_m(),
                r2,
                b.rows(),
            ) == 1 by {
                assert(a.mutex_live(r2));
            }
            assert forall|r2: int| #[trigger] b.mutex_live(r2) implies b.mutex_queue_wf(r2) by {
                assert(a.mutex_live(r2));
                assert(a.mutex_queue_wf(r2));
                let q2 = a.mutex_of(r2).queue();
                assert forall|i: int| 0 <= i < q2.len() implies q2[i] != h by {
                    assert(a.status_of(q2[i] as int) == ThreadStatus::BlockedOnMutex(r2 as usize));
                }
            }
            assert forall|r2: int| #[trigger] b.sem_live(r2) implies b.sem_wf(r2) by {
                assert(a.sem_live(r2));
                assert(a.sem_wf(r2));
                if r2 == sid {
                    assert forall|i: int| 0 <= i < hq.drop_first().len() implies hq.drop_first()[
                        i
                    ] != h by {
                        assert(hq.drop_first()[i] == hq[i + 1]);
                    }
                } else {
                    let q2 = a.sem_of(r2).wait_queue@;
                    assert forall|i: int| 0 <= i < q2.len() implies q2[i] != h by {
                        assert(a.status_of(q2[i] as int) == ThreadStatus::BlockedOnSem(
                            r2 as usize,
                        ));
                        if q2[i] == h {
                            assert(r2 as usize == sem_id);
                            assert(0 <= r2 < a.semaphores@.len());
                            assert(a.semaphores.len() == a.semaphores@.len());
                            assert(r2 == sid);
                            assert(false);
                        }
                    }
                }
            }
            assert forall|r2: int| #[trigger] b.cv_live(r2) implies b.cv_wf(r2) by {
                assert(a.cv_live(r2));
                assert(a.cv_wf(r2));
                let q2 = a.cv_of(r2).wait_queue@;
                assert forall|i: int| 0 <= i < q2.len() implies q2[i] != h by {
                    assert(a.status_of(q2[i] as int) == ThreadStatus::BlockedOnCondvar(
                        r2 as usize,
                    ));
                }
            }
            assert forall|t2: int| b.thread_live(t2) implies #[trigger] b.spinner_ok(t2) by {
                assert(a.thread_live(t2));
                assert(a.spinner_ok(t2));
            }
        }
        0
    }
}

/// Condition-variable wait: releases the held lock at the primitive level —
/// handing it to the head of its queue if any, with no release bookkeeping
/// for the caller — and suspends the caller on the condition variable's
/// FIFO queue.  Waking does not reacquire the lock; the caller relocks if
/// needed.
pub fn sys_condvar_wait(
    st: &mut ProcessState,
    tid: usize,
    condvar_id: usize,
    mutex_id: usize,
) -> (r: SysOutcome)
    requires
        old(st).wf(),
        old(st).runnable(tid as int),
        old(st).mutex_live(mutex_id as int) ==> old(st).mutex_handoff_fits(mutex_id as int),
    ensures
        final(st).wf(),
        !(old(st).cv_live(condvar_id as int) && old(st).mutex_live(mutex_id as int)) ==> r
            == SysOutcome::Ret(NO_SUCH_RESOURCE) && *final(st) == *old(st),
        old(st).cv_live(condvar_id as int) && old(st).mutex_live(mutex_id as int) ==> ({
            let cvid = condvar_id as int;
            let mid = mutex_id as int;
            let ti = tid as int;
            let q = old(st).mutex_of(mid).queue();
            &&& r == SysOutcome::Blocked
            &&& final(st).cv_live(cvid)
            &&& final(st).cv_of(cvid).wait_queue@ == old(st).cv_of(cvid).wait_queue@.push(tid)
            &&& final(st).thread_live(ti)
            &&& final(st).status_of(ti) == ThreadStatus::BlockedOnCondvar(condvar_id)
            &&& final(st).mutex_live(mid)
            &&& final(st).mutex_of(mid).is_blocking() == old(st).mutex_of(mid).is_blocking()
            &&& (q.len() == 0 ==> {
                &&& !final(st).mutex_of(mid).locked()
                &&& final(st).mutex_of(mid).queue().len() == 0
                &&& old(st).tasks_same_except(*final(st), ti)
                &&& final(st).detector.available_mutex == old(st).detector.available_mutex
                &&& final(st).detector.need_mutex == old(st).detector.need_mutex
                &&& final(st).detector.allocation_mutex == old(st).detector.allocation_mutex
            })
            &&& (q.len() > 0 ==> {
                let h = q[0] as int;
                &&& final(st).mutex_of(mid).locked()
                &&& final(st).mutex_of(mid).queue() == q.drop_first()
                &&& final(st).runnable(h)
                &&& final(st).detector.need_m() == old(st).detector.need_m().update(
                    h,
                    old(st).detector.need_m()[h].update(
                        mid,
                        (old(st).detector.need_m()[h][mid] - 1) as isize,
                    ),
                )
                &&& final(st).detector.alloc_m() == old(st).detector.alloc_m().update(
                    h,
                    old(st).detector.alloc_m()[h].update(
                        mid,
                        (old(st).detector.alloc_m()[h][mid] + 1) as isize,
                    ),
                )
                &&& final(st).detector.available_mutex@ == old(
                    st,
                ).detector.available_mutex@.update(
                    mid,
                    (old(st).detector.available_mutex@[mid] - 1) as isize,
                )
            })
            &&& (forall|j: int|
                0 <= j < old(st).n_cv() && j != cvid ==> final(st).condvars@[j] == old(
                    st,
                ).condvars@[j])
            &&& final(st).n_cv() == old(st).n_cv()
            &&& (forall|j: int|
                0 <= j < old(st).n_mutex() && j != mid ==> final(st).mutexes@[j] == old(
                    st,
                ).mutexes@[j])
            &&& final(st).n_mutex() == old(st).n_mutex()
            &&& final(st).semaphores == old(st).semaphores
            &&& final(st).detector.available_sem == old(st).detector.available_sem
            &&& final(st).detector.need_sem == old(st).detector.need_sem
            &&& final(st).detector.allocation_sem == old(st).detector.allocation_sem
            &&& final(st).detector.enabled == old(st).detector.enabled
        }),
{
    if condvar_id >= st.condvars.len() || mutex_id >= st.mutexes.len() {
        return SysOutcome::Ret(NO_SUCH_RESOURCE);
    }
    if st.condvars[condvar_id].is_none() || st.mutexes[mutex_id].is_none() {
        return SysOutcome::Ret(NO_SUCH_RESOURCE);
    }
    let ghost a = *old(st);
    let w = release_and_handoff(st, mutex_id);
    let ghost st1 = *st;
    proof {
        assert(a.cv_live(condvar_id as int));
        assert(st1.cv_live(condvar_id as int));
        if a.mutex_of(mutex_id as int).queue().len() > 0 {
            let h = a.mutex_of(mutex_id as int).queue()[0] as int;
            assert(a.mutex_live(mutex_id as int));
            assert(a.mutex_queue_wf(mutex_id as int));
            assert(a.status_of(h) == ThreadStatus::BlockedOnMutex(mutex_id));
            assert(h != tid as int);
            assert(st1.runnable(tid as int));
        }
    }
    match &mut st.condvars[condvar_id] {
        Some(c) => {
            c.wait_queue.push(tid);
        },
        None => {
            proof {
                assert(false);
            }
        },
    }
    set_task_status(&mut st.tasks, tid, ThreadStatus::BlockedOnCondvar(condvar_id));
    proof {
        let b = *st;
        let cvid = condvar_id as int;
        let ti = tid as int;
        assert forall|r2: int| #[trigger] b.mutex_live(r2) implies b.detector.available_mutex@[
            r2
        ] as int + crate::detector::col_total(b.detector.alloc_m(), r2, b.rows()) == 1 by {
            assert(st1.mutex_live(r2));
        }
        assert forall|r2: int| #[trigger] b.sem_live(r2) implies b.detector.available_sem@[
            r2
        ] as int + crate::detector::col_total(b.detector.alloc_s(), r2, b.rows()) == b.sem_of(
            r2,
        ).cap as int by {
            assert(st1.sem_live(r2));
        }
        assert forall|r2: int| #[trigger] b.mutex_live(r2) implies b.mutex_queue_wf(r2) by {
            assert(st1.mutex_live(r2));
            assert(st1.mutex_queue_wf(r2));
            let q2 = st1.mutex_of(r2).queue();
            assert forall|i: int| 0 <= i < q2.len() implies q2[i] != tid by {
                assert(st1.status_of(q2[i] as int) == ThreadStatus::BlockedOnMutex(r2 as usize));
            }
        }
        assert forall|r2: int| #[trigger] b.sem_live(r2) implies b.sem_wf(r2) by {
            assert(st1.sem_live(r2));
            assert(st1.sem_wf(r2));
            let q2 = st1.sem_of(r2).wait_queue@;
            assert forall|i: int| 0 <= i < q2.len() implies q2[i] != tid by {
                assert(st1.status_of(q2[i] as int) == ThreadStatus::BlockedOnSem(r2 as usize));
            }
        }
        assert forall|r2: int| #[trigger] b.cv_live(r2) implies b.cv_wf(r2) by {
            assert(st1.cv_live(r2));
            assert(st1.cv_wf(r2));
            let q2 = st1.cv_of(r2).wait_queue@;
            assert forall|i: int| 0 <= i < q2.len() implies q2[i] != tid by {
                assert(st1.status_of(q2[i] as int) == ThreadStatus::BlockedOnCondvar(r2 as usize));
            }
        }
        assert forall|t2: int| b.thread_live(t2) implies #[trigger] b.spinner_ok(t2) by {
            assert(st1.thread_live(t2));
            assert(st1.spinner_ok(t2));
        }
    }
    SysOutcome::Blocked
}

/// Creates a condition variable and returns its handle.  Condition
/// variables take no part in deadlock detection.
pub fn sys_condvar_create(st: &mut ProcessState, _arg: usize) -> (r: isize)
    requires
        old(st).wf(),
        old(st).condvars@.len() < isize::MAX as usize,
    ensures
        final(st).wf(),
        r >= 0,
        ({
            let id = r as int;
            &&& id <= old(st).n_cv()
            &&& final(st).cv_live(id)
            &&& final(st).cv_of(id).wait_queue@.len() == 0
            &&& (forall|j: int| 0 <= j < id ==> old(st).condvars@[j] is Some)
            &&& (id < old(st).n_cv() ==> old(st).condvars@[id] is None && final(st).n_cv() == old(st).n_cv())
            &&& (id == old(st).n_cv() ==> final(st).n_cv() == old(st).n_cv() + 1)
            &&& forall|j: int|
                0 <= j < old(st).n_cv() && j != id ==> final(st).condvars@[j] == old(st).condvars@[j]
        }),
        final(st).mutexes == old(st).mutexes,
        final(st).semaphores == old(st).semaphores,
        final(st).tasks == old(st).tasks,
        final(st).detector == old(st).detector,
{
    let id = alloc_slot(&mut st.condvars, CondvarState { wait_queue: Vec::new() });
    proof {
        let a = *old(st);
        let b = *st;
        assert forall|r: int| #[trigger] b.mutex_live(r) implies b.detector.available_mutex@[r] as int
            + crate::detector::col_total(b.detector.alloc_m(), r, b.rows()) == 1 by {
            assert(a.mutex_live(r));
        }
        assert forall|r: int| #[trigger] b.sem_live(r) implies b.detector.available_sem@[r] as int
            + crate::detector::col_total(b.detector.alloc_s(), r, b.rows()) == b.sem_of(
            r,
        ).cap as int by {
            assert(a.sem_live(r));
        }
        assert forall|r: int| #[trigger] b.mutex_live(r) implies b.mutex_queue_wf(r) by {
            assert(a.mutex_live(r));
            assert(a.mutex_queue_wf(r));
        }
        assert forall|r: int| #[trigger] b.sem_live(r) implies b.sem_wf(r) by {
            assert(a.sem_live(r));
            assert(a.sem_wf(r));
        }
        assert forall|r: int| #[trigger] b.cv_live(r) implies b.cv_wf(r) by {
            if r == id as int {
                assert(b.cv_of(r).wait_queue@.len() == 0);
            } else {
                assert(a.cv_live(r));
                assert(a.cv_wf(r));
            }
        }
        assert forall|t: int| b.thread_live(t) implies #[trigger] b.spinner_ok(t) by {
            assert(a.thread_live(t));
            assert(a.spinner_ok(t));
        }
    }
    id as isize
}

/// Wakes at most the head of the condition variable's FIFO queue; a no-op
/// when nobody waits.  The woken thread's `wait` completes with 0; it does
/// not reacquire any lock.
pub fn sys_condvar_signal(st: &mut ProcessState, condvar_id: usize) -> (r: isize)
    requires
        old(st).wf(),
    ensures
        final(st).wf(),
        !old(st).cv_live(condvar_id as int) ==> r == NO_SUCH_RESOURCE && *final(st) == *old(st),
        old(st).cv_live(condvar_id as int) ==> {
            let q = old(st).cv_of(condvar_id as int).wait_queue@;
            &&& r == 0
            &&& (q.len() == 0 ==> *final(st) == *old(st))
            &&& (q.len() > 0 ==> {
                &&& final(st).cv_of(condvar_id as int).wait_queue@ == q.drop_first()
                &&& final(st).cv_live(condvar_id as int)
                &&& final(st).runnable(q[0] as int)
                &&& old(st).tasks_same_except(*final(st), q[0] as int)
                &&& forall|j: int|
                    0 <= j < old(st).n_cv() && j != condvar_id as int ==> final(st).condvars@[j]
                        == old(st).condvars@[j]
                &&& final(st).n_cv() == old(st).n_cv()
                &&& final(st).mutexes == old(st).mutexes
                &&& final(st).semaphores == old(st).semaphores
                &&& final(st).detector == old(st).detector
            })
        },
{
    if condvar_id >= st.condvars.len() {
        return NO_SUCH_RESOURCE;
    }
    let qlen = match &st.condvars[condvar_id] {
        Some(c) => c.wait_queue.len(),
        None => {
            return NO_SUCH_RESOURCE;
        },
    };
    if qlen == 0 {
        return 0;
    }
    proof {
        assert(old(st).cv_live(condvar_id as int));
        assert(old(st).cv_wf(condvar_id as int));
    }
    let woken = match &mut st.condvars[condvar_id] {
        Some(c) => c.wait_queue.remove(0),
        None => {
            proof {
                assert(false);
            }
            0
        },
    };
    proof {
        assert(old(st).thread_live(woken as int));
    }
    match &mut st.tasks[woken] {
        Some(th) => {
            th.status = ThreadStatus::Runnable;
        },
        None => {
            proof {
                assert(false);
            }
        },
    }
    proof {
        let a = *old(st);
        let b = *st;
        let cvid = condvar_id as int;
        let q = a.cv_of(cvid).wait_queue@;
        assert(woken == q[0]);
        assert(b.cv_of(cvid).wait_queue@ =~= q.drop_first());
        assert(a.status_of(woken as int) == ThreadStatus::BlockedOnCondvar(condvar_id));
        assert forall|r: int| #[trigger] b.mutex_live(r) implies b.detector.available_mutex@[r] as int
            + crate::detector::col_total(b.detector.alloc_m(), r, b.rows()) == 1 by {
            assert(a.mutex_live(r));
        }
        assert forall|r: int| #[trigger] b.sem_live(r) implies b.detector.available_sem@[r] as int
            + crate::detector::col_total(b.detector.alloc_s(), r, b.rows()) == b.sem_of(
            r,
        ).cap as int by {
            assert(a.sem_live(r));
        }
        assert forall|r: int| #[trigger] b.mutex_live(r) implies b.mutex_queue_wf(r) by {
            assert(a.mutex_live(r));
            assert(a.mutex_queue_wf(r));
            let mq = a.mutex_of(r).queue();
            assert forall|i: int| 0 <= i < mq.len() implies mq[i] != woken by {
                assert(a.status_of(mq[i] as int) == ThreadStatus::BlockedOnMutex(r as usize));
            }
        }
        assert forall|r: int| #[trigger] b.sem_live(r) implies b.sem_wf(r) by {
            assert(a.sem_live(r));
            assert(a.sem_wf(r));
            let sq = a.sem_of(r).wait_queue@;
            assert forall|i: int| 0 <= i < sq.len() implies sq[i] != woken by {
                assert(a.status_of(sq[i] as int) == ThreadStatus::BlockedOnSem(r as usize));
            }
        }
        assert forall|r: int| #[trigger] b.cv_live(r) implies b.cv_wf(r) by {
            assert(a.cv_live(r));
            assert(a.cv_wf(r));
            if r == cvid {
                assert forall|i: int| 0 <= i < q.drop_first().len() implies q.drop_first()[i]
                    != woken by {
                    assert(q.drop_first()[i] == q[i + 1]);
                }
            } else {
                let cq = a.cv_of(r).wait_queue@;
                assert forall|i: int| 0 <= i < cq.len() implies cq[i] != woken by {
                    assert(a.status_of(cq[i] as int) == ThreadStatus::BlockedOnCondvar(
                        r as usize,
                    ));
                }
            }
        }
        assert forall|t: int| b.thread_live(t) implies #[trigger] b.spinner_ok(t) by {
            assert(a.thread_live(t));
            assert(a.spinner_ok(t));
        }
    }
    0
}

} // verus!
