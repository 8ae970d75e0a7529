use ksync::state::{ProcessState, SysOutcome, ThreadStatus};
use ksync::sync::{
    sys_condvar_create, sys_condvar_signal, sys_condvar_wait, sys_enable_deadlock_detect,
    sys_mutex_create, sys_mutex_lock, sys_mutex_lock_retry, sys_mutex_unlock,
    sys_semaphore_create, sys_semaphore_down, sys_semaphore_up, sys_sleep, DEADLOCK_SENTINEL,
    NO_SUCH_RESOURCE,
};
use ksync::tasks::sys_thread_create;

fn status_of(st: &ProcessState, tid: usize) -> ThreadStatus {
    st.tasks[tid].as_ref().unwrap().status
}

fn mutex_column_total(st: &ProcessState, id: usize) -> isize {
    let mut sum: isize = 0;
    for row in &st.detector.allocation_mutex {
        sum += row[id];
    }
    sum
}

fn sem_column_total(st: &ProcessState, id: usize) -> isize {
    let mut sum: isize = 0;
    for row in &st.detector.allocation_sem {
        sum += row[id];
    }
    sum
}

#[test]
fn sleep_computes_expiry() {
    assert_eq!(sys_sleep(100, 50), 150);
    assert_eq!(sys_sleep(0, 0), 0);
}

#[test]
fn sentinel_value_is_minus_0xdead() {
    assert_eq!(DEADLOCK_SENTINEL, -57005);
}

#[test]
fn enable_toggle_is_idempotent_and_rejects_other_flags() {
    let mut st = ProcessState::new();
    assert_eq!(sys_enable_deadlock_detect(&mut st, 1), 0);
    assert!(st.detector.enabled);
    assert_eq!(sys_enable_deadlock_detect(&mut st, 1), 0);
    assert!(st.detector.enabled);
    assert_eq!(sys_enable_deadlock_detect(&mut st, 2), -1);
    assert!(st.detector.enabled);
    assert_eq!(sys_enable_deadlock_detect(&mut st, 0), 0);
    assert!(!st.detector.enabled);
    assert_eq!(sys_enable_deadlock_detect(&mut st, 17), -1);
    assert!(!st.detector.enabled);
}

#[test]
fn create_returns_consecutive_handles() {
    let mut st = ProcessState::new();
    assert_eq!(sys_mutex_create(&mut st, true), 0);
    assert_eq!(sys_mutex_create(&mut st, false), 1);
    assert_eq!(sys_semaphore_create(&mut st, 3), 0);
    assert_eq!(sys_semaphore_create(&mut st, 0), 1);
    assert_eq!(sys_condvar_create(&mut st, 0), 0);
    assert_eq!(sys_condvar_create(&mut st, 0), 1);
}

#[test]
fn unknown_handles_are_recoverable_errors() {
    let mut st = ProcessState::new();
    let t0 = sys_thread_create(&mut st, 0, 0) as usize;
    assert_eq!(sys_mutex_lock(&mut st, t0, 5), SysOutcome::Ret(NO_SUCH_RESOURCE));
    assert_eq!(sys_mutex_unlock(&mut st, t0, 5), NO_SUCH_RESOURCE);
    assert_eq!(sys_semaphore_down(&mut st, t0, 5), SysOutcome::Ret(NO_SUCH_RESOURCE));
    assert_eq!(sys_semaphore_up(&mut st, t0, 5), NO_SUCH_RESOURCE);
    assert_eq!(sys_condvar_signal(&mut st, 5), NO_SUCH_RESOURCE);
    assert_eq!(sys_condvar_wait(&mut st, t0, 5, 0), SysOutcome::Ret(NO_SUCH_RESOURCE));
}

#[test]
fn circular_wait_with_detection_refuses_exactly_one() {
    let mut st = ProcessState::new();
    let t0 = sys_thread_create(&mut st, 0, 0) as usize;
    let t1 = sys_thread_create(&mut st, 0, 0) as usize;
    assert_eq!(sys_enable_deadlock_detect(&mut st, 1), 0);
    let a = sys_mutex_create(&mut st, true) as usize;
    let b = sys_mutex_create(&mut st, true) as usize;
    assert_eq!(sys_mutex_lock(&mut st, t0, a), SysOutcome::Ret(0));
    assert_eq!(sys_mutex_lock(&mut st, t1, b), SysOutcome::Ret(0));
    // Thread 0's request for B leaves a completion order (1 then 0): safe,
    // so it blocks on B's queue.
    assert_eq!(sys_mutex_lock(&mut st, t0, b), SysOutcome::Blocked);
    assert_eq!(status_of(&st, t0), ThreadStatus::BlockedOnMutex(b));
    // Thread 1's request for A closes the cycle: refused with the sentinel.
    assert_eq!(sys_mutex_lock(&mut st, t1, a), SysOutcome::Ret(DEADLOCK_SENTINEL));
    // Thread 1 keeps running (was not suspended); its need is not rolled
    // back — the documented quirk.
    assert_eq!(status_of(&st, t1), ThreadStatus::Runnable);
    assert_eq!(st.detector.need_mutex[t1][a], 1);
}

#[test]
fn circular_wait_without_detection_blocks_both() {
    let mut st = ProcessState::new();
    let t0 = sys_thread_create(&mut st, 0, 0) as usize;
    let t1 = sys_thread_create(&mut st, 0, 0) as usize;
    let a = sys_mutex_create(&mut st, true) as usize;
    let b = sys_mutex_create(&mut st, true) as usize;
    assert_eq!(sys_mutex_lock(&mut st, t0, a), SysOutcome::Ret(0));
    assert_eq!(sys_mutex_lock(&mut st, t1, b), SysOutcome::Ret(0));
    let ra = sys_mutex_lock(&mut st, t0, b);
    let rb = sys_mutex_lock(&mut st, t1, a);
    // Detection-disabled mode never returns the sentinel: both suspend
    // forever (nothing will wake them).
    assert_eq!(ra, SysOutcome::Blocked);
    assert_eq!(rb, SysOutcome::Blocked);
    assert_eq!(status_of(&st, t0), ThreadStatus::BlockedOnMutex(b));
    assert_eq!(status_of(&st, t1), ThreadStatus::BlockedOnMutex(a));
}

#[test]
fn semaphore_wakes_waiters_in_fifo_order() {
    let mut st = ProcessState::new();
    let t0 = sys_thread_create(&mut st, 0, 0) as usize;
    let t1 = sys_thread_create(&mut st, 0, 0) as usize;
    let t2 = sys_thread_create(&mut st, 0, 0) as usize;
    let t3 = sys_thread_create(&mut st, 0, 0) as usize;
    let s = sys_semaphore_create(&mut st, 0) as usize;
    assert_eq!(sys_semaphore_down(&mut st, t1, s), SysOutcome::Blocked);
    assert_eq!(sys_semaphore_down(&mut st, t2, s), SysOutcome::Blocked);
    assert_eq!(sys_semaphore_down(&mut st, t3, s), SysOutcome::Blocked);
    assert_eq!(st.semaphores[s].as_ref().unwrap().wait_queue, vec![t1, t2, t3]);

    assert_eq!(sys_semaphore_up(&mut st, t0, s), 0);
    assert_eq!(status_of(&st, t1), ThreadStatus::Runnable);
    assert_eq!(status_of(&st, t2), ThreadStatus::BlockedOnSem(s));
    assert_eq!(status_of(&st, t3), ThreadStatus::BlockedOnSem(s));
    assert_eq!(st.semaphores[s].as_ref().unwrap().wait_queue, vec![t2, t3]);

    assert_eq!(sys_semaphore_up(&mut st, t0, s), 0);
    assert_eq!(status_of(&st, t2), ThreadStatus::Runnable);
    assert_eq!(status_of(&st, t3), ThreadStatus::BlockedOnSem(s));

    assert_eq!(sys_semaphore_up(&mut st, t0, s), 0);
    assert_eq!(status_of(&st, t3), ThreadStatus::Runnable);
    assert_eq!(st.semaphores[s].as_ref().unwrap().wait_queue, Vec::<usize>::new());
    assert_eq!(st.semaphores[s].as_ref().unwrap().count, 0);
}

#[test]
fn blocking_unlock_hands_lock_to_queue_head() {
    let mut st = ProcessState::new();
    let t0 = sys_thread_create(&mut st, 0, 0) as usize;
    let t1 = sys_thread_create(&mut st, 0, 0) as usize;
    let m = sys_mutex_create(&mut st, true) as usize;
    assert_eq!(sys_mutex_lock(&mut st, t0, m), SysOutcome::Ret(0));
    assert_eq!(sys_mutex_lock(&mut st, t1, m), SysOutcome::Blocked);
    assert_eq!(sys_mutex_unlock(&mut st, t0, m), 0);
    // Ownership passed directly to the head; the lock never went free.
    assert_eq!(status_of(&st, t1), ThreadStatus::Runnable);
    assert_eq!(st.detector.allocation_mutex[t1][m], 1);
    assert_eq!(st.detector.allocation_mutex[t0][m], 0);
    assert_eq!(sys_mutex_unlock(&mut st, t1, m), 0);
    assert_eq!(st.detector.available_mutex[m], 1);
}

#[test]
fn spinning_lock_retries_until_free() {
    let mut st = ProcessState::new();
    let t0 = sys_thread_create(&mut st, 0, 0) as usize;
    let t1 = sys_thread_create(&mut st, 0, 0) as usize;
    let m = sys_mutex_create(&mut st, false) as usize;
    assert_eq!(sys_mutex_lock(&mut st, t0, m), SysOutcome::Ret(0));
    assert_eq!(sys_mutex_lock(&mut st, t1, m), SysOutcome::Spinning);
    assert_eq!(status_of(&st, t1), ThreadStatus::SpinningOnMutex(m));
    assert_eq!(sys_mutex_lock_retry(&mut st, t1, m), SysOutcome::Spinning);
    assert_eq!(sys_mutex_unlock(&mut st, t0, m), 0);
    assert_eq!(sys_mutex_lock_retry(&mut st, t1, m), SysOutcome::Ret(0));
    assert_eq!(status_of(&st, t1), ThreadStatus::Runnable);
    assert_eq!(st.detector.allocation_mutex[t1][m], 1);
}

#[test]
fn condvar_wait_releases_lock_and_signal_wakes_head() {
    let mut st = ProcessState::new();
    let t0 = sys_thread_create(&mut st, 0, 0) as usize;
    let t1 = sys_thread_create(&mut st, 0, 0) as usize;
    let m = sys_mutex_create(&mut st, true) as usize;
    let cv = sys_condvar_create(&mut st, 0) as usize;
    assert_eq!(sys_mutex_lock(&mut st, t0, m), SysOutcome::Ret(0));
    assert_eq!(sys_condvar_wait(&mut st, t0, cv, m), SysOutcome::Blocked);
    assert_eq!(status_of(&st, t0), ThreadStatus::BlockedOnCondvar(cv));
    // The lock was released at the primitive level, so another thread can
    // take it.
    assert_eq!(sys_mutex_lock(&mut st, t1, m), SysOutcome::Ret(0));
    // Signal wakes exactly the head; waking does not reacquire the lock.
    assert_eq!(sys_condvar_signal(&mut st, cv), 0);
    assert_eq!(status_of(&st, t0), ThreadStatus::Runnable);
    // Signalling an empty queue is a no-op.
    assert_eq!(sys_condvar_signal(&mut st, cv), 0);
}

#[test]
fn capacity_is_conserved_at_every_observed_instant() {
    let mut st = ProcessState::new();
    let t0 = sys_thread_create(&mut st, 0, 0) as usize;
    let t1 = sys_thread_create(&mut st, 0, 0) as usize;
    let m = sys_mutex_create(&mut st, true) as usize;
    let s = sys_semaphore_create(&mut st, 2) as usize;
    assert_eq!(st.detector.available_mutex[m] + mutex_column_total(&st, m), 1);
    assert_eq!(st.detector.available_sem[s] + sem_column_total(&st, s), 2);
    assert_eq!(sys_mutex_lock(&mut st, t0, m), SysOutcome::Ret(0));
    assert_eq!(st.detector.available_mutex[m] + mutex_column_total(&st, m), 1);
    assert_eq!(sys_mutex_lock(&mut st, t1, m), SysOutcome::Blocked);
    assert_eq!(st.detector.available_mutex[m] + mutex_column_total(&st, m), 1);
    assert_eq!(sys_semaphore_down(&mut st, t0, s), SysOutcome::Ret(0));
    assert_eq!(st.detector.available_sem[s] + sem_column_total(&st, s), 2);
    assert_eq!(sys_mutex_unlock(&mut st, t0, m), 0);
    assert_eq!(st.detector.available_mutex[m] + mutex_column_total(&st, m), 1);
    assert_eq!(sys_semaphore_up(&mut st, t0, s), 0);
    assert_eq!(st.detector.available_sem[s] + sem_column_total(&st, s), 2);
}

#[test]
fn condvar_wait_skips_release_bookkeeping_yet_conserves_capacity() {
    // Waiting on a condition variable releases the lock without the
    // release bookkeeping, so `available` can go negative when the lock is
    // retaken — but the conservation sum still holds.
    let mut st = ProcessState::new();
    let t0 = sys_thread_create(&mut st, 0, 0) as usize;
    let t1 = sys_thread_create(&mut st, 0, 0) as usize;
    let m = sys_mutex_create(&mut st, true) as usize;
    let cv = sys_condvar_create(&mut st, 0) as usize;
    assert_eq!(sys_mutex_lock(&mut st, t0, m), SysOutcome::Ret(0));
    assert_eq!(sys_condvar_wait(&mut st, t0, cv, m), SysOutcome::Blocked);
    assert_eq!(sys_mutex_lock(&mut st, t1, m), SysOutcome::Ret(0));
    assert_eq!(st.detector.available_mutex[m], -1);
    assert_eq!(st.detector.allocation_mutex[t0][m], 1);
    assert_eq!(st.detector.allocation_mutex[t1][m], 1);
    assert_eq!(st.detector.available_mutex[m] + mutex_column_total(&st, m), 1);
}

#[test]
fn down_on_empty_semaphore_with_detection_is_refused() {
    let mut st = ProcessState::new();
    let t0 = sys_thread_create(&mut st, 0, 0) as usize;
    assert_eq!(sys_enable_deadlock_detect(&mut st, 1), 0);
    let s = sys_semaphore_create(&mut st, 0) as usize;
    assert_eq!(sys_semaphore_down(&mut st, t0, s), SysOutcome::Ret(DEADLOCK_SENTINEL));
    // The need increment is kept even on refusal.
    assert_eq!(st.detector.need_sem[t0][s], 1);
}

#[test]
fn down_within_capacity_with_detection_is_granted() {
    let mut st = ProcessState::new();
    let t0 = sys_thread_create(&mut st, 0, 0) as usize;
    assert_eq!(sys_enable_deadlock_detect(&mut st, 1), 0);
    let s = sys_semaphore_create(&mut st, 1) as usize;
    assert_eq!(sys_semaphore_down(&mut st, t0, s), SysOutcome::Ret(0));
    assert_eq!(st.detector.allocation_sem[t0][s], 1);
    assert_eq!(st.detector.need_sem[t0][s], 0);
    assert_eq!(st.detector.available_sem[s], 0);
}
