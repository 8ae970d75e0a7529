use ksync::state::{ProcessState, ThreadStatus};
use ksync::sync::{sys_mutex_create, sys_semaphore_create};
use ksync::tasks::{sys_gettid, sys_thread_create, sys_waittid, thread_exit};

#[test]
fn thread_ids_grow_monotonically() {
    let mut st = ProcessState::new();
    assert_eq!(sys_thread_create(&mut st, 0x1000, 7), 0);
    assert_eq!(sys_thread_create(&mut st, 0x2000, 8), 1);
    assert_eq!(sys_thread_create(&mut st, 0x3000, 9), 2);
    let th = st.tasks[1].as_ref().unwrap();
    assert_eq!(th.entry, 0x2000);
    assert_eq!(th.arg, 8);
    assert_eq!(th.status, ThreadStatus::Runnable);
}

#[test]
fn gettid_reports_the_callers_id() {
    let mut st = ProcessState::new();
    let t0 = sys_thread_create(&mut st, 0, 0) as usize;
    let t1 = sys_thread_create(&mut st, 0, 0) as usize;
    assert_eq!(sys_gettid(&st, t0), 0);
    assert_eq!(sys_gettid(&st, t1), 1);
}

#[test]
fn new_thread_rows_match_existing_resource_columns() {
    let mut st = ProcessState::new();
    let m = sys_mutex_create(&mut st, true) as usize;
    let s = sys_semaphore_create(&mut st, 4) as usize;
    let t0 = sys_thread_create(&mut st, 0, 0) as usize;
    assert_eq!(st.detector.need_mutex[t0].len(), 1);
    assert_eq!(st.detector.allocation_mutex[t0].len(), 1);
    assert_eq!(st.detector.need_sem[t0].len(), 1);
    assert_eq!(st.detector.allocation_sem[t0].len(), 1);
    assert_eq!(st.detector.need_mutex[t0][m], 0);
    assert_eq!(st.detector.allocation_sem[t0][s], 0);
    // And resource creation after the thread extends its row.
    let m2 = sys_mutex_create(&mut st, false) as usize;
    assert_eq!(st.detector.need_mutex[t0].len(), 2);
    assert_eq!(st.detector.need_mutex[t0][m2], 0);
}

#[test]
fn join_semantics_follow_the_taxonomy() {
    let mut st = ProcessState::new();
    let t0 = sys_thread_create(&mut st, 0, 0) as usize;
    let t1 = sys_thread_create(&mut st, 0, 0) as usize;
    // Self-wait is rejected.
    assert_eq!(sys_waittid(&mut st, t0, t0), -1);
    // An id never bound to a thread slot is rejected.
    assert_eq!(sys_waittid(&mut st, t0, 9), -1);
    // A live, still-running target is transient.
    assert_eq!(sys_waittid(&mut st, t0, t1), -2);
    // After the target exits, its code is returned exactly once.
    thread_exit(&mut st, t1, 42);
    assert_eq!(sys_waittid(&mut st, t0, t1), 42);
    assert!(st.tasks[t1].is_none());
    // The slot was cleared: a second join reports no such thread.
    assert_eq!(sys_waittid(&mut st, t0, t1), -1);
}

#[test]
fn reaped_thread_keeps_its_detector_rows() {
    let mut st = ProcessState::new();
    let t0 = sys_thread_create(&mut st, 0, 0) as usize;
    let t1 = sys_thread_create(&mut st, 0, 0) as usize;
    let _m = sys_mutex_create(&mut st, true) as usize;
    thread_exit(&mut st, t1, 0);
    assert_eq!(sys_waittid(&mut st, t0, t1), 0);
    // The matrices keep a (zero) row for the reaped id.
    assert_eq!(st.detector.need_mutex.len(), 2);
    assert_eq!(st.detector.allocation_mutex.len(), 2);
    assert_eq!(st.detector.need_mutex[t1][0], 0);
}

#[test]
fn exit_code_convention_is_not_enforced() {
    // Negative exit codes are passed through as recorded.
    let mut st = ProcessState::new();
    let t0 = sys_thread_create(&mut st, 0, 0) as usize;
    let t1 = sys_thread_create(&mut st, 0, 0) as usize;
    thread_exit(&mut st, t1, -7);
    assert_eq!(sys_waittid(&mut st, t0, t1), -7);
}
