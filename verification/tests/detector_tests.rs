use ksync::detector::{run_safety_check, DetectorBlock};

fn matrix(rows: &[&[isize]]) -> Vec<Vec<isize>> {
    let mut m: Vec<Vec<isize>> = Vec::new();
    for r in rows {
        m.push(r.to_vec());
    }
    m
}

#[test]
fn safety_check_empty_state_is_safe() {
    let avail: Vec<isize> = Vec::new();
    let alloc: Vec<Vec<isize>> = Vec::new();
    let need: Vec<Vec<isize>> = Vec::new();
    assert!(run_safety_check(&avail, &alloc, &need));
}

#[test]
fn safety_check_grants_chain() {
    // Two threads holding one lock each; thread 0 asks for the other lock.
    // Thread 1 can finish (needs nothing), returning lock 1, which then
    // satisfies thread 0: safe.
    let avail: Vec<isize> = vec![0, 0];
    let alloc = matrix(&[&[1, 0], &[0, 1]]);
    let need = matrix(&[&[0, 1], &[0, 0]]);
    assert!(run_safety_check(&avail, &alloc, &need));
}

#[test]
fn safety_check_circular_wait_is_unsafe() {
    // Classic circular wait: each thread holds one lock and needs the
    // other; nobody can finish.
    let avail: Vec<isize> = vec![0, 0];
    let alloc = matrix(&[&[1, 0], &[0, 1]]);
    let need = matrix(&[&[0, 1], &[1, 0]]);
    assert!(!run_safety_check(&avail, &alloc, &need));
}

#[test]
fn safety_check_single_unit_semaphore() {
    // One semaphore with one free unit and two requesters, one unit each:
    // they can be served in turn.
    let avail: Vec<isize> = vec![1];
    let alloc = matrix(&[&[0], &[0]]);
    let need = matrix(&[&[1], &[1]]);
    assert!(run_safety_check(&avail, &alloc, &need));
}

#[test]
fn safety_check_empty_semaphore_refuses_waiter() {
    // A request against an empty semaphore can never be satisfied.
    let avail: Vec<isize> = vec![0];
    let alloc = matrix(&[&[0]]);
    let need = matrix(&[&[1]]);
    assert!(!run_safety_check(&avail, &alloc, &need));
}

#[test]
fn detect_disabled_reports_safe_without_reasoning() {
    let block = DetectorBlock {
        available_mutex: vec![0, 0],
        need_mutex: matrix(&[&[0, 1], &[1, 0]]),
        allocation_mutex: matrix(&[&[1, 0], &[0, 1]]),
        available_sem: Vec::new(),
        need_sem: matrix(&[&[], &[]]),
        allocation_sem: matrix(&[&[], &[]]),
        enabled: false,
    };
    assert!(block.detect_mutex());
}

#[test]
fn detect_enabled_refuses_circular_wait() {
    let block = DetectorBlock {
        available_mutex: vec![0, 0],
        need_mutex: matrix(&[&[0, 1], &[1, 0]]),
        allocation_mutex: matrix(&[&[1, 0], &[0, 1]]),
        available_sem: Vec::new(),
        need_sem: matrix(&[&[], &[]]),
        allocation_sem: matrix(&[&[], &[]]),
        enabled: true,
    };
    assert!(!block.detect_mutex());
}
