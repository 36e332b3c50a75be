use sync_registry::state::{MutexKind, ProcessSync};
use sync_registry::syscalls::{
    condvar_free, mutex_free, mutex_lock_granted, semaphore_down_granted, semaphore_free,
    sys_condvar_create, sys_condvar_signal, sys_condvar_wait, sys_enable_deadlock_detect,
    sys_mutex_create, sys_mutex_lock, sys_mutex_unlock, sys_semaphore_create, sys_semaphore_down,
    sys_semaphore_up, sys_sleep,
};
use sync_registry::{BUSY_RC, DEADLOCK_RC, INVALID_ARG_RC, INVALID_HANDLE_RC, OK_RC};

fn held(state: &ProcessSync, tid: usize, sid: usize) -> usize {
    state.sem_alloc[tid][sid]
}

#[test]
fn sleep_returns_deadline() {
    assert_eq!(sys_sleep(100, 50), (150, OK_RC));
    assert_eq!(sys_sleep(0, 0), (0, OK_RC));
}

#[test]
fn mutex_ids_are_sequential() {
    let mut st = ProcessSync::new();
    assert_eq!(sys_mutex_create(&mut st, false), 0);
    assert_eq!(sys_mutex_create(&mut st, true), 1);
    assert_eq!(sys_mutex_create(&mut st, true), 2);
    assert_eq!(st.mutex_list[0], Some(MutexKind::Spin));
    assert_eq!(st.mutex_list[1], Some(MutexKind::Blocking));
}

#[test]
fn mutex_slot_reuse_takes_lowest_free_slot() {
    let mut st = ProcessSync::new();
    assert_eq!(sys_mutex_create(&mut st, true), 0);
    assert_eq!(sys_mutex_create(&mut st, true), 1);
    assert_eq!(sys_mutex_create(&mut st, true), 2);
    assert_eq!(mutex_free(&mut st, 1), OK_RC);
    // the freed slot is reused before the table grows
    assert_eq!(sys_mutex_create(&mut st, false), 1);
    assert_eq!(sys_mutex_create(&mut st, false), 3);
}

#[test]
fn semaphore_slot_reuse_takes_lowest_free_slot() {
    let mut st = ProcessSync::new();
    st.register_thread();
    assert_eq!(sys_semaphore_create(&mut st, 2), 0);
    assert_eq!(sys_semaphore_create(&mut st, 5), 1);
    assert_eq!(semaphore_free(&mut st, 0), OK_RC);
    assert_eq!(sys_semaphore_create(&mut st, 7), 0);
    assert_eq!(st.semaphore_list[0], Some(7));
    assert_eq!(st.sem_avail[0], 7);
    assert_eq!(held(&st, 0, 0), 0);
    assert_eq!(sys_semaphore_create(&mut st, 1), 2);
}

#[test]
fn condvar_slot_reuse_takes_lowest_free_slot() {
    let mut st = ProcessSync::new();
    assert_eq!(sys_condvar_create(&mut st, 0), 0);
    assert_eq!(sys_condvar_create(&mut st, 0), 1);
    assert_eq!(condvar_free(&mut st, 0), OK_RC);
    assert_eq!(sys_condvar_create(&mut st, 0), 0);
    assert_eq!(sys_condvar_create(&mut st, 0), 2);
}

#[test]
fn semaphore_conservation_through_down_and_up() {
    let mut st = ProcessSync::new();
    let t0 = st.register_thread();
    let t1 = st.register_thread();
    let s = sys_semaphore_create(&mut st, 3) as usize;
    let capacity = 3;
    assert_eq!(st.sem_avail[s] + held(&st, t0, s) + held(&st, t1, s), capacity);
    assert_eq!(sys_semaphore_down(&mut st, t0, s), OK_RC);
    semaphore_down_granted(&mut st, t0, s);
    assert_eq!(st.sem_avail[s] + held(&st, t0, s) + held(&st, t1, s), capacity);
    assert_eq!(sys_semaphore_down(&mut st, t1, s), OK_RC);
    semaphore_down_granted(&mut st, t1, s);
    assert_eq!(st.sem_avail[s], 1);
    assert_eq!(st.sem_avail[s] + held(&st, t0, s) + held(&st, t1, s), capacity);
    assert_eq!(sys_semaphore_up(&mut st, t0, s), OK_RC);
    assert_eq!(st.sem_avail[s], 2);
    assert_eq!(st.sem_avail[s] + held(&st, t0, s) + held(&st, t1, s), capacity);
}

#[test]
fn mutex_holder_is_exclusive() {
    let mut st = ProcessSync::new();
    let t0 = st.register_thread();
    let t1 = st.register_thread();
    let m = sys_mutex_create(&mut st, true) as usize;
    assert_eq!(sys_mutex_lock(&mut st, t0, m), OK_RC);
    mutex_lock_granted(&mut st, t0, m);
    assert_eq!(st.mutex_alloc[m], Some(t0));
    // a second lock on a held mutex blocks: it is recorded, the holder stays
    assert_eq!(sys_mutex_lock(&mut st, t1, m), OK_RC);
    assert_eq!(st.mutex_alloc[m], Some(t0));
    assert_eq!(st.mutex_request[t1], Some(m));
    // only an unlock changes the holder
    assert_eq!(sys_mutex_unlock(&mut st, m), OK_RC);
    assert_eq!(st.mutex_alloc[m], None);
    mutex_lock_granted(&mut st, t1, m);
    assert_eq!(st.mutex_alloc[m], Some(t1));
}

#[test]
fn cross_mutex_wait_is_reported_as_deadlock() {
    let mut st = ProcessSync::new();
    let t0 = st.register_thread();
    let t1 = st.register_thread();
    let m0 = sys_mutex_create(&mut st, true) as usize;
    let m1 = sys_mutex_create(&mut st, true) as usize;
    assert_eq!(sys_enable_deadlock_detect(&mut st, 1), OK_RC);
    assert_eq!(sys_mutex_lock(&mut st, t0, m0), OK_RC);
    mutex_lock_granted(&mut st, t0, m0);
    assert_eq!(sys_mutex_lock(&mut st, t1, m1), OK_RC);
    mutex_lock_granted(&mut st, t1, m1);
    // t0 blocks on m1: the chain ends at t1, which waits on nothing
    assert_eq!(sys_mutex_lock(&mut st, t0, m1), OK_RC);
    // t1 requesting m0 closes the cycle t1 -> m0 -> t0 -> m1 -> t1
    assert_eq!(sys_mutex_lock(&mut st, t1, m0), DEADLOCK_RC);
    assert_eq!(DEADLOCK_RC, -0xdead);
    // the aborted call granted nothing and left no pending request
    assert_eq!(st.mutex_alloc[m0], Some(t0));
    assert_eq!(st.mutex_alloc[m1], Some(t1));
    assert_eq!(st.mutex_request[t1], None);
}

#[test]
fn relocking_a_released_mutex_never_deadlocks() {
    let mut st = ProcessSync::new();
    let t0 = st.register_thread();
    let m = sys_mutex_create(&mut st, false) as usize;
    assert_eq!(sys_enable_deadlock_detect(&mut st, 1), OK_RC);
    for _ in 0..5 {
        assert_eq!(sys_mutex_lock(&mut st, t0, m), OK_RC);
        mutex_lock_granted(&mut st, t0, m);
        assert_eq!(sys_mutex_unlock(&mut st, m), OK_RC);
    }
}

#[test]
fn cross_mutex_wait_with_detection_off_is_not_reported() {
    let mut st = ProcessSync::new();
    let t0 = st.register_thread();
    let t1 = st.register_thread();
    let m0 = sys_mutex_create(&mut st, true) as usize;
    let m1 = sys_mutex_create(&mut st, true) as usize;
    assert_eq!(sys_enable_deadlock_detect(&mut st, 0), OK_RC);
    assert_eq!(sys_mutex_lock(&mut st, t0, m0), OK_RC);
    mutex_lock_granted(&mut st, t0, m0);
    assert_eq!(sys_mutex_lock(&mut st, t1, m1), OK_RC);
    mutex_lock_granted(&mut st, t1, m1);
    assert_eq!(sys_mutex_lock(&mut st, t0, m1), OK_RC);
    // both threads block; their fate is the blocking primitive's business
    assert_eq!(sys_mutex_lock(&mut st, t1, m0), OK_RC);
    assert_eq!(st.mutex_request[t0], Some(m1));
    assert_eq!(st.mutex_request[t1], Some(m0));
}

#[test]
fn circular_semaphore_wait_is_reported_as_deadlock() {
    let mut st = ProcessSync::new();
    let t0 = st.register_thread();
    let t1 = st.register_thread();
    let s0 = sys_semaphore_create(&mut st, 1) as usize;
    let s1 = sys_semaphore_create(&mut st, 1) as usize;
    assert_eq!(sys_enable_deadlock_detect(&mut st, 1), OK_RC);
    assert_eq!(sys_semaphore_down(&mut st, t0, s0), OK_RC);
    semaphore_down_granted(&mut st, t0, s0);
    assert_eq!(sys_semaphore_down(&mut st, t1, s1), OK_RC);
    semaphore_down_granted(&mut st, t1, s1);
    // t0 blocks on s1: t1 is not waiting, so it could still release s1
    assert_eq!(sys_semaphore_down(&mut st, t0, s1), OK_RC);
    // each now holds the unit the other requests
    assert_eq!(sys_semaphore_down(&mut st, t1, s0), DEADLOCK_RC);
    // the aborted call left no pending request and moved no unit
    assert_eq!(st.sem_request[t1], None);
    assert_eq!(st.sem_request[t0], Some(s1));
    assert_eq!(st.sem_avail[s0], 0);
    assert_eq!(st.sem_avail[s1], 0);
    assert_eq!(held(&st, t0, s0), 1);
    assert_eq!(held(&st, t1, s1), 1);
}

#[test]
fn single_thread_semaphore_reuse_never_deadlocks() {
    let mut st = ProcessSync::new();
    let t0 = st.register_thread();
    let s = sys_semaphore_create(&mut st, 1) as usize;
    assert_eq!(sys_enable_deadlock_detect(&mut st, 1), OK_RC);
    for _ in 0..3 {
        assert_eq!(sys_semaphore_down(&mut st, t0, s), OK_RC);
        semaphore_down_granted(&mut st, t0, s);
        assert_eq!(sys_semaphore_up(&mut st, t0, s), OK_RC);
    }
    assert_eq!(st.sem_avail[s], 1);
}

#[test]
fn invalid_detection_toggle_is_refused() {
    let mut st = ProcessSync::new();
    assert_eq!(sys_enable_deadlock_detect(&mut st, 2), INVALID_ARG_RC);
    assert!(!st.deadlock_det_enabled);
    assert_eq!(sys_enable_deadlock_detect(&mut st, usize::MAX), INVALID_ARG_RC);
    assert!(!st.deadlock_det_enabled);
    assert_eq!(sys_enable_deadlock_detect(&mut st, 1), OK_RC);
    assert!(st.deadlock_det_enabled);
    assert_eq!(sys_enable_deadlock_detect(&mut st, 7), INVALID_ARG_RC);
    assert!(st.deadlock_det_enabled);
    assert_eq!(sys_enable_deadlock_detect(&mut st, 0), OK_RC);
    assert!(!st.deadlock_det_enabled);
}

#[test]
fn out_of_range_and_freed_handles_are_refused() {
    let mut st = ProcessSync::new();
    let t0 = st.register_thread();
    assert_eq!(sys_mutex_lock(&mut st, t0, 0), INVALID_HANDLE_RC);
    assert_eq!(sys_mutex_unlock(&mut st, 3), INVALID_HANDLE_RC);
    assert_eq!(sys_semaphore_down(&mut st, t0, 0), INVALID_HANDLE_RC);
    assert_eq!(sys_condvar_signal(&st, 0), INVALID_HANDLE_RC);
    assert_eq!(sys_condvar_wait(&st, 0, 0), INVALID_HANDLE_RC);
    assert_eq!(mutex_free(&mut st, 0), INVALID_HANDLE_RC);
    assert_eq!(semaphore_free(&mut st, 0), INVALID_HANDLE_RC);
    assert_eq!(condvar_free(&mut st, 0), INVALID_HANDLE_RC);
    let m = sys_mutex_create(&mut st, true) as usize;
    assert_eq!(mutex_free(&mut st, m), OK_RC);
    assert_eq!(sys_mutex_lock(&mut st, t0, m), INVALID_HANDLE_RC);
    assert_eq!(sys_mutex_unlock(&mut st, m), INVALID_HANDLE_RC);
}

#[test]
fn busy_resources_cannot_be_freed() {
    let mut st = ProcessSync::new();
    let t0 = st.register_thread();
    let t1 = st.register_thread();
    let m = sys_mutex_create(&mut st, true) as usize;
    assert_eq!(sys_mutex_lock(&mut st, t0, m), OK_RC);
    mutex_lock_granted(&mut st, t0, m);
    assert_eq!(mutex_free(&mut st, m), BUSY_RC);
    assert_eq!(sys_mutex_lock(&mut st, t1, m), OK_RC);
    assert_eq!(sys_mutex_unlock(&mut st, m), OK_RC);
    // t1 still awaits the mutex, so the slot stays busy
    assert_eq!(mutex_free(&mut st, m), BUSY_RC);
    mutex_lock_granted(&mut st, t1, m);
    assert_eq!(sys_mutex_unlock(&mut st, m), OK_RC);
    assert_eq!(mutex_free(&mut st, m), OK_RC);

    let s = sys_semaphore_create(&mut st, 2) as usize;
    assert_eq!(sys_semaphore_down(&mut st, t0, s), OK_RC);
    semaphore_down_granted(&mut st, t0, s);
    assert_eq!(semaphore_free(&mut st, s), BUSY_RC);
    assert_eq!(sys_semaphore_up(&mut st, t0, s), OK_RC);
    assert_eq!(semaphore_free(&mut st, s), OK_RC);
}

#[test]
fn condvar_operations_validate_their_handles() {
    let mut st = ProcessSync::new();
    let c = sys_condvar_create(&mut st, 0) as usize;
    let m = sys_mutex_create(&mut st, true) as usize;
    assert_eq!(sys_condvar_signal(&st, c), OK_RC);
    assert_eq!(sys_condvar_wait(&st, c, m), OK_RC);
    assert_eq!(sys_condvar_wait(&st, c, m + 1), INVALID_HANDLE_RC);
    assert_eq!(condvar_free(&mut st, c), OK_RC);
    assert_eq!(sys_condvar_signal(&st, c), INVALID_HANDLE_RC);
}

#[test]
fn new_semaphore_extends_every_ledger_row() {
    let mut st = ProcessSync::new();
    let t0 = st.register_thread();
    let t1 = st.register_thread();
    let s0 = sys_semaphore_create(&mut st, 4) as usize;
    assert_eq!(st.sem_alloc[t0].len(), 1);
    assert_eq!(st.sem_alloc[t1].len(), 1);
    let s1 = sys_semaphore_create(&mut st, 9) as usize;
    assert_eq!(st.sem_alloc[t0].len(), 2);
    assert_eq!(held(&st, t1, s1), 0);
    assert_eq!(st.sem_avail[s0], 4);
    assert_eq!(st.sem_avail[s1], 9);
    // a thread registered later gets a full-width row of zeroes
    let t2 = st.register_thread();
    assert_eq!(st.sem_alloc[t2].len(), 2);
    assert_eq!(held(&st, t2, s0), 0);
}

#[test]
fn detection_considers_third_party_releases() {
    // t0 and t1 both wait on a unit that t2 can still release: no deadlock
    let mut st = ProcessSync::new();
    let t0 = st.register_thread();
    let t1 = st.register_thread();
    let t2 = st.register_thread();
    let s = sys_semaphore_create(&mut st, 2) as usize;
    assert_eq!(sys_enable_deadlock_detect(&mut st, 1), OK_RC);
    assert_eq!(sys_semaphore_down(&mut st, t2, s), OK_RC);
    semaphore_down_granted(&mut st, t2, s);
    assert_eq!(sys_semaphore_down(&mut st, t0, s), OK_RC);
    semaphore_down_granted(&mut st, t0, s);
    // no unit left: t1's request is recorded, but t0 and t2 hold releasable units
    assert_eq!(sys_semaphore_down(&mut st, t1, s), OK_RC);
    assert_eq!(st.sem_request[t1], Some(s));
}
