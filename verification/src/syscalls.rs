//! Syscall-style entry points of the registry.
//!
//! Each operation validates its handle, updates the ledger, and runs the
//! matching detector when detection is enabled.  Operations never block:
//! where a request would suspend the thread, the entry point
//! records the pending request and returns success, the caller delegates the
//! blocking to the outside primitive, and reports the grant back through the
//! matching `*_granted` operation once the primitive returns.
use vstd::prelude::*;

use crate::ledger::{held_sum, held_total, row_held};
use crate::ledger::{
    lemma_held_sum_all_zero, lemma_held_sum_congruent, lemma_held_sum_member_le,
    lemma_held_sum_update,
};
use crate::mutex_detect::{mutex_deadlock, mutex_deadlock_scan};
use crate::sem_detect::{sem_deadlock_scan, sem_deadlocked};
use crate::state::{
    lemma_wf_mutex_side, lemma_wf_sem_side, lemma_wf_unchanged_fields, same_condvar_table,
    same_mutex_tables, same_requests, same_sem_tables, same_state, CondvarHandle, MutexKind,
    ProcessSync,
};
use crate::{BUSY_RC, DEADLOCK_RC, INVALID_ARG_RC, INVALID_HANDLE_RC, OK_RC};

verus! {

/// Computes the wake deadline of a plain timed sleep.  Registering the
/// deadline with the timer and suspending the thread happen outside the
/// registry; the operation itself always succeeds.
pub fn sys_sleep(now_ms: usize, ms: usize) -> (r: (usize, isize))
    requires
        now_ms + ms <= usize::MAX,
    ensures
        r.0 == now_ms + ms,
        r.1 == OK_RC,
{
    (now_ms + ms, OK_RC)
}

/// Turns deadlock detection on (`1`) or off (`0`).  Any other value is
/// refused and leaves the setting unchanged.
pub fn sys_enable_deadlock_detect(state: &mut ProcessSync, enabled: usize) -> (r: isize)
    ensures
        same_mutex_tables(*old(state), *final(state)),
        same_sem_tables(*old(state), *final(state)),
        same_requests(*old(state), *final(state)),
        same_condvar_table(*old(state), *final(state)),
        enabled == 0 ==> r == OK_RC && !final(state).deadlock_det_enabled,
        enabled == 1 ==> r == OK_RC && final(state).deadlock_det_enabled,
        enabled > 1 ==> r == INVALID_ARG_RC && final(state).deadlock_det_enabled == old(
            state,
        ).deadlock_det_enabled,
        old(state).wf() ==> final(state).wf(),
{
    let r = match enabled {
        0 => {
            state.deadlock_det_enabled = false;
            OK_RC
        },
        1 => {
            state.deadlock_det_enabled = true;
            OK_RC
        },
        _ => INVALID_ARG_RC,
    };
    proof {
        if old(state).wf() {
            lemma_wf_unchanged_fields(*old(state), *state);
        }
    }
    r
}

/// Installs a mutex of the requested flavor in the lowest free slot, or in a
/// new slot when none is free, and returns the slot id.
#[verifier::loop_isolation(false)]
pub fn sys_mutex_create(state: &mut ProcessSync, blocking: bool) -> (id: isize)
    requires
        old(state).wf(),
        old(state).n_mutexes() < isize::MAX as int,
    ensures
        final(state).wf(),
        0 <= id as int && id as int <= old(state).n_mutexes(),
        forall|j: int| 0 <= j < id as int ==> (#[trigger] old(state).mutex_list@[j]) is Some,
        (id as int) < old(state).n_mutexes() ==> {
            &&& old(state).mutex_list@[id as int] is None
            &&& final(state).mutex_list@ == old(state).mutex_list@.update(
                id as int,
                Some(if blocking { MutexKind::Blocking } else { MutexKind::Spin }),
            )
            &&& final(state).mutex_alloc@ == old(state).mutex_alloc@.update(
                id as int,
                None::<usize>,
            )
        },
        id as int == old(state).n_mutexes() ==> {
            &&& final(state).mutex_list@ == old(state).mutex_list@.push(
                Some(if blocking { MutexKind::Blocking } else { MutexKind::Spin }),
            )
            &&& final(state).mutex_alloc@ == old(state).mutex_alloc@.push(None::<usize>)
        },
        same_sem_tables(*old(state), *final(state)),
        same_requests(*old(state), *final(state)),
        same_condvar_table(*old(state), *final(state)),
        final(state).deadlock_det_enabled == old(state).deadlock_det_enabled,
{
    let kind = if blocking {
        MutexKind::Blocking
    } else {
        MutexKind::Spin
    };
    let n = state.mutex_list.len();
    let mut free_idx: usize = n;
    let mut i: usize = 0;
    while i < n && free_idx == n
        invariant
            i <= n,
            free_idx == n || free_idx <= i,
            *state == *old(state),
            free_idx == n ==> forall|j: int|
                0 <= j < i ==> (#[trigger] state.mutex_list@[j]) is Some,
            free_idx < n ==> state.mutex_list@[free_idx as int] is None && forall|j: int|
                0 <= j < free_idx ==> (#[trigger] state.mutex_list@[j]) is Some,
        decreases n - i + (if free_idx == n { 1int } else { 0int }),
    {
        if state.mutex_list[i].is_none() {
            free_idx = i;
        } else {
            i += 1;
        }
    }
    if free_idx < n {
        state.mutex_list.set(free_idx, Some(kind));
        state.mutex_alloc.set(free_idx, None);
        proof {
            lemma_wf_mutex_side(*old(state), *state);
        }
        free_idx as isize
    } else {
        state.mutex_list.push(Some(kind));
        state.mutex_alloc.push(None);
        proof {
            lemma_wf_mutex_side(*old(state), *state);
        }
        n as isize
    }
}

/// Records thread `tid`'s request for a mutex and, when detection is on,
/// refuses it if the wait-for chain would close a cycle.  Success means the
/// caller may now delegate to the blocking primitive; with detection off a
/// cyclic request is simply recorded and succeeds.  The holder table is
/// never changed here, so an aborted request leaves no trace.
pub fn sys_mutex_lock(state: &mut ProcessSync, tid: usize, mutex_id: usize) -> (r: isize)
    requires
        old(state).wf(),
        (tid as int) < old(state).n_threads(),
        old(state).mutex_request@[tid as int] is None,
    ensures
        final(state).wf(),
        !old(state).valid_mutex(mutex_id as int) ==> r == INVALID_HANDLE_RC && same_state(
            *old(state),
            *final(state),
        ),
        old(state).valid_mutex(mutex_id as int) && old(state).deadlock_det_enabled
            && mutex_deadlock(
            old(state).mutex_alloc@,
            old(state).mutex_request@,
            tid as int,
            mutex_id as int,
        ) ==> r == DEADLOCK_RC && same_state(*old(state), *final(state)),
        old(state).valid_mutex(mutex_id as int) && !(old(state).deadlock_det_enabled
            && mutex_deadlock(
            old(state).mutex_alloc@,
            old(state).mutex_request@,
            tid as int,
            mutex_id as int,
        )) ==> {
            &&& r == OK_RC
            &&& final(state).mutex_request@ == old(state).mutex_request@.update(
                tid as int,
                Some(mutex_id),
            )
            &&& final(state).sem_request@ == old(state).sem_request@
            &&& same_mutex_tables(*old(state), *final(state))
            &&& same_sem_tables(*old(state), *final(state))
            &&& same_condvar_table(*old(state), *final(state))
            &&& final(state).deadlock_det_enabled == old(state).deadlock_det_enabled
        },
{
    if mutex_id >= state.mutex_list.len() {
        return INVALID_HANDLE_RC;
    }
    if state.mutex_list[mutex_id].is_none() {
        return INVALID_HANDLE_RC;
    }
    if state.deadlock_det_enabled {
        if mutex_deadlock_scan(state, tid, mutex_id) {
            return DEADLOCK_RC;
        }
    }
    state.mutex_request.set(tid, Some(mutex_id));
    proof {
        lemma_wf_mutex_side(*old(state), *state);
    }
    OK_RC
}

/// Records that the blocking primitive granted `mutex_id` to thread `tid`:
/// the thread becomes the holder and its pending request is cleared.  The
/// mutex must have been released on the registry's books, so a mutex never
/// has two holders.
pub fn mutex_lock_granted(state: &mut ProcessSync, tid: usize, mutex_id: usize)
    requires
        old(state).wf(),
        (tid as int) < old(state).n_threads(),
        old(state).mutex_request@[tid as int] == Some(mutex_id),
        old(state).mutex_alloc@[mutex_id as int] is None,
    ensures
        final(state).wf(),
        final(state).mutex_alloc@ == old(state).mutex_alloc@.update(mutex_id as int, Some(tid)),
        final(state).mutex_request@ == old(state).mutex_request@.update(
            tid as int,
            None::<usize>,
        ),
        final(state).mutex_list@ == old(state).mutex_list@,
        final(state).sem_request@ == old(state).sem_request@,
        same_sem_tables(*old(state), *final(state)),
        same_condvar_table(*old(state), *final(state)),
        final(state).deadlock_det_enabled == old(state).deadlock_det_enabled,
{
    proof {
        assert(old(state).valid_mutex(mutex_id as int));
    }
    state.mutex_alloc.set(mutex_id, Some(tid));
    state.mutex_request.set(tid, None);
    proof {
        lemma_wf_mutex_side(*old(state), *state);
    }
}

/// Releases a mutex on the registry's books: the slot has no holder
/// afterwards.  The caller delegates the wake-up to the blocking primitive.
pub fn sys_mutex_unlock(state: &mut ProcessSync, mutex_id: usize) -> (r: isize)
    requires
        old(state).wf(),
    ensures
        final(state).wf(),
        !old(state).valid_mutex(mutex_id as int) ==> r == INVALID_HANDLE_RC && same_state(
            *old(state),
            *final(state),
        ),
        old(state).valid_mutex(mutex_id as int) ==> {
            &&& r == OK_RC
            &&& final(state).mutex_alloc@ == old(state).mutex_alloc@.update(
                mutex_id as int,
                None::<usize>,
            )
            &&& final(state).mutex_list@ == old(state).mutex_list@
            &&& same_sem_tables(*old(state), *final(state))
            &&& same_requests(*old(state), *final(state))
            &&& same_condvar_table(*old(state), *final(state))
            &&& final(state).deadlock_det_enabled == old(state).deadlock_det_enabled
        },
{
    if mutex_id >= state.mutex_list.len() {
        return INVALID_HANDLE_RC;
    }
    if state.mutex_list[mutex_id].is_none() {
        return INVALID_HANDLE_RC;
    }
    state.mutex_alloc.set(mutex_id, None);
    proof {
        lemma_wf_mutex_side(*old(state), *state);
    }
    OK_RC
}

/// Frees a mutex slot for reuse.  The mutex must be unheld and unawaited;
/// a held or awaited mutex is refused as busy.
#[verifier::loop_isolation(false)]
pub fn mutex_free(state: &mut ProcessSync, mutex_id: usize) -> (r: isize)
    requires
        old(state).wf(),
    ensures
        final(state).wf(),
        !old(state).valid_mutex(mutex_id as int) ==> r == INVALID_HANDLE_RC && same_state(
            *old(state),
            *final(state),
        ),
        old(state).valid_mutex(mutex_id as int) && (old(state).mutex_alloc@[mutex_id as int]
            is Some || (exists|t: int|
            0 <= t < old(state).n_threads() && (#[trigger] old(state).mutex_request@[t]) == Some(
                mutex_id,
            ))) ==> r == BUSY_RC && same_state(*old(state), *final(state)),
        old(state).valid_mutex(mutex_id as int) && old(state).mutex_alloc@[mutex_id as int]
            is None && (forall|t: int|
            0 <= t < old(state).n_threads() ==> (#[trigger] old(state).mutex_request@[t]) != Some(
                mutex_id,
            )) ==> {
            &&& r == OK_RC
            &&& final(state).mutex_list@ == old(state).mutex_list@.update(
                mutex_id as int,
                None::<MutexKind>,
            )
            &&& final(state).mutex_alloc@ == old(state).mutex_alloc@
            &&& same_sem_tables(*old(state), *final(state))
            &&& same_requests(*old(state), *final(state))
            &&& same_condvar_table(*old(state), *final(state))
            &&& final(state).deadlock_det_enabled == old(state).deadlock_det_enabled
        },
{
    if mutex_id >= state.mutex_list.len() {
        return INVALID_HANDLE_RC;
    }
    if state.mutex_list[mutex_id].is_none() {
        return INVALID_HANDLE_RC;
    }
    if state.mutex_alloc[mutex_id].is_some() {
        return BUSY_RC;
    }
    let n = state.mutex_request.len();
    let mut t: usize = 0;
    while t < n
        invariant
            t <= n,
            *state == *old(state),
            forall|k: int| 0 <= k < t ==> (#[trigger] state.mutex_request@[k]) != Some(mutex_id),
        decreases n - t,
    {
        let waiting = match state.mutex_request[t] {
            Some(m) => m == mutex_id,
            None => false,
        };
        if waiting {
            return BUSY_RC;
        }
        t += 1;
    }
    state.mutex_list.set(mutex_id, None);
    proof {
        lemma_wf_mutex_side(*old(state), *state);
    }
    OK_RC
}

/// Installs a semaphore of capacity `res_count` in the lowest free slot, or
/// in a new slot when none is free, and returns the slot id.  All of the
/// capacity starts available, and every thread's holding of the new slot is
/// zero.
#[verifier::loop_isolation(false)]
pub fn sys_semaphore_create(state: &mut ProcessSync, res_count: usize) -> (id: isize)
    requires
        old(state).wf(),
        old(state).n_sems() < isize::MAX as int,
    ensures
        final(state).wf(),
        0 <= id as int && id as int <= old(state).n_sems(),
        forall|j: int| 0 <= j < id as int ==> (#[trigger] old(state).semaphore_list@[j]) is Some,
        (id as int) < old(state).n_sems() ==> {
            &&& old(state).semaphore_list@[id as int] is None
            &&& final(state).semaphore_list@ == old(state).semaphore_list@.update(
                id as int,
                Some(res_count),
            )
            &&& final(state).sem_avail@ == old(state).sem_avail@.update(id as int, res_count)
            &&& final(state).rows().len() == old(state).rows().len()
            &&& forall|t: int|
                0 <= t < old(state).n_threads() ==> (#[trigger] final(state).rows()[t]) == old(
                    state,
                ).rows()[t].update(id as int, 0usize)
        },
        id as int == old(state).n_sems() ==> {
            &&& final(state).semaphore_list@ == old(state).semaphore_list@.push(Some(res_count))
            &&& final(state).sem_avail@ == old(state).sem_avail@.push(res_count)
            &&& final(state).rows().len() == old(state).rows().len()
            &&& forall|t: int|
                0 <= t < old(state).n_threads() ==> (#[trigger] final(state).rows()[t]) == old(
                    state,
                ).rows()[t].push(0usize)
        },
        same_mutex_tables(*old(state), *final(state)),
        final(state).mutex_request@ == old(state).mutex_request@,
        final(state).sem_request@ == old(state).sem_request@,
        same_condvar_table(*old(state), *final(state)),
        final(state).deadlock_det_enabled == old(state).deadlock_det_enabled,
{
    let n = state.semaphore_list.len();
    let mut free_idx: usize = n;
    let mut i: usize = 0;
    while i < n && free_idx == n
        invariant
            i <= n,
            free_idx == n || free_idx <= i,
            *state == *old(state),
            free_idx == n ==> forall|j: int|
                0 <= j < i ==> (#[trigger] state.semaphore_list@[j]) is Some,
            free_idx < n ==> state.semaphore_list@[free_idx as int] is None && forall|j: int|
                0 <= j < free_idx ==> (#[trigger] state.semaphore_list@[j]) is Some,
        decreases n - i + (if free_idx == n { 1int } else { 0int }),
    {
        if state.semaphore_list[i].is_none() {
            free_idx = i;
        } else {
            i += 1;
        }
    }
    let tn = state.sem_alloc.len();
    if free_idx < n {
        state.semaphore_list.set(free_idx, Some(res_count));
        state.sem_avail.set(free_idx, res_count);
        let mut t: usize = 0;
        while t < tn
            invariant
                t <= tn,
                tn == state.sem_alloc@.len(),
                tn as int == old(state).n_threads(),
                (free_idx as int) < old(state).n_sems(),
                state.mutex_list@ == old(state).mutex_list@,
                state.mutex_alloc@ == old(state).mutex_alloc@,
                state.mutex_request@ == old(state).mutex_request@,
                state.sem_request@ == old(state).sem_request@,
                state.condvar_list@ == old(state).condvar_list@,
                state.deadlock_det_enabled == old(state).deadlock_det_enabled,
                state.semaphore_list@ == old(state).semaphore_list@.update(
                    free_idx as int,
                    Some(res_count),
                ),
                state.sem_avail@ == old(state).sem_avail@.update(free_idx as int, res_count),
                forall|k: int|
                    0 <= k < t ==> (#[trigger] state.rows()[k]) == old(state).rows()[k].update(
                        free_idx as int,
                        0usize,
                    ),
                forall|k: int| t <= k < tn ==> (#[trigger] state.rows()[k]) == old(state).rows()[k],
            decreases tn - t,
        {
            let ghost prev = *state;
            proof {
                assert(prev.rows()[t as int] == old(state).rows()[t as int]);
                assert(old(state).rows()[t as int].len() == old(state).n_sems());
            }
            state.sem_alloc[t].set(free_idx, 0);
            proof {
                assert(state.rows() =~= prev.rows().update(
                    t as int,
                    prev.rows()[t as int].update(free_idx as int, 0usize),
                ));
            }
            t += 1;
        }
        proof {
            assert(state.conservation_ok()) by {
                assert forall|s: int| 0 <= s < state.n_sems() implies {
                    if state.semaphore_list@[s] is Some {
                        (#[trigger] state.sem_avail@[s]) + held_total(state.rows(), s)
                            == state.sem_capacity(s)
                    } else {
                        state.sem_avail@[s] == 0 && held_total(state.rows(), s) == 0
                    }
                } by {
                    if s == free_idx as int {
                        assert forall|k: int|
                            0 <= k < state.rows().len() && Set::<int>::full().contains(k) implies
                            row_held(#[trigger] state.rows()[k], s) == 0 by {
                            assert(state.rows()[k] == old(state).rows()[k].update(s, 0usize));
                        }
                        lemma_held_sum_all_zero(state.rows(), Set::full(), s);
                    } else {
                        assert forall|k: int|
                            0 <= k < state.rows().len() && Set::<int>::full().contains(k) implies
                            row_held(#[trigger] state.rows()[k], s) == row_held(
                            old(state).rows()[k],
                            s,
                        ) by {
                            assert(state.rows()[k] == old(state).rows()[k].update(
                                free_idx as int,
                                0usize,
                            ));
                        }
                        lemma_held_sum_congruent(old(state).rows(), state.rows(), Set::full(), s);
                        assert(old(state).sem_avail@[s] + held_total(old(state).rows(), s)
                            == old(state).sem_capacity(s) || (old(state).sem_avail@[s] == 0
                            && held_total(old(state).rows(), s) == 0));
                    }
                }
            }
            lemma_wf_sem_side(*old(state), *state);
        }
        free_idx as isize
    } else {
        state.semaphore_list.push(Some(res_count));
        state.sem_avail.push(res_count);
        let mut t: usize = 0;
        while t < tn
            invariant
                t <= tn,
                tn == state.sem_alloc@.len(),
                tn as int == old(state).n_threads(),
                n as int == old(state).n_sems(),
                state.mutex_list@ == old(state).mutex_list@,
                state.mutex_alloc@ == old(state).mutex_alloc@,
                state.mutex_request@ == old(state).mutex_request@,
                state.sem_request@ == old(state).sem_request@,
                state.condvar_list@ == old(state).condvar_list@,
                state.deadlock_det_enabled == old(state).deadlock_det_enabled,
                state.semaphore_list@ == old(state).semaphore_list@.push(Some(res_count)),
                state.sem_avail@ == old(state).sem_avail@.push(res_count),
                forall|k: int|
                    0 <= k < t ==> (#[trigger] state.rows()[k]) == old(state).rows()[k].push(
                        0usize,
                    ),
                forall|k: int| t <= k < tn ==> (#[trigger] state.rows()[k]) == old(state).rows()[k],
            decreases tn - t,
        {
            let ghost prev = *state;
            proof {
                assert(prev.rows()[t as int] == old(state).rows()[t as int]);
            }
            state.sem_alloc[t].push(0);
            proof {
                assert(state.rows() =~= prev.rows().update(
                    t as int,
                    prev.rows()[t as int].push(0usize),
                ));
            }
            t += 1;
        }
        proof {
            assert(state.conservation_ok()) by {
                assert forall|s: int| 0 <= s < state.n_sems() implies {
                    if state.semaphore_list@[s] is Some {
                        (#[trigger] state.sem_avail@[s]) + held_total(state.rows(), s)
                            == state.sem_capacity(s)
                    } else {
                        state.sem_avail@[s] == 0 && held_total(state.rows(), s) == 0
                    }
                } by {
                    if s == n as int {
                        assert forall|k: int|
                            0 <= k < state.rows().len() && Set::<int>::full().contains(k) implies
                            row_held(#[trigger] state.rows()[k], s) == 0 by {
                            assert(state.rows()[k] == old(state).rows()[k].push(0usize));
                            assert(old(state).rows()[k].len() == old(state).n_sems());
                        }
                        lemma_held_sum_all_zero(state.rows(), Set::full(), s);
                    } else {
                        assert forall|k: int|
                            0 <= k < state.rows().len() && Set::<int>::full().contains(k) implies
                            row_held(#[trigger] state.rows()[k], s) == row_held(
                            old(state).rows()[k],
                            s,
                        ) by {
                            assert(state.rows()[k] == old(state).rows()[k].push(0usize));
                            assert(old(state).rows()[k].len() == old(state).n_sems());
                        }
                        lemma_held_sum_congruent(old(state).rows(), state.rows(), Set::full(), s);
                    }
                }
            }
            assert forall|t2: int|
                0 <= t2 < state.n_threads() implies (#[trigger] state.rows()[t2]).len()
                == state.n_sems() by {
                assert(state.rows()[t2] == old(state).rows()[t2].push(0usize));
                assert(old(state).rows()[t2].len() == old(state).n_sems());
            }
            lemma_wf_sem_side(*old(state), *state);
        }
        n as isize
    }
}

/// Releases one unit of a semaphore held by thread `tid`: the unit returns
/// to the free pool and the thread's holding drops by one.  The caller must
/// hold a unit; the caller delegates the wake-up to the blocking primitive.
pub fn sys_semaphore_up(state: &mut ProcessSync, tid: usize, sem_id: usize) -> (r: isize)
    requires
        old(state).wf(),
        (tid as int) < old(state).n_threads(),
        old(state).valid_sem(sem_id as int) ==> row_held(
            old(state).rows()[tid as int],
            sem_id as int,
        ) >= 1,
    ensures
        final(state).wf(),
        !old(state).valid_sem(sem_id as int) ==> r == INVALID_HANDLE_RC && same_state(
            *old(state),
            *final(state),
        ),
        old(state).valid_sem(sem_id as int) ==> {
            &&& r == OK_RC
            &&& final(state).sem_avail@ == old(state).sem_avail@.update(
                sem_id as int,
                (old(state).sem_avail@[sem_id as int] + 1) as usize,
            )
            &&& final(state).rows() == old(state).rows().update(
                tid as int,
                old(state).rows()[tid as int].update(
                    sem_id as int,
                    (old(state).rows()[tid as int][sem_id as int] - 1) as usize,
                ),
            )
            &&& final(state).semaphore_list@ == old(state).semaphore_list@
            &&& same_mutex_tables(*old(state), *final(state))
            &&& same_requests(*old(state), *final(state))
            &&& same_condvar_table(*old(state), *final(state))
            &&& final(state).deadlock_det_enabled == old(state).deadlock_det_enabled
        },
{
    if sem_id >= state.semaphore_list.len() {
        return INVALID_HANDLE_RC;
    }
    if state.semaphore_list[sem_id].is_none() {
        return INVALID_HANDLE_RC;
    }
    proof {
        lemma_held_sum_member_le(state.rows(), Set::full(), tid as int, sem_id as int);
        assert(state.sem_avail@[sem_id as int] + held_total(state.rows(), sem_id as int)
            == state.sem_capacity(sem_id as int));
    }
    let a0 = state.sem_avail[sem_id];
    state.sem_avail.set(sem_id, a0 + 1);
    let cur = state.sem_alloc[tid][sem_id];
    let ghost mid = *state;
    state.sem_alloc[tid].set(sem_id, cur - 1);
    proof {
        let oldr = old(state).rows();
        let newrow = oldr[tid as int].update(
            sem_id as int,
            (oldr[tid as int][sem_id as int] - 1) as usize,
        );
        assert(state.rows() =~= oldr.update(tid as int, newrow));
        assert(state.conservation_ok()) by {
            assert forall|s: int| 0 <= s < state.n_sems() implies {
                if state.semaphore_list@[s] is Some {
                    (#[trigger] state.sem_avail@[s]) + held_total(state.rows(), s)
                        == state.sem_capacity(s)
                } else {
                    state.sem_avail@[s] == 0 && held_total(state.rows(), s) == 0
                }
            } by {
                assert(old(state).conservation_ok());
                if old(state).semaphore_list@[s] is Some {
                    assert(old(state).sem_avail@[s] + held_total(old(state).rows(), s) == old(
                        state,
                    ).sem_capacity(s));
                } else {
                    assert(old(state).sem_avail@[s] == 0);
                    assert(held_total(old(state).rows(), s) == 0);
                }
                assert(oldr[tid as int].len() == old(state).n_sems());
                lemma_held_sum_update(oldr, Set::full(), tid as int, newrow, s);
            }
        }
        lemma_wf_sem_side(*old(state), *state);
    }
    OK_RC
}

/// Records thread `tid`'s down request for a semaphore and, when detection
/// is on, refuses it if the ledger with the request recorded is unsafe.
/// Success means the caller may now delegate to the blocking primitive; with
/// detection off an unsafe request is simply recorded and succeeds.  Free
/// units and holdings are never changed here, so an aborted request leaves
/// no trace.
pub fn sys_semaphore_down(state: &mut ProcessSync, tid: usize, sem_id: usize) -> (r: isize)
    requires
        old(state).wf(),
        (tid as int) < old(state).n_threads(),
        old(state).sem_request@[tid as int] is None,
    ensures
        final(state).wf(),
        !old(state).valid_sem(sem_id as int) ==> r == INVALID_HANDLE_RC && same_state(
            *old(state),
            *final(state),
        ),
        old(state).valid_sem(sem_id as int) && old(state).deadlock_det_enabled && sem_deadlocked(
            old(state).sem_avail@,
            old(state).rows(),
            old(state).sem_request@.update(tid as int, Some(sem_id)),
        ) ==> r == DEADLOCK_RC && same_state(*old(state), *final(state)),
        old(state).valid_sem(sem_id as int) && !(old(state).deadlock_det_enabled && sem_deadlocked(
            old(state).sem_avail@,
            old(state).rows(),
            old(state).sem_request@.update(tid as int, Some(sem_id)),
        )) ==> {
            &&& r == OK_RC
            &&& final(state).sem_request@ == old(state).sem_request@.update(
                tid as int,
                Some(sem_id),
            )
            &&& final(state).mutex_request@ == old(state).mutex_request@
            &&& same_mutex_tables(*old(state), *final(state))
            &&& same_sem_tables(*old(state), *final(state))
            &&& same_condvar_table(*old(state), *final(state))
            &&& final(state).deadlock_det_enabled == old(state).deadlock_det_enabled
        },
{
    if sem_id >= state.semaphore_list.len() {
        return INVALID_HANDLE_RC;
    }
    if state.semaphore_list[sem_id].is_none() {
        return INVALID_HANDLE_RC;
    }
    state.sem_request.set(tid, Some(sem_id));
    proof {
        assert(state.rows() =~= old(state).rows());
        lemma_wf_sem_side(*old(state), *state);
    }
    if state.deadlock_det_enabled {
        if sem_deadlock_scan(state) {
            state.sem_request.set(tid, None);
            proof {
                assert(state.sem_request@ =~= old(state).sem_request@);
                assert(state.rows() =~= old(state).rows());
                lemma_wf_sem_side(*old(state), *state);
            }
            return DEADLOCK_RC;
        }
    }
    OK_RC
}

/// Records that the blocking primitive granted one unit of `sem_id` to
/// thread `tid`: the pending request is cleared, a free unit moves from the
/// pool into the thread's holding.  The grant means a unit was free on the
/// registry's books.
pub fn semaphore_down_granted(state: &mut ProcessSync, tid: usize, sem_id: usize)
    requires
        old(state).wf(),
        (tid as int) < old(state).n_threads(),
        old(state).sem_request@[tid as int] == Some(sem_id),
        old(state).sem_avail@[sem_id as int] >= 1,
    ensures
        final(state).wf(),
        final(state).sem_request@ == old(state).sem_request@.update(tid as int, None::<usize>),
        final(state).sem_avail@ == old(state).sem_avail@.update(
            sem_id as int,
            (old(state).sem_avail@[sem_id as int] - 1) as usize,
        ),
        final(state).rows() == old(state).rows().update(
            tid as int,
            old(state).rows()[tid as int].update(
                sem_id as int,
                (old(state).rows()[tid as int][sem_id as int] + 1) as usize,
            ),
        ),
        final(state).semaphore_list@ == old(state).semaphore_list@,
        final(state).mutex_request@ == old(state).mutex_request@,
        same_mutex_tables(*old(state), *final(state)),
        same_condvar_table(*old(state), *final(state)),
        final(state).deadlock_det_enabled == old(state).deadlock_det_enabled,
{
    proof {
        assert(old(state).valid_sem(sem_id as int));
        lemma_held_sum_member_le(state.rows(), Set::full(), tid as int, sem_id as int);
        assert(state.sem_avail@[sem_id as int] + held_total(state.rows(), sem_id as int)
            == state.sem_capacity(sem_id as int));
    }
    state.sem_request.set(tid, None);
    let a0 = state.sem_avail[sem_id];
    state.sem_avail.set(sem_id, a0 - 1);
    let cur = state.sem_alloc[tid][sem_id];
    state.sem_alloc[tid].set(sem_id, cur + 1);
    proof {
        let oldr = old(state).rows();
        let newrow = oldr[tid as int].update(
            sem_id as int,
            (oldr[tid as int][sem_id as int] + 1) as usize,
        );
        assert(state.rows() =~= oldr.update(tid as int, newrow));
        assert(state.conservation_ok()) by {
            assert forall|s: int| 0 <= s < state.n_sems() implies {
                if state.semaphore_list@[s] is Some {
                    (#[trigger] state.sem_avail@[s]) + held_total(state.rows(), s)
                        == state.sem_capacity(s)
                } else {
                    state.sem_avail@[s] == 0 && held_total(state.rows(), s) == 0
                }
            } by {
                assert(old(state).conservation_ok());
                if old(state).semaphore_list@[s] is Some {
                    assert(old(state).sem_avail@[s] + held_total(old(state).rows(), s) == old(
                        state,
                    ).sem_capacity(s));
                } else {
                    assert(old(state).sem_avail@[s] == 0);
                    assert(held_total(old(state).rows(), s) == 0);
                }
                assert(oldr[tid as int].len() == old(state).n_sems());
                lemma_held_sum_update(oldr, Set::full(), tid as int, newrow, s);
            }
        }
        lemma_wf_sem_side(*old(state), *state);
    }
}

/// Frees a semaphore slot for reuse.  Every unit must be back in the free
/// pool and no thread may be awaiting the semaphore; otherwise the slot is
/// refused as busy.
#[verifier::loop_isolation(false)]
pub fn semaphore_free(state: &mut ProcessSync, sem_id: usize) -> (r: isize)
    requires
        old(state).wf(),
    ensures
        final(state).wf(),
        !old(state).valid_sem(sem_id as int) ==> r == INVALID_HANDLE_RC && same_state(
            *old(state),
            *final(state),
        ),
        old(state).valid_sem(sem_id as int) && (old(state).sem_avail@[sem_id as int]
            != old(state).sem_capacity(sem_id as int) || (exists|t: int|
            0 <= t < old(state).n_threads() && (#[trigger] old(state).sem_request@[t]) == Some(
                sem_id,
            ))) ==> r == BUSY_RC && same_state(*old(state), *final(state)),
        old(state).valid_sem(sem_id as int) && old(state).sem_avail@[sem_id as int] == old(
            state,
        ).sem_capacity(sem_id as int) && (forall|t: int|
            0 <= t < old(state).n_threads() ==> (#[trigger] old(state).sem_request@[t]) != Some(
                sem_id,
            )) ==> {
            &&& r == OK_RC
            &&& final(state).semaphore_list@ == old(state).semaphore_list@.update(
                sem_id as int,
                None::<usize>,
            )
            &&& final(state).sem_avail@ == old(state).sem_avail@.update(sem_id as int, 0usize)
            &&& final(state).rows() == old(state).rows()
            &&& same_mutex_tables(*old(state), *final(state))
            &&& same_requests(*old(state), *final(state))
            &&& same_condvar_table(*old(state), *final(state))
            &&& final(state).deadlock_det_enabled == old(state).deadlock_det_enabled
        },
{
    if sem_id >= state.semaphore_list.len() {
        return INVALID_HANDLE_RC;
    }
    let cap = match state.semaphore_list[sem_id] {
        Some(c) => c,
        None => {
            return INVALID_HANDLE_RC;
        },
    };
    if state.sem_avail[sem_id] != cap {
        return BUSY_RC;
    }
    let n = state.sem_request.len();
    let mut t: usize = 0;
    while t < n
        invariant
            t <= n,
            *state == *old(state),
            forall|k: int| 0 <= k < t ==> (#[trigger] state.sem_request@[k]) != Some(sem_id),
        decreases n - t,
    {
        let waiting = match state.sem_request[t] {
            Some(si) => si == sem_id,
            None => false,
        };
        if waiting {
            return BUSY_RC;
        }
        t += 1;
    }
    state.semaphore_list.set(sem_id, None);
    state.sem_avail.set(sem_id, 0);
    proof {
        assert(state.rows() =~= old(state).rows());
        assert(state.conservation_ok()) by {
            assert forall|s: int| 0 <= s < state.n_sems() implies {
                if state.semaphore_list@[s] is Some {
                    (#[trigger] state.sem_avail@[s]) + held_total(state.rows(), s)
                        == state.sem_capacity(s)
                } else {
                    state.sem_avail@[s] == 0 && held_total(state.rows(), s) == 0
                }
            } by {
                assert(old(state).sem_avail@[s] + held_total(old(state).rows(), s) == old(
                    state,
                ).sem_capacity(s) || (old(state).sem_avail@[s] == 0 && held_total(
                    old(state).rows(),
                    s,
                ) == 0));
            }
        }
        lemma_wf_sem_side(*old(state), *state);
    }
    OK_RC
}

/// Installs a condition variable in the lowest free slot, or in a new slot
/// when none is free, and returns the slot id.  The argument is accepted for
/// interface compatibility and ignored.
#[verifier::loop_isolation(false)]
pub fn sys_condvar_create(state: &mut ProcessSync, _arg: usize) -> (id: isize)
    requires
        old(state).wf(),
        old(state).n_condvars() < isize::MAX as int,
    ensures
        final(state).wf(),
        0 <= id as int && id as int <= old(state).n_condvars(),
        forall|j: int| 0 <= j < id as int ==> (#[trigger] old(state).condvar_list@[j]) is Some,
        (id as int) < old(state).n_condvars() ==> {
            &&& old(state).condvar_list@[id as int] is None
            &&& final(state).condvar_list@ == old(state).condvar_list@.update(
                id as int,
                Some(CondvarHandle {  }),
            )
        },
        id as int == old(state).n_condvars() ==> final(state).condvar_list@ == old(
            state,
        ).condvar_list@.push(Some(CondvarHandle {  })),
        same_mutex_tables(*old(state), *final(state)),
        same_sem_tables(*old(state), *final(state)),
        same_requests(*old(state), *final(state)),
        final(state).deadlock_det_enabled == old(state).deadlock_det_enabled,
{
    let n = state.condvar_list.len();
    let mut free_idx: usize = n;
    let mut i: usize = 0;
    while i < n && free_idx == n
        invariant
            i <= n,
            free_idx == n || free_idx <= i,
            *state == *old(state),
            free_idx == n ==> forall|j: int|
                0 <= j < i ==> (#[trigger] state.condvar_list@[j]) is Some,
            free_idx < n ==> state.condvar_list@[free_idx as int] is None && forall|j: int|
                0 <= j < free_idx ==> (#[trigger] state.condvar_list@[j]) is Some,
        decreases n - i + (if free_idx == n { 1int } else { 0int }),
    {
        if state.condvar_list[i].is_none() {
            free_idx = i;
        } else {
            i += 1;
        }
    }
    if free_idx < n {
        state.condvar_list.set(free_idx, Some(CondvarHandle {  }));
        proof {
            lemma_wf_unchanged_fields(*old(state), *state);
        }
        free_idx as isize
    } else {
        state.condvar_list.push(Some(CondvarHandle {  }));
        proof {
            lemma_wf_unchanged_fields(*old(state), *state);
        }
        n as isize
    }
}

/// Validates a signal request: the wake-up itself is pure delegation to the
/// outside primitive and touches nothing the registry records.
pub fn sys_condvar_signal(state: &ProcessSync, condvar_id: usize) -> (r: isize)
    ensures
        state.valid_condvar(condvar_id as int) ==> r == OK_RC,
        !state.valid_condvar(condvar_id as int) ==> r == INVALID_HANDLE_RC,
{
    if condvar_id >= state.condvar_list.len() {
        return INVALID_HANDLE_RC;
    }
    if state.condvar_list[condvar_id].is_none() {
        return INVALID_HANDLE_RC;
    }
    OK_RC
}

/// Validates a wait request: releasing and reacquiring the mutex while the
/// thread sleeps is the outside primitive's own contract, opaque to the
/// registry, so the registry's books do not change.
pub fn sys_condvar_wait(state: &ProcessSync, condvar_id: usize, mutex_id: usize) -> (r: isize)
    ensures
        state.valid_condvar(condvar_id as int) && state.valid_mutex(mutex_id as int) ==> r
            == OK_RC,
        !(state.valid_condvar(condvar_id as int) && state.valid_mutex(mutex_id as int)) ==> r
            == INVALID_HANDLE_RC,
{
    if condvar_id >= state.condvar_list.len() {
        return INVALID_HANDLE_RC;
    }
    if state.condvar_list[condvar_id].is_none() {
        return INVALID_HANDLE_RC;
    }
    if mutex_id >= state.mutex_list.len() {
        return INVALID_HANDLE_RC;
    }
    if state.mutex_list[mutex_id].is_none() {
        return INVALID_HANDLE_RC;
    }
    OK_RC
}

/// Frees a condition-variable slot for reuse.  The registry keeps no waiter
/// state for condition variables, so only the handle is checked.
pub fn condvar_free(state: &mut ProcessSync, condvar_id: usize) -> (r: isize)
    requires
        old(state).wf(),
    ensures
        final(state).wf(),
        !old(state).valid_condvar(condvar_id as int) ==> r == INVALID_HANDLE_RC && same_state(
            *old(state),
            *final(state),
        ),
        old(state).valid_condvar(condvar_id as int) ==> {
            &&& r == OK_RC
            &&& final(state).condvar_list@ == old(state).condvar_list@.update(
                condvar_id as int,
                None::<CondvarHandle>,
            )
            &&& same_mutex_tables(*old(state), *final(state))
            &&& same_sem_tables(*old(state), *final(state))
            &&& same_requests(*old(state), *final(state))
            &&& final(state).deadlock_det_enabled == old(state).deadlock_det_enabled
        },
{
    if condvar_id >= state.condvar_list.len() {
        return INVALID_HANDLE_RC;
    }
    if state.condvar_list[condvar_id].is_none() {
        return INVALID_HANDLE_RC;
    }
    state.condvar_list.set(condvar_id, None);
    proof {
        lemma_wf_unchanged_fields(*old(state), *state);
    }
    OK_RC
}

} // verus!
