//! Registry-wide laws, stated over the well-formedness invariant.
//!
//! The detector laws live beside the detectors: a request for an unheld
//! mutex never deadlocks, a symmetric cross wait always does, and likewise
//! for semaphores.  Here stand the laws about the ledger itself.
use vstd::prelude::*;

use crate::ledger::held_total;
use crate::state::ProcessSync;

verus! {

/// Semaphore conservation: at every quiescent point, the available units of
/// a semaphore plus the units held by all threads together equal the
/// capacity the semaphore was created with.
pub proof fn lemma_semaphore_conservation(s: ProcessSync, sid: int)
    requires
        s.wf(),
        s.valid_sem(sid),
    ensures
        s.sem_avail@[sid] + held_total(s.rows(), sid) == s.sem_capacity(sid),
{
}

/// Mutex exclusivity: the holder table maps each mutex to at most one
/// thread, so two holders of one mutex are the same thread.
pub proof fn lemma_mutex_exclusive(s: ProcessSync, m: int, t1: usize, t2: usize)
    requires
        0 <= m < s.n_mutexes(),
        s.mutex_alloc@[m] == Some(t1),
        s.mutex_alloc@[m] == Some(t2),
    ensures
        t1 == t2,
{
}

} // verus!
