//! The synchronization state of one process.
//!
//! Three slot tables (mutexes, semaphores, condition variables) reuse freed
//! slots lowest-index first, and a ledger tracks per-thread holdings and
//! pending requests.  All of it is owned exclusively by the process: the
//! caller serializes access, so every operation sees and leaves a consistent
//! state, captured by `wf`.
use vstd::prelude::*;

use crate::ledger::{held_sum, held_total, row_held};

verus! {

/// Flavor of the underlying mutex primitive, chosen at creation.
#[derive(Clone, Copy, Debug, PartialEq, Eq, Structural)]
pub enum MutexKind {
    /// Busy-waits in the requesting thread.
    Spin,
    /// Suspends the requesting thread until the holder releases.
    Blocking,
}

/// Registry-side stand-in for a condition-variable primitive, which carries
/// no state the registry reads.
#[derive(Clone, Copy, Debug, PartialEq, Eq, Structural)]
pub struct CondvarHandle {}

/// Synchronization state of one process.
///
/// Slot tables are indexed by resource id; a `None` entry is a free slot.
/// Ledger rows are indexed by thread id and never shrink.  A semaphore slot
/// records the capacity the semaphore was created with.
pub struct ProcessSync {
    /// Mutex slot table; the entry records the primitive's flavor.
    pub mutex_list: Vec<Option<MutexKind>>,
    /// Current holder of each mutex slot, if any.
    pub mutex_alloc: Vec<Option<usize>>,
    /// The mutex each thread is blocked requesting, if any.
    pub mutex_request: Vec<Option<usize>>,
    /// Semaphore slot table; the entry records the capacity at creation.
    pub semaphore_list: Vec<Option<usize>>,
    /// Units of each semaphore not currently held by any thread.
    pub sem_avail: Vec<usize>,
    /// Units of each semaphore held by each thread: one row per thread.
    pub sem_alloc: Vec<Vec<usize>>,
    /// The semaphore each thread is blocked requesting, if any.
    pub sem_request: Vec<Option<usize>>,
    /// Condition-variable slot table.
    pub condvar_list: Vec<Option<CondvarHandle>>,
    /// Governs both deadlock detectors; off by default.
    pub deadlock_det_enabled: bool,
}

impl ProcessSync {
    pub open spec fn n_threads(self) -> int {
        self.mutex_request@.len() as int
    }

    pub open spec fn n_mutexes(self) -> int {
        self.mutex_list@.len() as int
    }

    pub open spec fn n_sems(self) -> int {
        self.semaphore_list@.len() as int
    }

    pub open spec fn n_condvars(self) -> int {
        self.condvar_list@.len() as int
    }

    /// The ledger rows as mathematical sequences.
    pub open spec fn rows(self) -> Seq<Seq<usize>> {
        self.sem_alloc@.map_values(|r: Vec<usize>| r@)
    }

    pub open spec fn valid_mutex(self, m: int) -> bool {
        0 <= m < self.n_mutexes() && self.mutex_list@[m] is Some
    }

    pub open spec fn valid_sem(self, s: int) -> bool {
        0 <= s < self.n_sems() && self.semaphore_list@[s] is Some
    }

    pub open spec fn valid_condvar(self, c: int) -> bool {
        0 <= c < self.n_condvars() && self.condvar_list@[c] is Some
    }

    /// Capacity a semaphore slot was created with.
    pub open spec fn sem_capacity(self, s: int) -> int {
        self.semaphore_list@[s]->0 as int
    }

    /// Tables and ledger rows line up: one holder entry per mutex slot, one
    /// available count per semaphore slot, one request entry and one holding
    /// row per thread, each row as wide as the semaphore table.
    pub open spec fn lens_ok(self) -> bool {
        &&& self.mutex_alloc@.len() == self.n_mutexes()
        &&& self.sem_avail@.len() == self.n_sems()
        &&& self.sem_request@.len() == self.n_threads()
        &&& self.sem_alloc@.len() == self.n_threads()
        &&& forall|t: int|
            0 <= t < self.n_threads() ==> (#[trigger] self.rows()[t]).len() == self.n_sems()
    }

    /// Every recorded mutex holder is a known thread holding an allocated
    /// slot.
    pub open spec fn holders_ok(self) -> bool {
        forall|m: int|
            0 <= m < self.n_mutexes() && (#[trigger] self.mutex_alloc@[m]) is Some ==> {
                &&& self.valid_mutex(m)
                &&& 0 <= self.mutex_alloc@[m]->0 < self.n_threads()
            }
    }

    /// Every pending request names an allocated resource.
    pub open spec fn requests_ok(self) -> bool {
        &&& forall|t: int|
            0 <= t < self.n_threads() && (#[trigger] self.mutex_request@[t]) is Some
                ==> self.valid_mutex(self.mutex_request@[t]->0 as int)
        &&& forall|t: int|
            0 <= t < self.n_threads() && (#[trigger] self.sem_request@[t]) is Some
                ==> self.valid_sem(self.sem_request@[t]->0 as int)
    }

    /// For every semaphore, the available units plus all held units equal
    /// the capacity set at creation (a free slot counts as capacity zero).
    pub open spec fn conservation_ok(self) -> bool {
        forall|s: int|
            0 <= s < self.n_sems() ==> {
                if self.semaphore_list@[s] is Some {
                    (#[trigger] self.sem_avail@[s]) + held_total(self.rows(), s)
                        == self.sem_capacity(s)
                } else {
                    self.sem_avail@[s] == 0 && held_total(self.rows(), s) == 0
                }
            }
    }

    /// Well-formedness of the registry, established by `new` and preserved
    /// by every operation.
    pub open spec fn wf(self) -> bool {
        &&& self.lens_ok()
        &&& self.holders_ok()
        &&& self.requests_ok()
        &&& self.conservation_ok()
    }

    /// An empty registry: no resources, no threads, detection disabled.
    pub fn new() -> (s: ProcessSync)
        ensures
            s.wf(),
            s.n_threads() == 0,
            s.n_mutexes() == 0,
            s.n_sems() == 0,
            s.n_condvars() == 0,
            !s.deadlock_det_enabled,
    {
        ProcessSync {
            mutex_list: Vec::new(),
            mutex_alloc: Vec::new(),
            mutex_request: Vec::new(),
            semaphore_list: Vec::new(),
            sem_avail: Vec::new(),
            sem_alloc: Vec::new(),
            sem_request: Vec::new(),
            condvar_list: Vec::new(),
            deadlock_det_enabled: false,
        }
    }

    /// Adds the ledger rows for a newly created thread and returns its id.
    /// The new thread holds nothing and requests nothing.
    pub fn register_thread(&mut self) -> (tid: usize)
        requires
            old(self).wf(),
        ensures
            final(self).wf(),
            tid as int == old(self).n_threads(),
            final(self).n_threads() == old(self).n_threads() + 1,
            final(self).mutex_request@ == old(self).mutex_request@.push(None::<usize>),
            final(self).sem_request@ == old(self).sem_request@.push(None::<usize>),
            final(self).rows().len() == old(self).rows().len() + 1,
            forall|t: int|
                0 <= t < old(self).n_threads() ==> final(self).rows()[t] == old(self).rows()[t],
            final(self).rows()[old(self).n_threads()].len() == old(self).n_sems(),
            forall|s: int|
                0 <= s < old(self).n_sems() ==> row_held(
                    final(self).rows()[old(self).n_threads()],
                    s,
                ) == 0,
            final(self).mutex_list@ == old(self).mutex_list@,
            final(self).mutex_alloc@ == old(self).mutex_alloc@,
            final(self).semaphore_list@ == old(self).semaphore_list@,
            final(self).sem_avail@ == old(self).sem_avail@,
            final(self).condvar_list@ == old(self).condvar_list@,
            final(self).deadlock_det_enabled == old(self).deadlock_det_enabled,
    {
        let tid = self.mutex_request.len();
        self.mutex_request.push(None);
        self.sem_request.push(None);
        let width = self.semaphore_list.len();
        let mut row: Vec<usize> = Vec::new();
        let mut j: usize = 0;
        while j < width
            invariant
                j <= width,
                row@.len() == j,
                forall|k: int| 0 <= k < j ==> row@[k] == 0usize,
            decreases width - j,
        {
            row.push(0);
            j += 1;
        }
        self.sem_alloc.push(row);
        proof {
            // each column sum is unchanged by a row of zeroes
            let oldr = old(self).rows();
            let newr = self.rows();
            assert(newr =~= oldr.push(row@));
            assert forall|s: int| 0 <= s < self.n_sems() implies held_total(newr, s) == held_total(
                oldr,
                s,
            ) by {
                crate::ledger::lemma_held_sum_push(oldr, Set::full(), row@, s);
                assert(row_held(row@, s) == 0);
            }
        }
        tid
    }
}

/// Well-formedness only reads the tables and the ledger, so it carries over
/// to a state that differs at most in the detection flag and the
/// condition-variable table.
pub proof fn lemma_wf_unchanged_fields(a: ProcessSync, b: ProcessSync)
    requires
        a.wf(),
        b.mutex_list@ == a.mutex_list@,
        b.mutex_alloc@ == a.mutex_alloc@,
        b.mutex_request@ == a.mutex_request@,
        b.semaphore_list@ == a.semaphore_list@,
        b.sem_avail@ == a.sem_avail@,
        b.sem_alloc@ == a.sem_alloc@,
        b.sem_request@ == a.sem_request@,
    ensures
        b.wf(),
{
    assert(b.rows() =~= a.rows());
    assert(b.lens_ok()) by {
        assert forall|t: int| 0 <= t < b.n_threads() implies (#[trigger] b.rows()[t]).len()
            == b.n_sems() by {
            assert(a.rows()[t].len() == a.n_sems());
        }
    }
    assert(b.holders_ok()) by {
        assert forall|m: int|
            0 <= m < b.n_mutexes() && (#[trigger] b.mutex_alloc@[m]) is Some implies b.valid_mutex(
            m,
        ) && 0 <= b.mutex_alloc@[m]->0 < b.n_threads() by {
            assert(a.mutex_alloc@[m] is Some);
        }
    }
    assert(b.requests_ok()) by {
        assert forall|t: int|
            0 <= t < b.n_threads() && (#[trigger] b.mutex_request@[t]) is Some implies b.valid_mutex(
            b.mutex_request@[t]->0 as int,
        ) by {
            assert(a.mutex_request@[t] is Some);
        }
        assert forall|t: int|
            0 <= t < b.n_threads() && (#[trigger] b.sem_request@[t]) is Some implies b.valid_sem(
            b.sem_request@[t]->0 as int,
        ) by {
            assert(a.sem_request@[t] is Some);
        }
    }
    assert(b.conservation_ok()) by {
        assert forall|s: int| 0 <= s < b.n_sems() implies {
            if b.semaphore_list@[s] is Some {
                (#[trigger] b.sem_avail@[s]) + crate::ledger::held_total(b.rows(), s)
                    == b.sem_capacity(s)
            } else {
                b.sem_avail@[s] == 0 && crate::ledger::held_total(b.rows(), s) == 0
            }
        } by {
            assert(a.sem_avail@[s] == b.sem_avail@[s]);
        }
    }
}

/// Well-formedness carries over to a state with the same ledger whose mutex
/// tables changed but still satisfy the mutex clauses.
pub proof fn lemma_wf_mutex_side(a: ProcessSync, b: ProcessSync)
    requires
        a.wf(),
        b.semaphore_list@ == a.semaphore_list@,
        b.sem_avail@ == a.sem_avail@,
        b.sem_alloc@ == a.sem_alloc@,
        b.mutex_alloc@.len() == b.mutex_list@.len(),
        b.sem_request@.len() == b.mutex_request@.len(),
        b.sem_alloc@.len() == b.mutex_request@.len(),
        forall|m: int|
            0 <= m < b.n_mutexes() && (#[trigger] b.mutex_alloc@[m]) is Some ==> b.valid_mutex(m)
                && 0 <= b.mutex_alloc@[m]->0 < b.n_threads(),
        forall|t: int|
            0 <= t < b.n_threads() && (#[trigger] b.mutex_request@[t]) is Some ==> b.valid_mutex(
                b.mutex_request@[t]->0 as int,
            ),
        forall|t: int|
            0 <= t < b.n_threads() && (#[trigger] b.sem_request@[t]) is Some ==> b.valid_sem(
                b.sem_request@[t]->0 as int,
            ),
    ensures
        b.wf(),
{
    assert(b.rows() =~= a.rows());
    assert(b.lens_ok()) by {
        assert forall|t: int| 0 <= t < b.n_threads() implies (#[trigger] b.rows()[t]).len()
            == b.n_sems() by {
            assert(a.rows()[t].len() == a.n_sems());
        }
    }
    assert(b.conservation_ok()) by {
        assert forall|s: int| 0 <= s < b.n_sems() implies {
            if b.semaphore_list@[s] is Some {
                (#[trigger] b.sem_avail@[s]) + crate::ledger::held_total(b.rows(), s)
                    == b.sem_capacity(s)
            } else {
                b.sem_avail@[s] == 0 && crate::ledger::held_total(b.rows(), s) == 0
            }
        } by {
            assert(a.sem_avail@[s] == b.sem_avail@[s]);
        }
    }
}

/// Well-formedness carries over to a state with the same mutex tables whose
/// semaphore side changed but still satisfies the semaphore clauses.
pub proof fn lemma_wf_sem_side(a: ProcessSync, b: ProcessSync)
    requires
        a.wf(),
        b.mutex_list@ == a.mutex_list@,
        b.mutex_alloc@ == a.mutex_alloc@,
        b.mutex_request@ == a.mutex_request@,
        b.sem_avail@.len() == b.semaphore_list@.len(),
        b.sem_request@.len() == b.mutex_request@.len(),
        b.sem_alloc@.len() == b.mutex_request@.len(),
        forall|t: int|
            0 <= t < b.n_threads() ==> (#[trigger] b.rows()[t]).len() == b.n_sems(),
        forall|t: int|
            0 <= t < b.n_threads() && (#[trigger] b.sem_request@[t]) is Some ==> b.valid_sem(
                b.sem_request@[t]->0 as int,
            ),
        b.conservation_ok(),
    ensures
        b.wf(),
{
    assert(b.lens_ok());
    assert(b.holders_ok()) by {
        assert forall|m: int|
            0 <= m < b.n_mutexes() && (#[trigger] b.mutex_alloc@[m]) is Some implies b.valid_mutex(
            m,
        ) && 0 <= b.mutex_alloc@[m]->0 < b.n_threads() by {
            assert(a.mutex_alloc@[m] is Some);
        }
    }
    assert(b.requests_ok()) by {
        assert forall|t: int|
            0 <= t < b.n_threads() && (#[trigger] b.mutex_request@[t]) is Some implies b.valid_mutex(
            b.mutex_request@[t]->0 as int,
        ) by {
            assert(a.mutex_request@[t] is Some);
        }
    }
}

/// The two mutex tables of `b` are those of `a`.
pub open spec fn same_mutex_tables(a: ProcessSync, b: ProcessSync) -> bool {
    &&& b.mutex_list@ == a.mutex_list@
    &&& b.mutex_alloc@ == a.mutex_alloc@
}

/// The semaphore tables and the holding ledger of `b` are those of `a`.
pub open spec fn same_sem_tables(a: ProcessSync, b: ProcessSync) -> bool {
    &&& b.semaphore_list@ == a.semaphore_list@
    &&& b.sem_avail@ == a.sem_avail@
    &&& b.sem_alloc@.len() == a.sem_alloc@.len()
    &&& b.rows() == a.rows()
}

/// The pending requests of `b` are those of `a`.
pub open spec fn same_requests(a: ProcessSync, b: ProcessSync) -> bool {
    &&& b.mutex_request@ == a.mutex_request@
    &&& b.sem_request@ == a.sem_request@
}

/// The condition-variable table of `b` is that of `a`.
pub open spec fn same_condvar_table(a: ProcessSync, b: ProcessSync) -> bool {
    b.condvar_list@ == a.condvar_list@
}

/// Nothing the registry records differs between `a` and `b`.
pub open spec fn same_state(a: ProcessSync, b: ProcessSync) -> bool {
    &&& same_mutex_tables(a, b)
    &&& same_sem_tables(a, b)
    &&& same_requests(a, b)
    &&& same_condvar_table(a, b)
    &&& b.deadlock_det_enabled == a.deadlock_det_enabled
}

} // verus!
