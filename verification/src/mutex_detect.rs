//! Single-instance deadlock detection for mutexes.
//!
//! Each thread waits on at most one mutex and each mutex has at most one
//! holder, so the wait-for relation from a requesting thread is a single
//! chain: the requested mutex's holder, the mutex that holder waits on, and
//! so on.  The request deadlocks exactly when the chain revisits a thread
//! before reaching a free mutex or a thread that waits on nothing.
use vstd::prelude::*;

use crate::state::ProcessSync;

verus! {

/// One walk along the wait-for chain: `alloc` maps each mutex to its holder,
/// `req` maps each thread to the mutex it waits on, `visited` holds the
/// threads already implicated, `m` is the chain's cursor.  The walk reports a
/// deadlock when it reaches a holder it has already visited.  `fuel` only
/// bounds the recursion; with fuel at least the number of threads the walk
/// always ends in one of the other branches, because every step visits a new
/// thread.
pub open spec fn mutex_wait_walk(
    alloc: Seq<Option<usize>>,
    req: Seq<Option<usize>>,
    visited: Set<int>,
    m: int,
    fuel: nat,
) -> bool
    decreases fuel,
{
    if !(0 <= m < alloc.len()) {
        false
    } else {
        match alloc[m] {
            None => false,
            Some(h) => {
                if visited.contains(h as int) {
                    true
                } else {
                    match req[h as int] {
                        None => false,
                        Some(m2) => {
                            if fuel == 0 {
                                true
                            } else {
                                mutex_wait_walk(
                                    alloc,
                                    req,
                                    visited.insert(h as int),
                                    m2 as int,
                                    (fuel - 1) as nat,
                                )
                            }
                        },
                    }
                }
            },
        }
    }
}

/// Thread `t0`'s request for mutex `m0` would close a cycle in the wait-for
/// graph.
pub open spec fn mutex_deadlock(
    alloc: Seq<Option<usize>>,
    req: Seq<Option<usize>>,
    t0: int,
    m0: int,
) -> bool {
    mutex_wait_walk(alloc, req, Set::empty().insert(t0), m0, req.len() as nat)
}

/// The set of thread ids marked in `v`.
pub open spec fn marked_set(v: Seq<bool>) -> Set<int> {
    Set::new(|i: int| 0 <= i < v.len() && v[i])
}

/// Walks the wait-for chain from `tid`'s request for `mutex_id` and reports
/// whether it closes a cycle.  Reads the registry without changing it.
pub fn mutex_deadlock_scan(s: &ProcessSync, tid: usize, mutex_id: usize) -> (found: bool)
    requires
        s.wf(),
        (tid as int) < s.n_threads(),
        s.valid_mutex(mutex_id as int),
    ensures
        found == mutex_deadlock(s.mutex_alloc@, s.mutex_request@, tid as int, mutex_id as int),
{
    let n = s.mutex_request.len();
    let mut visited: Vec<bool> = Vec::new();
    let mut i: usize = 0;
    while i < n
        invariant
            i <= n,
            visited@.len() == i,
            forall|k: int| 0 <= k < i ==> !visited@[k],
        decreases n - i,
    {
        visited.push(false);
        i += 1;
    }
    visited.set(tid, true);
    proof {
        assert(marked_set(visited@) =~= Set::empty().insert(tid as int));
    }
    let mut count: usize = 1;
    let mut mid: usize = mutex_id;
    loop
        invariant
            s.wf(),
            n == s.n_threads(),
            (tid as int) < s.n_threads(),
            s.valid_mutex(mid as int),
            visited@.len() == n,
            marked_set(visited@).contains(tid as int),
            marked_set(visited@).finite(),
            count == marked_set(visited@).len(),
            1 <= count <= n,
            mutex_deadlock(s.mutex_alloc@, s.mutex_request@, tid as int, mutex_id as int)
                == mutex_wait_walk(
                s.mutex_alloc@,
                s.mutex_request@,
                marked_set(visited@),
                mid as int,
                (n - count + 1) as nat,
            ),
        decreases n - count,
    {
        let ghost vset = marked_set(visited@);
        let ghost fuel = (n - count + 1) as nat;
        match s.mutex_alloc[mid] {
            None => {
                return false;
            },
            Some(h) => {
                if visited[h] {
                    return true;
                }
                proof {
                    let range = vstd::set_lib::set_int_range(0, n as int);
                    vstd::set_lib::lemma_int_range(0, n as int);
                    assert(vset.subset_of(range.remove(h as int)));
                    vstd::set_lib::lemma_len_subset(vset, range.remove(h as int));
                    assert(count <= n - 1);
                }
                visited.set(h, true);
                count += 1;
                proof {
                    assert(marked_set(visited@) =~= vset.insert(h as int));
                    assert(fuel >= 2);
                }
                match s.mutex_request[h] {
                    None => {
                        return false;
                    },
                    Some(m2) => {
                        mid = m2;
                    },
                }
            },
        }
    }
}

/// A request for a mutex nobody holds never deadlocks: the wait-for chain
/// ends at once.  A thread that only ever locks a released mutex therefore
/// never sees the deadlock sentinel.
pub proof fn lemma_unheld_mutex_not_deadlock(
    alloc: Seq<Option<usize>>,
    req: Seq<Option<usize>>,
    t0: int,
    m0: int,
)
    requires
        0 <= m0 < alloc.len() ==> alloc[m0] is None,
    ensures
        !mutex_deadlock(alloc, req, t0, m0),
{
}

/// Two threads holding one mutex each and requesting the other's deadlock:
/// the wait-for chain from either request closes a cycle.
pub proof fn lemma_cross_wait_deadlock(
    alloc: Seq<Option<usize>>,
    req: Seq<Option<usize>>,
    t0: usize,
    m0: usize,
    t1: usize,
    m1: usize,
)
    requires
        (t0 as int) < req.len(),
        (t1 as int) < req.len(),
        t0 != t1,
        (m0 as int) < alloc.len(),
        (m1 as int) < alloc.len(),
        alloc[m0 as int] == Some(t1),
        req[t1 as int] == Some(m1),
        alloc[m1 as int] == Some(t0),
    ensures
        mutex_deadlock(alloc, req, t0 as int, m0 as int),
{
    let v0 = Set::empty().insert(t0 as int);
    let fuel = req.len() as nat;
    assert(fuel >= 2);
    assert(mutex_wait_walk(alloc, req, v0.insert(t1 as int), m1 as int, (fuel - 1) as nat));
}

} // verus!
