//! Multi-instance deadlock detection for semaphores.
//!
//! A pending down request is checked with a safety pass over the whole
//! ledger: threads that could finish (their pending request, if any, can be
//! served from the units currently free plus the units already released by
//! other finished threads) are eliminated one by one, releasing their
//! holdings.  The ledger is deadlocked exactly when some nonempty set of
//! holding threads exists whose pending requests could not be served even if
//! every thread outside the set released everything it holds.
use vstd::prelude::*;

use crate::ledger::{held_sum, held_total, row_held};
use crate::ledger::{
    lemma_held_sum_all_zero, lemma_held_sum_insert, lemma_held_sum_sets_agree,
    lemma_held_sum_subset,
};
use crate::mutex_detect::marked_set;
use crate::state::ProcessSync;

verus! {

/// Thread `t` holds at least one unit of some semaphore.
pub open spec fn holds_units(rows: Seq<Seq<usize>>, t: int) -> bool {
    exists|s: int| row_held(#[trigger] rows[t], s) > 0
}

/// The threads of the ledger that hold nothing; they can always finish.
pub open spec fn nonholder_set(rows: Seq<Seq<usize>>) -> Set<int> {
    Set::new(|t: int| 0 <= t < rows.len() && !holds_units(rows, t))
}

/// A nonempty set of holding threads, each waiting on a semaphore that has
/// no free unit even after every thread outside the set releases all units
/// it holds.  No thread of such a set can ever proceed.
pub open spec fn stuck_set(
    avail: Seq<usize>,
    rows: Seq<Seq<usize>>,
    req: Seq<Option<usize>>,
    u: Set<int>,
) -> bool {
    &&& exists|t: int| u.contains(t)
    &&& forall|t: int| #[trigger]
        u.contains(t) ==> {
            &&& 0 <= t < rows.len()
            &&& holds_units(rows, t)
            &&& req[t] is Some
            &&& avail[req[t]->0 as int] + held_sum(rows, u.complement(), req[t]->0 as int) == 0
        }
}

/// The ledger (free units `avail`, holdings `rows`, pending requests `req`)
/// admits a set of threads that can never proceed.
pub open spec fn sem_deadlocked(
    avail: Seq<usize>,
    rows: Seq<Seq<usize>>,
    req: Seq<Option<usize>>,
) -> bool {
    exists|u: Set<int>| stuck_set(avail, rows, req, u)
}

/// The threads finished before step `i` of an elimination order: the
/// threads holding nothing, plus the first `i` eliminated threads.
pub open spec fn elim_prefix(rows: Seq<Seq<usize>>, order: Seq<int>, i: int) -> Set<int> {
    nonholder_set(rows).union(order.take(i).to_set())
}

/// Step `i` of `order` eliminates a holding thread not eliminated before,
/// whose pending request (if any) can be served from the free units plus
/// everything the threads finished before it released.
pub open spec fn ok_elim_at(
    avail: Seq<usize>,
    rows: Seq<Seq<usize>>,
    req: Seq<Option<usize>>,
    order: Seq<int>,
    i: int,
) -> bool {
    let t = order[i];
    &&& 0 <= t < rows.len()
    &&& holds_units(rows, t)
    &&& !order.take(i).to_set().contains(t)
    &&& match req[t] {
        None => true,
        Some(sid) => avail[sid as int] + held_sum(rows, elim_prefix(rows, order, i), sid as int)
            > 0,
    }
}

/// `order` eliminates threads one by one, each legitimately.
pub open spec fn ok_elim_order(
    avail: Seq<usize>,
    rows: Seq<Seq<usize>>,
    req: Seq<Option<usize>>,
    order: Seq<int>,
) -> bool {
    forall|i: int| 0 <= i < order.len() ==> ok_elim_at(avail, rows, req, order, i)
}

/// Appending to a sequence inserts into the set of its elements.
pub proof fn lemma_push_to_set(q: Seq<int>, x: int)
    ensures
        q.push(x).to_set() =~= q.to_set().insert(x),
{
    assert forall|y: int| q.push(x).to_set().contains(y) implies q.to_set().insert(x).contains(
        y,
    ) by {
        let i = choose|i: int| 0 <= i < q.push(x).len() && (#[trigger] q.push(x)[i]) == y;
        if i < q.len() {
            assert(q[i] == y);
        }
    }
    assert forall|y: int| q.to_set().insert(x).contains(y) implies q.push(x).to_set().contains(
        y,
    ) by {
        if q.to_set().contains(y) {
            let i = choose|i: int| 0 <= i < q.len() && (#[trigger] q[i]) == y;
            assert(q.push(x)[i] == y);
        } else {
            assert(q.push(x)[q.len() as int] == x);
        }
    }
}

/// No thread eliminated by a legitimate order can belong to a stuck set:
/// the first such thread would have been eliminated with fewer units free
/// than the stuck set already rules out.
proof fn lemma_order_avoids_stuck(
    avail: Seq<usize>,
    rows: Seq<Seq<usize>>,
    req: Seq<Option<usize>>,
    order: Seq<int>,
    u: Set<int>,
    i: int,
)
    requires
        ok_elim_order(avail, rows, req, order),
        stuck_set(avail, rows, req, u),
        0 <= i <= order.len(),
    ensures
        forall|j: int| 0 <= j < i ==> !u.contains(#[trigger] order[j]),
    decreases i,
{
    if i > 0 {
        lemma_order_avoids_stuck(avail, rows, req, order, u, i - 1);
        let t = order[i - 1];
        assert(ok_elim_at(avail, rows, req, order, i - 1));
        if u.contains(t) {
            let sid = req[t]->0 as int;
            assert forall|x: int| elim_prefix(rows, order, i - 1).contains(x) implies u.complement().contains(x) by {
                if nonholder_set(rows).contains(x) {
                    assert(!u.contains(x));
                } else {
                    assert(order.take(i - 1).to_set().contains(x));
                    let j = choose|j: int|
                        0 <= j < order.take(i - 1).len() && (#[trigger] order.take(i - 1)[j])
                            == x;
                    assert(order[j] == x);
                    assert(!u.contains(x));
                }
            }
            lemma_held_sum_subset(rows, elim_prefix(rows, order, i - 1), u.complement(), sid);
            assert(false);
        }
    }
}

/// A legitimate elimination order that reaches every holding thread refutes
/// every candidate stuck set: the ledger is not deadlocked.
pub proof fn lemma_elimination_refutes_stuck(
    avail: Seq<usize>,
    rows: Seq<Seq<usize>>,
    req: Seq<Option<usize>>,
    order: Seq<int>,
)
    requires
        ok_elim_order(avail, rows, req, order),
        forall|t: int|
            0 <= t < rows.len() && holds_units(rows, t) ==> order.to_set().contains(t),
    ensures
        !sem_deadlocked(avail, rows, req),
{
    if sem_deadlocked(avail, rows, req) {
        let u = choose|u: Set<int>| stuck_set(avail, rows, req, u);
        let t0 = choose|t: int| u.contains(t);
        assert(order.to_set().contains(t0));
        let j = choose|j: int| 0 <= j < order.len() && (#[trigger] order[j]) == t0;
        lemma_order_avoids_stuck(avail, rows, req, order, u, order.len() as int);
        assert(false);
    }
}

/// Whether any entry of a holding row is nonzero.
fn row_has_units(row: &Vec<usize>) -> (b: bool)
    ensures
        b == (exists|s: int| row_held(row@, s) > 0),
{
    let mut j: usize = 0;
    while j < row.len()
        invariant
            j <= row@.len(),
            forall|k: int| 0 <= k < j ==> row@[k] == 0usize,
        decreases row@.len() - j,
    {
        if row[j] > 0 {
            assert(row_held(row@, j as int) > 0);
            return true;
        }
        j += 1;
    }
    assert(forall|s: int| row_held(row@, s) == 0);
    false
}

/// Runs the safety pass over the ledger and reports whether it is
/// deadlocked.  Reads the registry without changing it.
pub fn sem_deadlock_scan(s: &ProcessSync) -> (found: bool)
    requires
        s.wf(),
    ensures
        found == sem_deadlocked(s.sem_avail@, s.rows(), s.sem_request@),
{
    let ghost avail = s.sem_avail@;
    let ghost rows = s.rows();
    let ghost req = s.sem_request@;
    let n = s.sem_alloc.len();
    let w = s.sem_avail.len();
    proof {
        assert(rows.len() == n);
        assert(req.len() == n);
    }

    // work: units currently free, plus everything finished threads released
    let mut work: Vec<usize> = Vec::new();
    let mut i: usize = 0;
    while i < w
        invariant
            i <= w,
            w == s.sem_avail@.len(),
            work@.len() == i,
            forall|k: int| 0 <= k < i ==> work@[k] == s.sem_avail@[k],
        decreases w - i,
    {
        work.push(s.sem_avail[i]);
        i += 1;
    }

    // done: finished threads; threads holding nothing finish trivially
    let mut done: Vec<bool> = Vec::new();
    let mut ndone: usize = 0;
    proof {
        assert(marked_set(done@) =~= Set::<int>::empty());
    }
    let mut t: usize = 0;
    while t < n
        invariant
            t <= n,
            n == s.sem_alloc@.len(),
            rows == s.rows(),
            done@.len() == t,
            forall|k: int| 0 <= k < t ==> done@[k] == !holds_units(rows, k),
            marked_set(done@).finite(),
            ndone == marked_set(done@).len(),
            ndone <= t,
        decreases n - t,
    {
        let ghost ds0 = marked_set(done@);
        let h = row_has_units(&s.sem_alloc[t]);
        proof {
            assert(rows[t as int] == s.sem_alloc@[t as int]@);
        }
        done.push(!h);
        if !h {
            ndone += 1;
            proof {
                assert(marked_set(done@) =~= ds0.insert(t as int));
            }
        } else {
            proof {
                assert(marked_set(done@) =~= ds0);
            }
        }
        t += 1;
    }

    let ghost mut order: Seq<int> = Seq::empty();
    proof {
        assert(order.to_set() =~= Set::empty());
        assert(marked_set(done@) =~= nonholder_set(rows).union(order.to_set()));
        assert forall|sid: int| 0 <= sid < w implies work@[sid] == avail[sid] + held_sum(
            rows,
            marked_set(done@),
            sid,
        ) by {
            assert forall|x: int|
                0 <= x < rows.len() && marked_set(done@).contains(x) implies row_held(
                #[trigger] rows[x],
                sid,
            ) == 0 by {
                assert(!holds_units(rows, x));
            }
            lemma_held_sum_all_zero(rows, marked_set(done@), sid);
        }
    }

    let mut all_finished = ndone == n;
    let mut all_released = false;
    while !all_finished && !all_released
        invariant
            s.wf(),
            avail == s.sem_avail@,
            rows == s.rows(),
            req == s.sem_request@,
            n == s.sem_alloc@.len(),
            w == s.sem_avail@.len(),
            rows.len() == n,
            req.len() == n,
            work@.len() == w,
            done@.len() == n,
            marked_set(done@).finite(),
            ndone == marked_set(done@).len(),
            ndone <= n,
            forall|k: int| 0 <= k < n && !done@[k] ==> holds_units(rows, k),
            marked_set(done@) == nonholder_set(rows).union(order.to_set()),
            ok_elim_order(avail, rows, req, order),
            forall|sid: int|
                0 <= sid < w ==> work@[sid] == avail[sid] + held_sum(
                    rows,
                    marked_set(done@),
                    sid,
                ),
            all_finished == (ndone == n),
            all_released ==> forall|k: int|
                0 <= k < n && !done@[k] ==> (#[trigger] req[k]) is Some && work@[req[k]->0 as int]
                    == 0,
        decreases 2 * (n - ndone) + (if all_released { 0int } else { 1int }),
    {
        let ghost ndone0 = ndone;
        all_released = true;
        let mut t: usize = 0;
        while t < n
            invariant
                s.wf(),
                avail == s.sem_avail@,
                rows == s.rows(),
                req == s.sem_request@,
                n == s.sem_alloc@.len(),
                w == s.sem_avail@.len(),
                rows.len() == n,
                req.len() == n,
                t <= n,
                work@.len() == w,
                done@.len() == n,
                marked_set(done@).finite(),
                ndone == marked_set(done@).len(),
                ndone <= n,
                ndone >= ndone0,
                !all_released ==> ndone > ndone0,
                forall|k: int| 0 <= k < n && !done@[k] ==> holds_units(rows, k),
                marked_set(done@) == nonholder_set(rows).union(order.to_set()),
                ok_elim_order(avail, rows, req, order),
                forall|sid: int|
                    0 <= sid < w ==> work@[sid] == avail[sid] + held_sum(
                        rows,
                        marked_set(done@),
                        sid,
                    ),
                all_released ==> forall|k: int|
                    0 <= k < t && !done@[k] ==> (#[trigger] req[k]) is Some && work@[req[k]->0
                        as int] == 0,
            decreases n - t,
        {
            if !done[t] {
                let can = match s.sem_request[t] {
                    None => true,
                    Some(sid) => {
                        proof {
                            assert(s.valid_sem(sid as int));
                        }
                        work[sid] > 0
                    },
                };
                if can {
                    let ghost ds0 = marked_set(done@);
                    // release everything thread t holds into work
                    let mut j: usize = 0;
                    while j < w
                        invariant
                            s.wf(),
                            avail == s.sem_avail@,
                            rows == s.rows(),
                            n == s.sem_alloc@.len(),
                            w == s.sem_avail@.len(),
                            rows.len() == n,
                            (t as int) < n,
                            j <= w,
                            work@.len() == w,
                            done@.len() == n,
                            !done@[t as int],
                            ds0 == marked_set(done@),
                            forall|sid: int|
                                0 <= sid < j ==> work@[sid] == avail[sid] + held_sum(
                                    rows,
                                    ds0.insert(t as int),
                                    sid,
                                ),
                            forall|sid: int|
                                j <= sid < w ==> work@[sid] == avail[sid] + held_sum(
                                    rows,
                                    ds0,
                                    sid,
                                ),
                        decreases w - j,
                    {
                        proof {
                            assert(!ds0.contains(t as int));
                            lemma_held_sum_insert(rows, ds0, t as int, j as int);
                            lemma_held_sum_subset(rows, ds0.insert(t as int), Set::full(), j as int);
                            assert(rows[t as int] == s.sem_alloc@[t as int]@);
                            if s.semaphore_list@[j as int] is Some {
                                assert(avail[j as int] + held_total(rows, j as int)
                                    == s.sem_capacity(j as int));
                            } else {
                                assert(avail[j as int] == 0 && held_total(rows, j as int) == 0);
                            }
                        }
                        let add = s.sem_alloc[t][j];
                        work.set(j, work[j] + add);
                        j += 1;
                    }
                    proof {
                        assert(!ds0.contains(t as int));
                        let range = vstd::set_lib::set_int_range(0, n as int);
                        vstd::set_lib::lemma_int_range(0, n as int);
                        assert(ds0.subset_of(range.remove(t as int)));
                        vstd::set_lib::lemma_len_subset(ds0, range.remove(t as int));
                        assert(ndone <= n - 1);
                    }
                    done.set(t, true);
                    ndone += 1;
                    all_released = false;
                    proof {
                        assert(marked_set(done@) =~= ds0.insert(t as int));
                        let tt = t as int;
                        // the eliminated thread joins the order
                        let order2 = order.push(tt);
                        lemma_push_to_set(order, tt);
                        assert(order2.take(order.len() as int) =~= order);
                        if order.to_set().contains(tt) {
                            assert(ds0.contains(tt));
                            assert(false);
                        }
                        assert forall|i: int| 0 <= i < order2.len() implies ok_elim_at(
                            avail,
                            rows,
                            req,
                            order2,
                            i,
                        ) by {
                            if i < order.len() {
                                assert(ok_elim_at(avail, rows, req, order, i));
                                assert(order2.take(i) =~= order.take(i));
                                assert(order2[i] == order[i]);
                            } else {
                                assert(order2[i] == tt);
                                assert(elim_prefix(rows, order2, i) == ds0);
                            }
                        }
                        order = order2;
                        assert(marked_set(done@) =~= nonholder_set(rows).union(order.to_set()));
                    }
                }
            }
            t += 1;
        }
        all_finished = ndone == n;
    }

    if all_finished {
        proof {
            let range = vstd::set_lib::set_int_range(0, n as int);
            vstd::set_lib::lemma_int_range(0, n as int);
            assert forall|k: int| 0 <= k < n implies done@[k] by {
                if !done@[k] {
                    assert(marked_set(done@).subset_of(range.remove(k)));
                    vstd::set_lib::lemma_len_subset(marked_set(done@), range.remove(k));
                }
            }
            assert forall|x: int|
                0 <= x < rows.len() && holds_units(rows, x) implies order.to_set().contains(
                x,
            ) by {
                assert(marked_set(done@).contains(x));
            }
            lemma_elimination_refutes_stuck(avail, rows, req, order);
        }
        false
    } else {
        let ghost u = Set::new(|k: int| 0 <= k < n && !done@[k]);
        proof {
            let range = vstd::set_lib::set_int_range(0, n as int);
            vstd::set_lib::lemma_int_range(0, n as int);
            if forall|k: int| 0 <= k < n ==> done@[k] {
                assert(range.subset_of(marked_set(done@)));
                vstd::set_lib::lemma_len_subset(range, marked_set(done@));
                assert(false);
            }
            let k0 = choose|k: int| 0 <= k < n && !done@[k];
            assert(u.contains(k0));
            assert forall|x: int| #[trigger] u.contains(x) implies {
                &&& 0 <= x < rows.len()
                &&& holds_units(rows, x)
                &&& req[x] is Some
                &&& avail[req[x]->0 as int] + held_sum(rows, u.complement(), req[x]->0 as int)
                    == 0
            } by {
                assert(req[x] is Some && work@[req[x]->0 as int] == 0);
                let sid = req[x]->0 as int;
                assert(s.valid_sem(sid));
                lemma_held_sum_sets_agree(rows, marked_set(done@), u.complement(), sid);
            }
            assert(stuck_set(avail, rows, req, u));
        }
        true
    }
}

/// Two threads in a symmetric circular wait on two semaphores with no free
/// units and no third holder deadlock: each waits for the unit only the
/// other could release.
pub proof fn lemma_cross_sem_deadlock(
    avail: Seq<usize>,
    rows: Seq<Seq<usize>>,
    req: Seq<Option<usize>>,
    t1: usize,
    t2: usize,
    s1: usize,
    s2: usize,
)
    requires
        t1 != t2,
        (t1 as int) < rows.len(),
        (t2 as int) < rows.len(),
        row_held(rows[t1 as int], s1 as int) > 0,
        row_held(rows[t2 as int], s2 as int) > 0,
        req[t1 as int] == Some(s2),
        req[t2 as int] == Some(s1),
        avail[s1 as int] == 0,
        avail[s2 as int] == 0,
        forall|x: int|
            0 <= x < rows.len() && x != t1 && x != t2 ==> row_held(#[trigger] rows[x], s1 as int)
                == 0 && row_held(rows[x], s2 as int) == 0,
    ensures
        sem_deadlocked(avail, rows, req),
{
    let u = Set::empty().insert(t1 as int).insert(t2 as int);
    assert(u.contains(t1 as int));
    assert forall|x: int|
        0 <= x < rows.len() && u.complement().contains(x) implies row_held(
        #[trigger] rows[x],
        s1 as int,
    ) == 0 by {}
    lemma_held_sum_all_zero(rows, u.complement(), s1 as int);
    assert forall|x: int|
        0 <= x < rows.len() && u.complement().contains(x) implies row_held(
        #[trigger] rows[x],
        s2 as int,
    ) == 0 by {}
    lemma_held_sum_all_zero(rows, u.complement(), s2 as int);
    assert(holds_units(rows, t1 as int));
    assert(holds_units(rows, t2 as int));
    assert(stuck_set(avail, rows, req, u));
}

} // verus!
