//! Per-thread, per-semaphore holding counts, summed over sets of threads.
//!
//! The ledger stores one row of unit counts per thread.  The conservation
//! invariant of the registry and both directions of the semaphore safety
//! check are stated over column sums of these rows, restricted to a set of
//! threads, so the lemmas here are about how such sums react to updating a
//! row, extending the table, or growing the set.
use vstd::prelude::*;

verus! {

/// Units of semaphore `sid` held by the thread whose row is `row`.
/// A column outside the row counts as zero.
pub open spec fn row_held(row: Seq<usize>, sid: int) -> int {
    if 0 <= sid < row.len() {
        row[sid] as int
    } else {
        0
    }
}

/// Units of semaphore `sid` held in total by the threads of `inc`,
/// over the rows of `rows` (thread `t`'s row is `rows[t]`).
pub open spec fn held_sum(rows: Seq<Seq<usize>>, inc: Set<int>, sid: int) -> int
    decreases rows.len(),
{
    if rows.len() == 0 {
        0
    } else {
        held_sum(rows.drop_last(), inc, sid) + if inc.contains(rows.len() - 1) {
            row_held(rows.last(), sid)
        } else {
            0
        }
    }
}

/// Units of semaphore `sid` held in total by every thread.
pub open spec fn held_total(rows: Seq<Seq<usize>>, sid: int) -> int {
    held_sum(rows, Set::full(), sid)
}

pub proof fn lemma_held_sum_nonneg(rows: Seq<Seq<usize>>, inc: Set<int>, sid: int)
    ensures
        0 <= held_sum(rows, inc, sid),
    decreases rows.len(),
{
    if rows.len() > 0 {
        lemma_held_sum_nonneg(rows.drop_last(), inc, sid);
    }
}

/// Growing the set of included threads can only grow the sum.
pub proof fn lemma_held_sum_subset(rows: Seq<Seq<usize>>, a: Set<int>, b: Set<int>, sid: int)
    requires
        forall|i: int| a.contains(i) ==> b.contains(i),
    ensures
        held_sum(rows, a, sid) <= held_sum(rows, b, sid),
    decreases rows.len(),
{
    if rows.len() > 0 {
        lemma_held_sum_subset(rows.drop_last(), a, b, sid);
    }
}

/// Two sets that only disagree on threads holding nothing at `sid`
/// give the same sum.
pub proof fn lemma_held_sum_sets_agree(rows: Seq<Seq<usize>>, a: Set<int>, b: Set<int>, sid: int)
    requires
        forall|i: int|
            0 <= i < rows.len() && a.contains(i) != b.contains(i) ==> row_held(#[trigger] rows[i], sid)
                == 0,
    ensures
        held_sum(rows, a, sid) == held_sum(rows, b, sid),
    decreases rows.len(),
{
    if rows.len() > 0 {
        assert forall|i: int|
            0 <= i < rows.drop_last().len() && a.contains(i) != b.contains(i) implies row_held(
            #[trigger] rows.drop_last()[i],
            sid,
        ) == 0 by {
            assert(rows.drop_last()[i] == rows[i]);
        }
        lemma_held_sum_sets_agree(rows.drop_last(), a, b, sid);
    }
}

/// Every thread of `inc` in range holds nothing at `sid`: the sum is zero.
pub proof fn lemma_held_sum_all_zero(rows: Seq<Seq<usize>>, inc: Set<int>, sid: int)
    requires
        forall|i: int|
            0 <= i < rows.len() && inc.contains(i) ==> row_held(#[trigger] rows[i], sid) == 0,
    ensures
        held_sum(rows, inc, sid) == 0,
    decreases rows.len(),
{
    if rows.len() > 0 {
        assert forall|i: int|
            0 <= i < rows.drop_last().len() && inc.contains(i) implies row_held(
            #[trigger] rows.drop_last()[i],
            sid,
        ) == 0 by {
            assert(rows.drop_last()[i] == rows[i]);
        }
        lemma_held_sum_all_zero(rows.drop_last(), inc, sid);
    }
}

/// Adding a new thread to the set adds exactly that thread's holding.
pub proof fn lemma_held_sum_insert(rows: Seq<Seq<usize>>, inc: Set<int>, t: int, sid: int)
    requires
        0 <= t < rows.len(),
        !inc.contains(t),
    ensures
        held_sum(rows, inc.insert(t), sid) == held_sum(rows, inc, sid) + row_held(rows[t], sid),
    decreases rows.len(),
{
    let last = rows.len() - 1;
    if t == last {
        lemma_held_sum_sets_agree(rows.drop_last(), inc.insert(t), inc, sid);
    } else {
        lemma_held_sum_insert(rows.drop_last(), inc, t, sid);
        assert(rows.drop_last()[t] == rows[t]);
    }
}

/// Replacing one thread's row changes the sum by that row's difference,
/// when the thread is included, and not at all otherwise.
pub proof fn lemma_held_sum_update(
    rows: Seq<Seq<usize>>,
    inc: Set<int>,
    t: int,
    row2: Seq<usize>,
    sid: int,
)
    requires
        0 <= t < rows.len(),
    ensures
        held_sum(rows.update(t, row2), inc, sid) == held_sum(rows, inc, sid) + if inc.contains(t) {
            row_held(row2, sid) - row_held(rows[t], sid)
        } else {
            0
        },
    decreases rows.len(),
{
    let last = rows.len() - 1;
    let rows2 = rows.update(t, row2);
    assert(rows2.len() == rows.len());
    if t == last {
        assert(rows2.drop_last() =~= rows.drop_last());
        assert(rows2.last() == row2);
    } else {
        assert(rows2.drop_last() =~= rows.drop_last().update(t, row2));
        assert(rows2.last() == rows.last());
        lemma_held_sum_update(rows.drop_last(), inc, t, row2, sid);
        assert(rows.drop_last()[t] == rows[t]);
    }
}

/// Appending a thread's row adds its holding when the new index is included.
pub proof fn lemma_held_sum_push(rows: Seq<Seq<usize>>, inc: Set<int>, row: Seq<usize>, sid: int)
    ensures
        held_sum(rows.push(row), inc, sid) == held_sum(rows, inc, sid) + if inc.contains(
            rows.len() as int,
        ) {
            row_held(row, sid)
        } else {
            0
        },
{
    assert(rows.push(row).drop_last() =~= rows);
    assert(rows.push(row).last() == row);
}

/// Tables whose included rows agree at `sid` have the same sum there.
pub proof fn lemma_held_sum_congruent(
    rows1: Seq<Seq<usize>>,
    rows2: Seq<Seq<usize>>,
    inc: Set<int>,
    sid: int,
)
    requires
        rows1.len() == rows2.len(),
        forall|i: int|
            0 <= i < rows1.len() && inc.contains(i) ==> row_held(#[trigger] rows2[i], sid)
                == row_held(#[trigger] rows1[i], sid),
    ensures
        held_sum(rows1, inc, sid) == held_sum(rows2, inc, sid),
    decreases rows1.len(),
{
    if rows1.len() > 0 {
        assert forall|i: int|
            0 <= i < rows1.drop_last().len() && inc.contains(i) implies row_held(
            #[trigger] rows2.drop_last()[i],
            sid,
        ) == row_held(#[trigger] rows1.drop_last()[i], sid) by {
            assert(rows1.drop_last()[i] == rows1[i]);
            assert(rows2.drop_last()[i] == rows2[i]);
        }
        lemma_held_sum_congruent(rows1.drop_last(), rows2.drop_last(), inc, sid);
        if inc.contains(rows1.len() - 1) {
            assert(row_held(rows2.last(), sid) == row_held(rows1.last(), sid)) by {
                assert(rows1.last() == rows1[rows1.len() - 1]);
                assert(rows2.last() == rows2[rows1.len() - 1]);
            }
        }
    }
}

/// One included thread's holding never exceeds the whole sum.
pub proof fn lemma_held_sum_member_le(rows: Seq<Seq<usize>>, inc: Set<int>, t: int, sid: int)
    requires
        0 <= t < rows.len(),
        inc.contains(t),
    ensures
        row_held(rows[t], sid) <= held_sum(rows, inc, sid),
    decreases rows.len(),
{
    let last = rows.len() - 1;
    if t == last {
        lemma_held_sum_nonneg(rows.drop_last(), inc, sid);
    } else {
        lemma_held_sum_member_le(rows.drop_last(), inc, t, sid);
        assert(rows.drop_last()[t] == rows[t]);
        if inc.contains(last) {
            assert(row_held(rows.last(), sid) >= 0);
        }
    }
}

} // verus!
