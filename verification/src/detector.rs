//! The Deadlock Detector Block: `available` / `allocation` / `need`
//! bookkeeping matrices, one triple per resource type, and the classical
//! Banker's-algorithm safety check that decides whether a blocking
//! acquisition may proceed.
//!
//! Matrix entries are signed: condition-variable waits release a lock
//! without running the release bookkeeping, so `available` can drop below
//! zero and a thread's recorded allocation can be left behind; the one
//! quantity that every operation preserves is capacity conservation,
//! `available[r] + sum of allocation[t][r] == capacity(r)`.

use vstd::prelude::*;

verus! {

/// Mathematical view of a matrix: a sequence of rows, each a sequence of
/// entries, indexed `[thread][resource]`.
pub open spec fn matv(m: Vec<Vec<isize>>) -> Seq<Seq<isize>> {
    Seq::new(m@.len(), |t: int| m@[t]@)
}

/// Mathematical view of a vector of signed machine integers.
pub open spec fn intv(s: Seq<isize>) -> Seq<int> {
    Seq::new(s.len(), |i: int| s[i] as int)
}

/// The matrix has exactly `rows` rows, each of width `width`.
pub open spec fn rect(m: Seq<Seq<isize>>, rows: int, width: int) -> bool {
    &&& m.len() == rows
    &&& forall|t: int| 0 <= t < rows ==> (#[trigger] m[t]).len() == width
}

/// Sum of column `r` over the first `n` rows of `m`.
pub open spec fn col_total(m: Seq<Seq<isize>>, r: int, n: int) -> int
    decreases n,
{
    if n <= 0 {
        0
    } else {
        col_total(m, r, n - 1) + m[n - 1][r] as int
    }
}

/// Rows that agree on column `r` give the same column total.
pub proof fn lemma_col_total_pointwise(m1: Seq<Seq<isize>>, m2: Seq<Seq<isize>>, r: int, n: int)
    requires
        forall|t: int| 0 <= t < n ==> #[trigger] m2[t][r] == m1[t][r],
    ensures
        col_total(m2, r, n) == col_total(m1, r, n),
    decreases n,
{
    if n > 0 {
        lemma_col_total_pointwise(m1, m2, r, n - 1);
    }
}

/// Changing one entry of column `r` moves the column total by the
/// difference; other columns keep their totals.
pub proof fn lemma_col_total_update(m: Seq<Seq<isize>>, t: int, r: int, v: isize, n: int)
    requires
        0 <= t < m.len(),
        0 <= r < m[t].len(),
        n <= m.len(),
    ensures
        0 <= t < n ==> col_total(m.update(t, m[t].update(r, v)), r, n)
            == col_total(m, r, n) + v - m[t][r],
        n <= t ==> col_total(m.update(t, m[t].update(r, v)), r, n) == col_total(m, r, n),
        forall|c: int| 0 <= c < m[t].len() && c != r
            ==> #[trigger] col_total(m.update(t, m[t].update(r, v)), c, n) == col_total(m, c, n),
    decreases n,
{
    if n > 0 {
        lemma_col_total_update(m, t, r, v, n - 1);
        let m2 = m.update(t, m[t].update(r, v));
        assert forall|c: int| 0 <= c < m[t].len() && c != r implies #[trigger] col_total(m2, c, n)
            == col_total(m, c, n) by {
            if n - 1 == t {
                assert(m2[t] == m[t].update(r, v));
                assert(m2[t][c] == m[t][c]);
            } else {
                assert(m2[n - 1] == m[n - 1]);
            }
            assert(col_total(m2, c, n) == col_total(m2, c, n - 1) + m2[n - 1][c] as int);
            assert(col_total(m, c, n) == col_total(m, c, n - 1) + m[n - 1][c] as int);
            assert(col_total(m2, c, n - 1) == col_total(m, c, n - 1));
        }
    }
}

/// A column whose entries are all zero sums to zero.
pub proof fn lemma_col_total_zero(m: Seq<Seq<isize>>, r: int, n: int)
    requires
        forall|t: int| 0 <= t < n ==> #[trigger] m[t][r] == 0,
    ensures
        col_total(m, r, n) == 0,
    decreases n,
{
    if n > 0 {
        lemma_col_total_zero(m, r, n - 1);
    }
}

/// Number of `true` entries among the first `n` of `mask`.
pub open spec fn num_true(mask: Seq<bool>, n: int) -> int
    decreases n,
{
    if n <= 0 {
        0
    } else {
        num_true(mask, n - 1) + if mask[n - 1] {
            1int
        } else {
            0int
        }
    }
}

pub proof fn lemma_num_true_bounds(mask: Seq<bool>, n: int)
    requires
        0 <= n,
    ensures
        0 <= num_true(mask, n) <= n,
    decreases n,
{
    if n > 0 {
        lemma_num_true_bounds(mask, n - 1);
    }
}

/// An unfinished row below `n` keeps the count strictly under `n`.
pub proof fn lemma_num_true_missing(mask: Seq<bool>, t: int, n: int)
    requires
        0 <= t < n,
        !mask[t],
    ensures
        num_true(mask, n) <= n - 1,
    decreases n,
{
    lemma_num_true_bounds(mask, t);
    if t < n - 1 {
        lemma_num_true_missing(mask, t, n - 1);
    }
}

pub proof fn lemma_num_true_update(mask: Seq<bool>, t: int, n: int)
    requires
        0 <= t < mask.len(),
        !mask[t],
        n <= mask.len(),
    ensures
        0 <= t < n ==> num_true(mask.update(t, true), n) == num_true(mask, n) + 1,
        n <= t ==> num_true(mask.update(t, true), n) == num_true(mask, n),
    decreases n,
{
    if n > 0 {
        lemma_num_true_update(mask, t, n - 1);
    }
}

pub proof fn lemma_num_true_all_false(mask: Seq<bool>, n: int)
    requires
        forall|j: int| 0 <= j < n ==> !mask[j],
    ensures
        num_true(mask, n) == 0,
    decreases n,
{
    if n > 0 {
        lemma_num_true_all_false(mask, n - 1);
    }
}

/// Sum of column `r` over the finished rows among the first `n`.
pub open spec fn masked_col_total(m: Seq<Seq<isize>>, mask: Seq<bool>, r: int, n: int) -> int
    decreases n,
{
    if n <= 0 {
        0
    } else {
        masked_col_total(m, mask, r, n - 1) + if mask[n - 1] {
            m[n - 1][r] as int
        } else {
            0int
        }
    }
}

/// The masked sum of `k` finished machine integers stays within `k` machine ranges.
pub proof fn lemma_masked_col_total_bound(m: Seq<Seq<isize>>, mask: Seq<bool>, r: int, n: int)
    requires
        0 <= n,
    ensures
        -num_true(mask, n) * 0x8000_0000_0000_0000
            <= masked_col_total(m, mask, r, n)
            <= num_true(mask, n) * 0x7FFF_FFFF_FFFF_FFFF,
    decreases n,
{
    if n > 0 {
        lemma_masked_col_total_bound(m, mask, r, n - 1);
    }
}

pub proof fn lemma_masked_col_total_all_false(m: Seq<Seq<isize>>, mask: Seq<bool>, r: int, n: int)
    requires
        forall|j: int| 0 <= j < n ==> !mask[j],
    ensures
        masked_col_total(m, mask, r, n) == 0,
    decreases n,
{
    if n > 0 {
        lemma_masked_col_total_all_false(m, mask, r, n - 1);
    }
}

/// Finishing row `t` adds its column entry to the masked total.
pub proof fn lemma_masked_col_total_update(m: Seq<Seq<isize>>, mask: Seq<bool>, t: int, r: int, n: int)
    requires
        0 <= t < mask.len(),
        !mask[t],
        n <= mask.len(),
    ensures
        0 <= t < n ==> masked_col_total(m, mask.update(t, true), r, n)
            == masked_col_total(m, mask, r, n) + m[t][r] as int,
        n <= t ==> masked_col_total(m, mask.update(t, true), r, n) == masked_col_total(m, mask, r, n),
    decreases n,
{
    if n > 0 {
        lemma_masked_col_total_update(m, mask, t, r, n - 1);
    }
}

/// Every entry of the `need` row fits under the corresponding work entry.
pub open spec fn row_le(row: Seq<isize>, work: Seq<int>) -> bool {
    forall|r: int| 0 <= r < work.len() ==> (#[trigger] row[r]) as int <= work[r]
}

/// Work after returning row `row` to it.
pub open spec fn bump(work: Seq<int>, row: Seq<isize>) -> Seq<int> {
    Seq::new(work.len(), |r: int| work[r] + row[r] as int)
}

/// Thread `j` is unfinished and its outstanding need fits under `work`.
pub open spec fn ready_at(need: Seq<Seq<isize>>, work: Seq<int>, finish: Seq<bool>, j: int) -> bool {
    &&& !finish[j]
    &&& row_le(need[j], work)
}

/// Index of the lowest ready thread at or after `i`; -1 when none is left.
pub open spec fn first_ready(need: Seq<Seq<isize>>, work: Seq<int>, finish: Seq<bool>, i: int) -> int
    decreases finish.len() - i,
{
    if i < 0 || i >= finish.len() {
        -1
    } else if ready_at(need, work, finish, i) {
        i
    } else {
        first_ready(need, work, finish, i + 1)
    }
}

pub proof fn lemma_first_ready_found(need: Seq<Seq<isize>>, work: Seq<int>, finish: Seq<bool>, i: int)
    requires
        0 <= i,
        first_ready(need, work, finish, i) != -1,
    ensures
        ({
            let t = first_ready(need, work, finish, i);
            i <= t < finish.len() && ready_at(need, work, finish, t)
        }),
    decreases finish.len() - i,
{
    if i < finish.len() && !ready_at(need, work, finish, i) {
        lemma_first_ready_found(need, work, finish, i + 1);
    }
}

pub proof fn lemma_first_ready_is(need: Seq<Seq<isize>>, work: Seq<int>, finish: Seq<bool>, i: int, t: int)
    requires
        0 <= i <= t < finish.len(),
        ready_at(need, work, finish, t),
        forall|j: int| i <= j < t ==> !#[trigger] ready_at(need, work, finish, j),
    ensures
        first_ready(need, work, finish, i) == t,
    decreases t - i,
{
    if i < t {
        lemma_first_ready_is(need, work, finish, i + 1, t);
    }
}

pub proof fn lemma_first_ready_none(need: Seq<Seq<isize>>, work: Seq<int>, finish: Seq<bool>, i: int)
    requires
        0 <= i,
        forall|j: int| i <= j < finish.len() ==> !#[trigger] ready_at(need, work, finish, j),
    ensures
        first_ready(need, work, finish, i) == -1,
    decreases finish.len() - i,
{
    if i < finish.len() {
        lemma_first_ready_none(need, work, finish, i + 1);
    }
}

/// The classical safety simulation, from an intermediate state: repeatedly
/// finish the lowest ready thread, returning its allocation to the work
/// pool; the state is safe when every thread finishes.
pub open spec fn bankers_from(
    need: Seq<Seq<isize>>,
    alloc: Seq<Seq<isize>>,
    work: Seq<int>,
    finish: Seq<bool>,
) -> bool
    decreases finish.len() - num_true(finish, finish.len() as int),
    via bankers_from_decreases
{
    let t = first_ready(need, work, finish, 0);
    if t == -1 {
        forall|j: int| 0 <= j < finish.len() ==> finish[j]
    } else {
        bankers_from(need, alloc, bump(work, alloc[t]), finish.update(t, true))
    }
}

#[via_fn]
proof fn bankers_from_decreases(
    need: Seq<Seq<isize>>,
    alloc: Seq<Seq<isize>>,
    work: Seq<int>,
    finish: Seq<bool>,
) {
    let t = first_ready(need, work, finish, 0);
    lemma_num_true_bounds(finish, finish.len() as int);
    if t != -1 {
        lemma_first_ready_found(need, work, finish, 0);
        lemma_num_true_update(finish, t, finish.len() as int);
        lemma_num_true_bounds(finish.update(t, true), finish.len() as int);
    }
}

/// The full safety check of a request state: simulate from the free
/// capacities with every thread unfinished.
pub open spec fn bankers_safe(avail: Seq<isize>, alloc: Seq<Seq<isize>>, need: Seq<Seq<isize>>) -> bool {
    bankers_from(need, alloc, intv(avail), Seq::new(need.len(), |t: int| false))
}

/// The work pool after the first `k` threads of `order` have finished and
/// returned their allocations, starting from `work`.
pub open spec fn work_from(
    work: Seq<int>,
    alloc: Seq<Seq<isize>>,
    order: Seq<int>,
    k: int,
) -> Seq<int>
    decreases k,
{
    if k <= 0 {
        work
    } else {
        bump(work_from(work, alloc, order, k - 1), alloc[order[k - 1]])
    }
}

/// Every thread of `order` can be finished in turn: its whole need row
/// fits under the work accumulated so far.
pub open spec fn feasible_from(
    need: Seq<Seq<isize>>,
    alloc: Seq<Seq<isize>>,
    work: Seq<int>,
    order: Seq<int>,
) -> bool {
    forall|k: int|
        0 <= k < order.len() ==> row_le(need[#[trigger] order[k]], work_from(work, alloc, order, k))
}

/// `order` lists every thread exactly once, and each can be finished in
/// turn from the free capacities.
pub open spec fn is_completion_order(
    avail: Seq<isize>,
    alloc: Seq<Seq<isize>>,
    need: Seq<Seq<isize>>,
    order: Seq<int>,
) -> bool {
    &&& order.len() == need.len()
    &&& (forall|i: int, j: int| 0 <= i < j < order.len() ==> order[i] != order[j])
    &&& (forall|k: int| 0 <= k < order.len() ==> 0 <= #[trigger] order[k] < need.len())
    &&& feasible_from(need, alloc, intv(avail), order)
}

proof fn lemma_work_from_cons(work: Seq<int>, alloc: Seq<Seq<isize>>, t: int, rest: Seq<int>, k: int)
    requires
        0 <= k <= rest.len(),
    ensures
        work_from(work, alloc, seq![t] + rest, k + 1) == work_from(
            bump(work, alloc[t]),
            alloc,
            rest,
            k,
        ),
    decreases k,
{
    let order = seq![t] + rest;
    if k == 0 {
        assert(order[0] == t);
        assert(work_from(work, alloc, order, 1) == bump(
            work_from(work, alloc, order, 0),
            alloc[order[0]],
        ));
        assert(work_from(work, alloc, order, 0) == work);
        assert(work_from(bump(work, alloc[t]), alloc, rest, 0) == bump(work, alloc[t]));
    } else {
        lemma_work_from_cons(work, alloc, t, rest, k - 1);
        assert(order[k] == rest[k - 1]);
        assert(work_from(work, alloc, order, k + 1) == bump(
            work_from(work, alloc, order, k),
            alloc[order[k]],
        ));
        assert(work_from(bump(work, alloc[t]), alloc, rest, k) == bump(
            work_from(bump(work, alloc[t]), alloc, rest, k - 1),
            alloc[rest[k - 1]],
        ));
    }
}

proof fn lemma_bankers_from_sound(
    need: Seq<Seq<isize>>,
    alloc: Seq<Seq<isize>>,
    work: Seq<int>,
    finish: Seq<bool>,
)
    requires
        bankers_from(need, alloc, work, finish),
        finish.len() == need.len(),
    ensures
        exists|order: Seq<int>|
            {
                &&& order.len() == finish.len() - num_true(finish, finish.len() as int)
                &&& (forall|i: int, j: int| 0 <= i < j < order.len() ==> order[i] != order[j])
                &&& (forall|k: int|
                    0 <= k < order.len() ==> 0 <= #[trigger] order[k] < need.len()
                        && !finish[order[k]])
                &&& (forall|x: int|
                    0 <= x < finish.len() && !finish[x] ==> exists|k: int|
                        0 <= k < order.len() && order[k] == x)
                &&& feasible_from(need, alloc, work, order)
            },
    decreases finish.len() - num_true(finish, finish.len() as int),
{
    let n = finish.len() as int;
    lemma_num_true_bounds(finish, n);
    let t = first_ready(need, work, finish, 0);
    if t == -1 {
        let order = Seq::<int>::empty();
        lemma_num_true_all_false(finish, 0);
        assert forall|x: int| 0 <= x < n && !finish[x] implies exists|k: int|
            0 <= k < order.len() && order[k] == x by {
            assert(finish[x]);
        }
        assert(num_true(finish, n) == n) by {
            lemma_num_true_full(finish, n);
        }
        assert(order.len() == n - num_true(finish, n));
    } else {
        lemma_first_ready_found(need, work, finish, 0);
        let finish2 = finish.update(t, true);
        lemma_num_true_update(finish, t, n);
        lemma_num_true_bounds(finish2, n);
        lemma_bankers_from_sound(need, alloc, bump(work, alloc[t]), finish2);
        let rest = choose|order: Seq<int>|
            {
                &&& order.len() == finish2.len() - num_true(finish2, finish2.len() as int)
                &&& (forall|i: int, j: int| 0 <= i < j < order.len() ==> order[i] != order[j])
                &&& (forall|k: int|
                    0 <= k < order.len() ==> 0 <= #[trigger] order[k] < need.len()
                        && !finish2[order[k]])
                &&& (forall|x: int|
                    0 <= x < finish2.len() && !finish2[x] ==> exists|k: int|
                        0 <= k < order.len() && order[k] == x)
                &&& feasible_from(need, alloc, bump(work, alloc[t]), order)
            };
        let order = seq![t] + rest;
        assert(order.len() == n - num_true(finish, n));
        assert forall|k: int| 0 <= k < order.len() implies 0 <= #[trigger] order[k] < need.len()
            && !finish[order[k]] by {
            if k == 0 {
                assert(order[0] == t);
            } else {
                assert(order[k] == rest[k - 1]);
                assert(!finish2[rest[k - 1]]);
            }
        }
        assert forall|i: int, j: int| 0 <= i < j < order.len() implies order[i] != order[j] by {
            if i == 0 {
                assert(order[0] == t);
                assert(order[j] == rest[j - 1]);
                assert(!finish2[rest[j - 1]]);
            } else {
                assert(order[i] == rest[i - 1]);
                assert(order[j] == rest[j - 1]);
            }
        }
        assert forall|x: int| 0 <= x < n && !finish[x] implies exists|k: int|
            0 <= k < order.len() && order[k] == x by {
            if x == t {
                assert(order[0] == x);
            } else {
                assert(!finish2[x]);
                let k = choose|k: int| 0 <= k < rest.len() && rest[k] == x;
                assert(order[k + 1] == x);
            }
        }
        assert forall|k: int| 0 <= k < order.len() implies row_le(
            need[#[trigger] order[k]],
            work_from(work, alloc, order, k),
        ) by {
            if k == 0 {
                assert(order[0] == t);
                assert(work_from(work, alloc, order, 0) == work);
            } else {
                assert(order[k] == rest[k - 1]);
                assert(row_le(
                    need[rest[k - 1]],
                    work_from(bump(work, alloc[t]), alloc, rest, k - 1),
                ));
                lemma_work_from_cons(work, alloc, t, rest, k - 1);
            }
        }
        assert({
            &&& order.len() == finish.len() - num_true(finish, finish.len() as int)
            &&& (forall|i: int, j: int| 0 <= i < j < order.len() ==> order[i] != order[j])
            &&& (forall|k: int|
                0 <= k < order.len() ==> 0 <= #[trigger] order[k] < need.len()
                    && !finish[order[k]])
            &&& (forall|x: int|
                0 <= x < finish.len() && !finish[x] ==> exists|k: int|
                    0 <= k < order.len() && order[k] == x)
            &&& feasible_from(need, alloc, work, order)
        });
    }
}

/// A fully finished prefix counts all its rows.
proof fn lemma_num_true_full(mask: Seq<bool>, n: int)
    requires
        0 <= n,
        forall|j: int| 0 <= j < n ==> mask[j],
    ensures
        num_true(mask, n) == n,
    decreases n,
{
    if n > 0 {
        lemma_num_true_full(mask, n - 1);
    }
}

/// Soundness of the safety check: a SAFE verdict means every thread's
/// outstanding request can eventually be satisfied in some completion
/// order — the simulation's own finishing order is one.
pub proof fn lemma_bankers_safe_sound(
    avail: Seq<isize>,
    alloc: Seq<Seq<isize>>,
    need: Seq<Seq<isize>>,
)
    requires
        bankers_safe(avail, alloc, need),
    ensures
        exists|order: Seq<int>| is_completion_order(avail, alloc, need, order),
{
    let finish = Seq::new(need.len(), |t: int| false);
    lemma_num_true_all_false(finish, finish.len() as int);
    lemma_bankers_from_sound(need, alloc, intv(avail), finish);
    let order = choose|order: Seq<int>|
        {
            &&& order.len() == finish.len() - num_true(finish, finish.len() as int)
            &&& (forall|i: int, j: int| 0 <= i < j < order.len() ==> order[i] != order[j])
            &&& (forall|k: int|
                0 <= k < order.len() ==> 0 <= #[trigger] order[k] < need.len()
                    && !finish[order[k]])
            &&& (forall|x: int|
                0 <= x < finish.len() && !finish[x] ==> exists|k: int|
                    0 <= k < order.len() && order[k] == x)
            &&& feasible_from(need, alloc, intv(avail), order)
        };
    assert(is_completion_order(avail, alloc, need, order));
}

/// `row` fits under `work`, element-wise.
fn row_fits(row: &Vec<isize>, work: &Vec<i128>) -> (b: bool)
    requires
        row@.len() == work@.len(),
    ensures
        b == row_le(row@, intv128(work@)),
{
    let n = work.len();
    for r in 0..n
        invariant
            n == work@.len() == row@.len(),
            forall|j: int| 0 <= j < r ==> (#[trigger] row@[j]) as int <= intv128(work@)[j],
    {
        if row[r] as i128 > work[r] {
            assert(!row_le(row@, intv128(work@)));
            return false;
        }
    }
    true
}

/// Mathematical view of a wide work vector.
pub open spec fn intv128(s: Seq<i128>) -> Seq<int> {
    Seq::new(s.len(), |i: int| s[i] as int)
}

/// Scans for the lowest unfinished thread whose need row fits under the
/// work vector; returns the thread count when there is none.
fn find_first_ready(need: &Vec<Vec<isize>>, work: &Vec<i128>, finish: &Vec<bool>) -> (res: usize)
    requires
        finish@.len() == need@.len(),
        rect(matv(*need), need@.len() as int, work@.len() as int),
    ensures
        res <= need@.len(),
        res < need@.len() ==> first_ready(matv(*need), intv128(work@), finish@, 0) == res as int
            && ready_at(matv(*need), intv128(work@), finish@, res as int),
        res == need@.len() ==> first_ready(matv(*need), intv128(work@), finish@, 0) == -1,
{
    let n = need.len();
    for t in 0..n
        invariant
            n == need@.len() == finish@.len(),
            rect(matv(*need), n as int, work@.len() as int),
            forall|j: int| 0 <= j < t ==> !#[trigger] ready_at(
                matv(*need),
                intv128(work@),
                finish@,
                j,
            ),
    {
        if !finish[t] {
            proof {
                assert(matv(*need)[t as int] == need@[t as int]@);
            }
            if row_fits(&need[t], work) {
                proof {
                    assert(matv(*need)[t as int] == need@[t as int]@);
                    lemma_first_ready_is(matv(*need), intv128(work@), finish@, 0, t as int);
                }
                return t;
            }
        }
        proof {
            assert(!ready_at(matv(*need), intv128(work@), finish@, t as int));
        }
    }
    proof {
        lemma_first_ready_none(matv(*need), intv128(work@), finish@, 0);
    }
    n
}

/// Runs the safety check over one resource type's matrices: starting from
/// `work = available`, repeatedly finds an unfinished thread whose whole
/// `need` row fits under `work`, marks it finished and returns its
/// allocation to `work`; the request state is safe exactly when every
/// thread can be finished this way.
#[verifier::loop_isolation(false)]
pub fn run_safety_check(avail: &Vec<isize>, alloc: &Vec<Vec<isize>>, need: &Vec<Vec<isize>>) -> (safe: bool)
    requires
        rect(matv(*alloc), need@.len() as int, avail@.len() as int),
        rect(matv(*need), need@.len() as int, avail@.len() as int),
    ensures
        safe == bankers_safe(avail@, matv(*alloc), matv(*need)),
{
    let ghost needv = matv(*need);
    let ghost allocv = matv(*alloc);
    let n = need.len();
    let width = avail.len();

    let mut work: Vec<i128> = Vec::new();
    for r in 0..width
        invariant
            work@.len() == r,
            forall|j: int| 0 <= j < r ==> work@[j] == avail@[j] as i128,
    {
        work.push(avail[r] as i128);
    }

    let mut finish: Vec<bool> = Vec::new();
    for t in 0..n
        invariant
            finish@.len() == t,
            forall|j: int| 0 <= j < t ==> !finish@[j],
    {
        finish.push(false);
    }

    proof {
        assert(finish@ =~= Seq::new(needv.len(), |t: int| false));
        assert(intv128(work@) =~= intv(avail@));
        assert forall|c: int| 0 <= c < width implies work@[c] as int == avail@[c] as int
            + masked_col_total(allocv, finish@, c, n as int) by {
            lemma_masked_col_total_all_false(allocv, finish@, c, n as int);
        }
    }

    loop
        invariant
            finish@.len() == n,
            work@.len() == width,
            forall|c: int| 0 <= c < width ==> #[trigger] work@[c] as int == avail@[c] as int
                + masked_col_total(allocv, finish@, c, n as int),
            bankers_from(needv, allocv, intv128(work@), finish@) == bankers_safe(
                avail@,
                allocv,
                needv,
            ),
        decreases n - num_true(finish@, n as int),
    {
        proof {
            lemma_num_true_bounds(finish@, n as int);
        }
        let t = find_first_ready(need, &work, &finish);
        if t == n {
            break;
        }
        let ghost work0 = work@;
        let ghost finish0 = finish@;
        proof {
            lemma_num_true_missing(finish@, t as int, n as int);
        }
        for r in 0..width
            invariant
                work@.len() == width,
                t < n,
                !finish@[t as int],
                finish@ == finish0,
                forall|c: int| r <= c < width ==> work@[c] == work0[c],
                forall|c: int| 0 <= c < r ==> #[trigger] work@[c] == work0[c] + allocv[t as int][c] as i128,
                forall|c: int| 0 <= c < width ==> #[trigger] work0[c] as int == avail@[c] as int
                    + masked_col_total(allocv, finish0, c, n as int),
        {
            let add = alloc[t][r] as i128;
            let cur = work[r];
            proof {
                lemma_masked_col_total_bound(allocv, finish0, r as int, n as int);
                lemma_num_true_bounds(finish0, n as int);
                lemma_num_true_missing(finish0, t as int, n as int);
                let k = num_true(finish0, n as int);
                assert(0 <= k <= n - 1);
                assert(n <= usize::MAX);
                assert(usize::MAX as int <= 0xFFFF_FFFF_FFFF_FFFF);
                assert(-k * 0x8000_0000_0000_0000
                    <= masked_col_total(allocv, finish0, r as int, n as int)
                    <= k * 0x7FFF_FFFF_FFFF_FFFF);
                assert(cur == work0[r as int]);
                assert(work0[r as int] as int == avail@[r as int] as int
                    + masked_col_total(allocv, finish0, r as int, n as int));
                assert(cur + add <= (k + 2) * 0x7FFF_FFFF_FFFF_FFFF);
                assert(cur + add >= -(k + 2) * 0x8000_0000_0000_0000);
                assert((k + 2) * 0x7FFF_FFFF_FFFF_FFFF <= i128::MAX) by (nonlinear_arith)
                    requires 0 <= k <= 0xFFFF_FFFF_FFFF_FFFEint;
                assert(-(k + 2) * 0x8000_0000_0000_0000 >= i128::MIN) by (nonlinear_arith)
                    requires 0 <= k <= 0xFFFF_FFFF_FFFF_FFFEint;
            }
            work.set(r, cur + add);
        }
        finish.set(t, true);
        proof {
            assert forall|c: int| 0 <= c < width implies #[trigger] work@[c] as int
                == avail@[c] as int + masked_col_total(allocv, finish@, c, n as int) by {
                lemma_masked_col_total_update(allocv, finish0, t as int, c, n as int);
            }
            assert(intv128(work@) =~= bump(intv128(work0), allocv[t as int]));
            assert(bankers_from(needv, allocv, intv128(work0), finish0) == bankers_from(
                needv,
                allocv,
                bump(intv128(work0), allocv[t as int]),
                finish0.update(t as int, true),
            ));
            lemma_num_true_update(finish0, t as int, n as int);
        }
    }

    let mut all = true;
    for t in 0..n
        invariant
            all == (forall|j: int| 0 <= j < t ==> finish@[j]),
    {
        if !finish[t] {
            all = false;
        }
    }
    proof {
        assert(bankers_from(needv, allocv, intv128(work@), finish@) == all);
    }
    all
}

/// The Deadlock Detector Block of one process: free capacities and
/// per-thread `need` / `allocation` rows, kept separately per resource type
/// (locks are never checked jointly with semaphores), plus the toggle.
pub struct DetectorBlock {
    /// Free capacity of each lock: 1 when unheld.
    pub available_mutex: Vec<isize>,
    /// Outstanding requests, `[thread][lock]`.
    pub need_mutex: Vec<Vec<isize>>,
    /// Granted units, `[thread][lock]`.
    pub allocation_mutex: Vec<Vec<isize>>,
    /// Free units of each semaphore.
    pub available_sem: Vec<isize>,
    /// Outstanding requests, `[thread][semaphore]`.
    pub need_sem: Vec<Vec<isize>>,
    /// Granted units, `[thread][semaphore]`.
    pub allocation_sem: Vec<Vec<isize>>,
    /// Detection runs only when set.
    pub enabled: bool,
}

impl DetectorBlock {
    pub open spec fn need_m(self) -> Seq<Seq<isize>> {
        matv(self.need_mutex)
    }

    pub open spec fn alloc_m(self) -> Seq<Seq<isize>> {
        matv(self.allocation_mutex)
    }

    pub open spec fn need_s(self) -> Seq<Seq<isize>> {
        matv(self.need_sem)
    }

    pub open spec fn alloc_s(self) -> Seq<Seq<isize>> {
        matv(self.allocation_sem)
    }

    /// All six structures have `rows` thread rows and the registry's column
    /// counts.
    pub open spec fn shape_ok(self, rows: int, n_mutex: int, n_sem: int) -> bool {
        &&& self.available_mutex@.len() == n_mutex
        &&& self.available_sem@.len() == n_sem
        &&& rect(self.need_m(), rows, n_mutex)
        &&& rect(self.alloc_m(), rows, n_mutex)
        &&& rect(self.need_s(), rows, n_sem)
        &&& rect(self.alloc_s(), rows, n_sem)
    }

    /// Verdict on the pending one-unit lock request: safe outright when
    /// detection is disabled, otherwise by the safety check.
    pub open spec fn mutex_safe(self) -> bool {
        !self.enabled || bankers_safe(self.available_mutex@, self.alloc_m(), self.need_m())
    }

    /// Verdict on the pending one-unit semaphore request.
    pub open spec fn sem_safe(self) -> bool {
        !self.enabled || bankers_safe(self.available_sem@, self.alloc_s(), self.need_s())
    }

    /// Runs detection for the lock matrices.
    pub fn detect_mutex(&self) -> (safe: bool)
        requires
            rect(self.need_m(), self.need_mutex@.len() as int, self.available_mutex@.len() as int),
            rect(self.alloc_m(), self.need_mutex@.len() as int, self.available_mutex@.len() as int),
        ensures
            safe == self.mutex_safe(),
    {
        if !self.enabled {
            true
        } else {
            run_safety_check(&self.available_mutex, &self.allocation_mutex, &self.need_mutex)
        }
    }

    /// Runs detection for the semaphore matrices.
    pub fn detect_sem(&self) -> (safe: bool)
        requires
            rect(self.need_s(), self.need_sem@.len() as int, self.available_sem@.len() as int),
            rect(self.alloc_s(), self.need_sem@.len() as int, self.available_sem@.len() as int),
        ensures
            safe == self.sem_safe(),
    {
        if !self.enabled {
            true
        } else {
            run_safety_check(&self.available_sem, &self.allocation_sem, &self.need_sem)
        }
    }
}

/// Resource creation must extend every live thread's row: installs capacity
/// `cap` for column `id`, appending the column to `avail` and to every row
/// of `need` and `alloc` when `id` is the old width, else resetting the
/// reused column in place; either way the column reads `need = 0`,
/// `alloc = 0`, `avail = cap` afterwards.
pub fn grow_column(
    avail: &mut Vec<isize>,
    need: &mut Vec<Vec<isize>>,
    alloc: &mut Vec<Vec<isize>>,
    id: usize,
    cap: isize,
    rows: usize,
)
    requires
        rows == old(need)@.len(),
        rows == old(alloc)@.len(),
        rect(matv(*old(need)), rows as int, old(avail)@.len() as int),
        rect(matv(*old(alloc)), rows as int, old(avail)@.len() as int),
        id <= old(avail)@.len(),
    ensures
        final(avail)@.len() == if id < old(avail)@.len() {
            old(avail)@.len()
        } else {
            old(avail)@.len() + 1
        },
        rect(matv(*final(need)), rows as int, final(avail)@.len() as int),
        rect(matv(*final(alloc)), rows as int, final(avail)@.len() as int),
        final(avail)@[id as int] == cap,
        forall|c: int|
            0 <= c < old(avail)@.len() && c != id ==> final(avail)@[c] == old(avail)@[c],
        forall|t: int|
            0 <= t < rows ==> matv(*final(need))[t][id as int] == 0 && matv(*final(alloc))[t][
                id as int
            ] == 0,
        forall|t: int, c: int|
            0 <= t < rows && 0 <= c < old(avail)@.len() && c != id ==> matv(*final(need))[t][c]
                == matv(*old(need))[t][c] && matv(*final(alloc))[t][c] == matv(*old(alloc))[t][c],
        col_total(matv(*final(alloc)), id as int, rows as int) == 0,
        forall|c: int|
            0 <= c < old(avail)@.len() && c != id ==> #[trigger] col_total(
                matv(*final(alloc)),
                c,
                rows as int,
            ) == col_total(matv(*old(alloc)), c, rows as int),
{
    let width = avail.len();
    if id < width {
        avail.set(id, cap);
        for t in 0..rows
            invariant
                need@.len() == rows,
                alloc@.len() == rows,
                rect(matv(*need), rows as int, width as int),
                rect(matv(*alloc), rows as int, width as int),
                id < width,
                forall|j: int|
                    0 <= j < t ==> matv(*need)[j] == matv(*old(need))[j].update(id as int, 0isize)
                        && matv(*alloc)[j] == matv(*old(alloc))[j].update(id as int, 0isize),
                forall|j: int|
                    t <= j < rows ==> matv(*need)[j] == matv(*old(need))[j] && matv(*alloc)[j]
                        == matv(*old(alloc))[j],
        {
            proof {
                assert(need@[t as int]@ == matv(*need)[t as int]);
                assert(alloc@[t as int]@ == matv(*alloc)[t as int]);
            }
            mat_set(need, t, id, 0);
            mat_set(alloc, t, id, 0);
        }
    } else {
        avail.push(cap);
        for t in 0..rows
            invariant
                need@.len() == rows,
                alloc@.len() == rows,
                id == width,
                forall|j: int|
                    0 <= j < t ==> matv(*need)[j] == matv(*old(need))[j].push(0isize)
                        && matv(*alloc)[j] == matv(*old(alloc))[j].push(0isize),
                forall|j: int|
                    t <= j < rows ==> matv(*need)[j] == matv(*old(need))[j] && matv(*alloc)[j]
                        == matv(*old(alloc))[j],
        {
            let ghost need0 = matv(*need);
            let ghost alloc0 = matv(*alloc);
            mat_push(need, t, 0);
            mat_push(alloc, t, 0);
            proof {
                assert forall|j: int| 0 <= j < t + 1 implies matv(*need)[j] == matv(*old(need))[
                    j
                ].push(0isize) && matv(*alloc)[j] == matv(*old(alloc))[j].push(0isize) by {
                    if j < t {
                        assert(matv(*need)[j] == need0[j]);
                        assert(matv(*alloc)[j] == alloc0[j]);
                    } else {
                        assert(matv(*need)[j] == need0[j].push(0isize));
                        assert(matv(*alloc)[j] == alloc0[j].push(0isize));
                        assert(need0[j] == matv(*old(need))[j]);
                        assert(alloc0[j] == matv(*old(alloc))[j]);
                    }
                }
            }
        }
    }
    proof {
        lemma_col_total_zero(matv(*alloc), id as int, rows as int);
        assert forall|c: int| 0 <= c < old(avail)@.len() && c != id implies #[trigger] col_total(
            matv(*alloc),
            c,
            rows as int,
        ) == col_total(matv(*old(alloc)), c, rows as int) by {
            lemma_col_total_pointwise(matv(*old(alloc)), matv(*alloc), c, rows as int);
        }
    }
}

/// Books a granted unit: `allocation[t][r] += 1`, `need[t][r] -= 1`,
/// `available[r] -= 1`; run under the metadata guard after a successful
/// acquire.
pub fn book_grant(
    need: &mut Vec<Vec<isize>>,
    alloc: &mut Vec<Vec<isize>>,
    avail: &mut Vec<isize>,
    t: usize,
    r: usize,
)
    requires
        t < old(need)@.len(),
        t < old(alloc)@.len(),
        r < old(avail)@.len(),
        r < matv(*old(need))[t as int].len(),
        r < matv(*old(alloc))[t as int].len(),
        matv(*old(alloc))[t as int][r as int] < isize::MAX,
        matv(*old(need))[t as int][r as int] > isize::MIN,
        old(avail)@[r as int] > isize::MIN,
    ensures
        matv(*final(need)) == matv(*old(need)).update(
            t as int,
            matv(*old(need))[t as int].update(
                r as int,
                (matv(*old(need))[t as int][r as int] - 1) as isize,
            ),
        ),
        matv(*final(alloc)) == matv(*old(alloc)).update(
            t as int,
            matv(*old(alloc))[t as int].update(
                r as int,
                (matv(*old(alloc))[t as int][r as int] + 1) as isize,
            ),
        ),
        final(avail)@ == old(avail)@.update(
            r as int,
            (old(avail)@[r as int] - 1) as isize,
        ),
        final(need)@.len() == old(need)@.len(),
        final(alloc)@.len() == old(alloc)@.len(),
        forall|n2: int|
            t < n2 <= old(alloc)@.len() ==> #[trigger] col_total(matv(*final(alloc)), r as int, n2)
                == col_total(matv(*old(alloc)), r as int, n2) + 1,
        forall|c: int, n2: int|
            0 <= c < matv(*old(alloc))[t as int].len() && c != r && n2 <= old(alloc)@.len()
                ==> #[trigger] col_total(matv(*final(alloc)), c, n2) == col_total(
                matv(*old(alloc)),
                c,
                n2,
            ),
{
    let n_cur = need[t][r];
    mat_set(need, t, r, n_cur - 1);
    let a_cur = alloc[t][r];
    proof {
        assert(matv(*alloc)[t as int] == alloc@[t as int]@);
    }
    mat_set(alloc, t, r, a_cur + 1);
    let av_cur = avail[r];
    avail.set(r, av_cur - 1);
    proof {
        assert forall|n2: int| t < n2 <= old(alloc)@.len() implies #[trigger] col_total(
            matv(*alloc),
            r as int,
            n2,
        ) == col_total(matv(*old(alloc)), r as int, n2) + 1 by {
            lemma_col_total_update(matv(*old(alloc)), t as int, r as int, (a_cur + 1) as isize, n2);
        }
        assert forall|c: int, n2: int|
            0 <= c < matv(*old(alloc))[t as int].len() && c != r && n2 <= old(alloc)@.len()
                implies #[trigger] col_total(matv(*alloc), c, n2) == col_total(
            matv(*old(alloc)),
            c,
            n2,
        ) by {
            lemma_col_total_update(matv(*old(alloc)), t as int, r as int, (a_cur + 1) as isize, n2);
        }
    }
}

/// Books a released unit: `allocation[t][r] -= 1`, `available[r] += 1`; run
/// under the metadata guard after the primitive's release.
pub fn book_release(alloc: &mut Vec<Vec<isize>>, avail: &mut Vec<isize>, t: usize, r: usize)
    requires
        t < old(alloc)@.len(),
        r < old(avail)@.len(),
        r < matv(*old(alloc))[t as int].len(),
        matv(*old(alloc))[t as int][r as int] > isize::MIN,
        old(avail)@[r as int] < isize::MAX,
    ensures
        matv(*final(alloc)) == matv(*old(alloc)).update(
            t as int,
            matv(*old(alloc))[t as int].update(
                r as int,
                (matv(*old(alloc))[t as int][r as int] - 1) as isize,
            ),
        ),
        final(avail)@ == old(avail)@.update(
            r as int,
            (old(avail)@[r as int] + 1) as isize,
        ),
        final(alloc)@.len() == old(alloc)@.len(),
        forall|n2: int|
            t < n2 <= old(alloc)@.len() ==> #[trigger] col_total(matv(*final(alloc)), r as int, n2)
                == col_total(matv(*old(alloc)), r as int, n2) - 1,
        forall|c: int, n2: int|
            0 <= c < matv(*old(alloc))[t as int].len() && c != r && n2 <= old(alloc)@.len()
                ==> #[trigger] col_total(matv(*final(alloc)), c, n2) == col_total(
                matv(*old(alloc)),
                c,
                n2,
            ),
{
    let a_cur = alloc[t][r];
    mat_set(alloc, t, r, a_cur - 1);
    let av_cur = avail[r];
    avail.set(r, av_cur + 1);
    proof {
        assert forall|n2: int| t < n2 <= old(alloc)@.len() implies #[trigger] col_total(
            matv(*alloc),
            r as int,
            n2,
        ) == col_total(matv(*old(alloc)), r as int, n2) - 1 by {
            lemma_col_total_update(matv(*old(alloc)), t as int, r as int, (a_cur - 1) as isize, n2);
        }
        assert forall|c: int, n2: int|
            0 <= c < matv(*old(alloc))[t as int].len() && c != r && n2 <= old(alloc)@.len()
                implies #[trigger] col_total(matv(*alloc), c, n2) == col_total(
            matv(*old(alloc)),
            c,
            n2,
        ) by {
            lemma_col_total_update(matv(*old(alloc)), t as int, r as int, (a_cur - 1) as isize, n2);
        }
    }
}

/// Appends one entry to row `t`: `m[t].push(v)`.
pub fn mat_push(m: &mut Vec<Vec<isize>>, t: usize, v: isize)
    requires
        t < old(m)@.len(),
    ensures
        matv(*final(m)) == matv(*old(m)).update(t as int, matv(*old(m))[t as int].push(v)),
        final(m)@.len() == old(m)@.len(),
{
    let row = &mut m[t];
    row.push(v);
    proof {
        assert(matv(*m) =~= matv(*old(m)).update(t as int, matv(*old(m))[t as int].push(v)));
    }
}

/// Writes one matrix entry, `m[t][r] = v`.
pub fn mat_set(m: &mut Vec<Vec<isize>>, t: usize, r: usize, v: isize)
    requires
        t < old(m)@.len(),
        r < old(m)@[t as int]@.len(),
    ensures
        matv(*final(m)) == matv(*old(m)).update(t as int, matv(*old(m))[t as int].update(r as int, v)),
        final(m)@.len() == old(m)@.len(),
{
    let row = &mut m[t];
    row.set(r, v);
    proof {
        assert(matv(*m) =~= matv(*old(m)).update(
            t as int,
            matv(*old(m))[t as int].update(r as int, v),
        ));
    }
}

} // verus!
