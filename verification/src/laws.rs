//! Properties of the partial warping search.
//!
//! The engine's contracts pin each score as the least cost over the search
//! space; the proofs here draw the consequences: when a score is infinite,
//! that the search is deterministic however its reduction is decomposed,
//! that a contained query scores zero, and that padding a template with
//! copies of its last value cannot beat the template's own windows.

use vstd::prelude::*;

use crate::fingerprint::fp_wf;
use crate::pdtw::abs_diff;
use crate::pdtw::ext_le;
use crate::pdtw::grid;
use crate::pdtw::is_min_cost;
use crate::pdtw::searched_cost;
use crate::pdtw::window_cost;
use crate::pdtw::window_ok;

verus! {

// ---------------------------------------------------------------------------
// Facts about the grid.
// ---------------------------------------------------------------------------

/// Every reachable grid cell has a non-negative cost.
proof fn lemma_grid_nonneg(q: Seq<u64>, w: Seq<u64>, i: int, k: int)
    ensures
        grid(q, w, i, k) matches Option::Some(c) ==> c >= 0,
    decreases i,
{
    if i > 0 && k > 0 {
        lemma_grid_nonneg(q, w, i - 1, k);
        lemma_grid_nonneg(q, w, i - 1, k - 1);
        lemma_grid_nonneg(q, w, i - 1, k - 2);
    }
}

/// Along a window that copies the query, the diagonal costs nothing.
proof fn lemma_grid_diag_zero(q: Seq<u64>, w: Seq<u64>, i: int)
    requires
        1 <= i <= q.len(),
        i <= w.len(),
        forall|x: int| 0 <= x < i ==> w[x] == q[x],
    ensures
        grid(q, w, i, i) == Option::Some(0int),
    decreases i,
{
    lemma_grid_nonneg(q, w, i - 1, i);
    lemma_grid_nonneg(q, w, i - 1, i - 2);
    if i > 1 {
        lemma_grid_diag_zero(q, w, i - 1);
    } else {
        assert(grid(q, w, 0, 0) == Option::Some(0int));
        assert(grid(q, w, 0, 1) is None);
    }
    assert(abs_diff(q[i - 1], w[i - 1]) == 0);
}

/// A window's first column is always reachable: the query's first value is
/// matched against the window's first value and the rest of the query stays
/// there.
proof fn lemma_grid_col1_some(q: Seq<u64>, w: Seq<u64>, i: int)
    requires
        1 <= i,
    ensures
        grid(q, w, i, 1) is Some,
    decreases i,
{
    if i > 1 {
        lemma_grid_col1_some(q, w, i - 1);
        assert(grid(q, w, i - 1, 0) is None);
    } else {
        assert(grid(q, w, 0, 0) == Option::Some(0int));
        assert(grid(q, w, 0, 1) is None);
    }
}

/// The grid reads only the first `k` window values.
proof fn lemma_grid_prefix(q: Seq<u64>, w1: Seq<u64>, w2: Seq<u64>, i: int, k: int)
    requires
        forall|x: int| 0 <= x < k ==> w1[x] == w2[x],
    ensures
        grid(q, w1, i, k) == grid(q, w2, i, k),
    decreases i,
{
    if i > 0 && k > 0 {
        lemma_grid_prefix(q, w1, w2, i - 1, k);
        lemma_grid_prefix(q, w1, w2, i - 1, k - 1);
        if k > 2 {
            lemma_grid_prefix(q, w1, w2, i - 1, k - 2);
        }
    }
}

/// In a window whose values from position `jcut - 1` on are all equal,
/// stopping at column `jcut` costs no more than going on to any further
/// column: the extra steps could only have repeated the same value.
proof fn lemma_grid_clamp(q: Seq<u64>, w: Seq<u64>, jcut: int, i: int, k: int)
    requires
        1 <= jcut <= k <= w.len(),
        forall|x: int| jcut <= x < w.len() ==> #[trigger] w[x] == w[jcut - 1],
    ensures
        ext_le(grid(q, w, i, jcut), grid(q, w, i, k)),
    decreases i,
{
    if k == jcut {
        // Reflexive.
    } else if i <= 0 {
        // The longer column is unreachable at row 0.
    } else {
        assert(w[k - 1] == w[jcut - 1]);
        lemma_grid_clamp(q, w, jcut, i - 1, k);
        lemma_grid_clamp(q, w, jcut, i - 1, k - 1);
        if k - 2 >= jcut {
            lemma_grid_clamp(q, w, jcut, i - 1, k - 2);
        }
        lemma_grid_nonneg(q, w, i - 1, k);
        lemma_grid_nonneg(q, w, i - 1, k - 1);
        lemma_grid_nonneg(q, w, i - 1, k - 2);
        lemma_grid_nonneg(q, w, i - 1, jcut);
        lemma_grid_nonneg(q, w, i - 1, jcut - 1);
        lemma_grid_nonneg(q, w, i - 1, jcut - 2);
    }
}

// ---------------------------------------------------------------------------
// The laws.
// ---------------------------------------------------------------------------

/// The score is infinite exactly when the template is shorter than the
/// query — granted a search space that is not degenerate: when query and
/// template both have length one, no window fits and the score is infinite
/// although the template is not shorter.
pub proof fn lemma_score_infinite_iff_shorter(q: Seq<u64>, t: Seq<u64>, r: Option<int>)
    requires
        fp_wf(q),
        fp_wf(t),
        !(q.len() == 1 && t.len() == 1),
        is_min_cost(q, t, r),
    ensures
        (r is None) <==> t.len() < q.len(),
{
    let n = q.len() as int;
    let m = t.len() as int;
    if m < n {
        // No window fits, so no witness can attain a finite cost.
        assert(forall|i0: int, j: int| !window_ok(n, m, i0, j));
        if r is Some {
            let (a, b): (int, int) = choose|a: int, b: int|
                window_ok(n, m, a, b) && searched_cost(q, t, a, b) == r;
            assert(false);
        }
    } else {
        // The window at offset 0 of length 1 aligns, so the bound `r` cannot
        // be infinite.
        assert(m >= 2);
        assert(window_ok(n, m, 0, 1));
        let w = t.subrange(0, 1);
        lemma_grid_col1_some(q, w, n);
        assert(searched_cost(q, t, 0, 1) is Some);
        assert(ext_le(r, searched_cost(q, t, 0, 1)));
    }
}

/// The search's reduction is deterministic: any two values with the
/// least-cost property — however the minimum was decomposed and in whatever
/// order its branches were folded — are equal.
pub proof fn lemma_min_cost_unique(q: Seq<u64>, t: Seq<u64>, r1: Option<int>, r2: Option<int>)
    requires
        is_min_cost(q, t, r1),
        is_min_cost(q, t, r2),
    ensures
        r1 == r2,
{
    let n = q.len() as int;
    let m = t.len() as int;
    if r1 is Some {
        let (a, b): (int, int) = choose|a: int, b: int|
            window_ok(n, m, a, b) && #[trigger] searched_cost(q, t, a, b) == r1;
        assert(ext_le(r2, searched_cost(q, t, a, b)));
    }
    if r2 is Some {
        let (a, b): (int, int) = choose|a: int, b: int|
            window_ok(n, m, a, b) && #[trigger] searched_cost(q, t, a, b) == r2;
        assert(ext_le(r1, searched_cost(q, t, a, b)));
    }
}

/// A template that contains the query as a contiguous sub-range — with at
/// least one value left after it, so that the search space reaches the full
/// query length — scores exactly zero.
pub proof fn lemma_contained_query_scores_zero(q: Seq<u64>, t: Seq<u64>, i0: int, r: Option<int>)
    requires
        q.len() >= 1,
        0 <= i0,
        i0 + q.len() < t.len(),
        forall|x: int| 0 <= x < q.len() ==> t[i0 + x] == q[x],
        is_min_cost(q, t, r),
    ensures
        r == Option::Some(0int),
{
    let n = q.len() as int;
    let m = t.len() as int;
    assert(window_ok(n, m, i0, n));
    let w = t.subrange(i0, i0 + n);
    assert(forall|x: int| 0 <= x < n ==> w[x] == q[x]);
    lemma_grid_diag_zero(q, w, n);
    assert(searched_cost(q, t, i0, n) == Option::Some(0int));
    assert(ext_le(r, Option::Some(0int)));
    let (a, b): (int, int) = choose|a: int, b: int|
        window_ok(n, m, a, b) && #[trigger] searched_cost(q, t, a, b) == r;
    lemma_grid_nonneg(q, t.subrange(a, a + b), n, b);
}

/// Appending values to a template — whatever they are — only enlarges the
/// search space, so the score can only fall or stay: every window of the
/// original template is still searched, at the same cost.
pub proof fn lemma_extension_never_worsens(
    q: Seq<u64>,
    t: Seq<u64>,
    pad: Seq<u64>,
    r: Option<int>,
    r_pad: Option<int>,
)
    requires
        is_min_cost(q, t, r),
        is_min_cost(q, t + pad, r_pad),
    ensures
        ext_le(r_pad, r),
{
    let n = q.len() as int;
    let m = t.len() as int;
    let tp = t + pad;
    let mp = tp.len() as int;
    if r is Some {
        let (a, b): (int, int) = choose|a: int, b: int|
            window_ok(n, m, a, b) && #[trigger] searched_cost(q, t, a, b) == r;
        assert(window_ok(n, mp, a, b));
        let w1 = t.subrange(a, a + b);
        let w2 = tp.subrange(a, a + b);
        assert(forall|x: int| 0 <= x < b ==> w1[x] == w2[x]);
        lemma_grid_prefix(q, w2, w1, n, b);
        assert(searched_cost(q, tp, a, b) == r);
        assert(ext_le(r_pad, searched_cost(q, tp, a, b)));
    }
}

/// A sub-range of the template alone, under the search's own length bound.
/// Unlike `window_ok` it admits ranges that touch the template's end.
pub open spec fn sub_window_ok(n: int, m: int, i0: int, j: int) -> bool {
    &&& 0 <= i0
    &&& 1 <= j
    &&& i0 + j <= m
    &&& j < 2 * n
}

/// Extending a template with copies of its final value cannot push the
/// score below any bound that all of the original template's own sub-ranges
/// obey: every window of the extended template is matched, at no greater
/// cost, by a sub-range of the original.
pub proof fn lemma_const_extension_keeps_bound(
    q: Seq<u64>,
    t: Seq<u64>,
    pad: Seq<u64>,
    b: Option<int>,
    r_pad: Option<int>,
)
    requires
        q.len() >= 1,
        t.len() >= 1,
        forall|x: int| 0 <= x < pad.len() ==> pad[x] == t[t.len() - 1],
        forall|i0: int, j: int|
            sub_window_ok(q.len() as int, t.len() as int, i0, j) ==> ext_le(
                b,
                #[trigger] searched_cost(q, t, i0, j),
            ),
        is_min_cost(q, t + pad, r_pad),
    ensures
        ext_le(b, r_pad),
{
    let n = q.len() as int;
    let m = t.len() as int;
    let tp = t + pad;
    let mp = tp.len() as int;
    if r_pad is Some {
        let (a, j): (int, int) = choose|a: int, j: int|
            window_ok(n, mp, a, j) && #[trigger] searched_cost(q, tp, a, j) == r_pad;
        let w = tp.subrange(a, a + j);
        if a + j <= m {
            // The window lies inside the original template.
            let ws = t.subrange(a, a + j);
            assert(forall|x: int| 0 <= x < j ==> w[x] == ws[x]);
            lemma_grid_prefix(q, w, ws, n, j);
            assert(sub_window_ok(n, m, a, j));
            assert(searched_cost(q, t, a, j) == r_pad);
        } else if a < m {
            // The window starts inside the original template and runs into
            // the padding; cutting it at the template's end can only lower
            // its cost, since the padding repeats the value at the cut.
            let jcut = m - a;
            assert(forall|x: int| jcut <= x < w.len() ==> #[trigger] w[x] == w[jcut - 1]);
            lemma_grid_clamp(q, w, jcut, n, j);
            let ws = t.subrange(a, m);
            assert(forall|x: int| 0 <= x < jcut ==> w[x] == ws[x]);
            lemma_grid_prefix(q, w, ws, n, jcut);
            assert(sub_window_ok(n, m, a, jcut));
            assert(window_cost(q, ws) == grid(q, w, n, jcut));
            assert(ext_le(b, searched_cost(q, t, a, jcut)));
        } else {
            // The window lies wholly in the padding, a run of the template's
            // final value; it can do no better than that value alone.
            assert(forall|x: int| 0 <= x < j ==> w[x] == t[m - 1]);
            assert(forall|x: int| 1 <= x < w.len() ==> #[trigger] w[x] == w[0]);
            lemma_grid_clamp(q, w, 1, n, j);
            let ws = t.subrange(m - 1, m);
            assert(forall|x: int| 0 <= x < 1 ==> w[x] == ws[x]);
            lemma_grid_prefix(q, w, ws, n, 1);
            assert(sub_window_ok(n, m, m - 1, 1));
            assert(window_cost(q, ws) == grid(q, w, n, 1));
            assert(ext_le(b, searched_cost(q, t, m - 1, 1)));
        }
    }
}

} // verus!
