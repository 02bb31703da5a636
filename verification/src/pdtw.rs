//! Partial subsequence dynamic-time-warping search.
//!
//! A query fingerprint of length `n` is aligned against every candidate
//! window of a template: every start offset `i0` with `i0 + n <= m` and
//! every window length `j` with `1 <= j`, `i0 + j < m` and `j < 2 * n`.
//! The cost of one window is the constrained warping cost of the grid
//! below; the score of the template is the least cost over all windows,
//! kept as the exact rational `cost / qlen`.

use vstd::prelude::*;

use crate::fingerprint::Fingerprint;
use crate::fingerprint::SCALE;
use crate::fingerprint::MAX_LEN;

verus! {

// ---------------------------------------------------------------------------
// Extended costs: `None` stands for an unreachable alignment (infinite cost).
// ---------------------------------------------------------------------------

/// `a <= b` on extended costs; `None` is above every finite cost.
pub open spec fn ext_le(a: Option<int>, b: Option<int>) -> bool {
    match b {
        Option::None => true,
        Option::Some(bv) => match a {
            Option::None => false,
            Option::Some(av) => av <= bv,
        },
    }
}

/// Least of two extended costs.
pub open spec fn ext_min(a: Option<int>, b: Option<int>) -> Option<int> {
    if ext_le(a, b) {
        a
    } else {
        b
    }
}

/// Adds a finite step cost to an extended cost.
pub open spec fn ext_add(a: Option<int>, c: int) -> Option<int> {
    match a {
        Option::None => Option::None,
        Option::Some(v) => Option::Some(v + c),
    }
}

/// A `u64` cost-or-unreachable value, read as an extended cost.
pub open spec fn cost_opt(a: Option<u64>) -> Option<int> {
    match a {
        Option::None => Option::None,
        Option::Some(v) => Option::Some(v as int),
    }
}

/// Absolute difference of two fixed-point values.
pub open spec fn abs_diff(a: u64, b: u64) -> int {
    if a >= b {
        a - b
    } else {
        b - a
    }
}

// ---------------------------------------------------------------------------
// The warping grid.
// ---------------------------------------------------------------------------

/// Cell `(i, k)` of the alignment-cost grid between query `q` and window `w`:
/// the least total cost of consuming the first `i` query values against the
/// first `k` window values.  The alignment is pinned at the window's start
/// (`grid(_, _, 0, k)` is unreachable for `k >= 1`), the query may not be
/// exhausted early (`grid(_, _, i, 0)` is unreachable for `i >= 1`), and one
/// query step may hold the window position, advance it by one, or — once past
/// the second column — advance it by two.
pub open spec fn grid(q: Seq<u64>, w: Seq<u64>, i: int, k: int) -> Option<int>
    decreases i,
{
    if i <= 0 {
        if k <= 0 {
            Option::Some(0)
        } else {
            Option::None
        }
    } else if k <= 0 {
        Option::None
    } else {
        let c = abs_diff(q[i - 1], w[k - 1]);
        let best = if k > 2 {
            ext_min(grid(q, w, i - 1, k), ext_min(grid(q, w, i - 1, k - 1), grid(q, w, i - 1, k - 2)))
        } else {
            ext_min(grid(q, w, i - 1, k), grid(q, w, i - 1, k - 1))
        };
        ext_add(best, c)
    }
}

/// Total cost of aligning the whole query against the whole window.
pub open spec fn window_cost(q: Seq<u64>, w: Seq<u64>) -> Option<int> {
    grid(q, w, q.len() as int, w.len() as int)
}

/// The window `(i0, j)` belongs to the search space for query length `n`
/// and template length `m`.
pub open spec fn window_ok(n: int, m: int, i0: int, j: int) -> bool {
    &&& 0 <= i0
    &&& i0 + n <= m
    &&& 1 <= j
    &&& i0 + j < m
    &&& j < 2 * n
}

/// Cost of the searched window starting at `i0` with length `j`.
pub open spec fn searched_cost(q: Seq<u64>, t: Seq<u64>, i0: int, j: int) -> Option<int> {
    window_cost(q, t.subrange(i0, i0 + j))
}

/// `r` is the least cost over the whole search space: a lower bound on every
/// searched window, and attained by one of them whenever it is finite.
pub open spec fn is_min_cost(q: Seq<u64>, t: Seq<u64>, r: Option<int>) -> bool {
    &&& forall|i0: int, j: int|
        window_ok(q.len() as int, t.len() as int, i0, j) ==> ext_le(
            r,
            #[trigger] searched_cost(q, t, i0, j),
        )
    &&& r is Some ==> exists|i0: int, j: int|
        window_ok(q.len() as int, t.len() as int, i0, j) && #[trigger] searched_cost(q, t, i0, j)
            == r
}

// ---------------------------------------------------------------------------
// Scores.
// ---------------------------------------------------------------------------

/// A template's score: the least alignment cost per query value, as the
/// exact rational `cost / qlen`, or infinite when no window can align.
#[derive(Clone, Copy, Debug, PartialEq, Eq, Structural)]
pub enum Score {
    Finite { cost: u64, qlen: u64 },
    Infinite,
}

/// The raw cost of a score, as an extended cost.
pub open spec fn score_cost(s: Score) -> Option<int> {
    match s {
        Score::Finite { cost, qlen } => Option::Some(cost as int),
        Score::Infinite => Option::None,
    }
}

/// Bounds that every score produced by the engine obeys; they keep the
/// cross-multiplied comparison of two scores inside `u64`.
pub open spec fn score_wf(s: Score) -> bool {
    match s {
        Score::Finite { cost, qlen } => 1 <= qlen <= MAX_LEN && cost <= qlen * SCALE,
        Score::Infinite => true,
    }
}

/// Score order: finite scores compare as the rationals `cost / qlen`,
/// and every finite score lies below the infinite one.
pub open spec fn score_le(a: Score, b: Score) -> bool {
    match (a, b) {
        (Score::Finite { cost: c1, qlen: n1 }, Score::Finite { cost: c2, qlen: n2 }) => c1 * n2
            <= c2 * n1,
        (Score::Finite { .. }, Score::Infinite) => true,
        (Score::Infinite, Score::Finite { .. }) => false,
        (Score::Infinite, Score::Infinite) => true,
    }
}

/// Decides `score_le`.
pub fn score_le_exec(a: &Score, b: &Score) -> (r: bool)
    requires
        score_wf(*a),
        score_wf(*b),
    ensures
        r == score_le(*a, *b),
{
    match (a, b) {
        (Score::Finite { cost: c1, qlen: n1 }, Score::Finite { cost: c2, qlen: n2 }) => {
            proof {
                lemma_mul_bound(*c1 as int, *n2 as int);
                lemma_mul_bound(*c2 as int, *n1 as int);
            }
            *c1 * *n2 <= *c2 * *n1
        },
        (Score::Finite { .. }, Score::Infinite) => true,
        (Score::Infinite, Score::Finite { .. }) => false,
        (Score::Infinite, Score::Infinite) => true,
    }
}

/// A well-formed score's cross product stays below `u64::MAX`.
proof fn lemma_mul_bound(c: int, n: int)
    requires
        0 <= c <= MAX_LEN * SCALE,
        0 <= n <= MAX_LEN,
    ensures
        c * n <= u64::MAX,
{
    assert(c * n <= (MAX_LEN * SCALE) * MAX_LEN) by (nonlinear_arith)
        requires
            0 <= c <= MAX_LEN * SCALE,
            0 <= n <= MAX_LEN,
    ;
}

// ---------------------------------------------------------------------------
// One window.
// ---------------------------------------------------------------------------

/// Least of two cost-or-unreachable values.
fn opt_min(a: Option<u64>, b: Option<u64>) -> (r: Option<u64>)
    ensures
        cost_opt(r) == ext_min(cost_opt(a), cost_opt(b)),
{
    match (a, b) {
        (Option::Some(av), Option::Some(bv)) => if av <= bv {
            Option::Some(av)
        } else {
            Option::Some(bv)
        },
        (Option::Some(av), Option::None) => Option::Some(av),
        (Option::None, bv) => bv,
    }
}

/// Cost of aligning the whole query against the template window that starts
/// at `offset` and spans `len` values, or `None` when no alignment exists.
pub fn window_score(query: &Fingerprint, template: &Fingerprint, offset: usize, len: usize) -> (r:
    Option<u64>)
    requires
        1 <= len,
        offset + len <= template@.len(),
    ensures
        cost_opt(r) == searched_cost(query@, template@, offset as int, len as int),
        r matches Option::Some(c) ==> c <= query@.len() * SCALE,
{
    proof {
        use_type_invariant(query);
        use_type_invariant(template);
    }
    let ghost w = template@.subrange(offset as int, offset as int + len as int);
    let qv = query.values();
    let tv = template.values();
    let n = qv.len();

    // Row 0 of the grid: reachable only at the window's start.
    let mut prev: Vec<Option<u64>> = Vec::new();
    prev.push(Option::Some(0u64));
    let mut filled: usize = 0;
    while filled < len
        invariant
            0 <= filled <= len,
            prev@.len() == filled + 1,
            prev@[0] == Option::Some(0u64),
            forall|k: int| 1 <= k < prev@.len() ==> prev@[k] is None,
        decreases len - filled,
    {
        prev.push(Option::None);
        filled += 1;
    }
    assert(forall|k: int| 0 <= k < prev@.len() ==> cost_opt(prev@[k]) == grid(query@, w, 0, k));

    let mut i: usize = 1;
    while i <= n
        invariant
            query.wf(),
            template.wf(),
            qv@ == query@,
            tv@ == template@,
            n == query@.len(),
            1 <= len,
            offset + len <= template@.len(),
            w == template@.subrange(offset as int, offset as int + len as int),
            1 <= i <= n + 1,
            prev@.len() == len + 1,
            forall|k: int|
                0 <= k < prev@.len() ==> cost_opt(#[trigger] prev@[k]) == grid(
                    query@,
                    w,
                    i - 1,
                    k,
                ),
            forall|k: int|
                0 <= k < prev@.len() ==> ((#[trigger] prev@[k]) matches Option::Some(v) ==> v
                    <= (i - 1) * SCALE),
        decreases n + 1 - i,
    {
        let mut cur: Vec<Option<u64>> = Vec::new();
        cur.push(Option::None);
        assert(cost_opt(cur@[0]) == grid(query@, w, i as int, 0));
        let mut k: usize = 1;
        while k <= len
            invariant
                query.wf(),
                template.wf(),
                qv@ == query@,
                tv@ == template@,
                n == query@.len(),
                1 <= i <= n,
                1 <= len,
                offset + len <= template@.len(),
                w == template@.subrange(offset as int, offset as int + len as int),
                prev@.len() == len + 1,
                forall|x: int|
                    0 <= x < prev@.len() ==> cost_opt(#[trigger] prev@[x]) == grid(
                        query@,
                        w,
                        i - 1,
                        x,
                    ),
                forall|x: int|
                    0 <= x < prev@.len() ==> ((#[trigger] prev@[x]) matches Option::Some(v)
                        ==> v <= (i - 1) * SCALE),
                1 <= k <= len + 1,
                cur@.len() == k,
                forall|x: int|
                    0 <= x < k ==> cost_opt(#[trigger] cur@[x]) == grid(query@, w, i as int, x),
                forall|x: int|
                    0 <= x < k ==> ((#[trigger] cur@[x]) matches Option::Some(v) ==> v <= i
                        * SCALE),
            decreases len + 1 - k,
        {
            let a = qv[i - 1];
            let b = tv[offset + k - 1];
            let c = if a >= b {
                a - b
            } else {
                b - a
            };
            assert(w[k - 1] == template@[offset + k - 1]);
            assert(c == abs_diff(query@[i - 1], w[k - 1]));
            assert(c <= SCALE);
            let mut best = opt_min(prev[k], prev[k - 1]);
            if k > 2 {
                best = opt_min(best, prev[k - 2]);
            }
            match best {
                Option::None => {
                    cur.push(Option::None);
                },
                Option::Some(v) => {
                    assert(v <= (i - 1) * SCALE);
                    assert((i - 1) * SCALE + SCALE == i * SCALE);
                    cur.push(Option::Some(v + c));
                },
            }
            assert(cost_opt(cur@[k as int]) == grid(query@, w, i as int, k as int));
            k += 1;
        }
        prev = cur;
        i += 1;
    }
    let r = prev[len];
    assert(cost_opt(r) == grid(query@, w, n as int, len as int));
    assert(w.len() == len);
    r
}

// ---------------------------------------------------------------------------
// The full search.
// ---------------------------------------------------------------------------

/// Scores how well the query aligns against the template: the least window
/// cost over the whole search space, per query value, or infinite when the
/// template is too short for any window.
pub fn partial_dtw(query: &Fingerprint, template: &Fingerprint) -> (r: Score)
    ensures
        score_wf(r),
        (r matches Score::Finite { qlen, .. } ==> qlen == query@.len()),
        is_min_cost(query@, template@, score_cost(r)),
{
    proof {
        use_type_invariant(query);
        use_type_invariant(template);
    }
    let ghost gn = query@.len() as int;
    let ghost gm = template@.len() as int;
    let n = query.len();
    let m = template.len();
    if m < n {
        assert(forall|i0: int, j: int| !window_ok(gn, gm, i0, j));
        return Score::Infinite;
    }

    let mut best: Option<u64> = Option::None;
    let ghost mut wi: int = 0;
    let ghost mut wj: int = 0;
    let num_seq = m - n + 1;
    let mut i0: usize = 0;
    while i0 < num_seq
        invariant
            query.wf(),
            template.wf(),
            gn == query@.len(),
            gm == template@.len(),
            n == query@.len(),
            m == template@.len(),
            n <= m,
            num_seq == m - n + 1,
            0 <= i0 <= num_seq,
            forall|a: int, b: int|
                window_ok(gn, gm, a, b) && a < i0 ==> ext_le(
                    cost_opt(best),
                    #[trigger] searched_cost(query@, template@, a, b),
                ),
            (best matches Option::Some(c) ==> {
                &&& window_ok(gn, gm, wi, wj)
                &&& searched_cost(query@, template@, wi, wj) == cost_opt(best)
                &&& c <= query@.len() * SCALE
            }),
        decreases num_seq - i0,
    {
        let lim = if m - i0 < 2 * n {
            m - i0
        } else {
            2 * n
        };
        let mut j: usize = 1;
        while j < lim
            invariant
                query.wf(),
                template.wf(),
                gn == query@.len(),
                gm == template@.len(),
                n == query@.len(),
                m == template@.len(),
                n <= m,
                num_seq == m - n + 1,
                0 <= i0 < num_seq,
                lim <= m - i0,
                lim <= 2 * n,
                (lim == m - i0 || lim == 2 * n),
                1 <= j <= lim,
                forall|a: int, b: int|
                    window_ok(gn, gm, a, b) && (a < i0 || (a == i0 && b < j)) ==> ext_le(
                        cost_opt(best),
                        #[trigger] searched_cost(query@, template@, a, b),
                    ),
                (best matches Option::Some(c) ==> {
                    &&& window_ok(gn, gm, wi, wj)
                    &&& searched_cost(query@, template@, wi, wj) == cost_opt(best)
                    &&& c <= query@.len() * SCALE
                }),
            decreases lim - j,
        {
            let c = window_score(query, template, i0, j);
            assert(window_ok(gn, gm, i0 as int, j as int));
            match c {
                Option::None => {},
                Option::Some(cv) => {
                    let replace = match best {
                        Option::None => true,
                        Option::Some(bv) => cv < bv,
                    };
                    if replace {
                        best = Option::Some(cv);
                        proof {
                            wi = i0 as int;
                            wj = j as int;
                        }
                    }
                },
            }
            j += 1;
        }
        i0 += 1;
    }
    assert(forall|a: int, b: int|
        window_ok(gn, gm, a, b) ==> ext_le(
            cost_opt(best),
            #[trigger] searched_cost(query@, template@, a, b),
        ));
    match best {
        Option::None => Score::Infinite,
        Option::Some(cv) => Score::Finite { cost: cv, qlen: n as u64 },
    }
}

} // verus!
