//! Ranking a query fingerprint against the catalog.
//!
//! Every resolution stream of every catalog entry is scored with the
//! partial warping search; an entry is represented by its best-scoring
//! stream, and the entries are ordered by that representative score.  Ties
//! are broken by catalog position, so the ranking is deterministic.

use vstd::prelude::*;

use crate::fingerprint::BuildError;
use crate::fingerprint::Fingerprint;
use crate::pdtw::Score;
use crate::pdtw::is_min_cost;
use crate::pdtw::partial_dtw;
use crate::pdtw::score_cost;
use crate::pdtw::score_le;
use crate::pdtw::score_le_exec;
use crate::pdtw::score_wf;

verus! {

// ---------------------------------------------------------------------------
// The catalog.
// ---------------------------------------------------------------------------

/// One resolution stream of a catalog entry.
#[derive(Debug)]
pub struct Stream {
    pub label: Vec<u8>,
    pub fingerprint: Fingerprint,
}

/// Within one video every resolution's fingerprint must have the same
/// length, and there must be at least one resolution.
pub open spec fn streams_wf(s: Seq<Stream>) -> bool {
    &&& s.len() >= 1
    &&& forall|x: int|
        0 <= x < s.len() ==> (#[trigger] s[x].fingerprint)@.len() == s[0].fingerprint@.len()
}

/// One video of the catalog: its identifier and its resolution streams.
#[derive(Debug)]
pub struct CatalogEntry {
    pub name: Vec<u8>,
    pub streams: Vec<Stream>,
}

impl CatalogEntry {
    /// The entry's construction invariant.
    pub open spec fn wf(&self) -> bool {
        streams_wf(self.streams@)
    }

    /// Builds an entry, rejecting one without streams or with fingerprints
    /// of unequal length.
    pub fn new(name: Vec<u8>, streams: Vec<Stream>) -> (r: Result<CatalogEntry, BuildError>)
        ensures
            match r {
                Ok(e) => e.name@ == name@ && e.streams@ == streams@ && e.wf(),
                Err(er) => !streams_wf(streams@) && er == if streams@.len() == 0 {
                    BuildError::NoStreams
                } else {
                    BuildError::LengthMismatch
                },
            },
    {
        if streams.len() == 0 {
            return Err(BuildError::NoStreams);
        }
        let expected = streams[0].fingerprint.len();
        let mut x: usize = 1;
        while x < streams.len()
            invariant
                1 <= x <= streams@.len(),
                expected == streams@[0].fingerprint@.len(),
                forall|y: int|
                    0 <= y < x ==> (#[trigger] streams@[y].fingerprint)@.len() == expected,
            decreases streams@.len() - x,
        {
            if streams[x].fingerprint.len() != expected {
                assert(!streams_wf(streams@));
                return Err(BuildError::LengthMismatch);
            }
            x += 1;
        }
        Ok(CatalogEntry { name, streams })
    }
}

/// The whole catalog, loaded once per matching session.
#[derive(Debug)]
pub struct Catalog {
    pub entries: Vec<CatalogEntry>,
}

impl Catalog {
    /// Every entry obeys its construction invariant.
    pub open spec fn wf(&self) -> bool {
        forall|x: int| 0 <= x < self.entries@.len() ==> (#[trigger] self.entries@[x]).wf()
    }
}

// ---------------------------------------------------------------------------
// Ranked results.
// ---------------------------------------------------------------------------

/// One stream's score, remembering the stream's catalog position.
#[derive(Debug)]
pub struct StreamScore {
    pub index: usize,
    pub label: Vec<u8>,
    pub score: Score,
}

/// One entry's result: its representative (least) score and all stream
/// scores, ordered best first.
#[derive(Debug)]
pub struct RankedEntry {
    pub index: usize,
    pub name: Vec<u8>,
    pub best: Score,
    pub streams: Vec<StreamScore>,
}

/// Order on (score, position) pairs: by score, ties by position.  The
/// position makes the order total and the ranking deterministic.
pub open spec fn key_le(s1: Score, i1: int, s2: Score, i2: int) -> bool {
    ||| (score_le(s1, s2) && !score_le(s2, s1))
    ||| (score_le(s1, s2) && score_le(s2, s1) && i1 <= i2)
}

/// Order on stream scores.
pub open spec fn stream_key_le(a: StreamScore, b: StreamScore) -> bool {
    key_le(a.score, a.index as int, b.score, b.index as int)
}

/// Order on ranked entries.
pub open spec fn entry_key_le(a: RankedEntry, b: RankedEntry) -> bool {
    key_le(a.best, a.index as int, b.best, b.index as int)
}

/// Some stream score in `s` carries the stream position `x`.
pub open spec fn stream_index_present(s: Seq<StreamScore>, x: int) -> bool {
    exists|p: int| 0 <= p < s.len() && (#[trigger] s[p]).index == x
}

/// Some ranked entry in `s` carries the catalog position `x`.
pub open spec fn entry_index_present(s: Seq<RankedEntry>, x: int) -> bool {
    exists|p: int| 0 <= p < s.len() && (#[trigger] s[p]).index == x
}

/// Decides `key_le`.
fn key_le_exec(s1: &Score, i1: usize, s2: &Score, i2: usize) -> (r: bool)
    requires
        score_wf(*s1),
        score_wf(*s2),
    ensures
        r == key_le(*s1, i1 as int, *s2, i2 as int),
{
    let le12 = score_le_exec(s1, s2);
    let le21 = score_le_exec(s2, s1);
    le12 && (!le21 || i1 <= i2)
}

/// `score_le` is total.
proof fn lemma_score_le_total(a: Score, b: Score)
    ensures
        score_le(a, b) || score_le(b, a),
{
}

/// `score_le` is transitive on well-formed scores.
proof fn lemma_score_le_trans(a: Score, b: Score, c: Score)
    requires
        score_wf(a),
        score_wf(b),
        score_wf(c),
        score_le(a, b),
        score_le(b, c),
    ensures
        score_le(a, c),
{
    match (a, b, c) {
        (
            Score::Finite { cost: c1, qlen: n1 },
            Score::Finite { cost: c2, qlen: n2 },
            Score::Finite { cost: c3, qlen: n3 },
        ) => {
            assert(c1 * n3 <= c3 * n1) by (nonlinear_arith)
                requires
                    c1 * n2 <= c2 * n1,
                    c2 * n3 <= c3 * n2,
                    n1 >= 1,
                    n2 >= 1,
                    n3 >= 1,
                    c1 >= 0,
                    c2 >= 0,
                    c3 >= 0,
            ;
        },
        _ => {},
    }
}

/// `key_le` is transitive on well-formed scores.
proof fn lemma_key_le_trans(a: Score, ia: int, b: Score, ib: int, c: Score, ic: int)
    requires
        score_wf(a),
        score_wf(b),
        score_wf(c),
        key_le(a, ia, b, ib),
        key_le(b, ib, c, ic),
    ensures
        key_le(a, ia, c, ic),
{
    lemma_score_le_trans(a, b, c);
    if score_le(c, a) {
        lemma_score_le_trans(c, a, b);
        lemma_score_le_trans(b, c, a);
    }
}

/// The stream score `s` is the evaluation of one stream of `entry`.
pub open spec fn stream_result_ok(q: Seq<u64>, entry: CatalogEntry, s: StreamScore) -> bool {
    &&& 0 <= (s.index as int) < entry.streams@.len()
    &&& s.label@ == entry.streams@[s.index as int].label@
    &&& score_wf(s.score)
    &&& (s.score matches Score::Finite { qlen, .. } ==> qlen == q.len())
    &&& is_min_cost(q, entry.streams@[s.index as int].fingerprint@, score_cost(s.score))
}

/// The ranked entry `e` is the evaluation of one entry of `catalog`
/// against the query `q`: every stream scored, streams ordered best first
/// with ties by stream position, and the representative score the best one.
pub open spec fn entry_result_ok(q: Seq<u64>, catalog: Catalog, e: RankedEntry) -> bool {
    &&& 0 <= (e.index as int) < catalog.entries@.len()
    &&& e.name@ == catalog.entries@[e.index as int].name@
    &&& e.streams@.len() == catalog.entries@[e.index as int].streams@.len()
    &&& forall|p: int|
        0 <= p < e.streams@.len() ==> stream_result_ok(
            q,
            catalog.entries@[e.index as int],
            #[trigger] e.streams@[p],
        )
    &&& forall|p: int, r: int|
        0 <= p < r < e.streams@.len() ==> stream_key_le(
            #[trigger] e.streams@[p],
            #[trigger] e.streams@[r],
        )
    &&& forall|x: int| 0 <= x < e.streams@.len() ==> #[trigger] stream_index_present(e.streams@, x)
    &&& e.streams@.len() >= 1
    &&& e.best == e.streams@[0].score
    &&& score_wf(e.best)
}

/// Copies a byte string.
fn copy_bytes(v: &Vec<u8>) -> (r: Vec<u8>)
    ensures
        r@ == v@,
{
    let mut r: Vec<u8> = Vec::new();
    let mut x: usize = 0;
    while x < v.len()
        invariant
            0 <= x <= v@.len(),
            r@ == v@.subrange(0, x as int),
        decreases v@.len() - x,
    {
        let b = v[x];
        r.push(b);
        assert(r@ =~= v@.subrange(0, x + 1));
        x += 1;
    }
    assert(r@ =~= v@);
    r
}

/// Scores every stream of one catalog entry against the query and ranks
/// the streams, best first, ties by stream position; the entry's
/// representative score is the best stream's.
pub fn score_entry(query: &Fingerprint, entry: &CatalogEntry, index: usize) -> (r: RankedEntry)
    requires
        entry.wf(),
    ensures
        r.index == index,
        r.name@ == entry.name@,
        r.streams@.len() == entry.streams@.len(),
        forall|p: int|
            0 <= p < r.streams@.len() ==> stream_result_ok(query@, *entry, #[trigger] r.streams@[p]),
        forall|p: int, s: int|
            0 <= p < s < r.streams@.len() ==> stream_key_le(
                #[trigger] r.streams@[p],
                #[trigger] r.streams@[s],
            ),
        forall|x: int|
            0 <= x < entry.streams@.len() ==> #[trigger] stream_index_present(r.streams@, x),
        r.best == r.streams@[0].score,
        score_wf(r.best),
        forall|p: int| 0 <= p < r.streams@.len() ==> score_le(r.best, (#[trigger] r.streams@[p]).score),
    {
    proof {
        use_type_invariant(query);
    }
    let mut scored: Vec<StreamScore> = Vec::new();
    let mut x: usize = 0;
    while x < entry.streams.len()
        invariant
            entry.wf(),
            query.wf(),
            0 <= x <= entry.streams@.len(),
            scored@.len() == x,
            forall|p: int|
                0 <= p < scored@.len() ==> stream_result_ok(query@, *entry, #[trigger] scored@[p]),
            forall|p: int, s: int|
                0 <= p < s < scored@.len() ==> stream_key_le(
                    #[trigger] scored@[p],
                    #[trigger] scored@[s],
                ),
            forall|y: int| 0 <= y < x ==> #[trigger] stream_index_present(scored@, y),
        decreases entry.streams@.len() - x,
    {
        let fp = &entry.streams[x].fingerprint;
        proof {
            use_type_invariant(fp);
        }
        let sc = partial_dtw(query, fp);
        let ss = StreamScore { index: x, label: copy_bytes(&entry.streams[x].label), score: sc };
        let ghost pre = scored@;
        let mut pos: usize = 0;
        while pos < scored.len() && key_le_exec(&scored[pos].score, scored[pos].index, &ss.score, ss.index)
            invariant
                scored@ == pre,
                ss.index == x,
                score_wf(ss.score),
                forall|p: int|
                    0 <= p < scored@.len() ==> stream_result_ok(
                        query@,
                        *entry,
                        #[trigger] scored@[p],
                    ),
                0 <= pos <= scored@.len(),
                forall|p: int| 0 <= p < pos ==> stream_key_le(#[trigger] scored@[p], ss),
            decreases scored@.len() - pos,
        {
            pos += 1;
        }
        proof {
            // Everything at or after `pos` sorts after the new score.
            if (pos as int) < scored@.len() {
                assert(!stream_key_le(scored@[pos as int], ss));
                lemma_score_le_total(scored@[pos as int].score, ss.score);
                assert(stream_key_le(ss, scored@[pos as int]));
                assert forall|p: int| pos <= p < scored@.len() implies stream_key_le(
                    ss,
                    #[trigger] scored@[p],
                ) by {
                    if p != pos {
                        lemma_key_le_trans(
                            ss.score,
                            ss.index as int,
                            scored@[pos as int].score,
                            scored@[pos as int].index as int,
                            scored@[p].score,
                            scored@[p].index as int,
                        );
                    }
                }
            }
            pre.insert_ensures(pos as int, ss);
        }
        scored.insert(pos, ss);
        proof {
            assert forall|y: int| 0 <= y < x + 1 implies #[trigger] stream_index_present(
                scored@,
                y,
            ) by {
                if y == x {
                    assert(scored@[pos as int].index == y);
                } else {
                    assert(stream_index_present(pre, y));
                    let p0: int = choose|p0: int|
                        0 <= p0 < pre.len() && (#[trigger] pre[p0]).index == y;
                    if p0 < pos {
                        assert(scored@[p0].index == y);
                    } else {
                        assert(scored@[p0 + 1].index == y);
                    }
                }
            }
        }
        x += 1;
    }
    let best = scored[0].score;
    RankedEntry { index, name: copy_bytes(&entry.name), best, streams: scored }
}

/// Ranks the whole catalog against one query: every entry scored, entries
/// ordered by representative score, ties by catalog position.
pub fn rank_catalog(query: &Fingerprint, catalog: &Catalog) -> (r: Vec<RankedEntry>)
    requires
        catalog.wf(),
    ensures
        r@.len() == catalog.entries@.len(),
        forall|p: int|
            0 <= p < r@.len() ==> entry_result_ok(query@, *catalog, #[trigger] r@[p]),
        forall|p: int, s: int|
            0 <= p < s < r@.len() ==> entry_key_le(#[trigger] r@[p], #[trigger] r@[s]),
        forall|x: int|
            0 <= x < catalog.entries@.len() ==> #[trigger] entry_index_present(r@, x),
{
    let mut out: Vec<RankedEntry> = Vec::new();
    let mut x: usize = 0;
    while x < catalog.entries.len()
        invariant
            catalog.wf(),
            0 <= x <= catalog.entries@.len(),
            out@.len() == x,
            forall|p: int|
                0 <= p < out@.len() ==> entry_result_ok(query@, *catalog, #[trigger] out@[p]),
            forall|p: int, s: int|
                0 <= p < s < out@.len() ==> entry_key_le(#[trigger] out@[p], #[trigger] out@[s]),
            forall|y: int| 0 <= y < x ==> #[trigger] entry_index_present(out@, y),
        decreases catalog.entries@.len() - x,
    {
        let re = score_entry(query, &catalog.entries[x], x);
        let ghost pre = out@;
        let mut pos: usize = 0;
        while pos < out.len() && key_le_exec(&out[pos].best, out[pos].index, &re.best, re.index)
            invariant
                out@ == pre,
                re.index == x,
                score_wf(re.best),
                forall|p: int|
                    0 <= p < out@.len() ==> entry_result_ok(query@, *catalog, #[trigger] out@[p]),
                0 <= pos <= out@.len(),
                forall|p: int| 0 <= p < pos ==> entry_key_le(#[trigger] out@[p], re),
            decreases out@.len() - pos,
        {
            pos += 1;
        }
        proof {
            if (pos as int) < out@.len() {
                assert(!entry_key_le(out@[pos as int], re));
                lemma_score_le_total(out@[pos as int].best, re.best);
                assert(entry_key_le(re, out@[pos as int]));
                assert forall|p: int| pos <= p < out@.len() implies entry_key_le(
                    re,
                    #[trigger] out@[p],
                ) by {
                    if p != pos {
                        lemma_key_le_trans(
                            re.best,
                            re.index as int,
                            out@[pos as int].best,
                            out@[pos as int].index as int,
                            out@[p].best,
                            out@[p].index as int,
                        );
                    }
                }
            }
            pre.insert_ensures(pos as int, re);
        }
        out.insert(pos, re);
        proof {
            assert forall|y: int| 0 <= y < x + 1 implies #[trigger] entry_index_present(
                out@,
                y,
            ) by {
                if y == x {
                    assert(out@[pos as int].index == y);
                } else {
                    assert(entry_index_present(pre, y));
                    let p0: int = choose|p0: int|
                        0 <= p0 < pre.len() && (#[trigger] pre[p0]).index == y;
                    if p0 < pos {
                        assert(out@[p0].index == y);
                    } else {
                        assert(out@[p0 + 1].index == y);
                    }
                }
            }
        }
        x += 1;
    }
    out
}

/// The leading portion of a ranking: at most `k` entries, and never more
/// than there are — a short catalog yields a short report rather than a
/// failure.
pub fn top_k(mut ranked: Vec<RankedEntry>, k: usize) -> (r: Vec<RankedEntry>)
    ensures
        r@.len() == if k <= ranked@.len() {
            k as int
        } else {
            ranked@.len() as int
        },
        forall|p: int| 0 <= p < r@.len() ==> #[trigger] r@[p] == ranked@[p],
{
    let ghost orig = ranked@;
    ranked.truncate(k);
    proof {
        if k <= orig.len() {
            assert(ranked@ == orig.subrange(0, k as int));
        }
    }
    ranked
}

// ---------------------------------------------------------------------------
// Verify mode.
// ---------------------------------------------------------------------------

/// The query's label names the catalog entry: either outright, or as the
/// final path component — the label ends in `/` followed by the name.
pub open spec fn label_matches(label: Seq<u8>, name: Seq<u8>) -> bool {
    ||| label == name
    ||| (label.len() > name.len() && label.subrange(
        label.len() - name.len(),
        label.len() as int,
    ) == name && label[label.len() - name.len() - 1] == 47u8)
}

/// Decides whether a query label claims the identified catalog entry.
pub fn verify_match(label: &Vec<u8>, name: &Vec<u8>) -> (r: bool)
    ensures
        r == label_matches(label@, name@),
{
    let ll = label.len();
    let nl = name.len();
    if ll < nl {
        return false;
    }
    if ll > nl {
        // The byte before the candidate suffix must be the path separator.
        if label[ll - nl - 1] != 47u8 {
            return false;
        }
    }
    let mut x: usize = 0;
    while x < nl
        invariant
            0 <= x <= name@.len(),
            nl == name@.len(),
            ll == label@.len(),
            nl <= ll,
            forall|y: int| 0 <= y < x ==> label@[ll - nl + y] == name@[y],
        decreases name@.len() - x,
    {
        if label[ll - nl + x] != name[x] {
            assert(label@[ll - nl + x] != name@[x as int]);
            assert(!label_matches(label@, name@)) by {
                if label@ == name@ {
                    assert(label@[ll - nl + x] == name@[x as int]);
                }
                if label@.len() > name@.len() && label@.subrange(
                    label@.len() - name@.len(),
                    label@.len() as int,
                ) == name@ {
                    assert(label@.subrange(ll - nl, ll as int)[x as int] == name@[x as int]);
                }
            }
            return false;
        }
        x += 1;
    }
    if ll == nl {
        assert(label@ =~= name@);
        return true;
    }
    assert(label@.subrange(ll - nl, ll as int) =~= name@);
    true
}

} // verus!
