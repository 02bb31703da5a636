//! Fingerprint builders: aggregation of raw magnitude samples into the
//! relative changes that a fingerprint normalizes.
//!
//! The network path sums polled byte-rate samples into timed segments
//! behind a minimum-throughput gate; the media path takes one precomputed
//! magnitude per unit.  Both paths end in a sequence of [`Delta`] values;
//! turning a delta into the fixed-point fingerprint value
//! `logistic((cur - prev) / prev)` is the caller's step, since it leaves
//! the integers.

use vstd::prelude::*;

use crate::fingerprint::BuildError;
use crate::fingerprint::MAX_LEN;

verus! {

/// One relative change between consecutive aggregated magnitudes.
#[derive(Clone, Copy, Debug, PartialEq, Eq, Structural)]
pub enum Delta {
    /// The defined zero change of a trace's first segment; it normalizes to
    /// the fixed-point value `SCALE / 2`.
    Zero,
    /// The change from `prev` to `cur`.  `prev` may be zero — the
    /// division-by-zero edge; the caller maps it deliberately rather than
    /// failing here.
    Ratio { cur: u64, prev: u64 },
}

/// `a + b` clamped to `u64`; segment sums and tick counters saturate
/// instead of wrapping.
pub open spec fn spec_sat_add(a: u64, b: u64) -> u64 {
    if a + b > u64::MAX {
        u64::MAX
    } else {
        (a + b) as u64
    }
}

/// `a + b` clamped to `u64`.
pub fn sat_add(a: u64, b: u64) -> (r: u64)
    ensures
        r == spec_sat_add(a, b),
{
    if a > u64::MAX - b {
        u64::MAX
    } else {
        a + b
    }
}

// ---------------------------------------------------------------------------
// The network accumulator.
// ---------------------------------------------------------------------------

/// Segment-windowed aggregation of a polled byte-rate trace, one sample at
/// a time.  A sample below the threshold neither joins the running segment
/// sum nor advances the segment timer; the timer also stands still while
/// the trace is idle — nothing summed yet and no segment sealed.  Every
/// `segment_length` counted samples the running sum is sealed as one
/// segment, until `num_samples` segments exist; the sample that seals a
/// segment joins the next segment's sum.
#[derive(Debug)]
pub struct NetworkAccumulator {
    num_samples: usize,
    segment_length: u64,
    epsilon: i64,
    cur_sum: u64,
    ticks: u64,
    sums: Vec<u64>,
}

impl NetworkAccumulator {
    /// Target number of segments.
    pub closed spec fn spec_num_samples(&self) -> int {
        self.num_samples as int
    }

    /// Counted ticks per segment.
    pub closed spec fn spec_segment_length(&self) -> int {
        self.segment_length as int
    }

    /// Minimum byte rate for a sample to count.
    pub closed spec fn spec_epsilon(&self) -> int {
        self.epsilon as int
    }

    /// Sum of the counted samples of the open segment.
    pub closed spec fn spec_cur_sum(&self) -> int {
        self.cur_sum as int
    }

    /// Counted ticks of the open segment.
    pub closed spec fn spec_ticks(&self) -> int {
        self.ticks as int
    }

    /// The sealed segment sums, in order.
    pub closed spec fn spec_sums(&self) -> Seq<u64> {
        self.sums@
    }

    /// Configuration is valid and no more segments were sealed than asked.
    pub open spec fn wf(&self) -> bool {
        &&& 1 <= self.spec_num_samples() <= MAX_LEN
        &&& 1 <= self.spec_segment_length()
        &&& 0 <= self.spec_epsilon()
        &&& self.spec_sums().len() <= self.spec_num_samples()
    }

    /// All requested segments have been sealed.
    pub open spec fn spec_done(&self) -> bool {
        self.spec_sums().len() == self.spec_num_samples()
    }

    /// Validates the configuration: at least one sample, a positive segment
    /// length, a non-negative threshold, and a sample count a fingerprint
    /// can hold.
    pub fn new(num_samples: usize, segment_length: i64, epsilon: i64) -> (r: Result<
        NetworkAccumulator,
        BuildError,
    >)
        ensures
            match r {
                Ok(a) => {
                    &&& num_samples >= 1
                    &&& num_samples <= MAX_LEN
                    &&& segment_length >= 1
                    &&& epsilon >= 0
                    &&& a.wf()
                    &&& a.spec_num_samples() == num_samples
                    &&& a.spec_segment_length() == segment_length
                    &&& a.spec_epsilon() == epsilon
                    &&& a.spec_cur_sum() == 0
                    &&& a.spec_ticks() == 0
                    &&& a.spec_sums() == Seq::<u64>::empty()
                },
                Err(e) => e == if num_samples < 1 {
                    BuildError::InvalidSampleCount
                } else if num_samples > MAX_LEN {
                    BuildError::TooLong
                } else if segment_length < 1 {
                    BuildError::InvalidSegmentLength
                } else {
                    BuildError::InvalidEpsilon
                } && (num_samples < 1 || num_samples > MAX_LEN || segment_length < 1 || epsilon
                    < 0),
            },
    {
        if num_samples < 1 {
            return Err(BuildError::InvalidSampleCount);
        }
        if num_samples > MAX_LEN {
            return Err(BuildError::TooLong);
        }
        if segment_length < 1 {
            return Err(BuildError::InvalidSegmentLength);
        }
        if epsilon < 0 {
            return Err(BuildError::InvalidEpsilon);
        }
        let sums: Vec<u64> = Vec::new();
        assert(sums@ == Seq::<u64>::empty());
        Ok(
            NetworkAccumulator {
                num_samples,
                segment_length: segment_length as u64,
                epsilon,
                cur_sum: 0,
                ticks: 0,
                sums,
            },
        )
    }

    /// One tick of the trace advanced the accumulator from `pre` to `post`
    /// on the byte-rate sample `rate`.
    pub open spec fn feed_step(pre: NetworkAccumulator, rate: i64, post: NetworkAccumulator) -> bool {
        let contributes = rate >= pre.spec_epsilon();
        let closing = !pre.spec_done() && contributes && pre.spec_ticks()
            >= pre.spec_segment_length();
        &&& post.spec_num_samples() == pre.spec_num_samples()
        &&& post.spec_segment_length() == pre.spec_segment_length()
        &&& post.spec_epsilon() == pre.spec_epsilon()
        &&& if pre.spec_done() {
            // A finished accumulator ignores further samples.
            &&& post.spec_sums() == pre.spec_sums()
            &&& post.spec_cur_sum() == pre.spec_cur_sum()
            &&& post.spec_ticks() == pre.spec_ticks()
        } else if closing {
            &&& post.spec_sums() == pre.spec_sums().push(pre.spec_cur_sum() as u64)
            &&& if post.spec_done() {
                // The final seal: the trace ends here.
                &&& post.spec_cur_sum() == 0
                &&& post.spec_ticks() == 0
            } else {
                // The sealing sample opens the next segment.
                &&& post.spec_cur_sum() == rate
                &&& post.spec_ticks() == 1
            }
        } else if contributes {
            // The sample joins the open segment's sum, and the segment
            // timer advances — unless the trace is still idle: nothing
            // summed yet and no segment sealed.
            let next_sum = spec_sat_add(pre.spec_cur_sum() as u64, rate as u64);
            &&& post.spec_sums() == pre.spec_sums()
            &&& post.spec_cur_sum() == next_sum
            &&& post.spec_ticks() == if next_sum > 0 || pre.spec_sums().len() > 0 {
                spec_sat_add(pre.spec_ticks() as u64, 1) as int
            } else {
                pre.spec_ticks()
            }
        } else {
            // A sub-threshold sample neither joins the segment sum nor
            // advances the segment timer.
            &&& post.spec_sums() == pre.spec_sums()
            &&& post.spec_cur_sum() == pre.spec_cur_sum()
            &&& post.spec_ticks() == pre.spec_ticks()
        }
    }

    /// Feeds one byte-rate sample; returns whether the accumulator is done.
    pub fn feed(&mut self, rate: i64) -> (done: bool)
        requires
            old(self).wf(),
        ensures
            final(self).wf(),
            NetworkAccumulator::feed_step(*old(self), rate, *final(self)),
            done == final(self).spec_done(),
    {
        if self.sums.len() == self.num_samples {
            return true;
        }
        let contributes = rate >= self.epsilon;
        if contributes {
            if self.ticks >= self.segment_length {
                self.sums.push(self.cur_sum);
                self.cur_sum = 0;
                self.ticks = 0;
                if self.sums.len() == self.num_samples {
                    return true;
                }
                assert(rate >= 0);
                self.cur_sum = rate as u64;
                self.ticks = 1;
                return false;
            }
            assert(rate >= 0);
            self.cur_sum = sat_add(self.cur_sum, rate as u64);
            if self.cur_sum > 0 || self.sums.len() > 0 {
                self.ticks = sat_add(self.ticks, 1);
            }
        }
        self.sums.len() == self.num_samples
    }

    /// Whether all requested segments have been sealed.
    pub fn is_done(&self) -> (r: bool)
        ensures
            r == self.spec_done(),
    {
        self.sums.len() == self.num_samples
    }

    /// Number of segments sealed so far.
    pub fn segments_sealed(&self) -> (r: usize)
        ensures
            r == self.spec_sums().len(),
    {
        self.sums.len()
    }

    /// The relative changes of the sealed segments: the defined zero change
    /// for the first segment, then each segment's sum against its
    /// predecessor's.
    pub fn deltas(&self) -> (r: Vec<Delta>)
        ensures
            r@.len() == self.spec_sums().len(),
            self.spec_sums().len() >= 1 ==> r@[0] == Delta::Zero,
            forall|x: int|
                1 <= x < r@.len() ==> r@[x] == (Delta::Ratio {
                    cur: self.spec_sums()[x],
                    prev: self.spec_sums()[x - 1],
                }),
    {
        let mut r: Vec<Delta> = Vec::new();
        if self.sums.len() == 0 {
            return r;
        }
        r.push(Delta::Zero);
        let mut x: usize = 1;
        while x < self.sums.len()
            invariant
                1 <= x <= self.sums@.len(),
                r@.len() == x,
                r@[0] == Delta::Zero,
                forall|y: int|
                    1 <= y < x ==> r@[y] == (Delta::Ratio {
                        cur: self.sums@[y],
                        prev: self.sums@[y - 1],
                    }),
            decreases self.sums@.len() - x,
        {
            r.push(Delta::Ratio { cur: self.sums[x], prev: self.sums[x - 1] });
            x += 1;
        }
        r
    }
}

// ---------------------------------------------------------------------------
// The media path.
// ---------------------------------------------------------------------------

/// Magnitude of one media unit from its two parallel stream sizes: the sum
/// of the paired sizes when both streams have the unit, and nothing as soon
/// as either stream has run out — which ends the unit enumeration, so a
/// trace spans only the indices both streams share.
pub fn unit_magnitude(video: Option<u64>, audio: Option<u64>) -> (r: Option<u64>)
    ensures
        r == match (video, audio) {
            (Option::Some(v), Option::Some(a)) => Option::Some(spec_sat_add(v, a)),
            _ => Option::None::<u64>,
        },
{
    match (video, audio) {
        (Option::Some(v), Option::Some(a)) => Option::Some(sat_add(v, a)),
        _ => Option::None,
    }
}

/// The relative changes between consecutive unit magnitudes: one fewer than
/// there are units.  A trace without any unit has no alignable change and
/// is rejected.
pub fn unit_deltas(units: &Vec<u64>) -> (r: Result<Vec<Delta>, BuildError>)
    ensures
        match r {
            Ok(d) => {
                &&& units@.len() >= 1
                &&& d@.len() == units@.len() - 1
                &&& forall|x: int|
                    0 <= x < d@.len() ==> d@[x] == (Delta::Ratio {
                        cur: units@[x + 1],
                        prev: units@[x],
                    })
            },
            Err(e) => units@.len() == 0 && e == BuildError::NoAlignableUnits,
        },
{
    if units.len() == 0 {
        return Err(BuildError::NoAlignableUnits);
    }
    let mut d: Vec<Delta> = Vec::new();
    let mut x: usize = 1;
    while x < units.len()
        invariant
            1 <= x <= units@.len(),
            d@.len() == x - 1,
            forall|y: int|
                0 <= y < d@.len() ==> d@[y] == (Delta::Ratio {
                    cur: units@[y + 1],
                    prev: units@[y],
                }),
        decreases units@.len() - x,
    {
        d.push(Delta::Ratio { cur: units[x], prev: units[x - 1] });
        x += 1;
    }
    Ok(d)
}

} // verus!
