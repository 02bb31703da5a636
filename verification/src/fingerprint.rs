//! The fingerprint data type.
//!
//! A fingerprint is an ordered sequence of values from the unit interval,
//! held in fixed point: a stored value `v` stands for the real number
//! `v / SCALE`, so every well-formed value lies in `[0, SCALE]`.

use vstd::prelude::*;

verus! {

/// Fixed-point scale: a stored value `v` stands for the real `v / SCALE`.
pub const SCALE: u64 = 1_000_000;

/// Largest accepted fingerprint length.  Together with `SCALE` it keeps
/// every alignment cost, and every cross-multiplied score comparison,
/// inside `u64`.
pub const MAX_LEN: usize = 1_000_000;

/// Why a fingerprint or a catalog entry could not be built.
#[derive(Clone, Copy, Debug, PartialEq, Eq, Structural)]
pub enum BuildError {
    /// The requested number of samples was zero.
    InvalidSampleCount,
    /// The requested segment length was not positive.
    InvalidSegmentLength,
    /// The minimum-throughput threshold was negative.
    InvalidEpsilon,
    /// A media stream offered no units at all, so no inter-unit change exists.
    NoAlignableUnits,
    /// A fingerprint needs at least one value.
    Empty,
    /// More values than `MAX_LEN` were offered.
    TooLong,
    /// A value lay outside `[0, SCALE]`.
    ValueOutOfRange,
    /// A catalog entry carried no resolution streams.
    NoStreams,
    /// Two resolutions of one video produced fingerprints of unequal length.
    LengthMismatch,
}

/// A normalized fingerprint: at least one fixed-point value, each in
/// `[0, SCALE]`, in temporal order.
#[derive(Debug)]
pub struct Fingerprint {
    values: Vec<u64>,
}

impl View for Fingerprint {
    type V = Seq<u64>;

    closed spec fn view(&self) -> Seq<u64> {
        self.values@
    }
}

/// A sequence is a well-formed fingerprint body: non-empty, not overlong,
/// every value inside the fixed-point unit interval.
pub open spec fn fp_wf(s: Seq<u64>) -> bool {
    &&& 1 <= s.len() <= MAX_LEN
    &&& forall|i: int| 0 <= i < s.len() ==> s[i] <= SCALE
}

impl Fingerprint {
    /// The fingerprint's well-formedness; established by the constructor
    /// and carried by every value of the type.
    #[verifier::type_invariant]
    pub open spec fn wf(&self) -> bool {
        fp_wf(self@)
    }

    /// Builds a fingerprint from fixed-point values, rejecting exactly the
    /// sequences that are empty, overlong, or out of range.
    pub fn from_values(values: Vec<u64>) -> (r: Result<Fingerprint, BuildError>)
        ensures
            match r {
                Ok(f) => f@ == values@ && f.wf(),
                Err(e) => {
                    &&& !fp_wf(values@)
                    &&& e == if values@.len() == 0 {
                        BuildError::Empty
                    } else if values@.len() > MAX_LEN {
                        BuildError::TooLong
                    } else {
                        BuildError::ValueOutOfRange
                    }
                },
            },
    {
        if values.len() == 0 {
            return Err(BuildError::Empty);
        }
        if values.len() > MAX_LEN {
            return Err(BuildError::TooLong);
        }
        let mut i: usize = 0;
        while i < values.len()
            invariant
                0 <= i <= values@.len(),
                1 <= values@.len() <= MAX_LEN,
                forall|k: int| 0 <= k < i ==> values@[k] <= SCALE,
            decreases values@.len() - i,
        {
            if values[i] > SCALE {
                assert(!fp_wf(values@)) by {
                    assert(values@[i as int] > SCALE);
                }
                return Err(BuildError::ValueOutOfRange);
            }
            i += 1;
        }
        Ok(Fingerprint { values })
    }

    /// Number of values.
    pub fn len(&self) -> (r: usize)
        ensures
            r == self@.len(),
    {
        self.values.len()
    }

    /// The values, read-only.
    pub fn values(&self) -> (r: &Vec<u64>)
        ensures
            r@ == self@,
    {
        &self.values
    }
}

} // verus!
