//! The SuperMemo-2 recurrence. Review quality is an integer in 0..=6; the
//! easiness factor is held in hundredths (250 stands for 2.5) so that the
//! update `ef + 0.1 - (5-q)*(0.08 + (5-q)*0.02)` and the interval
//! `ceil(interval * ef)` are exact integer arithmetic.
use vstd::prelude::*;

use crate::errors::Error;

verus! {

/// Interval after the first successful repetition, in days.
pub const INTERVAL_1ST_REPETITION: i64 = 1;

/// Interval after the second successful repetition, in days.
pub const INTERVAL_2ND_REPETITION: i64 = 6;

/// Floor of the easiness factor, in hundredths (1.3).
pub const EASINESS_FLOOR: i64 = 130;

/// Initial easiness factor of a fresh state, in hundredths (2.5).
pub const EASINESS_INITIAL: i64 = 250;

/// SM-2 scheduling state: repetition counter, current interval in days, and
/// easiness factor in hundredths.
#[derive(Clone, Copy, Debug, PartialEq, Eq, Structural)]
pub struct SuperMemo2 {
    pub counter: i64,
    pub interval: i64,
    pub easiness_factor: i64,
}

/// The quality signal used by the easiness update: clamped to at most 5.
pub open spec fn effective_quality(q: int) -> int {
    if q > 5 {
        5
    } else {
        q
    }
}

/// Change of the easiness factor, in hundredths:
/// `0.1 - (5-q)*(0.08 + (5-q)*0.02)` scaled by 100.
pub open spec fn easiness_delta(q: int) -> int {
    let d = 5 - effective_quality(q);
    10 - d * (8 + d * 2)
}

/// The updated easiness factor: the delta applied, then floored at 1.3.
pub open spec fn next_easiness(ef: int, q: int) -> int {
    if ef + easiness_delta(q) < EASINESS_FLOOR {
        EASINESS_FLOOR as int
    } else {
        ef + easiness_delta(q)
    }
}

/// The repetition counter after a review at stored counter `c`: it advances,
/// except that a lapse (quality below 3 at or past the third repetition)
/// restarts the cycle at 1.
pub open spec fn next_counter(c: int, q: int) -> int {
    if c == 0 {
        1
    } else if c == 1 {
        2
    } else if q < 3 {
        1
    } else {
        c + 1
    }
}

/// The easiness factor after a review: only a successful repetition at or
/// past the third one updates it.
pub open spec fn next_easiness_of_state(c: int, ef: int, q: int) -> int {
    if c >= 2 && q >= 3 {
        next_easiness(ef, q)
    } else {
        ef
    }
}

/// The interval after a review, in days: 1 for the first repetition, 6 for
/// the second, 1 again on a lapse, and `ceil(interval * ef')` (in hundredths)
/// for a successful later repetition.
pub open spec fn next_interval(c: int, i: int, ef: int, q: int) -> int {
    if c == 0 {
        1
    } else if c == 1 {
        6
    } else if q < 3 {
        1
    } else {
        (i * next_easiness(ef, q) + 99) / 100
    }
}

/// Whether the updated state fits in the machine integers, which is exactly
/// when the update succeeds.
pub open spec fn step_fits(s: SuperMemo2, q: int) -> bool {
    if s.counter == 0 || s.counter == 1 || q < 3 {
        true
    } else {
        &&& s.easiness_factor + easiness_delta(q) <= i64::MAX
        &&& s.interval * next_easiness(s.easiness_factor as int, q) + 99 <= i64::MAX
        &&& s.counter + 1 <= i64::MAX
    }
}

/// A state the recurrence is defined on: counts and intervals are not
/// negative.
pub open spec fn state_valid(s: SuperMemo2) -> bool {
    s.counter >= 0 && s.interval >= 0 && s.easiness_factor >= 0
}

impl SuperMemo2 {
    /// A state assembled from its parts.
    pub fn new(counter: i64, interval: i64, easiness_factor: i64) -> (r: Self)
        ensures
            r == (SuperMemo2 { counter, interval, easiness_factor }),
    {
        Self { counter, interval, easiness_factor }
    }

    /// One committed review: advances the counter, updates the easiness
    /// factor on a successful third-or-later repetition, and recomputes the
    /// interval; a lapse restarts the 1-day cycle. Fails with
    /// `ArithmeticOverflow`, leaving the state unchanged, exactly when the
    /// updated state does not fit.
    pub fn update_repetition_interval(&mut self, repetition_response: u8) -> (r: Result<
        i64,
        Error,
    >)
        requires
            state_valid(*old(self)),
        ensures
            r is Ok <==> step_fits(*old(self), repetition_response as int),
            r matches Ok(i) ==> {
                &&& final(self).counter == next_counter(
                    old(self).counter as int,
                    repetition_response as int,
                )
                &&& final(self).interval == next_interval(
                    old(self).counter as int,
                    old(self).interval as int,
                    old(self).easiness_factor as int,
                    repetition_response as int,
                )
                &&& final(self).easiness_factor == next_easiness_of_state(
                    old(self).counter as int,
                    old(self).easiness_factor as int,
                    repetition_response as int,
                )
                &&& i == final(self).interval
                &&& state_valid(*final(self))
            },
            r is Err ==> *final(self) == *old(self) && r == Err::<i64, Error>(
                Error::ArithmeticOverflow,
            ),
    {
        if self.counter == 0 {
            self.counter = 1;
            self.interval = INTERVAL_1ST_REPETITION;
            Ok(INTERVAL_1ST_REPETITION)
        } else if self.counter == 1 {
            self.counter = 2;
            self.interval = INTERVAL_2ND_REPETITION;
            Ok(INTERVAL_2ND_REPETITION)
        } else if repetition_response < 3 {
            // A lapse: restart the short-interval cycle on this review.
            self.counter = 1;
            self.interval = INTERVAL_1ST_REPETITION;
            Ok(INTERVAL_1ST_REPETITION)
        } else {
            let q: i64 = if repetition_response > 5 {
                5
            } else {
                repetition_response as i64
            };
            let d: i64 = 5 - q;
            proof {
                assert(d == 0 || d == 1 || d == 2);
            }
            let delta: i64 = 10 - d * (8 + d * 2);
            assert(delta == easiness_delta(repetition_response as int));
            let ef = match self.easiness_factor.checked_add(delta) {
                Some(x) => x,
                None => {
                    return Err(Error::ArithmeticOverflow);
                },
            };
            let ef = if ef < EASINESS_FLOOR {
                EASINESS_FLOOR
            } else {
                ef
            };
            let product = match self.interval.checked_mul(ef) {
                Some(x) => x,
                None => {
                    return Err(Error::ArithmeticOverflow);
                },
            };
            let numerator = match product.checked_add(99) {
                Some(x) => x,
                None => {
                    return Err(Error::ArithmeticOverflow);
                },
            };
            let counter = match self.counter.checked_add(1) {
                Some(x) => x,
                None => {
                    return Err(Error::ArithmeticOverflow);
                },
            };
            let interval = numerator / 100;
            self.counter = counter;
            self.interval = interval;
            self.easiness_factor = ef;
            Ok(interval)
        }
    }
}

impl Default for SuperMemo2 {
    /// The zero-value state: no repetitions yet, easiness 2.5.
    fn default() -> (r: Self)
        ensures
            r == (SuperMemo2 { counter: 0 as i64, interval: 0 as i64, easiness_factor: 250 as i64 }),
    {
        Self::new(0, 0, EASINESS_INITIAL)
    }
}

/// A lapse resets the interval: any quality below 3 at repetition count 3 or
/// beyond yields a 1-day interval.
pub proof fn lemma_lapse_resets_interval(s: SuperMemo2, q: int)
    requires
        s.counter >= 3,
        0 <= q < 3,
    ensures
        next_interval(s.counter as int, s.interval as int, s.easiness_factor as int, q) == 1,
{
}

/// The first repetition is always 1 day and the second always 6 days,
/// independent of the review quality.
pub proof fn lemma_early_repetition_intervals(i: int, ef: int, q: int)
    ensures
        next_interval(0, i, ef, q) == 1,
        next_interval(1, i, ef, q) == 6,
{
}

/// The easiness factor never drops below the 1.3 floor: once at or above it,
/// any sequence of review qualities keeps it there.
pub proof fn lemma_easiness_floor(s: SuperMemo2, q: int)
    requires
        s.easiness_factor >= EASINESS_FLOOR,
    ensures
        next_easiness_of_state(s.counter as int, s.easiness_factor as int, q) >= EASINESS_FLOOR,
        next_easiness(s.easiness_factor as int, q) >= EASINESS_FLOOR,
{
}

} // verus!
