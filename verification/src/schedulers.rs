//! The scheduling-algorithm capability: a closed tagged variant over the
//! algorithms the store can hold, with the committed `advance` and the
//! read-only `preview` of the next due timestamp.
pub mod sm2;

use vstd::prelude::*;

use crate::add_days;
use crate::errors::Error;
use crate::schedulers::sm2::SuperMemo2;

verus! {

/// An owned scheduling-algorithm instance. A closed tagged variant rather
/// than open subtype polymorphism: stored notes name the variant by a tag, so
/// further algorithms can be added without a schema change.
#[derive(Clone, Copy, Debug, PartialEq, Eq, Structural)]
pub enum Scheduler {
    Sm2(SuperMemo2),
}

/// The SM-2 state a scheduler carries.
pub open spec fn sm2_of(s: Scheduler) -> SuperMemo2 {
    match s {
        Scheduler::Sm2(m) => m,
    }
}

/// The state after one committed review of quality `q`.
pub open spec fn sm2_step(s: SuperMemo2, q: int) -> SuperMemo2 {
    SuperMemo2 {
        counter: sm2::next_counter(s.counter as int, q) as i64,
        interval: sm2::next_interval(s.counter as int, s.interval as int, s.easiness_factor as int, q) as i64,
        easiness_factor: sm2::next_easiness_of_state(s.counter as int, s.easiness_factor as int, q) as i64,
    }
}

/// The due timestamp a review of quality `q` at time `now` yields.
pub open spec fn next_due(s: SuperMemo2, q: int, now: int) -> int {
    now + sm2::next_interval(s.counter as int, s.interval as int, s.easiness_factor as int, q)
        * 86400
}

/// Whether both the updated state and the new due timestamp fit the machine
/// integers, which is exactly when `advance` and `preview` succeed.
pub open spec fn advance_fits(s: SuperMemo2, q: int, now: int) -> bool {
    let days = sm2::next_interval(s.counter as int, s.interval as int, s.easiness_factor as int, q);
    &&& sm2::step_fits(s, q)
    &&& i64::MIN <= days * 86400 <= i64::MAX
    &&& i64::MIN <= now + days * 86400 <= i64::MAX
}

impl Scheduler {
    /// A scheduler state the recurrence is defined on.
    pub open spec fn is_valid(self) -> bool {
        sm2::state_valid(sm2_of(self))
    }

    /// Commits one review of quality `response` (clamped into 0..=6) at time
    /// `now` and returns the new due timestamp. Deterministic in state,
    /// response and `now`. Fails with `ArithmeticOverflow`, leaving the state
    /// unchanged, exactly when the update or the day arithmetic leaves the
    /// representable range.
    pub fn update_and_calculate_next_datetime(&mut self, response: u8, now: i64) -> (r: Result<
        i64,
        Error,
    >)
        requires
            old(self).is_valid(),
        ensures
            r is Ok <==> advance_fits(sm2_of(*old(self)), response as int, now as int),
            r matches Ok(t) ==> {
                &&& sm2_of(*final(self)) == sm2_step(sm2_of(*old(self)), response as int)
                &&& t == next_due(sm2_of(*old(self)), response as int, now as int)
                &&& final(self).is_valid()
            },
            r is Err ==> *final(self) == *old(self) && r == Err::<i64, Error>(
                Error::ArithmeticOverflow,
            ),
    {
        let response = if response > 6 {
            6
        } else {
            response
        };
        match self {
            Scheduler::Sm2(m) => {
                let mut working = *m;
                let days = match working.update_repetition_interval(response) {
                    Ok(d) => d,
                    Err(e) => {
                        return Err(e);
                    },
                };
                match add_days(now, days) {
                    Some(t) => {
                        *m = working;
                        Ok(t)
                    },
                    None => Err(Error::ArithmeticOverflow),
                }
            },
        }
    }

    /// The same computation as `update_and_calculate_next_datetime`, against
    /// a disposable copy: returns the due timestamp a review of quality
    /// `response` at `now` would yield, without committing anything.
    pub fn calculate_next_datetime(&self, response: u8, now: i64) -> (r: Result<i64, Error>)
        requires
            self.is_valid(),
        ensures
            r is Ok <==> advance_fits(sm2_of(*self), response as int, now as int),
            r matches Ok(t) ==> t == next_due(sm2_of(*self), response as int, now as int),
            r is Err ==> r == Err::<i64, Error>(Error::ArithmeticOverflow),
    {
        let mut working = *self;
        working.update_and_calculate_next_datetime(response, now)
    }
}

impl Default for Scheduler {
    /// The default algorithm with its zero-value state.
    fn default() -> (r: Self)
        ensures
            r == Scheduler::Sm2(
                SuperMemo2 { counter: 0 as i64, interval: 0 as i64, easiness_factor: 250 as i64 },
            ),
    {
        Scheduler::Sm2(SuperMemo2::new(0, 0, sm2::EASINESS_INITIAL))
    }
}

/// The interval, in days, that a review of quality `repetition_response`
/// would set for the given state, without committing it.
pub fn calculate_interval(
    counter: i64,
    interval: i64,
    easiness_factor: i64,
    repetition_response: u8,
) -> (r: Result<i64, Error>)
    requires
        sm2::state_valid(SuperMemo2 { counter, interval, easiness_factor }),
    ensures
        r is Ok <==> sm2::step_fits(
            SuperMemo2 { counter, interval, easiness_factor },
            repetition_response as int,
        ),
        r matches Ok(i) ==> i == sm2::next_interval(
            counter as int,
            interval as int,
            easiness_factor as int,
            repetition_response as int,
        ),
        r is Err ==> r == Err::<i64, Error>(Error::ArithmeticOverflow),
{
    let mut working = SuperMemo2::new(counter, interval, easiness_factor);
    working.update_repetition_interval(repetition_response)
}

} // verus!
