//! Spaced-repetition note tracking: an SM-2 scheduling engine, notes bound to
//! root-relative file identities, a tagged text serialization for scheduler
//! state, and an in-memory note store whose contracts every durable backend
//! must honor.
pub mod cli;
pub mod codec;
pub mod config;
pub mod errors;
pub mod paths;
pub mod schedulers;
pub mod store;

use vstd::prelude::*;

use crate::codec::decode_scheduler;
use crate::codec::encode_scheduler;
use crate::codec::scheduler_chars;
use crate::codec::tag_of;
use crate::errors::Error;
use crate::schedulers::advance_fits;
use crate::schedulers::next_due;
use crate::schedulers::sm2_of;
use crate::schedulers::sm2_step;
use crate::schedulers::Scheduler;

verus! {

/// Seconds in one day: the whole-day granularity of the scheduler.
pub const SECONDS_PER_DAY: i64 = 86400;

/// Timestamps are seconds in one fixed time zone; day arithmetic is
/// multiplication by `SECONDS_PER_DAY`.
pub fn add_days(now: i64, days: i64) -> (r: Option<i64>)
    ensures
        r is Some <==> (i64::MIN <= days * 86400 <= i64::MAX && i64::MIN <= now + days * 86400
            <= i64::MAX),
        r matches Some(t) ==> t == now + days * 86400,
{
    match days.checked_mul(SECONDS_PER_DAY) {
        Some(secs) => now.checked_add(secs),
        None => None,
    }
}

/// The abstract value of a [`Note`]: its identity, its due timestamp and its
/// scheduler state.
pub struct NoteV {
    pub relative_path: Seq<char>,
    pub next_datetime: i64,
    pub scheduler: Scheduler,
}

/// An in-memory note: a file identity relative to the configured root, the
/// timestamp before which it should not be surfaced again, and its owned
/// scheduling-algorithm instance.
#[derive(Debug)]
pub struct Note {
    pub relative_path: String,
    pub next_datetime: i64,
    pub scheduler: Scheduler,
}

impl View for Note {
    type V = NoteV;

    open spec fn view(&self) -> NoteV {
        NoteV {
            relative_path: self.relative_path@,
            next_datetime: self.next_datetime,
            scheduler: self.scheduler,
        }
    }
}

/// A note whose identity can be framed in the line-based metadata text and
/// whose scheduler the recurrence is defined on.
pub open spec fn note_valid(n: NoteV) -> bool {
    &&& forall|j: int| 0 <= j < n.relative_path.len() ==> n.relative_path[j] != '\n'
    &&& n.scheduler.is_valid()
}

impl Note {
    /// A note assembled from its parts.
    pub fn new(relative_path: &str, next_datetime: i64, scheduler: Scheduler) -> (r: Self)
        ensures
            r@ == (NoteV { relative_path: relative_path@, next_datetime, scheduler }),
    {
        Self { relative_path: String::from_str(relative_path), next_datetime, scheduler }
    }

    /// A freshly tracked note: due right now, with the default algorithm in
    /// its zero-value state.
    pub fn new_default(relative_path: &str, now: i64) -> (r: Self)
        ensures
            r@.relative_path == relative_path@,
            r@.next_datetime == now,
            r@.scheduler == Scheduler::Sm2(
                crate::schedulers::sm2::SuperMemo2 {
                    counter: 0 as i64,
                    interval: 0 as i64,
                    easiness_factor: 250 as i64,
                },
            ),
    {
        Self::new(relative_path, now, Scheduler::default())
    }

    /// Replaces the scheduler wholesale with a fresh default instance and
    /// makes the note due now. Destructive by design: the repetition history
    /// is lost.
    pub fn reset(&mut self, now: i64)
        ensures
            final(self)@.relative_path == old(self)@.relative_path,
            final(self)@.next_datetime == now,
            final(self)@.scheduler == Scheduler::Sm2(
                crate::schedulers::sm2::SuperMemo2 {
                    counter: 0 as i64,
                    interval: 0 as i64,
                    easiness_factor: 250 as i64,
                },
            ),
    {
        self.scheduler = Scheduler::default();
        self.next_datetime = now;
    }

    /// Reschedules the note to `now + days` without touching the scheduler
    /// state: an explicit escape hatch for manual rescheduling, which can
    /// leave `next_datetime` different from what the algorithm would have
    /// computed.
    pub fn force_next(&mut self, now: i64, days: i64) -> (r: Result<(), Error>)
        ensures
            r is Ok <==> (i64::MIN <= days * 86400 <= i64::MAX && i64::MIN <= now + days * 86400
                <= i64::MAX),
            r matches Ok(u) ==> final(self)@ == (NoteV {
                next_datetime: (now + days * 86400) as i64,
                ..old(self)@
            }),
            r is Err ==> *final(self) == *old(self) && r == Err::<(), Error>(
                Error::ArithmeticOverflow,
            ),
    {
        match add_days(now, days) {
            Some(t) => {
                self.next_datetime = t;
                Ok(())
            },
            None => Err(Error::ArithmeticOverflow),
        }
    }

    /// Commits one review of quality `response` at time `now`: the scheduler
    /// advances and `next_datetime` becomes exactly the timestamp it
    /// computed. Fails with `ArithmeticOverflow`, leaving the note unchanged,
    /// exactly when that computation leaves the representable range.
    pub fn advance(&mut self, response: u8, now: i64) -> (r: Result<i64, Error>)
        requires
            old(self)@.scheduler.is_valid(),
        ensures
            r is Ok <==> advance_fits(sm2_of(old(self)@.scheduler), response as int, now as int),
            r matches Ok(t) ==> {
                &&& final(self)@.relative_path == old(self)@.relative_path
                &&& sm2_of(final(self)@.scheduler) == sm2_step(
                    sm2_of(old(self)@.scheduler),
                    response as int,
                )
                &&& t == next_due(sm2_of(old(self)@.scheduler), response as int, now as int)
                &&& final(self)@.next_datetime == t
                &&& final(self)@.scheduler.is_valid()
            },
            r is Err ==> *final(self) == *old(self) && r == Err::<i64, Error>(
                Error::ArithmeticOverflow,
            ),
    {
        match self.scheduler.update_and_calculate_next_datetime(response, now) {
            Ok(t) => {
                self.next_datetime = t;
                Ok(t)
            },
            Err(e) => Err(e),
        }
    }
}

/// The abstract value of a [`SerializedNote`].
pub struct SerializedNoteV {
    pub relative_path: Seq<char>,
    pub next_datetime: i64,
    pub scheduler: Seq<char>,
}

/// The storage-safe projection of a note: the scheduler is held as a tagged,
/// self-describing text payload, so a reader need not know which algorithm
/// produced it.
#[derive(Debug)]
pub struct SerializedNote {
    pub relative_path: String,
    pub next_datetime: i64,
    pub scheduler: String,
}

impl View for SerializedNote {
    type V = SerializedNoteV;

    open spec fn view(&self) -> SerializedNoteV {
        SerializedNoteV {
            relative_path: self.relative_path@,
            next_datetime: self.next_datetime,
            scheduler: self.scheduler@,
        }
    }
}

impl SerializedNote {
    /// The storage projection of a note: identity and due timestamp carried
    /// over, the scheduler encoded as its tagged text.
    pub fn try_from(value: Note) -> (r: Result<SerializedNote, Error>)
        ensures
            r matches Ok(sn) ==> sn@ == (SerializedNoteV {
                relative_path: value@.relative_path,
                next_datetime: value@.next_datetime,
                scheduler: scheduler_chars(value@.scheduler),
            }),
            r is Ok,
    {
        let scheduler = encode_scheduler(&value.scheduler);
        Ok(
            SerializedNote {
                relative_path: value.relative_path,
                next_datetime: value.next_datetime,
                scheduler,
            },
        )
    }

    /// The note a storage projection stands for: succeeds exactly when the
    /// scheduler payload is the canonical encoding of a well-formed state,
    /// with `UnknownSchedulerType` for a tag no algorithm answers to and
    /// `SerializationFailure` for anything else malformed.
    pub fn try_into(self) -> (r: Result<Note, Error>)
        ensures
            r matches Ok(n) ==> n@ == (NoteV {
                relative_path: self@.relative_path,
                next_datetime: self@.next_datetime,
                scheduler: n@.scheduler,
            }) && self@.scheduler == scheduler_chars(n@.scheduler) && n@.scheduler.is_valid(),
            (exists|sc: Scheduler| sc.is_valid() && self@.scheduler == scheduler_chars(sc)) <==> r
                is Ok,
            r matches Err(e) ==> (e is UnknownSchedulerType <==> tag_of(self@.scheduler)
                != "SuperMemo2"@),
            r matches Err(e) ==> (e is UnknownSchedulerType || e is SerializationFailure),
    {
        match decode_scheduler(self.scheduler.as_str()) {
            Ok(sc) => Ok(
                Note {
                    relative_path: self.relative_path,
                    next_datetime: self.next_datetime,
                    scheduler: sc,
                },
            ),
            Err(e) => Err(e),
        }
    }
}

} // verus!
