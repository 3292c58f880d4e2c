//! The note store: durable CRUD plus an ordered "due" query, specified over
//! an abstract sequence of entries. This in-memory store is the reference
//! implementation of the contract that every backend must honor: create is
//! "create if absent", update is "update if present", reads fail with
//! `NotFound`, and the due query returns exactly the due notes, ascending.
use vstd::prelude::*;

use vstd::multiset::Multiset;

use crate::codec::str_eq;
use crate::errors::Error;
use crate::Note;
use crate::NoteV;

verus! {

broadcast use vstd::seq_lib::group_to_multiset_ensures;

/// The abstract value of one stored row: a numeric id and the note.
pub struct EntryV {
    pub id: i64,
    pub note: NoteV,
}

/// One stored row.
#[derive(Debug)]
pub struct StoreEntry {
    pub id: i64,
    pub note: Note,
}

impl View for StoreEntry {
    type V = EntryV;

    open spec fn view(&self) -> EntryV {
        EntryV { id: self.id, note: self.note@ }
    }
}

/// The abstract value of a store: its rows in insertion order, and the id
/// the next inserted row receives.
pub struct StoreV {
    pub entries: Seq<EntryV>,
    pub next_id: i64,
}

/// Whether a row with this identity exists.
pub open spec fn has_path(s: Seq<EntryV>, path: Seq<char>) -> bool {
    exists|i: int| 0 <= i < s.len() && s[i].note.relative_path == path
}

/// The index of the row with this identity (unique in a well-formed store).
pub open spec fn index_of_path(s: Seq<EntryV>, path: Seq<char>) -> int {
    choose|i: int| 0 <= i < s.len() && s[i].note.relative_path == path
}

/// Whether a row with this id exists.
pub open spec fn has_id(s: Seq<EntryV>, id: i64) -> bool {
    exists|i: int| 0 <= i < s.len() && s[i].id == id
}

/// The index of the row with this id (unique in a well-formed store).
pub open spec fn index_of_id(s: Seq<EntryV>, id: i64) -> int {
    choose|i: int| 0 <= i < s.len() && s[i].id == id
}

/// Store well-formedness: exactly one row per identity, one row per id, and
/// every id below the next one to hand out.
pub open spec fn store_wf(v: StoreV) -> bool {
    &&& forall|i: int, j: int|
        0 <= i < v.entries.len() && 0 <= j < v.entries.len() && i != j
            ==> v.entries[i].note.relative_path != v.entries[j].note.relative_path
    &&& forall|i: int, j: int|
        0 <= i < v.entries.len() && 0 <= j < v.entries.len() && i != j ==> v.entries[i].id
            != v.entries[j].id
    &&& forall|i: int| 0 <= i < v.entries.len() ==> #[trigger] v.entries[i].id < v.next_id
}

/// What `create` does to a store: nothing if the identity already exists,
/// else a fresh row under the next id.
pub open spec fn create_transition(v: StoreV, n: NoteV) -> StoreV {
    if has_path(v.entries, n.relative_path) {
        v
    } else {
        StoreV {
            entries: v.entries.push(EntryV { id: v.next_id, note: n }),
            next_id: (v.next_id + 1) as i64,
        }
    }
}

/// Creating a note a second time under the same identity changes nothing:
/// `create` is idempotent per identity, whatever the rest of the store holds.
pub proof fn lemma_create_idempotent(v: StoreV, n: NoteV)
    ensures
        create_transition(create_transition(v, n), n) == create_transition(v, n),
{
    let v1 = create_transition(v, n);
    if !has_path(v.entries, n.relative_path) {
        assert(v1.entries.last().note.relative_path == n.relative_path);
        assert(has_path(v1.entries, n.relative_path));
    }
}

/// The notes of the rows, in row order.
pub open spec fn notes_of(s: Seq<EntryV>) -> Seq<NoteV> {
    s.map_values(|e: EntryV| e.note)
}

/// The views of a sequence of notes.
pub open spec fn views_of(s: Seq<Note>) -> Seq<NoteV> {
    s.map_values(|n: Note| n@)
}

/// Whether a note is due at `now`, or surfaced regardless of schedule.
pub open spec fn is_due(n: NoteV, now: i64, ignore_schedule: bool) -> bool {
    ignore_schedule || n.next_datetime <= now
}

/// The due notes among the rows, in row order.
pub open spec fn due_filter(s: Seq<EntryV>, now: i64, ignore_schedule: bool) -> Seq<NoteV>
    decreases s.len(),
{
    if s.len() == 0 {
        Seq::<NoteV>::empty()
    } else {
        let rest = due_filter(s.drop_last(), now, ignore_schedule);
        if is_due(s.last().note, now, ignore_schedule) {
            rest.push(s.last().note)
        } else {
            rest
        }
    }
}

/// Ascending by due timestamp.
pub open spec fn sorted_by_due(s: Seq<NoteV>) -> bool {
    forall|i: int, j: int| 0 <= i < j < s.len() ==> s[i].next_datetime <= s[j].next_datetime
}

/// A note cloned field by field.
pub fn clone_note(n: &Note) -> (r: Note)
    ensures
        r@ == n@,
{
    Note {
        relative_path: n.relative_path.clone(),
        next_datetime: n.next_datetime,
        scheduler: n.scheduler,
    }
}

/// The in-memory store: rows in insertion order, identities unique.
#[derive(Debug)]
pub struct NoteStore {
    entries: Vec<StoreEntry>,
    next_id: i64,
}

impl View for NoteStore {
    type V = StoreV;

    closed spec fn view(&self) -> StoreV {
        StoreV {
            entries: self.entries@.map_values(|e: StoreEntry| e@),
            next_id: self.next_id,
        }
    }
}

impl NoteStore {
    /// Whether this store upholds its row invariants.
    pub open spec fn wf(&self) -> bool {
        store_wf(self@)
    }

    /// An empty store.
    pub fn new() -> (r: Self)
        ensures
            r@.entries.len() == 0,
            r@.next_id == 1,
            r.wf(),
    {
        let r = NoteStore { entries: Vec::new(), next_id: 1 };
        proof {
            assert(r@.entries =~= Seq::<EntryV>::empty());
        }
        r
    }

    /// How many rows the store holds.
    pub fn len(&self) -> (r: usize)
        ensures
            r == self@.entries.len(),
    {
        self.entries.len()
    }

    /// The index of the row with this identity, if any.
    fn find_index_by_path(&self, path: &str) -> (r: Option<usize>)
        ensures
            r matches Some(i) ==> i < self@.entries.len()
                && self@.entries[i as int].note.relative_path == path@,
            r is None ==> !has_path(self@.entries, path@),
    {
        let n = self.entries.len();
        let mut i: usize = 0;
        while i < n
            invariant
                i <= n == self.entries.len(),
                forall|j: int| 0 <= j < i ==> self@.entries[j].note.relative_path != path@,
            decreases n - i,
        {
            if str_eq(self.entries[i].note.relative_path.as_str(), path) {
                return Some(i);
            }
            i += 1;
        }
        None
    }

    /// Persists a new note: a no-op returning the existing row's id if the
    /// identity is already present ("create if absent"), else a fresh row.
    /// Fails, leaving the store unchanged, only when the id space is
    /// exhausted.
    pub fn create(&mut self, note: &Note) -> (r: Result<i64, Error>)
        requires
            old(self).wf(),
        ensures
            final(self).wf(),
            r matches Ok(id) ==> final(self)@ == create_transition(old(self)@, note@),
            r matches Ok(id) ==> (has_path(old(self)@.entries, note@.relative_path) ==> id
                == old(self)@.entries[index_of_path(old(self)@.entries, note@.relative_path)].id),
            r matches Ok(id) ==> (!has_path(old(self)@.entries, note@.relative_path) ==> id
                == old(self)@.next_id),
            r is Ok <==> (has_path(old(self)@.entries, note@.relative_path) || old(self)@.next_id
                < i64::MAX),
            r is Err ==> *final(self) == *old(self) && (r matches Err(e) && e
                is StorageIOFailure),
    {
        match self.find_index_by_path(note.relative_path.as_str()) {
            Some(i) => {
                proof {
                    let ghost p = note@.relative_path;
                    assert(has_path(self@.entries, p));
                    assert(index_of_path(self@.entries, p) == i) by {
                        let k = index_of_path(self@.entries, p);
                        assert(self@.entries[k].note.relative_path == p);
                    }
                }
                Ok(self.entries[i].id)
            },
            None => {
                if self.next_id == i64::MAX {
                    return Err(
                        Error::StorageIOFailure {
                            detail: String::from_str("store id space exhausted"),
                        },
                    );
                }
                let id = self.next_id;
                self.entries.push(StoreEntry { id, note: clone_note(note) });
                self.next_id = id + 1;
                proof {
                    assert(self@.entries =~= old(self)@.entries.push(
                        EntryV { id, note: note@ },
                    ));
                    assert(final(self)@ == create_transition(old(self)@, note@));
                }
                Ok(id)
            },
        }
    }

    /// Overwrites the stored note matching this identity, keeping its id; a
    /// no-op if the identity is absent ("update if present").
    pub fn update(&mut self, note: &Note) -> (r: Result<(), Error>)
        requires
            old(self).wf(),
        ensures
            final(self).wf(),
            r is Ok,
            has_path(old(self)@.entries, note@.relative_path) ==> final(self)@ == (StoreV {
                entries: old(self)@.entries.update(
                    index_of_path(old(self)@.entries, note@.relative_path),
                    EntryV {
                        id: old(self)@.entries[index_of_path(
                            old(self)@.entries,
                            note@.relative_path,
                        )].id,
                        note: note@,
                    },
                ),
                next_id: old(self)@.next_id,
            }),
            !has_path(old(self)@.entries, note@.relative_path) ==> *final(self) == *old(self),
    {
        match self.find_index_by_path(note.relative_path.as_str()) {
            Some(i) => {
                proof {
                    let ghost p = note@.relative_path;
                    assert(has_path(self@.entries, p));
                    assert(index_of_path(self@.entries, p) == i) by {
                        let k = index_of_path(self@.entries, p);
                        assert(self@.entries[k].note.relative_path == p);
                    }
                }
                let id = self.entries[i].id;
                self.entries.set(i, StoreEntry { id, note: clone_note(note) });
                proof {
                    assert(self@.entries =~= old(self)@.entries.update(
                        i as int,
                        EntryV { id, note: note@ },
                    ));
                }
                Ok(())
            },
            None => Ok(()),
        }
    }

    /// The stored note with this identity; `NotFound` if absent.
    pub fn find_by_path(&self, path: &str) -> (r: Result<Note, Error>)
        requires
            self.wf(),
        ensures
            r is Ok <==> has_path(self@.entries, path@),
            r matches Ok(n) ==> n@ == self@.entries[index_of_path(self@.entries, path@)].note,
            r matches Err(e) ==> e matches Error::NotFound { identity } && identity@ == path@,
    {
        match self.find_index_by_path(path) {
            Some(i) => {
                proof {
                    assert(has_path(self@.entries, path@));
                    assert(self@.entries[index_of_path(self@.entries, path@)].note.relative_path
                        == path@);
                }
                let n = clone_note(&self.entries[i].note);
                proof {
                    let k = index_of_path(self@.entries, path@);
                    if k != i {
                        assert(self@.entries[k].note.relative_path != self@.entries[
                            i as int
                        ].note.relative_path);
                    }
                }
                Ok(n)
            },
            None => Err(Error::NotFound { identity: String::from_str(path) }),
        }
    }

    /// The stored note with this id; `NotFound` if absent.
    pub fn find_by_id(&self, id: i64) -> (r: Result<Note, Error>)
        requires
            self.wf(),
        ensures
            r is Ok <==> has_id(self@.entries, id),
            r matches Ok(n) ==> n@ == self@.entries[index_of_id(self@.entries, id)].note,
            r matches Err(e) ==> e is NotFound,
    {
        let n = self.entries.len();
        let mut i: usize = 0;
        while i < n
            invariant
                self.wf(),
                i <= n == self.entries.len(),
                forall|j: int| 0 <= j < i ==> self@.entries[j].id != id,
            decreases n - i,
        {
            if self.entries[i].id == id {
                let found = clone_note(&self.entries[i].note);
                proof {
                    assert(self@.entries[i as int].id == id);
                    assert(has_id(self@.entries, id));
                    let k = index_of_id(self@.entries, id);
                    assert(self@.entries[k].id == id);
                    if k != i {
                        assert(self@.entries[k].id != self@.entries[i as int].id);
                    }
                }
                return Ok(found);
            }
            i += 1;
        }
        let digits = crate::codec::i64_to_string(id);
        let mut msg = String::from_str("id ");
        msg.append(digits.as_str());
        Err(Error::NotFound { identity: msg })
    }

    /// Removes the stored note matching this note's identity; `NotFound`,
    /// with the store unchanged, if it is absent.
    pub fn delete(&mut self, note: &Note) -> (r: Result<(), Error>)
        requires
            old(self).wf(),
        ensures
            final(self).wf(),
            r is Ok <==> has_path(old(self)@.entries, note@.relative_path),
            r is Ok ==> final(self)@ == (StoreV {
                entries: old(self)@.entries.remove(
                    index_of_path(old(self)@.entries, note@.relative_path),
                ),
                next_id: old(self)@.next_id,
            }),
            r matches Err(e) ==> *final(self) == *old(self) && (e matches Error::NotFound {
                identity,
            } && identity@ == note@.relative_path),
    {
        match self.find_index_by_path(note.relative_path.as_str()) {
            Some(i) => {
                proof {
                    let ghost p = note@.relative_path;
                    assert(has_path(self@.entries, p));
                    assert(index_of_path(self@.entries, p) == i) by {
                        let k = index_of_path(self@.entries, p);
                        assert(self@.entries[k].note.relative_path == p);
                    }
                }
                self.entries.remove(i);
                proof {
                    assert(self@.entries =~= old(self)@.entries.remove(i as int));
                }
                Ok(())
            },
            None => Err(
                Error::NotFound { identity: clone_note(note).relative_path },
            ),
        }
    }
}

/// Mapping to views commutes with push.
proof fn lemma_views_push(s: Seq<Note>, n: Note)
    ensures
        views_of(s.push(n)) =~= views_of(s).push(n@),
{
    assert forall|j: int| 0 <= j < s.len() + 1 implies views_of(s.push(n))[j] == views_of(
        s,
    ).push(n@)[j] by {
        if j < s.len() {
            assert(s.push(n)[j] == s[j]);
        }
    }
}

/// Mapping to views commutes with remove.
proof fn lemma_views_remove(s: Seq<Note>, i: int)
    requires
        0 <= i < s.len(),
    ensures
        views_of(s.remove(i)) =~= views_of(s).remove(i),
{
    assert forall|j: int| 0 <= j < s.len() - 1 implies views_of(s.remove(i))[j] == views_of(
        s,
    ).remove(i)[j] by {
        if j < i {
            assert(s.remove(i)[j] == s[j]);
        } else {
            assert(s.remove(i)[j] == s[j + 1]);
        }
    }
}

/// Mapping to views commutes with subrange.
proof fn lemma_views_subrange(s: Seq<Note>, a: int, b: int)
    requires
        0 <= a <= b <= s.len(),
    ensures
        views_of(s.subrange(a, b)) =~= views_of(s).subrange(a, b),
{
    assert forall|j: int| 0 <= j < b - a implies views_of(s.subrange(a, b))[j] == views_of(
        s,
    ).subrange(a, b)[j] by {
        assert(s.subrange(a, b)[j] == s[a + j]);
    }
}

/// One step of the due filter, for walking the rows front to back.
proof fn lemma_due_filter_step(s: Seq<EntryV>, i: int, now: i64, ignore_schedule: bool)
    requires
        0 <= i < s.len(),
    ensures
        due_filter(s.subrange(0, i + 1), now, ignore_schedule) == if is_due(
            s[i].note,
            now,
            ignore_schedule,
        ) {
            due_filter(s.subrange(0, i), now, ignore_schedule).push(s[i].note)
        } else {
            due_filter(s.subrange(0, i), now, ignore_schedule)
        },
{
    let w = s.subrange(0, i + 1);
    assert(w.drop_last() =~= s.subrange(0, i));
    assert(w.last() == s[i]);
}

/// Ignoring the schedule, the due filter keeps every note.
proof fn lemma_due_filter_ignore(s: Seq<EntryV>, now: i64)
    ensures
        due_filter(s, now, true) == notes_of(s),
    decreases s.len(),
{
    if s.len() == 0 {
        assert(due_filter(s, now, true) =~= notes_of(s));
    } else {
        lemma_due_filter_ignore(s.drop_last(), now);
        assert(notes_of(s) =~= notes_of(s.drop_last()).push(s.last().note));
        assert(due_filter(s, now, true) =~= notes_of(s));
    }
}

impl NoteStore {
    /// The notes due at `now` (or all notes, if the schedule is ignored),
    /// ascending by due timestamp, truncated to `limit`: exactly the due
    /// rows, as the returned sequence is a prefix of some ascending
    /// rearrangement of them all.
    pub fn list_due(&self, limit: usize, now: i64, ignore_schedule: bool) -> (r: Vec<Note>)
        ensures
            ({
                let due = due_filter(self@.entries, now, ignore_schedule);
                let k = if limit <= due.len() {
                    limit as int
                } else {
                    due.len() as int
                };
                &&& r@.len() == k
                &&& exists|sorted: Seq<NoteV>|
                    sorted.to_multiset() == due.to_multiset() && sorted_by_due(sorted)
                        && views_of(r@) == sorted.subrange(0, k)
            }),
    {
        let ghost due = due_filter(self@.entries, now, ignore_schedule);
        let n = self.entries.len();
        let mut acc: Vec<Note> = Vec::new();
        let mut i: usize = 0;
        while i < n
            invariant
                i <= n == self.entries.len(),
                due == due_filter(self@.entries, now, ignore_schedule),
                views_of(acc@) == due_filter(
                    self@.entries.subrange(0, i as int),
                    now,
                    ignore_schedule,
                ),
            decreases n - i,
        {
            proof {
                lemma_due_filter_step(self@.entries, i as int, now, ignore_schedule);
            }
            let ghost acc0 = acc@;
            let due_now = ignore_schedule || self.entries[i].note.next_datetime <= now;
            if due_now {
                let c = clone_note(&self.entries[i].note);
                acc.push(c);
                proof {
                    lemma_views_push(acc0, c);
                    assert(views_of(acc@) =~= views_of(acc0).push(c@));
                }
            }
            i += 1;
        }
        proof {
            assert(self@.entries.subrange(0, n as int) =~= self@.entries);
            assert(views_of(acc@) == due);
        }
        // Sort ascending by selecting a least-due note at a time.
        let mut remaining = acc;
        let mut out: Vec<Note> = Vec::new();
        proof {
            assert(views_of(out@) =~= Seq::<NoteV>::empty());
            assert(views_of(out@).to_multiset().add(views_of(remaining@).to_multiset())
                =~= due.to_multiset());
        }
        while remaining.len() > 0
            invariant
                views_of(out@).to_multiset().add(views_of(remaining@).to_multiset())
                    == due.to_multiset(),
                out@.len() + remaining@.len() == due.len(),
                sorted_by_due(views_of(out@)),
                forall|a: int, b: int|
                    0 <= a < out@.len() && 0 <= b < remaining@.len() ==> views_of(
                        out@,
                    )[a].next_datetime <= views_of(remaining@)[b].next_datetime,
            decreases remaining.len(),
        {
            let mut m: usize = 0;
            let mut j: usize = 1;
            while j < remaining.len()
                invariant
                    m < j <= remaining@.len(),
                    forall|k: int|
                        0 <= k < j ==> remaining@[m as int]@.next_datetime
                            <= remaining@[k]@.next_datetime,
                decreases remaining@.len() - j,
            {
                if remaining[j].next_datetime < remaining[m].next_datetime {
                    m = j;
                }
                j += 1;
            }
            let ghost out0 = out@;
            let ghost rem0 = remaining@;
            let x = remaining.remove(m);
            out.push(x);
            proof {
                lemma_views_remove(rem0, m as int);
                lemma_views_push(out0, x);
                let ov = views_of(out0);
                let rv = views_of(rem0);
                assert(rv[m as int] == x@);
                assert(rv.contains(x@));
                assert(views_of(out@) =~= ov.push(x@));
                assert(views_of(remaining@) =~= rv.remove(m as int));
                assert(views_of(out@).to_multiset() =~= ov.to_multiset().insert(x@));
                assert(views_of(remaining@).to_multiset() =~= rv.to_multiset().remove(x@));
                assert(rv.to_multiset().count(x@) >= 1);
                assert(views_of(out@).to_multiset().add(views_of(remaining@).to_multiset())
                    =~= ov.to_multiset().add(rv.to_multiset()));
                assert forall|a: int, b: int|
                    0 <= a < out@.len() && 0 <= b < remaining@.len() implies views_of(
                    out@,
                )[a].next_datetime <= views_of(remaining@)[b].next_datetime by {
                    let rb = if b < m {
                        b
                    } else {
                        b + 1
                    };
                    assert(views_of(remaining@)[b] == rv[rb]);
                    if a < out0.len() {
                        assert(views_of(out@)[a] == ov[a]);
                    } else {
                        assert(views_of(out@)[a] == x@);
                        assert(rv[m as int].next_datetime <= rv[rb].next_datetime);
                    }
                }
                assert(sorted_by_due(views_of(out@))) by {
                    assert forall|a: int, b: int|
                        0 <= a < b < views_of(out@).len() implies views_of(
                        out@,
                    )[a].next_datetime <= views_of(out@)[b].next_datetime by {
                        if b < out0.len() {
                            assert(views_of(out@)[a] == ov[a] && views_of(out@)[b] == ov[b]);
                        } else {
                            assert(views_of(out@)[b] == x@);
                            assert(views_of(out@)[a] == ov[a]);
                            assert(ov[a].next_datetime <= rv[m as int].next_datetime);
                        }
                    }
                }
            }
        }
        proof {
            assert(views_of(remaining@) =~= Seq::<NoteV>::empty());
            assert(views_of(remaining@).to_multiset() =~= Multiset::<NoteV>::empty());
            assert(views_of(out@).to_multiset() =~= due.to_multiset());
            assert(views_of(out@).to_multiset().len() == due.to_multiset().len());
            assert(views_of(out@).len() == due.len());
        }
        let ghost full = views_of(out@);
        let ghost k: int = if limit <= due.len() {
            limit as int
        } else {
            due.len() as int
        };
        let ghost before = out@;
        if out.len() > limit {
            out.truncate(limit);
            proof {
                lemma_views_subrange(before, 0, limit as int);
            }
        }
        proof {
            if out@.len() < full.len() {
                assert(views_of(out@) =~= full.subrange(0, k));
            } else {
                assert(views_of(out@) =~= full.subrange(0, k));
            }
            assert(full.to_multiset() == due.to_multiset() && sorted_by_due(full) && views_of(
                out@,
            ) == full.subrange(0, k));
        }
        out
    }

    /// The oldest `size` notes by due timestamp, schedule ignored: an
    /// ascending prefix of some ascending rearrangement of all rows.
    pub fn get_old_notes(&self, size: usize) -> (r: Result<Vec<Note>, Error>)
        ensures
            r is Ok,
            r matches Ok(v) ==> ({
                let all = notes_of(self@.entries);
                let k = if size <= all.len() {
                    size as int
                } else {
                    all.len() as int
                };
                &&& v@.len() == k
                &&& exists|sorted: Seq<NoteV>|
                    sorted.to_multiset() == all.to_multiset() && sorted_by_due(sorted)
                        && views_of(v@) == sorted.subrange(0, k)
            }),
    {
        let v = self.list_due(size, 0, true);
        proof {
            lemma_due_filter_ignore(self@.entries, 0);
        }
        Ok(v)
    }
}

/// The capability interface of a durable note store: CRUD plus the ordered
/// "old notes" query, specified over the abstract rows the store holds.
/// Every backend must honor these contracts; [`NoteStore`] is the reference
/// implementation.
pub trait NoteDatabaseInterface: Sized {
    /// The rows this store holds, in insertion order.
    spec fn rows(&self) -> Seq<EntryV>;

    /// The store's internal invariants.
    spec fn inv(&self) -> bool;

    /// Create if absent: an existing identity makes this a no-op that
    /// reports the existing row's id.
    fn create(&mut self, item: &Note) -> (r: Result<i64, Error>)
        requires
            old(self).inv(),
        ensures
            final(self).inv(),
            has_path(old(self).rows(), item@.relative_path) ==> final(self).rows()
                == old(self).rows(),
            r matches Ok(id) ==> (has_path(old(self).rows(), item@.relative_path) ==> id
                == old(self).rows()[index_of_path(old(self).rows(), item@.relative_path)].id),
            r matches Ok(id) ==> (!has_path(old(self).rows(), item@.relative_path)
                ==> final(self).rows() == old(self).rows().push(EntryV { id, note: item@ })
                && !has_id(old(self).rows(), id)),
            r is Err ==> final(self).rows() == old(self).rows(),
    ;

    /// The stored note with this identity; `NotFound` if absent.
    fn find_by_path(&mut self, path: &str) -> (r: Result<Note, Error>)
        requires
            old(self).inv(),
        ensures
            final(self).inv(),
            final(self).rows() == old(self).rows(),
            r is Ok <==> has_path(old(self).rows(), path@),
            r matches Ok(n) ==> n@ == old(self).rows()[index_of_path(
                old(self).rows(),
                path@,
            )].note,
            r matches Err(e) ==> e is NotFound,
    ;

    /// The stored note with this id; `NotFound` if absent.
    fn find_by_id(&mut self, id: i64) -> (r: Result<Note, Error>)
        requires
            old(self).inv(),
        ensures
            final(self).inv(),
            final(self).rows() == old(self).rows(),
            r is Ok <==> has_id(old(self).rows(), id),
            r matches Ok(n) ==> n@ == old(self).rows()[index_of_id(old(self).rows(), id)].note,
            r matches Err(e) ==> e is NotFound,
    ;

    /// Update if present: an absent identity makes this a no-op.
    fn update(&mut self, item: &Note) -> (r: Result<(), Error>)
        requires
            old(self).inv(),
        ensures
            final(self).inv(),
            r is Ok,
            has_path(old(self).rows(), item@.relative_path) ==> final(self).rows()
                == old(self).rows().update(
                index_of_path(old(self).rows(), item@.relative_path),
                EntryV {
                    id: old(self).rows()[index_of_path(old(self).rows(), item@.relative_path)].id,
                    note: item@,
                },
            ),
            !has_path(old(self).rows(), item@.relative_path) ==> final(self).rows()
                == old(self).rows(),
    ;

    /// Removes the row matching this note's identity; `NotFound` if absent.
    fn delete(&mut self, item: &Note) -> (r: Result<(), Error>)
        requires
            old(self).inv(),
        ensures
            final(self).inv(),
            r is Ok <==> has_path(old(self).rows(), item@.relative_path),
            r is Ok ==> final(self).rows() == old(self).rows().remove(
                index_of_path(old(self).rows(), item@.relative_path),
            ),
            r is Err ==> final(self).rows() == old(self).rows(),
            r matches Err(e) ==> e is NotFound,
    ;

    /// The oldest `size` notes by due timestamp, ascending.
    fn get_old_notes(&mut self, size: usize) -> (r: Result<Vec<Note>, Error>)
        requires
            old(self).inv(),
        ensures
            final(self).inv(),
            final(self).rows() == old(self).rows(),
            r is Ok,
            r matches Ok(v) ==> ({
                let all = notes_of(old(self).rows());
                let k = if size <= all.len() {
                    size as int
                } else {
                    all.len() as int
                };
                &&& v@.len() == k
                &&& exists|sorted: Seq<NoteV>|
                    sorted.to_multiset() == all.to_multiset() && sorted_by_due(sorted)
                        && views_of(v@) == sorted.subrange(0, k)
            }),
    ;
}

impl NoteDatabaseInterface for NoteStore {
    open spec fn rows(&self) -> Seq<EntryV> {
        self@.entries
    }

    open spec fn inv(&self) -> bool {
        self.wf()
    }

    fn create(&mut self, item: &Note) -> (r: Result<i64, Error>) {
        NoteStore::create(self, item)
    }

    fn find_by_path(&mut self, path: &str) -> (r: Result<Note, Error>) {
        NoteStore::find_by_path(self, path)
    }

    fn find_by_id(&mut self, id: i64) -> (r: Result<Note, Error>) {
        NoteStore::find_by_id(self, id)
    }

    fn update(&mut self, item: &Note) -> (r: Result<(), Error>) {
        NoteStore::update(self, item)
    }

    fn delete(&mut self, item: &Note) -> (r: Result<(), Error>) {
        NoteStore::delete(self, item)
    }

    fn get_old_notes(&mut self, size: usize) -> (r: Result<Vec<Note>, Error>) {
        NoteStore::get_old_notes(self, size)
    }
}

} // verus!
