//! The in-memory note store: idempotent create, update-if-present, the
//! ordered due query, and the `NotFound` failures.
use astronote::errors::Error;
use astronote::schedulers::sm2::SuperMemo2;
use astronote::schedulers::Scheduler;
use astronote::store::NoteDatabaseInterface;
use astronote::store::NoteStore;
use astronote::Note;

fn note(path: &str, due: i64) -> Note {
    Note {
        relative_path: String::from(path),
        next_datetime: due,
        scheduler: Scheduler::Sm2(SuperMemo2::default()),
    }
}

/// Creating the same identity twice leaves the store unchanged.
#[test]
fn create_is_idempotent() {
    let mut store = NoteStore::new();
    let id1 = store.create(&note("a.md", 10)).unwrap();
    assert_eq!(store.len(), 1);
    let id2 = store.create(&note("a.md", 999)).unwrap();
    assert_eq!(store.len(), 1);
    assert_eq!(id1, id2);
    // The stored note is the first one: the second create was a no-op.
    let stored = store.find_by_path("a.md").unwrap();
    assert_eq!(stored.next_datetime, 10);
}

/// With notes due at T-2, T-1 and T+1, the due query at T returns only the
/// first two, in that order.
#[test]
fn list_due_returns_exactly_the_due_notes() {
    let t = 1_000_000;
    let mut store = NoteStore::new();
    store.create(&note("later.md", t + 1)).unwrap();
    store.create(&note("oldest.md", t - 2)).unwrap();
    store.create(&note("older.md", t - 1)).unwrap();
    let due = store.list_due(usize::MAX, t, false);
    assert_eq!(due.len(), 2);
    assert_eq!(due[0].relative_path, "oldest.md");
    assert_eq!(due[0].next_datetime, t - 2);
    assert_eq!(due[1].relative_path, "older.md");
    assert_eq!(due[1].next_datetime, t - 1);
}

/// Ignoring the schedule surfaces every note, still ascending.
#[test]
fn list_due_ignoring_schedule_returns_all() {
    let t = 50;
    let mut store = NoteStore::new();
    store.create(&note("b.md", 70)).unwrap();
    store.create(&note("a.md", 60)).unwrap();
    let all = store.list_due(usize::MAX, t, true);
    assert_eq!(all.len(), 2);
    assert_eq!(all[0].relative_path, "a.md");
    assert_eq!(all[1].relative_path, "b.md");
    assert_eq!(store.list_due(usize::MAX, t, false).len(), 0);
}

/// The due query truncates to the requested limit, keeping the earliest.
#[test]
fn list_due_truncates_to_limit() {
    let mut store = NoteStore::new();
    for (p, d) in [("a.md", 30), ("b.md", 10), ("c.md", 20)] {
        store.create(&note(p, d)).unwrap();
    }
    let two = store.list_due(2, 100, false);
    assert_eq!(two.len(), 2);
    assert_eq!(two[0].next_datetime, 10);
    assert_eq!(two[1].next_datetime, 20);
}

/// The oldest-notes query is the schedule-ignoring due query.
#[test]
fn get_old_notes_sorts_and_truncates() {
    let mut store = NoteStore::new();
    for (p, d) in [("a.md", 5), ("b.md", 1), ("c.md", 3)] {
        store.create(&note(p, d)).unwrap();
    }
    let old = store.get_old_notes(2).unwrap();
    assert_eq!(old.len(), 2);
    assert_eq!(old[0].relative_path, "b.md");
    assert_eq!(old[1].relative_path, "c.md");
}

/// Reads fail with `NotFound` naming the identity.
#[test]
fn find_reports_not_found() {
    let store = NoteStore::new();
    match store.find_by_path("missing.md") {
        Err(Error::NotFound { identity }) => assert_eq!(identity, "missing.md"),
        other => panic!("expected NotFound, got {:?}", other),
    }
    assert!(matches!(store.find_by_id(7), Err(Error::NotFound { .. })));
}

/// Rows are found again by the id `create` returned.
#[test]
fn find_by_id_returns_the_row() {
    let mut store = NoteStore::new();
    let a = store.create(&note("a.md", 1)).unwrap();
    let b = store.create(&note("b.md", 2)).unwrap();
    assert_ne!(a, b);
    assert_eq!(store.find_by_id(a).unwrap().relative_path, "a.md");
    assert_eq!(store.find_by_id(b).unwrap().relative_path, "b.md");
}

/// Update overwrites a present identity and is a no-op on an absent one.
#[test]
fn update_is_update_if_present() {
    let mut store = NoteStore::new();
    store.create(&note("a.md", 1)).unwrap();
    store.update(&note("a.md", 42)).unwrap();
    assert_eq!(store.find_by_path("a.md").unwrap().next_datetime, 42);
    store.update(&note("absent.md", 9)).unwrap();
    assert_eq!(store.len(), 1);
    assert!(store.find_by_path("absent.md").is_err());
}

/// Delete removes a present identity and reports an absent one.
#[test]
fn delete_reports_not_found() {
    let mut store = NoteStore::new();
    store.create(&note("a.md", 1)).unwrap();
    store.delete(&note("a.md", 1)).unwrap();
    assert_eq!(store.len(), 0);
    match store.delete(&note("a.md", 1)) {
        Err(Error::NotFound { identity }) => assert_eq!(identity, "a.md"),
        other => panic!("expected NotFound, got {:?}", other),
    }
}

/// The capability interface carries the same behavior: create if absent,
/// find, update, delete, and the ordered query, through the trait.
#[test]
fn capability_interface_round() {
    let mut store = NoteStore::new();
    let id = NoteDatabaseInterface::create(&mut store, &note("x.md", 9)).unwrap();
    let again = NoteDatabaseInterface::create(&mut store, &note("x.md", 1)).unwrap();
    assert_eq!(id, again);
    let found = NoteDatabaseInterface::find_by_id(&mut store, id).unwrap();
    assert_eq!(found.next_datetime, 9);
    NoteDatabaseInterface::update(&mut store, &note("x.md", 11)).unwrap();
    let found = NoteDatabaseInterface::find_by_path(&mut store, "x.md").unwrap();
    assert_eq!(found.next_datetime, 11);
    let old = NoteDatabaseInterface::get_old_notes(&mut store, 10).unwrap();
    assert_eq!(old.len(), 1);
    NoteDatabaseInterface::delete(&mut store, &note("x.md", 11)).unwrap();
    assert!(NoteDatabaseInterface::find_by_path(&mut store, "x.md").is_err());
}
