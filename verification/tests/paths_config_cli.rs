//! Path confinement, metadata-file locations, configuration resolution,
//! command-line values, interactive input, and the read budget.
use astronote::cli::interpret_quality_input;
use astronote::cli::CommandParser;
use astronote::cli::Commands;
use astronote::cli::QualityInput;
use astronote::codec::LimitReader;
use astronote::config::Config;
use astronote::config::ConfigLayer;
use astronote::errors::Error;
use astronote::paths::confine;
use astronote::paths::get_metadata_path_from_note;
use astronote::paths::get_metadata_path_from_path;
use astronote::schedulers::Scheduler;
use astronote::Note;

/// A path under the root maps to its root-relative identity; one outside
/// fails with `OutsideRoot`.
#[test]
fn confine_yields_relative_identity() {
    assert_eq!(confine("/root/sub/file", "/root").unwrap(), "sub/file");
    match confine("/other/file", "/root") {
        Err(Error::OutsideRoot { path, root }) => {
            assert_eq!(path, "/other/file");
            assert_eq!(root, "/root");
        }
        other => panic!("expected OutsideRoot, got {:?}", other),
    }
}

#[test]
fn confine_edge_cases() {
    // A sibling whose name extends the root is outside it.
    assert!(matches!(
        confine("/rootx/file", "/root"),
        Err(Error::OutsideRoot { .. })
    ));
    // A root given with a trailing slash confines the same way.
    assert_eq!(confine("/root/sub/file", "/root/").unwrap(), "sub/file");
    assert_eq!(confine("/a", "/").unwrap(), "a");
    // The root itself names no note.
    assert!(matches!(
        confine("/root", "/root"),
        Err(Error::InvalidIdentity { .. })
    ));
    assert!(matches!(
        confine("/root/", "/root"),
        Err(Error::InvalidIdentity { .. })
    ));
}

/// Identity `a/b/c` lives at `root/a/b/c.metadata`; an extension is
/// replaced, as the metadata path of `doc.txt` shows.
#[test]
fn metadata_paths_mirror_identities() {
    assert_eq!(
        get_metadata_path_from_path("a/b/c", "/data"),
        "/data/a/b/c.metadata"
    );
    assert_eq!(
        get_metadata_path_from_path("a/doc.txt", "/data"),
        "/data/a/doc.metadata"
    );
    assert_eq!(
        get_metadata_path_from_path(".bashrc", "/data"),
        "/data/.bashrc.metadata"
    );
    assert_eq!(
        get_metadata_path_from_path("a.b/c", "/data"),
        "/data/a.b/c.metadata"
    );
    let n = Note {
        relative_path: String::from("notes/today.md"),
        next_datetime: 0,
        scheduler: Scheduler::Sm2(astronote::schedulers::sm2::SuperMemo2::default()),
    };
    assert_eq!(
        get_metadata_path_from_note(&n, "/data"),
        "/data/notes/today.metadata"
    );
}

/// With no configuration file the defaults stand and the root is the
/// working directory.
#[test]
fn config_defaults_without_layers() {
    let layers: Vec<ConfigLayer> = Vec::new();
    let c = Config::try_new(&layers, "/home/user/project").unwrap();
    assert_eq!(c.database_path, "./.astronote.db");
    assert_eq!(c.editor_command, "vim");
    assert_eq!(c.root, "/home/user/project");
}

fn layer(dir: &str) -> ConfigLayer {
    ConfigLayer {
        dir: String::from(dir),
        database_path: None,
        editor_command: None,
        root: None,
    }
}

/// The nearest configuration file wins for each value; the root defaults to
/// the directory of the nearest file.
#[test]
fn config_nearest_layer_wins() {
    let mut far = layer("/home");
    far.database_path = Some(String::from("/home/notes.db"));
    far.editor_command = Some(String::from("nano"));
    let mut near = layer("/home/user");
    near.editor_command = Some(String::from("emacs"));
    let layers = vec![far, near];
    let c = Config::try_new(&layers, "/home/user/deep").unwrap();
    assert_eq!(c.database_path, "/home/notes.db");
    assert_eq!(c.editor_command, "emacs");
    assert_eq!(c.root, "/home/user");
}

/// An absolute `root` in a file is taken as is; a relative one is joined
/// to the directory of the file that set it.
#[test]
fn config_root_setting_wins() {
    let mut a = layer("/home");
    a.root = Some(String::from("/srv/notes"));
    let c = Config::try_new(&vec![a], "/home").unwrap();
    assert_eq!(c.root, "/srv/notes");

    let mut b = layer("/home/user");
    b.root = Some(String::from("../../usr/"));
    let c = Config::try_new(&vec![b], "/home/user").unwrap();
    assert_eq!(c.root, "/home/user/../../usr/");
}

/// The default configuration values.
#[test]
fn config_default_values() {
    let c = Config::default();
    assert_eq!(c.database_path, "./.astronote.db");
    assert_eq!(c.editor_command, "vim");
    assert_eq!(c.root, "./");
}

/// The command line's database path wins only when it was given.
#[test]
fn database_path_falls_back() {
    let with = CommandParser {
        subcommand: Commands::Review { num: Some(3), ignore_schedule: None },
        database_path: Some(String::from("./db")),
    };
    assert_eq!(with.database_path().unwrap(), "./db");
    let without = CommandParser {
        subcommand: Commands::Add { files: vec![String::from("a.md")] },
        database_path: None,
    };
    assert!(matches!(
        without.database_path(),
        Err(Error::StorageIOFailure { .. })
    ));
}

/// Only the first character of review input counts.
#[test]
fn quality_input_interpretation() {
    assert_eq!(interpret_quality_input(""), QualityInput::Empty);
    assert_eq!(interpret_quality_input("h"), QualityInput::Help);
    assert_eq!(interpret_quality_input("help me"), QualityInput::Help);
    assert_eq!(interpret_quality_input("n"), QualityInput::Preview);
    assert_eq!(interpret_quality_input("0"), QualityInput::Quality(0));
    assert_eq!(interpret_quality_input("4"), QualityInput::Quality(4));
    assert_eq!(interpret_quality_input("6"), QualityInput::Quality(6));
    assert_eq!(interpret_quality_input("7"), QualityInput::Invalid);
    assert_eq!(interpret_quality_input("x"), QualityInput::Invalid);
}

/// The read budget refuses a chunk over what is left, and charges what it
/// accepts.
#[test]
fn limit_reader_caps_reads() {
    let mut r = LimitReader::new(10);
    assert!(r.check(10));
    assert!(!r.check(11));
    r.consume(4).unwrap();
    r.consume(6).unwrap();
    assert!(matches!(r.consume(1), Err(Error::StorageIOFailure { .. })));
}

/// Construction, reset and the manual escape hatch.
#[test]
fn note_lifecycle_operations() {
    let mut n = Note::new_default("a.md", 500);
    assert_eq!(n.next_datetime, 500);
    n.advance(5, 500).unwrap();
    assert_eq!(n.next_datetime, 500 + 86400);
    // Reset is destructive: a fresh default state, due now.
    n.reset(900);
    assert_eq!(n.next_datetime, 900);
    assert_eq!(n.scheduler, Scheduler::default());
    // force_next bypasses the algorithm without touching its state.
    n.force_next(1000, 3).unwrap();
    assert_eq!(n.next_datetime, 1000 + 3 * 86400);
    assert_eq!(n.scheduler, Scheduler::default());
    assert!(matches!(
        n.force_next(i64::MAX, 2),
        Err(Error::ArithmeticOverflow)
    ));
}
