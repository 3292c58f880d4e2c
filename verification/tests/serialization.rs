//! Round trips through the tagged scheduler payload and the line-based
//! metadata text, and the failure taxonomy of decoding.
use astronote::codec::decode_note;
use astronote::codec::decode_scheduler;
use astronote::codec::encode_note;
use astronote::codec::encode_scheduler;
use astronote::codec::i64_to_string;
use astronote::errors::Error;
use astronote::schedulers::sm2::SuperMemo2;
use astronote::schedulers::Scheduler;
use astronote::Note;
use astronote::SerializedNote;

#[test]
fn serialize_note() {
    let note = Note {
        relative_path: String::from("test"),
        next_datetime: 0,
        scheduler: Scheduler::Sm2(SuperMemo2::new(3, 7, 421)),
    };

    let serialized_note: SerializedNote = SerializedNote::try_from(note).unwrap();
    let _deserialized_note: Note = serialized_note.try_into().unwrap();
}

/// Decoding an encoded note gives the note back, and encoding a decoded
/// text gives the text back, for distinct scheduler states.
#[test]
fn note_round_trip_both_directions() {
    for (c, i, ef) in [(0i64, 0i64, 250i64), (4, 15, 236), (12, 3650, 130)] {
        let note = Note {
            relative_path: String::from("sub/chapter one.md"),
            next_datetime: -12345,
            scheduler: Scheduler::Sm2(SuperMemo2::new(c, i, ef)),
        };
        let sn = SerializedNote::try_from(note).unwrap();
        let text = encode_note(&sn).unwrap();
        let decoded = decode_note(text.as_str()).unwrap();
        assert_eq!(decoded.relative_path, "sub/chapter one.md");
        assert_eq!(decoded.next_datetime, -12345);
        assert_eq!(decoded.scheduler, sn.scheduler);
        // serialize(deserialize(text)) == text
        let re_encoded = encode_note(&decoded).unwrap();
        assert_eq!(re_encoded, text);
        let back: Note = decoded.try_into().unwrap();
        assert_eq!(back.scheduler, Scheduler::Sm2(SuperMemo2::new(c, i, ef)));
    }
}

/// The scheduler payload round trips on its own, both directions.
#[test]
fn scheduler_round_trip_both_directions() {
    for (c, i, ef) in [(0i64, 0i64, 250i64), (7, 123, 309)] {
        let sc = Scheduler::Sm2(SuperMemo2::new(c, i, ef));
        let text = encode_scheduler(&sc);
        let decoded = decode_scheduler(text.as_str()).unwrap();
        assert_eq!(decoded, sc);
        assert_eq!(encode_scheduler(&decoded), text);
    }
}

/// The payload text is the documented tagged form.
#[test]
fn scheduler_payload_shape() {
    let sc = Scheduler::Sm2(SuperMemo2::new(3, 6, 250));
    assert_eq!(encode_scheduler(&sc), "SuperMemo2 3 6 250");
    assert_eq!(i64_to_string(-42), "-42");
    assert_eq!(i64_to_string(0), "0");
    assert_eq!(i64_to_string(i64::MIN), "-9223372036854775808");
}

/// A tag no algorithm answers to is `UnknownSchedulerType`, and the tag is
/// reported.
#[test]
fn unknown_tag_is_reported() {
    let r = decode_scheduler("Leitner 1 2 3");
    match r {
        Err(Error::UnknownSchedulerType { tag }) => assert_eq!(tag, "Leitner"),
        other => panic!("expected an unknown scheduler tag, got {:?}", other),
    }
    let msg = Error::UnknownSchedulerType { tag: String::from("Leitner") }.message();
    assert_eq!(msg, "Unknown scheduler type: Leitner");
}

/// Malformed payloads under the right tag are `SerializationFailure`: the
/// strict parser takes only the canonical form.
#[test]
fn malformed_payloads_are_rejected() {
    for text in [
        "SuperMemo2",
        "SuperMemo2 1 2",
        "SuperMemo2 1 2 3 4",
        "SuperMemo2 01 2 3",
        "SuperMemo2 1 -2 3",
        "SuperMemo2 1 2 3 ",
        "SuperMemo2 -0 2 3",
        "SuperMemo2 1 2 x",
        "SuperMemo2 99999999999999999999 2 3",
    ] {
        assert!(
            matches!(decode_scheduler(text), Err(Error::SerializationFailure { .. })),
            "accepted: {text}"
        );
    }
}

/// The metadata frame round trips, and its parser is strict too.
#[test]
fn metadata_frame_round_trip() {
    let sn = SerializedNote {
        relative_path: String::from("a/b.md"),
        next_datetime: 777,
        scheduler: String::from("SuperMemo2 0 0 250"),
    };
    let text = encode_note(&sn).unwrap();
    assert_eq!(
        text,
        "astronote 1\npath a/b.md\ndue 777\nscheduler SuperMemo2 0 0 250\n"
    );
    let decoded = decode_note(text.as_str()).unwrap();
    assert_eq!(decoded.relative_path, "a/b.md");
    assert_eq!(decoded.next_datetime, 777);
    assert_eq!(decoded.scheduler, "SuperMemo2 0 0 250");
    for bad in [
        "",
        "astronote 1\npath a\ndue 1\nscheduler x",
        "astronote 1\npath a\ndue 1\nscheduler x\n\n",
        "astronote 2\npath a\ndue 1\nscheduler x\n",
        "astronote 1\npath a\ndue 01\nscheduler x\n",
    ] {
        assert!(
            matches!(decode_note(bad), Err(Error::SerializationFailure { .. })),
            "accepted: {bad:?}"
        );
    }
}

/// A metadata text over the 10 KiB cap is rejected outright.
#[test]
fn oversize_metadata_is_rejected() {
    let sn = SerializedNote {
        relative_path: "x".repeat(11000),
        next_datetime: 1,
        scheduler: String::from("SuperMemo2 0 0 250"),
    };
    let text = encode_note(&sn).unwrap();
    let r = decode_note(text.as_str());
    assert!(matches!(r, Err(Error::SerializationFailure { .. })));
}

/// An identity holding a newline cannot be framed.
#[test]
fn newline_identity_cannot_be_framed() {
    let sn = SerializedNote {
        relative_path: String::from("a\nb"),
        next_datetime: 1,
        scheduler: String::from("SuperMemo2 0 0 250"),
    };
    assert!(matches!(encode_note(&sn), Err(Error::SerializationFailure { .. })));
}

/// Converting a serialized note back fails on a payload that decodes to
/// nothing, and the taxonomy distinguishes the unknown tag.
#[test]
fn try_into_reports_the_right_error() {
    let unknown = SerializedNote {
        relative_path: String::from("a"),
        next_datetime: 0,
        scheduler: String::from("FutureAlgorithm 9 9 9"),
    };
    let r: Result<Note, Error> = unknown.try_into();
    assert!(matches!(r, Err(Error::UnknownSchedulerType { .. })));
    let malformed = SerializedNote {
        relative_path: String::from("a"),
        next_datetime: 0,
        scheduler: String::from("SuperMemo2 broken"),
    };
    let r: Result<Note, Error> = malformed.try_into();
    assert!(matches!(r, Err(Error::SerializationFailure { .. })));
}

/// Error messages name the offending identity or path.
#[test]
fn error_messages_name_the_subject() {
    let e = Error::NotFound { identity: String::from("a/b.md") };
    assert_eq!(e.message(), "Failed to find note: a/b.md");
    let e = Error::OutsideRoot {
        path: String::from("/other/file"),
        root: String::from("/root"),
    };
    assert_eq!(
        e.message(),
        "Path is outside the configured root: /other/file (root: /root)"
    );
    let e = Error::ArithmeticOverflow;
    assert_eq!(e.message(), "Date computation out of representable range");
    let e = Error::StorageIOFailure { detail: String::from("too many bytes") };
    assert_eq!(e.message(), "Storage failure: too many bytes");
    let e = Error::SerializationFailure { detail: String::from("malformed note metadata") };
    assert_eq!(
        e.message(),
        "Failed to read or write serialized note: malformed note metadata"
    );
    let e = Error::InvalidIdentity { path: String::from("/root") };
    assert_eq!(e.message(), "Path yields no usable identity: /root");
}
