//! The SM-2 recurrence on concrete states, including the reference interval
//! table. The easiness factor is in hundredths: 250 is 2.5.
use astronote::errors::Error;
use astronote::schedulers::sm2::SuperMemo2;
use astronote::schedulers::sm2::INTERVAL_1ST_REPETITION;
use astronote::schedulers::sm2::INTERVAL_2ND_REPETITION;
use astronote::schedulers::Scheduler;

#[test]
fn test_1st_repetition() {
    for i in u8::MIN..u8::MAX {
        let mut sm2 = SuperMemo2::default();
        sm2.update_repetition_interval(i).unwrap();
        assert_eq!(INTERVAL_1ST_REPETITION, sm2.interval);
    }
}

#[test]
fn test_2nd_repetition() {
    for i in u8::MIN..u8::MAX {
        let mut sm2 = SuperMemo2 {
            counter: 1,
            interval: 0,
            easiness_factor: 250,
        };
        sm2.update_repetition_interval(i).unwrap();
        assert_eq!(INTERVAL_2ND_REPETITION, sm2.interval);
    }
}

#[test]
fn test_3rd_repetition() {
    let response_qualities = (0..=5).collect::<Vec<u8>>();
    let easiness_factors = vec![0, 50, 100, 130, 150, 250, 300];
    let expected_intervals = vec![
        vec![1; easiness_factors.len()],
        vec![1; easiness_factors.len()],
        vec![1; easiness_factors.len()],
        vec![8, 8, 8, 8, 9, 15, 18],
        vec![8, 8, 8, 8, 9, 15, 18],
        vec![8, 8, 8, 9, 10, 16, 19],
    ];
    for (i, &q) in response_qualities.iter().enumerate() {
        for (j, &ef) in easiness_factors.iter().enumerate() {
            let mut sm2 = create_3rd_repetition_status(ef);
            let interval = sm2.update_repetition_interval(q).unwrap();
            assert_eq!(expected_intervals[i][j], interval);
        }
    }
}

fn create_3rd_repetition_status(easiness_factor: i64) -> SuperMemo2 {
    SuperMemo2 {
        counter: 3,
        interval: 6,
        easiness_factor,
    }
}

/// Repetition 3, interval 6 days, easiness 2.5, quality 4: the easiness
/// stays 2.5 and the interval becomes ceil(6 * 2.5) = 15 days.
#[test]
fn concrete_third_repetition_scenario() {
    let mut sm2 = SuperMemo2::new(3, 6, 250);
    let interval = sm2.update_repetition_interval(4).unwrap();
    assert_eq!(interval, 15);
    assert_eq!(sm2.easiness_factor, 250);
    assert_eq!(sm2.counter, 4);
}

/// A lapse at or past the third repetition restarts the one-day cycle.
#[test]
fn lapse_resets_to_one_day() {
    for q in 0..=2u8 {
        let mut sm2 = SuperMemo2::new(5, 30, 280);
        let interval = sm2.update_repetition_interval(q).unwrap();
        assert_eq!(interval, 1);
        assert_eq!(sm2.counter, 1);
        assert_eq!(sm2.easiness_factor, 280);
    }
}

/// The easiness factor never leaves the 1.3 floor, whatever the review
/// qualities.
#[test]
fn easiness_never_below_floor() {
    let mut sm2 = SuperMemo2::default();
    for q in [0u8, 0, 0, 1, 2, 0, 3, 0, 3, 3, 3, 0, 4, 3, 3, 3, 3] {
        sm2.update_repetition_interval(q).unwrap();
        assert!(sm2.easiness_factor >= 130);
    }
}

/// An interval too large for the machine integers is an arithmetic
/// overflow, and the state is left untouched.
#[test]
fn interval_overflow_is_reported() {
    let mut sm2 = SuperMemo2::new(3, i64::MAX / 2, 250);
    let before = sm2;
    let r = sm2.update_repetition_interval(5);
    assert!(matches!(r, Err(Error::ArithmeticOverflow)));
    assert_eq!(sm2, before);
}

/// `advance` commits the state and returns now + interval days, in seconds.
#[test]
fn advance_commits_and_returns_due() {
    let mut s = Scheduler::default();
    let now = 1_000_000;
    let due = s.update_and_calculate_next_datetime(4, now).unwrap();
    assert_eq!(due, now + 86400);
    let due2 = s.update_and_calculate_next_datetime(4, due).unwrap();
    assert_eq!(due2, due + 6 * 86400);
}

/// `preview` computes the same due timestamp as `advance` would, without
/// committing anything.
#[test]
fn preview_matches_advance_without_commit() {
    let s = Scheduler::Sm2(SuperMemo2::new(3, 6, 250));
    let now = 5_000;
    let previewed = s.calculate_next_datetime(4, now).unwrap();
    assert_eq!(previewed, now + 15 * 86400);
    // The previewing scheduler is unchanged.
    assert_eq!(s, Scheduler::Sm2(SuperMemo2::new(3, 6, 250)));
    let mut committed = s;
    let advanced = committed.update_and_calculate_next_datetime(4, now).unwrap();
    assert_eq!(advanced, previewed);
}

/// The free-standing preview of the interval alone.
#[test]
fn calculate_interval_previews() {
    assert_eq!(astronote::schedulers::calculate_interval(3, 6, 250, 4).unwrap(), 15);
    assert_eq!(astronote::schedulers::calculate_interval(0, 0, 250, 5).unwrap(), 1);
    assert_eq!(astronote::schedulers::calculate_interval(1, 1, 250, 0).unwrap(), 6);
}

/// Out-of-range qualities are clamped, not rejected: above 5 they all act
/// as a perfect response.
#[test]
fn quality_clamped_to_bounds() {
    let mut a = SuperMemo2::new(3, 6, 250);
    let mut b = SuperMemo2::new(3, 6, 250);
    a.update_repetition_interval(5).unwrap();
    b.update_repetition_interval(200).unwrap();
    assert_eq!(a, b);
}

/// Day arithmetic that would leave the timestamp range fails with
/// `ArithmeticOverflow` rather than truncating.
#[test]
fn due_overflow_is_reported() {
    let mut s = Scheduler::default();
    let r = s.update_and_calculate_next_datetime(4, i64::MAX - 10);
    assert!(matches!(r, Err(Error::ArithmeticOverflow)));
    assert_eq!(s, Scheduler::default());
}
