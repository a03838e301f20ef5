use typedrill::align::Left;
use typedrill::attempter::{run_script, KeyEvent, State};
use typedrill::chunk::Chunk;
use typedrill::hand::{highlight, Hand};
use typedrill::practice_set::{Finger, KeyMap, PracticeSet};
use typedrill::stats::{countdown, Filled, Stats};
use typedrill::typed_chars::TypedChars;

#[test]
fn attempts_never_fall_below_typed() {
    let mut stats = Stats::new();
    for (i, a) in [1usize, 3, 1, 2, 5].into_iter().enumerate() {
        stats.add_attempts(a, i as u64);
        match &stats {
            Stats::Filled(f) => assert!(f.attempts >= f.typed),
            Stats::Empty => panic!("stats must be filled after a record"),
        }
    }
}

#[test]
fn perfect_session_round_trip() {
    let km = KeyMap::new(vec![('a', Finger::LeftPinky), ('s', Finger::LeftRing)]).unwrap();
    let ps = PracticeSet::new(km, vec![vec!['a', 's']], rand::thread_rng()).unwrap();
    let mut chunk = Chunk::new(ps, 6);
    let mut stats = Stats::new();
    let n = 9;
    for t in 0..n {
        let (goal, _finger) = chunk.next();
        let outcome = run_script(goal, &vec![KeyEvent::Char(goal)]);
        match outcome {
            Some(State::Continue(attempts)) => {
                assert_eq!(attempts, 1);
                stats.add_attempts(attempts, t as u64);
            }
            other => panic!("a perfect press must complete the cycle, got {:?}", other),
        }
    }
    match stats {
        Stats::Filled(f) => {
            assert_eq!(f.typed, n);
            assert_eq!(f.attempts, n);
            assert_eq!(f.accuracy(), 100);
        }
        Stats::Empty => panic!("ran cycles but recorded nothing"),
    }
}

#[test]
fn accuracy_is_100_iff_every_character_was_first_try() {
    let mut perfect = Stats::new();
    perfect.add_attempts(1, 0);
    perfect.add_attempts(1, 10);
    match &perfect {
        Stats::Filled(f) => assert_eq!(f.accuracy(), 100),
        Stats::Empty => panic!("stats must be filled"),
    }

    let mut flawed = Stats::new();
    flawed.add_attempts(1, 0);
    flawed.add_attempts(2, 10);
    match &flawed {
        Stats::Filled(f) => assert!(f.accuracy() < 100),
        Stats::Empty => panic!("stats must be filled"),
    }
}

#[test]
fn cancel_before_any_completion_leaves_no_results() {
    let km = KeyMap::new(vec![('a', Finger::LeftPinky)]).unwrap();
    let ps = PracticeSet::new(km, vec![vec!['a']], rand::thread_rng()).unwrap();
    let mut chunk = Chunk::new(ps, 4);
    let mut stats = Stats::new();
    let (goal, _) = chunk.next();
    let outcome = run_script(goal, &vec![KeyEvent::Cancel]);
    assert_eq!(outcome, Some(State::Exit));
    assert!(matches!(stats, Stats::Empty));
    assert_eq!(stats.snapshot(), None);
}

#[test]
fn snapshot_of_a_filled_session_reports_wpm_and_accuracy() {
    let mut stats = Stats::new();
    stats.add_attempts(2, 0);
    for t in 1..5u64 {
        stats.add_attempts(1, t * 15000);
    }
    match stats.snapshot() {
        Some((wpm, accuracy)) => {
            // 5 characters over one minute: one five-character word per minute.
            assert_eq!(wpm, 1);
            // 5 completions out of 6 attempts.
            assert_eq!(accuracy, 83);
        }
        None => panic!("filled stats must report a snapshot"),
    }
}

#[test]
fn wpm_is_zero_when_no_time_has_passed() {
    let f = Filled {
        start: 7,
        end: 7,
        typed: 1,
        attempts: 1,
    };
    assert_eq!(f.wpm(), 0);
}

#[test]
fn wpm_exact_value() {
    let f = Filled {
        start: 0,
        end: 30000,
        typed: 10,
        attempts: 12,
    };
    // 10 characters in half a minute: 2 words, 4 words per minute.
    assert_eq!(f.wpm(), 4);
    // 10 * 100 / 12 rounded down.
    assert_eq!(f.accuracy(), 83);
}

#[test]
fn hand_tracks_the_selected_finger() {
    let mut hand = Hand::new(Left(10));
    assert_eq!(hand.selected, None);
    hand.select(Some(Finger::RightIndex));
    assert_eq!(hand.selected, Some(Finger::RightIndex));
    assert_eq!(hand.aligner, Left(10));
    hand.select(None);
    assert_eq!(hand.selected, None);
}

#[test]
fn highlight_only_the_selected_finger() {
    assert!(highlight(Finger::LeftRing, Some(Finger::LeftRing)));
    assert!(!highlight(Finger::LeftRing, Some(Finger::LeftPinky)));
    assert!(!highlight(Finger::LeftRing, None));
}

#[test]
fn typed_chars_drop_oldest_when_full() {
    let mut trail = TypedChars::new(3);
    for c in ['a', 'b', 'c', 'd'] {
        trail.add(c);
    }
    assert_eq!(trail.text(), vec!['b', 'c', 'd']);
    assert_eq!(trail.capacity, 3);
}

#[test]
fn typed_chars_below_capacity_keep_everything() {
    let mut trail = TypedChars::new(5);
    trail.add('x');
    trail.add('y');
    assert_eq!(trail.text(), vec!['x', 'y']);
}

#[test]
fn countdown_subtracts_and_signals_expiry() {
    assert_eq!(countdown(1000, 300), (700, false));
    assert_eq!(countdown(1000, 1000), (0, false));
    assert_eq!(countdown(1000, 1001), (0, true));
}
