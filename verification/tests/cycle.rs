use typedrill::attempter::{classify_key, run_script, KeyEvent, State, Verdict};
use typedrill::chunk::Chunk;
use typedrill::practice_set::{Finger, KeyMap, PracticeSet};

fn two_word_chunk(window_len: usize) -> Chunk {
    let km = KeyMap::new(vec![('a', Finger::LeftPinky), ('s', Finger::LeftRing)]).unwrap();
    let ps = PracticeSet::new(
        km,
        vec![vec!['a', 's'], vec!['s', 'a']],
        rand::thread_rng(),
    )
    .unwrap();
    Chunk::new(ps, window_len)
}

#[test]
fn classify_key_each_verdict() {
    assert_eq!(classify_key('a', KeyEvent::Char('a')), Verdict::Matched);
    assert_eq!(classify_key('a', KeyEvent::Char('b')), Verdict::Missed);
    assert_eq!(classify_key('a', KeyEvent::Cancel), Verdict::Cancelled);
    assert_eq!(classify_key('a', KeyEvent::Other), Verdict::Ignored);
}

#[test]
fn two_wrong_presses_then_goal_counts_three_attempts() {
    let script = vec![KeyEvent::Char('x'), KeyEvent::Char('y'), KeyEvent::Char('a')];
    assert_eq!(run_script('a', &script), Some(State::Continue(3)));
}

#[test]
fn immediate_cancel_exits() {
    let script = vec![KeyEvent::Cancel, KeyEvent::Char('a')];
    assert_eq!(run_script('a', &script), Some(State::Exit));
}

#[test]
fn unrecognized_keys_are_ignored_and_do_not_count() {
    let script = vec![
        KeyEvent::Other,
        KeyEvent::Char('z'),
        KeyEvent::Other,
        KeyEvent::Char('a'),
    ];
    assert_eq!(run_script('a', &script), Some(State::Continue(2)));
}

#[test]
fn script_without_a_decisive_event_settles_nothing() {
    let script = vec![KeyEvent::Char('b'), KeyEvent::Other];
    assert_eq!(run_script('a', &script), None);
}

#[test]
fn cancel_after_a_match_never_fires() {
    let script = vec![KeyEvent::Char('a'), KeyEvent::Cancel];
    assert_eq!(run_script('a', &script), Some(State::Continue(1)));
}

#[test]
fn first_goal_comes_from_the_pool_with_its_finger() {
    let mut chunk = two_word_chunk(4);
    let (goal, finger) = chunk.next();
    assert!(goal == 'a' || goal == 's');
    let expected = if goal == 'a' {
        Finger::LeftPinky
    } else {
        Finger::LeftRing
    };
    assert_eq!(finger, Some(expected));
}

#[test]
fn exhausted_word_yields_separator_and_refills() {
    let mut chunk = two_word_chunk(4);
    assert_eq!(chunk.words.len(), 3);
    let first_word: Vec<char> = chunk.words[0].clone();
    for k in 0..first_word.len() {
        let (goal, _) = chunk.next();
        assert_eq!(goal, first_word[k]);
    }
    let (separator, finger) = chunk.next();
    assert_eq!(separator, ' ');
    assert_eq!(finger, None);
    assert_eq!(chunk.words.len(), 3);
    let refilled = chunk.words.back().unwrap().clone();
    assert!(refilled == vec!['a', 's'] || refilled == vec!['s', 'a']);
}

#[test]
fn render_is_idempotent_on_unchanged_state() {
    let chunk = two_word_chunk(7);
    let once = chunk.text();
    let twice = chunk.text();
    assert_eq!(once, twice);
}

#[test]
fn render_truncates_to_the_window_width() {
    let km = KeyMap::new(vec![('a', Finger::LeftPinky), ('s', Finger::LeftRing)]).unwrap();
    let ps = PracticeSet::new(km, vec![vec!['a', 's']], rand::thread_rng()).unwrap();
    let chunk = Chunk::new(ps, 4);
    assert_eq!(chunk.text(), vec!['a', 's', ' ', 'a']);
}

#[test]
fn render_shows_every_word_followed_by_a_separator() {
    let km = KeyMap::new(vec![('a', Finger::LeftPinky), ('s', Finger::LeftRing)]).unwrap();
    let ps = PracticeSet::new(km, vec![vec!['s', 'a']], rand::thread_rng()).unwrap();
    let chunk = Chunk::new(ps, 9);
    assert_eq!(
        chunk.text(),
        vec!['s', 'a', ' ', 's', 'a', ' ', 's', 'a', ' ']
    );
}
