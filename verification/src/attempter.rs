use vstd::prelude::*;

verus! {

/// One discrete event from the keyboard: a character key, the cancel key, or
/// any other, unrecognized key.
#[derive(Clone, Copy, Debug, PartialEq, Eq, Structural)]
pub enum KeyEvent {
    Char(char),
    Cancel,
    Other,
}

/// The outcome of one practice cycle: the goal was matched after the given
/// number of attempts (1 means first try), or the user asked to end the
/// whole session.
#[derive(Clone, Copy, Debug, PartialEq, Eq, Structural)]
pub enum State {
    Continue(usize),
    Exit,
}

/// How a single key event counts against the current goal character.
#[derive(Clone, Copy, Debug, PartialEq, Eq, Structural)]
pub enum Verdict {
    Matched,
    Cancelled,
    Missed,
    Ignored,
}

pub open spec fn is_match(goal: char, e: KeyEvent) -> bool {
    e == KeyEvent::Char(goal)
}

pub open spec fn is_miss(goal: char, e: KeyEvent) -> bool {
    e matches KeyEvent::Char(c) && c != goal
}

pub open spec fn is_decisive(goal: char, e: KeyEvent) -> bool {
    is_match(goal, e) || e == KeyEvent::Cancel
}

/// Index of the first event that settles the cycle (a press of the goal key,
/// or the cancel key); the script's length when none does.
pub open spec fn first_decisive(goal: char, s: Seq<KeyEvent>) -> int
    decreases s.len(),
{
    if s.len() == 0 {
        0
    } else if is_decisive(goal, s[0]) {
        0
    } else {
        1 + first_decisive(goal, s.drop_first())
    }
}

/// Number of wrong character presses in a script; unrecognized keys do not
/// count.
pub open spec fn miss_count(goal: char, s: Seq<KeyEvent>) -> int
    decreases s.len(),
{
    if s.len() == 0 {
        0
    } else {
        miss_count(goal, s.drop_last()) + (if is_miss(goal, s.last()) {
            1int
        } else {
            0int
        })
    }
}

/// The cycle settles (rather than waiting forever) iff some event is
/// decisive.
pub open spec fn cycle_ends(goal: char, s: Seq<KeyEvent>) -> bool {
    first_decisive(goal, s) < s.len()
}

/// The cycle ends the session iff the first decisive event is the cancel
/// key.
pub open spec fn cycle_cancelled(goal: char, s: Seq<KeyEvent>) -> bool {
    cycle_ends(goal, s) && s[first_decisive(goal, s)] == KeyEvent::Cancel
}

/// Attempts charged for a cycle that ends in a match: one per wrong
/// character press before the match, plus one for the match itself.
pub open spec fn cycle_attempts(goal: char, s: Seq<KeyEvent>) -> int {
    miss_count(goal, s.take(first_decisive(goal, s))) + 1
}

proof fn lemma_first_decisive_bounds(goal: char, s: Seq<KeyEvent>)
    ensures
        0 <= first_decisive(goal, s) <= s.len(),
        forall|j: int| 0 <= j < first_decisive(goal, s) ==> !is_decisive(goal, #[trigger] s[j]),
        first_decisive(goal, s) < s.len() ==> is_decisive(goal, s[first_decisive(goal, s)]),
    decreases s.len(),
{
    if s.len() == 0 {
    } else if is_decisive(goal, s[0]) {
    } else {
        lemma_first_decisive_bounds(goal, s.drop_first());
        let fd = first_decisive(goal, s);
        assert forall|j: int| 0 <= j < fd implies !is_decisive(goal, #[trigger] s[j]) by {
            if j > 0 {
                assert(s.drop_first()[j - 1] == s[j]);
            }
        }
        if fd < s.len() {
            assert(s.drop_first()[fd - 1] == s[fd]);
        }
    }
}

proof fn lemma_first_decisive_at(goal: char, s: Seq<KeyEvent>, i: int)
    requires
        0 <= i < s.len(),
        is_decisive(goal, s[i]),
        forall|j: int| 0 <= j < i ==> !is_decisive(goal, #[trigger] s[j]),
    ensures
        first_decisive(goal, s) == i,
{
    lemma_first_decisive_bounds(goal, s);
    let fd = first_decisive(goal, s);
    if fd < i {
        assert(!is_decisive(goal, s[fd]));
    }
    if fd > i {
        assert(!is_decisive(goal, s[i]));
    }
}

/// How one key event counts against the goal: the goal character matches,
/// the cancel key ends the session, any other character key is a miss, and
/// anything else is ignored.
pub fn classify_key(goal: char, event: KeyEvent) -> (r: Verdict)
    ensures
        r == Verdict::Matched <==> is_match(goal, event),
        r == Verdict::Cancelled <==> event == KeyEvent::Cancel,
        r == Verdict::Missed <==> is_miss(goal, event),
        r == Verdict::Ignored <==> event == KeyEvent::Other,
{
    match event {
        KeyEvent::Cancel => Verdict::Cancelled,
        KeyEvent::Char(c) => if c == goal {
            Verdict::Matched
        } else {
            Verdict::Missed
        },
        KeyEvent::Other => Verdict::Ignored,
    }
}

/// Runs one attempt cycle over a scripted event sequence, consuming events
/// in order until one settles the cycle.  Returns `None` when the script
/// runs out with no decisive event (a live session would still be waiting).
pub fn run_script(goal: char, events: &Vec<KeyEvent>) -> (r: Option<State>)
    ensures
        r is Some <==> cycle_ends(goal, events@),
        r == Some(State::Exit) <==> cycle_cancelled(goal, events@),
        cycle_ends(goal, events@) && !cycle_cancelled(goal, events@) ==> r == Some(
            State::Continue(cycle_attempts(goal, events@) as usize),
        ) && 1 <= cycle_attempts(goal, events@) <= events@.len(),
{
    let n = events.len();
    let mut misses: usize = 0;
    let mut i: usize = 0;
    proof {
        assert(events@.take(0) =~= Seq::<KeyEvent>::empty());
    }
    while i < n
        invariant
            n == events@.len(),
            i <= n,
            misses <= i,
            forall|j: int| 0 <= j < i ==> !is_decisive(goal, #[trigger] events@[j]),
            misses == miss_count(goal, events@.take(i as int)),
        decreases n - i,
    {
        proof {
            assert(events@.take(i + 1).drop_last() =~= events@.take(i as int));
            assert(events@.take(i + 1).last() == events@[i as int]);
        }
        match classify_key(goal, events[i]) {
            Verdict::Cancelled => {
                proof {
                    lemma_first_decisive_at(goal, events@, i as int);
                }
                return Some(State::Exit);
            },
            Verdict::Matched => {
                proof {
                    lemma_first_decisive_at(goal, events@, i as int);
                }
                return Some(State::Continue(misses + 1));
            },
            Verdict::Missed => {
                misses += 1;
            },
            Verdict::Ignored => {},
        }
        i += 1;
    }
    proof {
        lemma_first_decisive_bounds(goal, events@);
        let fd = first_decisive(goal, events@);
        if fd < n {
            assert(!is_decisive(goal, events@[fd]));
        }
    }
    None
}

/// Law: a cycle whose script is exactly one press of the goal key ends in a
/// match charged as a single attempt.
pub proof fn lemma_first_try(goal: char)
    ensures
        cycle_ends(goal, seq![KeyEvent::Char(goal)]),
        !cycle_cancelled(goal, seq![KeyEvent::Char(goal)]),
        cycle_attempts(goal, seq![KeyEvent::Char(goal)]) == 1,
{
    let s = seq![KeyEvent::Char(goal)];
    assert(is_decisive(goal, s[0]));
    assert(first_decisive(goal, s) == 0);
    assert(s.take(0) =~= Seq::<KeyEvent>::empty());
}

/// Law: the cancel key as the very first event of a cycle ends the whole
/// session, whatever follows it.
pub proof fn lemma_cancel_first(goal: char, s: Seq<KeyEvent>)
    requires
        s.len() > 0,
        s[0] == KeyEvent::Cancel,
    ensures
        cycle_cancelled(goal, s),
{
    assert(is_decisive(goal, s[0]));
}

} // verus!
