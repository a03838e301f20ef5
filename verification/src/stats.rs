use vstd::prelude::*;

verus! {

/// Statistics of a session once at least one character has been completed.
/// Timestamps are milliseconds of a monotonic clock; `typed` counts completed
/// characters and `attempts` the key presses charged for them, so `attempts`
/// never falls below `typed`.
pub struct Filled {
    pub start: u64,
    pub end: u64,
    pub typed: usize,
    pub attempts: usize,
}

impl Filled {
    pub open spec fn wf(&self) -> bool {
        &&& 1 <= self.typed <= self.attempts
        &&& self.start <= self.end
    }

    /// Whole words per minute: `typed / 5` words over `(end - start) / 60000`
    /// minutes, rounded down; 0 when no time has passed yet.
    pub open spec fn spec_wpm(&self) -> int {
        if self.start == self.end {
            0
        } else {
            (self.typed as int * 12000) / (self.end - self.start) as int
        }
    }

    /// Accuracy as a whole percentage of attempts that completed a
    /// character, rounded down.
    pub open spec fn spec_accuracy(&self) -> int {
        (self.typed as int * 100) / (self.attempts as int)
    }

    /// Starts the record at the first completed character.
    pub fn new(attempts: usize, now: u64) -> (r: Filled)
        requires
            attempts >= 1,
        ensures
            r.typed == 1,
            r.attempts == attempts,
            r.start == now,
            r.end == now,
            r.wf(),
    {
        Filled { start: now, end: now, typed: 1, attempts }
    }

    /// Records one more completed character and the attempts charged for it.
    pub fn add(&mut self, attempts: usize, now: u64)
        requires
            old(self).wf(),
            attempts >= 1,
            old(self).attempts + attempts <= usize::MAX,
            now >= old(self).end,
        ensures
            final(self).wf(),
            final(self).typed == old(self).typed + 1,
            final(self).attempts == old(self).attempts + attempts,
            final(self).start == old(self).start,
            final(self).end == now,
    {
        self.attempts += attempts;
        self.typed += 1;
        self.end = now;
    }

    /// Words per minute, recomputed fresh from the counters.
    pub fn wpm(&self) -> (r: u128)
        requires
            self.wf(),
        ensures
            r == self.spec_wpm(),
    {
        if self.start == self.end {
            0
        } else {
            let t = self.typed as u128;
            let e = (self.end - self.start) as u128;
            (t * 12000) / e
        }
    }

    /// Accuracy percentage, recomputed fresh from the counters; it is 100
    /// exactly when every completed character took a single attempt.
    pub fn accuracy(&self) -> (r: u8)
        requires
            self.wf(),
        ensures
            r == self.spec_accuracy(),
            r <= 100,
            r == 100 <==> self.typed == self.attempts,
    {
        let t = self.typed as u128;
        let a = self.attempts as u128;
        let q = (t * 100) / a;
        proof {
            assert((t as int * 100) / (a as int) <= 100 && ((t as int * 100) / (a as int) == 100
                <==> t == a)) by (nonlinear_arith)
                requires
                    1 <= t <= a,
            ;
        }
        q as u8
    }
}

/// Session statistics: a distinct empty state before the first completed
/// character (so that no division artifact is ever shown), then a filled
/// record.
pub enum Stats {
    Empty,
    Filled(Filled),
}

impl Stats {
    pub open spec fn wf(&self) -> bool {
        match self {
            Stats::Empty => true,
            Stats::Filled(f) => f.wf(),
        }
    }

    pub open spec fn typed(&self) -> int {
        match self {
            Stats::Empty => 0,
            Stats::Filled(f) => f.typed as int,
        }
    }

    pub open spec fn attempts(&self) -> int {
        match self {
            Stats::Empty => 0,
            Stats::Filled(f) => f.attempts as int,
        }
    }

    pub fn new() -> (r: Stats)
        ensures
            r == Stats::Empty,
    {
        Stats::Empty
    }

    /// Records one completed character: the count of completions grows by
    /// one and the cumulative attempts by the attempts charged for it.  The
    /// first call moves the state from empty to filled.
    pub fn add_attempts(&mut self, attempts: usize, now: u64)
        requires
            old(self).wf(),
            attempts >= 1,
            old(self).attempts() + attempts <= usize::MAX,
            match *old(self) {
                Stats::Empty => true,
                Stats::Filled(f) => now >= f.end,
            },
        ensures
            final(self).wf(),
            *final(self) is Filled,
            final(self).typed() == old(self).typed() + 1,
            final(self).attempts() == old(self).attempts() + attempts,
            match (*old(self), *final(self)) {
                (Stats::Empty, Stats::Filled(f)) => f.start == now && f.end == now,
                (Stats::Filled(g), Stats::Filled(f)) => f.start == g.start && f.end == now,
                _ => false,
            },
    {
        match self {
            Stats::Empty => {
                *self = Stats::Filled(Filled::new(attempts, now));
            },
            Stats::Filled(f) => {
                f.add(attempts, now);
            },
        }
    }

    /// The pair shown on a display refresh: `None` in the empty state (the
    /// "no results" placeholder), otherwise words per minute and accuracy.
    pub fn snapshot(&self) -> (r: Option<(u128, u8)>)
        requires
            self.wf(),
        ensures
            match self {
                Stats::Empty => r is None,
                Stats::Filled(f) => r == Some((f.spec_wpm() as u128, f.spec_accuracy() as u8)),
            },
    {
        match self {
            Stats::Empty => None,
            Stats::Filled(f) => Some((f.wpm(), f.accuracy())),
        }
    }
}

/// One tick of the session countdown: the elapsed time is taken off the
/// remaining budget; when the budget runs out the session is over.
pub fn countdown(remaining: u64, elapsed: u64) -> (r: (u64, bool))
    ensures
        r == (if elapsed <= remaining {
            ((remaining - elapsed) as u64, false)
        } else {
            (0u64, true)
        }),
{
    if elapsed <= remaining {
        (remaining - elapsed, false)
    } else {
        (0, true)
    }
}

/// Law: in any well-formed statistics value the cumulative attempts never
/// fall below the count of completed characters.
pub proof fn lemma_attempts_dominate(s: &Stats)
    requires
        s.wf(),
    ensures
        s.attempts() >= s.typed(),
{
}

/// Sum of the attempts charged by a sequence of completed cycles.
pub open spec fn total_attempts(per_cycle: Seq<int>) -> int
    decreases per_cycle.len(),
{
    if per_cycle.len() == 0 {
        0
    } else {
        total_attempts(per_cycle.drop_last()) + per_cycle.last()
    }
}

/// Law (round trip): a session whose every cycle is completed on the first
/// key press charges exactly one attempt per character, so over n such
/// cycles the totals are typed == n and attempts == n.
pub proof fn lemma_round_trip(per_cycle: Seq<int>)
    requires
        forall|i: int| 0 <= i < per_cycle.len() ==> per_cycle[i] == 1,
    ensures
        total_attempts(per_cycle) == per_cycle.len(),
    decreases per_cycle.len(),
{
    if per_cycle.len() > 0 {
        assert forall|i: int| 0 <= i < per_cycle.drop_last().len() implies per_cycle.drop_last()[i]
            == 1 by {
            assert(per_cycle.drop_last()[i] == per_cycle[i]);
        }
        lemma_round_trip(per_cycle.drop_last());
    }
}

proof fn lemma_total_at_least_len(per_cycle: Seq<int>)
    requires
        forall|i: int| 0 <= i < per_cycle.len() ==> per_cycle[i] >= 1,
    ensures
        total_attempts(per_cycle) >= per_cycle.len(),
    decreases per_cycle.len(),
{
    if per_cycle.len() > 0 {
        assert forall|i: int| 0 <= i < per_cycle.drop_last().len() implies per_cycle.drop_last()[i]
            >= 1 by {
            assert(per_cycle.drop_last()[i] == per_cycle[i]);
        }
        lemma_total_at_least_len(per_cycle.drop_last());
        assert(per_cycle.last() >= 1);
    }
}

/// Law (perfect accuracy): with at least one attempt charged per cycle, the
/// attempt total equals the cycle count if and only if every cycle took
/// exactly one attempt — accuracy is 100% exactly for all-first-try
/// sessions.
pub proof fn lemma_perfect_accuracy(per_cycle: Seq<int>)
    requires
        forall|i: int| 0 <= i < per_cycle.len() ==> per_cycle[i] >= 1,
    ensures
        total_attempts(per_cycle) == per_cycle.len() <==> (forall|i: int|
            0 <= i < per_cycle.len() ==> per_cycle[i] == 1),
    decreases per_cycle.len(),
{
    if per_cycle.len() > 0 {
        assert forall|i: int| 0 <= i < per_cycle.drop_last().len() implies per_cycle.drop_last()[i]
            >= 1 by {
            assert(per_cycle.drop_last()[i] == per_cycle[i]);
        }
        lemma_perfect_accuracy(per_cycle.drop_last());
        lemma_total_at_least_len(per_cycle.drop_last());
        if total_attempts(per_cycle) == per_cycle.len() {
            assert(per_cycle.last() == 1);
            assert forall|i: int| 0 <= i < per_cycle.len() implies per_cycle[i] == 1 by {
                if i < per_cycle.len() - 1 {
                    assert(per_cycle.drop_last()[i] == per_cycle[i]);
                }
            }
        }
        if forall|i: int| 0 <= i < per_cycle.len() ==> per_cycle[i] == 1 {
            assert(per_cycle.last() == 1);
        }
    }
}

} // verus!
