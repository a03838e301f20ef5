use vstd::prelude::*;
use rand::rngs::ThreadRng;

verus! {

/// The thread-local random generator of the rand crate, declared opaquely so
/// that a practice set can own its handle; nothing is assumed of the values
/// it yields beyond the range stated where it is used.
#[verifier::external_type_specification]
#[verifier::external_body]
pub struct ExThreadRng(ThreadRng);

/// Relies on rand::Rng::gen_range over the range 0..n: it returns a value
/// drawn uniformly from that range.  It panics on an empty range, hence the
/// precondition.
#[verifier::external_body]
fn rand_index(rng: &mut ThreadRng, n: usize) -> (r: usize)
    requires
        n >= 1,
    ensures
        r < n,
{
    rand::Rng::gen_range(rng, 0..n)
}

/// One of the eight hand positions a character can be assigned to for typing
/// guidance.
#[derive(Clone, Copy, Debug, PartialEq, Eq, Structural)]
pub enum Finger {
    LeftPinky,
    LeftRing,
    LeftMiddle,
    LeftIndex,
    RightIndex,
    RightMiddle,
    RightRing,
    RightPinky,
}

/// The mathematical reading of a list of key assignments: later entries would
/// win, but a well-formed `KeyMap` has distinct keys, so each character is
/// mapped by the one entry that names it.
pub open spec fn map_of(pairs: Seq<(char, Finger)>) -> Map<char, Finger>
    decreases pairs.len(),
{
    if pairs.len() == 0 {
        Map::empty()
    } else {
        map_of(pairs.drop_last()).insert(pairs.last().0, pairs.last().1)
    }
}

/// No two entries assign the same character.
pub open spec fn distinct_keys(pairs: Seq<(char, Finger)>) -> bool {
    forall|i: int, j: int| 0 <= i < j < pairs.len() ==> (#[trigger] pairs[i]).0 != (#[trigger] pairs[j]).0
}

proof fn lemma_map_of_absent(pairs: Seq<(char, Finger)>, c: char)
    requires
        forall|i: int| 0 <= i < pairs.len() ==> (#[trigger] pairs[i]).0 != c,
    ensures
        !map_of(pairs).contains_key(c),
    decreases pairs.len(),
{
    if pairs.len() > 0 {
        assert(pairs.last() == pairs[pairs.len() - 1]);
        assert forall|i: int| 0 <= i < pairs.drop_last().len() implies (#[trigger] pairs.drop_last()[i]).0 != c by {
            assert(pairs.drop_last()[i] == pairs[i]);
        }
        lemma_map_of_absent(pairs.drop_last(), c);
    }
}

proof fn lemma_map_of_at(pairs: Seq<(char, Finger)>, i: int)
    requires
        distinct_keys(pairs),
        0 <= i < pairs.len(),
    ensures
        map_of(pairs).contains_key(pairs[i].0),
        map_of(pairs)[pairs[i].0] == pairs[i].1,
    decreases pairs.len(),
{
    assert(pairs.last() == pairs[pairs.len() - 1]);
    if i == pairs.len() - 1 {
    } else {
        assert forall|a: int, b: int|
            0 <= a < b < pairs.drop_last().len() implies (#[trigger] pairs.drop_last()[a]).0
            != (#[trigger] pairs.drop_last()[b]).0 by {
            assert(pairs.drop_last()[a] == pairs[a]);
            assert(pairs.drop_last()[b] == pairs[b]);
        }
        assert(pairs.drop_last()[i] == pairs[i]);
        lemma_map_of_at(pairs.drop_last(), i);
        assert(pairs[i].0 != pairs[pairs.len() - 1].0);
    }
}

/// The validated mapping from character to assigned finger.  Well-formed maps
/// are non-empty and assign each character at most once, so the mapping reads
/// as a function from characters to fingers.
pub struct KeyMap {
    pub pairs: Vec<(char, Finger)>,
}

impl View for KeyMap {
    type V = Map<char, Finger>;

    open spec fn view(&self) -> Map<char, Finger> {
        map_of(self.pairs@)
    }
}

impl KeyMap {
    pub open spec fn wf(&self) -> bool {
        &&& self.pairs@.len() >= 1
        &&& distinct_keys(self.pairs@)
    }

    /// Builds the finalized mapping from a list of key assignments.  An empty
    /// list or a repeated character is a configuration error, reported as
    /// `None`.
    pub fn new(pairs: Vec<(char, Finger)>) -> (r: Option<KeyMap>)
        ensures
            r is Some <==> (pairs@.len() >= 1 && distinct_keys(pairs@)),
            r matches Some(m) ==> m.pairs@ == pairs@ && m.wf(),
    {
        let n = pairs.len();
        if n == 0 {
            return None;
        }
        let mut i: usize = 0;
        while i < n
            invariant
                n == pairs@.len(),
                i <= n,
                forall|a: int, b: int|
                    0 <= a < b < n && a < i ==> (#[trigger] pairs@[a]).0 != (#[trigger] pairs@[b]).0,
            decreases n - i,
        {
            let mut j: usize = i + 1;
            while j < n
                invariant
                    n == pairs@.len(),
                    i < j <= n,
                    forall|b: int| i < b < j ==> (#[trigger] pairs@[b]).0 != pairs@[i as int].0,
                decreases n - j,
            {
                if pairs[i].0 == pairs[j].0 {
                    return None;
                }
                j += 1;
            }
            i += 1;
        }
        Some(KeyMap { pairs })
    }

    /// Pure lookup of the finger assigned to a character; `None` for
    /// characters the mapping does not cover (such as the word separator).
    pub fn finger(&self, c: char) -> (r: Option<Finger>)
        requires
            self.wf(),
        ensures
            r == (if self@.contains_key(c) {
                Some(self@[c])
            } else {
                None::<Finger>
            }),
    {
        let n = self.pairs.len();
        let mut i: usize = 0;
        while i < n
            invariant
                self.wf(),
                n == self.pairs@.len(),
                i <= n,
                forall|a: int| 0 <= a < i ==> (#[trigger] self.pairs@[a]).0 != c,
            decreases n - i,
        {
            if self.pairs[i].0 == c {
                let f = self.pairs[i].1;
                proof {
                    lemma_map_of_at(self.pairs@, i as int);
                }
                return Some(f);
            }
            i += 1;
        }
        proof {
            lemma_map_of_absent(self.pairs@, c);
        }
        None
    }
}

/// A word can be practiced under a mapping exactly when every one of its
/// characters has a finger assigned.
pub open spec fn word_eligible(w: Seq<char>, m: Map<char, Finger>) -> bool {
    forall|j: int| 0 <= j < w.len() ==> m.contains_key(#[trigger] w[j])
}

/// The words of a list, each read as its character sequence.
pub open spec fn views_of(ws: Seq<Vec<char>>) -> Seq<Seq<char>> {
    ws.map_values(|w: Vec<char>| w@)
}

/// The sub-list of words that the mapping fully covers, in their original
/// order.
pub open spec fn eligible_words(ws: Seq<Seq<char>>, m: Map<char, Finger>) -> Seq<Seq<char>>
    decreases ws.len(),
{
    if ws.len() == 0 {
        Seq::empty()
    } else {
        let rest = eligible_words(ws.drop_last(), m);
        if word_eligible(ws.last(), m) {
            rest.push(ws.last())
        } else {
            rest
        }
    }
}

proof fn lemma_eligible_words_push(ws: Seq<Seq<char>>, m: Map<char, Finger>, x: Seq<char>)
    ensures
        eligible_words(ws.push(x), m) == (if word_eligible(x, m) {
            eligible_words(ws, m).push(x)
        } else {
            eligible_words(ws, m)
        }),
{
    assert(ws.push(x).drop_last() =~= ws);
    assert(ws.push(x).last() == x);
}

fn word_in_map(word: &Vec<char>, keys: &KeyMap) -> (r: bool)
    requires
        keys.wf(),
    ensures
        r == word_eligible(word@, keys@),
{
    let n = word.len();
    let mut j: usize = 0;
    while j < n
        invariant
            keys.wf(),
            n == word@.len(),
            j <= n,
            forall|a: int| 0 <= a < j ==> keys@.contains_key(#[trigger] word@[a]),
        decreases n - j,
    {
        if keys.finger(word[j]).is_none() {
            return false;
        }
        j += 1;
    }
    true
}

fn copy_word(word: &Vec<char>) -> (r: Vec<char>)
    ensures
        r@ == word@,
{
    let n = word.len();
    let mut out: Vec<char> = Vec::new();
    let mut j: usize = 0;
    while j < n
        invariant
            n == word@.len(),
            j <= n,
            out@ == word@.take(j as int),
        decreases n - j,
    {
        out.push(word[j]);
        proof {
            assert(word@.take(j + 1) =~= word@.take(j as int).push(word@[j as int]));
        }
        j += 1;
    }
    proof {
        assert(word@.take(n as int) =~= word@);
    }
    out
}

/// Draws random practice words from the pool of dictionary words that are
/// fully covered by the key mapping.  The pool is filtered once, at
/// construction; every draw is independent and uniform over it.
pub struct PracticeSet {
    pub keys: KeyMap,
    pub words: Vec<Vec<char>>,
    pub rng: ThreadRng,
}

impl PracticeSet {
    /// The eligible pool, each word as its character sequence.
    pub open spec fn pool(&self) -> Seq<Seq<char>> {
        views_of(self.words@)
    }

    pub open spec fn wf(&self) -> bool {
        &&& self.keys.wf()
        &&& self.words@.len() >= 1
        &&& forall|i: int|
            0 <= i < self.pool().len() ==> word_eligible(#[trigger] self.pool()[i], self.keys@)
    }

    /// Builds the selector for a session: keeps exactly the words every
    /// character of which the mapping covers.  An empty eligible pool is a
    /// configuration error, reported as `None`.
    pub fn new(keys: KeyMap, words: Vec<Vec<char>>, rng: ThreadRng) -> (r: Option<PracticeSet>)
        requires
            keys.wf(),
        ensures
            ({
                let eligible = eligible_words(views_of(words@), keys@);
                match r {
                    Some(ps) => ps.wf() && ps.keys == keys && ps.pool() == eligible,
                    None => eligible.len() == 0,
                }
            }),
    {
        let n = words.len();
        let mut kept: Vec<Vec<char>> = Vec::new();
        let mut i: usize = 0;
        proof {
            assert(views_of(words@.take(0)) =~= Seq::<Seq<char>>::empty());
            assert(views_of(kept@) =~= eligible_words(views_of(words@.take(0)), keys@));
        }
        while i < n
            invariant
                keys.wf(),
                n == words@.len(),
                i <= n,
                views_of(kept@) =~= eligible_words(views_of(words@.take(i as int)), keys@),
                forall|k: int|
                    0 <= k < kept@.len() ==> word_eligible(#[trigger] views_of(kept@)[k], keys@),
            decreases n - i,
        {
            proof {
                assert(words@.take(i + 1) =~= words@.take(i as int).push(words@[i as int]));
                assert(views_of(words@.take(i + 1)) =~= views_of(words@.take(i as int)).push(
                    words@[i as int]@,
                ));
                lemma_eligible_words_push(
                    views_of(words@.take(i as int)),
                    keys@,
                    words@[i as int]@,
                );
            }
            let ghost prev = kept@;
            if word_in_map(&words[i], &keys) {
                let w = copy_word(&words[i]);
                kept.push(w);
                proof {
                    assert(views_of(kept@) =~= views_of(prev).push(words@[i as int]@));
                }
            }
            i += 1;
        }
        proof {
            assert(words@.take(n as int) =~= words@);
        }
        if kept.len() == 0 {
            None
        } else {
            Some(PracticeSet { keys, words: kept, rng })
        }
    }

    /// Draws one word uniformly at random from the eligible pool.
    pub fn draw(&mut self) -> (r: Vec<char>)
        requires
            old(self).wf(),
        ensures
            final(self).wf(),
            final(self).keys == old(self).keys,
            final(self).words@ == old(self).words@,
            old(self).pool().contains(r@),
    {
        let n = self.words.len();
        let i = rand_index(&mut self.rng, n);
        let r = copy_word(&self.words[i]);
        proof {
            assert(self.pool() == old(self).pool());
            assert(r@ == old(self).pool()[i as int]);
        }
        r
    }

    /// Draws n words, by n independent draws; repeats are allowed.
    pub fn draw_n(&mut self, n: usize) -> (r: Vec<Vec<char>>)
        requires
            old(self).wf(),
        ensures
            final(self).wf(),
            final(self).keys == old(self).keys,
            final(self).words@ == old(self).words@,
            r@.len() == n,
            forall|k: int| 0 <= k < n ==> old(self).pool().contains((#[trigger] r@[k])@),
    {
        let ghost p = old(self).pool();
        let mut out: Vec<Vec<char>> = Vec::new();
        let mut k: usize = 0;
        while k < n
            invariant
                self.wf(),
                self.keys == old(self).keys,
                self.words@ == old(self).words@,
                self.pool() == p,
                p == old(self).pool(),
                k <= n,
                out@.len() == k,
                forall|a: int| 0 <= a < k ==> p.contains((#[trigger] out@[a])@),
            decreases n - k,
        {
            let w = self.draw();
            proof {
                assert(self.pool() == p);
            }
            out.push(w);
            k += 1;
        }
        out
    }

    /// Pure lookup of the finger assigned to a character.
    pub fn finger(&self, c: char) -> (r: Option<Finger>)
        requires
            self.wf(),
        ensures
            r == (if self.keys@.contains_key(c) {
                Some(self.keys@[c])
            } else {
                None::<Finger>
            }),
    {
        self.keys.finger(c)
    }
}

/// Law: when the eligible pool holds exactly one word, every draw returns
/// that word.
pub proof fn lemma_singleton_pool(pool: Seq<Seq<char>>, w: Seq<char>)
    requires
        pool.len() == 1,
        pool.contains(w),
    ensures
        w == pool[0],
{
}

/// Every word of the eligible pool is fully covered by the key mapping.
pub proof fn lemma_pool_word_eligible(ps: &PracticeSet, w: Seq<char>)
    requires
        ps.wf(),
        ps.pool().contains(w),
    ensures
        word_eligible(w, ps.keys@),
{
    let i = choose|i: int| 0 <= i < ps.pool().len() && ps.pool()[i] == w;
    assert(word_eligible(ps.pool()[i], ps.keys@));
}

/// The decision at the heart of the setup prompt: a parsed selection is
/// accepted exactly when it indexes one of the offered key-sets; anything
/// else asks the user again.
pub fn validate_selection(selection: Option<usize>, n_sets: usize) -> (r: Option<usize>)
    ensures
        match selection {
            Some(i) => r == (if i < n_sets {
                Some(i)
            } else {
                None::<usize>
            }),
            None => r is None,
        },
{
    match selection {
        Some(i) => if i < n_sets {
            Some(i)
        } else {
            None
        },
        None => None,
    }
}

} // verus!
