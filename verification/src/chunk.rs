use vstd::prelude::*;
use std::collections::VecDeque;
use crate::practice_set::{
    lemma_pool_word_eligible, views_of, word_eligible, Finger, PracticeSet,
};

verus! {

/// The rolling window of upcoming practice material: a queue of pending
/// words, the front one being consumed character by character, topped up from
/// the selector whenever a word is exhausted.
pub struct Chunk {
    pub practice_set: PracticeSet,
    pub words: VecDeque<Vec<char>>,
    pub window_len: usize,
}

/// The pending words laid out as the user sees them: each word followed by
/// one separator space.
pub open spec fn spaced(ws: Seq<Seq<char>>) -> Seq<char>
    decreases ws.len(),
{
    if ws.len() == 0 {
        Seq::empty()
    } else {
        spaced(ws.drop_last()) + ws.last() + seq![' ']
    }
}

proof fn lemma_spaced_push(ws: Seq<Seq<char>>, x: Seq<char>)
    ensures
        spaced(ws.push(x)) == spaced(ws) + x + seq![' '],
{
    assert(ws.push(x).drop_last() =~= ws);
    assert(ws.push(x).last() == x);
}

/// A sequence cut down to at most n elements.
pub open spec fn trunc<A>(s: Seq<A>, n: int) -> Seq<A> {
    if s.len() <= n {
        s
    } else {
        s.take(n)
    }
}

impl Chunk {
    /// The pending material, each word as its character sequence; index 0 is
    /// the word currently being consumed.
    pub open spec fn pending(&self) -> Seq<Seq<char>> {
        views_of(self.words@)
    }

    /// The text the render step shows: all pending words, each followed by a
    /// separator, cut down to the configured display width.
    pub open spec fn visible_text(&self) -> Seq<char> {
        trunc(spaced(self.pending()), self.window_len as int)
    }

    pub open spec fn wf(&self) -> bool {
        &&& self.practice_set.wf()
        &&& self.words@.len() >= 1
        &&& forall|i: int|
            0 <= i < self.pending().len() ==> word_eligible(
                #[trigger] self.pending()[i],
                self.practice_set.keys@,
            )
    }

    /// Builds the window with an initial prefill of `window_len / 2 + 1`
    /// words drawn from the selector.
    pub fn new(practice_set: PracticeSet, window_len: usize) -> (r: Chunk)
        requires
            practice_set.wf(),
        ensures
            r.wf(),
            r.window_len == window_len,
            r.practice_set.keys == practice_set.keys,
            r.words@.len() == window_len / 2 + 1,
            forall|i: int|
                0 <= i < r.pending().len() ==> practice_set.pool().contains(
                    #[trigger] r.pending()[i],
                ),
    {
        let mut ps = practice_set;
        let ghost pool = ps.pool();
        let mut drawn = ps.draw_n(window_len / 2 + 1);
        let mut queue: VecDeque<Vec<char>> = VecDeque::new();
        let ghost all = drawn@;
        proof {
            assert(all.skip(all.len() as int) =~= Seq::<Vec<char>>::empty());
        }
        while drawn.len() > 0
            invariant
                drawn@.len() <= all.len(),
                drawn@ == all.take(drawn@.len() as int),
                queue@ == all.skip(drawn@.len() as int),
            decreases drawn@.len(),
        {
            let ghost m = drawn@.len() as int;
            let w = drawn.pop().unwrap();
            queue.push_front(w);
            proof {
                assert(all.take(m).drop_last() =~= all.take(m - 1));
                assert(all.take(m).last() == all[m - 1]);
                assert(seq![all[m - 1]] + all.skip(m) =~= all.skip(m - 1));
            }
        }
        proof {
            assert(queue@ == all);
            assert forall|i: int| 0 <= i < views_of(queue@).len() implies word_eligible(
                #[trigger] views_of(queue@)[i],
                ps.keys@,
            ) by {
                assert(pool.contains(all[i]@));
                lemma_pool_word_eligible(&ps, all[i]@);
            }
        }
        Chunk { practice_set: ps, words: queue, window_len }
    }

    /// Yields the next goal character and the finger assigned to it.  While
    /// the front word has characters left, its first one is the goal; when it
    /// is exhausted, the word is dropped, a fresh word is drawn onto the back
    /// of the window, and the separator space is the goal (with no finger).
    pub fn next(&mut self) -> (r: (char, Option<Finger>))
        requires
            old(self).wf(),
        ensures
            final(self).wf(),
            final(self).window_len == old(self).window_len,
            final(self).practice_set.keys == old(self).practice_set.keys,
            final(self).words@.len() == old(self).words@.len(),
            ({
                let front = old(self).pending()[0];
                if front.len() > 0 {
                    &&& r.0 == front[0]
                    &&& final(self).pending() == old(self).pending().update(0, front.drop_first())
                } else {
                    &&& r.0 == ' '
                    &&& final(self).pending().drop_last() == old(self).pending().drop_first()
                    &&& old(self).practice_set.pool().contains(final(self).pending().last())
                }
            }),
            r.1 == (if old(self).practice_set.keys@.contains_key(r.0) {
                Some(old(self).practice_set.keys@[r.0])
            } else {
                None::<Finger>
            }),
    {
        let ghost before = self.pending();
        let mut front = match self.words.pop_front() {
            Some(w) => w,
            None => {
                proof {
                    assert(false);
                }
                Vec::new()
            },
        };
        let goal: char;
        if front.len() > 0 {
            goal = front.remove(0);
            self.words.push_front(front);
            proof {
                assert(front@ =~= before[0].drop_first());
                assert(self.pending() =~= before.update(0, before[0].drop_first()));
                assert forall|i: int| 0 <= i < self.pending().len() implies word_eligible(
                    #[trigger] self.pending()[i],
                    self.practice_set.keys@,
                ) by {
                    if i == 0 {
                        assert(word_eligible(before[0], self.practice_set.keys@));
                        assert(before[0].drop_first() =~= before[0].skip(1));
                    } else {
                        assert(word_eligible(before[i], self.practice_set.keys@));
                    }
                }
            }
        } else {
            let w = self.practice_set.draw();
            self.words.push_back(w);
            goal = ' ';
            proof {
                assert(self.pending().drop_last() =~= before.drop_first());
                assert(self.pending().last() == w@);
                lemma_pool_word_eligible(&self.practice_set, w@);
                assert forall|i: int| 0 <= i < self.pending().len() implies word_eligible(
                    #[trigger] self.pending()[i],
                    self.practice_set.keys@,
                ) by {
                    if i < self.pending().len() - 1 {
                        assert(self.pending()[i] == before[i + 1]);
                        assert(word_eligible(before[i + 1], self.practice_set.keys@));
                    }
                }
            }
        }
        let f = self.practice_set.finger(goal);
        (goal, f)
    }

    /// The render step: the pending words, each followed by one separator
    /// space, cut down to the configured display width.
    pub fn text(&self) -> (r: Vec<char>)
        ensures
            r@ == self.visible_text(),
    {
        let ghost pend = self.pending();
        let wl = self.window_len;
        let n = self.words.len();
        let mut out: Vec<char> = Vec::new();
        let mut i: usize = 0;
        proof {
            assert(pend.take(0) =~= Seq::<Seq<char>>::empty());
        }
        while i < n
            invariant
                n == self.words@.len(),
                wl == self.window_len,
                pend == self.pending(),
                i <= n,
                out@.len() <= wl,
                out@ == trunc(spaced(pend.take(i as int)), wl as int),
                out@.len() < wl ==> out@ == spaced(pend.take(i as int)),
            decreases n - i,
        {
            let ghost done = spaced(pend.take(i as int));
            let word = &self.words[i];
            let m = word.len();
            let mut j: usize = 0;
            proof {
                assert(word@.take(0) =~= Seq::<char>::empty());
                assert(done + word@.take(0) =~= done);
            }
            while j < m
                invariant
                    m == word@.len(),
                    wl == self.window_len,
                    j <= m,
                    out@.len() <= wl,
                    out@ == trunc(done + word@.take(j as int), wl as int),
                    out@.len() < wl ==> out@ == done + word@.take(j as int),
                decreases m - j,
            {
                proof {
                    assert(done + word@.take(j + 1) =~= (done + word@.take(j as int)).push(
                        word@[j as int],
                    ));
                    if (done + word@.take(j as int)).len() >= wl {
                        assert((done + word@.take(j + 1)).take(wl as int) =~= (done + word@.take(
                            j as int,
                        )).take(wl as int));
                    }
                }
                if out.len() < wl {
                    out.push(word[j]);
                }
                j += 1;
            }
            proof {
                assert(word@.take(m as int) =~= word@);
                assert(done + word@ + seq![' '] =~= (done + word@).push(' '));
                if (done + word@).len() >= wl {
                    assert((done + word@ + seq![' ']).take(wl as int) =~= (done + word@).take(
                        wl as int,
                    ));
                }
            }
            if out.len() < wl {
                out.push(' ');
            }
            proof {
                assert(pend.take(i + 1) =~= pend.take(i as int).push(pend[i as int]));
                lemma_spaced_push(pend.take(i as int), pend[i as int]);
                assert(pend[i as int] == word@);
                assert(spaced(pend.take(i + 1)) == done + word@ + seq![' ']);
            }
            i += 1;
        }
        proof {
            assert(pend.take(n as int) =~= pend);
        }
        out
    }
}

/// Law: the render step is a pure function of the window state.  Two renders
/// of windows with the same pending words and the same display width show
/// identical text, so rendering twice with an unchanged window changes
/// nothing.
pub proof fn lemma_render_deterministic(a: &Chunk, b: &Chunk)
    requires
        a.pending() == b.pending(),
        a.window_len == b.window_len,
    ensures
        a.visible_text() == b.visible_text(),
{
}

} // verus!
