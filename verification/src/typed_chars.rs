use vstd::prelude::*;
use std::collections::VecDeque;

verus! {

/// A bounded trail of the most recently typed characters: once full, each
/// newly typed character pushes the oldest one out.
pub struct TypedChars {
    pub chars: VecDeque<char>,
    pub capacity: usize,
}

impl TypedChars {
    pub open spec fn wf(&self) -> bool {
        self.chars@.len() <= self.capacity
    }

    /// An empty trail that will hold at most `capacity` characters.
    pub fn new(capacity: usize) -> (r: TypedChars)
        ensures
            r.chars@.len() == 0,
            r.capacity == capacity,
            r.wf(),
    {
        TypedChars { chars: VecDeque::with_capacity(capacity), capacity }
    }

    /// Appends a typed character, dropping the oldest one when the trail is
    /// full.
    pub fn add(&mut self, a: char)
        ensures
            final(self).capacity == old(self).capacity,
            final(self).chars@ == (if old(self).chars@.len() == old(self).capacity
                && old(self).capacity > 0 {
                old(self).chars@.drop_first().push(a)
            } else {
                old(self).chars@.push(a)
            }),
            old(self).wf() && old(self).capacity > 0 ==> final(self).wf(),
    {
        if self.chars.len() == self.capacity {
            self.chars.pop_front();
        }
        self.chars.push_back(a);
        proof {
            if old(self).chars@.len() == old(self).capacity && old(self).capacity > 0 {
                assert(self.chars@ =~= old(self).chars@.drop_first().push(a));
            }
        }
    }

    /// The trail's contents, oldest first, for the renderer to pad and
    /// color.
    pub fn text(&self) -> (r: Vec<char>)
        ensures
            r@ == self.chars@,
    {
        let n = self.chars.len();
        let mut out: Vec<char> = Vec::new();
        let mut j: usize = 0;
        while j < n
            invariant
                n == self.chars@.len(),
                j <= n,
                out@ == self.chars@.take(j as int),
            decreases n - j,
        {
            out.push(self.chars[j]);
            proof {
                assert(self.chars@.take(j + 1) =~= self.chars@.take(j as int).push(
                    self.chars@[j as int],
                ));
            }
            j += 1;
        }
        proof {
            assert(self.chars@.take(n as int) =~= self.chars@);
        }
        out
    }
}

} // verus!
