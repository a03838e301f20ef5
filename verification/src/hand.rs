use vstd::prelude::*;
use crate::align::Left;
use crate::practice_set::Finger;

verus! {

/// The width, in columns, of the drawn hand diagram.
pub const HAND_WIDTH: u16 = 35;

/// The state behind the virtual keyboard hand diagram: where it is drawn and
/// which finger, if any, is currently highlighted.
pub struct Hand {
    pub aligner: Left,
    pub selected: Option<Finger>,
}

impl Hand {
    /// A hand with no finger highlighted yet.
    pub fn new(aligner: Left) -> (r: Hand)
        ensures
            r.aligner == aligner,
            r.selected is None,
    {
        Hand { aligner, selected: None }
    }

    /// Highlights the given finger (or none, for the separator goal).
    pub fn select(&mut self, finger: Option<Finger>)
        ensures
            final(self).selected == finger,
            final(self).aligner == old(self).aligner,
    {
        self.selected = finger;
    }
}

/// Whether a finger drawn in the diagram is the highlighted one.  The
/// renderer picks its color from this alone; the core knows nothing of
/// colors.
pub fn highlight(displayed: Finger, selected: Option<Finger>) -> (r: bool)
    ensures
        r <==> selected == Some(displayed),
{
    match selected {
        Some(f) => f == displayed,
        None => false,
    }
}

} // verus!
