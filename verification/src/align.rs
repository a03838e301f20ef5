use vstd::prelude::*;

verus! {

/// A left margin, in terminal columns, at which a widget is drawn.
#[derive(Clone, Copy, Debug, PartialEq, Eq, Structural)]
pub struct Left(pub u16);

} // verus!
