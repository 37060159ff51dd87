//! The row axis of a reference: a zero-based index plus an absolute (lock)
//! marker. Rows display one-based: stored index 0 renders as `1`.

use vstd::prelude::*;

verus! {

/// One row of a spreadsheet. `y` is the zero-based index; notation shows
/// `y + 1`. `absolute` records a `$` lock marker and affects display only.
#[derive(Clone, Copy, Debug, PartialEq, Eq, Structural)]
pub struct Row {
    pub absolute: bool,
    pub y: usize,
}

/// The mathematical value of a [`Row`].
pub struct RowV {
    pub absolute: bool,
    pub y: int,
}

impl View for Row {
    type V = RowV;

    open spec fn view(&self) -> RowV {
        RowV { absolute: self.absolute, y: self.y as int }
    }
}

impl Row {
    /// A non-absolute row at index `y`.
    pub fn new(y: usize) -> (r: Row)
        ensures
            r@ == (RowV { absolute: false, y: y as int }),
    {
        Row { absolute: false, y }
    }
}

impl From<usize> for Row {
    /// Widen a bare index into a non-absolute row.
    fn from(y: usize) -> (r: Row)
        ensures
            r == (Row { absolute: false, y }),
    {
        Row::new(y)
    }
}

impl vstd::std_specs::convert::FromSpecImpl<usize> for Row {
    open spec fn obeys_from_spec() -> bool {
        true
    }

    open spec fn from_spec(y: usize) -> Row {
        Row { absolute: false, y }
    }
}

} // verus!
