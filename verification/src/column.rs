//! The column axis of a reference: a zero-based index plus an absolute
//! (lock) marker that affects display only.

use vstd::prelude::*;

verus! {

/// One column of a spreadsheet. `x` is the zero-based index (`A` = 0,
/// `Z` = 25, `AA` = 26, ...); `absolute` records a `$` lock marker in
/// notation and affects display only, never geometry.
#[derive(Clone, Copy, Debug, PartialEq, Eq, Structural)]
pub struct Column {
    pub absolute: bool,
    pub x: usize,
}

/// The mathematical value of a [`Column`].
pub struct ColumnV {
    pub absolute: bool,
    pub x: int,
}

impl View for Column {
    type V = ColumnV;

    open spec fn view(&self) -> ColumnV {
        ColumnV { absolute: self.absolute, x: self.x as int }
    }
}

impl Column {
    /// A non-absolute column at index `x`.
    pub fn new(x: usize) -> (r: Column)
        ensures
            r@ == (ColumnV { absolute: false, x: x as int }),
    {
        Column { absolute: false, x }
    }
}

impl From<usize> for Column {
    /// Widen a bare index into a non-absolute column.
    fn from(x: usize) -> (r: Column)
        ensures
            r == (Column { absolute: false, x }),
    {
        Column::new(x)
    }
}

impl vstd::std_specs::convert::FromSpecImpl<usize> for Column {
    open spec fn obeys_from_spec() -> bool {
        true
    }

    open spec fn from_spec(x: usize) -> Column {
        Column { absolute: false, x }
    }
}

} // verus!
