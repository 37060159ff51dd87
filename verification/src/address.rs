//! A single cell coordinate: one column paired with one row.

use crate::column::{Column, ColumnV};
use crate::row::{Row, RowV};
use vstd::prelude::*;

verus! {

/// One cell coordinate. `(0, 0)` is the top-left corner, written `A1`.
#[derive(Clone, Copy, Debug, PartialEq, Eq, Structural)]
pub struct Address {
    pub column: Column,
    pub row: Row,
}

/// The mathematical value of an [`Address`].
pub struct AddressV {
    pub column: ColumnV,
    pub row: RowV,
}

impl View for Address {
    type V = AddressV;

    open spec fn view(&self) -> AddressV {
        AddressV { column: self.column@, row: self.row@ }
    }
}

impl Address {
    /// A non-absolute cell coordinate at column `x`, row `y`.
    pub fn new(x: usize, y: usize) -> (r: Address)
        ensures
            r@ == (AddressV {
                column: ColumnV { absolute: false, x: x as int },
                row: RowV { absolute: false, y: y as int },
            }),
    {
        Address { column: Column::new(x), row: Row::new(y) }
    }
}

impl From<(usize, usize)> for Address {
    /// Widen a bare `(x, y)` pair into a non-absolute cell coordinate.
    fn from(pair: (usize, usize)) -> (r: Address)
        ensures
            r == (Address {
                column: Column { absolute: false, x: pair.0 },
                row: Row { absolute: false, y: pair.1 },
            }),
    {
        Address::new(pair.0, pair.1)
    }
}

impl vstd::std_specs::convert::FromSpecImpl<(usize, usize)> for Address {
    open spec fn obeys_from_spec() -> bool {
        true
    }

    open spec fn from_spec(pair: (usize, usize)) -> Address {
        Address {
            column: Column { absolute: false, x: pair.0 },
            row: Row { absolute: false, y: pair.1 },
        }
    }
}

impl From<Address> for Column {
    /// Narrow an address to its column axis.
    fn from(a: Address) -> (r: Column)
        ensures
            r == a.column,
    {
        a.column
    }
}

impl vstd::std_specs::convert::FromSpecImpl<Address> for Column {
    open spec fn obeys_from_spec() -> bool {
        true
    }

    open spec fn from_spec(a: Address) -> Column {
        a.column
    }
}

impl From<Address> for Row {
    /// Narrow an address to its row axis.
    fn from(a: Address) -> (r: Row)
        ensures
            r == a.row,
    {
        a.row
    }
}

impl vstd::std_specs::convert::FromSpecImpl<Address> for Row {
    open spec fn obeys_from_spec() -> bool {
        true
    }

    open spec fn from_spec(a: Address) -> Row {
        a.row
    }
}

} // verus!
