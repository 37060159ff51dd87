//! A library for converting between spreadsheet "A1" notation strings
//! (`"A1"`, `"Foo!A:D"`, `"C5:D9,G9:H16"`) and a structured reference model,
//! with geometric operations over that model: containment testing,
//! translation (shifting), and enumeration of the cells a reference denotes.
//!
//! Columns are written as bijective base-26 letters (`A` = 0, `Z` = 25,
//! `AA` = 26, ...) and rows as one-based decimal numbers; both axes can carry
//! an absolute marker `$` that affects display only.

use vstd::prelude::*;

pub mod a1;
pub mod address;
pub mod chars;
pub mod column;
pub mod error;
pub mod format;
pub mod laws;
pub mod parse;
pub mod range_or_cell;
pub mod row;

pub use crate::a1::{A1, A1V};
pub use crate::address::{Address, AddressV};
pub use crate::column::{Column, ColumnV};
pub use crate::error::{Error, ErrorV};
pub use crate::range_or_cell::{AreaV, RangeOrCell, RefV};
pub use crate::row::{Row, RowV};

pub use crate::parse::parse;

verus! {

use crate::a1::wf_a1;
use crate::parse::spec_parse;

/// Parse an A1-style string into an `A1`. The text before the last `!`, if
/// any, names the sheet; the rest is one area token (`B2`, `A1:C3`, `A:D`,
/// `1:4`) or a comma-separated union of them.
pub fn new(s: &str) -> (r: Result<A1, Error>)
    ensures
        match r {
            Ok(a) => wf_a1(a) && spec_parse(s@) == Ok::<A1V, ErrorV>(a@),
            Err(e) => spec_parse(s@) == Err::<A1V, ErrorV>(e@),
        },
{
    parse(s)
}

/// An `A1` referencing the single cell at column `x`, row `y` (both
/// zero-based), with no sheet name and no absolute markers.
pub fn cell(x: usize, y: usize) -> (r: A1)
    ensures
        crate::a1::wf_a1(r),
        r@.sheet is None,
        r@.reference == RefV::Area(AreaV::Cell(AddressV {
            column: ColumnV { absolute: false, x: x as int },
            row: RowV { absolute: false, y: y as int },
        })),
{
    A1 { sheet_name: None, reference: RangeOrCell::Cell(Address::new(x, y)) }
}

/// An `A1` spanning the rectangle between two corner cells, given in any
/// order.
pub fn range<A: Into<Address>>(from: A, to: A) -> (r: A1)
    ensures
        crate::a1::wf_a1(r),
        r@.sheet is None,
        <A as vstd::std_specs::convert::IntoSpec<Address>>::obeys_into_spec()
            ==> r@.reference == RefV::Area(AreaV::Range {
                from: <A as vstd::std_specs::convert::IntoSpec<Address>>::into_spec(from)@,
                to: <A as vstd::std_specs::convert::IntoSpec<Address>>::into_spec(to)@,
            }),
{
    let f: Address = from.into();
    let t: Address = to.into();
    A1 { sheet_name: None, reference: RangeOrCell::Range { from: f, to: t } }
}

/// An `A1` covering one entire column.
pub fn column<C: Into<Column>>(x: C) -> (r: A1)
    ensures
        crate::a1::wf_a1(r),
        r@.sheet is None,
        <C as vstd::std_specs::convert::IntoSpec<Column>>::obeys_into_spec()
            ==> r@.reference == RefV::Area(AreaV::ColumnRange {
                from: <C as vstd::std_specs::convert::IntoSpec<Column>>::into_spec(x)@,
                to: <C as vstd::std_specs::convert::IntoSpec<Column>>::into_spec(x)@,
            }),
{
    let c: Column = x.into();
    A1 { sheet_name: None, reference: RangeOrCell::ColumnRange { from: c, to: c } }
}

/// An `A1` covering every column between two columns, given in any order.
pub fn column_range<C: Into<Column>>(xa: C, xb: C) -> (r: A1)
    ensures
        crate::a1::wf_a1(r),
        r@.sheet is None,
        <C as vstd::std_specs::convert::IntoSpec<Column>>::obeys_into_spec()
            ==> r@.reference == RefV::Area(AreaV::ColumnRange {
                from: <C as vstd::std_specs::convert::IntoSpec<Column>>::into_spec(xa)@,
                to: <C as vstd::std_specs::convert::IntoSpec<Column>>::into_spec(xb)@,
            }),
{
    let a: Column = xa.into();
    let b: Column = xb.into();
    A1 { sheet_name: None, reference: RangeOrCell::ColumnRange { from: a, to: b } }
}

/// An `A1` covering one entire row.
pub fn row<R: Into<Row>>(y: R) -> (r: A1)
    ensures
        crate::a1::wf_a1(r),
        r@.sheet is None,
        <R as vstd::std_specs::convert::IntoSpec<Row>>::obeys_into_spec()
            ==> r@.reference == RefV::Area(AreaV::RowRange {
                from: <R as vstd::std_specs::convert::IntoSpec<Row>>::into_spec(y)@,
                to: <R as vstd::std_specs::convert::IntoSpec<Row>>::into_spec(y)@,
            }),
{
    let a: Row = y.into();
    A1 { sheet_name: None, reference: RangeOrCell::RowRange { from: a, to: a } }
}

/// An `A1` covering every row between two rows, given in any order.
pub fn row_range<R: Into<Row>>(ya: R, yb: R) -> (r: A1)
    ensures
        crate::a1::wf_a1(r),
        r@.sheet is None,
        <R as vstd::std_specs::convert::IntoSpec<Row>>::obeys_into_spec()
            ==> r@.reference == RefV::Area(AreaV::RowRange {
                from: <R as vstd::std_specs::convert::IntoSpec<Row>>::into_spec(ya)@,
                to: <R as vstd::std_specs::convert::IntoSpec<Row>>::into_spec(yb)@,
            }),
{
    let a: Row = ya.into();
    let b: Row = yb.into();
    A1 { sheet_name: None, reference: RangeOrCell::RowRange { from: a, to: b } }
}

} // verus!
