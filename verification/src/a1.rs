//! The top-level value the library exchanges: an optional sheet name plus a
//! reference, with the geometric operations callers use.

use crate::address::Address;
use crate::column::Column;
use crate::range_or_cell::{
    contains_ref, iter_ref, ref_contains, ref_iter, shift_ref, spec_shift_ref, wf_ref, AreaV,
    RangeOrCell, RefV,
};
use crate::row::Row;
use vstd::prelude::*;

verus! {

/// One A1 reference: a reference plus the sheet name its notation carried,
/// if any.
#[derive(Debug, PartialEq, Eq)]
pub struct A1 {
    pub sheet_name: Option<String>,
    pub reference: RangeOrCell,
}

/// The mathematical value of an [`A1`].
#[verifier::ext_equal]
pub struct A1V {
    pub sheet: Option<Seq<char>>,
    pub reference: RefV,
}

impl View for A1 {
    type V = A1V;

    open spec fn view(&self) -> A1V {
        A1V {
            sheet: match self.sheet_name {
                Some(s) => Some(s@),
                None => None,
            },
            reference: self.reference@,
        }
    }
}

/// Well-formedness of a whole A1 value: its reference never nests unions.
pub open spec fn wf_a1(a: A1) -> bool {
    wf_ref(a.reference)
}

impl A1 {
    /// Whether `self` contains every cell `other` denotes. Sheet names play
    /// no part: only the geometry is compared, and absolute markers are
    /// ignored.
    pub fn contains(&self, other: &A1) -> (r: bool)
        requires
            wf_a1(*self),
            wf_a1(*other),
        ensures
            r == ref_contains(self@.reference, other@.reference),
    {
        contains_ref(&self.reference, &other.reference)
    }

    /// The reference moved `n` columns to the right, stopping at the
    /// machine's index ceiling; shape, absolute markers and sheet name are
    /// kept.
    pub fn shift_right(self, n: usize) -> (r: A1)
        requires
            wf_a1(self),
        ensures
            wf_a1(r),
            r@.sheet == self@.sheet,
            r@.reference == spec_shift_ref(self@.reference, true, true, n as int),
    {
        let reference = shift_ref(&self.reference, true, true, n);
        A1 { sheet_name: self.sheet_name, reference }
    }

    /// The reference moved `n` columns to the left, stopping at column `A`.
    pub fn shift_left(self, n: usize) -> (r: A1)
        requires
            wf_a1(self),
        ensures
            wf_a1(r),
            r@.sheet == self@.sheet,
            r@.reference == spec_shift_ref(self@.reference, true, false, n as int),
    {
        let reference = shift_ref(&self.reference, true, false, n);
        A1 { sheet_name: self.sheet_name, reference }
    }

    /// The reference moved `n` rows down, stopping at the machine's index
    /// ceiling.
    pub fn shift_down(self, n: usize) -> (r: A1)
        requires
            wf_a1(self),
        ensures
            wf_a1(r),
            r@.sheet == self@.sheet,
            r@.reference == spec_shift_ref(self@.reference, false, true, n as int),
    {
        let reference = shift_ref(&self.reference, false, true, n);
        A1 { sheet_name: self.sheet_name, reference }
    }

    /// The reference moved `n` rows up, stopping at row `1`.
    pub fn shift_up(self, n: usize) -> (r: A1)
        requires
            wf_a1(self),
        ensures
            wf_a1(r),
            r@.sheet == self@.sheet,
            r@.reference == spec_shift_ref(self@.reference, false, false, n as int),
    {
        let reference = shift_ref(&self.reference, false, false, n);
        A1 { sheet_name: self.sheet_name, reference }
    }

    /// The finite sequence of values iterating this reference yields: a cell
    /// yields itself; a column or row range yields one single column or row
    /// per line, ascending; a rectangle yields one cell per coordinate in
    /// row-major order; a union concatenates its members' yields. Yielded
    /// values carry no sheet name.
    pub fn iter(&self) -> (out: Vec<A1>)
        requires
            wf_a1(*self),
            ref_iter(self@.reference).len() <= usize::MAX,
        ensures
            out@.len() == ref_iter(self@.reference).len(),
            forall|j: int| 0 <= j < out@.len() ==> wf_a1(#[trigger] out@[j]),
            forall|j: int| 0 <= j < out@.len() ==> (#[trigger] out@[j])@.sheet is None,
            forall|j: int| 0 <= j < out@.len() ==> (#[trigger] out@[j])@.reference
                == RefV::Area(ref_iter(self@.reference)[j]),
    {
        let pieces = iter_ref(&self.reference);
        let ghost target = ref_iter(self@.reference);
        let mut out: Vec<A1> = Vec::new();
        let len = pieces.len();
        let mut k: usize = 0;
        let mut rest = pieces;
        while k < len
            invariant
                0 <= k <= len,
                out@.len() == k,
                rest@.len() == len - k,
                len == target.len(),
                forall|j: int| 0 <= j < rest@.len() ==> wf_ref(#[trigger] rest@[j]),
                forall|j: int| 0 <= j < rest@.len() ==> !((#[trigger] rest@[j]) is NonContiguous),
                forall|j: int| 0 <= j < rest@.len() ==> crate::range_or_cell::area_view(
                    #[trigger] rest@[j],
                ) == target[k + j],
                forall|j: int| 0 <= j < k ==> wf_a1(#[trigger] out@[j]),
                forall|j: int| 0 <= j < k ==> (#[trigger] out@[j])@.sheet is None,
                forall|j: int| 0 <= j < k ==> (#[trigger] out@[j])@.reference
                    == RefV::Area(target[j]),
            decreases len - k,
        {
            let piece = rest.remove(0);
            assert(piece@ == RefV::Area(crate::range_or_cell::area_view(piece)));
            out.push(A1 { sheet_name: None, reference: piece });
            k += 1;
        }
        out
    }
}

impl From<Address> for RangeOrCell {
    /// Widen a single address into a cell reference.
    fn from(a: Address) -> (r: RangeOrCell)
        ensures
            r == RangeOrCell::Cell(a),
    {
        RangeOrCell::Cell(a)
    }
}

impl vstd::std_specs::convert::FromSpecImpl<Address> for RangeOrCell {
    open spec fn obeys_from_spec() -> bool {
        true
    }

    open spec fn from_spec(a: Address) -> RangeOrCell {
        RangeOrCell::Cell(a)
    }
}

impl From<Column> for RangeOrCell {
    /// Widen a single column into a one-column range.
    fn from(c: Column) -> (r: RangeOrCell)
        ensures
            r == (RangeOrCell::ColumnRange { from: c, to: c }),
    {
        RangeOrCell::ColumnRange { from: c, to: c }
    }
}

impl vstd::std_specs::convert::FromSpecImpl<Column> for RangeOrCell {
    open spec fn obeys_from_spec() -> bool {
        true
    }

    open spec fn from_spec(c: Column) -> RangeOrCell {
        RangeOrCell::ColumnRange { from: c, to: c }
    }
}

impl From<Row> for RangeOrCell {
    /// Widen a single row into a one-row range.
    fn from(r: Row) -> (out: RangeOrCell)
        ensures
            out == (RangeOrCell::RowRange { from: r, to: r }),
    {
        RangeOrCell::RowRange { from: r, to: r }
    }
}

impl vstd::std_specs::convert::FromSpecImpl<Row> for RangeOrCell {
    open spec fn obeys_from_spec() -> bool {
        true
    }

    open spec fn from_spec(r: Row) -> RangeOrCell {
        RangeOrCell::RowRange { from: r, to: r }
    }
}

impl From<RangeOrCell> for A1 {
    /// Widen a bare reference into an A1 value without a sheet name.
    fn from(r: RangeOrCell) -> (out: A1)
        ensures
            out == (A1 { sheet_name: None, reference: r }),
    {
        A1 { sheet_name: None, reference: r }
    }
}

impl vstd::std_specs::convert::FromSpecImpl<RangeOrCell> for A1 {
    open spec fn obeys_from_spec() -> bool {
        true
    }

    open spec fn from_spec(r: RangeOrCell) -> A1 {
        A1 { sheet_name: None, reference: r }
    }
}

impl From<Address> for A1 {
    /// Widen a single address into an A1 cell reference.
    fn from(a: Address) -> (out: A1)
        ensures
            out == (A1 { sheet_name: None, reference: RangeOrCell::Cell(a) }),
    {
        A1 { sheet_name: None, reference: RangeOrCell::Cell(a) }
    }
}

impl vstd::std_specs::convert::FromSpecImpl<Address> for A1 {
    open spec fn obeys_from_spec() -> bool {
        true
    }

    open spec fn from_spec(a: Address) -> A1 {
        A1 { sheet_name: None, reference: RangeOrCell::Cell(a) }
    }
}

impl From<Column> for A1 {
    /// Widen a single column into an A1 one-column range.
    fn from(c: Column) -> (out: A1)
        ensures
            out == (A1 {
                sheet_name: None,
                reference: RangeOrCell::ColumnRange { from: c, to: c },
            }),
    {
        A1 { sheet_name: None, reference: RangeOrCell::ColumnRange { from: c, to: c } }
    }
}

impl vstd::std_specs::convert::FromSpecImpl<Column> for A1 {
    open spec fn obeys_from_spec() -> bool {
        true
    }

    open spec fn from_spec(c: Column) -> A1 {
        A1 { sheet_name: None, reference: RangeOrCell::ColumnRange { from: c, to: c } }
    }
}

impl From<Row> for A1 {
    /// Widen a single row into an A1 one-row range.
    fn from(r: Row) -> (out: A1)
        ensures
            out == (A1 {
                sheet_name: None,
                reference: RangeOrCell::RowRange { from: r, to: r },
            }),
    {
        A1 { sheet_name: None, reference: RangeOrCell::RowRange { from: r, to: r } }
    }
}

impl vstd::std_specs::convert::FromSpecImpl<Row> for A1 {
    open spec fn obeys_from_spec() -> bool {
        true
    }

    open spec fn from_spec(r: Row) -> A1 {
        A1 { sheet_name: None, reference: RangeOrCell::RowRange { from: r, to: r } }
    }
}

} // verus!
