//! The reference model: the closed set of shapes a reference can take, and
//! the geometric operations over it (containment, shifting, enumeration).

use crate::address::{Address, AddressV};
use crate::column::{Column, ColumnV};
use crate::row::{Row, RowV};
use vstd::prelude::*;

verus! {

/// One reference shape. A union (`NonContiguous`) holds single areas only:
/// the grammar never nests unions, and well-formedness (`wf`) states that.
#[derive(Debug, PartialEq, Eq)]
pub enum RangeOrCell {
    /// One cell, such as `B2`.
    Cell(Address),
    /// A rectangle spanning two corner cells (in either order), `A1:C3`.
    Range { from: Address, to: Address },
    /// Whole columns between two columns inclusive (either order), `A:D`.
    ColumnRange { from: Column, to: Column },
    /// Whole rows between two rows inclusive (either order), `1:4`.
    RowRange { from: Row, to: Row },
    /// A comma-separated union of areas, order preserved, `C5:D9,G9:H16`.
    NonContiguous(Vec<RangeOrCell>),
}

/// The mathematical value of one single (non-union) area.
#[verifier::ext_equal]
pub enum AreaV {
    Cell(AddressV),
    Range { from: AddressV, to: AddressV },
    ColumnRange { from: ColumnV, to: ColumnV },
    RowRange { from: RowV, to: RowV },
}

/// The mathematical value of a [`RangeOrCell`].
#[verifier::ext_equal]
pub enum RefV {
    Area(AreaV),
    NonContiguous(Seq<AreaV>),
}

/// The area value of a single (non-union) reference. On a union this is a
/// placeholder; well-formed values never hold a union inside a union.
pub open spec fn area_view(r: RangeOrCell) -> AreaV {
    match r {
        RangeOrCell::Cell(a) => AreaV::Cell(a@),
        RangeOrCell::Range { from, to } => AreaV::Range { from: from@, to: to@ },
        RangeOrCell::ColumnRange { from, to } => AreaV::ColumnRange { from: from@, to: to@ },
        RangeOrCell::RowRange { from, to } => AreaV::RowRange { from: from@, to: to@ },
        RangeOrCell::NonContiguous(_) => AreaV::Cell(
            AddressV {
                column: ColumnV { absolute: false, x: 0 },
                row: RowV { absolute: false, y: 0 },
            },
        ),
    }
}

impl View for RangeOrCell {
    type V = RefV;

    open spec fn view(&self) -> RefV {
        match self {
            RangeOrCell::NonContiguous(v) => RefV::NonContiguous(
                v@.map_values(|m: RangeOrCell| area_view(m)),
            ),
            _ => RefV::Area(area_view(*self)),
        }
    }
}

/// Well-formedness: a union holds single areas only.
pub open spec fn wf_ref(r: RangeOrCell) -> bool {
    match r {
        RangeOrCell::NonContiguous(v) => forall|i: int|
            0 <= i < v@.len() ==> !((#[trigger] v@[i]) is NonContiguous),
        _ => true,
    }
}

/// Whether the area constrains columns (everything but a whole-row range).
pub open spec fn col_bounded(a: AreaV) -> bool {
    !(a is RowRange)
}

/// Whether the area constrains rows (everything but a whole-column range).
pub open spec fn row_bounded(a: AreaV) -> bool {
    !(a is ColumnRange)
}

/// The smaller of two numbers.
pub open spec fn imin(a: int, b: int) -> int {
    if a <= b {
        a
    } else {
        b
    }
}

/// The larger of two numbers.
pub open spec fn imax(a: int, b: int) -> int {
    if a <= b {
        b
    } else {
        a
    }
}

/// The least column an area covers (meaningful when `col_bounded`).
pub open spec fn area_cmin(a: AreaV) -> int {
    match a {
        AreaV::Cell(ad) => ad.column.x,
        AreaV::Range { from, to } => imin(from.column.x, to.column.x),
        AreaV::ColumnRange { from, to } => imin(from.x, to.x),
        AreaV::RowRange { .. } => 0,
    }
}

/// The greatest column an area covers (meaningful when `col_bounded`).
pub open spec fn area_cmax(a: AreaV) -> int {
    match a {
        AreaV::Cell(ad) => ad.column.x,
        AreaV::Range { from, to } => imax(from.column.x, to.column.x),
        AreaV::ColumnRange { from, to } => imax(from.x, to.x),
        AreaV::RowRange { .. } => 0,
    }
}

/// The least row an area covers (meaningful when `row_bounded`).
pub open spec fn area_rmin(a: AreaV) -> int {
    match a {
        AreaV::Cell(ad) => ad.row.y,
        AreaV::Range { from, to } => imin(from.row.y, to.row.y),
        AreaV::ColumnRange { .. } => 0,
        AreaV::RowRange { from, to } => imin(from.y, to.y),
    }
}

/// The greatest row an area covers (meaningful when `row_bounded`).
pub open spec fn area_rmax(a: AreaV) -> int {
    match a {
        AreaV::Cell(ad) => ad.row.y,
        AreaV::Range { from, to } => imax(from.row.y, to.row.y),
        AreaV::ColumnRange { .. } => 0,
        AreaV::RowRange { from, to } => imax(from.y, to.y),
    }
}

/// Whether area `outer` contains every cell of area `inner`. Absolute
/// markers never matter here. A cell contains only that same cell; a
/// rectangle contains cells and rectangles inside its normalized bounds; a
/// whole-column range constrains columns only and so can never contain a
/// whole-row range, and symmetrically.
pub open spec fn area_contains(outer: AreaV, inner: AreaV) -> bool {
    &&& (outer is Cell ==> inner is Cell)
    &&& (col_bounded(outer) ==> col_bounded(inner) && area_cmin(outer) <= area_cmin(inner)
        && area_cmax(inner) <= area_cmax(outer))
    &&& (row_bounded(outer) ==> row_bounded(inner) && area_rmin(outer) <= area_rmin(inner)
        && area_rmax(inner) <= area_rmax(outer))
}

/// Whether reference `outer` contains the single area `b`: a union outer
/// contains it when at least one member does (disjunctive).
pub open spec fn ref_contains_area(outer: RefV, b: AreaV) -> bool {
    match outer {
        RefV::Area(a) => area_contains(a, b),
        RefV::NonContiguous(os) => exists|j: int|
            0 <= j < os.len() && area_contains(#[trigger] os[j], b),
    }
}

/// Whether reference `outer` contains reference `inner`. A union inner must
/// have every member contained (conjunctive); a union outer contains an area
/// when at least one member does (disjunctive).
pub open spec fn ref_contains(outer: RefV, inner: RefV) -> bool {
    match inner {
        RefV::Area(b) => ref_contains_area(outer, b),
        RefV::NonContiguous(bs) => forall|k: int|
            0 <= k < bs.len() ==> ref_contains_area(outer, #[trigger] bs[k]),
    }
}

/// Containment of one single area by another, executably.
fn contains_area_area(outer: &RangeOrCell, inner: &RangeOrCell) -> (r: bool)
    requires
        !(outer is NonContiguous),
        !(inner is NonContiguous),
    ensures
        r == area_contains(area_view(*outer), area_view(*inner)),
{
    let o = area_view_bounds(outer);
    let i = area_view_bounds(inner);
    let cell_ok = !(matches!(outer, RangeOrCell::Cell(_))) || matches!(inner, RangeOrCell::Cell(_));
    let col_ok = !o.0 || (i.0 && o.1 <= i.1 && i.2 <= o.2);
    let row_ok = !o.3 || (i.3 && o.4 <= i.4 && i.5 <= o.5);
    cell_ok && col_ok && row_ok
}

/// The bounds of one single area: (column-bounded, least column, greatest
/// column, row-bounded, least row, greatest row). Unconstrained axes report
/// zeros.
fn area_view_bounds(r: &RangeOrCell) -> (b: (bool, usize, usize, bool, usize, usize))
    requires
        !(r is NonContiguous),
    ensures
        b.0 == col_bounded(area_view(*r)),
        b.3 == row_bounded(area_view(*r)),
        b.1 == area_cmin(area_view(*r)),
        b.2 == area_cmax(area_view(*r)),
        b.4 == area_rmin(area_view(*r)),
        b.5 == area_rmax(area_view(*r)),
{
    match r {
        RangeOrCell::Cell(a) => (true, a.column.x, a.column.x, true, a.row.y, a.row.y),
        RangeOrCell::Range { from, to } => {
            let cmin = if from.column.x <= to.column.x { from.column.x } else { to.column.x };
            let cmax = if from.column.x <= to.column.x { to.column.x } else { from.column.x };
            let rmin = if from.row.y <= to.row.y { from.row.y } else { to.row.y };
            let rmax = if from.row.y <= to.row.y { to.row.y } else { from.row.y };
            (true, cmin, cmax, true, rmin, rmax)
        },
        RangeOrCell::ColumnRange { from, to } => {
            let cmin = if from.x <= to.x { from.x } else { to.x };
            let cmax = if from.x <= to.x { to.x } else { from.x };
            (true, cmin, cmax, false, 0, 0)
        },
        RangeOrCell::RowRange { from, to } => {
            let rmin = if from.y <= to.y { from.y } else { to.y };
            let rmax = if from.y <= to.y { to.y } else { from.y };
            (false, 0, 0, true, rmin, rmax)
        },
        RangeOrCell::NonContiguous(_) => {
            proof {
                assert(false);
            }
            (false, 0, 0, false, 0, 0)
        },
    }
}

/// Containment of one single area by a whole reference (union outer is
/// disjunctive over its members).
#[verifier::loop_isolation(false)]
fn contains_ref_area(outer: &RangeOrCell, inner: &RangeOrCell) -> (r: bool)
    requires
        wf_ref(*outer),
        !(inner is NonContiguous),
    ensures
        r == ref_contains_area(outer@, area_view(*inner)),
{
    match outer {
        RangeOrCell::NonContiguous(os) => {
            let ghost osv = os@.map_values(|m: RangeOrCell| area_view(m));
            assert(outer@ == RefV::NonContiguous(osv));
            let n = os.len();
            let mut k: usize = 0;
            while k < n
                invariant
                    n == os.len(),
                    0 <= k <= n,
                    wf_ref(*outer),
                    outer == RangeOrCell::NonContiguous(*os),
                    outer@ == RefV::NonContiguous(osv),
                    osv == os@.map_values(|m: RangeOrCell| area_view(m)),
                    !(*inner is NonContiguous),
                    forall|j: int| 0 <= j < k ==> !area_contains(#[trigger] osv[j], area_view(*inner)),
                decreases n - k,
            {
                assert(!(os@[k as int] is NonContiguous));
                assert(osv[k as int] == area_view(os@[k as int]));
                if contains_area_area(&os[k], inner) {
                    assert(area_contains(osv[k as int], area_view(*inner)));
                    assert(match outer@ {
                        RefV::NonContiguous(os2) => exists|j: int|
                            0 <= j < os2.len() && area_contains(#[trigger] os2[j], area_view(*inner)),
                        _ => false,
                    });
                    return true;
                }
                k += 1;
            }
            false
        },
        _ => contains_area_area(outer, inner),
    }
}

/// Whether `outer` contains `inner`, executably. Mirrors [`ref_contains`].
#[verifier::loop_isolation(false)]
pub fn contains_ref(outer: &RangeOrCell, inner: &RangeOrCell) -> (r: bool)
    requires
        wf_ref(*outer),
        wf_ref(*inner),
    ensures
        r == ref_contains(outer@, inner@),
{
    match inner {
        RangeOrCell::NonContiguous(is_) => {
            let ghost isv = is_@.map_values(|m: RangeOrCell| area_view(m));
            assert(inner@ == RefV::NonContiguous(isv));
            let n = is_.len();
            let mut k: usize = 0;
            while k < n
                invariant
                    n == is_.len(),
                    0 <= k <= n,
                    wf_ref(*outer),
                    wf_ref(*inner),
                    inner == RangeOrCell::NonContiguous(*is_),
                    inner@ == RefV::NonContiguous(isv),
                    isv == is_@.map_values(|m: RangeOrCell| area_view(m)),
                    forall|j: int| 0 <= j < k ==> ref_contains_area(outer@, #[trigger] isv[j]),
                decreases n - k,
            {
                assert(!(is_@[k as int] is NonContiguous));
                assert(isv[k as int] == area_view(is_@[k as int]));
                let ok = contains_ref_area(outer, &is_[k]);
                if !ok {
                    assert(!ref_contains_area(outer@, isv[k as int]));
                    assert(match inner@ {
                        RefV::NonContiguous(bs) => bs == isv,
                        _ => false,
                    });
                    assert(!ref_contains(outer@, inner@));
                    return false;
                }
                k += 1;
            }
            true
        },
        _ => {
            let r = contains_ref_area(outer, inner);
            assert(inner@ == RefV::Area(area_view(*inner)));
            r
        },
    }
}

/// `x + n`, stopped at the machine's index ceiling.
pub open spec fn sat_add(x: int, n: int) -> int {
    if x + n > usize::MAX {
        usize::MAX as int
    } else {
        x + n
    }
}

/// `x - n`, stopped at zero (shifting past column `A` or row `1` saturates).
pub open spec fn sat_sub(x: int, n: int) -> int {
    if x - n < 0 {
        0
    } else {
        x - n
    }
}

/// One axis value translated by `n`: up when `inc`, down otherwise.
pub open spec fn axis_shift(v: int, inc: bool, n: int) -> int {
    if inc {
        sat_add(v, n)
    } else {
        sat_sub(v, n)
    }
}

/// A column translated by `n`; the absolute marker is kept.
pub open spec fn col_shift(c: ColumnV, inc: bool, n: int) -> ColumnV {
    ColumnV { absolute: c.absolute, x: axis_shift(c.x, inc, n) }
}

/// A row translated by `n`; the absolute marker is kept.
pub open spec fn row_shift(r: RowV, inc: bool, n: int) -> RowV {
    RowV { absolute: r.absolute, y: axis_shift(r.y, inc, n) }
}

/// An address translated by `n` along one axis (columns when `cols`).
pub open spec fn addr_shift(a: AddressV, cols: bool, inc: bool, n: int) -> AddressV {
    if cols {
        AddressV { column: col_shift(a.column, inc, n), row: a.row }
    } else {
        AddressV { column: a.column, row: row_shift(a.row, inc, n) }
    }
}

/// An area translated by `n` along one axis, keeping its shape and all
/// absolute markers.
pub open spec fn spec_shift_area(a: AreaV, cols: bool, inc: bool, n: int) -> AreaV {
    match a {
        AreaV::Cell(ad) => AreaV::Cell(addr_shift(ad, cols, inc, n)),
        AreaV::Range { from, to } => AreaV::Range {
            from: addr_shift(from, cols, inc, n),
            to: addr_shift(to, cols, inc, n),
        },
        AreaV::ColumnRange { from, to } => if cols {
            AreaV::ColumnRange { from: col_shift(from, inc, n), to: col_shift(to, inc, n) }
        } else {
            a
        },
        AreaV::RowRange { from, to } => if !cols {
            AreaV::RowRange { from: row_shift(from, inc, n), to: row_shift(to, inc, n) }
        } else {
            a
        },
    }
}

/// A reference translated by `n` along one axis; a union shifts every member.
pub open spec fn spec_shift_ref(r: RefV, cols: bool, inc: bool, n: int) -> RefV {
    match r {
        RefV::Area(a) => RefV::Area(spec_shift_area(a, cols, inc, n)),
        RefV::NonContiguous(list) => RefV::NonContiguous(
            Seq::new(list.len(), |i: int| spec_shift_area(list[i], cols, inc, n)),
        ),
    }
}

/// `x + n` with the ceiling stop, executably.
fn sat_add_exec(x: usize, n: usize) -> (r: usize)
    ensures
        r as int == sat_add(x as int, n as int),
{
    if x > usize::MAX - n {
        usize::MAX
    } else {
        x + n
    }
}

/// `x - n` with the floor stop, executably.
fn sat_sub_exec(x: usize, n: usize) -> (r: usize)
    ensures
        r as int == sat_sub(x as int, n as int),
{
    if x < n {
        0
    } else {
        x - n
    }
}

fn shift_column_exec(c: Column, inc: bool, n: usize) -> (r: Column)
    ensures
        r@ == col_shift(c@, inc, n as int),
{
    let x = if inc {
        sat_add_exec(c.x, n)
    } else {
        sat_sub_exec(c.x, n)
    };
    Column { absolute: c.absolute, x }
}

fn shift_row_exec(r: Row, inc: bool, n: usize) -> (out: Row)
    ensures
        out@ == row_shift(r@, inc, n as int),
{
    let y = if inc {
        sat_add_exec(r.y, n)
    } else {
        sat_sub_exec(r.y, n)
    };
    Row { absolute: r.absolute, y }
}

fn shift_address_exec(a: Address, cols: bool, inc: bool, n: usize) -> (out: Address)
    ensures
        out@ == addr_shift(a@, cols, inc, n as int),
{
    if cols {
        Address { column: shift_column_exec(a.column, inc, n), row: a.row }
    } else {
        Address { column: a.column, row: shift_row_exec(a.row, inc, n) }
    }
}

fn shift_area_exec(a: &RangeOrCell, cols: bool, inc: bool, n: usize) -> (out: RangeOrCell)
    requires
        !(a is NonContiguous),
    ensures
        !(out is NonContiguous),
        area_view(out) == spec_shift_area(area_view(*a), cols, inc, n as int),
{
    match a {
        RangeOrCell::Cell(ad) => RangeOrCell::Cell(shift_address_exec(*ad, cols, inc, n)),
        RangeOrCell::Range { from, to } => RangeOrCell::Range {
            from: shift_address_exec(*from, cols, inc, n),
            to: shift_address_exec(*to, cols, inc, n),
        },
        RangeOrCell::ColumnRange { from, to } => if cols {
            RangeOrCell::ColumnRange {
                from: shift_column_exec(*from, inc, n),
                to: shift_column_exec(*to, inc, n),
            }
        } else {
            RangeOrCell::ColumnRange { from: *from, to: *to }
        },
        RangeOrCell::RowRange { from, to } => if !cols {
            RangeOrCell::RowRange {
                from: shift_row_exec(*from, inc, n),
                to: shift_row_exec(*to, inc, n),
            }
        } else {
            RangeOrCell::RowRange { from: *from, to: *to }
        },
        RangeOrCell::NonContiguous(_) => {
            proof {
                assert(false);
            }
            RangeOrCell::Cell(Address::new(0, 0))
        },
    }
}

/// A reference translated by `n` along one axis, executably. Mirrors
/// [`spec_shift_ref`].
#[verifier::loop_isolation(false)]
pub fn shift_ref(r: &RangeOrCell, cols: bool, inc: bool, n: usize) -> (out: RangeOrCell)
    requires
        wf_ref(*r),
    ensures
        wf_ref(out),
        out@ == spec_shift_ref(r@, cols, inc, n as int),
{
    match r {
        RangeOrCell::NonContiguous(v) => {
            let ghost vv = v@.map_values(|m: RangeOrCell| area_view(m));
            assert(r@ == RefV::NonContiguous(vv));
            let len = v.len();
            let mut out_vec: Vec<RangeOrCell> = Vec::new();
            let mut k: usize = 0;
            while k < len
                invariant
                    0 <= k <= len,
                    out_vec@.len() == k,
                    forall|j: int| 0 <= j < k ==> !((#[trigger] out_vec@[j]) is NonContiguous),
                    forall|j: int| 0 <= j < k ==> area_view(#[trigger] out_vec@[j])
                        == spec_shift_area(vv[j], cols, inc, n as int),
                decreases len - k,
            {
                assert(!(v@[k as int] is NonContiguous));
                assert(vv[k as int] == area_view(v@[k as int]));
                let s = shift_area_exec(&v[k], cols, inc, n);
                out_vec.push(s);
                k += 1;
            }
            let result = RangeOrCell::NonContiguous(out_vec);
            proof {
                let outv = out_vec@.map_values(|m: RangeOrCell| area_view(m));
                assert(result@ == RefV::NonContiguous(outv));
                assert(outv =~= Seq::new(vv.len(), |i: int| spec_shift_area(vv[i], cols, inc, n as int)));
            }
            result
        },
        _ => {
            let s = shift_area_exec(r, cols, inc, n);
            assert(r@ == RefV::Area(area_view(*r)));
            assert(s@ == RefV::Area(area_view(s)));
            s
        },
    }
}

/// The sequence of single areas an area's iteration yields: a cell yields
/// itself; a column range yields one single column per column, ascending; a
/// row range one single row per row; a rectangle yields one cell per
/// coordinate in row-major order. Yielded columns and rows carry no
/// absolute markers (a lone cell is yielded exactly as it stands).
pub open spec fn area_iter(a: AreaV) -> Seq<AreaV> {
    match a {
        AreaV::Cell(ad) => seq![AreaV::Cell(ad)],
        AreaV::ColumnRange { from, to } => {
            let lo = imin(from.x, to.x);
            let hi = imax(from.x, to.x);
            Seq::new((hi - lo + 1) as nat, |k: int| AreaV::ColumnRange {
                from: ColumnV { absolute: false, x: lo + k },
                to: ColumnV { absolute: false, x: lo + k },
            })
        },
        AreaV::RowRange { from, to } => {
            let lo = imin(from.y, to.y);
            let hi = imax(from.y, to.y);
            Seq::new((hi - lo + 1) as nat, |k: int| AreaV::RowRange {
                from: RowV { absolute: false, y: lo + k },
                to: RowV { absolute: false, y: lo + k },
            })
        },
        AreaV::Range { from, to } => {
            let clo = imin(from.column.x, to.column.x);
            let w = imax(from.column.x, to.column.x) - clo + 1;
            let rlo = imin(from.row.y, to.row.y);
            let h = imax(from.row.y, to.row.y) - rlo + 1;
            Seq::new((w * h) as nat, |k: int| AreaV::Cell(
                AddressV {
                    column: ColumnV { absolute: false, x: clo + k % w },
                    row: RowV { absolute: false, y: rlo + k / w },
                },
            ))
        },
    }
}

/// The concatenation of the iterations of a list of areas, in order.
pub open spec fn areas_iter(list: Seq<AreaV>) -> Seq<AreaV>
    decreases list.len(),
{
    if list.len() == 0 {
        Seq::empty()
    } else {
        area_iter(list[0]) + areas_iter(list.skip(1))
    }
}

/// What iterating a reference yields; a union yields each member's cells in
/// stored order, without removing duplicates.
pub open spec fn ref_iter(r: RefV) -> Seq<AreaV> {
    match r {
        RefV::Area(a) => area_iter(a),
        RefV::NonContiguous(list) => areas_iter(list),
    }
}

/// The iteration of a list splits at any point `k` into the iteration of the
/// first `k` areas followed by the iteration of the rest.
pub proof fn lemma_areas_iter_split(list: Seq<AreaV>, k: int)
    requires
        0 <= k <= list.len(),
    ensures
        areas_iter(list) == areas_iter(list.take(k)) + areas_iter(list.skip(k)),
    decreases k,
{
    if k == 0 {
        assert(list.take(0) =~= Seq::<AreaV>::empty());
        assert(list.skip(0) =~= list);
        assert(areas_iter(list.take(0)) + areas_iter(list) =~= areas_iter(list));
    } else {
        let rest = list.skip(1);
        lemma_areas_iter_split(rest, k - 1);
        assert(rest.take(k - 1) =~= list.take(k).skip(1));
        assert(rest.skip(k - 1) =~= list.skip(k));
        assert(list.take(k)[0] == list[0]);
        assert(areas_iter(list.take(k)) == area_iter(list[0]) + areas_iter(list.take(k).skip(1)));
        assert(areas_iter(list) == area_iter(list[0]) + (areas_iter(list.take(k).skip(1))
            + areas_iter(list.skip(k))));
        assert(area_iter(list[0]) + (areas_iter(list.take(k).skip(1)) + areas_iter(list.skip(k)))
            =~= (area_iter(list[0]) + areas_iter(list.take(k).skip(1))) + areas_iter(list.skip(k)));
    }
}

/// Where a flat index `k` falls in a `w`-wide grid: its column and row.
proof fn lemma_flat_index(k: int, w: int, h: int)
    requires
        0 < w,
        0 < h,
        0 <= k < w * h,
    ensures
        0 <= k % w < w,
        0 <= k / w < h,
{
    vstd::arithmetic::div_mod::lemma_mod_bound(k, w);
    vstd::arithmetic::div_mod::lemma_fundamental_div_mod(k, w);
    vstd::arithmetic::div_mod::lemma_div_pos_is_pos(k, w);
    if k / w >= h {
        vstd::arithmetic::mul::lemma_mul_inequality(h, k / w, w);
        assert(h * w <= (k / w) * w);
        vstd::arithmetic::mul::lemma_mul_is_commutative(h, w);
        vstd::arithmetic::mul::lemma_mul_is_commutative(k / w, w);
        assert(false);
    }
}

/// The cells an area's iteration yields, executably. Mirrors [`area_iter`].
#[verifier::loop_isolation(false)]
fn iter_area_exec(a: &RangeOrCell) -> (out: Vec<RangeOrCell>)
    requires
        !(a is NonContiguous),
        area_iter(area_view(*a)).len() <= usize::MAX,
    ensures
        out@.len() == area_iter(area_view(*a)).len(),
        forall|j: int| 0 <= j < out@.len() ==> !((#[trigger] out@[j]) is NonContiguous),
        forall|j: int| 0 <= j < out@.len() ==> area_view(#[trigger] out@[j])
            == area_iter(area_view(*a))[j],
{
    let ghost target = area_iter(area_view(*a));
    match a {
        RangeOrCell::Cell(ad) => {
            let mut out: Vec<RangeOrCell> = Vec::new();
            out.push(RangeOrCell::Cell(*ad));
            out
        },
        RangeOrCell::ColumnRange { from, to } => {
            let lo = if from.x <= to.x { from.x } else { to.x };
            let hi = if from.x <= to.x { to.x } else { from.x };
            assert(target.len() == hi - lo + 1);
            let count = hi - lo + 1;
            let mut out: Vec<RangeOrCell> = Vec::new();
            let mut k: usize = 0;
            while k < count
                invariant
                    out@.len() == k <= count,
                    forall|j: int| 0 <= j < k ==> !((#[trigger] out@[j]) is NonContiguous),
                    forall|j: int| 0 <= j < k ==> area_view(#[trigger] out@[j]) == target[j],
                decreases count - k,
            {
                let c = Column { absolute: false, x: lo + k };
                out.push(RangeOrCell::ColumnRange { from: c, to: c });
                k += 1;
            }
            out
        },
        RangeOrCell::RowRange { from, to } => {
            let lo = if from.y <= to.y { from.y } else { to.y };
            let hi = if from.y <= to.y { to.y } else { from.y };
            assert(target.len() == hi - lo + 1);
            let count = hi - lo + 1;
            let mut out: Vec<RangeOrCell> = Vec::new();
            let mut k: usize = 0;
            while k < count
                invariant
                    out@.len() == k <= count,
                    forall|j: int| 0 <= j < k ==> !((#[trigger] out@[j]) is NonContiguous),
                    forall|j: int| 0 <= j < k ==> area_view(#[trigger] out@[j]) == target[j],
                decreases count - k,
            {
                let r = Row { absolute: false, y: lo + k };
                out.push(RangeOrCell::RowRange { from: r, to: r });
                k += 1;
            }
            out
        },
        RangeOrCell::Range { from, to } => {
            let clo = if from.column.x <= to.column.x { from.column.x } else { to.column.x };
            let chi = if from.column.x <= to.column.x { to.column.x } else { from.column.x };
            let rlo = if from.row.y <= to.row.y { from.row.y } else { to.row.y };
            let rhi = if from.row.y <= to.row.y { to.row.y } else { from.row.y };
            let ghost wg = chi - clo + 1int;
            let ghost hg = rhi - rlo + 1int;
            assert(target.len() == wg * hg);
            assert(wg * hg >= hg && wg * hg >= wg) by (nonlinear_arith)
                requires wg >= 1 && hg >= 1;
            let w = chi - clo + 1;
            let h = rhi - rlo + 1;
            let total = w * h;
            let mut out: Vec<RangeOrCell> = Vec::new();
            let mut k: usize = 0;
            while k < total
                invariant
                    out@.len() == k <= total,
                    forall|j: int| 0 <= j < k ==> !((#[trigger] out@[j]) is NonContiguous),
                    forall|j: int| 0 <= j < k ==> area_view(#[trigger] out@[j]) == target[j],
                decreases total - k,
            {
                proof {
                    lemma_flat_index(k as int, w as int, h as int);
                }
                let c = clo + k % w;
                let r = rlo + k / w;
                out.push(RangeOrCell::Cell(
                    Address { column: Column { absolute: false, x: c }, row: Row { absolute: false, y: r } },
                ));
                k += 1;
            }
            out
        },
        RangeOrCell::NonContiguous(_) => {
            proof {
                assert(false);
            }
            Vec::new()
        },
    }
}

/// The cells a reference's iteration yields, executably. Mirrors
/// [`ref_iter`]. The iteration must fit in one vector.
#[verifier::loop_isolation(false)]
pub fn iter_ref(r: &RangeOrCell) -> (out: Vec<RangeOrCell>)
    requires
        wf_ref(*r),
        ref_iter(r@).len() <= usize::MAX,
    ensures
        out@.len() == ref_iter(r@).len(),
        forall|j: int| 0 <= j < out@.len() ==> wf_ref(#[trigger] out@[j]),
        forall|j: int| 0 <= j < out@.len() ==> !((#[trigger] out@[j]) is NonContiguous),
        forall|j: int| 0 <= j < out@.len() ==> area_view(#[trigger] out@[j]) == ref_iter(r@)[j],
{
    match r {
        RangeOrCell::NonContiguous(v) => {
            let ghost vv = v@.map_values(|m: RangeOrCell| area_view(m));
            assert(r@ == RefV::NonContiguous(vv));
            let ghost target = areas_iter(vv);
            let len = v.len();
            let mut out: Vec<RangeOrCell> = Vec::new();
            let mut k: usize = 0;
            while k < len
                invariant
                    0 <= k <= len,
                    out@.len() == areas_iter(vv.take(k as int)).len() <= usize::MAX,
                    forall|j: int| 0 <= j < out@.len() ==> !((#[trigger] out@[j]) is NonContiguous),
                    forall|j: int| 0 <= j < out@.len() ==> area_view(#[trigger] out@[j])
                        == areas_iter(vv.take(k as int))[j],
                decreases len - k,
            {
                proof {
                    lemma_areas_iter_split(vv, k as int);
                    lemma_areas_iter_split(vv.skip(k as int), 1);
                    assert(vv.skip(k as int).take(1) =~= seq![vv[k as int]]);
                    assert(areas_iter(seq![vv[k as int]]) == area_iter(vv[k as int])
                        + areas_iter(seq![vv[k as int]].skip(1)));
                    assert(seq![vv[k as int]].skip(1) =~= Seq::<AreaV>::empty());
                    assert(areas_iter(seq![vv[k as int]]) =~= area_iter(vv[k as int]));
                    assert(vv.skip(k as int).skip(1) =~= vv.skip(k as int + 1));
                    lemma_areas_iter_split(vv, k as int + 1);
                    assert(vv.take(k as int + 1).take(k as int) =~= vv.take(k as int));
                    lemma_areas_iter_split(vv.take(k as int + 1), k as int);
                    assert(vv.take(k as int + 1).skip(k as int) =~= seq![vv[k as int]]);
                    assert(areas_iter(vv.take(k as int + 1)) == areas_iter(vv.take(k as int))
                        + area_iter(vv[k as int]));
                    assert(vv.take(len as int) =~= vv);
                    assert(areas_iter(vv).len() >= areas_iter(vv.take(k as int + 1)).len()) by {
                        lemma_areas_iter_split(vv, k as int + 1);
                    }
                    assert(!(v@[k as int] is NonContiguous));
                    assert(vv[k as int] == area_view(v@[k as int]));
                }
                let mut piece = iter_area_exec(&v[k]);
                let ghost old_out = out@;
                out.append(&mut piece);
                proof {
                    assert(out@.len() == areas_iter(vv.take(k as int + 1)).len());
                    assert forall|j: int| 0 <= j < out@.len() implies area_view(#[trigger] out@[j])
                        == areas_iter(vv.take(k as int + 1))[j] by {
                        if j < old_out.len() {
                            assert(out@[j] == old_out[j]);
                        } else {
                            assert(area_view(out@[j]) == area_iter(vv[k as int])[j - old_out.len()]);
                        }
                    }
                }
                k += 1;
            }
            proof {
                assert(vv.take(len as int) =~= vv);
            }
            out
        },
        _ => {
            assert(r@ == RefV::Area(area_view(*r)));
            let out = iter_area_exec(r);
            out
        },
    }
}

} // verus!
