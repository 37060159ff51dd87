//! The general laws of the reference model: containment is reflexive and
//! transitive, shifting back and forth restores a reference, and a
//! rectangle's iteration yields one cell per coordinate.

use crate::a1::A1V;
use crate::address::AddressV;
use crate::chars::{
    col_letters, dec_digits, digits_value, find_first, find_last, is_digit, is_letter, is_upper,
    leading_digits, leading_letters, lemma_col_letters_shape, lemma_col_letters_value,
    lemma_dec_digits_shape, lemma_dec_digits_value, lemma_find_first_is, lemma_find_first_none,
    lemma_find_last_none, lemma_leading_digits_is, lemma_leading_letters_is, letters_value,
};
use crate::column::ColumnV;
use crate::error::ErrorV;
use crate::format::{fmt_addr, fmt_area, fmt_col, fmt_row, spec_format};
use crate::parse::{
    spec_parse, spec_parse_body, spec_parse_part, spec_parse_rest, spec_parse_token, PartV,
};
use crate::range_or_cell::{
    area_contains, area_iter, imax, imin, ref_contains, ref_contains_area,
    spec_shift_area, spec_shift_ref, AreaV, RefV,
};
use crate::row::RowV;
use vstd::prelude::*;

verus! {

/// Containment is reflexive: every reference contains itself.
pub proof fn lemma_contains_reflexive(r: RefV)
    ensures
        ref_contains(r, r),
{
    match r {
        RefV::Area(a) => {
            assert(area_contains(a, a));
        },
        RefV::NonContiguous(bs) => {
            assert forall|k: int| 0 <= k < bs.len() implies ref_contains_area(
                r,
                #[trigger] bs[k],
            ) by {
                assert(area_contains(bs[k], bs[k]));
            }
        },
    }
}

/// Containment of a single area carries through a middle reference.
proof fn lemma_contains_area_step(a: RefV, b: RefV, c: AreaV)
    requires
        ref_contains(a, b),
        ref_contains_area(b, c),
    ensures
        ref_contains_area(a, c),
{
    match b {
        RefV::Area(bb) => {
            match a {
                RefV::Area(aa) => {
                    assert(area_contains(aa, bb) && area_contains(bb, c));
                    assert(area_contains(aa, c));
                },
                RefV::NonContiguous(as_) => {
                    let j = choose|j: int| 0 <= j < as_.len() && area_contains(#[trigger] as_[j], bb);
                    assert(area_contains(as_[j], c));
                },
            }
        },
        RefV::NonContiguous(bs) => {
            let m = choose|m: int| 0 <= m < bs.len() && area_contains(#[trigger] bs[m], c);
            assert(ref_contains_area(a, bs[m]));
            match a {
                RefV::Area(aa) => {
                    assert(area_contains(aa, bs[m]) && area_contains(bs[m], c));
                    assert(area_contains(aa, c));
                },
                RefV::NonContiguous(as_) => {
                    let j = choose|j: int|
                        0 <= j < as_.len() && area_contains(#[trigger] as_[j], bs[m]);
                    assert(area_contains(as_[j], c));
                },
            }
        },
    }
}

/// Containment is transitive: when `a` contains `b` and `b` contains `c`,
/// `a` contains `c`.
pub proof fn lemma_contains_transitive(a: RefV, b: RefV, c: RefV)
    requires
        ref_contains(a, b),
        ref_contains(b, c),
    ensures
        ref_contains(a, c),
{
    match c {
        RefV::Area(cc) => {
            lemma_contains_area_step(a, b, cc);
        },
        RefV::NonContiguous(cs) => {
            assert forall|k: int| 0 <= k < cs.len() implies ref_contains_area(
                a,
                #[trigger] cs[k],
            ) by {
                lemma_contains_area_step(a, b, cs[k]);
            }
        },
    }
}

/// Every column index in the area is at least `n` and at most the machine's
/// index ceiling, so a left shift by `n` stays exact.
pub open spec fn area_cols_shiftable(a: AreaV, n: int) -> bool {
    match a {
        AreaV::Cell(ad) => n <= ad.column.x <= usize::MAX,
        AreaV::Range { from, to } => n <= from.column.x <= usize::MAX && n <= to.column.x
            <= usize::MAX,
        AreaV::ColumnRange { from, to } => n <= from.x <= usize::MAX && n <= to.x <= usize::MAX,
        AreaV::RowRange { .. } => true,
    }
}

/// Every row index in the area is at least `n` and at most the machine's
/// index ceiling, so an upward shift by `n` stays exact.
pub open spec fn area_rows_shiftable(a: AreaV, n: int) -> bool {
    match a {
        AreaV::Cell(ad) => n <= ad.row.y <= usize::MAX,
        AreaV::Range { from, to } => n <= from.row.y <= usize::MAX && n <= to.row.y <= usize::MAX,
        AreaV::ColumnRange { .. } => true,
        AreaV::RowRange { from, to } => n <= from.y <= usize::MAX && n <= to.y <= usize::MAX,
    }
}

/// `area_cols_shiftable`, over a whole reference.
pub open spec fn ref_cols_shiftable(r: RefV, n: int) -> bool {
    match r {
        RefV::Area(a) => area_cols_shiftable(a, n),
        RefV::NonContiguous(list) => forall|i: int|
            0 <= i < list.len() ==> area_cols_shiftable(#[trigger] list[i], n),
    }
}

/// `area_rows_shiftable`, over a whole reference.
pub open spec fn ref_rows_shiftable(r: RefV, n: int) -> bool {
    match r {
        RefV::Area(a) => area_rows_shiftable(a, n),
        RefV::NonContiguous(list) => forall|i: int|
            0 <= i < list.len() ==> area_rows_shiftable(#[trigger] list[i], n),
    }
}

proof fn lemma_area_shift_round(a: AreaV, cols: bool, n: int)
    requires
        0 <= n,
        cols ==> area_cols_shiftable(a, n),
        !cols ==> area_rows_shiftable(a, n),
    ensures
        spec_shift_area(spec_shift_area(a, cols, false, n), cols, true, n) == a,
{
}

/// Shifting left and then right by the same amount restores the reference,
/// as long as no column index would have gone below zero.
pub proof fn lemma_shift_left_right(r: RefV, n: int)
    requires
        0 <= n,
        ref_cols_shiftable(r, n),
    ensures
        spec_shift_ref(spec_shift_ref(r, true, false, n), true, true, n) == r,
{
    match r {
        RefV::Area(a) => {
            lemma_area_shift_round(a, true, n);
        },
        RefV::NonContiguous(list) => {
            let once = Seq::new(list.len(), |i: int| spec_shift_area(list[i], true, false, n));
            let twice = Seq::new(once.len(), |i: int| spec_shift_area(once[i], true, true, n));
            assert forall|i: int| 0 <= i < list.len() implies #[trigger] twice[i] == list[i] by {
                lemma_area_shift_round(list[i], true, n);
            }
            assert(twice =~= list);
        },
    }
}

/// Shifting up and then down by the same amount restores the reference, as
/// long as no row index would have gone below zero.
pub proof fn lemma_shift_up_down(r: RefV, n: int)
    requires
        0 <= n,
        ref_rows_shiftable(r, n),
    ensures
        spec_shift_ref(spec_shift_ref(r, false, false, n), false, true, n) == r,
{
    match r {
        RefV::Area(a) => {
            lemma_area_shift_round(a, false, n);
        },
        RefV::NonContiguous(list) => {
            let once = Seq::new(list.len(), |i: int| spec_shift_area(list[i], false, false, n));
            let twice = Seq::new(once.len(), |i: int| spec_shift_area(once[i], false, true, n));
            assert forall|i: int| 0 <= i < list.len() implies #[trigger] twice[i] == list[i] by {
                lemma_area_shift_round(list[i], false, n);
            }
            assert(twice =~= list);
        },
    }
}

/// The absolute value of a difference.
pub open spec fn iabs(d: int) -> int {
    if d < 0 {
        -d
    } else {
        d
    }
}

/// Iterating a rectangle yields exactly one cell per coordinate:
/// `(|to.x - from.x| + 1) * (|to.y - from.y| + 1)` of them.
pub proof fn lemma_range_iter_count(from: AddressV, to: AddressV)
    ensures
        area_iter(AreaV::Range { from, to }).len() == (iabs(to.column.x - from.column.x) + 1) * (
        iabs(to.row.y - from.row.y) + 1),
{
    let w = imax(from.column.x, to.column.x) - imin(from.column.x, to.column.x) + 1;
    let h = imax(from.row.y, to.row.y) - imin(from.row.y, to.row.y) + 1;
    assert(w == iabs(to.column.x - from.column.x) + 1);
    assert(h == iabs(to.row.y - from.row.y) + 1);
    assert(w >= 1 && h >= 1);
    assert(w * h >= 1) by (nonlinear_arith)
        requires w >= 1 && h >= 1;
    assert(area_iter(AreaV::Range { from, to }).len() == (w * h) as nat);
}

/// A column with no lock marker and an index the machine can hold.
pub open spec fn plain_col(c: ColumnV) -> bool {
    !c.absolute && 0 <= c.x <= usize::MAX
}

/// A row with no lock marker and an index the machine can hold.
pub open spec fn plain_row(r: RowV) -> bool {
    !r.absolute && 0 <= r.y <= usize::MAX
}

/// An address both of whose axes are plain.
pub open spec fn plain_addr(a: AddressV) -> bool {
    plain_col(a.column) && plain_row(a.row)
}

/// An area as the direct constructors build it: any shape, no lock markers,
/// indices the machine can hold.
pub open spec fn plain_area(a: AreaV) -> bool {
    match a {
        AreaV::Cell(ad) => plain_addr(ad),
        AreaV::Range { from, to } => plain_addr(from) && plain_addr(to),
        AreaV::ColumnRange { from, to } => plain_col(from) && plain_col(to),
        AreaV::RowRange { from, to } => plain_row(from) && plain_row(to),
    }
}

/// A value the direct constructors (`cell`, `range`, `column`,
/// `column_range`, `row`, `row_range`) can build: no sheet name, one plain
/// area.
pub open spec fn constructible(v: A1V) -> bool {
    v.sheet is None && match v.reference {
        RefV::Area(a) => plain_area(a),
        RefV::NonContiguous(_) => false,
    }
}

/// A character that can stand in a constructor-built token: an upper-case
/// letter, a digit, or the range colon.
pub open spec fn token_char(c: char) -> bool {
    is_upper(c) || is_digit(c) || c == ':'
}

/// Column codes round-trip through the corner grammar.
proof fn lemma_parse_part_col(x: int)
    requires
        0 <= x <= usize::MAX,
    ensures
        spec_parse_part(col_letters(x)) == Ok::<PartV, ErrorV>(
            PartV::Col(ColumnV { absolute: false, x }),
        ),
{
    let s = col_letters(x);
    lemma_col_letters_shape(x);
    lemma_col_letters_value(x);
    assert(s[0] != '$');
    lemma_leading_letters_is(s, s.len() as int);
    assert(s.take(s.len() as int) =~= s);
    assert(s.skip(s.len() as int) =~= Seq::<char>::empty());
}

/// Row codes round-trip through the corner grammar.
proof fn lemma_parse_part_row(y: int)
    requires
        0 <= y <= usize::MAX,
    ensures
        spec_parse_part(dec_digits(y + 1)) == Ok::<PartV, ErrorV>(
            PartV::Row(RowV { absolute: false, y }),
        ),
{
    let s = dec_digits(y + 1);
    lemma_dec_digits_shape(y + 1);
    lemma_dec_digits_value(y + 1);
    assert(is_digit(s[0]));
    assert(s[0] != '$');
    assert(!is_letter(s[0]));
    assert(leading_letters(s) == 0);
    lemma_leading_digits_is(s, s.len() as int);
    assert(s.take(s.len() as int) =~= s);
    assert(s.skip(s.len() as int) =~= Seq::<char>::empty());
}

/// Cell codes (letters then digits) round-trip through the corner grammar.
proof fn lemma_parse_part_addr(x: int, y: int)
    requires
        0 <= x <= usize::MAX,
        0 <= y <= usize::MAX,
    ensures
        spec_parse_part(col_letters(x) + dec_digits(y + 1)) == Ok::<PartV, ErrorV>(
            PartV::Addr(AddressV {
                column: ColumnV { absolute: false, x },
                row: RowV { absolute: false, y },
            }),
        ),
{
    let ls = col_letters(x);
    let ds = dec_digits(y + 1);
    let s = ls + ds;
    lemma_col_letters_shape(x);
    lemma_col_letters_value(x);
    lemma_dec_digits_shape(y + 1);
    lemma_dec_digits_value(y + 1);
    assert(s[0] == ls[0]);
    assert(s[0] != '$');
    let nl = ls.len() as int;
    assert forall|i: int| 0 <= i < nl implies is_letter(#[trigger] s[i]) by {
        assert(s[i] == ls[i]);
    }
    assert(s[nl] == ds[0]);
    assert(is_digit(s[nl]) && !is_letter(s[nl]));
    lemma_leading_letters_is(s, nl);
    assert(s.take(nl) =~= ls);
    let rest = s.skip(nl);
    assert(rest =~= ds);
    assert(rest[0] != '$');
    lemma_leading_digits_is(ds, ds.len() as int);
}

/// Every character of a column code is a token character and is neither a
/// separator nor a lock marker.
proof fn lemma_col_token_chars(x: int)
    requires
        0 <= x,
    ensures
        forall|i: int| 0 <= i < col_letters(x).len() ==> token_char(#[trigger] col_letters(x)[i]),
        forall|i: int| 0 <= i < col_letters(x).len() ==> #[trigger] col_letters(x)[i] != ':',
{
    lemma_col_letters_shape(x);
}

/// Every character of a row code is a token character other than `:`.
proof fn lemma_row_token_chars(n: int)
    requires
        0 <= n,
    ensures
        forall|i: int| 0 <= i < dec_digits(n).len() ==> token_char(#[trigger] dec_digits(n)[i]),
        forall|i: int| 0 <= i < dec_digits(n).len() ==> #[trigger] dec_digits(n)[i] != ':',
{
    lemma_dec_digits_shape(n);
}

/// The corner notation of a plain area contains no colon; a colon-joined
/// token finds its colon exactly between the corners.
proof fn lemma_parse_token_plain(a: AreaV)
    requires
        plain_area(a),
    ensures
        spec_parse_token(fmt_area(a)) == Ok::<AreaV, ErrorV>(a),
        forall|i: int| 0 <= i < fmt_area(a).len() ==> token_char(#[trigger] fmt_area(a)[i]),
{
    match a {
        AreaV::Cell(ad) => {
            let ls = col_letters(ad.column.x);
            let ds = dec_digits(ad.row.y + 1);
            let s = fmt_area(a);
            assert(s =~= ls + ds);
            lemma_col_token_chars(ad.column.x);
            lemma_row_token_chars(ad.row.y + 1);
            assert forall|i: int| 0 <= i < s.len() implies token_char(#[trigger] s[i]) && s[i]
                != ':' by {
                if i < ls.len() {
                    assert(s[i] == ls[i]);
                } else {
                    assert(s[i] == ds[i - ls.len()]);
                }
            }
            lemma_find_first_none(s, ':');
            lemma_parse_part_addr(ad.column.x, ad.row.y);
        },
        AreaV::Range { from, to } => {
            let p1 = fmt_addr(from);
            let p2 = fmt_addr(to);
            let s = fmt_area(a);
            assert(p1 =~= col_letters(from.column.x) + dec_digits(from.row.y + 1));
            assert(p2 =~= col_letters(to.column.x) + dec_digits(to.row.y + 1));
            lemma_col_token_chars(from.column.x);
            lemma_row_token_chars(from.row.y + 1);
            lemma_col_token_chars(to.column.x);
            lemma_row_token_chars(to.row.y + 1);
            assert forall|i: int| 0 <= i < p1.len() implies token_char(#[trigger] p1[i]) && p1[i]
                != ':' by {
                if i < col_letters(from.column.x).len() {
                    assert(p1[i] == col_letters(from.column.x)[i]);
                } else {
                    assert(p1[i] == dec_digits(from.row.y + 1)[i - col_letters(
                        from.column.x,
                    ).len()]);
                }
            }
            assert forall|i: int| 0 <= i < p2.len() implies token_char(#[trigger] p2[i]) && p2[i]
                != ':' by {
                if i < col_letters(to.column.x).len() {
                    assert(p2[i] == col_letters(to.column.x)[i]);
                } else {
                    assert(p2[i] == dec_digits(to.row.y + 1)[i - col_letters(to.column.x).len()]);
                }
            }
            assert(s =~= p1 + seq![':'] + p2);
            assert(s[p1.len() as int] == ':');
            assert forall|i: int| 0 <= i < p1.len() implies #[trigger] s[i] != ':' by {
                assert(s[i] == p1[i]);
            }
            lemma_find_first_is(s, ':', p1.len() as int);
            assert(s.take(p1.len() as int) =~= p1);
            assert(s.skip(p1.len() as int + 1) =~= p2);
            lemma_find_first_none(p2, ':');
            lemma_parse_part_addr(from.column.x, from.row.y);
            lemma_parse_part_addr(to.column.x, to.row.y);
            assert forall|i: int| 0 <= i < s.len() implies token_char(#[trigger] s[i]) by {
                if i < p1.len() {
                    assert(s[i] == p1[i]);
                } else if i == p1.len() {
                } else {
                    assert(s[i] == p2[i - p1.len() - 1]);
                }
            }
        },
        AreaV::ColumnRange { from, to } => {
            let p1 = col_letters(from.x);
            let p2 = col_letters(to.x);
            let s = fmt_area(a);
            assert(p1 =~= fmt_col(from));
            assert(p2 =~= fmt_col(to));
            lemma_col_token_chars(from.x);
            lemma_col_token_chars(to.x);
            assert(s =~= p1 + seq![':'] + p2);
            assert(s[p1.len() as int] == ':');
            assert forall|i: int| 0 <= i < p1.len() implies #[trigger] s[i] != ':' by {
                assert(s[i] == p1[i]);
            }
            lemma_find_first_is(s, ':', p1.len() as int);
            assert(s.take(p1.len() as int) =~= p1);
            assert(s.skip(p1.len() as int + 1) =~= p2);
            lemma_find_first_none(p2, ':');
            lemma_parse_part_col(from.x);
            lemma_parse_part_col(to.x);
            assert forall|i: int| 0 <= i < s.len() implies token_char(#[trigger] s[i]) by {
                if i < p1.len() {
                    assert(s[i] == p1[i]);
                } else if i == p1.len() {
                } else {
                    assert(s[i] == p2[i - p1.len() - 1]);
                }
            }
        },
        AreaV::RowRange { from, to } => {
            let p1 = dec_digits(from.y + 1);
            let p2 = dec_digits(to.y + 1);
            let s = fmt_area(a);
            assert(p1 =~= fmt_row(from));
            assert(p2 =~= fmt_row(to));
            lemma_row_token_chars(from.y + 1);
            lemma_row_token_chars(to.y + 1);
            assert(s =~= p1 + seq![':'] + p2);
            assert(s[p1.len() as int] == ':');
            assert forall|i: int| 0 <= i < p1.len() implies #[trigger] s[i] != ':' by {
                assert(s[i] == p1[i]);
            }
            lemma_find_first_is(s, ':', p1.len() as int);
            assert(s.take(p1.len() as int) =~= p1);
            assert(s.skip(p1.len() as int + 1) =~= p2);
            lemma_find_first_none(p2, ':');
            lemma_parse_part_row(from.y);
            lemma_parse_part_row(to.y);
            assert forall|i: int| 0 <= i < s.len() implies token_char(#[trigger] s[i]) by {
                if i < p1.len() {
                    assert(s[i] == p1[i]);
                } else if i == p1.len() {
                } else {
                    assert(s[i] == p2[i - p1.len() - 1]);
                }
            }
        },
    }
}

/// Round trip: parsing the canonical notation of any value the direct
/// constructors can build gives back exactly that value.
pub proof fn lemma_parse_format_round_trip(v: A1V)
    requires
        constructible(v),
    ensures
        spec_parse(spec_format(v)) == Ok::<A1V, ErrorV>(v),
{
    let a = v.reference->Area_0;
    let s = spec_format(v);
    assert(s == fmt_area(a));
    lemma_parse_token_plain(a);
    assert forall|i: int| 0 <= i < s.len() implies #[trigger] s[i] != '!' && s[i] != ',' by {
        assert(token_char(s[i]));
    }
    lemma_find_last_none(s, '!');
    lemma_find_first_none(s, ',');
    assert(spec_parse_rest(s) == Ok::<Seq<AreaV>, ErrorV>(seq![a]));
    assert(seq![a].len() == 1 && seq![a][0] == a);
    assert(spec_parse_body(s) == Ok::<RefV, ErrorV>(RefV::Area(a)));
    assert(spec_parse(s) == Ok::<A1V, ErrorV>(A1V { sheet: None, reference: RefV::Area(a) }));
    assert(A1V { sheet: None, reference: RefV::Area(a) } =~= v);
}

} // verus!
