//! The notation formatter: renders an A1 value back to its canonical
//! string form. The spec functions here define the canonical text; the
//! executable functions produce exactly that text.

use crate::a1::{wf_a1, A1, A1V};
use crate::address::{Address, AddressV};
use crate::chars::{col_letters, dec_digits, digit_of, is_digit, is_letter, upper_of};
use crate::column::{Column, ColumnV};
use crate::range_or_cell::{area_view, AreaV, RangeOrCell, RefV};
use crate::row::{Row, RowV};
use vstd::prelude::*;

verus! {

/// The notation of one column axis: `$` when locked, then the letters.
pub open spec fn fmt_col(c: ColumnV) -> Seq<char> {
    if c.absolute {
        seq!['$'] + col_letters(c.x)
    } else {
        col_letters(c.x)
    }
}

/// The notation of one row axis: `$` when locked, then the one-based number.
pub open spec fn fmt_row(r: RowV) -> Seq<char> {
    if r.absolute {
        seq!['$'] + dec_digits(r.y + 1)
    } else {
        dec_digits(r.y + 1)
    }
}

/// The notation of one cell: column then row, with no separator.
pub open spec fn fmt_addr(a: AddressV) -> Seq<char> {
    fmt_col(a.column) + fmt_row(a.row)
}

/// The notation of one single area. Two-sided shapes always show the colon,
/// even when both sides are equal (`A:A`, `6:6`, `B2:B2`); a lone cell never
/// does.
pub open spec fn fmt_area(a: AreaV) -> Seq<char> {
    match a {
        AreaV::Cell(ad) => fmt_addr(ad),
        AreaV::Range { from, to } => fmt_addr(from) + seq![':'] + fmt_addr(to),
        AreaV::ColumnRange { from, to } => fmt_col(from) + seq![':'] + fmt_col(to),
        AreaV::RowRange { from, to } => fmt_row(from) + seq![':'] + fmt_row(to),
    }
}

/// The notation of a list of areas, joined by commas in stored order.
pub open spec fn fmt_areas(list: Seq<AreaV>) -> Seq<char>
    decreases list.len(),
{
    if list.len() == 0 {
        Seq::empty()
    } else if list.len() == 1 {
        fmt_area(list[0])
    } else {
        fmt_area(list[0]) + seq![','] + fmt_areas(list.skip(1))
    }
}

/// The notation of a whole reference.
pub open spec fn fmt_ref(r: RefV) -> Seq<char> {
    match r {
        RefV::Area(a) => fmt_area(a),
        RefV::NonContiguous(list) => fmt_areas(list),
    }
}

/// A character that may stand unquoted in a sheet name: a letter, a digit,
/// or an underscore.
pub open spec fn ident_char(c: char) -> bool {
    is_letter(c) || is_digit(c) || c == '_'
}

/// Whether a sheet name needs wrapping quotes when displayed.
pub open spec fn sheet_needs_quote(s: Seq<char>) -> bool {
    s.len() == 0 || exists|i: int| 0 <= i < s.len() && !ident_char(#[trigger] s[i])
}

/// The notation of a sheet name, quoted only when needed.
pub open spec fn fmt_sheet(s: Seq<char>) -> Seq<char> {
    if sheet_needs_quote(s) {
        seq!['\''] + s + seq!['\'']
    } else {
        s
    }
}

/// The full notation of an A1 value: the sheet name and `!` when a sheet
/// name is present, then the reference.
pub open spec fn spec_format(a: A1V) -> Seq<char> {
    match a.sheet {
        Some(s) => fmt_sheet(s) + seq!['!'] + fmt_ref(a.reference),
        None => fmt_ref(a.reference),
    }
}

/// Append the upper-case letter at alphabet position `d`.
fn append_upper(out: &mut String, d: u8)
    requires
        d < 26,
    ensures
        final(out)@ == old(out)@ + seq![upper_of(d as int)],
{
    match d {
        0 => { proof { reveal_strlit("A"); } out.append("A"); },
        1 => { proof { reveal_strlit("B"); } out.append("B"); },
        2 => { proof { reveal_strlit("C"); } out.append("C"); },
        3 => { proof { reveal_strlit("D"); } out.append("D"); },
        4 => { proof { reveal_strlit("E"); } out.append("E"); },
        5 => { proof { reveal_strlit("F"); } out.append("F"); },
        6 => { proof { reveal_strlit("G"); } out.append("G"); },
        7 => { proof { reveal_strlit("H"); } out.append("H"); },
        8 => { proof { reveal_strlit("I"); } out.append("I"); },
        9 => { proof { reveal_strlit("J"); } out.append("J"); },
        10 => { proof { reveal_strlit("K"); } out.append("K"); },
        11 => { proof { reveal_strlit("L"); } out.append("L"); },
        12 => { proof { reveal_strlit("M"); } out.append("M"); },
        13 => { proof { reveal_strlit("N"); } out.append("N"); },
        14 => { proof { reveal_strlit("O"); } out.append("O"); },
        15 => { proof { reveal_strlit("P"); } out.append("P"); },
        16 => { proof { reveal_strlit("Q"); } out.append("Q"); },
        17 => { proof { reveal_strlit("R"); } out.append("R"); },
        18 => { proof { reveal_strlit("S"); } out.append("S"); },
        19 => { proof { reveal_strlit("T"); } out.append("T"); },
        20 => { proof { reveal_strlit("U"); } out.append("U"); },
        21 => { proof { reveal_strlit("V"); } out.append("V"); },
        22 => { proof { reveal_strlit("W"); } out.append("W"); },
        23 => { proof { reveal_strlit("X"); } out.append("X"); },
        24 => { proof { reveal_strlit("Y"); } out.append("Y"); },
        _ => {
            assert(d == 25);
            proof { reveal_strlit("Z"); }
            out.append("Z");
        },
    }
    proof {
        assert(out@ =~= old(out)@ + seq![upper_of(d as int)]);
    }
}

/// Append the digit character for value `d`.
fn append_digit(out: &mut String, d: u8)
    requires
        d < 10,
    ensures
        final(out)@ == old(out)@ + seq![digit_of(d as int)],
{
    match d {
        0 => { proof { reveal_strlit("0"); } out.append("0"); },
        1 => { proof { reveal_strlit("1"); } out.append("1"); },
        2 => { proof { reveal_strlit("2"); } out.append("2"); },
        3 => { proof { reveal_strlit("3"); } out.append("3"); },
        4 => { proof { reveal_strlit("4"); } out.append("4"); },
        5 => { proof { reveal_strlit("5"); } out.append("5"); },
        6 => { proof { reveal_strlit("6"); } out.append("6"); },
        7 => { proof { reveal_strlit("7"); } out.append("7"); },
        8 => { proof { reveal_strlit("8"); } out.append("8"); },
        _ => {
            assert(d == 9);
            proof { reveal_strlit("9"); }
            out.append("9");
        },
    }
    proof {
        assert(out@ =~= old(out)@ + seq![digit_of(d as int)]);
    }
}

/// Append the absolute marker `$`.
fn append_dollar(out: &mut String)
    ensures
        final(out)@ == old(out)@ + seq!['$'],
{
    proof { reveal_strlit("$"); }
    out.append("$");
    proof { assert(out@ =~= old(out)@ + seq!['$']); }
}

/// Append the range separator `:`.
fn append_colon(out: &mut String)
    ensures
        final(out)@ == old(out)@ + seq![':'],
{
    proof { reveal_strlit(":"); }
    out.append(":");
    proof { assert(out@ =~= old(out)@ + seq![':']); }
}

/// Append the union separator `,`.
fn append_comma(out: &mut String)
    ensures
        final(out)@ == old(out)@ + seq![','],
{
    proof { reveal_strlit(","); }
    out.append(",");
    proof { assert(out@ =~= old(out)@ + seq![',']); }
}

/// Append the sheet separator `!`.
fn append_bang(out: &mut String)
    ensures
        final(out)@ == old(out)@ + seq!['!'],
{
    proof { reveal_strlit("!"); }
    out.append("!");
    proof { assert(out@ =~= old(out)@ + seq!['!']); }
}

/// Append a sheet-name quote `'`.
fn append_quote(out: &mut String)
    ensures
        final(out)@ == old(out)@ + seq!['\''],
{
    proof { reveal_strlit("'"); }
    out.append("'");
    proof { assert(out@ =~= old(out)@ + seq!['\'']); }
}

/// Append the bijective base-26 letters of column index `x`.
fn push_col_letters(out: &mut String, x: usize)
    ensures
        final(out)@ == old(out)@ + col_letters(x as int),
    decreases x,
{
    if x >= 26 {
        push_col_letters(out, x / 26 - 1);
    }
    append_upper(out, (x % 26) as u8);
    proof {
        assert(out@ =~= old(out)@ + col_letters(x as int));
    }
}

/// Append the decimal digits of `n`.
fn push_dec_digits(out: &mut String, n: u128)
    ensures
        final(out)@ == old(out)@ + dec_digits(n as int),
    decreases n,
{
    if n >= 10 {
        push_dec_digits(out, n / 10);
    }
    append_digit(out, (n % 10) as u8);
    proof {
        assert(out@ =~= old(out)@ + dec_digits(n as int));
    }
}

/// Append the notation of one column axis.
fn push_col(out: &mut String, c: Column)
    ensures
        final(out)@ == old(out)@ + fmt_col(c@),
{
    if c.absolute {
        append_dollar(out);
    }
    push_col_letters(out, c.x);
    proof {
        assert(out@ =~= old(out)@ + fmt_col(c@));
    }
}

/// Append the notation of one row axis.
fn push_row(out: &mut String, r: Row)
    ensures
        final(out)@ == old(out)@ + fmt_row(r@),
{
    if r.absolute {
        append_dollar(out);
    }
    push_dec_digits(out, r.y as u128 + 1);
    proof {
        assert(out@ =~= old(out)@ + fmt_row(r@));
    }
}

/// Append the notation of one cell.
fn push_addr(out: &mut String, a: Address)
    ensures
        final(out)@ == old(out)@ + fmt_addr(a@),
{
    push_col(out, a.column);
    push_row(out, a.row);
    proof {
        assert(out@ =~= old(out)@ + fmt_addr(a@));
    }
}

/// Append the notation of one single area.
fn push_area(out: &mut String, r: &RangeOrCell)
    requires
        !(r is NonContiguous),
    ensures
        final(out)@ == old(out)@ + fmt_area(area_view(*r)),
{
    match r {
        RangeOrCell::Cell(ad) => {
            push_addr(out, *ad);
        },
        RangeOrCell::Range { from, to } => {
            push_addr(out, *from);
            append_colon(out);
            push_addr(out, *to);
        },
        RangeOrCell::ColumnRange { from, to } => {
            push_col(out, *from);
            append_colon(out);
            push_col(out, *to);
        },
        RangeOrCell::RowRange { from, to } => {
            push_row(out, *from);
            append_colon(out);
            push_row(out, *to);
        },
        RangeOrCell::NonContiguous(_) => {
            proof {
                assert(false);
            }
        },
    }
    proof {
        assert(out@ =~= old(out)@ + fmt_area(area_view(*r)));
    }
}

/// `fmt_areas` of a non-empty tail, unfolded one member at a time.
proof fn lemma_fmt_areas_unfold(list: Seq<AreaV>, k: int)
    requires
        0 <= k < list.len(),
    ensures
        fmt_areas(list.skip(k)) == if k == list.len() - 1 {
            fmt_area(list[k])
        } else {
            fmt_area(list[k]) + seq![','] + fmt_areas(list.skip(k + 1))
        },
{
    let t = list.skip(k);
    assert(t[0] == list[k]);
    if k == list.len() - 1 {
        assert(t.len() == 1);
    } else {
        assert(t.skip(1) =~= list.skip(k + 1));
    }
}

/// Whether a sheet name needs quotes, executably.
fn needs_quote(s: &str) -> (r: bool)
    ensures
        r == sheet_needs_quote(s@),
{
    let n = s.unicode_len();
    if n == 0 {
        return true;
    }
    let mut i: usize = 0;
    while i < n
        invariant
            0 <= i <= n,
            n == s@.len(),
            forall|j: int| 0 <= j < i ==> ident_char(#[trigger] s@[j]),
        decreases n - i,
    {
        let c = s.get_char(i);
        let u = c as u32;
        let ok = (65 <= u && u <= 90) || (97 <= u && u <= 122) || (48 <= u && u <= 57) || c == '_';
        assert(ok == ident_char(c));
        if !ok {
            assert(sheet_needs_quote(s@));
            return true;
        }
        i += 1;
    }
    assert(!sheet_needs_quote(s@));
    false
}

impl A1 {
    /// The canonical notation of this value, the exact inverse of parsing
    /// for every value parsing can produce.
    #[verifier::loop_isolation(false)]
    pub fn to_a1_string(&self) -> (out: String)
        requires
            wf_a1(*self),
        ensures
            out@ == spec_format(self@),
    {
        let mut out = String::new();
        match &self.sheet_name {
            Some(name) => {
                if needs_quote(name.as_str()) {
                    append_quote(&mut out);
                    out.append(name.as_str());
                    append_quote(&mut out);
                } else {
                    out.append(name.as_str());
                }
                append_bang(&mut out);
                proof {
                    assert(out@ =~= fmt_sheet(name@) + seq!['!']);
                }
            },
            None => {},
        }
        let ghost prefix = out@;
        match &self.reference {
            RangeOrCell::NonContiguous(v) => {
                let ghost vv = v@.map_values(|m: RangeOrCell| area_view(m));
                assert(self.reference@ == RefV::NonContiguous(vv));
                let len = v.len();
                proof {
                    if len == 0 {
                        assert(fmt_areas(vv) =~= Seq::<char>::empty());
                        assert(out@ =~= prefix + fmt_areas(vv));
                    } else {
                        assert(vv.skip(0) =~= vv);
                        assert(prefix + fmt_areas(vv) =~= out@ + fmt_areas(vv.skip(0)));
                    }
                }
                let mut k: usize = 0;
                while k < len
                    invariant
                        0 <= k <= len,
                        k < len ==> prefix + fmt_areas(vv) == out@ + fmt_areas(vv.skip(k as int)),
                        k == len ==> out@ == prefix + fmt_areas(vv),
                    decreases len - k,
                {
                    assert(!(v@[k as int] is NonContiguous));
                    assert(vv[k as int] == area_view(v@[k as int]));
                    proof {
                        lemma_fmt_areas_unfold(vv, k as int);
                    }
                    let ghost before = out@;
                    push_area(&mut out, &v[k]);
                    if k + 1 < len {
                        append_comma(&mut out);
                        proof {
                            assert(prefix + fmt_areas(vv) =~= out@ + fmt_areas(
                                vv.skip(k as int + 1),
                            ));
                        }
                    } else {
                        proof {
                            assert(fmt_areas(vv.skip(k as int)) == fmt_area(vv[k as int]));
                            assert(out@ =~= prefix + fmt_areas(vv));
                        }
                    }
                    k += 1;
                }
                proof {
                    assert(out@ == prefix + fmt_ref(self@.reference));
                }
            },
            _ => {
                push_area(&mut out, &self.reference);
                assert(self.reference@ == RefV::Area(area_view(self.reference)));
            },
        }
        proof {
            assert(out@ =~= spec_format(self@));
        }
        out
    }
}

} // verus!
