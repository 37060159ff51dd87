//! The notation parser: reads an A1 string into the reference model. The
//! spec functions here define the grammar; the executable parser returns
//! exactly what they prescribe, down to each error.

use crate::a1::{wf_a1, A1, A1V};
use crate::address::{Address, AddressV};
use crate::chars::{
    digit_char_value, digits_value, find_first, find_last, is_digit, is_letter, leading_digits,
    leading_letters, lemma_find_first_bounds, lemma_find_first_is, lemma_find_first_none,
    lemma_find_last_is, lemma_find_last_none, lemma_leading_digits_is, lemma_leading_letters_is,
    lemma_letters_value_nonneg, lemma_digits_value_nonneg, lemma_letters_value_step,
    lemma_digits_value_step, letter_char, digit_char, letter_char_index, letters_value,
};
use crate::column::{Column, ColumnV};
use crate::error::{Error, ErrorV};
use crate::range_or_cell::{area_view, imin, AreaV, RangeOrCell, RefV};
use crate::row::{Row, RowV};
use vstd::prelude::*;
use vstd::string::StrSliceExecFns;

verus! {

/// One corner of a token: a bare column, a bare row, or a full cell.
pub enum PartV {
    Col(ColumnV),
    Row(RowV),
    Addr(AddressV),
}

/// One more than the greatest index the machine can hold: the first
/// one-based code value that no longer fits.
pub open spec fn value_ceiling() -> int {
    usize::MAX + 1
}

/// What a bare column corner (letters, with its lock markers) means.
pub open spec fn col_result(abs: bool, letters: Seq<char>, whole: Seq<char>) -> Result<
    PartV,
    ErrorV,
> {
    if letters_value(letters) > value_ceiling() {
        Err(ErrorV::InvalidColumn(whole))
    } else {
        Ok(PartV::Col(ColumnV { absolute: abs, x: letters_value(letters) - 1 }))
    }
}

/// What a bare row corner (digits, with its lock markers) means. Row codes
/// are one-based, so `0` is rejected.
pub open spec fn row_result(abs: bool, digits: Seq<char>, whole: Seq<char>) -> Result<
    PartV,
    ErrorV,
> {
    if digits_value(digits) == 0 || digits_value(digits) > value_ceiling() {
        Err(ErrorV::InvalidRow(whole))
    } else {
        Ok(PartV::Row(RowV { absolute: abs, y: digits_value(digits) - 1 }))
    }
}

/// What a cell corner (letters then digits) means. `rest` is what follows
/// the letters and the optional row lock marker; it must be digits to the
/// end.
pub open spec fn cell_result(
    absc: bool,
    letters: Seq<char>,
    absr: bool,
    rest: Seq<char>,
    whole: Seq<char>,
) -> Result<PartV, ErrorV> {
    if leading_digits(rest) == rest.len() && rest.len() > 0 {
        if letters_value(letters) > value_ceiling() {
            Err(ErrorV::InvalidColumn(whole))
        } else if digits_value(rest) == 0 || digits_value(rest) > value_ceiling() {
            Err(ErrorV::InvalidRow(whole))
        } else {
            Ok(PartV::Addr(AddressV {
                column: ColumnV { absolute: absc, x: letters_value(letters) - 1 },
                row: RowV { absolute: absr, y: digits_value(rest) - 1 },
            }))
        }
    } else {
        Err(ErrorV::InvalidCell(whole))
    }
}

/// The grammar of one corner: an optional `$`, then either letters (a
/// column), digits (a row), or letters immediately followed by digits (a
/// cell), where the row half may carry its own `$`. A `$` standing after
/// the letters or digits also locks them.
pub open spec fn spec_parse_part(s: Seq<char>) -> Result<PartV, ErrorV> {
    let abs1 = s.len() > 0 && s[0] == '$';
    let t = if abs1 {
        s.skip(1)
    } else {
        s
    };
    let nl = leading_letters(t);
    if nl > 0 {
        let letters = t.take(nl);
        let rest = t.skip(nl);
        if rest.len() == 0 {
            col_result(abs1, letters, s)
        } else if rest[0] == '$' {
            let rest2 = rest.skip(1);
            if rest2.len() == 0 {
                col_result(true, letters, s)
            } else {
                cell_result(abs1, letters, true, rest2, s)
            }
        } else {
            cell_result(abs1, letters, false, rest, s)
        }
    } else {
        let nd = leading_digits(t);
        if nd > 0 {
            let digits = t.take(nd);
            let rest = t.skip(nd);
            if rest.len() == 0 {
                row_result(abs1, digits, s)
            } else if rest.len() == 1 && rest[0] == '$' {
                row_result(true, digits, s)
            } else {
                Err(ErrorV::InvalidRow(s))
            }
        } else {
            Err(ErrorV::InvalidA1(s))
        }
    }
}

/// The grammar of one area token: one corner, or two corners joined by a
/// single `:`. Both corners must be of the same kind; a lone corner spans
/// itself.
pub open spec fn spec_parse_token(s: Seq<char>) -> Result<AreaV, ErrorV> {
    let ci = find_first(s, ':');
    if ci < 0 {
        match spec_parse_part(s) {
            Err(e) => Err(e),
            Ok(PartV::Col(c)) => Ok(AreaV::ColumnRange { from: c, to: c }),
            Ok(PartV::Row(r)) => Ok(AreaV::RowRange { from: r, to: r }),
            Ok(PartV::Addr(a)) => Ok(AreaV::Cell(a)),
        }
    } else {
        let left = s.take(ci);
        let right = s.skip(ci + 1);
        if find_first(right, ':') >= 0 {
            Err(ErrorV::InvalidA1(s))
        } else {
            match spec_parse_part(left) {
                Err(e) => Err(e),
                Ok(lp) => match spec_parse_part(right) {
                    Err(e) => Err(e),
                    Ok(rp) => match (lp, rp) {
                        (PartV::Col(a), PartV::Col(b)) => Ok(AreaV::ColumnRange { from: a, to: b }),
                        (PartV::Row(a), PartV::Row(b)) => Ok(AreaV::RowRange { from: a, to: b }),
                        (PartV::Addr(a), PartV::Addr(b)) => Ok(AreaV::Range { from: a, to: b }),
                        _ => Err(ErrorV::InvalidA1(s)),
                    },
                },
            }
        }
    }
}

/// The grammar of a comma-separated list of area tokens, failing fast on
/// the first malformed token.
pub open spec fn spec_parse_rest(s: Seq<char>) -> Result<Seq<AreaV>, ErrorV>
    decreases s.len(),
    via spec_parse_rest_decreases
{
    let i = find_first(s, ',');
    if i < 0 {
        match spec_parse_token(s) {
            Err(e) => Err(e),
            Ok(a) => Ok(seq![a]),
        }
    } else {
        match spec_parse_token(s.take(i)) {
            Err(e) => Err(e),
            Ok(a) => match spec_parse_rest(s.skip(i + 1)) {
                Err(e) => Err(e),
                Ok(rest) => Ok(seq![a] + rest),
            },
        }
    }
}

#[via_fn]
proof fn spec_parse_rest_decreases(s: Seq<char>) {
    lemma_find_first_bounds(s, ',');
}

/// The grammar of the reference body: one area stands alone, several form a
/// union in input order.
pub open spec fn spec_parse_body(s: Seq<char>) -> Result<RefV, ErrorV> {
    match spec_parse_rest(s) {
        Err(e) => Err(e),
        Ok(areas) => if areas.len() == 1 {
            Ok(RefV::Area(areas[0]))
        } else {
            Ok(RefV::NonContiguous(areas))
        },
    }
}

/// What the text before the last `!` names: the sheet, with wrapping quotes
/// stripped. An empty name, quoted or bare, is rejected.
pub open spec fn spec_parse_sheet(raw: Seq<char>) -> Result<Seq<char>, ErrorV> {
    if raw.len() >= 2 && raw[0] == '\'' && raw.last() == '\'' {
        let inner = raw.subrange(1, raw.len() - 1);
        if inner.len() == 0 {
            Err(ErrorV::InvalidSheetName(raw))
        } else {
            Ok(inner)
        }
    } else if raw.len() == 0 {
        Err(ErrorV::InvalidSheetName(raw))
    } else {
        Ok(raw)
    }
}

/// The grammar of a whole A1 string: an optional sheet name before the last
/// `!`, then the reference body.
pub open spec fn spec_parse(s: Seq<char>) -> Result<A1V, ErrorV> {
    let bi = find_last(s, '!');
    if bi < 0 {
        match spec_parse_body(s) {
            Err(e) => Err(e),
            Ok(r) => Ok(A1V { sheet: None, reference: r }),
        }
    } else {
        match spec_parse_sheet(s.take(bi)) {
            Err(e) => Err(e),
            Ok(name) => match spec_parse_body(s.skip(bi + 1)) {
                Err(e) => Err(e),
                Ok(r) => Ok(A1V { sheet: Some(name), reference: r }),
            },
        }
    }
}

/// One corner, executably.
enum Part {
    C(Column),
    R(Row),
    A(Address),
}

/// The mathematical value of a [`Part`].
spec fn part_view(p: Part) -> PartV {
    match p {
        Part::C(c) => PartV::Col(c@),
        Part::R(r) => PartV::Row(r@),
        Part::A(a) => PartV::Addr(a@),
    }
}

/// The characters of `s`, as one vector.
fn to_char_vec(s: &str) -> (v: Vec<char>)
    ensures
        v@ == s@,
{
    let n = s.unicode_len();
    let mut v: Vec<char> = Vec::new();
    let mut i: usize = 0;
    while i < n
        invariant
            0 <= i <= n,
            n == s@.len(),
            v@ =~= s@.take(i as int),
        decreases n - i,
    {
        v.push(s.get_char(i));
        i += 1;
    }
    proof {
        assert(v@ =~= s@);
    }
    v
}

/// The offending piece of the input, for an error report.
fn offending_piece(src: &str, start: usize, end: usize) -> (r: String)
    requires
        start <= end <= src@.len(),
    ensures
        r@ == src@.subrange(start as int, end as int),
{
    src.substring_char(start, end).to_owned()
}

/// The first `c` in `chars[start..end]`, if any.
#[verifier::loop_isolation(false)]
fn find_char(chars: &Vec<char>, start: usize, end: usize, c: char) -> (r: Option<usize>)
    requires
        start <= end <= chars@.len(),
    ensures
        match r {
            Some(i) => start <= i < end && find_first(
                chars@.subrange(start as int, end as int),
                c,
            ) == i - start,
            None => find_first(chars@.subrange(start as int, end as int), c) == -1,
        },
{
    let ghost sub = chars@.subrange(start as int, end as int);
    let mut j = start;
    while j < end
        invariant
            start <= j <= end,
            forall|m: int| start <= m < j ==> chars@[m] != c,
        decreases end - j,
    {
        if chars[j] == c {
            proof {
                assert forall|m: int| 0 <= m < j - start implies #[trigger] sub[m] != c by {
                    assert(sub[m] == chars@[start + m]);
                }
                lemma_find_first_is(sub, c, j - start);
            }
            return Some(j);
        }
        j += 1;
    }
    proof {
        assert forall|m: int| 0 <= m < sub.len() implies #[trigger] sub[m] != c by {
            assert(sub[m] == chars@[start + m]);
        }
        lemma_find_first_none(sub, c);
    }
    None
}

/// The last `c` in `chars[start..end]`, if any.
#[verifier::loop_isolation(false)]
fn rfind_char(chars: &Vec<char>, start: usize, end: usize, c: char) -> (r: Option<usize>)
    requires
        start <= end <= chars@.len(),
    ensures
        match r {
            Some(i) => start <= i < end && find_last(
                chars@.subrange(start as int, end as int),
                c,
            ) == i - start,
            None => find_last(chars@.subrange(start as int, end as int), c) == -1,
        },
{
    let ghost sub = chars@.subrange(start as int, end as int);
    let mut j = end;
    while j > start
        invariant
            start <= j <= end,
            forall|m: int| j <= m < end ==> chars@[m] != c,
        decreases j,
    {
        let k = j - 1;
        if chars[k] == c {
            proof {
                assert forall|m: int| k - start < m < sub.len() implies #[trigger] sub[m] != c by {
                    assert(sub[m] == chars@[start + m]);
                }
                assert(sub[k - start] == c);
                lemma_find_last_is(sub, c, k - start);
            }
            return Some(k);
        }
        j = k;
    }
    proof {
        assert forall|m: int| 0 <= m < sub.len() implies #[trigger] sub[m] != c by {
            assert(sub[m] == chars@[start + m]);
        }
        lemma_find_last_none(sub, c);
    }
    None
}

/// Where the leading letters of `chars[start..end]` stop.
#[verifier::loop_isolation(false)]
fn scan_letters(chars: &Vec<char>, start: usize, end: usize) -> (r: usize)
    requires
        start <= end <= chars@.len(),
    ensures
        start <= r <= end,
        r - start == leading_letters(chars@.subrange(start as int, end as int)),
        forall|m: int| start <= m < r ==> is_letter(#[trigger] chars@[m]),
{
    let ghost sub = chars@.subrange(start as int, end as int);
    let mut j = start;
    while j < end
        invariant
            start <= j <= end,
            forall|m: int| start <= m < j ==> is_letter(#[trigger] chars@[m]),
        decreases end - j,
    {
        if !letter_char(chars[j]) {
            proof {
                assert forall|m: int| 0 <= m < j - start implies is_letter(#[trigger] sub[m]) by {
                    assert(sub[m] == chars@[start + m]);
                }
                assert(sub[j - start] == chars@[j as int]);
                lemma_leading_letters_is(sub, j - start);
            }
            return j;
        }
        j += 1;
    }
    proof {
        assert forall|m: int| 0 <= m < sub.len() implies is_letter(#[trigger] sub[m]) by {
            assert(sub[m] == chars@[start + m]);
        }
        lemma_leading_letters_is(sub, end - start);
    }
    end
}

/// Where the leading digits of `chars[start..end]` stop.
#[verifier::loop_isolation(false)]
fn scan_digits(chars: &Vec<char>, start: usize, end: usize) -> (r: usize)
    requires
        start <= end <= chars@.len(),
    ensures
        start <= r <= end,
        r - start == leading_digits(chars@.subrange(start as int, end as int)),
        forall|m: int| start <= m < r ==> is_digit(#[trigger] chars@[m]),
{
    let ghost sub = chars@.subrange(start as int, end as int);
    let mut j = start;
    while j < end
        invariant
            start <= j <= end,
            forall|m: int| start <= m < j ==> is_digit(#[trigger] chars@[m]),
        decreases end - j,
    {
        if !digit_char(chars[j]) {
            proof {
                assert forall|m: int| 0 <= m < j - start implies is_digit(#[trigger] sub[m]) by {
                    assert(sub[m] == chars@[start + m]);
                }
                assert(sub[j - start] == chars@[j as int]);
                lemma_leading_digits_is(sub, j - start);
            }
            return j;
        }
        j += 1;
    }
    proof {
        assert forall|m: int| 0 <= m < sub.len() implies is_digit(#[trigger] sub[m]) by {
            assert(sub[m] == chars@[start + m]);
        }
        lemma_leading_digits_is(sub, end - start);
    }
    end
}

/// The zero-based column index the letters `chars[start..end]` code for, or
/// nothing when it would pass the machine's ceiling.
#[verifier::loop_isolation(false)]
fn decode_col(chars: &Vec<char>, start: usize, end: usize) -> (r: Option<usize>)
    requires
        start < end <= chars@.len(),
        forall|m: int| start <= m < end ==> is_letter(#[trigger] chars@[m]),
    ensures
        ({
            let v = letters_value(chars@.subrange(start as int, end as int));
            match r {
                Some(x) => v <= value_ceiling() && x as int == v - 1,
                None => v > value_ceiling(),
            }
        }),
{
    let ghost sub = chars@.subrange(start as int, end as int);
    proof {
        assert forall|m: int| 0 <= m < sub.len() implies is_letter(#[trigger] sub[m]) by {
            assert(sub[m] == chars@[start + m]);
        }
    }
    let cap: u128 = (usize::MAX as u128) + 2;
    let mut acc: u128 = 0;
    let mut j = start;
    while j < end
        invariant
            start <= j <= end,
            acc as int == imin(letters_value(sub.take(j - start)), usize::MAX as int + 2),
        decreases end - j,
    {
        let ghost k = j - start;
        let ghost lv = letters_value(sub.take(k as int));
        proof {
            lemma_letters_value_step(sub, k as int);
            assert(crate::chars::all_letters(sub.take(k as int))) by {
                assert(forall|m: int| 0 <= m < k ==> sub.take(k as int)[m] == sub[m]);
            }
            lemma_letters_value_nonneg(sub.take(k as int));
            assert(sub[k as int] == chars@[j as int]);
        }
        let idx = letter_char_index(chars[j]);
        let raw = acc * 26 + (idx as u128) + 1;
        proof {
            let lv2 = letters_value(sub.take(k as int + 1));
            assert(lv2 == lv * 26 + crate::chars::letter_index(sub[k as int]) + 1);
            if lv > usize::MAX as int + 2 {
                assert(lv * 26 >= lv) by (nonlinear_arith)
                    requires lv >= 0;
            }
        }
        acc = if raw > cap {
            cap
        } else {
            raw
        };
        j += 1;
    }
    proof {
        assert(sub.take((end - start) as int) =~= sub);
        lemma_letters_value_nonneg(sub);
    }
    if acc > (usize::MAX as u128) + 1 {
        None
    } else {
        Some((acc - 1) as usize)
    }
}

/// The zero-based row index the digits `chars[start..end]` code for, or
/// nothing when the number is zero or past the machine's ceiling.
#[verifier::loop_isolation(false)]
fn decode_row(chars: &Vec<char>, start: usize, end: usize) -> (r: Option<usize>)
    requires
        start < end <= chars@.len(),
        forall|m: int| start <= m < end ==> is_digit(#[trigger] chars@[m]),
    ensures
        ({
            let v = digits_value(chars@.subrange(start as int, end as int));
            match r {
                Some(y) => 1 <= v <= value_ceiling() && y as int == v - 1,
                None => v == 0 || v > value_ceiling(),
            }
        }),
{
    let ghost sub = chars@.subrange(start as int, end as int);
    proof {
        assert forall|m: int| 0 <= m < sub.len() implies is_digit(#[trigger] sub[m]) by {
            assert(sub[m] == chars@[start + m]);
        }
    }
    let cap: u128 = (usize::MAX as u128) + 2;
    let mut acc: u128 = 0;
    let mut j = start;
    while j < end
        invariant
            start <= j <= end,
            acc as int == imin(digits_value(sub.take(j - start)), usize::MAX as int + 2),
        decreases end - j,
    {
        let ghost k = j - start;
        let ghost dv = digits_value(sub.take(k as int));
        proof {
            lemma_digits_value_step(sub, k as int);
            assert(crate::chars::all_digits(sub.take(k as int))) by {
                assert(forall|m: int| 0 <= m < k ==> sub.take(k as int)[m] == sub[m]);
            }
            lemma_digits_value_nonneg(sub.take(k as int));
            assert(sub[k as int] == chars@[j as int]);
        }
        let d = digit_char_value(chars[j]);
        let raw = acc * 10 + (d as u128);
        proof {
            let dv2 = digits_value(sub.take(k as int + 1));
            assert(dv2 == dv * 10 + crate::chars::digit_value(sub[k as int]));
            if dv >= usize::MAX as int + 2 {
                assert(dv * 10 >= dv) by (nonlinear_arith)
                    requires dv >= 0;
            }
        }
        acc = if raw > cap {
            cap
        } else {
            raw
        };
        j += 1;
    }
    proof {
        assert(sub.take((end - start) as int) =~= sub);
        lemma_digits_value_nonneg(sub);
    }
    if acc == 0 || acc > (usize::MAX as u128) + 1 {
        None
    } else {
        Some((acc - 1) as usize)
    }
}

/// The tail of a cell corner: the letters have been scanned; what remains
/// from `dstart` must be digits to the end.
#[verifier::loop_isolation(false)]
fn parse_cell_tail(
    src: &str,
    chars: &Vec<char>,
    start: usize,
    end: usize,
    lstart: usize,
    lend: usize,
    dstart: usize,
    absc: bool,
    absr: bool,
) -> (r: Result<Part, Error>)
    requires
        chars@ == src@,
        start <= lstart < lend <= dstart <= end <= chars@.len(),
        forall|m: int| lstart <= m < lend ==> is_letter(#[trigger] chars@[m]),
    ensures
        ({
            let expected = cell_result(
                absc,
                chars@.subrange(lstart as int, lend as int),
                absr,
                chars@.subrange(dstart as int, end as int),
                chars@.subrange(start as int, end as int),
            );
            match r {
                Ok(p) => expected == Ok::<PartV, ErrorV>(part_view(p)),
                Err(e) => expected == Err::<PartV, ErrorV>(e@),
            }
        }),
{
    let ghost letters = chars@.subrange(lstart as int, lend as int);
    let ghost digits = chars@.subrange(dstart as int, end as int);
    let jd = scan_digits(chars, dstart, end);
    if jd < end || dstart == end {
        return Err(Error::InvalidCell(offending_piece(src, start, end)));
    }
    match decode_col(chars, lstart, lend) {
        None => Err(Error::InvalidColumn(offending_piece(src, start, end))),
        Some(x) => match decode_row(chars, dstart, end) {
            None => Err(Error::InvalidRow(offending_piece(src, start, end))),
            Some(y) => Ok(Part::A(Address {
                column: Column { absolute: absc, x },
                row: Row { absolute: absr, y },
            })),
        },
    }
}

/// One corner, executably. Mirrors [`spec_parse_part`].
#[verifier::loop_isolation(false)]
#[verifier::rlimit(60)]
fn parse_part_exec(src: &str, chars: &Vec<char>, start: usize, end: usize) -> (r: Result<
    Part,
    Error,
>)
    requires
        chars@ == src@,
        start <= end <= chars@.len(),
    ensures
        ({
            let expected = spec_parse_part(chars@.subrange(start as int, end as int));
            match r {
                Ok(p) => expected == Ok::<PartV, ErrorV>(part_view(p)),
                Err(e) => expected == Err::<PartV, ErrorV>(e@),
            }
        }),
{
    let ghost sub = chars@.subrange(start as int, end as int);
    let abs1 = start < end && chars[start] == '$';
    let i = if abs1 {
        start + 1
    } else {
        start
    };
    let ghost t = chars@.subrange(i as int, end as int);
    proof {
        assert(abs1 == (sub.len() > 0 && sub[0] == '$'));
        if abs1 {
            assert(t =~= sub.skip(1));
        } else {
            assert(t =~= sub);
        }
    }
    let j = scan_letters(chars, i, end);
    proof {
        assert(leading_letters(t) == j - i);
    }
    if j > i {
        let ghost letters = t.take(j - i);
        proof {
            assert(letters =~= chars@.subrange(i as int, j as int));
            assert(t.skip(j - i) =~= chars@.subrange(j as int, end as int));
        }
        if j == end {
            return match decode_col(chars, i, j) {
                None => Err(Error::InvalidColumn(offending_piece(src, start, end))),
                Some(x) => Ok(Part::C(Column { absolute: abs1, x })),
            };
        }
        assert(chars@[j as int] == t.skip(j - i)[0]);
        if chars[j] == '$' {
            proof {
                assert(t.skip(j - i).skip(1) =~= chars@.subrange(j as int + 1, end as int));
            }
            if j + 1 == end {
                return match decode_col(chars, i, j) {
                    None => Err(Error::InvalidColumn(offending_piece(src, start, end))),
                    Some(x) => Ok(Part::C(Column { absolute: true, x })),
                };
            }
            return parse_cell_tail(src, chars, start, end, i, j, j + 1, abs1, true);
        }
        return parse_cell_tail(src, chars, start, end, i, j, j, abs1, false);
    }
    let j2 = scan_digits(chars, i, end);
    proof {
        assert(leading_digits(t) == j2 - i);
    }
    if j2 > i {
        let ghost digits = t.take(j2 - i);
        proof {
            assert(digits =~= chars@.subrange(i as int, j2 as int));
            assert(t.skip(j2 - i) =~= chars@.subrange(j2 as int, end as int));
        }
        if j2 == end {
            return match decode_row(chars, i, j2) {
                None => Err(Error::InvalidRow(offending_piece(src, start, end))),
                Some(y) => Ok(Part::R(Row { absolute: abs1, y })),
            };
        }
        assert(chars@[j2 as int] == t.skip(j2 - i)[0]);
        if j2 + 1 == end && chars[j2] == '$' {
            return match decode_row(chars, i, j2) {
                None => Err(Error::InvalidRow(offending_piece(src, start, end))),
                Some(y) => Ok(Part::R(Row { absolute: true, y })),
            };
        }
        return Err(Error::InvalidRow(offending_piece(src, start, end)));
    }
    Err(Error::InvalidA1(offending_piece(src, start, end)))
}

/// One area token, executably. Mirrors [`spec_parse_token`].
#[verifier::loop_isolation(false)]
fn parse_token_exec(src: &str, chars: &Vec<char>, start: usize, end: usize) -> (r: Result<
    RangeOrCell,
    Error,
>)
    requires
        chars@ == src@,
        start <= end <= chars@.len(),
    ensures
        ({
            let expected = spec_parse_token(chars@.subrange(start as int, end as int));
            match r {
                Ok(a) => !(a is NonContiguous) && expected == Ok::<AreaV, ErrorV>(area_view(a)),
                Err(e) => expected == Err::<AreaV, ErrorV>(e@),
            }
        }),
{
    let ghost sub = chars@.subrange(start as int, end as int);
    match find_char(chars, start, end, ':') {
        None => {
            match parse_part_exec(src, chars, start, end) {
                Err(e) => Err(e),
                Ok(Part::C(c)) => Ok(RangeOrCell::ColumnRange { from: c, to: c }),
                Ok(Part::R(rw)) => Ok(RangeOrCell::RowRange { from: rw, to: rw }),
                Ok(Part::A(a)) => Ok(RangeOrCell::Cell(a)),
            }
        },
        Some(ci) => {
            let ghost left = sub.take(ci - start);
            let ghost right = sub.skip(ci - start + 1);
            proof {
                assert(left =~= chars@.subrange(start as int, ci as int));
                assert(right =~= chars@.subrange(ci as int + 1, end as int));
            }
            match find_char(chars, ci + 1, end, ':') {
                Some(_) => Err(Error::InvalidA1(offending_piece(src, start, end))),
                None => {
                    match parse_part_exec(src, chars, start, ci) {
                        Err(e) => Err(e),
                        Ok(lp) => match parse_part_exec(src, chars, ci + 1, end) {
                            Err(e) => Err(e),
                            Ok(rp) => match (lp, rp) {
                                (Part::C(a), Part::C(b)) => Ok(
                                    RangeOrCell::ColumnRange { from: a, to: b },
                                ),
                                (Part::R(a), Part::R(b)) => Ok(
                                    RangeOrCell::RowRange { from: a, to: b },
                                ),
                                (Part::A(a), Part::A(b)) => Ok(
                                    RangeOrCell::Range { from: a, to: b },
                                ),
                                _ => Err(Error::InvalidA1(offending_piece(src, start, end))),
                            },
                        },
                    }
                },
            }
        },
    }
}

/// A comma-separated list of area tokens, executably. Mirrors
/// [`spec_parse_rest`].
#[verifier::loop_isolation(false)]
fn parse_rest_exec(src: &str, chars: &Vec<char>, start: usize, end: usize) -> (r: Result<
    Vec<RangeOrCell>,
    Error,
>)
    requires
        chars@ == src@,
        start <= end <= chars@.len(),
    ensures
        ({
            let expected = spec_parse_rest(chars@.subrange(start as int, end as int));
            match r {
                Ok(v) => match expected {
                    Ok(areas) => v@.len() == areas.len() && (forall|j: int|
                        0 <= j < v@.len() ==> !((#[trigger] v@[j]) is NonContiguous)) && (forall|
                        j: int,
                    |
                        0 <= j < v@.len() ==> area_view(#[trigger] v@[j]) == areas[j]),
                    Err(_) => false,
                },
                Err(e) => expected == Err::<Seq<AreaV>, ErrorV>(e@),
            }
        }),
    decreases end - start,
{
    let ghost sub = chars@.subrange(start as int, end as int);
    match find_char(chars, start, end, ',') {
        None => {
            match parse_token_exec(src, chars, start, end) {
                Err(e) => Err(e),
                Ok(a) => {
                    let mut v: Vec<RangeOrCell> = Vec::new();
                    v.push(a);
                    Ok(v)
                },
            }
        },
        Some(ci) => {
            proof {
                assert(sub.take(ci - start) =~= chars@.subrange(start as int, ci as int));
                assert(sub.skip(ci - start + 1) =~= chars@.subrange(ci as int + 1, end as int));
            }
            match parse_token_exec(src, chars, start, ci) {
                Err(e) => Err(e),
                Ok(a) => match parse_rest_exec(src, chars, ci + 1, end) {
                    Err(e) => Err(e),
                    Ok(mut rest) => {
                        let mut v: Vec<RangeOrCell> = Vec::new();
                        v.push(a);
                        v.append(&mut rest);
                        Ok(v)
                    },
                },
            }
        },
    }
}

/// Parse an A1 notation string, executably. Mirrors [`spec_parse`]: the
/// text before the last `!`, if any, names the sheet; the rest is one area
/// token or a comma-separated union of them.
#[verifier::loop_isolation(false)]
pub fn parse(s: &str) -> (r: Result<A1, Error>)
    ensures
        match r {
            Ok(a) => wf_a1(a) && spec_parse(s@) == Ok::<A1V, ErrorV>(a@),
            Err(e) => spec_parse(s@) == Err::<A1V, ErrorV>(e@),
        },
{
    let chars = to_char_vec(s);
    let n = chars.len();
    proof {
        assert(chars@.subrange(0, n as int) =~= s@);
    }
    let mut sheet_name: Option<String> = None;
    let mut bstart: usize = 0;
    match rfind_char(&chars, 0, n, '!') {
        None => {
            assert(find_last(s@, '!') == -1);
        },
        Some(bi) => {
            let ghost raw = s@.take(bi as int);
            proof {
                assert(find_last(s@, '!') == bi);
                assert(raw =~= chars@.subrange(0, bi as int));
            }
            let quoted = bi >= 2 && chars[0] == '\'' && chars[bi - 1] == '\'';
            proof {
                assert(quoted == (raw.len() >= 2 && raw[0] == '\'' && raw.last() == '\''));
            }
            if quoted {
                if bi == 2 {
                    proof {
                        assert(raw.subrange(1, raw.len() - 1) =~= Seq::<char>::empty());
                    }
                    return Err(Error::InvalidSheetName(offending_piece(s, 0, bi)));
                }
                let name = offending_piece(s, 1, bi - 1);
                proof {
                    assert(name@ =~= raw.subrange(1, raw.len() - 1));
                }
                sheet_name = Some(name);
            } else {
                if bi == 0 {
                    return Err(Error::InvalidSheetName(offending_piece(s, 0, 0)));
                }
                let name = offending_piece(s, 0, bi);
                proof {
                    assert(name@ =~= raw);
                }
                sheet_name = Some(name);
            }
            bstart = bi + 1;
        },
    }
    let ghost body = if find_last(s@, '!') < 0 {
        s@
    } else {
        s@.skip(find_last(s@, '!') + 1)
    };
    proof {
        assert(body =~= chars@.subrange(bstart as int, n as int));
    }
    match parse_rest_exec(s, &chars, bstart, n) {
        Err(e) => Err(e),
        Ok(mut v) => {
            let ghost areas = spec_parse_rest(body)->Ok_0;
            let reference: RangeOrCell;
            if v.len() == 1 {
                let a = v.remove(0);
                assert(a@ == RefV::Area(area_view(a)));
                reference = a;
            } else {
                proof {
                    assert(v@.map_values(|m: RangeOrCell| area_view(m)) =~= areas);
                }
                reference = RangeOrCell::NonContiguous(v);
            }
            let out = A1 { sheet_name, reference };
            proof {
                let expected = spec_parse(s@)->Ok_0;
                assert(out@.reference == expected.reference);
                assert(out@.sheet == expected.sheet);
                assert(out@ =~= expected);
            }
            Ok(out)
        },
    }
}

} // verus!
