//! Character-level model of A1 notation: character classes, the bijective
//! base-26 column code, and the decimal row code, together with the lemmas
//! that make the two codes exact inverses.

use vstd::prelude::*;

verus! {

/// An upper-case letter `A`-`Z`.
pub open spec fn is_upper(c: char) -> bool {
    65 <= c as u32 <= 90
}

/// A lower-case letter `a`-`z`.
pub open spec fn is_lower(c: char) -> bool {
    97 <= c as u32 <= 122
}

/// Any letter usable in a column code (case-insensitive on input).
pub open spec fn is_letter(c: char) -> bool {
    is_upper(c) || is_lower(c)
}

/// A decimal digit `0`-`9`.
pub open spec fn is_digit(c: char) -> bool {
    48 <= c as u32 <= 57
}

/// The zero-based alphabet position of a letter (`A` and `a` are 0).
pub open spec fn letter_index(c: char) -> int {
    if is_upper(c) {
        c as u32 - 65
    } else {
        c as u32 - 97
    }
}

/// The numeric value of a digit character.
pub open spec fn digit_value(c: char) -> int {
    c as u32 - 48
}

/// The upper-case letter at alphabet position `d` (0 gives `A`).
pub open spec fn upper_of(d: int) -> char {
    ((65 + d) as u8) as char
}

/// The digit character for value `d` (0 gives `0`).
pub open spec fn digit_of(d: int) -> char {
    ((48 + d) as u8) as char
}

/// The canonical (upper-case) bijective base-26 code of column index `x`:
/// 0 is `A`, 25 is `Z`, 26 is `AA`, 701 is `ZZ`, 702 is `AAA`.
pub open spec fn col_letters(x: int) -> Seq<char>
    decreases x,
{
    if x < 26 {
        seq![upper_of(x)]
    } else {
        col_letters(x / 26 - 1) + seq![upper_of(x % 26)]
    }
}

/// The number a letter sequence denotes in bijective base 26, one-based:
/// `A` is 1, `Z` is 26, `AA` is 27. A column code for index `x` has value
/// `x + 1`.
pub open spec fn letters_value(s: Seq<char>) -> int
    decreases s.len(),
{
    if s.len() == 0 {
        0
    } else {
        letters_value(s.drop_last()) * 26 + letter_index(s.last()) + 1
    }
}

/// The decimal digit sequence of the non-negative number `n`.
pub open spec fn dec_digits(n: int) -> Seq<char>
    decreases n,
{
    if n < 10 {
        seq![digit_of(n)]
    } else {
        dec_digits(n / 10) + seq![digit_of(n % 10)]
    }
}

/// The number a digit sequence denotes in decimal.
pub open spec fn digits_value(s: Seq<char>) -> int
    decreases s.len(),
{
    if s.len() == 0 {
        0
    } else {
        digits_value(s.drop_last()) * 10 + digit_value(s.last())
    }
}

/// Every character of `s` is a letter.
pub open spec fn all_letters(s: Seq<char>) -> bool {
    forall|i: int| 0 <= i < s.len() ==> is_letter(#[trigger] s[i])
}

/// Every character of `s` is a digit.
pub open spec fn all_digits(s: Seq<char>) -> bool {
    forall|i: int| 0 <= i < s.len() ==> is_digit(#[trigger] s[i])
}

/// The column code of `x` consists of upper-case letters and is never empty.
pub proof fn lemma_col_letters_shape(x: int)
    requires
        0 <= x,
    ensures
        col_letters(x).len() >= 1,
        forall|i: int| 0 <= i < col_letters(x).len() ==> is_upper(#[trigger] col_letters(x)[i]),
    decreases x,
{
    if x < 26 {
        assert(col_letters(x) =~= seq![upper_of(x)]);
        assert(is_upper(upper_of(x)));
    } else {
        lemma_col_letters_shape(x / 26 - 1);
        assert(is_upper(upper_of(x % 26)));
    }
}

/// Decoding the column code of `x` gives back `x + 1` (the code is
/// one-based; the stored index is zero-based).
pub proof fn lemma_col_letters_value(x: int)
    requires
        0 <= x,
    ensures
        letters_value(col_letters(x)) == x + 1,
    decreases x,
{
    if x < 26 {
        let s = col_letters(x);
        assert(s =~= seq![upper_of(x)]);
        assert(s.drop_last() =~= Seq::<char>::empty());
        assert(is_upper(upper_of(x)));
        assert(letter_index(upper_of(x)) == x);
        assert(s.last() == upper_of(x));
        assert(letters_value(s.drop_last()) == 0);
        assert(letters_value(s) == letters_value(s.drop_last()) * 26 + letter_index(s.last()) + 1);
    } else {
        lemma_col_letters_value(x / 26 - 1);
        let prefix = col_letters(x / 26 - 1);
        let s = col_letters(x);
        assert(s == prefix + seq![upper_of(x % 26)]);
        assert(s.drop_last() =~= prefix);
        assert(s.last() == upper_of(x % 26));
        assert(is_upper(upper_of(x % 26)));
        assert(letter_index(upper_of(x % 26)) == x % 26);
        assert(letters_value(s) == (x / 26) * 26 + x % 26 + 1);
        assert((x / 26) * 26 + x % 26 == x) by {
            vstd::arithmetic::div_mod::lemma_fundamental_div_mod(x, 26);
        }
    }
}

/// The decimal code of `n` consists of digits and is never empty.
pub proof fn lemma_dec_digits_shape(n: int)
    requires
        0 <= n,
    ensures
        dec_digits(n).len() >= 1,
        forall|i: int| 0 <= i < dec_digits(n).len() ==> is_digit(#[trigger] dec_digits(n)[i]),
    decreases n,
{
    if n < 10 {
        assert(dec_digits(n) =~= seq![digit_of(n)]);
        assert(is_digit(digit_of(n)));
    } else {
        lemma_dec_digits_shape(n / 10);
        assert(is_digit(digit_of(n % 10)));
    }
}

/// Decoding the decimal code of `n` gives back `n`.
pub proof fn lemma_dec_digits_value(n: int)
    requires
        0 <= n,
    ensures
        digits_value(dec_digits(n)) == n,
    decreases n,
{
    if n < 10 {
        let s = dec_digits(n);
        assert(s =~= seq![digit_of(n)]);
        assert(s.drop_last() =~= Seq::<char>::empty());
        assert(is_digit(digit_of(n)));
        assert(digit_value(digit_of(n)) == n);
        assert(digits_value(s) == digits_value(s.drop_last()) * 10 + digit_value(s.last()));
    } else {
        lemma_dec_digits_value(n / 10);
        let prefix = dec_digits(n / 10);
        let s = dec_digits(n);
        assert(s == prefix + seq![digit_of(n % 10)]);
        assert(s.drop_last() =~= prefix);
        assert(s.last() == digit_of(n % 10));
        assert(is_digit(digit_of(n % 10)));
        assert(digit_value(digit_of(n % 10)) == n % 10);
        assert(digits_value(s) == (n / 10) * 10 + n % 10);
        assert((n / 10) * 10 + n % 10 == n) by {
            vstd::arithmetic::div_mod::lemma_fundamental_div_mod(n, 10);
        }
    }
}

/// How many letters stand at the front of `s`.
pub open spec fn leading_letters(s: Seq<char>) -> int
    decreases s.len(),
{
    if s.len() == 0 || !is_letter(s[0]) {
        0
    } else {
        1 + leading_letters(s.skip(1))
    }
}

/// How many digits stand at the front of `s`.
pub open spec fn leading_digits(s: Seq<char>) -> int
    decreases s.len(),
{
    if s.len() == 0 || !is_digit(s[0]) {
        0
    } else {
        1 + leading_digits(s.skip(1))
    }
}

/// `leading_letters` is the unique count `n` with letters everywhere before
/// `n` and, unless the string ends there, a non-letter at `n`.
pub proof fn lemma_leading_letters_is(s: Seq<char>, n: int)
    requires
        0 <= n <= s.len(),
        forall|i: int| 0 <= i < n ==> is_letter(#[trigger] s[i]),
        n == s.len() || !is_letter(s[n]),
    ensures
        leading_letters(s) == n,
    decreases s.len(),
{
    if n == 0 {
    } else {
        assert(is_letter(s[0]));
        let t = s.skip(1);
        assert forall|i: int| 0 <= i < n - 1 implies is_letter(#[trigger] t[i]) by {
            assert(t[i] == s[i + 1]);
        }
        if n - 1 < t.len() {
            assert(t[n - 1] == s[n]);
        }
        lemma_leading_letters_is(t, n - 1);
    }
}

/// `leading_digits` is characterised the same way.
pub proof fn lemma_leading_digits_is(s: Seq<char>, n: int)
    requires
        0 <= n <= s.len(),
        forall|i: int| 0 <= i < n ==> is_digit(#[trigger] s[i]),
        n == s.len() || !is_digit(s[n]),
    ensures
        leading_digits(s) == n,
    decreases s.len(),
{
    if n == 0 {
    } else {
        assert(is_digit(s[0]));
        let t = s.skip(1);
        assert forall|i: int| 0 <= i < n - 1 implies is_digit(#[trigger] t[i]) by {
            assert(t[i] == s[i + 1]);
        }
        if n - 1 < t.len() {
            assert(t[n - 1] == s[n]);
        }
        lemma_leading_digits_is(t, n - 1);
    }
}

/// The position of the first occurrence of `c` in `s`, or -1 when absent.
pub open spec fn find_first(s: Seq<char>, c: char) -> int
    decreases s.len(),
{
    if s.len() == 0 {
        -1
    } else if s[0] == c {
        0
    } else {
        if find_first(s.skip(1), c) < 0 {
            -1
        } else {
            find_first(s.skip(1), c) + 1
        }
    }
}

/// The position of the last occurrence of `c` in `s`, or -1 when absent.
pub open spec fn find_last(s: Seq<char>, c: char) -> int
    decreases s.len(),
{
    if s.len() == 0 {
        -1
    } else if s.last() == c {
        s.len() - 1
    } else {
        find_last(s.drop_last(), c)
    }
}

/// `find_first` stays within the string (or is -1).
pub proof fn lemma_find_first_bounds(s: Seq<char>, c: char)
    ensures
        -1 <= find_first(s, c) < s.len(),
    decreases s.len(),
{
    if s.len() > 0 && s[0] != c {
        lemma_find_first_bounds(s.skip(1), c);
    }
}

/// `find_first` is the unique position of `c` with no `c` before it.
pub proof fn lemma_find_first_is(s: Seq<char>, c: char, n: int)
    requires
        0 <= n < s.len(),
        s[n] == c,
        forall|i: int| 0 <= i < n ==> #[trigger] s[i] != c,
    ensures
        find_first(s, c) == n,
    decreases s.len(),
{
    if n == 0 {
    } else {
        let t = s.skip(1);
        assert(t[n - 1] == s[n]);
        assert forall|i: int| 0 <= i < n - 1 implies #[trigger] t[i] != c by {
            assert(t[i] == s[i + 1]);
        }
        lemma_find_first_is(t, c, n - 1);
    }
}

/// When `c` does not occur in `s`, `find_first` reports -1.
pub proof fn lemma_find_first_none(s: Seq<char>, c: char)
    requires
        forall|i: int| 0 <= i < s.len() ==> #[trigger] s[i] != c,
    ensures
        find_first(s, c) == -1,
    decreases s.len(),
{
    if s.len() > 0 {
        let t = s.skip(1);
        assert forall|i: int| 0 <= i < t.len() implies #[trigger] t[i] != c by {
            assert(t[i] == s[i + 1]);
        }
        lemma_find_first_none(t, c);
    }
}

/// `find_last` is the unique position of `c` with no `c` after it.
pub proof fn lemma_find_last_is(s: Seq<char>, c: char, n: int)
    requires
        0 <= n < s.len(),
        s[n] == c,
        forall|i: int| n < i < s.len() ==> #[trigger] s[i] != c,
    ensures
        find_last(s, c) == n,
    decreases s.len(),
{
    if n == s.len() - 1 {
    } else {
        assert(s.last() != c);
        let t = s.drop_last();
        assert(t[n] == s[n]);
        assert forall|i: int| n < i < t.len() implies #[trigger] t[i] != c by {
            assert(t[i] == s[i]);
        }
        lemma_find_last_is(t, c, n);
    }
}

/// When `c` does not occur in `s`, `find_last` reports -1.
pub proof fn lemma_find_last_none(s: Seq<char>, c: char)
    requires
        forall|i: int| 0 <= i < s.len() ==> #[trigger] s[i] != c,
    ensures
        find_last(s, c) == -1,
    decreases s.len(),
{
    if s.len() > 0 {
        assert(s.last() != c);
        let t = s.drop_last();
        assert forall|i: int| 0 <= i < t.len() implies #[trigger] t[i] != c by {
            assert(t[i] == s[i]);
        }
        lemma_find_last_none(t, c);
    }
}

/// Horner step for column decoding: extending an upper-letter prefix by one
/// letter multiplies its value by 26 and adds the letter's one-based rank.
pub proof fn lemma_letters_value_step(s: Seq<char>, k: int)
    requires
        0 <= k < s.len(),
    ensures
        letters_value(s.take(k + 1)) == letters_value(s.take(k)) * 26 + letter_index(s[k]) + 1,
{
    let t = s.take(k + 1);
    assert(t.drop_last() =~= s.take(k));
    assert(t.last() == s[k]);
}

/// Horner step for row decoding.
pub proof fn lemma_digits_value_step(s: Seq<char>, k: int)
    requires
        0 <= k < s.len(),
    ensures
        digits_value(s.take(k + 1)) == digits_value(s.take(k)) * 10 + digit_value(s[k]),
{
    let t = s.take(k + 1);
    assert(t.drop_last() =~= s.take(k));
    assert(t.last() == s[k]);
}

/// The value of an all-letter sequence is at least its length (each letter
/// contributes at least one), so in particular it is non-negative and grows
/// as the sequence grows.
pub proof fn lemma_letters_value_nonneg(s: Seq<char>)
    requires
        all_letters(s),
    ensures
        letters_value(s) >= s.len(),
    decreases s.len(),
{
    if s.len() > 0 {
        let t = s.drop_last();
        assert(all_letters(t)) by {
            assert(forall|i: int| 0 <= i < t.len() ==> t[i] == s[i]);
        }
        lemma_letters_value_nonneg(t);
        assert(is_letter(s.last()));
        assert(letter_index(s.last()) >= 0);
    }
}

/// Digit sequences decode to non-negative values.
pub proof fn lemma_digits_value_nonneg(s: Seq<char>)
    requires
        all_digits(s),
    ensures
        digits_value(s) >= 0,
    decreases s.len(),
{
    if s.len() > 0 {
        let t = s.drop_last();
        assert(all_digits(t)) by {
            assert(forall|i: int| 0 <= i < t.len() ==> t[i] == s[i]);
        }
        lemma_digits_value_nonneg(t);
        assert(is_digit(s.last()));
    }
}

/// Whether `c` is a letter (`A`-`Z` or `a`-`z`).
pub fn letter_char(c: char) -> (r: bool)
    ensures
        r == is_letter(c),
{
    let u = c as u32;
    (65 <= u && u <= 90) || (97 <= u && u <= 122)
}

/// Whether `c` is a decimal digit.
pub fn digit_char(c: char) -> (r: bool)
    ensures
        r == is_digit(c),
{
    let u = c as u32;
    48 <= u && u <= 57
}

/// The alphabet position of a letter, case-insensitively.
pub fn letter_char_index(c: char) -> (r: u32)
    requires
        is_letter(c),
    ensures
        r == letter_index(c),
        r < 26,
{
    let u = c as u32;
    if u >= 97 {
        u - 97
    } else {
        u - 65
    }
}

/// The numeric value of a digit character.
pub fn digit_char_value(c: char) -> (r: u32)
    requires
        is_digit(c),
    ensures
        r == digit_value(c),
        r < 10,
{
    c as u32 - 48
}

} // verus!
