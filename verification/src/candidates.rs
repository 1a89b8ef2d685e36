//! The candidate types of a single cell: whether its text, once trimmed, is a
//! signed 64-bit integer, a floating-point number or a boolean literal.

use vstd::prelude::*;
use crate::text::{
    all_digits, chars_of, decimal_value, digit_value, is_digit, lemma_decimal_value_grows,
    lowercase, to_lowercase, trim, trimmed,
};

verus! {

/// The largest magnitude of a negative 64-bit integer.
pub const I64_MIN_MAGNITUDE: u64 = 0x8000_0000_0000_0000;

/// The largest 64-bit integer.
pub const I64_MAX_MAGNITUDE: u64 = 0x7fff_ffff_ffff_ffff;

/// A signed 64-bit integer in decimal: an optional `-`, then one digit or
/// more, the number within the range of the type. No `+`, no separators.
pub open spec fn is_integer_text(s: Seq<char>) -> bool {
    if s.len() > 0 && s[0] == '-' {
        let digits = s.drop_first();
        digits.len() > 0 && all_digits(digits) && decimal_value(digits) <= I64_MIN_MAGNITUDE
    } else {
        s.len() > 0 && all_digits(s) && decimal_value(s) <= I64_MAX_MAGNITUDE
    }
}

/// A signed 64-bit integer in decimal as the standard library reads it: as
/// above, or a `+` and then one digit or more.
pub open spec fn is_signed_integer_text(s: Seq<char>) -> bool {
    if s.len() > 0 && s[0] == '+' {
        let digits = s.drop_first();
        digits.len() > 0 && all_digits(digits) && decimal_value(digits) <= I64_MAX_MAGNITUDE
    } else {
        is_integer_text(s)
    }
}

/// Whether `c` is a sign.
pub open spec fn is_sign(c: char) -> bool {
    c == '+' || c == '-'
}

/// The lowercase form of an ASCII capital; any other character unchanged.
pub open spec fn ascii_lower(c: char) -> char {
    if 'A' <= c <= 'Z' {
        (c as int + 32) as char
    } else {
        c
    }
}

/// The index of the first character at or after `from` that is no digit.
pub open spec fn digits_end(s: Seq<char>, from: int) -> int
    decreases s.len() - from,
{
    if 0 <= from < s.len() && is_digit(s[from]) {
        digits_end(s, from + 1)
    } else {
        from
    }
}

/// An exponent: `e` or `E`, an optional sign, then one digit or more.
pub open spec fn is_exponent(s: Seq<char>) -> bool {
    &&& s.len() > 0
    &&& (s[0] == 'e' || s[0] == 'E')
    &&& {
        let digits = if s.len() > 1 && is_sign(s[1]) {
            s.skip(2)
        } else {
            s.skip(1)
        };
        digits.len() > 0 && all_digits(digits)
    }
}

/// An unsigned number: digits with an optional point among them, at least one
/// digit in all, then an optional exponent.
pub open spec fn is_unsigned_number(s: Seq<char>) -> bool {
    let whole_end = digits_end(s, 0);
    let has_point = whole_end < s.len() && s[whole_end] == '.';
    let mantissa_end = if has_point {
        digits_end(s, whole_end + 1)
    } else {
        whole_end
    };
    let digit_count = if has_point {
        mantissa_end - 1
    } else {
        mantissa_end
    };
    digit_count > 0 && (mantissa_end == s.len() || is_exponent(s.skip(mantissa_end)))
}

/// One of the words for a value that is no number, in any mix of cases.
pub open spec fn is_special_float(s: Seq<char>) -> bool {
    let word = s.map_values(|c: char| ascii_lower(c));
    word == seq!['i', 'n', 'f'] || word == seq!['n', 'a', 'n'] || word == seq![
        'i',
        'n',
        'f',
        'i',
        'n',
        'i',
        't',
        'y',
    ]
}

/// A floating-point number as text: an optional sign, then a number with an
/// optional fraction and exponent, or one of `inf`, `infinity` and `nan`.
pub open spec fn is_float_text(s: Seq<char>) -> bool {
    let unsigned = if s.len() > 0 && is_sign(s[0]) {
        s.drop_first()
    } else {
        s
    };
    is_special_float(unsigned) || is_unsigned_number(unsigned)
}

/// One of the literals that stand for a truth value.
pub open spec fn is_boolean_literal(s: Seq<char>) -> bool {
    ||| s == seq!['t', 'r', 'u', 'e']
    ||| s == seq!['f', 'a', 'l', 's', 'e']
    ||| s == seq!['1']
    ||| s == seq!['0']
    ||| s == seq!['y', 'e', 's']
    ||| s == seq!['n', 'o']
    ||| s == seq!['t']
    ||| s == seq!['f']
    ||| s == seq!['y']
    ||| s == seq!['n']
}

/// Whether the cell `value` reads as a signed 64-bit integer.
pub open spec fn integer_candidate(value: Seq<char>) -> bool {
    is_integer_text(trimmed(value))
}

/// Whether the cell `value` reads as a floating-point number.
pub open spec fn float_candidate(value: Seq<char>) -> bool {
    is_float_text(trimmed(value))
}

/// Whether the cell `value` reads as a truth value, whatever its case.
pub open spec fn boolean_candidate(value: Seq<char>) -> bool {
    is_boolean_literal(lowercase(trimmed(value)))
}

fn is_digit_char(c: char) -> (digit: bool)
    ensures
        digit == is_digit(c),
{
    '0' <= c && c <= '9'
}

fn is_sign_char(c: char) -> (sign: bool)
    ensures
        sign == is_sign(c),
{
    c == '+' || c == '-'
}

/// Whether the characters stand for a signed 64-bit integer.
pub fn is_integer_chars(s: &Vec<char>) -> (integer: bool)
    ensures
        integer == is_integer_text(s@),
{
    let n = s.len();
    let negative = n > 0 && s[0] == '-';
    let start: usize = if negative {
        1
    } else {
        0
    };
    let limit: u64 = if negative {
        I64_MIN_MAGNITUDE
    } else {
        I64_MAX_MAGNITUDE
    };
    if start == n {
        return false;
    }
    let ghost digits = s@.skip(start as int);
    assert(negative ==> digits =~= s@.drop_first());
    assert(!negative ==> digits =~= s@);
    assert(is_integer_text(s@) == (all_digits(digits) && decimal_value(digits) <= limit));
    let mut value: u64 = 0;
    let mut i: usize = start;
    while i < n
        invariant
            start <= i <= n,
            n == s.len(),
            digits == s@.skip(start as int),
            all_digits(digits.take(i - start)),
            value == decimal_value(digits.take(i - start)),
            value <= limit,
            I64_MAX_MAGNITUDE <= limit <= I64_MIN_MAGNITUDE,
            is_integer_text(s@) == (all_digits(digits) && decimal_value(digits) <= limit),
        decreases n - i,
    {
        let c = s[i];
        assert(digits[i - start] == c);
        if !is_digit_char(c) {
            assert(!is_digit(digits[i - start]));
            return false;
        }
        let d: u64 = (c as u32 - '0' as u32) as u64;
        assert(d <= 9);
        let ghost longer = digits.take(i - start + 1);
        assert(longer.drop_last() =~= digits.take(i - start));
        assert(longer.last() == c);
        assert(d == digit_value(c));
        assert(decimal_value(longer) == value * 10 + d);
        if value > (limit - d) / 10 {
            proof {
                assert(value * 10 + d > limit);
                if all_digits(digits) {
                    lemma_decimal_value_grows(digits, i - start + 1);
                }
            }
            return false;
        }
        value = value * 10 + d;
        assert(all_digits(longer)) by {
            assert forall|k: int| 0 <= k < longer.len() implies is_digit(#[trigger] longer[k]) by {
                if k < longer.len() - 1 {
                    assert(longer[k] == digits.take(i - start)[k]);
                }
            }
        }
        i += 1;
    }
    assert(digits.take(i - start) =~= digits);
    true
}

/// Whether the characters stand for a signed 64-bit integer, a leading `+`
/// allowed.
pub fn is_signed_integer_chars(s: &Vec<char>) -> (integer: bool)
    ensures
        integer == is_signed_integer_text(s@),
{
    if s.len() > 0 && s[0] == '+' {
        let mut digits: Vec<char> = Vec::new();
        let mut i: usize = 1;
        while i < s.len()
            invariant
                1 <= i <= s.len(),
                digits@ == s@.subrange(1, i as int),
            decreases s.len() - i,
        {
            digits.push(s[i]);
            assert(digits@ =~= s@.subrange(1, i + 1));
            i += 1;
        }
        assert(digits@ =~= s@.drop_first());
        if digits.len() > 0 && digits[0] == '-' {
            assert(!is_digit(digits@[0]));
            return false;
        }
        is_integer_chars(&digits)
    } else {
        is_integer_chars(s)
    }
}

/// The index of the first character at or after `from` that is no digit.
fn scan_digits(s: &Vec<char>, from: usize) -> (end: usize)
    requires
        from <= s.len(),
    ensures
        end == digits_end(s@, from as int),
        from <= end <= s.len(),
        all_digits(s@.subrange(from as int, end as int)),
{
    let mut end: usize = from;
    while end < s.len() && is_digit_char(s[end])
        invariant
            from <= end <= s.len(),
            digits_end(s@, from as int) == digits_end(s@, end as int),
            all_digits(s@.subrange(from as int, end as int)),
        decreases s.len() - end,
    {
        assert(all_digits(s@.subrange(from as int, end + 1))) by {
            let next = s@.subrange(from as int, end + 1);
            assert forall|k: int| 0 <= k < next.len() implies is_digit(#[trigger] next[k]) by {
                if k < next.len() - 1 {
                    assert(next[k] == s@.subrange(from as int, end as int)[k]);
                }
            }
        }
        end += 1;
    }
    end
}

/// `digits_end` stops at the end of a run of digits, and nowhere before.
proof fn lemma_digits_end_of_digits(s: Seq<char>, from: int)
    requires
        0 <= from <= s.len(),
    ensures
        from <= digits_end(s, from) <= s.len(),
        (digits_end(s, from) == s.len()) == all_digits(s.skip(from)),
    decreases s.len() - from,
{
    let rest = s.skip(from);
    if from < s.len() && is_digit(s[from]) {
        lemma_digits_end_of_digits(s, from + 1);
        let tail = s.skip(from + 1);
        if all_digits(tail) {
            assert forall|k: int| 0 <= k < rest.len() implies is_digit(#[trigger] rest[k]) by {
                if k > 0 {
                    assert(rest[k] == tail[k - 1]);
                }
            }
        } else {
            let k = choose|k: int| 0 <= k < tail.len() && !is_digit(#[trigger] tail[k]);
            assert(rest[k + 1] == tail[k]);
        }
    } else if from < s.len() {
        assert(rest[0] == s[from]);
    }
}

fn is_exponent_at(s: &Vec<char>, from: usize) -> (exponent: bool)
    requires
        from < s.len(),
    ensures
        exponent == is_exponent(s@.skip(from as int)),
{
    let ghost tail = s@.skip(from as int);
    assert(tail[0] == s[from as int]);
    if !(s[from] == 'e' || s[from] == 'E') {
        return false;
    }
    let mut start: usize = from + 1;
    if start < s.len() {
        assert(tail[1] == s[start as int]);
        if is_sign_char(s[start]) {
            start = start + 1;
        }
    }
    let ghost digits = s@.skip(start as int);
    assert(digits =~= if tail.len() > 1 && is_sign(tail[1]) {
        tail.skip(2)
    } else {
        tail.skip(1)
    });
    if start == s.len() {
        return false;
    }
    let end = scan_digits(s, start);
    proof {
        lemma_digits_end_of_digits(s@, start as int);
    }
    end == s.len()
}

fn is_unsigned_number_at(s: &Vec<char>, from: usize) -> (number: bool)
    requires
        from <= s.len(),
    ensures
        number == is_unsigned_number(s@.skip(from as int)),
{
    let ghost tail = s@.skip(from as int);
    let n = s.len();
    let whole_end = scan_digits(s, from);
    proof {
        lemma_digits_end_shift(s@, from as int, from as int);
    }
    let has_point = whole_end < n && s[whole_end] == '.';
    assert(whole_end < n ==> tail[whole_end - from] == s[whole_end as int]);
    let mantissa_end = if has_point {
        let e = scan_digits(s, whole_end + 1);
        proof {
            lemma_digits_end_shift(s@, from as int, whole_end + 1);
        }
        e
    } else {
        whole_end
    };
    let digit_count: usize = if has_point {
        mantissa_end - from - 1
    } else {
        mantissa_end - from
    };
    if digit_count == 0 {
        return false;
    }
    if mantissa_end == n {
        return true;
    }
    assert(tail.skip(mantissa_end - from) =~= s@.skip(mantissa_end as int));
    is_exponent_at(s, mantissa_end)
}

/// Scanning for digits in a tail of `s` is scanning in `s`, shifted.
proof fn lemma_digits_end_shift(s: Seq<char>, base: int, from: int)
    requires
        0 <= base <= from <= s.len(),
    ensures
        digits_end(s.skip(base), from - base) == digits_end(s, from) - base,
    decreases s.len() - from,
{
    let tail = s.skip(base);
    if from < s.len() {
        assert(tail[from - base] == s[from]);
        if is_digit(s[from]) {
            lemma_digits_end_shift(s, base, from + 1);
        }
    }
}

fn ascii_lower_char(c: char) -> (lowered: char)
    ensures
        lowered == ascii_lower(c),
{
    if 'A' <= c && c <= 'Z' {
        let code: u8 = c as u8;
        (code + 32) as char
    } else {
        c
    }
}

fn is_special_float_at(s: &Vec<char>, from: usize) -> (special: bool)
    requires
        from <= s.len(),
    ensures
        special == is_special_float(s@.skip(from as int)),
{
    let ghost tail = s@.skip(from as int);
    let ghost word = tail.map_values(|c: char| ascii_lower(c));
    let n = s.len() - from;
    assert(word.len() == n);
    assert(forall|k: int| 0 <= k < n ==> #[trigger] word[k] == ascii_lower(s[from + k]));
    if n == 3 {
        let a = ascii_lower_char(s[from]);
        let b = ascii_lower_char(s[from + 1]);
        let c = ascii_lower_char(s[from + 2]);
        let special = (a == 'i' && b == 'n' && c == 'f') || (a == 'n' && b == 'a' && c == 'n');
        proof {
            assert(word[0] == a && word[1] == b && word[2] == c);
            if special {
                assert(word =~= seq!['i', 'n', 'f'] || word =~= seq!['n', 'a', 'n']);
            }
        }
        special
    } else if n == 8 {
        let special = ascii_lower_char(s[from]) == 'i' && ascii_lower_char(s[from + 1]) == 'n'
            && ascii_lower_char(s[from + 2]) == 'f' && ascii_lower_char(s[from + 3]) == 'i'
            && ascii_lower_char(s[from + 4]) == 'n' && ascii_lower_char(s[from + 5]) == 'i'
            && ascii_lower_char(s[from + 6]) == 't' && ascii_lower_char(s[from + 7]) == 'y';
        proof {
            assert(word[0] == ascii_lower(s[from + 0]));
            assert(word[1] == ascii_lower(s[from + 1]));
            assert(word[2] == ascii_lower(s[from + 2]));
            assert(word[3] == ascii_lower(s[from + 3]));
            assert(word[4] == ascii_lower(s[from + 4]));
            assert(word[5] == ascii_lower(s[from + 5]));
            assert(word[6] == ascii_lower(s[from + 6]));
            assert(word[7] == ascii_lower(s[from + 7]));
            if special {
                assert(word =~= seq!['i', 'n', 'f', 'i', 'n', 'i', 't', 'y']);
            }
        }
        special
    } else {
        false
    }
}

/// Whether the characters stand for a floating-point number.
pub fn is_float_chars(s: &Vec<char>) -> (float: bool)
    ensures
        float == is_float_text(s@),
{
    let start: usize = if s.len() > 0 && is_sign_char(s[0]) {
        1
    } else {
        0
    };
    assert(s@.skip(start as int) =~= if s@.len() > 0 && is_sign(s@[0]) {
        s@.drop_first()
    } else {
        s@
    });
    is_special_float_at(s, start) || is_unsigned_number_at(s, start)
}

/// Whether the characters are one of the literals for a truth value.
pub fn is_boolean_chars(s: &Vec<char>) -> (boolean: bool)
    ensures
        boolean == is_boolean_literal(s@),
{
    let n = s.len();
    if n == 1 {
        let c = s[0];
        let boolean = c == '1' || c == '0' || c == 't' || c == 'f' || c == 'y' || c == 'n';
        assert(boolean ==> s@ =~= seq![c]);
        boolean
    } else if n == 2 {
        let boolean = s[0] == 'n' && s[1] == 'o';
        assert(boolean ==> s@ =~= seq!['n', 'o']);
        boolean
    } else if n == 3 {
        let boolean = s[0] == 'y' && s[1] == 'e' && s[2] == 's';
        assert(boolean ==> s@ =~= seq!['y', 'e', 's']);
        boolean
    } else if n == 4 {
        let boolean = s[0] == 't' && s[1] == 'r' && s[2] == 'u' && s[3] == 'e';
        assert(boolean ==> s@ =~= seq!['t', 'r', 'u', 'e']);
        boolean
    } else if n == 5 {
        let boolean = s[0] == 'f' && s[1] == 'a' && s[2] == 'l' && s[3] == 's' && s[4] == 'e';
        assert(boolean ==> s@ =~= seq!['f', 'a', 'l', 's', 'e']);
        boolean
    } else {
        false
    }
}

/// Whether the cell, once trimmed, is a signed 64-bit integer in decimal.
pub fn could_be_integer(value: &str) -> (candidate: bool)
    ensures
        candidate == integer_candidate(value@),
{
    let chars = chars_of(trim(value));
    is_integer_chars(&chars)
}

/// Whether the cell, once trimmed, is a floating-point number.
pub fn could_be_float(value: &str) -> (candidate: bool)
    ensures
        candidate == float_candidate(value@),
{
    let chars = chars_of(trim(value));
    is_float_chars(&chars)
}

/// Whether the cell, once trimmed and put in lowercase, is one of `true`,
/// `false`, `1`, `0`, `yes`, `no`, `t`, `f`, `y` and `n`.
pub fn could_be_boolean(value: &str) -> (candidate: bool)
    ensures
        candidate == boolean_candidate(value@),
{
    let lowered = to_lowercase(trim(value));
    let chars = chars_of(lowered.as_str());
    is_boolean_chars(&chars)
}

} // verus!
