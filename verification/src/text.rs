//! Text as sequences of characters: trimming, case folding, decimal numerals
//! and joining, with the mathematical functions that the rest of the crate
//! states its contracts over.

use vstd::prelude::*;
use vstd::string::*;

verus! {

/// Whether `c` has the Unicode property White_Space, which is what
/// `char::is_whitespace` reports and what `str::trim` removes: the controls
/// from tab to carriage return, the space, the next-line control, and the
/// spaces and separators of the other scripts.
pub open spec fn is_white_space(c: char) -> bool {
    let code = c as int;
    ||| 0x09 <= code <= 0x0D
    ||| code == 0x20
    ||| code == 0x85
    ||| code == 0xA0
    ||| code == 0x1680
    ||| 0x2000 <= code <= 0x200A
    ||| code == 0x2028
    ||| code == 0x2029
    ||| code == 0x202F
    ||| code == 0x205F
    ||| code == 0x3000
}

/// The lowercase form of `s` under Unicode's case mapping, as
/// `str::to_lowercase` produces it.
pub uninterp spec fn lowercase(s: Seq<char>) -> Seq<char>;

/// `s` without its leading white space.
pub open spec fn trimmed_start(s: Seq<char>) -> Seq<char>
    decreases s.len(),
{
    if s.len() > 0 && is_white_space(s.first()) {
        trimmed_start(s.drop_first())
    } else {
        s
    }
}

/// `s` without its trailing white space.
pub open spec fn trimmed_end(s: Seq<char>) -> Seq<char>
    decreases s.len(),
{
    if s.len() > 0 && is_white_space(s.last()) {
        trimmed_end(s.drop_last())
    } else {
        s
    }
}

/// `s` without the white space that surrounds it.
pub open spec fn trimmed(s: Seq<char>) -> Seq<char> {
    trimmed_end(trimmed_start(s))
}

/// A cell is blank when nothing but white space stands in it.
pub open spec fn is_blank(s: Seq<char>) -> bool {
    trimmed(s).len() == 0
}

/// `str::trim`. Trusted: the slice that comes back is the argument with its
/// leading and trailing white space removed, white space being the characters
/// with the Unicode property White_Space.
#[verifier::external_body]
pub(crate) fn trim(s: &str) -> (t: &str)
    ensures
        t@ == trimmed(s@),
{
    s.trim()
}

/// What is left of a text without its leading white space starts with no
/// white space, and is the end of the text.
pub proof fn lemma_trimmed_start(s: Seq<char>)
    ensures
        trimmed_start(s).len() <= s.len(),
        trimmed_start(s) == s.skip(s.len() - trimmed_start(s).len()),
        trimmed_start(s).len() > 0 ==> !is_white_space(trimmed_start(s).first()),
        forall|i: int| 0 <= i < s.len() - trimmed_start(s).len() ==> is_white_space(s[i]),
    decreases s.len(),
{
    if s.len() > 0 && is_white_space(s.first()) {
        let rest = s.drop_first();
        lemma_trimmed_start(rest);
        let kept = trimmed_start(rest);
        assert(rest.skip(rest.len() - kept.len()) =~= s.skip(s.len() - kept.len()));
        assert forall|i: int| 0 <= i < s.len() - kept.len() implies is_white_space(s[i]) by {
            if i > 0 {
                assert(s[i] == rest[i - 1]);
            }
        }
    } else {
        assert(s.skip(0) =~= s);
    }
}

/// What is left of a text without its trailing white space ends with no
/// white space, and is the start of the text.
pub proof fn lemma_trimmed_end(s: Seq<char>)
    ensures
        trimmed_end(s).len() <= s.len(),
        trimmed_end(s) == s.take(trimmed_end(s).len() as int),
        trimmed_end(s).len() > 0 ==> !is_white_space(trimmed_end(s).last()),
        forall|i: int| trimmed_end(s).len() <= i < s.len() ==> is_white_space(s[i]),
    decreases s.len(),
{
    if s.len() > 0 && is_white_space(s.last()) {
        let rest = s.drop_last();
        lemma_trimmed_end(rest);
        let kept = trimmed_end(rest);
        assert(rest.take(kept.len() as int) =~= s.take(kept.len() as int));
        assert forall|i: int| kept.len() <= i < s.len() implies is_white_space(s[i]) by {
            if i < s.len() - 1 {
                assert(s[i] == rest[i]);
            }
        }
    } else {
        assert(s.take(s.len() as int) =~= s);
    }
}

/// Where anything is left of a trimmed text, neither its first nor its last
/// character is white space.
pub proof fn law_trimmed_text_has_bare_ends(s: Seq<char>)
    ensures
        trimmed(s).len() > 0 ==> !is_white_space(trimmed(s).first()) && !is_white_space(
            trimmed(s).last(),
        ),
{
    let started = trimmed_start(s);
    lemma_trimmed_start(s);
    lemma_trimmed_end(started);
    if trimmed(s).len() > 0 {
        assert(trimmed(s).first() == started.take(trimmed(s).len() as int)[0]);
    }
}

/// A text that neither starts nor ends with white space is its own trimmed
/// form; a text of white space alone is blank.
pub proof fn law_trimming_by_the_ends(s: Seq<char>)
    ensures
        s.len() > 0 && !is_white_space(s.first()) && !is_white_space(s.last()) ==> trimmed(s)
            == s,
        (forall|i: int| 0 <= i < s.len() ==> is_white_space(#[trigger] s[i])) ==> is_blank(s),
{
    lemma_trimmed_start(s);
    lemma_trimmed_end(trimmed_start(s));
    if forall|i: int| 0 <= i < s.len() ==> is_white_space(#[trigger] s[i]) {
        let started = trimmed_start(s);
        if started.len() > 0 {
            assert(started.first() == s[s.len() - started.len()]);
        }
    }
}

/// `str::to_lowercase`. Trusted: the string that comes back is the lowercase
/// form of the argument, a function of the argument's characters alone.
#[verifier::external_body]
pub(crate) fn to_lowercase(s: &str) -> (lowered: String)
    ensures
        lowered@ == lowercase(s@),
{
    s.to_lowercase()
}

/// The pieces of `s` between the occurrences of `separator`: one more than
/// there are occurrences.
pub open spec fn split_on(s: Seq<char>, separator: char) -> Seq<Seq<char>>
    decreases s.len(),
{
    if s.len() == 0 {
        seq![Seq::empty()]
    } else {
        let before = split_on(s.drop_last(), separator);
        if s.last() == separator {
            before.push(Seq::empty())
        } else {
            before.update(before.len() - 1, before.last().push(s.last()))
        }
    }
}

/// `line` without the carriage return at its end, if it has one.
pub open spec fn without_carriage_return(line: Seq<char>) -> Seq<char> {
    if line.len() > 0 && line.last() == '\r' {
        line.drop_last()
    } else {
        line
    }
}

/// The lines of `s`. A line ends at a line feed, or at a carriage return
/// followed by a line feed; the last line ends with the text. A text that ends
/// in a line ending has no empty line after it.
pub open spec fn lines_of(s: Seq<char>) -> Seq<Seq<char>> {
    let pieces = split_on(s, '\n');
    let ended = pieces.drop_last().map_values(|piece: Seq<char>| without_carriage_return(piece));
    if pieces.last().len() == 0 {
        ended
    } else {
        ended.push(pieces.last())
    }
}

/// `str::lines`, collected. Trusted: the slices are the lines of the text,
/// without their line endings, as the standard library documents them.
#[verifier::external_body]
pub(crate) fn lines(s: &str) -> (lines: Vec<&str>)
    ensures
        lines.deep_view() == lines_of(s@),
{
    s.lines().collect()
}

/// `str::split` with a character as the pattern, collected. Trusted: the
/// slices are the pieces of the text between the occurrences of the
/// character, empty ones included.
#[verifier::external_body]
pub(crate) fn split(s: &str, separator: char) -> (pieces: Vec<&str>)
    ensures
        pieces.deep_view() == split_on(s@, separator),
{
    s.split(separator).collect()
}

/// The characters of `s`, in order.
pub fn chars_of(s: &str) -> (chars: Vec<char>)
    ensures
        chars@ == s@,
{
    let mut chars: Vec<char> = Vec::new();
    for c in it: s.chars()
        invariant
            chars@ == it.seq().take(it.index() as int),
            it.seq() == s@,
    {
        chars.push(c);
    }
    chars
}

/// Whether nothing but white space stands in `s`.
pub fn is_blank_text(s: &str) -> (blank: bool)
    ensures
        blank == is_blank(s@),
{
    trim(s).unicode_len() == 0
}

/// Whether `c` is one of the ten decimal digits.
pub open spec fn is_digit(c: char) -> bool {
    '0' <= c <= '9'
}

/// The number that the digit `c` stands for.
pub open spec fn digit_value(c: char) -> nat {
    (c as int - 48) as nat
}

/// Whether `s` holds decimal digits only.
pub open spec fn all_digits(s: Seq<char>) -> bool {
    forall|i: int| 0 <= i < s.len() ==> is_digit(#[trigger] s[i])
}

/// The number that the decimal numeral `digits` stands for.
pub open spec fn decimal_value(digits: Seq<char>) -> nat
    decreases digits.len(),
{
    if digits.len() == 0 {
        0
    } else {
        decimal_value(digits.drop_last()) * 10 + digit_value(digits.last())
    }
}

/// The digit character for `d`, which is below ten.
pub open spec fn digit_char(d: nat) -> char {
    (d + 48) as char
}

/// The decimal numeral of `n`, without leading zeros.
pub open spec fn decimal_text(n: nat) -> Seq<char>
    decreases n,
{
    if n < 10 {
        seq![digit_char(n)]
    } else {
        decimal_text(n / 10).push(digit_char(n % 10))
    }
}

/// The parts of `parts` in order, with `separator` between each two.
pub open spec fn joined(parts: Seq<Seq<char>>, separator: Seq<char>) -> Seq<char>
    decreases parts.len(),
{
    if parts.len() == 0 {
        Seq::empty()
    } else if parts.len() == 1 {
        parts[0]
    } else {
        joined(parts.drop_last(), separator) + separator + parts.last()
    }
}

/// A numeral's value never shrinks when digits are appended to it.
pub proof fn lemma_decimal_value_grows(digits: Seq<char>, k: int)
    requires
        0 <= k <= digits.len(),
        all_digits(digits),
    ensures
        decimal_value(digits.take(k)) <= decimal_value(digits),
    decreases digits.len() - k,
{
    if k == digits.len() {
        assert(digits.take(k) =~= digits);
    } else {
        let shorter = digits.drop_last();
        assert(all_digits(shorter)) by {
            assert forall|i: int| 0 <= i < shorter.len() implies is_digit(#[trigger] shorter[i]) by {
                assert(shorter[i] == digits[i]);
            }
        }
        assert(shorter.take(k) =~= digits.take(k));
        lemma_decimal_value_grows(shorter, k);
    }
}

/// The decimal numeral of `n` is made of digits, one at least, and stands
/// for `n`.
pub proof fn law_numerals_stand_for_their_numbers(n: nat)
    ensures
        all_digits(decimal_text(n)),
        decimal_text(n).len() > 0,
        decimal_value(decimal_text(n)) == n,
    decreases n,
{
    if n < 10 {
        let t = decimal_text(n);
        assert(t.drop_last() =~= Seq::<char>::empty());
        assert(decimal_value(t.drop_last()) == 0);
        assert(t.last() == digit_char(n));
    } else {
        law_numerals_stand_for_their_numbers(n / 10);
        let head = decimal_text(n / 10);
        let t = decimal_text(n);
        assert(t.drop_last() =~= head);
        assert(t.last() == digit_char(n % 10));
        assert forall|i: int| 0 <= i < t.len() implies is_digit(#[trigger] t[i]) by {
            if i < head.len() {
                assert(t[i] == head[i]);
            }
        }
    }
}

fn digit_str(d: usize) -> (s: &'static str)
    requires
        d < 10,
    ensures
        s@ == seq![digit_char(d as nat)],
{
    proof {
        reveal_strlit("0");
        reveal_strlit("1");
        reveal_strlit("2");
        reveal_strlit("3");
        reveal_strlit("4");
        reveal_strlit("5");
        reveal_strlit("6");
        reveal_strlit("7");
        reveal_strlit("8");
        reveal_strlit("9");
    }
    let s = if d == 0 {
        "0"
    } else if d == 1 {
        "1"
    } else if d == 2 {
        "2"
    } else if d == 3 {
        "3"
    } else if d == 4 {
        "4"
    } else if d == 5 {
        "5"
    } else if d == 6 {
        "6"
    } else if d == 7 {
        "7"
    } else if d == 8 {
        "8"
    } else {
        "9"
    };
    assert(s@ =~= seq![digit_char(d as nat)]);
    s
}

/// The decimal numeral of `n`.
pub fn decimal_string(n: usize) -> (numeral: String)
    ensures
        numeral@ == decimal_text(n as nat),
    decreases n,
{
    if n < 10 {
        digit_str(n).to_string()
    } else {
        let mut numeral = decimal_string(n / 10);
        numeral.append(digit_str(n % 10));
        assert(numeral@ =~= decimal_text(n as nat));
        numeral
    }
}

/// Appends `item` to `list`.
pub fn push_string(list: &mut Vec<String>, item: String)
    ensures
        final(list).deep_view() == old(list).deep_view().push(item@),
{
    list.push(item);
    assert(list.deep_view() =~= old(list).deep_view().push(item@));
}

/// The strings of `parts` in order, with `separator` between each two.
pub fn join(parts: &Vec<String>, separator: &str) -> (text: String)
    ensures
        text@ == joined(parts.deep_view(), separator@),
{
    let mut text = String::new();
    let mut i: usize = 0;
    while i < parts.len()
        invariant
            i <= parts.len(),
            text@ == joined(parts.deep_view().take(i as int), separator@),
        decreases parts.len() - i,
    {
        let ghost before = parts.deep_view().take(i as int);
        let ghost after = parts.deep_view().take(i + 1);
        assert(after.drop_last() =~= before);
        assert(after.last() == parts[i as int]@);
        if i > 0 {
            text.append(separator);
        }
        text.append(parts[i].as_str());
        proof {
            if i == 1 {
                assert(before.len() == 1);
            }
            assert(text@ =~= joined(after, separator@));
        }
        i += 1;
    }
    assert(parts.deep_view().take(i as int) =~= parts.deep_view());
    text
}

} // verus!
