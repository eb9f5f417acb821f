//! Decimal text: the numerals that brightness files and targets are written
//! in, read and written digit by digit.
use vstd::prelude::*;
use vstd::string::{StrSliceExecFns, StringExecFns};

verus! {

/// Whether `c` is one of the ten digits `0` to `9`.
pub open spec fn is_digit(c: char) -> bool {
    '0' <= c <= '9'
}

/// The number that the digit `c` stands for.
pub open spec fn digit_value(c: char) -> nat {
    (c as int - '0' as int) as nat
}

/// Whether `text` holds digits only.
pub open spec fn all_digits(text: Seq<char>) -> bool {
    forall|i: int| 0 <= i < text.len() ==> is_digit(#[trigger] text[i])
}

/// The number that a run of digits stands for, the first digit weighing
/// most. The empty run stands for zero.
pub open spec fn digits_value(digits: Seq<char>) -> nat
    decreases digits.len(),
{
    if digits.len() == 0 {
        0
    } else {
        10 * digits_value(digits.drop_last()) + digit_value(digits.last())
    }
}

/// The numeral without the plus sign that may lead it.
pub open spec fn without_sign(text: Seq<char>) -> Seq<char> {
    if text.len() > 0 && text[0] == '+' {
        text.drop_first()
    } else {
        text
    }
}

/// The number that `text` stands for: an optional plus sign, then at least
/// one digit and nothing else, the whole no larger than a `u64` can hold.
/// Any other text stands for no number.
pub open spec fn parse_decimal(text: Seq<char>) -> Option<u64> {
    let digits = without_sign(text);
    if digits.len() > 0 && all_digits(digits) && digits_value(digits) <= u64::MAX {
        Some(digits_value(digits) as u64)
    } else {
        None
    }
}

/// A run of digits stands for at least what any of its prefixes stands for.
pub proof fn lemma_digits_value_prefix(digits: Seq<char>, len: int)
    requires
        0 <= len <= digits.len(),
    ensures
        digits_value(digits.subrange(0, len)) <= digits_value(digits),
    decreases digits.len() - len,
{
    if len == digits.len() {
        assert(digits.subrange(0, len) =~= digits);
    } else {
        lemma_digits_value_prefix(digits.drop_last(), len);
        assert(digits.drop_last().subrange(0, len) =~= digits.subrange(0, len));
    }
}

/// Reads the numeral that `text` holds.
pub fn parse(text: &str) -> (number: Option<u64>)
    ensures
        number == parse_decimal(text@),
{
    let ghost digits = without_sign(text@);
    let ghost mut sign: int = 0;
    let mut value: u64 = 0;
    let mut at_start: bool = true;
    let mut any_digit: bool = false;
    for c in it: text.chars()
        invariant
            it.seq() == text@,
            digits == without_sign(text@),
            at_start == (it.index() == 0),
            sign == 0 || sign == 1,
            sign == 1 <==> it.index() > 0 && text@[0] == '+',
            any_digit == (it.index() - sign > 0),
            all_digits(digits.subrange(0, it.index() - sign)),
            value == digits_value(digits.subrange(0, it.index() - sign)),
    {
        if at_start && c == '+' {
            proof {
                sign = 1;
            }
        } else if c >= '0' && c <= '9' {
            let digit: u64 = (c as u32 - '0' as u32) as u64;
            let ghost longer = digits.subrange(0, it.index() - sign + 1);
            assert(longer.drop_last() =~= digits.subrange(0, it.index() - sign));
            if value > (u64::MAX - digit) / 10 {
                proof {
                    if all_digits(digits) {
                        lemma_digits_value_prefix(digits, it.index() - sign + 1);
                    }
                }
                return None;
            }
            value = value * 10 + digit;
            any_digit = true;
        } else {
            assert(!is_digit(digits[it.index() - sign]));
            return None;
        }
        at_start = false;
    }
    assert(digits.subrange(0, digits.len() as int) =~= digits);
    if any_digit {
        Some(value)
    } else {
        None
    }
}

/// The digit that stands for `d`, for `d` below ten.
pub open spec fn digit_char(d: nat) -> char {
    ('0' as int + d) as char
}

/// The numeral of `v`: its digits, the first weighing most, with no sign
/// and no leading zero; the numeral of zero is `0`.
pub open spec fn decimal_text(v: nat) -> Seq<char>
    decreases v,
{
    if v < 10 {
        seq![digit_char(v)]
    } else {
        decimal_text(v / 10).push(digit_char(v % 10))
    }
}

fn digit_text(d: u64) -> (text: &'static str)
    requires
        d < 10,
    ensures
        text@ == seq![digit_char(d as nat)],
{
    proof {
        reveal_strlit("0");
        reveal_strlit("1");
        reveal_strlit("2");
        reveal_strlit("3");
        reveal_strlit("4");
        reveal_strlit("5");
        reveal_strlit("6");
        reveal_strlit("7");
        reveal_strlit("8");
        reveal_strlit("9");
    }
    match d {
        0 => "0",
        1 => "1",
        2 => "2",
        3 => "3",
        4 => "4",
        5 => "5",
        6 => "6",
        7 => "7",
        8 => "8",
        _ => "9",
    }
}

/// Writes the numeral of `v` behind what `out` holds.
pub fn append_decimal(out: &mut String, v: u64)
    ensures
        final(out)@ == old(out)@ + decimal_text(v as nat),
    decreases v,
{
    if v >= 10 {
        append_decimal(out, v / 10);
    }
    out.append(digit_text(v % 10));
}

/// The numeral of `v`.
pub fn format_decimal(v: u64) -> (text: String)
    ensures
        text@ == decimal_text(v as nat),
{
    let mut text = String::new();
    append_decimal(&mut text, v);
    text
}

/// A numeral is made of digits and stands for the number it was written
/// for.
pub proof fn lemma_decimal_text_value(v: nat)
    ensures
        decimal_text(v).len() > 0,
        all_digits(decimal_text(v)),
        digits_value(decimal_text(v)) == v,
    decreases v,
{
    if v < 10 {
        assert(digits_value(decimal_text(v).drop_last()) == 0);
    } else {
        lemma_decimal_text_value(v / 10);
        assert(decimal_text(v).drop_last() =~= decimal_text(v / 10));
    }
}

/// Reading the numeral of a number gives the number back.
pub proof fn lemma_parse_decimal_text(v: u64)
    ensures
        parse_decimal(decimal_text(v as nat)) == Some(v),
{
    lemma_decimal_text_value(v as nat);
}

/// Whether `c` is white space: one of the code points that Unicode gives the
/// property `White_Space`.
pub open spec fn is_whitespace(c: char) -> bool {
    let code: u32 = c as u32;
    ||| 0x09 <= code <= 0x0D
    ||| code == 0x20
    ||| code == 0x85
    ||| code == 0xA0
    ||| code == 0x1680
    ||| 0x2000 <= code <= 0x200A
    ||| code == 0x2028
    ||| code == 0x2029
    ||| code == 0x202F
    ||| code == 0x205F
    ||| code == 0x3000
}

/// `text` without the white space that leads it.
pub open spec fn trim_start(text: Seq<char>) -> Seq<char>
    decreases text.len(),
{
    if text.len() > 0 && is_whitespace(text.first()) {
        trim_start(text.drop_first())
    } else {
        text
    }
}

/// `text` without the white space that ends it.
pub open spec fn trim_end(text: Seq<char>) -> Seq<char>
    decreases text.len(),
{
    if text.len() > 0 && is_whitespace(text.last()) {
        trim_end(text.drop_last())
    } else {
        text
    }
}

/// `text` without the white space that leads it and that ends it.
pub open spec fn trimmed(text: Seq<char>) -> Seq<char> {
    trim_end(trim_start(text))
}

fn is_whitespace_char(c: char) -> (white: bool)
    ensures
        white == is_whitespace(c),
{
    let code: u32 = c as u32;
    (0x09 <= code && code <= 0x0D) || code == 0x20 || code == 0x85 || code == 0xA0 || code
        == 0x1680 || (0x2000 <= code && code <= 0x200A) || code == 0x2028 || code == 0x2029
        || code == 0x202F || code == 0x205F || code == 0x3000
}

/// Whether `text` holds white space only from `from` up to `to`.
pub open spec fn all_whitespace(text: Seq<char>, from: int, to: int) -> bool {
    forall|i: int| from <= i < to ==> is_whitespace(#[trigger] text[i])
}

/// The white space that leads a text ends where its first other character
/// stands.
pub proof fn lemma_trim_start_at(text: Seq<char>, start: int)
    requires
        0 <= start <= text.len(),
        all_whitespace(text, 0, start),
        start < text.len() ==> !is_whitespace(text[start]),
    ensures
        trim_start(text) == text.subrange(start, text.len() as int),
    decreases start,
{
    if start == 0 {
        assert(text.subrange(0, text.len() as int) =~= text);
    } else {
        let rest = text.drop_first();
        assert forall|i: int| 0 <= i < start - 1 implies is_whitespace(#[trigger] rest[i]) by {
            assert(is_whitespace(text[i + 1]));
        }
        lemma_trim_start_at(rest, start - 1);
        assert(rest.subrange(start - 1, rest.len() as int) =~= text.subrange(
            start,
            text.len() as int,
        ));
    }
}

/// The white space that ends a text begins behind its last other character.
pub proof fn lemma_trim_end_at(text: Seq<char>, end: int)
    requires
        0 <= end <= text.len(),
        all_whitespace(text, end, text.len() as int),
        end > 0 ==> !is_whitespace(text[end - 1]),
    ensures
        trim_end(text) == text.subrange(0, end),
    decreases text.len() - end,
{
    if end == text.len() {
        assert(text.subrange(0, end) =~= text);
    } else {
        let rest = text.drop_last();
        lemma_trim_end_at(rest, end);
        assert(rest.subrange(0, end) =~= text.subrange(0, end));
    }
}

/// The part of `text` between the white space that leads it and the white
/// space that ends it.
pub fn trim(text: &str) -> (inner: &str)
    ensures
        inner@ == trimmed(text@),
{
    let len: usize = text.unicode_len();
    let mut start: usize = 0;
    let mut end: usize = 0;
    let mut i: usize = 0;
    for c in it: text.chars()
        invariant
            it.seq() == text@,
            len == text@.len(),
            i == it.index(),
            start <= end <= i <= len,
            all_whitespace(text@, 0, start as int),
            all_whitespace(text@, end as int, i as int),
            start < end ==> !is_whitespace(text@[start as int]) && !is_whitespace(text@[end - 1]),
            start == end ==> start == i,
    {
        if !is_whitespace_char(c) {
            end = i + 1;
        } else if start == end {
            start = i + 1;
            end = i + 1;
        }
        i = i + 1;
    }
    proof {
        let tail = trim_start(text@);
        if start < end {
            lemma_trim_start_at(text@, start as int);
            assert forall|k: int| end - start <= k < tail.len() implies is_whitespace(
                #[trigger] tail[k],
            ) by {
                assert(is_whitespace(text@[k + start]));
            }
            lemma_trim_end_at(tail, end - start);
            assert(tail.subrange(0, end - start) =~= text@.subrange(start as int, end as int));
        } else {
            lemma_trim_start_at(text@, len as int);
            assert(text@.subrange(start as int, end as int) =~= tail);
        }
    }
    text.substring_char(start, end)
}

/// A text that neither begins nor ends with white space is left as it is.
pub proof fn lemma_trimmed_unchanged(text: Seq<char>)
    requires
        text.len() > 0 ==> !is_whitespace(text.first()) && !is_whitespace(text.last()),
    ensures
        trimmed(text) == text,
{
}

/// Around a numeral there is nothing to trim.
pub proof fn lemma_decimal_text_trimmed(v: nat)
    ensures
        trimmed(decimal_text(v)) == decimal_text(v),
{
    lemma_decimal_text_value(v);
    lemma_trimmed_unchanged(decimal_text(v));
}

} // verus!
