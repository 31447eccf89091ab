//! Amounts as integers scaled by 10,000, and their text form.
//!
//! An amount is a signed 64-bit count of units of 1/10,000 of a currency unit.
//! On input it is written as an unsigned decimal number with at most four
//! fractional digits; on output as its integer part, a `.`, and its fractional
//! part as a plain number, without padding.
use vstd::prelude::*;
use vstd::slice::slice_subrange;
use vstd::string::*;

verus! {

/// The number of amount units in one currency unit.
pub const SCALE: u64 = 10_000;

/// The number of fractional digits behind an amount.
pub const FRACTION_DIGITS: usize = 4;

/// Why a text is no amount.
#[derive(Debug, Clone, Copy, PartialEq, Eq, Structural)]
pub enum AmountError {
    /// The text before the first `.` is no unsigned 32-bit decimal number.
    IntegerPart,
    /// The text behind the first `.` is too long, or is no decimal number once
    /// it has been padded.
    FractionalPart,
}

/// Whether `b` is one of the ASCII digits `0` to `9`.
pub open spec fn is_digit(b: u8) -> bool {
    0x30 <= b <= 0x39
}

/// Whether `s` consists of ASCII digits only.
pub open spec fn all_digits(s: Seq<u8>) -> bool {
    forall|i: int| 0 <= i < s.len() ==> is_digit(#[trigger] s[i])
}

/// The number that the digits `s` denote, most significant digit first.
pub open spec fn digits_value(s: Seq<u8>) -> nat
    decreases s.len(),
{
    if s.len() == 0 {
        0
    } else {
        digits_value(s.drop_last()) * 10 + (s.last() - 0x30) as nat
    }
}

/// The digits of an unsigned decimal number: the text without the `+` that may
/// stand in front of it.
pub open spec fn unsigned_digits(s: Seq<u8>) -> Seq<u8> {
    if s.len() > 0 && s[0] == 0x2B {
        s.drop_first()
    } else {
        s
    }
}

/// Reads `s` as an unsigned decimal number of at most `max`: an optional `+`
/// followed by one or more digits. Anything else, and any number above `max`,
/// is no number.
pub open spec fn unsigned_value(s: Seq<u8>, max: nat) -> Option<nat> {
    let digits = unsigned_digits(s);
    if digits.len() > 0 && all_digits(digits) && digits_value(digits) <= max {
        Some(digits_value(digits))
    } else {
        None
    }
}

/// The number of bytes of `s` in front of its first `.`; all of them when it
/// has none.
pub open spec fn integer_len(s: Seq<u8>) -> nat
    decreases s.len(),
{
    if s.len() == 0 || s[0] == 0x2E {
        0
    } else {
        1 + integer_len(s.drop_first())
    }
}

/// The text in front of the first `.` of `s`.
pub open spec fn integer_text(s: Seq<u8>) -> Seq<u8> {
    s.take(integer_len(s) as int)
}

/// The text behind the first `.` of `s`, if it has one.
pub open spec fn fraction_text(s: Seq<u8>) -> Option<Seq<u8>> {
    if integer_len(s) < s.len() {
        Some(s.skip(integer_len(s) as int + 1))
    } else {
        None
    }
}

/// `count` zero digits.
pub open spec fn zeros(count: nat) -> Seq<u8> {
    Seq::new(count, |i: int| 0x30u8)
}

/// `fraction`, filled up on the right with zero digits to four bytes.
pub open spec fn padded_fraction(fraction: Seq<u8>) -> Seq<u8> {
    fraction + zeros((FRACTION_DIGITS - fraction.len()) as nat)
}

/// The value of the text behind the `.`, in units of 1/10,000: the text is
/// filled up on the right with zeros to four bytes and read as an unsigned
/// decimal number. A text of more than four bytes has no value.
pub open spec fn fraction_value(fraction: Seq<u8>) -> Option<nat> {
    if fraction.len() > FRACTION_DIGITS {
        None
    } else {
        unsigned_value(padded_fraction(fraction), u16::MAX as nat)
    }
}

/// The amount that the text `s` denotes.
///
/// The text is split at its first `.`. What stands in front is read as an
/// unsigned 32-bit decimal number of whole units; what stands behind, if
/// anything, as up to four fractional digits.
pub open spec fn amount_value(s: Seq<u8>) -> Result<i64, AmountError> {
    match unsigned_value(integer_text(s), u32::MAX as nat) {
        None => Err(AmountError::IntegerPart),
        Some(whole) => match fraction_text(s) {
            None => Ok((whole * SCALE) as i64),
            Some(fraction) => match fraction_value(fraction) {
                None => Err(AmountError::FractionalPart),
                Some(part) => Ok((whole * SCALE + part) as i64),
            },
        },
    }
}

/// A piece of a run of digits is a run of digits.
proof fn lemma_all_digits_subrange(s: Seq<u8>, from: int, to: int)
    requires
        all_digits(s),
        0 <= from <= to <= s.len(),
    ensures
        all_digits(s.subrange(from, to)),
{
    assert forall|j: int| 0 <= j < to - from implies is_digit(#[trigger] s.subrange(from, to)[j]) by {
        assert(s.subrange(from, to)[j] == s[from + j]);
    }
}

/// A number grows when a digit is appended to it, so a prefix of a run of
/// digits never denotes more than the whole run.
pub proof fn lemma_digits_value_prefix(s: Seq<u8>, k: int)
    requires
        0 <= k <= s.len(),
        all_digits(s),
    ensures
        digits_value(s.take(k)) <= digits_value(s),
    decreases s.len(),
{
    if k == s.len() {
        assert(s.take(k) =~= s);
    } else {
        lemma_digits_value_prefix(s.drop_last(), k);
        assert(s.drop_last().take(k) =~= s.take(k));
    }
}

/// Reads `bytes` as an unsigned decimal number of at most `max`.
pub fn parse_unsigned(bytes: &[u8], max: u32) -> (value: Option<u32>)
    ensures
        value matches Some(v) ==> unsigned_value(bytes@, max as nat) == Some(v as nat),
        value is None ==> unsigned_value(bytes@, max as nat) is None,
{
    let len: usize = bytes.len();
    let start: usize = if len > 0 && bytes[0] == 0x2B {
        1
    } else {
        0
    };
    if start == len {
        return None;
    }
    let ghost digits = unsigned_digits(bytes@);
    let mut value: u64 = 0;
    let mut i: usize = start;
    while i < len
        invariant
            start <= i <= len,
            len == bytes@.len(),
            digits == bytes@.skip(start as int),
            digits == unsigned_digits(bytes@),
            all_digits(digits.take(i - start)),
            value == digits_value(digits.take(i - start)),
            value <= max,
        decreases len - i,
    {
        let b: u8 = bytes[i];
        let ghost more = digits.take(i - start + 1);
        assert(more.drop_last() =~= digits.take(i - start));
        if b < 0x30 || b > 0x39 {
            assert(!is_digit(digits[i - start]));
            return None;
        }
        assert(all_digits(more)) by {
            assert forall|j: int| 0 <= j < more.len() implies is_digit(#[trigger] more[j]) by {
                if j < i - start {
                    assert(more[j] == digits.take(i - start)[j]);
                }
            }
        }
        value = value * 10 + (b - 0x30) as u64;
        if value > max as u64 {
            proof {
                if all_digits(digits) {
                    lemma_digits_value_prefix(digits, i - start + 1);
                }
            }
            return None;
        }
        i = i + 1;
    }
    assert(digits.take(len - start) =~= digits);
    Some(value as u32)
}

/// Decodes the text of an amount, as [`amount_value`] describes.
pub fn deserialize_amount(text: &[u8]) -> (amount: Result<i64, AmountError>)
    ensures
        amount == amount_value(text@),
{
    let len: usize = text.len();
    let mut dot: usize = 0;
    assert(text@.skip(0) =~= text@);
    while dot < len && text[dot] != 0x2E
        invariant
            dot <= len,
            len == text@.len(),
            integer_len(text@) == dot + integer_len(text@.skip(dot as int)),
        decreases len - dot,
    {
        assert(text@.skip(dot as int).drop_first() =~= text@.skip(dot + 1));
        dot = dot + 1;
    }
    let whole: u32 = match parse_unsigned(slice_subrange(text, 0, dot), u32::MAX) {
        Some(whole) => whole,
        None => {
            return Err(AmountError::IntegerPart);
        },
    };
    let mut amount: i64 = whole as i64 * SCALE as i64;
    if dot < len {
        let fraction = slice_subrange(text, dot + 1, len);
        if fraction.len() > FRACTION_DIGITS {
            return Err(AmountError::FractionalPart);
        }
        let mut padded: Vec<u8> = Vec::with_capacity(FRACTION_DIGITS);
        padded.extend_from_slice(fraction);
        while padded.len() < FRACTION_DIGITS
            invariant
                fraction@.len() <= padded@.len() <= FRACTION_DIGITS,
                padded@ == fraction@ + zeros((padded@.len() - fraction@.len()) as nat),
            decreases FRACTION_DIGITS - padded@.len(),
        {
            padded.push(0x30);
        }
        match parse_unsigned(padded.as_slice(), u16::MAX as u32) {
            Some(part) => {
                amount = amount + part as i64;
            },
            None => {
                return Err(AmountError::FractionalPart);
            },
        }
    }
    Ok(amount)
}

/// The character of the decimal digit `d`.
pub open spec fn digit_char(d: nat) -> char {
    if d == 0 {
        '0'
    } else if d == 1 {
        '1'
    } else if d == 2 {
        '2'
    } else if d == 3 {
        '3'
    } else if d == 4 {
        '4'
    } else if d == 5 {
        '5'
    } else if d == 6 {
        '6'
    } else if d == 7 {
        '7'
    } else if d == 8 {
        '8'
    } else {
        '9'
    }
}

/// The decimal digits of `n`, without leading zeros; `0` is written `0`.
pub open spec fn decimal(n: nat) -> Seq<char>
    decreases n,
{
    if n < 10 {
        seq![digit_char(n)]
    } else {
        decimal(n / 10).push(digit_char(n % 10))
    }
}

/// The part of an amount in front of the `.`: the amount divided by 10,000 and
/// rounded towards zero. An amount between -1 and 0 has the integer part `0`.
pub open spec fn integer_part(value: int) -> int {
    if value >= 0 {
        value / 10_000
    } else {
        -((-value) / 10_000)
    }
}

/// The part of an amount behind the `.`: the size of what remains of the
/// amount beside its integer part.
pub open spec fn fractional_part(value: int) -> nat {
    if value >= 0 {
        (value % 10_000) as nat
    } else {
        ((-value) % 10_000) as nat
    }
}

/// The text of a whole number: a `-` if it is negative, then its digits.
pub open spec fn signed_decimal(value: int) -> Seq<char> {
    if value < 0 {
        seq!['-'] + decimal((-value) as nat)
    } else {
        decimal(value as nat)
    }
}

/// The text of an amount: its integer part, a `.`, and its fractional part.
///
/// The fractional part is written as a plain number, not padded to four
/// digits, and only the integer part carries a sign: `12340` is written
/// `1.2340`, `10000` is written `1.0`, and `-555000` is written `-55.5000`.
pub open spec fn amount_text(value: int) -> Seq<char> {
    signed_decimal(integer_part(value)) + seq!['.'] + decimal(fractional_part(value))
}

/// The text of one decimal digit.
fn digit_str(d: u64) -> (text: &'static str)
    requires
        d < 10,
    ensures
        text@ == seq![digit_char(d as nat)],
{
    proof {
        reveal_strlit("0");
        reveal_strlit("1");
        reveal_strlit("2");
        reveal_strlit("3");
        reveal_strlit("4");
        reveal_strlit("5");
        reveal_strlit("6");
        reveal_strlit("7");
        reveal_strlit("8");
        reveal_strlit("9");
    }
    let text = if d == 0 {
        "0"
    } else if d == 1 {
        "1"
    } else if d == 2 {
        "2"
    } else if d == 3 {
        "3"
    } else if d == 4 {
        "4"
    } else if d == 5 {
        "5"
    } else if d == 6 {
        "6"
    } else if d == 7 {
        "7"
    } else if d == 8 {
        "8"
    } else {
        "9"
    };
    text
}

/// Appends the decimal digits of `n` to `out`.
pub fn push_decimal(out: &mut String, n: u64)
    ensures
        final(out)@ == old(out)@ + decimal(n as nat),
    decreases n,
{
    if n >= 10 {
        push_decimal(out, n / 10);
    }
    out.append(digit_str(n % 10));
}

/// Writes an amount as text, as [`amount_text`] describes.
pub fn serialize_fractional(value: i64) -> (text: String)
    ensures
        text@ == amount_text(value as int),
{
    let size: u64 = if value >= 0 {
        value as u64
    } else {
        (-(value + 1)) as u64 + 1
    };
    let whole: u64 = size / SCALE;
    let part: u64 = size % SCALE;
    let mut text = String::new();
    if value < 0 && whole > 0 {
        proof {
            reveal_strlit("-");
        }
        text.append("-");
    }
    push_decimal(&mut text, whole);
    proof {
        reveal_strlit(".");
    }
    text.append(".");
    push_decimal(&mut text, part);
    text
}

/// The characters of a text of ASCII bytes.
pub open spec fn text_of(s: Seq<u8>) -> Seq<char> {
    Seq::new(s.len(), |i: int| s[i] as char)
}

/// The digits `digits` without the zeros in front of them. The last digit
/// always stays, so that zero is still written `0`.
pub open spec fn without_leading_zeros(digits: Seq<u8>) -> Seq<u8>
    decreases digits.len(),
{
    if digits.len() > 1 && digits[0] == 0x30 {
        without_leading_zeros(digits.drop_first())
    } else {
        digits
    }
}

/// The canonical form of the text of an amount: the digits in front of the
/// `.` without sign and leading zeros, a `.`, and the fractional digits filled
/// up to four and then written without leading zeros; `0` where the text has
/// no `.`.
pub open spec fn canonical_text(s: Seq<u8>) -> Seq<char> {
    let whole = without_leading_zeros(unsigned_digits(integer_text(s)));
    let part = match fraction_text(s) {
        Some(fraction) => without_leading_zeros(unsigned_digits(padded_fraction(fraction))),
        None => seq![0x30u8],
    };
    text_of(whole) + seq!['.'] + text_of(part)
}

/// A zero in front of a run of digits does not change the number.
proof fn lemma_leading_zero(rest: Seq<u8>)
    ensures
        digits_value(seq![0x30u8] + rest) == digits_value(rest),
    decreases rest.len(),
{
    let all = seq![0x30u8] + rest;
    if rest.len() == 0 {
        assert(digits_value(all.drop_last()) == 0);
    } else {
        lemma_leading_zero(rest.drop_last());
        assert(all.drop_last() =~= seq![0x30u8] + rest.drop_last());
    }
}

/// Appending a digit to a run of digits appends it to the run without its
/// leading zeros, unless the run is zero: then the new digit is all that stays.
proof fn lemma_without_leading_zeros_push(digits: Seq<u8>, last: u8)
    requires
        digits.len() > 0,
        all_digits(digits),
    ensures
        digits_value(digits) == 0 ==> without_leading_zeros(digits.push(last)) == seq![last],
        digits_value(digits) != 0 ==> without_leading_zeros(digits.push(last))
            == without_leading_zeros(digits).push(last),
    decreases digits.len(),
{
    let more = digits.push(last);
    assert(more[0] == digits[0]);
    assert(is_digit(digits[0]));
    if digits[0] == 0x30 {
        let rest = digits.drop_first();
        assert(digits =~= seq![0x30u8] + rest);
        lemma_leading_zero(rest);
        assert(more.drop_first() =~= rest.push(last));
        if rest.len() > 0 {
            lemma_all_digits_subrange(digits, 1, digits.len() as int);
            lemma_without_leading_zeros_push(rest, last);
        }
    } else {
        lemma_digits_value_prefix(digits, 1);
        assert(digits_value(digits.take(1).drop_last()) == 0);
    }
}

/// The character of a digit is the character of its byte.
proof fn lemma_digit_char(b: u8)
    requires
        is_digit(b),
    ensures
        digit_char((b - 0x30) as nat) == b as char,
{
}

/// Written down again, the number that a run of digits denotes is that run
/// without its leading zeros.
pub proof fn lemma_decimal_of_digits(digits: Seq<u8>)
    requires
        digits.len() > 0,
        all_digits(digits),
    ensures
        decimal(digits_value(digits)) == text_of(without_leading_zeros(digits)),
    decreases digits.len(),
{
    let last = digits.last();
    let before = digits.drop_last();
    lemma_digit_char(last);
    assert(digits =~= before.push(last));
    if before.len() > 0 {
        lemma_all_digits_subrange(digits, 0, digits.len() - 1);
        lemma_without_leading_zeros_push(before, last);
        if digits_value(before) != 0 {
            lemma_decimal_of_digits(before);
            assert(text_of(without_leading_zeros(before).push(last)) =~= text_of(
                without_leading_zeros(before),
            ).push(last as char));
        }
    }
}

/// Up to four digits denote less than 10,000.
pub proof fn lemma_four_digits(digits: Seq<u8>)
    requires
        all_digits(digits),
        digits.len() <= 4,
    ensures
        digits.len() <= 0 ==> digits_value(digits) == 0,
        digits.len() <= 1 ==> digits_value(digits) <= 9,
        digits.len() <= 2 ==> digits_value(digits) <= 99,
        digits.len() <= 3 ==> digits_value(digits) <= 999,
        digits_value(digits) <= 9_999,
    decreases digits.len(),
{
    if digits.len() > 0 {
        lemma_all_digits_subrange(digits, 0, digits.len() - 1);
        lemma_four_digits(digits.drop_last());
    }
}

/// Reading an amount and writing it down again gives the canonical form of the
/// text that was read.
pub proof fn lemma_round_trip(s: Seq<u8>)
    requires
        amount_value(s) is Ok,
    ensures
        amount_text(amount_value(s)->Ok_0 as int) == canonical_text(s),
{
    let whole_digits = unsigned_digits(integer_text(s));
    let whole = digits_value(whole_digits);
    lemma_decimal_of_digits(whole_digits);
    match fraction_text(s) {
        None => {
            let value = (whole * SCALE) as int;
            assert(integer_part(value) == whole && fractional_part(value) == 0);
            assert(text_of(seq![0x30u8]) =~= seq!['0']);
        },
        Some(fraction) => {
            let part_digits = unsigned_digits(padded_fraction(fraction));
            let part = digits_value(part_digits);
            lemma_decimal_of_digits(part_digits);
            lemma_four_digits(part_digits);
            let value = (whole * SCALE + part) as int;
            assert(integer_part(value) == whole && fractional_part(value) == part);
        },
    }
}

} // verus!
