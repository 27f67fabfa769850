//! Decimal digits, as bytes and as characters, and the numbers they write.

use crate::error::InvalidDigit;
use vstd::prelude::*;
use vstd::utf8::{encode_scalar, encode_utf8, is_ascii_chars, is_ascii_chars_encode_utf8};

verus! {

/// Whether `byte` is one of the ASCII digits `0` to `9`.
pub open spec fn is_digit(byte: u8) -> bool {
    0x30 <= byte <= 0x39
}

/// Whether every byte of `bytes` is a decimal digit.
pub open spec fn all_digits(bytes: Seq<u8>) -> bool {
    forall|i: int| 0 <= i < bytes.len() ==> is_digit(#[trigger] bytes[i])
}

/// Whether `position` is the offset of the first byte of `bytes` that is not
/// a decimal digit.
pub open spec fn is_first_non_digit(bytes: Seq<u8>, position: int) -> bool {
    &&& 0 <= position < bytes.len()
    &&& !is_digit(bytes[position])
    &&& forall|j: int| 0 <= j < position ==> is_digit(#[trigger] bytes[j])
}

/// Whether `c` is one of the characters `0` to `9`.
pub open spec fn is_digit_char(c: char) -> bool {
    '0' <= c <= '9'
}

/// Whether every character of `chars` is a decimal digit.
pub open spec fn all_digit_chars(chars: Seq<char>) -> bool {
    forall|i: int| 0 <= i < chars.len() ==> is_digit_char(#[trigger] chars[i])
}

/// The number that a run of decimal digits writes, most significant digit
/// first. Leading zeros do not count; the empty run writes zero.
pub open spec fn decimal_value(digits: Seq<u8>) -> nat
    recommends
        all_digits(digits),
    decreases digits.len(),
{
    if digits.len() == 0 {
        0
    } else {
        10 * decimal_value(digits.drop_last()) + (digits.last() - 0x30) as nat
    }
}

/// Ten to the power `exponent`.
pub open spec fn pow10(exponent: nat) -> nat
    decreases exponent,
{
    if exponent == 0 {
        1
    } else {
        10 * pow10((exponent - 1) as nat)
    }
}

/// `pow10` is positive and grows with its exponent.
pub proof fn lemma_pow10_increases(low: nat, high: nat)
    requires
        low <= high,
    ensures
        0 < pow10(low) <= pow10(high),
    decreases high,
{
    if high == 0 {
    } else if low == high {
        lemma_pow10_increases((low - 1) as nat, (high - 1) as nat);
    } else {
        lemma_pow10_increases(low, (high - 1) as nat);
    }
}

/// The product of two powers of ten is the power of the sum.
pub proof fn lemma_pow10_adds(a: nat, b: nat)
    ensures
        pow10(a) * pow10(b) == pow10(a + b),
    decreases a,
{
    if a == 0 {
        assert(pow10(a) * pow10(b) == pow10(b)) by (nonlinear_arith)
            requires
                pow10(a) == 1,
        ;
    } else {
        let less = (a - 1) as nat;
        lemma_pow10_adds(less, b);
        assert(pow10(a + b) == 10 * pow10(less + b));
        assert(pow10(a) * pow10(b) == 10 * (pow10(less) * pow10(b))) by (nonlinear_arith)
            requires
                pow10(a) == 10 * pow10(less),
        ;
    }
}

/// A run of `n` decimal digits writes a number below ten to the `n`.
pub proof fn lemma_decimal_value_bound(digits: Seq<u8>)
    requires
        all_digits(digits),
    ensures
        decimal_value(digits) < pow10(digits.len()),
    decreases digits.len(),
{
    if digits.len() > 0 {
        let front = digits.drop_last();
        assert forall|i: int| 0 <= i < front.len() implies is_digit(#[trigger] front[i]) by {
            assert(front[i] == digits[i]);
        }
        lemma_decimal_value_bound(front);
        assert(is_digit(digits[digits.len() - 1]));
    }
}

/// The first byte that encodes a character is a decimal digit only if the
/// character is one.
proof fn lemma_first_byte_of_non_digit(c: char)
    requires
        !is_digit_char(c),
    ensures
        encode_scalar(c as u32).len() > 0,
        !is_digit(encode_scalar(c as u32)[0]),
{
    let scalar = c as u32;
    assert(scalar <= 0x7F && 0x30 <= (scalar & 0x7F) as u8 <= 0x39 ==> 0x30 <= scalar <= 0x39)
        by (bit_vector);
    assert(0xC0 | ((scalar >> 6) & 0x1F) as u8 >= 0xC0) by (bit_vector);
    assert(0xE0 | ((scalar >> 12) & 0x0F) as u8 >= 0xE0) by (bit_vector);
    assert(0xF0 | ((scalar >> 18) & 0x7) as u8 >= 0xF0) by (bit_vector);
}

/// A string with a character that is no decimal digit has, among the bytes
/// that encode it, one that is no decimal digit.
pub proof fn lemma_non_digit_char_has_non_digit_byte(chars: Seq<char>, at: int)
    requires
        0 <= at < chars.len(),
        !is_digit_char(chars[at]),
    ensures
        !all_digits(encode_utf8(chars)),
    decreases chars.len(),
{
    let head = encode_scalar(chars[0] as u32);
    let tail = encode_utf8(chars.drop_first());
    let bytes = encode_utf8(chars);
    assert(bytes == head + tail);
    if at == 0 {
        lemma_first_byte_of_non_digit(chars[0]);
        assert(bytes[0] == head[0]);
    } else {
        lemma_non_digit_char_has_non_digit_byte(chars.drop_first(), at - 1);
        let j = choose|j: int| 0 <= j < tail.len() && !is_digit(#[trigger] tail[j]);
        assert(bytes[head.len() + j] == tail[j]);
    }
}

/// The bytes that encode a string are all decimal digits exactly when its
/// characters are. There is then one byte for each character, with the
/// character's code.
pub proof fn lemma_digit_chars_encode_as_digits(chars: Seq<char>)
    ensures
        all_digits(encode_utf8(chars)) <==> all_digit_chars(chars),
        all_digit_chars(chars) ==> {
            &&& encode_utf8(chars).len() == chars.len()
            &&& forall|i: int|
                0 <= i < chars.len() ==> #[trigger] encode_utf8(chars)[i] == chars[i] as u8
        },
{
    if all_digit_chars(chars) {
        assert(is_ascii_chars(chars)) by {
            assert forall|i: int| 0 <= i < chars.len() implies '\0' <= #[trigger] chars[i]
                <= '\u{7f}' by {
                assert(is_digit_char(chars[i]));
            }
        }
        is_ascii_chars_encode_utf8(chars);
        assert forall|i: int| 0 <= i < encode_utf8(chars).len() implies is_digit(
            #[trigger] encode_utf8(chars)[i],
        ) by {
            assert(is_digit_char(chars[i]));
            assert(encode_utf8(chars)[i] == chars[i] as u8);
        }
    } else {
        let at = choose|i: int| 0 <= i < chars.len() && !is_digit_char(#[trigger] chars[i]);
        lemma_non_digit_char_has_non_digit_byte(chars, at);
    }
}

/// Reads the decimal digits `bytes[start..end]` as a number, or reports the
/// first byte among them that is not a digit.
pub(crate) fn parse_digits(bytes: &[u8], start: usize, end: usize) -> (res: Result<
    u32,
    InvalidDigit,
>)
    requires
        start <= end <= bytes@.len(),
        end - start <= 9,
    ensures
        match res {
            Ok(value) => {
                &&& forall|j: int| start <= j < end ==> is_digit(#[trigger] bytes@[j])
                &&& value == decimal_value(bytes@.subrange(start as int, end as int))
            },
            Err(err) => {
                &&& start <= err.position < end
                &&& !is_digit(bytes@[err.position as int])
                &&& forall|j: int| start <= j < err.position ==> is_digit(#[trigger] bytes@[j])
            },
        },
{
    let mut value: u32 = 0;
    let mut i: usize = start;
    while i < end
        invariant
            start <= i <= end <= bytes@.len(),
            end - start <= 9,
            forall|j: int| start <= j < i ==> is_digit(#[trigger] bytes@[j]),
            value == decimal_value(bytes@.subrange(start as int, i as int)),
            value < pow10((i - start) as nat),
        decreases end - i,
    {
        let byte: u8 = bytes[i];
        if byte < 0x30 || byte > 0x39 {
            return Err(InvalidDigit { position: i });
        }
        proof {
            let read = bytes@.subrange(start as int, i as int);
            let next = bytes@.subrange(start as int, i as int + 1);
            assert(next.drop_last() =~= read);
            assert(next.last() == byte);
            lemma_pow10_increases((i - start + 1) as nat, 9);
            reveal_with_fuel(pow10, 10);
        }
        value = value * 10 + (byte - 0x30) as u32;
        i = i + 1;
    }
    Ok(value)
}

/// Ten to the power `exponent`, for the exponents whose power fits.
pub(crate) fn pow10_u32(exponent: u32) -> (power: u32)
    requires
        exponent <= 9,
    ensures
        power == pow10(exponent as nat),
{
    let mut power: u32 = 1;
    let mut done: u32 = 0;
    while done < exponent
        invariant
            done <= exponent <= 9,
            power == pow10(done as nat),
        decreases exponent - done,
    {
        proof {
            lemma_pow10_increases((done + 1) as nat, 9);
            reveal_with_fuel(pow10, 10);
        }
        power = power * 10;
        done = done + 1;
    }
    power
}

} // verus!
