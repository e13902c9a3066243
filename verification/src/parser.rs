//! Decimal text to integer and back, for the shell's arithmetic commands.

use vstd::prelude::*;
use vstd::string::StringSliceAdditionalSpecFns;

verus! {

/// Why a conversion failed.
#[derive(Debug, Clone, Copy, PartialEq, Eq, Structural)]
pub enum ParseError {
    InvalidDigit,
    EmptyInput,
    InvalidSign,
    BufferTooSmall,
}

impl ParseError {
    /// The message for the console.
    pub fn as_str(&self) -> (message: &'static str)
        ensures
            message@ == (match *self {
                ParseError::InvalidDigit => "input contains a non-digit character"@,
                ParseError::EmptyInput => "input string is empty"@,
                ParseError::InvalidSign => "invalid sign placement"@,
                ParseError::BufferTooSmall => "buffer too small for conversion"@,
            }),
    {
        match self {
            ParseError::InvalidDigit => "input contains a non-digit character",
            ParseError::EmptyInput => "input string is empty",
            ParseError::InvalidSign => "invalid sign placement",
            ParseError::BufferTooSmall => "buffer too small for conversion",
        }
    }
}

/// Whether a byte is an ASCII digit.
pub open spec fn is_digit(byte: u8) -> bool {
    0x30 <= byte <= 0x39
}

/// Whether every byte is an ASCII digit.
pub open spec fn all_digits(bytes: Seq<u8>) -> bool {
    forall|i: int| 0 <= i < bytes.len() ==> is_digit(#[trigger] bytes[i])
}

/// The number that a string of digits spells in base ten.
pub open spec fn digits_value(bytes: Seq<u8>) -> int
    decreases bytes.len(),
{
    if bytes.len() == 0 {
        0
    } else {
        digits_value(bytes.drop_last()) * 10 + (bytes.last() - 0x30)
    }
}

/// The digits of an input: what follows a leading `+` or `-`.
pub open spec fn digits_part(bytes: Seq<u8>) -> Seq<u8> {
    if bytes.len() > 0 && (bytes[0] == 0x2B || bytes[0] == 0x2D) {
        bytes.skip(1)
    } else {
        bytes
    }
}

/// What an input parses to: the number its digits spell, negated after a
/// leading `-`. Empty input is rejected as such; input without digits, with
/// a byte that is no digit, or with digits that spell more than the largest
/// 64-bit signed integer, is rejected as holding an invalid digit.
pub open spec fn spec_parse_int(bytes: Seq<u8>) -> Result<i64, ParseError> {
    let digits = digits_part(bytes);
    if bytes.len() == 0 {
        Err(ParseError::EmptyInput)
    } else if digits.len() == 0 || !all_digits(digits) || digits_value(digits) > i64::MAX {
        Err(ParseError::InvalidDigit)
    } else if bytes[0] == 0x2D {
        Ok((-digits_value(digits)) as i64)
    } else {
        Ok(digits_value(digits) as i64)
    }
}

/// A string of digits spells at least what each of its prefixes spells.
proof fn lemma_digits_value_grows(bytes: Seq<u8>, k: int)
    requires
        all_digits(bytes),
        0 <= k <= bytes.len(),
    ensures
        0 <= digits_value(bytes.take(k)) <= digits_value(bytes),
    decreases bytes.len() - k,
{
    if k == bytes.len() {
        assert(bytes.take(k) =~= bytes);
        lemma_digits_value_nonnegative(bytes);
    } else {
        lemma_digits_value_grows(bytes, k + 1);
        assert(bytes.take(k + 1).drop_last() =~= bytes.take(k));
        lemma_digits_value_nonnegative(bytes.take(k));
        assert(is_digit(bytes[k]));
        assert(bytes.take(k + 1).last() == bytes[k]);
    }
}

/// A string of digits spells no negative number.
proof fn lemma_digits_value_nonnegative(bytes: Seq<u8>)
    requires
        all_digits(bytes),
    ensures
        digits_value(bytes) >= 0,
    decreases bytes.len(),
{
    if bytes.len() > 0 {
        lemma_digits_value_nonnegative(bytes.drop_last());
        assert(is_digit(bytes.last()));
    }
}

/// Parses a decimal integer with an optional leading sign.
pub fn parse_int_from_str(s: &str) -> (parsed: Result<i64, ParseError>)
    ensures
        parsed == spec_parse_int(s.spec_bytes()),
{
    parse_int_from_bytes(s.as_bytes())
}

/// Parses a decimal integer with an optional leading sign from its bytes.
pub fn parse_int_from_bytes(bytes: &[u8]) -> (parsed: Result<i64, ParseError>)
    ensures
        parsed == spec_parse_int(bytes@),
{
    if bytes.len() == 0 {
        return Err(ParseError::EmptyInput);
    }
    let negative = bytes[0] == 0x2D;
    let start: usize = if bytes[0] == 0x2B || bytes[0] == 0x2D {
        1
    } else {
        0
    };
    let ghost digits = digits_part(bytes@);
    assert(digits =~= bytes@.skip(start as int));
    if start >= bytes.len() {
        return Err(ParseError::InvalidDigit);
    }
    let mut value: i64 = 0;
    let mut i: usize = start;
    while i < bytes.len()
        invariant
            start <= i <= bytes.len(),
            bytes@.len() > 0,
            digits == digits_part(bytes@),
            digits.len() > 0,
            negative == (bytes@[0] == 0x2D),
            digits == bytes@.skip(start as int),
            all_digits(digits.take(i - start)),
            value == digits_value(digits.take(i - start)),
            0 <= value <= i64::MAX,
        decreases bytes.len() - i,
    {
        let byte = bytes[i];
        let ghost prefix = digits.take(i - start);
        let ghost longer = digits.take(i + 1 - start);
        proof {
            assert(longer.drop_last() =~= prefix);
            assert(longer.last() == byte);
        }
        if byte < 0x30 || byte > 0x39 {
            assert(!is_digit(digits[i - start]));
            return Err(ParseError::InvalidDigit);
        }
        let digit: i64 = (byte - 0x30) as i64;
        if value > (i64::MAX - digit) / 10 {
            proof {
                assert(digits_value(longer) > i64::MAX);
                if all_digits(digits) {
                    lemma_digits_value_grows(digits, i + 1 - start);
                }
            }
            return Err(ParseError::InvalidDigit);
        }
        value = value * 10 + digit;
        assert(all_digits(longer)) by {
            assert forall|j: int| 0 <= j < longer.len() implies is_digit(#[trigger] longer[j]) by {
                if j < prefix.len() {
                    assert(longer[j] == prefix[j]);
                }
            }
        }
        i += 1;
    }
    assert(digits.take(i - start) =~= digits);
    if negative {
        Ok(-value)
    } else {
        Ok(value)
    }
}

/// The decimal digits of a natural number, most significant first.
pub open spec fn decimal(n: nat) -> Seq<u8>
    decreases n,
{
    if n < 10 {
        seq![(0x30 + n) as u8]
    } else {
        decimal(n / 10).push((0x30 + n % 10) as u8)
    }
}

/// The decimal text of an integer: a `-` before the digits of a negative one.
pub open spec fn decimal_text(value: int) -> Seq<u8> {
    if value < 0 {
        seq![0x2Du8] + decimal((-value) as nat)
    } else {
        decimal(value as nat)
    }
}

/// Number of decimal digits of `n`.
fn digit_count(n: u64) -> (count: usize)
    ensures
        count == decimal(n as nat).len(),
        1 <= count <= 20,
{
    let mut count: usize = 1;
    let mut rest: u64 = n;
    while rest >= 10
        invariant
            1 <= count,
            count + decimal(rest as nat).len() == decimal(n as nat).len() + 1,
            count + rest_width(rest) <= 21,
        decreases rest,
    {
        rest = rest / 10;
        count += 1;
    }
    count
}

/// A 64-bit number has at most 20 digits, so the text of a 64-bit signed
/// integer has at most 20 bytes.
pub proof fn lemma_decimal_text_len(value: i64)
    ensures
        1 <= decimal_text(value as int).len() <= 20,
{
    if value < 0 {
        lemma_decimal_width((-value) as u64);
        assert(rest_width((-value) as u64) <= 19);
    } else {
        lemma_decimal_width(value as u64);
        assert(rest_width(value as u64) <= 19);
    }
}

/// The digits of a number are as many as its size says.
proof fn lemma_decimal_width(n: u64)
    ensures
        decimal(n as nat).len() == rest_width(n),
    decreases n,
{
    if n >= 10 {
        lemma_decimal_width(n / 10);
    }
}

/// The number of digits of `n`, by its size.
spec fn rest_width(n: u64) -> int {
    if n < 10 {
        1
    } else if n < 100 {
        2
    } else if n < 1000 {
        3
    } else if n < 10000 {
        4
    } else if n < 100000 {
        5
    } else if n < 1000000 {
        6
    } else if n < 10000000 {
        7
    } else if n < 100000000 {
        8
    } else if n < 1000000000 {
        9
    } else if n < 10000000000 {
        10
    } else if n < 100000000000 {
        11
    } else if n < 1000000000000 {
        12
    } else if n < 10000000000000 {
        13
    } else if n < 100000000000000 {
        14
    } else if n < 1000000000000000 {
        15
    } else if n < 10000000000000000 {
        16
    } else if n < 100000000000000000 {
        17
    } else if n < 1000000000000000000 {
        18
    } else if n < 10000000000000000000 {
        19
    } else {
        20
    }
}

/// Writes the decimal text of `value` to the front of `buf` and returns its
/// length, or reports that the buffer is too small for it.
pub fn int_to_str_buf(value: i64, buf: &mut [u8]) -> (written: Result<usize, ParseError>)
    ensures
        final(buf)@.len() == old(buf)@.len(),
        decimal_text(value as int).len() <= old(buf)@.len() ==> {
            &&& written == Ok::<usize, ParseError>(decimal_text(value as int).len() as usize)
            &&& final(buf)@.take(decimal_text(value as int).len() as int) == decimal_text(value as int)
            &&& final(buf)@.skip(decimal_text(value as int).len() as int) == old(buf)@.skip(
                decimal_text(value as int).len() as int,
            )
        },
        decimal_text(value as int).len() > old(buf)@.len() ==> {
            &&& written == Err::<usize, ParseError>(ParseError::BufferTooSmall)
            &&& final(buf)@ == old(buf)@
        },
{
    let negative = value < 0;
    let magnitude: u64 = if value == i64::MIN {
        0x8000_0000_0000_0000
    } else if negative {
        (-value) as u64
    } else {
        value as u64
    };
    let digits = digit_count(magnitude);
    let total: usize = if negative {
        digits + 1
    } else {
        digits
    };
    if total > buf.len() {
        return Err(ParseError::BufferTooSmall);
    }
    if negative {
        buf[0] = 0x2D;
    }
    let mut pos: usize = total;
    let mut rest: u64 = magnitude;
    loop
        invariant_except_break
            total - digits < pos <= total,
            digits >= 1,
            total == digits + (if negative { 1int } else { 0int }),
            total <= buf@.len(),
            buf@.len() == old(buf)@.len(),
            decimal(magnitude as nat) == decimal(rest as nat) + buf@.subrange(pos as int, total as int),
            pos - (total - digits) == decimal(rest as nat).len(),
            negative ==> buf@[0] == 0x2D,
            buf@.skip(total as int) == old(buf)@.skip(total as int),
        ensures
            pos == total - digits,
            total <= buf@.len(),
            buf@.len() == old(buf)@.len(),
            decimal(magnitude as nat) == buf@.subrange(pos as int, total as int),
            negative ==> buf@[0] == 0x2D,
            buf@.skip(total as int) == old(buf)@.skip(total as int),
        decreases rest,
    {
        let digit: u8 = (rest % 10) as u8;
        let ghost before = buf@;
        pos -= 1;
        buf[pos] = 0x30 + digit;
        proof {
            assert(buf@.subrange(pos as int, total as int) =~= seq![(0x30 + digit) as u8] + before.subrange(
                pos + 1,
                total as int,
            ));
            assert(buf@.skip(total as int) =~= before.skip(total as int));
            if rest >= 10 {
                assert(decimal(rest as nat) == decimal((rest / 10) as nat).push((0x30 + digit) as u8));
                assert(decimal(magnitude as nat) =~= decimal((rest / 10) as nat) + buf@.subrange(
                    pos as int,
                    total as int,
                ));
            } else {
                assert(decimal(rest as nat) =~= seq![(0x30 + digit) as u8]);
                assert(decimal(magnitude as nat) =~= buf@.subrange(pos as int, total as int));
            }
        }
        if rest < 10 {
            break ;
        }
        rest = rest / 10;
    }
    proof {
        let text = decimal_text(value as int);
        if negative {
            assert(buf@.take(total as int) =~= seq![0x2Du8] + buf@.subrange(1, total as int));
        } else {
            assert(buf@.take(total as int) =~= buf@.subrange(0, total as int));
        }
    }
    Ok(total)
}

} // verus!
