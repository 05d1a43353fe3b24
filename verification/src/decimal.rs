//! Base-10 integers as text: the numeral grammar of stream offsets, and the
//! rendering of numbers in diagnostics.

use vstd::prelude::*;
use vstd::string::StringExecFns;

verus! {

/// The sign `+`.
pub const PLUS: u8 = 0x2b;

/// The sign `-`.
pub const MINUS: u8 = 0x2d;

/// The digit `0`.
pub const ZERO: u8 = 0x30;

/// The digit `9`.
pub const NINE: u8 = 0x39;

/// `byte` is one of the ASCII digits `0` to `9`.
pub open spec fn is_digit(byte: u8) -> bool {
    ZERO <= byte <= NINE
}

/// Every byte of `text` is an ASCII digit.
pub open spec fn all_digits(text: Seq<u8>) -> bool {
    forall|i: int| 0 <= i < text.len() ==> is_digit(#[trigger] text[i])
}

/// The number that a digit stands for; 0 for any other byte.
pub open spec fn digit_value(byte: u8) -> nat {
    if is_digit(byte) {
        (byte - ZERO) as nat
    } else {
        0
    }
}

/// The number that a run of digits denotes, most significant digit first.
pub open spec fn digits_value(digits: Seq<u8>) -> nat
    decreases digits.len(),
{
    if digits.len() == 0 {
        0
    } else {
        digits_value(digits.drop_last()) * 10 + digit_value(digits.last())
    }
}

/// The digits of a numeral: what follows its sign, if it starts with one.
pub open spec fn numeral_digits(text: Seq<u8>) -> Seq<u8> {
    if text.len() > 0 && (text[0] == PLUS || text[0] == MINUS) {
        text.drop_first()
    } else {
        text
    }
}

/// The integer that a numeral denotes, whether or not it fits any machine type.
pub open spec fn numeral_value(text: Seq<u8>) -> int {
    if text.len() > 0 && text[0] == MINUS {
        -(digits_value(numeral_digits(text)) as int)
    } else {
        digits_value(numeral_digits(text)) as int
    }
}

/// `text` is an optional sign followed by at least one digit and nothing else.
pub open spec fn is_numeral(text: Seq<u8>) -> bool {
    numeral_digits(text).len() > 0 && all_digits(numeral_digits(text))
}

/// The signed 64-bit integer written in base 10 as `text`: an optional `+` or
/// `-`, then one or more digits. `None` where `text` has another shape or the
/// number does not fit.
pub open spec fn parse_i64(text: Seq<u8>) -> Option<i64> {
    if is_numeral(text) && i64::MIN <= numeral_value(text) <= i64::MAX {
        Some(numeral_value(text) as i64)
    } else {
        None
    }
}

/// A run of digits denotes at least what any of its prefixes denotes.
pub proof fn lemma_digits_value_monotone(digits: Seq<u8>, k: int)
    requires
        0 <= k <= digits.len(),
    ensures
        digits_value(digits.subrange(0, k)) <= digits_value(digits),
    decreases digits.len(),
{
    if k == digits.len() {
        assert(digits.subrange(0, k) =~= digits);
    } else {
        lemma_digits_value_monotone(digits.drop_last(), k);
        assert(digits.drop_last().subrange(0, k) =~= digits.subrange(0, k));
    }
}

/// Reads a base-10 signed 64-bit integer: an optional `+` or `-`, then one or
/// more ASCII digits. Leading zeros are allowed. Anything else, and any number
/// outside the range of `i64`, gives `None`.
pub fn parse_decimal_i64(text: &[u8]) -> (r: Option<i64>)
    ensures
        r == parse_i64(text@),
{
    let len: usize = text.len();
    if len == 0 {
        return None;
    }
    let negative: bool = text[0] == MINUS;
    let start: usize = if text[0] == MINUS || text[0] == PLUS {
        1
    } else {
        0
    };
    if start == len {
        return None;
    }
    let ghost digits = numeral_digits(text@);
    assert(digits =~= text@.subrange(start as int, len as int));
    let mut acc: i64 = 0;
    let mut i: usize = start;
    while i < len
        invariant
            start <= i <= len,
            len == text@.len(),
            digits == numeral_digits(text@),
            digits.len() == len - start,
            forall|j: int| 0 <= j < digits.len() ==> digits[j] == text@[start + j],
            negative == (text@[0] == MINUS),
            all_digits(digits.subrange(0, i - start)),
            negative ==> acc == -(digits_value(digits.subrange(0, i - start)) as int),
            !negative ==> acc == digits_value(digits.subrange(0, i - start)) as int,
        decreases len - i,
    {
        let byte: u8 = text[i];
        let ghost before = digits.subrange(0, i - start);
        let ghost after = digits.subrange(0, i - start + 1);
        proof {
            assert(after.drop_last() =~= before);
            assert(after.last() == byte);
        }
        if byte < ZERO || byte > NINE {
            assert(!is_digit(digits[i - start]));
            return None;
        }
        let digit: i64 = (byte - ZERO) as i64;
        let shifted: Option<i64> = acc.checked_mul(10);
        let next: Option<i64> = match shifted {
            Some(tens) => if negative {
                tens.checked_sub(digit)
            } else {
                tens.checked_add(digit)
            },
            None => None,
        };
        match next {
            Some(value) => {
                acc = value;
            },
            None => {
                proof {
                    lemma_digits_value_monotone(digits, i - start + 1);
                }
                return None;
            },
        }
        i = i + 1;
        proof {
            assert forall|j: int| 0 <= j < after.len() implies is_digit(#[trigger] after[j]) by {
                if j < before.len() {
                    assert(before[j] == after[j]);
                }
            }
        }
    }
    assert(digits.subrange(0, len - start) =~= digits);
    Some(acc)
}

/// The digits of `n` in base 10, most significant first, without leading
/// zeros; the one digit `0` for zero.
pub open spec fn decimal_digits(n: nat) -> Seq<u8>
    decreases n,
{
    if n < 10 {
        seq![(ZERO + n) as u8]
    } else {
        decimal_digits(n / 10).push((ZERO + n % 10) as u8)
    }
}

/// `decimal_digits` as text.
pub open spec fn decimal_chars(n: nat) -> Seq<char> {
    Seq::new(decimal_digits(n).len(), |i: int| decimal_digits(n)[i] as char)
}

/// An integer as text in base 10, with a `-` before the digits of a negative
/// one.
pub open spec fn signed_decimal_chars(n: int) -> Seq<char> {
    if n < 0 {
        seq!['-'] + decimal_chars((-n) as nat)
    } else {
        decimal_chars(n as nat)
    }
}

/// The digits of a number are digits, at least one, and denote the number.
pub proof fn lemma_decimal_digits(n: nat)
    ensures
        decimal_digits(n).len() > 0,
        all_digits(decimal_digits(n)),
        digits_value(decimal_digits(n)) == n,
    decreases n,
{
    let digits = decimal_digits(n);
    if n < 10 {
        assert(digits.drop_last() =~= Seq::<u8>::empty());
        assert(digits_value(digits.drop_last()) == 0);
    } else {
        lemma_decimal_digits(n / 10);
        assert(digits.drop_last() =~= decimal_digits(n / 10));
        assert forall|i: int| 0 <= i < digits.len() implies is_digit(#[trigger] digits[i]) by {
            if i < digits.len() - 1 {
                assert(digits[i] == decimal_digits(n / 10)[i]);
            }
        }
    }
}

/// Reading the digits of a number that fits an `i64` gives the number back.
pub proof fn lemma_parse_decimal_digits(n: nat)
    requires
        n <= i64::MAX,
    ensures
        parse_i64(decimal_digits(n)) == Some(n as i64),
{
    lemma_decimal_digits(n);
    assert(is_digit(decimal_digits(n)[0]));
}

/// The text of one digit.
fn digit_text(digit: u64) -> (text: &'static str)
    requires
        digit < 10,
    ensures
        text@ == seq![((ZERO + digit) as u8) as char],
{
    proof {
        reveal_strlit("0");
        reveal_strlit("1");
        reveal_strlit("2");
        reveal_strlit("3");
        reveal_strlit("4");
        reveal_strlit("5");
        reveal_strlit("6");
        reveal_strlit("7");
        reveal_strlit("8");
        reveal_strlit("9");
    }
    let text = match digit {
        0 => "0",
        1 => "1",
        2 => "2",
        3 => "3",
        4 => "4",
        5 => "5",
        6 => "6",
        7 => "7",
        8 => "8",
        _ => "9",
    };
    assert(text@ =~= seq![((ZERO + digit) as u8) as char]);
    text
}

/// Writes `n` in base 10, without sign or leading zeros.
pub fn decimal_string(n: u64) -> (text: String)
    ensures
        text@ == decimal_chars(n as nat),
    decreases n,
{
    if n < 10 {
        let text = String::from_str(digit_text(n));
        assert(text@ =~= decimal_chars(n as nat));
        text
    } else {
        let mut text = decimal_string(n / 10);
        text.append(digit_text(n % 10));
        assert(text@ =~= decimal_chars(n as nat));
        text
    }
}

/// Writes `n` in base 10, with a `-` before the digits of a negative number.
pub fn signed_decimal_string(n: i64) -> (text: String)
    ensures
        text@ == signed_decimal_chars(n as int),
{
    if n < 0 {
        let magnitude: u64 = if n == i64::MIN {
            0x8000_0000_0000_0000
        } else {
            (-n) as u64
        };
        let digits = decimal_string(magnitude);
        let mut text = String::from_str("-");
        text.append(digits.as_str());
        proof {
            reveal_strlit("-");
            assert(text@ =~= signed_decimal_chars(n as int));
        }
        text
    } else {
        decimal_string(n as u64)
    }
}

} // verus!
