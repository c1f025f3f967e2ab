//! Rendering of numbers and bytes for diagnostics.

use vstd::prelude::*;
use vstd::string::{StrSliceExecFns, StringExecFns, StringSliceAdditionalSpecFns};
use vstd::utf8::{decode_utf8, valid_utf8};

use crate::primitives::Integer;

verus! {

/// The character of a decimal digit.
pub open spec fn digit_char(d: nat) -> char {
    if d == 0 {
        '0'
    } else if d == 1 {
        '1'
    } else if d == 2 {
        '2'
    } else if d == 3 {
        '3'
    } else if d == 4 {
        '4'
    } else if d == 5 {
        '5'
    } else if d == 6 {
        '6'
    } else if d == 7 {
        '7'
    } else if d == 8 {
        '8'
    } else {
        '9'
    }
}

/// The character of a hexadecimal digit, in upper case.
pub open spec fn hex_char(d: nat) -> char {
    if d < 10 {
        digit_char(d)
    } else if d == 10 {
        'A'
    } else if d == 11 {
        'B'
    } else if d == 12 {
        'C'
    } else if d == 13 {
        'D'
    } else if d == 14 {
        'E'
    } else {
        'F'
    }
}

/// A number in decimal, without sign or leading zeros.
pub open spec fn decimal(n: nat) -> Seq<char>
    decreases n,
{
    if n < 10 {
        seq![digit_char(n)]
    } else {
        decimal(n / 10).push(digit_char(n % 10))
    }
}

/// An integer in decimal, with `-` in front of a negative one.
pub open spec fn signed_decimal(v: int) -> Seq<char> {
    if v < 0 {
        seq!['-'] + decimal((-v) as nat)
    } else {
        decimal(v as nat)
    }
}

/// A number in upper-case hexadecimal, without prefix or leading zeros.
pub open spec fn upper_hex(n: nat) -> Seq<char>
    decreases n,
{
    if n < 16 {
        seq![hex_char(n)]
    } else {
        upper_hex(n / 16).push(hex_char(n % 16))
    }
}

/// The first `n` bytes in decimal, separated by a comma and a space.
pub open spec fn byte_items(bytes: Seq<u8>, n: nat) -> Seq<char>
    decreases n,
{
    if n == 0 {
        Seq::<char>::empty()
    } else if n == 1 {
        decimal(bytes[0] as nat)
    } else {
        byte_items(bytes, (n - 1) as nat) + ", "@ + decimal(bytes[n - 1] as nat)
    }
}

/// A byte string as a list of decimal numbers in square brackets.
pub open spec fn byte_list(bytes: Seq<u8>) -> Seq<char> {
    "["@ + byte_items(bytes, bytes.len()) + "]"@
}

/// The digit that a character is, if it is a decimal digit.
pub open spec fn digit_value(c: char) -> Option<nat> {
    if c == '0' {
        Some(0)
    } else if c == '1' {
        Some(1)
    } else if c == '2' {
        Some(2)
    } else if c == '3' {
        Some(3)
    } else if c == '4' {
        Some(4)
    } else if c == '5' {
        Some(5)
    } else if c == '6' {
        Some(6)
    } else if c == '7' {
        Some(7)
    } else if c == '8' {
        Some(8)
    } else if c == '9' {
        Some(9)
    } else {
        None
    }
}

/// The number that decimal digits stand for, if they are one digit or more
/// and nothing else.
pub open spec fn decimal_value(digits: Seq<char>) -> Option<nat>
    decreases digits.len(),
{
    if digits.len() == 0 {
        None
    } else if digits.len() == 1 {
        digit_value(digits[0])
    } else {
        match (decimal_value(digits.drop_last()), digit_value(digits.last())) {
            (Some(front), Some(digit)) => Some(10 * front + digit),
            _ => None,
        }
    }
}

/// A number in decimal stands for that number.
pub proof fn lemma_decimal_value(n: nat)
    ensures
        decimal_value(decimal(n)) == Some(n),
    decreases n,
{
    if n >= 10 {
        lemma_decimal_value(n / 10);
        let front = decimal(n / 10);
        let all = decimal(n);
        assert(all.drop_last() =~= front);
        assert(all.last() == digit_char(n % 10));
        lemma_decimal_len(n / 10);
    }
}

/// A number in decimal has at least one digit.
pub proof fn lemma_decimal_len(n: nat)
    ensures
        decimal(n).len() >= 1,
    decreases n,
{
    if n >= 10 {
        lemma_decimal_len(n / 10);
    }
}

/// The text that `String::from_utf8_lossy` makes of a byte string.
pub uninterp spec fn lossy_text(bytes: Seq<u8>) -> Seq<char>;

/// The complaint of `std::str::from_utf8` about a byte string that is not
/// UTF-8.
pub uninterp spec fn utf8_error_text(bytes: Seq<u8>) -> Seq<char>;

/// The one-character string of a digit below sixteen.
fn hex_digit(d: u8) -> (s: &'static str)
    requires
        d < 16,
    ensures
        s@ == seq![hex_char(d as nat)],
{
    proof {
        reveal_strlit("0");
        reveal_strlit("1");
        reveal_strlit("2");
        reveal_strlit("3");
        reveal_strlit("4");
        reveal_strlit("5");
        reveal_strlit("6");
        reveal_strlit("7");
        reveal_strlit("8");
        reveal_strlit("9");
        reveal_strlit("A");
        reveal_strlit("B");
        reveal_strlit("C");
        reveal_strlit("D");
        reveal_strlit("E");
        reveal_strlit("F");
    }
    let s = match d {
        0 => "0",
        1 => "1",
        2 => "2",
        3 => "3",
        4 => "4",
        5 => "5",
        6 => "6",
        7 => "7",
        8 => "8",
        9 => "9",
        10 => "A",
        11 => "B",
        12 => "C",
        13 => "D",
        14 => "E",
        _ => "F",
    };
    assert(s@ =~= seq![hex_char(d as nat)]);
    s
}

/// The digit that a character is, if it is a decimal digit.
fn digit_of(c: char) -> (digit: Option<u8>)
    ensures
        match digit_value(c) {
            Some(value) => digit == Some(value as u8) && value < 10,
            None => digit is None,
        },
{
    match c {
        '0' => Some(0),
        '1' => Some(1),
        '2' => Some(2),
        '3' => Some(3),
        '4' => Some(4),
        '5' => Some(5),
        '6' => Some(6),
        '7' => Some(7),
        '8' => Some(8),
        '9' => Some(9),
        _ => None,
    }
}

/// Reads a number written in decimal digits. Digits that stand for more
/// than a `u128` holds give nothing, as does anything that is not digits.
pub fn parse_decimal(digits: &str) -> (number: Option<u128>)
    ensures
        match decimal_value(digits@) {
            Some(value) => if value <= u128::MAX {
                number == Some(value as u128)
            } else {
                number is None
            },
            None => number is None,
        },
{
    let len = digits.unicode_len();
    if len == 0 {
        return None;
    }
    let mut number: u128 = 0;
    let mut i: usize = 0;
    while i < len
        invariant
            i <= len,
            len == digits@.len(),
            i == 0 ==> number == 0,
            i > 0 ==> decimal_value(digits@.take(i as int)) == Some(number as nat),
        decreases len - i,
    {
        let c = digits.get_char(i);
        proof {
            assert(digits@.take(i as int + 1).drop_last() =~= digits@.take(i as int));
            assert(digits@.take(i as int + 1).last() == digits@[i as int]);
        }
        match digit_of(c) {
            None => {
                proof {
                    lemma_decimal_prefix(digits@, i as int + 1);
                }
                return None;
            },
            Some(digit) => {
                if number > (u128::MAX - digit as u128) / 10 {
                    proof {
                        lemma_decimal_grows(digits@, i as int + 1);
                    }
                    return None;
                }
                number = number * 10 + digit as u128;
            },
        }
        i = i + 1;
    }
    proof {
        assert(digits@.take(len as int) =~= digits@);
    }
    Some(number)
}

/// Where the first `n` characters are no number, neither are all.
proof fn lemma_decimal_prefix(digits: Seq<char>, n: int)
    requires
        1 <= n <= digits.len(),
        decimal_value(digits.take(n)) is None,
    ensures
        decimal_value(digits) is None,
    decreases digits.len(),
{
    if n < digits.len() {
        assert(digits.drop_last().take(n) =~= digits.take(n));
        lemma_decimal_prefix(digits.drop_last(), n);
    } else {
        assert(digits.take(n) =~= digits);
    }
}

/// The number of all the digits is no less than that of the first `n`.
proof fn lemma_decimal_grows(digits: Seq<char>, n: int)
    requires
        1 <= n <= digits.len(),
    ensures
        decimal_value(digits) is Some ==> decimal_value(digits.take(n)) is Some
            && decimal_value(digits).unwrap() >= decimal_value(digits.take(n)).unwrap(),
    decreases digits.len(),
{
    if n < digits.len() {
        assert(digits.drop_last().take(n) =~= digits.take(n));
        lemma_decimal_grows(digits.drop_last(), n);
    } else {
        assert(digits.take(n) =~= digits);
    }
}

/// Appends `n` in decimal.
pub fn push_decimal(out: &mut String, n: u128)
    ensures
        final(out)@ == old(out)@ + decimal(n as nat),
    decreases n,
{
    if n >= 10 {
        push_decimal(out, n / 10);
    }
    out.append(hex_digit((n % 10) as u8));
    proof {
        let d = seq![digit_char((n % 10) as nat)];
        if n >= 10 {
            assert(old(out)@ + decimal((n / 10) as nat) + d =~= old(out)@ + decimal(n as nat));
        }
    }
}

/// Appends `n` in upper-case hexadecimal.
pub fn push_upper_hex(out: &mut String, n: u128)
    ensures
        final(out)@ == old(out)@ + upper_hex(n as nat),
    decreases n,
{
    if n >= 16 {
        push_upper_hex(out, n / 16);
    }
    out.append(hex_digit((n % 16) as u8));
    proof {
        let d = seq![hex_char((n % 16) as nat)];
        if n >= 16 {
            assert(old(out)@ + upper_hex((n / 16) as nat) + d =~= old(out)@ + upper_hex(n as nat));
        }
    }
}

/// Appends an integer in decimal, with its sign if it is negative.
pub fn push_integer(out: &mut String, value: Integer)
    ensures
        final(out)@ == old(out)@ + signed_decimal(value.as_int()),
{
    match value {
        Integer::Unsigned(v) => push_decimal(out, v),
        Integer::Signed(v) => {
            if v < 0 {
                proof {
                    reveal_strlit("-");
                }
                out.append("-");
                let magnitude: u128 = (-(v + 1)) as u128 + 1;
                push_decimal(out, magnitude);
                assert(old(out)@ + "-"@ + decimal(magnitude as nat) =~= old(out)@ + signed_decimal(
                    v as int,
                ));
            } else {
                push_decimal(out, v as u128);
            }
        },
    }
}

/// Appends a byte string as a list of decimal numbers in square brackets.
pub fn push_byte_list(out: &mut String, bytes: &[u8])
    ensures
        final(out)@ == old(out)@ + byte_list(bytes@),
{
    out.append("[");
    let mut i: usize = 0;
    while i < bytes.len()
        invariant
            i <= bytes.len(),
            out@ == old(out)@ + "["@ + byte_items(bytes@, i as nat),
        decreases bytes.len() - i,
    {
        let ghost before = out@;
        if i > 0 {
            out.append(", ");
        }
        push_decimal(out, bytes[i] as u128);
        proof {
            let item = decimal(bytes@[i as int] as nat);
            if i > 0 {
                assert(before + ", "@ + item =~= old(out)@ + "["@ + byte_items(
                    bytes@,
                    (i + 1) as nat,
                ));
            } else {
                assert(byte_items(bytes@, 0) =~= Seq::<char>::empty());
                assert(before + item =~= old(out)@ + "["@ + byte_items(bytes@, 1));
            }
        }
        i = i + 1;
    }
    out.append("]");
    assert(old(out)@ + "["@ + byte_items(bytes@, bytes@.len()) + "]"@ =~= old(out)@ + byte_list(
        bytes@,
    ));
}

/// `String::push`: the string gains `c` as its last character.
#[verifier::external_body]
pub(crate) fn push_char(out: &mut String, c: char)
    ensures
        final(out)@ == old(out)@.push(c),
{
    out.push(c);
}

/// `std::str::from_utf8`: succeeds on the byte strings that are UTF-8, and
/// only on them, with the text whose bytes they are. Otherwise the result is
/// the decoder's complaint, as a string.
#[verifier::external_body]
pub(crate) fn parse_utf8(bytes: &[u8]) -> (result: Result<&str, String>)
    ensures
        result is Ok <==> valid_utf8(bytes@),
        result is Ok ==> result->Ok_0.spec_bytes() == bytes@,
        result is Err ==> result->Err_0@ == utf8_error_text(bytes@),
{
    match std::str::from_utf8(bytes) {
        Ok(text) => Ok(text),
        Err(error) => Err(error.to_string()),
    }
}

/// `String::from_utf8_lossy`: the text of a byte string, in which every
/// ill-formed run is replaced by U+FFFD. The text depends on the bytes
/// alone, and bytes that are UTF-8 give the text that they encode.
#[verifier::external_body]
pub(crate) fn lossy(bytes: &[u8]) -> (text: String)
    ensures
        text@ == lossy_text(bytes@),
        valid_utf8(bytes@) ==> text@ == decode_utf8(bytes@),
{
    String::from_utf8_lossy(bytes).into_owned()
}

} // verus!
