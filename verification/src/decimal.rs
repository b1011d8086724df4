//! Whole numbers as decimal text, and decimal text as whole numbers.

use vstd::prelude::*;
use vstd::string::StringExecFns;
use vstd::utf8::encode_utf8;
use vstd::utf8::is_ascii_chars;

verus! {

/// The byte `0`.
pub const ZERO: u8 = 0x30;

/// The byte `-`, the sign of a number below zero.
pub const MINUS: u8 = 0x2d;

/// The byte `+`, the sign that a number above zero may have.
pub const PLUS: u8 = 0x2b;

/// The digit `d` as a character.
pub open spec fn digit_char(d: int) -> char
    recommends
        0 <= d <= 9,
{
    (ZERO + d) as u8 as char
}

/// The digits of `x`, the highest first, with no zero in front.
pub open spec fn decimal_digits(x: nat) -> Seq<char>
    decreases x,
{
    if x < 10 {
        seq![digit_char(x as int)]
    } else {
        decimal_digits(x / 10).push(digit_char((x % 10) as int))
    }
}

/// `x` as text: its digits, behind a `-` where it is below zero.
pub open spec fn decimal_text(x: int) -> Seq<char> {
    if x < 0 {
        seq!['-'] + decimal_digits((-x) as nat)
    } else {
        decimal_digits(x as nat)
    }
}

/// Whether `byte` is a digit.
pub open spec fn is_digit(byte: u8) -> bool {
    ZERO <= byte <= ZERO + 9
}

/// Whether `text` holds digits only.
pub open spec fn all_digits(text: Seq<u8>) -> bool {
    forall|i: int| 0 <= i < text.len() ==> is_digit(#[trigger] text[i])
}

/// The number that the digits `text` stand for.
pub open spec fn digits_value(text: Seq<u8>) -> int
    decreases text.len(),
{
    if text.len() == 0 {
        0
    } else {
        10 * digits_value(text.drop_last()) + (text.last() - ZERO)
    }
}

/// The number that `text` stands for: digits, at least one, behind a `-` or
/// a `+` or no sign. Any other text stands for none.
pub open spec fn number_of(text: Seq<u8>) -> Option<int> {
    if text.len() == 0 {
        None
    } else {
        let signed = text[0] == MINUS || text[0] == PLUS;
        let digits = if signed {
            text.skip(1)
        } else {
            text
        };
        if digits.len() == 0 || !all_digits(digits) {
            None
        } else if text[0] == MINUS {
            Some(-digits_value(digits))
        } else {
            Some(digits_value(digits))
        }
    }
}

/// The number that `text` stands for, where it is an `i32`.
pub open spec fn number_in_i32(text: Seq<u8>) -> Option<i32> {
    match number_of(text) {
        Some(number) => if i32::MIN <= number <= i32::MAX {
            Some(number as i32)
        } else {
            None
        },
        None => None,
    }
}

/// The digits of a number are digits: at least one, each of one byte, and
/// their bytes are digits.
pub proof fn lemma_decimal_digits_are_digits(x: nat)
    ensures
        decimal_digits(x).len() >= 1,
        is_ascii_chars(decimal_digits(x)),
        encode_utf8(decimal_digits(x)).len() == decimal_digits(x).len(),
        all_digits(encode_utf8(decimal_digits(x))),
        x >= 10 <==> decimal_digits(x).len() > 1,
    decreases x,
{
    broadcast use vstd::utf8::is_ascii_chars_encode_utf8;

    let digits = decimal_digits(x);
    if x >= 10 {
        lemma_decimal_digits_are_digits(x / 10);
    }
    assert(is_ascii_chars(digits));
    assert forall|i: int| 0 <= i < digits.len() implies is_digit(
        #[trigger] encode_utf8(digits)[i],
    ) by {
        assert(encode_utf8(digits)[i] == digits[i] as u8);
        if x >= 10 {
            if i < digits.len() - 1 {
                let front = decimal_digits(x / 10);
                assert(digits[i] == front[i]);
                assert(is_digit(encode_utf8(front)[i]));
                assert(encode_utf8(front)[i] == front[i] as u8);
            }
        }
    }
}

/// A number has no more digits than it counts, and one.
pub proof fn lemma_decimal_digits_len_bound(x: nat)
    ensures
        decimal_digits(x).len() <= x + 1,
    decreases x,
{
    if x >= 10 {
        lemma_decimal_digits_len_bound(x / 10);
    }
}

/// The digits of a number stand for that number.
pub proof fn lemma_digits_value_of_decimal_digits(x: nat)
    ensures
        digits_value(encode_utf8(decimal_digits(x))) == x,
    decreases x,
{
    broadcast use vstd::utf8::is_ascii_chars_encode_utf8;

    let digits = decimal_digits(x);
    let text = encode_utf8(digits);
    lemma_decimal_digits_are_digits(x);
    assert(text[text.len() - 1] == digits[digits.len() - 1] as u8);
    if x < 10 {
        assert(text.drop_last() =~= Seq::<u8>::empty());
        assert(digits_value(text.drop_last()) == 0);
    } else {
        let front = decimal_digits(x / 10);
        lemma_decimal_digits_are_digits(x / 10);
        lemma_digits_value_of_decimal_digits(x / 10);
        assert forall|i: int| 0 <= i < front.len() implies text.drop_last()[i] == encode_utf8(
            front,
        )[i] by {
            assert(text[i] == digits[i] as u8);
            assert(encode_utf8(front)[i] == front[i] as u8);
        }
        assert(text.drop_last() =~= encode_utf8(front));
    }
}

/// The text of a number that is not below zero stands for that number.
pub proof fn lemma_number_of_decimal_text(x: nat)
    ensures
        number_of(encode_utf8(decimal_text(x as int))) == Some(x as int),
{
    lemma_decimal_digits_are_digits(x);
    lemma_digits_value_of_decimal_digits(x);
    let text = encode_utf8(decimal_digits(x));
    assert(is_digit(text[0]));
}

/// With every digit that is added the value of a text of digits grows, or
/// stays.
pub proof fn lemma_digits_value_grows(text: Seq<u8>, k: int)
    requires
        all_digits(text),
        0 <= k <= text.len(),
    ensures
        0 <= digits_value(text.take(k)) <= digits_value(text),
    decreases text.len() - k,
{
    lemma_digits_value_is_not_negative(text.take(k));
    if k < text.len() {
        lemma_digits_value_grows(text, k + 1);
        assert(text.take(k + 1).drop_last() =~= text.take(k));
        assert(is_digit(text[k]));
        assert(text.take(k + 1).last() == text[k]);
    } else {
        assert(text.take(k) =~= text);
    }
}

/// A text of digits stands for a number that is not below zero.
pub proof fn lemma_digits_value_is_not_negative(text: Seq<u8>)
    requires
        all_digits(text),
    ensures
        0 <= digits_value(text),
    decreases text.len(),
{
    if text.len() > 0 {
        assert(is_digit(text.last()));
        assert forall|i: int| 0 <= i < text.drop_last().len() implies is_digit(
            #[trigger] text.drop_last()[i],
        ) by {
            assert(text.drop_last()[i] == text[i]);
        }
        lemma_digits_value_is_not_negative(text.drop_last());
    }
}

/// The text of one digit.
fn digit_text(d: u32) -> (text: &'static str)
    requires
        d <= 9,
    ensures
        text@ == seq![digit_char(d as int)],
{
    proof {
        reveal_strlit("0");
        reveal_strlit("1");
        reveal_strlit("2");
        reveal_strlit("3");
        reveal_strlit("4");
        reveal_strlit("5");
        reveal_strlit("6");
        reveal_strlit("7");
        reveal_strlit("8");
        reveal_strlit("9");
    }
    let text = if d == 0 {
        "0"
    } else if d == 1 {
        "1"
    } else if d == 2 {
        "2"
    } else if d == 3 {
        "3"
    } else if d == 4 {
        "4"
    } else if d == 5 {
        "5"
    } else if d == 6 {
        "6"
    } else if d == 7 {
        "7"
    } else if d == 8 {
        "8"
    } else {
        "9"
    };
    assert(text@ =~= seq![digit_char(d as int)]);
    text
}

/// Writes the digits of `magnitude` behind `text`.
fn push_digits(magnitude: u32, text: &mut String)
    ensures
        final(text)@ == old(text)@ + decimal_digits(magnitude as nat),
    decreases magnitude,
{
    if magnitude >= 10 {
        push_digits(magnitude / 10, text);
    }
    text.append(digit_text(magnitude % 10));
    proof {
        let digit = seq![digit_char((magnitude % 10) as int)];
        if magnitude >= 10 {
            let front = decimal_digits((magnitude / 10) as nat);
            assert(decimal_digits(magnitude as nat) =~= front + digit);
            assert(old(text)@ + front + digit =~= old(text)@ + (front + digit));
        } else {
            assert(decimal_digits(magnitude as nat) =~= digit);
        }
    }
}

/// `x` as text.
pub fn decimal(x: i32) -> (text: String)
    ensures
        text@ == decimal_text(x as int),
{
    let mut text = String::new();
    if x < 0 {
        proof {
            reveal_strlit("-");
        }
        text.append("-");
        assert(text@ =~= seq!['-']);
        let magnitude: u32 = (-(x as i64)) as u32;
        push_digits(magnitude, &mut text);
    } else {
        push_digits(x as u32, &mut text);
        assert(text@ =~= decimal_digits(x as nat));
    }
    text
}

/// The number that `text` stands for, where it stands for one and that is an
/// `i32`.
pub fn parse_i32(text: &[u8]) -> (number: Option<i32>)
    ensures
        number == number_in_i32(text@),
{
    if text.len() == 0 {
        return None;
    }
    let negative = text[0] == MINUS;
    let first: usize = if text[0] == MINUS || text[0] == PLUS {
        1
    } else {
        0
    };
    let ghost digits = if first == 1 {
        text@.skip(1)
    } else {
        text@
    };
    if first == text.len() {
        return None;
    }
    let mut magnitude: i64 = 0;
    let mut i: usize = first;
    while i < text.len()
        invariant
            first <= i <= text.len(),
            text.len() > 0,
            first == (if text[0] == MINUS || text[0] == PLUS {
                1usize
            } else {
                0usize
            }),
            digits == (if first == 1 {
                text@.skip(1)
            } else {
                text@
            }),
            all_digits(digits.take(i - first)),
            magnitude == digits_value(digits.take(i - first)),
            0 <= magnitude <= 0x8000_0000,
        decreases text.len() - i,
    {
        let byte = text[i];
        let ghost k = i - first;
        proof {
            assert(digits.take(k + 1).drop_last() =~= digits.take(k));
            assert(digits.take(k + 1).last() == byte);
        }
        if byte < ZERO || byte > ZERO + 9 {
            proof {
                assert(!is_digit(digits[k]));
            }
            return None;
        }
        proof {
            assert forall|j: int| 0 <= j < k + 1 implies is_digit(
                #[trigger] digits.take(k + 1)[j],
            ) by {
                if j < k {
                    assert(digits.take(k)[j] == digits[j]);
                }
            }
        }
        magnitude = 10 * magnitude + (byte - ZERO) as i64;
        if magnitude > 0x8000_0000 {
            proof {
                // What follows can only add to a number that is too large
                // already, or is no digit.
                if all_digits(digits) {
                    lemma_digits_value_grows(digits, k + 1);
                }
            }
            return None;
        }
        i += 1;
    }
    proof {
        assert(digits.take(i - first) =~= digits);
    }
    if negative {
        Some((-magnitude) as i32)
    } else if magnitude > 0x7fff_ffff {
        None
    } else {
        Some(magnitude as i32)
    }
}

} // verus!
