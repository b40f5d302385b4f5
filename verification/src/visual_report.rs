//! Texts of the visual report: amounts of money written out, and colours read
//! from their hexadecimal form.

use crate::text::{digit_char, short_number, three_digits, two_digits};
use vstd::prelude::*;
use vstd::string::{StringExecFns, StringSliceAdditionalSpecFns};

verus! {

/// The sign of the currency.
pub const CURRENCY: &'static str = "£";

/// The last `count` decimal digits of `n`, for a count of one to three.
pub open spec fn last_digits(n: int, count: int) -> Seq<char> {
    if count == 1 {
        seq![digit_char(n % 10)]
    } else if count == 2 {
        two_digits(n % 100)
    } else {
        three_digits(n % 1000)
    }
}

/// A number in decimal digits, with a comma before each group of three
/// digits but the first.
pub open spec fn grouped_number(n: int) -> Seq<char>
    decreases n,
{
    if n < 1000 {
        short_number(n)
    } else {
        grouped_number(n / 1000) + seq![','] + three_digits(n % 1000)
    }
}

/// An amount of hundredths as the report writes it: nothing for an amount
/// of zero that is not to be shown; else a minus sign where the amount is
/// negative, the sign of the currency, the whole units with commas between
/// the thousands, a point, and the hundredths in two digits.
pub open spec fn currency_text(cents: int, show_zero: bool) -> Seq<char> {
    if cents == 0 && !show_zero {
        Seq::empty()
    } else {
        let magnitude = if cents < 0 {
            -cents
        } else {
            cents
        };
        let sign = if cents < 0 {
            seq!['-']
        } else {
            Seq::empty()
        };
        sign + seq!['£'] + grouped_number(magnitude / 100) + seq!['.'] + two_digits(
            magnitude % 100,
        )
    }
}

/// The text of one decimal digit.
fn digit_text(digit: i128) -> (text: &'static str)
    requires
        0 <= digit <= 9,
    ensures
        text@ == seq![digit_char(digit as int)],
{
    proof {
        reveal_strlit("0");
        reveal_strlit("1");
        reveal_strlit("2");
        reveal_strlit("3");
        reveal_strlit("4");
        reveal_strlit("5");
        reveal_strlit("6");
        reveal_strlit("7");
        reveal_strlit("8");
        reveal_strlit("9");
    }
    let text = if digit == 0 {
        "0"
    } else if digit == 1 {
        "1"
    } else if digit == 2 {
        "2"
    } else if digit == 3 {
        "3"
    } else if digit == 4 {
        "4"
    } else if digit == 5 {
        "5"
    } else if digit == 6 {
        "6"
    } else if digit == 7 {
        "7"
    } else if digit == 8 {
        "8"
    } else {
        "9"
    };
    assert(text@ =~= seq![digit_char(digit as int)]);
    text
}

/// Writes the last `count` decimal digits of `n` behind `text`.
fn append_digits(text: &mut String, n: i128, count: u8)
    requires
        0 <= n < 1000,
        1 <= count <= 3,
    ensures
        final(text)@ == old(text)@ + last_digits(n as int, count as int),
{
    let ghost before = text@;
    let hundreds = n / 100;
    let tens = n / 10 % 10;
    let ones = n % 10;
    assert(n % 1000 == n && (n % 100) / 10 == tens && (n % 100) % 10 == ones);
    if count >= 3 {
        text.append(digit_text(hundreds));
    }
    let ghost middle = text@;
    if count >= 2 {
        text.append(digit_text(tens));
    }
    let ghost behind = text@;
    text.append(digit_text(ones));
    if count == 1 {
        assert(text@ =~= before + seq![digit_char(ones as int)]);
    } else if count == 2 {
        assert(text@ =~= before + seq![digit_char(tens as int), digit_char(ones as int)]);
    } else {
        assert(text@ =~= before + seq![
            digit_char(hundreds as int),
            digit_char(tens as int),
            digit_char(ones as int),
        ]);
    }
}

/// A number in decimal digits, with commas between the thousands.
fn grouped_number_text(n: i128) -> (text: String)
    requires
        0 <= n,
    ensures
        text@ == grouped_number(n as int),
    decreases n,
{
    if n < 1000 {
        let mut text = String::new();
        let count: u8 = if n < 10 {
            1
        } else if n < 100 {
            2
        } else {
            3
        };
        append_digits(&mut text, n, count);
        assert(text@ =~= short_number(n as int));
        text
    } else {
        let mut text = grouped_number_text(n / 1000);
        let ghost front = text@;
        proof {
            reveal_strlit(",");
        }
        text.append(",");
        append_digits(&mut text, n % 1000, 3);
        assert(text@ =~= front + seq![','] + three_digits(n as int % 1000));
        text
    }
}

/// An amount of hundredths as the report writes it, such as `-£1,234.50`;
/// an amount of zero is left empty unless `show_zero` is set.
pub fn format_currency(cents: i64, show_zero: bool) -> (text: String)
    ensures
        text@ == currency_text(cents as int, show_zero),
{
    if cents == 0 && !show_zero {
        return String::new();
    }
    let magnitude: i128 = if cents < 0 {
        -(cents as i128)
    } else {
        cents as i128
    };
    proof {
        reveal_strlit("-");
        reveal_strlit("£");
        reveal_strlit(".");
    }
    let mut text = String::new();
    if cents < 0 {
        text.append("-");
    }
    let ghost sign = text@;
    text.append(CURRENCY);
    let whole = grouped_number_text(magnitude / 100);
    text.append(whole.as_str());
    text.append(".");
    let ghost front = text@;
    append_digits(&mut text, magnitude % 100, 2);
    assert(text@ =~= sign + seq!['£'] + grouped_number(magnitude as int / 100) + seq!['.']
        + two_digits(magnitude as int % 100));
    text
}

/// The value of a hexadecimal digit in either case, if `byte` is one.
pub open spec fn hex_digit(byte: u8) -> Option<int> {
    if 0x30 <= byte <= 0x39 {
        Some(byte - 0x30)
    } else if 0x61 <= byte <= 0x66 {
        Some(byte - 0x61 + 10)
    } else if 0x41 <= byte <= 0x46 {
        Some(byte - 0x41 + 10)
    } else {
        None
    }
}

/// The number that two bytes spell in hexadecimal: two digits, or a plus
/// sign and one digit.
pub open spec fn hex_pair(first: u8, second: u8) -> Option<int> {
    if first == 0x2b {
        hex_digit(second)
    } else if hex_digit(first) is Some && hex_digit(second) is Some {
        Some(16 * hex_digit(first)->0 + hex_digit(second)->0)
    } else {
        None
    }
}

/// The red, green and blue of a colour written as `#` and three
/// hexadecimal pairs, seven bytes in all; nothing for any other text.
pub open spec fn hex_color(bytes: Seq<u8>) -> Option<(u8, u8, u8)> {
    if bytes.len() == 7 && bytes[0] == 0x23 && hex_pair(bytes[1], bytes[2]) is Some && hex_pair(
        bytes[3],
        bytes[4],
    ) is Some && hex_pair(bytes[5], bytes[6]) is Some {
        Some(
            (
                hex_pair(bytes[1], bytes[2])->0 as u8,
                hex_pair(bytes[3], bytes[4])->0 as u8,
                hex_pair(bytes[5], bytes[6])->0 as u8,
            ),
        )
    } else {
        None
    }
}

/// The value of a hexadecimal digit, if `byte` is one.
fn hex_digit_value(byte: u8) -> (value: Option<u8>)
    ensures
        value is Some <==> hex_digit(byte) is Some,
        value is Some ==> value->0 == hex_digit(byte)->0,
{
    if 0x30 <= byte && byte <= 0x39 {
        Some(byte - 0x30)
    } else if 0x61 <= byte && byte <= 0x66 {
        Some(byte - 0x61 + 10)
    } else if 0x41 <= byte && byte <= 0x46 {
        Some(byte - 0x41 + 10)
    } else {
        None
    }
}

/// The number that two bytes spell in hexadecimal.
fn hex_pair_value(first: u8, second: u8) -> (value: Option<u8>)
    ensures
        value is Some <==> hex_pair(first, second) is Some,
        value is Some ==> value->0 == hex_pair(first, second)->0,
{
    if first == 0x2b {
        hex_digit_value(second)
    } else {
        match (hex_digit_value(first), hex_digit_value(second)) {
            (Some(high), Some(low)) => Some(16 * high + low),
            _ => None,
        }
    }
}

/// The red, green and blue of a colour in its hexadecimal form, such as
/// `#dfe7f5`; nothing for a text that is no such colour.
pub fn parse_hex_color(color: &str) -> (channels: Option<(u8, u8, u8)>)
    ensures
        channels == hex_color(color.spec_bytes()),
{
    let bytes = color.as_bytes();
    if bytes.len() != 7 || bytes[0] != 0x23 {
        return None;
    }
    match (
        hex_pair_value(bytes[1], bytes[2]),
        hex_pair_value(bytes[3], bytes[4]),
        hex_pair_value(bytes[5], bytes[6]),
    ) {
        (Some(red), Some(green), Some(blue)) => Some((red, green, blue)),
        _ => None,
    }
}

} // verus!
