use vstd::prelude::*;
use vstd::string::StrSliceExecFns;

verus! {

/// Whether `c` is one of the ten ASCII decimal digits.
pub open spec fn is_digit(c: char) -> bool {
    '0' <= c && c <= '9'
}

/// The number that an ASCII decimal digit stands for.
pub open spec fn digit_value(c: char) -> int {
    c as int - '0' as int
}

/// The year that a timestamp text starts with: the number spelled by its first four
/// characters when these are four decimal digits, or a plus sign and three decimal
/// digits; zero for every other text.
pub open spec fn leading_year(text: Seq<char>) -> int {
    if text.len() >= 4 && is_digit(text[1]) && is_digit(text[2]) && is_digit(text[3]) {
        let low = 100 * digit_value(text[1]) + 10 * digit_value(text[2]) + digit_value(text[3]);
        if is_digit(text[0]) {
            1000 * digit_value(text[0]) + low
        } else if text[0] == '+' {
            low
        } else {
            0
        }
    } else {
        0
    }
}

/// The year of an optional timestamp: that of its text, zero where there is none.
pub open spec fn year_of(timestamp: Option<String>) -> int {
    match timestamp {
        Some(text) => leading_year(text@),
        None => 0,
    }
}

fn digit_of(c: char) -> (digit: Option<u16>)
    ensures
        digit is Some <==> is_digit(c),
        digit matches Some(d) ==> d == digit_value(c),
{
    if '0' <= c && c <= '9' {
        Some((c as u32 - '0' as u32) as u16)
    } else {
        None
    }
}

/// Reads the year at the start of a timestamp text. A text that does not start with
/// a year reads as year zero.
pub fn parse_year(text: &str) -> (year: u16)
    ensures
        year == leading_year(text@),
        year <= 9999,
{
    if text.unicode_len() < 4 {
        return 0;
    }
    let first = text.get_char(0);
    match (digit_of(text.get_char(1)), digit_of(text.get_char(2)), digit_of(text.get_char(3))) {
        (Some(hundreds), Some(tens), Some(units)) => {
            let low: u16 = 100 * hundreds + 10 * tens + units;
            match digit_of(first) {
                Some(thousands) => 1000 * thousands + low,
                None => if first == '+' {
                    low
                } else {
                    0
                },
            }
        },
        _ => 0,
    }
}

/// Reads the year of an optional timestamp; an absent one reads as year zero.
pub fn timestamp_year(timestamp: &Option<String>) -> (year: u16)
    ensures
        year == year_of(*timestamp),
        year <= 9999,
{
    match timestamp {
        Some(text) => parse_year(text.as_str()),
        None => 0,
    }
}

} // verus!
