//! Calendar-day strings of the form `YYYY-MM-DD`.
//!
//! A date is valid when the digits stand at their fixed positions, the
//! year lies in `1900..=2100`, the month in `1..=12` and the day in
//! `1..=31`. For valid dates the numeric value `year * 10000 +
//! month * 100 + day` orders days chronologically, and coincides with
//! the lexicographic order of the strings.

use vstd::prelude::*;
use vstd::string::StrSliceExecFns;

verus! {

/// Whether a character is a decimal digit.
pub open spec fn is_digit(c: char) -> bool {
    '0' as int <= c as int && c as int <= '9' as int
}

/// The numeric value of a decimal digit.
pub open spec fn digit_val(c: char) -> int {
    c as int - '0' as int
}

/// Digits and dashes stand at their fixed positions.
pub open spec fn date_shape(s: Seq<char>) -> bool {
    &&& s.len() == 10
    &&& is_digit(s[0]) && is_digit(s[1]) && is_digit(s[2]) && is_digit(s[3])
    &&& s[4] == '-'
    &&& is_digit(s[5]) && is_digit(s[6])
    &&& s[7] == '-'
    &&& is_digit(s[8]) && is_digit(s[9])
}

/// The year named by a date string of the right shape.
pub open spec fn year_of(s: Seq<char>) -> int {
    digit_val(s[0]) * 1000 + digit_val(s[1]) * 100 + digit_val(s[2]) * 10 + digit_val(s[3])
}

/// The month named by a date string of the right shape.
pub open spec fn month_of(s: Seq<char>) -> int {
    digit_val(s[5]) * 10 + digit_val(s[6])
}

/// The day named by a date string of the right shape.
pub open spec fn day_of(s: Seq<char>) -> int {
    digit_val(s[8]) * 10 + digit_val(s[9])
}

/// A well-formed date: right shape, fields in range.
pub open spec fn valid_date(s: Seq<char>) -> bool {
    &&& date_shape(s)
    &&& 1900 <= year_of(s) <= 2100
    &&& 1 <= month_of(s) <= 12
    &&& 1 <= day_of(s) <= 31
}

/// A numeric stand-in that orders valid dates chronologically.
pub open spec fn date_value(s: Seq<char>) -> int {
    year_of(s) * 10000 + month_of(s) * 100 + day_of(s)
}

/// Two valid dates with one numeric value are one string.
pub proof fn lemma_date_value_injective(a: Seq<char>, b: Seq<char>)
    requires
        valid_date(a),
        valid_date(b),
        date_value(a) == date_value(b),
    ensures
        a == b,
{
    assert(year_of(a) == year_of(b) && month_of(a) == month_of(b) && day_of(a) == day_of(b));
    assert(digit_val(a[0]) == digit_val(b[0]) && digit_val(a[1]) == digit_val(b[1]) && digit_val(
        a[2],
    ) == digit_val(b[2]) && digit_val(a[3]) == digit_val(b[3]));
    assert(digit_val(a[5]) == digit_val(b[5]) && digit_val(a[6]) == digit_val(b[6]));
    assert(digit_val(a[8]) == digit_val(b[8]) && digit_val(a[9]) == digit_val(b[9]));
    assert(a =~= b);
}

/// The digit standing at position `i`, if there is one.
fn digit_at(s: &str, i: usize) -> (r: Option<i64>)
    requires
        i < s@.len(),
    ensures
        match r {
            Some(v) => is_digit(s@[i as int]) && v == digit_val(s@[i as int]),
            None => !is_digit(s@[i as int]),
        },
{
    let c = s.get_char(i);
    let v = c as u32;
    if v >= '0' as u32 && v <= '9' as u32 {
        Some((v - '0' as u32) as i64)
    } else {
        None
    }
}

/// Whether a string is a well-formed `YYYY-MM-DD` date.
pub fn is_valid_date(s: &str) -> (b: bool)
    ensures
        b == valid_date(s@),
{
    if s.unicode_len() != 10 {
        return false;
    }
    if !(s.get_char(4) == '-' && s.get_char(7) == '-') {
        return false;
    }
    let d0 = digit_at(s, 0);
    let d1 = digit_at(s, 1);
    let d2 = digit_at(s, 2);
    let d3 = digit_at(s, 3);
    let d5 = digit_at(s, 5);
    let d6 = digit_at(s, 6);
    let d8 = digit_at(s, 8);
    let d9 = digit_at(s, 9);
    match (d0, d1, d2, d3, d5, d6, d8, d9) {
        (
            Some(y0),
            Some(y1),
            Some(y2),
            Some(y3),
            Some(m0),
            Some(m1),
            Some(a0),
            Some(a1),
        ) => {
            let year = y0 * 1000 + y1 * 100 + y2 * 10 + y3;
            let month = m0 * 10 + m1;
            let day = a0 * 10 + a1;
            1900 <= year && year <= 2100 && 1 <= month && month <= 12 && 1 <= day && day <= 31
        },
        _ => false,
    }
}

/// The numeric value of a valid date.
pub fn date_value_of(s: &str) -> (v: i64)
    requires
        valid_date(s@),
    ensures
        v == date_value(s@),
{
    let d0 = s.get_char(0) as u32 - '0' as u32;
    let d1 = s.get_char(1) as u32 - '0' as u32;
    let d2 = s.get_char(2) as u32 - '0' as u32;
    let d3 = s.get_char(3) as u32 - '0' as u32;
    let d5 = s.get_char(5) as u32 - '0' as u32;
    let d6 = s.get_char(6) as u32 - '0' as u32;
    let d8 = s.get_char(8) as u32 - '0' as u32;
    let d9 = s.get_char(9) as u32 - '0' as u32;
    let year = (d0 * 1000 + d1 * 100 + d2 * 10 + d3) as i64;
    let month = (d5 * 10 + d6) as i64;
    let day = (d8 * 10 + d9) as i64;
    year * 10000 + month * 100 + day
}

} // verus!
