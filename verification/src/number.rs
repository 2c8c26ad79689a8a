//! Integers out of text.

use vstd::prelude::*;

use crate::text::{chars_of, Text};

verus! {

/// Is the character a decimal digit?
pub open spec fn is_digit(c: char) -> bool {
    '0' <= c <= '9'
}

/// What a digit stands for.
pub open spec fn digit_value(c: char) -> int {
    c as int - '0' as int
}

/// How a number that does not fit is told.
pub open spec fn range_message(negative: bool) -> Text {
    if negative {
        "number too small to fit in target type"@
    } else {
        "number too large to fit in target type"@
    }
}

/// The number that the digits `s` make behind those that made `acc`, as long as
/// it stays between `min` and `max`.
pub open spec fn digits_read(s: Text, acc: int, negative: bool, min: int, max: int) -> Result<
    int,
    Text,
>
    decreases s.len(),
{
    if s.len() == 0 {
        Ok(acc)
    } else if !is_digit(s[0]) {
        Err("invalid digit found in string"@)
    } else {
        let next = if negative {
            acc * 10 - digit_value(s[0])
        } else {
            acc * 10 + digit_value(s[0])
        };
        if min <= next <= max {
            digits_read(s.skip(1), next, negative, min, max)
        } else {
            Err(range_message(negative))
        }
    }
}

/// The integer between `min` and `max` that a text is: a sign, if any, and
/// digits. A minus is a sign only where there are negative numbers.
pub open spec fn integer_read(s: Text, min: int, max: int) -> Result<int, Text> {
    if s.len() == 0 {
        Err("cannot parse integer from empty string"@)
    } else if s.len() == 1 && (s[0] == '+' || s[0] == '-') {
        Err("invalid digit found in string"@)
    } else if s[0] == '-' && min < 0 {
        digits_read(s.skip(1), 0, true, min, max)
    } else if s[0] == '+' {
        digits_read(s.skip(1), 0, false, min, max)
    } else {
        digits_read(s, 0, false, min, max)
    }
}

/// The integer that a text is. The bounds are those of a type of at most 64
/// bits.
fn read_integer(s: &str, min: i128, max: i128) -> (r: Result<i128, String>)
    requires
        -0x8000_0000_0000_0000 <= min <= 0 <= max <= 0xffff_ffff_ffff_ffff,
    ensures
        match integer_read(s@, min as int, max as int) {
            Ok(n) => r == Ok::<i128, String>(n as i128) && min <= n <= max,
            Err(e) => r is Err && r->Err_0@ == e,
        },
{
    let chars = chars_of(s);
    if chars.len() == 0 {
        return Err("cannot parse integer from empty string".to_owned());
    }
    if chars.len() == 1 && (chars[0] == '+' || chars[0] == '-') {
        return Err("invalid digit found in string".to_owned());
    }
    let negative = chars[0] == '-' && min < 0;
    let mut i: usize = if negative || chars[0] == '+' {
        1
    } else {
        0
    };
    let mut acc: i128 = 0;
    assert(s@.skip(0) =~= s@);
    while i < chars.len()
        invariant
            i <= chars@.len(),
            chars@ == s@,
            -0x8000_0000_0000_0000 <= min <= 0 <= max <= 0xffff_ffff_ffff_ffff,
            min <= acc <= max,
            integer_read(s@, min as int, max as int) == digits_read(
                s@.skip(i as int),
                acc as int,
                negative,
                min as int,
                max as int,
            ),
        decreases chars@.len() - i,
    {
        let c = chars[i];
        assert(s@.skip(i as int)[0] == c);
        assert(s@.skip(i as int).skip(1) =~= s@.skip(i + 1));
        if c < '0' || c > '9' {
            return Err("invalid digit found in string".to_owned());
        }
        let d: i128 = (c as u32 - 48) as i128;
        let next: i128 = if negative {
            acc * 10 - d
        } else {
            acc * 10 + d
        };
        if next < min || next > max {
            if negative {
                return Err("number too small to fit in target type".to_owned());
            }
            return Err("number too large to fit in target type".to_owned());
        }
        acc = next;
        i = i + 1;
    }
    assert(s@.skip(i as int) =~= Seq::empty());
    Ok(acc)
}

/// `str::parse` for `i64`; an error is given as its text.
pub fn parse_i64(s: &str) -> (r: Result<i64, String>)
    ensures
        match integer_read(s@, i64::MIN as int, i64::MAX as int) {
            Ok(n) => r == Ok::<i64, String>(n as i64) && i64::MIN <= n <= i64::MAX,
            Err(e) => r is Err && r->Err_0@ == e,
        },
{
    match read_integer(s, -0x8000_0000_0000_0000, 0x7fff_ffff_ffff_ffff) {
        Ok(n) => Ok(n as i64),
        Err(e) => Err(e),
    }
}

/// `str::parse` for `usize`; an error is given as its text.
pub fn parse_usize(s: &str) -> (r: Result<usize, String>)
    ensures
        match integer_read(s@, 0, usize::MAX as int) {
            Ok(n) => r == Ok::<usize, String>(n as usize) && 0 <= n <= usize::MAX,
            Err(e) => r is Err && r->Err_0@ == e,
        },
{
    match read_integer(s, 0, usize::MAX as i128) {
        Ok(n) => Ok(n as usize),
        Err(e) => Err(e),
    }
}

} // verus!
