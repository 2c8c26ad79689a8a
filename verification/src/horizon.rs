//! How far into the future deadlines are looked for, as a duration such as `1d`
//! or `3mo`.

use vstd::prelude::*;

use crate::number::{integer_read, parse_usize};
use crate::text::{same, strip_suffix, without_suffix, Text};

verus! {

/// A unit of time.
#[derive(Clone, Copy, PartialEq, Eq, Structural, Debug)]
pub enum Unit {
    Second,
    Minute,
    Hour,
    Day,
    Week,
    Month,
    Year,
}

/// The unit that a text ends with, and what stands before it. Months go before
/// minutes and seconds.
pub open spec fn split_unit(text: Text) -> Option<(Text, Unit)> {
    match without_suffix(text, "mo"@) {
        Some(amount) => Some((amount, Unit::Month)),
        None => match without_suffix(text, "s"@) {
            Some(amount) => Some((amount, Unit::Second)),
            None => match without_suffix(text, "m"@) {
                Some(amount) => Some((amount, Unit::Minute)),
                None => match without_suffix(text, "h"@) {
                    Some(amount) => Some((amount, Unit::Hour)),
                    None => match without_suffix(text, "d"@) {
                        Some(amount) => Some((amount, Unit::Day)),
                        None => match without_suffix(text, "w"@) {
                            Some(amount) => Some((amount, Unit::Week)),
                            None => match without_suffix(text, "y"@) {
                                Some(amount) => Some((amount, Unit::Year)),
                                None => None,
                            },
                        },
                    },
                },
            },
        },
    }
}

/// The duration that a text is: `0`, or a number and a unit.
pub open spec fn horizon_of(text: Text) -> Option<(int, Unit)> {
    if text == "0"@ {
        Some((0, Unit::Second))
    } else {
        match split_unit(text) {
            None => None,
            Some((amount, unit)) => match integer_read(amount, 0, usize::MAX as int) {
                Ok(n) => Some((n, unit)),
                Err(_) => None,
            },
        }
    }
}

/// The unit that a text ends with, and what stands before it.
fn unit_of(text: &str) -> (r: Option<(String, Unit)>)
    ensures
        match split_unit(text@) {
            Some((amount, unit)) => r is Some && (r->0).0@ == amount && (r->0).1 == unit,
            None => r is None,
        },
{
    if let Some(amount) = strip_suffix(text, "mo") {
        return Some((amount, Unit::Month));
    }
    if let Some(amount) = strip_suffix(text, "s") {
        return Some((amount, Unit::Second));
    }
    if let Some(amount) = strip_suffix(text, "m") {
        return Some((amount, Unit::Minute));
    }
    if let Some(amount) = strip_suffix(text, "h") {
        return Some((amount, Unit::Hour));
    }
    if let Some(amount) = strip_suffix(text, "d") {
        return Some((amount, Unit::Day));
    }
    if let Some(amount) = strip_suffix(text, "w") {
        return Some((amount, Unit::Week));
    }
    if let Some(amount) = strip_suffix(text, "y") {
        return Some((amount, Unit::Year));
    }
    None
}

/// The duration that a text is.
pub fn parse_horizon(text: &str) -> (r: Option<(usize, Unit)>)
    ensures
        match horizon_of(text@) {
            Some((n, unit)) => r == Some((n as usize, unit)) && 0 <= n <= usize::MAX,
            None => r is None,
        },
{
    if same(text, "0") {
        return Some((0, Unit::Second));
    }
    match unit_of(text) {
        None => None,
        Some((amount, unit)) => match parse_usize(amount.as_str()) {
            Ok(n) => Some((n, unit)),
            Err(_) => None,
        },
    }
}

} // verus!
