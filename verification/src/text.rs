//! Numbers as text.

use crate::geometry::GridPosition;
use vstd::prelude::*;
use vstd::string::StringExecFns;

verus! {

/// The character of a decimal digit.
pub open spec fn digit_text(digit: int) -> Seq<char> {
    if digit == 0 {
        "0"@
    } else if digit == 1 {
        "1"@
    } else if digit == 2 {
        "2"@
    } else if digit == 3 {
        "3"@
    } else if digit == 4 {
        "4"@
    } else if digit == 5 {
        "5"@
    } else if digit == 6 {
        "6"@
    } else if digit == 7 {
        "7"@
    } else if digit == 8 {
        "8"@
    } else {
        "9"@
    }
}

/// A number written in decimal digits, without leading zeros.
pub open spec fn decimal_text(number: nat) -> Seq<char>
    decreases number,
{
    if number < 10 {
        digit_text(number as int)
    } else {
        decimal_text(number / 10) + digit_text((number % 10) as int)
    }
}

fn digit(value: u64) -> (text: &'static str)
    requires
        value < 10,
    ensures
        text@ == digit_text(value as int),
{
    if value == 0 {
        "0"
    } else if value == 1 {
        "1"
    } else if value == 2 {
        "2"
    } else if value == 3 {
        "3"
    } else if value == 4 {
        "4"
    } else if value == 5 {
        "5"
    } else if value == 6 {
        "6"
    } else if value == 7 {
        "7"
    } else if value == 8 {
        "8"
    } else {
        "9"
    }
}

/// Writes a number in decimal digits.
pub fn decimal(number: u64) -> (text: String)
    ensures
        text@ == decimal_text(number as nat),
    decreases number,
{
    if number < 10 {
        String::from_str(digit(number))
    } else {
        let mut text = decimal(number / 10);
        text.append(digit(number % 10));
        text
    }
}

/// A whole number written in decimal digits, with a minus sign before a
/// negative one.
pub open spec fn signed_text(number: int) -> Seq<char> {
    if number < 0 {
        "-"@ + decimal_text((-number) as nat)
    } else {
        decimal_text(number as nat)
    }
}

/// Writes a whole number in decimal digits.
pub fn signed_decimal(number: i64) -> (text: String)
    ensures
        text@ == signed_text(number as int),
{
    if number < 0 {
        let size: u64 = if number == i64::MIN {
            0x8000_0000_0000_0000
        } else {
            (-number) as u64
        };
        let mut text = String::from_str("-");
        let digits = decimal(size);
        text.append(digits.as_str());
        text
    } else {
        decimal(number as u64)
    }
}

impl GridPosition {
    /// The position as text: the three coordinates with commas between
    /// them.
    pub open spec fn text(self) -> Seq<char> {
        signed_text(self.x as int) + ","@ + signed_text(self.y as int) + ","@ + signed_text(
            self.z as int,
        )
    }

    /// Writes the position as its three coordinates with commas between
    /// them.
    pub fn to_text(&self) -> (text: String)
        ensures
            text@ == self.text(),
    {
        let mut text = signed_decimal(self.x as i64);
        text.append(",");
        let y = signed_decimal(self.y as i64);
        text.append(y.as_str());
        text.append(",");
        let z = signed_decimal(self.z as i64);
        text.append(z.as_str());
        text
    }
}


} // verus!
