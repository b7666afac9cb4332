//! Numbers written in decimal.

use vstd::prelude::*;
use vstd::string::*;

verus! {

/// The character of the digit `d`.
pub open spec fn digit_char(d: nat) -> char
    recommends
        d < 10,
{
    seq!['0', '1', '2', '3', '4', '5', '6', '7', '8', '9'][d as int]
}

/// The decimal digits of `n`, most significant first, without leading zeros.
pub open spec fn decimal_digits(n: nat) -> Seq<char>
    decreases n,
{
    if n < 10 {
        seq![digit_char(n)]
    } else {
        decimal_digits(n / 10).push(digit_char(n % 10))
    }
}

/// The text of one digit.
fn digit_text(d: usize) -> (text: &'static str)
    requires
        d < 10,
    ensures
        text@ == seq![digit_char(d as nat)],
{
    let digits = "0123456789";
    proof {
        reveal_strlit("0123456789");
    }
    digits.substring_char(d, d + 1)
}

/// Writes `n` in decimal.
pub fn decimal(n: usize) -> (text: String)
    ensures
        text@ == decimal_digits(n as nat),
    decreases n,
{
    let last = digit_text(n % 10);
    if n < 10 {
        String::from_str(last)
    } else {
        decimal(n / 10).concat(last)
    }
}

} // verus!
