//! Text primitives used by lookups and by the rendering of reports.

use vstd::prelude::*;

verus! {

/// `needle` occurs in `hay` at position `at`.
pub open spec fn occurs_at(hay: Seq<char>, needle: Seq<char>, at: int) -> bool {
    &&& 0 <= at
    &&& at + needle.len() <= hay.len()
    &&& hay.subrange(at, at + needle.len()) == needle
}

/// `needle` is a contiguous part of `hay`.
pub open spec fn contains_text(hay: Seq<char>, needle: Seq<char>) -> bool {
    exists|at: int| occurs_at(hay, needle, at)
}

/// Substring test, by `str::contains` with a string pattern: true exactly
/// when the pattern matches a sub-slice of `hay`. Both are UTF-8 text, where
/// a match of bytes begins and ends between characters, so the contract
/// speaks of characters. It is taken from the documentation of std and is
/// not proved here.
#[verifier::external_body]
pub(crate) fn str_contains(hay: &str, needle: &str) -> (found: bool)
    ensures
        found == contains_text(hay@, needle@),
{
    hay.contains(needle)
}

/// The character for a decimal digit.
pub open spec fn digit_char(d: nat) -> char
    recommends
        d < 10,
{
    (48 + d) as char
}

/// The decimal representation of `n`, most significant digit first, without
/// leading zeros (`0` is written "0").
pub open spec fn decimal(n: nat) -> Seq<char>
    decreases n,
{
    if n < 10 {
        seq![digit_char(n)]
    } else {
        decimal(n / 10).push(digit_char(n % 10))
    }
}

/// `String::push` appends one character to the end of the string. The
/// contract is taken from the documentation of std and is not proved here.
pub assume_specification[ String::push ](text: &mut String, c: char)
    ensures
        final(text)@ == old(text)@.push(c),
;

/// Renders `n` in decimal.
pub fn decimal_string(n: usize) -> (text: String)
    ensures
        text@ == decimal(n as nat),
{
    let mut digits: Vec<char> = Vec::new();
    let mut rest: usize = n;
    while rest >= 10
        invariant
            decimal(n as nat) == decimal(rest as nat) + digits@.reverse(),
        decreases rest,
    {
        let d: u8 = (rest % 10) as u8;
        let c: char = (48u8 + d) as char;
        proof {
            let prev = digits@;
            assert(decimal(rest as nat) == decimal((rest / 10) as nat).push(
                digit_char((rest % 10) as nat),
            ));
            assert(prev.push(c).reverse() == seq![c] + prev.reverse());
            assert(c == digit_char((rest % 10) as nat));
        }
        digits.push(c);
        rest = rest / 10;
    }
    let lead: char = (48u8 + (rest as u8)) as char;
    let mut text = String::new();
    text.push(lead);
    let mut left: usize = digits.len();
    while left > 0
        invariant
            left <= digits.len(),
            text@ == seq![lead] + digits@.reverse().take(digits.len() - left),
        decreases left,
    {
        left = left - 1;
        let c: char = digits[left];
        proof {
            let rev = digits@.reverse();
            let k = digits.len() - left - 1;
            assert(rev[k] == c);
            assert(rev.take(k + 1) == rev.take(k).push(c));
        }
        text.push(c);
    }
    proof {
        assert(digits@.reverse().take(digits.len() as int) == digits@.reverse());
        assert(decimal(rest as nat) == seq![lead]);
    }
    text
}

} // verus!
