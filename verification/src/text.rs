//! Text that is made piece by piece.

use vstd::prelude::*;

verus! {

/// `String::push` of the standard library: the character stands behind what was there.
pub assume_specification[ std::string::String::push ](string: &mut String, ch: char)
    ensures
        final(string)@ == old(string)@.push(ch),
;

/// `String::push_str` of the standard library: the text stands behind what was there.
pub assume_specification[ std::string::String::push_str ](string: &mut String, text: &str)
    ensures
        final(string)@ == old(string)@ + text@,
;

/// A digit below ten as a character.
pub open spec fn digit(n: nat) -> char {
    ((48 + n) as u8) as char
}

/// A number in decimal notation.
pub open spec fn decimal(n: nat) -> Seq<char>
    decreases n,
{
    if n < 10 {
        seq![digit(n)]
    } else {
        decimal(n / 10).push(digit(n % 10))
    }
}

/// A number in decimal notation, with a minus sign if it is below zero.
pub open spec fn signed_decimal(n: int) -> Seq<char> {
    if n < 0 {
        seq!['-'] + decimal((-n) as nat)
    } else {
        decimal(n as nat)
    }
}

/// Adds a number in decimal notation.
fn push_decimal(out: &mut String, n: u64)
    ensures
        final(out)@ == old(out)@ + decimal(n as nat),
    decreases n,
{
    if n >= 10 {
        push_decimal(out, n / 10);
    }
    let ghost before = out@;
    out.push((48 + (n % 10) as u8) as char);
    proof {
        if n >= 10 {
            assert(before.push(digit(n as nat % 10)) =~= old(out)@ + decimal(n as nat));
        } else {
            assert(before.push(digit(n as nat)) =~= old(out)@ + decimal(n as nat));
        }
    }
}

/// Adds a number in decimal notation, with a minus sign if it is below zero.
pub(crate) fn push_signed_decimal(out: &mut String, n: isize)
    ensures
        final(out)@ == old(out)@ + signed_decimal(n as int),
{
    if n < 0 {
        out.push('-');
        let below = -(n as i128);
        push_decimal(out, below as u64);
        assert(out@ =~= old(out)@ + signed_decimal(n as int));
    } else {
        push_decimal(out, n as u64);
    }
}

} // verus!
