//! Decimal rendering of the numeric metadata fields.
//!
//! Difference reports carry field values as text; this module turns the
//! unsigned integers of a metadata record into their decimal digit strings
//! and proves the text exact.

use vstd::prelude::*;

verus! {

/// The digit character for a value below ten.
pub open spec fn decimal_digit(d: nat) -> char {
    if d == 0 {
        '0'
    } else if d == 1 {
        '1'
    } else if d == 2 {
        '2'
    } else if d == 3 {
        '3'
    } else if d == 4 {
        '4'
    } else if d == 5 {
        '5'
    } else if d == 6 {
        '6'
    } else if d == 7 {
        '7'
    } else if d == 8 {
        '8'
    } else {
        '9'
    }
}

/// The decimal digit string of `n`, most significant digit first,
/// with no leading zeros (a single `'0'` for zero).
pub open spec fn decimal_str(n: nat) -> Seq<char>
    decreases n,
{
    if n < 10 {
        seq![decimal_digit(n)]
    } else {
        decimal_str(n / 10).push(decimal_digit(n % 10))
    }
}

fn digit_literal(d: u64) -> (r: &'static str)
    requires
        d < 10,
    ensures
        r@ == seq![decimal_digit(d as nat)],
{
    proof {
        reveal_strlit("0");
        reveal_strlit("1");
        reveal_strlit("2");
        reveal_strlit("3");
        reveal_strlit("4");
        reveal_strlit("5");
        reveal_strlit("6");
        reveal_strlit("7");
        reveal_strlit("8");
        reveal_strlit("9");
    }
    if d == 0 {
        "0"
    } else if d == 1 {
        "1"
    } else if d == 2 {
        "2"
    } else if d == 3 {
        "3"
    } else if d == 4 {
        "4"
    } else if d == 5 {
        "5"
    } else if d == 6 {
        "6"
    } else if d == 7 {
        "7"
    } else if d == 8 {
        "8"
    } else {
        "9"
    }
}

fn push_decimal(s: &mut String, n: u64)
    ensures
        final(s)@ == old(s)@ + decimal_str(n as nat),
    decreases n,
{
    if n >= 10 {
        push_decimal(s, n / 10);
    }
    let d = n % 10;
    s.append(digit_literal(d));
    proof {
        if n >= 10 {
            assert(old(s)@ + decimal_str((n / 10) as nat) + seq![decimal_digit((n % 10) as nat)]
                =~= old(s)@ + decimal_str(n as nat));
        } else {
            assert(old(s)@ + seq![decimal_digit(n as nat)] =~= old(s)@ + decimal_str(n as nat));
        }
    }
}

/// The decimal digit string of a 64-bit value.
pub fn u64_to_decimal(n: u64) -> (r: String)
    ensures
        r@ == decimal_str(n as nat),
{
    let mut s = String::new();
    push_decimal(&mut s, n);
    proof {
        assert(s@ =~= decimal_str(n as nat));
    }
    s
}

/// The decimal digit string of a 32-bit value.
pub fn u32_to_decimal(n: u32) -> (r: String)
    ensures
        r@ == decimal_str(n as nat),
{
    u64_to_decimal(n as u64)
}

} // verus!
