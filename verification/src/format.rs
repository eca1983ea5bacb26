//! Rendering a value held in hundredths with two decimal places.
//!
//! Slider values reach the text label as an integer count of hundredths;
//! the label shows the value with a dot and exactly two fraction digits,
//! as in `3.14`.

use vstd::prelude::*;
use vstd::string::StringExecFns;

verus! {

/// The decimal digit character for `d` (`0` through `9`).
pub open spec fn spec_digit(d: int) -> char {
    if d == 0 {
        '0'
    } else if d == 1 {
        '1'
    } else if d == 2 {
        '2'
    } else if d == 3 {
        '3'
    } else if d == 4 {
        '4'
    } else if d == 5 {
        '5'
    } else if d == 6 {
        '6'
    } else if d == 7 {
        '7'
    } else if d == 8 {
        '8'
    } else {
        '9'
    }
}

/// The decimal digits of `n`, most significant first, with no leading
/// zero except on zero itself.
pub open spec fn spec_decimal(n: nat) -> Seq<char>
    decreases n,
{
    if n < 10 {
        seq![spec_digit(n as int)]
    } else {
        spec_decimal(n / 10) + seq![spec_digit((n % 10) as int)]
    }
}

/// A count of hundredths rendered with two decimal places: an optional
/// minus sign, the integer part, a dot, and exactly two fraction digits.
pub open spec fn spec_two_decimals(v: int) -> Seq<char> {
    let a = if v < 0 { -v } else { v };
    let sign: Seq<char> = if v < 0 { seq!['-'] } else { Seq::empty() };
    sign + spec_decimal((a / 100) as nat) + seq!['.'] + seq![
        spec_digit(a % 100 / 10),
        spec_digit(a % 10),
    ]
}

fn digit_str(d: u64) -> (r: &'static str)
    requires
        d < 10,
    ensures
        r@ == seq![spec_digit(d as int)],
{
    proof {
        reveal_strlit("0");
        reveal_strlit("1");
        reveal_strlit("2");
        reveal_strlit("3");
        reveal_strlit("4");
        reveal_strlit("5");
        reveal_strlit("6");
        reveal_strlit("7");
        reveal_strlit("8");
        reveal_strlit("9");
    }
    let r = match d {
        0 => "0",
        1 => "1",
        2 => "2",
        3 => "3",
        4 => "4",
        5 => "5",
        6 => "6",
        7 => "7",
        8 => "8",
        _ => "9",
    };
    proof {
        assert(r@ =~= seq![spec_digit(d as int)]);
    }
    r
}

fn push_decimal(s: &mut String, n: u64)
    ensures
        final(s)@ == old(s)@ + spec_decimal(n as nat),
    decreases n,
{
    if n >= 10 {
        push_decimal(s, n / 10);
        s.append(digit_str(n % 10));
        proof {
            assert(final(s)@ =~= old(s)@ + spec_decimal(n as nat));
        }
    } else {
        s.append(digit_str(n));
        proof {
            assert(final(s)@ =~= old(s)@ + spec_decimal(n as nat));
        }
    }
}

/// Render `v` hundredths with two decimal places, as in `-12.05`.
pub fn format_two_decimals(v: i64) -> (r: String)
    ensures
        r@ == spec_two_decimals(v as int),
{
    let mut s = String::new();
    let mag: u64 = if v >= 0 {
        v as u64
    } else {
        ((-(v + 1)) as u64) + 1
    };
    proof {
        assert(mag as int == (if v < 0 { -(v as int) } else { v as int }));
    }
    if v < 0 {
        proof {
            reveal_strlit("-");
        }
        s.append("-");
        proof {
            assert(s@ =~= seq!['-']);
        }
    }
    push_decimal(&mut s, mag / 100);
    proof {
        reveal_strlit(".");
    }
    s.append(".");
    s.append(digit_str(mag % 100 / 10));
    s.append(digit_str(mag % 10));
    proof {
        assert(s@ =~= spec_two_decimals(v as int));
    }
    s
}

} // verus!
