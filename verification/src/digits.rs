//! Decimal rendering of machine integers, used by token and AST display.

use vstd::prelude::*;
use vstd::string::StrSliceExecFns;
use vstd::string::StringExecFns;

verus! {

/// The decimal digit character for a value in 0..=9.
pub open spec fn digit_char(d: nat) -> char {
    if d == 0 {
        '0'
    } else if d == 1 {
        '1'
    } else if d == 2 {
        '2'
    } else if d == 3 {
        '3'
    } else if d == 4 {
        '4'
    } else if d == 5 {
        '5'
    } else if d == 6 {
        '6'
    } else if d == 7 {
        '7'
    } else if d == 8 {
        '8'
    } else {
        '9'
    }
}

/// The usual decimal digit string of a nonnegative value: most significant
/// digit first, no leading zeros except for the value zero itself.
pub open spec fn spec_nat_digits(n: nat) -> Seq<char>
    decreases n,
{
    if n < 10 {
        seq![digit_char(n)]
    } else {
        spec_nat_digits(n / 10) + seq![digit_char(n % 10)]
    }
}

/// The decimal string of a signed value: a minus sign before the digit
/// string of its magnitude when it is negative.
pub open spec fn spec_int_string(v: int) -> Seq<char> {
    if v < 0 {
        seq!['-'] + spec_nat_digits((-v) as nat)
    } else {
        spec_nat_digits(v as nat)
    }
}

/// The one-character string for a digit value.
fn digit_string(d: u64) -> (r: String)
    requires
        d < 10,
    ensures
        r@ == seq![digit_char(d as nat)],
{
    let s: &str = if d == 0 {
        "0"
    } else if d == 1 {
        "1"
    } else if d == 2 {
        "2"
    } else if d == 3 {
        "3"
    } else if d == 4 {
        "4"
    } else if d == 5 {
        "5"
    } else if d == 6 {
        "6"
    } else if d == 7 {
        "7"
    } else if d == 8 {
        "8"
    } else {
        "9"
    };
    proof {
        reveal_strlit("0");
        reveal_strlit("1");
        reveal_strlit("2");
        reveal_strlit("3");
        reveal_strlit("4");
        reveal_strlit("5");
        reveal_strlit("6");
        reveal_strlit("7");
        reveal_strlit("8");
        reveal_strlit("9");
        assert(s@ =~= seq![digit_char(d as nat)]);
    }
    String::from_str(s)
}

/// The decimal digit string of an unsigned value.
pub fn u64_string(n: u64) -> (r: String)
    ensures
        r@ == spec_nat_digits(n as nat),
    decreases n,
{
    if n < 10 {
        digit_string(n)
    } else {
        let mut r = u64_string(n / 10);
        let d = digit_string(n % 10);
        r.append(d.as_str());
        r
    }
}

/// The decimal string of a signed value, minus sign included.
pub fn i64_string(v: i64) -> (r: String)
    ensures
        r@ == spec_int_string(v as int),
{
    if v >= 0 {
        u64_string(v as u64)
    } else {
        let mag: u64 = if v == i64::MIN {
            9223372036854775808u64
        } else {
            (-v) as u64
        };
        assert(mag as int == -(v as int));
        let mut r = String::from_str("-");
        let d = u64_string(mag);
        r.append(d.as_str());
        proof {
            reveal_strlit("-");
            assert(r@ =~= seq!['-'] + spec_nat_digits(mag as nat));
        }
        r
    }
}

} // verus!
