//! Decimal rendering of small totals, and the "A or B or C" join used to
//! show every total a hand can be worth.

use vstd::prelude::*;
use vstd::string::StringExecFns;

verus! {

/// The decimal digit characters.
pub open spec fn digit_char(d: int) -> char {
    if d == 0 {
        '0'
    } else if d == 1 {
        '1'
    } else if d == 2 {
        '2'
    } else if d == 3 {
        '3'
    } else if d == 4 {
        '4'
    } else if d == 5 {
        '5'
    } else if d == 6 {
        '6'
    } else if d == 7 {
        '7'
    } else if d == 8 {
        '8'
    } else {
        '9'
    }
}

/// The decimal rendering of a number below 100: one digit, or two.
pub open spec fn dec_str(n: int) -> Seq<char>
    recommends
        0 <= n < 100,
{
    if n < 10 {
        seq![digit_char(n)]
    } else {
        seq![digit_char(n / 10), digit_char(n % 10)]
    }
}

/// The totals joined ascending with " or ": "7 or 17".
pub open spec fn options_str(vals: Seq<u8>) -> Seq<char>
    decreases vals.len(),
{
    if vals.len() == 0 {
        Seq::empty()
    } else if vals.len() == 1 {
        dec_str(vals[0] as int)
    } else {
        options_str(vals.drop_last()) + " or "@ + dec_str(vals.last() as int)
    }
}

/// One decimal digit as a string slice.
fn digit_str(d: u8) -> (r: &'static str)
    requires
        d < 10,
    ensures
        r@ == seq![digit_char(d as int)],
{
    proof {
        reveal_strlit("0");
        reveal_strlit("1");
        reveal_strlit("2");
        reveal_strlit("3");
        reveal_strlit("4");
        reveal_strlit("5");
        reveal_strlit("6");
        reveal_strlit("7");
        reveal_strlit("8");
        reveal_strlit("9");
    }
    let r: &'static str = match d {
        0 => "0",
        1 => "1",
        2 => "2",
        3 => "3",
        4 => "4",
        5 => "5",
        6 => "6",
        7 => "7",
        8 => "8",
        _ => "9",
    };
    proof {
        assert(r@ =~= seq![digit_char(d as int)]);
    }
    r
}

/// Appends the decimal rendering of one total to the string being built.
pub fn append_total(s: &mut String, v: u8)
    requires
        v < 100,
    ensures
        final(s)@ == old(s)@ + dec_str(v as int),
{
    if v >= 10 {
        let tens: u8 = v / 10;
        let ones: u8 = v % 10;
        s.append(digit_str(tens));
        s.append(digit_str(ones));
        proof {
            assert(s@ =~= old(s)@ + dec_str(v as int));
        }
    } else {
        s.append(digit_str(v));
        proof {
            assert(s@ =~= old(s)@ + dec_str(v as int));
        }
    }
}

} // verus!
