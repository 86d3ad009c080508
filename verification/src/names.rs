//! Reserved-name construction and string helpers.
//!
//! The interpreter keeps a few hidden entries in its variable tables: the
//! loop induction variable `"_' i<line>"`, the channel slot `"_' ch<id>"`,
//! and the end sentinel `"_' end"`.  All of them contain a space, which no
//! user-written name can (names in the source grammar are runs of
//! non-whitespace characters), so they can never collide with user names.

use vstd::prelude::*;

verus! {

/// The decimal digit character for `d` in `0..10`.
pub open spec fn digit_char(d: int) -> char {
    if d == 0 {
        '0'
    } else if d == 1 {
        '1'
    } else if d == 2 {
        '2'
    } else if d == 3 {
        '3'
    } else if d == 4 {
        '4'
    } else if d == 5 {
        '5'
    } else if d == 6 {
        '6'
    } else if d == 7 {
        '7'
    } else if d == 8 {
        '8'
    } else {
        '9'
    }
}

/// Decimal digits of a non-negative number, most significant first.
pub open spec fn dec_digits(n: int) -> Seq<char>
    recommends
        n >= 0,
    decreases n,
{
    if n < 10 {
        seq![digit_char(n)]
    } else {
        dec_digits(n / 10).push(digit_char(n % 10))
    }
}

/// Decimal spelling of a signed number: a `'-'` then the magnitude when negative.
pub open spec fn dec_signed(v: int) -> Seq<char> {
    if v < 0 {
        seq!['-'] + dec_digits(-v)
    } else {
        dec_digits(v)
    }
}

/// The hidden induction-variable name of the counted loop beginning at `line`.
pub open spec fn ind_name(line: int) -> Seq<char> {
    "_' i"@ + dec_digits(line)
}

/// The channel-slot name for channel id `c`.
pub open spec fn chan_name(c: int) -> Seq<char> {
    "_' ch"@ + dec_signed(c)
}

/// Relies on str's `PartialEq` implementation: two string slices compare
/// equal exactly when their character sequences are equal.
#[verifier::external_body]
pub fn str_eq(a: &str, b: &str) -> (r: bool)
    ensures
        r == (a@ == b@),
{
    a == b
}

fn digit_str(d: u64) -> (r: &'static str)
    requires
        d < 10,
    ensures
        r@ == seq![digit_char(d as int)],
{
    if d == 0 {
        proof {
            reveal_strlit("0");
            assert("0"@ =~= seq![digit_char(0)]);
        }
        "0"
    } else if d == 1 {
        proof {
            reveal_strlit("1");
            assert("1"@ =~= seq![digit_char(1)]);
        }
        "1"
    } else if d == 2 {
        proof {
            reveal_strlit("2");
            assert("2"@ =~= seq![digit_char(2)]);
        }
        "2"
    } else if d == 3 {
        proof {
            reveal_strlit("3");
            assert("3"@ =~= seq![digit_char(3)]);
        }
        "3"
    } else if d == 4 {
        proof {
            reveal_strlit("4");
            assert("4"@ =~= seq![digit_char(4)]);
        }
        "4"
    } else if d == 5 {
        proof {
            reveal_strlit("5");
            assert("5"@ =~= seq![digit_char(5)]);
        }
        "5"
    } else if d == 6 {
        proof {
            reveal_strlit("6");
            assert("6"@ =~= seq![digit_char(6)]);
        }
        "6"
    } else if d == 7 {
        proof {
            reveal_strlit("7");
            assert("7"@ =~= seq![digit_char(7)]);
        }
        "7"
    } else if d == 8 {
        proof {
            reveal_strlit("8");
            assert("8"@ =~= seq![digit_char(8)]);
        }
        "8"
    } else {
        proof {
            reveal_strlit("9");
            assert("9"@ =~= seq![digit_char(9)]);
        }
        "9"
    }
}

/// The decimal spelling of `n`.
pub fn dec_string_u64(n: u64) -> (r: String)
    ensures
        r@ == dec_digits(n as int),
    decreases n,
{
    if n < 10 {
        String::from_str(digit_str(n))
    } else {
        let mut s = dec_string_u64(n / 10);
        let d = digit_str(n % 10);
        s.append(d);
        proof {
            assert(dec_digits((n / 10) as int) + d@ =~= dec_digits(n as int));
        }
        s
    }
}

/// The decimal spelling of `v`, with a leading `'-'` when it is negative.
pub fn dec_string_i64(v: i64) -> (r: String)
    ensures
        r@ == dec_signed(v as int),
{
    if v >= 0 {
        dec_string_u64(v as u64)
    } else {
        let mag: u64 = if v == i64::MIN {
            9223372036854775808u64
        } else {
            (-v) as u64
        };
        let mut s = String::from_str("-");
        let tail = dec_string_u64(mag);
        s.append(tail.as_str());
        proof {
            reveal_strlit("-");
            assert("-"@ =~= seq!['-']);
            assert(seq!['-'] + dec_digits(mag as int) =~= dec_signed(v as int));
        }
        s
    }
}

/// The induction-variable name `"_' i<line>"`.
pub fn ind_name_string(line: usize) -> (r: String)
    ensures
        r@ == ind_name(line as int),
{
    let mut s = String::from_str("_' i");
    let tail = dec_string_u64(line as u64);
    s.append(tail.as_str());
    s
}

/// The channel-slot name `"_' ch<c>"`.
pub fn chan_name_string(c: i64) -> (r: String)
    ensures
        r@ == chan_name(c as int),
{
    let mut s = String::from_str("_' ch");
    let tail = dec_string_i64(c);
    s.append(tail.as_str());
    s
}

} // verus!
