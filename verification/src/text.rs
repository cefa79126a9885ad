//! Decimal text of integers, for the printed forms of game states.
use vstd::prelude::*;

verus! {

/// The character of decimal digit `d`.
pub open spec fn digit_char(d: nat) -> char {
    (48 + d) as char
}

/// The decimal digits of `n`, without leading zeros (a single `0` for zero).
pub open spec fn natural_chars(n: nat) -> Seq<char>
    decreases n,
{
    if n < 10 {
        seq![digit_char(n)]
    } else {
        natural_chars(n / 10) + seq![digit_char(n % 10)]
    }
}

/// The decimal text of `x`: its digits, after a `-` when it is negative.
pub open spec fn decimal_chars(x: int) -> Seq<char> {
    if x < 0 {
        seq!['-'] + natural_chars((-x) as nat)
    } else {
        natural_chars(x as nat)
    }
}

/// The one-character text of decimal digit `d`.
fn digit_text(d: u8) -> (s: &'static str)
    requires
        d < 10,
    ensures
        s@ == seq![digit_char(d as nat)],
{
    match d {
        0 => {
            proof {
                reveal_strlit("0");
            }
            "0"
        },
        1 => {
            proof {
                reveal_strlit("1");
            }
            "1"
        },
        2 => {
            proof {
                reveal_strlit("2");
            }
            "2"
        },
        3 => {
            proof {
                reveal_strlit("3");
            }
            "3"
        },
        4 => {
            proof {
                reveal_strlit("4");
            }
            "4"
        },
        5 => {
            proof {
                reveal_strlit("5");
            }
            "5"
        },
        6 => {
            proof {
                reveal_strlit("6");
            }
            "6"
        },
        7 => {
            proof {
                reveal_strlit("7");
            }
            "7"
        },
        8 => {
            proof {
                reveal_strlit("8");
            }
            "8"
        },
        _ => {
            proof {
                reveal_strlit("9");
            }
            "9"
        },
    }
}

/// The decimal digits of `n`, without leading zeros.
fn natural_text(n: u128) -> (s: String)
    ensures
        s@ == natural_chars(n as nat),
    decreases n,
{
    if n < 10 {
        String::from_str(digit_text(n as u8))
    } else {
        let mut s = natural_text(n / 10);
        s.append(digit_text((n % 10) as u8));
        s
    }
}

/// The decimal text of `x`: its digits without leading zeros, after a `-`
/// when it is negative (as `to_string` prints std's integers).
pub(crate) fn decimal(x: i128) -> (s: String)
    ensures
        s@ == decimal_chars(x as int),
{
    if x < 0 {
        let m: u128 = (-(x + 1)) as u128 + 1;
        assert(m == -x);
        let mut s = String::from_str("-");
        proof {
            reveal_strlit("-");
        }
        let digits = natural_text(m);
        s.append(digits.as_str());
        s
    } else {
        natural_text(x as u128)
    }
}

} // verus!
