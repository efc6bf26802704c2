//! EAPI levels.
use vstd::prelude::*;

use crate::text::{chars_of, decimal, digit_value, is_digit};

verus! {

/// An EAPI (Ebuild API) version, `0` to `9`.
#[derive(Debug, Clone, Copy, PartialEq, Eq, Structural)]
pub enum Eapi {
    Zero,
    One,
    Two,
    Three,
    Four,
    Five,
    Six,
    Seven,
    Eight,
    Nine,
}

/// The number of an EAPI.
pub open spec fn eapi_level(e: Eapi) -> nat {
    match e {
        Eapi::Zero => 0,
        Eapi::One => 1,
        Eapi::Two => 2,
        Eapi::Three => 3,
        Eapi::Four => 4,
        Eapi::Five => 5,
        Eapi::Six => 6,
        Eapi::Seven => 7,
        Eapi::Eight => 8,
        Eapi::Nine => 9,
    }
}

/// The EAPI of a level.
pub open spec fn eapi_of_level(n: nat) -> Eapi {
    if n == 0 {
        Eapi::Zero
    } else if n == 1 {
        Eapi::One
    } else if n == 2 {
        Eapi::Two
    } else if n == 3 {
        Eapi::Three
    } else if n == 4 {
        Eapi::Four
    } else if n == 5 {
        Eapi::Five
    } else if n == 6 {
        Eapi::Six
    } else if n == 7 {
        Eapi::Seven
    } else if n == 8 {
        Eapi::Eight
    } else {
        Eapi::Nine
    }
}

/// The EAPI named by a string: exactly one decimal digit.
pub open spec fn eapi_named(s: Seq<char>) -> Option<Eapi> {
    if s.len() == 1 && is_digit(s[0]) {
        Some(eapi_of_level(digit_value(s[0])))
    } else {
        None
    }
}

/// The name of an EAPI: its level as a decimal digit.
pub open spec fn eapi_name(e: Eapi) -> Seq<char> {
    decimal(eapi_level(e))
}

/// An EAPI's name parses back to that EAPI.
pub proof fn lemma_eapi_name_round_trip(e: Eapi)
    ensures
        eapi_named(eapi_name(e)) == Some(e),
{
}

impl Eapi {
    /// The EAPI named by `s` (`"0"` to `"9"`).
    pub fn parse(s: &str) -> (r: Option<Eapi>)
        ensures
            r == eapi_named(s@),
    {
        let v = chars_of(s);
        if v.len() != 1 || !('0' <= v[0] && v[0] <= '9') {
            return None;
        }
        let c = v[0];
        if c == '0' {
            Some(Eapi::Zero)
        } else if c == '1' {
            Some(Eapi::One)
        } else if c == '2' {
            Some(Eapi::Two)
        } else if c == '3' {
            Some(Eapi::Three)
        } else if c == '4' {
            Some(Eapi::Four)
        } else if c == '5' {
            Some(Eapi::Five)
        } else if c == '6' {
            Some(Eapi::Six)
        } else if c == '7' {
            Some(Eapi::Seven)
        } else if c == '8' {
            Some(Eapi::Eight)
        } else {
            Some(Eapi::Nine)
        }
    }

    /// The number of this EAPI.
    pub fn level(&self) -> (r: u32)
        ensures
            r == eapi_level(*self),
    {
        match self {
            Eapi::Zero => 0,
            Eapi::One => 1,
            Eapi::Two => 2,
            Eapi::Three => 3,
            Eapi::Four => 4,
            Eapi::Five => 5,
            Eapi::Six => 6,
            Eapi::Seven => 7,
            Eapi::Eight => 8,
            Eapi::Nine => 9,
        }
    }

    /// The EAPI's name, `"0"` to `"9"`.
    pub fn as_str(&self) -> (r: &'static str)
        ensures
            r@ == eapi_name(*self),
    {
        match self {
            Eapi::Zero => {
                proof {
                    reveal_strlit("0");
                }
                "0"
            },
            Eapi::One => {
                proof {
                    reveal_strlit("1");
                }
                "1"
            },
            Eapi::Two => {
                proof {
                    reveal_strlit("2");
                }
                "2"
            },
            Eapi::Three => {
                proof {
                    reveal_strlit("3");
                }
                "3"
            },
            Eapi::Four => {
                proof {
                    reveal_strlit("4");
                }
                "4"
            },
            Eapi::Five => {
                proof {
                    reveal_strlit("5");
                }
                "5"
            },
            Eapi::Six => {
                proof {
                    reveal_strlit("6");
                }
                "6"
            },
            Eapi::Seven => {
                proof {
                    reveal_strlit("7");
                }
                "7"
            },
            Eapi::Eight => {
                proof {
                    reveal_strlit("8");
                }
                "8"
            },
            Eapi::Nine => {
                proof {
                    reveal_strlit("9");
                }
                "9"
            },
        }
    }
}

} // verus!
