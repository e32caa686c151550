//! Rendering numbers as roman numerals (with the mediaeval extensions
//! for four, five, nine and ten thousand) and as distances in metric
//! units, by the same greedy scheme: take the largest table entry that
//! fits, emit its text, continue with what is left.

use vstd::prelude::*;

verus! {

use crate::text::{dec_str, decimal_string};
use vstd::string::StrSliceExecFns;
use vstd::string::StringExecFns;

/// The greedy step for `i >= 1`: the value consumed and the text
/// emitted, from the largest numeral that is at most `i`.
pub open spec fn roman_step(i: int) -> (int, Seq<char>) {
    if i >= 10000 {
        (10000, "ↂ"@)
    } else if i >= 9000 {
        (9000, "ↁↂ"@)
    } else if i >= 5000 {
        (5000, "ↁ"@)
    } else if i >= 4000 {
        (4000, "Mↁ"@)
    } else if i >= 1000 {
        (1000, "M"@)
    } else if i >= 900 {
        (900, "CM"@)
    } else if i >= 500 {
        (500, "D"@)
    } else if i >= 400 {
        (400, "CD"@)
    } else if i >= 100 {
        (100, "C"@)
    } else if i >= 90 {
        (90, "XC"@)
    } else if i >= 50 {
        (50, "L"@)
    } else if i >= 40 {
        (40, "XL"@)
    } else if i >= 10 {
        (10, "X"@)
    } else if i >= 9 {
        (9, "IX"@)
    } else if i >= 5 {
        (5, "V"@)
    } else if i >= 4 {
        (4, "IV"@)
    } else {
        (1, "I"@)
    }
}

/// The roman numeral for `i`, greedily assembled; empty for zero.
pub open spec fn roman_spec(i: int) -> Seq<char>
    decreases i,
{
    if i <= 0 {
        Seq::empty()
    } else {
        roman_step(i).1 + roman_spec(i - roman_step(i).0)
    }
}

/// One greedy step: the remainder and the emitted numeral, or nothing
/// once `i` is exhausted.
pub fn roman_impl(i: u32) -> (r: Option<(u32, String)>)
    ensures
        match r {
            Some(p) => i > 0 && p.0 == i - roman_step(i as int).0 && p.1@ == roman_step(
                i as int,
            ).1,
            None => i == 0,
        },
{
    if i == 0 {
        None
    } else if i >= 10000 {
        Some((i - 10000, "ↂ".to_owned()))
    } else if i >= 9000 {
        Some((i - 9000, "ↁↂ".to_owned()))
    } else if i >= 5000 {
        Some((i - 5000, "ↁ".to_owned()))
    } else if i >= 4000 {
        Some((i - 4000, "Mↁ".to_owned()))
    } else if i >= 1000 {
        Some((i - 1000, "M".to_owned()))
    } else if i >= 900 {
        Some((i - 900, "CM".to_owned()))
    } else if i >= 500 {
        Some((i - 500, "D".to_owned()))
    } else if i >= 400 {
        Some((i - 400, "CD".to_owned()))
    } else if i >= 100 {
        Some((i - 100, "C".to_owned()))
    } else if i >= 90 {
        Some((i - 90, "XC".to_owned()))
    } else if i >= 50 {
        Some((i - 50, "L".to_owned()))
    } else if i >= 40 {
        Some((i - 40, "XL".to_owned()))
    } else if i >= 10 {
        Some((i - 10, "X".to_owned()))
    } else if i >= 9 {
        Some((i - 9, "IX".to_owned()))
    } else if i >= 5 {
        Some((i - 5, "V".to_owned()))
    } else if i >= 4 {
        Some((i - 4, "IV".to_owned()))
    } else {
        Some((i - 1, "I".to_owned()))
    }
}

/// The roman numeral for `i`; zero renders as `ø`.
pub fn to_roman(i: u32) -> (r: String)
    ensures
        r@ == (if i == 0 {
            "ø"@
        } else {
            roman_spec(i as int)
        }),
{
    if i == 0 {
        return "ø".to_owned();
    }
    let mut s = String::new();
    let mut m: u32 = i;
    proof {
        assert(s@ + roman_spec(m as int) =~= roman_spec(i as int));
    }
    while m > 0
        invariant
            roman_spec(i as int) == s@ + roman_spec(m as int),
        decreases m,
    {
        let ghost s_before = s@;
        match roman_impl(m) {
            Some(step) => {
                s.append(step.1.as_str());
                proof {
                    assert((s_before + roman_step(m as int).1) + roman_spec(
                        m as int - roman_step(m as int).0,
                    ) =~= s_before + (roman_step(m as int).1 + roman_spec(
                        m as int - roman_step(m as int).0,
                    )));
                }
                m = step.0;
            },
            None => {
                proof {
                    assert(false);
                }
            },
        }
    }
    proof {
        assert(s@ + Seq::<char>::empty() =~= s@);
    }
    s
}

/// The greedy step for a distance: the metric unit consumed and its
/// suffix.
pub open spec fn dist_step(i: int) -> (int, Seq<char>) {
    if i >= 1000000 {
        (1000000, "km"@)
    } else if i >= 1000 {
        (1000, "m"@)
    } else if i >= 10 {
        (10, "cm"@)
    } else {
        (1, "mm"@)
    }
}

/// `i` millimetres in metric units, largest first, separated by single
/// spaces; empty for zero.
pub open spec fn dist_spec(i: int) -> Seq<char>
    decreases i,
{
    if i <= 0 {
        Seq::empty()
    } else {
        dec_str(i / dist_step(i).0) + dist_step(i).1 + (if i % dist_step(i).0 > 0 {
            " "@ + dist_spec(i % dist_step(i).0)
        } else {
            Seq::empty()
        })
    }
}

/// One greedy distance step: the remainder and the emitted component,
/// or nothing once `i` is exhausted.
pub fn dist_impl(i: u32) -> (r: Option<(u32, String)>)
    ensures
        match r {
            Some(p) => i > 0 && p.0 == i as int % dist_step(i as int).0 && p.1@ == dec_str(
                i as int / dist_step(i as int).0,
            ) + dist_step(i as int).1,
            None => i == 0,
        },
{
    if i == 0 {
        None
    } else if i >= 1000000 {
        let mut s = decimal_string(i / 1000000);
        s.append("km");
        Some((i % 1000000, s))
    } else if i >= 1000 {
        let mut s = decimal_string(i / 1000);
        s.append("m");
        Some((i % 1000, s))
    } else if i >= 10 {
        let mut s = decimal_string(i / 10);
        s.append("cm");
        Some((i % 10, s))
    } else {
        let mut s = decimal_string(i);
        s.append("mm");
        proof {
            assert(i as int / 1 == i as int);
        }
        Some((i % 1, s))
    }
}

/// `i` millimetres, written in metric units; zero is `0m`.
pub fn with_distance_units(i: u32) -> (r: String)
    ensures
        r@ == (if i == 0 {
            "0m"@
        } else {
            dist_spec(i as int)
        }),
{
    if i == 0 {
        return "0m".to_owned();
    }
    let mut s = String::new();
    let mut m: u32 = i;
    let mut first = true;
    proof {
        assert(s@ + dist_spec(m as int) =~= dist_spec(i as int));
    }
    while m > 0
        invariant
            i > 0,
            dist_spec(i as int) == s@ + (if m > 0 {
                (if first {
                    Seq::<char>::empty()
                } else {
                    " "@
                }) + dist_spec(m as int)
            } else {
                Seq::<char>::empty()
            }),
        decreases m,
    {
        let ghost s_entry = s@;
        let ghost sep: Seq<char> = if first { Seq::empty() } else { " "@ };
        if !first {
            s.append(" ");
        }
        let ghost s_before = s@;
        proof {
            assert(s_before =~= s_entry + sep);
        }
        match dist_impl(m) {
            Some(step) => {
                s.append(step.1.as_str());
                proof {
                    let part = dec_str(m as int / dist_step(m as int).0) + dist_step(m as int).1;
                    let rest = m as int % dist_step(m as int).0;
                    assert(dist_spec(m as int) == part + (if rest > 0 {
                        " "@ + dist_spec(rest)
                    } else {
                        Seq::<char>::empty()
                    }));
                    if rest > 0 {
                        assert(s_entry + (sep + (part + (" "@ + dist_spec(rest)))) =~= (s_entry
                            + sep + part) + (" "@ + dist_spec(rest)));
                    } else {
                        assert(s_entry + (sep + (part + Seq::<char>::empty())) =~= s_entry + sep
                            + part);
                    }
                }
                m = step.0;
                first = false;
            },
            None => {
                proof {
                    assert(false);
                }
            },
        }
    }
    s
}

} // verus!
