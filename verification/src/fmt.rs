//! Formatting of signed millisecond counts as compact (`"2h"`) or verbose
//! (`"2 hours"`) duration strings, with round-half-away-from-zero
//! semantics matching the parser.

use vstd::prelude::*;
use vstd::arithmetic::div_mod::{lemma_fundamental_div_mod, lemma_fundamental_div_mod_converse};
use crate::digits::{dec_str, push_dec};
use crate::units::{
    chosen_unit, unit_ms, unit_name, unit_suffix, MS_PER_DAY, MS_PER_HOUR, MS_PER_MINUTE,
    MS_PER_MONTH, MS_PER_SECOND, MS_PER_WEEK, MS_PER_YEAR,
};
use crate::Options;

verus! {

/// The absolute value of an integer.
pub open spec fn abs_val(v: int) -> int {
    if v < 0 {
        -v
    } else {
        v
    }
}

/// `a / m` rounded half up, for a non-negative `a`.
pub open spec fn div_round_half(a: int, m: int) -> int {
    a / m + if 2 * (a % m) >= m {
        1int
    } else {
        0int
    }
}

/// `ms / m` rounded half away from zero: the magnitude is rounded half
/// up, and the sign of `ms` is preserved.
pub open spec fn signed_round(ms: int, m: int) -> int {
    if ms < 0 {
        -div_round_half(-ms, m)
    } else {
        div_round_half(ms, m)
    }
}

/// The decimal rendering of a signed integer.
pub open spec fn int_str(v: int) -> Seq<char> {
    if v < 0 {
        seq!['-'] + dec_str((-v) as nat)
    } else {
        dec_str(v as nat)
    }
}

/// Whether formatting options select the verbose form.
pub open spec fn opt_long(options: Option<Options>) -> bool {
    match options {
        Some(o) => o.long,
        None => false,
    }
}

/// The rendering of a millisecond count.
///
/// The unit is the largest one whose multiplier the absolute value
/// reaches; below one second the raw count is rendered unrounded with the
/// `ms` suffix. For a selected unit the value is the count divided by the
/// multiplier, rounded half away from zero. The verbose form appends the
/// unit name, pluralized when the absolute count reaches one and a half
/// multipliers.
pub open spec fn spec_format(ms: int, long: bool) -> Seq<char> {
    let a = abs_val(ms);
    let u = chosen_unit(a as nat);
    if u is Millisecond {
        int_str(ms) + if long {
            " ms"@
        } else {
            "ms"@
        }
    } else {
        let q = signed_round(ms, unit_ms(u) as int);
        if long {
            int_str(q) + " "@ + unit_name(u) + if 2 * a >= 3 * unit_ms(u) {
                "s"@
            } else {
                Seq::<char>::empty()
            }
        } else {
            int_str(q) + unit_suffix(u)
        }
    }
}

/// The absolute value of a millisecond count, as an unsigned integer.
fn abs_u64(ms: i64) -> (a: u64)
    ensures
        a as int == abs_val(ms as int),
{
    if ms >= 0 {
        ms as u64
    } else {
        (-(ms as i128)) as u64
    }
}

/// Divides a magnitude by a unit multiplier, rounding half up.
fn rounded_div(a: u64, m: u64) -> (q: u64)
    requires
        a <= 9223372036854775808,
        2 <= m <= 100_000_000_000,
        m % 2 == 0,
    ensures
        q as int == div_round_half(a as int, m as int),
        a >= m ==> q >= 1,
{
    let h = m / 2;
    let q = (a + h) / m;
    proof {
        let ai = a as int;
        let mi = m as int;
        let hi = h as int;
        lemma_fundamental_div_mod(mi, 2);
        assert(mi == 2 * hi);
        lemma_fundamental_div_mod(ai, mi);
        let q0 = ai / mi;
        let r0 = ai % mi;
        if r0 < hi {
            lemma_fundamental_div_mod_converse(ai + hi, mi, q0, r0 + hi);
        } else {
            assert((q0 + 1) * mi == q0 * mi + mi) by (nonlinear_arith);
            lemma_fundamental_div_mod_converse(ai + hi, mi, q0 + 1, r0 + hi - mi);
        }
        if ai >= mi {
            assert(q0 >= 1) by (nonlinear_arith)
                requires
                    ai == q0 * mi + r0,
                    0 <= r0 < mi,
                    ai >= mi,
                    mi > 0,
            ;
        }
    }
    q
}

/// Renders an optional sign, a magnitude, and a fixed tail.
fn render(neg: bool, q: u64, tail: &str) -> (out: String)
    requires
        neg ==> q >= 1,
    ensures
        out@ == int_str(
            if neg {
                -(q as int)
            } else {
                q as int
            },
        ) + tail@,
{
    let mut out = String::new();
    if neg {
        out.append("-");
        proof {
            reveal_strlit("-");
            assert("-"@ =~= seq!['-']);
        }
    }
    push_dec(&mut out, q);
    out.append(tail);
    proof {
        if neg {
            assert(out@ =~= (seq!['-'] + dec_str(q as nat)) + tail@);
        } else {
            assert(out@ =~= dec_str(q as nat) + tail@);
        }
    }
    out
}

/// Renders a count in a selected unit verbosely: the rounded value, a
/// space, the unit name, and a plural `s` when the absolute count reaches
/// one and a half multipliers.
fn plural(neg: bool, a: u64, m: u64, name: &str) -> (out: String)
    requires
        a <= 9223372036854775808,
        2 <= m <= 100_000_000_000,
        m % 2 == 0,
        a >= m,
    ensures
        out@ == int_str(
            if neg {
                -div_round_half(a as int, m as int)
            } else {
                div_round_half(a as int, m as int)
            },
        ) + " "@ + name@ + if 2 * (a as int) >= 3 * (m as int) {
            "s"@
        } else {
            Seq::<char>::empty()
        },
{
    let q = rounded_div(a, m);
    let is_plural = (a as u128) * 2 >= (m as u128) * 3;
    let mut out = String::new();
    if neg {
        out.append("-");
        proof {
            reveal_strlit("-");
            assert("-"@ =~= seq!['-']);
        }
    }
    push_dec(&mut out, q);
    out.append(" ");
    out.append(name);
    if is_plural {
        out.append("s");
    }
    proof {
        let base = int_str(
            if neg {
                -(q as int)
            } else {
                q as int
            },
        ) + " "@ + name@;
        if is_plural {
            assert(out@ =~= base + "s"@);
        } else {
            assert(out@ =~= base + Seq::<char>::empty());
        }
    }
    out
}

/// Compact rendering of a millisecond count.
pub(crate) fn fmt_short(ms: i64) -> (out: String)
    ensures
        out@ == spec_format(ms as int, false),
{
    let a = abs_u64(ms);
    let neg = ms < 0;
    if a >= MS_PER_YEAR {
        render(neg, rounded_div(a, MS_PER_YEAR), "y")
    } else if a >= MS_PER_MONTH {
        render(neg, rounded_div(a, MS_PER_MONTH), "mo")
    } else if a >= MS_PER_WEEK {
        render(neg, rounded_div(a, MS_PER_WEEK), "w")
    } else if a >= MS_PER_DAY {
        render(neg, rounded_div(a, MS_PER_DAY), "d")
    } else if a >= MS_PER_HOUR {
        render(neg, rounded_div(a, MS_PER_HOUR), "h")
    } else if a >= MS_PER_MINUTE {
        render(neg, rounded_div(a, MS_PER_MINUTE), "m")
    } else if a >= MS_PER_SECOND {
        render(neg, rounded_div(a, MS_PER_SECOND), "s")
    } else {
        render(neg, a, "ms")
    }
}

/// Verbose rendering of a millisecond count.
pub(crate) fn fmt_long(ms: i64) -> (out: String)
    ensures
        out@ == spec_format(ms as int, true),
{
    let a = abs_u64(ms);
    let neg = ms < 0;
    if a >= MS_PER_YEAR {
        plural(neg, a, MS_PER_YEAR, "year")
    } else if a >= MS_PER_MONTH {
        plural(neg, a, MS_PER_MONTH, "month")
    } else if a >= MS_PER_WEEK {
        plural(neg, a, MS_PER_WEEK, "week")
    } else if a >= MS_PER_DAY {
        plural(neg, a, MS_PER_DAY, "day")
    } else if a >= MS_PER_HOUR {
        plural(neg, a, MS_PER_HOUR, "hour")
    } else if a >= MS_PER_MINUTE {
        plural(neg, a, MS_PER_MINUTE, "minute")
    } else if a >= MS_PER_SECOND {
        plural(neg, a, MS_PER_SECOND, "second")
    } else {
        render(neg, a, " ms")
    }
}

} // verus!
