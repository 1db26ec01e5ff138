//! Parsing of duration strings into signed millisecond counts, with exact
//! decimal arithmetic and round-half-away-from-zero semantics.

use vstd::prelude::*;
use vstd::arithmetic::div_mod::lemma_fundamental_div_mod_converse;
use crate::digits::{
    digit_val, is_digit, lemma_val_lsb_bounds, lemma_val_lsb_split, lemma_val_msb_of_chars,
    mul_digits, pow10, str_val, val_lsb,
};
use crate::scan::{
    all_letters, digit_seq, frac_end, frac_len, frac_start, has_dot, int_end, lemma_digits_end,
    negative, scan_digits, scan_spaces, shape_ok, sign_len, token, unit_start,
};
use crate::units::{lookup_multiplier, unit_ms, unit_of_token};

verus! {

/// Half of the range of `i64`: one more than `i64::MAX`, the magnitude of
/// `i64::MIN`.
pub const I64_MAG_CAP: u64 = 9223372036854775808;

/// What parsing rejects, carrying the offending input for diagnostics.
#[derive(Debug, Clone)]
pub enum Error {
    /// The input length is outside 1 to 100 characters.
    InvalidLength { value: String },
    /// The input does not match the duration grammar.
    MalformedInput { value: String },
    /// The magnitude does not denote a number. The grammar admits only
    /// well-formed magnitudes, so parsing never produces this; it is kept
    /// so that callers can match the full taxonomy.
    InvalidNumber { value: String },
    /// The unit token matches no accepted spelling.
    UnknownUnit { unit: String, value: String },
    /// The dispatcher was handed an empty string.
    EmptyInput,
}

/// The input length parsing accepts.
pub open spec fn len_ok(t: Seq<char>) -> bool {
    1 <= t.len() <= 100
}

/// Whether the unit token resolves to a unit.
pub open spec fn unit_known(t: Seq<char>) -> bool {
    unit_of_token(token(t)) is Some
}

/// Parsing succeeds exactly on these inputs.
pub open spec fn parse_ok(t: Seq<char>) -> bool {
    len_ok(t) && shape_ok(t) && unit_known(t)
}

/// `scaled / pow10(f)`, rounded half up: the magnitude of a parsed value,
/// where `scaled` is the magnitude digits times the unit multiplier and
/// `f` counts the fraction digits.
pub open spec fn round_half_up(scaled: int, f: nat) -> int {
    scaled / pow10(f) + if 2 * (scaled % pow10(f)) >= pow10(f) {
        1int
    } else {
        0int
    }
}

/// The magnitude a well-formed input parses to.
pub open spec fn parse_mag(t: Seq<char>) -> int {
    match unit_of_token(token(t)) {
        Some(u) => round_half_up(str_val(digit_seq(t)) * unit_ms(u), frac_len(t) as nat),
        None => 0,
    }
}

/// The signed value a well-formed input parses to, before clamping to the
/// `i64` range.
pub open spec fn parse_val(t: Seq<char>) -> int {
    if negative(t) {
        -parse_mag(t)
    } else {
        parse_mag(t)
    }
}

/// The nearest `i64` to an integer.
pub open spec fn clamp_to_i64(v: int) -> i64 {
    if v > i64::MAX {
        i64::MAX
    } else if v < i64::MIN {
        i64::MIN
    } else {
        v as i64
    }
}

/// Reads the value of the digit run `[from, to)` of `s` into `out`.
fn push_digit_range(s: &str, from: usize, to: usize, out: &mut Vec<u8>)
    requires
        from <= to <= s@.len(),
        forall|j: int| from <= j < to ==> is_digit(#[trigger] s@[j]),
    ensures
        final(out)@.len() == old(out)@.len() + (to - from),
        forall|j: int| 0 <= j < old(out)@.len() ==> final(out)@[j] == old(out)@[j],
        forall|j: int|
            old(out)@.len() <= j < final(out)@.len() ==> final(out)@[j] == digit_val(
                s@[from + j - old(out)@.len()],
            ),
        forall|j: int|
            old(out)@.len() <= j < final(out)@.len() ==> final(out)@[j] < 10,
{
    let mut i = from;
    while i < to
        invariant
            from <= i <= to <= s@.len(),
            forall|j: int| from <= j < to ==> is_digit(#[trigger] s@[j]),
            out@.len() == old(out)@.len() + (i - from),
            forall|j: int| 0 <= j < old(out)@.len() ==> out@[j] == old(out)@[j],
            forall|j: int|
                old(out)@.len() <= j < out@.len() ==> out@[j] == digit_val(
                    s@[from + j - old(out)@.len()],
                ),
            forall|j: int| old(out)@.len() <= j < out@.len() ==> out@[j] < 10,
        decreases to - i,
    {
        let c = s.get_char(i);
        let d: u8 = ((c as u32) - 48) as u8;
        out.push(d);
        i += 1;
    }
}

/// Reads the integer value of the product digits above the fraction part,
/// capped at `I64_MAG_CAP`: below the cap the value is exact, at or above
/// it the cap is returned.
fn accumulate_capped(prod: &Vec<u8>, f: usize) -> (acc: u64)
    requires
        f <= prod@.len(),
        forall|i: int| 0 <= i < prod@.len() ==> prod@[i] < 10,
    ensures
        ({
            let v = val_lsb(prod@.subrange(f as int, prod@.len() as int));
            &&& acc <= I64_MAG_CAP
            &&& (v <= I64_MAG_CAP ==> acc == v)
            &&& (v > I64_MAG_CAP ==> acc == I64_MAG_CAP)
        }),
{
    let m = prod.len();
    let mut acc: u64 = 0;
    let mut k = m;
    proof {
        assert(prod@.subrange(m as int, m as int) =~= Seq::<u8>::empty());
        assert(val_lsb(Seq::<u8>::empty()) == 0);
    }
    while k > f
        invariant
            f <= k <= m,
            m == prod@.len(),
            forall|i: int| 0 <= i < prod@.len() ==> prod@[i] < 10,
            acc <= I64_MAG_CAP,
            ({
                let vk = val_lsb(prod@.subrange(k as int, m as int));
                &&& (vk <= I64_MAG_CAP ==> acc == vk)
                &&& (vk > I64_MAG_CAP ==> acc == I64_MAG_CAP)
            }),
        decreases k,
    {
        k -= 1;
        let ghost vk = val_lsb(prod@.subrange(k + 1, m as int));
        let d = prod[k];
        proof {
            let cur = prod@.subrange(k as int, m as int);
            assert(cur.drop_first() =~= prod@.subrange(k + 1, m as int));
            assert(cur.first() == prod@[k as int]);
            assert(val_lsb(cur) == d as int + 10 * vk);
            lemma_val_lsb_bounds(prod@.subrange(k + 1, m as int));
        }
        if acc >= 922337203685477581 {
            acc = I64_MAG_CAP;
        } else {
            let na = acc * 10 + (d as u64);
            acc = if na > I64_MAG_CAP {
                I64_MAG_CAP
            } else {
                na
            };
        }
    }
    proof {
        assert(prod@.subrange(f as int, m as int) == prod@.subrange(k as int, m as int));
    }
    acc
}

/// Parses a duration string into milliseconds.
///
/// The input must be 1 to 100 characters: an optional minus sign, a
/// decimal magnitude, optional whitespace, and an optional unit token
/// resolved case-insensitively (milliseconds when absent). The result is
/// the magnitude times the unit multiplier, rounded half away from zero
/// to an integer and clamped to the `i64` range.
pub fn parse(s: &str) -> (r: Result<i64, Error>)
    ensures
        match r {
            Ok(v) => parse_ok(s@) && v == clamp_to_i64(parse_val(s@)),
            Err(e) => match e {
                Error::InvalidLength { value } => !len_ok(s@) && value@ == s@,
                Error::MalformedInput { value } => len_ok(s@) && !shape_ok(s@) && value@ == s@,
                Error::UnknownUnit { unit, value } => len_ok(s@) && shape_ok(s@) && !unit_known(
                    s@,
                ) && unit@ == token(s@) && value@ == s@,
                _ => false,
            },
        },
{
    let n = s.unicode_len();
    if n == 0 || n > 100 {
        return Err(Error::InvalidLength { value: s.to_owned() });
    }
    let neg = s.get_char(0) == '-';
    let start: usize = if neg {
        1
    } else {
        0
    };
    let ie = scan_digits(s, start);
    let dot = ie < n && s.get_char(ie) == '.';
    let fs = if dot {
        ie + 1
    } else {
        ie
    };
    let fe = scan_digits(s, fs);
    proof {
        assert(start as int == sign_len(s@));
        assert(ie as int == int_end(s@));
        assert(dot == has_dot(s@));
        assert(fs as int == frac_start(s@));
        assert(fe as int == frac_end(s@));
    }
    let numok = if dot {
        fe > fs
    } else {
        ie > start
    };
    if !numok {
        return Err(Error::MalformedInput { value: s.to_owned() });
    }
    let us = scan_spaces(s, fe);
    proof {
        assert(us as int == unit_start(s@));
    }
    if !all_letters(s, us) {
        return Err(Error::MalformedInput { value: s.to_owned() });
    }
    let tok = s.substring_char(us, n);
    proof {
        assert(tok@ == token(s@));
    }
    let mult = match lookup_multiplier(tok) {
        Some(m) => m,
        None => {
            return Err(Error::UnknownUnit { unit: tok.to_owned(), value: s.to_owned() });
        },
    };
    let ghost u = unit_of_token(token(s@))->Some_0;
    proof {
        assert(mult == unit_ms(u));
        assert(1 <= mult <= 100_000_000_000);
    }
    // collect the magnitude digits, integer part then fraction part
    let mut digits: Vec<u8> = Vec::new();
    proof {
        lemma_digits_end(s@, start as int);
        lemma_digits_end(s@, fs as int);
    }
    push_digit_range(s, start, ie, &mut digits);
    push_digit_range(s, fs, fe, &mut digits);
    let f = fe - fs;
    proof {
        assert(digits@.len() == digit_seq(s@).len());
        assert(forall|j: int|
            0 <= j < digits@.len() ==> digits@[j] == digit_val(#[trigger] digit_seq(s@)[j]));
        lemma_val_msb_of_chars(digits@, digit_seq(s@));
    }
    // scale by the unit multiplier, exactly, in decimal
    let prod = mul_digits(&digits, mult);
    let m = prod.len();
    proof {
        assert(m >= f);
    }
    let acc = accumulate_capped(&prod, f);
    let round_up = f > 0 && prod[f - 1] >= 5;
    proof {
        let scaled = val_lsb(prod@);
        let p = pow10(f as nat);
        let vint = val_lsb(prod@.subrange(f as int, m as int));
        let vfrac = val_lsb(prod@.subrange(0, f as int));
        lemma_val_lsb_split(prod@, f as int);
        lemma_val_lsb_bounds(prod@.subrange(0, f as int));
        lemma_val_lsb_bounds(prod@.subrange(f as int, m as int));
        assert(p * vint == vint * p) by (nonlinear_arith);
        lemma_fundamental_div_mod_converse(scaled, p, vint, vfrac);
        assert(scaled / p == vint);
        assert(scaled % p == vfrac);
        if f == 0 {
            assert(p == 1);
            assert(vfrac == 0);
            assert(!round_up);
            assert(round_half_up(scaled, f as nat) == vint);
        } else {
            // the tie digit decides the rounding: the top fraction digit
            let p1 = pow10((f - 1) as nat);
            let d = prod@[f - 1];
            let low = val_lsb(prod@.subrange(0, f - 1));
            lemma_val_lsb_split(prod@.subrange(0, f as int), f - 1);
            assert(prod@.subrange(0, f as int).subrange(0, f - 1) =~= prod@.subrange(0, f - 1));
            assert(prod@.subrange(0, f as int).subrange(f - 1, f as int) =~= seq![d]);
            assert(val_lsb(seq![d]) == d) by {
                assert(seq![d].drop_first() =~= Seq::<u8>::empty());
                assert(val_lsb(Seq::<u8>::empty()) == 0);
            }
            lemma_val_lsb_bounds(prod@.subrange(0, f - 1));
            assert(p == 10 * p1);
            assert(vfrac == low + p1 * (d as int));
            assert((2 * (low + p1 * (d as int)) >= 10 * p1) == (d >= 5)) by (nonlinear_arith)
                requires
                    0 <= low < p1,
                    0 <= (d as int) <= 9,
            ;
            assert(round_up == (d >= 5));
            assert(round_half_up(scaled, f as nat) == vint + if round_up {
                1int
            } else {
                0int
            });
        }
        assert(parse_mag(s@) == round_half_up(scaled, f as nat));
    }
    let ru: u64 = if round_up {
        1
    } else {
        0
    };
    if neg {
        if acc >= I64_MAG_CAP {
            return Ok(i64::MIN);
        }
        let total = acc + ru;
        if total >= I64_MAG_CAP {
            Ok(i64::MIN)
        } else {
            Ok(-(total as i64))
        }
    } else {
        if acc >= I64_MAG_CAP {
            return Ok(i64::MAX);
        }
        let total = acc + ru;
        if total >= I64_MAG_CAP {
            Ok(i64::MAX)
        } else {
            Ok(total as i64)
        }
    }
}

/// Parses a duration string into milliseconds; identical in behavior to
/// `parse`, kept for interface symmetry with the formatting functions.
pub fn parse_strict(s: &str) -> (r: Result<i64, Error>)
    ensures
        match r {
            Ok(v) => parse_ok(s@) && v == clamp_to_i64(parse_val(s@)),
            Err(e) => match e {
                Error::InvalidLength { value } => !len_ok(s@) && value@ == s@,
                Error::MalformedInput { value } => len_ok(s@) && !shape_ok(s@) && value@ == s@,
                Error::UnknownUnit { unit, value } => len_ok(s@) && shape_ok(s@) && !unit_known(
                    s@,
                ) && unit@ == token(s@) && value@ == s@,
                _ => false,
            },
        },
{
    parse(s)
}

} // verus!
