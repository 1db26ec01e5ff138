//! Library-wide laws, stated and proved over the specification functions
//! that the public contracts use.

use vstd::prelude::*;
use vstd::arithmetic::div_mod::{lemma_fundamental_div_mod, lemma_fundamental_div_mod_converse};
use crate::digits::{dec_str, is_digit, lemma_dec_str, lemma_dec_str_len, pow10, str_val};
use crate::fmt::{abs_val, div_round_half, int_str, opt_long, signed_round, spec_format};
use crate::parse::{
    clamp_to_i64, len_ok, parse_mag, parse_ok, parse_val, round_half_up, unit_known,
};
use crate::scan::{
    digit_seq, frac_end, frac_len, frac_start, has_dot, int_end, is_letter, is_space,
    lemma_digits_end, lemma_digits_end_run, lemma_scan_equiv, lemma_scan_shift,
    lemma_spaces_end, negative, num_ok, shape_ok, sign_len, token, unit_ok, unit_start,
};
use crate::units::{
    case_equiv, chosen_unit, lemma_suffix_resolves, lemma_unit_of_token_equiv, unit_ms,
    unit_name, unit_of_token, unit_rank, unit_suffix, Unit, MS_PER_SECOND,
};
use crate::Options;

verus! {

/// Unit selection is monotonic: the formatter's unit is the unique
/// largest unit whose multiplier the magnitude reaches, and milliseconds
/// are chosen exactly below one second.
pub proof fn lemma_unit_selection(abs: nat)
    ensures
        chosen_unit(abs) is Millisecond <==> abs < MS_PER_SECOND,
        !(chosen_unit(abs) is Millisecond) ==> unit_ms(chosen_unit(abs)) <= abs,
        forall|v: Unit| unit_rank(v) > unit_rank(chosen_unit(abs)) ==> unit_ms(v) > abs,
        forall|v: Unit|
            !(v is Millisecond) && unit_ms(v) <= abs ==> unit_rank(v) <= unit_rank(
                chosen_unit(abs),
            ),
{
}

/// Passing no options formats exactly as passing the default options.
pub proof fn lemma_format_default_options(ms: int)
    ensures
        spec_format(ms, opt_long(None)) == spec_format(
            ms,
            opt_long(Some(Options { long: false })),
        ),
{
}

/// Formatting a negated count prepends a minus sign: for positive `ms`,
/// the rendering of `-ms` is `-` followed by the rendering of `ms`, in
/// both compact and verbose form.
pub proof fn lemma_format_sign_symmetry(ms: int, long: bool)
    requires
        ms > 0,
    ensures
        spec_format(-ms, long) == seq!['-'] + spec_format(ms, long),
{
    let a = abs_val(ms);
    let u = chosen_unit(a as nat);
    assert(abs_val(-ms) == a);
    if u is Millisecond {
        let tail = if long {
            " ms"@
        } else {
            "ms"@
        };
        assert(int_str(-ms) == seq!['-'] + dec_str(ms as nat));
        assert((seq!['-'] + dec_str(ms as nat)) + tail =~= seq!['-'] + (dec_str(ms as nat)
            + tail));
    } else {
        let m = unit_ms(u) as int;
        let q = div_round_half(ms, m);
        assert(m <= a);
        lemma_fundamental_div_mod(ms, m);
        let q0 = ms / m;
        let r0 = ms % m;
        assert(q0 >= 1) by (nonlinear_arith)
            requires
                ms == q0 * m + r0,
                0 <= r0 < m,
                ms >= m,
                m > 0,
        ;
        assert(q >= 1);
        assert(signed_round(-ms, m) == -q);
        assert(signed_round(ms, m) == q);
        assert(int_str(-q) == seq!['-'] + dec_str(q as nat));
        if long {
            let name = unit_name(u);
            let s_tail = if 2 * a >= 3 * unit_ms(u) {
                "s"@
            } else {
                Seq::<char>::empty()
            };
            assert(((seq!['-'] + dec_str(q as nat)) + " "@ + name + s_tail) =~= seq!['-'] + (
            dec_str(q as nat) + " "@ + name + s_tail));
        } else {
            let sfx = unit_suffix(u);
            assert((seq!['-'] + dec_str(q as nat)) + sfx =~= seq!['-'] + (dec_str(q as nat)
                + sfx));
        }
    }
}

/// Prepending a minus sign to an unsigned duration string negates its
/// parse: the shape, the unit token and the magnitude are unchanged, and
/// the value flips its sign.
pub proof fn lemma_parse_sign_symmetry(t: Seq<char>)
    requires
        t.len() > 0,
        t[0] != '-',
    ensures
        shape_ok(seq!['-'] + t) == shape_ok(t),
        token(seq!['-'] + t) == token(t),
        unit_known(seq!['-'] + t) == unit_known(t),
        parse_mag(seq!['-'] + t) == parse_mag(t),
        parse_val(seq!['-'] + t) == -parse_val(t),
        0 <= parse_mag(t) <= i64::MAX ==> clamp_to_i64(parse_val(seq!['-'] + t))
            == -clamp_to_i64(parse_val(t)),
{
    let u = seq!['-'] + t;
    assert(u[0] == '-');
    assert(sign_len(u) == 1);
    assert(sign_len(t) == 0);
    lemma_digits_end(t, 0);
    lemma_scan_shift('-', t, 0);
    assert(int_end(u) == int_end(t) + 1);
    if int_end(t) < t.len() {
        assert(u[int_end(t) + 1] == t[int_end(t)]);
    }
    assert(has_dot(u) == has_dot(t));
    lemma_scan_shift('-', t, frac_start(t));
    assert(frac_start(u) == frac_start(t) + 1);
    assert(frac_end(u) == frac_end(t) + 1);
    lemma_digits_end(t, frac_start(t));
    lemma_spaces_end(t, frac_end(t));
    lemma_scan_shift('-', t, frac_end(t));
    assert(unit_start(u) == unit_start(t) + 1);
    assert(num_ok(u) == num_ok(t));
    assert(frac_len(u) == frac_len(t));
    // the unit token and the digits are untouched by the shift
    if unit_ok(t) {
        assert forall|j: int| unit_start(u) <= j < u.len() implies is_letter(#[trigger] u[j]) by {
            assert(u[j] == t[j - 1]);
        }
    }
    if unit_ok(u) {
        assert forall|j: int| unit_start(t) <= j < t.len() implies is_letter(#[trigger] t[j]) by {
            assert(t[j] == u[j + 1]);
        }
    }
    assert(unit_ok(u) == unit_ok(t));
    assert(token(u) =~= token(t));
    assert(digit_seq(u) =~= digit_seq(t));
    assert(negative(u));
    assert(!negative(t));
}

/// Parsing is case-insensitive: two inputs of the same length whose
/// characters agree up to letter case are both accepted or both rejected,
/// and parse to the same value.
pub proof fn lemma_parse_case_insensitive(t1: Seq<char>, t2: Seq<char>)
    requires
        t1.len() == t2.len(),
        forall|i: int| 0 <= i < t1.len() ==> case_equiv(#[trigger] t1[i], t2[i]),
    ensures
        len_ok(t1) == len_ok(t2),
        shape_ok(t1) == shape_ok(t2),
        unit_known(t1) == unit_known(t2),
        parse_ok(t1) == parse_ok(t2),
        parse_val(t1) == parse_val(t2),
        clamp_to_i64(parse_val(t1)) == clamp_to_i64(parse_val(t2)),
{
    // case-equivalent characters fall in the same character classes, and
    // differ only when both are letters
    assert forall|j: int| 0 <= j < t1.len() implies is_digit(#[trigger] t1[j]) == is_digit(t2[j])
        && is_space(t1[j]) == is_space(t2[j]) && is_letter(t1[j]) == is_letter(t2[j]) && (t1[j]
        == '-') == (t2[j] == '-') && (t1[j] == '.') == (t2[j] == '.') && (is_digit(t1[j]) ==> t1[j]
        == t2[j]) by {
        assert(case_equiv(t1[j], t2[j]));
    }
    assert(sign_len(t1) == sign_len(t2));
    lemma_digits_end(t1, sign_len(t1));
    lemma_scan_equiv(t1, t2, sign_len(t1));
    assert(int_end(t1) == int_end(t2));
    assert(has_dot(t1) == has_dot(t2));
    lemma_scan_equiv(t1, t2, frac_start(t1));
    assert(frac_end(t1) == frac_end(t2));
    lemma_digits_end(t1, frac_start(t1));
    lemma_spaces_end(t1, frac_end(t1));
    lemma_scan_equiv(t1, t2, frac_end(t1));
    assert(unit_start(t1) == unit_start(t2));
    assert(num_ok(t1) == num_ok(t2));
    if unit_ok(t1) {
        assert forall|j: int| unit_start(t2) <= j < t2.len() implies is_letter(
            #[trigger] t2[j],
        ) by {
            assert(is_letter(t1[j]));
        }
    }
    if unit_ok(t2) {
        assert forall|j: int| unit_start(t1) <= j < t1.len() implies is_letter(
            #[trigger] t1[j],
        ) by {
            assert(is_letter(t2[j]));
        }
    }
    assert(unit_ok(t1) == unit_ok(t2));
    // the digits are identical, so the magnitudes agree
    assert(digit_seq(t1) =~= digit_seq(t2));
    // the tokens are case-equivalent, so they resolve to the same unit
    let k1 = token(t1);
    let k2 = token(t2);
    assert(k1.len() == k2.len());
    assert forall|i: int| 0 <= i < k1.len() implies case_equiv(#[trigger] k1[i], k2[i]) by {
        assert(k1[i] == t1[unit_start(t1) + i]);
        assert(k2[i] == t2[unit_start(t1) + i]);
        assert(case_equiv(t1[unit_start(t1) + i], t2[unit_start(t1) + i]));
    }
    lemma_unit_of_token_equiv(k1, k2);
    assert(negative(t1) == negative(t2));
}

/// A rendered magnitude followed by a unit suffix scans as an unsigned
/// magnitude with that suffix as its unit token.
proof fn lemma_scan_rendered(mag: nat, u: Unit)
    ensures
        ({
            let w = dec_str(mag) + unit_suffix(u);
            &&& shape_ok(w)
            &&& !negative(w)
            &&& token(w) == unit_suffix(u)
            &&& digit_seq(w) == dec_str(mag)
            &&& frac_len(w) == 0
            &&& w.len() == dec_str(mag).len() + unit_suffix(u).len()
            &&& w.len() > 0 && w[0] != '-'
        }),
{
    lemma_dec_str(mag);
    lemma_suffix_resolves(u);
    let dec = dec_str(mag);
    let sfx = unit_suffix(u);
    let w = dec + sfx;
    let dl = dec.len() as int;
    assert(is_digit(w[0]));
    assert(w[0] != '-');
    assert(sign_len(w) == 0);
    // the digit run is exactly the rendered magnitude
    assert forall|j: int| 0 <= j < dl implies is_digit(#[trigger] w[j]) by {
        assert(w[j] == dec[j]);
    }
    assert(w[dl] == sfx[0]);
    assert('a' <= sfx[0] <= 'z');
    assert(!is_digit(w[dl]));
    lemma_digits_end_run(w, 0, dl);
    assert(int_end(w) == dl);
    // the suffix starts with a letter: no dot, no fraction, no space
    assert(!has_dot(w));
    assert(frac_start(w) == dl);
    assert(frac_end(w) == dl);
    assert(!is_space(w[dl]));
    assert(unit_start(w) == dl);
    assert(num_ok(w));
    assert forall|j: int| unit_start(w) <= j < w.len() implies is_letter(#[trigger] w[j]) by {
        assert(w[j] == sfx[j - dl]);
        assert('a' <= sfx[j - dl] <= 'z');
    }
    assert(token(w) =~= sfx);
    assert(digit_seq(w) =~= dec);
}

/// Round trip: a count that is an exact multiple of the unit the
/// formatter selects for it parses back from its compact rendering to
/// exactly the same count. (The multiplier of the millisecond unit is
/// one, so every count below one second round-trips.)
pub proof fn lemma_format_parse_round_trip(ms: i64)
    requires
        ms as int % (unit_ms(chosen_unit(abs_val(ms as int) as nat)) as int) == 0,
    ensures
        parse_ok(spec_format(ms as int, false)),
        clamp_to_i64(parse_val(spec_format(ms as int, false))) == ms,
{
    let msi = ms as int;
    let a = abs_val(msi);
    let u = chosen_unit(a as nat);
    let m = unit_ms(u) as int;
    let neg = msi < 0;
    lemma_suffix_resolves(u);
    let sfx = unit_suffix(u);
    // the rounded quotient is exact, and recomposes to the magnitude
    lemma_fundamental_div_mod(msi, m);
    let q0 = msi / m;
    if neg {
        assert((-q0) * m == -(q0 * m)) by (nonlinear_arith);
        lemma_fundamental_div_mod_converse(a, m, -q0, 0);
    } else {
        lemma_fundamental_div_mod_converse(a, m, q0, 0);
    }
    assert(a % m == 0);
    assert(a == (a / m) * m);
    let mag: int = if u is Millisecond {
        a
    } else {
        a / m
    };
    if u is Millisecond {
        assert(m == 1);
        assert(mag * m == a) by (nonlinear_arith)
            requires
                m == 1,
                mag == a,
        ;
    } else {
        assert(mag * m == a);
    }
    assert(mag >= 0) by (nonlinear_arith)
        requires
            mag * m == a,
            a >= 0,
            m >= 1,
    ;
    assert(mag <= a) by (nonlinear_arith)
        requires
            mag * m == a,
            mag >= 0,
            m >= 1,
    ;
    if !(u is Millisecond) {
        assert(m <= a);
        assert(mag >= 1) by (nonlinear_arith)
            requires
                mag * m == a,
                a >= m,
                m >= 1,
                mag >= 0,
        ;
        assert(div_round_half(a, m) == mag);
        assert(signed_round(msi, m) == if neg {
            -mag
        } else {
            mag
        });
    }
    // the compact rendering is the signed magnitude and the suffix
    let dec = dec_str(mag as nat);
    let w = dec + sfx;
    let t = spec_format(msi, false);
    lemma_scan_rendered(mag as nat, u);
    if neg {
        assert(t =~= seq!['-'] + w);
    } else {
        assert(t =~= w);
    }
    // the rendering scans back to the same magnitude digits and unit
    lemma_dec_str(mag as nat);
    assert(unit_of_token(token(w)) == Some(u));
    assert(str_val(digit_seq(w)) == mag);
    let scaled = mag * m;
    assert(pow10(0) == 1);
    lemma_fundamental_div_mod_converse(scaled, 1, scaled, 0);
    assert(round_half_up(scaled, 0) == scaled);
    assert(parse_mag(w) == a);
    assert(parse_val(w) == a);
    if neg {
        lemma_parse_sign_symmetry(w);
        assert(parse_val(t) == -a);
        assert(parse_val(t) == msi);
        assert(unit_known(t));
        assert(shape_ok(t));
    } else {
        assert(parse_val(t) == msi);
    }
    // the rendering is short, so its length is accepted
    assert(mag < pow10(19)) by {
        reveal_with_fuel(pow10, 20);
    }
    lemma_dec_str_len(mag as nat, 19);
    assert(len_ok(t));
    assert(clamp_to_i64(msi) == ms);
}

} // verus!
