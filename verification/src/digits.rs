//! Exact decimal arithmetic on digit sequences: place values, powers of
//! ten, multiplication of a digit string by a unit multiplier, and the
//! decimal rendering of an integer.

use vstd::prelude::*;
use vstd::arithmetic::div_mod::{
    lemma_fundamental_div_mod,
    lemma_multiply_divide_lt,
};

verus! {

/// Whether a character is a decimal digit.
pub open spec fn is_digit(c: char) -> bool {
    '0' <= c && c <= '9'
}

/// The numeric value of a digit character.
pub open spec fn digit_val(c: char) -> int {
    c as int - '0' as int
}

/// The value of a digit-character string, most significant digit first.
pub open spec fn str_val(s: Seq<char>) -> int
    decreases s.len(),
{
    if s.len() == 0 {
        0
    } else {
        str_val(s.drop_last()) * 10 + digit_val(s.last())
    }
}

/// The value of a digit sequence, most significant digit first.
pub open spec fn val_msb(s: Seq<u8>) -> int
    decreases s.len(),
{
    if s.len() == 0 {
        0
    } else {
        val_msb(s.drop_last()) * 10 + s.last() as int
    }
}

/// The value of a digit sequence, least significant digit first.
pub open spec fn val_lsb(s: Seq<u8>) -> int
    decreases s.len(),
{
    if s.len() == 0 {
        0
    } else {
        s.first() as int + 10 * val_lsb(s.drop_first())
    }
}

/// Ten to the given power.
pub open spec fn pow10(e: nat) -> int
    decreases e,
{
    if e == 0 {
        1
    } else {
        10 * pow10((e - 1) as nat)
    }
}

/// A digit sequence of length `n`, least significant digit first, has a
/// value in `[0, pow10(n))`.
pub proof fn lemma_val_lsb_bounds(s: Seq<u8>)
    requires
        forall|i: int| 0 <= i < s.len() ==> s[i] < 10,
    ensures
        0 <= val_lsb(s) < pow10(s.len()),
    decreases s.len(),
{
    if s.len() == 0 {
    } else {
        lemma_val_lsb_bounds(s.drop_first());
        assert(pow10(s.len()) == 10 * pow10(s.drop_first().len()));
        let v = val_lsb(s.drop_first());
        let p = pow10(s.drop_first().len());
        assert(0 <= s.first() as int + 10 * v < 10 * p) by (nonlinear_arith)
            requires
                0 <= v < p,
                0 <= (s.first() as int) < 10,
        ;
    }
}

/// Splitting a least-significant-first digit sequence at position `k`
/// splits its value at the scale `pow10(k)`.
pub proof fn lemma_val_lsb_split(s: Seq<u8>, k: int)
    requires
        0 <= k <= s.len(),
    ensures
        val_lsb(s) == val_lsb(s.subrange(0, k)) + pow10(k as nat) * val_lsb(
            s.subrange(k, s.len() as int),
        ),
    decreases k,
{
    if k == 0 {
        assert(s.subrange(0, 0) =~= Seq::<u8>::empty());
        assert(s.subrange(0, s.len() as int) =~= s);
        assert(val_lsb(Seq::<u8>::empty()) == 0);
    } else {
        lemma_val_lsb_split(s.drop_first(), k - 1);
        assert(s.subrange(0, k).drop_first() =~= s.drop_first().subrange(0, k - 1));
        assert(s.subrange(k, s.len() as int) =~= s.drop_first().subrange(
            k - 1,
            s.drop_first().len() as int,
        ));
        assert(s.subrange(0, k).len() != 0);
        assert(s.subrange(0, k).first() == s.first());
        let lo = val_lsb(s.drop_first().subrange(0, k - 1));
        let hi = val_lsb(s.subrange(k, s.len() as int));
        let p1 = pow10((k - 1) as nat);
        let f = s.first() as int;
        assert(val_lsb(s.drop_first()) == lo + p1 * hi);
        assert(val_lsb(s) == f + 10 * (lo + p1 * hi));
        assert(pow10(k as nat) == 10 * p1);
        assert(val_lsb(s.subrange(0, k)) == f + 10 * lo);
        assert(f + 10 * (lo + p1 * hi) == (f + 10 * lo) + (10 * p1) * hi) by (nonlinear_arith);
    }
}

/// Prepending a digit to a most-significant-first sequence adds it at the
/// scale of the sequence's length.
pub proof fn lemma_val_msb_prepend(s: Seq<u8>)
    requires
        s.len() > 0,
    ensures
        val_msb(s) == s.first() as int * pow10((s.len() - 1) as nat) + val_msb(s.drop_first()),
    decreases s.len(),
{
    if s.len() == 1 {
        assert(s.drop_last() =~= Seq::<u8>::empty());
        assert(s.drop_first() =~= Seq::<u8>::empty());
        assert(val_msb(Seq::<u8>::empty()) == 0);
        assert(pow10(0) == 1);
    } else {
        lemma_val_msb_prepend(s.drop_last());
        assert(s.drop_last().drop_first() =~= s.drop_first().drop_last());
        assert(s.drop_last().first() == s.first());
        assert(s.drop_first().last() == s.last());
        let e = (s.len() - 2) as nat;
        let rest = val_msb(s.drop_first().drop_last());
        let f = s.first() as int;
        assert(val_msb(s.drop_last()) == f * pow10(e) + rest);
        assert(val_msb(s) == (f * pow10(e) + rest) * 10 + s.last() as int);
        assert(pow10((s.len() - 1) as nat) == 10 * pow10(e));
        assert((f * pow10(e) + rest) * 10 == f * (10 * pow10(e)) + rest * 10) by (nonlinear_arith);
        assert(val_msb(s.drop_first()) == rest * 10 + s.last() as int);
    }
}

/// A most-significant-first digit sequence mirrors the value of the
/// digit-character string it was read from.
pub proof fn lemma_val_msb_of_chars(ds: Seq<u8>, cs: Seq<char>)
    requires
        ds.len() == cs.len(),
        forall|i: int| 0 <= i < ds.len() ==> ds[i] == digit_val(#[trigger] cs[i]),
    ensures
        val_msb(ds) == str_val(cs),
    decreases ds.len(),
{
    if ds.len() > 0 {
        lemma_val_msb_of_chars(ds.drop_last(), cs.drop_last());
    }
}

/// Multiplies a digit string (most significant digit first) by a unit
/// multiplier, returning the digits of the product least significant first.
pub(crate) fn mul_digits(d: &Vec<u8>, mult: u64) -> (rev: Vec<u8>)
    requires
        forall|i: int| 0 <= i < d@.len() ==> d@[i] < 10,
        1 <= mult <= 100_000_000_000,
    ensures
        forall|i: int| 0 <= i < rev@.len() ==> rev@[i] < 10,
        val_lsb(rev@) == val_msb(d@) * mult,
        rev@.len() >= d@.len(),
{
    let n = d.len();
    let mut rev: Vec<u8> = Vec::new();
    let mut carry: u64 = 0;
    let mut idx: usize = 0;
    proof {
        assert(d@.subrange(n as int, n as int) =~= Seq::<u8>::empty());
        assert(val_msb(Seq::<u8>::empty()) == 0);
    }
    while idx < n
        invariant
            idx <= n,
            n == d@.len(),
            forall|i: int| 0 <= i < d@.len() ==> d@[i] < 10,
            1 <= mult <= 100_000_000_000,
            carry < mult,
            rev@.len() == idx,
            forall|i: int| 0 <= i < rev@.len() ==> rev@[i] < 10,
            val_lsb(rev@) + carry * pow10(idx as nat) == val_msb(
                d@.subrange(n - idx, n as int),
            ) * mult,
        decreases n - idx,
    {
        let ghost prev = rev@;
        let ghost prev_suffix = d@.subrange(n - idx, n as int);
        let pos = n - 1 - idx;
        let dv = d[pos];
        proof {
            assert(dv as int * mult as int <= 9 * 100_000_000_000) by (nonlinear_arith)
                requires
                    dv < 10,
                    0 <= mult <= 100_000_000_000,
            ;
        }
        let t: u64 = (dv as u64) * mult + carry;
        rev.push((t % 10) as u8);
        proof {
            let q = t as int / 10;
            let m = t as int % 10;
            lemma_fundamental_div_mod(t as int, 10);
            assert((dv as int * mult as int + carry as int) < 10 * (mult as int))
                by (nonlinear_arith)
                requires
                    dv < 10,
                    0 < mult,
                    carry < mult,
            ;
            lemma_multiply_divide_lt(t as int, 10, mult as int);
            // the new suffix of d gains dv at scale pow10(idx)
            let suffix = d@.subrange(n - idx - 1, n as int);
            assert(suffix.drop_first() =~= prev_suffix);
            assert(suffix.first() == dv);
            lemma_val_msb_prepend(suffix);
            // the new rev gains the digit t % 10 at scale pow10(idx)
            lemma_val_lsb_split(rev@, idx as int);
            assert(rev@.subrange(0, idx as int) =~= prev);
            assert(rev@.subrange(idx as int, rev@.len() as int) =~= seq![(t % 10) as u8]);
            assert(val_lsb(seq![(t % 10) as u8]) == m) by {
                assert(seq![(t % 10) as u8].drop_first() =~= Seq::<u8>::empty());
                assert(val_lsb(Seq::<u8>::empty()) == 0);
                assert(seq![(t % 10) as u8].first() == (t % 10) as u8);
            }
            let p = pow10(idx as nat);
            assert(pow10((idx + 1) as nat) == 10 * p);
            assert(val_lsb(rev@) + q * (10 * p) == (dv as int * p + val_msb(prev_suffix)) * (
            mult as int)) by (nonlinear_arith)
                requires
                    val_lsb(rev@) == val_lsb(prev) + p * m,
                    t as int == 10 * q + m,
                    t as int == dv as int * mult as int + carry as int,
                    val_lsb(prev) + carry as int * p == val_msb(prev_suffix) * (mult as int),
            ;
            assert(val_msb(suffix) == dv as int * p + val_msb(prev_suffix));
        }
        carry = t / 10;
        idx += 1;
    }
    proof {
        assert(d@.subrange(0, n as int) =~= d@);
    }
    while carry > 0
        invariant
            forall|i: int| 0 <= i < rev@.len() ==> rev@[i] < 10,
            rev@.len() >= n,
            val_lsb(rev@) + carry * pow10(rev@.len()) == val_msb(d@) * mult,
        decreases carry,
    {
        let ghost prev = rev@;
        rev.push((carry % 10) as u8);
        proof {
            let q = carry as int / 10;
            let m = carry as int % 10;
            lemma_fundamental_div_mod(carry as int, 10);
            lemma_val_lsb_split(rev@, prev.len() as int);
            assert(rev@.subrange(0, prev.len() as int) =~= prev);
            assert(rev@.subrange(prev.len() as int, rev@.len() as int) =~= seq![
                (carry % 10) as u8,
            ]);
            assert(val_lsb(seq![(carry % 10) as u8]) == m) by {
                assert(seq![(carry % 10) as u8].drop_first() =~= Seq::<u8>::empty());
                assert(val_lsb(Seq::<u8>::empty()) == 0);
                assert(seq![(carry % 10) as u8].first() == (carry % 10) as u8);
            }
            let p = pow10(prev.len());
            assert(pow10(rev@.len()) == 10 * p);
            assert(val_lsb(rev@) + q * (10 * p) == val_lsb(prev) + (carry as int) * p)
                by (nonlinear_arith)
                requires
                    val_lsb(rev@) == val_lsb(prev) + p * m,
                    carry as int == 10 * q + m,
            ;
        }
        carry = carry / 10;
    }
    rev
}

/// The digit character for a value below ten.
pub open spec fn digit_char(d: int) -> char {
    if d == 0 {
        '0'
    } else if d == 1 {
        '1'
    } else if d == 2 {
        '2'
    } else if d == 3 {
        '3'
    } else if d == 4 {
        '4'
    } else if d == 5 {
        '5'
    } else if d == 6 {
        '6'
    } else if d == 7 {
        '7'
    } else if d == 8 {
        '8'
    } else {
        '9'
    }
}

/// The decimal rendering of a natural number, without leading zeros
/// (except for zero itself).
pub open spec fn dec_str(n: nat) -> Seq<char>
    decreases n,
{
    if n < 10 {
        seq![digit_char(n as int)]
    } else {
        dec_str(n / 10).push(digit_char(n as int % 10))
    }
}

/// Every character of a decimal rendering is a digit, the rendering is
/// non-empty, and it reads back to the number it renders.
pub proof fn lemma_dec_str(n: nat)
    ensures
        dec_str(n).len() >= 1,
        forall|i: int| 0 <= i < dec_str(n).len() ==> is_digit(#[trigger] dec_str(n)[i]),
        str_val(dec_str(n)) == n,
    decreases n,
{
    if n < 10 {
        assert(seq![digit_char(n as int)].drop_last() =~= Seq::<char>::empty());
        assert(str_val(Seq::<char>::empty()) == 0);
        assert(digit_val(digit_char(n as int)) == n);
    } else {
        lemma_dec_str(n / 10);
        let s = dec_str(n / 10).push(digit_char(n as int % 10));
        assert(s.drop_last() =~= dec_str(n / 10));
        assert(digit_val(digit_char(n as int % 10)) == n as int % 10);
        lemma_fundamental_div_mod(n as int, 10);
    }
}

/// A number below `pow10(k)` renders in at most `k` digits.
pub proof fn lemma_dec_str_len(n: nat, k: nat)
    requires
        k >= 1,
        n < pow10(k),
    ensures
        dec_str(n).len() <= k,
    decreases n,
{
    if n < 10 {
    } else {
        assert(pow10(1) == 10 * pow10(0));
        assert(pow10(0) == 1);
        if k == 1 {
            assert(false);
        }
        assert(n / 10 < pow10((k - 1) as nat)) by {
            assert(pow10(k) == 10 * pow10((k - 1) as nat));
            lemma_multiply_divide_lt(n as int, 10, pow10((k - 1) as nat));
        }
        lemma_dec_str_len(n / 10, (k - 1) as nat);
    }
}

/// The one-character string for a digit value.
fn digit_str(d: u8) -> (r: &'static str)
    requires
        d < 10,
    ensures
        r@ =~= seq![digit_char(d as int)],
{
    proof {
        reveal_strlit("0");
        reveal_strlit("1");
        reveal_strlit("2");
        reveal_strlit("3");
        reveal_strlit("4");
        reveal_strlit("5");
        reveal_strlit("6");
        reveal_strlit("7");
        reveal_strlit("8");
        reveal_strlit("9");
    }
    match d {
        0 => "0",
        1 => "1",
        2 => "2",
        3 => "3",
        4 => "4",
        5 => "5",
        6 => "6",
        7 => "7",
        8 => "8",
        _ => "9",
    }
}

/// Appends the decimal rendering of `n` to `out`.
pub(crate) fn push_dec(out: &mut String, n: u64)
    ensures
        final(out)@ == old(out)@ + dec_str(n as nat),
    decreases n,
{
    if n < 10 {
        out.append(digit_str(n as u8));
        proof {
            assert(out@ =~= old(out)@ + dec_str(n as nat));
        }
    } else {
        let ghost start = out@;
        push_dec(out, n / 10);
        out.append(digit_str((n % 10) as u8));
        proof {
            assert(out@ =~= start + dec_str(n as nat));
        }
    }
}

} // verus!
