//! The duration-string grammar: an optional sign, a decimal magnitude,
//! optional whitespace, and an optional unit token of letters, anchored to
//! the whole input. The scanning functions are defined over the character
//! view and mirrored by executable scanners.

use vstd::prelude::*;
use crate::digits::is_digit;

verus! {

/// Whether a character is whitespace between the magnitude and the unit:
/// the ASCII whitespace characters and the Unicode space separators.
pub open spec fn is_space(c: char) -> bool {
    c == ' ' || c == '\t' || c == '\n' || c == '\r' || c == '\u{b}' || c == '\u{c}'
        || c == '\u{85}' || c == '\u{a0}' || c == '\u{1680}' || ('\u{2000}' <= c && c
        <= '\u{200a}') || c == '\u{2028}' || c == '\u{2029}' || c == '\u{202f}' || c == '\u{205f}'
        || c == '\u{3000}'
}

/// Whether a character may appear in a unit token.
pub open spec fn is_letter(c: char) -> bool {
    ('a' <= c && c <= 'z') || ('A' <= c && c <= 'Z')
}

/// The first position at or after `i` that does not hold a digit.
pub open spec fn digits_end(t: Seq<char>, i: int) -> int
    decreases t.len() - i,
{
    if 0 <= i < t.len() && is_digit(t[i]) {
        digits_end(t, i + 1)
    } else {
        i
    }
}

/// The first position at or after `i` that does not hold whitespace.
pub open spec fn spaces_end(t: Seq<char>, i: int) -> int
    decreases t.len() - i,
{
    if 0 <= i < t.len() && is_space(t[i]) {
        spaces_end(t, i + 1)
    } else {
        i
    }
}

/// A digit run ends within the string, covers only digits, and stops at a
/// non-digit.
pub proof fn lemma_digits_end(t: Seq<char>, i: int)
    requires
        0 <= i <= t.len(),
    ensures
        i <= digits_end(t, i) <= t.len(),
        forall|j: int| i <= j < digits_end(t, i) ==> is_digit(#[trigger] t[j]),
        digits_end(t, i) < t.len() ==> !is_digit(t[digits_end(t, i)]),
    decreases t.len() - i,
{
    if i < t.len() && is_digit(t[i]) {
        lemma_digits_end(t, i + 1);
    }
}

/// A whitespace run ends within the string, covers only whitespace, and
/// stops at a non-whitespace character.
pub proof fn lemma_spaces_end(t: Seq<char>, i: int)
    requires
        0 <= i <= t.len(),
    ensures
        i <= spaces_end(t, i) <= t.len(),
        forall|j: int| i <= j < spaces_end(t, i) ==> is_space(#[trigger] t[j]),
        spaces_end(t, i) < t.len() ==> !is_space(t[spaces_end(t, i)]),
    decreases t.len() - i,
{
    if i < t.len() && is_space(t[i]) {
        lemma_spaces_end(t, i + 1);
    }
}

/// Length of the optional leading minus sign.
pub open spec fn sign_len(t: Seq<char>) -> int {
    if t.len() > 0 && t[0] == '-' {
        1
    } else {
        0
    }
}

/// Whether the magnitude is negated.
pub open spec fn negative(t: Seq<char>) -> bool {
    sign_len(t) == 1
}

/// End of the integer-part digit run.
pub open spec fn int_end(t: Seq<char>) -> int {
    digits_end(t, sign_len(t))
}

/// Whether a decimal point follows the integer part.
pub open spec fn has_dot(t: Seq<char>) -> bool {
    int_end(t) < t.len() && t[int_end(t)] == '.'
}

/// Start of the fraction-part digit run.
pub open spec fn frac_start(t: Seq<char>) -> int {
    if has_dot(t) {
        int_end(t) + 1
    } else {
        int_end(t)
    }
}

/// End of the fraction-part digit run.
pub open spec fn frac_end(t: Seq<char>) -> int {
    digits_end(t, frac_start(t))
}

/// Start of the unit token, after any whitespace.
pub open spec fn unit_start(t: Seq<char>) -> int {
    spaces_end(t, frac_end(t))
}

/// The magnitude is well formed: a fraction part after a decimal point,
/// an integer part otherwise.
pub open spec fn num_ok(t: Seq<char>) -> bool {
    if has_dot(t) {
        frac_end(t) > frac_start(t)
    } else {
        int_end(t) > sign_len(t)
    }
}

/// Everything after the whitespace is a letter of a unit token.
pub open spec fn unit_ok(t: Seq<char>) -> bool {
    forall|j: int| unit_start(t) <= j < t.len() ==> is_letter(#[trigger] t[j])
}

/// The whole string matches the grammar.
pub open spec fn shape_ok(t: Seq<char>) -> bool {
    num_ok(t) && unit_ok(t)
}

/// The unit token: the letters after the whitespace, possibly empty.
pub open spec fn token(t: Seq<char>) -> Seq<char> {
    t.subrange(unit_start(t), t.len() as int)
}

/// The digits of the magnitude, integer part then fraction part, with the
/// decimal point removed.
pub open spec fn digit_seq(t: Seq<char>) -> Seq<char> {
    t.subrange(sign_len(t), int_end(t)) + t.subrange(frac_start(t), frac_end(t))
}

/// The number of fraction digits.
pub open spec fn frac_len(t: Seq<char>) -> int {
    frac_end(t) - frac_start(t)
}

/// A run of digits from `i` to `e`, followed by the end of the string or
/// a non-digit, scans to exactly `e`.
pub proof fn lemma_digits_end_run(t: Seq<char>, i: int, e: int)
    requires
        0 <= i <= e <= t.len(),
        forall|j: int| i <= j < e ==> is_digit(#[trigger] t[j]),
        e < t.len() ==> !is_digit(t[e]),
    ensures
        digits_end(t, i) == e,
    decreases e - i,
{
    if i < e {
        lemma_digits_end_run(t, i + 1, e);
    }
}

/// Prepending one character shifts every scan position by one.
pub proof fn lemma_scan_shift(c: char, t: Seq<char>, i: int)
    requires
        0 <= i <= t.len(),
    ensures
        digits_end(seq![c] + t, i + 1) == digits_end(t, i) + 1,
        spaces_end(seq![c] + t, i + 1) == spaces_end(t, i) + 1,
    decreases t.len() - i,
{
    let u = seq![c] + t;
    if i < t.len() {
        assert(u[i + 1] == t[i]);
        lemma_scan_shift(c, t, i + 1);
    }
}

/// Two strings whose characters agree on the digit and whitespace
/// classes scan to the same positions.
pub proof fn lemma_scan_equiv(t1: Seq<char>, t2: Seq<char>, i: int)
    requires
        t1.len() == t2.len(),
        forall|j: int| 0 <= j < t1.len() ==> is_digit(#[trigger] t1[j]) == is_digit(t2[j]),
        forall|j: int| 0 <= j < t1.len() ==> is_space(#[trigger] t1[j]) == is_space(t2[j]),
        0 <= i <= t1.len(),
    ensures
        digits_end(t1, i) == digits_end(t2, i),
        spaces_end(t1, i) == spaces_end(t2, i),
    decreases t1.len() - i,
{
    if i < t1.len() {
        lemma_scan_equiv(t1, t2, i + 1);
    }
}

/// Whether a character is a decimal digit.
pub(crate) fn digit_c(c: char) -> (r: bool)
    ensures
        r == is_digit(c),
{
    '0' <= c && c <= '9'
}

/// Whether a character is whitespace.
fn space_c(c: char) -> (r: bool)
    ensures
        r == is_space(c),
{
    c == ' ' || c == '\t' || c == '\n' || c == '\r' || c == '\u{b}' || c == '\u{c}'
        || c == '\u{85}' || c == '\u{a0}' || c == '\u{1680}' || ('\u{2000}' <= c && c
        <= '\u{200a}') || c == '\u{2028}' || c == '\u{2029}' || c == '\u{202f}' || c == '\u{205f}'
        || c == '\u{3000}'
}

/// Whether a character may appear in a unit token.
fn letter_c(c: char) -> (r: bool)
    ensures
        r == is_letter(c),
{
    ('a' <= c && c <= 'z') || ('A' <= c && c <= 'Z')
}

/// Advances past the digit run starting at `i`.
pub(crate) fn scan_digits(s: &str, i: usize) -> (j: usize)
    requires
        i <= s@.len(),
    ensures
        j == digits_end(s@, i as int),
        i <= j <= s@.len(),
{
    let n = s.unicode_len();
    let mut j = i;
    while j < n
        invariant
            i <= j <= n,
            n == s@.len(),
            digits_end(s@, i as int) == digits_end(s@, j as int),
        decreases n - j,
    {
        if !digit_c(s.get_char(j)) {
            return j;
        }
        j += 1;
    }
    j
}

/// Advances past the whitespace run starting at `i`.
pub(crate) fn scan_spaces(s: &str, i: usize) -> (j: usize)
    requires
        i <= s@.len(),
    ensures
        j == spaces_end(s@, i as int),
        i <= j <= s@.len(),
{
    let n = s.unicode_len();
    let mut j = i;
    while j < n
        invariant
            i <= j <= n,
            n == s@.len(),
            spaces_end(s@, i as int) == spaces_end(s@, j as int),
        decreases n - j,
    {
        if !space_c(s.get_char(j)) {
            return j;
        }
        j += 1;
    }
    j
}

/// Whether every character from `i` to the end is a unit-token letter.
pub(crate) fn all_letters(s: &str, i: usize) -> (r: bool)
    requires
        i <= s@.len(),
    ensures
        r == forall|j: int| i <= j < s@.len() ==> is_letter(#[trigger] s@[j]),
{
    let n = s.unicode_len();
    let mut j = i;
    while j < n
        invariant
            i <= j <= n,
            n == s@.len(),
            forall|k: int| i <= k < j ==> is_letter(#[trigger] s@[k]),
        decreases n - j,
    {
        if !letter_c(s.get_char(j)) {
            return false;
        }
        j += 1;
    }
    true
}

} // verus!
