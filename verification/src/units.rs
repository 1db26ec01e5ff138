//! The unit table: millisecond multipliers, accepted spellings, display
//! names, and the rule that picks a formatting unit for a magnitude.

use vstd::prelude::*;
use crate::scan::is_letter;

verus! {

/// Milliseconds in one second.
pub const MS_PER_SECOND: u64 = 1000;

/// Milliseconds in one minute.
pub const MS_PER_MINUTE: u64 = 60000;

/// Milliseconds in one hour.
pub const MS_PER_HOUR: u64 = 3600000;

/// Milliseconds in one day.
pub const MS_PER_DAY: u64 = 86400000;

/// Milliseconds in one week.
pub const MS_PER_WEEK: u64 = 604800000;

/// Milliseconds in one average month: one twelfth of an average year.
pub const MS_PER_MONTH: u64 = 2629800000;

/// Milliseconds in one average year: 365.25 days, accounting for leap years.
pub const MS_PER_YEAR: u64 = 31557600000;

/// The time units the library understands, smallest to largest.
#[derive(Debug, Clone, Copy, PartialEq, Eq, Structural)]
pub enum Unit {
    Millisecond,
    Second,
    Minute,
    Hour,
    Day,
    Week,
    Month,
    Year,
}

/// The millisecond multiplier of a unit.
pub open spec fn unit_ms(u: Unit) -> u64 {
    match u {
        Unit::Millisecond => 1,
        Unit::Second => MS_PER_SECOND,
        Unit::Minute => MS_PER_MINUTE,
        Unit::Hour => MS_PER_HOUR,
        Unit::Day => MS_PER_DAY,
        Unit::Week => MS_PER_WEEK,
        Unit::Month => MS_PER_MONTH,
        Unit::Year => MS_PER_YEAR,
    }
}

/// Position of a unit in the fixed smallest-to-largest order.
pub open spec fn unit_rank(u: Unit) -> int {
    match u {
        Unit::Millisecond => 0,
        Unit::Second => 1,
        Unit::Minute => 2,
        Unit::Hour => 3,
        Unit::Day => 4,
        Unit::Week => 5,
        Unit::Month => 6,
        Unit::Year => 7,
    }
}

/// The unit the formatter selects for an absolute magnitude: the largest
/// unit whose multiplier the magnitude reaches, milliseconds otherwise.
pub open spec fn chosen_unit(abs: nat) -> Unit {
    if abs >= MS_PER_YEAR {
        Unit::Year
    } else if abs >= MS_PER_MONTH {
        Unit::Month
    } else if abs >= MS_PER_WEEK {
        Unit::Week
    } else if abs >= MS_PER_DAY {
        Unit::Day
    } else if abs >= MS_PER_HOUR {
        Unit::Hour
    } else if abs >= MS_PER_MINUTE {
        Unit::Minute
    } else if abs >= MS_PER_SECOND {
        Unit::Second
    } else {
        Unit::Millisecond
    }
}

/// The compact suffix of a unit.
pub open spec fn unit_suffix(u: Unit) -> Seq<char> {
    match u {
        Unit::Millisecond => "ms"@,
        Unit::Second => "s"@,
        Unit::Minute => "m"@,
        Unit::Hour => "h"@,
        Unit::Day => "d"@,
        Unit::Week => "w"@,
        Unit::Month => "mo"@,
        Unit::Year => "y"@,
    }
}

/// The verbose (singular) name of a unit.
pub open spec fn unit_name(u: Unit) -> Seq<char> {
    match u {
        Unit::Millisecond => "ms"@,
        Unit::Second => "second"@,
        Unit::Minute => "minute"@,
        Unit::Hour => "hour"@,
        Unit::Day => "day"@,
        Unit::Week => "week"@,
        Unit::Month => "month"@,
        Unit::Year => "year"@,
    }
}

/// Case-insensitive match of an input character against a lowercase
/// reference character: equal outright, or the uppercase form of it.
pub open spec fn eq_ci(c: char, l: char) -> bool {
    c == l || c as int + 32 == l as int
}

/// Case-insensitive equality of a token against a lowercase spelling.
pub open spec fn tok_is(t: Seq<char>, lit: Seq<char>) -> bool {
    t.len() == lit.len() && forall|i: int| 0 <= i < t.len() ==> eq_ci(#[trigger] t[i], lit[i])
}

/// The unit denoted by a token, compared case-insensitively against every
/// accepted spelling. An empty token defaults to milliseconds; a non-empty
/// token that matches no spelling denotes no unit.
pub open spec fn unit_of_token(t: Seq<char>) -> Option<Unit> {
    if t.len() == 0 {
        Some(Unit::Millisecond)
    } else if tok_is(t, "milliseconds"@) || tok_is(t, "millisecond"@) || tok_is(t, "msecs"@)
        || tok_is(t, "msec"@) || tok_is(t, "ms"@) {
        Some(Unit::Millisecond)
    } else if tok_is(t, "seconds"@) || tok_is(t, "second"@) || tok_is(t, "secs"@)
        || tok_is(t, "sec"@) || tok_is(t, "s"@) {
        Some(Unit::Second)
    } else if tok_is(t, "minutes"@) || tok_is(t, "minute"@) || tok_is(t, "mins"@)
        || tok_is(t, "min"@) || tok_is(t, "m"@) {
        Some(Unit::Minute)
    } else if tok_is(t, "hours"@) || tok_is(t, "hour"@) || tok_is(t, "hrs"@)
        || tok_is(t, "hr"@) || tok_is(t, "h"@) {
        Some(Unit::Hour)
    } else if tok_is(t, "days"@) || tok_is(t, "day"@) || tok_is(t, "d"@) {
        Some(Unit::Day)
    } else if tok_is(t, "weeks"@) || tok_is(t, "week"@) || tok_is(t, "w"@) {
        Some(Unit::Week)
    } else if tok_is(t, "months"@) || tok_is(t, "month"@) || tok_is(t, "mo"@) {
        Some(Unit::Month)
    } else if tok_is(t, "years"@) || tok_is(t, "year"@) || tok_is(t, "yrs"@)
        || tok_is(t, "yr"@) || tok_is(t, "y"@) {
        Some(Unit::Year)
    } else {
        None
    }
}

/// The multiplier a token resolves to, if it denotes a unit.
pub open spec fn token_multiplier(t: Seq<char>) -> Option<u64> {
    match unit_of_token(t) {
        Some(u) => Some(unit_ms(u)),
        None => None,
    }
}

/// Two characters are the same up to letter case: equal, or the upper-
/// and lowercase forms of one letter.
pub open spec fn case_equiv(c: char, d: char) -> bool {
    c == d || (is_letter(c) && is_letter(d) && (c as int + 32 == d as int || d as int + 32
        == c as int))
}

/// Tokens that agree up to letter case match the same lowercase spellings.
pub proof fn lemma_tok_is_equiv(x: Seq<char>, y: Seq<char>, lit: Seq<char>)
    requires
        x.len() == y.len(),
        forall|i: int| 0 <= i < x.len() ==> case_equiv(#[trigger] x[i], y[i]),
        forall|j: int| 0 <= j < lit.len() ==> 'a' <= #[trigger] lit[j] <= 'z',
    ensures
        tok_is(x, lit) == tok_is(y, lit),
{
    if x.len() == lit.len() {
        if tok_is(x, lit) {
            assert forall|i: int| 0 <= i < y.len() implies eq_ci(#[trigger] y[i], lit[i]) by {
                assert(eq_ci(x[i], lit[i]));
                assert(case_equiv(x[i], y[i]));
                assert('a' <= lit[i] <= 'z');
            }
            assert(tok_is(y, lit));
        }
        if tok_is(y, lit) {
            assert forall|i: int| 0 <= i < x.len() implies eq_ci(#[trigger] x[i], lit[i]) by {
                assert(eq_ci(y[i], lit[i]));
                assert(case_equiv(x[i], y[i]));
                assert('a' <= lit[i] <= 'z');
            }
            assert(tok_is(x, lit));
        }
    }
}

/// Tokens that agree up to letter case resolve to the same unit.
pub proof fn lemma_unit_of_token_equiv(x: Seq<char>, y: Seq<char>)
    requires
        x.len() == y.len(),
        forall|i: int| 0 <= i < x.len() ==> case_equiv(#[trigger] x[i], y[i]),
    ensures
        unit_of_token(x) == unit_of_token(y),
{
    reveal_strlit("milliseconds");
    reveal_strlit("millisecond");
    reveal_strlit("msecs");
    reveal_strlit("msec");
    reveal_strlit("ms");
    reveal_strlit("seconds");
    reveal_strlit("second");
    reveal_strlit("secs");
    reveal_strlit("sec");
    reveal_strlit("s");
    reveal_strlit("minutes");
    reveal_strlit("minute");
    reveal_strlit("mins");
    reveal_strlit("min");
    reveal_strlit("m");
    reveal_strlit("hours");
    reveal_strlit("hour");
    reveal_strlit("hrs");
    reveal_strlit("hr");
    reveal_strlit("h");
    reveal_strlit("days");
    reveal_strlit("day");
    reveal_strlit("d");
    reveal_strlit("weeks");
    reveal_strlit("week");
    reveal_strlit("w");
    reveal_strlit("months");
    reveal_strlit("month");
    reveal_strlit("mo");
    reveal_strlit("years");
    reveal_strlit("year");
    reveal_strlit("yrs");
    reveal_strlit("yr");
    reveal_strlit("y");
    lemma_tok_is_equiv(x, y, "milliseconds"@);
    lemma_tok_is_equiv(x, y, "millisecond"@);
    lemma_tok_is_equiv(x, y, "msecs"@);
    lemma_tok_is_equiv(x, y, "msec"@);
    lemma_tok_is_equiv(x, y, "ms"@);
    lemma_tok_is_equiv(x, y, "seconds"@);
    lemma_tok_is_equiv(x, y, "second"@);
    lemma_tok_is_equiv(x, y, "secs"@);
    lemma_tok_is_equiv(x, y, "sec"@);
    lemma_tok_is_equiv(x, y, "s"@);
    lemma_tok_is_equiv(x, y, "minutes"@);
    lemma_tok_is_equiv(x, y, "minute"@);
    lemma_tok_is_equiv(x, y, "mins"@);
    lemma_tok_is_equiv(x, y, "min"@);
    lemma_tok_is_equiv(x, y, "m"@);
    lemma_tok_is_equiv(x, y, "hours"@);
    lemma_tok_is_equiv(x, y, "hour"@);
    lemma_tok_is_equiv(x, y, "hrs"@);
    lemma_tok_is_equiv(x, y, "hr"@);
    lemma_tok_is_equiv(x, y, "h"@);
    lemma_tok_is_equiv(x, y, "days"@);
    lemma_tok_is_equiv(x, y, "day"@);
    lemma_tok_is_equiv(x, y, "d"@);
    lemma_tok_is_equiv(x, y, "weeks"@);
    lemma_tok_is_equiv(x, y, "week"@);
    lemma_tok_is_equiv(x, y, "w"@);
    lemma_tok_is_equiv(x, y, "months"@);
    lemma_tok_is_equiv(x, y, "month"@);
    lemma_tok_is_equiv(x, y, "mo"@);
    lemma_tok_is_equiv(x, y, "years"@);
    lemma_tok_is_equiv(x, y, "year"@);
    lemma_tok_is_equiv(x, y, "yrs"@);
    lemma_tok_is_equiv(x, y, "yr"@);
    lemma_tok_is_equiv(x, y, "y"@);
}

/// A unit's compact suffix is a short lowercase token that resolves back
/// to that unit.
pub proof fn lemma_suffix_resolves(u: Unit)
    ensures
        unit_of_token(unit_suffix(u)) == Some(u),
        1 <= unit_suffix(u).len() <= 2,
        forall|j: int|
            0 <= j < unit_suffix(u).len() ==> 'a' <= #[trigger] unit_suffix(u)[j] <= 'z',
        forall|j: int| 0 <= j < unit_suffix(u).len() ==> is_letter(#[trigger] unit_suffix(u)[j]),
{
    reveal_strlit("milliseconds");
    reveal_strlit("millisecond");
    reveal_strlit("msecs");
    reveal_strlit("msec");
    reveal_strlit("ms");
    reveal_strlit("seconds");
    reveal_strlit("second");
    reveal_strlit("secs");
    reveal_strlit("sec");
    reveal_strlit("s");
    reveal_strlit("minutes");
    reveal_strlit("minute");
    reveal_strlit("mins");
    reveal_strlit("min");
    reveal_strlit("m");
    reveal_strlit("hours");
    reveal_strlit("hour");
    reveal_strlit("hrs");
    reveal_strlit("hr");
    reveal_strlit("h");
    reveal_strlit("days");
    reveal_strlit("day");
    reveal_strlit("d");
    reveal_strlit("weeks");
    reveal_strlit("week");
    reveal_strlit("w");
    reveal_strlit("months");
    reveal_strlit("month");
    reveal_strlit("mo");
    reveal_strlit("years");
    reveal_strlit("year");
    reveal_strlit("yrs");
    reveal_strlit("yr");
    reveal_strlit("y");
    match u {
        Unit::Millisecond => {
            assert(tok_is("ms"@, "ms"@));
        },
        Unit::Second => {
            assert(tok_is("s"@, "s"@));
        },
        Unit::Minute => {
            assert(!tok_is("m"@, "s"@)) by {
                assert(!eq_ci("m"@[0], "s"@[0]));
            }
            assert(tok_is("m"@, "m"@));
        },
        Unit::Hour => {
            assert(!tok_is("h"@, "s"@)) by {
                assert(!eq_ci("h"@[0], "s"@[0]));
            }
            assert(!tok_is("h"@, "m"@)) by {
                assert(!eq_ci("h"@[0], "m"@[0]));
            }
            assert(tok_is("h"@, "h"@));
        },
        Unit::Day => {
            assert(!tok_is("d"@, "s"@)) by {
                assert(!eq_ci("d"@[0], "s"@[0]));
            }
            assert(!tok_is("d"@, "m"@)) by {
                assert(!eq_ci("d"@[0], "m"@[0]));
            }
            assert(!tok_is("d"@, "h"@)) by {
                assert(!eq_ci("d"@[0], "h"@[0]));
            }
            assert(tok_is("d"@, "d"@));
        },
        Unit::Week => {
            assert(!tok_is("w"@, "s"@)) by {
                assert(!eq_ci("w"@[0], "s"@[0]));
            }
            assert(!tok_is("w"@, "m"@)) by {
                assert(!eq_ci("w"@[0], "m"@[0]));
            }
            assert(!tok_is("w"@, "h"@)) by {
                assert(!eq_ci("w"@[0], "h"@[0]));
            }
            assert(!tok_is("w"@, "d"@)) by {
                assert(!eq_ci("w"@[0], "d"@[0]));
            }
            assert(tok_is("w"@, "w"@));
        },
        Unit::Month => {
            assert(!tok_is("mo"@, "ms"@)) by {
                assert(!eq_ci("mo"@[1], "ms"@[1]));
            }
            assert(!tok_is("mo"@, "hr"@)) by {
                assert(!eq_ci("mo"@[0], "hr"@[0]));
            }
            assert(tok_is("mo"@, "mo"@));
        },
        Unit::Year => {
            assert(!tok_is("y"@, "s"@)) by {
                assert(!eq_ci("y"@[0], "s"@[0]));
            }
            assert(!tok_is("y"@, "m"@)) by {
                assert(!eq_ci("y"@[0], "m"@[0]));
            }
            assert(!tok_is("y"@, "h"@)) by {
                assert(!eq_ci("y"@[0], "h"@[0]));
            }
            assert(!tok_is("y"@, "d"@)) by {
                assert(!eq_ci("y"@[0], "d"@[0]));
            }
            assert(!tok_is("y"@, "w"@)) by {
                assert(!eq_ci("y"@[0], "w"@[0]));
            }
            assert(tok_is("y"@, "y"@));
        },
    }
}

/// Case-insensitive equality of a whole token against a lowercase spelling.
fn tok_eq(tok: &str, lit: &str) -> (r: bool)
    ensures
        r == tok_is(tok@, lit@),
{
    let n = tok.unicode_len();
    if n != lit.unicode_len() {
        return false;
    }
    let mut j: usize = 0;
    while j < n
        invariant
            j <= n,
            n == tok@.len(),
            n == lit@.len(),
            forall|k: int| 0 <= k < j ==> eq_ci(#[trigger] tok@[k], lit@[k]),
        decreases n - j,
    {
        let c = tok.get_char(j);
        let l = lit.get_char(j);
        if !(c == l || (c as u32) + 32 == (l as u32)) {
            return false;
        }
        j += 1;
    }
    true
}

/// The multiplier of a unit token, resolved against every accepted spelling,
/// or `None` if the token is not recognized.
pub(crate) fn lookup_multiplier(tok: &str) -> (r: Option<u64>)
    ensures
        r == token_multiplier(tok@),
{
    if tok.unicode_len() == 0 {
        Some(1)
    } else if tok_eq(tok, "milliseconds") || tok_eq(tok, "millisecond") || tok_eq(tok, "msecs")
        || tok_eq(tok, "msec") || tok_eq(tok, "ms") {
        Some(1)
    } else if tok_eq(tok, "seconds") || tok_eq(tok, "second") || tok_eq(tok, "secs")
        || tok_eq(tok, "sec") || tok_eq(tok, "s") {
        Some(MS_PER_SECOND)
    } else if tok_eq(tok, "minutes") || tok_eq(tok, "minute") || tok_eq(tok, "mins")
        || tok_eq(tok, "min") || tok_eq(tok, "m") {
        Some(MS_PER_MINUTE)
    } else if tok_eq(tok, "hours") || tok_eq(tok, "hour") || tok_eq(tok, "hrs")
        || tok_eq(tok, "hr") || tok_eq(tok, "h") {
        Some(MS_PER_HOUR)
    } else if tok_eq(tok, "days") || tok_eq(tok, "day") || tok_eq(tok, "d") {
        Some(MS_PER_DAY)
    } else if tok_eq(tok, "weeks") || tok_eq(tok, "week") || tok_eq(tok, "w") {
        Some(MS_PER_WEEK)
    } else if tok_eq(tok, "months") || tok_eq(tok, "month") || tok_eq(tok, "mo") {
        Some(MS_PER_MONTH)
    } else if tok_eq(tok, "years") || tok_eq(tok, "year") || tok_eq(tok, "yrs")
        || tok_eq(tok, "yr") || tok_eq(tok, "y") {
        Some(MS_PER_YEAR)
    } else {
        None
    }
}

} // verus!
