//! Conversion between human-readable duration strings and millisecond counts.
//!
//! `parse` turns a string such as `"2h"`, `"1.5 hours"` or `"-100ms"` into a
//! signed number of milliseconds; `format` renders a millisecond count as a
//! compact (`"2h"`) or verbose (`"2 hours"`) string; `ms` dispatches between
//! the two based on the shape of its input.

pub mod digits;
pub mod fmt;
pub mod laws;
pub mod parse;
pub mod scan;
pub mod units;

pub use parse::{parse, parse_strict, Error};

use vstd::prelude::*;

verus! {

/// Options for formatting milliseconds.
#[derive(Debug, Clone, Copy)]
pub struct Options {
    /// Set to `true` to use verbose formatting. Defaults to `false`.
    pub long: bool,
}

impl Default for Options {
    fn default() -> (r: Self)
        ensures
            r.long == false,
    {
        Options { long: false }
    }
}

/// Either a duration string or a millisecond count; the dispatcher `ms`
/// converts one shape into the other.
#[derive(Debug, Clone)]
pub enum Value {
    String(String),
    Number(i64),
}

/// Formats a millisecond count as a duration string: compact by default,
/// verbose when the options say so.
pub fn format(ms: i64, options: Option<Options>) -> (r: String)
    ensures
        r@ == fmt::spec_format(ms as int, fmt::opt_long(options)),
{
    let opts = match options {
        Some(o) => o,
        None => Options { long: false },
    };
    if opts.long {
        fmt::fmt_long(ms)
    } else {
        fmt::fmt_short(ms)
    }
}

/// Converts in the direction the input's shape asks for: a non-empty
/// string is parsed to a millisecond count, a count is formatted to a
/// string. An empty string is rejected before parsing.
pub fn ms(value: Value, options: Option<Options>) -> (r: Result<Value, Error>)
    ensures
        match value {
            Value::String(s) => {
                if s@.len() == 0 {
                    r matches Err(Error::EmptyInput)
                } else {
                    match r {
                        Ok(out) => out matches Value::Number(v) && parse::parse_ok(s@) && v
                            == parse::clamp_to_i64(parse::parse_val(s@)),
                        Err(e) => match e {
                            Error::InvalidLength { value } => !parse::len_ok(s@) && value@ == s@,
                            Error::MalformedInput { value } => parse::len_ok(s@)
                                && !scan::shape_ok(s@) && value@ == s@,
                            Error::UnknownUnit { unit, value } => parse::len_ok(s@)
                                && scan::shape_ok(s@) && !parse::unit_known(s@) && unit@
                                == scan::token(s@) && value@ == s@,
                            _ => false,
                        },
                    }
                }
            },
            Value::Number(n) => match r {
                Ok(out) => out matches Value::String(text) && text@ == fmt::spec_format(
                    n as int,
                    fmt::opt_long(options),
                ),
                Err(_) => false,
            },
        },
{
    match value {
        Value::String(s) => {
            if s.as_str().unicode_len() == 0 {
                return Err(Error::EmptyInput);
            }
            let result = parse(s.as_str())?;
            Ok(Value::Number(result))
        },
        Value::Number(n) => Ok(Value::String(format(n, options))),
    }
}

} // verus!
