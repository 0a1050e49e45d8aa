//! The run's settings, read from the command-line arguments.
use vstd::prelude::*;

verus! {

/// The file to read and the geohash length to classify at.
pub struct Config {
    pub file: String,
    pub depth: i32,
}

/// Why the arguments give no settings.
#[derive(Clone, Copy, Debug, PartialEq, Eq, Structural)]
pub enum ConfigError {
    /// Fewer than a program name, a file and a depth.
    NotEnoughArguments,
    /// The depth is not a whole number that fits, or is not positive.
    BadDepth,
}

/// A non-empty run of ASCII digits.
pub open spec fn all_digits(s: Seq<char>) -> bool {
    s.len() > 0 && forall|i: int| 0 <= i < s.len() ==> '0' <= #[trigger] s[i] && s[i] <= '9'
}

/// The value of a run of decimal digits.
pub open spec fn digits_value(s: Seq<char>) -> int
    decreases s.len(),
{
    if s.len() == 0 {
        0
    } else {
        digits_value(s.drop_last()) * 10 + ((s.last() as u32) - ('0' as u32))
    }
}

/// The value of decimal text: an optional '+' or '-' and then digits only.
pub open spec fn decimal_value(s: Seq<char>) -> Option<int> {
    if s.len() > 0 && (s[0] == '+' || s[0] == '-') {
        if all_digits(s.drop_first()) {
            Some(
                if s[0] == '-' {
                    -digits_value(s.drop_first())
                } else {
                    digits_value(s.drop_first())
                },
            )
        } else {
            None
        }
    } else if all_digits(s) {
        Some(digits_value(s))
    } else {
        None
    }
}

/// What reading the text as an `i32` gives: its decimal value where that
/// fits, else nothing.
pub open spec fn parsed_i32(s: Seq<char>) -> Option<i32> {
    match decimal_value(s) {
        Some(v) => if i32::MIN <= v && v <= i32::MAX {
            Some(v as i32)
        } else {
            None
        },
        None => None,
    }
}

/// Relies on `str::parse::<i32>`: an optional '+' or '-' followed by ASCII
/// digits only gives its value when it fits in an `i32`; anything else,
/// the empty string and overflow included, is an error.
#[verifier::external_body]
fn parse_i32(s: &str) -> (r: Option<i32>)
    ensures
        r == parsed_i32(s@),
{
    s.parse::<i32>().ok()
}

impl Config {
    /// The settings from the arguments: the file is the second, the depth
    /// the third, a positive whole number.
    pub fn build(args: &[String]) -> (r: Result<Config, ConfigError>)
        ensures
            args@.len() < 3 <==> r == Err::<Config, ConfigError>(ConfigError::NotEnoughArguments),
            args@.len() >= 3 ==> match parsed_i32(args@[2]@) {
                Some(d) => if d >= 1 {
                    r matches Ok(c) && c.file@ == args@[1]@ && c.depth == d
                } else {
                    r == Err::<Config, ConfigError>(ConfigError::BadDepth)
                },
                None => r == Err::<Config, ConfigError>(ConfigError::BadDepth),
            },
    {
        if args.len() < 3 {
            return Err(ConfigError::NotEnoughArguments);
        }
        let file = args[1].clone();
        match parse_i32(args[2].as_str()) {
            Some(depth) => {
                if depth >= 1 {
                    Ok(Config { file, depth })
                } else {
                    Err(ConfigError::BadDepth)
                }
            },
            None => Err(ConfigError::BadDepth),
        }
    }
}

} // verus!
