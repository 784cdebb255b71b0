//! How much is logged.

use crate::text;
use vstd::prelude::*;
use vstd::string::*;

verus! {

/// How much is logged.
#[derive(Clone, Copy, PartialEq, Eq, Structural, Debug)]
pub enum LogLevel {
    Critical,
    Error,
    Warning,
    Info,
    Debug,
    Trace,
}

/// A text in upper case.
pub uninterp spec fn upper_case(s: Seq<char>) -> Seq<char>;

/// An ASCII letter in upper case; any other character as it is.
pub open spec fn ascii_upper(c: char) -> char {
    if 'a' <= c <= 'z' {
        ((c as u8 - 32) as u8) as char
    } else {
        c
    }
}

/// `str::to_uppercase`: depends on the text alone, and in ASCII texts turns each
/// small letter into its capital.
#[verifier::external_body]
fn to_uppercase(s: &str) -> (r: String)
    ensures
        r@ == upper_case(s@),
        vstd::utf8::is_ascii_chars(s@) ==> r@ == s@.map_values(|c: char| ascii_upper(c)),
{
    s.to_uppercase()
}

/// The level that a name in upper case stands for.
pub open spec fn named_level(name: Seq<char>) -> LogLevel {
    if name == "DEBUG"@ {
        LogLevel::Debug
    } else if name == "WARNING"@ {
        LogLevel::Warning
    } else if name == "ERROR"@ {
        LogLevel::Error
    } else if name == "TRACE"@ {
        LogLevel::Trace
    } else if name == "CRITICAL"@ {
        LogLevel::Critical
    } else {
        LogLevel::Info
    }
}

/// The level that a name in upper case stands for; that of information where it
/// stands for none.
pub fn level_named(name: &str) -> (r: LogLevel)
    ensures
        r == named_level(name@),
{
    if text::same(name, "DEBUG") {
        LogLevel::Debug
    } else if text::same(name, "WARNING") {
        LogLevel::Warning
    } else if text::same(name, "ERROR") {
        LogLevel::Error
    } else if text::same(name, "TRACE") {
        LogLevel::Trace
    } else if text::same(name, "CRITICAL") {
        LogLevel::Critical
    } else {
        LogLevel::Info
    }
}

/// The name that counts: the one given; else that of the environment; else that
/// of information.
pub open spec fn level_name(given: Seq<char>, environment: Option<&str>) -> Seq<char> {
    if given.len() > 0 {
        given
    } else {
        match environment {
            Some(e) => e@,
            None => "INFO"@,
        }
    }
}

/// The level that a name stands for in any case of letters, with the value of the
/// environment to fall back on.
pub fn get_log_level(log_level: &str, environment: Option<&str>) -> (r: LogLevel)
    ensures
        r == named_level(upper_case(level_name(log_level@, environment))),
        vstd::utf8::is_ascii_chars(level_name(log_level@, environment)) ==> r == named_level(
            level_name(log_level@, environment).map_values(|c: char| ascii_upper(c)),
        ),
{
    let name: &str = if !log_level.is_empty() {
        log_level
    } else {
        match environment {
            Some(e) => e,
            None => "INFO",
        }
    };
    level_named(to_uppercase(name).as_str())
}

/// Every level goes by its own name in capitals, and any other name by the level for
/// information.
pub proof fn levels_go_by_their_names(name: Seq<char>)
    ensures
        named_level(name) == LogLevel::Debug <==> name == "DEBUG"@,
        named_level(name) == LogLevel::Warning <==> name == "WARNING"@,
        named_level(name) == LogLevel::Error <==> name == "ERROR"@,
        named_level(name) == LogLevel::Trace <==> name == "TRACE"@,
        named_level(name) == LogLevel::Critical <==> name == "CRITICAL"@,
        named_level(name) == LogLevel::Info <==> name != "DEBUG"@ && name != "WARNING"@ && name != "ERROR"@ && name
            != "TRACE"@ && name != "CRITICAL"@,
{
    reveal_strlit("DEBUG");
    reveal_strlit("WARNING");
    reveal_strlit("ERROR");
    reveal_strlit("TRACE");
    reveal_strlit("CRITICAL");
    assert("DEBUG"@[0] == 'D' && "ERROR"@[0] == 'E' && "TRACE"@[0] == 'T' && "WARNING"@[0] == 'W' && "CRITICAL"@[0]
        == 'C');
}

/// A level that is given counts; else the one of the environment, and else the level
/// for information.
pub proof fn given_levels_count_first(given: Seq<char>, environment: Option<&str>)
    ensures
        given.len() > 0 ==> level_name(given, environment) == given,
        given.len() == 0 ==> (environment matches Some(e) ==> level_name(given, environment) == e@),
        given.len() == 0 && environment is None ==> named_level(level_name(given, environment)) == LogLevel::Info,
{
    reveal_strlit("INFO");
    levels_go_by_their_names("INFO"@);
    reveal_strlit("DEBUG");
    reveal_strlit("WARNING");
    reveal_strlit("ERROR");
    reveal_strlit("TRACE");
    reveal_strlit("CRITICAL");
    assert("INFO"@[0] == 'I' && "DEBUG"@[0] == 'D' && "ERROR"@[0] == 'E' && "TRACE"@[0] == 'T' && "WARNING"@[0] == 'W'
        && "CRITICAL"@[0] == 'C');
}

/// A letter in upper case is the capital of the letter; nothing else changes, so that a
/// name in capitals stays as it is.
pub proof fn capitals_stay(c: char)
    ensures
        'a' <= c <= 'z' ==> ascii_upper(c) as u32 + 32 == c as u32,
        !('a' <= c <= 'z') ==> ascii_upper(c) == c,
        ascii_upper(ascii_upper(c)) == ascii_upper(c),
{
}

} // verus!
