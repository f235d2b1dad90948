//! The lines of the log.

use crate::{text, text_laws};
use vstd::prelude::*;
use vstd::string::StringExecFns;

verus! {

/// How grave a line is.
#[derive(Debug, Clone, Copy, PartialEq, Eq, Structural)]
pub enum Level {
    Info,
    Error,
    Warn,
}

impl Level {
    /// The name of the level, as wide as the longest.
    pub open spec fn name(self) -> Seq<char> {
        match self {
            Level::Info => "INFO "@,
            Level::Error => "ERROR"@,
            Level::Warn => "WARN "@,
        }
    }

    /// The name of the level, as wide as the longest.
    pub fn as_name(&self) -> (r: &'static str)
        ensures
            r@ == self.name(),
    {
        match self {
            Level::Info => "INFO ",
            Level::Error => "ERROR",
            Level::Warn => "WARN ",
        }
    }
}

/// Three digits for a number below a thousand.
pub open spec fn three_digits(n: nat) -> Seq<char> {
    if n < 10 {
        "00"@ + text::decimal(n)
    } else if n < 100 {
        "0"@ + text::decimal(n)
    } else {
        text::decimal(n)
    }
}

/// A point in time, in seconds and milliseconds.
pub open spec fn timestamp_of(seconds: nat, millis: nat) -> Seq<char> {
    "["@ + text::decimal(seconds) + "."@ + three_digits(millis) + "]"@
}

/// The point in time, in seconds and milliseconds.
pub fn timestamp(seconds: u64, millis: u32) -> (r: String)
    ensures
        r@ == timestamp_of(seconds as nat, millis as nat),
{
    let mut out = text::join3("[", text::to_decimal(seconds as u128).as_str(), ".");
    if millis < 10 {
        out.append("00");
    } else if millis < 100 {
        out.append("0");
    }
    out.append(text::to_decimal(millis as u128).as_str());
    out.append("]");
    assert(out@ =~= timestamp_of(seconds as nat, millis as nat));
    out
}

/// A line of the log: when, how grave, and what.
pub fn line(timestamp: &str, level: Level, message: &str) -> (r: String)
    ensures
        r@ == timestamp@ + " "@ + level.name() + " "@ + message@,
{
    let mut out = text::join3(timestamp, " ", level.as_name());
    out.append(" ");
    out.append(message);
    out
}

/// What is logged when an operation begins.
pub fn started(operation: &str) -> (r: String)
    ensures
        r@ == "START "@ + operation@,
{
    text::join2("START ", operation)
}

/// What is logged when an operation has ended well.
pub fn succeeded(operation: &str, elapsed_ms: u128) -> (r: String)
    ensures
        r@ == "OK    "@ + operation@ + " elapsed_ms="@ + text::decimal(elapsed_ms as nat),
{
    let mut out = text::join3("OK    ", operation, " elapsed_ms=");
    out.append(text::to_decimal(elapsed_ms).as_str());
    out
}

/// What is logged when an operation has failed.
pub fn failed(operation: &str, elapsed_ms: u128, error: &str) -> (r: String)
    ensures
        r@ == "FAIL  "@ + operation@ + " elapsed_ms="@ + text::decimal(elapsed_ms as nat)
            + " error="@ + error@,
{
    let mut out = text::join3("FAIL  ", operation, " elapsed_ms=");
    out.append(text::to_decimal(elapsed_ms).as_str());
    out.append(" error=");
    out.append(error);
    out
}

/// What is logged of a call to the proxy manager that failed.
pub fn refused_call(method: &str, path: &str, status: u16, body: &str) -> (r: String)
    ensures
        r@ == "NPM non-2xx response method="@ + method@ + " path="@ + path@ + " status="@
            + text::decimal(status as nat) + " body="@ + body@,
{
    let mut out = text::join3("NPM non-2xx response method=", method, " path=");
    out.append(path);
    out.append(" status=");
    out.append(text::to_decimal(status as u128).as_str());
    out.append(" body=");
    out.append(body);
    out
}

/// The milliseconds of a point in time are always three digits, which denote
/// them. The seconds stand before them and a dot.
pub proof fn law_milliseconds_are_three_digits(seconds: nat, millis: nat)
    requires
        millis < 1000,
    ensures
        ({
            let digits = three_digits(millis);
            &&& digits.len() == 3
            &&& text::all_digits(digits)
            &&& text::decimal_value(digits) == millis
            &&& timestamp_of(seconds, millis) == seq!['['] + text::decimal(seconds) + seq!['.']
                + digits + seq![']']
        }),
{
    reveal_strlit("00");
    reveal_strlit("0");
    reveal_strlit("[");
    reveal_strlit(".");
    reveal_strlit("]");
    assert("["@ =~= seq!['[']);
    assert("."@ =~= seq!['.']);
    assert("]"@ =~= seq![']']);
    reveal_with_fuel(text::decimal, 4);
    if millis >= 100 {
        assert(millis / 10 / 10 < 10);
    }
    let zeros: nat = if millis < 10 {
        2
    } else if millis < 100 {
        1
    } else {
        0
    };
    let front = Seq::new(zeros, |i: int| '0');
    assert(three_digits(millis) =~= front + text::decimal(millis));
    text_laws::law_written_number_is_read(millis, millis, zeros);
    let digits = front + text::decimal(millis);
    assert(text::parsed_unsigned(digits, millis) == Some(millis));
    assert(text::without_plus(digits) == digits) by {
        text::lemma_decimal_digits(millis);
        if zeros == 0 {
            assert(digits[0] == text::decimal(millis)[0]);
            assert(text::is_digit(digits[0]));
        } else {
            assert(digits[0] == '0');
        }
    }
}

} // verus!
