//! Durations and their text forms.

use crate::text::{
    decimal, has_suffix, padded_decimal, parse_u64, parsed_u64, push_decimal, push_padded_decimal,
    strip_suffix, trim, trimmed,
};
use std::time::{SystemTime, UNIX_EPOCH};
use vstd::prelude::*;
use vstd::string::StringExecFns;

verus! {

/// Nanoseconds in one second.
pub const NANOS_PER_SEC: u32 = 1_000_000_000;

/// A span of time: whole seconds and the nanoseconds beyond them, which are
/// fewer than one second.
#[derive(Debug, Clone, Copy, PartialEq, Eq, Structural)]
pub struct Duration {
    secs: u64,
    nanos: u32,
}

impl Duration {
    #[verifier::type_invariant]
    spec fn nanos_below_one_second(self) -> bool {
        self.nanos < NANOS_PER_SEC
    }

    /// The whole seconds of the span.
    pub closed spec fn seconds(self) -> nat {
        self.secs as nat
    }

    /// The nanoseconds beyond the whole seconds.
    pub closed spec fn fraction(self) -> nat {
        self.nanos as nat
    }

    /// The span in nanoseconds.
    pub open spec fn total_nanos(self) -> nat {
        self.seconds() * 1_000_000_000 + self.fraction()
    }

    /// The empty span.
    pub fn zero() -> (d: Duration)
        ensures
            d.seconds() == 0,
            d.fraction() == 0,
    {
        Duration { secs: 0, nanos: 0 }
    }

    /// A span of `secs` seconds and `nanos` nanoseconds, where `nanos` is
    /// less than one second.
    pub fn new(secs: u64, nanos: u32) -> (d: Duration)
        requires
            nanos < NANOS_PER_SEC,
        ensures
            d.seconds() == secs,
            d.fraction() == nanos,
    {
        Duration { secs, nanos }
    }

    /// A span of whole seconds.
    pub fn from_secs(secs: u64) -> (d: Duration)
        ensures
            d.seconds() == secs,
            d.fraction() == 0,
    {
        Duration { secs, nanos: 0 }
    }

    /// A span of milliseconds.
    pub fn from_millis(millis: u64) -> (d: Duration)
        ensures
            d.total_nanos() == millis * 1_000_000,
            d.seconds() == millis / 1000,
            d.fraction() == (millis % 1000) * 1_000_000,
    {
        Duration { secs: millis / 1000, nanos: ((millis % 1000) as u32) * 1_000_000 }
    }

    /// A span of nanoseconds.
    pub fn from_nanos(nanos: u64) -> (d: Duration)
        ensures
            d.total_nanos() == nanos,
            d.seconds() == nanos / 1_000_000_000,
            d.fraction() == nanos % 1_000_000_000,
    {
        Duration { secs: nanos / 1_000_000_000, nanos: (nanos % 1_000_000_000) as u32 }
    }

    /// The whole seconds of the span.
    pub fn as_secs(&self) -> (secs: u64)
        ensures
            secs == self.seconds(),
    {
        self.secs
    }

    /// The nanoseconds beyond the whole seconds.
    pub fn subsec_nanos(&self) -> (nanos: u32)
        ensures
            nanos == self.fraction(),
            nanos < NANOS_PER_SEC,
    {
        proof {
            use_type_invariant(self);
        }
        self.nanos
    }

    /// The whole milliseconds beyond the whole seconds.
    pub fn subsec_millis(&self) -> (millis: u32)
        ensures
            millis == self.fraction() / 1_000_000,
            millis < 1000,
    {
        proof {
            use_type_invariant(self);
        }
        self.nanos / 1_000_000
    }

    /// The span in nanoseconds.
    pub fn as_nanos(&self) -> (nanos: u128)
        ensures
            nanos == self.total_nanos(),
            nanos <= 0xFFFF_FFFF_FFFF_FFFF * 1_000_000_000 + 999_999_999,
    {
        proof {
            use_type_invariant(self);
        }
        (self.secs as u128) * 1_000_000_000 + (self.nanos as u128)
    }

    /// Whether the span is empty.
    pub fn is_zero(&self) -> (zero: bool)
        ensures
            zero == (self.total_nanos() == 0),
    {
        self.secs == 0 && self.nanos == 0
    }

    /// The shorter of two spans.
    pub fn min(self, other: Duration) -> (shorter: Duration)
        ensures
            shorter == if self.total_nanos() <= other.total_nanos() {
                self
            } else {
                other
            },
    {
        proof {
            use_type_invariant(self);
            use_type_invariant(other);
        }
        if self.secs < other.secs || (self.secs == other.secs && self.nanos <= other.nanos) {
            self
        } else {
            other
        }
    }
}

/// `std::time::SystemTime`: a reading of the system clock. Nothing is read
/// in it here; it is carried from the clock to the subtraction of the
/// epoch.
#[verifier::external_type_specification]
#[verifier::external_body]
pub struct ExSystemTime(SystemTime);

/// Calls `SystemTime::now`. Nothing is promised of the reading.
#[verifier::external_body]
fn now() -> (reading: SystemTime) {
    SystemTime::now()
}

/// Calls `SystemTime::duration_since` with the Unix epoch: how far the
/// reading lies after the epoch, or `None` where it lies before. Nothing is
/// promised of the result.
#[verifier::external_body]
fn since_epoch(reading: &SystemTime) -> (elapsed: Option<std::time::Duration>) {
    reading.duration_since(UNIX_EPOCH).ok()
}

/// Calls `std::time::Duration::as_secs`: the whole seconds of a span of the
/// standard library. Nothing is promised of the result.
#[verifier::external_body]
fn whole_seconds(elapsed: &std::time::Duration) -> (secs: u64) {
    elapsed.as_secs()
}

/// Calls `std::time::Duration::as_millis`: the whole milliseconds of a span
/// of the standard library. Nothing is promised of the result.
#[verifier::external_body]
fn whole_millis(elapsed: &std::time::Duration) -> (millis: u128) {
    elapsed.as_millis()
}

/// The timestamp for a clock that stands `elapsed` units after the Unix
/// epoch: the count modulo 2^64, and 0 for a clock that stands before the
/// epoch, which is `None`.
pub open spec fn stamp_of(elapsed: Option<u128>) -> u64 {
    match elapsed {
        Some(count) => (count % 0x1_0000_0000_0000_0000) as u64,
        None => 0,
    }
}

/// The timestamp for a clock that stands `elapsed` units after the Unix
/// epoch, or before it.
pub fn timestamp_of(elapsed: Option<u128>) -> (stamp: u64)
    ensures
        stamp == stamp_of(elapsed),
{
    match elapsed {
        Some(count) => {
            let stamp = #[verifier::truncate]
            (count as u64);
            assert(stamp == count % 0x1_0000_0000_0000_0000) by (bit_vector)
                requires
                    stamp == #[verifier::truncate] (count as u64),
            ;
            stamp
        },
        None => 0,
    }
}

/// Get the current Unix timestamp in seconds; 0 where the clock stands
/// before the epoch. It is `timestamp_of` the seconds that the clock
/// reads, of which nothing is known beforehand.
pub fn unix_timestamp() -> u64 {
    let elapsed = match since_epoch(&now()) {
        Some(elapsed) => Some(whole_seconds(&elapsed) as u128),
        None => None,
    };
    timestamp_of(elapsed)
}

/// Get the current Unix timestamp in milliseconds, modulo 2^64; 0 where
/// the clock stands before the epoch. It is `timestamp_of` the
/// milliseconds that the clock reads, of which nothing is known beforehand.
pub fn unix_timestamp_millis() -> u64 {
    let elapsed = match since_epoch(&now()) {
        Some(elapsed) => Some(whole_millis(&elapsed)),
        None => None,
    };
    timestamp_of(elapsed)
}

/// How a span of `secs` seconds and `millis` milliseconds reads: its two
/// largest units from days down to seconds, or seconds with three decimals,
/// or milliseconds alone.
pub open spec fn duration_text(secs: nat, millis: nat) -> Seq<char> {
    if secs >= 86400 {
        decimal(secs / 86400) + "d "@ + decimal((secs % 86400) / 3600) + "h"@
    } else if secs >= 3600 {
        decimal(secs / 3600) + "h "@ + decimal((secs % 3600) / 60) + "m"@
    } else if secs >= 60 {
        decimal(secs / 60) + "m "@ + decimal(secs % 60) + "s"@
    } else if secs > 0 {
        decimal(secs) + "."@ + padded_decimal(millis, 3) + "s"@
    } else {
        decimal(millis) + "ms"@
    }
}

/// Format a duration in a human-readable way.
pub fn format_duration(duration: Duration) -> (text: String)
    ensures
        text@ == duration_text(duration.seconds(), duration.fraction() / 1_000_000),
{
    let secs = duration.as_secs();
    let millis = duration.subsec_millis();
    let mut text = String::new();
    if secs >= 86400 {
        push_decimal(&mut text, secs / 86400);
        text.append("d ");
        push_decimal(&mut text, (secs % 86400) / 3600);
        text.append("h");
    } else if secs >= 3600 {
        push_decimal(&mut text, secs / 3600);
        text.append("h ");
        push_decimal(&mut text, (secs % 3600) / 60);
        text.append("m");
    } else if secs >= 60 {
        push_decimal(&mut text, secs / 60);
        text.append("m ");
        push_decimal(&mut text, secs % 60);
        text.append("s");
    } else if secs > 0 {
        push_decimal(&mut text, secs);
        text.append(".");
        push_padded_decimal(&mut text, millis as u64, 3);
        text.append("s");
    } else {
        push_decimal(&mut text, millis as u64);
        text.append("ms");
    }
    assert(text@ =~= duration_text(duration.seconds(), duration.fraction() / 1_000_000));
    text
}

/// What the text of a duration turns out to be.
#[derive(Debug, Clone, PartialEq, Eq)]
pub enum ParsedDuration {
    /// A whole number of milliseconds, minutes, hours or days.
    Exact(Duration),
    /// A number of seconds that may have a fraction or an exponent: `number`
    /// is still to be read as a decimal floating-point number, and where it
    /// is none, `invalid` is the error to report.
    Seconds { number: String, invalid: String },
}

/// The unit that a duration's text names by its ending.
pub enum DurationUnit {
    Millis,
    Seconds,
    Minutes,
    Hours,
    Days,
    /// No ending: seconds are meant.
    Bare,
}

/// The unit named by the ending of `text`; `ms` is tried before `s`.
pub open spec fn unit_of(text: Seq<char>) -> DurationUnit {
    if has_suffix(text, "ms"@) {
        DurationUnit::Millis
    } else if has_suffix(text, "s"@) {
        DurationUnit::Seconds
    } else if has_suffix(text, "m"@) {
        DurationUnit::Minutes
    } else if has_suffix(text, "h"@) {
        DurationUnit::Hours
    } else if has_suffix(text, "d"@) {
        DurationUnit::Days
    } else {
        DurationUnit::Bare
    }
}

/// `text` without the ending that names its unit.
pub open spec fn number_of(text: Seq<char>) -> Seq<char> {
    match unit_of(text) {
        DurationUnit::Millis => text.take(text.len() - 2),
        DurationUnit::Bare => text,
        _ => text.take(text.len() - 1),
    }
}

/// What a duration's text means, white space around it left out.
pub enum DurationMeaning {
    /// This many nanoseconds.
    Nanos(nat),
    /// Seconds, still written as a text to read in floating point; the
    /// second text is the error if it cannot be read.
    Seconds(Seq<char>, Seq<char>),
    /// No duration; the text is the error.
    Invalid(Seq<char>),
}

/// The meaning of a whole number `number` of a unit that lasts `nanos`
/// nanoseconds, or the error `invalid` where `number` is no such number.
pub open spec fn whole_units(number: Seq<char>, nanos: nat, invalid: Seq<char>) -> DurationMeaning {
    match parsed_u64(number) {
        Some(n) => DurationMeaning::Nanos(n as nat * nanos),
        None => DurationMeaning::Invalid(invalid),
    }
}

/// The meaning of a duration's text.
pub open spec fn meaning_of(s: Seq<char>) -> DurationMeaning {
    let text = trimmed(s);
    let number = number_of(text);
    match unit_of(text) {
        DurationUnit::Millis => whole_units(number, 1_000_000, "Invalid milliseconds format"@),
        DurationUnit::Seconds => DurationMeaning::Seconds(number, "Invalid seconds format"@),
        DurationUnit::Minutes => whole_units(number, 60_000_000_000, "Invalid minutes format"@),
        DurationUnit::Hours => whole_units(number, 3_600_000_000_000, "Invalid hours format"@),
        DurationUnit::Days => whole_units(number, 86_400_000_000_000, "Invalid days format"@),
        DurationUnit::Bare => DurationMeaning::Seconds(number, "Invalid duration format"@),
    }
}

/// Whether the seconds that a duration's text means fit in 64 bits. A text
/// of minutes, hours or days can name more.
pub open spec fn duration_fits(s: Seq<char>) -> bool {
    match meaning_of(s) {
        DurationMeaning::Nanos(nanos) => nanos / 1_000_000_000 <= u64::MAX,
        _ => true,
    }
}

/// What a result of `parse_duration` says.
pub open spec fn meaning_of_result(result: Result<ParsedDuration, String>) -> DurationMeaning {
    match result {
        Ok(ParsedDuration::Exact(d)) => DurationMeaning::Nanos(d.total_nanos()),
        Ok(ParsedDuration::Seconds { number, invalid }) => DurationMeaning::Seconds(number@, invalid@),
        Err(message) => DurationMeaning::Invalid(message@),
    }
}

/// The lengths of the endings that name a unit.
proof fn lemma_unit_endings()
    ensures
        "ms"@.len() == 2,
        "s"@.len() == 1,
        "m"@.len() == 1,
        "h"@.len() == 1,
        "d"@.len() == 1,
{
    reveal_strlit("ms");
    reveal_strlit("s");
    reveal_strlit("m");
    reveal_strlit("h");
    reveal_strlit("d");
}

/// The duration of `count` units of `secs` seconds each, or `invalid` as
/// the error where `number` is no whole number.
fn whole_duration(number: &str, secs: u64, invalid: &str) -> (result: Result<ParsedDuration, String>)
    requires
        secs > 0,
        whole_units(number@, secs as nat * 1_000_000_000, invalid@) matches DurationMeaning::Nanos(nanos)
            ==> nanos / 1_000_000_000 <= u64::MAX,
    ensures
        meaning_of_result(result) == whole_units(number@, secs as nat * 1_000_000_000, invalid@),
{
    match parse_u64(number) {
        Some(n) => {
            assert(n as nat * (secs as nat * 1_000_000_000) == (n * secs) * 1_000_000_000) by (nonlinear_arith);
            assert(((n * secs) * 1_000_000_000) / 1_000_000_000 == n * secs) by (nonlinear_arith);
            Ok(ParsedDuration::Exact(Duration::from_secs(n * secs)))
        },
        None => Err(invalid.to_owned()),
    }
}

/// Whether `parse_duration` is defined on `s`.
pub fn parse_duration_fits(s: &str) -> (fits: bool)
    ensures
        fits == duration_fits(s@),
{
    proof {
        lemma_unit_endings();
    }
    let text = trim(s);
    let (number, secs): (&str, u64) = if let Some(number) = strip_suffix(text, "ms") {
        return true;
    } else if let Some(number) = strip_suffix(text, "s") {
        return true;
    } else if let Some(number) = strip_suffix(text, "m") {
        (number, 60)
    } else if let Some(number) = strip_suffix(text, "h") {
        (number, 3600)
    } else if let Some(number) = strip_suffix(text, "d") {
        (number, 86400)
    } else {
        return true;
    };
    match parse_u64(number) {
        Some(n) => {
            assert(n as nat * (secs as nat * 1_000_000_000) == (n * secs) * 1_000_000_000) by (nonlinear_arith);
            assert(((n * secs) * 1_000_000_000) / 1_000_000_000 == n * secs) by (nonlinear_arith);
            n <= u64::MAX / secs
        },
        None => true,
    }
}

/// Parse a duration from a human-readable string: a number, then `ms`, `s`,
/// `m`, `h` or `d`, or no unit for seconds.
///
/// Whole milliseconds, minutes, hours and days are read here. Seconds may
/// be fractional: their number is handed back as text.
pub fn parse_duration(s: &str) -> (result: Result<ParsedDuration, String>)
    requires
        duration_fits(s@),
    ensures
        meaning_of_result(result) == meaning_of(s@),
{
    proof {
        lemma_unit_endings();
    }
    let text = trim(s);
    if let Some(number) = strip_suffix(text, "ms") {
        match parse_u64(number) {
            Some(n) => {
                let d = Duration::from_millis(n);
                Ok(ParsedDuration::Exact(d))
            },
            None => Err("Invalid milliseconds format".to_owned()),
        }
    } else if let Some(number) = strip_suffix(text, "s") {
        Ok(
            ParsedDuration::Seconds {
                number: number.to_owned(),
                invalid: "Invalid seconds format".to_owned(),
            },
        )
    } else if let Some(number) = strip_suffix(text, "m") {
        whole_duration(number, 60, "Invalid minutes format")
    } else if let Some(number) = strip_suffix(text, "h") {
        whole_duration(number, 3600, "Invalid hours format")
    } else if let Some(number) = strip_suffix(text, "d") {
        whole_duration(number, 86400, "Invalid days format")
    } else {
        Ok(
            ParsedDuration::Seconds {
                number: text.to_owned(),
                invalid: "Invalid duration format".to_owned(),
            },
        )
    }
}

} // verus!
