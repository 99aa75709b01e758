//! Reset times shown in a time zone, through `chrono` and `chrono-tz`.

use chrono::{TimeZone, Utc};
use chrono_tz::Tz;
use std::fmt::Write;
use vstd::prelude::*;

verus! {

/// Whether `chrono-tz` knows the IANA time zone named `name`.
pub uninterp spec fn known_time_zone(name: Seq<char>) -> bool;

/// The instant `timestamp` (seconds since the Unix epoch), shown in the
/// time zone named `zone` with the `chrono` strftime pattern `pattern`;
/// `None` where the zone is unknown, the instant lies outside what
/// `chrono` represents, or the pattern does not format.
pub uninterp spec fn zoned_time_text(timestamp: i64, zone: Seq<char>, pattern: Seq<char>) -> Option<Seq<char>>;

/// Parses `name` as a `chrono_tz::Tz` (its `FromStr` impl, a lookup in the
/// compiled-in IANA table) and says whether that succeeded. The contract
/// claims only that the answer is a function of the name and that `UTC`
/// is known (the table has it).
#[verifier::external_body]
pub(crate) fn is_known_time_zone(name: &str) -> (r: bool)
    ensures
        r == known_time_zone(name@),
        name@ == "UTC"@ ==> r,
{
    name.parse::<Tz>().is_ok()
}

/// Parses `zone` as a `chrono_tz::Tz`, builds the UTC instant with
/// `Utc.timestamp_opt(timestamp, 0).single()`, moves it into the zone with
/// `DateTime::with_timezone`, and writes `DateTime::format(pattern)` into a
/// string. The contract claims that the result is a function of the three
/// arguments, and that an unknown zone gives `None` (the first step fails).
#[verifier::external_body]
pub(crate) fn format_time_in_zone(timestamp: i64, zone: &str, pattern: &str) -> (r: Option<String>)
    ensures
        r matches Some(text) ==> zoned_time_text(timestamp, zone@, pattern@) == Some(text@),
        r is None ==> zoned_time_text(timestamp, zone@, pattern@) is None,
        !known_time_zone(zone@) ==> r is None,
{
    let tz: Tz = zone.parse().ok()?;
    let instant = Utc.timestamp_opt(timestamp, 0).single()?;
    let mut text = String::new();
    write!(text, "{}", instant.with_timezone(&tz).format(pattern)).ok()?;
    Some(text)
}

} // verus!
