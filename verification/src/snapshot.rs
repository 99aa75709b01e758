//! The usage snapshot: two buckets (the main Codex limits and the first
//! additional, "Spark", limits), each with a five-hour and a weekly window.

use vstd::prelude::*;

use crate::clock::{format_time_in_zone, is_known_time_zone, known_time_zone, zoned_time_text};
use crate::text::{parse_i64, spec_parse_i64};

verus! {

/// Title of the bucket built from the main rate limit.
pub const MAIN_BUCKET_TITLE: &'static str = "Main Codex bucket";

/// Title of the bucket built from the first additional rate limit.
pub const SPARK_BUCKET_TITLE: &'static str = "Codex 5.3 Spark";

/// Label of the primary (five-hour) window.
pub const PRIMARY_WINDOW_LABEL: &'static str = "5h";

/// Label of the secondary (weekly) window.
pub const SECONDARY_WINDOW_LABEL: &'static str = "weekly";

/// The `chrono` pattern in which reset times are shown.
pub const RESET_TIME_FORMAT: &'static str = "%b %-d, %Y %H:%M:%S";

/// The zone used when none is configured or the configured one is unknown.
pub const DEFAULT_TIME_ZONE: &'static str = "UTC";

/// What a reset time shows when it cannot be given.
pub const UNKNOWN_RESET_TIME: &'static str = "unknown";

/// One usage window as shown.
#[derive(Debug, Clone, PartialEq, Eq)]
pub struct WindowUsage {
    pub label: &'static str,
    /// Seconds since the Unix epoch, when known.
    pub reset_at: Option<i64>,
    /// Whole percent used, in `0..=100`.
    pub used_percent: u16,
}

/// One rate limit as shown: a title and its two windows.
#[derive(Debug, Clone, PartialEq, Eq)]
pub struct UsageBucket {
    pub title: &'static str,
    pub windows: [WindowUsage; 2],
}

/// Everything that is shown.
#[derive(Debug, Clone, PartialEq, Eq)]
pub struct UsageSnapshot {
    pub buckets: Vec<UsageBucket>,
}

/// A window of the usage endpoint's reply.
#[derive(Debug, Clone, Copy, PartialEq, Eq)]
pub struct ApiWindow {
    /// `reset_at`, when it is present and reads as an integer.
    pub reset_at: Option<i64>,
    /// The whole part (floor) of `used_percent`, when it is present and
    /// reads as a finite number.
    pub used_percent: Option<i64>,
}

/// A rate limit of the usage endpoint's reply; a missing window reads as
/// an unknown one.
#[derive(Debug, Clone, Copy, PartialEq, Eq)]
pub struct ApiRateLimit {
    pub primary_window: ApiWindow,
    pub secondary_window: ApiWindow,
}

/// An entry of `additional_rate_limits`.
#[derive(Debug, Clone, Copy, PartialEq, Eq)]
pub struct ApiAdditionalRateLimit {
    pub rate_limit: ApiRateLimit,
}

/// The usage endpoint's reply.
#[derive(Debug, Clone, PartialEq, Eq)]
pub struct ApiPayload {
    pub rate_limit: ApiRateLimit,
    pub additional_rate_limits: Vec<ApiAdditionalRateLimit>,
}

/// A JSON value where the reply carries a number, as far as reading it
/// is concerned.
#[derive(Debug, Clone, PartialEq, Eq)]
pub enum JsonScalar {
    /// A JSON number, as `i64` (an integer, or a float truncated and
    /// saturated as `f64 as i64` does).
    Number(i64),
    /// A JSON string.
    Text(String),
    /// Any other JSON value.
    Other,
}

/// A window with nothing known.
pub open spec fn unknown_window() -> ApiWindow {
    ApiWindow { reset_at: None, used_percent: None }
}

impl Default for ApiWindow {
    fn default() -> (r: Self)
        ensures
            r == unknown_window(),
    {
        ApiWindow { reset_at: None, used_percent: None }
    }
}

/// A rate limit with nothing known.
pub open spec fn unknown_rate_limit() -> ApiRateLimit {
    ApiRateLimit { primary_window: unknown_window(), secondary_window: unknown_window() }
}

impl Default for ApiRateLimit {
    fn default() -> (r: Self)
        ensures
            r == unknown_rate_limit(),
    {
        ApiRateLimit { primary_window: ApiWindow::default(), secondary_window: ApiWindow::default() }
    }
}

/// A reset time read from JSON: a number as it is, a string as
/// `str::parse::<i64>` reads it, anything else or nothing as unknown.
pub open spec fn spec_timestamp_from_json(value: Option<JsonScalar>) -> Option<i64> {
    match value {
        Some(JsonScalar::Number(n)) => Some(n),
        Some(JsonScalar::Text(t)) => spec_parse_i64(t@),
        _ => None,
    }
}

/// Reads a reset time from its JSON value.
pub fn timestamp_from_json(value: Option<JsonScalar>) -> (r: Option<i64>)
    ensures
        r == spec_timestamp_from_json(value),
{
    match value {
        Some(JsonScalar::Number(n)) => Some(n),
        Some(JsonScalar::Text(t)) => parse_i64(t.as_str()),
        _ => None,
    }
}

/// The used percentage shown: unknown is 0, and the whole part is clamped
/// to `0..=100`.
pub open spec fn spec_normalized_percent(value: Option<i64>) -> u16 {
    match value {
        None => 0,
        Some(v) => if v < 0 {
            0
        } else if v > 100 {
            100
        } else {
            v as u16
        },
    }
}

/// Normalizes the whole part of a used percentage.
pub fn normalized_percent(value: Option<i64>) -> (r: u16)
    ensures
        r == spec_normalized_percent(value),
        r <= 100,
        forall|v: i64| value == Some(v) && 0 <= v <= 100 ==> r == v,
        forall|v: i64| value == Some(v) && v < 0 ==> r == 0,
        forall|v: i64| value == Some(v) && v > 100 ==> r == 100,
        value is None ==> r == 0,
{
    match value {
        None => 0,
        Some(v) => if v < 0 {
            0
        } else if v > 100 {
            100
        } else {
            v as u16
        },
    }
}

/// A window as shown, from the reply's window.
pub open spec fn spec_window(label: &'static str, window: ApiWindow) -> WindowUsage {
    WindowUsage {
        label,
        reset_at: window.reset_at,
        used_percent: spec_normalized_percent(window.used_percent),
    }
}

/// The window shown for a window of the reply, labelled `label`.
pub fn window_from_api(label: &'static str, window: &ApiWindow) -> (r: WindowUsage)
    ensures
        r == spec_window(label, *window),
{
    WindowUsage { label, reset_at: window.reset_at, used_percent: normalized_percent(window.used_percent) }
}

/// A bucket as shown, from a rate limit of the reply.
pub open spec fn spec_bucket(title: &'static str, rate_limit: ApiRateLimit) -> UsageBucket {
    UsageBucket {
        title,
        windows: [
            spec_window(PRIMARY_WINDOW_LABEL, rate_limit.primary_window),
            spec_window(SECONDARY_WINDOW_LABEL, rate_limit.secondary_window),
        ],
    }
}

/// The bucket shown for a rate limit of the reply, titled `title`.
pub fn bucket_from_rate_limit(title: &'static str, rate_limit: &ApiRateLimit) -> (r: UsageBucket)
    ensures
        r == spec_bucket(title, *rate_limit),
{
    UsageBucket {
        title,
        windows: [
            window_from_api(PRIMARY_WINDOW_LABEL, &rate_limit.primary_window),
            window_from_api(SECONDARY_WINDOW_LABEL, &rate_limit.secondary_window),
        ],
    }
}

/// The rate limit shown as the Spark bucket: the first additional one, or
/// an unknown one where there is none.
pub open spec fn spark_rate_limit(payload: ApiPayload) -> ApiRateLimit {
    if payload.additional_rate_limits@.len() > 0 {
        payload.additional_rate_limits@[0].rate_limit
    } else {
        unknown_rate_limit()
    }
}

/// The buckets shown for a reply.
pub open spec fn spec_snapshot_buckets(payload: ApiPayload) -> Seq<UsageBucket> {
    seq![
        spec_bucket(MAIN_BUCKET_TITLE, payload.rate_limit),
        spec_bucket(SPARK_BUCKET_TITLE, spark_rate_limit(payload)),
    ]
}

/// Builds the snapshot shown for a reply of the usage endpoint.
pub fn snapshot_from_payload(payload: &ApiPayload) -> (r: UsageSnapshot)
    ensures
        r.buckets@ == spec_snapshot_buckets(*payload),
{
    let spark_limit = if payload.additional_rate_limits.len() > 0 {
        payload.additional_rate_limits[0].rate_limit
    } else {
        ApiRateLimit::default()
    };
    let buckets = vec![
        bucket_from_rate_limit(MAIN_BUCKET_TITLE, &payload.rate_limit),
        bucket_from_rate_limit(SPARK_BUCKET_TITLE, &spark_limit),
    ];
    proof {
        assert(buckets@ =~= spec_snapshot_buckets(*payload));
    }
    UsageSnapshot { buckets }
}

/// The zone in which reset times are shown: the configured one (`TZ`)
/// where `chrono-tz` knows it, otherwise UTC.
pub open spec fn spec_local_timezone(setting: Option<Seq<char>>) -> Seq<char> {
    match setting {
        Some(name) => if known_time_zone(name) {
            name
        } else {
            DEFAULT_TIME_ZONE@
        },
        None => DEFAULT_TIME_ZONE@,
    }
}

/// Chooses the zone for reset times from the `TZ` setting, if any.
pub fn local_timezone(setting: Option<String>) -> (r: String)
    ensures
        r@ == spec_local_timezone(match setting { Some(s) => Some(s@), None => None }),
{
    match setting {
        Some(name) => if is_known_time_zone(name.as_str()) {
            name
        } else {
            DEFAULT_TIME_ZONE.to_owned()
        },
        None => DEFAULT_TIME_ZONE.to_owned(),
    }
}

/// The reset time as shown in the zone named `zone`.
pub open spec fn spec_reset_at_text(reset_at: Option<i64>, zone: Seq<char>) -> Seq<char> {
    match reset_at {
        Some(timestamp) => match zoned_time_text(timestamp, zone, RESET_TIME_FORMAT@) {
            Some(text) => text,
            None => UNKNOWN_RESET_TIME@,
        },
        None => UNKNOWN_RESET_TIME@,
    }
}

impl WindowUsage {
    /// When this window resets, shown in the zone named `zone`.
    pub fn reset_at_text(&self, zone: &str) -> (r: String)
        ensures
            r@ == spec_reset_at_text(self.reset_at, zone@),
            forall|t: i64|
                self.reset_at == Some(t) && #[trigger] zoned_time_text(t, zone@, RESET_TIME_FORMAT@) is Some
                    ==> r@ == zoned_time_text(t, zone@, RESET_TIME_FORMAT@)->Some_0,
            forall|t: i64|
                self.reset_at == Some(t) && #[trigger] zoned_time_text(t, zone@, RESET_TIME_FORMAT@) is None
                    ==> r@ == UNKNOWN_RESET_TIME@,
            self.reset_at is None ==> r@ == UNKNOWN_RESET_TIME@,
    {
        match self.reset_at {
            Some(timestamp) => match format_time_in_zone(timestamp, zone, RESET_TIME_FORMAT) {
                Some(text) => text,
                None => UNKNOWN_RESET_TIME.to_owned(),
            },
            None => UNKNOWN_RESET_TIME.to_owned(),
        }
    }
}


/// Percentages are clamped: every window of a snapshot shows at most 100%
/// used.
pub proof fn law_percentages_within_range(payload: ApiPayload)
    ensures
        forall|b: int, w: int|
            0 <= b < spec_snapshot_buckets(payload).len() && 0 <= w < 2 ==> (#[trigger] spec_snapshot_buckets(
                payload,
            )[b].windows[w]).used_percent <= 100,
{
}

/// Missing windows read as unknown and zero: a window with nothing known
/// shows no reset time and 0% used.
pub proof fn law_missing_window_is_unknown(label: &'static str)
    ensures
        spec_window(label, unknown_window()) == (WindowUsage { label, reset_at: None, used_percent: 0 }),
{
}

/// Without additional rate limits, the Spark bucket shows two unknown
/// windows.
pub proof fn law_missing_spark_is_unknown(payload: ApiPayload)
    requires
        payload.additional_rate_limits@.len() == 0,
    ensures
        spec_snapshot_buckets(payload)[1] == spec_bucket(SPARK_BUCKET_TITLE, unknown_rate_limit()),
        spec_snapshot_buckets(payload)[1].windows[0].reset_at is None,
        spec_snapshot_buckets(payload)[1].windows[0].used_percent == 0,
        spec_snapshot_buckets(payload)[1].windows[1].reset_at is None,
        spec_snapshot_buckets(payload)[1].windows[1].used_percent == 0,
{
}

/// Only the first additional rate limit is shown: replies that agree on the
/// main rate limit and on the first additional one give the same snapshot,
/// whatever entries follow.
pub proof fn law_later_limits_ignored(a: ApiPayload, b: ApiPayload)
    requires
        a.rate_limit == b.rate_limit,
        a.additional_rate_limits@.len() > 0,
        b.additional_rate_limits@.len() > 0,
        a.additional_rate_limits@[0] == b.additional_rate_limits@[0],
    ensures
        spec_snapshot_buckets(a) == spec_snapshot_buckets(b),
{
}

/// A window with no reset time shows "unknown", whatever the zone.
pub proof fn law_unknown_reset_time(zone: Seq<char>)
    ensures
        spec_reset_at_text(None, zone) == UNKNOWN_RESET_TIME@,
{
}


/// Clamping only moves what lies outside `0..=100`: a whole percentage in
/// range is shown as it is, one below as 0, one above as 100, and an
/// unknown one as 0.
pub proof fn law_percent_clamped_only_outside_range(v: i64)
    ensures
        0 <= v <= 100 ==> spec_normalized_percent(Some(v)) == v,
        v < 0 ==> spec_normalized_percent(Some(v)) == 0,
        v > 100 ==> spec_normalized_percent(Some(v)) == 100,
        spec_normalized_percent(None) == 0,
{
}

/// The percentage shown keeps the order of what the reply says: more used
/// never shows as less used.
pub proof fn law_percent_monotone(a: i64, b: i64)
    requires
        a <= b,
    ensures
        spec_normalized_percent(Some(a)) <= spec_normalized_percent(Some(b)),
{
}

} // verus!
