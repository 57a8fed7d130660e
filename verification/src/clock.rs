//! Calendar arithmetic that the library leaves to `chrono`.
use vstd::prelude::*;

verus! {

/// The `"HH:MM"` text that chrono gives for the UTC instant `secs` seconds and
/// `nsecs` nanoseconds after the Unix epoch, or `None` when chrono rejects
/// the pair.
pub uninterp spec fn utc_hm_text(secs: i64, nsecs: u32) -> Option<Seq<char>>;

/// Calls `chrono::DateTime::<Utc>::from_timestamp(secs, nsecs)` and formats
/// the instant with `"%H:%M"`. The calendar computation is not restated: the
/// contract names the text `utc_hm_text(secs, nsecs)`.
#[verifier::external_body]
pub(crate) fn utc_hm(secs: i64, nsecs: u32) -> (res: Option<String>)
    ensures
        match res {
            Some(s) => utc_hm_text(secs, nsecs) == Some(s@),
            None => utc_hm_text(secs, nsecs) is None,
        },
{
    chrono::DateTime::<chrono::Utc>::from_timestamp(secs, nsecs).map(|d| d.format("%H:%M").to_string())
}

/// The whole seconds of a millisecond timestamp, truncated toward zero.
pub open spec fn ms_secs(ms: i64) -> int {
    if ms >= 0 {
        ms as int / 1000
    } else {
        -((-(ms as int)) / 1000)
    }
}

/// The nanosecond field that `(ms % 1000) * 1_000_000` yields, reduced to a
/// `u32` as the `as u32` cast does.
pub open spec fn ms_nanos(ms: i64) -> u32 {
    ((ms - ms_secs(ms) * 1000) * 1_000_000) as u32
}

/// `"HH:MM"` of a millisecond Unix timestamp, in UTC, or that of the Unix
/// epoch when chrono cannot represent the instant.
pub open spec fn epoch_ms_hm(ms: i64) -> Seq<char> {
    match utc_hm_text(ms_secs(ms) as i64, ms_nanos(ms)) {
        Some(t) => t,
        None => "00:00"@,
    }
}

/// Formats a millisecond Unix timestamp as `"HH:MM"` (UTC) for prompts.
pub fn epoch_ms_to_hm(ms: i64) -> (res: String)
    ensures
        res@ == epoch_ms_hm(ms),
{
    let secs = ms / 1000;
    let rem = ms % 1000;
    let nsecs = (rem * 1_000_000) as u32;
    match utc_hm(secs, nsecs) {
        Some(text) => text,
        None => String::from_str("00:00"),
    }
}


/// An instant as chrono's `DateTime<Utc>` holds it: whole seconds since the
/// Unix epoch and the nanoseconds past that second (up to 1_999_999_999
/// during a leap second).
#[derive(Clone, Copy, Debug, PartialEq, Eq)]
pub struct Instant {
    pub secs: i64,
    pub nanos: u32,
}

impl Instant {
    /// The nanosecond field is within chrono's range.
    pub open spec fn wf(self) -> bool {
        self.nanos < 2_000_000_000
    }

    /// An integer that orders instants as chrono orders `DateTime<Utc>`
    /// values: by second, then by nanosecond.
    pub open spec fn key(self) -> int {
        self.secs * 2_000_000_000 + self.nanos
    }
}

/// Distinct well-formed instants have distinct keys, and the key order
/// agrees with the order of whole seconds.
pub proof fn lemma_key(a: Instant, b: Instant)
    requires
        a.wf(),
        b.wf(),
    ensures
        a.key() == b.key() ==> a == b,
        a.key() <= b.key() ==> a.secs <= b.secs,
        a.secs < b.secs ==> a.key() < b.key(),
{
}

/// Whether `a` is not later than `b`.
pub fn instant_le(a: Instant, b: Instant) -> (res: bool)
    requires
        a.wf(),
        b.wf(),
    ensures
        res == (a.key() <= b.key()),
{
    a.secs < b.secs || (a.secs == b.secs && a.nanos <= b.nanos)
}

/// The instant that chrono parses from an RFC 3339 text, converted to UTC, as
/// (seconds, nanoseconds); `None` when chrono rejects the text.
pub uninterp spec fn rfc3339_utc_instant(text: Seq<char>) -> Option<(i64, u32)>;

/// Calls `chrono::DateTime::parse_from_rfc3339` and converts the result to
/// UTC (`with_timezone(&Utc)`), reading `timestamp()` and
/// `timestamp_subsec_nanos()`. The grammar of RFC 3339 is not restated: the
/// contract names the parsed value `rfc3339_utc_instant(text@)`, and claims
/// only that the nanoseconds stay below 2_000_000_000, which chrono's
/// `NaiveTime` keeps as an invariant.
#[verifier::external_body]
pub(crate) fn parse_rfc3339_utc(text: &str) -> (res: Option<Instant>)
    ensures
        res matches Some(i) ==> rfc3339_utc_instant(text@) == Some((i.secs, i.nanos)) && i.wf(),
        res is None ==> rfc3339_utc_instant(text@) is None,
{
    match chrono::DateTime::parse_from_rfc3339(text) {
        Ok(d) => {
            let u = d.with_timezone(&chrono::Utc);
            Some(Instant { secs: u.timestamp(), nanos: u.timestamp_subsec_nanos() })
        },
        Err(_) => None,
    }
}

/// Whether `secs` seconds after the Unix epoch fall in the years 1 to 9999,
/// which RFC 3339 writes with four digits.
pub open spec fn in_rfc3339_years(secs: int) -> bool {
    -62_135_596_800 <= secs < 253_402_300_800
}

/// The RFC 3339 text that chrono writes for the UTC instant
/// (`secs`, `nanos`), or `None` when chrono cannot represent it.
pub uninterp spec fn utc_rfc3339_text(secs: i64, nanos: u32) -> Option<Seq<char>>;

/// Calls `chrono::DateTime::<Utc>::from_timestamp(secs, nanos)` and formats
/// the instant with `to_rfc3339()`. The calendar and the format are not
/// restated: the contract names the text `utc_rfc3339_text(secs, nanos)`.
/// It claims one more thing of a whole second in the years 1 to 9999: chrono
/// can represent it, and its text (`YYYY-MM-DDTHH:MM:SS+00:00`, no fraction)
/// parses back with `parse_from_rfc3339` to the same instant.
#[verifier::external_body]
pub(crate) fn format_rfc3339_utc(secs: i64, nanos: u32) -> (res: Option<String>)
    ensures
        res matches Some(s) ==> utc_rfc3339_text(secs, nanos) == Some(s@),
        res is None ==> utc_rfc3339_text(secs, nanos) is None,
        nanos == 0 && in_rfc3339_years(secs as int) ==> res is Some,
        res matches Some(s) ==> (nanos == 0 && in_rfc3339_years(secs as int) ==> rfc3339_utc_instant(
            s@,
        ) == Some((secs, 0u32))),
{
    match chrono::DateTime::<chrono::Utc>::from_timestamp(secs, nanos) {
        Some(d) => Some(d.to_rfc3339()),
        None => None,
    }
}


/// The RFC 3339 text of a millisecond Unix timestamp in UTC, or that of the
/// Unix epoch when chrono cannot represent the instant.
pub open spec fn epoch_ms_rfc3339(ms: i64) -> Seq<char> {
    match utc_rfc3339_text(ms_secs(ms) as i64, ms_nanos(ms)) {
        Some(t) => t,
        None => "1970-01-01T00:00:00+00:00"@,
    }
}

/// Formats a millisecond Unix timestamp as RFC 3339 (UTC) for comparisons
/// with stored timestamps.
pub fn epoch_ms_to_rfc3339(ms: i64) -> (res: String)
    ensures
        res@ == epoch_ms_rfc3339(ms),
{
    let secs = ms / 1000;
    let rem = ms % 1000;
    let nsecs = (rem * 1_000_000) as u32;
    match format_rfc3339_utc(secs, nsecs) {
        Some(text) => text,
        None => String::from_str("1970-01-01T00:00:00+00:00"),
    }
}

/// The signed span from (`from_secs`, `from_nanos`) to (`to_secs`,
/// `to_nanos`) that chrono computes for two UTC instants, as its
/// `num_seconds()` and `subsec_nanos()`; `None` when chrono cannot represent
/// either instant.
pub uninterp spec fn utc_span_of(from_secs: i64, from_nanos: u32, to_secs: i64, to_nanos: u32) -> Option<(i64, i32)>;

/// Builds both instants with `chrono::DateTime::<Utc>::from_timestamp` and
/// subtracts them (`to - from`, chrono's leap-second-aware
/// `signed_duration_since`), returning the span's `num_seconds()` and
/// `subsec_nanos()`. Chrono's arithmetic is not restated: the contract names
/// the span `utc_span_of(..)`. It claims one more thing: between two whole
/// seconds in the years 1 to 9999, which chrono represents, the span is their
/// difference in seconds with no fraction (no leap second is involved when
/// both fractions are zero).
#[verifier::external_body]
pub(crate) fn utc_span(from: Instant, to: Instant) -> (res: Option<(i64, i32)>)
    ensures
        res == utc_span_of(from.secs, from.nanos, to.secs, to.nanos),
        from.nanos == 0 && to.nanos == 0 && in_rfc3339_years(from.secs as int) && in_rfc3339_years(
            to.secs as int,
        ) ==> res == Some(((to.secs - from.secs) as i64, 0i32)),
{
    match (
        chrono::DateTime::<chrono::Utc>::from_timestamp(from.secs, from.nanos),
        chrono::DateTime::<chrono::Utc>::from_timestamp(to.secs, to.nanos),
    ) {
        (Some(a), Some(b)) => {
            let d = b - a;
            Some((d.num_seconds(), d.subsec_nanos()))
        },
        _ => None,
    }
}

} // verus!
