//! Report dates: a report's start timestamp (milliseconds since the Unix
//! epoch) is rendered as a `YYYY-MM-DD` label in the raid team's time zone,
//! a fixed offset of eight hours behind UTC. The calendar conversion itself
//! is done by the `chrono` crate.

use vstd::prelude::*;

verus! {

/// The `YYYY-MM-DD` label of the UTC calendar date at `secs` seconds since
/// the Unix epoch, as `chrono` renders it.
pub uninterp spec fn utc_date_label(secs: int) -> Seq<char>;

/// Relies on `chrono::DateTime::from_timestamp(secs, 0)` and its `%Y-%m-%d`
/// formatting: for a count of seconds within chrono's documented range
/// (about 262,000 years either side of the common era) the conversion
/// succeeds, and the rendered label depends on the seconds alone.
#[verifier::external_body]
fn format_utc_date(secs: i64) -> (r: String)
    requires
        -8_000_000_000_000 <= secs <= 8_000_000_000_000,
    ensures
        r@ == utc_date_label(secs as int),
{
    let dt = chrono::DateTime::from_timestamp(secs, 0).expect("seconds within chrono's range");
    dt.format("%Y-%m-%d").to_string()
}

/// The date label reported for a report-start timestamp in milliseconds:
/// the UTC date of the instant eight hours (28,800 seconds) earlier.
pub open spec fn spec_pacific_date(ms: u64) -> Seq<char> {
    utc_date_label(ms as int / 1000 - 28800)
}

/// Render the date label for a report-start timestamp in milliseconds.
pub fn ms_to_pacific_date(ms: u64) -> (r: String)
    requires
        ms <= 8_000_000_000_000_000,
    ensures
        r@ == spec_pacific_date(ms),
{
    let secs_since_epoch = ms / 1000;
    let secs = (secs_since_epoch as i64) - 28800;
    format_utc_date(secs)
}

} // verus!
