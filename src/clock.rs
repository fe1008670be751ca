//! Calendar times, as seconds since the epoch, and their text forms; the
//! parsing and formatting are chrono's.
use vstd::prelude::*;

verus! {

/// What chrono reads from `YYYY-MM-DD HH:MM:SS`, as seconds since the epoch.
pub uninterp spec fn wall_time(s: Seq<char>) -> Option<i64>;

/// What chrono writes for a number of seconds since the epoch, in the form
/// `YYYY-MM-DD HH:MM:SS`.
pub uninterp spec fn wall_time_text(secs: i64) -> Option<Seq<char>>;

/// What chrono reads from an RFC 822 date as RSS writes it
/// (`%a, %d %b %Y %H:%M:%S %Z`), as seconds since the epoch.
pub uninterp spec fn rss_time(s: Seq<char>) -> Option<i64>;

/// What chrono reads from `YYYY-MM-DDTHH:MM:SS.mmmZ`, as seconds since the
/// epoch.
pub uninterp spec fn post_time(s: Seq<char>) -> Option<i64>;

pub open spec fn text_view(o: Option<String>) -> Option<Seq<char>> {
    match o {
        Some(s) => Some(s@),
        None => None,
    }
}

/// Relies on chrono's `NaiveDateTime::parse_from_str` with the format
/// `%Y-%m-%d %H:%M:%S`, read as UTC.
#[verifier::external_body]
pub(crate) fn parse_wall_time(s: &str) -> (r: Option<i64>)
    ensures
        r == wall_time(s@),
{
    match chrono::NaiveDateTime::parse_from_str(s, "%Y-%m-%d %H:%M:%S") {
        Ok(t) => Some(t.and_utc().timestamp()),
        Err(_) => None,
    }
}

/// Relies on chrono's `DateTime::<Utc>::from_timestamp` and `format` with
/// `%Y-%m-%d %H:%M:%S`; nothing where the time is out of chrono's range.
#[verifier::external_body]
pub(crate) fn format_wall_time(secs: i64) -> (r: Option<String>)
    ensures
        text_view(r) == wall_time_text(secs),
{
    match chrono::DateTime::<chrono::Utc>::from_timestamp(secs, 0) {
        Some(t) => Some(t.format("%Y-%m-%d %H:%M:%S").to_string()),
        None => None,
    }
}

/// Relies on chrono's `NaiveDateTime::parse_from_str` with the format
/// `%a, %d %b %Y %H:%M:%S %Z`, read as UTC.
#[verifier::external_body]
pub(crate) fn parse_rss_time(s: &str) -> (r: Option<i64>)
    ensures
        r == rss_time(s@),
{
    match chrono::NaiveDateTime::parse_from_str(s, "%a, %d %b %Y %H:%M:%S %Z") {
        Ok(t) => Some(t.and_utc().timestamp()),
        Err(_) => None,
    }
}

/// Relies on chrono's `NaiveDateTime::parse_from_str` with the format
/// `%Y-%m-%dT%H:%M:%S%.3fZ`, read as UTC.
#[verifier::external_body]
pub(crate) fn parse_post_time(s: &str) -> (r: Option<i64>)
    ensures
        r == post_time(s@),
{
    match chrono::NaiveDateTime::parse_from_str(s, "%Y-%m-%dT%H:%M:%S%.3fZ") {
        Ok(t) => Some(t.and_utc().timestamp()),
        Err(_) => None,
    }
}

/// The offset of the local time that posts are shown in, in seconds.
pub const DISPLAY_OFFSET: i64 = 32400;

/// The time shown beside a post: its time moved to the display offset and
/// written as `YYYY-MM-DD HH:MM:SS`; nothing where that leaves chrono's range.
pub fn display_time(secs: i64) -> (r: Option<String>)
    ensures
        secs <= i64::MAX - DISPLAY_OFFSET ==> text_view(r) == wall_time_text((secs + DISPLAY_OFFSET) as i64),
        secs > i64::MAX - DISPLAY_OFFSET ==> r.is_none(),
{
    if secs > i64::MAX - DISPLAY_OFFSET {
        None
    } else {
        format_wall_time(secs + DISPLAY_OFFSET)
    }
}

} // verus!
