//! Timestamps in RFC 3339, read by `chrono`.

use chrono::{DateTime, NaiveDateTime, SecondsFormat, Utc};
use vstd::prelude::*;

verus! {

/// How many seconds the local time of an RFC 3339 timestamp is ahead of UTC;
/// nothing when the text is no such timestamp.
pub uninterp spec fn rfc3339_offset(s: Seq<char>) -> Option<i32>;

/// `chrono::DateTime::parse_from_rfc3339`, and the offset of the result: both
/// depend on the text alone.
#[verifier::external_body]
pub(crate) fn utc_offset(s: &str) -> (r: Option<i32>)
    ensures
        r == rfc3339_offset(s@),
{
    DateTime::parse_from_rfc3339(s).ok().map(|moment| moment.offset().local_minus_utc())
}

/// How many whole seconds lie between two RFC 3339 timestamps; negative when
/// the second is the earlier one.
pub uninterp spec fn rfc3339_seconds(from: Seq<char>, to: Seq<char>) -> Option<i64>;

pub open spec fn both_readable(from: Seq<char>, to: Seq<char>) -> bool {
    rfc3339_offset(from) is Some && rfc3339_offset(to) is Some
}

/// `chrono::DateTime::signed_duration_since` on two RFC 3339 timestamps, in
/// whole seconds: there is a result exactly when both can be read.
#[verifier::external_body]
pub(crate) fn seconds_between(from: &str, to: &str) -> (r: Option<i64>)
    ensures
        r == rfc3339_seconds(from@, to@),
        (r is Some) == both_readable(from@, to@),
{
    let from = DateTime::parse_from_rfc3339(from).ok()?;
    let to = DateTime::parse_from_rfc3339(to).ok()?;
    Some(to.signed_duration_since(from).num_seconds())
}

/// An RFC 3339 timestamp in UTC, to the second; nothing when the text is no such
/// timestamp.
pub uninterp spec fn rfc3339_in_utc(s: Seq<char>) -> Option<Seq<char>>;

/// `chrono::DateTime::parse_from_rfc3339`, and the result in UTC as written by
/// `to_rfc3339_opts` to the second with `Z`: both depend on the text alone, and
/// there is a result exactly when the text can be read.
#[verifier::external_body]
pub(crate) fn in_utc(s: &str) -> (r: Option<String>)
    ensures
        crate::text::opt_text(r) == rfc3339_in_utc(s@),
        (r is Some) == (rfc3339_offset(s@) is Some),
{
    DateTime::parse_from_rfc3339(s).ok().map(
        |moment| moment.with_timezone(&Utc).to_rfc3339_opts(SecondsFormat::Secs, true),
    )
}

/// A local time in a given format, taken as UTC and written in RFC 3339; or why
/// it cannot be read.
pub uninterp spec fn formatted_in_utc(s: Seq<char>, format: Seq<char>) -> Result<
    Seq<char>,
    Seq<char>,
>;

/// `chrono::NaiveDateTime::parse_from_str`, and the result taken as UTC and
/// written by `to_rfc3339_opts` to the second with `Z`; the error as its message.
/// Both depend on the text and the format alone.
#[verifier::external_body]
fn read_format(s: &str, format: &str) -> (r: Result<String, String>)
    ensures
        match r {
            Ok(text) => formatted_in_utc(s@, format@) == Ok::<Seq<char>, Seq<char>>(text@),
            Err(e) => formatted_in_utc(s@, format@) == Err::<Seq<char>, Seq<char>>(e@),
        },
{
    NaiveDateTime::parse_from_str(s, format).map(
        |moment| moment.and_utc().to_rfc3339_opts(SecondsFormat::Secs, true),
    ).map_err(|error| error.to_string())
}

/// A time that is given in RFC 3339 or in another format, in UTC.
pub open spec fn read_moment(s: Seq<char>, format: Seq<char>) -> Result<Seq<char>, Seq<char>> {
    match rfc3339_in_utc(s) {
        Some(text) => Ok(text),
        None => formatted_in_utc(s, format),
    }
}

/// What came of reading a time.
pub open spec fn moment_is(r: Result<String, String>, want: Result<Seq<char>, Seq<char>>) -> bool {
    match r {
        Ok(text) => want == Ok::<Seq<char>, Seq<char>>(text@),
        Err(e) => want == Err::<Seq<char>, Seq<char>>(e@),
    }
}

/// Reads a time that is given in RFC 3339 or in another format.
pub fn time(s: &str, format: &str) -> (r: Result<String, String>)
    ensures
        moment_is(r, read_moment(s@, format@)),
{
    match in_utc(s) {
        Some(text) => Ok(text),
        None => read_format(s, format),
    }
}

} // verus!
