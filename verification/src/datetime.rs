use vstd::prelude::*;

verus! {

/// What parsing a `YYYY-MM-DD hh:mm:ss` text yields, as seconds since the
/// Unix epoch: a function of the text alone. Calendar arithmetic is left to
/// the date crate; contracts only need the determinism.
pub uninterp spec fn datetime_secs_of(s: Seq<char>) -> Option<i64>;

/// Relies on chrono::NaiveDateTime::parse_from_str with the payment
/// gateway's `%Y-%m-%d %H:%M:%S` format, and on NaiveDateTime::and_utc and
/// DateTime::timestamp to read the parsed moment as Unix seconds: the
/// outcome depends on the text alone.
#[verifier::external_body]
pub fn parse_datetime_secs(s: &str) -> (r: Option<i64>)
    ensures
        r == datetime_secs_of(s@),
{
    match chrono::NaiveDateTime::parse_from_str(s, "%Y-%m-%d %H:%M:%S") {
        Ok(d) => Some(d.and_utc().timestamp()),
        Err(_) => None,
    }
}

} // verus!
