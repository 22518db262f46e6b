use vstd::prelude::*;

verus! {

/// An instant with the offset from UTC under which it was written.
#[derive(Debug, PartialEq, Eq, Clone, Copy, Structural)]
pub struct Date {
    /// Whole seconds since 1970-01-01T00:00:00Z.
    pub timestamp: i64,
    /// Nanoseconds past the whole second.
    pub nanosecond: u32,
    /// Seconds that local time is ahead of UTC.
    pub offset: i32,
}

/// The date and time that `chrono` reads from an RFC 3339 text, or nothing
/// where it reads none.
pub uninterp spec fn rfc3339_date(text: Seq<char>) -> Option<Date>;

/// Reads an RFC 3339 date and time with `chrono::DateTime::parse_from_rfc3339`.
///
/// The result is that function's, taken apart into the seconds since the
/// epoch (`timestamp`), the nanoseconds past the second
/// (`timestamp_subsec_nanos`) and the offset of the parsed time zone
/// (`local_minus_utc`); nothing where the function gives an error.
#[verifier::external_body]
pub(crate) fn parse_rfc3339(text: &str) -> (r: Option<Date>)
    ensures
        r == rfc3339_date(text@),
{
    match chrono::DateTime::parse_from_rfc3339(text) {
        Ok(d) => Some(
            Date {
                timestamp: d.timestamp(),
                nanosecond: d.timestamp_subsec_nanos(),
                offset: d.offset().local_minus_utc(),
            },
        ),
        Err(_) => None,
    }
}

} // verus!
