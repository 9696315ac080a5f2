//! Absolute-time text and duration text, through the external time
//! libraries: validation of timestamp claims and formatting of a computed
//! expiry instant.

use vstd::prelude::*;

verus! {

/// Largest Unix timestamp, in seconds, whose absolute-time text the
/// formatter can produce (the last second of year 9999).
pub const MAX_UNIX_SECS: u64 = 253402300799;

/// Whether a text is valid absolute-time text (RFC 3339).
pub uninterp spec fn rfc3339_parses(s: Seq<char>) -> bool;

/// The canonical absolute-time text of a Unix timestamp, in seconds.
pub uninterp spec fn rfc3339_of(secs: u64) -> Seq<char>;

/// The whole seconds of the duration a text describes, or none when the
/// text is not duration text.
pub uninterp spec fn duration_secs_of(s: Seq<char>) -> Option<u64>;

/// Relies on time's `OffsetDateTime::parse` with the RFC 3339 well-known
/// format: whether a text parses is a function of the text alone.
#[verifier::external_body]
pub fn timestamp_parses(s: &str) -> (r: bool)
    ensures
        r == rfc3339_parses(s@),
{
    time::OffsetDateTime::parse(s, &time::format_description::well_known::Rfc3339).is_ok()
}

/// Relies on time's `OffsetDateTime`: turning a Unix timestamp within the
/// representable range into its RFC 3339 text is a function of the timestamp
/// alone. Timestamps up to [`MAX_UNIX_SECS`] lie in the range the library
/// documents for both the conversion and the format.
#[verifier::external_body]
pub fn format_timestamp(secs: u64) -> (r: String)
    requires
        secs <= MAX_UNIX_SECS,
    ensures
        r@ == rfc3339_of(secs),
{
    let dt = time::OffsetDateTime::from_unix_timestamp(secs as i64).unwrap();
    dt.format(&time::format_description::well_known::Rfc3339).unwrap()
}

/// Relies on humantime's `parse_duration`: the parse is a function of the
/// text alone; the wrapper keeps the whole seconds of the parsed duration.
#[verifier::external_body]
pub fn parse_duration_secs(s: &str) -> (r: Option<u64>)
    ensures
        r == duration_secs_of(s@),
{
    match humantime::parse_duration(s) {
        Ok(d) => Some(d.as_secs()),
        Err(_) => None,
    }
}

} // verus!
