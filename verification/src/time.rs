//! Time stamps: the seconds since the Unix epoch that an RFC 3339 text
//! names.
use crate::error::DatabaseError;
use vstd::prelude::*;

verus! {

/// Seconds since the Unix epoch.
pub type UnixTime = i64;

#[verifier::external_type_specification]
#[verifier::external_body]
pub struct ExParseError(chrono::format::ParseError);

/// The seconds since the Unix epoch of the instant that a text names in the
/// RFC 3339 format, as `chrono` reads it; nothing for a text that it
/// rejects.
pub uninterp spec fn rfc3339_seconds(text: Seq<char>) -> Option<i64>;

/// `chrono::DateTime::parse_from_rfc3339`, and `DateTime::timestamp` of the
/// instant it read: whether the text is accepted, and the seconds it names,
/// depend on the text alone.
#[verifier::external_body]
fn parse_rfc3339(text: &str) -> (r: Result<i64, chrono::format::ParseError>)
    ensures
        r is Ok <==> rfc3339_seconds(text@) is Some,
        r matches Ok(seconds) ==> rfc3339_seconds(text@) == Some(seconds),
{
    let instant = chrono::DateTime::parse_from_rfc3339(text)?;
    Ok(instant.timestamp())
}

/// The Unix time that an RFC 3339 text names.
pub fn unix_time(text: &str) -> (r: Result<UnixTime, DatabaseError>)
    ensures
        r is Ok <==> rfc3339_seconds(text@) is Some,
        r matches Ok(seconds) ==> rfc3339_seconds(text@) == Some(seconds),
        r matches Err(e) ==> e == DatabaseError::TimeParse,
{
    match parse_rfc3339(text) {
        Ok(seconds) => Ok(seconds),
        Err(_) => Err(DatabaseError::TimeParse),
    }
}

} // verus!
