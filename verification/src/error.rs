//! The ways in which building the database fails.
use vstd::prelude::*;

verus! {

/// A failure that ends an attempt to build the database. None of them is
/// kept: after any of them the next attempt starts afresh.
#[derive(Clone, Copy, Debug, PartialEq, Eq, Hash, Structural)]
pub enum DatabaseError {
    /// The archive could not be fetched.
    Transport,
    /// The response did not say how long it is.
    MissingContentLength,
    /// The archive cannot be read or holds no entry.
    Archive,
    /// The entry is not a list of song records.
    Parse,
    /// A time stamp of a record is not written as RFC 3339 asks.
    TimeParse,
    /// The metrics that were supplied with the records do not fit them.
    Metrics,
}

impl DatabaseError {
    /// The failure in words.
    pub open spec fn message(self) -> Seq<char> {
        match self {
            DatabaseError::Transport => "the archive could not be fetched"@,
            DatabaseError::MissingContentLength => "the response carries no content length"@,
            DatabaseError::Archive => "the archive cannot be read"@,
            DatabaseError::Parse => "the records cannot be decoded"@,
            DatabaseError::TimeParse => "a time stamp cannot be parsed"@,
            DatabaseError::Metrics => "the metrics do not fit the records"@,
        }
    }

    /// The failure in words.
    pub fn to_string(&self) -> (r: String)
        ensures
            r@ == self.message(),
    {
        match self {
            DatabaseError::Transport => "the archive could not be fetched".to_owned(),
            DatabaseError::MissingContentLength => "the response carries no content length".to_owned(),
            DatabaseError::Archive => "the archive cannot be read".to_owned(),
            DatabaseError::Parse => "the records cannot be decoded".to_owned(),
            DatabaseError::TimeParse => "a time stamp cannot be parsed".to_owned(),
            DatabaseError::Metrics => "the metrics do not fit the records".to_owned(),
        }
    }
}

} // verus!
