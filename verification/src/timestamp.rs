//! Instants on the UTC time line, read from RFC 3339 text.

use vstd::prelude::*;

verus! {

/// An instant on the UTC time line: the whole seconds since the Unix epoch
/// and the nanoseconds past that second.
#[derive(Clone, Copy, Debug, PartialEq, Eq, Structural)]
pub struct Timestamp {
    pub secs: i64,
    pub nanos: u32,
}

/// What `chrono::DateTime::parse_from_rfc3339` makes of a text, moved to UTC:
/// the seconds since the Unix epoch and the nanoseconds past that second, or
/// `None` where chrono rejects the text.
pub uninterp spec fn rfc3339_instant(text: Seq<char>) -> Option<(i64, u32)>;

/// Calls `chrono::DateTime::parse_from_rfc3339`, moves the result to UTC with
/// `with_timezone`, and reads it with `timestamp` and
/// `timestamp_subsec_nanos`. The contract only names the outcome: chrono's
/// parser is a function of the text alone.
#[verifier::external_body]
fn parse_rfc3339(text: &str) -> (parsed: Option<(i64, u32)>)
    ensures
        parsed == rfc3339_instant(text@),
{
    match chrono::DateTime::parse_from_rfc3339(text) {
        Ok(at) => {
            let utc = at.with_timezone(&chrono::Utc);
            Some((utc.timestamp(), utc.timestamp_subsec_nanos()))
        },
        Err(_) => None,
    }
}

impl Timestamp {
    /// The instant that a text denotes, if it is an RFC 3339 date and time.
    pub open spec fn of_text(text: Seq<char>) -> Option<Timestamp> {
        match rfc3339_instant(text) {
            Some(at) => Some(Timestamp { secs: at.0, nanos: at.1 }),
            None => None,
        }
    }

    /// The instant that the parts of a parsed text stand for.
    pub fn from_parts(parts: Option<(i64, u32)>) -> (at: Option<Timestamp>)
        ensures
            at == match parts {
                Some(p) => Some(Timestamp { secs: p.0, nanos: p.1 }),
                None => None,
            },
    {
        match parts {
            Some(p) => Some(Timestamp { secs: p.0, nanos: p.1 }),
            None => None,
        }
    }

    /// Reads an RFC 3339 date and time such as `2015-05-15T00:00:00Z`.
    pub fn parse(text: &str) -> (at: Option<Timestamp>)
        ensures
            at == Timestamp::of_text(text@),
    {
        Timestamp::from_parts(parse_rfc3339(text))
    }
}

} // verus!
