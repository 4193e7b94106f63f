//! Reading what the version-control tool reports: commit dates and
//! commit identifiers, parsed out of its textual output.

use vstd::prelude::*;

use crate::commit_id::{self, valid_commit_id, CommitId};
use crate::commit_list::CommitInput;
use crate::data::Commit;
use crate::strutil::trim_spec;

verus! {

/// The error type chrono's parsers report.
#[verifier::external_type_specification]
#[verifier::external_body]
pub struct ExParseError(chrono::ParseError);

/// The instant an RFC 2822 date-and-time text denotes, in seconds since
/// the Unix epoch, or nothing when the text is not a valid RFC 2822 date.
pub uninterp spec fn rfc2822_epoch(s: Seq<char>) -> Option<i64>;

/// Relies on chrono's `DateTime::parse_from_rfc2822` and `timestamp`: the
/// parse depends on the text alone, and `timestamp` is the denoted instant
/// in seconds since the Unix epoch.
#[verifier::external_body]
fn parse_rfc2822(s: &str) -> (r: Result<i64, chrono::ParseError>)
    ensures
        r matches Ok(t) ==> rfc2822_epoch(s@) == Some(t),
        r is Err <==> rfc2822_epoch(s@) is None,
{
    chrono::DateTime::parse_from_rfc2822(s).map(|d| d.timestamp())
}

/// Why what version control reported could not be read.
#[derive(Debug)]
pub enum Error {
    /// The commit date reported by version control is not an RFC 2822
    /// date.
    DateParse(chrono::ParseError),
    /// The reported commit identifier is malformed.
    ReadCommitId(commit_id::Error),
}

/// Resolve a pending commit against the date text that version control
/// reports for it (an RFC 2822 date).
pub fn read_commit(commit: &CommitInput, date_text: &str) -> (r: Result<Commit, Error>)
    ensures
        r matches Ok(c) ==> {
            &&& rfc2822_epoch(date_text@) == Some(c.date)
            &&& c.id@ == commit.id@
            &&& (c.note is Some <==> commit.note is Some)
            &&& (c.note matches Some(nt) ==> commit.note matches Some(o) && nt@ == o@)
        },
        r is Err <==> rfc2822_epoch(date_text@) is None,
{
    match parse_rfc2822(date_text) {
        Err(e) => Err(Error::DateParse(e)),
        Ok(date) => {
            let note = match &commit.note {
                Some(n) => Some(n.clone()),
                None => None,
            };
            Ok(Commit { id: commit.id.clone(), date, note })
        },
    }
}


/// Parse the commit identifier that version control reported (one line of
/// output naming a commit hash).
pub fn read_commit_id(stdout: &str) -> (r: Result<CommitId, Error>)
    ensures
        r matches Ok(c) ==> c@ == trim_spec(stdout@) && c.wf(),
        r is Ok <==> valid_commit_id(trim_spec(stdout@)),
        r matches Err(e) ==> e is ReadCommitId,
{
    match CommitId::from_str(stdout) {
        Ok(c) => Ok(c),
        Err(e) => Err(Error::ReadCommitId(e)),
    }
}

} // verus!
