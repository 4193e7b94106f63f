//! Commit list entries as the operator supplies them: an identifier and an
//! optional free-text note.

use vstd::prelude::*;

use crate::commit_id::{self, valid_commit_id, CommitId};
use crate::strutil::{trim, trim_spec};

verus! {

/// A revision to be measured, as entered by the operator: the commit hash,
/// and an optional note shown beside it in reports.
#[derive(Debug)]
pub struct CommitInput {
    pub id: CommitId,
    pub note: Option<String>,
}

/// Why a line was rejected as a commit list entry.
#[derive(Debug)]
pub enum Error {
    /// The line is shorter than a commit identifier.
    Length,
    /// The identifier part is not a well-formed commit hash.
    CommitId(commit_id::Error),
}

/// A commit list entry, read as its identifier text and note text.
pub ghost struct CommitInputV {
    pub id: Seq<char>,
    pub note: Option<Seq<char>>,
}

impl View for CommitInput {
    type V = CommitInputV;

    open spec fn view(&self) -> CommitInputV {
        CommitInputV {
            id: self.id@,
            note: match self.note {
                Some(n) => Some(n@),
                None => None,
            },
        }
    }
}

impl CommitInput {
    /// Both parts of the entry are well formed.
    pub open spec fn wf(&self) -> bool {
        self.id.wf()
    }

    /// Parse one commit list line: the first 40 characters are the
    /// identifier, the rest (trimmed) is the note, empty meaning none.
    pub fn from_str(s: &str) -> (r: Result<CommitInput, Error>)
        ensures
            s@.len() < 40 <==> r matches Err(Error::Length),
            r is Ok <==> s@.len() >= 40 && valid_commit_id(trim_spec(s@.subrange(0, 40))),
            r matches Ok(ci) ==> {
                &&& ci.wf()
                &&& ci.id@ == trim_spec(s@.subrange(0, 40))
                &&& (trim_spec(s@.subrange(40, s@.len() as int)).len() == 0 <==> ci.note is None)
                &&& (ci.note matches Some(nt) ==> nt@ == trim_spec(
                    s@.subrange(40, s@.len() as int),
                ))
            },
    {
        let n = s.unicode_len();
        if n >= 40 {
            let commit_str = s.substring_char(0, 40);
            match CommitId::from_str(commit_str) {
                Err(e) => Err(Error::CommitId(e)),
                Ok(commit) => {
                    let note_str = trim(s.substring_char(40, n));
                    let note = if note_str.unicode_len() > 0 {
                        Some(note_str.to_owned())
                    } else {
                        None
                    };
                    Ok(CommitInput { id: commit, note })
                },
            }
        } else {
            Err(Error::Length)
        }
    }
}

impl Clone for CommitInput {
    fn clone(&self) -> (r: Self)
        ensures
            r == *self,
    {
        let note = match &self.note {
            Some(n) => Some(n.clone()),
            None => None,
        };
        CommitInput { id: self.id.clone(), note }
    }
}

} // verus!
