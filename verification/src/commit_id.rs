//! Revision identifiers: fixed-length commit hashes, validated on entry.

use vstd::prelude::*;

use crate::strutil::{trim, trim_spec};

verus! {

/// The error type the hex validation reports.
#[verifier::external_type_specification]
#[verifier::external_body]
pub struct ExFromHexError(hex::FromHexError);

/// `c` is an ASCII hexadecimal digit.
pub open spec fn is_hex_digit(c: char) -> bool {
    ('0' as u32 <= c as u32 && c as u32 <= '9' as u32) || ('a' as u32 <= c as u32 && c as u32
        <= 'f' as u32) || ('A' as u32 <= c as u32 && c as u32 <= 'F' as u32)
}

/// A well-formed commit identifier: exactly 40 hexadecimal digits.
pub open spec fn valid_commit_id(s: Seq<char>) -> bool {
    s.len() == 40 && forall|i: int| 0 <= i < s.len() ==> is_hex_digit(#[trigger] s[i])
}

/// Relies on `hex::decode`: it succeeds exactly on strings of an even
/// number of ASCII hexadecimal digits (upper or lower case).
#[verifier::external_body]
fn decode_hex(s: &str) -> (r: Result<Vec<u8>, hex::FromHexError>)
    ensures
        r is Ok <==> (s@.len() % 2 == 0 && forall|i: int|
            0 <= i < s@.len() ==> is_hex_digit(#[trigger] s@[i])),
{
    hex::decode(s)
}

/// An opaque, globally unique revision identifier: a 40-digit commit hash.
#[derive(Debug)]
pub struct CommitId(String);

impl View for CommitId {
    type V = Seq<char>;

    closed spec fn view(&self) -> Seq<char> {
        self.0@
    }
}

/// Why a string was rejected as a commit identifier.
#[derive(Debug)]
pub enum Error {
    /// The string holds a character that is not a hexadecimal digit, or an
    /// odd number of digits.
    FromHex(hex::FromHexError),
    /// The string is valid hexadecimal but not 40 digits long.
    Length,
}

impl CommitId {
    /// A well-formed identifier holds exactly 40 hexadecimal digits.
    pub open spec fn wf(&self) -> bool {
        valid_commit_id(self@)
    }

    /// Parse a commit identifier: surrounding whitespace is dropped, and
    /// the rest must be exactly 40 hexadecimal digits.
    pub fn from_str(s: &str) -> (r: Result<CommitId, Error>)
        ensures
            r matches Ok(c) ==> c@ == trim_spec(s@) && c.wf(),
            r is Ok <==> valid_commit_id(trim_spec(s@)),
            r matches Err(Error::Length) <==> (trim_spec(s@).len() % 2 == 0 && trim_spec(
                s@,
            ).len() != 40 && forall|i: int|
                0 <= i < trim_spec(s@).len() ==> is_hex_digit(#[trigger] trim_spec(s@)[i])),
    {
        let t = trim(s);
        match decode_hex(t) {
            Err(e) => Err(Error::FromHex(e)),
            Ok(_) => {
                if t.unicode_len() != 40 {
                    Err(Error::Length)
                } else {
                    Ok(CommitId(t.to_owned()))
                }
            },
        }
    }

    /// The identifier's digits.
    pub fn as_str(&self) -> (r: &str)
        ensures
            r@ == self@,
    {
        self.0.as_str()
    }
}

impl Clone for CommitId {
    fn clone(&self) -> (r: Self)
        ensures
            r == *self,
    {
        CommitId(self.0.clone())
    }
}

impl PartialEq for CommitId {
    fn eq(&self, other: &Self) -> (r: bool) {
        self.0 == other.0
    }
}

impl vstd::std_specs::cmp::PartialEqSpecImpl for CommitId {
    open spec fn obeys_eq_spec() -> bool {
        true
    }

    open spec fn eq_spec(&self, other: &Self) -> bool {
        self@ == other@
    }
}

impl Eq for CommitId {

}

} // verus!
