use maptime::commit_id::{CommitId, Error as IdError};
use maptime::commit_list::{CommitInput, Error as ListError};
use maptime::git::{read_commit, read_commit_id, Error as GitError};

const HEX40: &str = "0123456789abcdef0123456789abcdef01234567";

#[test]
fn commit_id_accepts_forty_hex_digits() {
    let id = CommitId::from_str(HEX40).unwrap();
    assert_eq!(id.as_str(), HEX40);
}

#[test]
fn commit_id_accepts_upper_case_digits() {
    let upper = "0123456789ABCDEF0123456789ABCDEF01234567";
    let id = CommitId::from_str(upper).unwrap();
    assert_eq!(id.as_str(), upper);
}

#[test]
fn commit_id_trims_surrounding_whitespace() {
    let id = CommitId::from_str(&format!("  {}\n", HEX40)).unwrap();
    assert_eq!(id.as_str(), HEX40);
}

#[test]
fn commit_id_rejects_non_hex() {
    let bad = "z123456789abcdef0123456789abcdef01234567";
    assert!(matches!(CommitId::from_str(bad), Err(IdError::FromHex(_))));
}

#[test]
fn commit_id_rejects_wrong_length() {
    let short = "0123456789abcdef0123456789abcdef012345";
    assert!(matches!(CommitId::from_str(short), Err(IdError::Length)));
}

#[test]
fn commit_id_rejects_odd_length_as_hex_error() {
    let odd = "0123456789abcdef0123456789abcdef0123456";
    assert!(matches!(CommitId::from_str(odd), Err(IdError::FromHex(_))));
}

#[test]
fn commit_input_splits_id_and_note() {
    let ci = CommitInput::from_str(&format!("{}  big refactor ", HEX40)).unwrap();
    assert_eq!(ci.id.as_str(), HEX40);
    assert_eq!(ci.note.as_deref(), Some("big refactor"));
}

#[test]
fn commit_input_without_note() {
    let ci = CommitInput::from_str(HEX40).unwrap();
    assert_eq!(ci.id.as_str(), HEX40);
    assert!(ci.note.is_none());
}

#[test]
fn commit_input_rejects_short_line() {
    assert!(matches!(
        CommitInput::from_str("0123"),
        Err(ListError::Length)
    ));
}

#[test]
fn commit_input_rejects_bad_id() {
    let bad = format!("z{}", &HEX40[1..]);
    assert!(matches!(
        CommitInput::from_str(&bad),
        Err(ListError::CommitId(_))
    ));
}

#[test]
fn read_commit_id_trims_tool_output() {
    let id = read_commit_id(&format!("{}\n", HEX40)).unwrap();
    assert_eq!(id.as_str(), HEX40);
}

#[test]
fn read_commit_id_rejects_garbage() {
    assert!(matches!(
        read_commit_id("HEAD is now at something"),
        Err(GitError::ReadCommitId(_))
    ));
}

#[test]
fn read_commit_parses_rfc2822_date() {
    let input = CommitInput::from_str(HEX40).unwrap();
    let commit = read_commit(&input, "Thu, 1 Jan 1970 00:00:10 +0000").unwrap();
    assert_eq!(commit.date, 10);
    assert_eq!(commit.id.as_str(), HEX40);
    assert!(commit.note.is_none());
}

#[test]
fn read_commit_honours_the_offset() {
    let input = CommitInput::from_str(HEX40).unwrap();
    let commit = read_commit(&input, "Thu, 1 Jan 1970 01:00:00 +0100").unwrap();
    assert_eq!(commit.date, 0);
}

#[test]
fn read_commit_rejects_malformed_date() {
    let input = CommitInput::from_str(HEX40).unwrap();
    assert!(matches!(
        read_commit(&input, "not a date"),
        Err(GitError::DateParse(_))
    ));
}
