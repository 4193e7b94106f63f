use maptime::bisect::{
    interpret_output, parse_commit_from_stdout, still_bisecting, BisectOutcome, BisectRange,
    BisectSession, Decision, Error, SessionPhase,
};
use maptime::commit_id::CommitId;
use maptime::data::{BuildResult, Commit, Profile, RebuildType, Timing};
use maptime::series::Entry;

const SEC: u64 = 1_000_000_000;
const HEX40: &str = "0123456789abcdef0123456789abcdef01234567";

fn id(n: u8) -> CommitId {
    let digit = char::from_digit(n as u32, 10).unwrap();
    let text: String = std::iter::repeat(digit).take(40).collect();
    CommitId::from_str(&text).unwrap()
}

fn entry(n: u8, date: i64, duration: u64) -> Entry {
    Entry { commit: Commit { id: id(n), date, note: None }, duration }
}

fn range(first_dur: u64, last_dur: u64, rt: RebuildType) -> BisectRange {
    let diff = if first_dur > last_dur { first_dur - last_dur } else { last_dur - first_dur };
    BisectRange {
        profile: Profile::Dev,
        rebuild_type: rt,
        first: entry(1, 100, first_dur),
        last: entry(2, 200, last_dur),
        diff,
    }
}

fn timing(duration: u64, result: BuildResult, rt: RebuildType) -> Timing {
    Timing { profile: Profile::Dev, rebuild_type: rt, start: 0, duration, result }
}

#[test]
fn threshold_follows_the_stated_formula() {
    // range 12s -> 50s: diff 38s, mid = 50 - 19 = 31s, hysteresis 3.8s.
    let s = BisectSession::start(&range(12 * SEC, 50 * SEC, RebuildType::Full));
    assert_eq!(s.mid, 31 * SEC);
    assert_eq!(s.hysteresis, 3_800_000_000);
    assert!(s.increased);
    assert!(matches!(s.phase, SessionPhase::Searching));
    // a later measurement of 45s lies above mid + hysteresis = 34.8s.
    assert!(s.is_new(45 * SEC));
    assert!(!s.is_new(34 * SEC));
}

#[test]
fn decreasing_range_classifies_below_the_band() {
    // range 50s -> 12s: the regressed side is the small one.
    let s = BisectSession::start(&range(50 * SEC, 12 * SEC, RebuildType::Full));
    assert_eq!(s.mid, 31 * SEC);
    assert!(!s.increased);
    assert!(s.is_new(20 * SEC));
    assert!(!s.is_new(31 * SEC));
    assert!(!s.is_new(45 * SEC));
}

#[test]
fn classification_never_oscillates_upward() {
    let s = BisectSession::start(&range(12 * SEC, 50 * SEC, RebuildType::Full));
    let mut seen_new = false;
    let mut dur: u64 = 0;
    while dur <= 60 * SEC {
        let now = s.is_new(dur);
        if seen_new {
            assert!(now);
        }
        seen_new = now;
        dur += SEC / 2;
    }
    assert!(seen_new);
}

#[test]
fn failed_full_build_is_skipped() {
    let s = BisectSession::start(&range(12 * SEC, 50 * SEC, RebuildType::Full));
    let d = s
        .decide(&id(3), timing(0, BuildResult::Failure, RebuildType::Full), None)
        .unwrap();
    assert!(matches!(d, Decision::Skip));
}

#[test]
fn full_range_classifies_the_full_duration() {
    let s = BisectSession::start(&range(12 * SEC, 50 * SEC, RebuildType::Full));
    let d = s
        .decide(
            &id(3),
            timing(45 * SEC, BuildResult::Success, RebuildType::Full),
            Some(timing(1, BuildResult::Success, RebuildType::Partial)),
        )
        .unwrap();
    assert!(matches!(d, Decision::ReportNew));
    let d2 = s
        .decide(&id(3), timing(12 * SEC, BuildResult::Success, RebuildType::Full), None)
        .unwrap();
    assert!(matches!(d2, Decision::ReportOld));
}

#[test]
fn partial_range_classifies_the_partial_duration() {
    let s = BisectSession::start(&range(12 * SEC, 50 * SEC, RebuildType::Partial));
    let d = s
        .decide(
            &id(3),
            timing(1, BuildResult::Success, RebuildType::Full),
            Some(timing(45 * SEC, BuildResult::Success, RebuildType::Partial)),
        )
        .unwrap();
    assert!(matches!(d, Decision::ReportNew));
}

#[test]
fn missing_required_partial_measurement_is_fatal() {
    // The range classifies by partial rebuilds, the full build succeeded,
    // but no partial measurement was taken: a fatal error, not a skip.
    let s = BisectSession::start(&range(12 * SEC, 50 * SEC, RebuildType::Partial));
    let r = s.decide(&id(3), timing(45 * SEC, BuildResult::Success, RebuildType::Full), None);
    match r {
        Err(Error::NoPartialBuild(c)) => assert_eq!(c.as_str(), id(3).as_str()),
        _ => panic!("expected the missing-partial error"),
    }
}

#[test]
fn all_failures_skip_until_the_primitive_concludes() {
    // Every tested revision fails to build: the driver reports skip each
    // time and ends cleanly once the primitive stops offering revisions.
    let mut s = BisectSession::start(&range(12 * SEC, 50 * SEC, RebuildType::Full));
    let outputs = [
        format!("Bisecting: 2 revisions left\n[{}] one", HEX40),
        format!("Bisecting: 1 revision left\n[{}] two", HEX40),
        "0123456789abcdef0123456789abcdef01234567 is the first new commit\n".to_string(),
    ];
    let mut step = 0;
    loop {
        match interpret_output(&outputs[step]).unwrap() {
            BisectOutcome::Concluded => {
                s.observe(&BisectOutcome::Concluded);
                break;
            }
            BisectOutcome::Next(c) => {
                s.observe(&BisectOutcome::Next(c.clone()));
                let d = s
                    .decide(&c, timing(0, BuildResult::Failure, RebuildType::Full), None)
                    .unwrap();
                assert!(matches!(d, Decision::Skip));
            }
        }
        step += 1;
        assert!(step < outputs.len());
    }
    assert!(matches!(s.phase, SessionPhase::Concluded));
    assert!(s.reset().is_ok());
    assert!(matches!(s.phase, SessionPhase::Inactive));
}

#[test]
fn reset_after_conclusion_never_errors_and_idles_twice() {
    let mut s = BisectSession::start(&range(12 * SEC, 50 * SEC, RebuildType::Full));
    s.observe(&BisectOutcome::Concluded);
    assert!(s.reset().is_ok());
    assert!(matches!(s.phase, SessionPhase::Inactive));
    // resetting again, with no search active, is a no-op that still
    // succeeds
    assert!(s.reset().is_ok());
    assert!(matches!(s.phase, SessionPhase::Inactive));
}

#[test]
fn bisecting_marker_is_recognized() {
    assert!(still_bisecting("Bisecting: 675 revisions left to test after this\n"));
    assert!(still_bisecting("noise\nBisecting: 1 revision left\nmore"));
    assert!(!still_bisecting("abc is the first new commit"));
    assert!(!still_bisecting(""));
    assert!(!still_bisecting("Bisecting"));
}

#[test]
fn commit_is_read_from_the_bracketed_line() {
    let out = format!("some banner\n[{}] fix the frobnicator\n", HEX40);
    let c = parse_commit_from_stdout(&out).unwrap();
    assert_eq!(c.as_str(), HEX40);
}

#[test]
fn missing_bracketed_line_is_a_parse_error() {
    assert!(matches!(
        parse_commit_from_stdout("nothing to see here\n"),
        Err(Error::BisectParse)
    ));
}

#[test]
fn malformed_commit_in_bracketed_line_is_reported() {
    let bad = format!("[zzzz{}] message", &HEX40[4..]);
    assert!(matches!(
        parse_commit_from_stdout(&bad),
        Err(Error::CommitIdParse(_))
    ));
}

#[test]
fn interpret_output_concludes_without_the_marker() {
    assert!(matches!(
        interpret_output("done, first bad commit found").unwrap(),
        BisectOutcome::Concluded
    ));
}

#[test]
fn interpret_output_names_the_next_revision() {
    let out = format!("Bisecting: 3 revisions left\n[{}] subject", HEX40);
    match interpret_output(&out).unwrap() {
        BisectOutcome::Next(c) => assert_eq!(c.as_str(), HEX40),
        _ => panic!("expected a next revision"),
    }
}

#[test]
fn interpret_output_fails_on_marker_without_revision() {
    assert!(matches!(
        interpret_output("Bisecting: 3 revisions left\nno bracket"),
        Err(Error::BisectParse)
    ));
}
