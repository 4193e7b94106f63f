use maptime::commit_id::CommitId;
use maptime::commit_list::CommitInput;
use maptime::data::{BuildResult, Commit, Data, Profile, RebuildType, Timing};
use maptime::exec::{run_command, Action, Error};
use maptime::opts::Command;

fn id(n: u8) -> CommitId {
    let digit = char::from_digit(n as u32, 10).unwrap();
    let text: String = std::iter::repeat(digit).take(40).collect();
    CommitId::from_str(&text).unwrap()
}

fn commit(n: u8, date: i64) -> Commit {
    Commit { id: id(n), date, note: None }
}

fn timing(duration: u64) -> Timing {
    Timing {
        profile: Profile::Dev,
        rebuild_type: RebuildType::Full,
        start: 0,
        duration,
        result: BuildResult::Success,
    }
}

#[test]
fn ingest_commit_queues_the_entry() {
    let mut d = Data::default();
    let ci = CommitInput { id: id(1), note: Some("hello".to_string()) };
    let a = run_command(&Command::IngestCommit(ci), &mut d).unwrap();
    assert!(matches!(a, Action::Saved));
    assert_eq!(d.unresolved_commits.len(), 1);
    assert_eq!(d.unresolved_commits[0].id.as_str(), id(1).as_str());
}

#[test]
fn resolve_commit_moves_the_entry_into_the_store() {
    let mut d = Data::default();
    d.ingest_commit(CommitInput { id: id(1), note: None });
    d.resolve_commit(commit(1, 50));
    assert_eq!(d.unresolved_commits.len(), 0);
    assert_eq!(d.commits.len(), 1);
    assert_eq!(d.commits[0].date, 50);
    // resolving the same commit again replaces its metadata in place
    d.ingest_commit(CommitInput { id: id(1), note: None });
    d.resolve_commit(commit(1, 70));
    assert_eq!(d.commits.len(), 1);
    assert_eq!(d.commits[0].date, 70);
}

#[test]
fn record_timing_appends_per_commit() {
    let mut d = Data::default();
    d.record_timing(&id(1), timing(5));
    d.record_timing(&id(1), timing(7));
    d.record_timing(&id(2), timing(9));
    let one = d.timings_for(&id(1)).unwrap();
    assert_eq!(one.len(), 2);
    assert_eq!(one[0].duration, 5);
    assert_eq!(one[1].duration, 7);
    let two = d.timings_for(&id(2)).unwrap();
    assert_eq!(two.len(), 1);
    assert!(d.timings_for(&id(3)).is_none());
}

#[test]
fn ingest_commit_list_extends_the_queue() {
    let mut d = Data::default();
    d.ingest_commit(CommitInput { id: id(1), note: None });
    maptime::exec::ingest_commit_list(
        &mut d,
        vec![
            CommitInput { id: id(2), note: None },
            CommitInput { id: id(3), note: Some("note".to_string()) },
        ],
    );
    assert_eq!(d.unresolved_commits.len(), 3);
    assert_eq!(d.unresolved_commits[2].id.as_str(), id(3).as_str());
}

#[test]
fn run_commands_refuse_unresolved_or_empty_stores() {
    let mut d = Data::default();
    assert!(matches!(run_command(&Command::RunAll, &mut d), Err(Error::NoCommits)));
    d.ingest_commit(CommitInput { id: id(1), note: None });
    assert!(matches!(
        run_command(&Command::RunAll, &mut d),
        Err(Error::UnresolvedCommits)
    ));
    assert!(matches!(
        run_command(&Command::CatchUp, &mut d),
        Err(Error::UnresolvedCommits)
    ));
    assert!(matches!(
        run_command(&Command::FillGaps, &mut d),
        Err(Error::UnresolvedCommits)
    ));
}

#[test]
fn run_all_plans_one_round_over_every_commit_in_order() {
    let mut d = Data::default();
    d.commits = vec![commit(1, 300), commit(2, 100)];
    let a = run_command(&Command::RunAll, &mut d).unwrap();
    match a {
        Action::Run(plan) => {
            assert_eq!(plan.0.len(), 2);
            assert_eq!(plan.0[0].0.as_str(), id(2).as_str());
            assert_eq!(plan.0[0].1, 1);
            assert_eq!(plan.0[1].0.as_str(), id(1).as_str());
            assert_eq!(plan.0[1].1, 1);
        }
        _ => panic!("expected a run plan"),
    }
}

#[test]
fn fill_gaps_plans_only_unmeasured_commits() {
    let mut d = Data::default();
    d.commits = vec![commit(1, 100), commit(2, 200)];
    d.record_timing(&id(1), timing(5));
    let a = run_command(&Command::FillGaps, &mut d).unwrap();
    match a {
        Action::Run(plan) => {
            assert_eq!(plan.0.len(), 1);
            assert_eq!(plan.0[0].0.as_str(), id(2).as_str());
        }
        _ => panic!("expected a run plan"),
    }
}

#[test]
fn catch_up_schedules_rounds_of_single_measurements() {
    // measurement counts: commit 1 has 0, commit 2 has 2, commit 3 has 1;
    // the best-covered has 2, so the deficits are 2 for commit 1 and 1
    // for commit 3. Ordered by deficit, the rounds go: (3, 1), (1, 1),
    // then (1, 1) again.
    let mut d = Data::default();
    d.commits = vec![commit(1, 100), commit(2, 200), commit(3, 300)];
    d.record_timing(&id(2), timing(5));
    d.record_timing(&id(2), timing(6));
    d.record_timing(&id(3), timing(7));
    let a = run_command(&Command::CatchUp, &mut d).unwrap();
    match a {
        Action::Run(plan) => {
            let got: Vec<(String, u64)> =
                plan.0.iter().map(|e| (e.0.as_str().to_string(), e.1)).collect();
            assert_eq!(
                got,
                vec![
                    (id(3).as_str().to_string(), 1),
                    (id(1).as_str().to_string(), 1),
                    (id(1).as_str().to_string(), 1),
                ]
            );
        }
        _ => panic!("expected a run plan"),
    }
}

#[test]
fn list_report_carries_both_sides_of_the_store() {
    let mut d = Data::default();
    d.ingest_commit(CommitInput { id: id(9), note: None });
    d.commits = vec![commit(1, 300), commit(2, 100)];
    let a = run_command(&Command::ListCommits, &mut d).unwrap();
    match a {
        Action::ListReport { unresolved, commits } => {
            assert_eq!(unresolved.len(), 1);
            assert_eq!(unresolved[0].id.as_str(), id(9).as_str());
            assert_eq!(commits.len(), 2);
            assert_eq!(commits[0].id.as_str(), id(2).as_str());
        }
        _ => panic!("expected a listing"),
    }
}

#[test]
fn dump_report_pairs_each_commit_with_its_measurements() {
    let mut d = Data::default();
    d.commits = vec![commit(1, 100), commit(2, 200)];
    d.record_timing(&id(2), timing(5));
    let a = run_command(&Command::DumpResults, &mut d).unwrap();
    match a {
        Action::DumpReport(rows) => {
            assert_eq!(rows.len(), 2);
            assert_eq!(rows[0].0.as_str(), id(1).as_str());
            assert!(rows[0].1.is_none());
            assert_eq!(rows[1].0.as_str(), id(2).as_str());
            assert_eq!(rows[1].1.as_ref().unwrap().len(), 1);
        }
        _ => panic!("expected a dump"),
    }
}

#[test]
fn plot_command_hands_back_the_series_and_target() {
    let mut d = Data::default();
    d.commits = vec![commit(1, 100)];
    d.record_timing(&id(1), timing(5));
    let cmd = Command::Plot { file: "out.svg".to_string(), no_labels: false };
    let a = run_command(&cmd, &mut d).unwrap();
    match a {
        Action::Plot { data, file, labels, .. } => {
            assert_eq!(data.0.len(), 4);
            assert_eq!(file, "out.svg");
            assert!(labels);
        }
        _ => panic!("expected a plot action"),
    }
}

#[test]
fn bisect_command_hands_back_the_series() {
    let mut d = Data::default();
    d.commits = vec![commit(1, 100)];
    let a = run_command(&Command::Bisect, &mut d).unwrap();
    match a {
        Action::Bisect { data, diagnostics } => {
            assert_eq!(data.0.len(), 4);
            assert_eq!(diagnostics.len(), 4);
        }
        _ => panic!("expected a bisect action"),
    }
}
