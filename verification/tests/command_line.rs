use maptime::cli::{parse_command_line_options, Error};
use maptime::opts::Command;

const HEX40: &str = "0123456789abcdef0123456789abcdef01234567";

fn args(list: &[&str]) -> Vec<String> {
    list.iter().map(|s| s.to_string()).collect()
}

#[test]
fn defaults_apply_when_no_flags_are_given() {
    let o = parse_command_line_options(args(&["run-all"])).unwrap();
    assert!(matches!(o.cmd, Command::RunAll));
    assert_eq!(o.global.db_file, "maptime.json");
    assert_eq!(o.global.repo_path, ".");
    assert!(o.global.project_path.is_none());
    assert_eq!(o.global.project_path(), ".");
}

#[test]
fn global_flags_precede_the_subcommand() {
    let o = parse_command_line_options(args(&[
        "--db-file",
        "store.json",
        "--repo-path",
        "/src/tree",
        "--project-path",
        "/src/tree/app",
        "list-commits",
    ]))
    .unwrap();
    assert!(matches!(o.cmd, Command::ListCommits));
    assert_eq!(o.global.db_file, "store.json");
    assert_eq!(o.global.repo_path, "/src/tree");
    assert_eq!(o.global.project_path.as_deref(), Some("/src/tree/app"));
    assert_eq!(o.global.project_path(), "/src/tree/app");
}

#[test]
fn later_flag_occurrences_win() {
    let o = parse_command_line_options(args(&["--db-file", "a", "--db-file", "b", "bisect"]))
        .unwrap();
    assert!(matches!(o.cmd, Command::Bisect));
    assert_eq!(o.global.db_file, "b");
}

#[test]
fn ingest_commit_takes_an_id_and_an_optional_note() {
    let o = parse_command_line_options(args(&["ingest-commit", HEX40, "first try"])).unwrap();
    match o.cmd {
        Command::IngestCommit(ci) => {
            assert_eq!(ci.id.as_str(), HEX40);
            assert_eq!(ci.note.as_deref(), Some("first try"));
        }
        _ => panic!("expected an ingest command"),
    }
    let o2 = parse_command_line_options(args(&["ingest-commit", HEX40])).unwrap();
    match o2.cmd {
        Command::IngestCommit(ci) => assert!(ci.note.is_none()),
        _ => panic!("expected an ingest command"),
    }
}

#[test]
fn ingest_commit_rejects_a_malformed_id() {
    assert!(matches!(
        parse_command_line_options(args(&["ingest-commit", "nonsense"])),
        Err(Error::CommitId(_))
    ));
}

#[test]
fn ingest_commit_list_takes_one_file() {
    let o = parse_command_line_options(args(&["ingest-commit-list", "commits.txt"])).unwrap();
    match o.cmd {
        Command::IngestCommitList { file } => assert_eq!(file, "commits.txt"),
        _ => panic!("expected a list command"),
    }
    assert!(matches!(
        parse_command_line_options(args(&["ingest-commit-list"])),
        Err(Error::MissingValue)
    ));
    assert!(matches!(
        parse_command_line_options(args(&["ingest-commit-list", "a", "b"])),
        Err(Error::UnexpectedArgument)
    ));
}

#[test]
fn plot_flags_are_parsed() {
    let o = parse_command_line_options(args(&["plot", "--file", "chart.svg", "--no-labels"]))
        .unwrap();
    match o.cmd {
        Command::Plot { file, no_labels } => {
            assert_eq!(file, "chart.svg");
            assert!(no_labels);
        }
        _ => panic!("expected a plot command"),
    }
    let o2 = parse_command_line_options(args(&["plot"])).unwrap();
    match o2.cmd {
        Command::Plot { file, no_labels } => {
            assert_eq!(file, "maptime.svg");
            assert!(!no_labels);
        }
        _ => panic!("expected a plot command"),
    }
}

#[test]
fn command_errors_are_reported() {
    assert!(matches!(
        parse_command_line_options(args(&[])),
        Err(Error::MissingCommand)
    ));
    assert!(matches!(
        parse_command_line_options(args(&["--db-file", "x"])),
        Err(Error::MissingCommand)
    ));
    assert!(matches!(
        parse_command_line_options(args(&["--db-file"])),
        Err(Error::MissingValue)
    ));
    assert!(matches!(
        parse_command_line_options(args(&["frobnicate"])),
        Err(Error::UnknownCommand)
    ));
    assert!(matches!(
        parse_command_line_options(args(&["run-all", "extra"])),
        Err(Error::UnexpectedArgument)
    ));
    assert!(matches!(
        parse_command_line_options(args(&["ingest-commit"])),
        Err(Error::MissingValue)
    ));
}

#[test]
fn remaining_commands_parse() {
    for (name, want) in [
        ("resolve-commits", 0u8),
        ("catch-up", 1),
        ("fill-gaps", 2),
        ("dump-results", 3),
    ] {
        let o = parse_command_line_options(args(&[name])).unwrap();
        let ok = match (want, &o.cmd) {
            (0, Command::ResolveCommits) => true,
            (1, Command::CatchUp) => true,
            (2, Command::FillGaps) => true,
            (3, Command::DumpResults) => true,
            _ => false,
        };
        assert!(ok);
    }
}
