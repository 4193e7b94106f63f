use maptime::commit_id::CommitId;
use maptime::data::{BuildResult, Commit, Data, Profile, RebuildType, Timing};
use maptime::series::get_plot_data;

const SEC: u64 = 1_000_000_000;

fn id(n: u8) -> CommitId {
    let digit = char::from_digit(n as u32, 10).unwrap();
    let text: String = std::iter::repeat(digit).take(40).collect();
    CommitId::from_str(&text).unwrap()
}

fn commit(n: u8, date: i64) -> Commit {
    Commit { id: id(n), date, note: None }
}

fn timing(p: Profile, rt: RebuildType, duration: u64, result: BuildResult) -> Timing {
    Timing { profile: p, rebuild_type: rt, start: 0, duration, result }
}

fn store(timings: Vec<(CommitId, Vec<Timing>)>, commits: Vec<Commit>) -> Data {
    let mut d = Data::default();
    d.commits = commits;
    d.timings = timings;
    d
}

#[test]
fn averaging_truncates_exact_sum_by_count() {
    // durations 3s and 4s average to 3.5s, truncated to 3.5e9 nanoseconds
    // exactly; with 3 and 4 nanoseconds the truncation drops the half.
    let d = store(
        vec![(
            id(1),
            vec![
                timing(Profile::Dev, RebuildType::Full, 3, BuildResult::Success),
                timing(Profile::Dev, RebuildType::Full, 4, BuildResult::Success),
            ],
        )],
        vec![commit(1, 100)],
    );
    let (plot, diags) = get_plot_data(&d);
    assert_eq!(plot.0.len(), 4);
    let dev_full = &plot.0[0];
    assert!(matches!(dev_full.profile, Profile::Dev));
    assert!(matches!(dev_full.rebuild_type, RebuildType::Full));
    assert_eq!(dev_full.values.len(), 1);
    assert_eq!(dev_full.values[0].duration, 3);
    // the other three pairs have no measurements: one diagnostic each
    assert_eq!(diags.len(), 3);
    assert!(diags.iter().all(|dg| dg.pair.is_some()));
}

#[test]
fn failures_do_not_contribute_to_the_average() {
    let with_failures = store(
        vec![(
            id(1),
            vec![
                timing(Profile::Dev, RebuildType::Full, 10 * SEC, BuildResult::Success),
                timing(Profile::Dev, RebuildType::Full, 999 * SEC, BuildResult::Failure),
                timing(Profile::Dev, RebuildType::Full, 20 * SEC, BuildResult::Success),
            ],
        )],
        vec![commit(1, 100)],
    );
    let without_failures = store(
        vec![(
            id(1),
            vec![
                timing(Profile::Dev, RebuildType::Full, 10 * SEC, BuildResult::Success),
                timing(Profile::Dev, RebuildType::Full, 20 * SEC, BuildResult::Success),
            ],
        )],
        vec![commit(1, 100)],
    );
    let (a, _) = get_plot_data(&with_failures);
    let (b, _) = get_plot_data(&without_failures);
    assert_eq!(a.0[0].values.len(), 1);
    assert_eq!(b.0[0].values.len(), 1);
    assert_eq!(a.0[0].values[0].duration, b.0[0].values[0].duration);
    assert_eq!(a.0[0].values[0].duration, 15 * SEC);
}

#[test]
fn averaging_ignores_measurement_order() {
    let one_order = store(
        vec![(
            id(1),
            vec![
                timing(Profile::Release, RebuildType::Partial, 7, BuildResult::Success),
                timing(Profile::Release, RebuildType::Partial, 11, BuildResult::Success),
                timing(Profile::Dev, RebuildType::Full, 100, BuildResult::Success),
            ],
        )],
        vec![commit(1, 100)],
    );
    let other_order = store(
        vec![(
            id(1),
            vec![
                timing(Profile::Dev, RebuildType::Full, 100, BuildResult::Success),
                timing(Profile::Release, RebuildType::Partial, 11, BuildResult::Success),
                timing(Profile::Release, RebuildType::Partial, 7, BuildResult::Success),
            ],
        )],
        vec![commit(1, 100)],
    );
    let (a, _) = get_plot_data(&one_order);
    let (b, _) = get_plot_data(&other_order);
    for k in 0..4 {
        assert_eq!(a.0[k].values.len(), b.0[k].values.len());
        for (x, y) in a.0[k].values.iter().zip(b.0[k].values.iter()) {
            assert_eq!(x.duration, y.duration);
            assert_eq!(x.commit.id.as_str(), y.commit.id.as_str());
        }
    }
    assert_eq!(a.0[3].values[0].duration, 9);
}

#[test]
fn series_entries_follow_commit_dates() {
    // commit 2 is older than commit 1; the series must order by date.
    let d = store(
        vec![
            (id(1), vec![timing(Profile::Dev, RebuildType::Full, 5, BuildResult::Success)]),
            (id(2), vec![timing(Profile::Dev, RebuildType::Full, 6, BuildResult::Success)]),
        ],
        vec![commit(1, 200), commit(2, 100)],
    );
    let (plot, _) = get_plot_data(&d);
    let dev_full = &plot.0[0];
    assert_eq!(dev_full.values.len(), 2);
    assert_eq!(dev_full.values[0].commit.id.as_str(), id(2).as_str());
    assert_eq!(dev_full.values[1].commit.id.as_str(), id(1).as_str());
}

#[test]
fn commit_without_any_measurement_gets_one_diagnostic_per_pair() {
    let d = store(
        Vec::new(),
        vec![commit(1, 100)],
    );
    let (plot, diags) = get_plot_data(&d);
    for series in plot.0.iter() {
        assert_eq!(series.values.len(), 0);
    }
    assert_eq!(diags.len(), 4);
    assert!(diags.iter().all(|dg| dg.pair.is_none()));
    assert!(diags.iter().all(|dg| dg.commit.as_str() == id(1).as_str()));
}

#[test]
fn sorted_commits_breaks_date_ties_by_identifier() {
    let mut d = Data::default();
    d.commits = vec![commit(2, 100), commit(1, 100), commit(3, 50)];
    let sorted = d.sorted_commits();
    let ids: Vec<&str> = sorted.iter().map(|c| c.as_str()).collect();
    let id1 = id(1);
    let id2 = id(2);
    let id3 = id(3);
    assert_eq!(ids, vec![id3.as_str(), id1.as_str(), id2.as_str()]);
}
