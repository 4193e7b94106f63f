//! The command layer: what each command does to the store, and what it
//! asks the surrounding program to carry out.

use vstd::prelude::*;

use crate::commit_id::CommitId;
use crate::commit_list::CommitInput;
use crate::data::{sort_commits_spec, timings_map, Commit, Data, Timing};
use crate::opts::Command;
use crate::series::{get_plot_data, plot_data_spec_ok, Diagnostic, PlotData};

verus! {

/// Why a command was rejected before any work was done.
#[derive(Debug)]
pub enum Error {
    /// The store holds commits whose metadata is not yet resolved.
    UnresolvedCommits,
    /// The store holds no commits to measure.
    NoCommits,
}

/// The measurement schedule: commits to check out, each with how many
/// rounds of measurements to take.
#[derive(Debug)]
pub struct RunPlan(pub Vec<(CommitId, u64)>);

/// What the surrounding program must carry out after a command updated or
/// read the store.
#[derive(Debug)]
pub enum Action {
    /// Report the store's commits: the pending ones, and the resolved
    /// ones in visiting order.
    ListReport { unresolved: Vec<CommitInput>, commits: Vec<Commit> },
    /// The store changed; persist it.
    Saved,
    /// Read the named commit list file and ingest its entries.
    IngestList { file: String },
    /// Resolve the pending commits against version control.
    Resolve,
    /// Measure the planned commits.
    Run(RunPlan),
    /// Report every commit's measurements, in visiting order.
    DumpReport(Vec<(CommitId, Option<Vec<Timing>>)>),
    /// Render the series to the named file.
    Plot { data: PlotData, diagnostics: Vec<Diagnostic>, file: String, labels: bool },
    /// Locate the largest regression over the series.
    Bisect { data: PlotData, diagnostics: Vec<Diagnostic> },
}

/// The store is ready for a measurement run: nothing pending, something
/// to measure.
pub open spec fn run_ready(d: Data) -> bool {
    d.unresolved_commits@.len() == 0 && d.commits@.len() > 0
}

/// The plan that measures every commit once, in visiting order.
pub open spec fn run_all_plan_spec(cs: Seq<Commit>) -> Seq<(CommitId, u64)> {
    cs.map_values(|c: Commit| (c.id, 1u64))
}

/// The plan that measures every commit without any measurement once, in
/// visiting order.
pub open spec fn fill_gaps_plan_spec(cs: Seq<Commit>, tm: Map<Seq<char>, Seq<Timing>>) -> Seq<
    (CommitId, u64),
>
    decreases cs.len(),
{
    if cs.len() == 0 {
        Seq::empty()
    } else {
        let rest = fill_gaps_plan_spec(cs.drop_last(), tm);
        if !tm.contains_key(cs.last().id@) {
            rest.push((cs.last().id, 1u64))
        } else {
            rest
        }
    }
}

/// How many measurements the store holds for `id`.
pub open spec fn timings_count(tm: Map<Seq<char>, Seq<Timing>>, id: Seq<char>) -> int {
    if tm.contains_key(id) {
        tm[id].len() as int
    } else {
        0
    }
}

/// The largest measurement count over the commits.
pub open spec fn max_count(cs: Seq<Commit>, tm: Map<Seq<char>, Seq<Timing>>) -> int
    decreases cs.len(),
{
    if cs.len() == 0 {
        0
    } else {
        let m = max_count(cs.drop_last(), tm);
        let c = timings_count(tm, cs.last().id@);
        if c > m {
            c
        } else {
            m
        }
    }
}

/// One entry per commit that lags behind the largest measurement count,
/// in visiting order, with how many measurements it is short.
pub open spec fn deficits(cs: Seq<Commit>, tm: Map<Seq<char>, Seq<Timing>>, maxc: int) -> Seq<
    (CommitId, u64),
>
    decreases cs.len(),
{
    if cs.len() == 0 {
        Seq::empty()
    } else {
        let rest = deficits(cs.drop_last(), tm, maxc);
        let c = timings_count(tm, cs.last().id@);
        if c < maxc {
            rest.push((cs.last().id, (maxc - c) as u64))
        } else {
            rest
        }
    }
}

/// An entry placed into the schedule from the right: after every entry
/// whose count it does not undercut, so sorting by count is stable.
pub open spec fn insert_by_count(s: Seq<(CommitId, u64)>, e: (CommitId, u64)) -> Seq<
    (CommitId, u64),
>
    decreases s.len(),
{
    if s.len() == 0 {
        seq![e]
    } else if s.last().1 <= e.1 {
        s.push(e)
    } else {
        insert_by_count(s.drop_last(), e).push(s.last())
    }
}

/// The schedule stably sorted by ascending count.
pub open spec fn sort_by_count_spec(s: Seq<(CommitId, u64)>) -> Seq<(CommitId, u64)>
    decreases s.len(),
{
    if s.len() == 0 {
        Seq::empty()
    } else {
        insert_by_count(sort_by_count_spec(s.drop_last()), s.last())
    }
}

/// Where the insertion by count lands.
proof fn lemma_insert_by_count_at(s: Seq<(CommitId, u64)>, e: (CommitId, u64), j: int)
    requires
        0 <= j <= s.len(),
        forall|k: int| j <= k < s.len() ==> !(s[k].1 <= e.1),
        j > 0 ==> s[j - 1].1 <= e.1,
    ensures
        insert_by_count(s, e) == s.insert(j, e),
    decreases s.len(),
{
    if s.len() == 0 {
        assert(s.insert(0, e) =~= seq![e]);
    } else if j == s.len() {
        assert(s.insert(j, e) =~= s.push(e));
    } else {
        lemma_insert_by_count_at(s.drop_last(), e, j);
        assert(s.drop_last().insert(j, e).push(s.last()) =~= s.insert(j, e));
    }
}

/// The largest remaining count in the schedule.
pub open spec fn plan_max(s: Seq<(CommitId, u64)>) -> int
    decreases s.len(),
{
    if s.len() == 0 {
        0
    } else {
        let m = plan_max(s.drop_last());
        if s.last().1 > m {
            s.last().1 as int
        } else {
            m
        }
    }
}

/// The entries that still owe a measurement after `r` full rounds, each
/// scheduled for one measurement.
pub open spec fn round_out(s: Seq<(CommitId, u64)>, r: int) -> Seq<(CommitId, u64)>
    decreases s.len(),
{
    if s.len() == 0 {
        Seq::empty()
    } else {
        let rest = round_out(s.drop_last(), r);
        if s.last().1 > r {
            rest.push((s.last().0, 1u64))
        } else {
            rest
        }
    }
}

/// The first `r` rounds of the round-robin schedule, flattened.
pub open spec fn rounds(s: Seq<(CommitId, u64)>, r: int) -> Seq<(CommitId, u64)>
    decreases r,
{
    if r <= 0 {
        Seq::empty()
    } else {
        rounds(s, r - 1) + round_out(s, r - 1)
    }
}

/// The catch-up schedule: the lagging commits, stably ordered by how far
/// behind they are, measured one round at a time until all have caught
/// up.
pub open spec fn catch_up_plan_spec(cs: Seq<Commit>, tm: Map<Seq<char>, Seq<Timing>>) -> Seq<
    (CommitId, u64),
> {
    let d = sort_by_count_spec(deficits(cs, tm, max_count(cs, tm)));
    rounds(d, plan_max(d))
}

/// Check the store is ready for a measurement run.
fn check_run_ready(data: &Data) -> (r: Result<(), Error>)
    ensures
        r is Ok <==> run_ready(*data),
        r matches Err(e) ==> (e is UnresolvedCommits <==> data.unresolved_commits@.len() > 0),
        r matches Err(e) ==> (e is NoCommits ==> data.unresolved_commits@.len() == 0
            && data.commits@.len() == 0),
{
    if data.unresolved_commits.len() > 0 {
        Err(Error::UnresolvedCommits)
    } else if data.commits.len() == 0 {
        Err(Error::NoCommits)
    } else {
        Ok(())
    }
}

/// Plan a measurement run over every commit, once each, in visiting
/// order; refused while commits are pending or none are stored.
pub fn run_all(data: &Data) -> (r: Result<RunPlan, Error>)
    requires
        data.wf(),
    ensures
        r is Ok <==> run_ready(*data),
        r matches Ok(plan) ==> plan.0@ == run_all_plan_spec(sort_commits_spec(data.commits@)),
        r matches Err(e) ==> (e is UnresolvedCommits <==> data.unresolved_commits@.len() > 0),
{
    let ready = check_run_ready(data);
    match ready {
        Err(e) => Err(e),
        Ok(_) => {
            let sorted = data.sorted_commit_values();
            let ghost scs = sort_commits_spec(data.commits@);
            let mut plan: Vec<(CommitId, u64)> = Vec::new();
            let mut i: usize = 0;
            while i < sorted.len()
                invariant
                    0 <= i <= sorted@.len(),
                    sorted@ == scs,
                    plan@.len() == i,
                    forall|k: int| 0 <= k < i ==> plan@[k] == (scs[k].id, 1u64),
                decreases sorted@.len() - i,
            {
                plan.push((sorted[i].id.clone(), 1u64));
                i = i + 1;
            }
            proof {
                assert(plan@ =~= run_all_plan_spec(scs));
            }
            Ok(RunPlan(plan))
        },
    }
}

/// Plan a measurement run over the commits that have no measurement at
/// all, in visiting order; refused while commits are pending or none are
/// stored.
pub fn fill_gaps(data: &Data) -> (r: Result<RunPlan, Error>)
    requires
        data.wf(),
    ensures
        r is Ok <==> run_ready(*data),
        r matches Ok(plan) ==> plan.0@ == fill_gaps_plan_spec(
            sort_commits_spec(data.commits@),
            timings_map(data.timings@),
        ),
        r matches Err(e) ==> (e is UnresolvedCommits <==> data.unresolved_commits@.len() > 0),
{
    let ready = check_run_ready(data);
    match ready {
        Err(e) => Err(e),
        Ok(_) => {
            let sorted = data.sorted_commit_values();
            let ghost scs = sort_commits_spec(data.commits@);
            let ghost tm = timings_map(data.timings@);
            let mut plan: Vec<(CommitId, u64)> = Vec::new();
            let mut i: usize = 0;
            proof {
                assert(scs.subrange(0, 0) =~= Seq::<Commit>::empty());
            }
            while i < sorted.len()
                invariant
                    0 <= i <= sorted@.len(),
                    sorted@ == scs,
                    data.wf(),
                    tm == timings_map(data.timings@),
                    plan@ == fill_gaps_plan_spec(scs.subrange(0, i as int), tm),
                decreases sorted@.len() - i,
            {
                proof {
                    assert(scs.subrange(0, i + 1).drop_last() =~= scs.subrange(0, i as int));
                    assert(scs.subrange(0, i + 1).last() == scs[i as int]);
                }
                if data.timings_for(&sorted[i].id).is_none() {
                    plan.push((sorted[i].id.clone(), 1u64));
                }
                i = i + 1;
            }
            proof {
                assert(scs.subrange(0, scs.len() as int) =~= scs);
            }
            Ok(RunPlan(plan))
        },
    }
}

/// Plan a catch-up run: the commits with fewer measurements than the
/// best-covered one, ordered by how far behind they are, one round of
/// single measurements at a time; refused while commits are pending or
/// none are stored.
pub fn catch_up(data: &Data) -> (r: Result<RunPlan, Error>)
    requires
        data.wf(),
    ensures
        r is Ok <==> run_ready(*data),
        r matches Ok(plan) ==> plan.0@ == catch_up_plan_spec(
            sort_commits_spec(data.commits@),
            timings_map(data.timings@),
        ),
        r matches Err(e) ==> (e is UnresolvedCommits <==> data.unresolved_commits@.len() > 0),
{
    let ready = check_run_ready(data);
    if let Err(e) = ready {
        return Err(e);
    }
    let sorted = data.sorted_commit_values();
    let ghost scs = sort_commits_spec(data.commits@);
    let ghost tm = timings_map(data.timings@);
    let n = sorted.len();

    // the largest measurement count over the commits
    let mut maxc: u64 = 0;
    let mut i: usize = 0;
    while i < n
        invariant
            0 <= i <= n,
            n == sorted@.len(),
            sorted@ == scs,
            data.wf(),
            tm == timings_map(data.timings@),
            maxc == max_count(scs.subrange(0, i as int), tm),
        decreases n - i,
    {
        proof {
            assert(scs.subrange(0, i + 1).drop_last() =~= scs.subrange(0, i as int));
            assert(scs.subrange(0, i + 1).last() == scs[i as int]);
        }
        let c: u64 = match data.timings_for(&sorted[i].id) {
            Some(v) => v.len() as u64,
            None => 0,
        };
        if c > maxc {
            maxc = c;
        }
        i = i + 1;
    }
    proof {
        assert(scs.subrange(0, n as int) =~= scs);
    }

    // the lagging commits, with their deficits, in visiting order
    let mut lag: Vec<(CommitId, u64)> = Vec::new();
    let mut i2: usize = 0;
    proof {
        assert(scs.subrange(0, 0) =~= Seq::<Commit>::empty());
    }
    while i2 < n
        invariant
            0 <= i2 <= n,
            n == sorted@.len(),
            sorted@ == scs,
            data.wf(),
            tm == timings_map(data.timings@),
            maxc == max_count(scs, tm),
            lag@ == deficits(scs.subrange(0, i2 as int), tm, maxc as int),
        decreases n - i2,
    {
        proof {
            assert(scs.subrange(0, i2 + 1).drop_last() =~= scs.subrange(0, i2 as int));
            assert(scs.subrange(0, i2 + 1).last() == scs[i2 as int]);
        }
        let c: u64 = match data.timings_for(&sorted[i2].id) {
            Some(v) => v.len() as u64,
            None => 0,
        };
        if c < maxc {
            lag.push((sorted[i2].id.clone(), maxc - c));
        }
        i2 = i2 + 1;
    }
    proof {
        assert(scs.subrange(0, n as int) =~= scs);
    }

    // stably sort the lagging commits by ascending deficit
    let mut plan: Vec<(CommitId, u64)> = Vec::new();
    let mut i3: usize = 0;
    proof {
        assert(lag@.subrange(0, 0) =~= Seq::<(CommitId, u64)>::empty());
    }
    while i3 < lag.len()
        invariant
            0 <= i3 <= lag@.len(),
            plan@ == sort_by_count_spec(lag@.subrange(0, i3 as int)),
        decreases lag@.len() - i3,
    {
        let e = (lag[i3].0.clone(), lag[i3].1);
        let mut j: usize = plan.len();
        while j > 0 && !(plan[j - 1].1 <= e.1)
            invariant
                0 <= j <= plan@.len(),
                forall|k: int| j <= k < plan@.len() ==> !(plan@[k].1 <= e.1),
            decreases j,
        {
            j = j - 1;
        }
        let ghost prev = plan@;
        plan.insert(j, e);
        proof {
            lemma_insert_by_count_at(prev, e, j as int);
            assert(lag@.subrange(0, i3 + 1).drop_last() =~= lag@.subrange(0, i3 as int));
            assert(lag@.subrange(0, i3 + 1).last() == lag@[i3 as int]);
            assert(e == lag@[i3 as int]);
        }
        i3 = i3 + 1;
    }
    proof {
        assert(lag@.subrange(0, lag@.len() as int) =~= lag@);
    }

    // the number of rounds: the largest remaining deficit
    let np = plan.len();
    let mut rmax: u64 = 0;
    let mut i4: usize = 0;
    proof {
        assert(plan@.subrange(0, 0) =~= Seq::<(CommitId, u64)>::empty());
    }
    while i4 < np
        invariant
            0 <= i4 <= np,
            np == plan@.len(),
            rmax == plan_max(plan@.subrange(0, i4 as int)),
        decreases np - i4,
    {
        proof {
            assert(plan@.subrange(0, i4 + 1).drop_last() =~= plan@.subrange(0, i4 as int));
            assert(plan@.subrange(0, i4 + 1).last() == plan@[i4 as int]);
        }
        if plan[i4].1 > rmax {
            rmax = plan[i4].1;
        }
        i4 = i4 + 1;
    }
    proof {
        assert(plan@.subrange(0, np as int) =~= plan@);
    }

    // one round of single measurements at a time
    let mut out: Vec<(CommitId, u64)> = Vec::new();
    let mut r: u64 = 0;
    while r < rmax
        invariant
            0 <= r <= rmax,
            np == plan@.len(),
            rmax == plan_max(plan@),
            out@ == rounds(plan@, r as int),
        decreases rmax - r,
    {
        let mut i5: usize = 0;
        proof {
            assert(plan@.subrange(0, 0) =~= Seq::<(CommitId, u64)>::empty());
            assert(out@ + round_out(plan@.subrange(0, 0), r as int) =~= out@);
        }
        while i5 < np
            invariant
                0 <= i5 <= np,
                np == plan@.len(),
                0 <= r,
                out@ == rounds(plan@, r as int) + round_out(plan@.subrange(0, i5 as int), r as int),
            decreases np - i5,
        {
            proof {
                assert(plan@.subrange(0, i5 + 1).drop_last() =~= plan@.subrange(0, i5 as int));
                assert(plan@.subrange(0, i5 + 1).last() == plan@[i5 as int]);
            }
            if plan[i5].1 > r {
                out.push((plan[i5].0.clone(), 1u64));
            }
            i5 = i5 + 1;
        }
        proof {
            assert(plan@.subrange(0, np as int) =~= plan@);
        }
        r = r + 1;
    }
    Ok(RunPlan(out))
}

/// Record a whole commit list; the caller persists the store.
pub fn ingest_commit_list(data: &mut Data, list: Vec<CommitInput>)
    requires
        old(data).wf(),
    ensures
        final(data).wf(),
        final(data).unresolved_commits@ == old(data).unresolved_commits@ + list@,
        final(data).commits == old(data).commits,
        final(data).timings == old(data).timings,
{
    let mut entries = list;
    data.unresolved_commits.append(&mut entries);
}

/// Copy a measurement list.
fn copy_timings(ts: &Vec<Timing>) -> (r: Vec<Timing>)
    ensures
        r@ == ts@,
{
    let mut out: Vec<Timing> = Vec::new();
    let mut i: usize = 0;
    while i < ts.len()
        invariant
            0 <= i <= ts@.len(),
            out@ == ts@.subrange(0, i as int),
        decreases ts@.len() - i,
    {
        out.push(ts[i]);
        proof {
            assert(ts@.subrange(0, i + 1) =~= ts@.subrange(0, i as int).push(ts@[i as int]));
        }
        i = i + 1;
    }
    proof {
        assert(ts@.subrange(0, ts@.len() as int) =~= ts@);
    }
    out
}

/// Every commit's measurements, in visiting order.
pub fn dump_results(data: &Data) -> (r: Vec<(CommitId, Option<Vec<Timing>>)>)
    requires
        data.wf(),
    ensures
        ({
            let scs = sort_commits_spec(data.commits@);
            let tm = timings_map(data.timings@);
            &&& r@.len() == scs.len()
            &&& forall|k: int|
                0 <= k < scs.len() ==> (#[trigger] r@[k]).0@ == scs[k].id@ && (match r@[k].1 {
                    Some(v) => tm.contains_key(scs[k].id@) && v@ == tm[scs[k].id@],
                    None => !tm.contains_key(scs[k].id@),
                })
        }),
{
    let sorted = data.sorted_commit_values();
    let ghost scs = sort_commits_spec(data.commits@);
    let ghost tm = timings_map(data.timings@);
    let mut out: Vec<(CommitId, Option<Vec<Timing>>)> = Vec::new();
    let mut i: usize = 0;
    while i < sorted.len()
        invariant
            0 <= i <= sorted@.len(),
            sorted@ == scs,
            data.wf(),
            tm == timings_map(data.timings@),
            out@.len() == i,
            forall|k: int|
                0 <= k < i ==> (#[trigger] out@[k]).0@ == scs[k].id@ && (match out@[k].1 {
                    Some(v) => tm.contains_key(scs[k].id@) && v@ == tm[scs[k].id@],
                    None => !tm.contains_key(scs[k].id@),
                }),
        decreases sorted@.len() - i,
    {
        let entry = match data.timings_for(&sorted[i].id) {
            Some(ts) => (sorted[i].id.clone(), Some(copy_timings(ts))),
            None => (sorted[i].id.clone(), None),
        };
        out.push(entry);
        i = i + 1;
    }
    out
}

/// Carry out one command against the store: update it where the command
/// asks for that, and say what outside work remains.
pub fn run_command(cmd: &Command, data: &mut Data) -> (r: Result<Action, Error>)
    requires
        old(data).wf(),
    ensures
        final(data).wf(),
        cmd matches Command::ListCommits ==> (*final(data) == *old(data) && (r matches Ok(a)
            && a matches Action::ListReport { unresolved, commits }
            && unresolved@ == old(data).unresolved_commits@
            && commits@ == sort_commits_spec(old(data).commits@))),
        cmd matches Command::IngestCommit(ci) ==> (
            final(data).unresolved_commits@ == old(data).unresolved_commits@.push(*ci)
            && final(data).commits == old(data).commits
            && final(data).timings == old(data).timings
            && (r matches Ok(a) && a is Saved)),
        cmd matches Command::IngestCommitList { file } ==> (*final(data) == *old(data) && (
        r matches Ok(a) && a matches Action::IngestList { file: f } && f@ == file@)),
        cmd matches Command::ResolveCommits ==> (*final(data) == *old(data) && (r matches Ok(a)
            && a is Resolve)),
        cmd matches Command::RunAll ==> (*final(data) == *old(data) && (match r {
            Ok(a) => a matches Action::Run(plan) && run_ready(*old(data)) && plan.0@
                == run_all_plan_spec(sort_commits_spec(old(data).commits@)),
            Err(_) => !run_ready(*old(data)),
        })),
        cmd matches Command::CatchUp ==> (*final(data) == *old(data) && (match r {
            Ok(a) => a matches Action::Run(plan) && run_ready(*old(data)) && plan.0@
                == catch_up_plan_spec(
                sort_commits_spec(old(data).commits@),
                timings_map(old(data).timings@),
            ),
            Err(_) => !run_ready(*old(data)),
        })),
        cmd matches Command::FillGaps ==> (*final(data) == *old(data) && (match r {
            Ok(a) => a matches Action::Run(plan) && run_ready(*old(data)) && plan.0@
                == fill_gaps_plan_spec(
                sort_commits_spec(old(data).commits@),
                timings_map(old(data).timings@),
            ),
            Err(_) => !run_ready(*old(data)),
        })),
        cmd matches Command::DumpResults ==> (*final(data) == *old(data) && (r matches Ok(a)
            && a is DumpReport)),
        cmd matches Command::Plot { file, no_labels } ==> (*final(data) == *old(data) && (
        r matches Ok(a) && a matches Action::Plot { data: pd, diagnostics: dg, file: f, labels }
            && plot_data_spec_ok(*old(data), pd, dg@) && f@ == file@ && labels == (!*no_labels))),
        cmd matches Command::Bisect ==> (*final(data) == *old(data) && (r matches Ok(a)
            && a matches Action::Bisect { data: pd, diagnostics: dg } && plot_data_spec_ok(
            *old(data),
            pd,
            dg@,
        ))),
{
    match cmd {
        Command::ListCommits => {
            let unresolved = copy_commit_inputs(&data.unresolved_commits);
            let commits = data.sorted_commit_values();
            Ok(Action::ListReport { unresolved, commits })
        },
        Command::IngestCommit(ci) => {
            data.ingest_commit(ci.clone());
            Ok(Action::Saved)
        },
        Command::IngestCommitList { file } => Ok(Action::IngestList { file: file.clone() }),
        Command::ResolveCommits => Ok(Action::Resolve),
        Command::RunAll => {
            match run_all(data) {
                Ok(plan) => Ok(Action::Run(plan)),
                Err(e) => Err(e),
            }
        },
        Command::CatchUp => {
            match catch_up(data) {
                Ok(plan) => Ok(Action::Run(plan)),
                Err(e) => Err(e),
            }
        },
        Command::FillGaps => {
            match fill_gaps(data) {
                Ok(plan) => Ok(Action::Run(plan)),
                Err(e) => Err(e),
            }
        },
        Command::DumpResults => Ok(Action::DumpReport(dump_results(data))),
        Command::Plot { file, no_labels } => {
            let (pd, dg) = get_plot_data(data);
            Ok(Action::Plot { data: pd, diagnostics: dg, file: file.clone(), labels: !*no_labels })
        },
        Command::Bisect => {
            let (pd, dg) = get_plot_data(data);
            Ok(Action::Bisect { data: pd, diagnostics: dg })
        },
    }
}

/// Copy the pending commit list.
fn copy_commit_inputs(cs: &Vec<CommitInput>) -> (r: Vec<CommitInput>)
    ensures
        r@ == cs@,
{
    let mut out: Vec<CommitInput> = Vec::new();
    let mut i: usize = 0;
    while i < cs.len()
        invariant
            0 <= i <= cs@.len(),
            out@ == cs@.subrange(0, i as int),
        decreases cs@.len() - i,
    {
        out.push(cs[i].clone());
        proof {
            assert(cs@.subrange(0, i + 1) =~= cs@.subrange(0, i as int).push(cs@[i as int]));
        }
        i = i + 1;
    }
    proof {
        assert(cs@.subrange(0, cs@.len() as int) =~= cs@);
    }
    out
}

} // verus!
