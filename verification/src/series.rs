//! The series builder: reduce raw per-commit measurements into one
//! averaged series per (profile, rebuild kind) pair, ordered by commit
//! date.

use vstd::prelude::*;

use crate::commit_id::CommitId;
use crate::data::{
    sort_commits_spec, timings_map, BuildResult, Commit, Data, Profile, RebuildType, Timing,
};
use vstd::arithmetic::div_mod::{lemma_div_by_multiple, lemma_div_is_ordered};
use vstd::seq_lib::{commutative_foldl, lemma_fold_left_permutation};

verus! {

/// One point of a series: a commit and its averaged build duration in
/// nanoseconds.
#[derive(Debug)]
pub struct Entry {
    pub commit: Commit,
    pub duration: u64,
}

impl Clone for Entry {
    fn clone(&self) -> (r: Self)
        ensures
            r == *self,
    {
        Entry { commit: self.commit.clone(), duration: self.duration }
    }
}

/// The averaged series for one (profile, rebuild kind) pair.
#[derive(Debug)]
pub struct Series {
    pub profile: Profile,
    pub rebuild_type: RebuildType,
    pub values: Vec<Entry>,
}

/// The four series, one per (profile, rebuild kind) pair.
#[derive(Debug)]
pub struct PlotData(pub Vec<Series>);

/// A revision for which no measurement matched: either the commit has no
/// measurements at all (`pair` is `None`), or none for the named pair.
#[derive(Debug)]
pub struct Diagnostic {
    pub commit: CommitId,
    pub pair: Option<(Profile, RebuildType)>,
}

/// The measurement contributes to the series of `(p, rt)`: it succeeded
/// and was taken for that profile and rebuild kind.
pub open spec fn matches_pair(t: Timing, p: Profile, rt: RebuildType) -> bool {
    t.result == BuildResult::Success && t.profile == p && t.rebuild_type == rt
}

/// The step that counts contributing measurements.
pub open spec fn count_step(p: Profile, rt: RebuildType) -> spec_fn(int, Timing) -> int {
    |acc: int, t: Timing|
        if matches_pair(t, p, rt) {
            acc + 1
        } else {
            acc
        }
}

/// The step that sums the durations of contributing measurements.
pub open spec fn sum_step(p: Profile, rt: RebuildType) -> spec_fn(int, Timing) -> int {
    |acc: int, t: Timing|
        if matches_pair(t, p, rt) {
            acc + t.duration
        } else {
            acc
        }
}

/// How many measurements contribute to the series of `(p, rt)`.
pub open spec fn count_matching(ts: Seq<Timing>, p: Profile, rt: RebuildType) -> int {
    ts.fold_left(0int, count_step(p, rt))
}

/// The total duration of the measurements that contribute to the series of
/// `(p, rt)`.
pub open spec fn sum_matching(ts: Seq<Timing>, p: Profile, rt: RebuildType) -> int {
    ts.fold_left(0int, sum_step(p, rt))
}

/// The successful measurements of `ts`, in order.
pub open spec fn successes(ts: Seq<Timing>) -> Seq<Timing> {
    ts.filter(|t: Timing| t.result == BuildResult::Success)
}

/// The averaged duration for one commit and pair: the exact sum divided by
/// the count, truncating; nothing when no measurement matches.
pub open spec fn avg_duration(ts: Seq<Timing>, p: Profile, rt: RebuildType) -> Option<u64> {
    if count_matching(ts, p, rt) == 0 {
        None
    } else {
        Some(((sum_matching(ts, p, rt) / count_matching(ts, p, rt)) as u64))
    }
}

/// Counts and sums are bounded by the number of measurements.
proof fn lemma_sum_count_bounds(ts: Seq<Timing>, p: Profile, rt: RebuildType)
    ensures
        0 <= count_matching(ts, p, rt) <= ts.len(),
        0 <= sum_matching(ts, p, rt) <= count_matching(ts, p, rt) * (u64::MAX as int),
    decreases ts.len(),
{
    if ts.len() == 0 {
    } else {
        lemma_sum_count_bounds(ts.drop_last(), p, rt);
        let c = count_matching(ts.drop_last(), p, rt);
        assert((c + 1) * (u64::MAX as int) == c * (u64::MAX as int) + u64::MAX) by (nonlinear_arith);
    }
}

/// The averaged duration fits in a duration value.
proof fn lemma_avg_fits(ts: Seq<Timing>, p: Profile, rt: RebuildType)
    requires
        count_matching(ts, p, rt) > 0,
    ensures
        0 <= sum_matching(ts, p, rt) / count_matching(ts, p, rt) <= u64::MAX,
{
    let s = sum_matching(ts, p, rt);
    let c = count_matching(ts, p, rt);
    lemma_sum_count_bounds(ts, p, rt);
    lemma_div_is_ordered(s, c * (u64::MAX as int), c);
    assert(c * (u64::MAX as int) == (u64::MAX as int) * c) by (nonlinear_arith);
    lemma_div_by_multiple(u64::MAX as int, c);
    lemma_div_is_ordered(0, s, c);
}

/// Average the measurements that contribute to the series of `(p, rt)`.
fn avg_for(ts: &Vec<Timing>, p: Profile, rt: RebuildType) -> (r: Option<u64>)
    ensures
        r == avg_duration(ts@, p, rt),
{
    let n = ts.len();
    let mut count: u64 = 0;
    let mut sum: u128 = 0;
    let mut i: usize = 0;
    proof {
        assert(ts@.subrange(0, 0) =~= Seq::empty());
    }
    while i < n
        invariant
            0 <= i <= n,
            n == ts@.len(),
            count == count_matching(ts@.subrange(0, i as int), p, rt),
            sum == sum_matching(ts@.subrange(0, i as int), p, rt),
            count <= i,
        decreases n - i,
    {
        let t = &ts[i];
        proof {
            lemma_sum_count_bounds(ts@.subrange(0, i as int), p, rt);
            assert(count * (u64::MAX as int) + u64::MAX <= (u128::MAX as int)) by (nonlinear_arith)
                requires 0 <= count <= u64::MAX;
            assert(ts@.subrange(0, i + 1).drop_last() =~= ts@.subrange(0, i as int));
            assert(ts@.subrange(0, i + 1).last() == ts@[i as int]);
        }
        if t.result == BuildResult::Success && t.profile == p && t.rebuild_type == rt {
            sum = sum + (t.duration as u128);
            count = count + 1;
        }
        i = i + 1;
    }
    proof {
        assert(ts@.subrange(0, n as int) =~= ts@);
    }
    if count == 0 {
        None
    } else {
        proof {
            lemma_avg_fits(ts@, p, rt);
        }
        Some((sum / (count as u128)) as u64)
    }
}

/// The series for one pair over the commits in visiting order: one entry
/// per commit with at least one contributing measurement.
pub open spec fn series_values_spec(
    cs: Seq<Commit>,
    tm: Map<Seq<char>, Seq<Timing>>,
    p: Profile,
    rt: RebuildType,
) -> Seq<Entry>
    decreases cs.len(),
{
    if cs.len() == 0 {
        Seq::empty()
    } else {
        let rest = series_values_spec(cs.drop_last(), tm, p, rt);
        let c = cs.last();
        if tm.contains_key(c.id@) && avg_duration(tm[c.id@], p, rt) is Some {
            rest.push(Entry { commit: c, duration: avg_duration(tm[c.id@], p, rt)->Some_0 })
        } else {
            rest
        }
    }
}

/// The diagnostics the builder emits for one pair: one per commit that
/// contributes nothing to it.
pub open spec fn series_diags_spec(
    cs: Seq<Commit>,
    tm: Map<Seq<char>, Seq<Timing>>,
    p: Profile,
    rt: RebuildType,
) -> Seq<Diagnostic>
    decreases cs.len(),
{
    if cs.len() == 0 {
        Seq::empty()
    } else {
        let rest = series_diags_spec(cs.drop_last(), tm, p, rt);
        let c = cs.last();
        if !tm.contains_key(c.id@) {
            rest.push(Diagnostic { commit: c.id, pair: None })
        } else if avg_duration(tm[c.id@], p, rt) is None {
            rest.push(Diagnostic { commit: c.id, pair: Some((p, rt)) })
        } else {
            rest
        }
    }
}

/// Averaging is commutative with respect to measurement order: two
/// measurement lists that hold the same measurements, in whatever order,
/// average to the same duration for every pair.
pub proof fn lemma_avg_order_independent(
    t1: Seq<Timing>,
    t2: Seq<Timing>,
    p: Profile,
    rt: RebuildType,
)
    requires
        t1.to_multiset() == t2.to_multiset(),
    ensures
        avg_duration(t1, p, rt) == avg_duration(t2, p, rt),
{
    let fc = count_step(p, rt);
    let fs = sum_step(p, rt);
    assert(commutative_foldl(fc)) by {
        assert forall|x: Timing, y: Timing, v: int| #[trigger]
            fc(fc(v, x), y) == fc(fc(v, y), x) by {}
    }
    assert(commutative_foldl(fs)) by {
        assert forall|x: Timing, y: Timing, v: int| #[trigger]
            fs(fs(v, x), y) == fs(fs(v, y), x) by {}
    }
    lemma_fold_left_permutation(t1, t2, fc, 0int);
    lemma_fold_left_permutation(t1, t2, fs, 0int);
}

/// Counting and summing ignore measurements that are not successes.
proof fn lemma_matching_over_successes(ts: Seq<Timing>, p: Profile, rt: RebuildType)
    ensures
        count_matching(ts, p, rt) == count_matching(successes(ts), p, rt),
        sum_matching(ts, p, rt) == sum_matching(successes(ts), p, rt),
    decreases ts.len(),
{
    reveal(Seq::filter);
    let pred = |t: Timing| t.result == BuildResult::Success;
    if ts.len() == 0 {
    } else {
        lemma_matching_over_successes(ts.drop_last(), p, rt);
        if pred(ts.last()) {
            assert(successes(ts) == successes(ts.drop_last()).push(ts.last()));
            assert(successes(ts).drop_last() =~= successes(ts.drop_last()));
            assert(successes(ts).last() == ts.last());
        } else {
            assert(successes(ts) == successes(ts.drop_last()));
            assert(!matches_pair(ts.last(), p, rt));
        }
    }
}

/// Averaging ignores failed measurements entirely: two measurement lists
/// with the same successful measurements average to the same duration for
/// every pair, whatever failures stand between them.
pub proof fn lemma_avg_failures_ignored(
    t1: Seq<Timing>,
    t2: Seq<Timing>,
    p: Profile,
    rt: RebuildType,
)
    requires
        successes(t1) == successes(t2),
    ensures
        avg_duration(t1, p, rt) == avg_duration(t2, p, rt),
{
    lemma_matching_over_successes(t1, p, rt);
    lemma_matching_over_successes(t2, p, rt);
}

/// Two measurement stores that agree on every commit's successful
/// measurements yield identical series: extra failures change nothing.
pub proof fn lemma_series_failures_ignored(
    cs: Seq<Commit>,
    tm1: Map<Seq<char>, Seq<Timing>>,
    tm2: Map<Seq<char>, Seq<Timing>>,
    p: Profile,
    rt: RebuildType,
)
    requires
        forall|id: Seq<char>| tm1.contains_key(id) <==> tm2.contains_key(id),
        forall|id: Seq<char>| #[trigger]
            tm1.contains_key(id) ==> successes(tm1[id]) == successes(tm2[id]),
    ensures
        series_values_spec(cs, tm1, p, rt) == series_values_spec(cs, tm2, p, rt),
    decreases cs.len(),
{
    if cs.len() > 0 {
        lemma_series_failures_ignored(cs.drop_last(), tm1, tm2, p, rt);
        let c = cs.last();
        if tm1.contains_key(c.id@) {
            lemma_avg_failures_ignored(tm1[c.id@], tm2[c.id@], p, rt);
        }
    }
}

/// Two measurement stores that hold the same measurements for every
/// commit, in whatever order, yield identical series.
pub proof fn lemma_series_order_independent(
    cs: Seq<Commit>,
    tm1: Map<Seq<char>, Seq<Timing>>,
    tm2: Map<Seq<char>, Seq<Timing>>,
    p: Profile,
    rt: RebuildType,
)
    requires
        forall|id: Seq<char>| tm1.contains_key(id) <==> tm2.contains_key(id),
        forall|id: Seq<char>| #[trigger]
            tm1.contains_key(id) ==> tm1[id].to_multiset() == tm2[id].to_multiset(),
    ensures
        series_values_spec(cs, tm1, p, rt) == series_values_spec(cs, tm2, p, rt),
    decreases cs.len(),
{
    if cs.len() > 0 {
        lemma_series_order_independent(cs.drop_last(), tm1, tm2, p, rt);
        let c = cs.last();
        if tm1.contains_key(c.id@) {
            lemma_avg_order_independent(tm1[c.id@], tm2[c.id@], p, rt);
        }
    }
}

/// Build one series, appending its diagnostics.
fn build_series(
    data: &Data,
    sorted: &Vec<Commit>,
    p: Profile,
    rt: RebuildType,
    diags: &mut Vec<Diagnostic>,
) -> (r: Vec<Entry>)
    requires
        data.wf(),
    ensures
        r@ == series_values_spec(sorted@, timings_map(data.timings@), p, rt),
        final(diags)@ == old(diags)@ + series_diags_spec(
            sorted@,
            timings_map(data.timings@),
            p,
            rt,
        ),
{
    let ghost tm = timings_map(data.timings@);
    let n = sorted.len();
    let mut values: Vec<Entry> = Vec::new();
    let mut i: usize = 0;
    proof {
        assert(sorted@.subrange(0, 0) =~= Seq::<Commit>::empty());
        assert(old(diags)@ + Seq::<Diagnostic>::empty() =~= old(diags)@);
    }
    while i < n
        invariant
            0 <= i <= n,
            n == sorted@.len(),
            data.wf(),
            tm == timings_map(data.timings@),
            values@ == series_values_spec(sorted@.subrange(0, i as int), tm, p, rt),
            diags@ == old(diags)@ + series_diags_spec(sorted@.subrange(0, i as int), tm, p, rt),
        decreases n - i,
    {
        let c = &sorted[i];
        proof {
            assert(sorted@.subrange(0, i + 1).drop_last() =~= sorted@.subrange(0, i as int));
            assert(sorted@.subrange(0, i + 1).last() == sorted@[i as int]);
        }
        match data.timings_for(&c.id) {
            None => {
                diags.push(Diagnostic { commit: c.id.clone(), pair: None });
                proof {
                    assert(diags@ =~= old(diags)@ + series_diags_spec(
                        sorted@.subrange(0, i + 1),
                        tm,
                        p,
                        rt,
                    ));
                }
            },
            Some(ts) => {
                match avg_for(ts, p, rt) {
                    None => {
                        diags.push(Diagnostic { commit: c.id.clone(), pair: Some((p, rt)) });
                        proof {
                            assert(diags@ =~= old(diags)@ + series_diags_spec(
                                sorted@.subrange(0, i + 1),
                                tm,
                                p,
                                rt,
                            ));
                        }
                    },
                    Some(avg) => {
                        values.push(Entry { commit: c.clone(), duration: avg });
                    },
                }
            },
        }
        i = i + 1;
    }
    proof {
        assert(sorted@.subrange(0, n as int) =~= sorted@);
    }
    values
}

/// What the series builder yields for a store: the four series in their
/// fixed order, each over the commits in visiting order, and a diagnostic
/// for every commit that contributes nothing to a pair.
pub open spec fn plot_data_spec_ok(d: Data, pd: PlotData, dg: Seq<Diagnostic>) -> bool {
    let sorted = sort_commits_spec(d.commits@);
    let tm = timings_map(d.timings@);
    let series = pd.0@;
    &&& series.len() == 4
    &&& series[0].profile == Profile::Dev && series[0].rebuild_type == RebuildType::Full
    &&& series[1].profile == Profile::Dev && series[1].rebuild_type == RebuildType::Partial
    &&& series[2].profile == Profile::Release && series[2].rebuild_type == RebuildType::Full
    &&& series[3].profile == Profile::Release && series[3].rebuild_type == RebuildType::Partial
    &&& forall|k: int|
        0 <= k < 4 ==> (#[trigger] series[k].values)@ == series_values_spec(
            sorted,
            tm,
            series[k].profile,
            series[k].rebuild_type,
        )
    &&& dg == series_diags_spec(sorted, tm, Profile::Dev, RebuildType::Full) + series_diags_spec(
        sorted,
        tm,
        Profile::Dev,
        RebuildType::Partial,
    ) + series_diags_spec(sorted, tm, Profile::Release, RebuildType::Full) + series_diags_spec(
        sorted,
        tm,
        Profile::Release,
        RebuildType::Partial,
    )
}

/// Build the four series, one per (profile, rebuild kind) pair, over the
/// commits in visiting order, together with one diagnostic for every
/// commit that contributes nothing to a pair.
pub fn get_plot_data(data: &Data) -> (r: (PlotData, Vec<Diagnostic>))
    requires
        data.wf(),
    ensures
        plot_data_spec_ok(*data, r.0, r.1@),
{
    let sorted = data.sorted_commit_values();
    let mut diags: Vec<Diagnostic> = Vec::new();
    let mut series: Vec<Series> = Vec::new();
    let v1 = build_series(data, &sorted, Profile::Dev, RebuildType::Full, &mut diags);
    series.push(Series { profile: Profile::Dev, rebuild_type: RebuildType::Full, values: v1 });
    let v2 = build_series(data, &sorted, Profile::Dev, RebuildType::Partial, &mut diags);
    series.push(Series { profile: Profile::Dev, rebuild_type: RebuildType::Partial, values: v2 });
    let v3 = build_series(data, &sorted, Profile::Release, RebuildType::Full, &mut diags);
    series.push(Series { profile: Profile::Release, rebuild_type: RebuildType::Full, values: v3 });
    let v4 = build_series(data, &sorted, Profile::Release, RebuildType::Partial, &mut diags);
    series.push(
        Series { profile: Profile::Release, rebuild_type: RebuildType::Partial, values: v4 },
    );
    (PlotData(series), diags)
}

} // verus!
