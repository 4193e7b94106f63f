//! The regression localizer: select the revision interval with the
//! largest timing discontinuity, and drive an external bisection search
//! over it with a hysteresis classifier.

use vstd::prelude::*;

use crate::commit_id::{self, valid_commit_id, CommitId};
use crate::data::{BuildResult, Profile, RebuildType, Timing};
use crate::series::{Entry, PlotData, Series};
use crate::strutil::{split_lines, split_lines_spec, trim_spec};

verus! {

/// Why the localizer stopped.
#[derive(Debug)]
pub enum Error {
    /// No adjacent pair of measured revisions has intermediate history to
    /// search.
    NotEnoughCommits,
    /// The named revision was measured without the partial rebuild that
    /// the selected range classifies by.
    NoPartialBuild(CommitId),
    /// The revision under test reported by the bisection primitive is not
    /// a well-formed commit identifier.
    CommitIdParse(commit_id::Error),
    /// The bisection primitive's output names no revision under test.
    BisectParse,
}

/// Known parent links in the revision history: `(child, parent)` pairs, as
/// read from version control.
#[derive(Debug)]
pub struct ParentList(pub Vec<(CommitId, CommitId)>);

/// The parent list records that `parent` is the direct parent of `child`.
pub open spec fn is_parent_spec(
    ps: Seq<(CommitId, CommitId)>,
    parent: Seq<char>,
    child: Seq<char>,
) -> bool {
    exists|k: int| 0 <= k < ps.len() && ps[k].0@ == child && ps[k].1@ == parent
}

/// Whether `maybe_parent` is recorded as the direct parent of `next`.
pub fn is_parent(parents: &ParentList, maybe_parent: &CommitId, next: &CommitId) -> (r: bool)
    ensures
        r == is_parent_spec(parents.0@, maybe_parent@, next@),
{
    let n = parents.0.len();
    let mut i: usize = 0;
    while i < n
        invariant
            0 <= i <= n,
            n == parents.0@.len(),
            forall|k: int|
                0 <= k < i ==> !(parents.0@[k].0@ == next@ && parents.0@[k].1@ == maybe_parent@),
        decreases n - i,
    {
        if parents.0[i].0 == *next && parents.0[i].1 == *maybe_parent {
            return true;
        }
        i = i + 1;
    }
    false
}

/// One regression candidate: the boundary entries of the interval with
/// the largest duration delta, for one (profile, rebuild kind) pair.
#[derive(Debug)]
pub struct BisectRange {
    pub profile: Profile,
    pub rebuild_type: RebuildType,
    pub first: Entry,
    pub last: Entry,
    pub diff: u64,
}

impl BisectRange {
    /// The recorded delta is the absolute difference of the boundaries.
    pub open spec fn wf(&self) -> bool {
        self.diff == abs_diff_spec(self.first.duration, self.last.duration)
    }
}

impl Clone for BisectRange {
    fn clone(&self) -> (r: Self)
        ensures
            r == *self,
    {
        BisectRange {
            profile: self.profile,
            rebuild_type: self.rebuild_type,
            first: self.first.clone(),
            last: self.last.clone(),
            diff: self.diff,
        }
    }
}

/// The absolute difference of two durations.
pub open spec fn abs_diff_spec(a: u64, b: u64) -> u64 {
    if a > b {
        (a - b) as u64
    } else {
        (b - a) as u64
    }
}

/// The duration delta of the adjacent pair ending at `i`.
pub open spec fn pair_diff(vs: Seq<Entry>, i: int) -> u64 {
    abs_diff_spec(vs[i - 1].duration, vs[i].duration)
}

/// The pair ending at `i` is worth bisecting: the two revisions are not
/// already adjacent in history.
pub open spec fn pair_eligible(vs: Seq<Entry>, ps: Seq<(CommitId, CommitId)>, i: int) -> bool {
    !is_parent_spec(ps, vs[i - 1].commit.id@, vs[i].commit.id@)
}

/// A delta improves on the best candidate seen so far only when strictly
/// larger, so ties keep the first pair seen.
pub open spec fn improves(best: Option<BisectRange>, diff: u64) -> bool {
    match best {
        None => true,
        Some(b) => b.diff < diff,
    }
}

/// The candidate built from the pair ending at `i`.
pub open spec fn pair_range(p: Profile, rt: RebuildType, vs: Seq<Entry>, i: int) -> BisectRange {
    BisectRange {
        profile: p,
        rebuild_type: rt,
        first: vs[i - 1],
        last: vs[i],
        diff: pair_diff(vs, i),
    }
}

/// Walk the pairs of one series from pair `i` on, keeping the best
/// candidate.
pub open spec fn scan_pairs(
    p: Profile,
    rt: RebuildType,
    vs: Seq<Entry>,
    ps: Seq<(CommitId, CommitId)>,
    best: Option<BisectRange>,
    i: int,
) -> Option<BisectRange>
    decreases vs.len() - i,
{
    if i < 1 || i >= vs.len() {
        best
    } else {
        let next = if pair_eligible(vs, ps, i) && improves(best, pair_diff(vs, i)) {
            Some(pair_range(p, rt, vs, i))
        } else {
            best
        };
        scan_pairs(p, rt, vs, ps, next, i + 1)
    }
}

/// Walk all series from series `k` on, keeping the best candidate.
pub open spec fn scan_all(
    series: Seq<Series>,
    ps: Seq<(CommitId, CommitId)>,
    best: Option<BisectRange>,
    k: int,
) -> Option<BisectRange>
    decreases series.len() - k,
{
    if k < 0 || k >= series.len() {
        best
    } else {
        scan_all(
            series,
            ps,
            scan_pairs(series[k].profile, series[k].rebuild_type, series[k].values@, ps, best, 1),
            k + 1,
        )
    }
}

/// The regression candidate: the first adjacent, non-parent pair with the
/// largest duration delta, across all series in order.
pub open spec fn biggest_range_spec(series: Seq<Series>, ps: Seq<(CommitId, CommitId)>) -> Option<
    BisectRange,
> {
    scan_all(series, ps, None, 0)
}

/// What one series' scan yields: the result is the running best or one of
/// the eligible pairs scanned, and bounds them all.
proof fn lemma_scan_pairs_props(
    p: Profile,
    rt: RebuildType,
    vs: Seq<Entry>,
    ps: Seq<(CommitId, CommitId)>,
    best: Option<BisectRange>,
    i: int,
)
    requires
        1 <= i,
    ensures
        ({
            let r = scan_pairs(p, rt, vs, ps, best, i);
            &&& (r is Some <==> best is Some || exists|j: int|
                i <= j < vs.len() && pair_eligible(vs, ps, j))
            &&& (r matches Some(rr) ==> {
                &&& (best matches Some(b) ==> b.diff <= rr.diff)
                &&& (forall|j: int|
                    i <= j < vs.len() && pair_eligible(vs, ps, j) ==> pair_diff(vs, j) <= rr.diff)
                &&& (best == Some(rr) || exists|j: int|
                    i <= j < vs.len() && pair_eligible(vs, ps, j) && rr == pair_range(p, rt, vs, j))
            })
        }),
    decreases vs.len() - i,
{
    let r = scan_pairs(p, rt, vs, ps, best, i);
    if i >= vs.len() {
    } else {
        let next = if pair_eligible(vs, ps, i) && improves(best, pair_diff(vs, i)) {
            Some(pair_range(p, rt, vs, i))
        } else {
            best
        };
        lemma_scan_pairs_props(p, rt, vs, ps, next, i + 1);
        if pair_eligible(vs, ps, i) {
            assert(next is Some);
            assert(exists|j: int| i <= j < vs.len() && pair_eligible(vs, ps, j));
        }
        if r is Some {
            let rr = r->Some_0;
            if next != best {
                assert(next == Some(pair_range(p, rt, vs, i)));
            }
            assert forall|j: int|
                i <= j < vs.len() && pair_eligible(vs, ps, j) implies pair_diff(vs, j)
                <= rr.diff by {
                if j == i {
                    assert(pair_diff(vs, i) <= next->Some_0.diff);
                }
            }
            if next == Some(rr) && next != best {
                assert(pair_eligible(vs, ps, i) && rr == pair_range(p, rt, vs, i));
            }
        } else {
            assert(best is None);
            assert(forall|j: int| i + 1 <= j < vs.len() ==> !pair_eligible(vs, ps, j));
            assert(!pair_eligible(vs, ps, i));
        }
    }
}

/// One series and pair position that the selector may choose: in range
/// and not parent-adjacent.
pub open spec fn eligible_at(
    series: Seq<Series>,
    ps: Seq<(CommitId, CommitId)>,
    k: int,
    j: int,
) -> bool {
    0 <= k < series.len() && 1 <= j < series[k].values@.len() && pair_eligible(
        series[k].values@,
        ps,
        j,
    )
}

/// What the scan over all series yields, in the same shape.
proof fn lemma_scan_all_props(
    series: Seq<Series>,
    ps: Seq<(CommitId, CommitId)>,
    best: Option<BisectRange>,
    k: int,
)
    requires
        0 <= k,
    ensures
        ({
            let r = scan_all(series, ps, best, k);
            &&& (r is Some <==> best is Some || exists|k2: int, j: int|
                k <= k2 && #[trigger] eligible_at(series, ps, k2, j))
            &&& (r matches Some(rr) ==> {
                &&& (best matches Some(b) ==> b.diff <= rr.diff)
                &&& (forall|k2: int, j: int|
                    k <= k2 && #[trigger] eligible_at(series, ps, k2, j) ==> pair_diff(
                        series[k2].values@,
                        j,
                    ) <= rr.diff)
                &&& (best == Some(rr) || exists|k2: int, j: int|
                    k <= k2 && #[trigger] eligible_at(series, ps, k2, j) && rr == pair_range(
                        series[k2].profile,
                        series[k2].rebuild_type,
                        series[k2].values@,
                        j,
                    ))
            })
        }),
    decreases series.len() - k,
{
    let r = scan_all(series, ps, best, k);
    if k >= series.len() {
    } else {
        let next = scan_pairs(
            series[k].profile,
            series[k].rebuild_type,
            series[k].values@,
            ps,
            best,
            1,
        );
        lemma_scan_pairs_props(series[k].profile, series[k].rebuild_type, series[k].values@, ps, best, 1);
        lemma_scan_all_props(series, ps, next, k + 1);
        if next is Some && best is None {
            let j = choose|j: int|
                1 <= j < series[k].values@.len() && pair_eligible(series[k].values@, ps, j);
            assert(eligible_at(series, ps, k, j));
        }
        if r is Some {
            let rr = r->Some_0;
            assert forall|k2: int, j: int|
                k <= k2 && #[trigger] eligible_at(series, ps, k2, j) implies pair_diff(
                series[k2].values@,
                j,
            ) <= rr.diff by {
                if k2 == k {
                    assert(pair_diff(series[k].values@, j) <= next->Some_0.diff);
                }
            }
            if next == Some(rr) && best != Some(rr) {
                let j = choose|j: int|
                    1 <= j < series[k].values@.len() && pair_eligible(series[k].values@, ps, j)
                        && rr == pair_range(
                        series[k].profile,
                        series[k].rebuild_type,
                        series[k].values@,
                        j,
                    );
                assert(eligible_at(series, ps, k, j));
            }
        } else {
            assert(next is None);
            assert forall|k2: int, j: int|
                k <= k2 implies !eligible_at(series, ps, k2, j) by {
                if k2 == k && 1 <= j < series[k].values@.len() {
                    assert(!pair_eligible(series[k].values@, ps, j));
                }
            }
        }
    }
}

/// The selector's result is the maximum: a range is selected exactly when
/// some eligible pair exists; the selected range is one of the eligible
/// pairs, and its delta is no smaller than every eligible pair's. With no
/// eligible pair (every adjacent pair already parent-linked, or fewer
/// than two entries everywhere) nothing is selected.
pub proof fn lemma_selector_max(series: Seq<Series>, ps: Seq<(CommitId, CommitId)>)
    ensures
        (biggest_range_spec(series, ps) is Some <==> exists|k: int, j: int|
            eligible_at(series, ps, k, j)),
        biggest_range_spec(series, ps) matches Some(rr) ==> {
            &&& (forall|k: int, j: int|
                eligible_at(series, ps, k, j) ==> pair_diff(series[k].values@, j) <= rr.diff)
            &&& exists|k: int, j: int|
                #[trigger] eligible_at(series, ps, k, j) && rr == pair_range(
                    series[k].profile,
                    series[k].rebuild_type,
                    series[k].values@,
                    j,
                )
        },
{
    lemma_scan_all_props(series, ps, None, 0);
    if biggest_range_spec(series, ps) is Some {
        let (k, j) = choose|k: int, j: int|
            0 <= k && #[trigger] eligible_at(series, ps, k, j);
        assert(eligible_at(series, ps, k, j));
    }
    if exists|k: int, j: int| eligible_at(series, ps, k, j) {
        let (k, j) = choose|k: int, j: int| #[trigger] eligible_at(series, ps, k, j);
        assert(0 <= k && eligible_at(series, ps, k, j));
    }
}

/// Select the regression candidate: the eligible adjacent pair with the
/// largest duration delta across all series, ties resolved by first-seen
/// order; fails when no eligible pair exists.
pub fn find_biggest_range(data: &PlotData, parents: &ParentList) -> (r: Result<BisectRange, Error>)
    ensures
        match r {
            Ok(range) => biggest_range_spec(data.0@, parents.0@) == Some(range) && range.wf(),
            Err(e) => e matches Error::NotEnoughCommits && biggest_range_spec(
                data.0@,
                parents.0@,
            ) is None,
        },
{
    let ghost series = data.0@;
    let ghost ps = parents.0@;
    let mut best: Option<BisectRange> = None;
    let nk = data.0.len();
    let mut k: usize = 0;
    while k < nk
        invariant
            0 <= k <= nk,
            nk == series.len(),
            series == data.0@,
            ps == parents.0@,
            scan_all(series, ps, best, k as int) == biggest_range_spec(series, ps),
            best matches Some(b) ==> b.wf(),
        decreases nk - k,
    {
        let vs = &data.0[k].values;
        let ni = vs.len();
        let ghost vsv = vs@;
        let ghost pk = data.0@[k as int].profile;
        let ghost rtk = data.0@[k as int].rebuild_type;
        let mut i: usize = 1;
        while i < ni
            invariant
                1 <= i,
                ni == vsv.len(),
                vsv == vs@,
                vsv == data.0@[k as int].values@,
                0 <= k < nk,
                nk == series.len(),
                series == data.0@,
                ps == parents.0@,
                pk == data.0@[k as int].profile,
                rtk == data.0@[k as int].rebuild_type,
                scan_all(series, ps, scan_pairs(pk, rtk, vsv, ps, best, i as int), k + 1)
                    == biggest_range_spec(series, ps),
                best matches Some(b) ==> b.wf(),
            decreases ni - i,
        {
            let prev_e = &vs[i - 1];
            let e = &vs[i];
            if !is_parent(parents, &prev_e.commit.id, &e.commit.id) {
                let diff = if prev_e.duration > e.duration {
                    prev_e.duration - e.duration
                } else {
                    e.duration - prev_e.duration
                };
                let take = match &best {
                    None => true,
                    Some(b) => b.diff < diff,
                };
                if take {
                    best = Some(
                        BisectRange {
                            profile: data.0[k].profile,
                            rebuild_type: data.0[k].rebuild_type,
                            first: prev_e.clone(),
                            last: e.clone(),
                            diff,
                        },
                    );
                }
            }
            i = i + 1;
        }
        k = k + 1;
    }
    match best {
        Some(range) => Ok(range),
        None => Err(Error::NotEnoughCommits),
    }
}

/// Whether a bisection session is underway, finished, or not running.
#[derive(Debug, PartialEq, Eq, Structural, Clone, Copy)]
pub enum SessionPhase {
    /// The bisection primitive still offers revisions to test.
    Searching,
    /// The primitive reported the search concluded.
    Concluded,
    /// No search is active.
    Inactive,
}

/// What the driver tells the bisection primitive about the revision under
/// test.
#[derive(Debug, PartialEq, Eq, Structural, Clone, Copy)]
pub enum Decision {
    /// The revision could not be built; it is untestable.
    Skip,
    /// The measured duration lies on the regressed side of the threshold.
    ReportNew,
    /// The measured duration lies on the unregressed side.
    ReportOld,
}

/// What the bisection primitive answered: the next revision to test, or
/// that the search is over.
#[derive(Debug)]
pub enum BisectOutcome {
    Next(CommitId),
    Concluded,
}

/// The duration classifies as regressed ("new"): beyond the hysteresis
/// band around the midpoint, on the side the range's direction fixes.
pub open spec fn spec_is_new(mid: u64, hysteresis: u64, increased: bool, d: u64) -> bool {
    if increased {
        d > mid + hysteresis
    } else {
        (d as int) < mid - hysteresis
    }
}

/// Hysteresis classification is monotone: with a fixed threshold, once a
/// duration classifies as regressed, every duration further in the
/// direction of the regression classifies the same way — a step function
/// with a single switching point, never oscillating.
pub proof fn lemma_classify_monotone(mid: u64, hysteresis: u64, increased: bool, d1: u64, d2: u64)
    requires
        d1 <= d2,
    ensures
        increased ==> (spec_is_new(mid, hysteresis, increased, d1) ==> spec_is_new(
            mid,
            hysteresis,
            increased,
            d2,
        )),
        !increased ==> (spec_is_new(mid, hysteresis, increased, d2) ==> spec_is_new(
            mid,
            hysteresis,
            increased,
            d1,
        )),
{
}

/// One bisection search: the classification threshold derived from the
/// selected range, and the phase of the search.
#[derive(Debug)]
pub struct BisectSession {
    pub profile: Profile,
    pub rebuild_type: RebuildType,
    pub mid: u64,
    pub hysteresis: u64,
    pub increased: bool,
    pub phase: SessionPhase,
}

/// The threshold arithmetic stays in range.
proof fn lemma_threshold_bounds(diff: u64, maxd: u64)
    requires
        diff <= maxd,
    ensures
        diff / 2 <= maxd,
        diff / 10 <= maxd - diff / 2,
{
    vstd::arithmetic::div_mod::lemma_div_is_ordered_by_denominator(diff as int, 1, 2);
    vstd::arithmetic::div_mod::lemma_div_is_ordered_by_denominator(diff as int, 2, 10);
    vstd::arithmetic::div_mod::lemma_fundamental_div_mod(diff as int, 2);
    vstd::arithmetic::div_mod::lemma_mod_bound(diff as int, 2);
    vstd::arithmetic::div_mod::lemma_fundamental_div_mod(diff as int, 1);
}

impl BisectSession {
    /// The threshold is consistent: classification arithmetic cannot
    /// leave the duration range.
    pub open spec fn wf(&self) -> bool {
        self.mid + self.hysteresis <= u64::MAX && self.hysteresis <= self.mid
    }

    /// Open a session over the selected range: the hysteresis band is a
    /// tenth of the range's delta, the midpoint lies half the delta under
    /// the larger boundary, and the direction records which boundary is
    /// larger.
    pub fn start(range: &BisectRange) -> (s: BisectSession)
        requires
            range.wf(),
        ensures
            s.profile == range.profile,
            s.rebuild_type == range.rebuild_type,
            s.hysteresis == range.diff / 10,
            s.mid == (if range.first.duration > range.last.duration {
                range.first.duration
            } else {
                range.last.duration
            }) - range.diff / 2,
            s.increased == (range.first.duration < range.last.duration),
            s.phase == SessionPhase::Searching,
            s.wf(),
    {
        let maxd = if range.first.duration > range.last.duration {
            range.first.duration
        } else {
            range.last.duration
        };
        proof {
            lemma_threshold_bounds(range.diff, maxd);
        }
        let hysteresis = range.diff / 10;
        let mid = maxd - range.diff / 2;
        BisectSession {
            profile: range.profile,
            rebuild_type: range.rebuild_type,
            mid,
            hysteresis,
            increased: range.first.duration < range.last.duration,
            phase: SessionPhase::Searching,
        }
    }

    /// Classify a measured duration against the threshold.
    pub fn is_new(&self, duration: u64) -> (r: bool)
        requires
            self.wf(),
        ensures
            r == spec_is_new(self.mid, self.hysteresis, self.increased, duration),
    {
        if self.increased {
            duration > self.mid + self.hysteresis
        } else {
            duration < self.mid - self.hysteresis
        }
    }

    /// Decide what to report for the revision under test, from its fresh
    /// measurements: a failed full build is skipped; otherwise the
    /// duration the range's rebuild kind calls for is classified, and a
    /// missing required partial measurement is fatal.
    pub fn decide(&self, commit: &CommitId, full: Timing, partial: Option<Timing>) -> (r: Result<
        Decision,
        Error,
    >)
        requires
            self.wf(),
        ensures
            full.result == BuildResult::Failure ==> r == Ok::<Decision, Error>(Decision::Skip),
            full.result == BuildResult::Success && self.rebuild_type == RebuildType::Full ==> r
                == Ok::<Decision, Error>(
                if spec_is_new(self.mid, self.hysteresis, self.increased, full.duration) {
                    Decision::ReportNew
                } else {
                    Decision::ReportOld
                },
            ),
            full.result == BuildResult::Success && self.rebuild_type == RebuildType::Partial ==> (
            partial matches Some(pt) ==> r == Ok::<Decision, Error>(
                if spec_is_new(self.mid, self.hysteresis, self.increased, pt.duration) {
                    Decision::ReportNew
                } else {
                    Decision::ReportOld
                },
            )),
            full.result == BuildResult::Success && self.rebuild_type == RebuildType::Partial
                && partial is None ==> (r matches Err(Error::NoPartialBuild(c)) && c@ == commit@),
    {
        if full.result == BuildResult::Failure {
            return Ok(Decision::Skip);
        }
        let timing = if self.rebuild_type == RebuildType::Full {
            full
        } else {
            match partial {
                Some(pt) => pt,
                None => {
                    return Err(Error::NoPartialBuild(commit.clone()));
                },
            }
        };
        if self.is_new(timing.duration) {
            Ok(Decision::ReportNew)
        } else {
            Ok(Decision::ReportOld)
        }
    }

    /// Note the primitive's answer: the search concludes, or goes on.
    pub fn observe(&mut self, outcome: &BisectOutcome)
        ensures
            *final(self) == (BisectSession {
                phase: match outcome {
                    BisectOutcome::Concluded => SessionPhase::Concluded,
                    BisectOutcome::Next(_) => SessionPhase::Searching,
                },
                ..*old(self)
            }),
    {
        match outcome {
            BisectOutcome::Concluded => {
                self.phase = SessionPhase::Concluded;
            },
            BisectOutcome::Next(_) => {
                self.phase = SessionPhase::Searching;
            },
        }
    }

    /// Retire the session. Resetting never errors — in particular not
    /// after a concluded search — and resetting when no search is active
    /// leaves the session exactly as it was.
    pub fn reset(&mut self) -> (r: Result<(), Error>)
        ensures
            r is Ok,
            *final(self) == (BisectSession { phase: SessionPhase::Inactive, ..*old(self) }),
            old(self).phase == SessionPhase::Inactive ==> *final(self) == *old(self),
    {
        self.phase = SessionPhase::Inactive;
        Ok(())
    }
}

/// The text still names a revision interval under search.
pub open spec fn spec_still_bisecting(s: Seq<char>) -> bool {
    exists|i: int| 0 <= i && i + 10 <= s.len() && #[trigger] s.subrange(i, i + 10) == "Bisecting:"@
}

/// Whether the marker appears at position `i`.
fn marker_at(s: &str, i: usize) -> (r: bool)
    requires
        i + 10 <= s@.len(),
        s@.len() <= usize::MAX,
    ensures
        r == (s@.subrange(i as int, i as int + 10) == "Bisecting:"@),
{
    let pat = "Bisecting:";
    proof {
        reveal_strlit("Bisecting:");
    }
    let mut j: usize = 0;
    while j < 10
        invariant
            0 <= j <= 10,
            i + 10 <= s@.len(),
            s@.len() <= usize::MAX,
            pat@ == "Bisecting:"@,
            pat@.len() == 10,
            forall|l: int| 0 <= l < j ==> s@[i + l] == pat@[l],
        decreases 10 - j,
    {
        if s.get_char(i + j) != pat.get_char(j) {
            proof {
                assert(s@.subrange(i as int, i as int + 10)[j as int] != "Bisecting:"@[j as int]);
            }
            return false;
        }
        j = j + 1;
    }
    proof {
        assert(s@.subrange(i as int, i as int + 10) =~= "Bisecting:"@);
    }
    true
}

/// Whether the bisection primitive's output says the search is still
/// underway: it holds the text that introduces the next revision to test.
pub fn still_bisecting(s: &str) -> (r: bool)
    ensures
        r == spec_still_bisecting(s@),
{
    let n = s.unicode_len();
    proof {
        reveal_strlit("Bisecting:");
    }
    if n < 10 {
        return false;
    }
    let mut i: usize = 0;
    while i <= n - 10
        invariant
            0 <= i <= n,
            10 <= n,
            n == s@.len(),
            forall|i2: int| 0 <= i2 < i ==> #[trigger] s@.subrange(i2, i2 + 10) != "Bisecting:"@,
        decreases n - i,
    {
        if marker_at(s, i) {
            return true;
        }
        i = i + 1;
    }
    false
}

/// A line that names the revision under test: an opening bracket followed
/// by at least a full commit identifier.
pub open spec fn is_candidate_line(l: Seq<char>) -> bool {
    l.len() > 40 && l[0] == '['
}

/// The first line that names a revision under test.
pub open spec fn first_candidate(lines: Seq<Seq<char>>) -> Option<Seq<char>>
    decreases lines.len(),
{
    if lines.len() == 0 {
        None
    } else if is_candidate_line(lines[0]) {
        Some(lines[0])
    } else {
        first_candidate(lines.drop_first())
    }
}

proof fn lemma_first_candidate_at(lines: Seq<Seq<char>>, i: int)
    requires
        0 <= i < lines.len(),
        forall|k: int| 0 <= k < i ==> !is_candidate_line(lines[k]),
        is_candidate_line(lines[i]),
    ensures
        first_candidate(lines) == Some(lines[i]),
    decreases i,
{
    if i > 0 {
        lemma_first_candidate_at(lines.drop_first(), i - 1);
    }
}

proof fn lemma_first_candidate_none(lines: Seq<Seq<char>>)
    requires
        forall|k: int| 0 <= k < lines.len() ==> !is_candidate_line(lines[k]),
    ensures
        first_candidate(lines) is None,
    decreases lines.len(),
{
    if lines.len() > 0 {
        lemma_first_candidate_none(lines.drop_first());
    }
}

/// Read the revision under test out of the primitive's output: the first
/// line opening with a bracket and long enough to hold an identifier
/// names it in its first forty characters after the bracket.
pub fn parse_commit_from_stdout(s: &str) -> (r: Result<CommitId, Error>)
    ensures
        match first_candidate(split_lines_spec(s@)) {
            None => r matches Err(Error::BisectParse),
            Some(l) => {
                if valid_commit_id(trim_spec(l.subrange(1, 41))) {
                    r matches Ok(c) && c@ == trim_spec(l.subrange(1, 41))
                } else {
                    r matches Err(Error::CommitIdParse(_))
                }
            },
        },
{
    let lines = split_lines(s);
    let n = lines.len();
    let mut i: usize = 0;
    while i < n
        invariant
            0 <= i <= n,
            n == lines@.len(),
            lines.deep_view() == split_lines_spec(s@),
            forall|k: int| 0 <= k < i ==> !is_candidate_line(#[trigger] lines.deep_view()[k]),
        decreases n - i,
    {
        let line = &lines[i];
        let ln = line.as_str().unicode_len();
        if ln > 40 && line.as_str().get_char(0) == '[' {
            proof {
                assert(lines.deep_view()[i as int] == line@);
                lemma_first_candidate_at(lines.deep_view(), i as int);
            }
            let idpart = line.as_str().substring_char(1, 41);
            return match CommitId::from_str(idpart) {
                Ok(c) => Ok(c),
                Err(e) => Err(Error::CommitIdParse(e)),
            };
        }
        proof {
            assert(lines.deep_view()[i as int] == line@);
        }
        i = i + 1;
    }
    proof {
        lemma_first_candidate_none(lines.deep_view());
    }
    Err(Error::BisectParse)
}

/// Read the bisection primitive's answer: the search concluded, or the
/// next revision to test. A running search whose output names no
/// well-formed revision is a fatal parse error.
pub fn interpret_output(s: &str) -> (r: Result<BisectOutcome, Error>)
    ensures
        !spec_still_bisecting(s@) ==> (r matches Ok(o) && o is Concluded),
        spec_still_bisecting(s@) ==> match first_candidate(split_lines_spec(s@)) {
            None => r matches Err(Error::BisectParse),
            Some(l) => {
                if valid_commit_id(trim_spec(l.subrange(1, 41))) {
                    r matches Ok(o) && o matches BisectOutcome::Next(c) && c@ == trim_spec(
                        l.subrange(1, 41),
                    )
                } else {
                    r matches Err(Error::CommitIdParse(_))
                }
            },
        },
{
    if !still_bisecting(s) {
        Ok(BisectOutcome::Concluded)
    } else {
        match parse_commit_from_stdout(s) {
            Ok(c) => Ok(BisectOutcome::Next(c)),
            Err(e) => Err(e),
        }
    }
}

} // verus!
