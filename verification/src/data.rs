//! Core data model: build profiles, rebuild kinds, measurements, commit
//! metadata, and the committed revision store with its ordering.

use vstd::prelude::*;

use crate::commit_id::CommitId;
use crate::commit_list::CommitInput;
use crate::strutil::{lemma_seq_char_le_total, lemma_seq_char_le_trans, seq_char_le, str_le};
use vstd::multiset::Multiset;

verus! {

/// Whether a measured build succeeded or failed.
#[derive(Debug, PartialEq, Eq, Structural, Clone, Copy)]
pub enum BuildResult {
    Success,
    Failure,
}

/// A named build configuration.
#[derive(Debug, PartialEq, Eq, Structural, Clone, Copy)]
pub enum Profile {
    Dev,
    Release,
}

/// Whether a measured build started from a clean state (`Full`) or from a
/// pre-warmed state with one file touched (`Partial`).
#[derive(Debug, PartialEq, Eq, Structural, Clone, Copy)]
pub enum RebuildType {
    Full,
    Partial,
}

impl Profile {
    /// The name used for this profile in reports.
    pub fn as_str(&self) -> (r: &'static str)
        ensures
            *self == Profile::Dev ==> r@ == "dev"@,
            *self == Profile::Release ==> r@ == "release"@,
    {
        match self {
            Profile::Dev => "dev",
            Profile::Release => "release",
        }
    }
}

impl RebuildType {
    /// The name used for this rebuild kind in reports.
    pub fn as_str(&self) -> (r: &'static str)
        ensures
            *self == RebuildType::Full ==> r@ == "full"@,
            *self == RebuildType::Partial ==> r@ == "partial"@,
    {
        match self {
            RebuildType::Full => "full",
            RebuildType::Partial => "partial",
        }
    }
}

/// One build measurement: what was built, when it started (seconds since
/// the Unix epoch), how long it took (nanoseconds), and whether it
/// succeeded.
#[derive(Debug, PartialEq, Eq, Structural, Clone, Copy)]
pub struct Timing {
    pub profile: Profile,
    pub rebuild_type: RebuildType,
    pub start: i64,
    pub duration: u64,
    pub result: BuildResult,
}

/// A resolved commit: its identifier, its commit date in seconds since the
/// Unix epoch, and the operator's note, if any.
#[derive(Debug)]
pub struct Commit {
    pub id: CommitId,
    pub date: i64,
    pub note: Option<String>,
}

impl Clone for Commit {
    fn clone(&self) -> (r: Self)
        ensures
            r == *self,
    {
        let note = match &self.note {
            Some(n) => Some(n.clone()),
            None => None,
        };
        Commit { id: self.id.clone(), date: self.date, note }
    }
}

/// The order commits are visited in: ascending commit date, ties broken by
/// the identifier text, so that the order is total.
pub open spec fn commit_le(a: Commit, b: Commit) -> bool {
    a.date < b.date || (a.date == b.date && seq_char_le(a.id@, b.id@))
}

/// `commit_le` is total.
pub proof fn lemma_commit_le_total(a: Commit, b: Commit)
    ensures
        commit_le(a, b) || commit_le(b, a),
{
    if a.date == b.date {
        lemma_seq_char_le_total(a.id@, b.id@);
    }
}

/// `commit_le` is transitive.
pub proof fn lemma_commit_le_trans(a: Commit, b: Commit, c: Commit)
    requires
        commit_le(a, b),
        commit_le(b, c),
    ensures
        commit_le(a, c),
{
    if a.date == b.date && b.date == c.date {
        lemma_seq_char_le_trans(a.id@, b.id@, c.id@);
    }
}

fn commit_le_exec(a: &Commit, b: &Commit) -> (r: bool)
    ensures
        r == commit_le(*a, *b),
{
    if a.date < b.date {
        true
    } else if a.date == b.date {
        str_le(a.id.as_str(), b.id.as_str())
    } else {
        false
    }
}

/// `s` is ordered by `commit_le`.
pub open spec fn commits_ordered(s: Seq<Commit>) -> bool {
    forall|i: int, j: int| 0 <= i < j < s.len() ==> commit_le(s[i], s[j])
}

/// `c` placed into `s` from the right: after every element it does not
/// precede, so that insertion is stable.
pub open spec fn insert_ordered(s: Seq<Commit>, c: Commit) -> Seq<Commit>
    decreases s.len(),
{
    if s.len() == 0 {
        seq![c]
    } else if commit_le(s.last(), c) {
        s.push(c)
    } else {
        insert_ordered(s.drop_last(), c).push(s.last())
    }
}

/// The commits of `s` in visiting order: a stable sort by `commit_le`.
pub open spec fn sort_commits_spec(s: Seq<Commit>) -> Seq<Commit>
    decreases s.len(),
{
    if s.len() == 0 {
        Seq::empty()
    } else {
        insert_ordered(sort_commits_spec(s.drop_last()), s.last())
    }
}

/// Where the ordered insertion lands: before the elements that `c`
/// strictly precedes.
proof fn lemma_insert_ordered_at(s: Seq<Commit>, c: Commit, j: int)
    requires
        0 <= j <= s.len(),
        forall|k: int| j <= k < s.len() ==> !commit_le(s[k], c),
        j > 0 ==> commit_le(s[j - 1], c),
    ensures
        insert_ordered(s, c) == s.insert(j, c),
    decreases s.len(),
{
    if s.len() == 0 {
        assert(s.insert(0, c) =~= seq![c]);
    } else if j == s.len() {
        assert(s.insert(j, c) =~= s.push(c));
    } else {
        lemma_insert_ordered_at(s.drop_last(), c, j);
        assert(s.drop_last().insert(j, c).push(s.last()) =~= s.insert(j, c));
    }
}

/// Ordered insertion keeps the sequence ordered and adds one element.
proof fn lemma_insert_ordered_props(s: Seq<Commit>, c: Commit)
    requires
        commits_ordered(s),
    ensures
        commits_ordered(insert_ordered(s, c)),
        insert_ordered(s, c).to_multiset() == s.to_multiset().insert(c),
        insert_ordered(s, c).len() == s.len() + 1,
    decreases s.len(),
{
    broadcast use vstd::seq_lib::group_to_multiset_ensures;

    if s.len() == 0 {
        assert(insert_ordered(s, c) =~= Seq::empty().push(c));
        assert(Seq::<Commit>::empty().to_multiset() =~= Multiset::empty());
        assert(insert_ordered(s, c).to_multiset() =~= s.to_multiset().insert(c));
    } else if commit_le(s.last(), c) {
        assert forall|i: int, j: int|
            0 <= i < j < s.push(c).len() implies commit_le(s.push(c)[i], s.push(c)[j]) by {
            if j == s.len() {
                if i < s.len() - 1 {
                    assert(commit_le(s[i], s[s.len() - 1]));
                    lemma_commit_le_trans(s[i], s[s.len() - 1], c);
                }
            }
        }
        assert(s.push(c).to_multiset() =~= s.to_multiset().insert(c));
    } else {
        let t = insert_ordered(s.drop_last(), c);
        assert(commits_ordered(s.drop_last()));
        lemma_insert_ordered_props(s.drop_last(), c);
        lemma_commit_le_total(s.last(), c);
        // every element of t is bounded by s.last()
        assert forall|i: int, j: int|
            0 <= i < j < t.push(s.last()).len() implies commit_le(
            t.push(s.last())[i],
            t.push(s.last())[j],
        ) by {
            if j == t.len() {
                let x = t[i];
                assert(t.to_multiset().contains(x));
                assert(s.drop_last().to_multiset().insert(c).contains(x));
                if s.drop_last().to_multiset().contains(x) {
                    let k = choose|k: int|
                        0 <= k < s.drop_last().len() && s.drop_last()[k] == x;
                    assert(s.drop_last().contains(x));
                    assert(commit_le(s[k], s[s.len() - 1]));
                } else {
                    assert(x == c);
                }
            }
        }
        assert(t.push(s.last()).to_multiset() =~= t.to_multiset().insert(s.last()));
        assert(s.drop_last().to_multiset().insert(c).insert(s.last()) =~= s.drop_last()
            .to_multiset().insert(s.last()).insert(c));
        assert(s.drop_last().push(s.last()) =~= s);
        assert(s.drop_last().push(s.last()).to_multiset() =~= s.drop_last().to_multiset().insert(
            s.last(),
        ));
    }
}

/// No two commits share an identifier.
pub open spec fn unique_ids(s: Seq<Commit>) -> bool {
    forall|i: int, j: int| 0 <= i < j < s.len() ==> s[i].id@ != s[j].id@
}

/// No two timing entries share a key.
pub open spec fn unique_keys(s: Seq<(CommitId, Vec<Timing>)>) -> bool {
    forall|i: int, j: int| 0 <= i < j < s.len() ==> s[i].0@ != s[j].0@
}

/// The timing store, read as a map from commit identifier to the
/// measurements recorded for it.
pub open spec fn timings_map(s: Seq<(CommitId, Vec<Timing>)>) -> Map<Seq<char>, Seq<Timing>>
    decreases s.len(),
{
    if s.len() == 0 {
        Map::empty()
    } else {
        timings_map(s.drop_last()).insert(s.last().0@, s.last().1@)
    }
}

/// Each stored entry is visible in the map.
pub proof fn lemma_timings_map_index(s: Seq<(CommitId, Vec<Timing>)>, k: int)
    requires
        unique_keys(s),
        0 <= k < s.len(),
    ensures
        timings_map(s).contains_key(s[k].0@),
        timings_map(s)[s[k].0@] == s[k].1@,
    decreases s.len(),
{
    if k < s.len() - 1 {
        assert(unique_keys(s.drop_last()));
        lemma_timings_map_index(s.drop_last(), k);
    }
}

/// A key matching no stored entry is not in the map.
pub proof fn lemma_timings_map_absent(s: Seq<(CommitId, Vec<Timing>)>, id: Seq<char>)
    requires
        forall|k: int| 0 <= k < s.len() ==> s[k].0@ != id,
    ensures
        !timings_map(s).contains_key(id),
    decreases s.len(),
{
    if s.len() > 0 {
        lemma_timings_map_absent(s.drop_last(), id);
    }
}

/// Replacing the measurements under an existing key updates the map alone.
proof fn lemma_timings_map_update(
    s: Seq<(CommitId, Vec<Timing>)>,
    k: int,
    e: (CommitId, Vec<Timing>),
)
    requires
        unique_keys(s),
        0 <= k < s.len(),
        e.0@ == s[k].0@,
    ensures
        timings_map(s.update(k, e)) == timings_map(s).insert(e.0@, e.1@),
    decreases s.len(),
{
    if k == s.len() - 1 {
        assert(s.update(k, e).drop_last() =~= s.drop_last());
        assert(timings_map(s.update(k, e)) =~= timings_map(s).insert(e.0@, e.1@));
    } else {
        assert(unique_keys(s.drop_last()));
        lemma_timings_map_update(s.drop_last(), k, e);
        assert(s.update(k, e).drop_last() =~= s.drop_last().update(k, e));
        assert(s.update(k, e).last() == s.last());
        assert(timings_map(s.update(k, e)) =~= timings_map(s).insert(e.0@, e.1@));
    }
}

/// `c` entered into the commit store: it replaces the entry with the same
/// identifier, or is appended when there is none.
pub open spec fn commits_insert(s: Seq<Commit>, c: Commit) -> Seq<Commit>
    decreases s.len(),
{
    if s.len() == 0 {
        seq![c]
    } else if s[0].id@ == c.id@ {
        seq![c] + s.drop_first()
    } else {
        seq![s[0]] + commits_insert(s.drop_first(), c)
    }
}

proof fn lemma_commits_insert_at(s: Seq<Commit>, c: Commit, k: int)
    requires
        0 <= k < s.len(),
        forall|j: int| 0 <= j < k ==> s[j].id@ != c.id@,
        s[k].id@ == c.id@,
    ensures
        commits_insert(s, c) == s.update(k, c),
    decreases k,
{
    if k == 0 {
        assert(seq![c] + s.drop_first() =~= s.update(0, c));
    } else {
        lemma_commits_insert_at(s.drop_first(), c, k - 1);
        assert(seq![s[0]] + s.drop_first().update(k - 1, c) =~= s.update(k, c));
    }
}

proof fn lemma_commits_insert_none(s: Seq<Commit>, c: Commit)
    requires
        forall|j: int| 0 <= j < s.len() ==> s[j].id@ != c.id@,
    ensures
        commits_insert(s, c) == s.push(c),
    decreases s.len(),
{
    if s.len() == 0 {
        assert(commits_insert(s, c) =~= s.push(c));
    } else {
        lemma_commits_insert_none(s.drop_first(), c);
        assert(seq![s[0]] + s.drop_first().push(c) =~= s.push(c));
    }
}

/// The persisted store: commits the operator entered but whose metadata is
/// not yet read from version control, the resolved commits, and the
/// measurements taken for each commit.
#[derive(Debug)]
pub struct Data {
    pub unresolved_commits: Vec<CommitInput>,
    pub commits: Vec<Commit>,
    pub timings: Vec<(CommitId, Vec<Timing>)>,
}

impl Data {
    /// The store's invariant: identifiers are unique on both sides.
    pub open spec fn wf(&self) -> bool {
        unique_ids(self.commits@) && unique_keys(self.timings@)
    }

    /// The commits in visiting order: ascending date, ties broken by
    /// identifier.
    pub fn sorted_commit_values(&self) -> (r: Vec<Commit>)
        ensures
            r@ == sort_commits_spec(self.commits@),
    {
        let n = self.commits.len();
        let mut out: Vec<Commit> = Vec::new();
        let mut i: usize = 0;
        proof {
            assert(self.commits@.subrange(0, 0) =~= Seq::empty());
        }
        while i < n
            invariant
                0 <= i <= n,
                n == self.commits@.len(),
                out@ == sort_commits_spec(self.commits@.subrange(0, i as int)),
            decreases n - i,
        {
            let c = self.commits[i].clone();
            let mut j: usize = out.len();
            while j > 0 && !commit_le_exec(&out[j - 1], &c)
                invariant
                    0 <= j <= out@.len(),
                    forall|k: int| j <= k < out@.len() ==> !commit_le(out@[k], c),
                decreases j,
            {
                j = j - 1;
            }
            let ghost prev = out@;
            out.insert(j, c);
            proof {
                lemma_insert_ordered_at(prev, c, j as int);
                assert(self.commits@.subrange(0, i + 1).drop_last() =~= self.commits@.subrange(
                    0,
                    i as int,
                ));
                assert(self.commits@.subrange(0, i + 1).last() == self.commits@[i as int]);
            }
            i = i + 1;
        }
        proof {
            assert(self.commits@.subrange(0, n as int) =~= self.commits@);
        }
        out
    }

    /// The identifiers of the commits, in visiting order.
    pub fn sorted_commits(&self) -> (r: Vec<CommitId>)
        ensures
            r@.map_values(|c: CommitId| c@) == sort_commits_spec(self.commits@).map_values(
                |c: Commit| c.id@,
            ),
    {
        let values = self.sorted_commit_values();
        let mut out: Vec<CommitId> = Vec::new();
        let mut i: usize = 0;
        while i < values.len()
            invariant
                0 <= i <= values@.len(),
                values@ == sort_commits_spec(self.commits@),
                out@.len() == i,
                forall|k: int| 0 <= k < i ==> out@[k]@ == values@[k].id@,
            decreases values@.len() - i,
        {
            out.push(values[i].id.clone());
            i = i + 1;
        }
        proof {
            assert(out@.map_values(|c: CommitId| c@) =~= sort_commits_spec(
                self.commits@,
            ).map_values(|c: Commit| c.id@));
        }
        out
    }

    /// The position of the timing entry for `id`, if there is one.
    fn timings_pos(&self, id: &CommitId) -> (r: Option<usize>)
        ensures
            match r {
                Some(i) => i < self.timings@.len() && self.timings@[i as int].0@ == id@
                    && forall|k: int| 0 <= k < i ==> self.timings@[k].0@ != id@,
                None => forall|k: int| 0 <= k < self.timings@.len() ==> self.timings@[k].0@ != id@,
            },
    {
        let n = self.timings.len();
        let mut i: usize = 0;
        while i < n
            invariant
                0 <= i <= n,
                n == self.timings@.len(),
                forall|k: int| 0 <= k < i ==> self.timings@[k].0@ != id@,
            decreases n - i,
        {
            if self.timings[i].0 == *id {
                return Some(i);
            }
            i = i + 1;
        }
        None
    }

    /// The position of the commit with identifier `id`, if it is stored.
    fn commit_pos(&self, id: &CommitId) -> (r: Option<usize>)
        ensures
            match r {
                Some(i) => i < self.commits@.len() && self.commits@[i as int].id@ == id@
                    && forall|k: int| 0 <= k < i ==> self.commits@[k].id@ != id@,
                None => forall|k: int| 0 <= k < self.commits@.len() ==> self.commits@[k].id@ != id@,
            },
    {
        let n = self.commits.len();
        let mut i: usize = 0;
        while i < n
            invariant
                0 <= i <= n,
                n == self.commits@.len(),
                forall|k: int| 0 <= k < i ==> self.commits@[k].id@ != id@,
            decreases n - i,
        {
            if self.commits[i].id == *id {
                return Some(i);
            }
            i = i + 1;
        }
        None
    }

    /// The measurements recorded for `id`, if any.
    pub fn timings_for<'a>(&'a self, id: &CommitId) -> (r: Option<&'a Vec<Timing>>)
        requires
            self.wf(),
        ensures
            match r {
                Some(v) => timings_map(self.timings@).contains_key(id@) && v@ == timings_map(
                    self.timings@,
                )[id@],
                None => !timings_map(self.timings@).contains_key(id@),
            },
    {
        match self.timings_pos(id) {
            Some(i) => {
                proof {
                    lemma_timings_map_index(self.timings@, i as int);
                }
                Some(&self.timings[i].1)
            },
            None => {
                proof {
                    lemma_timings_map_absent(self.timings@, id@);
                }
                None
            },
        }
    }

    /// Append a measurement for `id`, opening a fresh entry when the
    /// commit has none yet.
    pub fn record_timing(&mut self, id: &CommitId, t: Timing)
        requires
            old(self).wf(),
        ensures
            final(self).wf(),
            final(self).commits == old(self).commits,
            final(self).unresolved_commits == old(self).unresolved_commits,
            ({
                let m = timings_map(old(self).timings@);
                timings_map(final(self).timings@) == m.insert(
                    id@,
                    if m.contains_key(id@) {
                        m[id@].push(t)
                    } else {
                        seq![t]
                    },
                )
            }),
    {
        match self.timings_pos(id) {
            Some(i) => {
                let ghost prev = self.timings@;
                let mut entry = self.timings.remove(i);
                entry.1.push(t);
                self.timings.insert(i, entry);
                proof {
                    assert(self.timings@ =~= prev.update(
                        i as int,
                        (prev[i as int].0, self.timings@[i as int].1),
                    ));
                    assert(unique_keys(self.timings@));
                    lemma_timings_map_index(prev, i as int);
                    lemma_timings_map_update(prev, i as int, self.timings@[i as int]);
                }
            },
            None => {
                let ghost prev = self.timings@;
                self.timings.push((id.clone(), vec![t]));
                proof {
                    lemma_timings_map_absent(prev, id@);
                    assert(self.timings@.drop_last() =~= prev);
                    assert(self.timings@.last().1@ =~= seq![t]);
                }
            },
        }
    }

    /// Record a commit the operator entered, to be resolved later.
    pub fn ingest_commit(&mut self, commit: CommitInput)
        requires
            old(self).wf(),
        ensures
            final(self).wf(),
            final(self).unresolved_commits@ == old(self).unresolved_commits@.push(commit),
            final(self).commits == old(self).commits,
            final(self).timings == old(self).timings,
    {
        self.unresolved_commits.push(commit);
    }

    /// Enter a resolved commit into the store and retire the pending entry
    /// it came from.
    pub fn resolve_commit(&mut self, full: Commit)
        requires
            old(self).wf(),
            old(self).unresolved_commits@.len() > 0,
        ensures
            final(self).wf(),
            final(self).unresolved_commits@ == old(self).unresolved_commits@.drop_last(),
            final(self).commits@ == commits_insert(old(self).commits@, full),
            final(self).timings == old(self).timings,
    {
        match self.commit_pos(&full.id) {
            Some(i) => {
                let ghost prev = self.commits@;
                let _old_entry = self.commits.remove(i);
                self.commits.insert(i, full);
                proof {
                    assert(self.commits@ =~= prev.update(i as int, self.commits@[i as int]));
                    assert(unique_ids(self.commits@));
                    lemma_commits_insert_at(prev, self.commits@[i as int], i as int);
                }
            },
            None => {
                let ghost prev = self.commits@;
                self.commits.push(full);
                proof {
                    lemma_commits_insert_none(prev, self.commits@.last());
                }
            },
        }
        self.unresolved_commits.pop();
    }
}

impl Default for Data {
    /// An empty store.
    fn default() -> (r: Self)
        ensures
            r.unresolved_commits@.len() == 0,
            r.commits@.len() == 0,
            r.timings@.len() == 0,
            r.wf(),
    {
        Data { unresolved_commits: Vec::new(), commits: Vec::new(), timings: Vec::new() }
    }
}

/// The visiting order is ordered and a permutation of its input.
pub proof fn lemma_sort_commits_spec_props(s: Seq<Commit>)
    ensures
        commits_ordered(sort_commits_spec(s)),
        sort_commits_spec(s).to_multiset() == s.to_multiset(),
        sort_commits_spec(s).len() == s.len(),
    decreases s.len(),
{
    broadcast use vstd::seq_lib::group_to_multiset_ensures;

    if s.len() == 0 {
    } else {
        lemma_sort_commits_spec_props(s.drop_last());
        lemma_insert_ordered_props(sort_commits_spec(s.drop_last()), s.last());
        assert(s.drop_last().push(s.last()) =~= s);
        assert(s.drop_last().push(s.last()).to_multiset() =~= s.drop_last().to_multiset().insert(
            s.last(),
        ));
    }
}

} // verus!
