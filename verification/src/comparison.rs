//! The comparison of two artifacts.

use crate::benchmark::{BenchmarkComparison, BenchmarkComparisonView};
use crate::cases::ProfileKind;
use crate::commits::{
    commit_with_parent, commit_with_sha, find_sha, following, law_first_with_sha,
    lemma_commit_with_parent, lemma_commit_with_sha, next_commit, prev_commit, previous,
    ArtifactId, ArtifactIdView, MasterCommit, MasterCommitView,
};
use crate::statistics::Statistics;
use crate::table::{lemma_first_keys, Table};
use crate::views::{option_view, views};
use vstd::prelude::*;

verus! {

/// A measured time.
#[derive(Clone, Copy, Debug, PartialEq, Eq, Structural)]
pub struct Duration {
    pub secs: u64,
    /// Nanoseconds into the second.
    pub subsec_nanos: u32,
}

impl Duration {
    /// The time in nanoseconds.
    pub open spec fn nanos(self) -> nat {
        self.secs as nat * 1_000_000_000 + self.subsec_nanos as nat
    }

    /// The time in nanoseconds, of which the lowest 64 bits are kept.
    pub fn as_nanos(&self) -> (result: u64)
        ensures
            result == self.nanos() % 0x1_0000_0000_0000_0000,
    {
        let nanos: u128 = self.secs as u128 * 1_000_000_000u128 + self.subsec_nanos as u128;
        let low: u128 = nanos % 0x1_0000_0000_0000_0000u128;
        low as u64
    }
}

/// The time that counts of those that were measured for a crate: the last one, if it is at
/// least a second.
pub open spec fn kept_time(times: Seq<Option<Duration>>) -> Option<u64> {
    if times.len() > 0 && times.last() is Some && times.last()->0.secs >= 1 {
        Some((times.last()->0.nanos() % 0x1_0000_0000_0000_0000) as u64)
    } else {
        None
    }
}

/// The times by crate that count.
pub open spec fn kept_times(times: Map<Seq<char>, Vec<Option<Duration>>>) -> Map<Seq<char>, u64> {
    Map::new(
        |krate: Seq<char>| times.contains_key(krate) && kept_time(times[krate]@) is Some,
        |krate: Seq<char>| kept_time(times[krate]@)->0,
    )
}

/// Detailed description of a specific artifact
#[derive(Debug)]
pub struct ArtifactDescription {
    /// The artifact in question
    pub artifact: ArtifactId,
    /// The pr of the artifact if known
    pub pr: Option<u32>,
    /// Bootstrap data in the form "$crate" -> nanoseconds
    pub bootstrap: Table<String, u64>,
}

/// What an [`ArtifactDescription`] holds.
pub struct ArtifactDescriptionView {
    pub artifact: ArtifactIdView,
    pub pr: Option<u32>,
    pub bootstrap: Map<Seq<char>, u64>,
}

impl View for ArtifactDescription {
    type V = ArtifactDescriptionView;

    open spec fn view(&self) -> ArtifactDescriptionView {
        ArtifactDescriptionView {
            artifact: self.artifact@,
            pr: self.pr,
            bootstrap: self.bootstrap@,
        }
    }
}

impl Clone for ArtifactDescription {
    fn clone(&self) -> (result: ArtifactDescription)
        ensures
            result@ == self@,
    {
        ArtifactDescription {
            artifact: self.artifact.clone(),
            pr: self.pr,
            bootstrap: self.bootstrap.clone(),
        }
    }
}

/// The pull request of an artifact: what the history says of a commit that it holds, and what
/// was recorded of another commit.
pub open spec fn pr_of(
    artifact: ArtifactIdView,
    history: Seq<MasterCommitView>,
    recorded: Option<u32>,
) -> Option<u32> {
    match artifact {
        ArtifactIdView::Commit(c) => match commit_with_sha(history, c.sha) {
            Some(m) => m.pr,
            None => recorded,
        },
        ArtifactIdView::Tag(_) => None,
    }
}

/// A bootstrap time that counts is the last one that was measured, and at least a second; if
/// it fits into 64 bits, nothing of it is lost.
pub proof fn law_kept_time(times: Seq<Option<Duration>>)
    requires
        times.len() > 0,
        times.last() matches Some(t) ==> t.nanos() < 0x1_0000_0000_0000_0000,
    ensures
        kept_time(times) matches Some(n) ==> times.last() is Some && n == times.last()->0.nanos()
            && n >= 1_000_000_000,
        kept_time(times) is None ==> (times.last() matches Some(t) ==> t.secs == 0),
{
}

/// The sha of the artifact, where it is a commit that the history does not hold.
pub open spec fn sha_outside(artifact: ArtifactIdView, history: Seq<MasterCommitView>) -> Option<
    Seq<char>,
> {
    match artifact {
        ArtifactIdView::Commit(c) => if commit_with_sha(history, c.sha) is None {
            Some(c.sha)
        } else {
            None
        },
        ArtifactIdView::Tag(_) => None,
    }
}

/// The sha of the artifact, where it is a commit that the history does not hold. What is to
/// be known of such a commit has to be looked up.
pub fn unlisted_sha(artifact: &ArtifactId, master_commits: &[MasterCommit]) -> (result: Option<
    String,
>)
    ensures
        option_view(result) == sha_outside(artifact@, views(master_commits@)),
{
    match artifact {
        ArtifactId::Commit(c) => match find_sha(&c.sha, master_commits) {
            Some(_) => None,
            None => Some(c.sha.clone()),
        },
        ArtifactId::Tag(_) => None,
    }
}

/// Picks the bootstrap times that count.
fn filter_bootstrap(times: &Table<String, Vec<Option<Duration>>>) -> (result: Table<String, u64>)
    ensures
        result@ == kept_times(times@),
{
    let mut kept: Table<String, u64> = Table::new();
    let count = times.len();
    let ghost keys = times.keys();
    let mut i: usize = 0;
    while i < count
        invariant
            i <= count,
            count == keys.len(),
            keys == times.keys(),
            keys.no_duplicates(),
            keys.to_set() == times@.dom(),
            forall|k: Seq<char>| #[trigger]
                kept@.contains_key(k) == (keys.take(i as int).contains(k) && kept_times(
                    times@,
                ).contains_key(k)),
            forall|k: Seq<char>| #[trigger]
                kept@.contains_key(k) ==> kept@[k] == kept_times(times@)[k],
        decreases count - i,
    {
        let (krate, measured) = times.entry(i);
        proof {
            lemma_first_keys(keys, i as int);
        }
        if measured.len() > 0 {
            match measured[measured.len() - 1] {
                Some(time) => {
                    if time.secs >= 1 {
                        kept.insert(krate.clone(), time.as_nanos());
                    }
                },
                None => {},
            }
        }
        i += 1;
    }
    assert(keys.take(count as int) =~= keys);
    assert forall|k: Seq<char>| keys.contains(k) == times@.contains_key(k) by {
        assert(keys.to_set().contains(k) == keys.contains(k));
    }
    assert(kept@ =~= kept_times(times@));
    kept
}

impl ArtifactDescription {
    /// Describes an artifact, given its bootstrap times by crate, and the pull request that
    /// was recorded for it where [`unlisted_sha`] asks for one.
    pub fn for_artifact(
        artifact: ArtifactId,
        bootstrap: &Table<String, Vec<Option<Duration>>>,
        master_commits: &[MasterCommit],
        recorded_pr: Option<u32>,
    ) -> (result: ArtifactDescription)
        ensures
            result@ == (ArtifactDescriptionView {
                artifact: artifact@,
                pr: pr_of(artifact@, views(master_commits@), recorded_pr),
                bootstrap: kept_times(bootstrap@),
            }),
    {
        let bootstrap = filter_bootstrap(bootstrap);
        let pr = match &artifact {
            ArtifactId::Commit(c) => match find_sha(&c.sha, master_commits) {
                Some(m) => m.pr,
                None => recorded_pr,
            },
            ArtifactId::Tag(_) => None,
        };
        ArtifactDescription { artifact, pr, bootstrap }
    }
}

/// A comparison of two artifacts
pub struct Comparison {
    pub a: ArtifactDescription,
    pub b: ArtifactDescription,
    /// Statistics based on test case
    pub statistics: Statistics,
}

/// What a [`Comparison`] holds.
pub struct ComparisonView {
    pub a: ArtifactDescriptionView,
    pub b: ArtifactDescriptionView,
    pub statistics: Seq<BenchmarkComparisonView>,
}

impl View for Comparison {
    type V = ComparisonView;

    open spec fn view(&self) -> ComparisonView {
        ComparisonView { a: self.a@, b: self.b@, statistics: self.statistics@ }
    }
}

/// The sha of a commit that was looked for.
pub open spec fn sha_of(commit: Option<MasterCommitView>) -> Option<Seq<char>> {
    match commit {
        Some(c) => Some(c.sha),
        None => None,
    }
}

/// Whether a comparison is of something that is compiled rather than documented.
pub open spec fn not_doc(comparison: BenchmarkComparisonView) -> bool {
    comparison.test_case.profile.kind != ProfileKind::Doc
}

impl ComparisonView {
    /// Whether `b` comes right after `a`: they are commits, and the parent of `b` is `a`. The
    /// history gives the parent of a commit that it holds; for another one it was recorded.
    pub open spec fn contiguous(
        self,
        history: Seq<MasterCommitView>,
        recorded_parent: Option<Seq<char>>,
    ) -> bool {
        match (self.a.artifact, self.b.artifact) {
            (ArtifactIdView::Commit(a), ArtifactIdView::Commit(b)) => match commit_with_sha(
                history,
                b.sha,
            ) {
                Some(m) => m.parent_sha == a.sha,
                None => recorded_parent == Some(a.sha),
            },
            _ => false,
        }
    }

    /// The comparisons that a summary is made of.
    pub open spec fn benchmarks(self) -> Seq<BenchmarkComparisonView> {
        self.statistics.filter(|c: BenchmarkComparisonView| not_doc(c))
    }
}

/// Where no two commits have the same parent, artifacts are contiguous only if the second one
/// is the commit after the first, as far as the history holds it; and if the history does not
/// hold it, only if the first one was recorded as its parent.
pub proof fn law_contiguous_is_next(
    comparison: ComparisonView,
    history: Seq<MasterCommitView>,
    recorded_parent: Option<Seq<char>>,
)
    requires
        comparison.contiguous(history, recorded_parent),
        forall|i: int, j: int|
            0 <= i < history.len() && 0 <= j < history.len() && history[i].parent_sha
                == history[j].parent_sha ==> i == j,
    ensures
        comparison.a.artifact is Commit,
        comparison.b.artifact is Commit,
        match commit_with_sha(history, comparison.b.artifact.name()) {
            Some(b) => following(comparison.a.artifact, history) == Some(b),
            None => recorded_parent == Some(comparison.a.artifact.name()),
        },
{
    let sha = comparison.b.artifact.name();
    lemma_commit_with_sha(history, sha);
    match commit_with_sha(history, sha) {
        Some(b) => {
            lemma_commit_with_parent(history, b.parent_sha);
            let i = choose|i: int| 0 <= i < history.len() && history[i] == b;
            assert(history[i].parent_sha == b.parent_sha);
            let found = commit_with_parent(history, b.parent_sha)->0;
            let j = choose|j: int| 0 <= j < history.len() && history[j] == found;
            assert(history[j].parent_sha == history[i].parent_sha);
        },
        None => {},
    }
}

impl Comparison {
    /// Gets the previous commit before `a`
    pub fn prev(&self, master_commits: &[MasterCommit]) -> (result: Option<String>)
        ensures
            option_view(result) == sha_of(previous(self@.a.artifact, views(master_commits@))),
    {
        match prev_commit(&self.a.artifact, master_commits) {
            Some(c) => Some(c.sha.clone()),
            None => None,
        }
    }

    /// Determines if `a` and `b` are contiguous, given the parent that was recorded for `b`
    /// where [`Comparison::unlisted_parent`] asks for one.
    pub fn is_contiguous(
        &self,
        master_commits: &[MasterCommit],
        recorded_parent: &Option<String>,
    ) -> (result: bool)
        ensures
            result == self@.contiguous(views(master_commits@), option_view(*recorded_parent)),
    {
        match (&self.a.artifact, &self.b.artifact) {
            (ArtifactId::Commit(a), ArtifactId::Commit(b)) => match find_sha(
                &b.sha,
                master_commits,
            ) {
                Some(m) => m.parent_sha == a.sha,
                None => match recorded_parent {
                    Some(p) => *p == a.sha,
                    None => false,
                },
            },
            _ => false,
        }
    }

    /// The sha of the commit whose parent has to be looked up to tell whether `a` and `b` are
    /// contiguous, if any.
    pub fn unlisted_parent(&self, master_commits: &[MasterCommit]) -> (result: Option<String>)
        ensures
            option_view(result) == match self@.a.artifact {
                ArtifactIdView::Commit(_) => sha_outside(
                    self@.b.artifact,
                    views(master_commits@),
                ),
                ArtifactIdView::Tag(_) => None,
            },
    {
        match &self.a.artifact {
            ArtifactId::Commit(_) => unlisted_sha(&self.b.artifact, master_commits),
            ArtifactId::Tag(_) => None,
        }
    }

    /// Gets the sha of the next commit after `b`
    pub fn next(&self, master_commits: &[MasterCommit]) -> (result: Option<String>)
        ensures
            option_view(result) == sha_of(following(self@.b.artifact, views(master_commits@))),
    {
        match next_commit(&self.b.artifact, master_commits) {
            Some(c) => Some(c.sha.clone()),
            None => None,
        }
    }

    /// The comparisons that a summary is made of: all but those of documentation builds.
    pub fn get_benchmarks(&self) -> (result: Vec<&BenchmarkComparison>)
        ensures
            views(result@) == self@.benchmarks(),
    {
        let ghost all = self.statistics@;
        let count = self.statistics.len();
        let ghost keep = |c: BenchmarkComparisonView| not_doc(c);
        let mut benchmarks: Vec<&BenchmarkComparison> = Vec::new();
        let mut i: usize = 0;
        proof {
            reveal(Seq::filter);
            assert(all.take(0).filter(keep) =~= views(benchmarks@));
        }
        while i < count
            invariant
                i <= count,
                count == all.len(),
                all == self.statistics@,
                keep == |c: BenchmarkComparisonView| not_doc(c),
                views(benchmarks@) == all.take(i as int).filter(keep),
            decreases count - i,
        {
            let comparison = self.statistics.get(i);
            let ghost before = benchmarks@;
            proof {
                reveal(Seq::filter);
                assert(all.take(i + 1).drop_last() =~= all.take(i as int));
            }
            if comparison.test_case().profile.kind != ProfileKind::Doc {
                benchmarks.push(comparison);
                assert(views(benchmarks@) =~= views(before).push(comparison@));
            }
            i += 1;
        }
        assert(all.take(all.len() as int) =~= all);
        benchmarks
    }
}

/// Which bootstrap times are kept, of all crates: the last one that was measured, where it was
/// measured and is not below a second, in nanoseconds, of which the lowest 64 bits count.
pub proof fn law_kept_times(
    times: Map<Seq<char>, Vec<Option<Duration>>>,
    krate: Seq<char>,
    time: Duration,
)
    ensures
        time.nanos() == time.secs * 1_000_000_000 + time.subsec_nanos,
        kept_times(times).contains_key(krate) <==> times.contains_key(krate) && times[krate].len()
            > 0 && times[krate]@.last() is Some && times[krate]@.last()->0.secs >= 1,
        kept_times(times).contains_key(krate) && times[krate]@.last() == Some(time)
            ==> kept_times(times)[krate] == (time.secs * 1_000_000_000 + time.subsec_nanos)
            % 0x1_0000_0000_0000_0000,
{
}

/// Where the pull request of an artifact is known from. A tag has none. That of a commit is the
/// one of its first entry in the history, and else the one that was recorded.
pub proof fn law_pull_request(
    artifact: ArtifactIdView,
    history: Seq<MasterCommitView>,
    recorded: Option<u32>,
    i: int,
)
    ensures
        artifact is Tag ==> pr_of(artifact, history, recorded) is None,
        artifact matches ArtifactIdView::Commit(c) ==> {
            &&& (forall|j: int| 0 <= j < history.len() ==> (#[trigger] history[j]).sha != c.sha)
                ==> pr_of(artifact, history, recorded) == recorded
            &&& (0 <= i < history.len() && history[i].sha == c.sha && (forall|j: int|
                0 <= j < i ==> (#[trigger] history[j]).sha != c.sha)) ==> pr_of(
                artifact,
                history,
                recorded,
            ) == history[i].pr
        },
{
    match artifact {
        ArtifactIdView::Commit(c) => {
            lemma_entry_of(history, c.sha, i);
        },
        ArtifactIdView::Tag(_) => {},
    }
}

/// What is found for a sha: nothing where no commit has it, and else the first that has it.
proof fn lemma_entry_of(history: Seq<MasterCommitView>, sha: Seq<char>, i: int)
    ensures
        (forall|j: int| 0 <= j < history.len() ==> (#[trigger] history[j]).sha != sha)
            <==> commit_with_sha(history, sha) is None,
        (0 <= i < history.len() && history[i].sha == sha && (forall|j: int|
            0 <= j < i ==> (#[trigger] history[j]).sha != sha)) ==> commit_with_sha(history, sha)
            == Some(history[i]),
{
    lemma_commit_with_sha(history, sha);
    if commit_with_sha(history, sha) is Some {
        let found = commit_with_sha(history, sha)->0;
        let at = choose|at: int| 0 <= at < history.len() && history[at] == found;
        assert(history[at].sha == sha);
    }
    if 0 <= i < history.len() && history[i].sha == sha && (forall|j: int|
        0 <= j < i ==> (#[trigger] history[j]).sha != sha) {
        law_first_with_sha(history, sha, i);
    }
}

/// A sha has to be looked up exactly where it is that of a commit that the history does not hold.
pub proof fn law_what_has_to_be_looked_up(
    artifact: ArtifactIdView,
    history: Seq<MasterCommitView>,
)
    ensures
        artifact is Tag ==> sha_outside(artifact, history) is None,
        artifact matches ArtifactIdView::Commit(c) ==> {
            &&& (forall|j: int| 0 <= j < history.len() ==> (#[trigger] history[j]).sha != c.sha)
                ==> sha_outside(artifact, history) == Some(c.sha)
            &&& (exists|j: int| 0 <= j < history.len() && (#[trigger] history[j]).sha == c.sha)
                ==> sha_outside(artifact, history) is None
        },
{
    match artifact {
        ArtifactIdView::Commit(c) => {
            lemma_entry_of(history, c.sha, 0);
        },
        ArtifactIdView::Tag(_) => {},
    }
}

/// Two artifacts are contiguous exactly where both are commits, and the first one is the parent
/// of the second: by the first entry that the history has for the second, and else by what was
/// recorded.
pub proof fn law_contiguous(
    comparison: ComparisonView,
    history: Seq<MasterCommitView>,
    recorded_parent: Option<Seq<char>>,
    i: int,
)
    ensures
        match (comparison.a.artifact, comparison.b.artifact) {
            (ArtifactIdView::Commit(a), ArtifactIdView::Commit(b)) => {
                &&& (forall|j: int|
                    0 <= j < history.len() ==> (#[trigger] history[j]).sha != b.sha) ==> (
                comparison.contiguous(history, recorded_parent) <==> recorded_parent == Some(
                    a.sha,
                ))
                &&& (0 <= i < history.len() && history[i].sha == b.sha && (forall|j: int|
                    0 <= j < i ==> (#[trigger] history[j]).sha != b.sha)) ==> (
                comparison.contiguous(history, recorded_parent) <==> history[i].parent_sha
                    == a.sha)
            },
            _ => !comparison.contiguous(history, recorded_parent),
        },
{
    match (comparison.a.artifact, comparison.b.artifact) {
        (ArtifactIdView::Commit(a), ArtifactIdView::Commit(b)) => {
            lemma_entry_of(history, b.sha, i);
        },
        _ => {},
    }
}

/// What a summary is made of: nothing of nothing, a single comparison unless it is of a
/// documentation build, and of two lists what it is made of the one and then of the other. So
/// only documentation builds are left out, and the order stays.
pub proof fn law_only_documentation_is_left_out(
    comparison: ComparisonView,
    first: Seq<BenchmarkComparisonView>,
    second: Seq<BenchmarkComparisonView>,
    c: BenchmarkComparisonView,
)
    ensures
        ({
            let of = |list: Seq<BenchmarkComparisonView>|
                (ComparisonView { statistics: list, ..comparison }).benchmarks();
            &&& of(Seq::empty()) == Seq::<BenchmarkComparisonView>::empty()
            &&& c.test_case.profile.kind == ProfileKind::Doc ==> of(seq![c])
                == Seq::<BenchmarkComparisonView>::empty()
            &&& c.test_case.profile.kind != ProfileKind::Doc ==> of(seq![c]) == seq![c]
            &&& of(first + second) == of(first) + of(second)
        }),
{
    reveal(Seq::filter);
    let keep = |c: BenchmarkComparisonView| not_doc(c);
    Seq::filter_distributes_over_add(first, second, keep);
    assert(seq![c].drop_last() =~= Seq::empty());
    assert(Seq::<BenchmarkComparisonView>::empty().filter(keep) =~= Seq::empty());
    assert(not_doc(c) ==> seq![c].filter(keep) =~= seq![c]);
}

/// What is known of a comparison is what it holds.
pub proof fn law_comparison_is_what_it_holds(comparison: Comparison)
    ensures
        comparison@.a == comparison.a@,
        comparison@.b == comparison.b@,
        comparison@.statistics == comparison.statistics@,
        comparison@.a.artifact == comparison.a.artifact@,
        comparison@.a.pr == comparison.a.pr,
        comparison@.a.bootstrap == comparison.a.bootstrap@,
{
}

} // verus!
