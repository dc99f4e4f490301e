//! Artifacts, bounds and the history of the master branch.

use crate::date::Date;
use crate::views::{option_view, views};
use vstd::prelude::*;

verus! {

/// A moment: seconds since the start of 1970 in UTC, and nanoseconds into that second.
#[derive(Clone, Copy, Debug, PartialEq, Eq, Structural)]
pub struct Time {
    pub seconds: i64,
    pub nanos: u32,
}

/// A commit that was measured.
#[derive(Debug)]
pub struct Commit {
    pub sha: String,
    pub date: Time,
}

/// What a [`Commit`] holds.
pub struct CommitView {
    pub sha: Seq<char>,
    pub date: Time,
}

impl View for Commit {
    type V = CommitView;

    open spec fn view(&self) -> CommitView {
        CommitView { sha: self.sha@, date: self.date }
    }
}

impl Clone for Commit {
    fn clone(&self) -> (result: Commit)
        ensures
            result == *self,
    {
        Commit { sha: self.sha.clone(), date: self.date }
    }
}

/// What can be measured: a commit, or a released version by its tag.
#[derive(Debug)]
pub enum ArtifactId {
    Commit(Commit),
    Tag(String),
}

/// What an [`ArtifactId`] holds.
pub enum ArtifactIdView {
    Commit(CommitView),
    Tag(Seq<char>),
}

impl View for ArtifactId {
    type V = ArtifactIdView;

    open spec fn view(&self) -> ArtifactIdView {
        match self {
            ArtifactId::Commit(c) => ArtifactIdView::Commit(c@),
            ArtifactId::Tag(t) => ArtifactIdView::Tag(t@),
        }
    }
}

impl Clone for ArtifactId {
    fn clone(&self) -> (result: ArtifactId)
        ensures
            result == *self,
    {
        match self {
            ArtifactId::Commit(c) => ArtifactId::Commit(c.clone()),
            ArtifactId::Tag(t) => ArtifactId::Tag(t.clone()),
        }
    }
}

impl ArtifactIdView {
    /// The name of the artifact: the sha of a commit, or the tag.
    pub open spec fn name(self) -> Seq<char> {
        match self {
            ArtifactIdView::Commit(c) => c.sha,
            ArtifactIdView::Tag(t) => t,
        }
    }
}

impl ArtifactId {
    /// Whether the two artifacts are the same.
    pub fn same(&self, other: &ArtifactId) -> (result: bool)
        ensures
            result == (self@ == other@),
    {
        match (self, other) {
            (ArtifactId::Commit(a), ArtifactId::Commit(b)) => a.sha == b.sha && a.date == b.date,
            (ArtifactId::Tag(a), ArtifactId::Tag(b)) => *a == *b,
            _ => false,
        }
    }

    /// The name of the artifact: the sha of a commit, or the tag.
    pub fn name(&self) -> (result: &str)
        ensures
            result@ == self@.name(),
    {
        match self {
            ArtifactId::Commit(c) => c.sha.as_str(),
            ArtifactId::Tag(t) => t.as_str(),
        }
    }
}

/// One end of a range of commits, as it is asked for.
#[derive(Debug)]
pub enum Bound {
    /// The commit with this sha.
    Commit(String),
    /// A day.
    Date(Date),
    /// No bound.
    Unbounded,
}

/// What a [`Bound`] holds.
pub enum BoundView {
    Commit(Seq<char>),
    Date(Date),
    Unbounded,
}

impl View for Bound {
    type V = BoundView;

    open spec fn view(&self) -> BoundView {
        match self {
            Bound::Commit(s) => BoundView::Commit(s@),
            Bound::Date(d) => BoundView::Date(*d),
            Bound::Unbounded => BoundView::Unbounded,
        }
    }
}

impl Clone for Bound {
    fn clone(&self) -> (result: Bound)
        ensures
            result == *self,
    {
        match self {
            Bound::Commit(s) => Bound::Commit(s.clone()),
            Bound::Date(d) => Bound::Date(*d),
            Bound::Unbounded => Bound::Unbounded,
        }
    }
}

impl BoundView {
    /// The bound as it is written in a report.
    pub open spec fn text(self) -> Seq<char> {
        match self {
            BoundView::Commit(s) => s,
            BoundView::Date(d) => d.text(),
            BoundView::Unbounded => "???"@,
        }
    }
}

impl Bound {
    /// Whether the two bounds are the same.
    pub fn same(&self, other: &Bound) -> (result: bool)
        ensures
            result == (self@ == other@),
    {
        match (self, other) {
            (Bound::Commit(a), Bound::Commit(b)) => *a == *b,
            (Bound::Date(a), Bound::Date(b)) => a.same(b),
            (Bound::Unbounded, Bound::Unbounded) => true,
            _ => false,
        }
    }

    /// The bound as it is written in a report: the sha of a commit, the date in the form
    /// `2021-03-09`, or question marks.
    pub fn fmt_bound(&self) -> (result: String)
        ensures
            result@ == self@.text(),
    {
        match self {
            Bound::Commit(s) => s.clone(),
            Bound::Date(d) => d.format(),
            Bound::Unbounded => "???".to_owned(),
        }
    }
}

/// A merge into the master branch.
#[derive(Debug)]
pub struct MasterCommit {
    pub sha: String,
    pub parent_sha: String,
    /// The pull request that was merged, if known.
    pub pr: Option<u32>,
    pub time: Time,
}

/// What a [`MasterCommit`] holds.
pub struct MasterCommitView {
    pub sha: Seq<char>,
    pub parent_sha: Seq<char>,
    pub pr: Option<u32>,
    pub time: Time,
}

impl View for MasterCommit {
    type V = MasterCommitView;

    open spec fn view(&self) -> MasterCommitView {
        MasterCommitView {
            sha: self.sha@,
            parent_sha: self.parent_sha@,
            pr: self.pr,
            time: self.time,
        }
    }
}

impl MasterCommitView {
    /// The commit as something that was measured.
    pub open spec fn artifact(self) -> ArtifactIdView {
        ArtifactIdView::Commit(CommitView { sha: self.sha, date: self.time })
    }
}

/// The first commit of the history with the given sha.
pub open spec fn commit_with_sha(
    history: Seq<MasterCommitView>,
    sha: Seq<char>,
) -> Option<MasterCommitView>
    decreases history.len(),
{
    if history.len() == 0 {
        None
    } else if history[0].sha == sha {
        Some(history[0])
    } else {
        commit_with_sha(history.drop_first(), sha)
    }
}

/// The first commit of the history whose parent is the commit with the given sha.
pub open spec fn commit_with_parent(
    history: Seq<MasterCommitView>,
    sha: Seq<char>,
) -> Option<MasterCommitView>
    decreases history.len(),
{
    if history.len() == 0 {
        None
    } else if history[0].parent_sha == sha {
        Some(history[0])
    } else {
        commit_with_parent(history.drop_first(), sha)
    }
}

/// The commit before the artifact.
pub open spec fn previous(
    artifact: ArtifactIdView,
    history: Seq<MasterCommitView>,
) -> Option<MasterCommitView> {
    match artifact {
        ArtifactIdView::Commit(c) => match commit_with_sha(history, c.sha) {
            Some(current) => commit_with_sha(history, current.parent_sha),
            None => None,
        },
        ArtifactIdView::Tag(_) => None,
    }
}

/// The commit after the artifact.
pub open spec fn following(
    artifact: ArtifactIdView,
    history: Seq<MasterCommitView>,
) -> Option<MasterCommitView> {
    match artifact {
        ArtifactIdView::Commit(c) => commit_with_parent(history, c.sha),
        ArtifactIdView::Tag(_) => None,
    }
}

/// Up to `n` commits before the artifact, the nearest first.
pub open spec fn ancestors(
    artifact: ArtifactIdView,
    n: nat,
    history: Seq<MasterCommitView>,
) -> Seq<ArtifactIdView>
    decreases n,
{
    if n == 0 {
        Seq::empty()
    } else {
        match previous(artifact, history) {
            Some(c) => seq![c.artifact()] + ancestors(c.artifact(), (n - 1) as nat, history),
            None => Seq::empty(),
        }
    }
}

/// A commit found by its sha is in the history and has that sha; none is found only where
/// there is none.
pub proof fn lemma_commit_with_sha(history: Seq<MasterCommitView>, sha: Seq<char>)
    ensures
        match commit_with_sha(history, sha) {
            Some(c) => c.sha == sha && history.contains(c),
            None => forall|i: int| 0 <= i < history.len() ==> history[i].sha != sha,
        },
    decreases history.len(),
{
    if history.len() > 0 {
        let rest = history.drop_first();
        lemma_commit_with_sha(rest, sha);
        assert forall|i: int| 0 <= i < rest.len() implies rest[i] == history[i + 1] by {}
        match commit_with_sha(history, sha) {
            Some(c) => {
                if history[0].sha != sha {
                    let i = choose|i: int| 0 <= i < rest.len() && rest[i] == c;
                    assert(history[i + 1] == c);
                } else {
                    assert(history[0] == c);
                }
            },
            None => {
                assert forall|i: int| 0 <= i < history.len() implies history[i].sha != sha by {
                    if i > 0 {
                        assert(rest[i - 1] == history[i]);
                    }
                }
            },
        }
    }
}

/// A commit found by its parent is in the history and has that parent; none is found only
/// where there is none.
pub proof fn lemma_commit_with_parent(history: Seq<MasterCommitView>, sha: Seq<char>)
    ensures
        match commit_with_parent(history, sha) {
            Some(c) => c.parent_sha == sha && history.contains(c),
            None => forall|i: int| 0 <= i < history.len() ==> history[i].parent_sha != sha,
        },
    decreases history.len(),
{
    if history.len() > 0 {
        let rest = history.drop_first();
        lemma_commit_with_parent(rest, sha);
        assert forall|i: int| 0 <= i < rest.len() implies rest[i] == history[i + 1] by {}
        match commit_with_parent(history, sha) {
            Some(c) => {
                if history[0].parent_sha != sha {
                    let i = choose|i: int| 0 <= i < rest.len() && rest[i] == c;
                    assert(history[i + 1] == c);
                } else {
                    assert(history[0] == c);
                }
            },
            None => {
                assert forall|i: int| 0 <= i < history.len() implies history[i].parent_sha != sha by {
                    if i > 0 {
                        assert(rest[i - 1] == history[i]);
                    }
                }
            },
        }
    }
}

/// Where no two commits have the same parent, the commit after the one before an artifact is
/// the artifact's own commit.
pub proof fn law_next_undoes_prev(artifact: CommitView, history: Seq<MasterCommitView>)
    requires
        previous(ArtifactIdView::Commit(artifact), history) is Some,
        forall|i: int, j: int|
            0 <= i < history.len() && 0 <= j < history.len() && history[i].parent_sha
                == history[j].parent_sha ==> i == j,
    ensures
        following(
            previous(ArtifactIdView::Commit(artifact), history)->0.artifact(),
            history,
        ) == commit_with_sha(history, artifact.sha),
        commit_with_sha(history, artifact.sha) is Some,
{
    lemma_commit_with_sha(history, artifact.sha);
    let current = commit_with_sha(history, artifact.sha)->0;
    lemma_commit_with_sha(history, current.parent_sha);
    lemma_commit_with_parent(history, current.parent_sha);
    let i = choose|i: int| 0 <= i < history.len() && history[i] == current;
    assert(history[i].parent_sha == current.parent_sha);
    let found = commit_with_parent(history, current.parent_sha)->0;
    let j = choose|j: int| 0 <= j < history.len() && history[j] == found;
    assert(history[j].parent_sha == history[i].parent_sha);
}

/// Where no two commits have the same sha, the commit before the one after an artifact is the
/// artifact's own commit, if the history holds it.
pub proof fn law_prev_undoes_next(artifact: CommitView, history: Seq<MasterCommitView>)
    requires
        following(ArtifactIdView::Commit(artifact), history) is Some,
        forall|i: int, j: int|
            0 <= i < history.len() && 0 <= j < history.len() && history[i].sha == history[j].sha
                ==> i == j,
    ensures
        previous(
            following(ArtifactIdView::Commit(artifact), history)->0.artifact(),
            history,
        ) == commit_with_sha(history, artifact.sha),
{
    lemma_commit_with_parent(history, artifact.sha);
    let next = commit_with_parent(history, artifact.sha)->0;
    lemma_commit_with_sha(history, next.sha);
    let i = choose|i: int| 0 <= i < history.len() && history[i] == next;
    assert(history[i].sha == next.sha);
    let found = commit_with_sha(history, next.sha)->0;
    let j = choose|j: int| 0 <= j < history.len() && history[j] == found;
    assert(history[j].sha == history[i].sha);
}

/// Whether `earlier` is the commit right before `later`.
pub open spec fn right_before(
    earlier: ArtifactIdView,
    later: ArtifactIdView,
    history: Seq<MasterCommitView>,
) -> bool {
    previous(later, history) matches Some(c) && earlier == c.artifact()
}

/// Whether the member of the list at the given place is the commit right before the one that
/// precedes it in the list, or right before the artifact if it is the first.
pub open spec fn continues(
    list: Seq<ArtifactIdView>,
    artifact: ArtifactIdView,
    history: Seq<MasterCommitView>,
    i: int,
) -> bool {
    right_before(
        list[i],
        if i == 0 {
            artifact
        } else {
            list[i - 1]
        },
        history,
    )
}

/// Of the commits before an artifact there are at most as many as were asked for. The first
/// comes right before the artifact, and each other one right before the one that precedes it
/// in the list. There are fewer than were asked for only where the last one has none before
/// it.
pub proof fn law_ancestors_chain(
    artifact: ArtifactIdView,
    n: nat,
    history: Seq<MasterCommitView>,
)
    ensures
        ancestors(artifact, n, history).len() <= n,
        forall|i: int|
            0 <= i < ancestors(artifact, n, history).len() ==> #[trigger] continues(
                ancestors(artifact, n, history),
                artifact,
                history,
                i,
            ),
        ancestors(artifact, n, history).len() < n ==> previous(
            if ancestors(artifact, n, history).len() == 0 {
                artifact
            } else {
                ancestors(artifact, n, history).last()
            },
            history,
        ) is None,
    decreases n,
{
    let list = ancestors(artifact, n, history);
    if n > 0 && previous(artifact, history) is Some {
        let next = previous(artifact, history)->0.artifact();
        let rest = ancestors(next, (n - 1) as nat, history);
        law_ancestors_chain(next, (n - 1) as nat, history);
        assert(list =~= seq![next] + rest);
        assert forall|i: int| 0 <= i < list.len() implies #[trigger] continues(
            list,
            artifact,
            history,
            i,
        ) by {
            if i > 0 {
                assert(continues(rest, next, history, i - 1));
                assert(list[i] == rest[i - 1]);
                if i > 1 {
                    assert(list[i - 1] == rest[i - 2]);
                }
            }
        }
        if rest.len() > 0 {
            assert(list.last() == rest.last());
        }
    }
}

/// The first commit of the history with the given sha.
pub fn find_sha<'a>(sha: &String, master_commits: &'a [MasterCommit]) -> (result: Option<
    &'a MasterCommit,
>)
    ensures
        option_view(result) == commit_with_sha(views(master_commits@), sha@),
{
    let ghost history = views(master_commits@);
    assert(history.skip(0) =~= history);
    let mut i: usize = 0;
    while i < master_commits.len()
        invariant
            i <= master_commits@.len(),
            history == views(master_commits@),
            commit_with_sha(history, sha@) == commit_with_sha(history.skip(i as int), sha@),
        decreases master_commits.len() - i,
    {
        assert(history.skip(i as int).drop_first() =~= history.skip(i + 1));
        if master_commits[i].sha == *sha {
            return Some(&master_commits[i]);
        }
        i += 1;
    }
    None
}

/// The first commit of the history whose parent is the commit with the given sha.
pub fn find_parent<'a>(sha: &String, master_commits: &'a [MasterCommit]) -> (result: Option<
    &'a MasterCommit,
>)
    ensures
        option_view(result) == commit_with_parent(views(master_commits@), sha@),
{
    let ghost history = views(master_commits@);
    assert(history.skip(0) =~= history);
    let mut i: usize = 0;
    while i < master_commits.len()
        invariant
            i <= master_commits@.len(),
            history == views(master_commits@),
            commit_with_parent(history, sha@) == commit_with_parent(history.skip(i as int), sha@),
        decreases master_commits.len() - i,
    {
        assert(history.skip(i as int).drop_first() =~= history.skip(i + 1));
        if master_commits[i].parent_sha == *sha {
            return Some(&master_commits[i]);
        }
        i += 1;
    }
    None
}

/// Gets the previous commit.
pub fn prev_commit<'a>(artifact: &ArtifactId, master_commits: &'a [MasterCommit]) -> (result:
    Option<&'a MasterCommit>)
    ensures
        option_view(result) == previous(artifact@, views(master_commits@)),
{
    match artifact {
        ArtifactId::Commit(a) => match find_sha(&a.sha, master_commits) {
            Some(current) => find_sha(&current.parent_sha, master_commits),
            None => None,
        },
        ArtifactId::Tag(_) => None,
    }
}

/// Gets the next commit.
pub fn next_commit<'a>(artifact: &ArtifactId, master_commits: &'a [MasterCommit]) -> (result:
    Option<&'a MasterCommit>)
    ensures
        option_view(result) == following(artifact@, views(master_commits@)),
{
    match artifact {
        ArtifactId::Commit(b) => find_parent(&b.sha, master_commits),
        ArtifactId::Tag(_) => None,
    }
}

/// Gets up to `n` commits before the given one, the nearest first. There are fewer where the
/// history ends.
pub fn previous_commits(from: ArtifactId, n: usize, master_commits: &[MasterCommit]) -> (result:
    Vec<ArtifactId>)
    ensures
        views(result@) == ancestors(from@, n as nat, views(master_commits@)),
{
    let ghost history = views(master_commits@);
    let ghost start = from@;
    let mut current = from;
    let mut prevs: Vec<ArtifactId> = Vec::new();
    assert(views(prevs@) + ancestors(start, n as nat, history) =~= ancestors(
        start,
        n as nat,
        history,
    ));
    while prevs.len() < n
        invariant
            prevs.len() <= n,
            start == from@,
            history == views(master_commits@),
            ancestors(start, n as nat, history) == views(prevs@) + ancestors(
                current@,
                (n - prevs.len()) as nat,
                history,
            ),
        decreases n - prevs.len(),
    {
        let ghost done = prevs@;
        match prev_commit(&current, master_commits) {
            Some(c) => {
                let new = ArtifactId::Commit(Commit { sha: c.sha.clone(), date: c.time });
                current = new.clone();
                prevs.push(new);
                assert(views(prevs@) =~= views(done) + seq![c@.artifact()]);
                assert(views(done) + (seq![c@.artifact()] + ancestors(
                    current@,
                    (n - prevs.len()) as nat,
                    history,
                )) =~= views(prevs@) + ancestors(current@, (n - prevs.len()) as nat, history));
            },
            None => {
                assert(views(prevs@) + Seq::<ArtifactIdView>::empty() =~= views(prevs@));
                return prevs;
            },
        }
    }
    assert(views(prevs@) + Seq::<ArtifactIdView>::empty() =~= views(prevs@));
    prevs
}

/// The address of the page that compares the two artifacts.
pub open spec fn link_text(start: ArtifactIdView, end: ArtifactIdView) -> Seq<char> {
    "https://perf.rust-lang.org/compare.html?start="@ + start.name() + "&end="@ + end.name()
        + "&stat=instructions:u"@
}

/// The address of the page that compares the two artifacts.
pub fn compare_link(start: &ArtifactId, end: &ArtifactId) -> (result: String)
    ensures
        result@ == link_text(start@, end@),
{
    let mut link = "https://perf.rust-lang.org/compare.html?start=".to_owned();
    link.append(start.name());
    link.append("&end=");
    link.append(end.name());
    link.append("&stat=instructions:u");
    link
}

/// The place of a commit that is looked for in the history: the first one with the given sha.
pub proof fn law_first_with_sha(history: Seq<MasterCommitView>, sha: Seq<char>, i: int)
    requires
        0 <= i < history.len(),
        history[i].sha == sha,
        forall|j: int| 0 <= j < i ==> (#[trigger] history[j]).sha != sha,
    ensures
        commit_with_sha(history, sha) == Some(history[i]),
    decreases i,
{
    if i > 0 {
        let rest = history.drop_first();
        assert(history[0].sha != sha);
        assert forall|j: int| 0 <= j < i - 1 implies (#[trigger] rest[j]).sha != sha by {
            assert(rest[j] == history[j + 1]);
        }
        law_first_with_sha(rest, sha, i - 1);
    }
}

/// The place of a commit that is looked for by its parent: the first one with that parent.
pub proof fn law_first_with_parent(history: Seq<MasterCommitView>, sha: Seq<char>, i: int)
    requires
        0 <= i < history.len(),
        history[i].parent_sha == sha,
        forall|j: int| 0 <= j < i ==> (#[trigger] history[j]).parent_sha != sha,
    ensures
        commit_with_parent(history, sha) == Some(history[i]),
    decreases i,
{
    if i > 0 {
        let rest = history.drop_first();
        assert(history[0].parent_sha != sha);
        assert forall|j: int| 0 <= j < i - 1 implies (#[trigger] rest[j]).parent_sha != sha by {
            assert(rest[j] == history[j + 1]);
        }
        law_first_with_parent(rest, sha, i - 1);
    }
}

/// The commit before a commit is the one that its entry in the history names as its parent, if
/// the history holds both. Nothing comes before a tag.
pub proof fn law_previous_is_the_parent(
    artifact: ArtifactIdView,
    history: Seq<MasterCommitView>,
    i: int,
    k: int,
)
    ensures
        artifact is Tag ==> previous(artifact, history) is None,
        artifact matches ArtifactIdView::Commit(c) ==> {
            &&& (forall|j: int| 0 <= j < history.len() ==> (#[trigger] history[j]).sha != c.sha)
                ==> previous(artifact, history) is None
            &&& (0 <= i < history.len() && history[i].sha == c.sha && (forall|j: int|
                0 <= j < i ==> (#[trigger] history[j]).sha != c.sha)) ==> {
                &&& (forall|j: int|
                    0 <= j < history.len() ==> (#[trigger] history[j]).sha
                        != history[i].parent_sha) ==> previous(artifact, history) is None
                &&& (0 <= k < history.len() && history[k].sha == history[i].parent_sha && (forall|
                    j: int,
                |
                    0 <= j < k ==> (#[trigger] history[j]).sha != history[i].parent_sha))
                    ==> previous(artifact, history) == Some(history[k])
            }
        },
{
    match artifact {
        ArtifactIdView::Commit(c) => {
            lemma_commit_with_sha(history, c.sha);
            if commit_with_sha(history, c.sha) is Some {
                let found = commit_with_sha(history, c.sha)->0;
                let at = choose|at: int| 0 <= at < history.len() && history[at] == found;
                assert(history[at].sha == c.sha);
            }
            if 0 <= i < history.len() && history[i].sha == c.sha && (forall|j: int|
                0 <= j < i ==> (#[trigger] history[j]).sha != c.sha) {
                law_first_with_sha(history, c.sha, i);
                let parent = history[i].parent_sha;
                lemma_commit_with_sha(history, parent);
                if commit_with_sha(history, parent) is Some {
                    let found = commit_with_sha(history, parent)->0;
                    let at = choose|at: int| 0 <= at < history.len() && history[at] == found;
                    assert(history[at].sha == parent);
                }
                if 0 <= k < history.len() && history[k].sha == parent && (forall|j: int|
                    0 <= j < k ==> (#[trigger] history[j]).sha != parent) {
                    law_first_with_sha(history, parent, k);
                }
            }
        },
        ArtifactIdView::Tag(_) => {},
    }
}

/// The commit after a commit is the first one of the history that names it as its parent, if
/// there is one. Nothing comes after a tag.
pub proof fn law_following_names_its_parent(
    artifact: ArtifactIdView,
    history: Seq<MasterCommitView>,
    i: int,
)
    ensures
        artifact is Tag ==> following(artifact, history) is None,
        artifact matches ArtifactIdView::Commit(c) ==> {
            &&& (forall|j: int|
                0 <= j < history.len() ==> (#[trigger] history[j]).parent_sha != c.sha)
                ==> following(artifact, history) is None
            &&& (0 <= i < history.len() && history[i].parent_sha == c.sha && (forall|j: int|
                0 <= j < i ==> (#[trigger] history[j]).parent_sha != c.sha)) ==> following(
                artifact,
                history,
            ) == Some(history[i])
        },
{
    match artifact {
        ArtifactIdView::Commit(c) => {
            lemma_commit_with_parent(history, c.sha);
            if commit_with_parent(history, c.sha) is Some {
                let found = commit_with_parent(history, c.sha)->0;
                let at = choose|at: int| 0 <= at < history.len() && history[at] == found;
                assert(history[at].parent_sha == c.sha);
            }
            if 0 <= i < history.len() && history[i].parent_sha == c.sha && (forall|j: int|
                0 <= j < i ==> (#[trigger] history[j]).parent_sha != c.sha) {
                law_first_with_parent(history, c.sha, i);
            }
        },
        ArtifactIdView::Tag(_) => {},
    }
}

/// How the commits before an artifact go on: one more is asked for by asking for the one before
/// the last, and it stands at the end of the list.
pub proof fn law_ancestors_go_on(
    artifact: ArtifactIdView,
    n: nat,
    history: Seq<MasterCommitView>,
)
    ensures
        ancestors(artifact, 0, history).len() == 0,
        ancestors(artifact, n, history).is_prefix_of(ancestors(artifact, n + 1, history)),
        ancestors(artifact, n, history).len() == n ==> {
            let last = if n == 0 {
                artifact
            } else {
                ancestors(artifact, n, history).last()
            };
            ancestors(artifact, n + 1, history) == match previous(last, history) {
                Some(c) => ancestors(artifact, n, history).push(
                    ArtifactIdView::Commit(CommitView { sha: c.sha, date: c.time }),
                ),
                None => ancestors(artifact, n, history),
            }
        },
    decreases n,
{
    let list = ancestors(artifact, n, history);
    let more = ancestors(artifact, n + 1, history);
    match previous(artifact, history) {
        Some(c) => {
            if n == 0 {
                assert(ancestors(c.artifact(), 0, history).len() == 0);
                assert(more =~= seq![c.artifact()]);
            } else {
                let next = c.artifact();
                let rest = ancestors(next, (n - 1) as nat, history);
                law_ancestors_go_on(next, (n - 1) as nat, history);
                let longer = ancestors(next, n, history);
                assert(more == seq![next] + longer);
                assert(list == seq![next] + rest);
                assert(longer.subrange(0, rest.len() as int) =~= rest);
                assert(more.subrange(0, list.len() as int) =~= list);
                if list.len() == n {
                    if rest.len() > 0 {
                        assert(list.last() == rest.last());
                    } else {
                        assert(list.last() == next);
                    }
                    let last = list.last();
                    match previous(last, history) {
                        Some(p) => {
                            assert(longer == rest.push(p.artifact()));
                            assert(more =~= list.push(p.artifact()));
                        },
                        None => {
                            assert(more =~= list);
                        },
                    }
                }
            }
        },
        None => {
            assert(more =~= list);
        },
    }
    assert(more.subrange(0, list.len() as int) =~= list);
}

/// The link names the two artifacts, the first as the start and the second as the end, each by
/// the sha of a commit or by its tag.
pub proof fn law_link_names_both(start: ArtifactIdView, end: ArtifactIdView)
    ensures
        ({
            let name = |artifact: ArtifactIdView|
                match artifact {
                    ArtifactIdView::Commit(c) => c.sha,
                    ArtifactIdView::Tag(t) => t,
                };
            link_text(start, end) == "https://perf.rust-lang.org/compare.html?start="@
                + name(start) + "&end="@ + name(end) + "&stat=instructions:u"@
        }),
{
}

/// A bound is written as the sha of its commit, as its date, or as question marks.
pub proof fn law_bound_words(bound: BoundView)
    ensures
        bound matches BoundView::Commit(sha) ==> bound.text() == sha,
        bound matches BoundView::Date(date) ==> bound.text() == date.text(),
        bound is Unbounded ==> bound.text() == "???"@,
{
}

/// What is known of a commit of the history is what it holds.
pub proof fn law_commit_is_what_it_holds(commit: MasterCommit)
    ensures
        commit@.sha == commit.sha@,
        commit@.parent_sha == commit.parent_sha@,
        commit@.pr == commit.pr,
        commit@.time == commit.time,
        commit@.artifact() == ArtifactIdView::Commit(
            CommitView { sha: commit.sha@, date: commit.time },
        ),
{
}

/// Artifacts are told apart by what they are and all that they hold, and so are bounds.
pub proof fn law_artifacts_and_bounds_are_told_apart(
    a: ArtifactId,
    b: ArtifactId,
    start: Bound,
    end: Bound,
)
    ensures
        a@ == b@ <==> match (a, b) {
            (ArtifactId::Commit(x), ArtifactId::Commit(y)) => x.sha@ == y.sha@ && x.date
                == y.date,
            (ArtifactId::Tag(x), ArtifactId::Tag(y)) => x@ == y@,
            _ => false,
        },
        start@ == end@ <==> match (start, end) {
            (Bound::Commit(x), Bound::Commit(y)) => x@ == y@,
            (Bound::Date(x), Bound::Date(y)) => x == y,
            (Bound::Unbounded, Bound::Unbounded) => true,
            _ => false,
        },
        a matches ArtifactId::Commit(c) ==> a@ == ArtifactIdView::Commit(
            CommitView { sha: c.sha@, date: c.date },
        ),
        a matches ArtifactId::Tag(t) ==> a@ == ArtifactIdView::Tag(t@),
        start matches Bound::Commit(sha) ==> start@ == BoundView::Commit(sha@),
        start matches Bound::Date(date) ==> start@ == BoundView::Date(date),
{
}

} // verus!
