//! Going through a range of commits, comparing each with the one before.

use crate::benchmark::Direction;
use crate::commits::{
    commit_with_parent, following, next_commit, ArtifactId, ArtifactIdView, Bound, BoundView,
    MasterCommit, MasterCommitView,
};
use crate::compare::CompareError;
use crate::comparison::{Comparison, ComparisonView};
use crate::report::{
    found_view, generate_report, populate_report, populated, report_of_some_day, reported,
    PullRequest, Report, ReportView,
};
use crate::summary::summary_of_comparison;
use crate::views::{option_view, views};
use vstd::prelude::*;

verus! {

/// How far a triage has come: `before` and `next` are what is to be compared now.
pub struct Triage {
    start: Bound,
    end: Option<Bound>,
    before: Bound,
    next: Bound,
    report: Report,
}

/// What a [`Triage`] holds.
pub struct TriageView {
    pub start: BoundView,
    pub end: Option<BoundView>,
    pub before: BoundView,
    pub next: BoundView,
    pub report: ReportView,
}

impl View for Triage {
    type V = TriageView;

    closed spec fn view(&self) -> TriageView {
        TriageView {
            start: self.start@,
            end: option_view(self.end),
            before: self.before@,
            next: self.next@,
            report: self.report@,
        }
    }
}

impl TriageView {
    /// Whether the comparison at hand is followed by another one: there is a commit after it,
    /// and it does not end at the end that was asked for.
    pub open spec fn goes_on(
        self,
        comparison: Option<ComparisonView>,
        history: Seq<MasterCommitView>,
    ) -> bool {
        comparison matches Some(c) && following(c.b.artifact, history) is Some && self.end != Some(
            self.next,
        )
    }

    /// The triage after the comparison at hand.
    pub open spec fn after(
        self,
        comparison: Option<ComparisonView>,
        title: Seq<char>,
        history: Seq<MasterCommitView>,
    ) -> TriageView {
        match comparison {
            Some(c) => if self.goes_on(comparison, history) {
                TriageView {
                    before: self.next,
                    next: BoundView::Commit(following(c.b.artifact, history)->0.sha),
                    report: populated(self.report, c, title),
                    ..self
                }
            } else {
                TriageView { report: populated(self.report, c, title), ..self }
            },
            None => self,
        }
    }

    /// The end of the range that was gone through: the one that was asked for, if any.
    pub open spec fn last_bound(self) -> BoundView {
        match self.end {
            Some(end) => end,
            None => self.next,
        }
    }
}

/// The triage before the first comparison, which is with the commit after the artifact that was
/// found for the start bound.
pub open spec fn begun(
    start: BoundView,
    end: Option<BoundView>,
    start_artifact: ArtifactIdView,
    history: Seq<MasterCommitView>,
) -> TriageView {
    TriageView {
        start,
        end,
        before: start,
        next: BoundView::Commit(following(start_artifact, history)->0.sha),
        report: ReportView::empty(),
    }
}

impl Triage {
    /// Starts a triage with the comparison of the artifact that was found for the start bound
    /// and the commit after it.
    pub fn begin(
        start: Bound,
        end: Option<Bound>,
        start_artifact: Option<ArtifactId>,
        master_commits: &[MasterCommit],
    ) -> (result: Result<Triage, CompareError>)
        requires
            start_artifact matches Some(a) ==> following(a@, views(master_commits@)) is Some,
        ensures
            match result {
                Ok(triage) => {
                    &&& start_artifact is Some
                    &&& triage@ == begun(
                        start@,
                        option_view(end),
                        start_artifact->0@,
                        views(master_commits@),
                    )
                },
                Err(e) => start_artifact is None && e == CompareError::StartNotFound(start),
            },
    {
        let artifact = match start_artifact {
            Some(a) => a,
            None => {
                return Err(CompareError::StartNotFound(start));
            },
        };
        let next = Bound::Commit(next_commit(&artifact, master_commits).unwrap().sha.clone());
        Ok(Triage { before: start.clone(), start, end, next, report: Report::new() })
    }

    /// The metric that a triage compares.
    pub fn stat(&self) -> (result: String)
        ensures
            result@ == "instructions:u"@,
    {
        "instructions:u".to_owned()
    }

    /// The two bounds that are to be compared now.
    pub fn bounds(&self) -> (result: (Bound, Bound))
        ensures
            result.0@ == self@.before,
            result.1@ == self@.next,
    {
        (self.before.clone(), self.next.clone())
    }

    /// Takes the comparison of the two bounds, or that there is no data for the second one,
    /// and tells whether there is another pair to compare. The title is that of the pull
    /// request that [`crate::report::title_needed`] gives.
    pub fn step(
        &mut self,
        comparison: Option<&Comparison>,
        title: &str,
        master_commits: &[MasterCommit],
    ) -> (result: bool)
        ensures
            final(self)@ == old(self)@.after(
                option_view(comparison),
                title@,
                views(master_commits@),
            ),
            result == old(self)@.goes_on(option_view(comparison), views(master_commits@)),
    {
        let comparison = match comparison {
            Some(c) => c,
            None => {
                return false;
            },
        };
        populate_report(comparison, &mut self.report, title);
        // Check that there is a next commit and that the
        // after commit is not equal to `end`
        let at_end = match &self.end {
            Some(end) => self.next.same(end),
            None => false,
        };
        match comparison.next(master_commits) {
            Some(n) => {
                if at_end {
                    false
                } else {
                    self.before = self.next.clone();
                    self.next = Bound::Commit(n);
                    true
                }
            },
            None => false,
        }
    }

    /// The report of the comparisons, with today's date.
    pub fn finish(self, untriaged: &Result<Vec<PullRequest>, String>) -> (result: String)
        ensures
            report_of_some_day(
                result@,
                self@.start,
                self@.last_bound(),
                self@.report,
                found_view(*untriaged),
            ),
    {
        let end = match self.end {
            Some(end) => end,
            None => self.next,
        };
        assert(end@ == self@.last_bound());
        generate_report(&self.start, &end, &self.report, untriaged)
    }
}

/// A triage leaves no gap: each comparison starts where the one before it ended.
pub proof fn law_triage_leaves_no_gap(
    triage: TriageView,
    comparison: Option<ComparisonView>,
    title: Seq<char>,
    history: Seq<MasterCommitView>,
)
    requires
        triage.goes_on(comparison, history),
    ensures
        triage.after(comparison, title, history).before == triage.next,
{
}

/// A triage does not go past the end that was asked for, nor on where there is no data.
pub proof fn law_triage_ends(
    triage: TriageView,
    comparison: Option<ComparisonView>,
    history: Seq<MasterCommitView>,
)
    requires
        triage.end == Some(triage.next) || comparison is None,
    ensures
        !triage.goes_on(comparison, history),
{
}

/// A comparison adds one entry to the report if it has changes that count, and else none; no
/// entry is ever lost.
pub proof fn law_report_grows(
    triage: TriageView,
    comparison: ComparisonView,
    title: Seq<char>,
    history: Seq<MasterCommitView>,
)
    ensures
        ({
            let before = triage.report;
            let after = triage.after(Some(comparison), title, history).report;
            &&& after.len() == before.len() + if reported(comparison) is Some {
                1nat
            } else {
                0nat
            }
            &&& before.regressions.is_prefix_of(after.regressions)
            &&& before.improvements.is_prefix_of(after.improvements)
            &&& before.mixed.is_prefix_of(after.mixed)
        }),
{
}

/// The triage after a number of comparisons, each with the title for its entry.
pub open spec fn after_all(
    triage: TriageView,
    comparisons: Seq<(ComparisonView, Seq<char>)>,
    history: Seq<MasterCommitView>,
) -> TriageView
    decreases comparisons.len(),
{
    if comparisons.len() == 0 {
        triage
    } else {
        after_all(triage, comparisons.drop_last(), history).after(
            Some(comparisons.last().0),
            comparisons.last().1,
            history,
        )
    }
}

/// However many comparisons a triage takes, the range that was asked for stays the same, and
/// the report has one more entry for each comparison with changes that count.
pub proof fn law_one_entry_per_change(
    triage: TriageView,
    comparisons: Seq<(ComparisonView, Seq<char>)>,
    history: Seq<MasterCommitView>,
)
    ensures
        ({
            let after = after_all(triage, comparisons, history);
            &&& after.start == triage.start
            &&& after.end == triage.end
            &&& after.report.len() == triage.report.len() + comparisons.filter(
                |c: (ComparisonView, Seq<char>)| reported(c.0) is Some,
            ).len()
        }),
    decreases comparisons.len(),
{
    reveal(Seq::filter);
    if comparisons.len() > 0 {
        let rest = comparisons.drop_last();
        law_one_entry_per_change(triage, rest, history);
        law_report_grows(
            after_all(triage, rest, history),
            comparisons.last().0,
            comparisons.last().1,
            history,
        );
    }
}

/// The entries of the comparisons that go into the section for the direction, in their order.
pub open spec fn section(
    comparisons: Seq<(ComparisonView, Seq<char>)>,
    direction: Direction,
) -> Seq<Seq<char>> {
    comparisons.filter(
        |c: (ComparisonView, Seq<char>)| reported(c.0) == Some(direction),
    ).map_values(
        |c: (ComparisonView, Seq<char>)| summary_of_comparison(c.0)->0.entry_text(c.0, c.1),
    )
}

/// One more comparison adds its entry to the end of its section.
proof fn lemma_section(comparisons: Seq<(ComparisonView, Seq<char>)>, direction: Direction)
    requires
        comparisons.len() > 0,
    ensures
        ({
            let (comparison, title) = comparisons.last();
            section(comparisons, direction) == if reported(comparison) == Some(direction) {
                section(comparisons.drop_last(), direction).push(
                    summary_of_comparison(comparison)->0.entry_text(comparison, title),
                )
            } else {
                section(comparisons.drop_last(), direction)
            }
        }),
{
    reveal(Seq::filter);
    let (comparison, title) = comparisons.last();
    if reported(comparison) == Some(direction) {
        assert(section(comparisons, direction) =~= section(comparisons.drop_last(), direction).push(
            summary_of_comparison(comparison)->0.entry_text(comparison, title),
        ));
    }
}

/// Each section of the report holds the entries of the comparisons in the order in which these
/// came, after those that it held before.
pub proof fn law_sections_are_in_order(
    triage: TriageView,
    comparisons: Seq<(ComparisonView, Seq<char>)>,
    history: Seq<MasterCommitView>,
)
    ensures
        ({
            let before = triage.report;
            let after = after_all(triage, comparisons, history).report;
            &&& after.regressions == before.regressions + section(
                comparisons,
                Direction::Regression,
            )
            &&& after.improvements == before.improvements + section(
                comparisons,
                Direction::Improvement,
            )
            &&& after.mixed == before.mixed + section(comparisons, Direction::Mixed)
        }),
    decreases comparisons.len(),
{
    let before = triage.report;
    let after = after_all(triage, comparisons, history).report;
    if comparisons.len() > 0 {
        law_sections_are_in_order(triage, comparisons.drop_last(), history);
        lemma_section(comparisons, Direction::Regression);
        lemma_section(comparisons, Direction::Improvement);
        lemma_section(comparisons, Direction::Mixed);
    } else {
        reveal(Seq::filter);
    }
    assert(after.regressions =~= before.regressions + section(comparisons, Direction::Regression));
    assert(after.improvements =~= before.improvements + section(
        comparisons,
        Direction::Improvement,
    ));
    assert(after.mixed =~= before.mixed + section(comparisons, Direction::Mixed));
}

/// Whether the commit at the given place of the chain, which holds shas, is followed by the
/// next one.
pub open spec fn linked(chain: Seq<Seq<char>>, i: int, history: Seq<MasterCommitView>) -> bool {
    commit_with_parent(history, chain[i]) matches Some(c) && c.sha == chain[i + 1]
}

/// Whether the chain goes from commit to commit, and ends with the first one where a triage is
/// to end: at the end that was asked for, or where no commit follows.
pub open spec fn chain_to_end(
    chain: Seq<Seq<char>>,
    end: Option<BoundView>,
    history: Seq<MasterCommitView>,
) -> bool {
    &&& chain.len() >= 2
    &&& forall|i: int| 0 <= i < chain.len() - 1 ==> #[trigger] linked(chain, i, history)
    &&& forall|i: int|
        1 <= i < chain.len() - 1 ==> end != Some(BoundView::Commit(#[trigger] chain[i]))
    &&& end == Some(BoundView::Commit(chain.last())) || commit_with_parent(history, chain.last())
        is None
}

/// Whether the second artifact of the comparison is the commit that the bound names.
pub open spec fn ends_at(comparison: ComparisonView, bound: BoundView) -> bool {
    comparison.b.artifact is Commit && bound == BoundView::Commit(comparison.b.artifact.name())
}

/// Whether the triage at hand compares the commit at the given place of the chain with the
/// next one; the first one is named by the start bound.
pub open spec fn compares(triage: TriageView, chain: Seq<Seq<char>>, i: int) -> bool {
    &&& triage.before == if i == 0 {
        triage.start
    } else {
        BoundView::Commit(chain[i])
    }
    &&& triage.next == BoundView::Commit(chain[i + 1])
}

/// The first comparisons of a walk along the chain come to the pair at their number.
proof fn lemma_walk(
    start: BoundView,
    end: Option<BoundView>,
    start_artifact: ArtifactIdView,
    chain: Seq<Seq<char>>,
    comparisons: Seq<(ComparisonView, Seq<char>)>,
    history: Seq<MasterCommitView>,
    i: int,
)
    requires
        chain_to_end(chain, end, history),
        start_artifact is Commit,
        start_artifact.name() == chain[0],
        comparisons.len() < chain.len(),
        forall|j: int|
            0 <= j < comparisons.len() ==> ends_at(
                (#[trigger] comparisons[j]).0,
                after_all(
                    begun(start, end, start_artifact, history),
                    comparisons.take(j),
                    history,
                ).next,
            ),
        0 <= i <= comparisons.len(),
        i + 1 < chain.len(),
    ensures
        ({
            let triage = after_all(
                begun(start, end, start_artifact, history),
                comparisons.take(i),
                history,
            );
            &&& compares(triage, chain, i)
            &&& triage.start == start
            &&& triage.end == end
            &&& i < comparisons.len() ==> (triage.goes_on(Some(comparisons[i].0), history) <==> i
                + 2 < chain.len())
        }),
    decreases i,
{
    let first = begun(start, end, start_artifact, history);
    assert(linked(chain, i, history));
    if i > 0 {
        lemma_walk(start, end, start_artifact, chain, comparisons, history, i - 1);
        assert(comparisons.take(i).drop_last() =~= comparisons.take(i - 1));
        assert(comparisons.take(i).last() == comparisons[i - 1]);
        assert(linked(chain, i - 1, history));
        assert(ends_at(
            comparisons[i - 1].0,
            after_all(first, comparisons.take(i - 1), history).next,
        ));
    }
    if i < comparisons.len() {
        assert(ends_at(comparisons[i].0, after_all(first, comparisons.take(i), history).next));
        if i + 2 < chain.len() {
            assert(linked(chain, i + 1, history));
        }
    }
}

/// A triage goes along the chain of the commits from its start to its end. Where each
/// comparison ends at the commit that it was asked for, the comparisons are of each commit of
/// the chain and the next one, in this order, and after the last of these pairs, and no sooner,
/// the triage ends. However far it has come, its report is of the range that was asked for, or
/// up to the commit that was compared last or has no data, and each section holds the entries
/// of its comparisons in the order of the chain.
pub proof fn law_triage_walks_the_chain(
    start: BoundView,
    end: Option<BoundView>,
    start_artifact: ArtifactIdView,
    chain: Seq<Seq<char>>,
    comparisons: Seq<(ComparisonView, Seq<char>)>,
    history: Seq<MasterCommitView>,
)
    requires
        chain_to_end(chain, end, history),
        start_artifact is Commit,
        start_artifact.name() == chain[0],
        comparisons.len() < chain.len(),
        forall|i: int|
            0 <= i < comparisons.len() ==> ends_at(
                (#[trigger] comparisons[i]).0,
                after_all(
                    begun(start, end, start_artifact, history),
                    comparisons.take(i),
                    history,
                ).next,
            ),
    ensures
        forall|i: int|
            0 <= i < comparisons.len() ==> {
                let triage = after_all(
                    begun(start, end, start_artifact, history),
                    #[trigger] comparisons.take(i),
                    history,
                );
                &&& compares(triage, chain, i)
                &&& triage.goes_on(Some(comparisons[i].0), history) <==> i + 2 < chain.len()
            },
        ({
            let triage = after_all(
                begun(start, end, start_artifact, history),
                comparisons,
                history,
            );
            &&& triage.start == start
            &&& triage.last_bound() == match end {
                Some(end) => end,
                None => BoundView::Commit(
                    if comparisons.len() + 1 < chain.len() {
                        chain[comparisons.len() as int + 1]
                    } else {
                        chain.last()
                    },
                ),
            }
            &&& triage.report == (ReportView {
                regressions: section(comparisons, Direction::Regression),
                improvements: section(comparisons, Direction::Improvement),
                mixed: section(comparisons, Direction::Mixed),
            })
        }),
{
    let first = begun(start, end, start_artifact, history);
    assert forall|i: int| 0 <= i < comparisons.len() implies {
        let triage = after_all(first, #[trigger] comparisons.take(i), history);
        &&& compares(triage, chain, i)
        &&& triage.goes_on(Some(comparisons[i].0), history) <==> i + 2 < chain.len()
    } by {
        lemma_walk(start, end, start_artifact, chain, comparisons, history, i);
    }
    let n = comparisons.len() as int;
    assert(comparisons.take(n) =~= comparisons);
    if n + 1 < chain.len() {
        lemma_walk(start, end, start_artifact, chain, comparisons, history, n);
    } else {
        lemma_walk(start, end, start_artifact, chain, comparisons, history, n - 1);
        assert(comparisons.take(n - 1) =~= comparisons.drop_last());
    }
    law_sections_are_in_order(first, comparisons, history);
    let report = after_all(first, comparisons, history).report;
    assert(report.regressions =~= section(comparisons, Direction::Regression));
    assert(report.improvements =~= section(comparisons, Direction::Improvement));
    assert(report.mixed =~= section(comparisons, Direction::Mixed));
}

/// A step without a comparison, as there is no data for the second bound, ends the triage and
/// changes nothing of it: the range, the bounds and every entry of the report stay.
pub proof fn law_no_data_changes_nothing(
    triage: TriageView,
    title: Seq<char>,
    history: Seq<MasterCommitView>,
)
    ensures
        ({
            let after = triage.after(None, title, history);
            &&& after.start == triage.start
            &&& after.end == triage.end
            &&& after.before == triage.before
            &&& after.next == triage.next
            &&& after.report.regressions == triage.report.regressions
            &&& after.report.improvements == triage.report.improvements
            &&& after.report.mixed == triage.report.mixed
        }),
        !triage.goes_on(None, history),
{
}

/// Also where a triage ends for lack of data, its report holds the entries of all the
/// comparisons that it took, in their order.
pub proof fn law_no_data_loses_no_entry(
    triage: TriageView,
    comparisons: Seq<(ComparisonView, Seq<char>)>,
    title: Seq<char>,
    history: Seq<MasterCommitView>,
)
    ensures
        ({
            let before = triage.report;
            let after = after_all(triage, comparisons, history).after(None, title, history).report;
            &&& after.regressions == before.regressions + section(
                comparisons,
                Direction::Regression,
            )
            &&& after.improvements == before.improvements + section(
                comparisons,
                Direction::Improvement,
            )
            &&& after.mixed == before.mixed + section(comparisons, Direction::Mixed)
        }),
{
    law_sections_are_in_order(triage, comparisons, history);
}

/// What a step with a comparison does. The range stays, and the report gains what the comparison
/// adds to it. There is another pair to compare exactly where a commit follows the second
/// artifact and the second bound is not the end that was asked for; then the second bound becomes
/// the first, and that commit the second, and else the bounds stay.
pub proof fn law_step(
    triage: TriageView,
    comparison: ComparisonView,
    title: Seq<char>,
    history: Seq<MasterCommitView>,
)
    ensures
        ({
            let after = triage.after(Some(comparison), title, history);
            let commit = following(comparison.b.artifact, history);
            let more = commit is Some && (triage.end is None || triage.end->0 != triage.next);
            &&& after.start == triage.start
            &&& after.end == triage.end
            &&& after.report == populated(triage.report, comparison, title)
            &&& triage.goes_on(Some(comparison), history) <==> more
            &&& more ==> after.before == triage.next && after.next == BoundView::Commit(
                commit->0.sha,
            )
            &&& !more ==> after.before == triage.before && after.next == triage.next
        }),
{
}

/// A triage begins without entries, at its start bound and the commit after the artifact that
/// was found for it, and its report is of the range up to the end that was asked for, or else up
/// to the last commit that it came to.
pub proof fn law_triage_begins(
    triage: TriageView,
    start: BoundView,
    end: Option<BoundView>,
    artifact: ArtifactIdView,
    history: Seq<MasterCommitView>,
)
    ensures
        ({
            let first = begun(start, end, artifact, history);
            &&& first.start == start
            &&& first.end == end
            &&& first.before == start
            &&& first.report.regressions.len() == 0
            &&& first.report.improvements.len() == 0
            &&& first.report.mixed.len() == 0
            &&& following(artifact, history) matches Some(c) ==> first.next == BoundView::Commit(
                c.sha,
            )
        }),
        triage.end is None ==> triage.last_bound() == triage.next,
        triage.end matches Some(last) ==> triage.last_bound() == last,
{
}

} // verus!
