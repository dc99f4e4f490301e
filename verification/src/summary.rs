//! The most important changes of a comparison.

use crate::benchmark::{
    BenchmarkComparison, BenchmarkComparisonView, Direction, SIGNIFICANCE_THRESHOLD,
};
use crate::cases::ProfileKind;
use crate::commits::{compare_link, link_text};
use crate::comparison::{not_doc, Comparison, ComparisonView};
use crate::double::{absolute, law_absolute_value, lemma_absolute_zero, Double};
use crate::statistics::each_test_case_once;
use crate::text::{decimal, decimal_text, lemma_stands_in, stands_in};
use crate::views::{option_view, views};
use vstd::prelude::*;

verus! {

/// The largest increase and the largest decrease of a comparison, as far as they count.
pub struct ComparisonSummary {
    hi: Option<BenchmarkComparison>,
    lo: Option<BenchmarkComparison>,
}

/// What a [`ComparisonSummary`] holds.
pub struct SummaryView {
    pub hi: Option<BenchmarkComparisonView>,
    pub lo: Option<BenchmarkComparisonView>,
}

impl View for ComparisonSummary {
    type V = SummaryView;

    closed spec fn view(&self) -> SummaryView {
        SummaryView { hi: option_view(self.hi), lo: option_view(self.lo) }
    }
}

/// Where the comparison with the smallest change stands: going through the list, the one at
/// hand gives way to one that it is above.
pub open spec fn lowest(list: Seq<BenchmarkComparisonView>) -> int
    decreases list.len(),
{
    if list.len() <= 1 {
        0
    } else {
        let found = lowest(list.drop_last());
        if list[found].change.log.above(list.last().change.log) {
            list.len() - 1
        } else {
            found
        }
    }
}

/// Where the comparison with the largest change stands: going through the list, the one at
/// hand gives way to each one that it is not above.
pub open spec fn highest(list: Seq<BenchmarkComparisonView>) -> int
    decreases list.len(),
{
    if list.len() <= 1 {
        0
    } else {
        let found = highest(list.drop_last());
        if list[found].change.log.above(list.last().change.log) {
            found
        } else {
            list.len() - 1
        }
    }
}

/// Whether the smallest change of the list is a significant decrease.
pub open spec fn has_lo(list: Seq<BenchmarkComparisonView>) -> bool {
    list.len() > 0 && list[lowest(list)].significant() && !list[lowest(list)].increase()
}

/// Whether the largest change of the list is a significant increase.
pub open spec fn has_hi(list: Seq<BenchmarkComparisonView>) -> bool {
    list.len() > 0 && list[highest(list)].significant() && list[highest(list)].increase()
}

/// The list without the decrease that a summary takes out of it.
pub open spec fn without_lo(list: Seq<BenchmarkComparisonView>) -> Seq<BenchmarkComparisonView> {
    if has_lo(list) {
        list.remove(lowest(list))
    } else {
        list
    }
}

/// The summary of the comparisons in the list.
pub open spec fn summary_of(list: Seq<BenchmarkComparisonView>) -> SummaryView {
    SummaryView {
        lo: if has_lo(list) {
            Some(list[lowest(list)])
        } else {
            None
        },
        hi: if has_hi(without_lo(list)) {
            Some(without_lo(list)[highest(without_lo(list))])
        } else {
            None
        },
    }
}

/// The title of an entry, with a link to the pull request, if there is one.
pub open spec fn heading_text(pr: Option<u32>, title: Seq<char>) -> Seq<char> {
    match pr {
        Some(n) => title + " [#"@ + decimal_text(n as nat)
            + "](https://github.com/rust-lang/rust/issues/"@ + decimal_text(n as nat) + ")\n"@,
        None => "<Unknown Change>\n"@,
    }
}

/// The changes, one in a line.
pub open spec fn lines_text(
    changes: Seq<BenchmarkComparisonView>,
    link: Seq<char>,
) -> Seq<char>
    decreases changes.len(),
{
    if changes.len() == 0 {
        Seq::empty()
    } else {
        lines_text(changes.drop_last(), link) + "- "@ + changes.last().line_text(Some(link))
    }
}

impl SummaryView {
    /// The direction of the changes, if there are any.
    pub open spec fn direction(self) -> Option<Direction> {
        match (self.hi, self.lo) {
            (None, None) => None,
            (Some(b), None) => Some(b.direction()),
            (None, Some(b)) => Some(b.direction()),
            (Some(a), Some(b)) => if a.increase() == b.increase() {
                Some(a.direction())
            } else {
                Some(Direction::Mixed)
            },
        }
    }

    /// The changes, the larger one first.
    pub open spec fn changes(self) -> Seq<BenchmarkComparisonView> {
        match (self.hi, self.lo) {
            (None, None) => Seq::empty(),
            (Some(b), None) => seq![b],
            (None, Some(b)) => seq![b],
            (Some(a), Some(b)) => if b.change.log.unsigned().above(a.change.log.unsigned()) {
                seq![b, a]
            } else {
                seq![a, b]
            },
        }
    }

    /// The entry for a report.
    pub open spec fn entry_text(self, comparison: ComparisonView, title: Seq<char>) -> Seq<char> {
        heading_text(comparison.b.pr, title) + lines_text(
            self.changes(),
            link_text(comparison.a.artifact, comparison.b.artifact),
        )
    }
}

/// The summary of a comparison; there is none where there is nothing to sum up.
pub open spec fn summary_of_comparison(comparison: ComparisonView) -> Option<SummaryView> {
    if comparison.benchmarks().len() == 0 {
        None
    } else {
        Some(summary_of(comparison.benchmarks()))
    }
}

/// The place that a search of the list comes to is in the list.
proof fn lemma_found(list: Seq<BenchmarkComparisonView>)
    requires
        list.len() > 0,
    ensures
        0 <= lowest(list) < list.len(),
        0 <= highest(list) < list.len(),
    decreases list.len(),
{
    if list.len() > 1 {
        lemma_found(list.drop_last());
    }
}

/// Where all changes are numbers, the smallest change is at most any other, and it is the first
/// of those that are as small.
pub proof fn law_lowest_is_first_minimum(list: Seq<BenchmarkComparisonView>)
    requires
        list.len() > 0,
        forall|i: int| 0 <= i < list.len() ==> !(#[trigger] list[i]).change.log.nan(),
    ensures
        0 <= lowest(list) < list.len(),
        forall|i: int|
            0 <= i < list.len() ==> list[lowest(list)].change.log.value() <= (
            #[trigger] list[i]).change.log.value(),
        forall|i: int|
            0 <= i < lowest(list) ==> list[lowest(list)].change.log.value() < (
            #[trigger] list[i]).change.log.value(),
    decreases list.len(),
{
    if list.len() > 1 {
        let rest = list.drop_last();
        assert forall|i: int| 0 <= i < rest.len() implies !(#[trigger] rest[i]).change.log.nan() by {
            assert(rest[i] == list[i]);
        }
        law_lowest_is_first_minimum(rest);
        assert forall|i: int| 0 <= i < rest.len() implies rest[i] == #[trigger] list[i] by {}
    }
}

/// Where all changes are numbers, the largest change is at least any other, and it is the last
/// of those that are as large.
pub proof fn law_highest_is_last_maximum(list: Seq<BenchmarkComparisonView>)
    requires
        list.len() > 0,
        forall|i: int| 0 <= i < list.len() ==> !(#[trigger] list[i]).change.log.nan(),
    ensures
        0 <= highest(list) < list.len(),
        forall|i: int|
            0 <= i < list.len() ==> list[highest(list)].change.log.value() >= (
            #[trigger] list[i]).change.log.value(),
        forall|i: int|
            highest(list) < i < list.len() ==> list[highest(list)].change.log.value() > (
            #[trigger] list[i]).change.log.value(),
    decreases list.len(),
{
    if list.len() > 1 {
        let rest = list.drop_last();
        assert forall|i: int| 0 <= i < rest.len() implies !(#[trigger] rest[i]).change.log.nan() by {
            assert(rest[i] == list[i]);
        }
        law_highest_is_last_maximum(rest);
        assert forall|i: int| 0 <= i < rest.len() implies rest[i] == #[trigger] list[i] by {}
    }
}

/// A summary holds only significant changes of the comparison, none of them of a documentation
/// build: as `hi` an increase, and as `lo` something else.
pub proof fn law_summary_holds_what_counts(comparison: ComparisonView)
    ensures
        summary_of_comparison(comparison) matches Some(summary) ==> {
            &&& summary.hi matches Some(hi) ==> {
                &&& comparison.statistics.contains(hi)
                &&& not_doc(hi)
                &&& hi.significant()
                &&& hi.increase()
            }
            &&& summary.lo matches Some(lo) ==> {
                &&& comparison.statistics.contains(lo)
                &&& not_doc(lo)
                &&& lo.significant()
                &&& !lo.increase()
            }
        },
{
    let list = comparison.benchmarks();
    if list.len() > 0 {
        lemma_found(list);
        lemma_member(comparison, lowest(list));
        let rest = without_lo(list);
        if rest.len() > 0 {
            lemma_found(rest);
            let at = highest(rest);
            if has_lo(list) && at >= lowest(list) {
                lemma_member(comparison, at + 1);
            } else {
                lemma_member(comparison, at);
            }
        }
    }
}

/// What a summary is made of stands in the comparison.
proof fn lemma_member(comparison: ComparisonView, i: int)
    requires
        0 <= i < comparison.benchmarks().len(),
    ensures
        comparison.statistics.contains(comparison.benchmarks()[i]),
        not_doc(comparison.benchmarks()[i]),
{
    let keep = |c: BenchmarkComparisonView| not_doc(c);
    assert(keep(comparison.benchmarks()[i]));
    assert(comparison.benchmarks().contains(comparison.benchmarks()[i]));
    comparison.statistics.lemma_filter_contains_rev(keep, comparison.benchmarks()[i]);
}

/// Leaving comparisons out adds no test case a second time.
proof fn lemma_filter_once(statistics: Seq<BenchmarkComparisonView>)
    requires
        each_test_case_once(statistics),
    ensures
        each_test_case_once(statistics.filter(|c: BenchmarkComparisonView| not_doc(c))),
    decreases statistics.len(),
{
    reveal(Seq::filter);
    let keep = |c: BenchmarkComparisonView| not_doc(c);
    if statistics.len() > 0 {
        let rest = statistics.drop_last();
        let kept = rest.filter(keep);
        assert(each_test_case_once(rest)) by {
            assert forall|i: int, j: int| 0 <= i < j < rest.len() implies (
            #[trigger] rest[i]).test_case != (#[trigger] rest[j]).test_case by {
                assert(statistics[i].test_case != statistics[j].test_case);
            }
        }
        lemma_filter_once(rest);
        let all = statistics.filter(keep);
        assert forall|i: int, j: int| 0 <= i < j < all.len() implies (#[trigger] all[i]).test_case
            != (#[trigger] all[j]).test_case by {
            assert(all[i] == kept[i]);
            if j < kept.len() {
                assert(all[j] == kept[j]);
            } else {
                assert(kept.contains(kept[i]));
                rest.lemma_filter_contains_rev(keep, kept[i]);
                let k = choose|k: int| 0 <= k < rest.len() && rest[k] == kept[i];
                assert(statistics[k].test_case != statistics[statistics.len() - 1].test_case);
            }
        }
    }
}

/// The two changes of a summary are of different test cases.
pub proof fn law_two_changes_differ(comparison: ComparisonView)
    requires
        each_test_case_once(comparison.statistics),
        summary_of_comparison(comparison) is Some,
        summary_of_comparison(comparison)->0.hi is Some,
        summary_of_comparison(comparison)->0.lo is Some,
    ensures
        summary_of_comparison(comparison)->0.hi->0.test_case != summary_of_comparison(
            comparison,
        )->0.lo->0.test_case,
{
    let list = comparison.benchmarks();
    lemma_filter_once(comparison.statistics);
    lemma_found(list);
    let rest = without_lo(list);
    lemma_found(rest);
    let low = lowest(list);
    let at = highest(rest);
    if at < low {
        assert(list[at].test_case != list[low].test_case);
    } else {
        assert(rest[at] == list[at + 1]);
        assert(list[low].test_case != list[at + 1].test_case);
    }
}

/// A summary with two changes is mixed.
pub proof fn law_two_changes_are_mixed(comparison: ComparisonView)
    requires
        summary_of_comparison(comparison) is Some,
        summary_of_comparison(comparison)->0.hi is Some,
        summary_of_comparison(comparison)->0.lo is Some,
    ensures
        summary_of_comparison(comparison)->0.direction() == Some(Direction::Mixed),
{
    law_summary_holds_what_counts(comparison);
}

/// The changes come with the most significant one first: the size of the second one is not
/// above the size of the first.
pub proof fn law_most_significant_first(summary: SummaryView)
    ensures
        summary.changes().len() <= 2,
        summary.changes().len() == 2 ==> !summary.changes()[1].change.log.unsigned().above(
            summary.changes()[0].change.log.unsigned(),
        ),
        forall|c: BenchmarkComparisonView| #[trigger]
            summary.changes().contains(c) <==> summary.hi == Some(c) || summary.lo == Some(c),
{
    let changes = summary.changes();
    assert forall|c: BenchmarkComparisonView| #[trigger]
        changes.contains(c) <==> summary.hi == Some(c) || summary.lo == Some(c) by {
        match (summary.hi, summary.lo) {
            (None, None) => {},
            (Some(b), None) => {
                assert(changes[0] == b);
            },
            (None, Some(b)) => {
                assert(changes[0] == b);
            },
            (Some(a), Some(b)) => {
                assert(changes[0] == a && changes[1] == b || changes[0] == b && changes[1] == a);
            },
        }
    }
}

/// Whether the logarithm of a change is a number that agrees with the results: it is not above
/// zero without an increase, not below zero with one, and it tells whether the change is
/// significant. This is assumed of the logarithms that are handed in, where it is asked for.
pub open spec fn ordinary(comparison: BenchmarkComparisonView) -> bool {
    let log = comparison.change.log;
    &&& !log.nan()
    &&& comparison.significant() <==> log.unsigned().above(Double { bits: SIGNIFICANCE_THRESHOLD })
    &&& log.value() > 0 ==> comparison.increase()
    &&& log.value() < 0 ==> !comparison.increase()
}

/// Whether some member of the list is a significant increase.
pub open spec fn some_increase(list: Seq<BenchmarkComparisonView>) -> bool {
    exists|i: int| 0 <= i < list.len() && (#[trigger] list[i]).significant() && list[i].increase()
}

/// Whether some member of the list is a significant change, but no increase.
pub open spec fn some_decrease(list: Seq<BenchmarkComparisonView>) -> bool {
    exists|i: int| 0 <= i < list.len() && (#[trigger] list[i]).significant() && !list[i].increase()
}

/// A significant ordinary change is an increase exactly where its logarithm is above the
/// threshold, and else the logarithm is as far below zero.
proof fn lemma_ordinary(c: BenchmarkComparisonView)
    requires
        ordinary(c),
    ensures
        ({
            let threshold = (Double { bits: SIGNIFICANCE_THRESHOLD }).value();
            let log = c.change.log.value();
            &&& threshold > 0
            &&& c.significant() <==> log > threshold || log < -threshold
            &&& c.significant() && c.increase() <==> log > threshold
            &&& c.significant() && !c.increase() <==> log < -threshold
            &&& c.direction() == Direction::Regression <==> log > 0
        }),
{
    let log = c.change.log;
    lemma_absolute_zero(SIGNIFICANCE_THRESHOLD as nat);
    lemma_absolute_zero(0);
    assert(log.unsigned().value() == absolute(log.magnitude()));
}

/// Where all the changes are ordinary, a summary misses nothing, and its direction tells what
/// changed: there is an increase in it exactly where there is a significant increase, a
/// decrease exactly where there is a significant decrease, and the direction is that of a
/// regression, of an improvement, or mixed, accordingly.
pub proof fn law_direction_tells_what_changed(comparison: ComparisonView)
    requires
        comparison.benchmarks().len() > 0,
        forall|i: int|
            0 <= i < comparison.benchmarks().len() ==> ordinary(
                #[trigger] comparison.benchmarks()[i],
            ),
    ensures
        summary_of_comparison(comparison) is Some,
        summary_of_comparison(comparison)->0.hi is Some <==> some_increase(
            comparison.benchmarks(),
        ),
        summary_of_comparison(comparison)->0.lo is Some <==> some_decrease(
            comparison.benchmarks(),
        ),
        summary_of_comparison(comparison)->0.direction() == match (
            some_increase(comparison.benchmarks()),
            some_decrease(comparison.benchmarks()),
        ) {
            (true, true) => Some(Direction::Mixed),
            (true, false) => Some(Direction::Regression),
            (false, true) => Some(Direction::Improvement),
            (false, false) => None,
        },
{
    let list = comparison.benchmarks();
    let rest = without_lo(list);
    lemma_found(list);
    assert forall|i: int| 0 <= i < list.len() implies !(#[trigger] list[i]).change.log.nan() by {
        assert(ordinary(list[i]));
    }
    law_lowest_is_first_minimum(list);
    lemma_ordinary(list[lowest(list)]);
    if some_decrease(list) {
        let i = choose|i: int|
            0 <= i < list.len() && (#[trigger] list[i]).significant() && !list[i].increase();
        lemma_ordinary(list[i]);
    }
    assert(has_lo(list) <==> some_decrease(list));
    assert forall|i: int| 0 <= i < rest.len() implies ordinary(#[trigger] rest[i]) by {
        if has_lo(list) && i >= lowest(list) {
            assert(rest[i] == list[i + 1]);
        } else {
            assert(rest[i] == list[i]);
        }
    }
    if some_increase(list) {
        let i = choose|i: int|
            0 <= i < list.len() && (#[trigger] list[i]).significant() && list[i].increase();
        lemma_ordinary(list[i]);
        let k = if has_lo(list) && i > lowest(list) {
            i - 1
        } else {
            i
        };
        assert(rest[k] == list[i]);
        law_highest_is_last_maximum(rest);
        lemma_ordinary(rest[highest(rest)]);
        assert(has_hi(rest));
    }
    if has_hi(rest) {
        lemma_found(rest);
        let at = highest(rest);
        let i = if has_lo(list) && at >= lowest(list) {
            at + 1
        } else {
            at
        };
        assert(rest[at] == list[i]);
        lemma_ordinary(rest[at]);
        assert(list[i].significant() && list[i].increase());
    }
}

/// Whether the logarithm of a change that counts is above zero exactly where the results
/// increase. This is assumed of the logarithms that are handed in, where it is asked for.
pub open spec fn agrees(comparison: BenchmarkComparisonView) -> bool {
    comparison.significant() ==> (comparison.change.log.above(Double { bits: 0 })
        <==> comparison.increase())
}

/// The direction of a summary tells which changes it holds: there is none exactly where it
/// holds none, and it is mixed exactly where it holds both. Where the logarithms agree with the
/// results, it is a regression exactly where the summary holds only an increase, and an
/// improvement exactly where it holds only a decrease.
pub proof fn law_direction_tells_what_is_held(comparison: ComparisonView)
    ensures
        summary_of_comparison(comparison) matches Some(summary) ==> {
            &&& summary.direction() is None <==> summary.hi is None && summary.lo is None
            &&& summary.direction() == Some(Direction::Mixed) <==> summary.hi is Some
                && summary.lo is Some
            &&& (forall|i: int|
                0 <= i < comparison.benchmarks().len() ==> agrees(
                    #[trigger] comparison.benchmarks()[i],
                )) ==> {
                &&& summary.direction() == Some(Direction::Regression) <==> summary.hi is Some
                    && summary.lo is None
                &&& summary.direction() == Some(Direction::Improvement) <==> summary.hi is None
                    && summary.lo is Some
            }
        },
{
    law_summary_holds_what_counts(comparison);
    let list = comparison.benchmarks();
    if list.len() > 0 {
        let rest = without_lo(list);
        lemma_found(list);
        if has_hi(rest) {
            lemma_found(rest);
            let at = highest(rest);
            if has_lo(list) && at >= lowest(list) {
                assert(rest[at] == list[at + 1]);
            } else {
                assert(rest[at] == list[at]);
            }
        }
    }
}

/// Finds the smallest change.
fn find_lowest(list: &Vec<&BenchmarkComparison>) -> (result: usize)
    requires
        list.len() > 0,
    ensures
        result == lowest(views(list@)),
        result < list.len(),
{
    let ghost all = views(list@);
    let mut found: usize = 0;
    let mut i: usize = 1;
    while i < list.len()
        invariant
            1 <= i <= list.len(),
            all == views(list@),
            found < i,
            found == lowest(all.take(i as int)),
        decreases list.len() - i,
    {
        assert(all.take(i + 1).drop_last() =~= all.take(i as int));
        if list[found].log_change().gt(&list[i].log_change()) {
            found = i;
        }
        i += 1;
    }
    assert(all.take(all.len() as int) =~= all);
    found
}

/// Finds the largest change.
fn find_highest(list: &Vec<&BenchmarkComparison>) -> (result: usize)
    requires
        list.len() > 0,
    ensures
        result == highest(views(list@)),
        result < list.len(),
{
    let ghost all = views(list@);
    let mut found: usize = 0;
    let mut i: usize = 1;
    while i < list.len()
        invariant
            1 <= i <= list.len(),
            all == views(list@),
            found < i,
            found == highest(all.take(i as int)),
        decreases list.len() - i,
    {
        assert(all.take(i + 1).drop_last() =~= all.take(i as int));
        if !list[found].log_change().gt(&list[i].log_change()) {
            found = i;
        }
        i += 1;
    }
    assert(all.take(all.len() as int) =~= all);
    found
}

impl ComparisonSummary {
    /// Picks the largest increase and the largest decrease of the comparison, as far as they
    /// are significant. There is no summary where nothing was measured.
    pub fn summarize_comparison(comparison: &Comparison) -> (result: Option<ComparisonSummary>)
        ensures
            option_view(result) == summary_of_comparison(comparison@),
    {
        let mut benchmarks = comparison.get_benchmarks();
        // Skip empty commits, sometimes happens if there's a compiler bug or so.
        if benchmarks.len() == 0 {
            return None;
        }
        let ghost list = views(benchmarks@);
        let found = find_lowest(&benchmarks);
        let mut lo: Option<BenchmarkComparison> = None;
        if benchmarks[found].is_significant() && !benchmarks[found].is_increase() {
            lo = Some(benchmarks[found].clone());
            benchmarks.remove(found);
            assert(views(benchmarks@) =~= list.remove(found as int));
        }
        assert(views(benchmarks@) == without_lo(list));
        let mut hi: Option<BenchmarkComparison> = None;
        if benchmarks.len() > 0 {
            let found = find_highest(&benchmarks);
            if benchmarks[found].is_significant() && benchmarks[found].is_increase() {
                hi = Some(benchmarks[found].clone());
            }
        }
        Some(ComparisonSummary { hi, lo })
    }

    /// The direction of the changes
    pub fn direction(&self) -> (result: Option<Direction>)
        ensures
            result == self@.direction(),
    {
        let d = match (&self.hi, &self.lo) {
            (None, None) => {
                return None;
            },
            (Some(b), None) => b.direction(),
            (None, Some(b)) => b.direction(),
            (Some(a), Some(b)) => if a.is_increase() == b.is_increase() {
                a.direction()
            } else {
                Direction::Mixed
            },
        };
        Some(d)
    }

    /// The changes ordered by their significance (most significant first)
    pub fn ordered_changes(&self) -> (result: Vec<&BenchmarkComparison>)
        ensures
            views(result@) == self@.changes(),
    {
        let mut changes: Vec<&BenchmarkComparison> = Vec::new();
        match (&self.hi, &self.lo) {
            (None, None) => {},
            (Some(b), None) => {
                changes.push(b);
            },
            (None, Some(b)) => {
                changes.push(b);
            },
            (Some(a), Some(b)) => {
                if b.log_change().abs().gt(&a.log_change().abs()) {
                    changes.push(b);
                    changes.push(a);
                } else {
                    changes.push(a);
                    changes.push(b);
                }
            },
        }
        assert(views(changes@) =~= self@.changes());
        changes
    }

    /// The entry for a report, given the title of the pull request, if the comparison has one.
    pub fn write(&self, comparison: &Comparison, title: &str) -> (result: String)
        ensures
            result@ == self@.entry_text(comparison@, title@),
    {
        let mut result = match comparison.b.pr {
            Some(pr) => {
                let number = decimal(pr as u64);
                let mut heading = title.to_owned();
                heading.append(" [#");
                heading.append(number.as_str());
                heading.append("](https://github.com/rust-lang/rust/issues/");
                heading.append(number.as_str());
                heading.append(")\n");
                heading
            },
            None => "<Unknown Change>\n".to_owned(),
        };
        let ghost heading = result@;
        let link = compare_link(&comparison.a.artifact, &comparison.b.artifact);
        let changes = self.ordered_changes();
        let ghost all = views(changes@);
        let mut i: usize = 0;
        assert(heading + lines_text(all.take(0), link@) =~= heading);
        while i < changes.len()
            invariant
                i <= changes.len(),
                all == views(changes@),
                result@ == heading + lines_text(all.take(i as int), link@),
            decreases changes.len() - i,
        {
            assert(all.take(i + 1).drop_last() =~= all.take(i as int));
            result.append("- ");
            changes[i].summary_line(&mut result, Some(link.as_str()));
            assert(result@ =~= heading + lines_text(all.take(i + 1), link@));
            i += 1;
        }
        assert(all.take(all.len() as int) =~= all);
        result
    }
}

/// What a summary picks: where all logarithms are numbers, no comparison but one of a
/// documentation build has a larger logarithm than the increase that the summary holds, or a
/// smaller one than the decrease that it holds.
pub proof fn law_summary_holds_the_extremes(comparison: ComparisonView, i: int)
    requires
        forall|j: int|
            0 <= j < comparison.statistics.len() && (
            #[trigger] comparison.statistics[j]).test_case.profile.kind != ProfileKind::Doc
                ==> !comparison.statistics[j].change.log.nan(),
        0 <= i < comparison.statistics.len(),
        comparison.statistics[i].test_case.profile.kind != ProfileKind::Doc,
    ensures
        summary_of_comparison(comparison) matches Some(summary) && {
            let log = comparison.statistics[i].change.log.value();
            &&& summary.hi matches Some(hi) ==> hi.change.log.value() >= log
            &&& summary.lo matches Some(lo) ==> lo.change.log.value() <= log
        },
{
    let list = comparison.benchmarks();
    let c = comparison.statistics[i];
    lemma_benchmarks_are_numbers(comparison);
    let at = lemma_stands_among_benchmarks(comparison, i);
    law_lowest_is_first_minimum(list);
    let rest = without_lo(list);
    if rest.len() > 0 {
        lemma_rest_are_numbers(list);
        law_highest_is_last_maximum(rest);
        if has_lo(list) {
            let low = lowest(list);
            if at < low {
                assert(rest[at] == c);
            } else if at > low {
                assert(rest[at - 1] == c);
            } else {
                let top = highest(rest);
                assert(rest[top] == list[if top < low { top } else { top + 1 }]);
            }
        } else {
            assert(rest[at] == c);
        }
    }
}

/// There is a summary exactly where something but documentation builds was compared.
pub proof fn law_summary_of_something(comparison: ComparisonView)
    ensures
        summary_of_comparison(comparison) is Some <==> exists|i: int|
            0 <= i < comparison.statistics.len() && (
            #[trigger] comparison.statistics[i]).test_case.profile.kind != ProfileKind::Doc,
{
    let list = comparison.benchmarks();
    if exists|i: int|
        0 <= i < comparison.statistics.len() && (
        #[trigger] comparison.statistics[i]).test_case.profile.kind != ProfileKind::Doc {
        let i = choose|i: int|
            0 <= i < comparison.statistics.len() && (
            #[trigger] comparison.statistics[i]).test_case.profile.kind != ProfileKind::Doc;
        let at = lemma_stands_among_benchmarks(comparison, i);
    }
    if list.len() > 0 {
        lemma_member(comparison, 0);
        let i = choose|i: int|
            0 <= i < comparison.statistics.len() && comparison.statistics[i] == list[0];
        assert(comparison.statistics[i].test_case.profile.kind != ProfileKind::Doc);
    }
}

/// A comparison whose logarithm is above all others, and that is a significant increase, is the
/// increase that the summary holds; one whose logarithm is below all others, and that is
/// significant but no increase, is the decrease.
pub proof fn law_clear_extremes_are_held(comparison: ComparisonView, i: int)
    requires
        forall|j: int|
            0 <= j < comparison.statistics.len() && (
            #[trigger] comparison.statistics[j]).test_case.profile.kind != ProfileKind::Doc
                ==> !comparison.statistics[j].change.log.nan(),
        0 <= i < comparison.statistics.len(),
        comparison.statistics[i].test_case.profile.kind != ProfileKind::Doc,
        comparison.statistics[i].significant(),
    ensures
        summary_of_comparison(comparison) matches Some(summary) && {
            let c = comparison.statistics[i];
            &&& c.increase() && (forall|j: int|
                0 <= j < comparison.statistics.len() && j != i && (
                #[trigger] comparison.statistics[j]).test_case.profile.kind != ProfileKind::Doc
                    ==> comparison.statistics[j].change.log.value() < c.change.log.value())
                ==> summary.hi == Some(c)
            &&& !c.increase() && (forall|j: int|
                0 <= j < comparison.statistics.len() && j != i && (
                #[trigger] comparison.statistics[j]).test_case.profile.kind != ProfileKind::Doc
                    ==> comparison.statistics[j].change.log.value() > c.change.log.value())
                ==> summary.lo == Some(c)
        },
{
    let c = comparison.statistics[i];
    let list = comparison.benchmarks();
    lemma_benchmarks_are_numbers(comparison);
    let at = lemma_stands_among_benchmarks(comparison, i);
    law_lowest_is_first_minimum(list);
    lemma_member(comparison, lowest(list));
    let low = choose|k: int|
        0 <= k < comparison.statistics.len() && comparison.statistics[k] == list[lowest(list)];
    assert(comparison.statistics[low].test_case.profile.kind != ProfileKind::Doc);
    let rest = without_lo(list);
    if c.increase() {
        if has_lo(list) {
            assert(list[lowest(list)] != c);
            let place = if at < lowest(list) {
                at
            } else {
                at - 1
            };
            assert(rest[place] == c);
        } else {
            assert(rest[at] == c);
        }
        lemma_rest_are_numbers(list);
        law_highest_is_last_maximum(rest);
        let top = highest(rest);
        let top_at = if has_lo(list) && top >= lowest(list) {
            top + 1
        } else {
            top
        };
        assert(rest[top] == list[top_at]);
        lemma_member(comparison, top_at);
        let high = choose|k: int|
            0 <= k < comparison.statistics.len() && comparison.statistics[k] == list[top_at];
        assert(comparison.statistics[high].test_case.profile.kind != ProfileKind::Doc);
    }
}

/// What is compared apart from documentation builds has numbers as its logarithms, where they
/// all are.
proof fn lemma_benchmarks_are_numbers(comparison: ComparisonView)
    requires
        forall|j: int|
            0 <= j < comparison.statistics.len() && (
            #[trigger] comparison.statistics[j]).test_case.profile.kind != ProfileKind::Doc
                ==> !comparison.statistics[j].change.log.nan(),
    ensures
        forall|j: int|
            0 <= j < comparison.benchmarks().len() ==> !(
            #[trigger] comparison.benchmarks()[j]).change.log.nan(),
{
    let list = comparison.benchmarks();
    assert forall|j: int| 0 <= j < list.len() implies !(#[trigger] list[j]).change.log.nan() by {
        lemma_member(comparison, j);
        let k = choose|k: int|
            0 <= k < comparison.statistics.len() && comparison.statistics[k] == list[j];
        assert(comparison.statistics[k].test_case.profile.kind != ProfileKind::Doc);
    }
}

/// What is left without the decrease has numbers as its logarithms, where all have.
proof fn lemma_rest_are_numbers(list: Seq<BenchmarkComparisonView>)
    requires
        list.len() > 0,
        forall|j: int| 0 <= j < list.len() ==> !(#[trigger] list[j]).change.log.nan(),
    ensures
        forall|j: int|
            0 <= j < without_lo(list).len() ==> !(
            #[trigger] without_lo(list)[j]).change.log.nan(),
{
    lemma_found(list);
    let rest = without_lo(list);
    assert forall|j: int| 0 <= j < rest.len() implies !(#[trigger] rest[j]).change.log.nan() by {
        if has_lo(list) && j >= lowest(list) {
            assert(rest[j] == list[j + 1]);
        } else {
            assert(rest[j] == list[j]);
        }
    }
}

/// Where a comparison that is not of a documentation build stands among those that a summary is
/// made of.
proof fn lemma_stands_among_benchmarks(comparison: ComparisonView, i: int) -> (at: int)
    requires
        0 <= i < comparison.statistics.len(),
        comparison.statistics[i].test_case.profile.kind != ProfileKind::Doc,
    ensures
        0 <= at < comparison.benchmarks().len(),
        comparison.benchmarks()[at] == comparison.statistics[i],
{
    let keep = |c: BenchmarkComparisonView| not_doc(c);
    comparison.statistics.lemma_filter_contains(keep, i);
    let list = comparison.benchmarks();
    choose|at: int| 0 <= at < list.len() && list[at] == comparison.statistics[i]
}

/// How the search for the extremes goes on with one more comparison, whether or not the
/// logarithms are numbers: for the smallest the new one is taken only where the one at hand is
/// above it, for the largest it is taken unless the one at hand is above it.
pub proof fn law_search_goes_on(list: Seq<BenchmarkComparisonView>, c: BenchmarkComparisonView)
    ensures
        lowest(seq![c]) == 0,
        highest(seq![c]) == 0,
        list.len() > 0 ==> {
            &&& lowest(list.push(c)) == if list[lowest(list)].change.log.above(c.change.log) {
                list.len() as int
            } else {
                lowest(list)
            }
            &&& highest(list.push(c)) == if list[highest(list)].change.log.above(c.change.log) {
                highest(list)
            } else {
                list.len() as int
            }
        },
{
    assert(list.push(c).drop_last() =~= list);
    if list.len() > 0 {
        lemma_found(list);
        assert(list.push(c)[lowest(list)] == list[lowest(list)]);
        assert(list.push(c)[highest(list)] == list[highest(list)]);
    }
}

/// What is held of the comparisons that the search comes to: the smallest one as the decrease,
/// where it is significant and no increase, and of the others the largest one as the increase,
/// where it is a significant increase.
pub proof fn law_summary_holds_what_is_found(comparison: ComparisonView)
    requires
        comparison.benchmarks().len() > 0,
    ensures
        ({
            let list = comparison.benchmarks();
            let low = list[lowest(list)];
            let found = low.significant() && !low.increase();
            let rest = if found {
                list.remove(lowest(list))
            } else {
                list
            };
            let high = rest[highest(rest)];
            summary_of_comparison(comparison) matches Some(summary) && {
                &&& summary.lo == if found {
                    Some(low)
                } else {
                    None
                }
                &&& summary.hi == if rest.len() > 0 && high.significant() && high.increase() {
                    Some(high)
                } else {
                    None
                }
            }
        }),
{
}

/// The direction of a summary: none without a change, that of its only change, and of two
/// changes that of the increase if both increase or both do not, and else mixed.
pub proof fn law_direction_of_a_summary(summary: SummaryView)
    ensures
        summary.hi is None && summary.lo is None ==> summary.direction() is None,
        summary.hi is Some && summary.lo is None ==> summary.direction() == Some(
            summary.hi->0.direction(),
        ),
        summary.hi is None && summary.lo is Some ==> summary.direction() == Some(
            summary.lo->0.direction(),
        ),
        summary.hi is Some && summary.lo is Some ==> summary.direction() == Some(
            if summary.hi->0.increase() == summary.lo->0.increase() {
                summary.hi->0.direction()
            } else {
                Direction::Mixed
            },
        ),
{
}

/// The order of the changes: the decrease comes first only where its logarithm is farther from
/// zero than that of the increase.
pub proof fn law_order_of_the_changes(summary: SummaryView)
    ensures
        summary.hi is Some && summary.lo is None ==> summary.changes() == seq![summary.hi->0],
        summary.hi is None && summary.lo is Some ==> summary.changes() == seq![summary.lo->0],
        summary.hi is None && summary.lo is None ==> summary.changes().len() == 0,
        summary.hi is Some && summary.lo is Some ==> {
            let up = summary.hi->0;
            let down = summary.lo->0;
            let farther = !up.change.log.nan() && !down.change.log.nan()
                && down.change.log.unsigned().value() > up.change.log.unsigned().value();
            summary.changes() == if farther {
                seq![down, up]
            } else {
                seq![up, down]
            }
        },
{
    if summary.hi is Some && summary.lo is Some {
        law_absolute_value(summary.hi->0.change.log);
        law_absolute_value(summary.lo->0.change.log);
    }
}

/// Each change has a line of its own, in their order, that starts with a hyphen.
pub proof fn law_each_change_has_a_line(
    changes: Seq<BenchmarkComparisonView>,
    c: BenchmarkComparisonView,
    link: Seq<char>,
)
    ensures
        lines_text(Seq::empty(), link) == Seq::<char>::empty(),
        lines_text(changes.push(c), link) == lines_text(changes, link) + "- "@ + c.line_text(
            Some(link),
        ),
{
    assert(changes.push(c).drop_last() =~= changes);
}

/// How an entry reads: the title with the number of the pull request and a link to it, or that
/// the change is not known, and then the lines of the changes, which link to the comparison of
/// the two artifacts. The pull request is that of the second artifact.
pub proof fn law_entry_reads(summary: SummaryView, comparison: ComparisonView, title: Seq<char>)
    ensures
        ({
            let lines = lines_text(
                summary.changes(),
                link_text(comparison.a.artifact, comparison.b.artifact),
            );
            &&& comparison.b.pr is None ==> summary.entry_text(comparison, title)
                == "<Unknown Change>\n"@ + lines
            &&& comparison.b.pr matches Some(n) ==> summary.entry_text(comparison, title) == (title
                + " [#"@ + decimal_text(n as nat)
                + "](https://github.com/rust-lang/rust/issues/"@ + decimal_text(n as nat)
                + ")\n"@) + lines
        }),
{
}

/// What an entry tells stands in it: the line of each change that the summary holds, with the
/// link to the comparison, and where there is a pull request its title and its number.
pub proof fn law_entry_tells(
    summary: SummaryView,
    comparison: ComparisonView,
    title: Seq<char>,
    c: BenchmarkComparisonView,
)
    ensures
        ({
            let text = summary.entry_text(comparison, title);
            let link = link_text(comparison.a.artifact, comparison.b.artifact);
            &&& summary.hi == Some(c) || summary.lo == Some(c) ==> stands_in(
                "- "@ + c.line_text(Some(link)),
                text,
            )
            &&& comparison.b.pr matches Some(n) ==> {
                &&& title.is_prefix_of(text)
                &&& stands_in("#"@ + decimal_text(n as nat) + "]"@, text)
            }
        }),
{
    let none = Seq::<char>::empty();
    let text = summary.entry_text(comparison, title);
    let link = link_text(comparison.a.artifact, comparison.b.artifact);
    let heading = heading_text(comparison.b.pr, title);
    let changes = summary.changes();
    let lines = lines_text(changes, link);
    law_most_significant_first(summary);
    if summary.hi == Some(c) || summary.lo == Some(c) {
        assert(changes.contains(c));
        lemma_line_stands_in(changes, c, link);
        lemma_stands_in("- "@ + c.line_text(Some(link)), lines, heading, none);
    }
    match comparison.b.pr {
        Some(n) => {
            let number = decimal_text(n as nat);
            assert(text.subrange(0, title.len() as int) =~= title);
            reveal_strlit(" [#");
            reveal_strlit("#");
            reveal_strlit("]");
            reveal_strlit("](https://github.com/rust-lang/rust/issues/");
            let issues = "](https://github.com/rust-lang/rust/issues/"@;
            let before = title + " [#"@.take(2);
            let after = issues.skip(1) + number + ")\n"@;
            assert(" [#"@ =~= " [#"@.take(2) + "#"@);
            assert(issues =~= "]"@ + issues.skip(1));
            assert(before + ("#"@ + number + "]"@) + after =~= heading);
            lemma_stands_in("#"@ + number + "]"@, heading, none, lines);
        },
        None => {},
    }
}

/// The line of each change stands among the lines.
proof fn lemma_line_stands_in(
    changes: Seq<BenchmarkComparisonView>,
    c: BenchmarkComparisonView,
    link: Seq<char>,
)
    requires
        changes.contains(c),
    ensures
        stands_in("- "@ + c.line_text(Some(link)), lines_text(changes, link)),
    decreases changes.len(),
{
    let none = Seq::<char>::empty();
    let line = "- "@ + c.line_text(Some(link));
    let earlier = lines_text(changes.drop_last(), link);
    if changes.last() == c {
        assert(earlier + line + none =~= lines_text(changes, link));
    } else {
        let i = choose|i: int| 0 <= i < changes.len() && changes[i] == c;
        assert(changes.drop_last()[i] == c);
        lemma_line_stands_in(changes.drop_last(), c, link);
        let last = "- "@ + changes.last().line_text(Some(link));
        lemma_stands_in(line, earlier, none, last);
        assert(earlier + last =~= lines_text(changes, link));
    }
}

} // verus!
