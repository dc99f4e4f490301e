//! How much a benchmark's results have varied in the past.

use crate::cases::{TestCase, TestCaseView};
use crate::commits::{ancestors, previous_commits, ArtifactId, ArtifactIdView, MasterCommit};
use crate::double::{law_absolute_value, lemma_rounds, Double};
use crate::series::{
    next_statistics, series_after, series_have, statistics_from_series, SeriesResponse, SeriesView,
};
use crate::table::{lemma_first_keys, Table};
use crate::views::views;
use vstd::arithmetic::power2::lemma2_to64;
use vstd::prelude::*;

verus! {

/// How many commits before the first artifact the variance is taken from.
pub const NUM_PREVIOUS_COMMITS: usize = 100;

/// With fewer test cases than this there is no variance.
pub const MIN_PREVIOUS_COMMITS: usize = 50;

/// The ratio of change that we consider significant, 0.01, by its bits.
pub const SIGNFICANT_DELTA_THRESHOLD: u64 = 0x3F84_7AE1_47AE_147B;

/// The percentage of significant changes that we consider too high, 5, by its bits.
pub const SIGNFICANT_CHANGE_THRESHOLD: u64 = 0x4014_0000_0000_0000;

/// The percentage of change that constitutes noisy data, 0.1, by its bits.
pub const NOISE_THRESHOLD: u64 = 0x3FB9_9999_9999_999A;

/// The thresholds are the decimal numbers that they are said to be, rounded.
pub proof fn law_variance_thresholds()
    ensures
        (Double { bits: SIGNFICANT_DELTA_THRESHOLD }).rounds(1, 100),
        (Double { bits: SIGNFICANT_CHANGE_THRESHOLD }).rounds(5, 1),
        (Double { bits: NOISE_THRESHOLD }).rounds(1, 10),
{
    lemma2_to64();
    vstd::arithmetic::power2::lemma2_to64_rest();
    lemma_rounds(Double { bits: SIGNFICANT_DELTA_THRESHOLD }, 1, 100, 59);
    lemma_rounds(Double { bits: SIGNFICANT_CHANGE_THRESHOLD }, 5, 1, 50);
    lemma_rounds(Double { bits: NOISE_THRESHOLD }, 1, 10, 56);
}

/// What the past results of a benchmark look like.
#[derive(Debug, Clone, Copy, PartialEq, Eq, Structural)]
pub enum BenchmarkVarianceDescription {
    Normal,
    /// A highly variable benchmark that produces many significant changes.
    /// This might indicate a benchmark which is very sensitive to compiler changes.
    ///
    /// Contains the percentage of significant changes.
    HighlyVariable(Double),
    /// A noisy benchmark which is likely to see changes in performance simply between
    /// compiler runs.
    ///
    /// Contains the percent change that happens on average.
    Noisy(Double),
}

impl Default for BenchmarkVarianceDescription {
    fn default() -> (result: BenchmarkVarianceDescription)
        ensures
            result == BenchmarkVarianceDescription::Normal,
    {
        BenchmarkVarianceDescription::Normal
    }
}

/// The description for a percentage of significant changes, and an average change in percent
/// of those that are not significant.
pub open spec fn description_for(
    percent_significant_changes: Double,
    percent_change: Double,
) -> BenchmarkVarianceDescription {
    if percent_significant_changes.above(Double { bits: SIGNFICANT_CHANGE_THRESHOLD }) {
        BenchmarkVarianceDescription::HighlyVariable(percent_significant_changes)
    } else if percent_change.above(Double { bits: NOISE_THRESHOLD }) {
        BenchmarkVarianceDescription::Noisy(percent_change)
    } else {
        BenchmarkVarianceDescription::Normal
    }
}

/// Whether a change is not significant, by its ratio to the result that it started from.
pub open spec fn not_significant(ratio: Double) -> bool {
    (Double { bits: SIGNFICANT_DELTA_THRESHOLD }).above(ratio)
}

/// The size of each difference between a result and the next one, with the result that it
/// started from.
pub open spec fn deltas(differences: Seq<Double>, data: Seq<Double>) -> Seq<(Double, Double)> {
    Seq::new(
        if differences.len() <= data.len() {
            differences.len()
        } else {
            data.len()
        },
        |i: int| (differences[i].unsigned(), data[i]),
    )
}

/// Which deltas have the given size.
pub open spec fn of_size(size: int) -> spec_fn((Double, Double)) -> bool {
    |delta: (Double, Double)| delta.0.value() == size
}

/// The past results of one test case, and what they look like.
#[derive(Debug)]
pub struct BenchmarkVariance {
    data: Vec<Double>,
    description: BenchmarkVarianceDescription,
}

/// What a [`BenchmarkVariance`] holds.
pub struct VarianceView {
    pub data: Seq<Double>,
    pub description: BenchmarkVarianceDescription,
}

impl View for BenchmarkVariance {
    type V = VarianceView;

    closed spec fn view(&self) -> VarianceView {
        VarianceView { data: self.data@, description: self.description }
    }
}

impl VarianceView {
    /// The same results, described by the percentage of significant changes among them, and
    /// the average change in percent of the others. Without any change they are normal.
    pub open spec fn described(
        self,
        percent_significant_changes: Double,
        percent_change: Double,
    ) -> VarianceView {
        VarianceView {
            data: self.data,
            description: if self.data.len() < 2 {
                BenchmarkVarianceDescription::Normal
            } else {
                description_for(percent_significant_changes, percent_change)
            },
        }
    }

    /// Whether the benchmark cannot be trusted.
    pub open spec fn dodgy(self) -> bool {
        self.description is Noisy || self.description is HighlyVariable
    }
}

/// A member at the end of a list is the last that is left of it, if it is left at all.
proof fn lemma_filter_push(
    list: Seq<(Double, Double)>,
    keep: spec_fn((Double, Double)) -> bool,
    last: (Double, Double),
)
    ensures
        list.push(last).filter(keep) == if keep(last) {
            list.filter(keep).push(last)
        } else {
            list.filter(keep)
        },
{
    reveal(Seq::filter);
    assert(list.push(last).drop_last() =~= list);
}

/// A delta that is put in front of larger ones comes last among those of its size.
proof fn lemma_insert_keeps_order(
    list: Seq<(Double, Double)>,
    at: int,
    delta: (Double, Double),
    size: int,
)
    requires
        0 <= at <= list.len(),
        forall|i: int| at <= i < list.len() ==> list[i].0.above(delta.0),
    ensures
        list.insert(at, delta).filter(of_size(size)) == if delta.0.value() == size {
            list.filter(of_size(size)).push(delta)
        } else {
            list.filter(of_size(size))
        },
    decreases list.len(),
{
    let keep = of_size(size);
    if at == list.len() {
        assert(list.insert(at, delta) =~= list.push(delta));
        lemma_filter_push(list, keep, delta);
    } else {
        let rest = list.drop_last();
        let last = list.last();
        lemma_insert_keeps_order(rest, at, delta, size);
        assert(list.insert(at, delta) =~= rest.insert(at, delta).push(last));
        assert(list =~= rest.push(last));
        lemma_filter_push(rest.insert(at, delta), keep, last);
        lemma_filter_push(rest, keep, last);
        assert(list[list.len() - 1].0.above(delta.0));
    }
}

/// What a description says: results without a change are normal, the percentage that is named
/// is the one it is said to be and above its threshold, and describing the results once more by
/// the same percentages changes nothing, whatever they were described as before.
pub proof fn law_description(
    variance: VarianceView,
    percent_significant_changes: Double,
    percent_change: Double,
)
    ensures
        ({
            let after = variance.described(percent_significant_changes, percent_change);
            &&& after.data == variance.data
            &&& variance.data.len() < 2 ==> !after.dodgy()
            &&& after.description matches BenchmarkVarianceDescription::HighlyVariable(p) ==> p
                == percent_significant_changes && p.above(
                Double { bits: SIGNFICANT_CHANGE_THRESHOLD },
            )
            &&& after.description matches BenchmarkVarianceDescription::Noisy(p) ==> p
                == percent_change && p.above(Double { bits: NOISE_THRESHOLD })
            &&& after.described(percent_significant_changes, percent_change) == after
            &&& forall|other: BenchmarkVarianceDescription| #[trigger]
                (VarianceView { data: variance.data, description: other }).described(
                    percent_significant_changes,
                    percent_change,
                ) == after
        }),
{
}

impl Default for BenchmarkVariance {
    fn default() -> (result: BenchmarkVariance)
        ensures
            result@.data == Seq::<Double>::empty(),
            result@.description == BenchmarkVarianceDescription::Normal,
    {
        BenchmarkVariance { data: Vec::new(), description: BenchmarkVarianceDescription::Normal }
    }
}

impl Clone for BenchmarkVariance {
    fn clone(&self) -> (result: BenchmarkVariance)
        ensures
            result@ == self@,
    {
        let data = self.data.clone();
        assert(data@ =~= self.data@);
        BenchmarkVariance { data, description: self.description }
    }
}

impl BenchmarkVariance {
    /// Adds a result.
    pub fn push(&mut self, value: Double)
        ensures
            final(self)@.data == old(self)@.data.push(value),
            final(self)@.description == old(self)@.description,
    {
        self.data.push(value);
    }

    /// The results, in the order in which they were added.
    pub fn data(&self) -> (result: &Vec<Double>)
        ensures
            result@ == self@.data,
    {
        &self.data
    }

    /// What the results look like.
    pub fn description(&self) -> (result: BenchmarkVarianceDescription)
        ensures
            result == self@.description,
    {
        self.description
    }

    /// The sizes of the given differences between a result and the next one, from the smallest
    /// to the largest, each with the result that it started from. Those of the same size stay
    /// in their order.
    pub fn sorted_deltas(&self, differences: &Vec<Double>) -> (result: Vec<(Double, Double)>)
        ensures
            result@.to_multiset() == deltas(differences@, self@.data).to_multiset(),
            (forall|i: int| 0 <= i < differences.len() ==> !differences[i].nan()) ==> {
                &&& forall|i: int, j: int|
                    0 <= i < j < result.len() ==> result[i].0.value() <= result[j].0.value()
                &&& forall|size: int| #[trigger]
                    result@.filter(of_size(size)) == deltas(differences@, self@.data).filter(
                        of_size(size),
                    )
            },
    {
        let ghost all = deltas(differences@, self.data@);
        let ghost numbers = forall|i: int| 0 <= i < differences.len() ==> !differences[i].nan();
        let mut sorted: Vec<(Double, Double)> = Vec::new();
        let mut n: usize = 0;
        assert(all.take(0) =~= sorted@);
        while n < differences.len() && n < self.data.len()
            invariant
                n <= differences.len(),
                n <= self.data.len(),
                all == deltas(differences@, self.data@),
                numbers == forall|i: int| 0 <= i < differences.len() ==> !differences[i].nan(),
                sorted.len() == n,
                sorted@.to_multiset() == all.take(n as int).to_multiset(),
                numbers ==> forall|i: int| 0 <= i < sorted.len() ==> !sorted[i].0.nan(),
                numbers ==> forall|i: int, j: int|
                    0 <= i < j < sorted.len() ==> sorted[i].0.value() <= sorted[j].0.value(),
                numbers ==> forall|size: int| #[trigger]
                    sorted@.filter(of_size(size)) == all.take(n as int).filter(of_size(size)),
            decreases differences.len() - n,
        {
            let delta = differences[n].abs();
            let pair = (delta, self.data[n]);
            let mut at: usize = n;
            while at > 0 && sorted[at - 1].0.gt(&delta)
                invariant
                    at <= n,
                    sorted.len() == n,
                    forall|i: int| at <= i < n ==> sorted[i].0.above(delta),
                decreases at,
            {
                at -= 1;
            }
            let ghost before = sorted@;
            sorted.insert(at, pair);
            proof {
                vstd::seq_lib::to_multiset_insert(before, at as int, pair);
                vstd::seq_lib::to_multiset_build(all.take(n as int), pair);
                assert(all.take(n + 1) =~= all.take(n as int).push(pair));
                assert forall|i: int, j: int| numbers && 0 <= i < j < sorted.len() implies sorted[i].0.value()
                    <= sorted[j].0.value() by {
                    if j == at {
                        assert(!before[at - 1].0.above(delta));
                    } else if i == at {
                        assert(before[j - 1].0.above(delta));
                    }
                }
                if numbers {
                    assert forall|size: int| #[trigger]
                        sorted@.filter(of_size(size)) == all.take(n + 1).filter(of_size(size)) by {
                        lemma_insert_keeps_order(before, at as int, pair, size);
                        lemma_filter_push(all.take(n as int), of_size(size), pair);
                    }
                }
            }
            n += 1;
        }
        assert(all.take(all.len() as int) =~= all);
        sorted
    }

    /// The deltas that are not significant, in their order. Each delta comes with its ratio to
    /// the result that it started from.
    pub fn non_significant(changes: &Vec<(Double, Double)>) -> (result: Vec<Double>)
        ensures
            result@ == changes@.filter(
                |change: (Double, Double)| not_significant(change.1),
            ).map_values(|change: (Double, Double)| change.0),
    {
        let ghost keep = |change: (Double, Double)| not_significant(change.1);
        let ghost size = |change: (Double, Double)| change.0;
        let threshold = Double::from_bits(SIGNFICANT_DELTA_THRESHOLD);
        let mut found: Vec<Double> = Vec::new();
        let mut n: usize = 0;
        proof {
            reveal(Seq::filter);
            assert(found@ =~= changes@.take(0).filter(keep).map_values(size));
        }
        while n < changes.len()
            invariant
                n <= changes.len(),
                keep == |change: (Double, Double)| not_significant(change.1),
                size == |change: (Double, Double)| change.0,
                threshold.bits == SIGNFICANT_DELTA_THRESHOLD,
                found@ == changes@.take(n as int).filter(keep).map_values(size),
            decreases changes.len() - n,
        {
            let ghost earlier = changes@.take(n as int);
            proof {
                assert(changes@.take(n + 1) =~= earlier.push(changes[n as int]));
                lemma_filter_push(earlier, keep, changes[n as int]);
            }
            if threshold.gt(&changes[n].1) {
                found.push(changes[n].0);
                assert(found@ =~= earlier.filter(keep).push(changes[n as int]).map_values(size));
            }
            n += 1;
        }
        assert(changes@.take(changes.len() as int) =~= changes@);
        found
    }

    /// Describes the results, given the percentage of significant changes among them, and the
    /// average change in percent of those that are not significant.
    pub fn calculate_description(
        &mut self,
        percent_significant_changes: Double,
        percent_change: Double,
    )
        ensures
            final(self)@ == old(self)@.described(percent_significant_changes, percent_change),
    {
        self.description = BenchmarkVarianceDescription::Normal;
        if self.data.len() < 2 {
            return;
        }
        if percent_significant_changes.gt(&Double::from_bits(SIGNFICANT_CHANGE_THRESHOLD)) {
            self.description =
            BenchmarkVarianceDescription::HighlyVariable(percent_significant_changes);
            return;
        }
        if percent_change.gt(&Double::from_bits(NOISE_THRESHOLD)) {
            self.description = BenchmarkVarianceDescription::Noisy(percent_change);
        }
    }

    /// Whether we cannot trust this benchmark.
    pub fn is_dodgy(&self) -> (result: bool)
        ensures
            result == self@.dodgy(),
    {
        matches!(
            self.description,
            BenchmarkVarianceDescription::Noisy(_)
                | BenchmarkVarianceDescription::HighlyVariable(_)
        )
    }
}

/// A description of the amount of variance a certain benchmark is historically
/// experiencing at a given point in time.
pub struct BenchmarkVariances {
    /// Variance data on a per test case basis
    pub data: Table<TestCase, BenchmarkVariance>,
}

impl View for BenchmarkVariances {
    type V = Map<TestCaseView, VarianceView>;

    open spec fn view(&self) -> Map<TestCaseView, VarianceView> {
        self.data@.map_values(|v: BenchmarkVariance| v@)
    }
}

/// The results of a test case so far.
pub open spec fn past(histories: Map<TestCaseView, Seq<Double>>, case: TestCaseView) -> Seq<
    Double,
> {
    if histories.contains_key(case) {
        histories[case]
    } else {
        Seq::empty()
    }
}

/// The results by test case, with those of one more artifact at the end.
pub open spec fn with_points(
    histories: Map<TestCaseView, Seq<Double>>,
    points: Map<TestCaseView, Double>,
) -> Map<TestCaseView, Seq<Double>> {
    Map::new(
        |case: TestCaseView| histories.contains_key(case) || points.contains_key(case),
        |case: TestCaseView|
            if points.contains_key(case) {
                past(histories, case).push(points[case])
            } else {
                histories[case]
            },
    )
}

/// The results of the next `n` artifacts by test case, in the order of the artifacts.
pub open spec fn histories(series: Seq<SeriesView>, n: nat) -> Map<TestCaseView, Seq<Double>>
    decreases n,
{
    if n == 0 {
        Map::empty()
    } else {
        with_points(
            histories(series, (n - 1) as nat),
            next_statistics(series_after(series, n - 1)),
        )
    }
}

/// The variances that are not described yet, for the given results.
pub open spec fn undescribed(histories: Map<TestCaseView, Seq<Double>>) -> Map<
    TestCaseView,
    VarianceView,
> {
    histories.map_values(
        |data: Seq<Double>|
            VarianceView { data, description: BenchmarkVarianceDescription::Normal },
    )
}

/// A test case is among the results exactly where one of the artifacts has a result for it,
/// and it has at most one result for each artifact.
pub proof fn law_one_result_per_artifact(series: Seq<SeriesView>, n: nat, case: TestCaseView)
    ensures
        histories(series, n).contains_key(case) <==> exists|i: int|
            0 <= i < n && (#[trigger] next_statistics(series_after(series, i))).contains_key(case),
        histories(series, n).contains_key(case) ==> 1 <= histories(series, n)[case].len() <= n,
    decreases n,
{
    if n > 0 {
        law_one_result_per_artifact(series, (n - 1) as nat, case);
        let points = next_statistics(series_after(series, n - 1));
        if histories(series, n).contains_key(case) && !points.contains_key(case) {
            let i = choose|i: int|
                0 <= i < n - 1 && (#[trigger] next_statistics(
                    series_after(series, i),
                )).contains_key(case);
            assert(next_statistics(series_after(series, i)).contains_key(case));
        }
        if exists|i: int|
            0 <= i < n && (#[trigger] next_statistics(series_after(series, i))).contains_key(case) {
            let i = choose|i: int|
                0 <= i < n && (#[trigger] next_statistics(series_after(series, i))).contains_key(
                    case,
                );
            if i < n - 1 {
                assert(next_statistics(series_after(series, i)).contains_key(case));
            }
        }
    }
}

/// Adds the points of one more artifact to the variances.
fn push_points(
    variances: &mut Table<TestCase, BenchmarkVariance>,
    points: &Table<TestCase, Double>,
    Ghost(before): Ghost<Map<TestCaseView, Seq<Double>>>,
)
    requires
        old(variances)@.map_values(|v: BenchmarkVariance| v@) == undescribed(before),
    ensures
        final(variances)@.map_values(|v: BenchmarkVariance| v@) == undescribed(
            with_points(before, points@),
        ),
{
    let count = points.len();
    let ghost keys = points.keys();
    let mut i: usize = 0;
    let ghost after = with_points(before, points@);
    assert forall|k: TestCaseView| variances@.contains_key(k) == before.contains_key(k) by {
        assert(undescribed(before).contains_key(k) == before.contains_key(k));
    }
    assert forall|k: TestCaseView| variances@.contains_key(k) implies variances@[k]@ == (
    VarianceView { data: before[k], description: BenchmarkVarianceDescription::Normal }) by {
        assert(undescribed(before)[k] == variances@[k]@);
    }
    while i < count
        invariant
            i <= count,
            count == keys.len(),
            keys == points.keys(),
            keys.no_duplicates(),
            keys.to_set() == points@.dom(),
            after == with_points(before, points@),
            forall|k: TestCaseView| #[trigger]
                variances@.contains_key(k) == (before.contains_key(k) || keys.take(
                    i as int,
                ).contains(k)),
            forall|k: TestCaseView| #[trigger]
                variances@.contains_key(k) ==> variances@[k]@ == (VarianceView {
                    data: if keys.take(i as int).contains(k) {
                        after[k]
                    } else {
                        before[k]
                    },
                    description: BenchmarkVarianceDescription::Normal,
                }),
        decreases count - i,
    {
        let (test_case, stat) = points.entry(i);
        let ghost k0 = test_case@;
        let mut variance = match variances.insert(test_case.clone(), BenchmarkVariance::default()) {
            Some(v) => v,
            None => BenchmarkVariance::default(),
        };
        proof {
            lemma_first_keys(keys, i as int);
        }
        assert(variance@.data == past(before, k0));
        variance.push(*stat);
        variances.insert(test_case.clone(), variance);
        i += 1;
    }
    assert(keys.take(count as int) =~= keys);
    assert forall|k: TestCaseView| keys.contains(k) == points@.contains_key(k) by {
        assert(keys.to_set().contains(k) == keys.contains(k));
    }
    assert(variances@.map_values(|v: BenchmarkVariance| v@) =~= undescribed(after));
}

impl BenchmarkVariances {
    /// The commits that the variance is taken from, the nearest first.
    pub fn commits(from: ArtifactId, master_commits: &[MasterCommit]) -> (result: Vec<ArtifactId>)
        ensures
            views(result@) == ancestors(
                from@,
                NUM_PREVIOUS_COMMITS as nat,
                views(master_commits@),
            ),
    {
        previous_commits(from, NUM_PREVIOUS_COMMITS, master_commits)
    }

    /// Collects the results of the previous commits, of which the series hold one point each,
    /// in the same order. There are no variances where there are too few test cases. They are
    /// not described yet.
    pub fn calculate(
        previous_commits: &Vec<ArtifactId>,
        previous_commit_series: &mut Vec<SeriesResponse>,
    ) -> (result: Option<BenchmarkVariances>)
        requires
            series_have(views(old(previous_commit_series)@), previous_commits.len() as int),
        ensures
            ({
                let results = histories(
                    views(old(previous_commit_series)@),
                    previous_commits@.len(),
                );
                match result {
                    Some(variances) => results.dom().len() >= MIN_PREVIOUS_COMMITS
                        && variances@ == undescribed(results),
                    None => results.dom().len() < MIN_PREVIOUS_COMMITS,
                }
            }),
            views(final(previous_commit_series)@) == series_after(
                views(old(previous_commit_series)@),
                previous_commits.len() as int,
            ),
    {
        let ghost series = views(previous_commit_series@);
        let mut variance_data: Table<TestCase, BenchmarkVariance> = Table::new();
        let mut n: usize = 0;
        assert(series_after(series, 0) =~= series) by {
            assert forall|i: int| 0 <= i < series.len() implies series[i].after(0) == #[trigger] series[i] by {
                assert(series[i].remaining.skip(0) =~= series[i].remaining);
            }
        }
        assert(variance_data@.map_values(|v: BenchmarkVariance| v@) =~= undescribed(
            histories(series, 0),
        ));
        while n < previous_commits.len()
            invariant
                n <= previous_commits.len(),
                series_have(series, previous_commits.len() as int),
                views(previous_commit_series@) == series_after(series, n as int),
                variance_data@.map_values(|v: BenchmarkVariance| v@) == undescribed(
                    histories(series, n as nat),
                ),
            decreases previous_commits.len() - n,
        {
            assert(series_have(views(previous_commit_series@), 1)) by {
                assert forall|i: int| 0 <= i < series.len() implies (#[trigger] series_after(
                    series,
                    n as int,
                )[i]).remaining.len() >= 1 by {
                    assert(series[i].remaining.len() >= previous_commits.len());
                }
            }
            let points = statistics_from_series(previous_commit_series);
            push_points(&mut variance_data, &points, Ghost(histories(series, n as nat)));
            proof {
                assert forall|i: int| 0 <= i < series.len() implies #[trigger] series_after(
                    series_after(series, n as int),
                    1,
                )[i] == series_after(series, n + 1)[i] by {
                    assert(series[i].remaining.len() >= previous_commits.len());
                    assert(series[i].remaining.skip(n as int).skip(1) =~= series[i].remaining.skip(
                        n + 1,
                    ));
                }
                assert(series_after(series_after(series, n as int), 1) =~= series_after(
                    series,
                    n + 1,
                ));
            }
            n += 1;
        }
        let ghost results = histories(series, n as nat);
        assert(variance_data@.dom() =~= results.dom()) by {
            assert(variance_data@.map_values(|v: BenchmarkVariance| v@).dom()
                == undescribed(results).dom());
            assert(variance_data@.map_values(|v: BenchmarkVariance| v@).dom()
                =~= variance_data@.dom());
            assert(undescribed(results).dom() =~= results.dom());
        }
        if variance_data.len() < MIN_PREVIOUS_COMMITS {
            return None;
        }
        Some(BenchmarkVariances { data: variance_data })
    }

    /// Describes the results of one test case, as
    /// [`BenchmarkVariance::calculate_description`] does.
    pub fn describe(
        &mut self,
        test_case: &TestCase,
        percent_significant_changes: Double,
        percent_change: Double,
    )
        ensures
            final(self)@ == if old(self)@.contains_key(test_case@) {
                old(self)@.insert(
                    test_case@,
                    old(self)@[test_case@].described(percent_significant_changes, percent_change),
                )
            } else {
                old(self)@
            },
            final(self).data.keys() == old(self).data.keys(),
    {
        let mut variance = match self.data.get(test_case) {
            Some(v) => v.clone(),
            None => {
                return;
            },
        };
        variance.calculate_description(percent_significant_changes, percent_change);
        self.data.insert(test_case.clone(), variance);
        assert(self@ =~= old(self)@.insert(test_case@, variance@));
    }

    /// Describes the results of every test case, as
    /// [`BenchmarkVariance::calculate_description`] does. There is a pair of percentages for
    /// each, in the order of the entries.
    pub fn describe_all(&mut self, percentages: &Vec<(Double, Double)>)
        requires
            percentages.len() == old(self).data.keys().len(),
        ensures
            final(self).data.keys() == old(self).data.keys(),
            final(self)@.dom() == old(self)@.dom(),
            forall|i: int|
                0 <= i < percentages.len() ==> final(self)@[#[trigger] old(self).data.keys()[i]]
                    == old(self)@[old(self).data.keys()[i]].described(
                    percentages[i].0,
                    percentages[i].1,
                ),
    {
        let ghost before = self@;
        let ghost keys = self.data.keys();
        let count = self.data.len();
        assert forall|i: int| 0 <= i < count implies before.contains_key(#[trigger] keys[i]) by {
            assert(keys.to_set().contains(keys[i]));
        }
        let mut n: usize = 0;
        while n < count
            invariant
                n <= count,
                count == percentages.len(),
                count == keys.len(),
                keys.no_duplicates(),
                keys == self.data.keys(),
                self@.dom() == before.dom(),
                forall|i: int| 0 <= i < count ==> before.contains_key(#[trigger] keys[i]),
                forall|i: int|
                    0 <= i < n ==> self@[#[trigger] keys[i]] == before[keys[i]].described(
                        percentages[i].0,
                        percentages[i].1,
                    ),
                forall|i: int| n <= i < count ==> self@[#[trigger] keys[i]] == before[keys[i]],
            decreases count - n,
        {
            let test_case = self.data.entry(n).0.clone();
            let ghost earlier = self@;
            assert(test_case@ == keys[n as int]);
            assert(self@.dom().contains(keys[n as int]));
            self.describe(&test_case, percentages[n].0, percentages[n].1);
            assert(self@.dom() =~= before.dom());
            assert forall|i: int| 0 <= i < count && i != n implies self@[#[trigger] keys[i]]
                == earlier[keys[i]] by {
                assert(keys[i] != keys[n as int]);
            }
            n += 1;
        }
    }
}

/// How past results are described, where there is at least one change among them: as highly
/// variable where more than 5 percent of the changes are significant, else as noisy where the
/// others are above 0.1 percent on average, and else as normal. A description names its
/// percentage.
pub proof fn law_what_has_to_be_described(
    variance: VarianceView,
    percent_significant_changes: Double,
    percent_change: Double,
)
    ensures
        ({
            let after = variance.described(percent_significant_changes, percent_change);
            let many = !percent_significant_changes.nan() && percent_significant_changes.value() > (
            Double { bits: 0x4014_0000_0000_0000 }).value();
            let noise = !percent_change.nan() && percent_change.value() > (Double {
                bits: 0x3FB9_9999_9999_999A,
            }).value();
            &&& after.data == variance.data
            &&& variance.data.len() >= 2 && many ==> after.description
                == BenchmarkVarianceDescription::HighlyVariable(percent_significant_changes)
            &&& variance.data.len() >= 2 && !many && noise ==> after.description
                == BenchmarkVarianceDescription::Noisy(percent_change)
            &&& variance.data.len() < 2 || !many && !noise ==> after.description
                == BenchmarkVarianceDescription::Normal
            &&& after.dodgy() <==> variance.data.len() >= 2 && (many || noise)
        }),
{
}

/// Only normal results can be trusted.
pub proof fn law_what_is_dodgy(variance: VarianceView)
    ensures
        variance.dodgy() <==> variance.description != BenchmarkVarianceDescription::Normal,
{
}

/// A change is not significant exactly where its ratio is a number below 0.01.
pub proof fn law_not_significant(ratio: Double)
    ensures
        not_significant(ratio) <==> !ratio.nan() && ratio.value() < (Double {
            bits: 0x3F84_7AE1_47AE_147B,
        }).value(),
{
}

/// The deltas are as many as there are differences with a result that they start from. Each has
/// the size of its difference, and comes with that result.
pub proof fn law_deltas(differences: Seq<Double>, data: Seq<Double>, i: int)
    ensures
        deltas(differences, data).len() <= differences.len(),
        deltas(differences, data).len() <= data.len(),
        deltas(differences, data).len() == differences.len() || deltas(differences, data).len()
            == data.len(),
        0 <= i < differences.len() && i < data.len() ==> {
            let (delta, start) = deltas(differences, data)[i];
            &&& start == data[i]
            &&& delta.nan() == differences[i].nan()
            &&& delta.value() >= 0
            &&& delta.value() == differences[i].value() || delta.value()
                == -differences[i].value()
        },
        forall|delta: (Double, Double), size: int| #[trigger]
            of_size(size)(delta) <==> delta.0.value() == size,
{
    if 0 <= i < differences.len() && i < data.len() {
        law_absolute_value(differences[i]);
    }
}

/// How the results of a test case are collected: of no artifact there are none, and one more
/// artifact adds its result at the end, where it has one, and else changes nothing.
pub proof fn law_results_are_collected_in_order(
    series: Seq<SeriesView>,
    n: nat,
    case: TestCaseView,
)
    ensures
        histories(series, 0) == Map::<TestCaseView, Seq<Double>>::empty(),
        ({
            let before = histories(series, n);
            let after = histories(series, n + 1);
            let points = next_statistics(series_after(series, n as int));
            &&& after.contains_key(case) <==> before.contains_key(case) || points.contains_key(case)
            &&& points.contains_key(case) && before.contains_key(case) ==> after[case]
                == before[case].push(points[case])
            &&& points.contains_key(case) && !before.contains_key(case) ==> after[case]
                == seq![points[case]]
            &&& !points.contains_key(case) && before.contains_key(case) ==> after[case]
                == before[case]
        }),
{
    assert(Seq::<Double>::empty().push(
        next_statistics(series_after(series, n as int))[case],
    ) =~= seq![next_statistics(series_after(series, n as int))[case]]);
}

/// Where there is one series, the results of its test case are those of its points that were
/// measured, in their order.
pub proof fn law_results_of_one_series(series: SeriesView, n: nat)
    requires
        n <= series.remaining.len(),
    ensures
        ({
            let found = series.remaining.take(n as int).filter(
                |point: (ArtifactIdView, Option<Double>)| point.1 is Some,
            ).map_values(|point: (ArtifactIdView, Option<Double>)| point.1->0);
            &&& histories(seq![series], n).contains_key(series.test_case) <==> found.len() > 0
            &&& found.len() > 0 ==> histories(seq![series], n)[series.test_case] == found
        }),
    decreases n,
{
    let keep = |point: (ArtifactIdView, Option<Double>)| point.1 is Some;
    let value = |point: (ArtifactIdView, Option<Double>)| point.1->0;
    reveal(Seq::filter);
    if n == 0 {
        assert(series.remaining.take(0).filter(keep).len() == 0);
    } else {
        let m = (n - 1) as nat;
        law_results_of_one_series(series, m);
        law_results_are_collected_in_order(seq![series], m, series.test_case);
        let left = series_after(seq![series], m as int);
        let earlier = series.remaining.take(m as int);
        let point = series.remaining[m as int];
        assert(left.drop_last() =~= Seq::empty());
        assert(left.last() == series.after(m as int));
        assert(left.last().remaining[0] == point);
        assert(next_statistics(left.drop_last()) == Map::<TestCaseView, Double>::empty());
        assert(series.remaining.take(n as int).drop_last() =~= earlier);
        assert(series.remaining.take(n as int).last() == point);
        if point.1 is Some {
            assert(earlier.filter(keep).push(point).map_values(value) =~= earlier.filter(
                keep,
            ).map_values(value).push(point.1->0));
        }
    }
}

/// Results that are not described yet count as normal, and nothing else is changed of them.
pub proof fn law_undescribed(histories: Map<TestCaseView, Seq<Double>>, case: TestCaseView)
    ensures
        undescribed(histories).contains_key(case) <==> histories.contains_key(case),
        histories.contains_key(case) ==> undescribed(histories)[case].data == histories[case]
            && undescribed(histories)[case].description == BenchmarkVarianceDescription::Normal,
{
}

/// What is known of the variances of a test case is what the entry for it holds.
pub proof fn law_variances_are_what_they_hold(variances: BenchmarkVariances, case: TestCaseView)
    ensures
        variances@.contains_key(case) <==> variances.data@.contains_key(case),
        variances@.contains_key(case) ==> variances@[case] == variances.data@[case]@,
{
}

} // verus!
