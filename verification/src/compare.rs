//! The steps of a comparison, around the lookups that they need.

use crate::benchmark::{
    BenchmarkComparison, BenchmarkComparisonView, Change, TestResult, TestResultView,
};
use crate::cases::{TestCase, TestCaseView};
use crate::commits::{ancestors, ArtifactId, Bound, MasterCommit};
use crate::comparison::{ArtifactDescription, Comparison};
use crate::double::Double;
use crate::series::{
    next_statistics, series_after, series_have, statistics_from_series, SeriesResponse,
};
use crate::statistics::{
    each_test_case_once, firsts, has_test_case, law_all_are_firsts, law_firsts, Statistics,
};
use crate::table::lemma_first_keys;
use crate::views::{option_view, views};
use crate::variance::{
    BenchmarkVariance, BenchmarkVariances, VarianceView, NUM_PREVIOUS_COMMITS,
};
use vstd::prelude::*;

verus! {

/// Why there is no comparison.
#[derive(Debug)]
pub enum CompareError {
    /// There is no commit for the start bound.
    StartNotFound(Bound),
    /// There is no commit for the end bound.
    EndNotFound(Bound),
}

impl CompareError {
    /// The message for the error, given the text that shows its bound.
    pub open spec fn message_text(self, bound: Seq<char>) -> Seq<char> {
        match self {
            CompareError::StartNotFound(_) => "could not find start commit for bound "@ + bound,
            CompareError::EndNotFound(_) => "could not find end commit for bound "@ + bound,
        }
    }

    /// The message for the error, given the text that shows its bound.
    pub fn message(&self, bound: &str) -> (result: String)
        ensures
            result@ == self.message_text(bound@),
    {
        let mut text = match self {
            CompareError::StartNotFound(_) => "could not find start commit for bound ".to_owned(),
            CompareError::EndNotFound(_) => "could not find end commit for bound ".to_owned(),
        };
        text.append(bound);
        text
    }
}

/// Which values of a tag are asked for.
#[derive(Debug)]
pub enum Selector {
    All,
    One(String),
}

/// Which series are asked for.
#[derive(Debug)]
pub struct Query {
    pub benchmark: Selector,
    pub scenario: Selector,
    pub profile: Selector,
    pub metric: Selector,
}

/// What a [`Selector`] holds.
pub enum SelectorView {
    All,
    One(Seq<char>),
}

/// What a [`Query`] holds.
pub struct QueryView {
    pub benchmark: SelectorView,
    pub scenario: SelectorView,
    pub profile: SelectorView,
    pub metric: SelectorView,
}

impl View for Selector {
    type V = SelectorView;

    open spec fn view(&self) -> SelectorView {
        match self {
            Selector::All => SelectorView::All,
            Selector::One(s) => SelectorView::One(s@),
        }
    }
}

impl View for Query {
    type V = QueryView;

    open spec fn view(&self) -> QueryView {
        QueryView {
            benchmark: self.benchmark@,
            scenario: self.scenario@,
            profile: self.profile@,
            metric: self.metric@,
        }
    }
}

/// The query for all benchmarks, scenarios and profiles of one metric.
pub open spec fn query_for(stat: Seq<char>) -> QueryView {
    QueryView {
        benchmark: SelectorView::All,
        scenario: SelectorView::All,
        profile: SelectorView::All,
        metric: SelectorView::One(stat),
    }
}

impl Query {
    /// Asks for all benchmarks, scenarios and profiles of the given metric.
    pub fn for_stat(stat: String) -> (result: Query)
        ensures
            result@ == query_for(stat@),
    {
        Query {
            benchmark: Selector::All,
            scenario: Selector::All,
            profile: Selector::All,
            metric: Selector::One(stat),
        }
    }
}

/// What has to be read for a comparison: the series that the query asks for, with one point
/// for `a` and then one for `b`.
#[derive(Debug)]
pub struct Request {
    pub a: ArtifactId,
    pub b: ArtifactId,
    pub query: Query,
    /// The artifacts that the series have a point of, in this order.
    pub aids: Vec<ArtifactId>,
}

impl Request {
    /// The commits that the variance of the results is taken from: those before `a`, the
    /// nearest first.
    pub fn variance_commits(&self, master_commits: &[MasterCommit]) -> (result: Vec<ArtifactId>)
        ensures
            views(result@) == ancestors(
                self.a@,
                NUM_PREVIOUS_COMMITS as nat,
                views(master_commits@),
            ),
    {
        BenchmarkVariances::commits(self.a.clone(), master_commits)
    }
}

/// Starts the comparison of the artifacts that were found for two bounds.
///
/// It is an error that there is none for the start bound. There is nothing to compare where
/// there is none for the end bound.
pub fn request_comparison(
    start: Bound,
    a: Option<ArtifactId>,
    b: Option<ArtifactId>,
    stat: String,
) -> (result: Result<Option<Request>, CompareError>)
    ensures
        match result {
            Ok(Some(request)) => {
                &&& a is Some
                &&& b is Some
                &&& request.a@ == a->0@
                &&& request.b@ == b->0@
                &&& request.query@ == query_for(stat@)
                &&& views(request.aids@) == seq![a->0@, b->0@]
            },
            Ok(None) => a is Some && b is None,
            Err(e) => a is None && e == CompareError::StartNotFound(start),
        },
{
    let a = match a {
        Some(a) => a,
        None => {
            return Err(CompareError::StartNotFound(start));
        },
    };
    let b = match b {
        Some(b) => b,
        None => {
            return Ok(None);
        },
    };
    let mut aids: Vec<ArtifactId> = Vec::new();
    aids.push(a.clone());
    aids.push(b.clone());
    assert(views(aids@) =~= seq![a@, b@]);
    Ok(Some(Request { a, b, query: Query::for_stat(stat), aids }))
}

/// The variance of a test case, if it is known.
pub open spec fn known_variance(
    variances: Option<Map<TestCaseView, VarianceView>>,
    case: TestCaseView,
) -> Option<VarianceView> {
    match variances {
        Some(m) => if m.contains_key(case) {
            Some(m[case])
        } else {
            None
        },
        None => None,
    }
}

/// The two results of a test case that has both.
pub open spec fn result_for(
    a: Map<TestCaseView, Double>,
    b: Map<TestCaseView, Double>,
    variances: Option<Map<TestCaseView, VarianceView>>,
    case: TestCaseView,
) -> TestResultView {
    TestResultView {
        test_case: case,
        variance: known_variance(variances, case),
        results: (a[case], b[case]),
    }
}

/// Whether the list holds the results of each test case that both artifacts have one of, and
/// of no other, each once.
pub open spec fn joins(
    results: Seq<TestResultView>,
    a: Map<TestCaseView, Double>,
    b: Map<TestCaseView, Double>,
    variances: Option<Map<TestCaseView, VarianceView>>,
) -> bool {
    &&& results.no_duplicates()
    &&& forall|r: TestResultView| #[trigger]
        results.contains(r) <==> a.contains_key(r.test_case) && b.contains_key(r.test_case) && r
            == result_for(a, b, variances, r.test_case)
}

/// The variance of a test case, if it is known.
fn find_variance(variances: &Option<BenchmarkVariances>, test_case: &TestCase) -> (result: Option<
    BenchmarkVariance,
>)
    ensures
        option_view(result) == known_variance(option_view(*variances), test_case@),
{
    match variances {
        Some(v) => match v.data.get(test_case) {
            Some(variance) => Some(variance.clone()),
            None => None,
        },
        None => None,
    }
}

/// Takes the points of the two artifacts, and pairs them by test case.
pub fn join_statistics(
    responses: &mut Vec<SeriesResponse>,
    variances: &Option<BenchmarkVariances>,
) -> (result: Vec<TestResult>)
    requires
        series_have(views(old(responses)@), 2),
    ensures
        joins(
            views(result@),
            next_statistics(views(old(responses)@)),
            next_statistics(series_after(views(old(responses)@), 1)),
            option_view(*variances),
        ),
        views(final(responses)@) == series_after(views(old(responses)@), 2),
{
    let ghost series = views(responses@);
    proof {
        assert(series_have(series, 1));
        assert forall|i: int| 0 <= i < series.len() implies (#[trigger] series_after(
            series,
            1,
        )[i]).remaining.len() >= 1 by {
            assert(series[i].remaining.len() >= 2);
        }
    }
    let statistics_for_a = statistics_from_series(responses);
    let statistics_for_b = statistics_from_series(responses);
    proof {
        assert forall|i: int| 0 <= i < series.len() implies #[trigger] series_after(
            series_after(series, 1),
            1,
        )[i] == series_after(series, 2)[i] by {
            assert(series[i].remaining.len() >= 2);
            assert(series[i].remaining.skip(1).skip(1) =~= series[i].remaining.skip(2));
        }
        assert(series_after(series_after(series, 1), 1) =~= series_after(series, 2));
    }
    let ghost a = statistics_for_a@;
    let ghost b = statistics_for_b@;
    let ghost known = option_view(*variances);
    let count = statistics_for_a.len();
    let ghost keys = statistics_for_a.keys();
    let mut results: Vec<TestResult> = Vec::new();
    let mut i: usize = 0;
    while i < count
        invariant
            i <= count,
            count == keys.len(),
            keys == statistics_for_a.keys(),
            keys.no_duplicates(),
            keys.to_set() == a.dom(),
            a == statistics_for_a@,
            b == statistics_for_b@,
            known == option_view(*variances),
            forall|j: int|
                0 <= j < results.len() ==> {
                    let case = (#[trigger] results[j])@.test_case;
                    &&& keys.take(i as int).contains(case)
                    &&& b.contains_key(case)
                    &&& results[j]@ == result_for(a, b, known, case)
                },
            forall|j: int, k: int|
                0 <= j < k < results.len() ==> (#[trigger] results[j])@.test_case != (
                #[trigger] results[k])@.test_case,
            forall|j: int|
                0 <= j < i && b.contains_key(#[trigger] keys[j]) ==> views(results@).contains(
                    result_for(a, b, known, keys[j]),
                ),
        decreases count - i,
    {
        let (test_case, first) = statistics_for_a.entry(i);
        let ghost before = results@;
        proof {
            lemma_first_keys(keys, i as int);
        }
        match statistics_for_b.get(test_case) {
            Some(second) => {
                let variance = find_variance(variances, test_case);
                let result = TestResult {
                    test_case: test_case.clone(),
                    variance,
                    results: (*first, *second),
                };
                results.push(result);
                proof {
                    assert(views(results@) =~= views(before).push(result@));
                    assert forall|r: TestResultView| views(before).contains(r) implies views(
                        results@,
                    ).contains(r) by {
                        let j = choose|j: int| 0 <= j < before.len() && views(before)[j] == r;
                        assert(views(results@)[j] == r);
                    }
                    assert(views(results@)[before.len() as int] == result@);
                }
            },
            None => {},
        }
        i += 1;
    }
    proof {
        let list = views(results@);
        assert(keys.take(count as int) =~= keys);
        assert forall|r: TestResultView| #[trigger]
            list.contains(r) <==> a.contains_key(r.test_case) && b.contains_key(r.test_case) && r
                == result_for(a, b, known, r.test_case) by {
            assert(keys.to_set().contains(r.test_case) == keys.contains(r.test_case));
            if list.contains(r) {
                let j = choose|j: int| 0 <= j < list.len() && list[j] == r;
                assert(results[j]@ == r);
            }
            if a.contains_key(r.test_case) && b.contains_key(r.test_case) && r == result_for(
                a,
                b,
                known,
                r.test_case,
            ) {
                let j = choose|j: int| 0 <= j < keys.len() && keys[j] == r.test_case;
                assert(b.contains_key(keys[j]));
            }
        }
        assert forall|j: int, k: int|
            0 <= j < list.len() && 0 <= k < list.len() && j != k implies list[j] != list[k] by {
            if j < k {
                assert(results[j]@.test_case != results[k]@.test_case);
            } else {
                assert(results[k]@.test_case != results[j]@.test_case);
            }
        }
    }
    results
}

/// The results with the changes that belong to them.
pub open spec fn changed(results: Seq<(TestResult, Change)>) -> Seq<BenchmarkComparisonView> {
    Seq::new(
        results.len(),
        |i: int|
            BenchmarkComparisonView {
                test_case: results[i].0@.test_case,
                variance: results[i].0@.variance,
                results: results[i].0@.results,
                change: results[i].1@,
            },
    )
}

/// A comparison made of joined results has all of them, as each is of another test case.
pub proof fn law_joined_results_are_kept(
    results: Seq<(TestResult, Change)>,
    a: Map<TestCaseView, Double>,
    b: Map<TestCaseView, Double>,
    variances: Option<Map<TestCaseView, VarianceView>>,
)
    requires
        joins(Seq::new(results.len(), |i: int| results[i].0@), a, b, variances),
    ensures
        each_test_case_once(changed(results)),
        firsts(changed(results)) == changed(results),
{
    let list = Seq::new(results.len(), |i: int| results[i].0@);
    assert forall|i: int, j: int| 0 <= i < j < results.len() implies (#[trigger] changed(
        results,
    )[i]).test_case != (#[trigger] changed(results)[j]).test_case by {
        assert(list.contains(list[i]) && list.contains(list[j]));
        assert(list[i] != list[j]);
    }
    law_all_are_firsts(changed(results));
}

/// Compares two artifacts on the results of a given stat, each with the change that it is. Of
/// several results of one test case the first counts.
pub fn compare_given_commits(
    a: ArtifactDescription,
    b: ArtifactDescription,
    results: Vec<(TestResult, Change)>,
) -> (comparison: Comparison)
    ensures
        comparison@.a == a@,
        comparison@.b == b@,
        comparison@.statistics == firsts(changed(results@)),
        each_test_case_once(comparison@.statistics),
        each_test_case_once(changed(results@)) ==> comparison@.statistics == changed(results@),
{
    let ghost all = changed(results@);
    let mut statistics = Statistics::new();
    assert(firsts(all.take(0)) =~= statistics@);
    for pair in iter: results
        invariant
            changed(iter.seq()) == all,
            statistics@ == firsts(all.take(iter.index())),
    {
        let ghost n = iter.index();
        let (result, change) = pair;
        let comparison = BenchmarkComparison::new(result, change);
        proof {
            assert(comparison@ == all[n]);
            assert(all.take(n + 1).drop_last() =~= all.take(n));
            law_firsts(all.take(n));
            assert(has_test_case(firsts(all.take(n)), comparison@.test_case) == has_test_case(
                all.take(n),
                comparison@.test_case,
            ));
        }
        statistics.insert(comparison);
    }
    proof {
        assert(all.take(all.len() as int) =~= all);
        law_firsts(all);
        if each_test_case_once(all) {
            law_all_are_firsts(all);
        }
    }
    Comparison { a, b, statistics }
}

/// What joined results are: one for each test case that both artifacts have a result of, and
/// none for any other, with the result of the first artifact, then that of the second, and the
/// variance that is known of the test case, if any.
pub proof fn law_joined_results(
    results: Seq<TestResultView>,
    a: Map<TestCaseView, Double>,
    b: Map<TestCaseView, Double>,
    variances: Option<Map<TestCaseView, VarianceView>>,
    case: TestCaseView,
)
    requires
        joins(results, a, b, variances),
    ensures
        a.contains_key(case) && b.contains_key(case) <==> exists|i: int|
            0 <= i < results.len() && (#[trigger] results[i]).test_case == case,
        forall|i: int|
            0 <= i < results.len() && (#[trigger] results[i]).test_case == case ==> {
                &&& results[i].results.0 == a[case]
                &&& results[i].results.1 == b[case]
                &&& variances is None ==> results[i].variance is None
                &&& variances matches Some(known) ==> {
                    &&& known.contains_key(case) ==> results[i].variance == Some(known[case])
                    &&& !known.contains_key(case) ==> results[i].variance is None
                }
            },
        forall|i: int, j: int|
            0 <= i < j < results.len() ==> (#[trigger] results[i]).test_case != (
            #[trigger] results[j]).test_case,
{
    assert forall|i: int| 0 <= i < results.len() implies a.contains_key(
        (#[trigger] results[i]).test_case,
    ) && b.contains_key(results[i].test_case) && results[i] == result_for(
        a,
        b,
        variances,
        results[i].test_case,
    ) by {
        assert(results.contains(results[i]));
    }
    if a.contains_key(case) && b.contains_key(case) {
        let result = result_for(a, b, variances, case);
        assert(results.contains(result));
        let i = choose|i: int| 0 <= i < results.len() && results[i] == result;
        assert(results[i].test_case == case);
    }
    assert forall|i: int, j: int| 0 <= i < j < results.len() implies (
    #[trigger] results[i]).test_case != (#[trigger] results[j]).test_case by {
        assert(results[i] != results[j]);
    }
}

/// A result becomes a comparison of the same test case, with the same results and variance, and
/// the change that came with it; none is added or left out, and the order stays.
pub proof fn law_results_become_comparisons(results: Seq<(TestResult, Change)>, i: int)
    ensures
        changed(results).len() == results.len(),
        0 <= i < results.len() ==> {
            let c = changed(results)[i];
            &&& c.test_case == results[i].0.test_case@
            &&& c.results == results[i].0.results
            &&& c.variance == match results[i].0.variance {
                Some(v) => Some(v@),
                None => None,
            }
            &&& c.change.log == results[i].1.log
            &&& c.change.relative == results[i].1.relative
            &&& c.change.percent == results[i].1.percent@
        },
{
}

/// A query asks for the given metric, and for every benchmark, scenario and profile.
pub proof fn law_query_asks_for_all(query: Query, stat: Seq<char>)
    ensures
        query@ == query_for(stat) <==> {
            &&& query.benchmark is All
            &&& query.scenario is All
            &&& query.profile is All
            &&& query.metric matches Selector::One(metric) && metric@ == stat
        },
{
}

/// What the messages say.
pub proof fn law_messages_read(bound: Bound, shown: Seq<char>)
    ensures
        CompareError::StartNotFound(bound).message_text(shown)
            == "could not find start commit for bound "@ + shown,
        CompareError::EndNotFound(bound).message_text(shown)
            == "could not find end commit for bound "@ + shown,
{
}

} // verus!
