//! How the results of one test case changed between two artifacts.

use crate::cases::{
    law_hashed_texts_tell_the_test_case, ProfileKind, TestCase, TestCaseView,
};
use crate::double::{law_absolute_value, law_order_by_bits, lemma_rounds, Double};
use crate::table::Key;
use crate::text::stands_in;
use crate::views::{option_view, views};
use crate::variance::{BenchmarkVariance, VarianceView};
use vstd::arithmetic::power2::{lemma2_to64, lemma2_to64_rest};
use vstd::prelude::*;

verus! {

/// The logarithm of a significant change, 0.01, by its bits.
pub const SIGNIFICANCE_THRESHOLD: u64 = 0x3F84_7AE1_47AE_147B;

/// The relative change that is significant where results vary frequently, 2, by its bits.
pub const VOLATILE_THRESHOLD: u64 = 0x4000_0000_0000_0000;

/// The logarithm above which a change is very large, 0.10, by its bits.
pub const VERY_LARGE: u64 = 0x3FB9_9999_9999_999A;

/// The logarithm above which a change is large, 0.05, by its bits.
pub const LARGE: u64 = 0x3FA9_9999_9999_999A;

/// The logarithm above which a change is moderate, 0.01, by its bits.
pub const MODERATE: u64 = 0x3F84_7AE1_47AE_147B;

/// The logarithm above which a change is small, 0.005, by its bits.
pub const SMALL: u64 = 0x3F74_7AE1_47AE_147B;

/// The thresholds are the decimal numbers that they are said to be, rounded.
pub proof fn law_change_thresholds()
    ensures
        (Double { bits: SIGNIFICANCE_THRESHOLD }).rounds(1, 100),
        (Double { bits: VOLATILE_THRESHOLD }).rounds(2, 1),
        (Double { bits: VERY_LARGE }).rounds(10, 100),
        (Double { bits: LARGE }).rounds(5, 100),
        (Double { bits: MODERATE }).rounds(1, 100),
        (Double { bits: SMALL }).rounds(5, 1000),
{
    lemma2_to64();
    lemma2_to64_rest();
    lemma_rounds(Double { bits: SIGNIFICANCE_THRESHOLD }, 1, 100, 59);
    lemma_rounds(Double { bits: VOLATILE_THRESHOLD }, 2, 1, 51);
    lemma_rounds(Double { bits: VERY_LARGE }, 10, 100, 56);
    lemma_rounds(Double { bits: LARGE }, 5, 100, 57);
    lemma_rounds(Double { bits: MODERATE }, 1, 100, 59);
    lemma_rounds(Double { bits: SMALL }, 5, 1000, 60);
}

/// The direction of a performance change.
#[derive(Clone, Copy, Debug, PartialEq, Eq, Hash, Structural)]
pub enum Direction {
    Improvement,
    Regression,
    Mixed,
}

impl Direction {
    /// The direction in words.
    pub open spec fn text(self) -> Seq<char> {
        match self {
            Direction::Improvement => "improvement"@,
            Direction::Regression => "regression"@,
            Direction::Mixed => "mixed"@,
        }
    }

    /// The direction in words.
    pub fn as_str(&self) -> (result: &'static str)
        ensures
            result@ == self.text(),
    {
        match self {
            Direction::Improvement => "improvement",
            Direction::Regression => "regression",
            Direction::Mixed => "mixed",
        }
    }
}

/// What floating-point arithmetic makes of the two results `a` and `b` of a test case.
#[derive(Debug)]
pub struct Change {
    /// The natural logarithm of `b / a`.
    pub log: Double,
    /// `(b - a) / a`.
    pub relative: Double,
    /// The relative change in percent, written with one decimal.
    pub percent: String,
}

/// What a [`Change`] holds.
pub struct ChangeView {
    pub log: Double,
    pub relative: Double,
    pub percent: Seq<char>,
}

impl View for Change {
    type V = ChangeView;

    open spec fn view(&self) -> ChangeView {
        ChangeView { log: self.log, relative: self.relative, percent: self.percent@ }
    }
}

impl Clone for Change {
    fn clone(&self) -> (result: Change)
        ensures
            result == *self,
    {
        Change { log: self.log, relative: self.relative, percent: self.percent.clone() }
    }
}

/// The two results of a test case, and how much its results varied before them.
#[derive(Debug)]
pub struct TestResult {
    pub test_case: TestCase,
    pub variance: Option<BenchmarkVariance>,
    pub results: (Double, Double),
}

/// What a [`TestResult`] holds.
pub struct TestResultView {
    pub test_case: TestCaseView,
    pub variance: Option<VarianceView>,
    pub results: (Double, Double),
}

impl View for TestResult {
    type V = TestResultView;

    open spec fn view(&self) -> TestResultView {
        TestResultView {
            test_case: self.test_case@,
            variance: option_view(self.variance),
            results: self.results,
        }
    }
}

/// A single comparison based on benchmark and cache state.
#[derive(Debug)]
pub struct BenchmarkComparison {
    test_case: TestCase,
    variance: Option<BenchmarkVariance>,
    results: (Double, Double),
    change: Change,
}

/// What a [`BenchmarkComparison`] holds.
pub struct BenchmarkComparisonView {
    pub test_case: TestCaseView,
    pub variance: Option<VarianceView>,
    pub results: (Double, Double),
    pub change: ChangeView,
}

impl View for BenchmarkComparison {
    type V = BenchmarkComparisonView;

    closed spec fn view(&self) -> BenchmarkComparisonView {
        BenchmarkComparisonView {
            test_case: self.test_case@,
            variance: option_view(self.variance),
            results: self.results,
            change: self.change@,
        }
    }
}

/// How a change is called whose logarithm has the given size.
pub open spec fn size_text(magnitude: Double) -> Seq<char> {
    if magnitude.above(Double { bits: VERY_LARGE }) {
        "Very large"@
    } else if magnitude.above(Double { bits: LARGE }) {
        "Large"@
    } else if magnitude.above(Double { bits: MODERATE }) {
        "Moderate"@
    } else if magnitude.above(Double { bits: SMALL }) {
        "Small"@
    } else {
        "Very small"@
    }
}

/// What is compared, with a link to the comparison where there is one.
pub open spec fn subject_text(link: Option<Seq<char>>) -> Seq<char> {
    match link {
        Some(l) => "[instruction counts]("@ + l + ")"@,
        None => "instruction counts"@,
    }
}

impl BenchmarkComparisonView {
    /// Whether the second result is above the first.
    pub open spec fn increase(self) -> bool {
        self.results.1.above(self.results.0)
    }

    /// Whether the change counts.
    pub open spec fn significant(self) -> bool {
        if self.test_case.volatile() {
            self.change.relative.unsigned().above(Double { bits: VOLATILE_THRESHOLD })
        } else {
            self.change.log.unsigned().above(Double { bits: SIGNIFICANCE_THRESHOLD })
        }
    }

    /// Whether the change is for the better.
    pub open spec fn direction(self) -> Direction {
        if self.change.log.above(Double { bits: 0 }) {
            Direction::Regression
        } else {
            Direction::Improvement
        }
    }

    /// The change in one line.
    pub open spec fn line_text(self, link: Option<Seq<char>>) -> Seq<char> {
        size_text(self.change.log.unsigned()) + " "@ + self.direction().text() + " in "@
            + subject_text(link) + " (up to "@ + self.change.percent + "% on `"@
            + self.test_case.scenario.name + "` builds of `"@ + self.test_case.benchmark + "`)\n"@
    }
}

/// A significant change is at least a moderate one, but for the test case of which only a
/// large relative change counts.
pub proof fn law_significant_is_at_least_moderate(c: BenchmarkComparisonView)
    requires
        c.significant(),
        !c.test_case.volatile(),
    ensures
        ({
            let size = size_text(c.change.log.unsigned());
            size == "Very large"@ || size == "Large"@ || size == "Moderate"@
        }),
{
}

impl Clone for BenchmarkComparison {
    fn clone(&self) -> (result: BenchmarkComparison)
        ensures
            result@ == self@,
    {
        BenchmarkComparison {
            test_case: self.test_case.clone(),
            variance: match &self.variance {
                Some(v) => Some(v.clone()),
                None => None,
            },
            results: self.results,
            change: self.change.clone(),
        }
    }
}

/// Two comparisons are equal where they are of the same test case.
impl PartialEq for BenchmarkComparison {
    fn eq(&self, other: &BenchmarkComparison) -> (result: bool) {
        self.test_case.same(&other.test_case)
    }
}

impl vstd::std_specs::cmp::PartialEqSpecImpl for BenchmarkComparison {
    open spec fn obeys_eq_spec() -> bool {
        true
    }

    open spec fn eq_spec(&self, other: &BenchmarkComparison) -> bool {
        self@.test_case == other@.test_case
    }
}

impl Eq for BenchmarkComparison {

}

/// `std::hash::Hash::hash` of a list of texts. What it does to the hasher is up to the type of
/// the hasher, so nothing is said of it.
#[verifier::external_body]
fn feed<H: std::hash::Hasher>(texts: &Vec<&str>, state: &mut H) {
    std::hash::Hash::hash(texts, state)
}

/// Whether a call of [`feed`] with the texts can do to the hasher what becomes of it.
pub closed spec fn fed<H: std::hash::Hasher>(texts: Seq<Seq<char>>, state: &mut H) -> bool {
    exists|list: Vec<&str>|
        views(list@) == texts && #[trigger] call_ensures(feed::<H>, (&list, state), ())
}

/// A hash of a comparison is made of its test case alone: the hasher is fed the texts of the
/// test case, once, and nothing else.
impl std::hash::Hash for BenchmarkComparison {
    fn hash<H: std::hash::Hasher>(&self, state: &mut H)
        ensures
            exists|hasher: &mut H|
                *hasher == *old(state) && *final(hasher) == *final(state) && #[trigger] fed(
                    self@.test_case.hashed_texts(),
                    hasher,
                ),
    {
        let texts = self.test_case.hashed_texts();
        let feed_hasher = feed::<H>;
        feed_hasher(&texts, state);
        proof {
            let (list, hasher) = choose|list: Vec<&str>, hasher: &mut H|
                views(list@) == self@.test_case.hashed_texts() && *hasher == *old(state)
                    && *final(hasher) == *state
                    && #[trigger] call_ensures(feed::<H>, (&list, hasher), ());
            assert(fed(self@.test_case.hashed_texts(), hasher));
        }
    }
}

/// Comparisons are equal exactly where their hashes are made of the same texts, and what one of
/// two equal ones can do to a hasher, the other can do too.
pub proof fn law_equal_comparisons_hash_alike<H: std::hash::Hasher>(
    a: BenchmarkComparison,
    b: BenchmarkComparison,
    state: &mut H,
)
    ensures
        vstd::std_specs::cmp::PartialEqSpec::eq_spec(&a, &b) <==> a@.test_case.hashed_texts()
            == b@.test_case.hashed_texts(),
        vstd::std_specs::cmp::PartialEqSpec::eq_spec(&a, &b) ==> fed(
            a@.test_case.hashed_texts(),
            state,
        ) == fed(b@.test_case.hashed_texts(), state),
{
    law_hashed_texts_tell_the_test_case(a@.test_case, b@.test_case);
}

/// How a change is called whose logarithm has the given size.
fn size_word(magnitude: Double) -> (result: &'static str)
    ensures
        result@ == size_text(magnitude),
{
    if magnitude.gt(&Double::from_bits(VERY_LARGE)) {
        "Very large"
    } else if magnitude.gt(&Double::from_bits(LARGE)) {
        "Large"
    } else if magnitude.gt(&Double::from_bits(MODERATE)) {
        "Moderate"
    } else if magnitude.gt(&Double::from_bits(SMALL)) {
        "Small"
    } else {
        "Very small"
    }
}

/// What is compared, with a link to the comparison where there is one.
fn subject(link: Option<&str>) -> (result: String)
    ensures
        result@ == subject_text(option_view(link)),
{
    match link {
        Some(l) => {
            let mut text = "[instruction counts](".to_owned();
            text.append(l);
            text.append(")");
            text
        },
        None => "instruction counts".to_owned(),
    }
}

impl BenchmarkComparison {
    /// The comparison of the two results of a test case, with the change between them.
    pub fn new(result: TestResult, change: Change) -> (comparison: BenchmarkComparison)
        ensures
            comparison@ == (BenchmarkComparisonView {
                test_case: result@.test_case,
                variance: result@.variance,
                results: result@.results,
                change: change@,
            }),
    {
        BenchmarkComparison {
            test_case: result.test_case,
            variance: result.variance,
            results: result.results,
            change,
        }
    }

    /// What was measured.
    pub fn test_case(&self) -> (result: &TestCase)
        ensures
            result@ == self@.test_case,
    {
        &self.test_case
    }

    /// How much the results varied in the past, if known.
    pub fn variance(&self) -> (result: Option<&BenchmarkVariance>)
        ensures
            option_view(result) == self@.variance,
    {
        match &self.variance {
            Some(v) => Some(v),
            None => None,
        }
    }

    /// The results of the two artifacts.
    pub fn results(&self) -> (result: (Double, Double))
        ensures
            result == self@.results,
    {
        self.results
    }

    /// The natural logarithm of the ratio of the results.
    pub fn log_change(&self) -> (result: Double)
        ensures
            result == self@.change.log,
    {
        self.change.log
    }

    /// Whether the second result is above the first.
    pub fn is_increase(&self) -> (result: bool)
        ensures
            result == self@.increase(),
    {
        self.results.1.gt(&self.results.0)
    }

    /// Whether the change counts.
    pub fn is_significant(&self) -> (result: bool)
        ensures
            result == self@.significant(),
    {
        if self.test_case.is_volatile() {
            self.relative_change().abs().gt(&Double::from_bits(VOLATILE_THRESHOLD))
        } else {
            self.log_change().abs().gt(&Double::from_bits(SIGNIFICANCE_THRESHOLD))
        }
    }

    /// The difference of the results, relative to the first.
    pub fn relative_change(&self) -> (result: Double)
        ensures
            result == self@.change.relative,
    {
        self.change.relative
    }

    /// Whether the change is for the better.
    pub fn direction(&self) -> (result: Direction)
        ensures
            result == self@.direction(),
    {
        if self.log_change().gt(&Double::from_bits(0)) {
            Direction::Regression
        } else {
            Direction::Improvement
        }
    }

    /// Appends the change in one line.
    pub fn summary_line(&self, summary: &mut String, link: Option<&str>)
        ensures
            final(summary)@ == old(summary)@ + self@.line_text(option_view(link)),
    {
        let mut line = size_word(self.log_change().abs()).to_owned();
        line.append(" ");
        line.append(self.direction().as_str());
        line.append(" in ");
        line.append(subject(link).as_str());
        line.append(" (up to ");
        line.append(self.change.percent.as_str());
        line.append("% on `");
        line.append(self.test_case.scenario.name.as_str());
        line.append("` builds of `");
        line.append(self.test_case.benchmark.as_str());
        line.append("`)\n");
        summary.append(line.as_str());
    }
}

/// There is an increase exactly where both results are numbers and the second one is larger. So
/// the results the other way round are no increase too.
pub proof fn law_increase(c: BenchmarkComparisonView, other: BenchmarkComparisonView)
    ensures
        c.increase() <==> !c.results.0.nan() && !c.results.1.nan() && c.results.1.value()
            > c.results.0.value(),
        other.results == (c.results.1, c.results.0) ==> !(c.increase() && other.increase()),
{
}

/// What makes a change count: its logarithm is more than 0.01 away from zero; for the test case
/// whose results vary frequently, the relative change is more than 2 away from zero instead.
/// What is not a number never counts.
pub proof fn law_significance(c: BenchmarkComparisonView)
    ensures
        ({
            let often = c.test_case.benchmark == "coercions"@ && c.test_case.profile.kind
                == ProfileKind::Debug && c.test_case.scenario.incremental_patch == Some(
                "println"@,
            );
            let size = if often {
                c.change.relative
            } else {
                c.change.log
            };
            let limit = if often {
                Double { bits: 0x4000_0000_0000_0000 }
            } else {
                Double { bits: 0x3F84_7AE1_47AE_147B }
            };
            c.significant() <==> !size.nan() && (size.value() > limit.value() || size.value()
                < -limit.value())
        }),
{
    law_absolute_value(c.change.log);
    law_absolute_value(c.change.relative);
    law_absolute_value(Double { bits: 0x4000_0000_0000_0000 });
    law_absolute_value(Double { bits: 0x3F84_7AE1_47AE_147B });
}

/// A single change is a regression exactly where its logarithm is above zero, and an improvement
/// otherwise.
pub proof fn law_direction_of_a_change(c: BenchmarkComparisonView)
    ensures
        c.direction() == if !c.change.log.nan() && c.change.log.value() > 0 {
            Direction::Regression
        } else {
            Direction::Improvement
        },
{
    law_absolute_value(Double { bits: 0 });
}

/// The directions in words.
pub proof fn law_direction_words(direction: Direction)
    ensures
        direction == Direction::Improvement ==> direction.text() == "improvement"@,
        direction == Direction::Regression ==> direction.text() == "regression"@,
        direction == Direction::Mixed ==> direction.text() == "mixed"@,
{
}

/// The words for the size of a change go by the limits 0.10, 0.05, 0.01 and 0.005, each of which
/// belongs to the smaller size. What is not a number is very small.
pub proof fn law_size_words(magnitude: Double)
    ensures
        ({
            let very_large = (Double { bits: 0x3FB9_9999_9999_999A }).value();
            let large = (Double { bits: 0x3FA9_9999_9999_999A }).value();
            let moderate = (Double { bits: 0x3F84_7AE1_47AE_147B }).value();
            let small = (Double { bits: 0x3F74_7AE1_47AE_147B }).value();
            let size = magnitude.value();
            &&& 0 < small < moderate < large < very_large
            &&& magnitude.nan() || size <= small ==> size_text(magnitude) == "Very small"@
            &&& !magnitude.nan() ==> {
                &&& small < size <= moderate ==> size_text(magnitude) == "Small"@
                &&& moderate < size <= large ==> size_text(magnitude) == "Moderate"@
                &&& large < size <= very_large ==> size_text(magnitude) == "Large"@
                &&& very_large < size ==> size_text(magnitude) == "Very large"@
            }
        }),
{
    law_order_by_bits(
        Double { bits: 0x3FB9_9999_9999_999A },
        Double { bits: 0x3FA9_9999_9999_999A },
    );
    law_order_by_bits(
        Double { bits: 0x3FA9_9999_9999_999A },
        Double { bits: 0x3F84_7AE1_47AE_147B },
    );
    law_order_by_bits(
        Double { bits: 0x3F84_7AE1_47AE_147B },
        Double { bits: 0x3F74_7AE1_47AE_147B },
    );
    law_absolute_value(Double { bits: 0x3F74_7AE1_47AE_147B });
    law_order_by_bits(
        Double { bits: 0x3FB9_9999_9999_999A },
        Double { bits: 0x3F74_7AE1_47AE_147B },
    );
}

/// How the line of a change reads: the size and the direction in words, the link where there is
/// one, the percentage, the scenario and the benchmark, and the end of the line.
pub proof fn law_line_reads(c: BenchmarkComparisonView, link: Seq<char>)
    ensures
        c.line_text(None) == size_text(c.change.log.unsigned()) + " "@ + c.direction().text()
            + " in "@ + "instruction counts"@ + " (up to "@ + c.change.percent + "% on `"@
            + c.test_case.scenario.name + "` builds of `"@ + c.test_case.benchmark + "`)\n"@,
        c.line_text(Some(link)) == size_text(c.change.log.unsigned()) + " "@
            + c.direction().text() + " in "@ + ("[instruction counts]("@ + link + ")"@)
            + " (up to "@ + c.change.percent + "% on `"@ + c.test_case.scenario.name
            + "` builds of `"@ + c.test_case.benchmark + "`)\n"@,
{
}

/// What a line says of a change stands in it: its percentage, its scenario and its benchmark,
/// and the link.
pub proof fn law_line_tells(c: BenchmarkComparisonView, link: Option<Seq<char>>)
    ensures
        stands_in(size_text(c.change.log.unsigned()), c.line_text(link)),
        stands_in(c.direction().text(), c.line_text(link)),
        stands_in(c.change.percent, c.line_text(link)),
        stands_in(c.test_case.scenario.name, c.line_text(link)),
        stands_in(c.test_case.benchmark, c.line_text(link)),
        link matches Some(l) ==> stands_in(l, c.line_text(link)),
{
    let text = c.line_text(link);
    let none = Seq::<char>::empty();
    let size = size_text(c.change.log.unsigned());
    let direction = c.direction().text();
    let percent = c.change.percent;
    let scenario = c.test_case.scenario.name;
    let benchmark = c.test_case.benchmark;
    let upto = size + " "@ + direction + " in "@ + subject_text(link) + " (up to "@;
    let end = "`)\n"@;
    let after_scenario = "` builds of `"@ + benchmark + end;
    let after_percent = "% on `"@ + scenario + after_scenario;
    let after_direction = " in "@ + subject_text(link) + " (up to "@ + percent + after_percent;
    assert(none + size + (" "@ + direction + after_direction) =~= text);
    assert((size + " "@) + direction + after_direction =~= text);
    assert(upto + percent + after_percent =~= text);
    assert((upto + percent + "% on `"@) + scenario + after_scenario =~= text);
    assert((upto + percent + "% on `"@ + scenario + "` builds of `"@) + benchmark + end =~= text);
    match link {
        Some(l) => {
            assert((size + " "@ + direction + " in "@ + "[instruction counts]("@) + l + (")"@
                + " (up to "@ + percent + after_percent) =~= text);
        },
        None => {},
    }
}

} // verus!
