use std::collections::hash_map::DefaultHasher;
use std::collections::HashSet;
use std::hash::{Hash, Hasher};

use perf_compare::benchmark::{BenchmarkComparison, Change, Direction, TestResult};
use perf_compare::cases::{Profile, ProfileKind, Scenario, TestCase};
use perf_compare::commits::{ArtifactId, Commit, MasterCommit, Time};
use perf_compare::comparison::{unlisted_sha, ArtifactDescription, Comparison, Duration};
use perf_compare::double::Double;
use perf_compare::statistics::Statistics;
use perf_compare::summary::ComparisonSummary;
use perf_compare::table::Table;

fn double(v: f64) -> Double {
    Double::from_bits(v.to_bits())
}

fn change(a: f64, b: f64) -> Change {
    Change {
        log: double((b / a).ln()),
        relative: double((b - a) / a),
        percent: format!("{:.1}", (b - a) / a * 100.0),
    }
}

fn case(benchmark: &str, kind: ProfileKind, patch: Option<&str>) -> TestCase {
    TestCase {
        benchmark: benchmark.to_string(),
        profile: Profile { kind, name: "profile".to_string() },
        scenario: Scenario {
            name: match patch {
                Some(p) => format!("incr-patched: {}", p),
                None => "full".to_string(),
            },
            incremental_patch: patch.map(|p| p.to_string()),
        },
    }
}

fn compared(test_case: TestCase, a: f64, b: f64) -> BenchmarkComparison {
    let result = TestResult { test_case, variance: None, results: (double(a), double(b)) };
    BenchmarkComparison::new(result, change(a, b))
}

fn plain(benchmark: &str, a: f64, b: f64) -> BenchmarkComparison {
    compared(case(benchmark, ProfileKind::Other, None), a, b)
}

fn doc(benchmark: &str, a: f64, b: f64) -> BenchmarkComparison {
    compared(case(benchmark, ProfileKind::Doc, None), a, b)
}

fn volatile(a: f64, b: f64) -> BenchmarkComparison {
    compared(case("coercions", ProfileKind::Debug, Some("println")), a, b)
}

fn commit(sha: &str) -> ArtifactId {
    ArtifactId::Commit(Commit { sha: sha.to_string(), date: Time { seconds: 0, nanos: 0 } })
}

fn described(artifact: ArtifactId, pr: Option<u32>) -> ArtifactDescription {
    ArtifactDescription { artifact, pr, bootstrap: Table::new() }
}

fn comparison(benchmarks: Vec<BenchmarkComparison>) -> Comparison {
    let mut statistics = Statistics::new();
    for benchmark in benchmarks {
        assert!(statistics.insert(benchmark));
    }
    Comparison {
        a: described(commit("aaa"), Some(1)),
        b: described(commit("bbb"), Some(123)),
        statistics,
    }
}

fn summarize(statistics: Vec<BenchmarkComparison>) -> Option<ComparisonSummary> {
    ComparisonSummary::summarize_comparison(&comparison(statistics))
}

fn names(summary: &ComparisonSummary) -> Vec<String> {
    summary.ordered_changes().iter().map(|c| c.test_case().benchmark.clone()).collect()
}

#[test]
fn increases_are_told() {
    assert!(plain("x", 100.0, 100.5).is_increase());
    assert!(!plain("x", 100.0, 100.0).is_increase());
    assert!(!plain("x", 100.0, 99.0).is_increase());
    assert!(!plain("x", f64::NAN, 99.0).is_increase());
}

#[test]
fn significance_depends_on_the_logarithm() {
    assert!(plain("x", 100.0, 101.1).is_significant());
    assert!(!plain("x", 100.0, 101.0).is_significant());
    assert!(plain("x", 100.0, 98.9).is_significant());
    assert!(!plain("x", 100.0, f64::NAN).is_significant());
}

#[test]
fn volatile_test_case_needs_a_large_change() {
    assert!(!volatile(100.0, 290.0).is_significant());
    assert!(!volatile(100.0, 300.0).is_significant());
    assert!(volatile(100.0, 301.0).is_significant());
    let other_patch = compared(case("coercions", ProfileKind::Debug, Some("x")), 100.0, 120.0);
    assert!(other_patch.is_significant());
    let other_profile = compared(case("coercions", ProfileKind::Other, Some("println")), 1.0, 1.2);
    assert!(other_profile.is_significant());
    let no_patch = compared(case("coercions", ProfileKind::Debug, None), 1.0, 1.2);
    assert!(no_patch.is_significant());
}

#[test]
fn comparisons_are_equal_by_test_case() {
    assert!(plain("x", 1.0, 2.0) == plain("x", 3.0, 4.0));
    assert!(plain("x", 1.0, 2.0) != plain("y", 1.0, 2.0));
    assert!(plain("x", 1.0, 2.0) != doc("x", 1.0, 2.0));
}

fn hash_of(comparison: &BenchmarkComparison) -> u64 {
    let mut hasher = DefaultHasher::new();
    comparison.hash(&mut hasher);
    hasher.finish()
}

#[test]
fn equal_comparisons_hash_alike() {
    assert_eq!(hash_of(&plain("x", 1.0, 2.0)), hash_of(&plain("x", 3.0, 4.0)));
    assert_ne!(hash_of(&plain("x", 1.0, 2.0)), hash_of(&plain("y", 1.0, 2.0)));
    assert_ne!(hash_of(&plain("x", 1.0, 2.0)), hash_of(&doc("x", 1.0, 2.0)));
    let set: HashSet<BenchmarkComparison> =
        [plain("x", 1.0, 2.0), plain("x", 3.0, 4.0), doc("x", 1.0, 2.0)].into_iter().collect();
    assert_eq!(set.len(), 2);
}

#[test]
fn hashes_are_made_of_the_test_case() {
    let patched = case("coercions", ProfileKind::Debug, Some("println"));
    assert_eq!(
        patched.hashed_texts(),
        ["coercions", "debug", "profile", "incr-patched: println", "println"]
    );
    assert_eq!(
        case("x", ProfileKind::Doc, None).hashed_texts(),
        ["x", "doc", "profile", "full"]
    );
    assert_eq!(ProfileKind::Other.as_str(), "other");
}

#[test]
fn statistics_hold_each_test_case_once() {
    let mut statistics = Statistics::new();
    assert_eq!(statistics.len(), 0);
    assert!(!statistics.contains(&plain("x", 1.0, 2.0)));
    assert!(statistics.insert(plain("x", 1.0, 2.0)));
    assert!(statistics.insert(doc("x", 3.0, 4.0)));
    assert!(!statistics.insert(plain("x", 5.0, 6.0)));
    assert_eq!(statistics.len(), 2);
    assert!(statistics.contains(&plain("x", 7.0, 8.0)));
    assert_eq!(statistics.get(0).results(), (double(1.0), double(2.0)));
    assert_eq!(statistics.get(1).results(), (double(3.0), double(4.0)));
}

#[test]
fn directions_are_written() {
    assert_eq!(Direction::Improvement.as_str(), "improvement");
    assert_eq!(Direction::Regression.as_str(), "regression");
    assert_eq!(Direction::Mixed.as_str(), "mixed");
    assert_eq!(plain("x", 1.0, 1.5).direction(), Direction::Regression);
    assert_eq!(plain("x", 1.0, 1.0).direction(), Direction::Improvement);
    assert_eq!(plain("x", 1.0, 0.5).direction(), Direction::Improvement);
}

#[test]
fn lines_tell_the_change() {
    let line = |b: f64, link: Option<&str>| {
        let mut text = "> ".to_string();
        plain("serde", 100.0, b).summary_line(&mut text, link);
        text
    };
    assert_eq!(
        line(120.0, None),
        "> Very large regression in instruction counts (up to 20.0% on `full` builds of `serde`)\n"
    );
    assert_eq!(
        line(94.0, Some("http://x")),
        "> Large improvement in [instruction counts](http://x) \
         (up to -6.0% on `full` builds of `serde`)\n"
    );
    assert!(line(102.0, None).starts_with("> Moderate regression in "));
    assert!(line(100.7, None).starts_with("> Small regression in "));
    assert!(line(100.1, None).starts_with("> Very small regression in "));
    assert!(line(100.0, None).starts_with("> Very small improvement in "));
}

#[test]
fn summary_of_nothing_is_none() {
    assert!(summarize(Vec::new()).is_none());
    assert!(summarize(vec![doc("d", 1.0, 2.0)]).is_none());
}

#[test]
fn insignificant_changes_have_no_direction() {
    let summary = summarize(vec![plain("x", 100.0, 100.5), plain("y", 100.0, 99.5)]).unwrap();
    assert!(summary.direction().is_none());
    assert!(summary.ordered_changes().is_empty());
}

#[test]
fn summary_picks_the_extremes() {
    let summary = summarize(vec![
        plain("small", 100.0, 102.0),
        plain("large", 100.0, 110.0),
        plain("better", 100.0, 97.0),
        plain("best", 100.0, 80.0),
        doc("ignored", 100.0, 900.0),
    ])
    .unwrap();
    assert_eq!(summary.direction(), Some(Direction::Mixed));
    assert_eq!(names(&summary), ["best", "large"]);
}

#[test]
fn larger_change_comes_first() {
    let first_up = summarize(vec![plain("up", 100.0, 130.0), plain("down", 100.0, 95.0)]).unwrap();
    assert_eq!(names(&first_up), ["up", "down"]);
    let first_down = summarize(vec![plain("up", 100.0, 102.0), plain("down", 100.0, 90.0)]).unwrap();
    assert_eq!(names(&first_down), ["down", "up"]);
}

#[test]
fn one_sided_summaries() {
    let up = summarize(vec![plain("x", 100.0, 102.0), plain("y", 100.0, 103.0)]).unwrap();
    assert_eq!(up.direction(), Some(Direction::Regression));
    assert_eq!(names(&up), ["y"]);
    let down = summarize(vec![plain("x", 100.0, 98.0)]).unwrap();
    assert_eq!(down.direction(), Some(Direction::Improvement));
    assert_eq!(names(&down), ["x"]);
}

#[test]
fn ties_go_to_the_first_low_and_the_last_high() {
    let summary = summarize(vec![
        plain("low1", 100.0, 50.0),
        plain("high1", 100.0, 200.0),
        plain("low2", 100.0, 50.0),
        plain("high2", 100.0, 200.0),
    ])
    .unwrap();
    let found = names(&summary);
    assert!(found.contains(&"low1".to_string()));
    assert!(found.contains(&"high2".to_string()));
}

#[test]
fn volatile_extreme_can_hide_an_increase() {
    let summary = summarize(vec![plain("x", 100.0, 110.0), volatile(100.0, 250.0)]).unwrap();
    assert!(summary.direction().is_none());
}

#[test]
fn entries_have_a_heading_and_lines() {
    let c = comparison(vec![plain("x", 100.0, 150.0), plain("y", 100.0, 90.0)]);
    let summary = ComparisonSummary::summarize_comparison(&c).unwrap();
    let link = "https://perf.rust-lang.org/compare.html?start=aaa&end=bbb&stat=instructions:u";
    assert_eq!(
        summary.write(&c, "Make it fast"),
        format!(
            "Make it fast [#123](https://github.com/rust-lang/rust/issues/123)\n\
             - Very large regression in [instruction counts]({}) \
             (up to 50.0% on `full` builds of `x`)\n\
             - Very large improvement in [instruction counts]({}) \
             (up to -10.0% on `full` builds of `y`)\n",
            link, link
        )
    );
}

#[test]
fn entries_without_a_pull_request() {
    let mut c = comparison(vec![plain("x", 100.0, 100.0)]);
    c.b.pr = None;
    let summary = ComparisonSummary::summarize_comparison(&c).unwrap();
    assert_eq!(summary.write(&c, "unused"), "<Unknown Change>\n");
}

fn history() -> Vec<MasterCommit> {
    let master = |sha: &str, parent: &str, pr: Option<u32>| MasterCommit {
        sha: sha.to_string(),
        parent_sha: parent.to_string(),
        pr,
        time: Time { seconds: 0, nanos: 0 },
    };
    vec![master("ccc", "bbb", None), master("bbb", "aaa", Some(7)), master("aaa", "root", None)]
}

#[test]
fn neighbours_of_a_comparison() {
    let c = comparison(Vec::new());
    assert_eq!(c.prev(&history()), None);
    assert_eq!(c.next(&history()), Some("ccc".to_string()));
    let mut later = comparison(Vec::new());
    later.a.artifact = commit("bbb");
    assert_eq!(later.prev(&history()), Some("aaa".to_string()));
}

#[test]
fn contiguous_artifacts() {
    let c = comparison(Vec::new());
    assert!(c.is_contiguous(&history(), &None));
    assert_eq!(c.unlisted_parent(&history()), None);
    let mut gap = comparison(Vec::new());
    gap.b.artifact = commit("ccc");
    assert!(!gap.is_contiguous(&history(), &Some("aaa".to_string())));
    let mut unlisted = comparison(Vec::new());
    unlisted.b.artifact = commit("try");
    assert_eq!(unlisted.unlisted_parent(&history()), Some("try".to_string()));
    assert!(unlisted.is_contiguous(&history(), &Some("aaa".to_string())));
    assert!(!unlisted.is_contiguous(&history(), &Some("bbb".to_string())));
    assert!(!unlisted.is_contiguous(&history(), &None));
    let mut tagged = comparison(Vec::new());
    tagged.a.artifact = ArtifactId::Tag("aaa".to_string());
    assert!(!tagged.is_contiguous(&history(), &None));
    tagged.b.artifact = commit("try");
    assert_eq!(tagged.unlisted_parent(&history()), None);
}

#[test]
fn artifacts_are_described() {
    let time = |secs: u64, subsec_nanos: u32| Some(Duration { secs, subsec_nanos });
    let mut times: Table<String, Vec<Option<Duration>>> = Table::new();
    times.insert("rustc_span".to_string(), vec![time(9, 0), time(1, 500)]);
    times.insert("short".to_string(), vec![time(2, 0), time(0, 999_999_999)]);
    times.insert("missing".to_string(), vec![time(2, 0), None]);
    times.insert("none".to_string(), Vec::new());
    times.insert("huge".to_string(), vec![time(u64::MAX, 0)]);
    let d = ArtifactDescription::for_artifact(commit("bbb"), &times, &history(), Some(5));
    assert_eq!(d.pr, Some(7));
    assert_eq!(d.artifact.name(), "bbb");
    assert_eq!(d.bootstrap.len(), 2);
    assert_eq!(d.bootstrap.get(&"rustc_span".to_string()), Some(&1_000_000_500));
    let huge = (u64::MAX as u128 * 1_000_000_000) as u64;
    assert_eq!(d.bootstrap.get(&"huge".to_string()), Some(&huge));
    assert_eq!(d.clone().bootstrap.len(), 2);
}

#[test]
fn pull_requests_of_artifacts() {
    let times: Table<String, Vec<Option<Duration>>> = Table::new();
    let pr = |artifact: ArtifactId| {
        ArtifactDescription::for_artifact(artifact, &times, &history(), Some(5)).pr
    };
    assert_eq!(pr(commit("aaa")), None);
    assert_eq!(pr(commit("try")), Some(5));
    assert_eq!(pr(ArtifactId::Tag("1.50.0".to_string())), None);
    assert_eq!(unlisted_sha(&commit("aaa"), &history()), None);
    assert_eq!(unlisted_sha(&commit("try"), &history()), Some("try".to_string()));
    assert_eq!(unlisted_sha(&ArtifactId::Tag("try".to_string()), &history()), None);
}
