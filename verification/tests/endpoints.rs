use perf_compare::api::handle_compare;
use perf_compare::benchmark::{Change, Direction, TestResult};
use perf_compare::cases::{Profile, ProfileKind, Scenario, TestCase};
use perf_compare::commits::{ArtifactId, Bound, Commit, MasterCommit, Time};
use perf_compare::compare::{
    compare_given_commits, join_statistics, request_comparison, CompareError, Selector,
};
use perf_compare::comparison::{ArtifactDescription, Comparison};
use perf_compare::date::Date;
use perf_compare::double::Double;
use perf_compare::report::{
    generate_report, populate_report, render_report, title_needed, PullRequest, Report,
};
use perf_compare::series::SeriesResponse;
use perf_compare::table::Table;
use perf_compare::text::{decimal, joined};
use perf_compare::triage::Triage;
use perf_compare::variance::{BenchmarkVariance, BenchmarkVariances};

fn double(v: f64) -> Double {
    Double::from_bits(v.to_bits())
}

fn case(benchmark: &str) -> TestCase {
    TestCase {
        benchmark: benchmark.to_string(),
        profile: Profile { kind: ProfileKind::Other, name: "opt".to_string() },
        scenario: Scenario { name: "full".to_string(), incremental_patch: None },
    }
}

fn commit(sha: &str) -> ArtifactId {
    ArtifactId::Commit(Commit { sha: sha.to_string(), date: Time { seconds: 3, nanos: 4 } })
}

fn series(benchmark: &str, a: Option<f64>, b: Option<f64>) -> SeriesResponse {
    let points = vec![(commit("a"), a.map(double)), (commit("b"), b.map(double))];
    SeriesResponse::new(case(benchmark), points)
}

fn described(sha: &str, pr: Option<u32>) -> ArtifactDescription {
    ArtifactDescription { artifact: commit(sha), pr, bootstrap: Table::new() }
}

fn with_change(result: TestResult) -> (TestResult, Change) {
    let (a, b) = (f64::from_bits(result.results.0.bits), f64::from_bits(result.results.1.bits));
    let change = Change {
        log: double((b / a).ln()),
        relative: double((b - a) / a),
        percent: format!("{:.1}", (b - a) / a * 100.0),
    };
    (result, change)
}

fn compared(a: &str, b: &str, ratio: f64) -> Comparison {
    let mut responses = vec![series("x", Some(100.0), Some(100.0 * ratio))];
    let results = join_statistics(&mut responses, &None);
    let changed = results.into_iter().map(with_change).collect();
    compare_given_commits(described(a, None), described(b, Some(42)), changed)
}

fn history(n: usize) -> Vec<MasterCommit> {
    (0..n)
        .map(|i| MasterCommit {
            sha: format!("c{}", i + 1),
            parent_sha: format!("c{}", i),
            pr: None,
            time: Time { seconds: 0, nanos: 0 },
        })
        .collect()
}

fn bound(sha: &str) -> Bound {
    Bound::Commit(sha.to_string())
}

#[test]
fn comparisons_are_requested() {
    let stat = "wall-time".to_string();
    let request = request_comparison(bound("a"), Some(commit("a")), Some(commit("b")), stat);
    let request = request.unwrap().unwrap();
    assert_eq!(request.a.name(), "a");
    assert_eq!(request.b.name(), "b");
    assert_eq!(request.aids.len(), 2);
    assert_eq!(request.aids[0].name(), "a");
    assert_eq!(request.aids[1].name(), "b");
    assert!(matches!(request.query.benchmark, Selector::All));
    assert!(matches!(request.query.scenario, Selector::All));
    assert!(matches!(request.query.profile, Selector::All));
    assert!(matches!(request.query.metric, Selector::One(s) if s == "wall-time"));
}

#[test]
fn variance_comes_from_the_commits_before_the_first_artifact() {
    let ask = |a: &str, b: &str| {
        request_comparison(bound(a), Some(commit(a)), Some(commit(b)), "s".to_string())
    };
    let request = ask("c3", "c5").unwrap().unwrap();
    let names: Vec<String> = request
        .variance_commits(&history(6))
        .iter()
        .map(|c| c.name().to_string())
        .collect();
    assert_eq!(names, ["c2", "c1"]);
    assert!(ask("c1", "c5").unwrap().unwrap().variance_commits(&history(6)).is_empty());
}

#[test]
fn bounds_without_an_artifact() {
    let ask = |a: Option<ArtifactId>, b: Option<ArtifactId>| {
        request_comparison(bound("start"), a, b, "s".to_string())
    };
    assert!(ask(Some(commit("a")), None).unwrap().is_none());
    match ask(None, Some(commit("b"))) {
        Err(CompareError::StartNotFound(b)) => assert!(b.same(&bound("start"))),
        _ => panic!("an error"),
    }
    assert!(ask(None, None).is_err());
}

#[test]
fn results_are_joined_by_test_case() {
    let mut data: Table<TestCase, BenchmarkVariance> = Table::new();
    let mut variance = BenchmarkVariance::default();
    variance.push(double(9.0));
    data.insert(case("x"), variance);
    let mut responses = vec![
        series("x", Some(1.0), Some(2.0)),
        series("only a", Some(3.0), None),
        series("only b", None, Some(4.0)),
        series("y", Some(5.0), Some(6.0)),
    ];
    let results = join_statistics(&mut responses, &Some(BenchmarkVariances { data }));
    assert_eq!(results.len(), 2);
    for result in results {
        if result.test_case.benchmark == "x" {
            assert_eq!(result.results, (double(1.0), double(2.0)));
            assert_eq!(result.variance.unwrap().data(), &vec![double(9.0)]);
        } else {
            assert_eq!(result.test_case.benchmark, "y");
            assert_eq!(result.results, (double(5.0), double(6.0)));
            assert!(result.variance.is_none());
        }
    }
    assert_eq!(responses[0].remaining(), 0);
}

#[test]
fn comparison_has_each_test_case_once() {
    let mut responses = vec![
        series("x", Some(1.0), Some(2.0)),
        series("x", Some(3.0), Some(4.0)),
    ];
    let results = join_statistics(&mut responses, &None);
    let changed = results.into_iter().map(with_change).collect();
    let comparison = compare_given_commits(described("a", None), described("b", None), changed);
    assert_eq!(comparison.statistics.len(), 1);
    assert_eq!(comparison.statistics.get(0).results(), (double(3.0), double(4.0)));
}

#[test]
fn first_result_of_a_test_case_counts() {
    let result = |benchmark: &str, a: f64, b: f64| {
        let results = (double(a), double(b));
        with_change(TestResult { test_case: case(benchmark), variance: None, results })
    };
    let results = vec![result("x", 1.0, 2.0), result("y", 3.0, 4.0), result("x", 5.0, 6.0)];
    let comparison = compare_given_commits(described("a", None), described("b", None), results);
    assert_eq!(comparison.statistics.len(), 2);
    assert_eq!(comparison.statistics.get(0).results(), (double(1.0), double(2.0)));
    assert_eq!(comparison.statistics.get(1).results(), (double(3.0), double(4.0)));
}

#[test]
fn comparisons_are_answered() {
    let mut data: Table<TestCase, BenchmarkVariance> = Table::new();
    let mut variance = BenchmarkVariance::default();
    variance.push(double(9.0));
    variance.push(double(18.0));
    variance.calculate_description(double(50.0), double(0.0));
    data.insert(case("x"), variance);
    let mut responses = vec![series("x", Some(100.0), Some(120.0)), series("y", Some(1.0), Some(1.0))];
    let results = join_statistics(&mut responses, &Some(BenchmarkVariances { data }));
    let changed = results.into_iter().map(with_change).collect();
    let mut b = described("c3", Some(42));
    b.bootstrap.insert("rustc_span".to_string(), 5);
    let comparison = compare_given_commits(described("c2", None), b, changed);
    let answer = handle_compare(Some(comparison), bound("c3"), &history(4), &None).unwrap();
    assert_eq!(answer.prev, Some("c1".to_string()));
    assert_eq!(answer.next, Some("c4".to_string()));
    assert!(answer.is_contiguous);
    assert_eq!(answer.a.commit, "c2");
    assert_eq!(answer.a.date, Some(Time { seconds: 3, nanos: 4 }));
    assert_eq!(answer.a.pr, None);
    assert_eq!(answer.b.pr, Some(42));
    assert_eq!(answer.b.bootstrap.get(&"rustc_span".to_string()), Some(&5));
    assert_eq!(answer.comparisons.len(), 2);
    for entry in answer.comparisons {
        assert_eq!(entry.profile, "opt");
        assert_eq!(entry.scenario, "full");
        if entry.benchmark == "x" {
            assert!(entry.is_dodgy);
            assert!(entry.is_significant);
            assert_eq!(entry.historical_statistics, Some(vec![double(9.0), double(18.0)]));
            assert_eq!(entry.statistics, (double(100.0), double(120.0)));
        } else {
            assert!(!entry.is_dodgy);
            assert!(!entry.is_significant);
            assert_eq!(entry.historical_statistics, None);
        }
    }
}

#[test]
fn tags_are_answered_without_a_date() {
    let mut comparison = compared("c1", "c2", 1.0);
    comparison.a.artifact = ArtifactId::Tag("1.50.0".to_string());
    let answer = handle_compare(Some(comparison), bound("c2"), &history(4), &None).unwrap();
    assert_eq!(answer.a.commit, "1.50.0");
    assert_eq!(answer.a.date, None);
    assert_eq!(answer.prev, None);
    assert!(!answer.is_contiguous);
}

#[test]
fn missing_end_is_an_error() {
    match handle_compare(None, bound("end"), &history(4), &None) {
        Err(CompareError::EndNotFound(b)) => assert!(b.same(&bound("end"))),
        _ => panic!("an error"),
    }
}

#[test]
fn numbers_and_lists_are_written() {
    assert_eq!(decimal(0), "0");
    assert_eq!(decimal(1234567890), "1234567890");
    assert_eq!(decimal(u64::MAX), u64::MAX.to_string());
    let parts = |p: &[&str]| p.iter().map(|s| s.to_string()).collect::<Vec<String>>();
    assert_eq!(joined(&parts(&[]), ", "), "");
    assert_eq!(joined(&parts(&["a"]), ", "), "a");
    assert_eq!(joined(&parts(&["a", "", "b"]), ", "), "a, , b");
}

#[test]
fn only_changes_that_count_are_reported() {
    assert_eq!(title_needed(&compared("a", "b", 1.2)), Some(42));
    assert_eq!(title_needed(&compared("a", "b", 1.0)), None);
    let mut unknown = compared("a", "b", 1.2);
    unknown.b.pr = None;
    assert_eq!(title_needed(&unknown), None);
    let mut report = Report::new();
    populate_report(&compared("a", "b", 1.0), &mut report, "quiet");
    populate_report(&compared("a", "b", 1.2), &mut report, "loud");
    populate_report(&compared("a", "b", 0.8), &mut report, "good");
    let day = Date::new(2021, 3, 9).unwrap();
    let text = render_report(day, &bound("a"), &bound("b"), &report, &Ok(Vec::new()));
    assert!(text.contains("1 Regressions, 1 Improvements, 0 Mixed;"));
    assert!(text.contains("#### Regressions\n\nloud [#42]"));
    assert!(text.contains("#### Improvements\n\ngood [#42]"));
    assert!(!text.contains("quiet"));
}

#[test]
fn report_is_markdown() {
    let mut report = Report::new();
    report.push(Direction::Regression, "r1".to_string());
    report.push(Direction::Regression, "r2".to_string());
    report.push(Direction::Mixed, "m1".to_string());
    let untriaged = Ok(vec![
        PullRequest { title: "One".to_string(), number: 1 },
        PullRequest { title: "Two".to_string(), number: 22 },
    ]);
    let day = Date::new(2021, 3, 9).unwrap();
    let text = render_report(day, &bound("aaa"), &Bound::Date(day), &report, &untriaged);
    assert_eq!(
        text,
        r#"# 2021-03-09 Triage Log

TODO: Summary

Triage done by **@???**.
Revision range: [aaa..2021-03-09](https://perf.rust-lang.org/?start=aaa&end=2021-03-09&absolute=false&stat=instructions%3Au)

2 Regressions, 0 Improvements, 1 Mixed; ??? of them in rollups

#### Regressions

r1

r2

#### Improvements



#### Mixed

m1

#### Untriaged Pull Requests

- [#1 One](https://github.com/rust-lang/rust/pull/1)
- [#22 Two](https://github.com/rust-lang/rust/pull/22)

#### Nags requiring follow up

TODO: Nags

"#
    );
}

#[test]
fn report_tells_why_the_list_is_missing() {
    let failed = Err("timeout".to_string());
    let text = generate_report(&bound("a"), &Bound::Unbounded, &Report::new(), &failed);
    assert!(text.contains(
        "#### Untriaged Pull Requests\n\n\
         An **error** occurred when finding the untriaged PRs: timeout\n\n"
    ));
    assert!(text.contains("[a..???]"));
    assert!(text.starts_with("# 20"));
}

#[test]
fn triage_goes_from_commit_to_commit() {
    let h = history(4);
    let begun = Triage::begin(bound("c1"), Some(bound("c3")), Some(commit("c1")), &h);
    let mut triage = match begun {
        Ok(triage) => triage,
        Err(_) => panic!("a triage"),
    };
    assert_eq!(triage.stat(), "instructions:u");
    let (before, next) = triage.bounds();
    assert!(before.same(&bound("c1")) && next.same(&bound("c2")));
    assert!(triage.step(Some(&compared("c1", "c2", 1.5)), "first", &h));
    let (before, next) = triage.bounds();
    assert!(before.same(&bound("c2")) && next.same(&bound("c3")));
    assert!(!triage.step(Some(&compared("c2", "c3", 1.5)), "second", &h));
    let text = triage.finish(&Ok(Vec::new()));
    assert!(text.contains("Revision range: [c1..c3]"));
    assert!(text.contains("2 Regressions, 0 Improvements, 0 Mixed;"));
    assert!(text.contains("first [#42]") && text.contains("second [#42]"));
}

#[test]
fn triage_ends_without_a_next_commit_or_data() {
    let h = history(3);
    let begin = || match Triage::begin(bound("c1"), None, Some(commit("c1")), &h) {
        Ok(triage) => triage,
        Err(_) => panic!("a triage"),
    };
    let mut to_the_end = begin();
    assert!(to_the_end.step(Some(&compared("c1", "c2", 1.0)), "", &h));
    assert!(!to_the_end.step(Some(&compared("c2", "c3", 1.0)), "", &h));
    let text = to_the_end.finish(&Ok(Vec::new()));
    assert!(text.contains("[c1..c3]"));
    let mut no_data = begin();
    assert!(!no_data.step(None, "", &h));
    assert!(no_data.finish(&Ok(Vec::new())).contains("[c1..c2]"));
}

#[test]
fn triage_walks_the_chain_and_keeps_the_order() {
    let h = history(6);
    let mut triage = match Triage::begin(bound("c1"), Some(bound("c5")), Some(commit("c1")), &h) {
        Ok(triage) => triage,
        Err(_) => panic!("a triage"),
    };
    let changes = [("one", 1.5), ("two", 0.5), ("three", 1.2), ("four", 0.8)];
    for (i, (title, ratio)) in changes.iter().enumerate() {
        let (a, b) = (format!("c{}", i + 1), format!("c{}", i + 2));
        let (before, next) = triage.bounds();
        assert!(before.same(&bound(&a)) && next.same(&bound(&b)));
        assert_eq!(triage.step(Some(&compared(&a, &b, *ratio)), title, &h), i < 3);
    }
    let text = triage.finish(&Ok(Vec::new()));
    assert!(text.contains("Revision range: [c1..c5]"));
    assert!(text.contains("2 Regressions, 2 Improvements, 0 Mixed;"));
    let at = |title: &str| text.find(&format!("{} [#42]", title)).unwrap();
    assert!(at("one") < at("three"));
    assert!(at("three") < at("two"));
    assert!(at("two") < at("four"));
}

#[test]
fn errors_have_a_message() {
    assert_eq!(
        CompareError::StartNotFound(bound("x")).message("Commit(\"x\")"),
        "could not find start commit for bound Commit(\"x\")"
    );
    assert_eq!(
        CompareError::EndNotFound(Bound::Unbounded).message("None"),
        "could not find end commit for bound None"
    );
}

#[test]
fn triage_needs_a_start() {
    match Triage::begin(bound("x"), None, None, &history(3)) {
        Err(CompareError::StartNotFound(b)) => assert!(b.same(&bound("x"))),
        _ => panic!("an error"),
    }
}
