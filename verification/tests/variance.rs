use perf_compare::cases::{Profile, ProfileKind, Scenario, TestCase};
use perf_compare::commits::{ArtifactId, Commit, MasterCommit, Time};
use perf_compare::double::Double;
use perf_compare::series::{points_are_of, statistics_from_series, SeriesResponse};
use perf_compare::table::Table;
use perf_compare::variance::{
    BenchmarkVariance, BenchmarkVarianceDescription, BenchmarkVariances,
};

fn double(v: f64) -> Double {
    Double::from_bits(v.to_bits())
}

fn doubles(values: &[f64]) -> Vec<Double> {
    values.iter().map(|v| double(*v)).collect()
}

fn case(benchmark: &str) -> TestCase {
    TestCase {
        benchmark: benchmark.to_string(),
        profile: Profile { kind: ProfileKind::Other, name: "opt".to_string() },
        scenario: Scenario { name: "full".to_string(), incremental_patch: None },
    }
}

fn artifact(i: usize) -> ArtifactId {
    let date = Time { seconds: 0, nanos: 0 };
    ArtifactId::Commit(Commit { sha: format!("c{}", i), date })
}

fn series(benchmark: &str, values: &[Option<f64>]) -> SeriesResponse {
    let points = values.iter().enumerate().map(|(i, v)| (artifact(i), v.map(double))).collect();
    SeriesResponse::new(case(benchmark), points)
}

#[test]
fn tables_keep_one_value_per_key() {
    let mut table: Table<String, u64> = Table::new();
    assert_eq!(table.len(), 0);
    assert_eq!(table.insert("a".to_string(), 1), None);
    assert_eq!(table.insert("b".to_string(), 2), None);
    assert_eq!(table.insert("a".to_string(), 3), Some(1));
    assert_eq!(table.len(), 2);
    assert_eq!(table.get(&"a".to_string()), Some(&3));
    assert_eq!(table.get(&"b".to_string()), Some(&2));
    assert_eq!(table.get(&"c".to_string()), None);
    assert_eq!(table.entry(0), (&"a".to_string(), &3));
    let copy = table.clone();
    assert_eq!(copy.get(&"a".to_string()), Some(&3));
    assert_eq!(copy.len(), 2);
}

#[test]
fn points_are_taken_one_after_the_other() {
    let mut all = vec![
        series("a", &[Some(1.0), None, Some(3.0)]),
        series("b", &[None, Some(5.0), Some(6.0)]),
        series("a", &[Some(7.0), Some(8.0), None]),
    ];
    let first = statistics_from_series(&mut all);
    assert_eq!(first.len(), 1);
    assert_eq!(first.get(&case("a")), Some(&double(7.0)));
    assert_eq!(first.get(&case("b")), None);
    let second = statistics_from_series(&mut all);
    assert_eq!(second.get(&case("a")), Some(&double(8.0)));
    assert_eq!(second.get(&case("b")), Some(&double(5.0)));
    assert_eq!(all[0].remaining(), 1);
    let third = statistics_from_series(&mut all);
    assert_eq!(third.get(&case("a")), Some(&double(3.0)));
    assert_eq!(all[0].remaining(), 0);
}

#[test]
fn points_belong_to_artifacts() {
    let mut all = vec![series("a", &[Some(1.0), None]), series("b", &[None, Some(2.0)])];
    assert!(points_are_of(&all, &[]));
    assert!(points_are_of(&all, &[artifact(0)]));
    assert!(points_are_of(&all, &[artifact(0), artifact(1)]));
    assert!(!points_are_of(&all, &[artifact(1), artifact(0)]));
    assert!(!points_are_of(&all, &[artifact(0), artifact(1), artifact(2)]));
    assert!(!points_are_of(&all, &[ArtifactId::Tag("c0".to_string())]));
    statistics_from_series(&mut all);
    assert!(points_are_of(&all, &[artifact(1)]));
    assert!(!points_are_of(&all, &[artifact(0)]));
    all.push(SeriesResponse::new(case("c"), vec![(artifact(7), None)]));
    assert!(!points_are_of(&all, &[artifact(1)]));
    assert!(points_are_of(&Vec::new(), &[artifact(3)]));
}

#[test]
fn artifacts_are_the_same_in_all_parts() {
    let commit = |sha: &str, seconds: i64| {
        let date = Time { seconds, nanos: 0 };
        ArtifactId::Commit(Commit { sha: sha.to_string(), date })
    };
    assert!(commit("a", 1).same(&commit("a", 1)));
    assert!(!commit("a", 1).same(&commit("a", 2)));
    assert!(!commit("a", 1).same(&commit("b", 1)));
    assert!(!commit("a", 1).same(&ArtifactId::Tag("a".to_string())));
    assert!(ArtifactId::Tag("a".to_string()).same(&ArtifactId::Tag("a".to_string())));
}

fn variance(values: &[f64]) -> BenchmarkVariance {
    let mut variance = BenchmarkVariance::default();
    for v in values {
        variance.push(double(*v));
    }
    variance
}

fn pairs(values: &[(f64, f64)]) -> Vec<(Double, Double)> {
    values.iter().map(|(a, b)| (double(*a), double(*b))).collect()
}

#[test]
fn table_entries_stay_in_the_order_of_their_keys() {
    let mut table: Table<String, u64> = Table::new();
    for (key, value) in [("b", 1), ("a", 2), ("c", 3), ("a", 4), ("b", 5)] {
        table.insert(key.to_string(), value);
    }
    let entries: Vec<(&str, u64)> = (0..table.len())
        .map(|i| (table.entry(i).0.as_str(), *table.entry(i).1))
        .collect();
    assert_eq!(entries, [("b", 5), ("a", 4), ("c", 3)]);
}

#[test]
fn deltas_are_sorted_by_size() {
    let results = variance(&[10.0, 20.0, 30.0, 40.0, 50.0, 60.0]);
    let sorted = results.sorted_deltas(&doubles(&[3.0, -1.0, 2.0, -0.0, -1.0]));
    assert_eq!(
        sorted,
        pairs(&[(0.0, 40.0), (1.0, 20.0), (1.0, 50.0), (2.0, 30.0), (3.0, 10.0)])
    );
    assert!(results.sorted_deltas(&Vec::new()).is_empty());
    let with_nan = results.sorted_deltas(&doubles(&[2.0, f64::NAN, 1.0]));
    assert_eq!(with_nan.len(), 3);
    let few = variance(&[5.0]).sorted_deltas(&doubles(&[2.0, 1.0]));
    assert_eq!(few, pairs(&[(2.0, 5.0)]));
}

#[test]
fn all_changes_below_the_threshold_are_not_significant() {
    let left = |values: &[(f64, f64)]| BenchmarkVariance::non_significant(&pairs(values));
    assert_eq!(left(&[]), doubles(&[]));
    assert_eq!(left(&[(1.0, 0.5), (2.0, 0.001), (3.0, 665.0)]), doubles(&[2.0]));
    assert_eq!(
        left(&[(1.0, 0.001), (2.0, 0.0099), (3.0, 0.01), (4.0, 0.002)]),
        doubles(&[1.0, 2.0, 4.0])
    );
    assert_eq!(left(&[(1.0, f64::NAN), (2.0, 0.001)]), doubles(&[2.0]));
}

#[test]
fn changes_are_held_against_the_result_that_they_start_from() {
    let results = variance(&[1.0, 1000.0, 1005.0]);
    let deltas = results.sorted_deltas(&doubles(&[-999.0, -5.0]));
    assert_eq!(deltas, pairs(&[(5.0, 1000.0), (999.0, 1.0)]));
    let changes = deltas
        .iter()
        .map(|(d, r)| (*d, double(f64::from_bits(d.bits) / f64::from_bits(r.bits))))
        .collect();
    assert_eq!(BenchmarkVariance::non_significant(&changes), doubles(&[5.0]));
}

#[test]
fn variances_are_described() {
    let describe = |significant: f64, change: f64| {
        let mut results = variance(&[1.0, 2.0]);
        results.calculate_description(double(significant), double(change));
        assert_eq!(results.data(), &doubles(&[1.0, 2.0]));
        (results.description(), results.is_dodgy())
    };
    assert_eq!(describe(5.0, 0.1), (BenchmarkVarianceDescription::Normal, false));
    assert_eq!(
        describe(5.5, 0.2),
        (BenchmarkVarianceDescription::HighlyVariable(double(5.5)), true)
    );
    assert_eq!(describe(5.0, 0.2), (BenchmarkVarianceDescription::Noisy(double(0.2)), true));
    assert_eq!(describe(f64::NAN, f64::NAN), (BenchmarkVarianceDescription::Normal, false));
    assert_eq!(BenchmarkVarianceDescription::default(), BenchmarkVarianceDescription::Normal);
    assert!(!BenchmarkVariance::default().is_dodgy());
}

#[test]
fn describing_again_changes_nothing() {
    let mut results = variance(&[1.0, 2.0]);
    results.calculate_description(double(50.0), double(0.0));
    results.calculate_description(double(1.0), double(0.5));
    assert_eq!(results.description(), BenchmarkVarianceDescription::Noisy(double(0.5)));
    results.calculate_description(double(1.0), double(0.5));
    assert_eq!(results.description(), BenchmarkVarianceDescription::Noisy(double(0.5)));
}

#[test]
fn results_without_a_change_are_normal() {
    for values in [&[][..], &[7.0][..]] {
        let mut results = variance(values);
        results.calculate_description(double(100.0), double(100.0));
        assert_eq!(results.description(), BenchmarkVarianceDescription::Normal);
        assert_eq!(results.data(), &doubles(values));
    }
}

#[test]
fn every_test_case_is_described() {
    let mut data: Table<TestCase, BenchmarkVariance> = Table::new();
    for benchmark in ["c", "a", "b"] {
        data.insert(case(benchmark), variance(&[1.0, 2.0]));
    }
    let mut variances = BenchmarkVariances { data };
    variances.describe_all(&pairs(&[(5.0, 0.1), (60.0, 0.1), (0.0, 0.3)]));
    let described: Vec<(&str, BenchmarkVarianceDescription)> = (0..variances.data.len())
        .map(|i| variances.data.entry(i))
        .map(|(case, variance)| (case.benchmark.as_str(), variance.description()))
        .collect();
    assert_eq!(
        described,
        [
            ("c", BenchmarkVarianceDescription::Normal),
            ("a", BenchmarkVarianceDescription::HighlyVariable(double(60.0))),
            ("b", BenchmarkVarianceDescription::Noisy(double(0.3))),
        ]
    );
    assert_eq!(variances.data.get(&case("a")).unwrap().data(), &doubles(&[1.0, 2.0]));
}

#[test]
fn variances_need_enough_test_cases() {
    let commits = vec![artifact(0), artifact(1), artifact(2)];
    let many = |n: usize| {
        (0..n)
            .map(|i| series(&format!("b{}", i), &[Some(1.0), None, Some(i as f64)]))
            .collect::<Vec<SeriesResponse>>()
    };
    assert!(BenchmarkVariances::calculate(&commits, &mut many(49)).is_none());
    let mut all = many(50);
    let mut variances = BenchmarkVariances::calculate(&commits, &mut all).unwrap();
    assert_eq!(all[0].remaining(), 0);
    assert_eq!(variances.data.len(), 50);
    let seventh = variances.data.get(&case("b7")).unwrap();
    assert_eq!(seventh.data(), &doubles(&[1.0, 7.0]));
    assert_eq!(seventh.description(), BenchmarkVarianceDescription::Normal);
    variances.describe(&case("b7"), double(1.0), double(0.5));
    variances.describe(&case("unknown"), double(9.0), double(0.5));
    assert_eq!(variances.data.len(), 50);
    assert_eq!(
        variances.data.get(&case("b7")).unwrap().description(),
        BenchmarkVarianceDescription::Noisy(double(0.5))
    );
    assert!(!variances.data.get(&case("b8")).unwrap().is_dodgy());
}

#[test]
fn variance_is_taken_from_a_hundred_commits() {
    let history: Vec<MasterCommit> = (1..200)
        .map(|i| MasterCommit {
            sha: format!("c{}", i),
            parent_sha: format!("c{}", i - 1),
            pr: None,
            time: Time { seconds: 0, nanos: 0 },
        })
        .collect();
    let commits = BenchmarkVariances::commits(artifact(199), &history);
    assert_eq!(commits.len(), 100);
    assert_eq!(commits[0].name(), "c198");
    assert_eq!(commits[99].name(), "c99");
    assert_eq!(BenchmarkVariances::commits(artifact(5), &history).len(), 4);
}
