use perf_compare::commits::Bound;
use perf_compare::date::Date;

#[test]
fn dates_exist_or_not() {
    assert!(Date::new(2021, 2, 28).is_some());
    assert!(Date::new(2021, 2, 29).is_none());
    assert!(Date::new(2020, 2, 29).is_some());
    assert!(Date::new(1900, 2, 29).is_none());
    assert!(Date::new(2000, 2, 29).is_some());
    assert!(Date::new(-4, 2, 29).is_some());
    assert!(Date::new(2021, 4, 31).is_none());
    assert!(Date::new(2021, 0, 1).is_none());
    assert!(Date::new(2021, 13, 1).is_none());
    assert!(Date::new(2021, 1, 0).is_none());
    assert!(Date::new(2021, 12, 31).is_some());
    assert!(Date::new(2021, 12, 32).is_none());
    assert!(Date::new(262142, 12, 31).is_some());
    assert!(Date::new(262143, 1, 1).is_none());
    assert!(Date::new(-262143, 1, 1).is_some());
    assert!(Date::new(-262144, 12, 31).is_none());
}

#[test]
fn dates_are_written_year_first() {
    assert_eq!(Date::new(2021, 3, 9).unwrap().format(), "2021-03-09");
    assert_eq!(Date::new(2021, 12, 31).unwrap().format(), "2021-12-31");
    assert_eq!(Date::new(7, 1, 1).unwrap().format(), "0007-01-01");
    assert_eq!(Date::new(0, 1, 1).unwrap().format(), "0000-01-01");
    assert_eq!(Date::new(-7, 1, 1).unwrap().format(), "-0007-01-01");
    assert_eq!(Date::new(12345, 1, 1).unwrap().format(), "+12345-01-01");
    assert_eq!(Date::new(-12345, 1, 1).unwrap().format(), "-12345-01-01");
}

#[test]
fn today_is_a_date() {
    let text = Date::today().format();
    assert_eq!(text.len(), 10);
    assert!(text.as_str() > "2021-01-01");
}

#[test]
fn bounds_are_written() {
    let date = Date::new(2021, 3, 9).unwrap();
    assert_eq!(Bound::Commit("abc".to_string()).fmt_bound(), "abc");
    assert_eq!(Bound::Date(date).fmt_bound(), "2021-03-09");
    assert_eq!(Bound::Unbounded.fmt_bound(), "???");
}

#[test]
fn bounds_are_the_same_or_not() {
    let day = Date::new(2021, 3, 9).unwrap();
    let other = Date::new(2021, 3, 10).unwrap();
    let bounds = [
        Bound::Commit("a".to_string()),
        Bound::Commit("b".to_string()),
        Bound::Date(day),
        Bound::Date(other),
        Bound::Unbounded,
    ];
    for (i, a) in bounds.iter().enumerate() {
        for (j, b) in bounds.iter().enumerate() {
            assert_eq!(a.same(b), i == j);
        }
    }
}
