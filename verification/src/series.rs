//! Measurements as they come: for each test case one point per artifact.

use crate::cases::{TestCase, TestCaseView};
use crate::commits::{ArtifactId, ArtifactIdView};
use crate::double::Double;
use crate::table::Table;
use crate::views::views;
use vstd::prelude::*;

verus! {

/// The points of one test case, which are taken one after the other.
#[derive(Debug)]
pub struct SeriesResponse {
    test_case: TestCase,
    points: Vec<(ArtifactId, Option<Double>)>,
    taken: usize,
}

/// What a [`SeriesResponse`] holds: the test case, and the points that are not taken yet, which
/// are artifacts with what was measured of them.
pub struct SeriesView {
    pub test_case: TestCaseView,
    pub remaining: Seq<(ArtifactIdView, Option<Double>)>,
}

impl View for SeriesResponse {
    type V = SeriesView;

    closed spec fn view(&self) -> SeriesView {
        SeriesView {
            test_case: self.test_case@,
            remaining: if self.taken <= self.points.len() {
                Seq::new(
                    (self.points.len() - self.taken) as nat,
                    |i: int| (self.points[self.taken + i].0@, self.points[self.taken + i].1),
                )
            } else {
                Seq::empty()
            },
        }
    }
}

impl SeriesView {
    /// The series after the next `n` points are taken.
    pub open spec fn after(self, n: int) -> SeriesView {
        SeriesView { test_case: self.test_case, remaining: self.remaining.skip(n) }
    }

    /// The artifacts of the points that are not taken yet.
    pub open spec fn artifacts(self) -> Seq<ArtifactIdView> {
        Seq::new(self.remaining.len(), |i: int| self.remaining[i].0)
    }

    /// Whether the next points are of the given artifacts, in this order.
    pub open spec fn is_of(self, artifacts: Seq<ArtifactIdView>) -> bool {
        artifacts.is_prefix_of(self.artifacts())
    }
}

/// All the series after the next `n` points are taken of each.
pub open spec fn series_after(series: Seq<SeriesView>, n: int) -> Seq<SeriesView> {
    Seq::new(series.len(), |i: int| series[i].after(n))
}

/// Whether each of the series still has `n` points.
pub open spec fn series_have(series: Seq<SeriesView>, n: int) -> bool {
    forall|i: int| 0 <= i < series.len() ==> (#[trigger] series[i]).remaining.len() >= n
}

/// Whether the next points of each of the series are of the given artifacts, in this order.
pub open spec fn series_are_of(
    series: Seq<SeriesView>,
    artifacts: Seq<ArtifactIdView>,
) -> bool {
    forall|i: int| 0 <= i < series.len() ==> (#[trigger] series[i]).is_of(artifacts)
}

/// Once the points of the first artifacts are taken, the next points are of the others.
pub proof fn law_points_stay_in_order(
    series: Seq<SeriesView>,
    artifacts: Seq<ArtifactIdView>,
    n: int,
)
    requires
        series_are_of(series, artifacts),
        0 <= n <= artifacts.len(),
    ensures
        series_are_of(series_after(series, n), artifacts.skip(n)),
{
    assert forall|i: int| 0 <= i < series.len() implies (#[trigger] series_after(
        series,
        n,
    )[i]).is_of(artifacts.skip(n)) by {
        assert(series[i].is_of(artifacts));
        assert(artifacts.skip(n) =~= series[i].after(n).artifacts().subrange(
            0,
            artifacts.skip(n).len() as int,
        )) by {
            assert forall|j: int| n <= j < artifacts.len() implies #[trigger] artifacts[j]
                == series[i].remaining[j].0 by {
                assert(series[i].artifacts().subrange(0, artifacts.len() as int)[j]
                    == artifacts[j]);
            }
        }
    }
}

/// What was measured of the next artifact, by test case. A later series for the same test
/// case replaces an earlier one.
pub open spec fn next_statistics(series: Seq<SeriesView>) -> Map<TestCaseView, Double>
    decreases series.len(),
{
    if series.len() == 0 {
        Map::empty()
    } else {
        let before = next_statistics(series.drop_last());
        match series.last().remaining[0].1 {
            Some(value) => before.insert(series.last().test_case, value),
            None => before,
        }
    }
}

/// Whether the series at the given place is of the test case, and its next point was measured.
pub open spec fn measured(series: Seq<SeriesView>, i: int, case: TestCaseView) -> bool {
    0 <= i < series.len() && series[i].test_case == case && series[i].remaining[0].1 is Some
}

/// There is a value for a test case exactly where one was measured. It is the one of the last
/// series in which one was.
pub proof fn law_last_point_counts(series: Seq<SeriesView>, case: TestCaseView)
    ensures
        next_statistics(series).contains_key(case) <==> exists|i: int| measured(series, i, case),
        forall|i: int| #[trigger]
            measured(series, i, case) && (forall|j: int| i < j ==> !measured(series, j, case))
                ==> next_statistics(series)[case] == series[i].remaining[0].1->0,
    decreases series.len(),
{
    if series.len() > 0 {
        let rest = series.drop_last();
        let last = series.len() - 1;
        law_last_point_counts(rest, case);
        assert forall|i: int| 0 <= i < last implies #[trigger] measured(rest, i, case) == measured(
            series,
            i,
            case,
        ) by {}
        if next_statistics(series).contains_key(case) && !measured(series, last, case) {
            let i = choose|i: int| measured(rest, i, case);
            assert(measured(series, i, case));
        }
        if exists|i: int| measured(series, i, case) {
            let i = choose|i: int| measured(series, i, case);
            if i < last {
                assert(measured(rest, i, case));
            }
        }
        assert forall|i: int| #[trigger]
            measured(series, i, case) && (forall|j: int|
                i < j ==> !measured(series, j, case)) implies next_statistics(series)[case]
            == series[i].remaining[0].1->0 by {
            if i < last {
                assert(measured(rest, i, case));
                assert(!measured(series, last, case));
                assert forall|j: int| i < j implies !measured(rest, j, case) by {
                    if measured(rest, j, case) {
                        assert(measured(series, j, case));
                    }
                }
            }
        }
    }
}

impl SeriesResponse {
    /// The series of a test case, of which no point is taken.
    pub fn new(test_case: TestCase, points: Vec<(ArtifactId, Option<Double>)>) -> (result:
        SeriesResponse)
        ensures
            result@.test_case == test_case@,
            result@.remaining == Seq::new(points@.len(), |i: int| (points[i].0@, points[i].1)),
    {
        let result = SeriesResponse { test_case, points, taken: 0 };
        assert(result@.remaining =~= Seq::new(
            points@.len(),
            |i: int| (points[i].0@, points[i].1),
        ));
        result
    }

    /// How many points are not taken yet.
    pub fn remaining(&self) -> (result: usize)
        ensures
            result == self@.remaining.len(),
    {
        if self.taken <= self.points.len() {
            self.points.len() - self.taken
        } else {
            0
        }
    }

    /// Whether the next points are of the given artifacts, in this order.
    pub fn is_of(&self, artifacts: &[ArtifactId]) -> (result: bool)
        ensures
            result == self@.is_of(views(artifacts@)),
    {
        if artifacts.len() > self.remaining() {
            return false;
        }
        let mut i: usize = 0;
        while i < artifacts.len()
            invariant
                i <= artifacts.len() <= self@.artifacts().len(),
                forall|j: int| 0 <= j < i ==> (#[trigger] artifacts[j])@ == self@.artifacts()[j],
            decreases artifacts.len() - i,
        {
            assert(self@.artifacts()[i as int] == self.points[self.taken + i].0@);
            if !artifacts[i].same(&self.points[self.taken + i].0) {
                assert(views(artifacts@)[i as int] != self@.artifacts().subrange(
                    0,
                    artifacts.len() as int,
                )[i as int]);
                return false;
            }
            i += 1;
        }
        assert(views(artifacts@) =~= self@.artifacts().subrange(0, artifacts.len() as int));
        true
    }

    /// Takes the next point.
    pub fn next(&mut self) -> (result: Option<Double>)
        requires
            old(self)@.remaining.len() > 0,
        ensures
            result == old(self)@.remaining[0].1,
            final(self)@ == old(self)@.after(1),
    {
        let point = self.points[self.taken].1;
        self.taken = self.taken + 1;
        assert(self@.remaining =~= old(self)@.remaining.skip(1));
        point
    }
}

/// Whether the next points of each of the series are of the given artifacts, in this order.
pub fn points_are_of(series: &Vec<SeriesResponse>, artifacts: &[ArtifactId]) -> (result: bool)
    ensures
        result == series_are_of(views(series@), views(artifacts@)),
        result ==> series_have(views(series@), artifacts.len() as int),
{
    let mut i: usize = 0;
    while i < series.len()
        invariant
            i <= series.len(),
            forall|j: int|
                0 <= j < i ==> (#[trigger] views(series@)[j]).is_of(views(artifacts@)),
            forall|j: int|
                0 <= j < i ==> (#[trigger] views(series@)[j]).remaining.len() >= artifacts.len(),
        decreases series.len() - i,
    {
        assert(views(series@)[i as int] == series[i as int]@);
        let left = series[i].remaining();
        if !series[i].is_of(artifacts) {
            return false;
        }
        assert(left >= artifacts.len());
        i += 1;
    }
    true
}

/// Takes the next point of each series, and collects those that were measured.
pub fn statistics_from_series(series: &mut Vec<SeriesResponse>) -> (result: Table<TestCase, Double>)
    requires
        series_have(views(old(series)@), 1),
    ensures
        result@ == next_statistics(views(old(series)@)),
        views(final(series)@) == series_after(views(old(series)@), 1),
{
    let ghost before = views(series@);
    let mut stats: Table<TestCase, Double> = Table::new();
    let mut i: usize = 0;
    while i < series.len()
        invariant
            i <= series.len(),
            series.len() == before.len(),
            series_have(before, 1),
            stats@ == next_statistics(before.take(i as int)),
            forall|j: int| 0 <= j < i ==> (#[trigger] series[j])@ == before[j].after(1),
            forall|j: int| i <= j < before.len() ==> (#[trigger] series[j])@ == before[j],
        decreases series.len() - i,
    {
        assert(before.take(i + 1).drop_last() =~= before.take(i as int));
        assert(series[i as int]@ == before[i as int]);
        match series[i].next() {
            Some(value) => {
                stats.insert(series[i].test_case.clone(), value);
            },
            None => {},
        }
        i += 1;
    }
    assert(before.take(before.len() as int) =~= before);
    assert(views(series@) =~= series_after(before, 1));
    stats
}

/// What the next points of the series amount to: those of no series to nothing, and one more
/// series sets the value of its test case, where its next point was measured.
pub proof fn law_each_series_adds_its_point(series: Seq<SeriesView>, more: SeriesView)
    ensures
        next_statistics(Seq::empty()) == Map::<TestCaseView, Double>::empty(),
        more.remaining[0].1 is None ==> next_statistics(series.push(more)) == next_statistics(
            series,
        ),
        more.remaining[0].1 matches Some(value) ==> next_statistics(series.push(more))
            == next_statistics(series).insert(more.test_case, value),
{
    assert(series.push(more).drop_last() =~= series);
}

/// Taking points of the series takes them from the front of each, and leaves the rest, the test
/// cases and the order of the series as they were.
pub proof fn law_points_are_taken_from_the_front(series: Seq<SeriesView>, n: int, i: int, j: int)
    requires
        0 <= i < series.len(),
        0 <= n <= series[i].remaining.len(),
        0 <= j < series[i].remaining.len() - n,
    ensures
        series_after(series, n).len() == series.len(),
        series_after(series, n)[i].test_case == series[i].test_case,
        series_after(series, n)[i].remaining.len() == series[i].remaining.len() - n,
        series_after(series, n)[i].remaining[j] == series[i].remaining[n + j],
{
}

/// Series are of the given artifacts exactly where each of them is, that is where its next
/// points are of the artifacts, one by one.
pub proof fn law_points_are_of_their_artifacts(
    series: Seq<SeriesView>,
    one: SeriesView,
    artifacts: Seq<ArtifactIdView>,
)
    ensures
        one.is_of(artifacts) <==> one.remaining.len() >= artifacts.len() && forall|j: int|
            0 <= j < artifacts.len() ==> (#[trigger] one.remaining[j]).0 == artifacts[j],
        series_are_of(series.push(one), artifacts) <==> series_are_of(series, artifacts)
            && one.is_of(artifacts),
        series_are_of(Seq::empty(), artifacts),
{
    let next = one.artifacts().subrange(0, artifacts.len() as int);
    if one.is_of(artifacts) {
        assert forall|j: int| 0 <= j < artifacts.len() implies (#[trigger] one.remaining[j]).0
            == artifacts[j] by {
            assert(next[j] == artifacts[j]);
        }
    }
    if one.remaining.len() >= artifacts.len() && forall|j: int|
        0 <= j < artifacts.len() ==> (#[trigger] one.remaining[j]).0 == artifacts[j] {
        assert(artifacts =~= next);
    }
    let more = series.push(one);
    if series_are_of(more, artifacts) {
        assert(more[series.len() as int].is_of(artifacts));
        assert forall|i: int| 0 <= i < series.len() implies (#[trigger] series[i]).is_of(
            artifacts,
        ) by {
            assert(more[i].is_of(artifacts));
        }
    }
}

} // verus!
