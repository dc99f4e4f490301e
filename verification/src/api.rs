//! What a comparison is answered with.

use crate::benchmark::{BenchmarkComparison, BenchmarkComparisonView};
use crate::commits::{
    following, previous, ArtifactId, ArtifactIdView, Bound, MasterCommit, MasterCommitView, Time,
};
use crate::compare::CompareError;
use crate::comparison;
use crate::comparison::{sha_of, ArtifactDescriptionView, Comparison, ComparisonView};
use crate::double::Double;
use crate::table::Table;
use crate::variance::BenchmarkVarianceDescription;
use crate::views::{option_view, views};
use vstd::prelude::*;

verus! {

/// An artifact in an answer.
pub struct ArtifactDescription {
    /// The sha of a commit, or a tag.
    pub commit: String,
    /// When the commit was made.
    pub date: Option<Time>,
    pub pr: Option<u32>,
    /// Bootstrap data in the form "$crate" -> nanoseconds
    pub bootstrap: Table<String, u64>,
}

/// What an [`ArtifactDescription`] holds.
pub struct AnswerArtifactView {
    pub commit: Seq<char>,
    pub date: Option<Time>,
    pub pr: Option<u32>,
    pub bootstrap: Map<Seq<char>, u64>,
}

impl View for ArtifactDescription {
    type V = AnswerArtifactView;

    open spec fn view(&self) -> AnswerArtifactView {
        AnswerArtifactView {
            commit: self.commit@,
            date: self.date,
            pr: self.pr,
            bootstrap: self.bootstrap@,
        }
    }
}

/// The description of an artifact as it stands in an answer.
pub open spec fn answer_artifact(data: ArtifactDescriptionView) -> AnswerArtifactView {
    AnswerArtifactView {
        commit: data.artifact.name(),
        date: match data.artifact {
            ArtifactIdView::Commit(c) => Some(c.date),
            ArtifactIdView::Tag(_) => None,
        },
        pr: data.pr,
        bootstrap: data.bootstrap,
    }
}

impl From<comparison::ArtifactDescription> for ArtifactDescription {
    fn from(data: comparison::ArtifactDescription) -> (result: ArtifactDescription)
        ensures
            result@ == answer_artifact(data@),
    {
        match data.artifact {
            ArtifactId::Commit(c) => ArtifactDescription {
                commit: c.sha,
                date: Some(c.date),
                pr: data.pr,
                bootstrap: data.bootstrap,
            },
            ArtifactId::Tag(t) => ArtifactDescription {
                commit: t,
                date: None,
                pr: data.pr,
                bootstrap: data.bootstrap,
            },
        }
    }
}

impl vstd::std_specs::convert::FromSpecImpl<comparison::ArtifactDescription> for ArtifactDescription {
    open spec fn obeys_from_spec() -> bool {
        true
    }

    open spec fn from_spec(data: comparison::ArtifactDescription) -> ArtifactDescription {
        match data.artifact {
            ArtifactId::Commit(c) => ArtifactDescription {
                commit: c.sha,
                date: Some(c.date),
                pr: data.pr,
                bootstrap: data.bootstrap,
            },
            ArtifactId::Tag(t) => ArtifactDescription {
                commit: t,
                date: None,
                pr: data.pr,
                bootstrap: data.bootstrap,
            },
        }
    }
}

/// One test case in an answer.
pub struct ComparisonEntry {
    pub benchmark: String,
    pub profile: String,
    pub scenario: String,
    pub is_dodgy: bool,
    pub is_significant: bool,
    pub historical_statistics: Option<Vec<Double>>,
    pub statistics: (Double, Double),
}

/// What a [`ComparisonEntry`] holds.
pub struct EntryView {
    pub benchmark: Seq<char>,
    pub profile: Seq<char>,
    pub scenario: Seq<char>,
    pub is_dodgy: bool,
    pub is_significant: bool,
    pub historical_statistics: Option<Seq<Double>>,
    pub statistics: (Double, Double),
}

impl View for ComparisonEntry {
    type V = EntryView;

    open spec fn view(&self) -> EntryView {
        EntryView {
            benchmark: self.benchmark@,
            profile: self.profile@,
            scenario: self.scenario@,
            is_dodgy: self.is_dodgy,
            is_significant: self.is_significant,
            historical_statistics: option_view(self.historical_statistics),
            statistics: self.statistics,
        }
    }
}

/// The comparison of a test case as it stands in an answer.
pub open spec fn answer_entry(c: BenchmarkComparisonView) -> EntryView {
    EntryView {
        benchmark: c.test_case.benchmark,
        profile: c.test_case.profile.name,
        scenario: c.test_case.scenario.name,
        is_dodgy: c.variance matches Some(v) && v.dodgy(),
        is_significant: c.significant(),
        historical_statistics: match c.variance {
            Some(v) => Some(v.data),
            None => None,
        },
        statistics: c.results,
    }
}

impl ComparisonEntry {
    fn of(c: &BenchmarkComparison) -> (result: ComparisonEntry)
        ensures
            result@ == answer_entry(c@),
    {
        let (is_dodgy, historical_statistics) = match c.variance() {
            Some(v) => {
                let data = v.data().clone();
                assert(data@ =~= v@.data);
                (v.is_dodgy(), Some(data))
            },
            None => (false, None),
        };
        ComparisonEntry {
            benchmark: c.test_case().benchmark.clone(),
            profile: c.test_case().profile.name.clone(),
            scenario: c.test_case().scenario.name.clone(),
            is_dodgy,
            is_significant: c.is_significant(),
            historical_statistics,
            statistics: c.results(),
        }
    }
}

/// The answer to a comparison.
pub struct Response {
    /// The sha of the commit before the first artifact.
    pub prev: Option<String>,
    pub a: ArtifactDescription,
    pub b: ArtifactDescription,
    pub comparisons: Vec<ComparisonEntry>,
    /// The sha of the commit after the second artifact.
    pub next: Option<String>,
    /// Whether the second artifact comes right after the first.
    pub is_contiguous: bool,
}

/// What a [`Response`] holds.
pub struct ResponseView {
    pub prev: Option<Seq<char>>,
    pub a: AnswerArtifactView,
    pub b: AnswerArtifactView,
    pub comparisons: Seq<EntryView>,
    pub next: Option<Seq<char>>,
    pub is_contiguous: bool,
}

impl View for Response {
    type V = ResponseView;

    open spec fn view(&self) -> ResponseView {
        ResponseView {
            prev: option_view(self.prev),
            a: self.a@,
            b: self.b@,
            comparisons: views(self.comparisons@),
            next: option_view(self.next),
            is_contiguous: self.is_contiguous,
        }
    }
}

/// The answer that a comparison is given.
pub open spec fn answer(
    comparison: ComparisonView,
    history: Seq<MasterCommitView>,
    recorded_parent: Option<Seq<char>>,
) -> ResponseView {
    ResponseView {
        prev: sha_of(previous(comparison.a.artifact, history)),
        a: answer_artifact(comparison.a),
        b: answer_artifact(comparison.b),
        comparisons: comparison.statistics.map_values(
            |c: BenchmarkComparisonView| answer_entry(c),
        ),
        next: sha_of(following(comparison.b.artifact, history)),
        is_contiguous: comparison.contiguous(history, recorded_parent),
    }
}

/// Answers with a comparison, given the parent that was recorded for its second artifact where
/// [`Comparison::unlisted_parent`] asks for one. It is an error that there is no comparison, as
/// there is no commit for the end bound.
pub fn handle_compare(
    comparison: Option<Comparison>,
    end: Bound,
    master_commits: &[MasterCommit],
    recorded_parent: &Option<String>,
) -> (result: Result<Response, CompareError>)
    ensures
        match result {
            Ok(response) => comparison is Some && response@ == answer(
                comparison->0@,
                views(master_commits@),
                option_view(*recorded_parent),
            ),
            Err(e) => comparison is None && e == CompareError::EndNotFound(end),
        },
{
    let comparison = match comparison {
        Some(c) => c,
        None => {
            return Err(CompareError::EndNotFound(end));
        },
    };
    let prev = comparison.prev(master_commits);
    let next = comparison.next(master_commits);
    let is_contiguous = comparison.is_contiguous(master_commits, recorded_parent);
    let mut comparisons: Vec<ComparisonEntry> = Vec::new();
    let count = comparison.statistics.len();
    let mut i: usize = 0;
    while i < count
        invariant
            i <= count,
            count == comparison.statistics@.len(),
            comparisons.len() == i,
            forall|j: int|
                0 <= j < i ==> (#[trigger] comparisons[j])@ == answer_entry(
                    comparison.statistics@[j],
                ),
        decreases count - i,
    {
        comparisons.push(ComparisonEntry::of(comparison.statistics.get(i)));
        i += 1;
    }
    assert(views(comparisons@) =~= comparison@.statistics.map_values(
        |c: BenchmarkComparisonView| answer_entry(c),
    ));
    Ok(
        Response {
            prev,
            a: ArtifactDescription::from(comparison.a),
            b: ArtifactDescription::from(comparison.b),
            comparisons,
            next,
            is_contiguous,
        },
    )
}

/// An answer has one entry for each statistic of the comparison, in the same order, whatever its
/// profile is, with the names and the results of that statistic.
pub proof fn law_answer_has_every_statistic(
    comparison: ComparisonView,
    history: Seq<MasterCommitView>,
    recorded_parent: Option<Seq<char>>,
    i: int,
)
    ensures
        ({
            let response = answer(comparison, history, recorded_parent);
            &&& response.comparisons.len() == comparison.statistics.len()
            &&& 0 <= i < comparison.statistics.len() ==> {
                let entry = response.comparisons[i];
                let c = comparison.statistics[i];
                &&& entry.benchmark == c.test_case.benchmark
                &&& entry.profile == c.test_case.profile.name
                &&& entry.scenario == c.test_case.scenario.name
                &&& entry.statistics.0 == c.results.0
                &&& entry.statistics.1 == c.results.1
                &&& entry.is_significant == c.significant()
                &&& c.variance is None ==> !entry.is_dodgy && entry.historical_statistics is None
                &&& c.variance matches Some(v) ==> {
                    &&& entry.is_dodgy <==> v.description != BenchmarkVarianceDescription::Normal
                    &&& entry.historical_statistics == Some(v.data)
                }
            }
        }),
{
}

/// An answer names the commit before the first artifact and the one after the second, tells
/// whether the second comes right after the first, and describes both.
pub proof fn law_answer_names_the_neighbours(
    comparison: ComparisonView,
    history: Seq<MasterCommitView>,
    recorded_parent: Option<Seq<char>>,
)
    ensures
        ({
            let response = answer(comparison, history, recorded_parent);
            &&& previous(comparison.a.artifact, history) is None ==> response.prev is None
            &&& previous(comparison.a.artifact, history) matches Some(c) ==> response.prev == Some(
                c.sha,
            )
            &&& following(comparison.b.artifact, history) is None ==> response.next is None
            &&& following(comparison.b.artifact, history) matches Some(c) ==> response.next
                == Some(c.sha)
            &&& response.is_contiguous == comparison.contiguous(history, recorded_parent)
            &&& describes(response.a, comparison.a)
            &&& describes(response.b, comparison.b)
        }),
{
}

/// Whether an artifact stands in an answer as it was described: by the sha of a commit, with its
/// date, or by its tag, without one.
pub open spec fn describes(artifact: AnswerArtifactView, data: ArtifactDescriptionView) -> bool {
    &&& artifact.pr == data.pr
    &&& artifact.bootstrap == data.bootstrap
    &&& data.artifact matches ArtifactIdView::Commit(c) ==> artifact.commit == c.sha
        && artifact.date == Some(c.date)
    &&& data.artifact matches ArtifactIdView::Tag(t) ==> artifact.commit == t && artifact.date
        is None
}

/// What is known of an answer is what it holds.
pub proof fn law_answer_is_what_it_holds(response: Response, i: int)
    ensures
        response@.comparisons.len() == response.comparisons.len(),
        0 <= i < response.comparisons.len() ==> {
            let entry = response@.comparisons[i];
            let held = response.comparisons[i];
            &&& entry.benchmark == held.benchmark@
            &&& entry.profile == held.profile@
            &&& entry.scenario == held.scenario@
            &&& entry.is_dodgy == held.is_dodgy
            &&& entry.is_significant == held.is_significant
            &&& entry.statistics == held.statistics
            &&& entry.historical_statistics == match held.historical_statistics {
                Some(data) => Some(data@),
                None => None,
            }
        },
        response@.a.commit == response.a.commit@,
        response@.a.date == response.a.date,
        response@.a.pr == response.a.pr,
        response@.a.bootstrap == response.a.bootstrap@,
        response@.b == response.b@,
        response@.is_contiguous == response.is_contiguous,
        response.prev is None ==> response@.prev is None,
        response.prev matches Some(sha) ==> response@.prev == Some(sha@),
        response.next is None ==> response@.next is None,
        response.next matches Some(sha) ==> response@.next == Some(sha@),
{
}

} // verus!
