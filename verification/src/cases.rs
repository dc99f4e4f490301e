//! What is measured: a benchmark, compiled with a profile, in a scenario.

use crate::table::Key;
use crate::views::{option_view, views};
use vstd::prelude::*;

verus! {

/// The profiles that are told apart.
#[derive(Clone, Copy, Debug, PartialEq, Eq, Structural)]
pub enum ProfileKind {
    Debug,
    Doc,
    Other,
}

/// A compilation profile, with the name that it is printed under.
#[derive(Debug)]
pub struct Profile {
    pub kind: ProfileKind,
    pub name: String,
}

/// What a [`Profile`] holds.
pub struct ProfileView {
    pub kind: ProfileKind,
    pub name: Seq<char>,
}

impl View for Profile {
    type V = ProfileView;

    open spec fn view(&self) -> ProfileView {
        ProfileView { kind: self.kind, name: self.name@ }
    }
}

impl Clone for Profile {
    fn clone(&self) -> (result: Profile)
        ensures
            result == *self,
    {
        Profile { kind: self.kind, name: self.name.clone() }
    }
}

/// An incremental state, with the name that it is printed under.
#[derive(Debug)]
pub struct Scenario {
    pub name: String,
    /// The patch that is applied, in an incremental build with a patch.
    pub incremental_patch: Option<String>,
}

/// What a [`Scenario`] holds.
pub struct ScenarioView {
    pub name: Seq<char>,
    pub incremental_patch: Option<Seq<char>>,
}

impl View for Scenario {
    type V = ScenarioView;

    open spec fn view(&self) -> ScenarioView {
        ScenarioView {
            name: self.name@,
            incremental_patch: option_view(self.incremental_patch),
        }
    }
}

impl Clone for Scenario {
    fn clone(&self) -> (result: Scenario)
        ensures
            result == *self,
    {
        Scenario {
            name: self.name.clone(),
            incremental_patch: match &self.incremental_patch {
                Some(p) => Some(p.clone()),
                None => None,
            },
        }
    }
}

/// What one measurement is of.
#[derive(Debug)]
pub struct TestCase {
    pub benchmark: String,
    pub profile: Profile,
    pub scenario: Scenario,
}

/// What a [`TestCase`] holds.
pub struct TestCaseView {
    pub benchmark: Seq<char>,
    pub profile: ProfileView,
    pub scenario: ScenarioView,
}

impl View for TestCase {
    type V = TestCaseView;

    open spec fn view(&self) -> TestCaseView {
        TestCaseView {
            benchmark: self.benchmark@,
            profile: self.profile@,
            scenario: self.scenario@,
        }
    }
}

impl Clone for TestCase {
    fn clone(&self) -> (result: TestCase)
        ensures
            result == *self,
    {
        TestCase {
            benchmark: self.benchmark.clone(),
            profile: self.profile.clone(),
            scenario: self.scenario.clone(),
        }
    }
}

impl Key for TestCase {
    fn same(&self, other: &TestCase) -> (result: bool) {
        self.benchmark == other.benchmark && self.profile.kind == other.profile.kind
            && self.profile.name == other.profile.name && self.scenario.name == other.scenario.name
            && match (&self.scenario.incremental_patch, &other.scenario.incremental_patch) {
            (Some(a), Some(b)) => *a == *b,
            (None, None) => true,
            _ => false,
        }
    }
}

impl ProfileKind {
    /// A word for the kind of profile.
    pub open spec fn text(self) -> Seq<char> {
        match self {
            ProfileKind::Debug => "debug"@,
            ProfileKind::Doc => "doc"@,
            ProfileKind::Other => "other"@,
        }
    }

    /// A word for the kind of profile.
    pub fn as_str(&self) -> (result: &'static str)
        ensures
            result@ == self.text(),
    {
        match self {
            ProfileKind::Debug => "debug",
            ProfileKind::Doc => "doc",
            ProfileKind::Other => "other",
        }
    }
}

impl TestCaseView {
    /// The texts that a hash of the test case is made of.
    pub open spec fn hashed_texts(self) -> Seq<Seq<char>> {
        let texts = seq![
            self.benchmark,
            self.profile.kind.text(),
            self.profile.name,
            self.scenario.name,
        ];
        match self.scenario.incremental_patch {
            Some(patch) => texts.push(patch),
            None => texts,
        }
    }

    /// Whether this is the test case whose results vary so often that only a large relative
    /// change of them counts.
    pub open spec fn volatile(self) -> bool {
        &&& self.benchmark == "coercions"@
        &&& self.profile.kind == ProfileKind::Debug
        &&& self.scenario.incremental_patch == Some("println"@)
    }
}

/// The texts that a hash is made of are the same exactly where the test cases are.
pub proof fn law_hashed_texts_tell_the_test_case(a: TestCaseView, b: TestCaseView)
    ensures
        a.hashed_texts() == b.hashed_texts() <==> a == b,
{
    if a.hashed_texts() == b.hashed_texts() {
        let texts = a.hashed_texts();
        assert(texts[0] == a.benchmark && texts[0] == b.benchmark);
        assert(texts[1] == a.profile.kind.text() && texts[1] == b.profile.kind.text());
        assert(texts[2] == a.profile.name && texts[2] == b.profile.name);
        assert(texts[3] == a.scenario.name && texts[3] == b.scenario.name);
        assert(texts.len() == 5 ==> Some(texts[4]) == a.scenario.incremental_patch && Some(
            texts[4],
        ) == b.scenario.incremental_patch);
        reveal_strlit("debug");
        reveal_strlit("doc");
        reveal_strlit("other");
        assert(a.profile.kind == b.profile.kind) by {
            assert("debug"@[0] != "other"@[0]);
        }
    }
}

impl TestCase {
    /// The texts that a hash of the test case is made of.
    pub fn hashed_texts(&self) -> (result: Vec<&str>)
        ensures
            views(result@) == self@.hashed_texts(),
    {
        let mut texts: Vec<&str> = Vec::new();
        texts.push(self.benchmark.as_str());
        texts.push(self.profile.kind.as_str());
        texts.push(self.profile.name.as_str());
        texts.push(self.scenario.name.as_str());
        match &self.scenario.incremental_patch {
            Some(patch) => {
                texts.push(patch.as_str());
            },
            None => {},
        }
        assert(views(texts@) =~= self@.hashed_texts());
        texts
    }

    /// Whether this is the test case whose results vary so often that only a large relative
    /// change of them counts.
    pub fn is_volatile(&self) -> (result: bool)
        ensures
            result == self@.volatile(),
    {
        self.benchmark == "coercions".to_owned() && self.profile.kind == ProfileKind::Debug
            && match &self.scenario.incremental_patch {
            Some(p) => *p == "println".to_owned(),
            None => false,
        }
    }
}

/// The test case whose results vary frequently is the benchmark `coercions`, compiled with the
/// debug profile, in an incremental build with the patch `println`, and no other.
pub proof fn law_volatile_test_case(case: TestCaseView)
    ensures
        case.volatile() <==> case.benchmark == "coercions"@ && case.profile.kind
            == ProfileKind::Debug && case.scenario.incremental_patch == Some("println"@),
{
}

/// Test cases are told apart by all that they hold.
pub proof fn law_test_cases_are_told_apart(a: TestCase, b: TestCase)
    ensures
        a@ == b@ <==> {
            &&& a.benchmark@ == b.benchmark@
            &&& a.profile.kind == b.profile.kind
            &&& a.profile.name@ == b.profile.name@
            &&& a.scenario.name@ == b.scenario.name@
            &&& a.scenario.incremental_patch is Some <==> b.scenario.incremental_patch is Some
            &&& a.scenario.incremental_patch is Some ==> a.scenario.incremental_patch->0@
                == b.scenario.incremental_patch->0@
        },
        a@.benchmark == a.benchmark@,
        a@.profile.kind == a.profile.kind,
        a@.profile.name == a.profile.name@,
        a@.scenario.name == a.scenario.name@,
        a@.scenario.incremental_patch == match a.scenario.incremental_patch {
            Some(patch) => Some(patch@),
            None => None,
        },
{
}

} // verus!
