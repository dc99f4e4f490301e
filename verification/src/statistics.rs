//! The comparisons of the test cases, of which each has at most one.

use crate::benchmark::{BenchmarkComparison, BenchmarkComparisonView};
use crate::cases::TestCaseView;
use crate::views::views;
use vstd::prelude::*;

verus! {

/// Whether no test case has two comparisons.
pub open spec fn each_test_case_once(list: Seq<BenchmarkComparisonView>) -> bool {
    forall|i: int, j: int|
        0 <= i < j < list.len() ==> (#[trigger] list[i]).test_case != (
        #[trigger] list[j]).test_case
}

/// Whether there is a comparison of the test case in the list.
pub open spec fn has_test_case(list: Seq<BenchmarkComparisonView>, case: TestCaseView) -> bool {
    exists|i: int| 0 <= i < list.len() && (#[trigger] list[i]).test_case == case
}

/// The comparisons of the list that come first for their test case.
pub open spec fn firsts(list: Seq<BenchmarkComparisonView>) -> Seq<BenchmarkComparisonView>
    decreases list.len(),
{
    if list.len() == 0 {
        Seq::empty()
    } else if has_test_case(list.drop_last(), list.last().test_case) {
        firsts(list.drop_last())
    } else {
        firsts(list.drop_last()).push(list.last())
    }
}

/// Of the comparisons that come first for their test case, no two are of the same one, and none
/// of the test cases is missing.
pub proof fn law_firsts(list: Seq<BenchmarkComparisonView>)
    ensures
        each_test_case_once(firsts(list)),
        forall|case: TestCaseView| #[trigger]
            has_test_case(firsts(list), case) <==> has_test_case(list, case),
    decreases list.len(),
{
    if list.len() > 0 {
        let rest = list.drop_last();
        let kept = firsts(rest);
        law_firsts(rest);
        assert forall|case: TestCaseView| #[trigger]
            has_test_case(firsts(list), case) <==> has_test_case(list, case) by {
            lemma_push_case(rest, list.last(), case);
            lemma_push_case(kept, list.last(), case);
            assert(rest.push(list.last()) =~= list);
            assert(has_test_case(kept, case) <==> has_test_case(rest, case));
        }
        if !has_test_case(rest, list.last().test_case) {
            assert(!has_test_case(kept, list.last().test_case));
            lemma_push_once(kept, list.last());
        }
    }
}

/// Where no test case has two comparisons, each of them comes first.
pub proof fn law_all_are_firsts(list: Seq<BenchmarkComparisonView>)
    requires
        each_test_case_once(list),
    ensures
        firsts(list) == list,
    decreases list.len(),
{
    if list.len() > 0 {
        let rest = list.drop_last();
        assert forall|i: int, j: int| 0 <= i < j < rest.len() implies (#[trigger] rest[i]).test_case
            != (#[trigger] rest[j]).test_case by {
            assert(list[i].test_case != list[j].test_case);
        }
        law_all_are_firsts(rest);
        assert forall|i: int| 0 <= i < rest.len() implies (#[trigger] rest[i]).test_case
            != list.last().test_case by {
            assert(list[i].test_case != list[list.len() - 1].test_case);
        }
        assert(rest.push(list.last()) =~= list);
    }
}

proof fn lemma_push_case(
    list: Seq<BenchmarkComparisonView>,
    last: BenchmarkComparisonView,
    case: TestCaseView,
)
    ensures
        has_test_case(list.push(last), case) <==> has_test_case(list, case) || last.test_case
            == case,
{
    let all = list.push(last);
    if has_test_case(list, case) {
        let i = choose|i: int| 0 <= i < list.len() && (#[trigger] list[i]).test_case == case;
        assert(all[i].test_case == case);
    }
    assert(all[list.len() as int] == last);
    if has_test_case(all, case) {
        let i = choose|i: int| 0 <= i < all.len() && (#[trigger] all[i]).test_case == case;
        assert(i < list.len() ==> list[i].test_case == case);
    }
}

proof fn lemma_push_once(list: Seq<BenchmarkComparisonView>, last: BenchmarkComparisonView)
    requires
        each_test_case_once(list),
        !has_test_case(list, last.test_case),
    ensures
        each_test_case_once(list.push(last)),
{
    let all = list.push(last);
    assert forall|i: int, j: int| 0 <= i < j < all.len() implies (#[trigger] all[i]).test_case != (
    #[trigger] all[j]).test_case by {
        assert(list[i].test_case != last.test_case);
        if j < list.len() {
            assert(list[i].test_case != list[j].test_case);
        }
    }
}

/// A set of comparisons, which are the same where they are of the same test case.
#[derive(Debug)]
pub struct Statistics {
    members: Vec<BenchmarkComparison>,
}

impl View for Statistics {
    type V = Seq<BenchmarkComparisonView>;

    /// The comparisons in the order in which they came.
    closed spec fn view(&self) -> Seq<BenchmarkComparisonView> {
        views(self.members@)
    }
}

impl Statistics {
    #[verifier::type_invariant]
    spec fn valid(self) -> bool {
        each_test_case_once(views(self.members@))
    }

    /// The set without comparisons.
    pub fn new() -> (result: Statistics)
        ensures
            result@ == Seq::<BenchmarkComparisonView>::empty(),
    {
        let result = Statistics { members: Vec::new() };
        assert(result@ =~= Seq::<BenchmarkComparisonView>::empty());
        result
    }

    /// How many comparisons there are. No test case has two.
    pub fn len(&self) -> (result: usize)
        ensures
            result == self@.len(),
            each_test_case_once(self@),
    {
        proof {
            use_type_invariant(self);
        }
        self.members.len()
    }

    /// The comparison at the given place.
    pub fn get(&self, i: usize) -> (result: &BenchmarkComparison)
        requires
            i < self@.len(),
        ensures
            result@ == self@[i as int],
    {
        &self.members[i]
    }

    /// Whether there is a comparison that is equal to the given one.
    pub fn contains(&self, comparison: &BenchmarkComparison) -> (result: bool)
        ensures
            result == has_test_case(self@, comparison@.test_case),
    {
        let mut i: usize = 0;
        while i < self.members.len()
            invariant
                i <= self.members.len(),
                forall|j: int|
                    0 <= j < i ==> (#[trigger] self@[j]).test_case != comparison@.test_case,
            decreases self.members.len() - i,
        {
            assert(self@[i as int] == self.members[i as int]@);
            if self.members[i] == *comparison {
                return true;
            }
            i += 1;
        }
        false
    }

    /// Adds the comparison, unless there is one of the same test case. Tells whether it was
    /// added.
    pub fn insert(&mut self, comparison: BenchmarkComparison) -> (result: bool)
        ensures
            result == !has_test_case(old(self)@, comparison@.test_case),
            final(self)@ == if result {
                old(self)@.push(comparison@)
            } else {
                old(self)@
            },
            each_test_case_once(final(self)@),
    {
        proof {
            use_type_invariant(&*self);
        }
        if self.contains(&comparison) {
            return false;
        }
        let ghost before = self.members@;
        let mut members: Vec<BenchmarkComparison> = Vec::new();
        std::mem::swap(&mut members, &mut self.members);
        members.push(comparison);
        proof {
            lemma_push_once(views(before), comparison@);
            assert(views(members@) =~= views(before).push(comparison@));
        }
        self.members = members;
        true
    }
}

/// A comparison at the end of a list is the last of those that come first for their test case,
/// unless the list has one of the same test case before it, which then stays.
pub proof fn law_first_of_a_test_case_stays(
    list: Seq<BenchmarkComparisonView>,
    c: BenchmarkComparisonView,
)
    ensures
        firsts(Seq::empty()) == Seq::<BenchmarkComparisonView>::empty(),
        (exists|i: int| 0 <= i < list.len() && (#[trigger] list[i]).test_case == c.test_case)
            ==> firsts(list.push(c)) == firsts(list),
        (forall|i: int| 0 <= i < list.len() ==> (#[trigger] list[i]).test_case != c.test_case)
            ==> firsts(list.push(c)) == firsts(list).push(c),
{
    assert(list.push(c).drop_last() =~= list);
}

/// In a list with each test case once, one more comparison is of another test case than all of
/// them, exactly where the longer list has each test case once too.
pub proof fn law_each_test_case_once(
    list: Seq<BenchmarkComparisonView>,
    c: BenchmarkComparisonView,
)
    ensures
        each_test_case_once(Seq::empty()),
        each_test_case_once(list.push(c)) <==> each_test_case_once(list) && forall|i: int|
            0 <= i < list.len() ==> (#[trigger] list[i]).test_case != c.test_case,
        has_test_case(list, c.test_case) <==> exists|i: int|
            0 <= i < list.len() && (#[trigger] list[i]).test_case == c.test_case,
{
    let more = list.push(c);
    if each_test_case_once(more) {
        assert forall|i: int, j: int| 0 <= i < j < list.len() implies (
        #[trigger] list[i]).test_case != (#[trigger] list[j]).test_case by {
            assert(more[i].test_case != more[j].test_case);
        }
        assert forall|i: int| 0 <= i < list.len() implies (#[trigger] list[i]).test_case
            != c.test_case by {
            assert(more[i].test_case != more[list.len() as int].test_case);
        }
    }
    if each_test_case_once(list) && forall|i: int|
        0 <= i < list.len() ==> (#[trigger] list[i]).test_case != c.test_case {
        lemma_push_once(list, c);
    }
}

} // verus!
