//! The mathematical views of sequences and options of values.

use vstd::prelude::*;

verus! {

/// The views of the members of a sequence.
pub open spec fn views<T: View>(s: Seq<T>) -> Seq<T::V> {
    Seq::new(s.len(), |i: int| s[i]@)
}

/// The view of what an option holds.
pub open spec fn option_view<T: View>(o: Option<T>) -> Option<T::V> {
    match o {
        Some(t) => Some(t@),
        None => None,
    }
}

/// A sequence has as many views as members, each at the place of its member, and an option has
/// one exactly where it holds something.
pub proof fn law_views<T: View>(s: Seq<T>, i: int, o: Option<T>)
    ensures
        views(s).len() == s.len(),
        0 <= i < s.len() ==> views(s)[i] == s[i]@,
        o is None ==> option_view(o) is None,
        o matches Some(t) ==> option_view(o) == Some(t@),
{
}

} // verus!
