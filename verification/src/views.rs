//! Views of collections and options, item by item.

use vstd::prelude::*;

verus! {

/// The views of the items of `s`, in order.
pub open spec fn view_all<T: View>(s: Seq<T>) -> Seq<T::V> {
    Seq::new(s.len(), |i: int| s[i]@)
}

/// The view of what an option holds.
pub open spec fn view_opt<T: View>(o: Option<T>) -> Option<T::V> {
    match o {
        Some(x) => Some(x@),
        None => None,
    }
}

/// The view of what a result holds on success; an error stays as it is.
pub open spec fn view_ok<T: View, E>(r: Result<T, E>) -> Result<T::V, E> {
    match r {
        Ok(x) => Ok(x@),
        Err(e) => Err(e),
    }
}

/// Pushing an item pushes its view.
pub proof fn lemma_view_all_push<T: View>(s: Seq<T>, x: T)
    ensures
        view_all(s.push(x)) == view_all(s).push(x@),
{
    assert(view_all(s.push(x)) =~= view_all(s).push(x@));
}

/// Nothing has no views.
pub proof fn lemma_view_all_empty<T: View>(s: Seq<T>)
    requires
        s.len() == 0,
    ensures
        view_all(s) == Seq::<T::V>::empty(),
{
    assert(view_all(s) =~= Seq::<T::V>::empty());
}

} // verus!
