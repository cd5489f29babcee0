//! Facts about the deep view of a vector, which the loops over declarations lean on, and
//! a faithful copy of a vector.

use vstd::prelude::*;

verus! {

/// The deep view of a vector has one entry per element: the element's own deep view.
pub proof fn lemma_deep_view_entries<T: DeepView>(v: Vec<T>)
    ensures
        v.deep_view().len() == v@.len(),
        forall|i: int| 0 <= i < v@.len() ==> #[trigger] v.deep_view()[i] == v@[i].deep_view(),
{
}

/// Pushing an element onto a vector pushes the element's deep view onto the vector's.
pub proof fn lemma_deep_view_push<T: DeepView>(before: Vec<T>, after: Vec<T>, last: T)
    requires
        after@ == before@.push(last),
    ensures
        after.deep_view() == before.deep_view().push(last.deep_view()),
{
    lemma_deep_view_entries(before);
    lemma_deep_view_entries(after);
    assert(after.deep_view() =~= before.deep_view().push(last.deep_view()));
}

/// The prefix of a deep view that ends with element `i` is the prefix before it, with the
/// deep view of element `i` pushed.
pub proof fn lemma_deep_view_take_next<T: DeepView>(v: Vec<T>, i: int)
    requires
        0 <= i < v@.len(),
    ensures
        v.deep_view().take(i + 1) == v.deep_view().take(i).push(v@[i].deep_view()),
        v.deep_view().take(i + 1).drop_last() == v.deep_view().take(i),
        v.deep_view().take(i + 1).last() == v@[i].deep_view(),
{
    lemma_deep_view_entries(v);
    assert(v.deep_view().take(i + 1) =~= v.deep_view().take(i).push(v@[i].deep_view()));
    assert(v.deep_view().take(i + 1).drop_last() =~= v.deep_view().take(i));
}

/// The whole of a deep view is its own longest prefix.
pub proof fn lemma_deep_view_take_all<T: DeepView>(v: Vec<T>)
    ensures
        v.deep_view().take(v@.len() as int) == v.deep_view(),
{
    lemma_deep_view_entries(v);
    assert(v.deep_view().take(v@.len() as int) =~= v.deep_view());
}

/// A copy of a vector whose elements copy faithfully.
pub(crate) fn clone_vec<T: Clone + DeepView>(v: &Vec<T>) -> (r: Vec<T>)
    requires
        forall|x: T, y: T| call_ensures(T::clone, (&x,), y) ==> x.deep_view() == y.deep_view(),
    ensures
        r.deep_view() == v.deep_view(),
{
    let mut copy: Vec<T> = Vec::new();
    let mut i: usize = 0;
    proof {
        lemma_deep_view_entries(copy);
        assert(copy.deep_view() =~= v.deep_view().take(0));
    }
    while i < v.len()
        invariant
            i <= v.len(),
            forall|x: T, y: T| call_ensures(T::clone, (&x,), y) ==> x.deep_view() == y.deep_view(),
            copy.deep_view() == v.deep_view().take(i as int),
        decreases v.len() - i,
    {
        let ghost before = copy;
        let one = v[i].clone();
        copy.push(one);
        proof {
            lemma_deep_view_take_next(*v, i as int);
            lemma_deep_view_push(before, copy, one);
        }
        i += 1;
    }
    proof {
        lemma_deep_view_take_all(*v);
    }
    copy
}

} // verus!
