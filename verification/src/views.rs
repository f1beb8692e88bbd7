//! Bridges between vector mutation and deep views.
//!
//! The library's contracts speak of deep views (element-wise mathematical
//! values).  These lemmas carry a `push` or `insert` on a vector over to its
//! deep view, which the solver does not do unaided.

use vstd::prelude::*;

verus! {

/// A push on the vector is a push on its deep view.
pub proof fn lemma_push_deep<T: DeepView>(post: Vec<T>, prev: Vec<T>, x: T)
    requires
        post@ == prev@.push(x),
    ensures
        post.deep_view() == prev.deep_view().push(x.deep_view()),
{
    assert forall|j: int| 0 <= j < post.deep_view().len() implies post.deep_view()[j]
        == prev.deep_view().push(x.deep_view())[j] by {
        assert(post.deep_view()[j] == post@[j].deep_view());
        if j < prev@.len() {
            assert(post@[j] == prev@[j]);
            assert(prev.deep_view()[j] == prev@[j].deep_view());
        } else {
            assert(post@[j] == x);
        }
    }
    assert(post.deep_view() =~= prev.deep_view().push(x.deep_view()));
}

/// An insertion in the vector is an insertion in its deep view.
pub proof fn lemma_insert_deep<T: DeepView>(post: Vec<T>, prev: Vec<T>, k: int, x: T)
    requires
        0 <= k <= prev@.len(),
        post@ == prev@.insert(k, x),
    ensures
        post.deep_view() == prev.deep_view().insert(k, x.deep_view()),
{
    assert forall|j: int| 0 <= j < post.deep_view().len() implies post.deep_view()[j]
        == prev.deep_view().insert(k, x.deep_view())[j] by {
        assert(post.deep_view()[j] == post@[j].deep_view());
        if j < k {
            assert(post@[j] == prev@[j]);
            assert(prev.deep_view()[j] == prev@[j].deep_view());
        } else if j == k {
            assert(post@[j] == x);
        } else {
            assert(post@[j] == prev@[j - 1]);
            assert(prev.deep_view()[j - 1] == prev@[j - 1].deep_view());
        }
    }
    assert(post.deep_view() =~= prev.deep_view().insert(k, x.deep_view()));
}


/// A removal from the vector is a removal from its deep view.
pub proof fn lemma_remove_deep<T: DeepView>(post: Vec<T>, prev: Vec<T>, k: int)
    requires
        0 <= k < prev@.len(),
        post@ == prev@.remove(k),
    ensures
        post.deep_view() == prev.deep_view().remove(k),
{
    assert forall|j: int| 0 <= j < post.deep_view().len() implies post.deep_view()[j]
        == prev.deep_view().remove(k)[j] by {
        assert(post.deep_view()[j] == post@[j].deep_view());
        if j < k {
            assert(post@[j] == prev@[j]);
            assert(prev.deep_view()[j] == prev@[j].deep_view());
        } else {
            assert(post@[j] == prev@[j + 1]);
            assert(prev.deep_view()[j + 1] == prev@[j + 1].deep_view());
        }
    }
    assert(post.deep_view() =~= prev.deep_view().remove(k));
}

/// The deep view of a byte vector is its view.
pub broadcast proof fn lemma_bytes_deep_view(v: Vec<u8>)
    ensures
        #[trigger] v.deep_view() == v@,
{
    assert(v.deep_view() =~= v@);
}

} // verus!
