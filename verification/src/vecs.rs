//! Small lemmas connecting a `Vec`'s element-wise view to the deep view of
//! the whole vector.

use vstd::prelude::*;

verus! {

pub proof fn lemma_deep_view_push<T: DeepView>(v1: Vec<T>, v2: Vec<T>, x: T)
    requires
        v2@ == v1@.push(x),
    ensures
        v2.deep_view() == v1.deep_view().push(x.deep_view()),
{
    assert(v2.deep_view() =~= v1.deep_view().push(x.deep_view()));
}

pub proof fn lemma_deep_view_insert<T: DeepView>(v1: Vec<T>, v2: Vec<T>, pos: int, x: T)
    requires
        0 <= pos <= v1@.len(),
        v2@ == v1@.insert(pos, x),
    ensures
        v2.deep_view() == v1.deep_view().insert(pos, x.deep_view()),
{
    assert(v2.deep_view() =~= v1.deep_view().insert(pos, x.deep_view()));
}

} // verus!
