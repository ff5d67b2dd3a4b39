//! Sequences that stand within other sequences.
use vstd::prelude::*;

verus! {

/// Whether the items `part` stand in `whole` from place `i` on.
pub open spec fn at<T>(whole: Seq<T>, i: int, part: Seq<T>) -> bool {
    0 <= i && i + part.len() <= whole.len() && whole.subrange(i, i + part.len()) == part
}

/// Where `a` and then `b` stand, `a` stands, and `b` stands behind it.
pub proof fn lemma_at_split<T>(whole: Seq<T>, i: int, a: Seq<T>, b: Seq<T>)
    requires
        at(whole, i, a + b),
    ensures
        at(whole, i, a),
        at(whole, i + a.len(), b),
{
    let both = a + b;
    let got = whole.subrange(i, i + both.len());
    assert forall|j: int| 0 <= j < a.len() implies whole.subrange(i, i + a.len())[j] == a[j] by {
        assert(got[j] == both[j]);
    }
    assert(whole.subrange(i, i + a.len()) =~= a);
    assert forall|j: int| 0 <= j < b.len() implies whole.subrange(
        i + a.len(),
        i + a.len() + b.len(),
    )[j] == b[j] by {
        assert(got[a.len() + j] == both[a.len() + j]);
    }
    assert(whole.subrange(i + a.len(), i + a.len() + b.len()) =~= b);
}

/// Where `part` stands, each of its items stands at its place.
pub proof fn lemma_at_item<T>(whole: Seq<T>, i: int, part: Seq<T>, j: int)
    requires
        at(whole, i, part),
        0 <= j < part.len(),
    ensures
        0 <= i + j < whole.len(),
        whole[i + j] == part[j],
{
    assert(whole.subrange(i, i + part.len())[j] == part[j]);
}

/// A sequence stands in itself from its start on.
pub proof fn lemma_at_whole<T>(whole: Seq<T>)
    ensures
        at(whole, 0, whole),
{
    assert(whole.subrange(0, whole.len() as int) =~= whole);
}

} // verus!
