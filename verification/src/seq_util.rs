//! The first position in a sequence at which something holds.

use vstd::prelude::*;

verus! {

/// The first position whose element satisfies `wanted`, or the length of
/// the sequence where none does.
pub open spec fn first_index<A>(s: Seq<A>, wanted: spec_fn(A) -> bool) -> int
    decreases s.len(),
{
    if s.len() == 0 {
        0
    } else if wanted(s.first()) {
        0
    } else {
        1 + first_index(s.drop_first(), wanted)
    }
}

/// `first_index` lies within the sequence or at its end, nothing before it
/// satisfies `wanted`, and what stands at it does.
pub proof fn lemma_first_index<A>(s: Seq<A>, wanted: spec_fn(A) -> bool)
    ensures
        0 <= first_index(s, wanted) <= s.len(),
        forall|j: int| 0 <= j < first_index(s, wanted) ==> !wanted(#[trigger] s[j]),
        first_index(s, wanted) < s.len() ==> wanted(s[first_index(s, wanted)]),
    decreases s.len(),
{
    if s.len() > 0 && !wanted(s.first()) {
        let rest = s.drop_first();
        lemma_first_index(rest, wanted);
        assert forall|j: int| 0 <= j < first_index(s, wanted) implies !wanted(#[trigger] s[j]) by {
            if j > 0 {
                assert(s[j] == rest[j - 1]);
            }
        }
        if first_index(rest, wanted) < rest.len() {
            assert(rest[first_index(rest, wanted)] == s[first_index(s, wanted)]);
        }
    }
}

/// A position before which nothing satisfies `wanted`, and which satisfies
/// it or is the end, is `first_index`.
pub proof fn lemma_first_index_is<A>(s: Seq<A>, wanted: spec_fn(A) -> bool, k: int)
    requires
        0 <= k <= s.len(),
        forall|j: int| 0 <= j < k ==> !wanted(#[trigger] s[j]),
        k < s.len() ==> wanted(s[k]),
    ensures
        first_index(s, wanted) == k,
{
    lemma_first_index(s, wanted);
    let i = first_index(s, wanted);
    if i < k {
        assert(!wanted(s[i]));
    }
}

} // verus!
