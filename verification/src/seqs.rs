//! Facts about sequences that the rest of the crate's proofs share.

use vstd::prelude::*;

verus! {

/// The index of the first element satisfying `pred`, or -1 when none does.
pub open spec fn first_index<A>(s: Seq<A>, pred: spec_fn(A) -> bool) -> int
    decreases s.len(),
{
    if s.len() == 0 {
        -1
    } else if pred(s[0]) {
        0
    } else {
        let rest = first_index(s.drop_first(), pred);
        if rest < 0 { -1 } else { rest + 1 }
    }
}

/// `first_index` finds the first match, and -1 means that nothing matches.
pub proof fn lemma_first_index<A>(s: Seq<A>, pred: spec_fn(A) -> bool)
    ensures
        -1 <= first_index(s, pred) < s.len(),
        first_index(s, pred) >= 0 ==> pred(s[first_index(s, pred)]),
        forall|j: int| 0 <= j < first_index(s, pred) ==> !pred(#[trigger] s[j]),
        first_index(s, pred) < 0 ==> forall|j: int| 0 <= j < s.len() ==> !pred(#[trigger] s[j]),
    decreases s.len(),
{
    if s.len() > 0 && !pred(s[0]) {
        let rest = s.drop_first();
        lemma_first_index(rest, pred);
        assert forall|j: int| 0 <= j < first_index(s, pred) implies !pred(#[trigger] s[j]) by {
            if j > 0 {
                assert(s[j] == rest[j - 1]);
            }
        }
        if first_index(s, pred) < 0 {
            assert forall|j: int| 0 <= j < s.len() implies !pred(#[trigger] s[j]) by {
                if j > 0 {
                    assert(s[j] == rest[j - 1]);
                }
            }
        }
    }
}

/// An index whose element matches and that no earlier element matches is
/// the first index.
pub proof fn lemma_first_index_is<A>(s: Seq<A>, pred: spec_fn(A) -> bool, i: int)
    requires
        0 <= i < s.len(),
        pred(s[i]),
        forall|j: int| 0 <= j < i ==> !pred(#[trigger] s[j]),
    ensures
        first_index(s, pred) == i,
{
    lemma_first_index(s, pred);
}

/// When no element matches, the first index is -1.
pub proof fn lemma_first_index_none<A>(s: Seq<A>, pred: spec_fn(A) -> bool)
    requires
        forall|j: int| 0 <= j < s.len() ==> !pred(#[trigger] s[j]),
    ensures
        first_index(s, pred) == -1,
{
    lemma_first_index(s, pred);
}

/// Whether some element satisfies `pred`.
pub open spec fn any<A>(s: Seq<A>, pred: spec_fn(A) -> bool) -> bool {
    exists|i: int| 0 <= i < s.len() && pred(#[trigger] s[i])
}

} // verus!
