//! Searching a sequence from its front.

use vstd::prelude::*;

verus! {

/// The index of the first element of `s` that meets `p`, or the length of
/// `s` where none does.
pub open spec fn first_where<A>(s: Seq<A>, p: spec_fn(A) -> bool) -> int
    decreases s.len(),
{
    if s.len() == 0 {
        0
    } else if p(s[0]) {
        0
    } else {
        1 + first_where(s.drop_first(), p)
    }
}

/// `first_where` finds the first element that meets `p`, and only that.
pub proof fn lemma_first_where<A>(s: Seq<A>, p: spec_fn(A) -> bool)
    ensures
        0 <= first_where(s, p) <= s.len(),
        first_where(s, p) < s.len() ==> p(s[first_where(s, p)]),
        forall|j: int| 0 <= j < first_where(s, p) ==> !p(s[j]),
    decreases s.len(),
{
    if s.len() > 0 && !p(s[0]) {
        let t = s.drop_first();
        lemma_first_where(t, p);
        assert forall|j: int| 0 <= j < first_where(s, p) implies !p(s[j]) by {
            if j > 0 {
                assert(t[j - 1] == s[j]);
            }
        }
    }
}

/// The first index whose element meets `p` is what `first_where` returns.
pub proof fn lemma_first_where_is<A>(s: Seq<A>, p: spec_fn(A) -> bool, i: int)
    requires
        0 <= i <= s.len(),
        i < s.len() ==> p(s[i]),
        forall|j: int| 0 <= j < i ==> !p(s[j]),
    ensures
        first_where(s, p) == i,
{
    lemma_first_where(s, p);
    let k = first_where(s, p);
    if k < i {
        assert(!p(s[k]));
    }
}

} // verus!
