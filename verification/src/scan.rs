//! Every store operation walks its entries front to back and acts on the
//! first one satisfying some test. `first_where` is that scan as a
//! mathematical function; `lemma_first_where` gives the facts an
//! implementing loop needs.
use vstd::prelude::*;

verus! {

/// The least index whose element satisfies the test, or the length of the
/// sequence when no element does.
pub open spec fn first_where<T>(s: Seq<T>, p: spec_fn(T) -> bool) -> int
    decreases s.len(),
{
    if s.len() == 0 {
        0
    } else if p(s[0]) {
        0
    } else {
        1 + first_where(s.drop_first(), p)
    }
}

/// `first_where` lands on a satisfying element, skips only failing ones,
/// and runs off the end exactly when nothing satisfies the test.
pub proof fn lemma_first_where<T>(s: Seq<T>, p: spec_fn(T) -> bool)
    ensures
        0 <= first_where(s, p) <= s.len(),
        first_where(s, p) < s.len() ==> p(s[first_where(s, p)]),
        forall|j: int| 0 <= j < first_where(s, p) ==> !p(s[j]),
    decreases s.len(),
{
    if s.len() > 0 && !p(s[0]) {
        lemma_first_where(s.drop_first(), p);
        assert forall|j: int| 0 <= j < first_where(s, p) implies !p(s[j]) by {
            if j > 0 {
                assert(s.drop_first()[j - 1] == s[j]);
                assert(!p(s.drop_first()[j - 1]));
            }
        }
    }
}

} // verus!
