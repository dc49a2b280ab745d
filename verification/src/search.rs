//! First-match search over a sequence, shared by the engine's socket table
//! and the manager's interface registry.

use vstd::prelude::*;

verus! {

/// Index of the first element of `s` in the range `[lo, hi)` that satisfies
/// `p`, if any.
pub open spec fn first_in<A>(s: Seq<A>, p: spec_fn(A) -> bool, lo: int, hi: int) -> Option<int>
    decreases hi - lo,
{
    if lo < 0 || lo >= hi || hi > s.len() {
        None
    } else if p(s[lo]) {
        Some(lo)
    } else {
        first_in(s, p, lo + 1, hi)
    }
}

/// What a result of [`first_in`] means: a hit is the least index in range
/// that satisfies `p`; a miss means no index in range does.
pub proof fn lemma_first_in<A>(s: Seq<A>, p: spec_fn(A) -> bool, lo: int, hi: int)
    requires
        0 <= lo <= hi <= s.len(),
    ensures
        match first_in(s, p, lo, hi) {
            Some(i) => lo <= i < hi && p(s[i]) && (forall|j: int| lo <= j < i ==> !p(s[j])),
            None => forall|j: int| lo <= j < hi ==> !p(s[j]),
        },
    decreases hi - lo,
{
    if lo < hi && !p(s[lo]) {
        lemma_first_in(s, p, lo + 1, hi);
    }
}

/// Two scans agree when their predicates agree pointwise over the range.
pub proof fn lemma_first_in_congruence<A>(
    s1: Seq<A>,
    s2: Seq<A>,
    p: spec_fn(A) -> bool,
    q: spec_fn(A) -> bool,
    lo: int,
    hi: int,
)
    requires
        s1.len() == s2.len(),
        forall|j: int| lo <= j < hi ==> (p(s1[j]) <==> q(s2[j])),
    ensures
        first_in(s1, p, lo, hi) == first_in(s2, q, lo, hi),
    decreases hi - lo,
{
    if 0 <= lo && lo < hi && hi <= s1.len() {
        if !p(s1[lo]) {
            lemma_first_in_congruence(s1, s2, p, q, lo + 1, hi);
        }
    }
}

/// An `Option<usize>` result seen as the `Option<int>` a search spec returns.
pub open spec fn found_at(r: Option<usize>) -> Option<int> {
    match r {
        Some(i) => Some(i as int),
        None => None,
    }
}

} // verus!
