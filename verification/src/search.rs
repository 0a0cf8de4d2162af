use vstd::prelude::*;

verus! {

/// Index of the first element of `s` that satisfies `p`, or `s.len()` when none does.
pub open spec fn first_index<A>(s: Seq<A>, p: spec_fn(A) -> bool) -> int
    decreases s.len(),
{
    if s.len() == 0 {
        0
    } else if p(s[0]) {
        0
    } else {
        1 + first_index(s.drop_first(), p)
    }
}

/// Index of the last element of `s` that satisfies `p`, or `-1` when none does.
pub open spec fn last_index<A>(s: Seq<A>, p: spec_fn(A) -> bool) -> int
    decreases s.len(),
{
    if s.len() == 0 {
        -1
    } else if p(s.last()) {
        s.len() - 1
    } else {
        last_index(s.drop_last(), p)
    }
}

pub proof fn lemma_first_index<A>(s: Seq<A>, p: spec_fn(A) -> bool)
    ensures
        0 <= first_index(s, p) <= s.len(),
        forall|k: int| 0 <= k < first_index(s, p) ==> !p(#[trigger] s[k]),
        first_index(s, p) < s.len() ==> p(s[first_index(s, p)]),
    decreases s.len(),
{
    if s.len() > 0 && !p(s[0]) {
        lemma_first_index(s.drop_first(), p);
        assert forall|k: int| 0 <= k < first_index(s, p) implies !p(#[trigger] s[k]) by {
            if k > 0 {
                assert(s[k] == s.drop_first()[k - 1]);
            }
        }
    }
}

/// A position whose element satisfies `p`, with none before it, is the first one.
pub proof fn lemma_first_index_at<A>(s: Seq<A>, p: spec_fn(A) -> bool, i: int)
    requires
        0 <= i <= s.len(),
        forall|k: int| 0 <= k < i ==> !p(#[trigger] s[k]),
        i < s.len() ==> p(s[i]),
    ensures
        first_index(s, p) == i,
{
    lemma_first_index(s, p);
    let f = first_index(s, p);
    if f < i {
        assert(p(s[f]));
    }
    if i < f {
        assert(!p(s[i]));
    }
}

pub proof fn lemma_last_index<A>(s: Seq<A>, p: spec_fn(A) -> bool)
    ensures
        -1 <= last_index(s, p) < s.len(),
        forall|k: int| last_index(s, p) < k < s.len() ==> !p(#[trigger] s[k]),
        last_index(s, p) >= 0 ==> p(s[last_index(s, p)]),
    decreases s.len(),
{
    if s.len() > 0 && !p(s.last()) {
        lemma_last_index(s.drop_last(), p);
        assert forall|k: int| last_index(s, p) < k < s.len() implies !p(#[trigger] s[k]) by {
            if k < s.len() - 1 {
                assert(s[k] == s.drop_last()[k]);
            }
        }
    }
}

/// A position whose element satisfies `p`, with none after it, is the last one.
pub proof fn lemma_last_index_at<A>(s: Seq<A>, p: spec_fn(A) -> bool, i: int)
    requires
        -1 <= i < s.len(),
        forall|k: int| i < k < s.len() ==> !p(#[trigger] s[k]),
        i >= 0 ==> p(s[i]),
    ensures
        last_index(s, p) == i,
{
    lemma_last_index(s, p);
    let f = last_index(s, p);
    if f > i {
        assert(p(s[f]));
    }
    if i > f {
        assert(!p(s[i]));
    }
}

} // verus!
