//! Counting events in a stream: the spec-level backbone of the
//! aggregator's counters and of the pipeline's bookkeeping laws.

use vstd::prelude::*;

verus! {

/// How many elements of `s` satisfy `p`, scanning from the front.
pub open spec fn count_matching<A>(s: Seq<A>, p: spec_fn(A) -> bool) -> int
    decreases s.len(),
{
    if s.len() == 0 {
        0
    } else {
        (if p(s.first()) {
            1int
        } else {
            0int
        }) + count_matching(s.drop_first(), p)
    }
}

pub proof fn lemma_count_bounds<A>(s: Seq<A>, p: spec_fn(A) -> bool)
    ensures
        0 <= count_matching(s, p) <= s.len(),
    decreases s.len(),
{
    if s.len() > 0 {
        lemma_count_bounds(s.drop_first(), p);
    }
}

/// Prepending one element adds one to the count exactly when it matches.
pub proof fn lemma_count_cons<A>(x: A, t: Seq<A>, p: spec_fn(A) -> bool)
    ensures
        count_matching(seq![x] + t, p) == count_matching(t, p) + (if p(x) {
            1int
        } else {
            0int
        }),
{
    let s = seq![x] + t;
    assert(s.first() == x);
    assert(s.drop_first() =~= t);
}

/// A non-empty stream whose last element does not match has at most
/// `len - 1` matches.
pub proof fn lemma_count_last_not<A>(s: Seq<A>, p: spec_fn(A) -> bool)
    requires
        s.len() > 0,
        !p(s.last()),
    ensures
        count_matching(s, p) <= s.len() - 1,
    decreases s.len(),
{
    if s.len() == 1 {
        assert(s.first() == s.last());
        assert(s.drop_first() =~= Seq::<A>::empty());
        assert(count_matching(Seq::<A>::empty(), p) == 0);
    } else {
        let t = s.drop_first();
        assert(t.last() == s.last());
        lemma_count_last_not(t, p);
    }
}

/// A stream all of whose matches lie at its final position has count one.
pub proof fn lemma_count_single_at_end<A>(s: Seq<A>, p: spec_fn(A) -> bool)
    requires
        s.len() > 0,
        p(s.last()),
        forall|i: int| 0 <= i < s.len() - 1 ==> !p(#[trigger] s[i]),
    ensures
        count_matching(s, p) == 1,
    decreases s.len(),
{
    if s.len() == 1 {
        assert(s.first() == s.last());
        assert(s.drop_first() =~= Seq::<A>::empty());
        assert(count_matching(Seq::<A>::empty(), p) == 0);
        assert(count_matching(s, p) == 1);
    } else {
        let t = s.drop_first();
        assert(t.len() == s.len() - 1);
        assert(t.last() == s.last());
        assert forall|i: int| 0 <= i < t.len() - 1 implies !p(#[trigger] t[i]) by {
            assert(t[i] == s[i + 1]);
            assert(!p(s[i + 1]));
        }
        lemma_count_single_at_end(t, p);
        assert(s.first() == s[0]);
        assert(!p(s.first()));
        assert(count_matching(s, p) == count_matching(t, p));
    }
}

} // verus!
