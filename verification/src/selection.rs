//! Facts about selecting the elements of a sequence that meet a condition.

use vstd::prelude::*;

verus! {

/// The selected elements are elements of the sequence, in their old order:
/// the result gives, for each selected element, its place in the sequence.
pub proof fn lemma_filter_places<A>(s: Seq<A>, p: spec_fn(A) -> bool) -> (places: Seq<int>)
    ensures
        places.len() == s.filter(p).len(),
        forall|k: int|
            0 <= k < places.len() ==> 0 <= #[trigger] places[k] < s.len() && s.filter(p)[k]
                == s[places[k]] && p(s[places[k]]),
        forall|k: int, l: int| 0 <= k < l < places.len() ==> places[k] < places[l],
    decreases s.len(),
{
    if s.len() == 0 {
        assert(s.filter(p) =~= Seq::<A>::empty()) by {
            s.lemma_filter_len(p);
        }
        Seq::empty()
    } else {
        let front = s.drop_last();
        let before = lemma_filter_places(front, p);
        assert(s == front.push(s.last()));
        front.lemma_filter_push(s.last(), p);
        if p(s.last()) {
            before.push(s.len() - 1)
        } else {
            before
        }
    }
}

/// Where no element meets the condition, nothing is selected.
pub proof fn lemma_filter_none<A>(s: Seq<A>, p: spec_fn(A) -> bool)
    requires
        forall|i: int| 0 <= i < s.len() ==> !p(#[trigger] s[i]),
    ensures
        s.filter(p) == Seq::<A>::empty(),
{
    let places = lemma_filter_places(s, p);
    if places.len() > 0 {
        assert(p(s[places[0]]));
    }
    assert(s.filter(p) =~= Seq::<A>::empty());
}

/// Where every element meets the condition, all are selected.
pub proof fn lemma_filter_all<A>(s: Seq<A>, p: spec_fn(A) -> bool)
    requires
        forall|i: int| 0 <= i < s.len() ==> p(#[trigger] s[i]),
    ensures
        s.filter(p) == s,
    decreases s.len(),
{
    if s.len() == 0 {
        s.lemma_filter_len(p);
        assert(s.filter(p) =~= s);
    } else {
        let front = s.drop_last();
        assert forall|i: int| 0 <= i < front.len() implies p(#[trigger] front[i]) by {
            assert(p(s[i]));
        }
        lemma_filter_all(front, p);
        assert(s == front.push(s.last()));
        front.lemma_filter_push(s.last(), p);
    }
}

} // verus!
