//! Searching sequences.

use vstd::prelude::*;

verus! {

/// Whether `index` is the first place of `s` at which `p` holds.
pub open spec fn is_first<A>(s: Seq<A>, p: spec_fn(A) -> bool, index: int) -> bool {
    &&& 0 <= index < s.len()
    &&& p(s[index])
    &&& forall|before: int| 0 <= before < index ==> !p(#[trigger] s[before])
}

/// The first place of `s` at which `p` holds, if there is one.
pub open spec fn position<A>(s: Seq<A>, p: spec_fn(A) -> bool) -> Option<int> {
    if exists|index: int| is_first(s, p, index) {
        Some(choose|index: int| is_first(s, p, index))
    } else {
        None
    }
}

/// A first place is the position.
pub proof fn lemma_position_is<A>(s: Seq<A>, p: spec_fn(A) -> bool, index: int)
    requires
        is_first(s, p, index),
    ensures
        position(s, p) == Some(index),
{
    let found = choose|i: int| is_first(s, p, i);
    if found < index {
        assert(!p(s[found]));
    } else if index < found {
        assert(!p(s[index]));
    }
}

/// Where `p` holds nowhere, there is no position.
pub proof fn lemma_position_none<A>(s: Seq<A>, p: spec_fn(A) -> bool)
    requires
        forall|i: int| 0 <= i < s.len() ==> !p(#[trigger] s[i]),
    ensures
        position(s, p) is None,
{
    if exists|index: int| is_first(s, p, index) {
        let found = choose|i: int| is_first(s, p, i);
        assert(p(s[found]));
    }
}

/// Where `p` holds somewhere, there is a position, no later than that place.
pub proof fn lemma_position_some<A>(s: Seq<A>, p: spec_fn(A) -> bool, index: int)
    requires
        0 <= index < s.len(),
        p(s[index]),
    ensures
        position(s, p) is Some,
        is_first(s, p, position(s, p)->0),
        position(s, p)->0 <= index,
    decreases index,
{
    if exists|before: int| 0 <= before < index && p(#[trigger] s[before]) {
        let before = choose|before: int| 0 <= before < index && p(#[trigger] s[before]);
        lemma_position_some(s, p, before);
    } else {
        assert(is_first(s, p, index));
        lemma_position_is(s, p, index);
    }
}

/// What a position is, whether there is one or not.
pub proof fn lemma_position<A>(s: Seq<A>, p: spec_fn(A) -> bool)
    ensures
        position(s, p) matches Some(index) ==> is_first(s, p, index),
        position(s, p) is None ==> forall|i: int| 0 <= i < s.len() ==> !p(#[trigger] s[i]),
{
    if position(s, p) is None {
        assert forall|i: int| 0 <= i < s.len() implies !p(#[trigger] s[i]) by {
            if p(s[i]) {
                lemma_position_some(s, p, i);
            }
        }
    }
}

/// Filtering what was mapped is mapping what was filtered.
pub proof fn lemma_filter_of_map<A, B>(
    s: Seq<A>,
    f: spec_fn(A) -> B,
    p: spec_fn(A) -> bool,
    q: spec_fn(B) -> bool,
)
    requires
        forall|i: int| 0 <= i < s.len() ==> p(#[trigger] s[i]) == q(f(s[i])),
    ensures
        s.filter(p).map_values(f) == s.map_values(f).filter(q),
    decreases s.len(),
{
    reveal(Seq::filter);
    if s.len() > 0 {
        let rest = s.drop_last();
        assert forall|i: int| 0 <= i < rest.len() implies p(#[trigger] rest[i]) == q(f(rest[i])) by {
            assert(rest[i] == s[i]);
        }
        lemma_filter_of_map(rest, f, p, q);
        assert(s.map_values(f).drop_last() =~= rest.map_values(f));
        assert(s[s.len() - 1] == s.last());
        assert(s.filter(p).map_values(f) =~= s.map_values(f).filter(q));
    } else {
        assert(s.filter(p).map_values(f) =~= s.map_values(f).filter(q));
    }
}

/// Filtering shortens a sequence if and only if something is left out.
pub proof fn lemma_filter_drops<A>(s: Seq<A>, p: spec_fn(A) -> bool)
    ensures
        s.filter(p).len() <= s.len(),
        s.filter(p).len() != s.len() <==> exists|i: int| 0 <= i < s.len() && !p(#[trigger] s[i]),
    decreases s.len(),
{
    reveal(Seq::filter);
    if s.len() > 0 {
        let rest = s.drop_last();
        lemma_filter_drops(rest, p);
        assert(s.last() == s[s.len() - 1]);
        if exists|i: int| 0 <= i < rest.len() && !p(#[trigger] rest[i]) {
            let i = choose|i: int| 0 <= i < rest.len() && !p(#[trigger] rest[i]);
            assert(!p(s[i]));
        }
        if exists|i: int| 0 <= i < s.len() && !p(#[trigger] s[i]) {
            let i = choose|i: int| 0 <= i < s.len() && !p(#[trigger] s[i]);
            if i < rest.len() {
                assert(!p(rest[i]));
            }
        }
    }
}

/// Every item of a filtered sequence is an item of the sequence, and satisfies the
/// filter.
pub proof fn lemma_filter_from<A>(s: Seq<A>, p: spec_fn(A) -> bool, k: int)
    requires
        0 <= k < s.filter(p).len(),
    ensures
        p(s.filter(p)[k]),
        exists|i: int| 0 <= i < s.len() && #[trigger] s[i] == s.filter(p)[k],
    decreases s.len(),
{
    reveal(Seq::filter);
    let rest = s.drop_last();
    if k < rest.filter(p).len() {
        lemma_filter_from(rest, p, k);
        let i = choose|i: int| 0 <= i < rest.len() && #[trigger] rest[i] == rest.filter(p)[k];
        assert(s[i] == s.filter(p)[k]);
    } else {
        assert(s[s.len() - 1] == s.filter(p)[k]);
    }
}

/// Every item that satisfies the filter is in the filtered sequence.
pub proof fn lemma_filter_keeps<A>(s: Seq<A>, p: spec_fn(A) -> bool, i: int)
    requires
        0 <= i < s.len(),
        p(s[i]),
    ensures
        exists|k: int| 0 <= k < s.filter(p).len() && #[trigger] s.filter(p)[k] == s[i],
    decreases s.len(),
{
    reveal(Seq::filter);
    let rest = s.drop_last();
    if i < rest.len() {
        lemma_filter_keeps(rest, p, i);
        let k = choose|k: int| 0 <= k < rest.filter(p).len() && #[trigger] rest.filter(p)[k] == rest[i];
        assert(s.filter(p)[k] == s[i]);
    } else {
        assert(s.filter(p)[s.filter(p).len() - 1] == s[i]);
    }
}

/// Whether any two items of `s`, in order, are related by `r`.
pub open spec fn pairwise<A>(s: Seq<A>, r: spec_fn(A, A) -> bool) -> bool {
    forall|i: int, j: int| 0 <= i < j < s.len() ==> r(#[trigger] s[i], #[trigger] s[j])
}

/// A relation between any two items is kept by leaving items out.
pub proof fn lemma_filter_pairwise<A>(s: Seq<A>, p: spec_fn(A) -> bool, r: spec_fn(A, A) -> bool)
    requires
        pairwise(s, r),
    ensures
        pairwise(s.filter(p), r),
    decreases s.len(),
{
    reveal(Seq::filter);
    if s.len() > 0 {
        let rest = s.drop_last();
        assert forall|i: int, j: int| 0 <= i < j < rest.len() implies r(
            #[trigger] rest[i],
            #[trigger] rest[j],
        ) by {
            assert(rest[i] == s[i] && rest[j] == s[j]);
        }
        lemma_filter_pairwise(rest, p, r);
        if p(s.last()) {
            let kept = s.filter(p);
            assert forall|i: int, j: int| 0 <= i < j < kept.len() implies r(
                #[trigger] kept[i],
                #[trigger] kept[j],
            ) by {
                if j < kept.len() - 1 {
                    assert(kept[i] == rest.filter(p)[i] && kept[j] == rest.filter(p)[j]);
                } else {
                    lemma_filter_from(rest, p, i);
                    let k = choose|k: int|
                        0 <= k < rest.len() && #[trigger] rest[k] == rest.filter(p)[i];
                    assert(s[k] == kept[i]);
                    assert(s[s.len() - 1] == kept[j]);
                }
            }
        }
    }
}

/// Changing an item that is left out to another one that is left out changes nothing.
pub proof fn lemma_filter_update<A>(s: Seq<A>, p: spec_fn(A) -> bool, index: int, item: A)
    requires
        0 <= index < s.len(),
        !p(s[index]),
        !p(item),
    ensures
        s.update(index, item).filter(p) == s.filter(p),
    decreases s.len(),
{
    reveal(Seq::filter);
    let rest = s.drop_last();
    if index == s.len() - 1 {
        assert(s.update(index, item).drop_last() =~= rest);
    } else {
        lemma_filter_update(rest, p, index, item);
        assert(s.update(index, item).drop_last() =~= rest.update(index, item));
    }
}

/// Appending an item that is left out changes nothing.
pub proof fn lemma_filter_push<A>(s: Seq<A>, p: spec_fn(A) -> bool, item: A)
    requires
        !p(item),
    ensures
        s.push(item).filter(p) == s.filter(p),
{
    reveal(Seq::filter);
    assert(s.push(item).drop_last() =~= s);
}

/// Leaving out more is leaving it all out at once.
pub proof fn lemma_filter_twice<A>(s: Seq<A>, p: spec_fn(A) -> bool, q: spec_fn(A) -> bool)
    requires
        forall|i: int| 0 <= i < s.len() && p(#[trigger] s[i]) ==> q(s[i]),
    ensures
        s.filter(q).filter(p) == s.filter(p),
    decreases s.len(),
{
    reveal(Seq::filter);
    if s.len() > 0 {
        let rest = s.drop_last();
        assert forall|i: int| 0 <= i < rest.len() && p(#[trigger] rest[i]) implies q(rest[i]) by {
            assert(rest[i] == s[i]);
        }
        lemma_filter_twice(rest, p, q);
        let last = s.last();
        assert(last == s[s.len() - 1]);
        if q(last) {
            assert(s.filter(q).drop_last() =~= rest.filter(q));
        }
    }
}

/// Filtering with what every item satisfies changes nothing.
pub proof fn lemma_filter_all<A>(s: Seq<A>, p: spec_fn(A) -> bool)
    requires
        forall|i: int| 0 <= i < s.len() ==> p(#[trigger] s[i]),
    ensures
        s.filter(p) == s,
    decreases s.len(),
{
    reveal(Seq::filter);
    if s.len() > 0 {
        assert(p(s[s.len() - 1]));
        assert forall|i: int| 0 <= i < s.drop_last().len() implies p(
            #[trigger] s.drop_last()[i],
        ) by {
            assert(s.drop_last()[i] == s[i]);
        }
        lemma_filter_all(s.drop_last(), p);
        assert(s.filter(p) =~= s);
    } else {
        assert(s.filter(p) =~= s);
    }
}

} // verus!
