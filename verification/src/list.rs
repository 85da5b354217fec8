//! Lists of which a part is kept.

use vstd::prelude::*;

verus! {

/// What `f` makes of the items of a list, in their order, without those that it
/// makes nothing of.
pub open spec fn kept<A, B>(items: Seq<A>, f: spec_fn(A) -> Option<B>) -> Seq<B>
    decreases items.len(),
{
    if items.len() == 0 {
        Seq::empty()
    } else {
        match f(items.last()) {
            Some(item) => kept(items.drop_last(), f).push(item),
            None => kept(items.drop_last(), f),
        }
    }
}

/// One more item adds what `f` makes of it.
pub proof fn lemma_kept_next<A, B>(items: Seq<A>, f: spec_fn(A) -> Option<B>, i: int)
    requires
        0 <= i < items.len(),
    ensures
        kept(items.take(i + 1), f) == match f(items[i]) {
            Some(item) => kept(items.take(i), f).push(item),
            None => kept(items.take(i), f),
        },
{
    assert(items.take(i + 1).drop_last() =~= items.take(i));
    assert(items.take(i + 1).last() == items[i]);
}

/// Nothing is kept of no items.
pub proof fn lemma_kept_none<A, B>(items: Seq<A>, f: spec_fn(A) -> Option<B>)
    ensures
        kept(items.take(0), f) == Seq::<B>::empty(),
        items.take(items.len() as int) == items,
{
    assert(items.take(0) =~= Seq::<A>::empty());
    assert(items.take(items.len() as int) =~= items);
}

/// What is kept of two lists is kept of each.
pub proof fn lemma_kept_both<A, B>(a: Seq<A>, b: Seq<A>, f: spec_fn(A) -> Option<B>)
    ensures
        kept(a + b, f) == kept(a, f) + kept(b, f),
    decreases b.len(),
{
    if b.len() == 0 {
        assert(a + b =~= a);
        assert(kept(a, f) + kept(b, f) =~= kept(a, f));
    } else {
        lemma_kept_both(a, b.drop_last(), f);
        assert((a + b).drop_last() =~= a + b.drop_last());
        assert((a + b).last() == b.last());
        assert(kept(a + b, f) =~= kept(a, f) + kept(b, f));
    }
}

/// Whatever is kept was made of one of the items.
pub proof fn lemma_kept_source<A, B>(items: Seq<A>, f: spec_fn(A) -> Option<B>, k: int) -> (i: int)
    requires
        0 <= k < kept(items, f).len(),
    ensures
        0 <= i < items.len(),
        f(items[i]) == Some(kept(items, f)[k]),
    decreases items.len(),
{
    let before = kept(items.drop_last(), f);
    if k < before.len() {
        lemma_kept_source(items.drop_last(), f, k)
    } else {
        items.len() - 1
    }
}

} // verus!
