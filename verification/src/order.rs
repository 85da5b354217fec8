//! Orders and sorting.

use crate::text::{characters, views};
use vstd::prelude::*;

verus! {

/// Whether `a` stands before `b` or equals it, from position `at` on, where the
/// first difference decides and the smaller code point comes first.
pub open spec fn text_le_from(a: Seq<char>, b: Seq<char>, at: int) -> bool
    decreases a.len() - at,
{
    if at >= a.len() {
        true
    } else if at >= b.len() {
        false
    } else if a[at] == b[at] {
        text_le_from(a, b, at + 1)
    } else {
        (a[at] as int) < (b[at] as int)
    }
}

/// Whether `a` stands before `b` in the order of texts, or equals it.
pub open spec fn text_le(a: Seq<char>, b: Seq<char>) -> bool {
    text_le_from(a, b, 0)
}

/// A text may stand before itself.
pub proof fn lemma_text_reflexive(a: Seq<char>, at: int)
    requires
        0 <= at,
    ensures
        text_le_from(a, a, at),
    decreases a.len() - at,
{
    if at < a.len() {
        lemma_text_reflexive(a, at + 1);
    }
}

/// Of two texts one stands before the other or equals it.
pub proof fn lemma_text_total(a: Seq<char>, b: Seq<char>, at: int)
    requires
        0 <= at,
    ensures
        text_le_from(a, b, at) || text_le_from(b, a, at),
    decreases a.len() - at,
{
    if at < a.len() && at < b.len() {
        if a[at] == b[at] {
            lemma_text_total(a, b, at + 1);
        }
    }
}

/// The order of texts is transitive.
pub proof fn lemma_text_transitive(a: Seq<char>, b: Seq<char>, c: Seq<char>, at: int)
    requires
        0 <= at,
        text_le_from(a, b, at),
        text_le_from(b, c, at),
    ensures
        text_le_from(a, c, at),
    decreases a.len() - at,
{
    if at < a.len() && at < b.len() && at < c.len() && a[at] == b[at] && b[at] == c[at] {
        lemma_text_transitive(a, b, c, at + 1);
    }
}

/// Texts that stand before each other are equal.
pub proof fn lemma_text_antisymmetric(a: Seq<char>, b: Seq<char>, at: int)
    requires
        0 <= at <= a.len(),
        at <= b.len(),
        a.take(at) == b.take(at),
        text_le_from(a, b, at),
        text_le_from(b, a, at),
    ensures
        a == b,
    decreases a.len() - at,
{
    if at < a.len() && at < b.len() {
        assert(a.take(at + 1) =~= a.take(at).push(a[at]));
        assert(b.take(at + 1) =~= b.take(at).push(b[at]));
        lemma_text_antisymmetric(a, b, at + 1);
    } else {
        assert(a =~= a.take(at));
        assert(b =~= b.take(at));
    }
}

/// Whether `a` stands before `b` in the order of texts, or equals it.
pub fn text_at_most(a: &str, b: &str) -> (r: bool)
    ensures
        r == text_le(a@, b@),
{
    let x: Vec<char> = characters(a);
    let y: Vec<char> = characters(b);
    let mut at: usize = 0;
    while at < x.len()
        invariant
            x@ == a@,
            y@ == b@,
            at <= x@.len(),
            text_le(a@, b@) == text_le_from(a@, b@, at as int),
        decreases x@.len() - at,
    {
        if at >= y.len() {
            return false;
        }
        let c: char = x[at];
        let d: char = y[at];
        if c != d {
            return c < d;
        }
        at += 1;
    }
    true
}

/// Texts are ordered as in a dictionary: where they first differ the smaller character
/// comes first, and a text stands before those that begin with it.
pub proof fn law_texts_stand_as_in_a_dictionary(a: Seq<char>, b: Seq<char>, at: int)
    requires
        0 <= at <= a.len(),
        at <= b.len(),
        forall|i: int| 0 <= i < at ==> #[trigger] a[i] == #[trigger] b[i],
        at < a.len() && at < b.len() ==> a[at] != b[at],
    ensures
        at < a.len() && at < b.len() ==> (text_le(a, b) <==> (a[at] as int) < (b[at] as int)),
        at == a.len() ==> text_le(a, b),
        at == b.len() && at < a.len() ==> !text_le(a, b),
{
    lemma_text_same_start(a, b, 0, at);
}

proof fn lemma_text_same_start(a: Seq<char>, b: Seq<char>, from: int, at: int)
    requires
        0 <= from <= at <= a.len(),
        at <= b.len(),
        forall|i: int| from <= i < at ==> #[trigger] a[i] == #[trigger] b[i],
    ensures
        text_le_from(a, b, from) == text_le_from(a, b, at),
    decreases at - from,
{
    if from < at {
        assert(a[from] == b[from]);
        lemma_text_same_start(a, b, from + 1, at);
    }
}

/// Whether the first of two lists of texts stands before the second or equals
/// it, where the first pair of different texts decides.
pub open spec fn texts_le(a: Seq<Seq<char>>, b: Seq<Seq<char>>) -> bool
    decreases a.len(),
{
    if a.len() == 0 {
        true
    } else if b.len() == 0 {
        false
    } else if a[0] == b[0] {
        texts_le(a.skip(1), b.skip(1))
    } else {
        text_le(a[0], b[0])
    }
}

pub proof fn lemma_texts_total(a: Seq<Seq<char>>, b: Seq<Seq<char>>)
    ensures
        texts_le(a, b) || texts_le(b, a),
    decreases a.len(),
{
    if a.len() > 0 && b.len() > 0 {
        if a[0] == b[0] {
            lemma_texts_total(a.skip(1), b.skip(1));
        } else {
            lemma_text_total(a[0], b[0], 0);
        }
    }
}

pub proof fn lemma_texts_transitive(a: Seq<Seq<char>>, b: Seq<Seq<char>>, c: Seq<Seq<char>>)
    requires
        texts_le(a, b),
        texts_le(b, c),
    ensures
        texts_le(a, c),
    decreases a.len(),
{
    if a.len() > 0 && b.len() > 0 && c.len() > 0 {
        if a[0] == b[0] && b[0] == c[0] {
            lemma_texts_transitive(a.skip(1), b.skip(1), c.skip(1));
        } else if a[0] != b[0] && b[0] != c[0] {
            lemma_text_transitive(a[0], b[0], c[0], 0);
            if a[0] == c[0] {
                assert(a[0].take(0) =~= b[0].take(0));
                lemma_text_antisymmetric(a[0], b[0], 0);
            }
        }
    }
}

/// Items that a list can be sorted by.
pub trait Ranked: View + Sized {
    /// Whether an item may stand before another.
    spec fn le(a: Self::V, b: Self::V) -> bool;

    /// Whether this item may stand before the other.
    fn at_most(&self, other: &Self) -> (r: bool)
        ensures
            r == Self::le(self@, other@),
    ;

    /// Of two items one may stand before the other.
    proof fn total(a: Self::V, b: Self::V)
        ensures
            Self::le(a, b) || Self::le(b, a),
    ;

    /// The order is transitive.
    proof fn transitive(a: Self::V, b: Self::V, c: Self::V)
        requires
            Self::le(a, b),
            Self::le(b, c),
        ensures
            Self::le(a, c),
    ;
}

/// Whether every item may stand before those behind it.
pub open spec fn sorted<T: Ranked>(s: Seq<T::V>) -> bool {
    forall|i: int, j: int| 0 <= i <= j < s.len() ==> #[trigger] T::le(s[i], s[j])
}

/// Whether `s` holds the items of `items`, each as often, in order.
pub open spec fn sorts<T: Ranked>(s: Seq<T::V>, items: Seq<T::V>) -> bool {
    sorted::<T>(s) && s.to_multiset() == items.to_multiset()
}

/// A list with one more item behind the last that may stand before it.
pub open spec fn placed<T: Ranked>(s: Seq<T::V>, x: T::V) -> Seq<T::V>
    decreases s.len(),
{
    if s.len() == 0 || T::le(s.last(), x) {
        s.push(x)
    } else {
        placed::<T>(s.drop_last(), x).push(s.last())
    }
}

/// The items of a list in order. Those of which each may stand before the other
/// stay in the order in which they came.
pub open spec fn arranged<T: Ranked>(items: Seq<T::V>) -> Seq<T::V>
    decreases items.len(),
{
    if items.len() == 0 {
        Seq::empty()
    } else {
        placed::<T>(arranged::<T>(items.drop_last()), items.last())
    }
}

proof fn lemma_last<A>(s: Seq<A>)
    requires
        s.len() > 0,
    ensures
        s.to_multiset() == s.drop_last().to_multiset().insert(s.last()),
{
    assert(s =~= s.drop_last().push(s.last()));
    vstd::seq_lib::to_multiset_build(s.drop_last(), s.last());
}

proof fn lemma_filter_push<A>(s: Seq<A>, x: A, p: spec_fn(A) -> bool)
    ensures
        s.push(x).filter(p) == if p(x) {
            s.filter(p).push(x)
        } else {
            s.filter(p)
        },
{
    reveal(Seq::filter);
    assert(s.push(x).drop_last() =~= s);
}

proof fn lemma_placed_among_equals<T: Ranked>(s: Seq<T::V>, x: T::V, y: T::V)
    ensures
        ({
            let p = |z: T::V| T::le(z, y) && T::le(y, z);
            placed::<T>(s, x).filter(p) == s.push(x).filter(p)
        }),
    decreases s.len(),
{
    let p = |z: T::V| T::le(z, y) && T::le(y, z);
    if !(s.len() == 0 || T::le(s.last(), x)) {
        let fewer = s.drop_last();
        lemma_placed_among_equals::<T>(fewer, x, y);
        lemma_filter_push(placed::<T>(fewer, x), s.last(), p);
        lemma_filter_push(fewer, x, p);
        lemma_filter_push(fewer, s.last(), p);
        lemma_filter_push(s, x, p);
        assert(fewer.push(s.last()) =~= s);
        if p(x) && p(s.last()) {
            T::transitive(s.last(), y, x);
        }
    }
}

/// Items of which each may stand before the other keep the order in which they came.
pub proof fn law_equal_items_keep_their_order<T: Ranked>(items: Seq<T::V>, y: T::V)
    ensures
        arranged::<T>(items).filter(|z: T::V| T::le(z, y) && T::le(y, z)) == items.filter(
            |z: T::V| T::le(z, y) && T::le(y, z),
        ),
    decreases items.len(),
{
    let p = |z: T::V| T::le(z, y) && T::le(y, z);
    if items.len() > 0 {
        let fewer = items.drop_last();
        law_equal_items_keep_their_order::<T>(fewer, y);
        lemma_placed_among_equals::<T>(arranged::<T>(fewer), items.last(), y);
        lemma_filter_push(arranged::<T>(fewer), items.last(), p);
        lemma_filter_push(fewer, items.last(), p);
        assert(fewer.push(items.last()) =~= items);
    }
}

/// Lists of the same items hold the same.
pub proof fn lemma_same_items<A>(s: Seq<A>, t: Seq<A>, x: A)
    requires
        s.to_multiset() == t.to_multiset(),
        s.contains(x),
    ensures
        t.contains(x),
{
    s.to_multiset_ensures();
    t.to_multiset_ensures();
    assert(s.to_multiset().count(x) > 0);
    assert(t.to_multiset().count(x) > 0);
}

proof fn lemma_views_pop<T: View>(s: Seq<T>)
    requires
        s.len() > 0,
    ensures
        views(s).drop_last() == views(s.drop_last()),
        views(s).last() == s.last()@,
{
    assert(views(s).drop_last() =~= views(s.drop_last()));
}

proof fn lemma_views_push<T: View>(s: Seq<T>, x: T)
    ensures
        views(s.push(x)) == views(s).push(x@),
{
    assert(views(s.push(x)) =~= views(s).push(x@));
}

proof fn lemma_placed<T: Ranked>(s: Seq<T::V>, x: T::V)
    requires
        sorted::<T>(s),
    ensures
        sorted::<T>(placed::<T>(s, x)),
        placed::<T>(s, x).to_multiset() == s.to_multiset().insert(x),
        placed::<T>(s, x).last() == x || (s.len() > 0 && placed::<T>(s, x).last() == s.last()),
        placed::<T>(s, x).len() == s.len() + 1,
    decreases s.len(),
{
    T::total(x, x);
    let r = placed::<T>(s, x);
    if s.len() == 0 || T::le(s.last(), x) {
        vstd::seq_lib::to_multiset_build(s, x);
        assert forall|i: int, j: int| 0 <= i <= j < r.len() implies #[trigger] T::le(
            r[i],
            r[j],
        ) by {
            if j < s.len() {
                assert(T::le(s[i], s[j]));
            } else if i < s.len() {
                assert(T::le(s[i], s[s.len() - 1]));
                T::transitive(s[i], s.last(), x);
            }
        }
    } else {
        let fewer = s.drop_last();
        let last = s.last();
        assert forall|i: int, j: int| 0 <= i <= j < fewer.len() implies #[trigger] T::le(
            fewer[i],
            fewer[j],
        ) by {
            assert(T::le(s[i], s[j]));
        }
        lemma_placed::<T>(fewer, x);
        let before = placed::<T>(fewer, x);
        T::total(last, x);
        T::total(last, last);
        vstd::seq_lib::to_multiset_build(before, last);
        lemma_last(s);
        assert(fewer.to_multiset().insert(x).insert(last) =~= fewer.to_multiset().insert(
            last,
        ).insert(x));
        assert forall|i: int, j: int| 0 <= i <= j < r.len() implies #[trigger] T::le(
            r[i],
            r[j],
        ) by {
            if j < before.len() {
                assert(T::le(before[i], before[j]));
            } else if i < before.len() {
                assert(T::le(before[i], before[before.len() - 1]));
                if before.last() != x {
                    assert(T::le(s[s.len() - 2], s[s.len() - 1]));
                }
                T::transitive(before[i], before.last(), last);
            }
        }
    }
}

/// The items of a list in order are its items, each as often, and every one may
/// stand before those behind it.
pub proof fn law_arranged_is_sorted<T: Ranked>(items: Seq<T::V>)
    ensures
        sorts::<T>(arranged::<T>(items), items),
        arranged::<T>(items).len() == items.len(),
    decreases items.len(),
{
    if items.len() == 0 {
        assert(arranged::<T>(items) =~= items);
    } else {
        law_arranged_is_sorted::<T>(items.drop_last());
        lemma_placed::<T>(arranged::<T>(items.drop_last()), items.last());
        lemma_last(items);
    }
}

/// What keeps the order of every two items keeps the order of all.
pub proof fn law_arranging_follows_the_order<A: Ranked, B: Ranked>(
    items: Seq<A::V>,
    f: spec_fn(A::V) -> B::V,
)
    requires
        forall|i: int, j: int|
            0 <= i < items.len() && 0 <= j < items.len() ==> B::le(
                f(#[trigger] items[i]),
                f(#[trigger] items[j]),
            ) == A::le(items[i], items[j]),
    ensures
        arranged::<B>(items.map_values(f)) == arranged::<A>(items).map_values(f),
    decreases items.len(),
{
    let mapped = items.map_values(f);
    if items.len() == 0 {
        assert(arranged::<B>(mapped) =~= arranged::<A>(items).map_values(f));
    } else {
        let fewer = items.drop_last();
        let x = items.last();
        assert forall|i: int, j: int| 0 <= i < fewer.len() && 0 <= j < fewer.len() implies B::le(
            f(#[trigger] fewer[i]),
            f(#[trigger] fewer[j]),
        ) == A::le(fewer[i], fewer[j]) by {
            assert(fewer[i] == items[i] && fewer[j] == items[j]);
        }
        law_arranging_follows_the_order::<A, B>(fewer, f);
        assert(mapped.drop_last() =~= fewer.map_values(f));
        assert(mapped.last() == f(x));
        let s = arranged::<A>(fewer);
        law_arranged_is_sorted::<A>(fewer);
        assert forall|i: int| 0 <= i < s.len() implies B::le(f(#[trigger] s[i]), f(x)) == A::le(
            s[i],
            x,
        ) by {
            assert(s.contains(s[i]));
            lemma_same_items(s, fewer, s[i]);
            let k = choose|k: int| 0 <= k < fewer.len() && fewer[k] == s[i];
            assert(items[k] == s[i]);
            assert(items[items.len() - 1] == x);
        }
        lemma_placed_map::<A, B>(s, x, f);
    }
}

proof fn lemma_placed_map<A: Ranked, B: Ranked>(s: Seq<A::V>, x: A::V, f: spec_fn(A::V) -> B::V)
    requires
        forall|i: int|
            0 <= i < s.len() ==> B::le(f(#[trigger] s[i]), f(x)) == A::le(s[i], x),
    ensures
        placed::<B>(s.map_values(f), f(x)) == placed::<A>(s, x).map_values(f),
    decreases s.len(),
{
    let mapped = s.map_values(f);
    if s.len() == 0 {
        assert(placed::<B>(mapped, f(x)) =~= placed::<A>(s, x).map_values(f));
    } else {
        let last = s.len() - 1;
        assert(mapped.last() == f(s[last]));
        assert(B::le(f(s[last]), f(x)) == A::le(s[last], x));
        let fewer = s.drop_last();
        assert(mapped.drop_last() =~= fewer.map_values(f));
        if !A::le(s.last(), x) {
            assert forall|i: int| 0 <= i < fewer.len() implies B::le(
                f(#[trigger] fewer[i]),
                f(x),
            ) == A::le(fewer[i], x) by {
                assert(fewer[i] == s[i]);
            }
            lemma_placed_map::<A, B>(fewer, x, f);
        }
        assert(placed::<B>(mapped, f(x)) =~= placed::<A>(s, x).map_values(f));
    }
}

/// Two lists merged from their ends, where of two last items that may stand either
/// way the one of `b` stays behind.
spec fn merged<T: Ranked>(a: Seq<T::V>, b: Seq<T::V>) -> Seq<T::V>
    decreases a.len() + b.len(),
{
    if b.len() == 0 {
        a
    } else if a.len() == 0 {
        b
    } else if T::le(a.last(), b.last()) {
        merged::<T>(a, b.drop_last()).push(b.last())
    } else {
        merged::<T>(a.drop_last(), b).push(a.last())
    }
}

proof fn lemma_merged_placed<T: Ranked>(a: Seq<T::V>, b: Seq<T::V>, x: T::V)
    ensures
        placed::<T>(merged::<T>(a, b), x) == merged::<T>(a, placed::<T>(b, x)),
    decreases a.len() + b.len(),
{
    let m = merged::<T>(a, b);
    let p = placed::<T>(b, x);
    assert(b.push(x).drop_last() =~= b);
    if a.len() > 0 {
        let fewer = a.drop_last();
        lemma_merged_placed::<T>(fewer, b, x);
        assert(merged::<T>(fewer, b).push(a.last()).drop_last() =~= merged::<T>(fewer, b));
    }
    if b.len() > 0 {
        let fewer = b.drop_last();
        lemma_merged_placed::<T>(a, fewer, x);
        assert(merged::<T>(a, fewer).push(b.last()).drop_last() =~= merged::<T>(a, fewer));
        assert(placed::<T>(fewer, x).push(b.last()).drop_last() =~= placed::<T>(fewer, x));
    }
    if a.len() > 0 && b.len() > 0 {
        if T::le(b.last(), x) {
            if T::le(a.last(), b.last()) {
                T::transitive(a.last(), b.last(), x);
            }
        } else if !T::le(a.last(), b.last()) {
            T::total(a.last(), b.last());
            if T::le(a.last(), x) {
                T::transitive(b.last(), a.last(), x);
            }
        }
    }
}

proof fn lemma_merged<T: Ranked>(a: Seq<T::V>, b: Seq<T::V>)
    ensures
        arranged::<T>(a + b) == merged::<T>(arranged::<T>(a), arranged::<T>(b)),
    decreases b.len(),
{
    if b.len() == 0 {
        assert(a + b =~= a);
    } else {
        assert((a + b).drop_last() =~= a + b.drop_last());
        assert((a + b).last() == b.last());
        lemma_merged::<T>(a, b.drop_last());
        lemma_merged_placed::<T>(
            arranged::<T>(a),
            arranged::<T>(b.drop_last()),
            b.last(),
        );
    }
}

/// Merges two lists from their ends.
fn merge<T: Ranked>(a: Vec<T>, b: Vec<T>) -> (r: Vec<T>)
    ensures
        views(r@) == merged::<T>(views(a@), views(b@)),
{
    let mut a: Vec<T> = a;
    let mut b: Vec<T> = b;
    let mut out: Vec<T> = Vec::new();
    let ghost all = merged::<T>(views(a@), views(b@));
    assert(all =~= all + views(out@).reverse());
    while a.len() > 0 || b.len() > 0
        invariant
            all == merged::<T>(views(a@), views(b@)) + views(out@).reverse(),
        decreases a@.len() + b@.len(),
    {
        let ghost sa = views(a@);
        let ghost sb = views(b@);
        let ghost done = views(out@);
        let from_b: bool = if a.len() == 0 {
            true
        } else if b.len() == 0 {
            false
        } else {
            a[a.len() - 1].at_most(&b[b.len() - 1])
        };
        let taken: Option<T> = if from_b {
            proof {
                lemma_views_pop(b@);
            }
            b.pop()
        } else {
            proof {
                lemma_views_pop(a@);
            }
            a.pop()
        };
        if let Some(x) = taken {
            proof {
                lemma_views_push(out@, x);
                assert(done.push(x@).reverse() =~= seq![x@] + done.reverse());
                let rest = merged::<T>(views(a@), views(b@));
                assert(merged::<T>(sa, sb) =~= rest.push(x@));
                assert(rest.push(x@) + done.reverse() =~= rest + (seq![x@] + done.reverse()));
            }
            out.push(x);
        }
    }
    let mut r: Vec<T> = Vec::new();
    let ghost whole = views(out@);
    proof {
        assert(views(a@) =~= Seq::<T::V>::empty());
        assert(all =~= whole.reverse());
        assert(views(r@) =~= whole.reverse().take(0));
    }
    while out.len() > 0
        invariant
            out@.len() <= whole.len(),
            views(out@) == whole.take(out@.len() as int),
            views(r@) == whole.reverse().take(whole.len() - out@.len()),
        decreases out@.len(),
    {
        let ghost n = out@.len() as int;
        proof {
            lemma_views_pop(out@);
        }
        match out.pop() {
            Some(x) => {
                proof {
                    lemma_views_push(r@, x);
                    assert(x@ == whole[n - 1]);
                }
                r.push(x);
                assert(views(out@) =~= whole.take(n - 1));
                assert(views(r@) =~= whole.reverse().take(whole.len() - (n - 1)));
            },
            None => {},
        }
    }
    assert(views(r@) =~= whole.reverse());
    r
}

/// Sorts a list. Items of which each may stand before the other stay in the order
/// in which they came.
pub fn sort<T: Ranked>(items: Vec<T>) -> (r: Vec<T>)
    ensures
        views(r@) == arranged::<T>(views(items@)),
        r@.len() == items@.len(),
    decreases items@.len(),
{
    let mut items: Vec<T> = items;
    let ghost whole = views(items@);
    let n: usize = items.len();
    if n <= 1 {
        proof {
            if n == 1 {
                assert(whole.drop_last() =~= Seq::<T::V>::empty());
                assert(arranged::<T>(whole.drop_last()) =~= Seq::<T::V>::empty());
            }
            assert(arranged::<T>(whole) =~= whole);
        }
        return items;
    }
    let half: usize = n / 2;
    let tail: Vec<T> = items.split_off(half);
    let ghost a = views(items@);
    let ghost b = views(tail@);
    let left: Vec<T> = sort(items);
    let right: Vec<T> = sort(tail);
    let r: Vec<T> = merge(left, right);
    proof {
        assert(whole =~= a + b);
        lemma_merged::<T>(a, b);
        law_arranged_is_sorted::<T>(whole);
        assert(views(r@).len() == whole.len());
    }
    r
}

/// Whether the item at `a` stands strictly before the one at `b`: its key is
/// larger, or as large and it comes first.
pub open spec fn outranks(keys: Seq<int>, a: int, b: int) -> bool {
    keys[a] > keys[b] || (keys[a] == keys[b] && a < b)
}

/// Whether `order` lists all positions, those of the larger keys first and equal
/// keys in the order in which they came.
pub open spec fn is_ranking(keys: Seq<int>, order: Seq<int>) -> bool {
    &&& order.len() == keys.len()
    &&& forall|i: int| 0 <= i < order.len() ==> 0 <= #[trigger] order[i] < keys.len()
    &&& forall|x: int| 0 <= x < keys.len() ==> #[trigger] order.contains(x)
    &&& forall|i: int, j: int|
        0 <= i < j < order.len() ==> outranks(keys, #[trigger] order[i], #[trigger] order[j])
}

/// The positions of the keys from the largest key down.
pub open spec fn ranking(keys: Seq<int>) -> Seq<int> {
    choose|order: Seq<int>| is_ranking(keys, order)
}

/// There is one ranking of given keys.
pub proof fn lemma_ranking_unique(keys: Seq<int>, a: Seq<int>, b: Seq<int>)
    requires
        is_ranking(keys, a),
        is_ranking(keys, b),
    ensures
        a == b,
{
    lemma_ranking_prefix(keys, a, b, a.len() as int);
    assert(a =~= b);
}

proof fn lemma_ranking_prefix(keys: Seq<int>, a: Seq<int>, b: Seq<int>, n: int)
    requires
        is_ranking(keys, a),
        is_ranking(keys, b),
        0 <= n <= a.len(),
    ensures
        forall|i: int| 0 <= i < n ==> a[i] == b[i],
    decreases n,
{
    if n > 0 {
        lemma_ranking_prefix(keys, a, b, n - 1);
        let k = n - 1;
        let x = a[k];
        let y = b[k];
        assert(b.contains(x));
        assert(a.contains(y));
        let p = choose|p: int| 0 <= p < b.len() && b[p] == x;
        let q = choose|q: int| 0 <= q < a.len() && a[q] == y;
        if p < k {
            assert(outranks(keys, a[p], a[k]));
        } else if p > k {
            assert(outranks(keys, b[k], b[p]));
            if q < k {
                assert(outranks(keys, b[q], b[k]));
            } else if q > k {
                assert(outranks(keys, a[k], a[q]));
            }
        }
    }
}

/// Any keys have a ranking.
pub proof fn lemma_ranking_exists(keys: Seq<int>)
    ensures
        is_ranking(keys, ranking(keys)),
{
    let order = lemma_build_ranking(keys);
    assert(is_ranking(keys, order));
}

proof fn lemma_build_ranking(keys: Seq<int>) -> (order: Seq<int>)
    ensures
        is_ranking(keys, order),
    decreases keys.len(),
{
    if keys.len() == 0 {
        let order = Seq::<int>::empty();
        assert(is_ranking(keys, order));
        order
    } else {
        let n = keys.len() - 1;
        let fewer = keys.drop_last();
        let rest = lemma_build_ranking(fewer);
        let p = lemma_place(keys, rest, keys[n], rest.len() as int);
        let order = rest.insert(p, n);
        assert forall|x: int| 0 <= x < keys.len() implies #[trigger] order.contains(x) by {
            if x == n {
                assert(order[p] == n);
            } else {
                assert(rest.contains(x));
                let q = choose|q: int| 0 <= q < rest.len() && rest[q] == x;
                if q < p {
                    assert(order[q] == x);
                } else {
                    assert(order[q + 1] == x);
                }
            }
        }
        assert forall|i: int| 0 <= i < order.len() implies 0 <= #[trigger] order[i]
            < keys.len() by {
            if i < p {
                assert(order[i] == rest[i]);
            } else if i > p {
                assert(order[i] == rest[i - 1]);
            }
        }
        assert forall|i: int, j: int| 0 <= i < j < order.len() implies outranks(
            keys,
            #[trigger] order[i],
            #[trigger] order[j],
        ) by {
            let a = if i < p {
                i
            } else {
                i - 1
            };
            let b = if j < p {
                j
            } else {
                j - 1
            };
            if i != p && j != p {
                assert(order[i] == rest[a] && order[j] == rest[b]);
                assert(outranks(fewer, rest[a], rest[b]));
            } else if i == p {
                assert(order[j] == rest[b]);
            } else {
                assert(order[i] == rest[a]);
            }
        }
        order
    }
}

/// The place of a new key of value `key` among the first `end` positions of a ranking.
proof fn lemma_place(keys: Seq<int>, rest: Seq<int>, key: int, end: int) -> (p: int)
    requires
        0 <= end <= rest.len(),
        is_ranking(keys.drop_last(), rest),
        keys.len() > 0,
        forall|i: int| end <= i < rest.len() ==> keys[#[trigger] rest[i]] < key,
    ensures
        0 <= p <= rest.len(),
        forall|i: int| 0 <= i < p ==> keys[#[trigger] rest[i]] >= key,
        forall|i: int| p <= i < rest.len() ==> keys[#[trigger] rest[i]] < key,
    decreases end,
{
    if end == 0 {
        0
    } else if keys[rest[end - 1]] >= key {
        assert forall|i: int| 0 <= i < end implies keys[#[trigger] rest[i]] >= key by {
            if i < end - 1 {
                assert(outranks(keys.drop_last(), rest[i], rest[end - 1]));
            }
        }
        end
    } else {
        lemma_place(keys, rest, key, end - 1)
    }
}

/// The positions below `n` of which something holds.
pub open spec fn places(n: nat, holds: spec_fn(int) -> bool) -> Set<int> {
    Set::new(|j: int| 0 <= j < n && holds(j))
}

/// As many items are filtered out of a list as there are positions at which they stand.
pub proof fn lemma_filtered<A>(items: Seq<A>, p: spec_fn(A) -> bool)
    ensures
        places(items.len(), |j: int| p(items[j])).finite(),
        items.filter(p).len() == places(items.len(), |j: int| p(items[j])).len(),
    decreases items.len(),
{
    reveal(Seq::filter);
    let all = places(items.len(), |j: int| p(items[j]));
    if items.len() == 0 {
        assert(all =~= Set::empty());
    } else {
        let fewer = items.drop_last();
        let last = items.len() - 1;
        let before = places(fewer.len(), |j: int| p(fewer[j]));
        lemma_filtered(fewer, p);
        assert forall|j: int| 0 <= j < fewer.len() implies fewer[j] == items[j] by {}
        if p(items.last()) {
            assert(all =~= before.insert(last));
            assert(!before.contains(last));
        } else {
            assert(all =~= before);
        }
    }
}

/// An item stands in a ranking behind those whose keys are larger, and before all others
/// but those whose keys are as large: where it stands is at least the number of the former
/// and less than the number of both with itself.
pub proof fn law_a_rank_counts_the_larger<A>(
    items: Seq<A>,
    weight: spec_fn(A) -> int,
    order: Seq<int>,
    p: int,
)
    requires
        is_ranking(items.map_values(weight), order),
        0 <= p < order.len(),
    ensures
        items.filter(|item: A| weight(item) > weight(items[order[p]])).len() <= p,
        p < items.filter(|item: A| weight(item) >= weight(items[order[p]])).len(),
{
    let keys = items.map_values(weight);
    let i = order[p];
    let more = |item: A| weight(item) > weight(items[i]);
    let as_much = |item: A| weight(item) >= weight(items[i]);
    lemma_filtered(items, more);
    lemma_filtered(items, as_much);
    let larger = places(items.len(), |j: int| more(items[j]));
    let as_large = places(items.len(), |j: int| as_much(items[j]));
    let head = order.take(p);
    let upto = order.take(p + 1);
    assert(head.no_duplicates() && upto.no_duplicates()) by {
        assert forall|a: int, b: int| 0 <= a < b < order.len() implies order[a] != order[b] by {
            assert(outranks(keys, order[a], order[b]));
        }
    }
    head.unique_seq_to_set();
    upto.unique_seq_to_set();
    assert(larger.subset_of(head.to_set())) by {
        assert forall|j: int| larger.contains(j) implies head.to_set().contains(j) by {
            assert(order.contains(j));
            let q = choose|q: int| 0 <= q < order.len() && order[q] == j;
            if q > p {
                assert(outranks(keys, order[p], order[q]));
            }
            assert(head[q] == j);
        }
    }
    assert(upto.to_set().subset_of(as_large)) by {
        assert forall|j: int| upto.to_set().contains(j) implies as_large.contains(j) by {
            let q = choose|q: int| 0 <= q < upto.len() && upto[q] == j;
            assert(order[q] == j);
            if q < p {
                assert(outranks(keys, order[q], order[p]));
            }
        }
    }
    vstd::seq_lib::seq_to_set_is_finite(head);
    vstd::set_lib::lemma_len_subset(larger, head.to_set());
    vstd::set_lib::lemma_len_subset(upto.to_set(), as_large);
}

/// A key and the position that it came from.
pub struct Rank {
    pub key: i128,
    pub index: usize,
}

impl View for Rank {
    type V = (int, int);

    open spec fn view(&self) -> (int, int) {
        (self.key as int, self.index as int)
    }
}

impl Ranked for Rank {
    open spec fn le(a: (int, int), b: (int, int)) -> bool {
        a.0 > b.0 || (a.0 == b.0 && a.1 <= b.1)
    }

    fn at_most(&self, other: &Self) -> (r: bool) {
        self.key > other.key || (self.key == other.key && self.index <= other.index)
    }

    proof fn total(a: (int, int), b: (int, int)) {
    }

    proof fn transitive(a: (int, int), b: (int, int), c: (int, int)) {
    }
}

/// The keys as numbers.
pub open spec fn key_numbers(keys: Seq<i128>) -> Seq<int> {
    Seq::new(keys.len(), |i: int| keys[i] as int)
}

/// Positions as numbers.
pub open spec fn positions(order: Seq<usize>) -> Seq<int> {
    Seq::new(order.len(), |i: int| order[i] as int)
}

/// The positions of the keys from the largest key down.
pub fn rank(keys: &Vec<i128>) -> (r: Vec<usize>)
    ensures
        is_ranking(key_numbers(keys@), positions(r@)),
        positions(r@) == ranking(key_numbers(keys@)),
{
    let mut ranks: Vec<Rank> = Vec::new();
    let mut i: usize = 0;
    while i < keys.len()
        invariant
            i <= keys@.len(),
            ranks@.len() == i,
            forall|j: int|
                0 <= j < i ==> #[trigger] ranks@[j] == (Rank { key: keys@[j], index: j as usize }),
        decreases keys@.len() - i,
    {
        ranks.push(Rank { key: keys[i], index: i });
        i += 1;
    }
    let ghost items = views(ranks@);
    let ordered: Vec<Rank> = sort(ranks);
    proof {
        law_arranged_is_sorted::<Rank>(items);
    }
    let mut r: Vec<usize> = Vec::new();
    let mut k: usize = 0;
    while k < ordered.len()
        invariant
            k <= ordered@.len(),
            r@.len() == k,
            forall|j: int| 0 <= j < k ==> #[trigger] r@[j] == ordered@[j].index,
        decreases ordered@.len() - k,
    {
        r.push(ordered[k].index);
        k += 1;
    }
    proof {
        let order = positions(r@);
        let s = views(ordered@);
        let numbers = key_numbers(keys@);
        items.to_multiset_ensures();
        s.to_multiset_ensures();
        assert(items.no_duplicates()) by {
            assert forall|i: int, j: int|
                0 <= i < items.len() && 0 <= j < items.len() && i != j implies items[i]
                != items[j] by {
                assert(items[i] == ranks@[i]@);
                assert(items[j] == ranks@[j]@);
            }
        }
        items.lemma_multiset_has_no_duplicates();
        s.lemma_multiset_has_no_duplicates_conv();
        assert forall|i: int| 0 <= i < s.len() implies #[trigger] s[i].0 == numbers[s[i].1] && 0
            <= s[i].1 < numbers.len() by {
            assert(s.contains(s[i]));
            lemma_same_items(s, items, s[i]);
            let k = choose|k: int| 0 <= k < items.len() && items[k] == s[i];
            assert(items[k] == ranks@[k]@);
        }
        assert forall|i: int| 0 <= i < order.len() implies 0 <= #[trigger] order[i]
            < numbers.len() by {
            assert(s[i].0 == numbers[s[i].1]);
            assert(order[i] == s[i].1);
        }
        assert forall|x: int| 0 <= x < numbers.len() implies #[trigger] order.contains(x) by {
            assert(items[x] == ranks@[x]@);
            assert(items.contains(items[x]));
            lemma_same_items(items, s, items[x]);
            let k = choose|k: int| 0 <= k < s.len() && s[k] == items[x];
            assert(order[k] == x);
        }
        assert forall|i: int, j: int| 0 <= i < j < order.len() implies outranks(
            numbers,
            #[trigger] order[i],
            #[trigger] order[j],
        ) by {
            assert(<Rank as Ranked>::le(s[i], s[j]));
            assert(s[i] != s[j]);
            assert(s[i].0 == numbers[s[i].1]);
            assert(s[j].0 == numbers[s[j].1]);
            assert(order[i] == s[i].1);
            assert(order[j] == s[j].1);
        }
        assert(is_ranking(numbers, order));
        lemma_ranking_unique(numbers, order, ranking(numbers));
    }
    r
}

} // verus!
