//! Facts about sequences that the store and the queries lean on: the first
//! element with a property, and filtering one element at a time.

use vstd::prelude::*;
use crate::text::{
    lemma_text_before_chain, lemma_text_before_one_way, lemma_views_push, text_before, views,
};

verus! {

/// The index of the first element of `s` that satisfies `p`.
pub open spec fn first_where<T>(s: Seq<T>, p: spec_fn(T) -> bool) -> Option<int>
    decreases s.len(),
{
    if s.len() == 0 {
        None
    } else if p(s[0]) {
        Some(0)
    } else {
        match first_where(s.drop_first(), p) {
            Some(i) => Some(i + 1),
            None => None,
        }
    }
}

/// An element that satisfies `p` with none before it that does is the first.
pub proof fn lemma_first_where_at<T>(s: Seq<T>, p: spec_fn(T) -> bool, i: int)
    requires
        0 <= i < s.len(),
        p(s[i]),
        forall|k: int| 0 <= k < i ==> !p(s[k]),
    ensures
        first_where(s, p) == Some(i),
    decreases i,
{
    if i > 0 {
        lemma_first_where_at(s.drop_first(), p, i - 1);
    }
}

/// Where no element satisfies `p` there is no first.
pub proof fn lemma_first_where_none<T>(s: Seq<T>, p: spec_fn(T) -> bool)
    requires
        forall|k: int| 0 <= k < s.len() ==> !p(s[k]),
    ensures
        first_where(s, p) is None,
    decreases s.len(),
{
    if s.len() > 0 {
        lemma_first_where_none(s.drop_first(), p);
    }
}

/// What `first_where` returns, said without recursion.
pub proof fn lemma_first_where<T>(s: Seq<T>, p: spec_fn(T) -> bool)
    ensures
        match first_where(s, p) {
            Some(i) => 0 <= i < s.len() && p(s[i]) && forall|k: int| 0 <= k < i ==> !p(s[k]),
            None => forall|k: int| 0 <= k < s.len() ==> !p(s[k]),
        },
    decreases s.len(),
{
    if s.len() > 0 && !p(s[0]) {
        let t = s.drop_first();
        lemma_first_where(t, p);
        match first_where(t, p) {
            Some(i) => {
                assert forall|k: int| 0 <= k < i + 1 implies !p(s[k]) by {
                    if k > 0 {
                        assert(s[k] == t[k - 1]);
                    }
                }
            },
            None => {
                assert forall|k: int| 0 <= k < s.len() implies !p(s[k]) by {
                    if k > 0 {
                        assert(s[k] == t[k - 1]);
                    }
                }
            },
        }
    }
}

/// Filtering the first `i + 1` elements, from filtering the first `i`.
pub proof fn lemma_filter_step<T>(s: Seq<T>, p: spec_fn(T) -> bool, i: int)
    requires
        0 <= i < s.len(),
    ensures
        s.take(i + 1).filter(p) == if p(s[i]) {
            s.take(i).filter(p).push(s[i])
        } else {
            s.take(i).filter(p)
        },
{
    reveal(Seq::filter);
    assert(s.take(i + 1).drop_last() =~= s.take(i));
}

/// Filtering nothing leaves nothing.
pub proof fn lemma_filter_empty<T>(p: spec_fn(T) -> bool)
    ensures
        Seq::<T>::empty().filter(p) == Seq::<T>::empty(),
{
    reveal(Seq::filter);
}

/// Every element of a filtered sequence comes from the sequence and
/// satisfies the filter, and every such element is kept.
pub proof fn lemma_filter_members<T>(s: Seq<T>, p: spec_fn(T) -> bool)
    ensures
        forall|x: T| #[trigger] s.filter(p).contains(x) <==> s.contains(x) && p(x),
    decreases s.len(),
{
    reveal(Seq::filter);
    if s.len() > 0 {
        let rest = s.drop_last();
        lemma_filter_members(rest, p);
        assert forall|x: T| #[trigger] s.filter(p).contains(x) <==> s.contains(x) && p(x) by {
            if s.contains(x) && p(x) {
                let i = choose|i: int| 0 <= i < s.len() && s[i] == x;
                if i < s.len() - 1 {
                    assert(rest[i] == x);
                    assert(rest.contains(x));
                    assert(rest.filter(p).contains(x));
                    let j = choose|j: int| 0 <= j < rest.filter(p).len() && rest.filter(p)[j] == x;
                    assert(s.filter(p)[j] == x);
                } else {
                    assert(s.filter(p).last() == x);
                }
            }
            if s.filter(p).contains(x) {
                let j = choose|j: int| 0 <= j < s.filter(p).len() && s.filter(p)[j] == x;
                if j < rest.filter(p).len() {
                    assert(rest.filter(p)[j] == x);
                    assert(rest.filter(p).contains(x));
                    let i = choose|i: int| 0 <= i < rest.len() && rest[i] == x;
                    assert(s[i] == x);
                } else {
                    assert(x == s.last());
                    assert(s[s.len() - 1] == x);
                }
            }
        }
    }
}

/// Replacing an element by one that the filter treats alike keeps the
/// number of elements that pass.
pub proof fn lemma_filter_len_update<T>(s: Seq<T>, p: spec_fn(T) -> bool, i: int, x: T)
    requires
        0 <= i < s.len(),
        p(x) == p(s[i]),
    ensures
        s.update(i, x).filter(p).len() == s.filter(p).len(),
    decreases s.len(),
{
    reveal(Seq::filter);
    let t = s.update(i, x);
    if i == s.len() - 1 {
        assert(t.drop_last() =~= s.drop_last());
    } else {
        assert(t.drop_last() =~= s.drop_last().update(i, x));
        assert(t.last() == s.last());
        lemma_filter_len_update(s.drop_last(), p, i, x);
    }
}

/// One more element lets at most one more pass, and none where it does
/// not pass itself.
pub proof fn lemma_filter_len_push<T>(s: Seq<T>, p: spec_fn(T) -> bool, x: T)
    ensures
        s.push(x).filter(p).len() == s.filter(p).len() + if p(x) {
            1int
        } else {
            0int
        },
{
    reveal(Seq::filter);
    assert(s.push(x).drop_last() =~= s);
}

/// Filtering by what every element satisfies changes nothing.
pub proof fn lemma_filter_all<T>(s: Seq<T>, p: spec_fn(T) -> bool)
    requires
        forall|k: int| 0 <= k < s.len() ==> p(#[trigger] s[k]),
    ensures
        s.filter(p) == s,
    decreases s.len(),
{
    reveal(Seq::filter);
    if s.len() > 0 {
        lemma_filter_all(s.drop_last(), p);
        assert(s.drop_last().push(s.last()) =~= s);
    }
}

/// Filtering by what no element satisfies leaves nothing.
pub proof fn lemma_filter_none<T>(s: Seq<T>, p: spec_fn(T) -> bool)
    requires
        forall|k: int| 0 <= k < s.len() ==> !p(#[trigger] s[k]),
    ensures
        s.filter(p) == Seq::<T>::empty(),
    decreases s.len(),
{
    reveal(Seq::filter);
    if s.len() > 0 {
        lemma_filter_none(s.drop_last(), p);
    }
}

/// Filtering keeps the order: two elements of the filtered sequence
/// stand in the sequence itself, the first before the second.
pub proof fn lemma_filter_order<T>(s: Seq<T>, p: spec_fn(T) -> bool, i: int, j: int)
    requires
        0 <= i < j < s.filter(p).len(),
    ensures
        exists|a: int, b: int|
            0 <= a < b < s.len() && #[trigger] s[a] == s.filter(p)[i] && #[trigger] s[b]
                == s.filter(p)[j],
    decreases s.len(),
{
    reveal(Seq::filter);
    if s.len() > 0 {
        let rest = s.drop_last();
        let f = rest.filter(p);
        if j < f.len() {
            lemma_filter_order(rest, p, i, j);
            let (a, b) = choose|a: int, b: int|
                0 <= a < b < rest.len() && #[trigger] rest[a] == f[i] && #[trigger] rest[b] == f[j];
            assert(s[a] == s.filter(p)[i] && s[b] == s.filter(p)[j]);
        } else {
            // the second element is the last of `s`; the first comes from the rest
            lemma_filter_members(rest, p);
            assert(f.contains(f[i]));
            assert(rest.contains(f[i]));
            let a = choose|a: int| 0 <= a < rest.len() && rest[a] == f[i];
            let b = s.len() - 1;
            assert(s[a] == s.filter(p)[i] && s[b] == s.filter(p)[j]);
        }
    }
}

/// Filtering keeps a sequence free of pairs that are the same in some
/// regard: what is not in the sequence twice is not in a part of it twice.
pub proof fn lemma_filter_keeps_distinct<T>(
    s: Seq<T>,
    p: spec_fn(T) -> bool,
    same: spec_fn(T, T) -> bool,
)
    requires
        forall|i: int, j: int| 0 <= i < j < s.len() ==> !same(#[trigger] s[i], #[trigger] s[j]),
    ensures
        forall|i: int, j: int|
            0 <= i < j < s.filter(p).len() ==> !same(
                #[trigger] s.filter(p)[i],
                #[trigger] s.filter(p)[j],
            ),
{
    assert forall|i: int, j: int| 0 <= i < j < s.filter(p).len() implies !same(
        #[trigger] s.filter(p)[i],
        #[trigger] s.filter(p)[j],
    ) by {
        lemma_filter_order(s, p, i, j);
        let (a, b) = choose|a: int, b: int|
            0 <= a < b < s.len() && #[trigger] s[a] == s.filter(p)[i] && #[trigger] s[b]
                == s.filter(p)[j];
        assert(!same(s[a], s[b]));
    }
}

/// Sorting keeps a sequence free of pairs that are the same in some regard.
pub proof fn lemma_sorted_keeps_distinct<V>(
    s: Seq<V>,
    before: spec_fn(V, V) -> bool,
    same: spec_fn(V, V) -> bool,
)
    requires
        forall|i: int, j: int| 0 <= i < j < s.len() ==> !same(#[trigger] s[i], #[trigger] s[j]),
        forall|a: V, b: V| #[trigger] same(a, b) ==> same(b, a),
    ensures
        forall|i: int, j: int|
            0 <= i < j < sorted_by(s, before).len() ==> !same(
                #[trigger] sorted_by(s, before)[i],
                #[trigger] sorted_by(s, before)[j],
            ),
    decreases s.len(),
{
    if s.len() > 0 {
        let rest = s.drop_last();
        let x = s.last();
        let sorted = sorted_by(rest, before);
        assert forall|i: int, j: int| 0 <= i < j < rest.len() implies !same(
            #[trigger] rest[i],
            #[trigger] rest[j],
        ) by {
            assert(rest[i] == s[i] && rest[j] == s[j]);
        }
        lemma_sorted_keeps_distinct(rest, before, same);
        lemma_sorted_members(rest, before);
        lemma_first_where(sorted, |y: V| before(x, y));
        let k = insert_point(sorted, x, before);
        let out = sorted.insert(k, x);
        assert forall|i: int, j: int| 0 <= i < j < out.len() implies !same(
            #[trigger] out[i],
            #[trigger] out[j],
        ) by {
            if i == k || j == k {
                // one of the two is the new element, the other one of the rest
                let o = if i == k { j } else { i };
                let a = if o < k { o } else { o - 1 };
                assert(out[o] == sorted[a]);
                assert(sorted.contains(sorted[a]));
                assert(rest.contains(sorted[a]));
                let b = choose|b: int| 0 <= b < rest.len() && rest[b] == sorted[a];
                assert(s[b] == sorted[a]);
                assert(!same(s[b], s[s.len() - 1]));
            } else {
                let a = if i < k { i } else { i - 1 };
                let b = if j < k { j } else { j - 1 };
                assert(out[i] == sorted[a] && out[j] == sorted[b]);
            }
        }
    }
}

/// Sorting neither loses nor invents an element, said of membership.
pub proof fn lemma_sorted_members<V>(s: Seq<V>, before: spec_fn(V, V) -> bool)
    ensures
        forall|x: V| #[trigger] sorted_by(s, before).contains(x) <==> s.contains(x),
    decreases s.len(),
{
    if s.len() > 0 {
        let rest = s.drop_last();
        let sorted = sorted_by(rest, before);
        lemma_sorted_members(rest, before);
        lemma_first_where(sorted, |y: V| before(s.last(), y));
        let k = insert_point(sorted, s.last(), before);
        let out = sorted.insert(k, s.last());
        assert forall|x: V| #[trigger] out.contains(x) <==> s.contains(x) by {
            if out.contains(x) {
                let i = choose|i: int| 0 <= i < out.len() && out[i] == x;
                if i == k {
                    assert(s[s.len() - 1] == x);
                } else {
                    let a = if i < k { i } else { i - 1 };
                    assert(sorted[a] == x);
                    assert(sorted.contains(x));
                    assert(rest.contains(x));
                    let b = choose|b: int| 0 <= b < rest.len() && rest[b] == x;
                    assert(s[b] == x);
                }
            }
            if s.contains(x) {
                let b = choose|b: int| 0 <= b < s.len() && s[b] == x;
                if b == s.len() - 1 {
                    assert(out[k] == x);
                } else {
                    assert(rest[b] == x);
                    assert(rest.contains(x));
                    assert(sorted.contains(x));
                    let a = choose|a: int| 0 <= a < sorted.len() && sorted[a] == x;
                    let i = if a < k { a } else { a + 1 };
                    assert(out[i] == x);
                }
            }
        }
    }
}

/// A value that can be copied in a way that keeps its view.
pub trait Row: View + Sized {
    fn copy(&self) -> (r: Self)
        ensures
            r@ == self@,
    ;
}

/// The rows whose mark in `keep` is set, in order: the rows that satisfy
/// `p`, where the marks say of each row whether it does.
pub(crate) fn keep_where<T: Row>(rows: &Vec<T>, keep: &Vec<bool>, Ghost(p): Ghost<
    spec_fn(T::V) -> bool,
>) -> (out: Vec<T>)
    requires
        keep.len() == rows.len(),
        forall|k: int| 0 <= k < rows.len() ==> keep[k] == p(#[trigger] rows[k]@),
    ensures
        views(out@) == views(rows@).filter(p),
{
    let ghost all = views(rows@);
    let mut out: Vec<T> = Vec::new();
    let mut i: usize = 0;
    proof {
        assert(all.take(0) =~= Seq::<T::V>::empty());
        lemma_filter_empty(p);
        assert(views(out@) =~= Seq::<T::V>::empty());
    }
    while i < rows.len()
        invariant
            i <= rows.len(),
            keep.len() == rows.len(),
            all == views(rows@),
            forall|k: int| 0 <= k < rows.len() ==> keep[k] == p(#[trigger] rows[k]@),
            views(out@) == all.take(i as int).filter(p),
        decreases rows.len() - i,
    {
        proof {
            lemma_filter_step(all, p, i as int);
            assert(all[i as int] == rows[i as int]@);
        }
        if keep[i] {
            let row = rows[i].copy();
            proof {
                lemma_views_push(out@, row);
            }
            out.push(row);
        }
        i += 1;
    }
    assert(all.take(rows.len() as int) =~= all);
    out
}

/// A value with an order of its own in which lists of it are shown.
pub trait Ordered: View + Sized {
    /// Whether `a` has to stand before `b`.
    spec fn goes_before(a: Self::V, b: Self::V) -> bool;

    fn before(&self, other: &Self) -> (r: bool)
        ensures
            r == Self::goes_before(self@, other@),
    ;
}

/// Where `x` goes in a sorted `s`: in front of the first element that
/// has to stand after it, so behind everything that ties with it.
pub open spec fn insert_point<V>(s: Seq<V>, x: V, before: spec_fn(V, V) -> bool) -> int {
    match first_where(s, |y: V| before(x, y)) {
        Some(k) => k,
        None => s.len() as int,
    }
}

/// `s` sorted by `before`; elements that tie keep their order.
pub open spec fn sorted_by<V>(s: Seq<V>, before: spec_fn(V, V) -> bool) -> Seq<V>
    decreases s.len(),
{
    if s.len() == 0 {
        s
    } else {
        let rest = sorted_by(s.drop_last(), before);
        rest.insert(insert_point(rest, s.last(), before), s.last())
    }
}

/// The order of a type as a function.
pub open spec fn order_of<T: Ordered>() -> spec_fn(T::V, T::V) -> bool {
    |a: T::V, b: T::V| T::goes_before(a, b)
}

/// Sorting keeps the length.
pub proof fn lemma_sorted_len<V>(s: Seq<V>, before: spec_fn(V, V) -> bool)
    ensures
        sorted_by(s, before).len() == s.len(),
    decreases s.len(),
{
    if s.len() > 0 {
        let rest = sorted_by(s.drop_last(), before);
        lemma_sorted_len(s.drop_last(), before);
        lemma_first_where(rest, |y: V| before(s.last(), y));
    }
}

/// Sorting neither loses nor invents an element.
pub proof fn lemma_sorted_is_permutation<V>(s: Seq<V>, before: spec_fn(V, V) -> bool)
    ensures
        sorted_by(s, before).to_multiset() == s.to_multiset(),
    decreases s.len(),
{
    broadcast use vstd::seq_lib::group_to_multiset_ensures;

    if s.len() > 0 {
        let rest = sorted_by(s.drop_last(), before);
        lemma_sorted_is_permutation(s.drop_last(), before);
        lemma_sorted_len(s.drop_last(), before);
        lemma_first_where(rest, |y: V| before(s.last(), y));
        let k = insert_point(rest, s.last(), before);
        assert(s.drop_last().push(s.last()) =~= s);
        assert(rest.insert(k, s.last()).to_multiset() == rest.to_multiset().insert(s.last())) by {
            vstd::seq_lib::to_multiset_insert(rest, k, s.last());
        }
    }
}

/// In a sorted sequence no element has to stand before an earlier one,
/// given that `before` is a strict order on comparable keys: nothing
/// stands before itself or before what does not stand after it in turn.
pub proof fn lemma_sorted_is_ordered<V>(s: Seq<V>, before: spec_fn(V, V) -> bool)
    requires
        forall|a: V, b: V, c: V|
            !#[trigger] before(a, b) && !#[trigger] before(b, c) ==> !before(a, c),
        forall|a: V, b: V| #[trigger] before(a, b) ==> !before(b, a),
    ensures
        forall|i: int, j: int|
            0 <= i < j < sorted_by(s, before).len() ==> !before(
                #[trigger] sorted_by(s, before)[j],
                #[trigger] sorted_by(s, before)[i],
            ),
    decreases s.len(),
{
    if s.len() > 0 {
        let rest = sorted_by(s.drop_last(), before);
        let x = s.last();
        lemma_sorted_is_ordered(s.drop_last(), before);
        lemma_first_where(rest, |y: V| before(x, y));
        let k = insert_point(rest, x, before);
        let out = rest.insert(k, x);
        assert forall|i: int, j: int| 0 <= i < j < out.len() implies !before(
            #[trigger] out[j],
            #[trigger] out[i],
        ) by {
            if j == k {
                // out[i] is an element in front of the insert point
                assert(out[i] == rest[i]);
                assert(!before(x, rest[i]));
                assert(!before(x, out[i]));
            } else if i == k {
                // out[j] stands behind the insert point
                assert(out[j] == rest[j - 1]);
                if k < rest.len() {
                    assert(before(x, rest[k]));
                    if j - 1 > k {
                        assert(!before(rest[j - 1], rest[k]));
                    }
                    // rest[j-1] does not stand before rest[k], rest[k] not before x
                    assert(!before(rest[k], x));
                    assert(!before(rest[j - 1], x));
                }
            } else {
                let a = if i < k { i } else { i - 1 };
                let b = if j < k { j } else { j - 1 };
                assert(out[i] == rest[a]);
                assert(out[j] == rest[b]);
            }
        }
    }
}

/// Texts that were sorted stand in the order of texts: none stands
/// before an earlier one.
pub proof fn lemma_sorted_texts_in_order(s: Seq<Seq<char>>, i: int, j: int)
    requires
        0 <= i < j < sorted_by(s, order_of::<String>()).len(),
    ensures
        !text_before(
            sorted_by(s, order_of::<String>())[j],
            sorted_by(s, order_of::<String>())[i],
        ),
{
    let before = order_of::<String>();
    assert forall|a: Seq<char>, b: Seq<char>, c: Seq<char>|
        !#[trigger] before(a, b) && !#[trigger] before(b, c) implies !before(a, c) by {
        lemma_text_before_chain(c, b, a);
    }
    assert forall|a: Seq<char>, b: Seq<char>| #[trigger] before(a, b) implies !before(b, a) by {
        lemma_text_before_one_way(a, b);
    }
    lemma_sorted_is_ordered(s, before);
}

/// Sorts the rows by their order; rows that tie keep their order.
pub(crate) fn sort_rows<T: Row + Ordered>(rows: &Vec<T>) -> (out: Vec<T>)
    ensures
        views(out@) == sorted_by(views(rows@), order_of::<T>()),
{
    let ghost all = views(rows@);
    let mut out: Vec<T> = Vec::new();
    let mut i: usize = 0;
    proof {
        assert(all.take(0) =~= Seq::<T::V>::empty());
        assert(views(out@) =~= Seq::<T::V>::empty());
    }
    while i < rows.len()
        invariant
            i <= rows.len(),
            all == views(rows@),
            views(out@) == sorted_by(all.take(i as int), order_of::<T>()),
        decreases rows.len() - i,
    {
        proof {
            assert(all.take(i + 1).drop_last() =~= all.take(i as int));
            assert(all.take(i + 1).last() == rows[i as int]@);
        }
        let mut k: usize = 0;
        while k < out.len() && !rows[i].before(&out[k])
            invariant
                k <= out.len(),
                i < rows.len(),
                forall|j: int|
                    0 <= j < k ==> !T::goes_before(rows[i as int]@, #[trigger] views(out@)[j]),
            decreases out.len() - k,
        {
            assert(views(out@)[k as int] == out[k as int]@);
            k += 1;
        }
        proof {
            let x = rows[i as int]@;
            let p = |y: T::V| order_of::<T>()(x, y);
            if k < out.len() {
                assert(views(out@)[k as int] == out[k as int]@);
                lemma_first_where_at(views(out@), p, k as int);
            } else {
                lemma_first_where_none(views(out@), p);
            }
            assert(insert_point(views(out@), x, order_of::<T>()) == k);
        }
        let row = rows[i].copy();
        let ghost before_insert = out@;
        out.insert(k, row);
        assert(views(out@) =~= views(before_insert).insert(k as int, row@));
        i += 1;
    }
    assert(all.take(rows.len() as int) =~= all);
    out
}

/// The first `n` rows.
pub(crate) fn first_rows<T: Row>(rows: &Vec<T>, n: usize) -> (out: Vec<T>)
    ensures
        views(out@) == crate::text::prefix(views(rows@), n as nat),
{
    let mut out: Vec<T> = Vec::new();
    let mut i: usize = 0;
    while i < rows.len() && i < n
        invariant
            i <= rows.len(),
            i <= n,
            out.len() == i,
            forall|k: int| 0 <= k < i ==> out[k]@ == rows[k]@,
        decreases rows.len() - i,
    {
        out.push(rows[i].copy());
        i += 1;
    }
    assert(views(out@) =~= crate::text::prefix(views(rows@), n as nat));
    out
}

/// A list of texts with one more, unless the list holds it already.
pub open spec fn with_text(texts: Seq<Seq<char>>, text: Seq<char>) -> Seq<Seq<char>> {
    if texts.contains(text) {
        texts
    } else {
        texts.push(text)
    }
}

/// The texts, each once, in the order in which they first occur.
pub open spec fn distinct(texts: Seq<Seq<char>>) -> Seq<Seq<char>>
    decreases texts.len(),
{
    if texts.len() == 0 {
        texts
    } else {
        with_text(distinct(texts.drop_last()), texts.last())
    }
}

/// Adding a text with `with_text` keeps a list free of repeats.
pub proof fn lemma_with_text_once(texts: Seq<Seq<char>>, text: Seq<char>)
    requires
        texts.no_duplicates(),
    ensures
        with_text(texts, text).no_duplicates(),
        with_text(texts, text).contains(text),
{
    if !texts.contains(text) {
        let out = texts.push(text);
        assert forall|i: int, j: int| 0 <= i < out.len() && 0 <= j < out.len() && i != j implies out[i]
            != out[j] by {
            if i < texts.len() {
                assert(texts.contains(out[i]));
            }
            if j < texts.len() {
                assert(texts.contains(out[j]));
            }
        }
        assert(out[texts.len() as int] == text);
    }
}

/// `distinct` holds no text twice, and holds the texts that it was given.
pub proof fn lemma_distinct_once(texts: Seq<Seq<char>>)
    ensures
        distinct(texts).no_duplicates(),
        forall|t: Seq<char>| distinct(texts).contains(t) <==> texts.contains(t),
    decreases texts.len(),
{
    if texts.len() > 0 {
        let rest = texts.drop_last();
        let x = texts.last();
        lemma_distinct_once(rest);
        lemma_with_text_once(distinct(rest), x);
        let before = distinct(rest);
        let out = distinct(texts);
        assert forall|t: Seq<char>| out.contains(t) <==> texts.contains(t) by {
            if out.contains(t) {
                let k = choose|k: int| 0 <= k < out.len() && out[k] == t;
                if k < before.len() {
                    assert(before[k] == t);
                    assert(before.contains(t));
                    assert(rest.contains(t));
                    let r = choose|r: int| 0 <= r < rest.len() && rest[r] == t;
                    assert(texts[r] == t);
                } else {
                    assert(t == x);
                    assert(texts[texts.len() - 1] == x);
                }
            }
            if texts.contains(t) {
                let k = choose|k: int| 0 <= k < texts.len() && texts[k] == t;
                if k < rest.len() {
                    assert(rest[k] == t);
                    assert(rest.contains(t));
                    assert(before.contains(t));
                    let r = choose|r: int| 0 <= r < before.len() && before[r] == t;
                    if !before.contains(x) {
                        assert(out[r] == t);
                    }
                }
            }
        }
    }
}

/// Whether no text stands in a list twice.
pub open spec fn differ(texts: Seq<Seq<char>>) -> bool {
    forall|i: int, j: int| 0 <= i < j < texts.len() ==> texts[i] != texts[j]
}

/// Tests whether no text stands in a list twice.
pub fn all_differ(texts: &Vec<String>) -> (r: bool)
    ensures
        r == differ(views(texts@)),
{
    let ghost all = views(texts@);
    let mut j: usize = 0;
    while j < texts.len()
        invariant
            j <= texts.len(),
            all == views(texts@),
            forall|a: int, b: int| 0 <= a < b < j ==> all[a] != all[b],
        decreases texts.len() - j,
    {
        let mut i: usize = 0;
        while i < j
            invariant
                i <= j < texts.len(),
                all == views(texts@),
                forall|a: int| 0 <= a < i ==> all[a] != all[j as int],
            decreases j - i,
        {
            if texts[i] == texts[j] {
                assert(all[i as int] == all[j as int]);
                return false;
            }
            i += 1;
        }
        j += 1;
    }
    true
}

/// Whether a list holds a text.
pub(crate) fn holds_text(texts: &Vec<String>, text: &String) -> (r: bool)
    ensures
        r == views(texts@).contains(text@),
{
    let mut k: usize = 0;
    while k < texts.len()
        invariant
            k <= texts.len(),
            forall|j: int| 0 <= j < k ==> views(texts@)[j] != text@,
        decreases texts.len() - k,
    {
        if texts[k] == *text {
            assert(views(texts@)[k as int] == text@);
            return true;
        }
        k += 1;
    }
    false
}

/// Adds a text to a list that does not hold it yet.
pub(crate) fn push_new(texts: &mut Vec<String>, text: &String)
    ensures
        views(final(texts)@) == with_text(views(old(texts)@), text@),
{
    if !holds_text(texts, text) {
        let copy = text.clone();
        proof {
            lemma_views_push(texts@, copy);
        }
        texts.push(copy);
    }
}

/// The texts, each once, in the order in which they first occur.
pub(crate) fn distinct_texts(texts: &Vec<String>) -> (out: Vec<String>)
    ensures
        views(out@) == distinct(views(texts@)),
        views(out@).no_duplicates(),
{
    proof {
        lemma_distinct_once(views(texts@));
    }
    let ghost all = views(texts@);
    let mut out: Vec<String> = Vec::new();
    let mut i: usize = 0;
    proof {
        assert(all.take(0) =~= Seq::<Seq<char>>::empty());
        assert(views(out@) =~= Seq::<Seq<char>>::empty());
    }
    while i < texts.len()
        invariant
            i <= texts.len(),
            all == views(texts@),
            views(out@) == distinct(all.take(i as int)),
        decreases texts.len() - i,
    {
        proof {
            assert(all.take(i + 1).drop_last() =~= all.take(i as int));
            assert(all.take(i + 1).last() == texts[i as int]@);
        }
        push_new(&mut out, &texts[i]);
        i += 1;
    }
    proof {
        assert(all.take(texts.len() as int) =~= all);
    }
    out
}

} // verus!
