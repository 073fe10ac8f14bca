//! Facts about filtered sequences that the store's proofs rest on.

use vstd::prelude::*;

verus! {

/// Whether `rel` holds from every element to every later one.
pub open spec fn pairwise<A>(s: Seq<A>, rel: spec_fn(A, A) -> bool) -> bool {
    forall|i: int, j: int| 0 <= i < j < s.len() ==> #[trigger] rel(s[i], s[j])
}

/// Filtering a sequence grown by one element either keeps that element at
/// the end or drops it.
pub proof fn lemma_filter_push<A>(s: Seq<A>, x: A, pred: spec_fn(A) -> bool)
    ensures
        s.push(x).filter(pred) == if pred(x) {
            s.filter(pred).push(x)
        } else {
            s.filter(pred)
        },
{
    reveal(Seq::filter);
    assert(s.push(x).drop_last() =~= s);
}

/// Filtering the first `i + 1` elements, told from filtering the first `i`.
pub proof fn lemma_filter_next<A>(s: Seq<A>, i: int, pred: spec_fn(A) -> bool)
    requires
        0 <= i < s.len(),
    ensures
        s.take(i + 1).filter(pred) == if pred(s[i]) {
            s.take(i).filter(pred).push(s[i])
        } else {
            s.take(i).filter(pred)
        },
{
    assert(s.take(i + 1) =~= s.take(i).push(s[i]));
    lemma_filter_push(s.take(i), s[i], pred);
}

/// A filter that every element passes changes nothing.
pub proof fn lemma_filter_all<A>(s: Seq<A>, pred: spec_fn(A) -> bool)
    requires
        forall|i: int| 0 <= i < s.len() ==> pred(#[trigger] s[i]),
    ensures
        s.filter(pred) == s,
    decreases s.len(),
{
    reveal(Seq::filter);
    if s.len() > 0 {
        let head = s.drop_last();
        assert forall|i: int| 0 <= i < head.len() implies pred(#[trigger] head[i]) by {
            assert(head[i] == s[i]);
        }
        lemma_filter_all(head, pred);
        assert(head.push(s.last()) =~= s);
    }
}

/// A filter that no element passes leaves nothing.
pub proof fn lemma_filter_none<A>(s: Seq<A>, pred: spec_fn(A) -> bool)
    requires
        forall|i: int| 0 <= i < s.len() ==> !pred(#[trigger] s[i]),
    ensures
        s.filter(pred) == Seq::<A>::empty(),
    decreases s.len(),
{
    reveal(Seq::filter);
    if s.len() > 0 {
        let head = s.drop_last();
        assert forall|i: int| 0 <= i < head.len() implies !pred(#[trigger] head[i]) by {
            assert(head[i] == s[i]);
        }
        lemma_filter_none(head, pred);
    } else {
        assert(s =~= Seq::<A>::empty());
    }
}

/// Where the elements that pass the filter are exactly the first `k`, the
/// filter keeps that prefix.
pub proof fn lemma_filter_prefix<A>(s: Seq<A>, k: int, pred: spec_fn(A) -> bool)
    requires
        0 <= k <= s.len(),
        forall|i: int| 0 <= i < k ==> pred(#[trigger] s[i]),
        forall|i: int| k <= i < s.len() ==> !pred(#[trigger] s[i]),
    ensures
        s.filter(pred) == s.take(k),
{
    let front = s.take(k);
    let back = s.skip(k);
    assert(s =~= front + back);
    Seq::filter_distributes_over_add(front, back, pred);
    lemma_filter_all(front, pred);
    lemma_filter_none(back, pred);
    assert(front + Seq::<A>::empty() =~= front);
}

/// Where the elements that pass the filter are exactly those from index `k`
/// on, the filter keeps that suffix.
pub proof fn lemma_filter_suffix<A>(s: Seq<A>, k: int, pred: spec_fn(A) -> bool)
    requires
        0 <= k <= s.len(),
        forall|i: int| 0 <= i < k ==> !pred(#[trigger] s[i]),
        forall|i: int| k <= i < s.len() ==> pred(#[trigger] s[i]),
    ensures
        s.filter(pred) == s.skip(k),
{
    let front = s.take(k);
    let back = s.skip(k);
    assert(s =~= front + back);
    Seq::filter_distributes_over_add(front, back, pred);
    lemma_filter_none(front, pred);
    lemma_filter_all(back, pred);
    assert(Seq::<A>::empty() + back =~= back);
}

/// Where the element at `k` is the only one that fails the filter, the
/// filter removes exactly that element.
pub proof fn lemma_filter_removes<A>(s: Seq<A>, k: int, pred: spec_fn(A) -> bool)
    requires
        0 <= k < s.len(),
        !pred(s[k]),
        forall|i: int| 0 <= i < s.len() && i != k ==> pred(#[trigger] s[i]),
    ensures
        s.filter(pred) == s.remove(k),
{
    let front = s.take(k);
    let back = s.skip(k + 1);
    assert(s =~= front.push(s[k]) + back);
    Seq::filter_distributes_over_add(front.push(s[k]), back, pred);
    lemma_filter_push(front, s[k], pred);
    lemma_filter_all(front, pred);
    lemma_filter_all(back, pred);
    assert(front + back =~= s.remove(k));
}

/// What a filter keeps: the elements of the sequence that pass it, and no
/// others.
pub proof fn lemma_filter_members<A>(s: Seq<A>, pred: spec_fn(A) -> bool)
    ensures
        forall|x: A| #[trigger] s.filter(pred).contains(x) <==> s.contains(x) && pred(x),
    decreases s.len(),
{
    reveal(Seq::filter);
    if s.len() > 0 {
        let head = s.drop_last();
        let last = s.last();
        lemma_filter_members(head, pred);
        let kept = s.filter(pred);
        let kept_head = head.filter(pred);
        assert(kept == if pred(last) {
            kept_head.push(last)
        } else {
            kept_head
        });
        assert forall|x: A| #[trigger] kept.contains(x) <==> s.contains(x) && pred(x) by {
            if kept.contains(x) {
                let i = choose|i: int| 0 <= i < kept.len() && kept[i] == x;
                if i < kept_head.len() {
                    assert(kept_head[i] == x);
                    assert(kept_head.contains(x));
                    assert(head.contains(x));
                    let j = choose|j: int| 0 <= j < head.len() && head[j] == x;
                    assert(s[j] == x);
                } else {
                    assert(s[s.len() - 1] == x);
                }
            }
            if s.contains(x) && pred(x) {
                let j = choose|j: int| 0 <= j < s.len() && s[j] == x;
                if j == s.len() - 1 {
                    assert(kept[kept.len() - 1] == x);
                } else {
                    assert(head[j] == x);
                    assert(head.contains(x));
                    assert(kept_head.contains(x));
                    let i = choose|i: int| 0 <= i < kept_head.len() && kept_head[i] == x;
                    assert(kept[i] == x);
                }
            }
        }
    }
}

/// A filter keeps the order of what it keeps: a relation that holds from
/// every element to every later one still does so afterwards.
pub proof fn lemma_filter_pairwise<A>(
    s: Seq<A>,
    pred: spec_fn(A) -> bool,
    rel: spec_fn(A, A) -> bool,
)
    requires
        pairwise(s, rel),
    ensures
        pairwise(s.filter(pred), rel),
    decreases s.len(),
{
    reveal(Seq::filter);
    if s.len() > 0 {
        let head = s.drop_last();
        let last = s.last();
        assert forall|i: int, j: int| 0 <= i < j < head.len() implies #[trigger] rel(
            head[i],
            head[j],
        ) by {
            assert(rel(s[i], s[j]));
        }
        lemma_filter_pairwise(head, pred, rel);
        lemma_filter_members(head, pred);
        let kept = s.filter(pred);
        let kept_head = head.filter(pred);
        assert forall|i: int, j: int| 0 <= i < j < kept.len() implies #[trigger] rel(
            kept[i],
            kept[j],
        ) by {
            if j < kept_head.len() {
                assert(rel(kept_head[i], kept_head[j]));
            } else {
                assert(kept_head[i] == kept[i]);
                assert(kept_head.contains(kept[i]));
                assert(head.contains(kept[i]));
                let a = choose|a: int| 0 <= a < head.len() && head[a] == kept[i];
                assert(rel(s[a], s[s.len() - 1]));
            }
        }
    }
}

/// Two filters of which every element passes exactly one share out the
/// sequence between them.
pub proof fn lemma_filter_split<A>(s: Seq<A>, pred: spec_fn(A) -> bool, other: spec_fn(A) -> bool)
    requires
        forall|i: int| 0 <= i < s.len() ==> other(#[trigger] s[i]) == !pred(s[i]),
    ensures
        s.filter(pred).len() + s.filter(other).len() == s.len(),
    decreases s.len(),
{
    reveal(Seq::filter);
    if s.len() > 0 {
        let head = s.drop_last();
        assert forall|i: int| 0 <= i < head.len() implies other(#[trigger] head[i]) == !pred(
            head[i],
        ) by {
            assert(head[i] == s[i]);
        }
        lemma_filter_split(head, pred, other);
        assert(other(s[s.len() - 1]) == !pred(s[s.len() - 1]));
    }
}

} // verus!
