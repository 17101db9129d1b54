//! Stable ranking: putting values in descending order of a number they carry,
//! values with the same number staying in their earlier order.

use vstd::prelude::*;

verus! {

/// A value that carries the number by which it is ranked.
pub trait Ranked {
    /// The number by which the value is ranked.
    spec fn rank(&self) -> u64;
}

/// A ranked value that can report its rank at run time.
pub trait RankedExec: Ranked {
    /// The number by which the value is ranked.
    fn rank_value(&self) -> (rank: u64)
        ensures
            rank == self.rank(),
    ;
}

/// Ranks never increase from one item to the next.
pub open spec fn sorted_desc<T: Ranked>(items: Seq<T>) -> bool {
    forall|i: int, j: int| 0 <= i < j < items.len() ==> items[i].rank() >= items[j].rank()
}

/// The items of exactly the given rank, in the order in which they stand.
pub open spec fn of_rank<T: Ranked>(items: Seq<T>, rank: u64) -> Seq<T>
    decreases items.len(),
{
    if items.len() == 0 {
        Seq::empty()
    } else if items.last().rank() == rank {
        of_rank(items.drop_last(), rank).push(items.last())
    } else {
        of_rank(items.drop_last(), rank)
    }
}

/// `after` is `before` put in descending order of rank without reordering
/// items of equal rank: it is sorted, and for every rank it holds the same
/// items in the same order as `before`.
pub open spec fn is_stable_ranking<T: Ranked>(before: Seq<T>, after: Seq<T>) -> bool {
    &&& sorted_desc(after)
    &&& forall|rank: u64| #[trigger] of_rank(after, rank) == of_rank(before, rank)
}

/// The sum of a measure over the items.
pub open spec fn total<T>(items: Seq<T>, measure: spec_fn(T) -> int) -> int
    decreases items.len(),
{
    if items.len() == 0 {
        0
    } else {
        total(items.drop_last(), measure) + measure(items.last())
    }
}

spec fn all_at_least<T: Ranked>(items: Seq<T>, bound: u64) -> bool {
    forall|i: int| 0 <= i < items.len() ==> (#[trigger] items[i]).rank() >= bound
}

spec fn merge_desc<T: Ranked>(a: Seq<T>, b: Seq<T>) -> Seq<T>
    decreases a.len() + b.len(),
{
    if a.len() == 0 {
        b
    } else if b.len() == 0 {
        a
    } else if b.last().rank() <= a.last().rank() {
        merge_desc(a, b.drop_last()).push(b.last())
    } else {
        merge_desc(a.drop_last(), b).push(a.last())
    }
}

spec fn merge_ranked<T: Ranked>(items: Seq<T>) -> Seq<T>
    decreases items.len(),
{
    if items.len() <= 1 {
        items
    } else {
        let mid = items.len() as int / 2;
        merge_desc(merge_ranked(items.take(mid)), merge_ranked(items.skip(mid)))
    }
}

proof fn lemma_of_rank_concat<T: Ranked>(a: Seq<T>, b: Seq<T>, rank: u64)
    ensures
        of_rank(a + b, rank) == of_rank(a, rank) + of_rank(b, rank),
    decreases b.len(),
{
    if b.len() == 0 {
        assert(a + b =~= a);
        assert(of_rank(a, rank) + of_rank(b, rank) =~= of_rank(a, rank));
    } else {
        lemma_of_rank_concat(a, b.drop_last(), rank);
        assert((a + b).drop_last() =~= a + b.drop_last());
        assert((a + b).last() == b.last());
        if b.last().rank() == rank {
            assert(of_rank(a, rank) + of_rank(b.drop_last(), rank).push(b.last()) =~= (of_rank(a, rank)
                + of_rank(b.drop_last(), rank)).push(b.last()));
        }
    }
}

proof fn lemma_of_rank_none<T: Ranked>(items: Seq<T>, rank: u64)
    requires
        forall|i: int| 0 <= i < items.len() ==> (#[trigger] items[i]).rank() != rank,
    ensures
        of_rank(items, rank) == Seq::<T>::empty(),
    decreases items.len(),
{
    if items.len() > 0 {
        assert(items.last() == items[items.len() - 1]);
        assert forall|i: int| 0 <= i < items.drop_last().len() implies (#[trigger] items.drop_last()[i]).rank()
            != rank by {
            assert(items.drop_last()[i] == items[i]);
        }
        lemma_of_rank_none(items.drop_last(), rank);
    }
}

proof fn lemma_merge_at_least<T: Ranked>(a: Seq<T>, b: Seq<T>, bound: u64)
    requires
        all_at_least(a, bound),
        all_at_least(b, bound),
    ensures
        all_at_least(merge_desc(a, b), bound),
        merge_desc(a, b).len() == a.len() + b.len(),
    decreases a.len() + b.len(),
{
    if a.len() == 0 || b.len() == 0 {
    } else if b.last().rank() <= a.last().rank() {
        assert forall|i: int| 0 <= i < b.drop_last().len() implies (#[trigger] b.drop_last()[i]).rank()
            >= bound by {
            assert(b.drop_last()[i] == b[i]);
        }
        lemma_merge_at_least(a, b.drop_last(), bound);
        assert(b.last() == b[b.len() - 1]);
    } else {
        assert forall|i: int| 0 <= i < a.drop_last().len() implies (#[trigger] a.drop_last()[i]).rank()
            >= bound by {
            assert(a.drop_last()[i] == a[i]);
        }
        lemma_merge_at_least(a.drop_last(), b, bound);
        assert(a.last() == a[a.len() - 1]);
    }
}

proof fn lemma_sorted_drop_last<T: Ranked>(a: Seq<T>)
    requires
        sorted_desc(a),
        a.len() > 0,
    ensures
        sorted_desc(a.drop_last()),
        all_at_least(a.drop_last(), a.last().rank()),
        all_at_least(a, a.last().rank()),
{
    assert forall|i: int, j: int| 0 <= i < j < a.drop_last().len() implies a.drop_last()[i].rank()
        >= a.drop_last()[j].rank() by {
        assert(a.drop_last()[i] == a[i]);
        assert(a.drop_last()[j] == a[j]);
    }
    assert forall|i: int| 0 <= i < a.len() implies (#[trigger] a[i]).rank() >= a.last().rank() by {
        if i < a.len() - 1 {
            assert(a[i].rank() >= a[a.len() - 1].rank());
        }
    }
    assert forall|i: int| 0 <= i < a.drop_last().len() implies (#[trigger] a.drop_last()[i]).rank()
        >= a.last().rank() by {
        assert(a.drop_last()[i] == a[i]);
    }
}

proof fn lemma_at_least_weaken<T: Ranked>(a: Seq<T>, strong: u64, weak: u64)
    requires
        all_at_least(a, strong),
        weak <= strong,
    ensures
        all_at_least(a, weak),
{
}

proof fn lemma_push_sorted<T: Ranked>(a: Seq<T>, item: T)
    requires
        sorted_desc(a),
        all_at_least(a, item.rank()),
    ensures
        sorted_desc(a.push(item)),
{
    assert forall|i: int, j: int| 0 <= i < j < a.push(item).len() implies a.push(item)[i].rank()
        >= a.push(item)[j].rank() by {
        assert(a.push(item)[i] == a[i]);
        if j < a.len() {
            assert(a.push(item)[j] == a[j]);
        }
    }
}

proof fn lemma_merge_sorted<T: Ranked>(a: Seq<T>, b: Seq<T>)
    requires
        sorted_desc(a),
        sorted_desc(b),
    ensures
        sorted_desc(merge_desc(a, b)),
    decreases a.len() + b.len(),
{
    if a.len() == 0 || b.len() == 0 {
    } else if b.last().rank() <= a.last().rank() {
        lemma_sorted_drop_last(a);
        lemma_sorted_drop_last(b);
        lemma_merge_sorted(a, b.drop_last());
        lemma_at_least_weaken(a, a.last().rank(), b.last().rank());
        lemma_merge_at_least(a, b.drop_last(), b.last().rank());
        lemma_push_sorted(merge_desc(a, b.drop_last()), b.last());
    } else {
        lemma_sorted_drop_last(a);
        lemma_sorted_drop_last(b);
        lemma_merge_sorted(a.drop_last(), b);
        lemma_at_least_weaken(b, b.last().rank(), a.last().rank());
        lemma_merge_at_least(a.drop_last(), b, a.last().rank());
        lemma_push_sorted(merge_desc(a.drop_last(), b), a.last());
    }
}

proof fn lemma_merge_of_rank<T: Ranked>(a: Seq<T>, b: Seq<T>, rank: u64)
    requires
        sorted_desc(a),
        sorted_desc(b),
    ensures
        of_rank(merge_desc(a, b), rank) == of_rank(a, rank) + of_rank(b, rank),
    decreases a.len() + b.len(),
{
    if a.len() == 0 {
        assert(of_rank(a, rank) + of_rank(b, rank) =~= of_rank(b, rank));
    } else if b.len() == 0 {
        assert(of_rank(a, rank) + of_rank(b, rank) =~= of_rank(a, rank));
    } else if b.last().rank() <= a.last().rank() {
        lemma_sorted_drop_last(b);
        lemma_merge_of_rank(a, b.drop_last(), rank);
        let m = merge_desc(a, b.drop_last());
        assert(m.push(b.last()).drop_last() =~= m);
        if b.last().rank() == rank {
            assert(of_rank(a, rank) + of_rank(b.drop_last(), rank).push(b.last()) =~= (of_rank(a, rank)
                + of_rank(b.drop_last(), rank)).push(b.last()));
        }
    } else {
        lemma_sorted_drop_last(a);
        lemma_sorted_drop_last(b);
        lemma_merge_of_rank(a.drop_last(), b, rank);
        let m = merge_desc(a.drop_last(), b);
        assert(m.push(a.last()).drop_last() =~= m);
        if a.last().rank() == rank {
            lemma_of_rank_none(b, rank);
            assert(of_rank(a, rank) + of_rank(b, rank) =~= of_rank(a, rank));
            assert(of_rank(a.drop_last(), rank) + of_rank(b, rank) =~= of_rank(a.drop_last(), rank));
        }
    }
}

/// Replacing one item changes the sum by the difference of the two measures.
pub proof fn lemma_total_update<T>(items: Seq<T>, at: int, item: T, measure: spec_fn(T) -> int)
    requires
        0 <= at < items.len(),
    ensures
        total(items.update(at, item), measure) == total(items, measure) - measure(items[at]) + measure(
            item,
        ),
    decreases items.len(),
{
    if at == items.len() - 1 {
        assert(items.update(at, item).drop_last() =~= items.drop_last());
    } else {
        lemma_total_update(items.drop_last(), at, item, measure);
        assert(items.update(at, item).drop_last() =~= items.drop_last().update(at, item));
    }
}

/// Where no item measures below zero, no item measures more than the sum.
pub proof fn lemma_total_bounds_each<T>(items: Seq<T>, measure: spec_fn(T) -> int, at: int)
    requires
        forall|i: int| 0 <= i < items.len() ==> measure(#[trigger] items[i]) >= 0,
        0 <= at < items.len(),
    ensures
        0 <= measure(items[at]) <= total(items, measure),
        0 <= total(items.drop_last(), measure),
    decreases items.len(),
{
    assert forall|i: int| 0 <= i < items.drop_last().len() implies measure(
        #[trigger] items.drop_last()[i],
    ) >= 0 by {
        assert(items.drop_last()[i] == items[i]);
    }
    assert(items.last() == items[items.len() - 1]);
    if items.len() > 1 {
        lemma_total_bounds_each(items.drop_last(), measure, if at < items.len() - 1 {
            at
        } else {
            0
        });
        if at < items.len() - 1 {
            assert(items.drop_last()[at] == items[at]);
        }
    } else {
        assert(items.drop_last().len() == 0);
    }
}

/// The sum over the images of the items is the sum of the measure of the
/// images.
pub proof fn lemma_total_of_images<T, V>(
    items: Seq<T>,
    image: spec_fn(T) -> V,
    measure: spec_fn(V) -> int,
    through: spec_fn(T) -> int,
)
    requires
        forall|item: T| #[trigger] through(item) == measure(image(item)),
    ensures
        total(items.map_values(image), measure) == total(items, through),
    decreases items.len(),
{
    if items.len() > 0 {
        lemma_total_of_images(items.drop_last(), image, measure, through);
        assert(items.map_values(image).drop_last() =~= items.drop_last().map_values(image));
        assert(items.map_values(image).last() == image(items.last()));
    }
}

/// A measure that is nowhere larger than another has no larger sum.
pub proof fn lemma_total_monotone<T>(items: Seq<T>, smaller: spec_fn(T) -> int, larger: spec_fn(T) -> int)
    requires
        forall|i: int| 0 <= i < items.len() ==> smaller(#[trigger] items[i]) <= larger(items[i]),
    ensures
        total(items, smaller) <= total(items, larger),
    decreases items.len(),
{
    if items.len() > 0 {
        assert forall|i: int| 0 <= i < items.drop_last().len() implies smaller(
            #[trigger] items.drop_last()[i],
        ) <= larger(items.drop_last()[i]) by {
            assert(items.drop_last()[i] == items[i]);
        }
        lemma_total_monotone(items.drop_last(), smaller, larger);
        assert(items.last() == items[items.len() - 1]);
    }
}

proof fn lemma_total_concat<T>(a: Seq<T>, b: Seq<T>, measure: spec_fn(T) -> int)
    ensures
        total(a + b, measure) == total(a, measure) + total(b, measure),
    decreases b.len(),
{
    if b.len() == 0 {
        assert(a + b =~= a);
    } else {
        lemma_total_concat(a, b.drop_last(), measure);
        assert((a + b).drop_last() =~= a + b.drop_last());
        assert((a + b).last() == b.last());
    }
}

proof fn lemma_merge_total<T: Ranked>(a: Seq<T>, b: Seq<T>, measure: spec_fn(T) -> int)
    ensures
        total(merge_desc(a, b), measure) == total(a, measure) + total(b, measure),
    decreases a.len() + b.len(),
{
    if a.len() == 0 || b.len() == 0 {
    } else if b.last().rank() <= a.last().rank() {
        lemma_merge_total(a, b.drop_last(), measure);
        let m = merge_desc(a, b.drop_last());
        assert(m.push(b.last()).drop_last() =~= m);
    } else {
        lemma_merge_total(a.drop_last(), b, measure);
        let m = merge_desc(a.drop_last(), b);
        assert(m.push(a.last()).drop_last() =~= m);
    }
}

proof fn lemma_merge_ranked<T: Ranked>(items: Seq<T>)
    ensures
        is_stable_ranking(items, merge_ranked(items)),
        merge_ranked(items).len() == items.len(),
        forall|measure: spec_fn(T) -> int| #[trigger]
            total(merge_ranked(items), measure) == total(items, measure),
    decreases items.len(),
{
    if items.len() > 1 {
        let mid = items.len() as int / 2;
        let left = items.take(mid);
        let right = items.skip(mid);
        lemma_merge_ranked(left);
        lemma_merge_ranked(right);
        assert(items =~= left + right);
        let sl = merge_ranked(left);
        let sr = merge_ranked(right);
        lemma_merge_sorted(sl, sr);
        lemma_merge_at_least(sl, sr, 0);
        assert forall|rank: u64| #[trigger] of_rank(merge_ranked(items), rank) == of_rank(items, rank) by {
            lemma_merge_of_rank(sl, sr, rank);
            lemma_of_rank_concat(left, right, rank);
            assert(of_rank(sl, rank) == of_rank(left, rank));
            assert(of_rank(sr, rank) == of_rank(right, rank));
        }
        assert forall|measure: spec_fn(T) -> int| #[trigger]
            total(merge_ranked(items), measure) == total(items, measure) by {
            lemma_merge_total(sl, sr, measure);
            lemma_total_concat(left, right, measure);
            assert(total(sl, measure) == total(left, measure));
            assert(total(sr, measure) == total(right, measure));
        }
    }
}

/// An item stands among those of a given rank exactly when it stands in the
/// sequence and has that rank.
pub proof fn lemma_of_rank_contains<T: Ranked>(items: Seq<T>, rank: u64, item: T)
    ensures
        of_rank(items, rank).contains(item) <==> items.contains(item) && item.rank() == rank,
    decreases items.len(),
{
    if items.len() > 0 {
        let rest = items.drop_last();
        lemma_of_rank_contains(rest, rank, item);
        if items.contains(item) {
            let i = choose|i: int| 0 <= i < items.len() && items[i] == item;
            if i < rest.len() {
                assert(rest[i] == item);
            }
        }
        if rest.contains(item) {
            let i = choose|i: int| 0 <= i < rest.len() && rest[i] == item;
            assert(items[i] == item);
        }
        if items.last().rank() == rank {
            let kept = of_rank(rest, rank);
            if kept.push(items.last()).contains(item) {
                let i = choose|i: int| 0 <= i < kept.push(items.last()).len() && kept.push(items.last())[i] == item;
                if i < kept.len() {
                    assert(kept[i] == item);
                }
            }
            if kept.contains(item) {
                let i = choose|i: int| 0 <= i < kept.len() && kept[i] == item;
                assert(kept.push(items.last())[i] == item);
            }
            if item == items.last() {
                assert(kept.push(items.last())[kept.len() as int] == item);
                assert(items[items.len() - 1] == item);
            }
        }
    }
}

/// Ranking neither drops nor invents an item.
pub proof fn lemma_ranking_same_items<T: Ranked>(before: Seq<T>, after: Seq<T>, item: T)
    requires
        is_stable_ranking(before, after),
    ensures
        after.contains(item) <==> before.contains(item),
{
    lemma_of_rank_contains(before, item.rank(), item);
    lemma_of_rank_contains(after, item.rank(), item);
    assert(of_rank(after, item.rank()) == of_rank(before, item.rank()));
}

proof fn lemma_same_classes_same_order<T: Ranked>(a: Seq<T>, b: Seq<T>)
    requires
        sorted_desc(a),
        sorted_desc(b),
        forall|rank: u64| #[trigger] of_rank(a, rank) == of_rank(b, rank),
    ensures
        a == b,
    decreases a.len(),
{
    if a.len() == 0 {
        if b.len() > 0 {
            assert(of_rank(b, b.last().rank()) == of_rank(a, b.last().rank()));
            assert(of_rank(b, b.last().rank()).len() > 0);
        }
        assert(a =~= b);
    } else {
        let x = a.last();
        assert(of_rank(a, x.rank()) == of_rank(b, x.rank()));
        assert(of_rank(a, x.rank()).last() == x);
        assert(b.len() > 0);
        let y = b.last();
        assert(of_rank(a, y.rank()) == of_rank(b, y.rank()));
        assert(of_rank(b, y.rank()).last() == y);
        lemma_of_rank_contains(a, y.rank(), y);
        lemma_of_rank_contains(b, x.rank(), x);
        assert(of_rank(b, y.rank()).contains(y));
        assert(of_rank(a, x.rank()).contains(x));
        lemma_sorted_drop_last(a);
        lemma_sorted_drop_last(b);
        assert(a.contains(y));
        assert(b.contains(x));
        let i = choose|i: int| 0 <= i < a.len() && a[i] == y;
        assert(a[i].rank() >= x.rank());
        let j = choose|j: int| 0 <= j < b.len() && b[j] == x;
        assert(b[j].rank() >= y.rank());
        assert(x.rank() == y.rank());
        assert(of_rank(a.drop_last(), x.rank()).push(x) == of_rank(b.drop_last(), x.rank()).push(y));
        assert(of_rank(a.drop_last(), x.rank()).push(x).last() == x);
        assert(of_rank(b.drop_last(), x.rank()).push(y).last() == y);
        assert(x == y);
        assert(of_rank(a.drop_last(), x.rank()) =~= of_rank(a.drop_last(), x.rank()).push(x).drop_last());
        assert(of_rank(b.drop_last(), x.rank()) =~= of_rank(b.drop_last(), x.rank()).push(y).drop_last());
        assert forall|rank: u64| #[trigger] of_rank(a.drop_last(), rank) == of_rank(b.drop_last(), rank) by {
            assert(of_rank(a, rank) == of_rank(b, rank));
        }
        lemma_same_classes_same_order(a.drop_last(), b.drop_last());
        assert(a =~= a.drop_last().push(x));
        assert(b =~= b.drop_last().push(y));
    }
}

/// The ranking of a sequence is unique: two stable rankings of the same items
/// are the same sequence.
pub proof fn lemma_stable_ranking_unique<T: Ranked>(before: Seq<T>, first: Seq<T>, second: Seq<T>)
    requires
        is_stable_ranking(before, first),
        is_stable_ranking(before, second),
    ensures
        first == second,
{
    assert forall|rank: u64| #[trigger] of_rank(first, rank) == of_rank(second, rank) by {
        assert(of_rank(first, rank) == of_rank(before, rank));
        assert(of_rank(second, rank) == of_rank(before, rank));
    }
    lemma_same_classes_same_order(first, second);
}

/// Ranking keeps the number of items and the sum of every measure over them.
pub proof fn lemma_ranking_keeps_totals<T: Ranked>(before: Seq<T>, after: Seq<T>, measure: spec_fn(T) -> int)
    requires
        is_stable_ranking(before, after),
    ensures
        after.len() == before.len(),
        total(after, measure) == total(before, measure),
{
    lemma_merge_ranked(before);
    lemma_stable_ranking_unique(before, after, merge_ranked(before));
}

/// Ranking commutes with a change of representation that keeps the ranks: the
/// images of a ranked sequence are the ranking of the images.
pub proof fn lemma_ranking_of_images<T: Ranked, V: Ranked>(before: Seq<T>, after: Seq<T>, image: spec_fn(T) -> V)
    requires
        is_stable_ranking(before, after),
        forall|item: T| (#[trigger] image(item)).rank() == item.rank(),
    ensures
        is_stable_ranking(before.map_values(image), after.map_values(image)),
{
    assert forall|rank: u64| #[trigger]
        of_rank(after.map_values(image), rank) == of_rank(before.map_values(image), rank) by {
        lemma_of_rank_images(before, image, rank);
        lemma_of_rank_images(after, image, rank);
        assert(of_rank(after, rank) == of_rank(before, rank));
    }
    assert forall|i: int, j: int| 0 <= i < j < after.map_values(image).len() implies after.map_values(
        image,
    )[i].rank() >= after.map_values(image)[j].rank() by {
        assert(after.map_values(image)[i] == image(after[i]));
        assert(after.map_values(image)[j] == image(after[j]));
        assert(after[i].rank() >= after[j].rank());
    }
}

proof fn lemma_of_rank_images<T: Ranked, V: Ranked>(items: Seq<T>, image: spec_fn(T) -> V, rank: u64)
    requires
        forall|item: T| (#[trigger] image(item)).rank() == item.rank(),
    ensures
        of_rank(items.map_values(image), rank) == of_rank(items, rank).map_values(image),
    decreases items.len(),
{
    if items.len() == 0 {
        assert(of_rank(items.map_values(image), rank) =~= of_rank(items, rank).map_values(image));
    } else {
        lemma_of_rank_images(items.drop_last(), image, rank);
        assert(items.map_values(image).drop_last() =~= items.drop_last().map_values(image));
        assert(items.map_values(image).last() == image(items.last()));
        assert(image(items.last()).rank() == items.last().rank());
        if items.last().rank() == rank {
            assert(of_rank(items.drop_last(), rank).push(items.last()).map_values(image) =~= of_rank(
                items.drop_last(),
                rank,
            ).map_values(image).push(image(items.last())));
        }
    }
}

fn merge<T: RankedExec>(a: Vec<T>, b: Vec<T>) -> (merged: Vec<T>)
    ensures
        merged@ == merge_desc(a@, b@),
{
    let mut a = a;
    let mut b = b;
    let ghost target = merge_desc(a@, b@);
    let mut rev: Vec<T> = Vec::new();
    assert(rev@.reverse() =~= Seq::<T>::empty());
    assert(merge_desc(a@, b@) + Seq::<T>::empty() =~= target);
    while a.len() > 0 || b.len() > 0
        invariant
            target == merge_desc(a@, b@) + rev@.reverse(),
        decreases a.len() + b.len(),
    {
        let ghost va = a@;
        let ghost vb = b@;
        let ghost vr = rev@;
        let take_b = b.len() > 0 && (a.len() == 0 || b[b.len() - 1].rank_value() <= a[a.len()
            - 1].rank_value());
        let x = if take_b {
            b.pop().unwrap()
        } else {
            a.pop().unwrap()
        };
        rev.push(x);
        proof {
            assert(merge_desc(va, vb) == merge_desc(a@, b@).push(x));
            assert(rev@.reverse() =~= seq![x] + vr.reverse());
            assert(merge_desc(a@, b@).push(x) + vr.reverse() =~= merge_desc(a@, b@) + (seq![x]
                + vr.reverse()));
        }
    }
    assert(a@ =~= Seq::<T>::empty());
    assert(target =~= rev@.reverse());
    let mut merged: Vec<T> = Vec::new();
    assert(merged@ + rev@.reverse() =~= target);
    while rev.len() > 0
        invariant
            target == merged@ + rev@.reverse(),
        decreases rev.len(),
    {
        let ghost vm = merged@;
        let ghost vr = rev@;
        let x = rev.pop().unwrap();
        merged.push(x);
        proof {
            assert(vr.reverse() =~= seq![x] + rev@.reverse());
            assert(vm.push(x) + rev@.reverse() =~= vm + (seq![x] + rev@.reverse()));
        }
    }
    assert(rev@.reverse() =~= Seq::<T>::empty());
    assert(target =~= merged@);
    merged
}

fn merge_sort<T: RankedExec>(items: Vec<T>) -> (ranked: Vec<T>)
    ensures
        ranked@ == merge_ranked(items@),
    decreases items.len(),
{
    let n = items.len();
    if n <= 1 {
        return items;
    }
    let mut left = items;
    let right = left.split_off(n / 2);
    let left = merge_sort(left);
    let right = merge_sort(right);
    merge(left, right)
}

/// Puts the items in descending order of rank, keeping items of equal rank in
/// the order in which they came.
pub fn rank_desc<T: RankedExec>(items: Vec<T>) -> (ranked: Vec<T>)
    ensures
        is_stable_ranking(items@, ranked@),
        ranked.len() == items.len(),
{
    proof {
        lemma_merge_ranked(items@);
    }
    merge_sort(items)
}

} // verus!
