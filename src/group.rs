use vstd::prelude::*;

use crate::toast::{Position, ToastManagerItem};

verus! {

/// The indices below `n` of the records of `items` anchored at `p`, ascending.
pub open spec fn indices_at(items: Seq<(usize, ToastManagerItem)>, p: Position, n: int) -> Seq<usize>
    decreases n,
{
    if n <= 0 {
        Seq::empty()
    } else {
        let prev = indices_at(items, p, n - 1);
        if items[n - 1].1.info.position == p {
            prev.push((n - 1) as usize)
        } else {
            prev
        }
    }
}

/// Holds of the records anchored at `p`.
pub open spec fn at_position(p: Position) -> spec_fn((usize, ToastManagerItem)) -> bool {
    |e: (usize, ToastManagerItem)| e.1.info.position == p
}

/// The records of `items` that the indices `idx` point at, in the order of `idx`.
pub open spec fn records_at(items: Seq<(usize, ToastManagerItem)>, idx: Seq<usize>) -> Seq<
    (usize, ToastManagerItem),
> {
    idx.map_values(|i: usize| items[i as int])
}

/// The indices of the records of `items` anchored at `p`, in the order of `items`.
pub open spec fn bucket(items: Seq<(usize, ToastManagerItem)>, p: Position) -> Seq<usize> {
    indices_at(items, p, items.len() as int)
}

proof fn lemma_indices_at(items: Seq<(usize, ToastManagerItem)>, p: Position, n: int)
    requires
        0 <= n <= items.len() <= usize::MAX,
    ensures
        forall|k: int|
            0 <= k < indices_at(items, p, n).len() ==> (#[trigger] indices_at(items, p, n)[k]) < n
                && items[indices_at(items, p, n)[k] as int].1.info.position == p,
        forall|a: int, b: int|
            0 <= a < b < indices_at(items, p, n).len() ==> indices_at(items, p, n)[a]
                < indices_at(items, p, n)[b],
        forall|m: int|
            0 <= m < n && (#[trigger] items[m]).1.info.position == p ==> indices_at(
                items,
                p,
                n,
            ).contains(m as usize),
    decreases n,
{
    if n > 0 {
        lemma_indices_at(items, p, n - 1);
        let prev = indices_at(items, p, n - 1);
        if items[n - 1].1.info.position == p {
            let cur = prev.push((n - 1) as usize);
            assert forall|m: int|
                0 <= m < n && (#[trigger] items[m]).1.info.position == p implies cur.contains(
                m as usize,
            ) by {
                if m < n - 1 {
                    let k = choose|k: int| 0 <= k < prev.len() && prev[k] == m as usize;
                    assert(cur[k] == m as usize);
                } else {
                    assert(cur[prev.len() as int] == m as usize);
                }
            }
        }
    }
}

proof fn lemma_indices_records(items: Seq<(usize, ToastManagerItem)>, p: Position, n: int)
    requires
        0 <= n <= items.len() <= usize::MAX,
    ensures
        records_at(items, indices_at(items, p, n)) == items.take(n).filter(at_position(p)),
    decreases n,
{
    if n == 0 {
        assert(items.take(0) =~= Seq::<(usize, ToastManagerItem)>::empty());
        reveal(Seq::filter);
        assert(records_at(items, indices_at(items, p, 0)) =~= items.take(0).filter(at_position(p)));
    } else {
        lemma_indices_records(items, p, n - 1);
        assert(items.take(n) =~= items.take(n - 1).push(items[n - 1]));
        items.take(n - 1).lemma_filter_push(items[n - 1], at_position(p));
        let prev = indices_at(items, p, n - 1);
        if items[n - 1].1.info.position == p {
            assert(records_at(items, prev.push((n - 1) as usize)) =~= records_at(items, prev).push(
                items[n - 1],
            ));
        }
    }
}

proof fn lemma_bucket_sizes(items: Seq<(usize, ToastManagerItem)>, n: int)
    requires
        0 <= n <= items.len(),
    ensures
        indices_at(items, Position::BottomLeft, n).len() + indices_at(
            items,
            Position::BottomRight,
            n,
        ).len() + indices_at(items, Position::TopLeft, n).len() + indices_at(
            items,
            Position::TopRight,
            n,
        ).len() == n,
    decreases n,
{
    if n > 0 {
        lemma_bucket_sizes(items, n - 1);
    }
}

/// The four corner buckets partition a snapshot: their sizes add up to the
/// number of records, every record lies in the bucket of its own corner and in
/// no other, and each bucket lists its records in snapshot order: the records
/// it points at are exactly the snapshot filtered by corner.
pub proof fn lemma_buckets_partition(items: Seq<(usize, ToastManagerItem)>)
    requires
        items.len() <= usize::MAX,
    ensures
        bucket(items, Position::BottomLeft).len() + bucket(items, Position::BottomRight).len()
            + bucket(items, Position::TopLeft).len() + bucket(items, Position::TopRight).len()
            == items.len(),
        forall|p: Position, k: int|
            0 <= k < bucket(items, p).len() ==> (#[trigger] bucket(items, p)[k]) < items.len()
                && items[bucket(items, p)[k] as int].1.info.position == p,
        forall|k: int|
            0 <= k < items.len() ==> #[trigger] bucket(items, items[k].1.info.position).contains(
                k as usize,
            ),
        forall|p: Position, q: Position, k: usize|
            p != q && #[trigger] bucket(items, p).contains(k) ==> !#[trigger] bucket(
                items,
                q,
            ).contains(k),
        forall|p: Position, a: int, b: int|
            0 <= a < b < bucket(items, p).len() ==> bucket(items, p)[a] < bucket(items, p)[b],
        forall|p: Position| #[trigger]
            records_at(items, bucket(items, p)) == items.filter(at_position(p)),
{
    let n = items.len() as int;
    lemma_bucket_sizes(items, n);
    assert forall|p: Position, k: int|
        0 <= k < bucket(items, p).len() implies (#[trigger] bucket(items, p)[k]) < items.len()
        && items[bucket(items, p)[k] as int].1.info.position == p by {
        lemma_indices_at(items, p, n);
    }
    assert forall|k: int| 0 <= k < items.len() implies #[trigger] bucket(
        items,
        items[k].1.info.position,
    ).contains(k as usize) by {
        lemma_indices_at(items, items[k].1.info.position, n);
    }
    assert forall|p: Position, q: Position, k: usize|
        p != q && #[trigger] bucket(items, p).contains(k) implies !#[trigger] bucket(
        items,
        q,
    ).contains(k) by {
        lemma_indices_at(items, p, n);
        lemma_indices_at(items, q, n);
        let a = choose|a: int| 0 <= a < bucket(items, p).len() && bucket(items, p)[a] == k;
        if bucket(items, q).contains(k) {
            let b = choose|b: int| 0 <= b < bucket(items, q).len() && bucket(items, q)[b] == k;
            assert(items[k as int].1.info.position == p);
            assert(items[k as int].1.info.position == q);
        }
    }
    assert forall|p: Position, a: int, b: int|
        0 <= a < b < bucket(items, p).len() implies bucket(items, p)[a] < bucket(items, p)[b] by {
        lemma_indices_at(items, p, n);
    }
    assert(items.take(n) =~= items);
    assert forall|p: Position| #[trigger]
        records_at(items, bucket(items, p)) == items.filter(at_position(p)) by {
        lemma_indices_records(items, p, n);
    }
}

/// A snapshot split by screen corner: each field lists, in snapshot order, the
/// indices of the records anchored at that corner.
#[derive(Debug, Clone)]
pub struct PositionGroups {
    pub bottom_left: Vec<usize>,
    pub bottom_right: Vec<usize>,
    pub top_left: Vec<usize>,
    pub top_right: Vec<usize>,
}

/// Splits `items` into the four corner buckets, keeping the order of `items`
/// within each.
pub fn group_by_position(items: &Vec<(usize, ToastManagerItem)>) -> (r: PositionGroups)
    ensures
        r.bottom_left@ == bucket(items@, Position::BottomLeft),
        r.bottom_right@ == bucket(items@, Position::BottomRight),
        r.top_left@ == bucket(items@, Position::TopLeft),
        r.top_right@ == bucket(items@, Position::TopRight),
{
    let mut bottom_left: Vec<usize> = Vec::new();
    let mut bottom_right: Vec<usize> = Vec::new();
    let mut top_left: Vec<usize> = Vec::new();
    let mut top_right: Vec<usize> = Vec::new();
    let mut i: usize = 0;
    while i < items.len()
        invariant
            i <= items.len(),
            bottom_left@ == indices_at(items@, Position::BottomLeft, i as int),
            bottom_right@ == indices_at(items@, Position::BottomRight, i as int),
            top_left@ == indices_at(items@, Position::TopLeft, i as int),
            top_right@ == indices_at(items@, Position::TopRight, i as int),
        decreases items.len() - i,
    {
        match items[i].1.info.position {
            Position::BottomLeft => bottom_left.push(i),
            Position::BottomRight => bottom_right.push(i),
            Position::TopLeft => top_left.push(i),
            Position::TopRight => top_right.push(i),
        }
        i = i + 1;
    }
    PositionGroups { bottom_left, bottom_right, top_left, top_right }
}

} // verus!
