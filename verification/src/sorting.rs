//! Sorting that keeps the order of items that are on a par.

use vstd::prelude::*;

verus! {

/// An item that can be sorted.
pub trait Ranked: Sized {
    /// The place of an item: a lower rank goes first.
    spec fn rank(&self) -> int;

    /// Whether an item goes behind another.
    fn is_behind(&self, other: &Self) -> (r: bool)
        ensures
            r == (self.rank() > other.rank()),
    ;
}

/// The place of one more item in a sorted list: behind all that do not go
/// behind it.
pub open spec fn place<T: Ranked>(list: Seq<T>, item: T) -> int
    decreases list.len(),
{
    if list.len() == 0 || list.last().rank() <= item.rank() {
        list.len() as int
    } else {
        place(list.drop_last(), item)
    }
}

/// Items in the order of their ranks; those of one rank in the order that they
/// had.
pub open spec fn sorted<T: Ranked>(items: Seq<T>) -> Seq<T>
    decreases items.len(),
{
    if items.len() == 0 {
        items
    } else {
        let rest = sorted(items.drop_last());
        rest.insert(place(rest, items.last()), items.last())
    }
}

/// Whether no item goes behind a later one.
pub open spec fn is_sorted<T: Ranked>(list: Seq<T>) -> bool {
    forall|i: int, j: int|
        0 <= i < j < list.len() ==> (#[trigger] list[i]).rank() <= (#[trigger] list[j]).rank()
}

proof fn place_is_within<T: Ranked>(list: Seq<T>, item: T)
    requires
        is_sorted(list),
    ensures
        0 <= place(list, item) <= list.len(),
        forall|i: int|
            0 <= i < place(list, item) ==> (#[trigger] list[i]).rank() <= item.rank(),
        forall|i: int|
            place(list, item) <= i < list.len() ==> (#[trigger] list[i]).rank() > item.rank(),
    decreases list.len(),
{
    if list.len() > 0 {
        let rest = list.drop_last();
        place_is_within(rest, item);
        let p = place(list, item);
        assert forall|i: int| 0 <= i < p implies (#[trigger] list[i]).rank() <= item.rank() by {
            if list.last().rank() <= item.rank() {
                if i < list.len() - 1 {
                    assert(list[i].rank() <= list[list.len() - 1].rank());
                }
            } else {
                assert(rest[i] == list[i]);
            }
        }
        assert forall|i: int| p <= i < list.len() implies (#[trigger] list[i]).rank()
            > item.rank() by {
            if i < list.len() - 1 {
                assert(rest[i] == list[i]);
            }
        }
    }
}

/// Sorting puts the items in order.
pub proof fn sorting_puts_in_order<T: Ranked>(items: Seq<T>)
    ensures
        is_sorted(sorted(items)),
        sorted(items).len() == items.len(),
    decreases items.len(),
{
    if items.len() > 0 {
        let rest = sorted(items.drop_last());
        let item = items.last();
        sorting_puts_in_order(items.drop_last());
        place_is_within(rest, item);
        let p = place(rest, item);
        let all = sorted(items);
        assert forall|i: int, j: int| 0 <= i < j < all.len() implies (#[trigger] all[i]).rank() <= (
        #[trigger] all[j]).rank() by {
            if i != p && j != p {
                let a = if i < p { i } else { i - 1 };
                let b = if j < p { j } else { j - 1 };
                assert(rest[a].rank() <= rest[b].rank());
            } else if i == p {
                assert(all[j] == rest[j - 1]);
            } else {
                assert(all[i] == rest[i]);
            }
        }
    }
}

/// Sorting neither adds nor drops an item.
pub proof fn sorting_keeps_the_items<T: Ranked>(items: Seq<T>)
    ensures
        sorted(items).to_multiset() == items.to_multiset(),
    decreases items.len(),
{
    broadcast use vstd::seq_lib::group_to_multiset_ensures;

    if items.len() > 0 {
        let rest = sorted(items.drop_last());
        let item = items.last();
        sorting_keeps_the_items(items.drop_last());
        sorting_puts_in_order(items.drop_last());
        place_is_within(rest, item);
        assert(items =~= items.drop_last().push(item));
        assert(sorted(items).to_multiset() == rest.to_multiset().insert(item)) by {
            vstd::seq_lib::to_multiset_insert(rest, place(rest, item), item);
        }
    }
}

/// Tells the items of one rank.
pub open spec fn has_rank<T: Ranked>(rank: int) -> spec_fn(T) -> bool {
    |item: T| item.rank() == rank
}

/// The items of one rank.
pub open spec fn of_rank<T: Ranked>(items: Seq<T>, rank: int) -> Seq<T> {
    items.filter(has_rank(rank))
}

/// Items of one rank stay in the order that they had.
pub proof fn sorting_keeps_order_within_rank<T: Ranked>(items: Seq<T>, rank: int)
    ensures
        of_rank(sorted(items), rank) == of_rank(items, rank),
    decreases items.len(),
{
    let pred = has_rank::<T>(rank);
    reveal(Seq::filter);
    if items.len() > 0 {
        let before = items.drop_last();
        let item = items.last();
        let rest = sorted(before);
        sorting_keeps_order_within_rank(before, rank);
        sorting_puts_in_order(before);
        place_is_within(rest, item);
        let p = place(rest, item);
        let front = rest.take(p);
        let back = rest.skip(p);
        assert(rest =~= front + back);
        assert(sorted(items) =~= front.push(item) + back);
        Seq::filter_distributes_over_add(front, back, pred);
        Seq::filter_distributes_over_add(front.push(item), back, pred);
        assert(front.push(item).drop_last() =~= front);
        assert(items =~= before.push(item));
        if item.rank() == rank {
            none_of_rank(back, rank);
            assert(back.filter(pred) =~= Seq::empty());
            assert(front.filter(pred) =~= rest.filter(pred));
            assert(front.push(item).filter(pred) =~= front.filter(pred).push(item));
            assert(sorted(items).filter(pred) =~= front.filter(pred).push(item));
        } else {
            assert(front.push(item).filter(pred) =~= front.filter(pred));
        }
    }
}

proof fn none_of_rank<T: Ranked>(items: Seq<T>, rank: int)
    requires
        forall|i: int| 0 <= i < items.len() ==> (#[trigger] items[i]).rank() != rank,
    ensures
        of_rank(items, rank).len() == 0,
    decreases items.len(),
{
    reveal(Seq::filter);
    if items.len() > 0 {
        none_of_rank(items.drop_last(), rank);
        assert(items.last().rank() != rank) by {
            assert(items[items.len() - 1].rank() != rank);
        }
    }
}

/// Sorts items.
pub fn sort<T: Ranked>(items: Vec<T>) -> (r: Vec<T>)
    ensures
        r@ == sorted(items@),
{
    let ghost all = items@;
    let mut out: Vec<T> = Vec::new();
    assert(out@ =~= all.take(0));
    for item in iter: items
        invariant
            iter.seq() == all,
            out@ == sorted(all.take(iter.index() as int)),
    {
        let ghost before = out@;
        let mut p: usize = out.len();
        assert(before.take(p as int) =~= before);
        while p > 0 && out[p - 1].is_behind(&item)
            invariant
                out@ == before,
                p <= before.len(),
                place(before, item) == place(before.take(p as int), item),
            decreases p,
        {
            let ghost upto = before.take(p as int);
            p -= 1;
            assert(upto.drop_last() =~= before.take(p as int));
            assert(upto.last() == before[p as int]);
        }
        proof {
            let upto = before.take(p as int);
            if p > 0 {
                assert(upto.last() == before[p - 1]);
            }
            assert(place(before, item) == p);
            let some = all.take(iter.index() + 1);
            assert(some.drop_last() =~= all.take(iter.index() as int));
            assert(some.last() == item);
        }
        out.insert(p, item);
    }
    assert(all.take(all.len() as int) =~= all);
    out
}

} // verus!
