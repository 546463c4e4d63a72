//! The segments of a spool that wait to be inserted.

use crate::clickhouse::spool::{SpoolError, MAX_SEGMENTS};
use crate::order::{
    bytes_order, bytes_order_opposite, bytes_order_transitive, compare_bytes, Order,
};
use crate::text::{chars_of, matches_at, occurs_at, string_views};
use vstd::prelude::*;
use vstd::utf8::encode_utf8;

verus! {

/// Whether a file name has the extension of a complete segment. A name that
/// is nothing but the extension has none.
pub open spec fn is_ready(name: Seq<char>) -> bool {
    name.len() > 6 && occurs_at(name, ".ready"@, name.len() - 6)
}

/// The names of complete segments among some file names, in their order.
pub open spec fn ready_names(names: Seq<Seq<char>>) -> Seq<Seq<char>> {
    names.filter(|name: Seq<char>| is_ready(name))
}

/// The order of file names: that of their octets.
pub open spec fn name_order(a: Seq<char>, b: Seq<char>) -> Order {
    bytes_order(encode_utf8(a), encode_utf8(b))
}

/// Whether file names are in order.
pub open spec fn names_sorted(names: Seq<Seq<char>>) -> bool {
    forall|i: int, k: int|
        0 <= i < k < names.len() ==> name_order(#[trigger] names[i], #[trigger] names[k])
            != Order::Greater
}

fn has_ready_extension(name: &str) -> (r: bool)
    ensures
        r == is_ready(name@),
{
    proof {
        reveal_strlit(".ready");
    }
    let chars = chars_of(name);
    let extension = chars_of(".ready");
    chars.len() > 6 && matches_at(&chars, &extension, chars.len() - 6)
}

/// Where a name goes among sorted names: behind those that are not greater.
fn place_of(sorted: &[String], name: &str) -> (r: usize)
    requires
        names_sorted(string_views(sorted@)),
    ensures
        r <= sorted@.len(),
        forall|i: int|
            0 <= i < r ==> name_order(#[trigger] string_views(sorted@)[i], name@)
                != Order::Greater,
        forall|i: int|
            r <= i < sorted@.len() ==> name_order(name@, #[trigger] string_views(sorted@)[i])
                != Order::Greater,
{
    let ghost views = string_views(sorted@);
    let mut p: usize = sorted.len();
    while p > 0
        invariant
            p <= sorted@.len(),
            views == string_views(sorted@),
            names_sorted(views),
            forall|i: int|
                p <= i < sorted@.len() ==> name_order(name@, #[trigger] views[i])
                    != Order::Greater,
        decreases p,
    {
        assert(views[p - 1] == sorted@[p - 1]@);
        let order = compare_bytes(sorted[p - 1].as_str().as_bytes(), name.as_bytes());
        proof {
            bytes_order_opposite(encode_utf8(views[p - 1]), encode_utf8(name@));
        }
        if order != Order::Greater {
            proof {
                assert forall|i: int| 0 <= i < p implies name_order(#[trigger] views[i], name@)
                    != Order::Greater by {
                    if i < p - 1 {
                        assert(name_order(views[i], views[p - 1]) != Order::Greater);
                        bytes_order_transitive(
                            encode_utf8(views[i]),
                            encode_utf8(views[p - 1]),
                            encode_utf8(name@),
                        );
                    }
                }
            }
            return p;
        }
        p -= 1;
    }
    0
}

/// The complete segments among the files of a spool, oldest first: the names
/// begin with a time. It is an error if there are too many.
pub fn pending(names: Vec<String>) -> (r: Result<Vec<String>, SpoolError>)
    ensures
        ready_names(string_views(names@)).len() > MAX_SEGMENTS ==> r == Err::<
            Vec<String>,
            SpoolError,
        >(SpoolError::TooManySegments),
        ready_names(string_views(names@)).len() <= MAX_SEGMENTS ==> r is Ok && names_sorted(
            string_views(r->Ok_0@),
        ) && string_views(r->Ok_0@).to_multiset() == ready_names(
            string_views(names@),
        ).to_multiset(),
{
    let ghost all = string_views(names@);
    let mut files: Vec<String> = Vec::new();
    proof {
        assert(string_views(files@) =~= seq![]);
        assert(all.take(0) =~= seq![]);
        reveal(Seq::filter);
        assert(ready_names(all.take(0)) =~= seq![]);
    }
    for name in iter: names
        invariant
            all == string_views(iter.seq()),
            names_sorted(string_views(files@)),
            files@.len() <= MAX_SEGMENTS,
            files@.len() == ready_names(all.take(iter.index())).len(),
            string_views(files@).to_multiset() == ready_names(
                all.take(iter.index()),
            ).to_multiset(),
    {
        let ghost n = iter.index();
        let ghost before = files@;
        proof {
            assert(all[n] == name@);
            assert(all.take(n + 1) =~= all.take(n).push(name@));
            let ready = |name: Seq<char>| is_ready(name);
            Seq::filter_distributes_over_add(all.take(n), seq![name@], ready);
            assert(all.take(n) + seq![name@] =~= all.take(n + 1));
            reveal_with_fuel(Seq::filter, 2);
            assert(seq![name@].drop_last() =~= seq![]);
            assert(ready_names(all.take(n + 1)) =~= (if is_ready(name@) {
                ready_names(all.take(n)).push(name@)
            } else {
                ready_names(all.take(n))
            }));
            ready_names(all.take(n)).to_multiset_ensures();
        }
        if has_ready_extension(name.as_str()) {
            if files.len() == MAX_SEGMENTS {
                proof {
                    ready_grows(all, n + 1);
                }
                return Err(SpoolError::TooManySegments);
            }
            let at: usize = place_of(&files, name.as_str());
            let ghost stored = name@;
            files.insert(at, name);
            proof {
                let old_views = string_views(before);
                before.insert_ensures(at as int, name);
                old_views.insert_ensures(at as int, stored);
                assert(string_views(files@) =~= old_views.insert(at as int, stored));
                insert_counts(old_views, at as int, stored);
                let new_views = string_views(files@);
                assert forall|i: int, k: int| 0 <= i < k < new_views.len() implies name_order(
                    #[trigger] new_views[i],
                    #[trigger] new_views[k],
                ) != Order::Greater by {
                    let i2 = if i < at { i } else { i - 1 };
                    let k2 = if k < at { k } else { k - 1 };
                    if i != at {
                        assert(new_views[i] == old_views[i2]);
                    }
                    if k != at {
                        assert(new_views[k] == old_views[k2]);
                    }
                }
            }
        }
    }
    assert(all.take(all.len() as int) =~= all);
    Ok(files)
}

proof fn insert_counts(list: Seq<Seq<char>>, at: int, item: Seq<char>)
    requires
        0 <= at <= list.len(),
    ensures
        list.insert(at, item).to_multiset() == list.to_multiset().insert(item),
{
    list.to_multiset_ensures();
    let head = list.subrange(0, at);
    let tail = list.subrange(at, list.len() as int);
    assert(list =~= head + tail);
    assert(list.insert(at, item) =~= head.push(item) + tail);
    vstd::seq_lib::lemma_multiset_commutative(head.push(item), tail);
    vstd::seq_lib::lemma_multiset_commutative(head, tail);
    head.to_multiset_ensures();
    assert(list.insert(at, item).to_multiset() =~= list.to_multiset().insert(item));
}

proof fn ready_grows(all: Seq<Seq<char>>, n: int)
    requires
        0 <= n <= all.len(),
    ensures
        ready_names(all.take(n)).len() <= ready_names(all).len(),
{
    let ready = |name: Seq<char>| is_ready(name);
    Seq::filter_distributes_over_add(all.take(n), all.skip(n), ready);
    assert(all =~= all.take(n) + all.skip(n));
}

/// A name is that of a complete segment exactly if something stands in front of
/// the extension that tells so.
pub proof fn complete_segments_have_the_extension(stem: Seq<char>, other: Seq<char>)
    ensures
        is_ready(stem + ".ready"@) <==> stem.len() > 0,
        is_ready(other) ==> other.skip(other.len() - 6) == ".ready"@,
{
    reveal_strlit(".ready");
    assert(".ready"@.len() == 6);
    let name = stem + ".ready"@;
    assert(name.subrange(name.len() - 6, name.len() as int) =~= ".ready"@);
    if is_ready(other) {
        assert(other.skip(other.len() - 6) =~= other.subrange(
            other.len() - 6,
            other.len() as int,
        ));
    }
}

} // verus!
