//! How a row is read: column by column, in the order in which the columns are
//! named to the database.

use crate::clickhouse::event::{
    array_octets, flag_octet, lists_octets,
    nullable_address, nullable_octets, numbers_octets, row_attributes, row_derived,
    row_head, scalars_octets, string_octets, varint_in, varint_octets, varint_round_trip,
    DerivedView, EventView,
};
use crate::wire::{le16, le32, le32_round_trip, le64, of_le16, of_le32};
use vstd::prelude::*;
use vstd::utf8::encode_utf8;

verus! {

/// A number of four octets that may be missing, and what stands behind it. An
/// octet tells whether it is missing.
#[verifier::opaque]
pub open spec fn nullable_in(b: Seq<u8>) -> (Option<int>, Seq<u8>) {
    if b[0] == 1 {
        (None, b.skip(1))
    } else {
        (Some(of_le32(b.subrange(1, 5))), b.skip(5))
    }
}

/// An address that may be missing, and what stands behind it.
#[verifier::opaque]
pub open spec fn address_in(b: Seq<u8>) -> (Option<Seq<u8>>, Seq<u8>) {
    if b[0] == 1 {
        (None, b.skip(1))
    } else {
        (Some(b.subrange(1, 17)), b.skip(17))
    }
}

/// Items of some size each, how many of them being told before them, and what
/// stands behind them.
pub open spec fn items_in(b: Seq<u8>, size: int) -> (Seq<Seq<u8>>, Seq<u8>) {
    let (n, at) = varint_in(b)->0;
    (
        Seq::new(n, |i: int| b.subrange(at + i * size, at + i * size + size)),
        b.skip(at + n * size),
    )
}

/// A string and what stands behind it.
pub open spec fn string_in(b: Seq<u8>) -> (Seq<u8>, Seq<u8>) {
    let (n, at) = varint_in(b)->0;
    (b.subrange(at as int, (at + n) as int), b.skip((at + n) as int))
}

proof fn nullable_is_read(value: Option<u32>, rest: Seq<u8>)
    ensures
        nullable_in(nullable_octets(value) + rest) == (
            match value {
                Some(n) => Some(n as int),
                None => None::<int>,
            },
            rest,
        ),
{
    reveal(nullable_in);
    let b = nullable_octets(value) + rest;
    match value {
        Some(n) => {
            le32_round_trip(n as int);
            assert(b.subrange(1, 5) =~= le32(n as int));
            assert(b.skip(5) =~= rest);
        },
        None => {
            assert(b.skip(1) =~= rest);
        },
    }
}

proof fn address_is_read(value: Option<Seq<u8>>, rest: Seq<u8>)
    requires
        value is Some ==> value->0.len() == 16,
    ensures
        address_in(nullable_address(value) + rest) == (value, rest),
{
    reveal(address_in);
    let b = nullable_address(value) + rest;
    match value {
        Some(octets) => {
            assert(b.subrange(1, 17) =~= octets);
            assert(b.skip(17) =~= rest);
        },
        None => {
            assert(b.skip(1) =~= rest);
        },
    }
}

proof fn numbers_are_placed(values: Seq<u32>, i: int)
    requires
        0 <= i < values.len(),
    ensures
        numbers_octets(values).len() == 4 * values.len(),
        numbers_octets(values).subrange(4 * i, 4 * i + 4) == le32(values[i] as int),
    decreases values.len(),
{
    let before = values.drop_last();
    le32_round_trip(values.last() as int);
    if before.len() > 0 {
        numbers_are_placed(before, 0);
    }
    if i < before.len() {
        numbers_are_placed(before, i);
        assert(numbers_octets(values).subrange(4 * i, 4 * i + 4) =~= numbers_octets(
            before,
        ).subrange(4 * i, 4 * i + 4));
    } else {
        assert(numbers_octets(values).subrange(4 * i, 4 * i + 4) =~= le32(values[i] as int));
    }
}

/// What items of four octets stand for.
pub open spec fn numbers_in(items: Seq<Seq<u8>>) -> Seq<int> {
    items.map_values(|item: Seq<u8>| of_le32(item))
}

/// Numbers as they are.
pub open spec fn as_numbers(values: Seq<u32>) -> Seq<int> {
    values.map_values(|n: u32| n as int)
}

proof fn array_is_read(values: Seq<u32>, rest: Seq<u8>)
    ensures
        numbers_in(items_in(array_octets(values) + rest, 4).0) == as_numbers(values),
        items_in(array_octets(values) + rest, 4).1 == rest,
{
    let n = values.len();
    let b = array_octets(values) + rest;
    let tail = numbers_octets(values) + rest;
    assert(b =~= varint_octets(n) + tail);
    varint_round_trip(n, tail);
    let at = varint_octets(n).len() as int;
    if n > 0 {
        numbers_are_placed(values, 0);
    }
    let items = items_in(b, 4).0;
    assert forall|i: int| 0 <= i < n implies #[trigger] numbers_in(items)[i] == as_numbers(
        values,
    )[i] by {
        numbers_are_placed(values, i);
        le32_round_trip(values[i] as int);
        assert(b.subrange(at + i * 4, at + i * 4 + 4) =~= numbers_octets(values).subrange(
            4 * i,
            4 * i + 4,
        ));
    }
    assert(numbers_in(items) =~= as_numbers(values));
    assert(b.skip(at + n * 4) =~= rest);
}

/// Octets in blocks of some size.
pub open spec fn blocks_of(octets: Seq<u8>, size: int) -> Seq<Seq<u8>> {
    Seq::new(
        (octets.len() as int / size) as nat,
        |i: int| octets.subrange(i * size, i * size + size),
    )
}

proof fn blocks_are_read(blocks: Seq<u8>, size: int, rest: Seq<u8>)
    requires
        size > 0,
        blocks.len() as int % size == 0,
    ensures
        ({
            let n = blocks.len() as int / size;
            let b = varint_octets(n as nat) + blocks + rest;
            &&& items_in(b, size).0 == blocks_of(blocks, size)
            &&& items_in(b, size).1 == rest
        }),
{
    let n = blocks.len() as int / size;
    let b = varint_octets(n as nat) + blocks + rest;
    assert(n >= 0 && n * size == blocks.len()) by {
        vstd::arithmetic::div_mod::lemma_fundamental_div_mod(blocks.len() as int, size);
        vstd::arithmetic::div_mod::lemma_div_pos_is_pos(blocks.len() as int, size);
        assert(size * n == n * size) by (nonlinear_arith);
    }
    assert(b =~= varint_octets(n as nat) + (blocks + rest));
    varint_round_trip(n as nat, blocks + rest);
    let at = varint_octets(n as nat).len() as int;
    assert forall|i: int| 0 <= i < n implies #[trigger] items_in(b, size).0[i] == blocks.subrange(
        i * size,
        i * size + size,
    ) by {
        assert(0 <= i * size && i * size + size <= n * size) by (nonlinear_arith)
            requires
                0 <= i < n,
                size > 0,
        ;
        assert(b.subrange(at + i * size, at + i * size + size) =~= blocks.subrange(
            i * size,
            i * size + size,
        ));
    }
    assert(items_in(b, size).0 =~= blocks_of(blocks, size));
    assert(b.skip(at + n * size) =~= rest);
}

proof fn string_is_read(value: Seq<u8>, rest: Seq<u8>)
    ensures
        string_in(string_octets(value) + rest) == (value, rest),
{
    let b = string_octets(value) + rest;
    assert(b =~= varint_octets(value.len()) + (value + rest));
    varint_round_trip(value.len(), value + rest);
    let at = varint_octets(value.len()).len() as int;
    assert(b.subrange(at, at + value.len()) =~= value);
    assert(b.skip(at + value.len()) =~= rest);
}

/// The first columns of a row: the version, the stream, the epoch, the number
/// of the row, the times at which it came in and expires, the class and the
/// kind, the peer, the ingress, the path identifier if there is one, the AFI,
/// the SAFI, the prefix and its length.
#[verifier::rlimit(60)]
#[verifier::spinoff_prover]
pub proof fn first_columns_are_read(e: EventView, rest: Seq<u8>)
    requires
        e.stream.len() == 16,
        e.epoch.len() == 16,
        e.peer.len() == 16,
        e.prefix.len() == 16,
    ensures
        ({
            let b = row_head(e) + rest;
            let (path_id, more) = nullable_in(b.skip(76));
            &&& of_le16(b.subrange(0, 2)) == 1
            &&& b.subrange(2, 18) == e.stream
            &&& b.subrange(18, 34) == e.epoch
            &&& of_le32(b.subrange(34, 38)) + 0x1_0000_0000 * of_le32(b.subrange(38, 42)) == e.seq
            &&& of_le32(b.subrange(42, 46)) + 0x1_0000_0000 * of_le32(b.subrange(46, 50)) == (
            e.received_ms + (if e.received_ms < 0 {
                0x1_0000_0000_0000_0000int
            } else {
                0
            }))
            &&& of_le32(b.subrange(50, 54)) == e.expires
            &&& b[54] == e.class
            &&& b[55] == e.kind
            &&& b.subrange(56, 72) == e.peer
            &&& of_le32(b.subrange(72, 76)) == e.ingress
            &&& path_id == (match e.path_id {
                Some(id) => Some(id as int),
                None => None::<int>,
            })
            &&& of_le16(more.subrange(0, 2)) == e.afi
            &&& more[2] == e.safi
            &&& more.subrange(3, 19) == e.prefix
            &&& more[19] == e.prefix_len
            &&& more.skip(20) == rest
        }),
{
    let ms = if e.received_ms < 0 {
        e.received_ms + 0x1_0000_0000_0000_0000
    } else {
        e.received_ms as int
    };
    let tail = le16(e.afi as int) + seq![e.safi] + e.prefix + seq![e.prefix_len] + rest;
    let front = le16(1) + e.stream + e.epoch + le64(e.seq as int) + le64(ms) + le32(
        e.expires as int,
    ) + seq![e.class, e.kind] + e.peer + le32(e.ingress as int);
    let b = row_head(e) + rest;
    le64_is_read(e.seq as int);
    le64_is_read(ms);
    le32_round_trip(e.expires as int);
    le32_round_trip(e.ingress as int);
    assert(front.len() == 76);
    assert(b =~= front + (nullable_octets(e.path_id) + tail));
    assert(b.skip(76) =~= nullable_octets(e.path_id) + tail);
    nullable_is_read(e.path_id, tail);
    assert(b.subrange(0, 2) =~= le16(1));
    assert(b.subrange(2, 18) =~= e.stream);
    assert(b.subrange(18, 34) =~= e.epoch);
    assert(b.subrange(34, 38) =~= le64(e.seq as int).subrange(0, 4));
    assert(b.subrange(38, 42) =~= le64(e.seq as int).subrange(4, 8));
    assert(b.subrange(42, 46) =~= le64(ms).subrange(0, 4));
    assert(b.subrange(46, 50) =~= le64(ms).subrange(4, 8));
    assert(b.subrange(50, 54) =~= le32(e.expires as int));
    assert(b.subrange(56, 72) =~= e.peer);
    assert(b.subrange(72, 76) =~= le32(e.ingress as int));
    assert(tail.subrange(0, 2) =~= le16(e.afi as int));
    assert(tail.subrange(3, 19) =~= e.prefix);
    assert(tail.skip(20) =~= rest);
}

proof fn le64_is_read(n: int)
    requires
        0 <= n < 0x1_0000_0000_0000_0000,
    ensures
        le64(n).len() == 8,
        of_le32(le64(n).subrange(0, 4)) + 0x1_0000_0000 * of_le32(le64(n).subrange(4, 8)) == n,
{
    let (low, high) = (n % 0x1_0000_0000, n / 0x1_0000_0000);
    le32_round_trip(low);
    le32_round_trip(high);
    assert(le64(n).subrange(0, 4) =~= le32(low));
    assert(le64(n).subrange(4, 8) =~= le32(high));
}

/// The columns with lists: the paths, the communities, the large and the
/// extended ones.
pub proof fn list_columns_are_read(d: DerivedView, rest: Seq<u8>)
    requires
        d.large.len() % 12 == 0,
        d.extended.len() % 8 == 0,
    ensures
        ({
            let b = lists_octets(d) + rest;
            let (path, b1) = items_in(b, 4);
            let (as4_path, b2) = items_in(b1, 4);
            let (communities, b3) = items_in(b2, 4);
            let (large, b4) = items_in(b3, 12);
            let (extended, b5) = items_in(b4, 8);
            &&& numbers_in(path) == as_numbers(d.path)
            &&& numbers_in(as4_path) == as_numbers(d.as4_path)
            &&& numbers_in(communities) == as_numbers(d.communities)
            &&& large == blocks_of(d.large, 12)
            &&& extended == blocks_of(d.extended, 8)
            &&& b5 == rest
        }),
{
    let b4 = varint_octets(d.extended.len() / 8) + d.extended + rest;
    let b3 = varint_octets(d.large.len() / 12) + d.large + b4;
    let b2 = array_octets(d.communities) + b3;
    let b1 = array_octets(d.as4_path) + b2;
    let b = array_octets(d.path) + b1;
    lists_in_parts(d, rest);
    array_is_read(d.path, b1);
    array_is_read(d.as4_path, b2);
    array_is_read(d.communities, b3);
    blocks_are_read(d.large, 12, b4);
    blocks_are_read(d.extended, 8, rest);
}

proof fn lists_in_parts(d: DerivedView, rest: Seq<u8>)
    ensures
        lists_octets(d) + rest == array_octets(d.path) + (array_octets(d.as4_path) + (array_octets(
            d.communities,
        ) + (varint_octets(d.large.len() / 12) + d.large + (varint_octets(d.extended.len() / 8)
            + d.extended + rest)))),
{
    assert(lists_octets(d) + rest =~= array_octets(d.path) + (array_octets(d.as4_path) + (
    array_octets(d.communities) + (varint_octets(d.large.len() / 12) + d.large + (varint_octets(
        d.extended.len() / 8,
    ) + d.extended + rest)))));
}

proof fn singles_in_parts(d: DerivedView, rest: Seq<u8>)
    ensures
        scalars_octets(d) + rest == nullable_address(d.next_hop) + (nullable_octets(d.med) + (
        nullable_octets(d.local_pref) + (seq![flag_octet(d.ok)] + rest))),
{
    assert(scalars_octets(d) + rest =~= nullable_address(d.next_hop) + (nullable_octets(d.med) + (
    nullable_octets(d.local_pref) + (seq![flag_octet(d.ok)] + rest))));
}

/// The columns with single values: the next hop, MULTI_EXIT_DISC, LOCAL_PREF
/// and whether the attributes could be read.
pub proof fn single_columns_are_read(d: DerivedView, rest: Seq<u8>)
    requires
        d.next_hop is Some ==> d.next_hop->0.len() == 16,
    ensures
        ({
            let b = scalars_octets(d) + rest;
            let (next_hop, b1) = address_in(b);
            let (med, b2) = nullable_in(b1);
            let (local_pref, b3) = nullable_in(b2);
            &&& next_hop == d.next_hop
            &&& med == (match d.med {
                Some(n) => Some(n as int),
                None => None::<int>,
            })
            &&& local_pref == (match d.local_pref {
                Some(n) => Some(n as int),
                None => None::<int>,
            })
            &&& b3[0] == (if d.ok {
                1u8
            } else {
                0
            })
            &&& b3.skip(1) == rest
        }),
{
    let b3 = seq![flag_octet(d.ok)] + rest;
    let b2 = nullable_octets(d.local_pref) + b3;
    let b1 = nullable_octets(d.med) + b2;
    singles_in_parts(d, rest);
    address_is_read(d.next_hop, b1);
    nullable_is_read(d.med, b2);
    nullable_is_read(d.local_pref, b3);
    assert(b3.skip(1) =~= rest);
}

/// Behind the first columns come the status of the route, the octets that an AS
/// number takes and the attributes as they came, then what they say, and the
/// identity at the end.
#[verifier::rlimit(60)]
#[verifier::spinoff_prover]
pub proof fn last_columns_are_read(e: EventView)
    requires
        e.attrs.len() >= 2,
    ensures
        ({
            let b = e.row().skip(row_head(e).len() as int);
            let (raw, more) = string_in(b.skip(2));
            let d = row_derived(e.attrs, e.afi, e.safi);
            let identity = more.skip((lists_octets(d) + scalars_octets(d)).len() as int);
            &&& row_head(e) == e.row().take(row_head(e).len() as int)
            &&& b[0] == e.attrs[0]
            &&& b[1] == (if e.attrs[1] == 0 {
                2u8
            } else {
                4
            })
            &&& raw == e.attrs.skip(2)
            &&& more.take((lists_octets(d) + scalars_octets(d)).len() as int) == lists_octets(d)
                + scalars_octets(d)
            &&& string_in(identity) == (encode_utf8(e.identity), Seq::<u8>::empty())
        }),
{
    reveal(EventView::row);
    let d = row_derived(e.attrs, e.afi, e.safi);
    let columns = lists_octets(d) + scalars_octets(d);
    let name = string_octets(encode_utf8(e.identity));
    let b = e.row().skip(row_head(e).len() as int);
    let raw = e.attrs.skip(2);
    assert(row_head(e) =~= e.row().take(row_head(e).len() as int));
    assert(b =~= row_attributes(e.attrs, e.afi, e.safi) + name);
    assert(b.skip(2) =~= string_octets(raw) + (columns + name));
    string_is_read(raw, columns + name);
    assert((columns + name).take(columns.len() as int) =~= columns);
    assert((columns + name).skip(columns.len() as int) =~= name);
    assert(name + Seq::<u8>::empty() =~= name);
    string_is_read(encode_utf8(e.identity), Seq::empty());
}

} // verus!
