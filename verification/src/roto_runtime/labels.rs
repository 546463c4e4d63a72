//! Labels in front of the destinations of an UPDATE message.
//!
//! A destination of a labelled family counts the bits of its labels, and of
//! its route distinguisher where the family has one, in with those of the
//! prefix. What is left must not be more than an address has.

use crate::clickhouse::event::{
    attribute_header, attribute_len, attributes_listed, is_absent, is_last, starts_with_attribute,
};
use crate::wire::{be16, be16_round_trip, octets_count_by_their_place, of_be16, read_be16};
use vstd::prelude::*;
use vstd::slice::slice_subrange;

verus! {

/// The type of the attribute with the announced destinations of a family.
pub const MP_REACH: u8 = 14;

/// The type of the attribute with the withdrawn destinations of a family.
pub const MP_UNREACH: u8 = 15;

/// The path attributes of an UPDATE message; none where the message is cut off.
pub open spec fn attributes_in(pdu: Seq<u8>) -> Seq<u8> {
    if pdu.len() < 21 {
        seq![]
    } else {
        let at = 21 + of_be16(pdu.subrange(19, 21));
        if pdu.len() < at + 2 {
            seq![]
        } else {
            let end = at + 2 + of_be16(pdu.subrange(at, at + 2));
            if pdu.len() < end {
                seq![]
            } else {
                pdu.subrange(at + 2, end)
            }
        }
    }
}

/// The value of the first attribute of a type.
pub open spec fn first_value(raw: Seq<u8>, typ: u8) -> Option<Seq<u8>>
    decreases raw.len(),
{
    if !starts_with_attribute(raw) {
        None
    } else {
        let end = attribute_header(raw) + attribute_len(raw);
        if raw[1] == typ {
            Some(raw.subrange(attribute_header(raw), end))
        } else {
            first_value(raw.skip(end), typ)
        }
    }
}

/// The value of the last attribute of a type, or else `found`.
pub open spec fn last_value(raw: Seq<u8>, typ: u8, found: Option<Seq<u8>>) -> Option<Seq<u8>>
    decreases raw.len(),
{
    if !starts_with_attribute(raw) {
        found
    } else {
        let end = attribute_header(raw) + attribute_len(raw);
        let here = if raw[1] == typ {
            Some(raw.subrange(attribute_header(raw), end))
        } else {
            found
        };
        last_value(raw.skip(end), typ, here)
    }
}

/// The family that an attribute is for.
pub open spec fn family_in(value: Seq<u8>) -> Option<(u16, u8)> {
    if value.len() < 3 {
        None
    } else {
        Some((of_be16(value.subrange(0, 2)) as u16, value[2]))
    }
}

/// Octets of the route distinguisher and bits of an address in a labelled
/// family; nothing for another family.
pub open spec fn labelled(family: (u16, u8)) -> Option<(nat, nat)> {
    if family == (1u16, 4u8) {
        Some((0, 32))
    } else if family == (2u16, 4u8) {
        Some((0, 128))
    } else if family == (1u16, 128u8) {
        Some((8, 32))
    } else if family == (2u16, 128u8) {
        Some((8, 128))
    } else {
        None
    }
}

/// Whether the label at the start of `raw` is the last: it says so, or it
/// stands for no label.
pub open spec fn is_last_label(raw: Seq<u8>) -> bool {
    raw[2] % 2 == 1 || (raw[1] == 0 && raw[2] == 0 && (raw[0] == 0 || raw[0] == 0x80))
}

/// How many octets the labels at the start of `raw` take, if they end.
pub open spec fn labels_len(raw: Seq<u8>) -> Option<nat>
    decreases raw.len(),
{
    if raw.len() < 3 {
        None
    } else if is_last_label(raw) {
        Some(3)
    } else {
        match labels_len(raw.skip(3)) {
            Some(n) => Some(n + 3),
            None => None,
        }
    }
}

/// The value of the lowest bit of a prefix in its last octet.
pub open spec fn lowest_bit(bits: u8) -> u8 {
    match bits % 8 {
        1 => 128,
        2 => 64,
        3 => 32,
        4 => 16,
        5 => 8,
        6 => 4,
        7 => 2,
        _ => 1,
    }
}

/// What the start of some destinations holds.
pub ghost enum Destination {
    /// None that can be read.
    Malformed,
    /// One with more bits than an address.
    TooLong,
    /// One that takes this many octets.
    Whole(int),
}

/// The destination at the start of `raw`.
pub open spec fn first_destination(raw: Seq<u8>, rd: nat, max: nat, addpath: bool) -> Destination {
    let id: int = if addpath {
        4
    } else {
        0
    };
    if raw.len() < id + 1 {
        Destination::Malformed
    } else {
        match labels_len(raw.skip(id + 1)) {
            None => Destination::Malformed,
            Some(labels) => {
                let bits = raw[id] - 8 * (rd + labels);
                let at = id + 1 + labels + rd;
                let end = at + (bits + 7) / 8;
                if bits < 0 || raw.len() < at {
                    Destination::Malformed
                } else if bits > max {
                    Destination::TooLong
                } else if raw.len() < end || (bits > 0 && raw[end - 1] % lowest_bit(bits as u8)
                    != 0) {
                    Destination::Malformed
                } else {
                    Destination::Whole(end)
                }
            },
        }
    }
}

/// Whether no destination, up to the first that cannot be read, has more bits
/// than an address.
pub open spec fn destinations_fit(raw: Seq<u8>, rd: nat, max: nat, addpath: bool) -> bool
    decreases raw.len(),
{
    match first_destination(raw, rd, max, addpath) {
        Destination::Malformed => true,
        Destination::TooLong => false,
        Destination::Whole(end) => if 0 < end <= raw.len() {
            destinations_fit(raw.skip(end), rd, max, addpath)
        } else {
            true
        },
    }
}

/// Where the destinations of an attribute start. A next hop and a reserved
/// octet stand in front of those that are announced.
pub open spec fn destinations_at(value: Seq<u8>, typ: u8) -> int {
    if typ != MP_REACH {
        3
    } else if value.len() < 4 {
        5
    } else {
        value[3] + 5
    }
}

/// Whether every labelled destination of an attribute fits. The first
/// attribute of a type counts; whether path identifiers go with its
/// destinations is settled by the family of the last.
pub open spec fn labels_fit(pdu: Seq<u8>, typ: u8, addpath: Set<(u16, u8)>) -> bool {
    let raw = attributes_in(pdu);
    match first_value(raw, typ) {
        None => true,
        Some(value) => match (family_in(value), family_in(last_value(raw, typ, None).unwrap())) {
            (Some(family), Some(last)) => match labelled(family) {
                Some((rd, max)) => value.len() >= destinations_at(value, typ) ==> destinations_fit(
                    value.skip(destinations_at(value, typ)),
                    rd,
                    max,
                    addpath.contains(last),
                ),
                None => true,
            },
            _ => true,
        },
    }
}

/// The path attributes of an UPDATE message; none where the message is cut off.
fn attributes_of(pdu: &[u8]) -> (r: &[u8])
    ensures
        r@ == attributes_in(pdu@),
{
    let len: usize = pdu.len();
    if len < 21 {
        let none = slice_subrange(pdu, 0, 0);
        assert(none@ =~= seq![]);
        return none;
    }
    let at: usize = 21 + read_be16(pdu, 19) as usize;
    if len < at + 2 {
        let none = slice_subrange(pdu, 0, 0);
        assert(none@ =~= seq![]);
        return none;
    }
    let end: usize = at + 2 + read_be16(pdu, at) as usize;
    if len < end {
        let none = slice_subrange(pdu, 0, 0);
        assert(none@ =~= seq![]);
        return none;
    }
    slice_subrange(pdu, at + 2, end)
}

/// Where the value of the attribute at the start of `raw` starts and where it
/// ends, if there is a whole one.
fn attribute_span(raw: &[u8]) -> (r: Option<(usize, usize)>)
    ensures
        match r {
            Some((from, to)) => {
                &&& starts_with_attribute(raw@)
                &&& from == attribute_header(raw@)
                &&& to == attribute_header(raw@) + attribute_len(raw@)
            },
            None => !starts_with_attribute(raw@),
        },
{
    let len: usize = raw.len();
    if len < 3 {
        return None;
    }
    let (from, size): (usize, usize) = if raw[0] / 16 % 2 == 1 {
        if len < 4 {
            return None;
        }
        (4, read_be16(raw, 2) as usize)
    } else {
        (3, raw[2] as usize)
    };
    if size > len - from {
        return None;
    }
    Some((from, from + size))
}

/// The values of the first and the last attribute of a type.
fn values_of(raw: &[u8], typ: u8) -> (r: Option<(&[u8], &[u8])>)
    ensures
        match r {
            Some((first, last)) => {
                &&& first_value(raw@, typ) == Some(first@)
                &&& last_value(raw@, typ, None) == Some(last@)
            },
            None => first_value(raw@, typ) is None,
        },
{
    let mut rest = raw;
    let mut found: Option<(&[u8], &[u8])> = None;
    loop
        invariant
            match found {
                Some((first, last)) => {
                    &&& first_value(raw@, typ) == Some(first@)
                    &&& last_value(raw@, typ, None) == last_value(rest@, typ, Some(last@))
                },
                None => {
                    &&& first_value(raw@, typ) == first_value(rest@, typ)
                    &&& last_value(raw@, typ, None) == last_value(rest@, typ, None)
                },
            },
        decreases rest@.len(),
    {
        match attribute_span(rest) {
            Some((from, to)) => {
                if rest[1] == typ {
                    let value = slice_subrange(rest, from, to);
                    found = match found {
                        Some((first, _)) => Some((first, value)),
                        None => Some((value, value)),
                    };
                }
                let next = slice_subrange(rest, to, rest.len());
                assert(next@ =~= rest@.skip(to as int));
                rest = next;
            },
            None => return found,
        }
    }
}

/// The family that an attribute is for.
fn family_of(value: &[u8]) -> (r: Option<(u16, u8)>)
    ensures
        r == family_in(value@),
{
    if value.len() < 3 {
        return None;
    }
    Some((read_be16(value, 0), value[2]))
}

/// How many octets the labels at the start of `raw` take, if they end.
fn count_labels(raw: &[u8]) -> (r: Option<usize>)
    ensures
        match r {
            Some(n) => labels_len(raw@) == Some(n as nat) && n <= raw@.len(),
            None => labels_len(raw@) is None,
        },
{
    let len: usize = raw.len();
    let mut at: usize = 0;
    assert(raw@.skip(0) =~= raw@);
    while len - at >= 3
        invariant
            at <= len,
            len == raw@.len(),
            match labels_len(raw@.skip(at as int)) {
                Some(n) => labels_len(raw@) == Some(at as nat + n),
                None => labels_len(raw@) is None,
            },
        decreases len - at,
    {
        let (a, b, c) = (raw[at], raw[at + 1], raw[at + 2]);
        let ghost rest = raw@.skip(at as int);
        assert(rest[0] == a && rest[1] == b && rest[2] == c);
        assert(rest.skip(3) =~= raw@.skip(at + 3));
        if c % 2 == 1 || (b == 0 && c == 0 && (a == 0 || a == 0x80)) {
            return Some(at + 3);
        }
        at += 3;
    }
    None
}

/// How long the destination at the start of `raw` is.
enum Extent {
    Malformed,
    TooLong,
    Whole(usize),
}

/// Measures the destination at the start of `raw`.
fn measure(raw: &[u8], rd: usize, max: usize, addpath: bool) -> (r: Extent)
    requires
        rd == 0 || rd == 8,
        max == 32 || max == 128,
    ensures
        match r {
            Extent::Malformed => first_destination(raw@, rd as nat, max as nat, addpath)
                is Malformed,
            Extent::TooLong => first_destination(raw@, rd as nat, max as nat, addpath) is TooLong,
            Extent::Whole(end) => first_destination(raw@, rd as nat, max as nat, addpath)
                == Destination::Whole(end as int) && 0 < end <= raw@.len(),
        },
{
    let len: usize = raw.len();
    let id: usize = if addpath {
        4
    } else {
        0
    };
    if len < id + 1 {
        return Extent::Malformed;
    }
    let behind = slice_subrange(raw, id + 1, len);
    assert(behind@ =~= raw@.skip(id + 1));
    let labels: usize = match count_labels(behind) {
        Some(labels) => labels,
        None => return Extent::Malformed,
    };
    let all: usize = raw[id] as usize;
    if labels > 32 || 8 * (rd + labels) > all {
        return Extent::Malformed;
    }
    let bits: usize = all - 8 * (rd + labels);
    let at: usize = id + 1 + labels + rd;
    if len < at {
        return Extent::Malformed;
    }
    if bits > max {
        return Extent::TooLong;
    }
    let end: usize = at + (bits + 7) / 8;
    if len < end {
        return Extent::Malformed;
    }
    if bits > 0 {
        let unit: u8 = match bits as u8 % 8 {
            1 => 128,
            2 => 64,
            3 => 32,
            4 => 16,
            5 => 8,
            6 => 4,
            7 => 2,
            _ => 1,
        };
        if raw[end - 1] % unit != 0 {
            return Extent::Malformed;
        }
    }
    Extent::Whole(end)
}

/// Says whether no destination, up to the first that cannot be read, has more
/// bits than an address.
fn all_fit(raw: &[u8], rd: usize, max: usize, addpath: bool) -> (r: bool)
    requires
        rd == 0 || rd == 8,
        max == 32 || max == 128,
    ensures
        r == destinations_fit(raw@, rd as nat, max as nat, addpath),
{
    let mut rest = raw;
    loop
        invariant
            rd == 0 || rd == 8,
            max == 32 || max == 128,
            destinations_fit(raw@, rd as nat, max as nat, addpath) == destinations_fit(
                rest@,
                rd as nat,
                max as nat,
                addpath,
            ),
        decreases rest@.len(),
    {
        match measure(rest, rd, max, addpath) {
            Extent::Malformed => return true,
            Extent::TooLong => return false,
            Extent::Whole(end) => {
                let next = slice_subrange(rest, end, rest.len());
                assert(next@ =~= rest@.skip(end as int));
                rest = next;
            },
        }
    }
}

/// Whether a family is in a list.
fn lists(families: &[(u16, u8)], family: (u16, u8)) -> (r: bool)
    ensures
        r == families@.contains(family),
{
    let mut i: usize = 0;
    while i < families.len()
        invariant
            i <= families@.len(),
            forall|j: int| 0 <= j < i ==> families@[j] != family,
        decreases families.len() - i,
    {
        if families[i].0 == family.0 && families[i].1 == family.1 {
            return true;
        }
        i += 1;
    }
    false
}

/// Says whether every labelled destination of an attribute fits.
pub fn check_labels(pdu: &[u8], typ: u8, addpath: &[(u16, u8)]) -> (r: bool)
    ensures
        r == labels_fit(pdu@, typ, addpath@.to_set()),
{
    let (value, last) = match values_of(attributes_of(pdu), typ) {
        Some(values) => values,
        None => return true,
    };
    let (family, last) = match (family_of(value), family_of(last)) {
        (Some(family), Some(last)) => (family, last),
        _ => return true,
    };
    let (rd, max): (usize, usize) = match family {
        (1, 4) => (0, 32),
        (2, 4) => (0, 128),
        (1, 128) => (8, 32),
        (2, 128) => (8, 128),
        _ => return true,
    };
    let at: usize = if typ != MP_REACH {
        3
    } else if value.len() < 4 {
        5
    } else {
        value[3] as usize + 5
    };
    if value.len() < at {
        return true;
    }
    let list = slice_subrange(value, at, value.len());
    assert(list@ =~= value@.skip(at as int));
    all_fit(list, rd, max, lists(addpath, last))
}

/// The path attributes of a message stand behind its header of nineteen octets
/// and its withdrawn routes, each of the two runs behind its length.
pub proof fn attributes_stand_behind_withdrawals(
    header: Seq<u8>,
    withdrawn: Seq<u8>,
    attributes: Seq<u8>,
    rest: Seq<u8>,
)
    requires
        header.len() == 19,
        withdrawn.len() < 65536,
        attributes.len() < 65536,
    ensures
        attributes_in(
            header + be16(withdrawn.len() as int) + withdrawn + be16(attributes.len() as int)
                + attributes + rest,
        ) == attributes,
{
    let (w, n) = (withdrawn.len() as int, attributes.len() as int);
    let pdu = header + be16(w) + withdrawn + be16(n) + attributes + rest;
    be16_round_trip(w);
    be16_round_trip(n);
    assert(pdu.subrange(19, 21) =~= be16(w));
    assert(pdu.subrange(21 + w, 23 + w) =~= be16(n));
    assert(pdu.subrange(23 + w, 23 + w + n) =~= attributes);
}

/// The first value of a type is that of the first attribute of the type on the
/// wire.
pub proof fn first_value_is_of_the_first(raw: Seq<u8>, typ: u8) -> (k: int)
    requires
        first_value(raw, typ) is Some,
    ensures
        0 <= k < attributes_listed(raw).len(),
        attributes_listed(raw)[k] == (typ, first_value(raw, typ)->0),
        forall|j: int| 0 <= j < k ==> (#[trigger] attributes_listed(raw)[j]).0 != typ,
    decreases raw.len(),
{
    let end = attribute_header(raw) + attribute_len(raw);
    let list = attributes_listed(raw);
    if raw[1] == typ {
        0
    } else {
        let rest = attributes_listed(raw.skip(end));
        let k = first_value_is_of_the_first(raw.skip(end), typ);
        assert(list[k + 1] == rest[k]);
        assert forall|j: int| 0 <= j < k + 1 implies (#[trigger] list[j]).0 != typ by {
            if j > 0 {
                assert(list[j] == rest[j - 1]);
            }
        }
        k + 1
    }
}

/// The last value of a type is that of the last attribute of the type on the
/// wire, and what was found before if there is none.
pub proof fn last_value_is_of_the_last(raw: Seq<u8>, typ: u8, found: Option<Seq<u8>>, i: int)
    ensures
        is_absent(attributes_listed(raw), typ) ==> last_value(raw, typ, found) == found,
        is_last(attributes_listed(raw), typ, i) ==> last_value(raw, typ, found) == Some(
            attributes_listed(raw)[i].1,
        ),
    decreases raw.len(),
{
    if starts_with_attribute(raw) {
        let end = attribute_header(raw) + attribute_len(raw);
        let list = attributes_listed(raw);
        let rest = attributes_listed(raw.skip(end));
        let value = raw.subrange(attribute_header(raw), end);
        assert(list =~= seq![(raw[1], value)] + rest);
        let here = if raw[1] == typ {
            Some(value)
        } else {
            found
        };
        last_value_is_of_the_last(raw.skip(end), typ, here, i - 1);
        if is_absent(list, typ) {
            assert(list[0].0 != typ);
            assert forall|k: int| 0 <= k < rest.len() implies (#[trigger] rest[k]).0 != typ by {
                assert(list[k + 1] == rest[k]);
            }
        }
        if is_last(list, typ, i) {
            assert forall|k: int| i - 1 < k < rest.len() && 0 <= k implies (#[trigger] rest[k]).0
                != typ by {
                assert(list[k + 1] == rest[k]);
            }
            if i > 0 {
                assert(rest[i - 1] == list[i]);
                assert(is_last(rest, typ, i - 1));
            } else {
                assert(is_absent(rest, typ));
            }
        }
    }
}

/// The labelled families are those of IPv4 and IPv6 with SAFI 4, and with SAFI
/// 128, which has a route distinguisher of eight octets. An address has 32 bits
/// in the one and 128 in the other.
pub proof fn labelled_families_have_their_sizes(family: (u16, u8))
    ensures
        labelled(family) is Some <==> (family.0 == 1 || family.0 == 2) && (family.1 == 4 || family.1
            == 128),
        labelled(family) is Some ==> (labelled(family)->0).0 == (if family.1 == 128 {
            8nat
        } else {
            0
        }),
        labelled(family) is Some ==> (labelled(family)->0).1 == (if family.0 == 1 {
            32nat
        } else {
            128
        }),
{
}

/// A stack of labels takes three octets for each, and ends with the first that
/// has the lowest bit of its third octet set or that stands for a withdrawal.
pub proof fn label_stacks_end(raw: Seq<u8>)
    ensures
        labels_len(raw) is Some ==> labels_len(raw)->0 % 3 == 0 && 3 <= labels_len(raw)->0
            <= raw.len(),
        raw.len() >= 3 && raw[2] % 2 == 1 ==> labels_len(raw) == Some(3nat),
        raw.len() >= 3 && raw[0] == 0x80 && raw[1] == 0 && raw[2] == 0 ==> labels_len(raw) == Some(
            3nat,
        ),
        raw.len() >= 3 && raw[0] == 0 && raw[1] == 0 && raw[2] == 0 ==> labels_len(raw) == Some(
            3nat,
        ),
        raw.len() >= 3 && raw[2] % 2 == 0 && raw[1] != 0 ==> (labels_len(raw) is Some
            <==> labels_len(raw.skip(3)) is Some) && (labels_len(raw) is Some ==> labels_len(raw)->0
            == labels_len(raw.skip(3))->0 + 3),
    decreases raw.len(),
{
    if raw.len() >= 3 {
        label_stacks_end(raw.skip(3));
    }
}

/// The lowest bit of a prefix in its last octet: what is left of an octet when
/// as many bits are taken off its top.
pub proof fn lowest_bits_halve(bits: u8)
    ensures
        bits % 8 == 0 ==> lowest_bit(bits) == 1,
        bits % 8 != 0 ==> lowest_bit(bits) == vstd::arithmetic::power2::pow2((8 - bits % 8) as nat),
{
    vstd::arithmetic::power2::lemma2_to64();
}

/// A labelled destination is whole if what its labels and its distinguisher
/// leave of its bits is no more than an address has, and it takes the octets
/// that those bits need.
pub proof fn whole_destinations_fit(raw: Seq<u8>, rd: nat, max: nat, addpath: bool)
    requires
        first_destination(raw, rd, max, addpath) is Whole,
    ensures
        ({
            let id: int = if addpath {
                4
            } else {
                0
            };
            let labels = labels_len(raw.skip(id + 1))->0;
            let bits = raw[id] - 8 * (rd + labels);
            let end = first_destination(raw, rd, max, addpath)->Whole_0;
            &&& labels_len(raw.skip(id + 1)) is Some
            &&& 0 <= bits <= max
            &&& end <= raw.len()
            &&& 8 * (end - id - 1) >= raw[id]
            &&& 8 * (end - id - 1) < raw[id] + 8
        }),
{
}

/// The destinations of an announcement stand behind the family, the next hop
/// with its length, and a reserved octet; those of a withdrawal right behind the
/// family.
pub proof fn destinations_stand_behind_the_next_hop(value: Seq<u8>)
    ensures
        value.len() >= 4 ==> destinations_at(value, 14) == 2 + 1 + 1 + value[3] + 1,
        destinations_at(value, 15) == 2 + 1,
        value.len() >= 3 ==> family_in(value) is Some && (family_in(value)->0).0 == value[0] * 256
            + value[1] && (family_in(value)->0).1 == value[2],
        value.len() < 3 ==> family_in(value) is None,
{
    if value.len() >= 3 {
        octets_count_by_their_place(value[0], value[1], 0, 0);
        assert(value.subrange(0, 2) =~= seq![value[0], value[1]]);
    }
}

} // verus!
