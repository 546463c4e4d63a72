//! How addresses and path attributes stand on the wire.

use crate::addr::IpAddr;
use crate::clickhouse::event::{address_octets, asn_width, attributes_listed, raw_attrs};
use crate::wire::{be16, be16_round_trip, be32, be32_round_trip, of_be32};
use vstd::prelude::*;

verus! {

/// An IPv4 address stands in the last four of sixteen octets, in network order,
/// behind ten zeros and two octets with all bits set. An IPv6 address takes all
/// of them, the highest octets first.
pub proof fn addresses_take_sixteen_octets(v4: u32, v6: u128)
    ensures
        address_octets(IpAddr::V4(v4)).len() == 16,
        forall|i: int| 0 <= i < 10 ==> #[trigger] address_octets(IpAddr::V4(v4))[i] == 0,
        address_octets(IpAddr::V4(v4))[10] == 255,
        address_octets(IpAddr::V4(v4))[11] == 255,
        of_be32(address_octets(IpAddr::V4(v4)).skip(12)) == v4,
        address_octets(IpAddr::V6(v6)).len() == 16,
        of_be32(address_octets(IpAddr::V6(v6)).skip(12)) == v6 % 0x1_0000_0000,
        of_be32(address_octets(IpAddr::V6(v6)).take(4)) == v6 / 0x1_0000_0000_0000_0000_0000_0000,
{
    be32_round_trip(v4 as int);
    assert(address_octets(IpAddr::V4(v4)).skip(12) =~= be32(v4 as int));
    let high = v6 as int / 0x1_0000_0000_0000_0000;
    let low = v6 as int % 0x1_0000_0000_0000_0000;
    be32_round_trip(high / 0x1_0000_0000);
    be32_round_trip(high % 0x1_0000_0000);
    be32_round_trip(low / 0x1_0000_0000);
    be32_round_trip(low % 0x1_0000_0000);
    let octets = address_octets(IpAddr::V6(v6));
    assert(octets.skip(12) =~= be32(low % 0x1_0000_0000));
    assert(octets.take(4) =~= be32(high / 0x1_0000_0000));
}

/// An attribute is its flags, its type, its length in one octet or, where the
/// flags say so by the bit that counts sixteen, in two, and its value.
pub proof fn attributes_are_read_from_the_wire(
    flags: u8,
    typ: u8,
    value: Seq<u8>,
    rest: Seq<u8>,
)
    ensures
        (flags / 16) % 2 == 0 && value.len() < 256 ==> attributes_listed(
            seq![flags, typ, value.len() as u8] + value + rest,
        ) == seq![(typ, value)] + attributes_listed(rest),
        (flags / 16) % 2 == 1 && value.len() < 65536 ==> attributes_listed(
            seq![flags, typ] + be16(value.len() as int) + value + rest,
        ) == seq![(typ, value)] + attributes_listed(rest),
        attributes_listed(Seq::empty()).len() == 0,
{
    let n = value.len() as int;
    if (flags / 16) % 2 == 0 && value.len() < 256 {
        let raw = seq![flags, typ, value.len() as u8] + value + rest;
        assert(raw.subrange(3, 3 + n) =~= value);
        assert(raw.skip(3 + n) =~= rest);
    }
    if (flags / 16) % 2 == 1 && value.len() < 65536 {
        let raw = seq![flags, typ] + be16(n) + value + rest;
        be16_round_trip(n);
        assert(raw.subrange(2, 4) =~= be16(n));
        assert(raw.subrange(4, 4 + n) =~= value);
        assert(raw.skip(4 + n) =~= rest);
    }
}

/// The attributes of a blob stand behind two octets, of which the second says
/// whether AS numbers take two octets or four.
pub proof fn blobs_tell_the_width(rpki: u8, wire: Seq<u8>, four_octet_asns: bool)
    ensures
        raw_attrs(seq![rpki, if four_octet_asns { 1u8 } else { 0u8 }] + wire) == wire,
        asn_width(seq![rpki, if four_octet_asns { 1u8 } else { 0u8 }] + wire) == (
        if four_octet_asns {
            4int
        } else {
            2
        }),
{
    let blob = seq![rpki, if four_octet_asns { 1u8 } else { 0u8 }] + wire;
    assert(blob.skip(2) =~= wire);
}

} // verus!
