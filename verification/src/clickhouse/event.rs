//! One row of the history, in ClickHouse's RowBinary format.

use crate::addr::IpAddr;
use crate::wire::{
    array16, be128, be16, be32, copy_between, le16, le32, le64, of_be16, of_be32, put, put_be128,
    put_be32, put_le16, put_le32, put_le64, read_be16, read_be32,
};
use vstd::prelude::*;

verus! {

/// The columns of a row, in order.
pub const COLUMN_NAMES: &'static str = "schema_version,stream_id,epoch,event_seq,received_at,expires_at,event_class,event_kind,peer_key,ingress_id,path_id,afi,safi,prefix_addr,prefix_len,rpki,asn_width,raw_attrs,as_path,as4_path,communities,large_communities,extended_communities,next_hop,med,local_pref,attrs_parse_ok,identity";

/// One event of the history.
#[derive(Debug)]
pub struct Event {
    pub stream: [u8; 16],
    pub epoch: [u8; 16],
    pub seq: u64,
    pub received_ms: i64,
    pub expires: u32,
    /// 0 is control or identity, 1 is a route.
    pub class: u8,
    /// 1 announcement, 2 withdrawal, 3 identity, 4 peer invalidation,
    /// 5 family invalidation, 6 reappearance, 7 history start, 8 history end.
    pub kind: u8,
    pub peer: [u8; 16],
    pub ingress: u32,
    pub path_id: Option<u32>,
    pub afi: u16,
    pub safi: u8,
    pub prefix: [u8; 16],
    pub prefix_len: u8,
    /// An attribute blob: the RPKI status, an octet that is zero if AS numbers
    /// take two octets, and the attributes as they came off the wire.
    pub attrs: Vec<u8>,
    pub identity: String,
}

/// What an [`Event`] holds.
pub ghost struct EventView {
    pub stream: Seq<u8>,
    pub epoch: Seq<u8>,
    pub seq: u64,
    pub received_ms: i64,
    pub expires: u32,
    pub class: u8,
    pub kind: u8,
    pub peer: Seq<u8>,
    pub ingress: u32,
    pub path_id: Option<u32>,
    pub afi: u16,
    pub safi: u8,
    pub prefix: Seq<u8>,
    pub prefix_len: u8,
    pub attrs: Seq<u8>,
    pub identity: Seq<char>,
}

impl View for Event {
    type V = EventView;

    open spec fn view(&self) -> EventView {
        EventView {
            stream: self.stream@,
            epoch: self.epoch@,
            seq: self.seq,
            received_ms: self.received_ms,
            expires: self.expires,
            class: self.class,
            kind: self.kind,
            peer: self.peer@,
            ingress: self.ingress,
            path_id: self.path_id,
            afi: self.afi,
            safi: self.safi,
            prefix: self.prefix@,
            prefix_len: self.prefix_len,
            attrs: self.attrs@,
            identity: self.identity@,
        }
    }
}

/// An event of which nothing is said.
pub open spec fn blank_event() -> EventView {
    EventView {
        stream: zeros16(),
        epoch: zeros16(),
        seq: 0,
        received_ms: 0,
        expires: 0,
        class: 0,
        kind: 0,
        peer: zeros16(),
        ingress: 0,
        path_id: None,
        afi: 0,
        safi: 0,
        prefix: zeros16(),
        prefix_len: 0,
        attrs: seq![],
        identity: seq![],
    }
}

/// Sixteen zero octets.
pub open spec fn zeros16() -> Seq<u8> {
    Seq::new(16, |i: int| 0u8)
}

fn no_octets() -> (r: [u8; 16])
    ensures
        r@ == zeros16(),
{
    let r: [u8; 16] = [0; 16];
    assert(r@ =~= zeros16());
    r
}

impl Default for Event {
    fn default() -> (r: Event)
        ensures
            r@ == blank_event(),
    {
        let r = Event {
            stream: no_octets(),
            epoch: no_octets(),
            seq: 0,
            received_ms: 0,
            expires: 0,
            class: 0,
            kind: 0,
            peer: no_octets(),
            ingress: 0,
            path_id: None,
            afi: 0,
            safi: 0,
            prefix: no_octets(),
            prefix_len: 0,
            attrs: Vec::new(),
            identity: String::new(),
        };
        assert(r.attrs@ =~= seq![]);
        assert(r.identity@ =~= seq![]);
        r
    }
}

/// The octets of an IPv6 address that stands for an IPv4 address.
pub open spec fn mapped(v4: Seq<u8>) -> Seq<u8> {
    Seq::new(10, |i: int| 0u8) + seq![255u8, 255u8] + v4
}

/// An address as sixteen octets; an IPv4 address is mapped into IPv6.
pub open spec fn address_octets(addr: IpAddr) -> Seq<u8> {
    match addr {
        IpAddr::V4(bits) => mapped(be32(bits as int)),
        IpAddr::V6(bits) => be128(bits as int),
    }
}

fn mapped_octets(v4: &[u8]) -> (r: [u8; 16])
    requires
        v4@.len() == 4,
    ensures
        r@ == mapped(v4@),
{
    let r: [u8; 16] = [0, 0, 0, 0, 0, 0, 0, 0, 0, 0, 255, 255, v4[0], v4[1], v4[2], v4[3]];
    assert(r@ =~= mapped(v4@));
    r
}

/// An address as sixteen octets.
pub fn ip_bytes(addr: IpAddr) -> (r: [u8; 16])
    ensures
        r@ == address_octets(addr),
{
    let mut out: Vec<u8> = Vec::new();
    match addr {
        IpAddr::V4(bits) => {
            put_be32(&mut out, bits);
            assert(out@ =~= be32(bits as int));
            mapped_octets(&out)
        },
        IpAddr::V6(bits) => {
            put_be128(&mut out, bits);
            assert(out@ =~= be128(bits as int));
            array16(&out)
        },
    }
}

/// A number in groups of seven bits, the lowest first; all octets but the
/// last have the high bit set.
pub open spec fn varint_octets(n: nat) -> Seq<u8>
    decreases n,
{
    if n < 128 {
        seq![n as u8]
    } else {
        seq![(n % 128 + 128) as u8] + varint_octets(n / 128)
    }
}

/// The number at the start of `b`, and how many octets it takes.
pub open spec fn varint_in(b: Seq<u8>) -> Option<(nat, nat)>
    decreases b.len(),
{
    if b.len() == 0 {
        None
    } else if b[0] < 128 {
        Some((b[0] as nat, 1))
    } else {
        match varint_in(b.drop_first()) {
            Some((n, len)) => Some((n * 128 + (b[0] - 128) as nat, len + 1)),
            None => None,
        }
    }
}

/// Reading a number undoes writing it, whatever comes behind.
pub proof fn varint_round_trip(n: nat, rest: Seq<u8>)
    ensures
        varint_in(varint_octets(n) + rest) == Some((n, varint_octets(n).len())),
    decreases n,
{
    let all = varint_octets(n) + rest;
    if n >= 128 {
        varint_round_trip(n / 128, rest);
        assert(all.drop_first() =~= varint_octets(n / 128) + rest);
    }
}

/// Appends a number in groups of seven bits.
pub fn varint(out: &mut Vec<u8>, n: usize)
    ensures
        final(out)@ == old(out)@ + varint_octets(n as nat),
{
    let mut n: usize = n;
    let ghost whole = old(out)@ + varint_octets(n as nat);
    while n >= 128
        invariant
            out@ + varint_octets(n as nat) == whole,
        decreases n,
    {
        let ghost before = out@;
        out.push((n % 128 + 128) as u8);
        assert(before + varint_octets(n as nat) =~= out@ + varint_octets((n / 128) as nat));
        n = n / 128;
    }
    out.push(n as u8);
    assert(out@ =~= whole);
}

/// A string: its length and its octets.
pub open spec fn string_octets(value: Seq<u8>) -> Seq<u8> {
    varint_octets(value.len()) + value
}

/// Appends a string.
pub fn string(out: &mut Vec<u8>, value: &[u8])
    ensures
        final(out)@ == old(out)@ + string_octets(value@),
{
    varint(out, value.len());
    put(out, value);
    assert(out@ =~= old(out)@ + string_octets(value@));
}

/// A number that may be missing: 1 if it is, else 0 and the number.
pub open spec fn nullable_octets(value: Option<u32>) -> Seq<u8> {
    match value {
        Some(n) => seq![0u8] + le32(n as int),
        None => seq![1u8],
    }
}

/// Appends a number that may be missing.
pub fn nullable_u32(out: &mut Vec<u8>, value: Option<u32>)
    ensures
        final(out)@ == old(out)@ + nullable_octets(value),
{
    match value {
        Some(n) => {
            out.push(0);
            put_le32(out, n);
        },
        None => {
            out.push(1);
        },
    }
    assert(out@ =~= old(out)@ + nullable_octets(value));
}

/// The octets of some numbers.
pub open spec fn numbers_octets(values: Seq<u32>) -> Seq<u8>
    decreases values.len(),
{
    if values.len() == 0 {
        seq![]
    } else {
        numbers_octets(values.drop_last()) + le32(values.last() as int)
    }
}

/// An array of numbers: how many, and each of them.
pub open spec fn array_octets(values: Seq<u32>) -> Seq<u8> {
    varint_octets(values.len()) + numbers_octets(values)
}

/// Appends an array of numbers.
pub fn array_u32(out: &mut Vec<u8>, values: &[u32])
    ensures
        final(out)@ == old(out)@ + array_octets(values@),
{
    varint(out, values.len());
    let ghost head = out@;
    let mut i: usize = 0;
    assert(out@ =~= head + numbers_octets(values@.take(0)));
    while i < values.len()
        invariant
            i <= values.len(),
            out@ == head + numbers_octets(values@.take(i as int)),
        decreases values.len() - i,
    {
        put_le32(out, values[i]);
        proof {
            assert(values@.take(i + 1).drop_last() =~= values@.take(i as int));
            assert(out@ =~= head + numbers_octets(values@.take(i + 1)));
        }
        i += 1;
    }
    assert(values@.take(i as int) =~= values@);
    assert(out@ =~= old(out)@ + array_octets(values@));
}

/// What the path attributes of a route say. The paths list the AS numbers of
/// all segments, of whatever kind; they are no effective path.
#[derive(Debug)]
pub struct Derived {
    pub path: Vec<u32>,
    pub as4_path: Vec<u32>,
    pub communities: Vec<u32>,
    /// Large communities, twelve octets each.
    pub large: Vec<u8>,
    /// Extended communities, eight octets each.
    pub extended: Vec<u8>,
    pub next_hop: Option<[u8; 16]>,
    pub med: Option<u32>,
    pub local_pref: Option<u32>,
    pub ok: bool,
}

/// What a [`Derived`] holds.
pub ghost struct DerivedView {
    pub path: Seq<u32>,
    pub as4_path: Seq<u32>,
    pub communities: Seq<u32>,
    pub large: Seq<u8>,
    pub extended: Seq<u8>,
    pub next_hop: Option<Seq<u8>>,
    pub med: Option<u32>,
    pub local_pref: Option<u32>,
    pub ok: bool,
}

/// The octets of an address that may be missing.
pub open spec fn octets_view(address: Option<[u8; 16]>) -> Option<Seq<u8>> {
    match address {
        Some(octets) => Some(octets@),
        None => None,
    }
}

impl View for Derived {
    type V = DerivedView;

    open spec fn view(&self) -> DerivedView {
        DerivedView {
            path: self.path@,
            as4_path: self.as4_path@,
            communities: self.communities@,
            large: self.large@,
            extended: self.extended@,
            next_hop: octets_view(self.next_hop),
            med: self.med,
            local_pref: self.local_pref,
            ok: self.ok,
        }
    }
}

/// Nothing known.
pub open spec fn nothing_derived() -> DerivedView {
    DerivedView {
        path: seq![],
        as4_path: seq![],
        communities: seq![],
        large: seq![],
        extended: seq![],
        next_hop: None,
        med: None,
        local_pref: None,
        ok: false,
    }
}

impl Default for Derived {
    fn default() -> (r: Derived)
        ensures
            r@ == nothing_derived(),
    {
        let r = Derived {
            path: Vec::new(),
            as4_path: Vec::new(),
            communities: Vec::new(),
            large: Vec::new(),
            extended: Vec::new(),
            next_hop: None,
            med: None,
            local_pref: None,
            ok: false,
        };
        assert(r.path@ =~= seq![]);
        assert(r.as4_path@ =~= seq![]);
        assert(r.communities@ =~= seq![]);
        assert(r.large@ =~= seq![]);
        assert(r.extended@ =~= seq![]);
        r
    }
}

/// The AS number in some octets.
pub open spec fn asn_in(octets: Seq<u8>) -> u32 {
    if octets.len() == 2 {
        of_be16(octets) as u32
    } else {
        of_be32(octets) as u32
    }
}

/// `n` AS numbers of some width each.
pub open spec fn asns_in(octets: Seq<u8>, n: nat, width: nat) -> Seq<u32> {
    Seq::new(
        n,
        |i: int| asn_in(octets.subrange(i * width, i * width + width)),
    )
}

/// The AS numbers of all segments of a path, in order. A segment is a kind
/// from 1 to 4, a number of AS numbers, and these.
pub open spec fn path_in(raw: Seq<u8>, width: nat) -> Option<Seq<u32>>
    decreases raw.len(),
{
    if raw.len() == 0 {
        Some(seq![])
    } else if !(1 <= raw[0] <= 4) || raw.len() < 2 || raw.len() < 2 + raw[1] * width {
        None
    } else {
        let end = 2 + raw[1] * width;
        match path_in(raw.skip(end), width) {
            Some(rest) => Some(asns_in(raw.subrange(2, end), raw[1] as nat, width) + rest),
            None => None,
        }
    }
}

/// Numbers of four octets each.
pub open spec fn words_in(value: Seq<u8>) -> Seq<u32> {
    Seq::new(value.len() / 4, |i: int| of_be32(value.subrange(i * 4, i * 4 + 4)) as u32)
}

/// Length of the header of the attribute at the start of `raw`.
pub open spec fn attribute_header(raw: Seq<u8>) -> int {
    if raw[0] / 16 % 2 == 1 {
        4
    } else {
        3
    }
}

/// Length of the value of the attribute at the start of `raw`.
pub open spec fn attribute_len(raw: Seq<u8>) -> int {
    if raw[0] / 16 % 2 == 1 {
        of_be16(raw.subrange(2, 4))
    } else {
        raw[2] as int
    }
}

/// Whether `raw` starts with a whole attribute.
pub open spec fn starts_with_attribute(raw: Seq<u8>) -> bool {
    &&& raw.len() > 0
    &&& raw.len() >= attribute_header(raw)
    &&& raw.len() >= attribute_header(raw) + attribute_len(raw)
}

/// The next hop that an MP_REACH_NLRI attribute gives for the family that it
/// is for: an IPv4 address for IPv4, an IPv6 address, or the first of two, for
/// either family. Others leave the next hop as it is.
pub open spec fn mp_next_hop(
    value: Seq<u8>,
    nhlen: int,
    before: Option<Seq<u8>>,
) -> Option<Seq<u8>> {
    let nh = value.subrange(4, 4 + nhlen);
    if value.take(3) == seq![0u8, 1u8, 1u8] && nhlen == 4 {
        Some(mapped(nh))
    } else if (value.take(3) == seq![0u8, 1u8, 1u8] || value.take(3) == seq![0u8, 2u8, 1u8]) && (
    nhlen == 16 || nhlen == 32) {
        Some(nh.take(16))
    } else {
        before
    }
}

/// What is known after one more attribute, or `None` if it is malformed. The
/// next hop is that of the family which the route belongs to.
#[verifier::opaque]
pub open spec fn with_attribute(
    d: DerivedView,
    typ: u8,
    value: Seq<u8>,
    width: nat,
    afi: u16,
    safi: u8,
) -> Option<DerivedView> {
    if typ == 2 {
        match path_in(value, width) {
            Some(path) => Some(DerivedView { path, ..d }),
            None => None,
        }
    } else if typ == 17 {
        match path_in(value, 4) {
            Some(as4_path) => Some(DerivedView { as4_path, ..d }),
            None => None,
        }
    } else if typ == 3 {
        if value.len() != 4 {
            None
        } else if afi == 1 && safi == 1 {
            Some(DerivedView { next_hop: Some(mapped(value)), ..d })
        } else {
            Some(d)
        }
    } else if typ == 4 {
        if value.len() == 4 {
            Some(DerivedView { med: Some(of_be32(value) as u32), ..d })
        } else {
            None
        }
    } else if typ == 5 {
        if value.len() == 4 {
            Some(DerivedView { local_pref: Some(of_be32(value) as u32), ..d })
        } else {
            None
        }
    } else if typ == 8 {
        if value.len() % 4 == 0 {
            Some(DerivedView { communities: words_in(value), ..d })
        } else {
            None
        }
    } else if typ == 16 {
        if value.len() % 8 == 0 {
            Some(DerivedView { extended: value, ..d })
        } else {
            None
        }
    } else if typ == 32 {
        if value.len() % 12 == 0 {
            Some(DerivedView { large: value, ..d })
        } else {
            None
        }
    } else if typ == 14 {
        if value.len() < 2 {
            None
        } else if of_be16(value.take(2)) != afi {
            Some(d)
        } else if value.len() < 3 {
            None
        } else if value[2] != safi {
            Some(d)
        } else if value.len() < 4 || value.len() < 4 + value[3] {
            None
        } else {
            Some(DerivedView { next_hop: mp_next_hop(value, value[3] as int, d.next_hop), ..d })
        }
    } else {
        Some(d)
    }
}

/// What is known after a run of attributes, or `None` if one of them is
/// malformed.
pub open spec fn with_attributes(
    d: DerivedView,
    raw: Seq<u8>,
    width: nat,
    afi: u16,
    safi: u8,
) -> Option<DerivedView>
    decreases raw.len(),
{
    if raw.len() == 0 {
        Some(DerivedView { ok: true, ..d })
    } else if !starts_with_attribute(raw) {
        None
    } else {
        let end = attribute_header(raw) + attribute_len(raw);
        let value = raw.subrange(attribute_header(raw), end);
        match with_attribute(d, raw[1], value, width, afi, safi) {
            Some(next) => with_attributes(next, raw.skip(end), width, afi, safi),
            None => None,
        }
    }
}

/// What the path attributes of a route say.
pub open spec fn derived_from(raw: Seq<u8>, width: nat, afi: u16, safi: u8) -> Option<DerivedView> {
    with_attributes(nothing_derived(), raw, width, afi, safi)
}

/// Reads `n` AS numbers at `at`.
fn read_asns(raw: &[u8], at: usize, n: usize, width: usize, out: &mut Vec<u32>)
    requires
        width == 2 || width == 4,
        at + n * width <= raw@.len(),
    ensures
        final(out)@ == old(out)@ + asns_in(
            raw@.subrange(at as int, at + n * width),
            n as nat,
            width as nat,
        ),
{
    let ghost segment = raw@.subrange(at as int, at + n * width);
    let ghost head = out@;
    let mut i: usize = 0;
    let mut pos: usize = at;
    assert(raw@.len() == raw.len());
    while i < n
        invariant
            i <= n,
            width == 2 || width == 4,
            pos == at + i * width,
            at + n * width <= raw@.len(),
            raw@.len() == raw.len(),
            segment == raw@.subrange(at as int, at + n * width),
            out@ == head + asns_in(segment, i as nat, width as nat),
        decreases n - i,
    {
        assert((i + 1) * width <= n * width) by (nonlinear_arith)
            requires
                i < n,
                width == 2 || width == 4,
        ;
        assert((i + 1) * width == i * width + width) by (nonlinear_arith);
        let asn: u32 = if width == 2 {
            read_be16(raw, pos) as u32
        } else {
            read_be32(raw, pos)
        };
        proof {
            let here = i * width;
            assert(raw@.subrange(pos as int, pos + width) =~= segment.subrange(
                here as int,
                here + width,
            ));
        }
        let ghost before = out@;
        out.push(asn);
        proof {
            assert(asns_in(segment, (i + 1) as nat, width as nat) =~= asns_in(
                segment,
                i as nat,
                width as nat,
            ).push(asn));
            assert(out@ =~= head + asns_in(segment, (i + 1) as nat, width as nat));
        }
        pos += width;
        i += 1;
    }
    assert(out@ =~= head + asns_in(segment, n as nat, width as nat));
}

/// Numbers of four octets each.
fn read_words(value: &[u8]) -> (r: Vec<u32>)
    requires
        value@.len() % 4 == 0,
    ensures
        r@ == words_in(value@),
{
    let mut out: Vec<u32> = Vec::new();
    let mut pos: usize = 0;
    assert(value@.len() == value.len());
    while pos < value.len()
        invariant
            pos <= value.len(),
            pos % 4 == 0,
            value.len() % 4 == 0,
            out@.len() == pos / 4,
            forall|i: int|
                0 <= i < out@.len() ==> #[trigger] out@[i] == of_be32(
                    value@.subrange(i * 4, i * 4 + 4),
                ) as u32,
        decreases value.len() - pos,
    {
        out.push(read_be32(value, pos));
        pos += 4;
    }
    assert(out@ =~= words_in(value@));
    out
}

impl Derived {
    /// Reads the AS numbers of all segments of a path.
    pub fn path(raw: &[u8], width: usize) -> (r: Option<Vec<u32>>)
        requires
            width == 2 || width == 4,
        ensures
            match r {
                Some(path) => path_in(raw@, width as nat) == Some(path@),
                None => path_in(raw@, width as nat) is None,
            },
    {
        let len: usize = raw.len();
        let mut out: Vec<u32> = Vec::new();
        let mut pos: usize = 0;
        assert(raw@.skip(0) =~= raw@);
        proof {
            if path_in(raw@, width as nat) is Some {
                assert(out@ + path_in(raw@, width as nat)->0 =~= path_in(raw@, width as nat)->0);
            }
        }
        while pos < len
            invariant
                width == 2 || width == 4,
                pos <= len,
                len == raw@.len(),
                path_in(raw@, width as nat) is Some <==> path_in(
                    raw@.skip(pos as int),
                    width as nat,
                ) is Some,
                path_in(raw@, width as nat) is Some ==> path_in(raw@, width as nat)->0 == out@
                    + path_in(raw@.skip(pos as int), width as nat)->0,
            decreases len - pos,
        {
            let ghost rest = raw@.skip(pos as int);
            let kind: u8 = raw[pos];
            assert(rest[0] == kind);
            if kind < 1 || kind > 4 {
                return None;
            }
            if len - pos < 2 {
                return None;
            }
            let n: usize = raw[pos + 1] as usize;
            assert(rest[1] == n);
            assert(n * width <= 1020) by (nonlinear_arith)
                requires
                    n <= 255,
                    width == 2 || width == 4,
            ;
            let size: usize = n * width;
            if size > len - pos - 2 {
                return None;
            }
            let ghost before = out@;
            read_asns(raw, pos + 2, n, width, &mut out);
            proof {
                let end = 2 + size;
                assert(rest.subrange(2, end as int) =~= raw@.subrange(pos + 2, pos + 2 + size));
                assert(rest.skip(end as int) =~= raw@.skip(pos + end));
                if path_in(raw@.skip(pos + end), width as nat) is Some {
                    let tail = path_in(raw@.skip(pos + end), width as nat)->0;
                    assert(before + (asns_in(rest.subrange(2, end as int), n as nat, width as nat)
                        + tail) =~= out@ + tail);
                }
            }
            pos = pos + 2 + size;
        }
        assert(out@ + Seq::<u32>::empty() =~= out@);
        Some(out)
    }

    /// Takes in one attribute. Says whether it is well-formed.
    fn attribute(&mut self, typ: u8, value: &[u8], width: usize, afi: u16, safi: u8) -> (r: bool)
        requires
            width == 2 || width == 4,
        ensures
            match with_attribute(old(self)@, typ, value@, width as nat, afi, safi) {
                Some(d) => r && final(self)@ == d,
                None => !r,
            },
    {
        proof {
            reveal(with_attribute);
        }
        let len: usize = value.len();
        assert(value@.subrange(0, value@.len() as int) =~= value@);
        match typ {
            2 => match Derived::path(value, width) {
                Some(path) => {
                    self.path = path;
                    true
                },
                None => false,
            },
            17 => match Derived::path(value, 4) {
                Some(path) => {
                    self.as4_path = path;
                    true
                },
                None => false,
            },
            3 => {
                if len != 4 {
                    return false;
                }
                if afi == 1 && safi == 1 {
                    self.next_hop = Some(mapped_octets(value));
                }
                true
            },
            4 => {
                if len != 4 {
                    return false;
                }
                self.med = Some(read_be32(value, 0));
                true
            },
            5 => {
                if len != 4 {
                    return false;
                }
                self.local_pref = Some(read_be32(value, 0));
                true
            },
            8 => {
                if len % 4 != 0 {
                    return false;
                }
                self.communities = read_words(value);
                true
            },
            16 => {
                if len % 8 != 0 {
                    return false;
                }
                self.extended = copy_between(value, 0, len);
                true
            },
            32 => {
                if len % 12 != 0 {
                    return false;
                }
                self.large = copy_between(value, 0, len);
                true
            },
            14 => self.mp_reach(value, afi, safi),
            _ => true,
        }
    }

    /// Takes in an MP_REACH_NLRI attribute. Says whether it is well-formed.
    fn mp_reach(&mut self, value: &[u8], afi: u16, safi: u8) -> (r: bool)
        ensures
            match with_attribute(old(self)@, 14, value@, 4, afi, safi) {
                Some(d) => r && final(self)@ == d,
                None => !r,
            },
    {
        proof {
            reveal(with_attribute);
        }
        let len: usize = value.len();
        if len < 2 {
            return false;
        }
        assert(value@.subrange(0, 2) =~= value@.take(2));
        if read_be16(value, 0) != afi {
            return true;
        }
        if len < 3 {
            return false;
        }
        if value[2] != safi {
            return true;
        }
        if len < 4 {
            return false;
        }
        let nhlen: usize = value[3] as usize;
        if len - 4 < nhlen {
            return false;
        }
        proof {
            let family = value@.take(3);
            assert(family == seq![0u8, 1u8, 1u8] <==> value@[0] == 0 && value@[1] == 1 && value@[2]
                == 1) by {
                assert(family[0] == value@[0] && family[1] == value@[1] && family[2] == value@[2]);
                if value@[0] == 0 && value@[1] == 1 && value@[2] == 1 {
                    assert(family =~= seq![0u8, 1u8, 1u8]);
                }
            }
            assert(family == seq![0u8, 2u8, 1u8] <==> value@[0] == 0 && value@[1] == 2 && value@[2]
                == 1) by {
                assert(family[0] == value@[0] && family[1] == value@[1] && family[2] == value@[2]);
                if value@[0] == 0 && value@[1] == 2 && value@[2] == 1 {
                    assert(family =~= seq![0u8, 2u8, 1u8]);
                }
            }
        }
        let v4 = value[0] == 0 && value[1] == 1 && value[2] == 1;
        let v6 = value[0] == 0 && value[1] == 2 && value[2] == 1;
        if v4 && nhlen == 4 {
            let nh = vstd::slice::slice_subrange(value, 4, 8);
            self.next_hop = Some(mapped_octets(nh));
        } else if (v4 || v6) && (nhlen == 16 || nhlen == 32) {
            let nh = vstd::slice::slice_subrange(value, 4, 20);
            assert(nh@ =~= value@.subrange(4, 4 + nhlen).take(16));
            self.next_hop = Some(array16(nh));
        }
        true
    }

    /// Reads the path attributes of a route. Nothing is derived from a list
    /// with a malformed attribute in it.
    pub fn parse(raw: &[u8], width: usize, afi: u16, safi: u8) -> (r: Option<Derived>)
        requires
            width == 2 || width == 4,
        ensures
            match r {
                Some(d) => derived_from(raw@, width as nat, afi, safi) == Some(d@),
                None => derived_from(raw@, width as nat, afi, safi) is None,
            },
    {
        let len: usize = raw.len();
        let mut d = Derived::default();
        let mut pos: usize = 0;
        assert(raw@.skip(0) =~= raw@);
        while pos < len
            invariant
                width == 2 || width == 4,
                pos <= len,
                len == raw@.len(),
                derived_from(raw@, width as nat, afi, safi) == with_attributes(
                    d@,
                    raw@.skip(pos as int),
                    width as nat,
                    afi,
                    safi,
                ),
            decreases len - pos,
        {
            let ghost rest = raw@.skip(pos as int);
            let flags: u8 = raw[pos];
            assert(rest[0] == flags);
            let extended = flags / 16 % 2 == 1;
            let header: usize = if extended {
                4
            } else {
                3
            };
            if len - pos < header {
                return None;
            }
            let typ: u8 = raw[pos + 1];
            assert(rest[1] == typ);
            let size: usize = if extended {
                assert(raw@.subrange(pos + 2, pos + 4) =~= rest.subrange(2, 4));
                read_be16(raw, pos + 2) as usize
            } else {
                assert(rest[2] == raw@[pos + 2]);
                raw[pos + 2] as usize
            };
            if size > len - pos - header {
                return None;
            }
            let start: usize = pos + header;
            let value = vstd::slice::slice_subrange(raw, start, start + size);
            proof {
                assert(value@ =~= rest.subrange(header as int, header + size));
                assert(rest.skip(header + size) =~= raw@.skip(start + size));
            }
            if !d.attribute(typ, value, width, afi, safi) {
                return None;
            }
            pos = start + size;
        }
        d.ok = true;
        Some(d)
    }
}

/// The attributes in a blob.
pub open spec fn raw_attrs(attrs: Seq<u8>) -> Seq<u8> {
    if attrs.len() >= 2 {
        attrs.skip(2)
    } else {
        seq![]
    }
}

/// The octets that an AS number takes in a blob.
pub open spec fn asn_width(attrs: Seq<u8>) -> int {
    if attrs.len() >= 2 && attrs[1] == 0 {
        2
    } else {
        4
    }
}

/// What a row says of the attributes in a blob: what is derived from them, or
/// nothing if they are malformed.
pub open spec fn row_derived(attrs: Seq<u8>, afi: u16, safi: u8) -> DerivedView {
    match derived_from(raw_attrs(attrs), asn_width(attrs) as nat, afi, safi) {
        Some(d) => d,
        None => nothing_derived(),
    }
}

/// A signed number as eight octets in two's complement, the lowest first.
pub open spec fn le64_signed(n: i64) -> Seq<u8> {
    if n >= 0 {
        le64(n as int)
    } else {
        le64(n + 0x1_0000_0000_0000_0000)
    }
}

/// A truth value as an octet.
pub open spec fn flag_octet(b: bool) -> u8 {
    if b {
        1
    } else {
        0
    }
}

/// The octets of an address that may be missing: 1 if it is, else 0 and the
/// address.
pub open spec fn nullable_address(address: Option<Seq<u8>>) -> Seq<u8> {
    match address {
        Some(octets) => seq![0u8] + octets,
        None => seq![1u8],
    }
}

/// The columns that do not depend on the attributes, up to the prefix.
pub open spec fn row_head(e: EventView) -> Seq<u8> {
    le16(1) + e.stream + e.epoch + le64(e.seq as int) + le64_signed(e.received_ms) + le32(
        e.expires as int,
    ) + seq![e.class, e.kind] + e.peer + le32(e.ingress as int) + nullable_octets(e.path_id)
        + le16(e.afi as int) + seq![e.safi] + e.prefix + seq![e.prefix_len]
}

/// The columns with lists: paths and communities.
pub open spec fn lists_octets(d: DerivedView) -> Seq<u8> {
    array_octets(d.path) + array_octets(d.as4_path) + array_octets(d.communities) + varint_octets(
        d.large.len() / 12,
    ) + d.large + varint_octets(d.extended.len() / 8) + d.extended
}

/// The columns with single values.
pub open spec fn scalars_octets(d: DerivedView) -> Seq<u8> {
    nullable_address(d.next_hop) + nullable_octets(d.med) + nullable_octets(d.local_pref) + seq![
        flag_octet(d.ok),
    ]
}

/// The columns with the attributes, as they came and as they are understood.
pub open spec fn row_attributes(attrs: Seq<u8>, afi: u16, safi: u8) -> Seq<u8> {
    let d = row_derived(attrs, afi, safi);
    let rpki = if attrs.len() > 0 {
        attrs[0]
    } else {
        0u8
    };
    seq![rpki, asn_width(attrs) as u8] + string_octets(raw_attrs(attrs)) + lists_octets(d)
        + scalars_octets(d)
}

impl Derived {
    fn encode_lists(&self, out: &mut Vec<u8>)
        ensures
            final(out)@ == old(out)@ + lists_octets(self@),
    {
        array_u32(out, &self.path);
        array_u32(out, &self.as4_path);
        array_u32(out, &self.communities);
        varint(out, self.large.len() / 12);
        put(out, &self.large);
        varint(out, self.extended.len() / 8);
        put(out, &self.extended);
        assert(out@ =~= old(out)@ + lists_octets(self@));
    }

    fn encode_scalars(&self, out: &mut Vec<u8>)
        ensures
            final(out)@ == old(out)@ + scalars_octets(self@),
    {
        match self.next_hop {
            Some(address) => {
                out.push(0);
                put(out, address.as_slice());
            },
            None => {
                out.push(1);
            },
        }
        nullable_u32(out, self.med);
        nullable_u32(out, self.local_pref);
        out.push(
            if self.ok {
                1
            } else {
                0
            },
        );
        assert(out@ =~= old(out)@ + scalars_octets(self@));
    }
}

/// A row has octets.
pub proof fn row_is_not_empty(e: EventView)
    ensures
        e.row().len() > 0,
{
    reveal(EventView::row);
    assert(row_head(e).len() >= le16(1).len());
}

impl EventView {
    /// The row for the event: its columns in the order of [`COLUMN_NAMES`].
    #[verifier::opaque]
    pub open spec fn row(self) -> Seq<u8> {
        row_head(self) + row_attributes(self.attrs, self.afi, self.safi) + string_octets(
            vstd::utf8::encode_utf8(self.identity),
        )
    }
}

impl Event {
    #[verifier::rlimit(40)]
    fn encode_head(&self, out: &mut Vec<u8>)
        ensures
            final(out)@ == old(out)@ + row_head(self@),
    {
        put_le16(out, 1);
        put(out, self.stream.as_slice());
        put(out, self.epoch.as_slice());
        put_le64(out, self.seq);
        let ms: u64 = if self.received_ms >= 0 {
            self.received_ms as u64
        } else {
            (self.received_ms as i128 + 0x1_0000_0000_0000_0000) as u64
        };
        put_le64(out, ms);
        put_le32(out, self.expires);
        out.push(self.class);
        out.push(self.kind);
        put(out, self.peer.as_slice());
        put_le32(out, self.ingress);
        nullable_u32(out, self.path_id);
        put_le16(out, self.afi);
        out.push(self.safi);
        put(out, self.prefix.as_slice());
        out.push(self.prefix_len);
        assert(out@ =~= old(out)@ + row_head(self@));
    }

    fn encode_attributes(&self, out: &mut Vec<u8>)
        ensures
            final(out)@ == old(out)@ + row_attributes(self.attrs@, self.afi, self.safi),
    {
        let attrs = self.attrs.as_slice();
        let len: usize = attrs.len();
        let raw = if len >= 2 {
            vstd::slice::slice_subrange(attrs, 2, len)
        } else {
            vstd::slice::slice_subrange(attrs, 0, 0)
        };
        assert(raw@ =~= raw_attrs(self.attrs@));
        let width: usize = if len >= 2 && attrs[1] == 0 {
            2
        } else {
            4
        };
        let derived = match Derived::parse(raw, width, self.afi, self.safi) {
            Some(derived) => derived,
            None => Derived::default(),
        };
        out.push(
            if len > 0 {
                attrs[0]
            } else {
                0
            },
        );
        out.push(width as u8);
        string(out, raw);
        derived.encode_lists(out);
        derived.encode_scalars(out);
        assert(out@ =~= old(out)@ + row_attributes(self.attrs@, self.afi, self.safi));
    }

    /// Appends the row for the event.
    pub fn encode(&self, out: &mut Vec<u8>)
        ensures
            final(out)@ == old(out)@ + self@.row(),
    {
        proof {
            reveal(EventView::row);
        }
        self.encode_head(out);
        self.encode_attributes(out);
        string(out, self.identity.as_str().as_bytes());
        assert(out@ =~= old(out)@ + self@.row());
    }
}

/// Whatever the attributes of a route are, the row holds them as they came.
pub proof fn attributes_are_kept_verbatim(e: EventView)
    ensures
        exists|at: int|
            0 <= at && at + raw_attrs(e.attrs).len() <= e.row().len() && #[trigger] e.row().subrange(
                at,
                at + raw_attrs(e.attrs).len(),
            ) == raw_attrs(e.attrs),
{
    reveal(EventView::row);
    let raw = raw_attrs(e.attrs);
    let at: int = row_head(e).len() as int + 2 + varint_octets(raw.len()).len() as int;
    assert(e.row().subrange(at, at + raw.len()) =~= raw);
}

/// A row with malformed attributes says that they are, and gives nothing that
/// was read before the malformed one.
pub proof fn malformed_attributes_derive_nothing(attrs: Seq<u8>, afi: u16, safi: u8)
    requires
        derived_from(raw_attrs(attrs), asn_width(attrs) as nat, afi, safi) is None,
    ensures
        row_derived(attrs, afi, safi) == nothing_derived(),
        !row_derived(attrs, afi, safi).ok,
{
}

/// The attributes in a run, each with its type and its value, up to the first
/// that is not whole.
pub open spec fn attributes_listed(raw: Seq<u8>) -> Seq<(u8, Seq<u8>)>
    decreases raw.len(),
{
    if starts_with_attribute(raw) {
        let end = attribute_header(raw) + attribute_len(raw);
        seq![(raw[1], raw.subrange(attribute_header(raw), end))] + attributes_listed(raw.skip(end))
    } else {
        seq![]
    }
}

/// Whether no attribute of a type is in a list.
pub open spec fn is_absent(list: Seq<(u8, Seq<u8>)>, typ: u8) -> bool {
    forall|k: int| 0 <= k < list.len() ==> (#[trigger] list[k]).0 != typ
}

/// Whether place `i` of a list has the last attribute of a type.
pub open spec fn is_last(list: Seq<(u8, Seq<u8>)>, typ: u8, i: int) -> bool {
    &&& 0 <= i < list.len()
    &&& list[i].0 == typ
    &&& forall|k: int| i < k < list.len() ==> (#[trigger] list[k]).0 != typ
}

/// The number that four octets are in network order.
pub open spec fn network_number(value: Seq<u8>) -> int {
    value[0] * 16777216 + value[1] * 65536 + value[2] * 256 + value[3]
}

/// Whether what is derived has, of the type of an attribute, what a value says:
/// AS_PATH is 2, MULTI_EXIT_DISC 4, LOCAL_PREF 5, COMMUNITIES 8, EXTENDED
/// COMMUNITIES 16, AS4_PATH 17 and LARGE_COMMUNITY 32.
pub open spec fn tells(d: DerivedView, typ: u8, value: Seq<u8>, width: nat) -> bool {
    &&& typ == 2 ==> path_in(value, width) == Some(d.path)
    &&& typ == 17 ==> path_in(value, 4) == Some(d.as4_path)
    &&& typ == 4 ==> value.len() == 4 && d.med == Some(network_number(value) as u32)
    &&& typ == 5 ==> value.len() == 4 && d.local_pref == Some(network_number(value) as u32)
    &&& typ == 8 ==> value.len() == 4 * d.communities.len() && forall|k: int|
        0 <= k < d.communities.len() ==> #[trigger] d.communities[k] == network_number(
            value.subrange(4 * k, 4 * k + 4),
        )
    &&& typ == 16 ==> d.extended == value && value.len() % 8 == 0
    &&& typ == 32 ==> d.large == value && value.len() % 12 == 0
}

/// Whether two derivations have the same of the type of an attribute.
pub open spec fn same_of(a: DerivedView, b: DerivedView, typ: u8) -> bool {
    &&& typ == 2 ==> a.path == b.path
    &&& typ == 17 ==> a.as4_path == b.as4_path
    &&& typ == 4 ==> a.med == b.med
    &&& typ == 5 ==> a.local_pref == b.local_pref
    &&& typ == 8 ==> a.communities == b.communities
    &&& typ == 16 ==> a.extended == b.extended
    &&& typ == 32 ==> a.large == b.large
    &&& typ == 3 || typ == 14 ==> a.next_hop == b.next_hop
}

proof fn attribute_tells(
    d: DerivedView,
    typ: u8,
    value: Seq<u8>,
    width: nat,
    afi: u16,
    safi: u8,
    other: u8,
)
    requires
        with_attribute(d, typ, value, width, afi, safi) is Some,
    ensures
        tells(with_attribute(d, typ, value, width, afi, safi)->0, typ, value, width),
        other != typ && !((typ == 3 || typ == 14) && (other == 3 || other == 14)) ==> same_of(
            with_attribute(d, typ, value, width, afi, safi)->0,
            d,
            other,
        ),
{
    reveal(with_attribute);
    let r = with_attribute(d, typ, value, width, afi, safi)->0;
    if typ == 4 || typ == 5 {
        assert(value =~= seq![value[0], value[1], value[2], value[3]]);
        crate::wire::octets_count_by_their_place(value[0], value[1], value[2], value[3]);
    }
    if typ == 8 {
        assert forall|k: int| 0 <= k < r.communities.len() implies #[trigger] r.communities[k]
            == network_number(value.subrange(4 * k, 4 * k + 4)) by {
            let word = value.subrange(k * 4, k * 4 + 4);
            assert(word =~= value.subrange(4 * k, 4 * k + 4));
            assert(word =~= seq![word[0], word[1], word[2], word[3]]);
            crate::wire::octets_count_by_their_place(word[0], word[1], word[2], word[3]);
        }
    }
}

proof fn run_tells(
    d: DerivedView,
    raw: Seq<u8>,
    width: nat,
    afi: u16,
    safi: u8,
    typ: u8,
    i: int,
)
    requires
        with_attributes(d, raw, width, afi, safi) is Some,
        typ != 3 && typ != 14,
    ensures
        ({
            let r = with_attributes(d, raw, width, afi, safi)->0;
            let list = attributes_listed(raw);
            &&& is_absent(list, typ) ==> same_of(r, d, typ)
            &&& is_last(list, typ, i) ==> tells(r, typ, list[i].1, width)
        }),
    decreases raw.len(),
{
    if raw.len() > 0 {
        let end = attribute_header(raw) + attribute_len(raw);
        let value = raw.subrange(attribute_header(raw), end);
        let next = with_attribute(d, raw[1], value, width, afi, safi)->0;
        let rest = attributes_listed(raw.skip(end));
        let list = attributes_listed(raw);
        assert(list =~= seq![(raw[1], value)] + rest);
        attribute_tells(d, raw[1], value, width, afi, safi, typ);
        run_tells(next, raw.skip(end), width, afi, safi, typ, i - 1);
        if is_absent(list, typ) {
            assert(list[0].0 != typ);
            assert forall|k: int| 0 <= k < rest.len() implies (#[trigger] rest[k]).0 != typ by {
                assert(rest[k] == list[k + 1]);
            }
        }
        if is_last(list, typ, i) {
            if i == 0 {
                assert forall|k: int| 0 <= k < rest.len() implies (#[trigger] rest[k]).0 != typ by {
                    assert(rest[k] == list[k + 1]);
                }
                let r = with_attributes(d, raw, width, afi, safi)->0;
                assert(same_of(r, next, typ));
                assert(tells(next, typ, value, width));
            } else {
                assert(rest[i - 1] == list[i]);
                assert forall|k: int| i - 1 < k < rest.len() implies (#[trigger] rest[k]).0
                    != typ by {
                    assert(rest[k] == list[k + 1]);
                }
            }
        }
    }
}

/// What is derived from attributes is what the last attribute of each type
/// says, and nothing where there is none.
pub proof fn last_attributes_count(
    raw: Seq<u8>,
    width: nat,
    afi: u16,
    safi: u8,
    typ: u8,
    i: int,
)
    requires
        derived_from(raw, width, afi, safi) is Some,
        typ != 3 && typ != 14,
    ensures
        ({
            let d = derived_from(raw, width, afi, safi)->0;
            let list = attributes_listed(raw);
            &&& is_last(list, typ, i) ==> tells(d, typ, list[i].1, width)
            &&& is_absent(list, 2) ==> d.path.len() == 0
            &&& is_absent(list, 17) ==> d.as4_path.len() == 0
            &&& is_absent(list, 4) ==> d.med is None
            &&& is_absent(list, 5) ==> d.local_pref is None
            &&& is_absent(list, 8) ==> d.communities.len() == 0
            &&& is_absent(list, 16) ==> d.extended.len() == 0
            &&& is_absent(list, 32) ==> d.large.len() == 0
            &&& d.ok
        }),
{
    let none = nothing_derived();
    run_tells(none, raw, width, afi, safi, typ, i);
    run_tells(none, raw, width, afi, safi, 2, i);
    run_tells(none, raw, width, afi, safi, 17, i);
    run_tells(none, raw, width, afi, safi, 4, i);
    run_tells(none, raw, width, afi, safi, 5, i);
    run_tells(none, raw, width, afi, safi, 8, i);
    run_tells(none, raw, width, afi, safi, 16, i);
    run_tells(none, raw, width, afi, safi, 32, i);
    read_runs_are_fine(none, raw, width, afi, safi);
}

proof fn read_runs_are_fine(d: DerivedView, raw: Seq<u8>, width: nat, afi: u16, safi: u8)
    requires
        with_attributes(d, raw, width, afi, safi) is Some,
    ensures
        with_attributes(d, raw, width, afi, safi)->0.ok,
    decreases raw.len(),
{
    if raw.len() > 0 {
        let end = attribute_header(raw) + attribute_len(raw);
        let value = raw.subrange(attribute_header(raw), end);
        let next = with_attribute(d, raw[1], value, width, afi, safi)->0;
        read_runs_are_fine(next, raw.skip(end), width, afi, safi);
    }
}

/// The next hop of a route. NEXT_HOP gives it for IPv4 unicast alone, as an
/// IPv4 address in the form of an IPv6 address; MP_REACH_NLRI for the family
/// that it is for alone, and of two addresses the first.
pub proof fn next_hops_are_of_the_family(
    d: DerivedView,
    width: nat,
    afi: u16,
    safi: u8,
    address: Seq<u8>,
    second: Seq<u8>,
    rest: Seq<u8>,
    other: u16,
)
    requires
        other != afi,
    ensures
        address.len() == 4 ==> {
            let r = with_attribute(d, 3, address, width, afi, safi)->0;
            &&& afi == 1 && safi == 1 ==> r.next_hop is Some && r.next_hop->0.len() == 16
                && r.next_hop->0.skip(12) == address && r.next_hop->0[10] == 255
                && r.next_hop->0[11] == 255 && forall|k: int|
                0 <= k < 10 ==> #[trigger] r.next_hop->0[k] == 0
            &&& !(afi == 1 && safi == 1) ==> r == d
        },
        address.len() == 16 && (afi == 1 || afi == 2) && safi == 1 ==> {
            let one = be16(afi as int) + seq![safi, 16u8] + address + rest;
            let two = be16(afi as int) + seq![safi, 32u8] + address + second + rest;
            &&& with_attribute(d, 14, one, width, afi, safi) == Some(
                DerivedView { next_hop: Some(address), ..d },
            )
            &&& second.len() == 16 ==> with_attribute(d, 14, two, width, afi, safi) == Some(
                DerivedView { next_hop: Some(address), ..d },
            )
        },
        with_attribute(d, 14, be16(other as int) + seq![safi] + rest, width, afi, safi) == Some(d),
{
    reveal(with_attribute);
    let m = mapped(address);
    assert(address.len() == 4 ==> m.skip(12) =~= address);
    let one = be16(afi as int) + seq![safi, 16u8] + address + rest;
    let two = be16(afi as int) + seq![safi, 32u8] + address + second + rest;
    let apart = be16(other as int) + seq![safi] + rest;
    crate::wire::be16_round_trip(afi as int);
    crate::wire::be16_round_trip(other as int);
    assert(one.take(2) =~= be16(afi as int));
    assert(two.take(2) =~= be16(afi as int));
    assert(apart.take(2) =~= be16(other as int));
    if address.len() == 16 {
        assert(one.subrange(4, 20).take(16) =~= address);
        assert(one.take(3) =~= be16(afi as int) + seq![safi]);
        assert(two.take(3) =~= be16(afi as int) + seq![safi]);
        assert(afi == 1 && safi == 1 ==> be16(1) + seq![1u8] =~= seq![0u8, 1u8, 1u8]);
        assert(afi == 2 && safi == 1 ==> be16(2) + seq![1u8] =~= seq![0u8, 2u8, 1u8]);
        if second.len() == 16 {
            assert(two.subrange(4, 36).take(16) =~= address);
        }
    }
}

/// The AS numbers of a segment, each in its octets.
pub open spec fn asn_octets(asns: Seq<u32>, width: nat) -> Seq<u8>
    decreases asns.len(),
{
    if asns.len() == 0 {
        seq![]
    } else {
        asn_octets(asns.drop_last(), width) + (if width == 2 {
            be16(asns.last() as int)
        } else {
            be32(asns.last() as int)
        })
    }
}

proof fn asns_are_read(asns: Seq<u32>, width: nat)
    requires
        width == 2 || width == 4,
        width == 2 ==> forall|k: int| 0 <= k < asns.len() ==> #[trigger] asns[k] < 65536,
    ensures
        asn_octets(asns, width).len() == asns.len() * width,
        asns_in(asn_octets(asns, width), asns.len(), width) == asns,
    decreases asns.len(),
{
    let octets = asn_octets(asns, width);
    if asns.len() > 0 {
        let before = asns.drop_last();
        assert(width == 2 ==> asns.last() == asns[asns.len() - 1]);
        asns_are_read(before, width);
        let head = asn_octets(before, width);
        let n = before.len() as int;
        assert(n * width + width == (n + 1) * width) by (nonlinear_arith);
        crate::wire::be32_round_trip(asns.last() as int);
        if width == 2 {
            crate::wire::be16_round_trip(asns.last() as int);
        }
        let read = asns_in(octets, asns.len(), width);
        assert forall|k: int| 0 <= k < asns.len() implies #[trigger] read[k] == asns[k] by {
            if k < n {
                assert(k * width + width <= n * width) by (nonlinear_arith)
                    requires
                        k < n,
                        width >= 0,
                ;
                assert(k * width >= 0) by (nonlinear_arith)
                    requires
                        k >= 0,
                        width >= 0,
                ;
                assert(octets.subrange(k * width, k * width + width) =~= head.subrange(
                    k * width,
                    k * width + width,
                ));
                assert(asns_in(head, before.len(), width)[k] == before[k]);
            } else {
                assert(octets.subrange(n * width, n * width + width) =~= octets.skip(
                    head.len() as int,
                ));
                assert(octets.skip(head.len() as int) =~= if width == 2 {
                    be16(asns.last() as int)
                } else {
                    be32(asns.last() as int)
                });
            }
        }
        assert(read =~= asns);
    } else {
        assert(asns_in(octets, 0, width) =~= asns);
        assert(0 * width == 0) by (nonlinear_arith);
    }
}

/// A path is read segment by segment: the AS numbers of the first, whatever its
/// kind, and then those of the others. A segment of no known kind spoils it.
pub proof fn segments_are_read_in_order(kind: u8, asns: Seq<u32>, rest: Seq<u8>, width: nat)
    requires
        width == 2 || width == 4,
        asns.len() < 256,
        width == 2 ==> forall|k: int| 0 <= k < asns.len() ==> #[trigger] asns[k] < 65536,
    ensures
        ({
            let raw = seq![kind, asns.len() as u8] + asn_octets(asns, width) + rest;
            path_in(raw, width) == (match path_in(rest, width) {
                Some(path) => if 1 <= kind <= 4 {
                    Some(asns + path)
                } else {
                    None
                },
                None => None::<Seq<u32>>,
            })
        }),
{
    let octets = asn_octets(asns, width);
    let raw = seq![kind, asns.len() as u8] + octets + rest;
    asns_are_read(asns, width);
    let end = 2int + asns.len() * width;
    assert(raw.subrange(2, end) =~= octets);
    assert(raw.skip(end) =~= rest);
}

} // verus!
