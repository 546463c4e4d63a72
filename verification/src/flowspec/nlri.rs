//! NLRI on the wire and the traffic actions of a rule.

use crate::best_path::select::RotondaPaMap;
use crate::text::string_views;
use crate::wire::{octet_views, put, same_octets};
use routecore::bgp::message::PduParseInfo;
use routecore::bgp::nlri::flowspec::FlowSpecNlri;
use routecore::bgp::path_attributes::{
    ExtendedCommunitiesList, Ipv6ExtendedCommunitiesList, OwnedPathAttributes,
};
use routecore::bgp::types::Afi;
use vstd::prelude::*;

verus! {

/// The longest NLRI that has a length header.
pub const MAX_NLRI: usize = 4095;

/// An NLRI with its length header: one octet for a length below 240, else two
/// of which the first four bits are set. Longer ones than [`MAX_NLRI`] have
/// none.
pub open spec fn framed(raw: Seq<u8>) -> Option<Seq<u8>> {
    if raw.len() < 240 {
        Some(seq![raw.len() as u8] + raw)
    } else if raw.len() <= MAX_NLRI {
        Some(seq![(0xf0 + raw.len() / 256) as u8, (raw.len() % 256) as u8] + raw)
    } else {
        None
    }
}

/// Length of the header of a framed NLRI.
pub open spec fn header_len(wire: Seq<u8>) -> int {
    if wire[0] < 0xf0 {
        1
    } else {
        2
    }
}

/// The length that the header of a framed NLRI gives.
pub open spec fn announced_len(wire: Seq<u8>) -> int {
    if wire[0] < 0xf0 {
        wire[0] as int
    } else {
        (wire[0] - 0xf0) * 256 + wire[1]
    }
}

/// Whether a framed NLRI is all there.
pub open spec fn frame_is_whole(wire: Seq<u8>) -> bool {
    wire.len() >= 1 && wire.len() >= header_len(wire) && wire.len() >= header_len(wire)
        + announced_len(wire)
}

/// The NLRI in a frame.
pub open spec fn unframed(wire: Seq<u8>) -> Seq<u8> {
    wire.subrange(header_len(wire), header_len(wire) + announced_len(wire))
}

/// Taking a frame off undoes putting it on.
pub proof fn frame_round_trip(raw: Seq<u8>)
    requires
        raw.len() <= MAX_NLRI,
    ensures
        framed(raw) is Some,
        frame_is_whole(framed(raw)->0),
        unframed(framed(raw)->0) == raw,
{
    assert(unframed(framed(raw)->0) =~= raw);
}

/// Puts the length header before an NLRI.
pub fn frame_nlri(raw: &[u8]) -> (r: Option<Vec<u8>>)
    ensures
        match r {
            Some(wire) => framed(raw@) == Some(wire@),
            None => framed(raw@) is None,
        },
{
    let len: usize = raw.len();
    let mut wire: Vec<u8> = Vec::new();
    if len >= 240 {
        if len > MAX_NLRI {
            return None;
        }
        wire.push((0xf0 + len / 256) as u8);
        wire.push((len % 256) as u8);
    } else {
        wire.push(len as u8);
    }
    put(&mut wire, raw);
    assert(wire@ =~= framed(raw@)->0);
    Some(wire)
}

/// Whether the components of a framed IPv4 NLRI can be read.
pub uninterp spec fn components_parse(wire: Seq<u8>) -> bool;

/// `FlowSpecNlri::parse` takes the frame off an NLRI. It refuses a frame that
/// is not whole and, of IPv4 only, components that do not parse.
#[verifier::external_body]
fn flowspec_nlri(wire: &[u8], v4: bool) -> (r: Option<Vec<u8>>)
    ensures
        r is Some == (frame_is_whole(wire@) && (v4 ==> components_parse(wire@))),
        r is Some ==> r->0@ == unframed(wire@),
{
    let octets = bytes::Bytes::copy_from_slice(wire);
    let mut parser = octseq::Parser::from_ref(&octets);
    let afi = if v4 { Afi::Ipv4 } else { Afi::Ipv6 };
    FlowSpecNlri::parse(&mut parser, afi).ok().map(|nlri: FlowSpecNlri<bytes::Bytes>| nlri.raw().to_vec())
}

/// An NLRI whose components have been read.
#[derive(Debug)]
pub struct ParsedNlri {
    pub v4: bool,
    pub raw: Vec<u8>,
}

/// Puts the length header before a stored NLRI and parses it. Nothing comes
/// back of one that is too long or does not parse; the components of an IPv6
/// one are not looked at.
pub fn parse_raw_nlri(raw: &[u8], v4: bool) -> (r: Option<ParsedNlri>)
    ensures
        r is Some <==> raw@.len() <= MAX_NLRI && (v4 ==> components_parse(framed(raw@)->0)),
        r is Some ==> r->0.v4 == v4 && r->0.raw@ == raw@,
{
    match frame_nlri(raw) {
        Some(wire) => {
            proof {
                frame_round_trip(raw@);
            }
            match flowspec_nlri(&wire, v4) {
                Some(raw) => Some(ParsedNlri { v4, raw }),
                None => None,
            }
        },
        None => None,
    }
}

/// The extended communities in a wire-format list of path attributes, in
/// order.
pub uninterp spec fn extended_in(wire: Seq<u8>, four_octet_asns: bool) -> Seq<Seq<u8>>;

/// The IPv6 extended communities in a wire-format list of path attributes, in
/// order.
pub uninterp spec fn ipv6_extended_in(wire: Seq<u8>, four_octet_asns: bool) -> Seq<Seq<u8>>;

/// `OwnedPathAttributes::get` for EXTENDED_COMMUNITIES, each community as its
/// octets; none if there is no such attribute that can be read.
#[verifier::external_body]
fn get_extended(wire: &[u8], four_octet_asns: bool) -> (r: Vec<Vec<u8>>)
    ensures
        octet_views(r@) == extended_in(wire@, four_octet_asns),
{
    let ppi = if four_octet_asns { PduParseInfo::modern() } else { PduParseInfo::legacy() };
    let owned = OwnedPathAttributes::new(ppi, wire.to_vec());
    let list = owned.get::<ExtendedCommunitiesList>();
    list.map(|list| list.fmap(|community| community.to_raw().to_vec())).unwrap_or_default()
}

/// `OwnedPathAttributes::get` for IPV6_EXTENDED_COMMUNITIES, each community as
/// its octets; none if there is no such attribute that can be read.
#[verifier::external_body]
fn get_ipv6_extended(wire: &[u8], four_octet_asns: bool) -> (r: Vec<Vec<u8>>)
    ensures
        octet_views(r@) == ipv6_extended_in(wire@, four_octet_asns),
{
    let ppi = if four_octet_asns { PduParseInfo::modern() } else { PduParseInfo::legacy() };
    let owned = OwnedPathAttributes::new(ppi, wire.to_vec());
    let list = owned.get::<Ipv6ExtendedCommunitiesList>();
    list.map(|list| list.fmap(|community| community.to_raw().to_vec())).unwrap_or_default()
}

/// The extended communities of a rule, by the octets of its attributes.
pub open spec fn rule_extended(blob: Seq<u8>) -> Seq<Seq<u8>> {
    if blob.len() < 2 {
        seq![]
    } else {
        extended_in(blob.skip(2), blob[1] != 0)
    }
}

/// The IPv6 extended communities of a rule, by the octets of its attributes.
pub open spec fn rule_ipv6_extended(blob: Seq<u8>) -> Seq<Seq<u8>> {
    if blob.len() < 2 {
        seq![]
    } else {
        ipv6_extended_in(blob.skip(2), blob[1] != 0)
    }
}

/// The extended communities of a rule, and its IPv6 extended communities.
pub fn rule_communities(pamap: &RotondaPaMap) -> (r: (Vec<Vec<u8>>, Vec<Vec<u8>>))
    ensures
        octet_views(r.0@) == rule_extended(pamap@),
        octet_views(r.1@) == rule_ipv6_extended(pamap@),
{
    let raw = pamap.raw();
    if raw.len() < 2 {
        let none: (Vec<Vec<u8>>, Vec<Vec<u8>>) = (Vec::new(), Vec::new());
        assert(octet_views(none.0@) =~= seq![]);
        assert(octet_views(none.1@) =~= seq![]);
        return none;
    }
    let wire = vstd::slice::slice_subrange(raw.as_slice(), 2, raw.len());
    assert(wire@ =~= pamap@.skip(2));
    let four_octet_asns = raw[1] != 0;
    (get_extended(wire, four_octet_asns), get_ipv6_extended(wire, four_octet_asns))
}

/// A community that stands for a traffic action, and what it says.
#[derive(Debug)]
pub struct Action {
    pub community: Vec<u8>,
    pub text: String,
}

/// What a community says, if it is among those that stand for an action.
pub open spec fn action_text(known: Seq<Action>, community: Seq<u8>) -> Option<Seq<char>>
    decreases known.len(),
{
    if known.len() == 0 {
        None
    } else if known[0].community@ == community {
        Some(known[0].text@)
    } else {
        action_text(known.drop_first(), community)
    }
}

/// What those among some communities say that stand for an action, in order.
pub open spec fn action_texts(known: Seq<Action>, communities: Seq<Seq<u8>>) -> Seq<Seq<char>>
    decreases communities.len(),
{
    if communities.len() == 0 {
        seq![]
    } else {
        let rest = action_texts(known, communities.drop_last());
        match action_text(known, communities.last()) {
            Some(text) => rest.push(text),
            None => rest,
        }
    }
}

fn find_action(known: &[Action], community: &[u8]) -> (r: Option<String>)
    ensures
        r is Some <==> action_text(known@, community@) is Some,
        r is Some ==> action_text(known@, community@) == Some(r->0@),
{
    let mut i: usize = 0;
    assert(known@.skip(0) =~= known@);
    while i < known.len()
        invariant
            i <= known@.len(),
            action_text(known@, community@) == action_text(known@.skip(i as int), community@),
        decreases known.len() - i,
    {
        assert(known@.skip(i as int).drop_first() =~= known@.skip(i + 1));
        if same_octets(&known[i].community, community) {
            return Some(known[i].text.clone());
        }
        i += 1;
    }
    None
}

fn add_actions(actions: &mut Vec<String>, known: &[Action], communities: &[Vec<u8>])
    ensures
        string_views(final(actions)@) == string_views(old(actions)@) + action_texts(
            known@,
            octet_views(communities@),
        ),
{
    let ghost before = string_views(actions@);
    let ghost all = octet_views(communities@);
    let mut i: usize = 0;
    assert(all.take(0) =~= seq![]);
    assert(string_views(actions@) =~= before + action_texts(known@, all.take(0)));
    while i < communities.len()
        invariant
            i <= communities.len(),
            all == octet_views(communities@),
            string_views(actions@) == before + action_texts(known@, all.take(i as int)),
        decreases communities.len() - i,
    {
        proof {
            assert(all.take(i + 1).drop_last() =~= all.take(i as int));
            assert(all.take(i + 1).last() == communities@[i as int]@);
        }
        let ghost listed = actions@;
        match find_action(known, &communities[i]) {
            Some(text) => {
                actions.push(text);
                proof {
                    assert(string_views(actions@) =~= string_views(listed).push(text@));
                    assert(string_views(actions@) =~= before + action_texts(
                        known@,
                        all.take(i + 1),
                    ));
                }
            },
            None => {},
        }
        i += 1;
    }
    assert(all.take(i as int) =~= all);
}

/// The traffic actions of a rule as readable texts: what its extended
/// communities say, and behind that what its IPv6 extended communities say.
/// `known` has what each community says that stands for an action.
pub fn decode_actions(pamap: &RotondaPaMap, known: &[Action]) -> (r: Vec<String>)
    ensures
        string_views(r@) == action_texts(known@, rule_extended(pamap@)) + action_texts(
            known@,
            rule_ipv6_extended(pamap@),
        ),
{
    let (extended, ipv6_extended) = rule_communities(pamap);
    let mut actions: Vec<String> = Vec::new();
    add_actions(&mut actions, known, &extended);
    add_actions(&mut actions, known, &ipv6_extended);
    assert(string_views(Seq::<String>::empty()) =~= seq![]);
    assert(string_views(actions@) =~= action_texts(known@, rule_extended(pamap@)) + action_texts(
        known@,
        rule_ipv6_extended(pamap@),
    ));
    actions
}

/// A frame has one octet of length below 240, and two of them otherwise, of
/// which the first four bits are set; longer NLRIs than twelve bits can tell the
/// length of have no frame.
pub proof fn frames_tell_the_length(raw: Seq<u8>)
    ensures
        framed(raw) is Some <==> raw.len() <= 4095,
        raw.len() < 240 ==> framed(raw)->0.len() == raw.len() + 1 && framed(raw)->0[0]
            == raw.len() && framed(raw)->0.skip(1) == raw,
        240 <= raw.len() <= 4095 ==> framed(raw)->0.len() == raw.len() + 2 && framed(raw)->0[0]
            >= 240 && (framed(raw)->0[0] - 240) * 256 + framed(raw)->0[1] == raw.len() && framed(
            raw,
        )->0.skip(2) == raw,
{
    if raw.len() < 240 {
        assert(framed(raw)->0.skip(1) =~= raw);
    } else if raw.len() <= 4095 {
        assert(framed(raw)->0.skip(2) =~= raw);
    }
}

/// What a community says is the text of the first action that is known by it,
/// and the texts come in the order of the communities.
pub proof fn actions_follow_the_communities(
    known: Seq<Action>,
    communities: Seq<Seq<u8>>,
    more: Seq<u8>,
)
    ensures
        action_text(known, more) is Some ==> action_texts(known, communities.push(more))
            == action_texts(known, communities).push(action_text(known, more)->0),
        action_text(known, more) is None ==> action_texts(known, communities.push(more))
            == action_texts(known, communities),
        known.len() > 0 && known[0].community@ == more ==> action_text(known, more) == Some(
            known[0].text@,
        ),
        (forall|i: int| 0 <= i < known.len() ==> (#[trigger] known[i]).community@ != more)
            ==> action_text(known, more) is None,
    decreases known.len(),
{
    assert(communities.push(more).drop_last() =~= communities);
    if known.len() > 0 && (forall|i: int|
        0 <= i < known.len() ==> (#[trigger] known[i]).community@ != more) {
        let rest = known.drop_first();
        assert forall|i: int| 0 <= i < rest.len() implies (#[trigger] rest[i]).community@
            != more by {
            assert(rest[i] == known[i + 1]);
        }
        actions_follow_the_communities(rest, communities, more);
    }
}

/// The attributes of a rule are read behind two octets, of which the second says
/// how wide AS numbers are.
pub proof fn communities_are_behind_the_header(rpki: u8, wire: Seq<u8>, four_octet_asns: bool)
    ensures
        ({
            let blob = seq![rpki, if four_octet_asns { 1u8 } else { 0u8 }] + wire;
            &&& rule_extended(blob) == extended_in(wire, four_octet_asns)
            &&& rule_ipv6_extended(blob) == ipv6_extended_in(wire, four_octet_asns)
        }),
{
    let blob = seq![rpki, if four_octet_asns { 1u8 } else { 0u8 }] + wire;
    assert(blob.skip(2) =~= wire);
}

} // verus!
