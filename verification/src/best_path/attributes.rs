//! The path attributes that the decision process reads.

use routecore::bgp::aspath::{Hop, HopPath, Segment};
use routecore::bgp::message::PduParseInfo;
use routecore::bgp::path_attributes::{ClusterIds, OwnedPathAttributes, PaMap};
use routecore::bgp::types::{LocalPref, MultiExitDisc, Origin, OriginatorId};
use vstd::prelude::*;

verus! {

/// The map from type codes to parsed path attributes.
#[verifier::external_type_specification]
#[verifier::external_body]
pub struct ExPaMap(PaMap);

/// One hop of an AS_PATH: a member of an AS_SEQUENCE, or a whole segment of
/// another kind, given by the code of its kind. An empty AS_SEQUENCE is a
/// segment.
#[derive(Debug)]
pub enum PathHop {
    Asn(u32),
    Segment(u8, Vec<u32>),
}

/// What a [`PathHop`] holds.
pub ghost enum HopView {
    Asn(u32),
    Segment(u8, Seq<u32>),
}

impl View for PathHop {
    type V = HopView;

    open spec fn view(&self) -> HopView {
        match self {
            PathHop::Asn(asn) => HopView::Asn(*asn),
            PathHop::Segment(kind, asns) => HopView::Segment(*kind, asns@),
        }
    }
}

/// What the hops of a path hold, in order.
pub open spec fn hop_views(hops: Seq<PathHop>) -> Seq<HopView> {
    hops.map_values(|hop: PathHop| hop@)
}

/// The value of a path attribute, as far as the decision process reads it.
/// `Other` stands for an attribute of another type and for one whose value is
/// not valid for its type.
pub ghost enum AttributeValue {
    Origin(u8),
    AsPath(Seq<HopView>),
    MultiExitDisc(u32),
    LocalPref(u32),
    OriginatorId(Seq<u8>),
    ClusterList(nat),
    Other,
}

/// Type codes of the attributes that the decision process reads.
pub const ORIGIN: u8 = 1;
pub const AS_PATH: u8 = 2;
pub const MULTI_EXIT_DISC: u8 = 4;
pub const LOCAL_PREF: u8 = 5;
pub const ORIGINATOR_ID: u8 = 9;
pub const CLUSTER_LIST: u8 = 10;

/// Code of the AS_SET segment kind.
pub const AS_SET: u8 = 1;

/// The attributes that a map holds, by type code.
pub uninterp spec fn attributes(map: PaMap) -> Map<u8, AttributeValue>;

/// The attributes of a wire-format attribute list in the order in which
/// `OwnedPathAttributes::iter` yields them, each with its type code, and `None`
/// for an attribute that it cannot delimit or that does not parse.
pub uninterp spec fn wire_attributes(wire: Seq<u8>, four_octet_asns: bool) -> Seq<
    Option<(u8, AttributeValue)>,
>;

/// No attribute at all.
pub open spec fn no_attributes() -> Map<u8, AttributeValue> {
    Map::empty()
}

/// `PaMap::empty` holds no attribute.
#[verifier::external_body]
fn empty_map() -> (r: PaMap)
    ensures
        attributes(r) == no_attributes(),
{
    PaMap::empty()
}

/// Takes attribute number `index` off a wire-format list with
/// `OwnedPathAttributes::iter` and `WireformatPathAttribute::to_owned`, and
/// stores it with `PaMap::attributes_mut` under its type code, replacing what
/// was there. `None` means that the list is shorter, `Some(false)` that the
/// attribute does not parse; both leave the map as it was. Every attribute
/// takes up at least one octet.
#[verifier::external_body]
fn insert_attribute(map: &mut PaMap, wire: &[u8], four_octet_asns: bool, index: usize) -> (r:
    Option<bool>)
    ensures
        r == (if index < wire_attributes(wire@, four_octet_asns).len() {
            Some(wire_attributes(wire@, four_octet_asns)[index as int] is Some)
        } else {
            None
        }),
        r is Some ==> index < wire@.len(),
        attributes(*final(map)) == (match r {
            Some(true) => {
                let entry = wire_attributes(wire@, four_octet_asns)[index as int]->0;
                attributes(*old(map)).insert(entry.0, entry.1)
            },
            _ => attributes(*old(map)),
        }),
{
    let ppi = if four_octet_asns { PduParseInfo::modern() } else { PduParseInfo::legacy() };
    let owned = OwnedPathAttributes::new(ppi, wire.to_vec());
    let next = owned.iter().nth(index)?;
    match next.and_then(|pa| pa.to_owned()) {
        Ok(pa) => {
            map.attributes_mut().insert(pa.type_code(), pa);
            Some(true)
        },
        Err(_) => Some(false),
    }
}

/// The ORIGIN code that a set of attributes holds.
pub open spec fn origin_in(held: Map<u8, AttributeValue>) -> Option<u8> {
    if held.contains_key(ORIGIN) {
        match held[ORIGIN] {
            AttributeValue::Origin(code) => Some(code),
            _ => None,
        }
    } else {
        None
    }
}

/// The AS_PATH that a set of attributes holds.
pub open spec fn as_path_in(held: Map<u8, AttributeValue>) -> Option<Seq<HopView>> {
    if held.contains_key(AS_PATH) {
        match held[AS_PATH] {
            AttributeValue::AsPath(hops) => Some(hops),
            _ => None,
        }
    } else {
        None
    }
}

/// The MULTI_EXIT_DISC that a set of attributes holds.
pub open spec fn med_in(held: Map<u8, AttributeValue>) -> Option<u32> {
    if held.contains_key(MULTI_EXIT_DISC) {
        match held[MULTI_EXIT_DISC] {
            AttributeValue::MultiExitDisc(med) => Some(med),
            _ => None,
        }
    } else {
        None
    }
}

/// The LOCAL_PREF that a set of attributes holds.
pub open spec fn local_pref_in(held: Map<u8, AttributeValue>) -> Option<u32> {
    if held.contains_key(LOCAL_PREF) {
        match held[LOCAL_PREF] {
            AttributeValue::LocalPref(preference) => Some(preference),
            _ => None,
        }
    } else {
        None
    }
}

/// The ORIGINATOR_ID that a set of attributes holds.
pub open spec fn originator_id_in(held: Map<u8, AttributeValue>) -> Option<Seq<u8>> {
    if held.contains_key(ORIGINATOR_ID) {
        match held[ORIGINATOR_ID] {
            AttributeValue::OriginatorId(octets) => Some(octets),
            _ => None,
        }
    } else {
        None
    }
}

/// The number of identifiers in the CLUSTER_LIST that a set of attributes
/// holds.
pub open spec fn cluster_list_in(held: Map<u8, AttributeValue>) -> Option<nat> {
    if held.contains_key(CLUSTER_LIST) {
        match held[CLUSTER_LIST] {
            AttributeValue::ClusterList(len) => Some(len),
            _ => None,
        }
    } else {
        None
    }
}

/// `PaMap::get` for ORIGIN, as the octet that stands for it on the wire.
#[verifier::external_body]
pub(crate) fn get_origin(map: &PaMap) -> (r: Option<u8>)
    ensures
        r == origin_in(attributes(*map)),
{
    map.get::<Origin>().map(|origin| origin.0.into())
}

/// `PaMap::get` for AS_PATH, hop by hop. A segment's members are those of
/// `Segment::asns`. A segment equals the one of its kind with the same members
/// and none of another kind, which tells an AS_SET (1), an AS_CONFED_SEQUENCE
/// (3) and an AS_CONFED_SET (4), however many members they have, from an
/// AS_SEQUENCE (2), the only other kind.
#[verifier::external_body]
pub(crate) fn get_as_path(map: &PaMap) -> (r: Option<Vec<PathHop>>)
    ensures
        r is Some <==> as_path_in(attributes(*map)) is Some,
        r is Some ==> as_path_in(attributes(*map)) == Some(hop_views(r->0@)),
{
    let hop = |hop: &Hop<Vec<u8>>| match hop {
        Hop::Asn(asn) => PathHop::Asn(asn.into_u32()),
        Hop::Segment(s) => {
            let kinds = [
                (1, Segment::new_set(s.asns())),
                (3, Segment::new_confed_sequence(s.asns())),
                (4, Segment::new_confed_set(s.asns())),
            ];
            let kind = kinds.iter().find(|kind| kind.1 == *s).map_or(2, |kind| kind.0);
            PathHop::Segment(kind, s.asns().map(|asn| asn.into_u32()).collect())
        },
    };
    map.get::<HopPath>().map(|path| path.iter().map(hop).collect())
}

/// `PaMap::get` for MULTI_EXIT_DISC.
#[verifier::external_body]
pub(crate) fn get_med(map: &PaMap) -> (r: Option<u32>)
    ensures
        r == med_in(attributes(*map)),
{
    map.get::<MultiExitDisc>().map(|med| med.0)
}

/// `PaMap::get` for LOCAL_PREF.
#[verifier::external_body]
pub(crate) fn get_local_pref(map: &PaMap) -> (r: Option<u32>)
    ensures
        r == local_pref_in(attributes(*map)),
{
    map.get::<LocalPref>().map(|preference| preference.0)
}

/// `PaMap::get` for ORIGINATOR_ID.
#[verifier::external_body]
pub(crate) fn get_originator_id(map: &PaMap) -> (r: Option<[u8; 4]>)
    ensures
        r is Some <==> originator_id_in(attributes(*map)) is Some,
        r is Some ==> originator_id_in(attributes(*map)) == Some(r->0@),
{
    map.get::<OriginatorId>().map(|id| id.0.octets())
}

/// `PaMap::get` for CLUSTER_LIST, as the number of identifiers in it.
#[verifier::external_body]
pub(crate) fn get_cluster_list(map: &PaMap) -> (r: Option<usize>)
    ensures
        r is Some <==> cluster_list_in(attributes(*map)) is Some,
        r is Some ==> cluster_list_in(attributes(*map)) == Some(r->0 as nat),
{
    map.get::<ClusterIds>().map(|list| list.len())
}

/// The attributes of the first `n` entries of a list, a later one replacing an
/// earlier one of the same type; `None` if one of them did not parse.
pub open spec fn gathered(list: Seq<Option<(u8, AttributeValue)>>, n: nat) -> Option<
    Map<u8, AttributeValue>,
>
    decreases n,
{
    if n == 0 {
        Some(Map::empty())
    } else {
        match (gathered(list, (n - 1) as nat), list[n - 1]) {
            (Some(held), Some(entry)) => Some(held.insert(entry.0, entry.1)),
            _ => None,
        }
    }
}

/// What a wire-format attribute list holds, or `None` if an attribute in it
/// does not parse.
pub open spec fn attributes_on_wire(wire: Seq<u8>, four_octet_asns: bool) -> Option<
    Map<u8, AttributeValue>,
> {
    let list = wire_attributes(wire, four_octet_asns);
    gathered(list, list.len())
}

proof fn gathered_fails(list: Seq<Option<(u8, AttributeValue)>>, i: nat, n: nat)
    requires
        i < n,
        list[i as int] is None,
    ensures
        gathered(list, n) is None,
    decreases n,
{
    if i + 1 < n {
        gathered_fails(list, i, (n - 1) as nat);
    }
}

/// Collects the attributes of a wire-format list into a map. One attribute
/// that does not parse spoils the whole list.
pub fn parse_attributes(wire: &[u8], four_octet_asns: bool) -> (r: Option<PaMap>)
    ensures
        r is Some <==> attributes_on_wire(wire@, four_octet_asns) is Some,
        r is Some ==> attributes_on_wire(wire@, four_octet_asns) == Some(attributes(r->0)),
{
    let ghost list = wire_attributes(wire@, four_octet_asns);
    let len: usize = wire.len();
    let mut map = empty_map();
    let mut index: usize = 0;
    loop
        invariant
            index <= len,
            len == wire@.len(),
            index <= list.len(),
            list == wire_attributes(wire@, four_octet_asns),
            gathered(list, index as nat) == Some(attributes(map)),
        decreases wire@.len() - index,
    {
        match insert_attribute(&mut map, wire, four_octet_asns, index) {
            None => {
                return Some(map);
            },
            Some(false) => {
                proof {
                    gathered_fails(list, index as nat, list.len());
                }
                return None;
            },
            Some(true) => {},
        }
        index += 1;
    }
}

/// Of the attributes of one type the last counts.
pub proof fn last_attribute_of_a_type_counts(
    list: Seq<Option<(u8, AttributeValue)>>,
    n: nat,
    typ: u8,
) -> (k: int)
    requires
        n <= list.len(),
        gathered(list, n) is Some,
        gathered(list, n)->0.contains_key(typ),
    ensures
        0 <= k < n,
        list[k] == Some((typ, gathered(list, n)->0[typ])),
        forall|j: int| k < j < n ==> (#[trigger] list[j]) is Some && (list[j]->0).0 != typ,
    decreases n,
{
    let last = list[n - 1];
    if (last->0).0 == typ {
        n - 1
    } else {
        last_attribute_of_a_type_counts(list, (n - 1) as nat, typ)
    }
}

/// Every attribute of a list is held under its type, and one that does not parse
/// spoils the list.
pub proof fn every_attribute_is_held(list: Seq<Option<(u8, AttributeValue)>>, n: nat, k: int)
    requires
        0 <= k < n <= list.len(),
    ensures
        list[k] is None ==> gathered(list, n) is None,
        gathered(list, n) is Some ==> gathered(list, n)->0.contains_key((list[k]->0).0),
    decreases n,
{
    if k < n - 1 {
        every_attribute_is_held(list, (n - 1) as nat, k);
    }
}

} // verus!
