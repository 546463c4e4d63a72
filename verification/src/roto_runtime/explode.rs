//! The routes that an UPDATE message announces and withdraws.

use crate::best_path::select::RotondaPaMap;
use crate::roto_runtime::labels::{check_labels, labels_fit, MP_REACH, MP_UNREACH};
use routecore::bgp::message::update::{FourOctetAsns, SessionConfig};
use routecore::bgp::message::UpdateMessage;
use routecore::bgp::path_attributes::OwnedPathAttributes;
use vstd::prelude::*;

verus! {

/// What an UPDATE message says of one destination: the AFI and SAFI of the
/// family, whether a path identifier goes with it, and the destination as it
/// stands on the wire.
#[derive(Debug)]
pub struct Reach {
    pub family: (u16, u8),
    pub addpath: bool,
    pub octets: Vec<u8>,
}

/// What a [`Reach`] holds.
pub ghost struct ReachView {
    pub family: (u16, u8),
    pub addpath: bool,
    pub octets: Seq<u8>,
}

impl View for Reach {
    type V = ReachView;

    open spec fn view(&self) -> ReachView {
        ReachView { family: self.family, addpath: self.addpath, octets: self.octets@ }
    }
}

/// What some destinations hold.
pub open spec fn reach_views(list: Seq<Reach>) -> Seq<ReachView> {
    list.map_values(|reach: Reach| reach@)
}

/// The destinations that a message announces or withdraws, up to the first
/// that does not parse.
#[derive(Debug)]
pub struct Parsed {
    /// The octets of the path attributes.
    pub attributes: Vec<u8>,
    pub list: Vec<Reach>,
    /// Whether there is one that does not parse.
    pub broken: bool,
}

/// What a [`Parsed`] holds.
pub ghost struct ParsedView {
    pub attributes: Seq<u8>,
    pub list: Seq<ReachView>,
    pub broken: bool,
}

impl View for Parsed {
    type V = ParsedView;

    open spec fn view(&self) -> ParsedView {
        ParsedView {
            attributes: self.attributes@,
            list: reach_views(self.list@),
            broken: self.broken,
        }
    }
}

/// How the messages of a session are to be read.
#[verifier::external_type_specification]
#[verifier::external_body]
pub struct ExSessionConfig(SessionConfig);

/// Whether AS numbers have four octets on a session, and for which families
/// path identifiers go with the destinations.
pub ghost struct SessionView {
    pub four_octet_asns: bool,
    pub addpath: Set<(u16, u8)>,
}

/// What a `SessionConfig` holds.
pub uninterp spec fn session_of(config: SessionConfig) -> SessionView;

/// What a message announces on a session; nothing if it is no UPDATE message.
pub uninterp spec fn announced_in(pdu: Seq<u8>, session: SessionView) -> Option<ParsedView>;

/// What a message withdraws on a session; nothing if it is no UPDATE message.
pub uninterp spec fn withdrawn_in(pdu: Seq<u8>, session: SessionView) -> Option<ParsedView>;

/// A session without path identifiers.
pub open spec fn plain_session(four_octet_asns: bool) -> SessionView {
    SessionView { four_octet_asns, addpath: Set::empty() }
}

/// `SessionConfig::modern` makes a configuration without path identifiers, and
/// `SessionConfig::set_four_octet_asns` says whether AS numbers have four
/// octets.
#[verifier::external_body]
fn new_config(four_octet_asns: bool) -> (r: SessionConfig)
    ensures
        session_of(r) == plain_session(four_octet_asns),
{
    let mut config = SessionConfig::modern();
    config.set_four_octet_asns(FourOctetAsns(four_octet_asns));
    config
}

/// `SessionConfig::add_addpath_rxtx` says that path identifiers go with the
/// destinations of a family.
#[verifier::external_body]
fn add_addpath(config: &mut SessionConfig, family: (u16, u8))
    ensures
        session_of(*final(config)).four_octet_asns == session_of(*old(config)).four_octet_asns,
        session_of(*final(config)).addpath == session_of(*old(config)).addpath.insert(family),
{
    config.add_addpath_rxtx(family.into());
}

/// Reads a message with `UpdateMessage::from_octets`, and its announcements
/// with `UpdateMessage::announcements`, up to the first that does not parse.
/// The path attributes are those of `UpdateMessage::path_attributes`. A labelled
/// destination with more bits than an address makes the iterator panic.
#[verifier::external_body]
fn parse_announced(pdu: &[u8], config: &SessionConfig) -> (r: Option<Parsed>)
    requires
        labels_fit(pdu@, MP_REACH, session_of(*config).addpath),
    ensures
        match r {
            Some(parsed) => announced_in(pdu@, session_of(*config)) == Some(parsed@),
            None => announced_in(pdu@, session_of(*config)) is None,
        },
{
    let update = UpdateMessage::from_octets(pdu, config).ok()?;
    let owned = OwnedPathAttributes::from(update.path_attributes().ok()?);
    let mut broken = false;
    let all = update.announcements().ok()?.map_while(|n| {
        broken = n.is_err();
        n.ok()
    });
    let list = all.map(|n| {
        let mut octets = Vec::new();
        let _ = n.compose(&mut octets);
        let addpath = n.nlri_type() != (n.afi_safi(), false).into();
        Reach { family: n.afi_safi().into(), addpath, octets }
    }).collect();
    Some(Parsed { attributes: owned.as_ref().to_vec(), list, broken })
}

/// Reads a message with `UpdateMessage::from_octets`, and its withdrawals with
/// `UpdateMessage::withdrawals`, up to the first that does not parse. No path
/// attributes go with them. A labelled destination with more bits than an
/// address makes the iterator panic.
#[verifier::external_body]
fn parse_withdrawn(pdu: &[u8], config: &SessionConfig) -> (r: Option<Parsed>)
    requires
        labels_fit(pdu@, MP_UNREACH, session_of(*config).addpath),
    ensures
        match r {
            Some(parsed) => withdrawn_in(pdu@, session_of(*config)) == Some(parsed@),
            None => withdrawn_in(pdu@, session_of(*config)) is None,
        },
        r is Some ==> r->0.attributes@.len() == 0,
{
    let update = UpdateMessage::from_octets(pdu, config).ok()?;
    let mut broken = false;
    let all = update.withdrawals().ok()?.map_while(|n| {
        broken = n.is_err();
        n.ok()
    });
    let list = all.map(|n| {
        let mut octets = Vec::new();
        let _ = n.compose(&mut octets);
        let addpath = n.nlri_type() != (n.afi_safi(), false).into();
        Reach { family: n.afi_safi().into(), addpath, octets }
    }).collect();
    Some(Parsed { attributes: Vec::new(), list, broken })
}

/// The configuration to read the messages of a session by.
fn config_for(four_octet_asns: bool, addpath: &[(u16, u8)]) -> (r: SessionConfig)
    ensures
        session_of(r) == (SessionView { four_octet_asns, addpath: addpath@.to_set() }),
{
    let mut config = new_config(four_octet_asns);
    let mut i: usize = 0;
    assert(addpath@.take(0).to_set() =~= Set::<(u16, u8)>::empty());
    while i < addpath.len()
        invariant
            i <= addpath@.len(),
            session_of(config).four_octet_asns == four_octet_asns,
            session_of(config).addpath == addpath@.take(i as int).to_set(),
        decreases addpath.len() - i,
    {
        add_addpath(&mut config, addpath[i]);
        proof {
            let upto = addpath@.take(i + 1);
            assert(upto =~= addpath@.take(i as int).push(addpath@[i as int]));
            assert forall|family: (u16, u8)|
                upto.to_set().contains(family) <==> addpath@.take(i as int).to_set().insert(
                    addpath@[i as int],
                ).contains(family) by {
                if upto.contains(family) {
                    let k = choose|k: int| 0 <= k < upto.len() && upto[k] == family;
                    if k < i {
                        assert(addpath@.take(i as int)[k] == family);
                    }
                }
                if addpath@.take(i as int).contains(family) {
                    let k = choose|k: int|
                        0 <= k < addpath@.take(i as int).len() && addpath@.take(i as int)[k]
                            == family;
                    assert(upto[k] == family);
                }
                assert(upto[i as int] == addpath@[i as int]);
            }
            assert(upto.to_set() =~= addpath@.take(i as int).to_set().insert(addpath@[i as int]));
        }
        i += 1;
    }
    assert(addpath@.take(i as int) =~= addpath@);
    config
}

/// A family whose routes the RIB can hold.
#[derive(Clone, Copy, Debug, PartialEq, Eq, Structural)]
pub enum RouteFamily {
    Ipv4Unicast,
    Ipv4Multicast,
    Ipv6Unicast,
    Ipv6Multicast,
}

/// A route, or the withdrawal of one: the destination as it stands on the
/// wire, and the attributes.
#[derive(Debug)]
pub struct RotondaRoute {
    pub family: RouteFamily,
    pub prefix: Vec<u8>,
    pub attributes: RotondaPaMap,
}

/// What a [`RotondaRoute`] holds.
pub ghost struct RouteView {
    pub family: RouteFamily,
    pub prefix: Seq<u8>,
    pub attributes: Seq<u8>,
}

impl View for RotondaRoute {
    type V = RouteView;

    open spec fn view(&self) -> RouteView {
        RouteView {
            family: self.family,
            prefix: self.prefix@,
            attributes: self.attributes@,
        }
    }
}

/// What some routes hold.
pub open spec fn route_views(routes: Seq<RotondaRoute>) -> Seq<RouteView> {
    routes.map_values(|route: RotondaRoute| route@)
}

/// The family of the route that a destination makes, if the RIB can hold it.
pub open spec fn route_family(reach: ReachView) -> Option<RouteFamily> {
    if reach.addpath {
        None
    } else if reach.family == (1u16, 1u8) {
        Some(RouteFamily::Ipv4Unicast)
    } else if reach.family == (1u16, 2u8) {
        Some(RouteFamily::Ipv4Multicast)
    } else if reach.family == (2u16, 1u8) {
        Some(RouteFamily::Ipv6Unicast)
    } else if reach.family == (2u16, 2u8) {
        Some(RouteFamily::Ipv6Multicast)
    } else {
        None
    }
}

/// A blob of path attributes: no RPKI status yet, the width of the AS
/// numbers, then the attributes.
pub open spec fn attribute_blob(attributes: Seq<u8>, four_octet_asns: bool) -> Seq<u8> {
    seq![0u8, if four_octet_asns { 1u8 } else { 0u8 }] + attributes
}

/// The routes that some destinations make, in order.
pub open spec fn routes_of(list: Seq<ReachView>, blob: Seq<u8>) -> Seq<RouteView>
    decreases list.len(),
{
    if list.len() == 0 {
        seq![]
    } else {
        let rest = routes_of(list.drop_last(), blob);
        match route_family(list.last()) {
            Some(family) => rest.push(
                RouteView { family, prefix: list.last().octets, attributes: blob },
            ),
            None => rest,
        }
    }
}

/// The families of the destinations that make no route, in order.
pub open spec fn dropped_of(list: Seq<ReachView>) -> Seq<(u16, u8)>
    decreases list.len(),
{
    if list.len() == 0 {
        seq![]
    } else {
        let rest = dropped_of(list.drop_last());
        match route_family(list.last()) {
            Some(_) => rest,
            None => rest.push(list.last().family),
        }
    }
}

/// Every destination makes a route or is told as dropped.
pub proof fn no_destination_is_lost(list: Seq<ReachView>, blob: Seq<u8>)
    ensures
        routes_of(list, blob).len() + dropped_of(list).len() == list.len(),
    decreases list.len(),
{
    if list.len() > 0 {
        no_destination_is_lost(list.drop_last(), blob);
    }
}

/// Every route has the attributes of the message.
pub proof fn routes_share_attributes(list: Seq<ReachView>, blob: Seq<u8>)
    ensures
        forall|i: int|
            0 <= i < routes_of(list, blob).len() ==> (#[trigger] routes_of(
                list,
                blob,
            )[i]).attributes == blob,
    decreases list.len(),
{
    if list.len() > 0 {
        routes_share_attributes(list.drop_last(), blob);
    }
}

/// The number that IANA assigned to the address family of a route.
pub open spec fn address_family_number(family: RouteFamily) -> u16 {
    if family is Ipv4Unicast || family is Ipv4Multicast {
        1
    } else {
        2
    }
}

/// The number that IANA assigned to the subsequent address family of a route.
pub open spec fn subsequent_family_number(family: RouteFamily) -> u8 {
    if family is Ipv4Unicast || family is Ipv6Unicast {
        1
    } else {
        2
    }
}

/// A destination makes a route of some family exactly if it has the numbers of
/// that family and no path identifier.
pub proof fn families_have_their_numbers(reach: ReachView, family: RouteFamily)
    ensures
        route_family(reach) == Some(family) <==> !reach.addpath && reach.family == (
            address_family_number(family),
            subsequent_family_number(family),
        ),
{
}

/// Whether a route is the one of a destination: it has the octets of the
/// destination, the numbers of its family are those of the destination's, and
/// there is no path identifier.
pub open spec fn is_route_of(route: RouteView, reach: ReachView) -> bool {
    &&& !reach.addpath
    &&& route.prefix == reach.octets
    &&& address_family_number(route.family) == reach.family.0
    &&& subsequent_family_number(route.family) == reach.family.1
}

/// Every route is that of a destination.
pub proof fn routes_are_their_destinations(list: Seq<ReachView>, blob: Seq<u8>, i: int) -> (k: int)
    requires
        0 <= i < routes_of(list, blob).len(),
    ensures
        0 <= k < list.len(),
        is_route_of(routes_of(list, blob)[i], list[k]),
    decreases list.len(),
{
    let rest = routes_of(list.drop_last(), blob);
    if i < rest.len() {
        routes_are_their_destinations(list.drop_last(), blob, i)
    } else {
        families_have_their_numbers(list.last(), routes_of(list, blob)[i].family);
        list.len() - 1
    }
}

/// Every destination of IPv4 or IPv6, unicast or multicast, without a path
/// identifier makes a route. Those in front of it make the routes in front.
pub proof fn destinations_make_their_routes(list: Seq<ReachView>, blob: Seq<u8>, k: int)
    requires
        0 <= k < list.len(),
        !list[k].addpath,
        1 <= list[k].family.0 <= 2,
        1 <= list[k].family.1 <= 2,
    ensures
        routes_of(list.take(k), blob).len() < routes_of(list, blob).len(),
        is_route_of(
            routes_of(list, blob)[routes_of(list.take(k), blob).len() as int],
            list[k],
        ),
    decreases list.len(),
{
    let fore = list.drop_last();
    if k < fore.len() {
        destinations_make_their_routes(fore, blob, k);
        assert(fore.take(k) =~= list.take(k));
    } else {
        assert(fore =~= list.take(k));
        families_have_their_numbers(list[k], RouteFamily::Ipv4Unicast);
        families_have_their_numbers(list[k], RouteFamily::Ipv4Multicast);
        families_have_their_numbers(list[k], RouteFamily::Ipv6Unicast);
        families_have_their_numbers(list[k], RouteFamily::Ipv6Multicast);
    }
}

/// A destination is told as dropped under its own family, and one of a family
/// that the RIB can hold only for its path identifier.
pub proof fn dropped_families_are_their_destinations(list: Seq<ReachView>, i: int) -> (k: int)
    requires
        0 <= i < dropped_of(list).len(),
    ensures
        0 <= k < list.len(),
        dropped_of(list)[i] == list[k].family,
        list[k].addpath || !(1 <= list[k].family.0 <= 2 && 1 <= list[k].family.1 <= 2),
    decreases list.len(),
{
    let rest = dropped_of(list.drop_last());
    if i < rest.len() {
        dropped_families_are_their_destinations(list.drop_last(), i)
    } else {
        list.len() - 1
    }
}

/// A blob holds the attributes behind two octets, of which the first is clear
/// and the second is set exactly for AS numbers of four octets.
pub proof fn blobs_hold_their_attributes(attributes: Seq<u8>, four_octet_asns: bool)
    ensures
        attribute_blob(attributes, four_octet_asns).len() == attributes.len() + 2,
        attribute_blob(attributes, four_octet_asns)[0] == 0,
        attribute_blob(attributes, four_octet_asns)[1] == 1 <==> four_octet_asns,
        attribute_blob(attributes, four_octet_asns)[1] == 0 <==> !four_octet_asns,
        attribute_blob(attributes, four_octet_asns).skip(2) == attributes,
{
    assert(attribute_blob(attributes, four_octet_asns).skip(2) =~= attributes);
}

/// A message that does not parse, or one of whose destinations does not, makes
/// no routes at all; any other makes as many as it has destinations that are not
/// dropped.
pub proof fn broken_messages_make_no_routes(parsed: Option<ParsedView>, four_octet_asns: bool)
    ensures
        exploded(parsed, four_octet_asns).routes is Err <==> parsed is None || parsed->0.broken,
        parsed is None ==> exploded(parsed, four_octet_asns).dropped.len() == 0,
        parsed is Some && !parsed->0.broken ==> exploded(parsed, four_octet_asns).routes->Ok_0.len()
            + exploded(parsed, four_octet_asns).dropped.len() == parsed->0.list.len(),
{
    if parsed is Some {
        no_destination_is_lost(
            parsed->0.list,
            attribute_blob(parsed->0.attributes, four_octet_asns),
        );
    }
}

/// Says that a message is no UPDATE message, or that one of its destinations
/// does not parse.
#[derive(Clone, Copy, Debug, PartialEq, Eq, Structural)]
pub struct ParseError;

/// The routes of a message, and the families of the destinations that make no
/// route.
#[derive(Debug)]
pub struct Exploded {
    pub routes: Result<Vec<RotondaRoute>, ParseError>,
    pub dropped: Vec<(u16, u8)>,
}

/// What an [`Exploded`] holds.
pub ghost struct ExplodedView {
    pub routes: Result<Seq<RouteView>, ParseError>,
    pub dropped: Seq<(u16, u8)>,
}

impl View for Exploded {
    type V = ExplodedView;

    open spec fn view(&self) -> ExplodedView {
        ExplodedView {
            routes: match self.routes {
                Ok(routes) => Ok(route_views(routes@)),
                Err(error) => Err(error),
            },
            dropped: self.dropped@,
        }
    }
}

/// The routes of a message that was read. One destination that does not parse
/// spoils them all; those before it count as dropped where they make no route.
pub open spec fn exploded(parsed: Option<ParsedView>, four_octet_asns: bool) -> ExplodedView {
    match parsed {
        Some(parsed) => ExplodedView {
            routes: if parsed.broken {
                Err(ParseError)
            } else {
                Ok(routes_of(parsed.list, attribute_blob(parsed.attributes, four_octet_asns)))
            },
            dropped: dropped_of(parsed.list),
        },
        None => ExplodedView { routes: Err(ParseError), dropped: seq![] },
    }
}

/// The family of the route that a destination makes, if the RIB can hold it.
pub fn family_of_route(reach: &Reach) -> (r: Option<RouteFamily>)
    ensures
        r == route_family(reach@),
        r is Some ==> !reach.addpath && reach.family == (
            address_family_number(r->0),
            subsequent_family_number(r->0),
        ),
        r is None ==> reach.addpath || !(1 <= reach.family.0 <= 2 && 1 <= reach.family.1 <= 2),
{
    if reach.addpath {
        return None;
    }
    match reach.family {
        (1, 1) => Some(RouteFamily::Ipv4Unicast),
        (1, 2) => Some(RouteFamily::Ipv4Multicast),
        (2, 1) => Some(RouteFamily::Ipv6Unicast),
        (2, 2) => Some(RouteFamily::Ipv6Multicast),
        _ => None,
    }
}

/// What a message that was read holds, if it was.
pub open spec fn parsed_view(parsed: Option<Parsed>) -> Option<ParsedView> {
    match parsed {
        Some(parsed) => Some(parsed@),
        None => None,
    }
}

/// The routes of a message that was read.
pub fn explode(parsed: Option<Parsed>, four_octet_asns: bool) -> (r: Exploded)
    ensures
        r@ == exploded(parsed_view(parsed), four_octet_asns),
{
    let parsed = match parsed {
        Some(parsed) => parsed,
        None => {
            let r = Exploded { routes: Err(ParseError), dropped: Vec::new() };
            assert(r.dropped@ =~= seq![]);
            return r;
        },
    };
    let ghost whole = parsed@;
    let Parsed { attributes, list, broken } = parsed;
    let mut blob: Vec<u8> = Vec::new();
    blob.push(0);
    blob.push(
        if four_octet_asns {
            1
        } else {
            0
        },
    );
    let mut attributes = attributes;
    blob.append(&mut attributes);
    let ghost octets = attribute_blob(whole.attributes, four_octet_asns);
    assert(blob@ =~= octets);
    let pamap = RotondaPaMap::from_raw(blob);
    let mut routes: Vec<RotondaRoute> = Vec::new();
    let mut dropped: Vec<(u16, u8)> = Vec::new();
    let ghost all = list@;
    assert(route_views(routes@) =~= seq![]);
    assert(dropped@ =~= seq![]);
    for reach in iter: list
        invariant
            iter.seq() == all,
            pamap@ == octets,
            route_views(routes@) == routes_of(reach_views(all.take(iter.index() as int)), octets),
            dropped@ == dropped_of(reach_views(all.take(iter.index() as int))),
    {
        let ghost before = routes@;
        proof {
            let upto = reach_views(all.take(iter.index() + 1));
            assert(upto.drop_last() =~= reach_views(all.take(iter.index() as int)));
            assert(upto.last() == reach@);
        }
        match family_of_route(&reach) {
            Some(family) => {
                routes.push(
                    RotondaRoute {
                        family,
                        prefix: reach.octets,
                        attributes: pamap.duplicate(),
                    },
                );
                assert(route_views(routes@) =~= route_views(before).push(
                    RouteView { family, prefix: reach@.octets, attributes: octets },
                ));
            },
            None => {
                dropped.push(reach.family);
            },
        }
    }
    assert(all.take(all.len() as int) =~= all);
    Exploded {
        routes: if broken {
            Err(ParseError)
        } else {
            Ok(routes)
        },
        dropped,
    }
}

/// What a message announces on a session. A message with a labelled
/// destination that is longer than an address can be is not read.
pub open spec fn announced(pdu: Seq<u8>, session: SessionView) -> Option<ParsedView> {
    if labels_fit(pdu, MP_REACH, session.addpath) {
        announced_in(pdu, session)
    } else {
        None
    }
}

/// What a message withdraws on a session. A message with a labelled
/// destination that is longer than an address can be is not read.
pub open spec fn withdrawn(pdu: Seq<u8>, session: SessionView) -> Option<ParsedView> {
    if labels_fit(pdu, MP_UNREACH, session.addpath) {
        withdrawn_in(pdu, session)
    } else {
        None
    }
}

/// The routes that a message announces, each with the attributes of the
/// message. The message came in on a session with or without AS numbers of four
/// octets and with path identifiers for some families.
pub fn explode_announcements(pdu: &[u8], four_octet_asns: bool, addpath: &[(u16, u8)]) -> (r:
    Exploded)
    ensures
        r@ == exploded(
            announced(pdu@, (SessionView { four_octet_asns, addpath: addpath@.to_set() })),
            four_octet_asns,
        ),
{
    let parsed = if check_labels(pdu, MP_REACH, addpath) {
        parse_announced(pdu, &config_for(four_octet_asns, addpath))
    } else {
        None
    };
    explode(parsed, four_octet_asns)
}

/// The routes that a message withdraws, without attributes.
pub fn explode_withdrawals(pdu: &[u8], four_octet_asns: bool, addpath: &[(u16, u8)]) -> (r:
    Exploded)
    ensures
        r@ == exploded(
            withdrawn(pdu@, (SessionView { four_octet_asns, addpath: addpath@.to_set() })),
            four_octet_asns,
        ),
        r@.routes is Ok ==> forall|i: int|
            0 <= i < r@.routes->Ok_0.len() ==> (#[trigger] r@.routes->Ok_0[i]).attributes
                == attribute_blob(Seq::empty(), four_octet_asns),
{
    let parsed = if check_labels(pdu, MP_UNREACH, addpath) {
        parse_withdrawn(pdu, &config_for(four_octet_asns, addpath))
    } else {
        None
    };
    proof {
        if parsed is Some {
            assert(parsed->0.attributes@ =~= Seq::<u8>::empty());
            routes_share_attributes(
                parsed->0@.list,
                attribute_blob(Seq::empty(), four_octet_asns),
            );
        }
    }
    explode(parsed, four_octet_asns)
}

} // verus!
