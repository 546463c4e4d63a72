//! The decision process: how two routes for one prefix compare, and at which
//! step.

use crate::addr::{address_order, IpAddr};
use crate::best_path::attributes::{
    as_path_in, attributes, cluster_list_in, get_as_path, get_cluster_list, get_local_pref, get_med,
    get_origin, get_originator_id, hop_views, local_pref_in, med_in, origin_in, originator_id_in,
    AttributeValue, HopView, PathHop, AS_PATH, AS_SET, ORIGIN,
};
use crate::order::{
    bytes_order, bytes_order_equal, bytes_order_opposite, bytes_order_transitive, compare_bytes,
    compare_u64, int_order, opposite, Order,
};
use crate::text::{contains, join3, occurs_at, occurs_in, same};
use inetnum::asn::Asn;
use routecore::bgp::path_attributes::{BgpIdentifier, PaMap};
use routecore::bgp::path_selection::{OrdRoute, RouteSource as OrdRouteSource, TiebreakerInfo};
use vstd::prelude::*;
use vstd::string::StrSliceExecFns;

verus! {

/// Whether step c of the decision process, MULTI_EXIT_DISC, counts.
#[derive(Clone, Copy, Debug, PartialEq, Eq, Structural)]
pub enum Strategy {
    Rfc4271,
    /// Leaves step c out.
    SkipMed,
}

impl Default for Strategy {
    fn default() -> (r: Strategy)
        ensures
            r == Strategy::Rfc4271,
    {
        Strategy::Rfc4271
    }
}

impl Strategy {
    pub open spec fn name(self) -> Seq<char> {
        match self {
            Strategy::Rfc4271 => "rfc4271"@,
            Strategy::SkipMed => "skipMed"@,
        }
    }

    pub fn as_str(self) -> (r: &'static str)
        ensures
            r@ == self.name(),
    {
        match self {
            Strategy::Rfc4271 => "rfc4271",
            Strategy::SkipMed => "skipMed",
        }
    }

    /// Reads a strategy from a query. `skipmed` is accepted beside the names
    /// that [`Strategy::as_str`] gives.
    pub fn parse(s: &str) -> (r: Result<Strategy, String>)
        ensures
            s@ == "rfc4271"@ ==> r == Ok::<Strategy, String>(Strategy::Rfc4271),
            s@ != "rfc4271"@ && (s@ == "skipMed"@ || s@ == "skipmed"@) ==> r == Ok::<
                Strategy,
                String,
            >(Strategy::SkipMed),
            s@ != "rfc4271"@ && s@ != "skipMed"@ && s@ != "skipmed"@ ==> r is Err && r->Err_0@
                == "unknown strategy '"@ + s@ + "', expected rfc4271 or skipMed"@,
    {
        if same(s, "rfc4271") {
            Ok(Strategy::Rfc4271)
        } else if same(s, "skipMed") || same(s, "skipmed") {
            Ok(Strategy::SkipMed)
        } else {
            Err(join3("unknown strategy '", s, "', expected rfc4271 or skipMed"))
        }
    }
}

/// The step at which two routes stopped being equal.
#[derive(Clone, Copy, Debug, PartialEq, Eq, Structural)]
pub enum DecisionStep {
    /// Phase 1, LOCAL_PREF for internal routes.
    DegreeOfPreference,
    /// Step a: fewest AS numbers in AS_PATH.
    AsPathLength,
    /// Step b: lowest ORIGIN.
    Origin,
    /// Step c: lowest MULTI_EXIT_DISC, within one neighbour AS.
    Med,
    /// Step d: external routes before internal ones.
    PeerType,
    /// Step e: lowest interior cost. It never decides: there is no interior
    /// routing to take a cost from.
    InteriorCost,
    /// Step f: lowest BGP Identifier, or ORIGINATOR_ID when present.
    BgpIdentifier,
    /// Between steps f and g: shortest CLUSTER_LIST.
    ClusterListLength,
    /// Step g: lowest peer address.
    PeerAddress,
    /// Every step compared equal.
    Tie,
}

impl DecisionStep {
    pub open spec fn name(self) -> Seq<char> {
        match self {
            DecisionStep::DegreeOfPreference => "degreeOfPreference"@,
            DecisionStep::AsPathLength => "asPathLength"@,
            DecisionStep::Origin => "origin"@,
            DecisionStep::Med => "med"@,
            DecisionStep::PeerType => "peerType"@,
            DecisionStep::InteriorCost => "interiorCost"@,
            DecisionStep::BgpIdentifier => "bgpIdentifier"@,
            DecisionStep::ClusterListLength => "clusterListLength"@,
            DecisionStep::PeerAddress => "peerAddress"@,
            DecisionStep::Tie => "tie"@,
        }
    }

    pub fn as_str(self) -> (r: &'static str)
        ensures
            r@ == self.name(),
    {
        match self {
            DecisionStep::DegreeOfPreference => "degreeOfPreference",
            DecisionStep::AsPathLength => "asPathLength",
            DecisionStep::Origin => "origin",
            DecisionStep::Med => "med",
            DecisionStep::PeerType => "peerType",
            DecisionStep::InteriorCost => "interiorCost",
            DecisionStep::BgpIdentifier => "bgpIdentifier",
            DecisionStep::ClusterListLength => "clusterListLength",
            DecisionStep::PeerAddress => "peerAddress",
            DecisionStep::Tie => "tie",
        }
    }
}

/// Why a stored record was not a candidate for selection.
#[derive(Clone, Copy, Debug, PartialEq, Eq, Structural)]
pub enum IneligibleReason {
    /// The record's session is not in the ingress register.
    UnknownIngress,
    /// The session has no remote address on record.
    UnknownPeerAddress,
    /// The path attributes would not parse.
    MalformedPathAttributes,
    /// Mandatory ORIGIN missing.
    MissingOrigin,
    /// Mandatory AS_PATH missing.
    MissingAsPath,
    /// An external route whose AS_PATH has no neighbour.
    EbgpWithoutNeighbour,
    /// The AS_PATH contains the local AS.
    AsPathLoop,
}

impl IneligibleReason {
    pub open spec fn name(self) -> Seq<char> {
        match self {
            IneligibleReason::UnknownIngress => "unknownIngress"@,
            IneligibleReason::UnknownPeerAddress => "unknownPeerAddress"@,
            IneligibleReason::MalformedPathAttributes => "malformedPathAttributes"@,
            IneligibleReason::MissingOrigin => "missingOrigin"@,
            IneligibleReason::MissingAsPath => "missingAsPath"@,
            IneligibleReason::EbgpWithoutNeighbour => "ebgpWithoutNeighbour"@,
            IneligibleReason::AsPathLoop => "asPathLoop"@,
        }
    }

    pub fn as_str(self) -> (r: &'static str)
        ensures
            r@ == self.name(),
    {
        match self {
            IneligibleReason::UnknownIngress => "unknownIngress",
            IneligibleReason::UnknownPeerAddress => "unknownPeerAddress",
            IneligibleReason::MalformedPathAttributes => "malformedPathAttributes",
            IneligibleReason::MissingOrigin => "missingOrigin",
            IneligibleReason::MissingAsPath => "missingAsPath",
            IneligibleReason::EbgpWithoutNeighbour => "ebgpWithoutNeighbour",
            IneligibleReason::AsPathLoop => "asPathLoop",
        }
    }
}

/// A tiebreaker input that had to be guessed because the register did not
/// hold it.
#[derive(Clone, Copy, Debug, PartialEq, Eq, Structural)]
pub enum Assumed {
    /// One of the session's AS numbers is missing; the route was treated as
    /// external.
    RouteSource,
    /// The peer's BGP Identifier is missing; the highest one was used, which
    /// loses step f rather than winning it.
    BgpIdentifier,
}

impl Assumed {
    pub open spec fn name(self) -> Seq<char> {
        match self {
            Assumed::RouteSource => "routeSource"@,
            Assumed::BgpIdentifier => "bgpIdentifier"@,
        }
    }

    pub fn as_str(self) -> (r: &'static str)
        ensures
            r@ == self.name(),
    {
        match self {
            Assumed::RouteSource => "routeSource",
            Assumed::BgpIdentifier => "bgpIdentifier",
        }
    }
}

/// Whether a route was learned from another AS or from one's own.
#[derive(Clone, Copy, Debug, PartialEq, Eq, Structural)]
pub enum PeerType {
    Ebgp,
    Ibgp,
}

/// What the decision process reads of a route.
pub struct Contender {
    pub pa_map: PaMap,
    pub route_source: PeerType,
    pub local_asn: u32,
    pub bgp_identifier: [u8; 4],
    pub peer_addr: IpAddr,
}

/// What a [`Contender`] holds.
pub ghost struct ContenderView {
    pub held: Map<u8, AttributeValue>,
    pub route_source: PeerType,
    pub local_asn: u32,
    pub bgp_identifier: Seq<u8>,
    pub peer_addr: IpAddr,
}

impl View for Contender {
    type V = ContenderView;

    open spec fn view(&self) -> ContenderView {
        ContenderView {
            held: attributes(self.pa_map),
            route_source: self.route_source,
            local_asn: self.local_asn,
            bgp_identifier: self.bgp_identifier@,
            peer_addr: self.peer_addr,
        }
    }
}

/// Length of an AS_PATH: every member of an AS_SEQUENCE and every AS_SET
/// counts as one, confederation segments count as nothing.
pub open spec fn hop_count(hops: Seq<HopView>) -> nat
    decreases hops.len(),
{
    if hops.len() == 0 {
        0
    } else {
        let rest = hop_count(hops.drop_last());
        match hops.last() {
            HopView::Asn(_) => rest + 1,
            HopView::Segment(kind, _) => if kind == AS_SET {
                rest + 1
            } else {
                rest
            },
        }
    }
}

/// The neighbour that an AS_PATH names: its first hop, unless that is a
/// segment.
pub open spec fn path_neighbor(hops: Seq<HopView>) -> Option<u32> {
    if hops.len() > 0 {
        match hops[0] {
            HopView::Asn(asn) => Some(asn),
            _ => None,
        }
    } else {
        None
    }
}

/// Whether an AS number occurs in an AS_PATH, in a segment of whatever kind.
pub open spec fn path_contains(hops: Seq<HopView>, asn: u32) -> bool {
    exists|i: int| 0 <= i < hops.len() && hop_contains(#[trigger] hops[i], asn)
}

/// Whether an AS number is a hop or a member of it.
pub open spec fn hop_contains(hop: HopView, asn: u32) -> bool {
    match hop {
        HopView::Asn(a) => a == asn,
        HopView::Segment(_, asns) => asns.contains(asn),
    }
}

impl ContenderView {
    /// LOCAL_PREF of an internal route; nothing, that is zero, for others.
    pub open spec fn degree_of_preference(self) -> int {
        if self.route_source == PeerType::Ibgp {
            match local_pref_in(self.held) {
                Some(preference) => preference as int,
                None => 0,
            }
        } else {
            0
        }
    }

    /// The neighbour AS within which MULTI_EXIT_DISC is comparable. A path
    /// that names none has the local AS for a neighbour.
    pub open spec fn neighbor_asn(self) -> u32 {
        match as_path_in(self.held) {
            Some(hops) => match path_neighbor(hops) {
                Some(asn) => asn,
                None => self.local_asn,
            },
            None => self.local_asn,
        }
    }

    /// MULTI_EXIT_DISC, zero if there is none.
    pub open spec fn med(self) -> int {
        match med_in(self.held) {
            Some(med) => med as int,
            None => 0,
        }
    }

    /// ORIGINATOR_ID if the route has one, else the peer's identifier.
    pub open spec fn effective_bgp_id(self) -> Seq<u8> {
        match originator_id_in(self.held) {
            Some(octets) => octets,
            None => self.bgp_identifier,
        }
    }

    /// Number of identifiers in CLUSTER_LIST.
    pub open spec fn cluster_list_len(self) -> int {
        match cluster_list_in(self.held) {
            Some(len) => len as int,
            None => 0,
        }
    }

    /// Whether the route carries the mandatory attributes, and names a
    /// neighbour if it is external.
    pub open spec fn ineligible(self) -> Option<IneligibleReason> {
        if !self.held.contains_key(ORIGIN) {
            Some(IneligibleReason::MissingOrigin)
        } else if !self.held.contains_key(AS_PATH) {
            Some(IneligibleReason::MissingAsPath)
        } else if self.route_source == PeerType::Ebgp && (as_path_in(self.held) is None
            || path_neighbor(as_path_in(self.held)->0) is None) {
            Some(IneligibleReason::EbgpWithoutNeighbour)
        } else {
            None
        }
    }
}

/// Step a. Paths that cannot be read compare as equal.
pub open spec fn as_path_order(a: ContenderView, b: ContenderView) -> Order {
    match (as_path_in(a.held), as_path_in(b.held)) {
        (Some(x), Some(y)) => int_order(hop_count(x) as int, hop_count(y) as int),
        _ => Order::Equal,
    }
}

/// Step b. Origins that cannot be read compare as equal.
pub open spec fn origin_order(a: ContenderView, b: ContenderView) -> Order {
    match (origin_in(a.held), origin_in(b.held)) {
        (Some(x), Some(y)) => int_order(x as int, y as int),
        _ => Order::Equal,
    }
}

/// Step c.
pub open spec fn med_order(a: ContenderView, b: ContenderView, strategy: Strategy) -> Order {
    if strategy == Strategy::Rfc4271 && a.neighbor_asn() == b.neighbor_asn() {
        int_order(a.med(), b.med())
    } else {
        Order::Equal
    }
}

/// Step d.
pub open spec fn peer_type_order(a: ContenderView, b: ContenderView) -> Order {
    match (a.route_source, b.route_source) {
        (PeerType::Ebgp, PeerType::Ibgp) => Order::Less,
        (PeerType::Ibgp, PeerType::Ebgp) => Order::Greater,
        _ => Order::Equal,
    }
}

/// How two routes compare, the preferred one being less, and the step that
/// says so: the first one that does not call them equal.
#[verifier::opaque]
pub open spec fn decision(a: ContenderView, b: ContenderView, strategy: Strategy) -> (
    Order,
    DecisionStep,
) {
    let preference = int_order(b.degree_of_preference(), a.degree_of_preference());
    let id = bytes_order(a.effective_bgp_id(), b.effective_bgp_id());
    let clusters = int_order(a.cluster_list_len(), b.cluster_list_len());
    let address = address_order(a.peer_addr, b.peer_addr);
    if preference != Order::Equal {
        (preference, DecisionStep::DegreeOfPreference)
    } else if as_path_order(a, b) != Order::Equal {
        (as_path_order(a, b), DecisionStep::AsPathLength)
    } else if origin_order(a, b) != Order::Equal {
        (origin_order(a, b), DecisionStep::Origin)
    } else if med_order(a, b, strategy) != Order::Equal {
        (med_order(a, b, strategy), DecisionStep::Med)
    } else if peer_type_order(a, b) != Order::Equal {
        (peer_type_order(a, b), DecisionStep::PeerType)
    } else if id != Order::Equal {
        (id, DecisionStep::BgpIdentifier)
    } else if clusters != Order::Equal {
        (clusters, DecisionStep::ClusterListLength)
    } else if address != Order::Equal {
        (address, DecisionStep::PeerAddress)
    } else {
        (Order::Equal, DecisionStep::Tie)
    }
}

/// The text of the error with which a route that is not eligible is refused.
pub open spec fn refusal(reason: IneligibleReason) -> Seq<char> {
    match reason {
        IneligibleReason::MissingOrigin => "missing mandatory ORIGIN"@,
        IneligibleReason::MissingAsPath => "missing mandatory AS_PATH"@,
        _ => "expected non-empty AS_PATH"@,
    }
}

/// `OrdRoute::rfc4271` accepts a route that carries ORIGIN and AS_PATH and, if
/// it is external, names a neighbour; for others the text of its error says
/// which of these fails first.
#[verifier::external_body]
fn ord_route_accepts(a: &Contender) -> (r: Result<(), String>)
    ensures
        r is Ok <==> a@.ineligible() is None,
        r is Err ==> r->Err_0@ == refusal(a@.ineligible()->0),
{
    let source = match a.route_source {
        PeerType::Ebgp => OrdRouteSource::Ebgp,
        PeerType::Ibgp => OrdRouteSource::Ibgp,
    };
    let address = match a.peer_addr {
        IpAddr::V4(bits) => bits.to_be_bytes().into(),
        IpAddr::V6(bits) => bits.to_be_bytes().into(),
    };
    let id = BgpIdentifier::from(a.bgp_identifier);
    let tie = TiebreakerInfo::new(source, None, Asn::from_u32(a.local_asn), id, address);
    OrdRoute::rfc4271(&a.pa_map, tie).map(|_| ()).map_err(|e| e.to_string())
}

/// Whether the order of two routes is defined: unless their degrees of
/// preference differ, both AS_PATHs must be readable.
pub open spec fn comparable(a: ContenderView, b: ContenderView) -> bool {
    a.degree_of_preference() != b.degree_of_preference() || (as_path_in(a.held) is Some
        && as_path_in(b.held) is Some)
}

/// The order of two eligible routes by `OrdRoute::rfc4271`: it goes through
/// the steps of the decision process and stops at the first that tells the
/// routes apart. Nothing comes back if one of them is not eligible.
#[verifier::external_body]
fn ord_route_rfc4271(a: &Contender, b: &Contender) -> (r: Option<Order>)
    requires
        comparable(a@, b@),
    ensures
        r == (if a@.ineligible() is None && b@.ineligible() is None {
            Some(decision(a@, b@, Strategy::Rfc4271).0)
        } else {
            None
        }),
{
    let tie = |c: &Contender| {
        let source = match c.route_source {
            PeerType::Ebgp => OrdRouteSource::Ebgp,
            PeerType::Ibgp => OrdRouteSource::Ibgp,
        };
        let address = match c.peer_addr { IpAddr::V4(x) => x.to_be_bytes().into(), IpAddr::V6(x) => x.to_be_bytes().into() };
        TiebreakerInfo::new(source, None, Asn::from_u32(c.local_asn), c.bgp_identifier.into(), address)
    };
    let y = OrdRoute::rfc4271(&b.pa_map, tie(b)).ok()?;
    Some(match OrdRoute::rfc4271(&a.pa_map, tie(a)).ok()?.cmp(&y) {
        core::cmp::Ordering::Less => Order::Less,
        core::cmp::Ordering::Equal => Order::Equal,
        core::cmp::Ordering::Greater => Order::Greater,
    })
}

/// The order of two eligible routes by `OrdRoute::skip_med`: as
/// `OrdRoute::rfc4271` has it, but for step c. Nothing comes back if one of
/// them is not eligible.
#[verifier::external_body]
fn ord_route_skip_med(a: &Contender, b: &Contender) -> (r: Option<Order>)
    requires
        comparable(a@, b@),
    ensures
        r == (if a@.ineligible() is None && b@.ineligible() is None {
            Some(decision(a@, b@, Strategy::SkipMed).0)
        } else {
            None
        }),
{
    let tie = |c: &Contender| {
        let source = match c.route_source {
            PeerType::Ebgp => OrdRouteSource::Ebgp,
            PeerType::Ibgp => OrdRouteSource::Ibgp,
        };
        let address = match c.peer_addr { IpAddr::V4(x) => x.to_be_bytes().into(), IpAddr::V6(x) => x.to_be_bytes().into() };
        TiebreakerInfo::new(source, None, Asn::from_u32(c.local_asn), c.bgp_identifier.into(), address)
    };
    let y = OrdRoute::skip_med(&b.pa_map, tie(b)).ok()?;
    Some(match OrdRoute::skip_med(&a.pa_map, tie(a)).ok()?.cmp(&y) {
        core::cmp::Ordering::Less => Order::Less,
        core::cmp::Ordering::Equal => Order::Equal,
        core::cmp::Ordering::Greater => Order::Greater,
    })
}

/// The reason that the text of a refusal gives. Only the text tells the
/// reasons apart.
pub open spec fn reason_in(text: Seq<char>) -> IneligibleReason {
    if occurs_in(text, "ORIGIN"@) {
        IneligibleReason::MissingOrigin
    } else if occurs_in(text, "missing mandatory AS_PATH"@) {
        IneligibleReason::MissingAsPath
    } else {
        IneligibleReason::EbgpWithoutNeighbour
    }
}

/// The texts of the refusals give the reasons that they were made from.
pub proof fn refusals_are_told_apart(reason: IneligibleReason)
    requires
        reason == IneligibleReason::MissingOrigin || reason == IneligibleReason::MissingAsPath
            || reason == IneligibleReason::EbgpWithoutNeighbour,
    ensures
        reason_in(refusal(reason)) == reason,
{
    reveal_strlit("ORIGIN");
    reveal_strlit("missing mandatory AS_PATH");
    reveal_strlit("missing mandatory ORIGIN");
    reveal_strlit("expected non-empty AS_PATH");
    let origin = "missing mandatory ORIGIN"@;
    let path = "missing mandatory AS_PATH"@;
    let empty = "expected non-empty AS_PATH"@;
    assert(origin.subrange(18, 24) =~= "ORIGIN"@);
    assert(occurs_at(origin, "ORIGIN"@, 18));
    assert(path.subrange(0, path.len() as int) =~= path);
    assert(occurs_at(path, path, 0));
    assert forall|at: int| !occurs_at(path, "ORIGIN"@, at) by {
        if 0 <= at && at + 6 <= path.len() {
            assert(path.subrange(at, at + 6)[0] == path[at]);
            assert("ORIGIN"@[0] == 'O');
            no_capital_o(at);
        }
    }
    assert forall|at: int| !occurs_at(empty, "ORIGIN"@, at) by {
        if 0 <= at && at + 6 <= empty.len() {
            assert(empty.subrange(at, at + 6)[0] == empty[at]);
            assert("ORIGIN"@[0] == 'O');
            no_capital_o(at);
        }
    }
    assert forall|at: int| !occurs_at(empty, path, at) by {
        if at == 0 || at == 1 {
            assert(empty.subrange(at, at + 25)[0] == empty[at]);
            assert(path[0] == 'm');
            assert(empty[0] == 'e');
            assert(empty[1] == 'x');
        }
    }
}

proof fn no_capital_o(at: int)
    ensures
        0 <= at < 20 ==> "missing mandatory AS_PATH"@[at] != 'O',
        0 <= at < 21 ==> "expected non-empty AS_PATH"@[at] != 'O',
{
    reveal_strlit("missing mandatory AS_PATH");
    reveal_strlit("expected non-empty AS_PATH");
    let path = "missing mandatory AS_PATH"@;
    let empty = "expected non-empty AS_PATH"@;
    if 0 <= at < 7 {
        assert(path[0] != 'O' && path[1] != 'O' && path[2] != 'O' && path[3] != 'O' && path[4]
            != 'O' && path[5] != 'O' && path[6] != 'O');
        assert(empty[0] != 'O' && empty[1] != 'O' && empty[2] != 'O' && empty[3] != 'O' && empty[4]
            != 'O' && empty[5] != 'O' && empty[6] != 'O');
    } else if 7 <= at < 14 {
        assert(path[7] != 'O' && path[8] != 'O' && path[9] != 'O' && path[10] != 'O' && path[11]
            != 'O' && path[12] != 'O' && path[13] != 'O');
        assert(empty[7] != 'O' && empty[8] != 'O' && empty[9] != 'O' && empty[10] != 'O'
            && empty[11] != 'O' && empty[12] != 'O' && empty[13] != 'O');
    } else if 14 <= at < 21 {
        assert(path[14] != 'O' && path[15] != 'O' && path[16] != 'O' && path[17] != 'O' && path[18]
            != 'O' && path[19] != 'O');
        assert(empty[14] != 'O' && empty[15] != 'O' && empty[16] != 'O' && empty[17] != 'O'
            && empty[18] != 'O' && empty[19] != 'O' && empty[20] != 'O');
    }
}

/// Reads the reason out of the text of a refusal.
pub fn ineligible_reason(text: &str) -> (r: IneligibleReason)
    ensures
        r == reason_in(text@),
{
    if contains(text, "ORIGIN") {
        IneligibleReason::MissingOrigin
    } else if contains(text, "missing mandatory AS_PATH") {
        IneligibleReason::MissingAsPath
    } else {
        IneligibleReason::EbgpWithoutNeighbour
    }
}

/// Whether a route may enter the decision process.
pub fn check_eligible(a: &Contender) -> (r: Result<(), IneligibleReason>)
    ensures
        r == (match a@.ineligible() {
            Some(reason) => Err::<(), IneligibleReason>(reason),
            None => Ok::<(), IneligibleReason>(()),
        }),
{
    match ord_route_accepts(a) {
        Ok(()) => Ok(()),
        Err(text) => {
            proof {
                refusals_are_told_apart(a@.ineligible()->0);
            }
            Err(ineligible_reason(&text))
        },
    }
}

/// Orders two routes, the preferred one being less.
pub fn compare(a: &Contender, b: &Contender, strategy: Strategy) -> (r: Result<
    Order,
    IneligibleReason,
>)
    requires
        comparable(a@, b@),
    ensures
        r == (match (a@.ineligible(), b@.ineligible()) {
            (Some(reason), _) => Err::<Order, IneligibleReason>(reason),
            (None, Some(reason)) => Err::<Order, IneligibleReason>(reason),
            (None, None) => Ok::<Order, IneligibleReason>(decision(a@, b@, strategy).0),
        }),
{
    let order = match strategy {
        Strategy::Rfc4271 => ord_route_rfc4271(a, b),
        Strategy::SkipMed => ord_route_skip_med(a, b),
    };
    match order {
        Some(order) => Ok(order),
        None => match check_eligible(a) {
            Err(reason) => Err(reason),
            Ok(()) => match check_eligible(b) {
                Err(reason) => Err(reason),
                Ok(()) => Ok(Order::Equal),
            },
        },
    }
}

/// Length of an AS_PATH as step a has it.
fn hop_count_path_selection(hops: &[PathHop]) -> (r: usize)
    ensures
        r == hop_count(hop_views(hops@)),
{
    let mut count: usize = 0;
    let mut i: usize = 0;
    while i < hops.len()
        invariant
            i <= hops.len(),
            count <= i,
            count == hop_count(hop_views(hops@).take(i as int)),
        decreases hops.len() - i,
    {
        proof {
            let upto = hop_views(hops@).take(i + 1);
            assert(upto.drop_last() =~= hop_views(hops@).take(i as int));
            assert(upto.last() == hops@[i as int]@);
        }
        match &hops[i] {
            PathHop::Asn(_) => {
                count += 1;
            },
            PathHop::Segment(kind, _) => {
                if *kind == AS_SET {
                    count += 1;
                }
            },
        }
        i += 1;
    }
    assert(hop_views(hops@).take(i as int) =~= hop_views(hops@));
    count
}

/// The neighbour that an AS_PATH names.
fn neighbor_path_selection(hops: &[PathHop]) -> (r: Option<u32>)
    ensures
        r == path_neighbor(hop_views(hops@)),
{
    if hops.len() == 0 {
        return None;
    }
    match &hops[0] {
        PathHop::Asn(asn) => Some(*asn),
        PathHop::Segment(_, _) => None,
    }
}

/// Whether `asn` occurs anywhere in the AS_PATH: members of sets and of
/// confederation segments count, not just bare hops.
pub fn as_path_contains(hops: &[PathHop], asn: u32) -> (r: bool)
    ensures
        r == path_contains(hop_views(hops@), asn),
{
    let ghost views = hop_views(hops@);
    let mut i: usize = 0;
    while i < hops.len()
        invariant
            i <= hops.len(),
            views == hop_views(hops@),
            forall|k: int| 0 <= k < i ==> !hop_contains(#[trigger] views[k], asn),
        decreases hops.len() - i,
    {
        assert(views[i as int] == hops@[i as int]@);
        match &hops[i] {
            PathHop::Asn(a) => {
                if *a == asn {
                    return true;
                }
            },
            PathHop::Segment(_, asns) => {
                let mut k: usize = 0;
                while k < asns.len()
                    invariant
                        i < hops.len(),
                        views == hop_views(hops@),
                        views[i as int] matches HopView::Segment(_, members) && members == asns@,
                        k <= asns.len(),
                        forall|m: int| 0 <= m < k ==> asns@[m] != asn,
                    decreases asns.len() - k,
                {
                    if asns[k] == asn {
                        assert(asns@.contains(asn));
                        assert(hop_contains(views[i as int], asn));
                        return true;
                    }
                    k += 1;
                }
            },
        }
        i += 1;
    }
    false
}

impl Contender {
    /// Phase 1 degree of preference.
    fn degree_of_preference(&self) -> (r: u32)
        ensures
            r == self@.degree_of_preference(),
    {
        if self.route_source == PeerType::Ibgp {
            match get_local_pref(&self.pa_map) {
                Some(preference) => preference,
                None => 0,
            }
        } else {
            0
        }
    }

    /// The neighbour AS used for step c.
    fn neighbor_asn(&self) -> (r: u32)
        ensures
            r == self@.neighbor_asn(),
    {
        match get_as_path(&self.pa_map) {
            Some(hops) => match neighbor_path_selection(&hops) {
                Some(asn) => asn,
                None => self.local_asn,
            },
            None => self.local_asn,
        }
    }

    /// MULTI_EXIT_DISC as step c has it.
    fn med(&self) -> (r: u32)
        ensures
            r == self@.med(),
    {
        match get_med(&self.pa_map) {
            Some(med) => med,
            None => 0,
        }
    }

    /// The identifier used for step f.
    fn effective_bgp_id(&self) -> (r: [u8; 4])
        ensures
            r@ == self@.effective_bgp_id(),
    {
        match get_originator_id(&self.pa_map) {
            Some(octets) => octets,
            None => self.bgp_identifier,
        }
    }

    fn cluster_list_len(&self) -> (r: usize)
        ensures
            r == self@.cluster_list_len(),
    {
        match get_cluster_list(&self.pa_map) {
            Some(len) => len,
            None => 0,
        }
    }

    fn hop_count(&self) -> (r: Option<usize>)
        ensures
            r is Some <==> as_path_in(self@.held) is Some,
            r is Some ==> r->0 == hop_count(as_path_in(self@.held)->0),
    {
        match get_as_path(&self.pa_map) {
            Some(hops) => Some(hop_count_path_selection(&hops)),
            None => None,
        }
    }
}

/// Compares two routes and names the step that separated them.
pub fn decisive_step(a: &Contender, b: &Contender, strategy: Strategy) -> (r: (Order, DecisionStep))
    ensures
        r == decision(a@, b@, strategy),
{
    proof {
        reveal(decision);
    }
    let order = compare_u64(b.degree_of_preference() as u64, a.degree_of_preference() as u64);
    if order != Order::Equal {
        return (order, DecisionStep::DegreeOfPreference);
    }
    let order = match (a.hop_count(), b.hop_count()) {
        (Some(x), Some(y)) => compare_u64(x as u64, y as u64),
        _ => Order::Equal,
    };
    if order != Order::Equal {
        return (order, DecisionStep::AsPathLength);
    }
    let order = match (get_origin(&a.pa_map), get_origin(&b.pa_map)) {
        (Some(x), Some(y)) => compare_u64(x as u64, y as u64),
        _ => Order::Equal,
    };
    if order != Order::Equal {
        return (order, DecisionStep::Origin);
    }
    if strategy == Strategy::Rfc4271 && a.neighbor_asn() == b.neighbor_asn() {
        let order = compare_u64(a.med() as u64, b.med() as u64);
        if order != Order::Equal {
            return (order, DecisionStep::Med);
        }
    }
    let order = match (a.route_source, b.route_source) {
        (PeerType::Ebgp, PeerType::Ibgp) => Order::Less,
        (PeerType::Ibgp, PeerType::Ebgp) => Order::Greater,
        _ => Order::Equal,
    };
    if order != Order::Equal {
        return (order, DecisionStep::PeerType);
    }
    let a_id = a.effective_bgp_id();
    let b_id = b.effective_bgp_id();
    let order = compare_bytes(a_id.as_slice(), b_id.as_slice());
    if order != Order::Equal {
        return (order, DecisionStep::BgpIdentifier);
    }
    let order = compare_u64(a.cluster_list_len() as u64, b.cluster_list_len() as u64);
    if order != Order::Equal {
        return (order, DecisionStep::ClusterListLength);
    }
    let order = a.peer_addr.compare(b.peer_addr);
    if order != Order::Equal {
        return (order, DecisionStep::PeerAddress);
    }
    (Order::Equal, DecisionStep::Tie)
}

/// A tie is named exactly where the routes compare as equal.
pub proof fn tie_is_equality(a: ContenderView, b: ContenderView, strategy: Strategy)
    ensures
        decision(a, b, strategy).1 == DecisionStep::Tie <==> decision(a, b, strategy).0
            == Order::Equal,
{
    reveal(decision);
}

/// Step e never decides, and step c decides only where MULTI_EXIT_DISC counts
/// and both routes have the same neighbour.
pub proof fn steps_that_do_not_decide(a: ContenderView, b: ContenderView, strategy: Strategy)
    ensures
        decision(a, b, strategy).1 != DecisionStep::InteriorCost,
        decision(a, b, strategy).1 == DecisionStep::Med ==> strategy == Strategy::Rfc4271
            && a.neighbor_asn() == b.neighbor_asn(),
{
    reveal(decision);
}

/// Swapping two routes turns their order round and leaves the deciding step
/// as it is.
pub proof fn decision_is_antisymmetric(a: ContenderView, b: ContenderView, strategy: Strategy)
    ensures
        decision(b, a, strategy).0 == opposite(decision(a, b, strategy).0),
        decision(b, a, strategy).1 == decision(a, b, strategy).1,
{
    reveal(decision);
    bytes_order_opposite(a.effective_bgp_id(), b.effective_bgp_id());
}

/// Whether ORIGIN and AS_PATH of a route can be read.
pub open spec fn readable(a: ContenderView) -> bool {
    as_path_in(a.held) is Some && origin_in(a.held) is Some
}

/// The order is transitive over routes whose mandatory attributes can be read,
/// as long as step c compares all of them or none: that is if MULTI_EXIT_DISC
/// is left out, or if they share a neighbour AS.
pub proof fn decision_is_transitive(
    a: ContenderView,
    b: ContenderView,
    c: ContenderView,
    strategy: Strategy,
)
    requires
        readable(a),
        readable(b),
        readable(c),
        strategy == Strategy::SkipMed || (a.neighbor_asn() == b.neighbor_asn() && b.neighbor_asn()
            == c.neighbor_asn()),
        decision(a, b, strategy).0 != Order::Greater,
        decision(b, c, strategy).0 != Order::Greater,
    ensures
        decision(a, c, strategy).0 != Order::Greater,
        decision(a, c, strategy).0 == Order::Equal ==> decision(a, b, strategy).0 == Order::Equal
            && decision(b, c, strategy).0 == Order::Equal,
{
    reveal(decision);
    let x = a.effective_bgp_id();
    let y = b.effective_bgp_id();
    let z = c.effective_bgp_id();
    bytes_order_equal(x, y);
    bytes_order_equal(y, z);
    bytes_order_equal(x, z);
    if bytes_order(x, y) != Order::Greater && bytes_order(y, z) != Order::Greater {
        bytes_order_transitive(x, y, z);
    }
}

/// The steps in the order in which they are taken. What is lower in an earlier
/// step is preferred, but for the degree of preference, of which more is
/// better; a later step counts only if all earlier ones found no difference.
pub proof fn earlier_steps_decide(a: ContenderView, b: ContenderView, strategy: Strategy)
    requires
        readable(a),
        readable(b),
    ensures
        ({
            let d = decision(a, b, strategy);
            let (ha, hb) = (hop_count(as_path_in(a.held)->0), hop_count(as_path_in(b.held)->0));
            let (oa, ob) = (origin_in(a.held)->0, origin_in(b.held)->0);
            let same_a = a.degree_of_preference() == b.degree_of_preference();
            let same_b = same_a && ha == hb;
            let same_c = same_b && oa == ob;
            let med_counts = strategy == Strategy::Rfc4271 && a.neighbor_asn() == b.neighbor_asn();
            let same_d = same_c && (med_counts ==> a.med() == b.med());
            let same_e = same_d && a.route_source == b.route_source;
            let same_f = same_e && a.effective_bgp_id() == b.effective_bgp_id();
            let same_g = same_f && a.cluster_list_len() == b.cluster_list_len();
            &&& a.degree_of_preference() > b.degree_of_preference() ==> d == (
                Order::Less,
                DecisionStep::DegreeOfPreference,
            )
            &&& same_a && ha < hb ==> d == (Order::Less, DecisionStep::AsPathLength)
            &&& same_b && oa < ob ==> d == (Order::Less, DecisionStep::Origin)
            &&& same_c && med_counts && a.med() < b.med() ==> d == (Order::Less, DecisionStep::Med)
            &&& same_d && a.route_source == PeerType::Ebgp && b.route_source == PeerType::Ibgp
                ==> d == (Order::Less, DecisionStep::PeerType)
            &&& same_e && bytes_order(a.effective_bgp_id(), b.effective_bgp_id()) == Order::Less
                ==> d == (Order::Less, DecisionStep::BgpIdentifier)
            &&& same_f && a.cluster_list_len() < b.cluster_list_len() ==> d == (
                Order::Less,
                DecisionStep::ClusterListLength,
            )
            &&& same_g && address_order(a.peer_addr, b.peer_addr) == Order::Less ==> d == (
                Order::Less,
                DecisionStep::PeerAddress,
            )
            &&& same_g && a.peer_addr == b.peer_addr ==> d == (Order::Equal, DecisionStep::Tie)
        }),
{
    reveal(decision);
    bytes_order_equal(a.effective_bgp_id(), b.effective_bgp_id());
}

/// Where two routes differ in one thing only, the better one in it wins, and
/// the step is the one for that thing.
pub proof fn one_difference_decides(a: ContenderView, b: ContenderView, strategy: Strategy)
    requires
        readable(a),
    ensures
        b == (ContenderView { peer_addr: b.peer_addr, ..a }) && a.peer_addr != b.peer_addr
            ==> decision(a, b, strategy).1 == DecisionStep::PeerAddress,
        b == (ContenderView { bgp_identifier: b.bgp_identifier, ..a }) && originator_id_in(a.held)
            is None && a.bgp_identifier != b.bgp_identifier ==> decision(a, b, strategy).1
            == DecisionStep::BgpIdentifier,
        b == (ContenderView { bgp_identifier: b.bgp_identifier, ..a }) && originator_id_in(a.held)
            is Some ==> decision(a, b, strategy) == (Order::Equal, DecisionStep::Tie),
        b == (ContenderView { route_source: PeerType::Ibgp, ..a }) && a.route_source
            == PeerType::Ebgp && local_pref_in(a.held) is None ==> decision(a, b, strategy) == (
            Order::Less,
            DecisionStep::PeerType,
        ),
        b == (ContenderView { route_source: PeerType::Ibgp, ..a }) && a.route_source
            == PeerType::Ebgp && (local_pref_in(a.held) matches Some(preference) && preference > 0)
            ==> decision(a, b, strategy) == (Order::Greater, DecisionStep::DegreeOfPreference),
{
    reveal(decision);
    bytes_order_equal(a.effective_bgp_id(), b.effective_bgp_id());
}

/// With MULTI_EXIT_DISC left out of the comparison, it does not matter what it
/// is.
pub proof fn skipped_med_does_not_matter(
    a: ContenderView,
    b: ContenderView,
    held: Map<u8, AttributeValue>,
)
    requires
        forall|typ: u8|
            typ != 4 ==> held.contains_key(typ) == #[trigger] a.held.contains_key(typ) && (
            held.contains_key(typ) ==> held[typ] == a.held[typ]),
    ensures
        decision(ContenderView { held, ..a }, b, Strategy::SkipMed) == decision(
            a,
            b,
            Strategy::SkipMed,
        ),
        decision(a, b, Strategy::SkipMed).1 != DecisionStep::Med,
        a.neighbor_asn() != b.neighbor_asn() ==> decision(a, b, Strategy::Rfc4271) == decision(
            a,
            b,
            Strategy::SkipMed,
        ),
{
    reveal(decision);
    let c = ContenderView { held, ..a };
    assert(held.contains_key(1) == a.held.contains_key(1));
    assert(held.contains_key(2) == a.held.contains_key(2));
    assert(held.contains_key(5) == a.held.contains_key(5));
    assert(held.contains_key(9) == a.held.contains_key(9));
    assert(held.contains_key(10) == a.held.contains_key(10));
    assert(c.effective_bgp_id() == a.effective_bgp_id());
}

/// The length of a path is that of its parts together: every hop that is an AS
/// number and every set counts as one, segments of a confederation as nothing.
pub proof fn path_length_adds_up(a: Seq<HopView>, b: Seq<HopView>)
    ensures
        hop_count(a + b) == hop_count(a) + hop_count(b),
        forall|asn: u32| hop_count(#[trigger] seq![HopView::Asn(asn)]) == 1,
        forall|asns: Seq<u32>| hop_count(#[trigger] seq![HopView::Segment(1, asns)]) == 1,
        forall|asns: Seq<u32>| hop_count(#[trigger] seq![HopView::Segment(3, asns)]) == 0,
        forall|asns: Seq<u32>| hop_count(#[trigger] seq![HopView::Segment(4, asns)]) == 0,
    decreases b.len(),
{
    assert forall|hop: HopView| hop_count(#[trigger] seq![hop]) == (match hop {
        HopView::Asn(_) => 1nat,
        HopView::Segment(kind, _) => if kind == 1 {
            1
        } else {
            0
        },
    }) by {
        assert(seq![hop].drop_last() =~= seq![]);
        assert(hop_count(seq![hop].drop_last()) == 0);
    }
    if b.len() == 0 {
        assert(a + b =~= a);
    } else {
        path_length_adds_up(a, b.drop_last());
        assert((a + b).drop_last() =~= a + b.drop_last());
        assert((a + b).last() == b.last());
    }
}

/// What the decision reads of a route is in the attribute of that type: the
/// preference of an internal route in LOCAL_PREF, of an external one nowhere.
pub proof fn contenders_read_their_attributes(a: ContenderView)
    ensures
        a.held.contains_key(5) && a.held[5] is LocalPref && a.route_source == PeerType::Ibgp
            ==> a.degree_of_preference() == a.held[5]->LocalPref_0,
        a.route_source == PeerType::Ebgp ==> a.degree_of_preference() == 0,
        a.held.contains_key(4) && a.held[4] is MultiExitDisc ==> a.med()
            == a.held[4]->MultiExitDisc_0,
        !a.held.contains_key(4) ==> a.med() == 0,
        !a.held.contains_key(5) ==> a.degree_of_preference() == 0,
        a.held.contains_key(9) && a.held[9] is OriginatorId ==> a.effective_bgp_id()
            == a.held[9]->OriginatorId_0,
        !a.held.contains_key(9) ==> a.effective_bgp_id() == a.bgp_identifier,
        a.held.contains_key(10) && a.held[10] is ClusterList ==> a.cluster_list_len()
            == a.held[10]->ClusterList_0,
        !a.held.contains_key(10) ==> a.cluster_list_len() == 0,
        a.held.contains_key(2) && a.held[2] is AsPath && a.held[2]->AsPath_0.len() > 0 && (
        a.held[2]->AsPath_0[0] is Asn) ==> a.neighbor_asn() == a.held[2]->AsPath_0[0]->Asn_0,
        a.held.contains_key(2) && a.held[2] is AsPath && (a.held[2]->AsPath_0.len() == 0
            || a.held[2]->AsPath_0[0] is Segment) ==> a.neighbor_asn() == a.local_asn,
        a.held.contains_key(1) && a.held[1] is Origin ==> origin_in(a.held) == Some(
            a.held[1]->Origin_0,
        ),
        a.ineligible() is None ==> a.held.contains_key(1) && a.held.contains_key(2) && (
        a.route_source == PeerType::Ebgp ==> as_path_in(a.held) is Some && as_path_in(
            a.held,
        )->0.len() > 0 && as_path_in(a.held)->0[0] is Asn),
        a.ineligible() == Some(IneligibleReason::MissingOrigin) <==> !a.held.contains_key(1),
        a.ineligible() == Some(IneligibleReason::MissingAsPath) <==> a.held.contains_key(1)
            && !a.held.contains_key(2),
{
}

/// Steps, reasons, assumptions and strategies have the names that answers give
/// them.
pub proof fn answers_name_the_decision(
    step: DecisionStep,
    reason: IneligibleReason,
    assumed: Assumed,
    strategy: Strategy,
)
    ensures
        step is DegreeOfPreference ==> step.name() == "degreeOfPreference"@,
        step is AsPathLength ==> step.name() == "asPathLength"@,
        step is Origin ==> step.name() == "origin"@,
        step is Med ==> step.name() == "med"@,
        step is PeerType ==> step.name() == "peerType"@,
        step is InteriorCost ==> step.name() == "interiorCost"@,
        step is BgpIdentifier ==> step.name() == "bgpIdentifier"@,
        step is ClusterListLength ==> step.name() == "clusterListLength"@,
        step is PeerAddress ==> step.name() == "peerAddress"@,
        step is Tie ==> step.name() == "tie"@,
        reason is UnknownIngress ==> reason.name() == "unknownIngress"@,
        reason is UnknownPeerAddress ==> reason.name() == "unknownPeerAddress"@,
        reason is MalformedPathAttributes ==> reason.name() == "malformedPathAttributes"@,
        reason is MissingOrigin ==> reason.name() == "missingOrigin"@,
        reason is MissingAsPath ==> reason.name() == "missingAsPath"@,
        reason is EbgpWithoutNeighbour ==> reason.name() == "ebgpWithoutNeighbour"@,
        reason is AsPathLoop ==> reason.name() == "asPathLoop"@,
        assumed is RouteSource ==> assumed.name() == "routeSource"@,
        assumed is BgpIdentifier ==> assumed.name() == "bgpIdentifier"@,
        strategy is Rfc4271 ==> strategy.name() == "rfc4271"@,
        strategy is SkipMed ==> strategy.name() == "skipMed"@,
{
}

} // verus!
