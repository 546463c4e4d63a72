use netom::addr::IpAddr;
use netom::best_path::decision::{
    check_eligible, compare, decisive_step, Assumed, Contender, DecisionStep, IneligibleReason,
    PeerType, Strategy,
};
use netom::best_path::report::{BestPathResult, DocumentParts, RowParts};
use netom::best_path::select::{
    classify, select, Alternatives, BestPathOptions, Excluded, Ranked, Record, RotondaPaMap,
    RouteStatus,
};
use netom::ingress::{IngressId, IngressInfo, IngressType, RouteSource};
use netom::json::Json;
use netom::order::Order;
use inetnum::asn::Asn;
use routecore::bgp::aspath::HopPath;
use routecore::bgp::path_attributes::PaMap;
use routecore::bgp::types::{Origin, OriginType};
use std::collections::HashMap;

/// An address from its text: four numbers, or the IPv6 address that the tests
/// use.
fn ip(s: &str) -> IpAddr {
    if s == "2001:db8::1" {
        return IpAddr::V6(0x2001_0db8_0000_0000_0000_0000_0000_0001);
    }
    let octets: Vec<u8> = s.split('.').map(|n| n.parse().unwrap()).collect();
    assert_eq!(octets.len(), 4, "{s}");
    IpAddr::V4(octets.iter().fold(0, |bits, n| bits * 256 + *n as u32))
}

trait Build: Sized {
    fn with_ingress_type(self, kind: IngressType) -> Self;
    fn with_local_asn(self, asn: u32) -> Self;
    fn with_remote_asn(self, asn: u32) -> Self;
    fn with_remote_addr(self, addr: IpAddr) -> Self;
    fn with_bgp_id(self, id: [u8; 4]) -> Self;
    fn with_parent_ingress(self, id: u32) -> Self;
    fn with_path_id(self, id: u32) -> Self;
}

impl Build for IngressInfo {
    fn with_ingress_type(mut self, kind: IngressType) -> Self {
        self.ingress_type = Some(kind);
        self
    }
    fn with_local_asn(mut self, asn: u32) -> Self {
        self.local_asn = Some(asn);
        self
    }
    fn with_remote_asn(mut self, asn: u32) -> Self {
        self.remote_asn = Some(asn);
        self
    }
    fn with_remote_addr(mut self, addr: IpAddr) -> Self {
        self.remote_addr = Some(addr);
        self
    }
    fn with_bgp_id(mut self, id: [u8; 4]) -> Self {
        self.bgp_id = Some(id);
        self
    }
    fn with_parent_ingress(mut self, id: u32) -> Self {
        self.parent_ingress = Some(id);
        self
    }
    fn with_path_id(mut self, id: u32) -> Self {
        self.path_id = Some(id);
        self
    }
}

fn pamap(parts: &[Vec<u8>]) -> RotondaPaMap {
    let mut raw = vec![0u8, 1u8];
    for part in parts {
        raw.extend_from_slice(part);
    }
    RotondaPaMap::from_raw(raw)
}

fn origin(value: u8) -> Vec<u8> {
    vec![0x40, 1, 1, value]
}

fn as_path(asns: &[u32]) -> Vec<u8> {
    as_path_segments(&[(SEQ, asns)])
}

const SET: u8 = 1;
const SEQ: u8 = 2;
const CONFED_SEQ: u8 = 3;

fn as_path_segments(segments: &[(u8, &[u32])]) -> Vec<u8> {
    let mut value = Vec::new();
    for (stype, asns) in segments {
        value.push(*stype);
        value.push(asns.len() as u8);
        for asn in *asns {
            value.extend_from_slice(&asn.to_be_bytes());
        }
    }
    let mut out = vec![0x40, 2, value.len() as u8];
    out.extend_from_slice(&value);
    out
}

fn med(value: u32) -> Vec<u8> {
    let mut out = vec![0x80, 4, 4];
    out.extend_from_slice(&value.to_be_bytes());
    out
}

fn local_pref(value: u32) -> Vec<u8> {
    let mut out = vec![0x40, 5, 4];
    out.extend_from_slice(&value.to_be_bytes());
    out
}

fn originator_id(id: [u8; 4]) -> Vec<u8> {
    let mut out = vec![0x80, 9, 4];
    out.extend_from_slice(&id);
    out
}

fn cluster_list(ids: &[[u8; 4]]) -> Vec<u8> {
    let mut out = vec![0x80, 10, (ids.len() * 4) as u8];
    for id in ids {
        out.extend_from_slice(id);
    }
    out
}

fn plain(asns: &[u32]) -> RotondaPaMap {
    pamap(&[origin(0), as_path(asns)])
}

fn record(mui: IngressId, meta: RotondaPaMap) -> Record {
    Record::new(mui, 0, RouteStatus::Active, meta)
}

fn ebgp(remote: u32, addr: &str, bgp_id: [u8; 4]) -> IngressInfo {
    IngressInfo::new()
        .with_ingress_type(IngressType::Bgp)
        .with_local_asn(65000)
        .with_remote_asn(remote)
        .with_remote_addr(ip(addr))
        .with_bgp_id(bgp_id)
}

fn ibgp(addr: &str, bgp_id: [u8; 4]) -> IngressInfo {
    IngressInfo::new()
        .with_ingress_type(IngressType::Bgp)
        .with_local_asn(65000)
        .with_remote_asn(65000)
        .with_remote_addr(ip(addr))
        .with_bgp_id(bgp_id)
}

fn registry(
    entries: Vec<(IngressId, IngressInfo)>,
) -> HashMap<IngressId, IngressInfo> {
    entries.into_iter().collect()
}

struct Outcome {
    best: Option<Ranked>,
    alternatives: Vec<Ranked>,
    excluded: Vec<Excluded>,
}

impl Outcome {
    fn best_mui(&self) -> IngressId {
        self.best.as_ref().expect("a best path").candidate.mui
    }

    fn decided_by(&self) -> Option<DecisionStep> {
        self.best.as_ref().expect("a best path").step
    }

    fn order(&self) -> Vec<IngressId> {
        self.best
            .iter()
            .map(|r| r.candidate.mui)
            .chain(self.alternatives.iter().map(|r| r.candidate.mui))
            .collect()
    }
}

fn run(
    records: &[Record],
    info: &HashMap<IngressId, IngressInfo>,
    strategy: Strategy,
) -> Outcome {
    let (best, alternatives, excluded) = select(
        records,
        info,
        BestPathOptions {
            strategy,
            alternatives: Alternatives::All,
        },
    );
    Outcome {
        best,
        alternatives,
        excluded,
    }
}

fn rfc4271(
    records: &[Record],
    info: &HashMap<IngressId, IngressInfo>,
) -> Outcome {
    run(records, info, Strategy::Rfc4271)
}

#[test]
fn local_pref_decides_between_ibgp_routes() {
    let records = [
        record(1, pamap(&[origin(0), as_path(&[65001]), local_pref(100)])),
        record(
            2,
            pamap(&[origin(0), as_path(&[65001, 65002]), local_pref(200)]),
        ),
    ];
    let info = registry(vec![
        (1, ibgp("10.0.0.1", [10, 0, 0, 1])),
        (2, ibgp("10.0.0.2", [10, 0, 0, 2])),
    ]);

    let out = rfc4271(&records, &info);
    assert_eq!(out.best_mui(), 2);
    assert_eq!(out.decided_by(), Some(DecisionStep::DegreeOfPreference));
}

#[test]
fn local_pref_is_ignored_on_ebgp_routes() {
    let records = [
        record(1, pamap(&[origin(0), as_path(&[65001]), local_pref(100)])),
        record(
            2,
            pamap(&[origin(0), as_path(&[65001, 65002]), local_pref(200)]),
        ),
    ];
    let info = registry(vec![
        (1, ebgp(65001, "10.0.0.1", [10, 0, 0, 1])),
        (2, ebgp(65001, "10.0.0.2", [10, 0, 0, 2])),
    ]);

    let out = rfc4271(&records, &info);
    assert_eq!(out.best_mui(), 1);
    assert_eq!(out.decided_by(), Some(DecisionStep::AsPathLength));
}

#[test]
fn shortest_as_path_wins() {
    let records = [
        record(1, plain(&[65001, 65002, 65003])),
        record(2, plain(&[65001])),
        record(3, plain(&[65001, 65002])),
    ];
    let info = registry(vec![
        (1, ebgp(65001, "10.0.0.1", [10, 0, 0, 1])),
        (2, ebgp(65001, "10.0.0.2", [10, 0, 0, 2])),
        (3, ebgp(65001, "10.0.0.3", [10, 0, 0, 3])),
    ]);

    let out = rfc4271(&records, &info);
    assert_eq!(out.order(), vec![2, 3, 1]);
    assert_eq!(out.decided_by(), Some(DecisionStep::AsPathLength));
    assert!(out
        .alternatives
        .iter()
        .all(|a| a.step == Some(DecisionStep::AsPathLength)));
}

#[test]
fn lower_origin_breaks_an_as_path_tie() {
    let records = [
        record(1, pamap(&[origin(2), as_path(&[65001])])),
        record(2, pamap(&[origin(0), as_path(&[65001])])),
    ];
    let info = registry(vec![
        (1, ebgp(65001, "10.0.0.1", [10, 0, 0, 1])),
        (2, ebgp(65001, "10.0.0.2", [10, 0, 0, 2])),
    ]);

    let out = rfc4271(&records, &info);
    assert_eq!(out.best_mui(), 2);
    assert_eq!(out.decided_by(), Some(DecisionStep::Origin));
}

#[test]
fn med_decides_within_one_neighbour_as() {
    let records = [
        record(1, pamap(&[origin(0), as_path(&[65001]), med(200)])),
        record(2, pamap(&[origin(0), as_path(&[65001]), med(50)])),
    ];
    let info = registry(vec![
        (1, ebgp(65001, "10.0.0.1", [10, 0, 0, 1])),
        (2, ebgp(65001, "10.0.0.2", [10, 0, 0, 2])),
    ]);

    let out = rfc4271(&records, &info);
    assert_eq!(out.best_mui(), 2);
    assert_eq!(out.decided_by(), Some(DecisionStep::Med));
}

#[test]
fn med_is_not_compared_across_neighbour_ases() {
    let records = [
        record(1, pamap(&[origin(0), as_path(&[65001]), med(200)])),
        record(2, pamap(&[origin(0), as_path(&[65002]), med(50)])),
    ];
    let info = registry(vec![
        (1, ebgp(65001, "10.0.0.1", [10, 0, 0, 1])),
        (2, ebgp(65002, "10.0.0.2", [10, 0, 0, 2])),
    ]);

    let out = rfc4271(&records, &info);
    assert_ne!(out.decided_by(), Some(DecisionStep::Med));
    assert_eq!(out.best_mui(), 1);
    assert_eq!(out.decided_by(), Some(DecisionStep::BgpIdentifier));
}

#[test]
fn skip_med_strategy_ignores_the_med() {
    let records = [
        record(1, pamap(&[origin(0), as_path(&[65001]), med(200)])),
        record(2, pamap(&[origin(0), as_path(&[65001]), med(50)])),
    ];
    let info = registry(vec![
        (1, ebgp(65001, "10.0.0.1", [10, 0, 0, 1])),
        (2, ebgp(65001, "10.0.0.2", [10, 0, 0, 2])),
    ]);

    assert_eq!(rfc4271(&records, &info).best_mui(), 2);

    let out = run(&records, &info, Strategy::SkipMed);
    assert_eq!(out.best_mui(), 1, "lower BGP id wins once MED is skipped");
    assert_eq!(out.decided_by(), Some(DecisionStep::BgpIdentifier));
}

#[test]
fn ebgp_beats_ibgp() {
    let records =
        [record(1, plain(&[65001])), record(2, plain(&[65001]))];
    let info = registry(vec![
        (1, ibgp("10.0.0.1", [10, 0, 0, 1])),
        (2, ebgp(65001, "10.0.0.2", [10, 0, 0, 2])),
    ]);

    let out = rfc4271(&records, &info);
    assert_eq!(out.best_mui(), 2);
    assert_eq!(out.decided_by(), Some(DecisionStep::PeerType));
}

#[test]
fn originator_id_substitutes_for_the_bgp_identifier() {
    let records = [
        record(1, plain(&[65001])),
        record(
            2,
            pamap(&[
                origin(0),
                as_path(&[65001]),
                originator_id([10, 0, 0, 0]),
            ]),
        ),
    ];
    let info = registry(vec![
        (1, ibgp("10.0.0.1", [10, 0, 0, 1])),
        (2, ibgp("10.0.0.2", [10, 0, 0, 2])),
    ]);

    let out = rfc4271(&records, &info);
    assert_eq!(out.best_mui(), 2);
    assert_eq!(out.decided_by(), Some(DecisionStep::BgpIdentifier));
}

#[test]
fn shorter_cluster_list_wins() {
    let shared = originator_id([10, 0, 0, 9]);
    let records = [
        record(
            1,
            pamap(&[
                origin(0),
                as_path(&[65001]),
                shared.clone(),
                cluster_list(&[[1, 1, 1, 1], [2, 2, 2, 2]]),
            ]),
        ),
        record(
            2,
            pamap(&[
                origin(0),
                as_path(&[65001]),
                shared,
                cluster_list(&[[1, 1, 1, 1]]),
            ]),
        ),
    ];
    let info = registry(vec![
        (1, ibgp("10.0.0.1", [10, 0, 0, 1])),
        (2, ibgp("10.0.0.2", [10, 0, 0, 2])),
    ]);

    let out = rfc4271(&records, &info);
    assert_eq!(out.best_mui(), 2);
    assert_eq!(out.decided_by(), Some(DecisionStep::ClusterListLength));
}

#[test]
fn lowest_peer_address_decides_when_all_else_is_equal() {
    let records =
        [record(1, plain(&[65001])), record(2, plain(&[65001]))];
    let info = registry(vec![
        (1, ebgp(65001, "10.0.0.9", [10, 0, 0, 1])),
        (2, ebgp(65001, "10.0.0.2", [10, 0, 0, 1])),
    ]);

    let out = rfc4271(&records, &info);
    assert_eq!(out.best_mui(), 2);
    assert_eq!(out.decided_by(), Some(DecisionStep::PeerAddress));
}

#[test]
fn a_route_without_origin_is_ineligible() {
    let records = [
        record(1, pamap(&[as_path(&[65001])])),
        record(2, plain(&[65001, 65002])),
    ];
    let info = registry(vec![
        (1, ebgp(65001, "10.0.0.1", [10, 0, 0, 1])),
        (2, ebgp(65001, "10.0.0.2", [10, 0, 0, 2])),
    ]);

    let out = rfc4271(&records, &info);
    assert_eq!(out.best_mui(), 2, "the only eligible route wins");
    assert_eq!(out.excluded.len(), 1);
    assert_eq!(out.excluded[0].mui, 1);
    assert_eq!(out.excluded[0].reason, IneligibleReason::MissingOrigin);
}

#[test]
fn a_route_without_as_path_is_ineligible() {
    let records =
        [record(1, pamap(&[origin(0)])), record(2, plain(&[65001]))];
    let info = registry(vec![
        (1, ebgp(65001, "10.0.0.1", [10, 0, 0, 1])),
        (2, ebgp(65001, "10.0.0.2", [10, 0, 0, 2])),
    ]);

    let out = rfc4271(&records, &info);
    assert_eq!(out.best_mui(), 2);
    assert_eq!(out.excluded[0].reason, IneligibleReason::MissingAsPath);
}

#[test]
fn an_ebgp_route_with_an_empty_as_path_is_ineligible() {
    let records =
        [record(1, pamap(&[origin(0), as_path(&[])])), record(2, plain(&[65001]))];
    let info = registry(vec![
        (1, ebgp(65001, "10.0.0.1", [10, 0, 0, 1])),
        (2, ebgp(65001, "10.0.0.2", [10, 0, 0, 2])),
    ]);

    let out = rfc4271(&records, &info);
    assert_eq!(out.best_mui(), 2);
    assert_eq!(
        out.excluded[0].reason,
        IneligibleReason::EbgpWithoutNeighbour
    );
}

#[test]
fn a_route_with_no_ingress_entry_is_ineligible() {
    let records =
        [record(1, plain(&[65001])), record(99, plain(&[65001]))];
    let info = registry(vec![(1, ebgp(65001, "10.0.0.1", [10, 0, 0, 1]))]);

    let out = rfc4271(&records, &info);
    assert_eq!(out.best_mui(), 1);
    assert_eq!(out.excluded.len(), 1);
    assert_eq!(out.excluded[0].mui, 99);
    assert_eq!(out.excluded[0].reason, IneligibleReason::UnknownIngress);
}

#[test]
fn a_session_with_no_peer_address_is_ineligible() {
    let records =
        [record(1, plain(&[65001])), record(2, plain(&[65001]))];
    let info = registry(vec![
        (1, ebgp(65001, "10.0.0.1", [10, 0, 0, 1])),
        (
            2,
            IngressInfo::new()
                .with_ingress_type(IngressType::Bgp)
                .with_local_asn(65000)
                .with_remote_asn(65001),
        ),
    ]);

    let out = rfc4271(&records, &info);
    assert_eq!(out.best_mui(), 1);
    assert_eq!(
        out.excluded[0].reason,
        IneligibleReason::UnknownPeerAddress
    );
}

#[test]
fn a_session_without_a_local_asn_reports_the_assumption() {
    let records = [record(1, plain(&[65001]))];
    let info = registry(vec![(
        1,
        IngressInfo::new()
            .with_ingress_type(IngressType::Mrt)
            .with_remote_asn(65001)
            .with_remote_addr(ip("10.0.0.1"))
            .with_bgp_id([10, 0, 0, 1]),
    )]);

    let out = rfc4271(&records, &info);
    let best = out.best.as_ref().unwrap();
    assert_eq!(best.candidate.contender.route_source, PeerType::Ebgp);
    assert!(best.candidate.assumed.contains(&Assumed::RouteSource));
}

#[test]
fn an_unknown_bgp_id_never_wins_step_f() {
    let records =
        [record(1, plain(&[65001])), record(2, plain(&[65001]))];
    let info = registry(vec![
        (
            1,
            IngressInfo::new()
                .with_ingress_type(IngressType::Bgp)
                .with_local_asn(65000)
                .with_remote_asn(65001)
                .with_remote_addr(ip("10.0.0.1")),
        ),
        (2, ebgp(65001, "10.0.0.2", [200, 200, 200, 200])),
    ]);

    let out = rfc4271(&records, &info);
    assert_eq!(
        out.best_mui(),
        2,
        "the peer with a known identifier must win step f"
    );
    assert_eq!(out.decided_by(), Some(DecisionStep::BgpIdentifier));
    let loser = &out.alternatives[0].candidate;
    assert!(loser.assumed.contains(&Assumed::BgpIdentifier));
}

#[test]
fn addpath_children_compete_as_separate_candidates() {
    let records = [
        record(11, plain(&[65001, 65002])),
        record(12, plain(&[65001])),
    ];
    let session = ebgp(65001, "10.0.0.1", [10, 0, 0, 1]);
    let child = |path_id: u32| {
        IngressInfo::new()
            .with_ingress_type(IngressType::BgpPath)
            .with_parent_ingress(3u32)
            .with_path_id(path_id)
    };
    let info = registry(vec![
        (3, session),
        (11, child(1)),
        (12, child(2)),
    ]);

    let out = rfc4271(&records, &info);
    assert_eq!(out.order(), vec![12, 11]);
    assert_eq!(out.decided_by(), Some(DecisionStep::AsPathLength));
    assert!(
        out.excluded.is_empty(),
        "children must inherit the session's peer identity, not be \
         dropped for lacking one"
    );
}

#[test]
fn the_alternatives_cap_limits_reporting_only() {
    let records = [
        record(1, plain(&[65001, 65002, 65003])),
        record(2, plain(&[65001])),
        record(3, plain(&[65001, 65002])),
    ];
    let info = registry(vec![
        (1, ebgp(65001, "10.0.0.1", [10, 0, 0, 1])),
        (2, ebgp(65001, "10.0.0.2", [10, 0, 0, 2])),
        (3, ebgp(65001, "10.0.0.3", [10, 0, 0, 3])),
    ]);

    let (best, alternatives, excluded) = select(
        &records,
        &info,
        BestPathOptions {
            strategy: Strategy::Rfc4271,
            alternatives: Alternatives::AtMost(1),
        },
    );
    assert_eq!(best.unwrap().candidate.mui, 2);
    assert_eq!(alternatives.len(), 1);
    assert_eq!(alternatives[0].candidate.mui, 3, "the runner-up, not any");
    assert!(excluded.is_empty());
}

#[test]
fn no_eligible_routes_yields_no_best_path() {
    let records = [record(1, plain(&[65001]))];
    let out = rfc4271(&records, &registry(vec![]));
    assert!(out.best.is_none());
    assert!(out.alternatives.is_empty());
    assert_eq!(out.excluded.len(), 1);
}

#[test]
fn a_lone_candidate_has_no_deciding_step() {
    let records = [record(1, plain(&[65001]))];
    let info = registry(vec![(1, ebgp(65001, "10.0.0.1", [10, 0, 0, 1]))]);

    let out = rfc4271(&records, &info);
    assert_eq!(out.best_mui(), 1);
    assert_eq!(out.decided_by(), None);
}

#[test]
fn a_route_whose_as_path_contains_the_local_as_is_excluded() {
    let records = [
        record(1, plain(&[65001, 65000, 65002])),
        record(2, plain(&[65001, 65002, 65003, 65004])),
    ];
    let info = registry(vec![
        (1, ebgp(65001, "10.0.0.1", [10, 0, 0, 1])),
        (2, ebgp(65001, "10.0.0.2", [10, 0, 0, 2])),
    ]);

    let out = rfc4271(&records, &info);
    assert_eq!(
        out.best_mui(),
        2,
        "the longer path wins because the shorter one loops"
    );
    assert_eq!(out.excluded.len(), 1);
    assert_eq!(out.excluded[0].mui, 1);
    assert_eq!(out.excluded[0].reason, IneligibleReason::AsPathLoop);
}

#[test]
fn an_as_path_loop_inside_an_as_set_is_found() {
    let records = [record(
        1,
        pamap(&[
            origin(0),
            as_path_segments(&[(SEQ, &[65001]), (SET, &[65009, 65000])]),
        ]),
    )];
    let info = registry(vec![(1, ebgp(65001, "10.0.0.1", [10, 0, 0, 1]))]);

    let out = rfc4271(&records, &info);
    assert!(out.best.is_none());
    assert_eq!(out.excluded[0].reason, IneligibleReason::AsPathLoop);
}

#[test]
fn an_as_path_loop_inside_a_confed_sequence_is_found() {
    let records = [record(
        1,
        pamap(&[
            origin(0),
            as_path_segments(&[
                (CONFED_SEQ, &[65000]),
                (SEQ, &[65001]),
            ]),
        ]),
    )];
    let info = registry(vec![(1, ebgp(65001, "10.0.0.1", [10, 0, 0, 1]))]);

    let out = rfc4271(&records, &info);
    assert_eq!(out.excluded[0].reason, IneligibleReason::AsPathLoop);
}

#[test]
fn loop_detection_is_skipped_when_the_local_asn_is_unknown() {
    let records = [record(1, plain(&[65001, 65000, 65002]))];
    let info = registry(vec![(
        1,
        IngressInfo::new()
            .with_ingress_type(IngressType::Mrt)
            .with_remote_asn(65001)
            .with_remote_addr(ip("10.0.0.1"))
            .with_bgp_id([10, 0, 0, 1]),
    )]);

    let out = rfc4271(&records, &info);
    assert_eq!(out.best_mui(), 1, "cannot detect a loop without a local AS");
    assert!(out.excluded.is_empty());
}

#[test]
fn an_as_set_counts_as_a_single_hop() {
    let records = [
        record(
            1,
            pamap(&[
                origin(0),
                as_path_segments(&[(SET, &[65001, 65002, 65003])]),
            ]),
        ),
        record(2, plain(&[65004, 65005])),
    ];
    let info = registry(vec![
        (1, ibgp("10.0.0.1", [10, 0, 0, 1])),
        (2, ibgp("10.0.0.2", [10, 0, 0, 2])),
    ]);

    let out = rfc4271(&records, &info);
    assert_eq!(out.best_mui(), 1);
    assert_eq!(out.decided_by(), Some(DecisionStep::AsPathLength));
}

#[test]
fn confed_segments_do_not_count_towards_as_path_length() {
    let records = [
        record(
            1,
            pamap(&[
                origin(0),
                as_path_segments(&[
                    (CONFED_SEQ, &[65101, 65102, 65103]),
                    (SEQ, &[65001]),
                ]),
            ]),
        ),
        record(2, plain(&[65004, 65005])),
    ];
    let info = registry(vec![
        (1, ibgp("10.0.0.1", [10, 0, 0, 1])),
        (2, ibgp("10.0.0.2", [10, 0, 0, 2])),
    ]);

    let out = rfc4271(&records, &info);
    assert_eq!(out.best_mui(), 1);
    assert_eq!(out.decided_by(), Some(DecisionStep::AsPathLength));
}

#[test]
fn med_is_comparable_when_both_paths_start_with_an_as_set() {
    let set_path = as_path_segments(&[(SET, &[65001, 65002])]);
    let records = [
        record(
            1,
            pamap(&[origin(0), set_path.clone(), med(200)]),
        ),
        record(2, pamap(&[origin(0), set_path, med(50)])),
    ];
    let info = registry(vec![
        (1, ibgp("10.0.0.1", [10, 0, 0, 1])),
        (2, ibgp("10.0.0.2", [10, 0, 0, 2])),
    ]);

    let out = rfc4271(&records, &info);
    assert_eq!(out.best_mui(), 2);
    assert_eq!(out.decided_by(), Some(DecisionStep::Med));
}

#[test]
fn an_ibgp_local_pref_outranks_an_ebgp_route() {
    let records = [
        record(1, pamap(&[origin(0), as_path(&[65001]), local_pref(100)])),
        record(2, plain(&[65001])),
    ];
    let info = registry(vec![
        (1, ibgp("10.0.0.1", [10, 0, 0, 1])),
        (2, ebgp(65001, "10.0.0.2", [10, 0, 0, 2])),
    ]);

    let out = rfc4271(&records, &info);
    assert_eq!(out.best_mui(), 1, "LOCAL_PREF is weighed before step d");
    assert_eq!(out.decided_by(), Some(DecisionStep::DegreeOfPreference));
}

#[test]
fn a_missing_local_pref_on_an_ibgp_route_counts_as_zero() {
    let records = [
        record(1, plain(&[65001])),
        record(2, pamap(&[origin(0), as_path(&[65001]), local_pref(1)])),
    ];
    let info = registry(vec![
        (1, ibgp("10.0.0.1", [10, 0, 0, 1])),
        (2, ibgp("10.0.0.2", [10, 0, 0, 2])),
    ]);

    let out = rfc4271(&records, &info);
    assert_eq!(out.best_mui(), 2);
    assert_eq!(out.decided_by(), Some(DecisionStep::DegreeOfPreference));
}

#[test]
fn step_g_sorts_ipv4_peers_before_ipv6_peers() {
    let records =
        [record(1, plain(&[65001])), record(2, plain(&[65001]))];
    let info = registry(vec![
        (1, ebgp(65001, "2001:db8::1", [10, 0, 0, 1])),
        (2, ebgp(65001, "10.0.0.2", [10, 0, 0, 1])),
    ]);

    let out = rfc4271(&records, &info);
    assert_eq!(out.best_mui(), 2);
    assert_eq!(out.decided_by(), Some(DecisionStep::PeerAddress));
}

#[test]
fn a_missing_med_is_the_lowest_med() {
    let records = [
        record(1, pamap(&[origin(0), as_path(&[65001]), med(1)])),
        record(2, plain(&[65001])),
    ];
    let info = registry(vec![
        (1, ebgp(65001, "10.0.0.1", [10, 0, 0, 1])),
        (2, ebgp(65001, "10.0.0.2", [10, 0, 0, 2])),
    ]);

    let out = rfc4271(&records, &info);
    assert_eq!(out.best_mui(), 2, "no MED beats MED 1");
    assert_eq!(out.decided_by(), Some(DecisionStep::Med));
}

#[test]
fn confed_external_routes_are_currently_ineligible() {
    let records = [record(
        1,
        pamap(&[
            origin(0),
            as_path_segments(&[(CONFED_SEQ, &[65101]), (SEQ, &[65001])]),
        ]),
    )];
    let info = registry(vec![(1, ebgp(65101, "10.0.0.1", [10, 0, 0, 1]))]);

    let out = rfc4271(&records, &info);
    assert!(out.best.is_none());
    assert_eq!(
        out.excluded[0].reason,
        IneligibleReason::EbgpWithoutNeighbour
    );
}

#[test]
fn the_explanation_agrees_with_routecore_ordering() {
    let metas = [
        plain(&[65001]),
        plain(&[65001, 65002]),
        pamap(&[origin(1), as_path(&[65001])]),
        pamap(&[origin(2), as_path(&[65001])]),
        pamap(&[origin(0), as_path(&[65001]), med(10)]),
        pamap(&[origin(0), as_path(&[65001]), med(500)]),
        pamap(&[origin(0), as_path(&[65002]), med(10)]),
        pamap(&[origin(0), as_path(&[65001]), local_pref(50)]),
        pamap(&[origin(0), as_path(&[65001]), local_pref(400)]),
        pamap(&[origin(0), as_path(&[65001]), originator_id([1, 2, 3, 4])]),
        pamap(&[
            origin(0),
            as_path(&[65001]),
            cluster_list(&[[9, 9, 9, 9], [8, 8, 8, 8]]),
        ]),
    ];

    let sessions = [
        ebgp(65001, "10.0.0.1", [10, 0, 0, 1]),
        ebgp(65002, "10.0.0.2", [10, 0, 0, 2]),
        ibgp("10.0.0.3", [10, 0, 0, 3]),
        ibgp("10.0.0.4", [1, 1, 1, 1]),
    ];

    let mut candidates = Vec::new();
    for meta in &metas {
        for session in &sessions {
            let rec = record(1, meta.duplicate());
            if let Ok(candidate) =
                classify(&rec, Some(session))
            {
                candidates.push(candidate);
            }
        }
    }
    assert!(candidates.len() > 20, "corpus should be substantial");

    for strategy in [Strategy::Rfc4271, Strategy::SkipMed] {
        for a in &candidates {
            for b in &candidates {
                let (explained, step) = decisive_step(&a.contender, &b.contender, strategy);
                let authoritative = compare(&a.contender, &b.contender, strategy)
                    .expect("corpus is all eligible");
                assert_eq!(
                    explained, authoritative,
                    "explanation disagreed with routecore at step {step:?}"
                );
                if explained == Order::Equal {
                    assert_eq!(step, DecisionStep::Tie);
                } else {
                    assert_ne!(step, DecisionStep::Tie);
                }
            }
        }
    }
}

#[test]
fn equal_routes_stay_in_the_order_of_the_store() {
    let records = [record(1, plain(&[65001])), record(2, plain(&[65001]))];
    let info = registry(vec![
        (1, ebgp(65001, "10.0.0.1", [10, 0, 0, 1])),
        (2, ebgp(65001, "10.0.0.1", [10, 0, 0, 1])),
    ]);
    let out = rfc4271(&records, &info);
    assert_eq!(out.order(), vec![1, 2]);
    assert_eq!(out.decided_by(), Some(DecisionStep::Tie));
}

#[test]
fn attributes_that_do_not_parse_are_malformed() {
    let records = [
        record(1, RotondaPaMap::from_raw(vec![0, 1, 0x40, 1, 9, 0])),
        record(2, RotondaPaMap::from_raw(vec![0])),
    ];
    let info = registry(vec![
        (1, ebgp(65001, "10.0.0.1", [10, 0, 0, 1])),
        (2, ebgp(65001, "10.0.0.2", [10, 0, 0, 2])),
    ]);
    let out = rfc4271(&records, &info);
    assert!(out.best.is_none());
    assert!(out
        .excluded
        .iter()
        .all(|e| e.reason == IneligibleReason::MalformedPathAttributes));
}

#[test]
fn eligibility_can_be_asked_of_one_route() {
    let session = ebgp(65001, "10.0.0.1", [10, 0, 0, 1]);
    let candidate = classify(&record(1, plain(&[65001])), Some(&session)).ok().unwrap();
    assert_eq!(check_eligible(&candidate.contender), Ok(()));
}

#[test]
fn queries_name_a_strategy_and_a_number_of_alternatives() {
    assert_eq!(Strategy::parse("rfc4271"), Ok(Strategy::Rfc4271));
    assert_eq!(Strategy::parse("skipmed"), Ok(Strategy::SkipMed));
    assert_eq!(
        Strategy::parse("x").unwrap_err(),
        "unknown strategy 'x', expected rfc4271 or skipMed"
    );
    assert_eq!(Alternatives::parse("all"), Ok(Alternatives::All));
    assert_eq!(Alternatives::parse("3"), Ok(Alternatives::AtMost(3)));
    assert_eq!(
        Alternatives::parse("x").unwrap_err(),
        "alternatives must be a number or 'all', got 'x'"
    );
}

#[test]
fn a_path_belongs_to_the_session_behind_it() {
    let child = IngressInfo::new()
        .with_ingress_type(IngressType::BgpPath)
        .with_parent_ingress(3)
        .with_path_id(7);
    assert_eq!(
        RouteSource::resolve(11, Some(&child)),
        RouteSource { ingress_id: 3, path_id: Some(7) }
    );
    assert_eq!(
        RouteSource::resolve(11, None),
        RouteSource { ingress_id: 11, path_id: None }
    );
}

fn parts() -> RowParts {
    RowParts { ingress: None, source: Json::Null, attributes: Vec::new() }
}

#[test]
fn the_document_counts_what_it_lists() {
    let records = [
        record(1, plain(&[65001, 65002])),
        record(2, plain(&[65001])),
        record(9, plain(&[65001])),
    ];
    let info = registry(vec![
        (1, ebgp(65001, "10.0.0.1", [10, 0, 0, 1])),
        (2, ebgp(65001, "10.0.0.2", [10, 0, 0, 2])),
    ]);
    let (best, alternatives, excluded) = select(
        &records,
        &info,
        BestPathOptions { strategy: Strategy::Rfc4271, alternatives: Alternatives::AtMost(0) },
    );
    let result = BestPathResult {
        prefix: Some("198.51.100.0/24".into()),
        query_addr: None,
        exact_match: true,
        strategy: Strategy::Rfc4271,
        best,
        alternatives,
        excluded,
        total: 3,
    };
    assert_eq!(result.best_mui(), Some(2));
    let document = result.to_json(DocumentParts {
        best: Some(parts()),
        alternatives: Vec::new(),
        excluded: vec![parts()],
    });
    let text = format!("{document:?}");
    assert!(text.contains("198.51.100.0/24"), "{text}");
    let data = document.get("data").unwrap_or(&document);
    let counts = data.get("counts").unwrap();
    assert_eq!(counts.unsigned_at("total"), Some(3));
    assert_eq!(counts.unsigned_at("eligible"), Some(2));
    assert_eq!(counts.unsigned_at("ineligible"), Some(1));
    assert_eq!(counts.unsigned_at("reported"), Some(1));
    let best = data.get("best").unwrap();
    assert_eq!(best.text_at("decidedBy"), Some("asPathLength"));
    let excluded = data.items_at("ineligible").unwrap();
    assert_eq!(excluded[0].text_at("reason"), Some("unknownIngress"));
}

#[test]
fn a_long_as_set_counts_as_a_single_hop() {
    let contender = |path: HopPath| {
        let mut pa_map = PaMap::empty();
        pa_map.set(Origin(OriginType::Igp));
        pa_map.set(path);
        Contender {
            pa_map,
            route_source: PeerType::Ebgp,
            local_asn: 65000,
            bgp_identifier: [1, 1, 1, 1],
            peer_addr: IpAddr::V4(1),
        }
    };
    let mut with_set = HopPath::new();
    with_set.prepend_set((1..=300).map(Asn::from_u32));
    with_set.prepend(Asn::from_u32(10));
    let mut with_confed = HopPath::new();
    with_confed.prepend_confed_set((1..=300).map(Asn::from_u32));
    with_confed.prepend(Asn::from_u32(10));
    let mut plain = HopPath::new();
    plain.prepend(Asn::from_u32(20));
    plain.prepend(Asn::from_u32(10));
    let (set, confed, plain) = (contender(with_set), contender(with_confed), contender(plain));
    assert_eq!(
        decisive_step(&set, &plain, Strategy::Rfc4271),
        (Order::Equal, DecisionStep::Tie)
    );
    assert_eq!(
        decisive_step(&confed, &plain, Strategy::Rfc4271),
        (Order::Less, DecisionStep::AsPathLength)
    );
}
