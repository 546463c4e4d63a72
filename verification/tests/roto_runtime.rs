use netom::addr::IpAddr;
use netom::metrics::Target;
use netom::rib_metrics::{store_totals, RibUnitMetrics, RouterMetrics, StoreCounts};
use netom::roto_runtime::explode::{
    explode_announcements, explode_withdrawals, ParseError, RouteFamily,
};
use netom::roto_runtime::records::{
    CustomLogEntry, LogEntry, Output, OutputStream, OutputStreamMessage,
    OutputStreamMessageRecord,
};
use netom::roto_runtime::types::{FilterName, PeerId, PeerRibType, RibType, RotoScripts};
use netom::roto_runtime::unsupported::{first_sight_message, UnsupportedAfiSafiMetrics};

const IPV4_FLOWSPEC: (u16, u8) = (1, 133);
const IPV6_MPLS_VPN_UNICAST: (u16, u8) = (2, 128);

#[test]
fn unsupported_afisafi_counter_increments_and_renders() {
    let mut m = UnsupportedAfiSafiMetrics::default();
    let now = 0;
    m.note(IPV4_FLOWSPEC, now);
    m.note(IPV4_FLOWSPEC, now);
    m.note(IPV6_MPLS_VPN_UNICAST, now);

    let mut target = Target::new();
    m.append(&mut target);

    let row = |i: usize| {
        let s = &target.samples[i];
        (s.metric.name, s.labels[0].0.as_str(), s.labels[0].1.as_str(), s.value)
    };
    assert_eq!(row(0), ("unsupported_afisafi_dropped", "afi_safi", "Ipv4FlowSpec", 2));
    assert_eq!(row(1), ("unsupported_afisafi_dropped", "afi_safi", "Ipv6MplsVpnUnicast", 1));
}

#[test]
fn unsupported_afisafi_metric_absent_until_first_drop() {
    let m = UnsupportedAfiSafiMetrics::default();
    let mut target = Target::new();
    m.append(&mut target);
    assert!(target.samples.is_empty());
}

#[test]
fn drops_are_told_once_and_then_together() {
    let mut m = UnsupportedAfiSafiMetrics::default();
    let second = 1_000_000_000;
    assert!(m.note(IPV6_MPLS_VPN_UNICAST, 0).first_sight);
    assert!(m.note(IPV4_FLOWSPEC, second).first_sight);
    let noted = m.note(IPV4_FLOWSPEC, 59 * second);
    assert!(!noted.first_sight);
    assert!(noted.summary.is_none());
    let summary = m.note(IPV4_FLOWSPEC, 61 * second).summary.unwrap();
    assert_eq!(summary.total, 4);
    assert_eq!(
        summary.message(),
        "Dropped 4 route(s) with unsupported AFI/SAFI over the last 61s (no RotondaRoute \
         representation, not stored in any RIB): Ipv4FlowSpec=3, Ipv6MplsVpnUnicast=1"
    );
    // The next window starts with the next drop.
    assert!(m.note(IPV4_FLOWSPEC, 200 * second).summary.is_none());
    assert!(first_sight_message((99, 9)).contains("UnsupportedAfiSafi(99, 9)"));
    for (family, name) in [
        ((1, 1), "Ipv4Unicast"),
        ((1, 2), "Ipv4Multicast"),
        ((1, 4), "Ipv4MplsUnicast"),
        ((1, 128), "Ipv4MplsVpnUnicast"),
        ((1, 132), "Ipv4RouteTarget"),
        ((1, 133), "Ipv4FlowSpec"),
        ((2, 1), "Ipv6Unicast"),
        ((2, 2), "Ipv6Multicast"),
        ((2, 4), "Ipv6MplsUnicast"),
        ((2, 128), "Ipv6MplsVpnUnicast"),
        ((2, 133), "Ipv6FlowSpec"),
        ((25, 65), "L2VpnVpls"),
        ((25, 70), "L2VpnEvpn"),
    ] {
        assert!(first_sight_message(family).contains(name), "{name}");
    }
}

/// An UPDATE message.
fn update(withdrawn: &[u8], attributes: &[u8], announced: &[u8]) -> Vec<u8> {
    let mut body = Vec::new();
    body.extend_from_slice(&(withdrawn.len() as u16).to_be_bytes());
    body.extend_from_slice(withdrawn);
    body.extend_from_slice(&(attributes.len() as u16).to_be_bytes());
    body.extend_from_slice(attributes);
    body.extend_from_slice(announced);
    let mut pdu = vec![0xff; 16];
    pdu.extend_from_slice(&((body.len() + 19) as u16).to_be_bytes());
    pdu.push(2);
    pdu.extend(body);
    pdu
}

#[test]
fn announcements_become_routes_with_the_attributes_of_the_message() {
    let attributes = [64, 1, 1, 0, 64, 2, 6, 2, 1, 0, 0, 0xfd, 0xe8, 64, 3, 4, 192, 0, 2, 1];
    let pdu = update(&[], &attributes, &[24, 10, 0, 1, 16, 172, 16]);
    let exploded = explode_announcements(&pdu, true, &[]);
    let routes = exploded.routes.unwrap();
    assert_eq!(routes.len(), 2);
    assert_eq!(routes[0].family, RouteFamily::Ipv4Unicast);
    assert_eq!(routes[0].prefix, [24, 10, 0, 1]);
    assert_eq!(routes[1].prefix, [16, 172, 16]);
    let mut blob = vec![0, 1];
    blob.extend_from_slice(&attributes);
    assert_eq!(routes[0].attributes.raw(), &blob);
    assert_eq!(routes[1].attributes.raw(), &blob);
    assert!(exploded.dropped.is_empty());
}

#[test]
fn withdrawals_become_routes_without_attributes() {
    let pdu = update(&[24, 10, 0, 1], &[], &[]);
    let routes = explode_withdrawals(&pdu, false, &[]).routes.unwrap();
    assert_eq!(routes.len(), 1);
    assert_eq!(routes[0].prefix, [24, 10, 0, 1]);
    assert_eq!(routes[0].attributes.raw(), &vec![0, 0]);
}

#[test]
fn destinations_that_make_no_route_are_dropped() {
    // A rule for a traffic filter in MP_REACH_NLRI.
    let reach = [0x80, 14, 9, 0, 1, 133, 0, 0, 3, 3, 0x81, 0x11];
    let pdu = update(&[], &reach, &[24, 10, 0, 1]);
    let exploded = explode_announcements(&pdu, true, &[]);
    assert_eq!(exploded.dropped, vec![IPV4_FLOWSPEC]);
    assert_eq!(exploded.routes.unwrap().len(), 1);
    // With path identifiers.
    let pdu = update(&[], &[], &[0, 0, 0, 7, 24, 10, 0, 1]);
    let exploded = explode_announcements(&pdu, true, &[(1, 1)]);
    assert_eq!(exploded.dropped, vec![(1, 1)]);
    assert!(exploded.routes.unwrap().is_empty());
}

/// MP_REACH_NLRI with destinations of a labelled family.
fn labelled(family: (u16, u8), next_hop: usize, destinations: &[u8]) -> Vec<u8> {
    let mut value = family.0.to_be_bytes().to_vec();
    value.push(family.1);
    value.push(next_hop as u8);
    value.extend(vec![1; next_hop]);
    value.push(0);
    value.extend_from_slice(destinations);
    let mut attribute = vec![0x80, 14, value.len() as u8];
    attribute.extend(value);
    attribute
}

#[test]
fn labelled_destinations_are_dropped_and_too_long_ones_refused() {
    // Two destinations with one label each, and one with two.
    let fine = [48, 0, 1, 1, 10, 0, 1, 56, 0, 1, 1, 10, 0, 1, 1, 64, 0, 1, 0, 0, 2, 1, 10, 0];
    let pdu = update(&[], &labelled((1, 4), 4, &fine), &[]);
    let exploded = explode_announcements(&pdu, true, &[]);
    assert_eq!(exploded.dropped, vec![(1, 4), (1, 4), (1, 4)]);
    assert!(exploded.routes.unwrap().is_empty());
    // 33 bits of an IPv4 address behind a label, and in the family next to it.
    let long = [57, 0, 1, 1, 10, 0, 1, 1, 0];
    let pdu = update(&[], &labelled((1, 4), 4, &long), &[24, 10, 0, 1]);
    let exploded = explode_announcements(&pdu, true, &[]);
    assert_eq!(exploded.routes.unwrap_err(), ParseError);
    assert!(exploded.dropped.is_empty());
    let pdu = update(&[], &labelled((2, 4), 16, &long), &[]);
    assert_eq!(explode_announcements(&pdu, true, &[]).dropped, vec![(2, 4)]);
    // A route distinguisher takes eight octets more.
    let vpn = [112, 0, 1, 1, 0, 0, 0, 0, 0, 0, 0, 1, 10, 0, 1];
    let pdu = update(&[], &labelled((1, 128), 12, &vpn), &[]);
    assert_eq!(explode_announcements(&pdu, true, &[]).dropped, vec![(1, 128)]);
    let vpn = [122, 0, 1, 1, 0, 0, 0, 0, 0, 0, 0, 1, 10, 0, 1, 1, 0];
    let pdu = update(&[], &labelled((1, 128), 12, &vpn), &[]);
    assert!(explode_announcements(&pdu, true, &[]).routes.is_err());
    // With path identifiers.
    let with_id = [0, 0, 0, 9, 48, 0, 1, 1, 10, 0, 1];
    let pdu = update(&[], &labelled((1, 4), 4, &with_id), &[]);
    assert_eq!(explode_announcements(&pdu, true, &[(1, 4)]).dropped, vec![(1, 4)]);
    let with_id = [0, 0, 0, 9, 60, 0, 1, 1, 10, 0, 1, 1, 0];
    let pdu = update(&[], &labelled((1, 4), 4, &with_id), &[]);
    assert!(explode_announcements(&pdu, true, &[(1, 4)]).routes.is_err());
    // What stands behind a destination with host bits set is not read.
    let behind = [44, 0, 1, 1, 10, 0, 1, 57, 0, 1, 1, 10, 0, 1, 1, 0];
    let pdu = update(&[], &labelled((1, 4), 4, &behind), &[]);
    assert!(explode_announcements(&pdu, true, &[]).routes.is_err());
    // Withdrawals.
    let unreach = [0x80, 15, 10, 0, 1, 4, 48, 0x80, 0, 0, 10, 0, 1];
    let pdu = update(&[], &unreach, &[]);
    assert_eq!(explode_withdrawals(&pdu, true, &[]).dropped, vec![(1, 4)]);
    let unreach = [0x80, 15, 12, 0, 1, 4, 64, 0x80, 0, 0, 10, 0, 1, 1, 1];
    let pdu = update(&[24, 10, 0, 1], &unreach, &[]);
    assert!(explode_withdrawals(&pdu, true, &[]).routes.is_err());
}

#[test]
fn what_is_no_message_is_an_error() {
    assert_eq!(explode_announcements(&[1, 2, 3], true, &[]).routes.unwrap_err(), ParseError);
    assert_eq!(explode_withdrawals(&[], true, &[]).routes.unwrap_err(), ParseError);
}

#[test]
fn scripts_are_found_by_filter() {
    let scripts = RotoScripts::new(vec![
        ("a".to_string().into(), "x.roto".to_string()),
        ("b".to_string().into(), "x.roto".to_string()),
        ("a".to_string().into(), "y.roto".to_string()),
    ]);
    let name = FilterName::from("a".to_string());
    assert_eq!(scripts.get(&name).unwrap(), "y.roto");
    assert!(scripts.get(&FilterName::default()).is_none());
    let mut names: Vec<String> =
        scripts.get_filter_names().iter().map(|n| n.as_str().to_string()).collect();
    names.sort();
    assert_eq!(names, ["a", "b"]);
    let mut origins = scripts.get_script_origins();
    origins.sort();
    assert_eq!(origins, ["x.roto", "y.roto"]);
}

#[test]
fn ribs_are_told_by_place_and_policy() {
    assert_eq!(PeerRibType::from_rib(true, RibType::AdjRibIn), PeerRibType::InPost);
    assert_eq!(PeerRibType::from_rib(false, RibType::AdjRibOut), PeerRibType::OutPre);
    assert_eq!(PeerRibType::from_rib(true, RibType::LocRib), PeerRibType::Loc);
    assert_eq!(PeerRibType::default(), PeerRibType::OutPost);
    assert_eq!(PeerRibType::InPre.as_str(), "adj-RIB-in-pre");
    assert_eq!(PeerRibType::OutPost.name(), "OutPost");
    let peer = PeerId::new(IpAddr::V4(1), 65001);
    assert_eq!((peer.addr, peer.asn), (IpAddr::V4(1), 65001));
}

#[test]
fn a_stream_hands_out_its_messages_in_order() {
    let mut stream: OutputStream<Output> = OutputStream::new();
    assert!(stream.is_empty());
    stream.push(Output::Asn(1));
    stream.push(Output::PeerDown);
    stream.entry().origin_as = Some(65001);
    let messages = stream.drain();
    assert!(matches!(messages[..], [Output::Asn(1), Output::PeerDown]));
    assert!(stream.is_empty());
    assert_eq!(stream.take_entry().origin_as, Some(65001));
    assert_eq!(stream.take_entry().origin_as, None);
}

#[test]
fn messages_have_a_topic() {
    let message = OutputStreamMessage::custom(1, 2, Some(7));
    assert_eq!(message.get_name(), "mqtt");
    assert_eq!(message.get_topic(), "custom");
    assert_eq!(message.get_ingress_id(), Some(7));
    assert!(matches!(
        message.get_record(),
        OutputStreamMessageRecord::Custom(CustomLogEntry { id: 1, value: 2 })
    ));
    for (message, topic) in [
        (OutputStreamMessage::prefix(None, None), "prefix"),
        (OutputStreamMessage::community(None, None), "community"),
        (OutputStreamMessage::asn(None, None), "asn"),
        (OutputStreamMessage::origin(None, None), "origin"),
    ] {
        assert_eq!(message.get_topic(), topic);
        assert!(matches!(message.into_record(), OutputStreamMessageRecord::Route(None)));
    }
    let down = OutputStreamMessage::peer_down("n".into(), "t".into(), IpAddr::V4(1), 2, None);
    assert_eq!((down.get_name().as_str(), down.get_topic().as_str()), ("n", "t"));
    let mut entry = LogEntry::new();
    entry.custom = Some("x".into());
    entry.mp_reach = Some(3);
    let entry = OutputStreamMessage::entry(entry, None);
    assert_eq!(entry.get_topic(), "log_entry");
    let stamped = entry.into_record().into_timestamped(5);
    assert_eq!(stamped.timestamp, 5);
    let OutputStreamMessageRecord::Entry(entry) = stamped.record else {
        panic!("not an entry");
    };
    assert_eq!(entry.into_minimal().mp_reach, Some(3));
}

#[test]
fn routers_are_forgotten_after_a_minute() {
    let mut metrics = RibUnitMetrics::new();
    metrics.num_routes_announced = 5;
    assert_eq!(
        metrics.router_metrics(7, 1000),
        RouterMetrics { last_e2e_delay_millis: 0, last_e2e_delay_at: 1000 }
    );
    metrics.set_router_metrics(
        8,
        RouterMetrics { last_e2e_delay_millis: 33, last_e2e_delay_at: 2000 },
    );
    assert_eq!(metrics.router_metrics(8, 9999).last_e2e_delay_millis, 33);
    let stores = [
        StoreCounts { prefixes: 1, routes: 2 },
        StoreCounts { prefixes: 3, routes: 4 },
    ];
    assert_eq!(store_totals(&stores), (4, 6));
    let mut target = Target::new();
    metrics.append("rib", &mut target, Some(&stores), 61_000);
    assert_eq!(target.samples.len(), 12);
    assert_eq!(target.samples[0].value, 4);
    assert_eq!(target.samples[1].value, 6);
    assert_eq!(target.samples[4].value, 5);
    let mut target = Target::new();
    metrics.append("rib", &mut target, None, 61_001);
    assert_eq!(target.samples.len(), 11);
    assert_eq!(target.samples[0].value, 0);
    let router = target.samples.last().unwrap();
    assert_eq!(router.labels, vec![("router".to_string(), "8".to_string())]);
    assert_eq!(router.value, 33);
}
