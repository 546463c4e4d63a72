use netom::addr::IpAddr;
use netom::bgp_in::connector::{
    check_source, has_live_session, jitter, next_step, prefix_warning, reconcile, retry_delay,
    session_name, timed_out, DialStep, Dialer, PeerConfig, PrefixOrExact,
};
use netom::bgp_in::neighbors::{
    bmp_neighbors, collect, matching, neighbor, IngressRecord, IngressState, PeerSource,
};
use netom::bgp_in::session_status::{BgpSessionRegistry, FsmState, SessionStatus};
use netom::daemon_info::ApiError;
use netom::ingress::{IngressInfo, IngressType};
use netom::keyed::Keyed;
use netom::peer_stats::BgpPeerStatsRegistry;
use netom::roto_runtime::types::PeerRibType;
use routecore::bgp::fsm::state_machine::State;

/// An address from its text: four numbers, or one of the IPv6 addresses that
/// the tests use.
fn ip(s: &str) -> IpAddr {
    match s {
        "::" => IpAddr::V6(0),
        "::1" => IpAddr::V6(1),
        "2001:db8::1" => IpAddr::V6(0x2001_0db8_0000_0000_0000_0000_0000_0001),
        _ => {
            let octets: Vec<u8> = s.split('.').map(|n| n.parse().unwrap()).collect();
            assert_eq!(octets.len(), 4, "{s}");
            IpAddr::V4(octets.iter().fold(0, |bits, n| bits * 256 + *n as u32))
        }
    }
}

#[test]
fn fsm_states_round_trip_through_their_wire_form() {
    for state in [
        FsmState::Idle,
        FsmState::Connect,
        FsmState::Active,
        FsmState::OpenSent,
        FsmState::OpenConfirm,
        FsmState::Established,
    ] {
        assert_eq!(FsmState::from_u8(state.as_u8()), state);
    }
}

#[test]
fn converts_from_routecore_states() {
    let from = |state: State| FsmState::from_u16(u16::from(state));
    assert_eq!(from(State::Idle), FsmState::Idle);
    assert_eq!(from(State::Connect), FsmState::Connect);
    assert_eq!(from(State::Active), FsmState::Active);
    assert_eq!(from(State::OpenSent), FsmState::OpenSent);
    assert_eq!(from(State::OpenConfirm), FsmState::OpenConfirm);
    assert_eq!(from(State::Established), FsmState::Established);
}

#[test]
fn unknown_numbers_are_taken_for_idle() {
    assert_eq!(FsmState::from_u8(0), FsmState::Idle);
    assert_eq!(FsmState::from_u8(7), FsmState::Idle);
    assert_eq!(FsmState::from_u16(256 + 6), FsmState::Established);
    assert_eq!(FsmState::OpenConfirm.as_str(), "OpenConfirm");
}

#[test]
fn set_state_reports_only_real_changes() {
    let mut status = SessionStatus::default();
    assert_eq!(status.state(), FsmState::Idle);
    assert!(!status.set_state(FsmState::Idle, 1));
    assert!(status.set_state(FsmState::Active, 1));
    assert!(!status.set_state(FsmState::Active, 1));
    assert_eq!(status.state(), FsmState::Active);
}

#[test]
fn uptime_is_only_reported_while_established() {
    let mut status = SessionStatus::default();
    assert_eq!(status.uptime_secs(1000), None);

    status.set_state(FsmState::Established, 1000);
    assert!(status.uptime_secs(1000).is_some());
    assert_eq!(status.uptime_secs(1060), Some(60));
    assert_eq!(status.uptime_secs(900), Some(0));

    status.set_state(FsmState::Idle, 1000);
    assert_eq!(status.uptime_secs(1000), None);
}

#[test]
fn registry_returns_the_same_entry_for_one_peer() {
    let mut reg = BgpSessionRegistry::default();
    let a = reg.get_or_create(ip("10.0.0.1"));
    a.inc_updates_received();
    let b = reg.get_or_create(ip("10.0.0.1"));
    assert_eq!(b.updates_received(), 1);
    assert_eq!(reg.snapshot().len(), 1);
}

#[test]
fn snapshot_is_ordered_by_peer_address() {
    let mut reg = BgpSessionRegistry::default();
    reg.get_or_create(ip("10.0.0.3"));
    reg.get_or_create(ip("10.0.0.1"));
    reg.get_or_create(ip("10.0.0.2"));
    let addrs: Vec<_> =
        reg.snapshot().into_iter().map(|(a, _)| a).collect();
    assert_eq!(
        addrs,
        vec![ip("10.0.0.1"), ip("10.0.0.2"), ip("10.0.0.3")]
    );
}

#[test]
fn unconfigured_idle_peers_are_forgotten() {
    let mut reg = BgpSessionRegistry::default();

    reg.get_or_create(ip("10.0.0.1")).set_configured(true);
    reg.get_or_create(ip("10.0.0.2"));
    reg.get_or_create(ip("10.0.0.3"))
        .set_state(FsmState::Established, 1);

    reg.forget_unconfigured_idle();

    let addrs: Vec<_> =
        reg.snapshot().into_iter().map(|(a, _)| a).collect();
    assert_eq!(addrs, vec![ip("10.0.0.1"), ip("10.0.0.3")]);
}

#[test]
fn unconfigured_peers_stay_only_while_established() {
    let mut reg = BgpSessionRegistry::default();
    for (n, state) in [FsmState::Connect, FsmState::Active, FsmState::OpenSent].iter().enumerate() {
        let peer = IpAddr::V4(n as u32);
        reg.get_or_create(peer).set_state(*state, 1);
        let configured = reg.get_or_create(IpAddr::V4(100 + n as u32));
        configured.set_state(*state, 1);
        configured.set_configured(true);
    }
    reg.forget_unconfigured_idle();
    let addrs: Vec<_> = reg.snapshot().into_iter().map(|(a, _)| a).collect();
    assert_eq!(addrs, vec![IpAddr::V4(100), IpAddr::V4(101), IpAddr::V4(102)]);
}

#[test]
fn configured_marks_can_be_cleared_for_a_reload() {
    let mut reg = BgpSessionRegistry::default();
    let status = reg.get_or_create(ip("10.0.0.1"));
    status.set_configured(true);
    reg.clear_configured_marks();
    assert!(!reg.get(ip("10.0.0.1")).unwrap().configured());
}

#[test]
fn zero_stands_for_what_is_not_known() {
    let mut status = SessionStatus::default();
    assert_eq!(status.ingress_id(), None);
    assert_eq!(status.hold_time(), None);
    assert_eq!(status.remote_asn(), None);
    status.set_ingress_id(7);
    status.set_hold_time(90);
    status.set_remote_asn(65001);
    status.set_connect_mode(true);
    status.set_name("PeerA".into());
    status.set_last_error("reset".into());
    status.inc_notifications_received();
    status.inc_notifications_sent();
    assert_eq!(status.ingress_id(), Some(7));
    assert_eq!(status.hold_time(), Some(90));
    assert_eq!(status.remote_asn(), Some(65001));
    assert!(status.connect_mode());
    assert_eq!(status.name().as_deref(), Some("PeerA"));
    assert_eq!(status.last_error().as_deref(), Some("reset"));
    assert_eq!(status.notifications_received(), 1);
    assert_eq!(status.notifications_sent(), 1);
}

fn record(kind: IngressType, addr: &str, parent: Option<u32>, up: bool) -> IngressRecord {
    let mut info = IngressInfo::new();
    info.ingress_type = Some(kind);
    info.remote_addr = Some(ip(addr));
    info.parent_ingress = parent;
    info.bgp_id = Some([10, 99, 0, 7]);
    IngressRecord {
        info,
        state: Some(if up { IngressState::Connected } else { IngressState::Disconnected }),
        came_up: Some(77),
        peer_rib_type: Some(PeerRibType::InPre),
    }
}

#[test]
fn neighbors_of_both_sources_are_listed_by_address() {
    let mut sessions = BgpSessionRegistry::default();
    let mut stats = BgpPeerStatsRegistry::new();
    let status = sessions.get_or_create(ip("192.0.2.9"));
    status.set_state(FsmState::Established, 100);
    status.set_ingress_id(5);
    stats.get_or_create(5).add_adj_rib_in((1, 1), 12);
    stats.get_or_create(5).inc_dup_prefix_advertisements(3);
    let mut register = Keyed::new();
    register.insert(2, record(IngressType::Bmp, "10.99.0.1", None, true));
    register.insert(3, record(IngressType::BgpViaBmp, "192.0.2.7", Some(2), true));
    register.insert(4, record(IngressType::BgpViaBmp, "192.0.2.8", Some(2), false));

    let seen = bmp_neighbors(&register);
    assert_eq!(seen.len(), 2);

    let all = collect(&sessions, &stats, &register, 160);
    let addrs: Vec<_> = all.iter().map(|n| n.peer_address.unwrap()).collect();
    assert_eq!(addrs, vec![ip("192.0.2.7"), ip("192.0.2.8"), ip("192.0.2.9")]);
    assert_eq!(all[0].source, Some(PeerSource::Bmp));
    assert_eq!(all[0].state, Some(FsmState::Established));
    assert_eq!(all[0].up_seconds, Some(77));
    assert_eq!(all[0].via_router, Some(ip("10.99.0.1")));
    assert_eq!(all[0].router_id.as_deref(), Some("10.99.0.7"));
    // A session that is gone has no time, though the register keeps it.
    assert_eq!(all[1].state, Some(FsmState::Idle));
    assert_eq!(all[1].up_seconds, None);
    assert_eq!(all[2].up_seconds, Some(60));
    assert_eq!(all[2].prefixes_received, Some(12));
    assert_eq!(all[2].dup_prefix_advertisements, Some(3));
    assert_eq!(matching(all, ip("192.0.2.8")).len(), 1);
}

fn config(connect: bool, port: u16) -> PeerConfig {
    PeerConfig {
        name: "p".into(),
        connect,
        remote_port: port,
        source_addr: None,
        md5_key: None,
        connect_retry_secs: 4,
        rest: "".into(),
    }
}

#[test]
fn dialers_are_held_against_the_configuration() {
    let configs = vec![
        (PrefixOrExact::Exact(ip("10.0.0.1")), config(true, 179)),
        (PrefixOrExact::Exact(ip("10.0.0.2")), config(true, 1179)),
        (PrefixOrExact::Exact(ip("10.0.0.3")), config(false, 179)),
        (PrefixOrExact::Exact(ip("10.0.0.4")), config(true, 179)),
        (PrefixOrExact::Exact(ip("10.0.0.5")), config(true, 179)),
        (PrefixOrExact::Prefix(ip("10.1.0.0"), 16), config(true, 179)),
    ];
    let mut running = Keyed::new();
    // Goes on; another port; no longer dialled; came to an end.
    running.insert(ip("10.0.0.1"), Dialer { config: config(true, 179), finished: false });
    running.insert(ip("10.0.0.2"), Dialer { config: config(true, 179), finished: false });
    running.insert(ip("10.0.0.3"), Dialer { config: config(true, 179), finished: false });
    running.insert(ip("10.0.0.4"), Dialer { config: config(true, 179), finished: true });
    let mut warned = Vec::new();
    let plan = reconcile(&configs, &running, &mut warned);
    assert_eq!(plan.stop, vec![ip("10.0.0.2"), ip("10.0.0.3"), ip("10.0.0.4")]);
    assert_eq!(
        plan.start,
        vec![(ip("10.0.0.2"), 1), (ip("10.0.0.4"), 3), (ip("10.0.0.5"), 4)]
    );
    assert_eq!(plan.warn, vec![5]);
    let plan = reconcile(&configs, &running, &mut warned);
    assert!(plan.warn.is_empty());
    assert_eq!(
        prefix_warning("p", "10.1.0.0/16"),
        "peer 'p' (10.1.0.0/16): connect = true needs an exact peer address, not a prefix; not connecting"
    );
}

#[test]
fn a_dialer_waits_for_a_live_session() {
    let cfg = config(true, 1179);
    assert_eq!(next_step(None, false), DialStep::Stop);
    assert_eq!(next_step(Some(&config(false, 1179)), false), DialStep::Stop);
    assert_eq!(next_step(Some(&cfg), true), DialStep::Wait(5));
    assert_eq!(next_step(Some(&cfg), false), DialStep::Dial(1179));
    assert!(has_live_session(&[(ip("10.0.0.1"), 65001)], ip("10.0.0.1")));
    assert!(!has_live_session(&[(ip("10.0.0.1"), 65001)], ip("10.0.0.2")));
}

#[test]
fn retries_are_spread_out() {
    assert_eq!(jitter(0, 123), 0);
    assert_eq!(jitter(9, 123), 3);
    assert_eq!(retry_delay(4, 0), 4000);
    assert_eq!(retry_delay(4, 1000), 5000);
    assert_eq!(retry_delay(4, 1001), 4000);
    assert_eq!(session_name("10.0.0.1", 179), "bgp-out[10.0.0.1:179]");
    assert_eq!(timed_out("10.0.0.1:179"), "connect to 10.0.0.1:179 timed out");
}

#[test]
fn a_source_address_of_another_family_is_refused() {
    assert!(check_source(ip("10.0.0.1"), "10.0.0.1", ip("10.0.0.2"), "10.0.0.2").is_ok());
    assert_eq!(
        check_source(ip("::1"), "::1", ip("127.0.0.1"), "127.0.0.1").unwrap_err(),
        "source_addr ::1 does not match address family of peer 127.0.0.1"
    );
}

#[test]
fn a_text_that_is_no_address_is_refused() {
    let error = neighbor(Vec::new(), "a\"b", None).unwrap_err();
    assert!(matches!(error, ApiError::BadRequest(text) if text == "\"a\\\"b\" is not an IP address"));
    assert!(neighbor(Vec::new(), "1.2.3.4", Some(ip("1.2.3.4"))).unwrap().is_empty());
}
