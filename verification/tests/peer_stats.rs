use netom::peer_stats::{BgpPeerStats, BgpPeerStatsRegistry};
use std::collections::HashMap;

#[test]
fn add_then_sub_adj_rib_in() {
    let mut s = BgpPeerStats::new();
    s.add_adj_rib_in((1, 1), 10);
    s.add_adj_rib_in((2, 1), 5);
    assert_eq!(s.adj_rib_in_routes, 15);

    s.sub_adj_rib_in((1, 1), 3);
    let snap = s.snapshot();
    assert_eq!(snap.adj_rib_in_routes, 12);
    let by_key: HashMap<_, _> =
        snap.adj_rib_in_per_afi_safi.iter().cloned().collect();
    assert_eq!(by_key[&(1u16, 1u8)], 7);
    assert_eq!(by_key[&(2u16, 1u8)], 5);
}

#[test]
fn sub_saturates_at_zero() {
    let mut s = BgpPeerStats::new();
    s.add_adj_rib_in((1, 1), 2);
    s.sub_adj_rib_in((1, 1), 99);
    assert_eq!(s.adj_rib_in_routes, 0);
}

#[test]
fn registry_get_or_create_is_idempotent() {
    let mut reg = BgpPeerStatsRegistry::new();
    let a = reg.get_or_create(42);
    a.inc_prefixes_rejected(1);
    let b = reg.get_or_create(42);
    assert_eq!(b.prefixes_rejected, 1);
    assert_eq!(reg.snapshot_all().len(), 1);
}

#[test]
fn alias_shares_the_parents_counters() {
    let mut reg = BgpPeerStatsRegistry::new();
    reg.get_or_create(42);
    assert!(reg.alias(43, 42));

    reg.get_mut(43).unwrap().add_adj_rib_in((1, 1), 3);
    assert_eq!(reg.get(42).unwrap().snapshot().adj_rib_in_routes, 3);

    let ids: Vec<_> =
        reg.snapshot_all().into_iter().map(|(id, _)| id).collect();
    assert_eq!(ids, vec![42]);
}

#[test]
fn alias_without_a_parent_is_refused() {
    let mut reg = BgpPeerStatsRegistry::new();
    assert!(!reg.alias(43, 42));
    assert!(reg.get(43).is_none());
}

#[test]
fn is_empty_tracks_membership() {
    let mut reg = BgpPeerStatsRegistry::new();
    assert!(reg.is_empty());
    reg.get_or_create(42);
    reg.alias(43, 42);
    assert!(!reg.is_empty());
    reg.remove(43);
    assert!(!reg.is_empty());
    reg.remove(42);
    assert!(reg.is_empty());
}

#[test]
fn reset_one_family_leaves_the_others() {
    let mut s = BgpPeerStats::new();
    s.add_adj_rib_in((1, 1), 10);
    s.add_adj_rib_in((2, 1), 5);
    s.reset_adj_rib_in_afi_safi((1, 1));
    let snap = s.snapshot();
    assert_eq!(snap.adj_rib_in_routes, 5);
    assert_eq!(snap.adj_rib_in_per_afi_safi, vec![((2, 1), 5)]);
}

#[test]
fn reset_clears_per_afi_safi() {
    let mut s = BgpPeerStats::new();
    s.add_adj_rib_in((1, 1), 10);
    s.add_adj_rib_in((2, 1), 5);
    s.reset_adj_rib_in();
    let snap = s.snapshot();
    assert_eq!(snap.adj_rib_in_routes, 0);
    assert!(snap.adj_rib_in_per_afi_safi.is_empty());
}

#[test]
fn counters_start_over_and_gauges_saturate() {
    let mut s = BgpPeerStats::new();
    s.inc_prefixes_rejected(u64::MAX);
    s.inc_prefixes_rejected(2);
    s.inc_dup_prefix_advertisements(4);
    assert_eq!(s.prefixes_rejected, 1);
    assert_eq!(s.dup_prefix_advertisements, 4);
    s.add_adj_rib_in((1, 1), u64::MAX);
    s.add_adj_rib_in((1, 2), 7);
    assert_eq!(s.adj_rib_in_routes, u64::MAX);
    s.sub_adj_rib_in((25, 70), 3);
    assert_eq!(s.adj_rib_in_routes, u64::MAX);
}

#[test]
fn an_alias_outlives_its_session() {
    let mut reg = BgpPeerStatsRegistry::new();
    reg.get_or_create(42).add_adj_rib_in((1, 1), 3);
    assert!(reg.alias(43, 42));
    reg.remove(42);
    assert_eq!(reg.get(43).unwrap().adj_rib_in_routes, 3);
    assert!(reg.snapshot_all().is_empty());
    // A session under the old number starts with counts of its own.
    assert_eq!(reg.get_or_create(42).adj_rib_in_routes, 0);
    assert_eq!(reg.get(43).unwrap().adj_rib_in_routes, 3);
    assert_eq!(reg.snapshot_all().len(), 1);
}

#[test]
fn an_ingress_has_an_entry_until_it_is_removed() {
    let mut reg = BgpPeerStatsRegistry::new();
    reg.get_or_create(1).inc_prefixes_rejected(3);
    assert!(reg.alias(2, 1));
    assert!(!reg.alias(3, 9));
    assert_eq!(reg.get_or_create(2).prefixes_rejected, 3);
    reg.remove(1);
    assert!(reg.get(1).is_none() && reg.get(3).is_none());
    assert_eq!(reg.get(2).unwrap().prefixes_rejected, 3);
    assert_eq!(reg.get_or_create(1).prefixes_rejected, 0);
    assert!(reg.get(1).is_some());
}
