use netom::best_path::select::RotondaPaMap;
use netom::flowspec::metrics::{FlowSpecMetrics, FlowSpecRuleCounts};
use netom::flowspec::nlri::{
    decode_actions, frame_nlri, parse_raw_nlri, rule_communities, Action,
};
use netom::flowspec::rules::{FlowSpecRuleSet, FlowSpecValidity};
use netom::metrics::Target;

fn pamap(fill: u8) -> RotondaPaMap {
    RotondaPaMap::from_raw(vec![0, 0, fill, fill, fill])
}

#[test]
fn upsert_iter_remove_round_trip() {
    let mut rs = FlowSpecRuleSet::default();
    assert!(rs.is_empty());
    assert_eq!(rs.rule_count(), 0);

    let nlri_a = [0x01u8, 0x18, 10, 0, 1, 0x03, 0x81, 0x11];
    let nlri_b = [0x01u8, 0x18, 10, 0, 1, 0x05, 0x81, 0x35];

    assert!(!rs.upsert(&nlri_a, &pamap(0xaa), FlowSpecValidity::Valid));
    assert!(!rs.upsert(&nlri_b, &pamap(0xbb), FlowSpecValidity::Invalid));
    assert_eq!(rs.rule_count(), 2);

    let rules = rs.to_vec();
    assert_eq!(rules[0].nlri, nlri_a);
    assert_eq!(rules[0].validity, FlowSpecValidity::Valid);
    assert_eq!(rules[1].nlri, nlri_b);
    assert_eq!(rules[1].validity, FlowSpecValidity::Invalid);
    assert_eq!(rules[0].pamap.raw()[2], 0xaa);

    assert!(rs.upsert(&nlri_a, &pamap(0xcc), FlowSpecValidity::Valid));
    assert_eq!(rs.rule_count(), 2);
    let rules = rs.to_vec();
    assert_eq!(rules[1].nlri, nlri_a);
    assert_eq!(rules[1].pamap.raw()[2], 0xcc);

    assert!(rs.remove(&nlri_b));
    assert!(!rs.remove(&nlri_b));
    assert_eq!(rs.rule_count(), 1);
    assert!(rs.remove(&nlri_a));
    assert!(rs.is_empty());
    assert_eq!(rs.as_ref().len(), 0);
}

#[test]
fn a_rule_set_tells_its_size() {
    let mut rs = FlowSpecRuleSet::default();
    assert_eq!(rs.byte_size(), 0);
    rs.upsert(&[3, 0x81, 0x11], &pamap(1), FlowSpecValidity::Valid);
    assert_eq!(rs.byte_size(), rs.as_ref().len());
    assert!(rs.to_text().contains('1'), "{}", rs.to_text());
}

#[test]
fn store_meta_round_trip() {
    let mut rs = FlowSpecRuleSet::default();
    let nlri = [0x03u8, 0x81, 0x11];
    rs.upsert(&nlri, &pamap(0x42), FlowSpecValidity::Unvalidatable);
    let restored = FlowSpecRuleSet::from_raw(rs.as_ref().to_vec());
    assert_eq!(restored.as_ref(), rs.as_ref());
    let mut rules = restored.iter();
    let rule = rules.next().unwrap();
    assert!(rules.next().is_none());
    assert_eq!(rule.nlri, nlri);
    assert_eq!(rule.validity, FlowSpecValidity::Unvalidatable);
}

#[test]
fn hostile_bytes_do_not_panic() {
    let rs = FlowSpecRuleSet::from_raw(vec![9, 1, 2, 3]);
    assert_eq!(rs.rule_count(), 0);
    let rs = FlowSpecRuleSet::from_raw(vec![1, 0, 0]);
    assert_eq!(rs.rule_count(), 0);
    let rs = FlowSpecRuleSet::from_raw(vec![1, 0, 0, 5, 0, 0, 0, 5, 1, 2]);
    assert_eq!(rs.rule_count(), 0);
    let mut rs = FlowSpecRuleSet::default();
    rs.upsert(&[0x03, 0x81, 0x11], &pamap(1), FlowSpecValidity::Valid);
    let mut bytes = rs.as_ref().to_vec();
    bytes.extend_from_slice(&[0xff, 0xff]);
    let rs = FlowSpecRuleSet::from_raw(bytes);
    assert_eq!(rs.rule_count(), 1);
    let mut rs = FlowSpecRuleSet::from_raw(vec![9, 1, 2, 3]);
    assert!(!rs.remove(&[1, 2]));
}

fn counts(v4: u64, v6: u64) -> FlowSpecRuleCounts {
    let mut counts = FlowSpecRuleCounts::default();
    counts.set(v4, v6);
    counts
}

#[test]
fn metrics_sum_live_rib_rule_counts() {
    let mut metrics = FlowSpecMetrics::default();
    let first = metrics.register_rule_counts();
    let second = metrics.register_rule_counts();
    metrics.update_rule_counts(first, Some(counts(2, 3)));
    metrics.update_rule_counts(second, Some(counts(5, 7)));
    assert_eq!(metrics.rules(), (7, 10));

    metrics.update_rule_counts(first, None);
    assert_eq!(metrics.rules(), (5, 7));
}

#[test]
fn rule_counts_saturate_and_track_mutations() {
    let mut counts = FlowSpecRuleCounts::default();
    counts.add(true, -1);
    assert_eq!(counts.snapshot().0, 0);

    let generation = counts.recount_generation().unwrap();
    {
        let mutation = counts.begin_mutation();
        assert!(counts.recount_generation().is_none());
        counts.add(true, 1);
        counts.end_mutation(mutation);
    }
    assert!(!counts.generation_is_quiescent(generation));
    assert_eq!(counts.snapshot().0, 1);
}

#[test]
fn updates_are_measured_by_family() {
    let mut metrics = FlowSpecMetrics::default();
    metrics.note_update(true, false);
    metrics.note_update(true, false);
    metrics.note_update(false, true);
    let mut target = Target::new();
    metrics.append(&mut target);
    let values: Vec<u64> = target.samples.iter().map(|s| s.value).collect();
    assert_eq!(values, [2, 0, 0, 1, 0, 0]);
    assert_eq!(target.samples[0].metric.name, "flowspec_updates");
    assert_eq!(
        target.samples[3].labels,
        vec![("afi".to_string(), "ipv6".to_string()), ("op".to_string(), "withdraw".to_string())]
    );
}

#[test]
fn a_long_rule_has_a_header_of_two_octets() {
    assert_eq!(frame_nlri(&[1, 2]).unwrap(), [2, 1, 2]);
    assert_eq!(frame_nlri(&[0; 300]).unwrap()[..2], [0xf1, 44]);
    assert!(frame_nlri(&[0; 5000]).is_none());
}

#[test]
fn rules_are_parsed_from_their_raw_form() {
    let raw = [0x01u8, 0x18, 10, 0, 1, 0x03, 0x81, 0x11];
    let parsed = parse_raw_nlri(&raw, true).unwrap();
    assert!(parsed.v4);
    assert_eq!(parsed.raw, raw);
    // Components that do not parse.
    assert!(parse_raw_nlri(&[0xff, 1, 2], true).is_none());
    // Those of IPv6 rules are not looked at.
    assert!(parse_raw_nlri(&[0xff, 1, 2], false).is_some());
}

/// The attributes of a rule: an extended community that stands for an action
/// and one that does not, and an IPv6 extended community.
fn with_communities() -> RotondaPaMap {
    let mut raw = vec![0, 1, 0xc0, 16, 16];
    raw.extend_from_slice(&[0x80, 6, 0, 0, 0, 0, 0, 0]);
    raw.extend_from_slice(&[0, 2, 0, 1, 0, 0, 0, 1]);
    raw.extend_from_slice(&[0xc0, 25, 20]);
    raw.extend_from_slice(&[9; 20]);
    RotondaPaMap::from_raw(raw)
}

#[test]
fn communities_are_read_out_of_the_attributes() {
    let (extended, ipv6) = rule_communities(&with_communities());
    assert_eq!(extended, vec![vec![0x80, 6, 0, 0, 0, 0, 0, 0], vec![0, 2, 0, 1, 0, 0, 0, 1]]);
    assert_eq!(ipv6, vec![vec![9; 20]]);
    for raw in [vec![], vec![0], vec![0, 1], vec![0, 1, 0xc0, 16, 3, 1, 2, 3]] {
        assert_eq!(rule_communities(&RotondaPaMap::from_raw(raw)), (vec![], vec![]));
    }
}

#[test]
fn actions_that_are_none_are_left_out() {
    let action = |community: Vec<u8>, text: &str| Action { community, text: text.to_string() };
    let known = [
        action(vec![9; 20], "redirect"),
        action(vec![1; 8], "not there"),
        action(vec![0x80, 6, 0, 0, 0, 0, 0, 0], "discard"),
    ];
    assert_eq!(decode_actions(&with_communities(), &known), vec!["discard", "redirect"]);
    assert!(decode_actions(&with_communities(), &[]).is_empty());
}

#[test]
fn a_rule_that_comes_and_goes_leaves_no_trace() {
    let pamap = RotondaPaMap::from_raw(vec![0, 1, 2, 3]);
    let mut rules = FlowSpecRuleSet::default();
    rules.upsert(&[1], &pamap, FlowSpecValidity::Valid);
    let before = rules.as_ref().to_vec();
    assert!(!rules.remove(&[9]));
    assert_eq!(rules.as_ref(), before);
    rules.upsert(&[2, 3], &pamap, FlowSpecValidity::Valid);
    assert!(rules.remove(&[2, 3]));
    assert_eq!(rules.as_ref(), before);
    assert!(rules.remove(&[1]));
    assert!(rules.as_ref().is_empty());
}

#[test]
fn a_recount_waits_for_changes_and_remembers_how_many_there_were() {
    let mut counts = FlowSpecRuleCounts::default();
    assert_eq!(counts.recount_generation(), Some(0));
    let first = counts.begin_mutation();
    let second = counts.begin_mutation();
    counts.add(true, 5);
    counts.end_mutation(first);
    assert_eq!(counts.recount_generation(), None);
    counts.end_mutation(second);
    counts.set(1, 2);
    assert_eq!(counts.recount_generation(), Some(2));
}
