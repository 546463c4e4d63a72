//! What is counted of each BGP peer.

use crate::ingress::IngressId;
use crate::keyed::{
    entry_removed, has_key, in_order, value_for, value_is_at, values_determine_entries, Key, Keyed,
};
use vstd::prelude::*;

verus! {

/// An address family: the AFI, then the SAFI.
pub type AfiSafiKey = (u16, u8);

/// The number by which the count of a family is found.
pub open spec fn family_number(family: AfiSafiKey) -> u32 {
    (family.0 as int * 256 + family.1 as int) as u32
}

/// The family that a number stands for.
pub open spec fn family_of(number: u32) -> AfiSafiKey {
    ((number / 256) as u16, (number % 256) as u8)
}

/// A family is that of its number.
pub proof fn family_numbers_tell_apart(family: AfiSafiKey)
    ensures
        family_of(family_number(family)) == family,
{
}

fn number_of(family: AfiSafiKey) -> (r: u32)
    ensures
        r == family_number(family),
{
    family.0 as u32 * 256 + family.1 as u32
}

/// The sum of the counts of some families.
pub open spec fn total(counts: Seq<(u32, u64)>) -> nat
    decreases counts.len(),
{
    if counts.len() == 0 {
        0
    } else {
        total(counts.drop_last()) + counts.last().1 as nat
    }
}

/// A count, with none for zero.
pub open spec fn count_or_zero(count: Option<u64>) -> u64 {
    match count {
        Some(n) => n,
        None => 0,
    }
}

/// Without one count, the sum is lower by it.
proof fn total_without(counts: Seq<(u32, u64)>, at: int)
    requires
        0 <= at < counts.len(),
    ensures
        total(counts) == total(counts.remove(at)) + counts[at].1,
    decreases counts.len(),
{
    let last = counts.len() - 1;
    if at == last {
        assert(counts.remove(at) =~= counts.drop_last());
    } else {
        total_without(counts.drop_last(), at);
        assert(counts.remove(at).drop_last() =~= counts.drop_last().remove(at));
        assert(counts.remove(at).last() == counts.last());
    }
}

/// No count is above the sum.
proof fn count_is_in_total(counts: Seq<(u32, u64)>, key: u32)
    requires
        in_order(counts),
    ensures
        count_or_zero(value_for(counts, key)) <= total(counts),
{
    if has_key(counts, key) {
        let i = choose|i: int| 0 <= i < counts.len() && (#[trigger] counts[i]).0 == key;
        value_is_at(counts, i);
        total_without(counts, i);
    }
}

/// The counts without that of one family.
spec fn without(counts: Seq<(u32, u64)>, key: u32) -> Seq<(u32, u64)> {
    if has_key(counts, key) {
        counts.remove(choose|i: int| 0 <= i < counts.len() && (#[trigger] counts[i]).0 == key)
    } else {
        counts
    }
}

proof fn without_is_less(counts: Seq<(u32, u64)>, key: u32)
    requires
        in_order(counts),
    ensures
        in_order(without(counts, key)),
        value_for(without(counts, key), key) is None,
        forall|k: u32|
            k != key ==> #[trigger] value_for(without(counts, key), k) == value_for(counts, k),
        total(counts) == total(without(counts, key)) + count_or_zero(value_for(counts, key)),
{
    if has_key(counts, key) {
        let i = choose|i: int| 0 <= i < counts.len() && (#[trigger] counts[i]).0 == key;
        entry_removed(counts, i);
        value_is_at(counts, i);
        total_without(counts, i);
    }
}

/// Where one count changes, the sum changes by as much.
proof fn total_follows(a: Keyed<u32, u64>, b: Keyed<u32, u64>, key: u32)
    requires
        a.wf(),
        b.wf(),
        forall|k: u32| k != key ==> #[trigger] b.value(k) == a.value(k),
    ensures
        total(b.entries@) - count_or_zero(b.value(key)) == total(a.entries@) - count_or_zero(
            a.value(key),
        ),
{
    without_is_less(a.entries@, key);
    without_is_less(b.entries@, key);
    let p = without(a.entries@, key);
    let q = without(b.entries@, key);
    assert forall|k: u32| value_for(p, k) == value_for(q, k) by {
        if k != key {
            assert(value_for(q, k) == b.value(k));
            assert(value_for(p, k) == a.value(k));
        }
    }
    values_determine_entries(p, q);
}

/// Whether counts are in order, each under the number of a family.
pub open spec fn counts_fit(counts: Keyed<u32, u64>) -> bool {
    &&& counts.wf()
    &&& forall|i: int|
        0 <= i < counts.entries@.len() ==> (#[trigger] counts.entries@[i]).0 < 0x100_0000
}

/// Where one count changes, the others stay under the numbers of families.
proof fn counts_stay(a: Keyed<u32, u64>, b: Keyed<u32, u64>, family: AfiSafiKey)
    requires
        counts_fit(a),
        b.wf(),
        forall|k: u32| k != family_number(family) ==> #[trigger] b.value(k) == a.value(k),
    ensures
        counts_fit(b),
{
    assert forall|i: int| 0 <= i < b.entries@.len() implies (#[trigger] b.entries@[i]).0
        < 0x100_0000 by {
        let key = b.entries@[i].0;
        if key != family_number(family) {
            value_is_at(b.entries@, i);
            assert(b.value(key) == a.value(key));
            assert(has_key(a.entries@, key));
        }
    }
}

/// What is counted of one peer, for the statistics that BMP reports. Some of
/// it is never counted: it is there so that every report has the same parts.
#[derive(Debug)]
pub struct BgpPeerStats {
    pub prefixes_rejected: u64,
    pub dup_prefix_advertisements: u64,
    pub dup_withdraws: u64,
    pub invalid_cluster_list_loops: u64,
    pub invalid_as_path_loops: u64,
    pub invalid_originator_id: u64,
    pub invalid_as_confed_loops: u64,
    pub adj_rib_in_routes: u64,
    pub loc_rib_routes: u64,
    pub adj_rib_in_per_afi_safi: Keyed<u32, u64>,
    pub loc_rib_per_afi_safi: Keyed<u32, u64>,
    pub updates_treat_as_withdraw: u64,
    pub prefixes_treat_as_withdraw: u64,
    pub dup_updates: u64,
}

/// What was counted of one peer up to some moment.
#[derive(Debug)]
pub struct BgpPeerStatsSnapshot {
    pub prefixes_rejected: u64,
    pub dup_prefix_advertisements: u64,
    pub dup_withdraws: u64,
    pub invalid_cluster_list_loops: u64,
    pub invalid_as_path_loops: u64,
    pub invalid_originator_id: u64,
    pub invalid_as_confed_loops: u64,
    pub adj_rib_in_routes: u64,
    pub loc_rib_routes: u64,
    pub adj_rib_in_per_afi_safi: Vec<(AfiSafiKey, u64)>,
    pub loc_rib_per_afi_safi: Vec<(AfiSafiKey, u64)>,
    pub updates_treat_as_withdraw: u64,
    pub prefixes_treat_as_withdraw: u64,
    pub dup_updates: u64,
}

/// Counts by family, in the order of the families.
pub open spec fn by_family(counts: Seq<(u32, u64)>) -> Seq<(AfiSafiKey, u64)> {
    counts.map_values(|count: (u32, u64)| (family_of(count.0), count.1))
}

fn list_by_family(counts: &Keyed<u32, u64>) -> (r: Vec<(AfiSafiKey, u64)>)
    ensures
        r@ == by_family(counts.entries@),
{
    let mut out: Vec<(AfiSafiKey, u64)> = Vec::new();
    let mut i: usize = 0;
    while i < counts.entries.len()
        invariant
            i <= counts.entries.len(),
            out@ == by_family(counts.entries@.take(i as int)),
        decreases counts.entries.len() - i,
    {
        let (number, count) = counts.entries[i];
        out.push((((number / 256) as u16, (number % 256) as u8), count));
        i += 1;
        assert(out@ =~= by_family(counts.entries@.take(i as int)));
    }
    assert(counts.entries@.take(i as int) =~= counts.entries@);
    out
}

impl BgpPeerStats {
    /// Whether the counts by family are in order, each under the number of its
    /// family.
    pub open spec fn wf(self) -> bool {
        counts_fit(self.adj_rib_in_per_afi_safi) && counts_fit(self.loc_rib_per_afi_safi)
    }

    /// The number of prefixes in the Adj-RIB-In of a family, if it was ever
    /// counted.
    pub open spec fn adj_rib_in(self, family: AfiSafiKey) -> Option<u64> {
        self.adj_rib_in_per_afi_safi.value(family_number(family))
    }

    /// The number of prefixes in all families.
    pub open spec fn adj_rib_in_total(self) -> nat {
        total(self.adj_rib_in_per_afi_safi.entries@)
    }

    /// Whether the number of all prefixes is the sum over the families.
    pub open spec fn adds_up(self) -> bool {
        self.adj_rib_in_routes == self.adj_rib_in_total()
    }

    /// Whether nothing but the counts of the Adj-RIB-In differs.
    pub open spec fn same_but_adj_rib_in(self, other: BgpPeerStats) -> bool {
        self == (BgpPeerStats {
            adj_rib_in_routes: self.adj_rib_in_routes,
            adj_rib_in_per_afi_safi: self.adj_rib_in_per_afi_safi,
            ..other
        })
    }

    /// Whether nothing was counted.
    pub open spec fn is_new(self) -> bool {
        self.snapshot_of() == (SnapshotView {
            prefixes_rejected: 0,
            dup_prefix_advertisements: 0,
            dup_withdraws: 0,
            invalid_cluster_list_loops: 0,
            invalid_as_path_loops: 0,
            invalid_originator_id: 0,
            invalid_as_confed_loops: 0,
            adj_rib_in_routes: 0,
            loc_rib_routes: 0,
            adj_rib_in_per_afi_safi: seq![],
            loc_rib_per_afi_safi: seq![],
            updates_treat_as_withdraw: 0,
            prefixes_treat_as_withdraw: 0,
            dup_updates: 0,
        })
    }

    /// Nothing counted.
    pub fn new() -> (r: BgpPeerStats)
        ensures
            r.is_new(),
            r.wf(),
            r.adds_up(),
            forall|family: AfiSafiKey| r.adj_rib_in(family) is None,
    {
        let r = BgpPeerStats {
            prefixes_rejected: 0,
            dup_prefix_advertisements: 0,
            dup_withdraws: 0,
            invalid_cluster_list_loops: 0,
            invalid_as_path_loops: 0,
            invalid_originator_id: 0,
            invalid_as_confed_loops: 0,
            adj_rib_in_routes: 0,
            loc_rib_routes: 0,
            adj_rib_in_per_afi_safi: Keyed::new(),
            loc_rib_per_afi_safi: Keyed::new(),
            updates_treat_as_withdraw: 0,
            prefixes_treat_as_withdraw: 0,
            dup_updates: 0,
        };
        proof {
            assert(by_family(r.adj_rib_in_per_afi_safi.entries@) =~= seq![]);
            assert(by_family(r.loc_rib_per_afi_safi.entries@) =~= seq![]);
        }
        r
    }

    /// Counts prefixes that were rejected; the count starts over behind the
    /// highest number.
    pub fn inc_prefixes_rejected(&mut self, n: u64)
        ensures
            *final(self) == (BgpPeerStats {
                prefixes_rejected: ((old(self).prefixes_rejected + n) % 0x1_0000_0000_0000_0000)
                    as u64,
                ..*old(self)
            }),
    {
        self.prefixes_rejected = self.prefixes_rejected.wrapping_add(n);
    }

    /// Counts announcements of prefixes that the peer already had in the RIB;
    /// the count starts over behind the highest number.
    pub fn inc_dup_prefix_advertisements(&mut self, n: u64)
        ensures
            *final(self) == (BgpPeerStats {
                dup_prefix_advertisements: ((old(self).dup_prefix_advertisements + n)
                    % 0x1_0000_0000_0000_0000) as u64,
                ..*old(self)
            }),
    {
        self.dup_prefix_advertisements = self.dup_prefix_advertisements.wrapping_add(n);
    }

    /// Counts prefixes that are new in the Adj-RIB-In of a family.
    pub fn add_adj_rib_in(&mut self, afi_safi: AfiSafiKey, n: u64)
        requires
            old(self).wf(),
            count_or_zero(old(self).adj_rib_in(afi_safi)) + n <= u64::MAX,
        ensures
            final(self).wf(),
            final(self).same_but_adj_rib_in(*old(self)),
            n == 0 ==> *final(self) == *old(self),
            n > 0 ==> final(self).adj_rib_in(afi_safi) == Some(
                (count_or_zero(old(self).adj_rib_in(afi_safi)) + n) as u64,
            ),
            forall|family: AfiSafiKey|
                family != afi_safi ==> #[trigger] final(self).adj_rib_in(family) == old(
                    self,
                ).adj_rib_in(family),
            forall|number: u32|
                number != family_number(afi_safi)
                    ==> #[trigger] final(self).adj_rib_in_per_afi_safi.value(number) == old(
                    self,
                ).adj_rib_in_per_afi_safi.value(number),
            final(self).adj_rib_in_total() == old(self).adj_rib_in_total() + n,
            final(self).adj_rib_in_routes == (if old(self).adj_rib_in_routes + n > u64::MAX {
                u64::MAX
            } else {
                (old(self).adj_rib_in_routes + n) as u64
            }),
            old(self).adds_up() && old(self).adj_rib_in_total() + n <= u64::MAX
                ==> final(self).adds_up(),
    {
        if n == 0 {
            return ;
        }
        let ghost before = self.adj_rib_in_per_afi_safi;
        let count = self.adj_rib_in_per_afi_safi.get_or_insert(number_of(afi_safi), 0);
        *count += n;
        proof {
            total_follows(
                before,
                self.adj_rib_in_per_afi_safi,
                family_number(afi_safi),
            );
            counts_stay(before, self.adj_rib_in_per_afi_safi, afi_safi);
            assert forall|family: AfiSafiKey| family != afi_safi implies family_number(family)
                != family_number(afi_safi) by {
                family_numbers_tell_apart(family);
                family_numbers_tell_apart(afi_safi);
            }
        }
        self.adj_rib_in_routes = self.adj_rib_in_routes.saturating_add(n);
    }

    /// Counts prefixes that leave the Adj-RIB-In of a family. No more leave
    /// than were counted.
    pub fn sub_adj_rib_in(&mut self, afi_safi: AfiSafiKey, n: u64)
        requires
            old(self).wf(),
        ensures
            final(self).wf(),
            final(self).same_but_adj_rib_in(*old(self)),
            n == 0 ==> *final(self) == *old(self),
            ({
                let counted = count_or_zero(old(self).adj_rib_in(afi_safi));
                let left = if counted < n { counted } else { n };
                &&& n > 0 ==> final(self).adj_rib_in(afi_safi) == Some((counted - left) as u64)
                &&& final(self).adj_rib_in_total() == old(self).adj_rib_in_total() - left
                &&& final(self).adj_rib_in_routes == (if old(self).adj_rib_in_routes < left {
                    0
                } else {
                    (old(self).adj_rib_in_routes - left) as u64
                })
            }),
            forall|family: AfiSafiKey|
                family != afi_safi ==> #[trigger] final(self).adj_rib_in(family) == old(
                    self,
                ).adj_rib_in(family),
            forall|number: u32|
                number != family_number(afi_safi)
                    ==> #[trigger] final(self).adj_rib_in_per_afi_safi.value(number) == old(
                    self,
                ).adj_rib_in_per_afi_safi.value(number),
            old(self).adds_up() ==> final(self).adds_up(),
    {
        if n == 0 {
            return ;
        }
        let ghost before = self.adj_rib_in_per_afi_safi;
        let count = self.adj_rib_in_per_afi_safi.get_or_insert(number_of(afi_safi), 0);
        let left: u64 = if *count < n {
            *count
        } else {
            n
        };
        *count -= left;
        proof {
            total_follows(
                before,
                self.adj_rib_in_per_afi_safi,
                family_number(afi_safi),
            );
            counts_stay(before, self.adj_rib_in_per_afi_safi, afi_safi);
            count_is_in_total(before.entries@, family_number(afi_safi));
            assert forall|family: AfiSafiKey| family != afi_safi implies family_number(family)
                != family_number(afi_safi) by {
                family_numbers_tell_apart(family);
                family_numbers_tell_apart(afi_safi);
            }
        }
        self.adj_rib_in_routes = self.adj_rib_in_routes.saturating_sub(left);
    }

    /// Forgets the prefixes of all families.
    pub fn reset_adj_rib_in(&mut self)
        ensures
            old(self).wf() ==> final(self).wf(),
            final(self).same_but_adj_rib_in(*old(self)),
            final(self).adj_rib_in_per_afi_safi.entries@.len() == 0,
            forall|family: AfiSafiKey| final(self).adj_rib_in(family) is None,
            final(self).adj_rib_in_routes == 0,
            final(self).adds_up(),
    {
        self.adj_rib_in_per_afi_safi = Keyed::new();
        self.adj_rib_in_routes = 0;
    }

    /// Forgets the prefixes of one family.
    pub fn reset_adj_rib_in_afi_safi(&mut self, afi_safi: AfiSafiKey)
        requires
            old(self).wf(),
        ensures
            final(self).wf(),
            final(self).same_but_adj_rib_in(*old(self)),
            final(self).adj_rib_in(afi_safi) is None,
            forall|family: AfiSafiKey|
                family != afi_safi ==> #[trigger] final(self).adj_rib_in(family) == old(
                    self,
                ).adj_rib_in(family),
            forall|number: u32|
                number != family_number(afi_safi)
                    ==> #[trigger] final(self).adj_rib_in_per_afi_safi.value(number) == old(
                    self,
                ).adj_rib_in_per_afi_safi.value(number),
            ({
                let dropped = count_or_zero(old(self).adj_rib_in(afi_safi));
                &&& final(self).adj_rib_in_total() == old(self).adj_rib_in_total() - dropped
                &&& final(self).adj_rib_in_routes == (if old(self).adj_rib_in_routes < dropped {
                    0
                } else {
                    (old(self).adj_rib_in_routes - dropped) as u64
                })
            }),
            old(self).adds_up() ==> final(self).adds_up(),
    {
        let ghost before = self.adj_rib_in_per_afi_safi;
        let dropped: u64 = match self.adj_rib_in_per_afi_safi.remove(number_of(afi_safi)) {
            Some(n) => n,
            None => 0,
        };
        proof {
            total_follows(
                before,
                self.adj_rib_in_per_afi_safi,
                family_number(afi_safi),
            );
            counts_stay(before, self.adj_rib_in_per_afi_safi, afi_safi);
            count_is_in_total(before.entries@, family_number(afi_safi));
            assert forall|family: AfiSafiKey| family != afi_safi implies family_number(family)
                != family_number(afi_safi) by {
                family_numbers_tell_apart(family);
                family_numbers_tell_apart(afi_safi);
            }
        }
        self.adj_rib_in_routes = self.adj_rib_in_routes.saturating_sub(dropped);
    }

    /// What was counted, as a snapshot shows it.
    pub open spec fn snapshot_of(self) -> SnapshotView {
        SnapshotView {
            prefixes_rejected: self.prefixes_rejected,
            dup_prefix_advertisements: self.dup_prefix_advertisements,
            dup_withdraws: self.dup_withdraws,
            invalid_cluster_list_loops: self.invalid_cluster_list_loops,
            invalid_as_path_loops: self.invalid_as_path_loops,
            invalid_originator_id: self.invalid_originator_id,
            invalid_as_confed_loops: self.invalid_as_confed_loops,
            adj_rib_in_routes: self.adj_rib_in_routes,
            loc_rib_routes: self.loc_rib_routes,
            adj_rib_in_per_afi_safi: by_family(self.adj_rib_in_per_afi_safi.entries@),
            loc_rib_per_afi_safi: by_family(self.loc_rib_per_afi_safi.entries@),
            updates_treat_as_withdraw: self.updates_treat_as_withdraw,
            prefixes_treat_as_withdraw: self.prefixes_treat_as_withdraw,
            dup_updates: self.dup_updates,
        }
    }

    /// What was counted up to now.
    pub fn snapshot(&self) -> (r: BgpPeerStatsSnapshot)
        ensures
            r@ == self.snapshot_of(),
            r.prefixes_rejected == self.prefixes_rejected,
            r.dup_prefix_advertisements == self.dup_prefix_advertisements,
            r.dup_withdraws == self.dup_withdraws,
            r.invalid_cluster_list_loops == self.invalid_cluster_list_loops,
            r.invalid_as_path_loops == self.invalid_as_path_loops,
            r.invalid_originator_id == self.invalid_originator_id,
            r.invalid_as_confed_loops == self.invalid_as_confed_loops,
            r.adj_rib_in_routes == self.adj_rib_in_routes,
            r.loc_rib_routes == self.loc_rib_routes,
            r.adj_rib_in_per_afi_safi@.len() == self.adj_rib_in_per_afi_safi.entries@.len(),
            r.loc_rib_per_afi_safi@.len() == self.loc_rib_per_afi_safi.entries@.len(),
            r.updates_treat_as_withdraw == self.updates_treat_as_withdraw,
            r.prefixes_treat_as_withdraw == self.prefixes_treat_as_withdraw,
            r.dup_updates == self.dup_updates,
    {
        BgpPeerStatsSnapshot {
            prefixes_rejected: self.prefixes_rejected,
            dup_prefix_advertisements: self.dup_prefix_advertisements,
            dup_withdraws: self.dup_withdraws,
            invalid_cluster_list_loops: self.invalid_cluster_list_loops,
            invalid_as_path_loops: self.invalid_as_path_loops,
            invalid_originator_id: self.invalid_originator_id,
            invalid_as_confed_loops: self.invalid_as_confed_loops,
            adj_rib_in_routes: self.adj_rib_in_routes,
            loc_rib_routes: self.loc_rib_routes,
            adj_rib_in_per_afi_safi: list_by_family(&self.adj_rib_in_per_afi_safi),
            loc_rib_per_afi_safi: list_by_family(&self.loc_rib_per_afi_safi),
            updates_treat_as_withdraw: self.updates_treat_as_withdraw,
            prefixes_treat_as_withdraw: self.prefixes_treat_as_withdraw,
            dup_updates: self.dup_updates,
        }
    }
}

/// A snapshot lists every family with a count once, with its count, in the
/// order of the families, and lists nothing else.
pub proof fn snapshot_lists_each_family_once(stats: BgpPeerStats)
    requires
        stats.wf(),
    ensures
        ({
            let list = stats.snapshot_of().adj_rib_in_per_afi_safi;
            &&& forall|i: int, j: int|
                0 <= i < j < list.len() ==> family_number((#[trigger] list[i]).0) < family_number(
                    (#[trigger] list[j]).0,
                ) && list[i].0 != list[j].0
            &&& forall|family: AfiSafiKey, n: u64| #[trigger]
                list.contains((family, n)) <==> stats.adj_rib_in(family) == Some(n)
        }),
{
    let entries = stats.adj_rib_in_per_afi_safi.entries@;
    let list = stats.snapshot_of().adj_rib_in_per_afi_safi;
    assert forall|i: int| 0 <= i < list.len() implies family_number((#[trigger] list[i]).0)
        == entries[i].0 by {
        let number = entries[i].0;
        assert(number / 256 < 65536);
        assert(number == number / 256 * 256 + number % 256);
    }
    assert forall|i: int, j: int| 0 <= i < j < list.len() implies family_number(
        (#[trigger] list[i]).0,
    ) < family_number((#[trigger] list[j]).0) by {
        assert(entries[i].0.rank() < entries[j].0.rank());
    }
    assert forall|family: AfiSafiKey, n: u64| #[trigger]
        list.contains((family, n)) <==> stats.adj_rib_in(family) == Some(n) by {
        let number = family_number(family);
        if list.contains((family, n)) {
            let i = choose|i: int| 0 <= i < list.len() && list[i] == (family, n);
            assert(family_number(list[i].0) == entries[i].0);
            value_is_at(entries, i);
        }
        if stats.adj_rib_in(family) == Some(n) {
            assert(has_key(entries, number));
            let i = choose|i: int| 0 <= i < entries.len() && (#[trigger] entries[i]).0 == number;
            value_is_at(entries, i);
            family_numbers_tell_apart(family);
            assert(list[i] == (family, n));
        }
    }
}

/// What a [`BgpPeerStatsSnapshot`] holds.
pub ghost struct SnapshotView {
    pub prefixes_rejected: u64,
    pub dup_prefix_advertisements: u64,
    pub dup_withdraws: u64,
    pub invalid_cluster_list_loops: u64,
    pub invalid_as_path_loops: u64,
    pub invalid_originator_id: u64,
    pub invalid_as_confed_loops: u64,
    pub adj_rib_in_routes: u64,
    pub loc_rib_routes: u64,
    pub adj_rib_in_per_afi_safi: Seq<(AfiSafiKey, u64)>,
    pub loc_rib_per_afi_safi: Seq<(AfiSafiKey, u64)>,
    pub updates_treat_as_withdraw: u64,
    pub prefixes_treat_as_withdraw: u64,
    pub dup_updates: u64,
}

impl View for BgpPeerStatsSnapshot {
    type V = SnapshotView;

    open spec fn view(&self) -> SnapshotView {
        SnapshotView {
            prefixes_rejected: self.prefixes_rejected,
            dup_prefix_advertisements: self.dup_prefix_advertisements,
            dup_withdraws: self.dup_withdraws,
            invalid_cluster_list_loops: self.invalid_cluster_list_loops,
            invalid_as_path_loops: self.invalid_as_path_loops,
            invalid_originator_id: self.invalid_originator_id,
            invalid_as_confed_loops: self.invalid_as_confed_loops,
            adj_rib_in_routes: self.adj_rib_in_routes,
            loc_rib_routes: self.loc_rib_routes,
            adj_rib_in_per_afi_safi: self.adj_rib_in_per_afi_safi@,
            loc_rib_per_afi_safi: self.loc_rib_per_afi_safi@,
            updates_treat_as_withdraw: self.updates_treat_as_withdraw,
            prefixes_treat_as_withdraw: self.prefixes_treat_as_withdraw,
            dup_updates: self.dup_updates,
        }
    }
}

/// Whose counts an ingress has: its own, or those of the session that it is a
/// path of.
#[derive(Clone, Copy, Debug)]
pub enum Entry {
    Session(u64),
    Alias(u64),
}

impl Entry {
    /// The number under which the counts are kept.
    pub open spec fn number(self) -> u64 {
        match self {
            Entry::Session(number) => number,
            Entry::Alias(number) => number,
        }
    }

    fn stats(self) -> (r: u64)
        ensures
            r == self.number(),
    {
        match self {
            Entry::Session(number) => number,
            Entry::Alias(number) => number,
        }
    }
}

/// The counts of all peers, by ingress. The paths of an ADD-PATH session share
/// the counts of the session.
#[derive(Debug)]
pub struct BgpPeerStatsRegistry {
    pub entries: Keyed<IngressId, Entry>,
    pub counts: Keyed<u64, BgpPeerStats>,
    pub next: u64,
}

/// A call on a registry.
pub ghost enum RegistryCall {
    /// [`BgpPeerStatsRegistry::get_or_create`].
    Create(IngressId),
    /// [`BgpPeerStatsRegistry::alias`]: the child, then the parent.
    Alias(IngressId, IngressId),
    /// [`BgpPeerStatsRegistry::remove`].
    Remove(IngressId),
    /// [`BgpPeerStatsRegistry::get_mut`], or one that only looks.
    Look,
}

/// Whether a registry is another one after a call, as far as the entries go.
pub open spec fn registry_follows(
    before: BgpPeerStatsRegistry,
    after: BgpPeerStatsRegistry,
    call: RegistryCall,
) -> bool {
    match call {
        RegistryCall::Create(id) => {
            &&& after.entry(id) == (match before.entry(id) {
                Some(entry) => Some(entry),
                None => Some(Entry::Session(before.next)),
            })
            &&& forall|k: IngressId| k != id ==> #[trigger] after.entry(k) == before.entry(k)
        },
        RegistryCall::Alias(child, parent) => {
            &&& after.entry(child) == (match before.entry(parent) {
                Some(entry) => Some(Entry::Alias(entry.number())),
                None => before.entry(child),
            })
            &&& forall|k: IngressId| k != child ==> #[trigger] after.entry(k) == before.entry(k)
        },
        RegistryCall::Remove(id) => {
            &&& after.entry(id) is None
            &&& forall|k: IngressId| k != id ==> #[trigger] after.entry(k) == before.entry(k)
        },
        RegistryCall::Look => forall|k: IngressId| #[trigger] after.entry(k) == before.entry(k),
    }
}

/// Whether a registry went from state to state by calls, from none on.
pub open spec fn registry_history(
    states: Seq<BgpPeerStatsRegistry>,
    calls: Seq<RegistryCall>,
) -> bool {
    &&& states.len() == calls.len() + 1
    &&& forall|id: IngressId| (#[trigger] states[0].entry(id)) is None
    &&& forall|i: int|
        0 <= i < calls.len() ==> registry_follows(states[i], #[trigger] states[i + 1], calls[i])
}

/// Whether a call gives an ingress an entry: it is created, or aliased to one
/// that has an entry.
pub open spec fn gives_entry(before: BgpPeerStatsRegistry, call: RegistryCall, id: IngressId) -> bool {
    match call {
        RegistryCall::Create(created) => created == id,
        RegistryCall::Alias(child, parent) => child == id && before.entry(parent) is Some,
        _ => false,
    }
}

/// Whether an ingress was given an entry by one of some calls and not removed
/// by a later one.
pub open spec fn was_given(
    states: Seq<BgpPeerStatsRegistry>,
    calls: Seq<RegistryCall>,
    id: IngressId,
) -> bool {
    exists|k: int| #[trigger] given_at(states, calls, id, k)
}

/// Whether an ingress was given an entry by call number `k` and not removed by
/// a later one.
pub open spec fn given_at(
    states: Seq<BgpPeerStatsRegistry>,
    calls: Seq<RegistryCall>,
    id: IngressId,
    k: int,
) -> bool {
    &&& 0 <= k < calls.len()
    &&& gives_entry(states[k], calls[k], id)
    &&& forall|m: int| k < m < calls.len() ==> #[trigger] calls[m] != RegistryCall::Remove(id)
}

/// An ingress has an entry exactly if it was created, or aliased with success,
/// after it was last removed.
pub proof fn entries_follow_calls(
    states: Seq<BgpPeerStatsRegistry>,
    calls: Seq<RegistryCall>,
    id: IngressId,
)
    requires
        registry_history(states, calls),
    ensures
        states.last().entry(id) is Some <==> was_given(states, calls, id),
    decreases calls.len(),
{
    if calls.len() > 0 {
        let n = calls.len() - 1;
        let before = states.drop_last();
        let earlier = calls.drop_last();
        let call = calls.last();
        assert(before[0] == states[0]);
        assert forall|i: int| 0 <= i < earlier.len() implies registry_follows(
            before[i],
            #[trigger] before[i + 1],
            earlier[i],
        ) by {
            assert(before[i + 1] == states[i + 1]);
        }
        entries_follow_calls(before, earlier, id);
        assert(registry_follows(states[n], states[n + 1], calls[n]));
        assert(before.last() == states[n]);
        if gives_entry(states[n], call, id) {
            assert(given_at(states, calls, id, n));
        } else if call != RegistryCall::Remove(id) {
            assert(states[n + 1].entry(id) is Some <==> states[n].entry(id) is Some);
            if was_given(before, earlier, id) {
                let k = choose|k: int| #[trigger] given_at(before, earlier, id, k);
                assert forall|m: int| k < m < calls.len() implies #[trigger] calls[m]
                    != RegistryCall::Remove(id) by {
                    if m < n {
                        assert(earlier[m] == calls[m]);
                    }
                }
                assert(given_at(states, calls, id, k));
            }
            if was_given(states, calls, id) {
                let k = choose|k: int| #[trigger] given_at(states, calls, id, k);
                assert(k < n);
                assert forall|m: int| k < m < earlier.len() implies #[trigger] earlier[m]
                    != RegistryCall::Remove(id) by {
                    assert(earlier[m] == calls[m]);
                }
                assert(given_at(before, earlier, id, k));
            }
        } else {
            if was_given(states, calls, id) {
                let k = choose|k: int| #[trigger] given_at(states, calls, id, k);
                assert(k == n || calls[n] != RegistryCall::Remove(id));
            }
        }
    }
}

/// As long as an ingress is not removed and not aliased anew, it has the same
/// entry, however often it is created.
pub proof fn entry_is_lasting(
    states: Seq<BgpPeerStatsRegistry>,
    calls: Seq<RegistryCall>,
    id: IngressId,
    from: int,
    to: int,
)
    requires
        registry_history(states, calls),
        0 <= from <= to <= calls.len(),
        states[from].entry(id) is Some,
        forall|m: int|
            from <= m < to ==> #[trigger] calls[m] != RegistryCall::Remove(id) && !(
            calls[m] matches RegistryCall::Alias(child, _) && child == id),
    ensures
        states[to].entry(id) == states[from].entry(id),
    decreases to - from,
{
    if from < to {
        entry_is_lasting(states, calls, id, from, to - 1);
        assert(registry_follows(states[to - 1], states[to - 1 + 1], calls[to - 1]));
    }
}

/// The sessions among some entries, with what was counted of each.
pub open spec fn sessions(
    entries: Seq<(IngressId, Entry)>,
    counts: Keyed<u64, BgpPeerStats>,
) -> Seq<(IngressId, SnapshotView)>
    decreases entries.len(),
{
    if entries.len() == 0 {
        seq![]
    } else {
        let rest = sessions(entries.drop_last(), counts);
        match (entries.last().1, counts.value(entries.last().1.number())) {
            (Entry::Session(_), Some(stats)) => rest.push((entries.last().0, stats.snapshot_of())),
            _ => rest,
        }
    }
}

/// What some snapshots hold.
pub open spec fn snapshot_views(snapshots: Seq<(IngressId, BgpPeerStatsSnapshot)>) -> Seq<
    (IngressId, SnapshotView),
> {
    snapshots.map_values(|item: (IngressId, BgpPeerStatsSnapshot)| (item.0, item.1@))
}

impl BgpPeerStatsRegistry {
    /// Whether an ingress of the registry has some counts.
    pub open spec fn in_use(self, number: u64) -> bool {
        exists|id: IngressId|
            (#[trigger] self.entries.value(id)) is Some && self.entries.value(id)->0.number()
                == number
    }

    /// Whether every entry has counts, none are kept without an entry, and
    /// those of each peer are in order.
    pub open spec fn wf(self) -> bool {
        &&& self.entries.wf()
        &&& self.counts.wf()
        &&& forall|id: IngressId|
            (#[trigger] self.entries.value(id)) is Some ==> self.counts.value(
                self.entries.value(id)->0.number(),
            ) is Some
        &&& forall|number: u64|
            (#[trigger] self.counts.value(number)) is Some ==> number < self.next
                && self.counts.value(number)->0.wf() && self.in_use(number)
    }

    /// Whether an ingress has an entry, and whose counts it has.
    pub open spec fn entry(self, id: IngressId) -> Option<Entry> {
        self.entries.value(id)
    }

    /// What was counted for an ingress.
    pub open spec fn stats(self, id: IngressId) -> Option<BgpPeerStats> {
        match self.entries.value(id) {
            Some(entry) => self.counts.value(entry.number()),
            None => None,
        }
    }

    /// Whether two ingresses share their counts.
    pub open spec fn shared(self, a: IngressId, b: IngressId) -> bool {
        match (self.entry(a), self.entry(b)) {
            (Some(x), Some(y)) => x.number() == y.number(),
            _ => false,
        }
    }

    /// No peers.
    pub fn new() -> (r: BgpPeerStatsRegistry)
        ensures
            r.wf(),
            r.next == 0,
            forall|id: IngressId| r.entry(id) is None,
    {
        BgpPeerStatsRegistry { entries: Keyed::new(), counts: Keyed::new(), next: 0 }
    }

    /// The counts of an ingress. It gets counts of its own if it has none.
    pub fn get_or_create(&mut self, id: IngressId) -> (r: &mut BgpPeerStats)
        requires
            old(self).wf(),
            old(self).next < u64::MAX,
        ensures
            old(self).stats(id) == Some(*r) || (old(self).stats(id) is None && r.is_new()),
            r.wf(),
            final(self).entry(id) == (match old(self).entry(id) {
                Some(entry) => Some(entry),
                None => Some(Entry::Session(old(self).next)),
            }),
            forall|k: IngressId| k != id ==> #[trigger] final(self).entry(k) == old(self).entry(k),
            final(self).stats(id) == Some(*final(r)),
            forall|k: IngressId|
                k != id ==> #[trigger] final(self).stats(k) == (if old(self).shared(k, id) {
                    Some(*final(r))
                } else {
                    old(self).stats(k)
                }),
            final(self).next == old(self).next + (if old(self).entry(id) is None {
                1int
            } else {
                0
            }),
            registry_follows(*old(self), *final(self), RegistryCall::Create(id)),
            final(r).wf() ==> final(self).wf(),
    {
        let ghost before = *self;
        let number: u64 = match self.entries.get(id) {
            Some(entry) => entry.stats(),
            None => {
                let number = self.next;
                self.entries.insert(id, Entry::Session(number));
                self.next = number + 1;
                number
            },
        };
        let ghost entries = self.entries;
        let ghost next = self.next;
        let r = self.counts.get_or_insert(number, BgpPeerStats::new());
        proof {
            let after = after_borrow(*self);
            assert(after.entries == entries);
            assert forall|k: IngressId| (#[trigger] after.entries.value(k)) is Some implies after.counts.value(
                after.entries.value(k)->0.number(),
            ) is Some by {
                if k != id {
                    assert(before.entries.value(k) is Some);
                }
            }
            assert forall|n: u64| (#[trigger] after.counts.value(n)) is Some implies n < after.next
                && (n != number ==> after.counts.value(n)->0.wf()) && after.in_use(n) by {
                if n == number {
                    assert(after.entries.value(id) is Some);
                } else {
                    assert(before.counts.value(n) is Some);
                    let k = choose|k: IngressId|
                        (#[trigger] before.entries.value(k)) is Some && before.entries.value(
                            k,
                        )->0.number() == n;
                    assert(after.entries.value(k) == before.entries.value(k));
                }
            }
        }
        r
    }

    /// The counts of an ingress.
    pub fn get(&self, id: IngressId) -> (r: Option<&BgpPeerStats>)
        requires
            self.wf(),
        ensures
            r is Some <==> self.entry(id) is Some,
            r is Some ==> self.stats(id) == Some(*r->0) && r->0.wf(),
    {
        match self.entries.get(id) {
            Some(entry) => self.counts.get(entry.stats()),
            None => None,
        }
    }

    /// The counts of an ingress, to be changed in place.
    pub fn get_mut(&mut self, id: IngressId) -> (r: Option<&mut BgpPeerStats>)
        requires
            old(self).wf(),
        ensures
            r is Some <==> old(self).entry(id) is Some,
            r is None ==> *final(self) == *old(self),
            r is Some ==> old(self).stats(id) == Some(*r->0) && r->0.wf(),
            r is Some ==> forall|k: IngressId| #[trigger]
                final(self).stats(k) == (if old(self).shared(k, id) {
                    Some(*final(r->0))
                } else {
                    old(self).stats(k)
                }),
            final(self).entries == old(self).entries,
            final(self).next == old(self).next,
            registry_follows(*old(self), *final(self), RegistryCall::Look),
            r is Some ==> (final(r->0).wf() ==> final(self).wf()),
    {
        let ghost before = *self;
        let number: u64 = match self.entries.get(id) {
            Some(entry) => entry.stats(),
            None => {
                return None;
            },
        };
        let r = self.counts.get_mut(number);
        proof {
            let after = after_borrow(*self);
            assert forall|k: IngressId| (#[trigger] after.entries.value(k)) is Some implies after.counts.value(
                after.entries.value(k)->0.number(),
            ) is Some by {
                assert(before.entries.value(k) is Some);
            }
            assert forall|n: u64| (#[trigger] after.counts.value(n)) is Some implies n < after.next
                && (n != number ==> after.counts.value(n)->0.wf()) && after.in_use(n) by {
                assert(before.counts.value(n) is Some);
                let k = choose|k: IngressId|
                    (#[trigger] before.entries.value(k)) is Some && before.entries.value(
                        k,
                    )->0.number() == n;
                assert(after.entries.value(k) == before.entries.value(k));
            }
        }
        r
    }

    /// Whether there are no peers.
    pub fn is_empty(&self) -> (r: bool)
        requires
            self.wf(),
        ensures
            r == (forall|id: IngressId| self.entry(id) is None),
    {
        let r = self.entries.entries.len() == 0;
        proof {
            if !r {
                value_is_at(self.entries.entries@, 0);
                assert(self.entry(self.entries.entries@[0].0) is Some);
            } else {
                assert forall|id: IngressId| self.entry(id) is None by {
                    assert(!has_key(self.entries.entries@, id));
                }
            }
        }
        r
    }

    /// Whether the entries but those of one ingress are as in another registry,
    /// and the counts too.
    spec fn differs_in(self, other: BgpPeerStatsRegistry, id: IngressId) -> bool {
        &&& self.entries.wf()
        &&& self.counts == other.counts
        &&& self.next == other.next
        &&& forall|k: IngressId| k != id ==> #[trigger] self.entries.value(k) == other.entries.value(k)
    }

    /// Drops counts that no ingress has any more.
    fn release(&mut self, number: u64)
        requires
            old(self).entries.wf(),
            old(self).counts.wf(),
            forall|id: IngressId|
                (#[trigger] old(self).entries.value(id)) is Some ==> old(self).counts.value(
                    old(self).entries.value(id)->0.number(),
                ) is Some,
            forall|n: u64|
                (#[trigger] old(self).counts.value(n)) is Some ==> n < old(self).next && old(
                    self,
                ).counts.value(n)->0.wf() && (n == number || old(self).in_use(n)),
        ensures
            final(self).wf(),
            final(self).entries == old(self).entries,
            final(self).next == old(self).next,
            forall|n: u64|
                old(self).in_use(n) ==> #[trigger] final(self).counts.value(n) == old(
                    self,
                ).counts.value(n),
    {
        let ghost before = *self;
        let mut i: usize = 0;
        while i < self.entries.entries.len()
            invariant
                *self == before,
                before.entries.wf(),
                before.counts.wf(),
                forall|id: IngressId|
                    (#[trigger] before.entries.value(id)) is Some ==> before.counts.value(
                        before.entries.value(id)->0.number(),
                    ) is Some,
                forall|n: u64|
                    (#[trigger] before.counts.value(n)) is Some ==> n < before.next
                        && before.counts.value(n)->0.wf() && (n == number || before.in_use(n)),
                i <= self.entries.entries.len(),
                forall|k: int|
                    0 <= k < i ==> (#[trigger] self.entries.entries@[k]).1.number() != number,
            decreases self.entries.entries.len() - i,
        {
            if self.entries.entries[i].1.stats() == number {
                proof {
                    value_is_at(self.entries.entries@, i as int);
                    assert(self.entries.value(self.entries.entries@[i as int].0) is Some);
                    assert(before.in_use(number));
                }
                return ;
            }
            i += 1;
        }
        self.counts.remove(number);
        proof {
            assert(!before.in_use(number)) by {
                if before.in_use(number) {
                    let id = choose|id: IngressId|
                        (#[trigger] before.entries.value(id)) is Some && before.entries.value(
                            id,
                        )->0.number() == number;
                    let k = choose|k: int|
                        0 <= k < before.entries.entries@.len() && (
                        #[trigger] before.entries.entries@[k]).0 == id;
                    value_is_at(before.entries.entries@, k);
                }
            }
            assert forall|id: IngressId| (#[trigger] self.entries.value(id)) is Some implies self.counts.value(
                self.entries.value(id)->0.number(),
            ) is Some by {
                assert(before.in_use(self.entries.value(id)->0.number()));
            }
            assert forall|n: u64| (#[trigger] self.counts.value(n)) is Some implies n < self.next
                && self.counts.value(n)->0.wf() && self.in_use(n) by {
                assert(before.counts.value(n) is Some);
                let k = choose|k: IngressId|
                    (#[trigger] before.entries.value(k)) is Some && before.entries.value(
                        k,
                    )->0.number() == n;
                assert(self.entries.value(k) is Some);
            }
        }
    }

    /// Gives an ingress the counts of another; `false` if that has none.
    pub fn alias(&mut self, child: IngressId, parent: IngressId) -> (r: bool)
        requires
            old(self).wf(),
        ensures
            r == (old(self).entry(parent) is Some),
            !r ==> *final(self) == *old(self),
            r ==> final(self).entry(child) == Some(
                Entry::Alias(old(self).entry(parent)->0.number()),
            ),
            r ==> final(self).stats(child) == old(self).stats(parent),
            r ==> final(self).shared(child, parent),
            forall|k: IngressId|
                k != child ==> #[trigger] final(self).entry(k) == old(self).entry(k),
            forall|k: IngressId|
                k != child ==> #[trigger] final(self).stats(k) == old(self).stats(k),
            registry_follows(*old(self), *final(self), RegistryCall::Alias(child, parent)),
            final(self).next == old(self).next,
            final(self).wf(),
    {
        let ghost before = *self;
        let number: u64 = match self.entries.get(parent) {
            Some(entry) => entry.stats(),
            None => {
                return false;
            },
        };
        let dropped: u64 = match self.entries.get(child) {
            Some(entry) => entry.stats(),
            None => number,
        };
        self.entries.insert(child, Entry::Alias(number));
        let ghost between = *self;
        proof {
            assert(between.differs_in(before, child));
            entries_stay_in_use(before, between, child, dropped);
            assert(between.in_use(number)) by {
                assert(between.entries.value(child) is Some);
            }
        }
        self.release(dropped);
        proof {
            assert forall|k: IngressId| k != child implies #[trigger] self.stats(k)
                == before.stats(k) by {
                if before.entries.value(k) is Some {
                    assert(between.entries.value(k) is Some);
                    assert(between.in_use(before.entries.value(k)->0.number()));
                }
            }
        }
        true
    }

    /// Forgets an ingress.
    pub fn remove(&mut self, id: IngressId)
        requires
            old(self).wf(),
        ensures
            final(self).entry(id) is None,
            forall|k: IngressId| k != id ==> #[trigger] final(self).entry(k) == old(self).entry(k),
            forall|k: IngressId| k != id ==> #[trigger] final(self).stats(k) == old(self).stats(k),
            registry_follows(*old(self), *final(self), RegistryCall::Remove(id)),
            final(self).next == old(self).next,
            final(self).wf(),
    {
        let ghost before = *self;
        let dropped: Option<Entry> = self.entries.remove(id);
        let ghost between = *self;
        if let Some(entry) = dropped {
            proof {
                assert(between.differs_in(before, id));
                entries_stay_in_use(before, between, id, entry.number());
            }
            self.release(entry.stats());
            proof {
                assert forall|k: IngressId| k != id implies #[trigger] self.stats(k)
                    == before.stats(k) by {
                    if before.entries.value(k) is Some {
                        assert(between.entries.value(k) is Some);
                        assert(between.in_use(before.entries.value(k)->0.number()));
                    }
                }
            }
        }
    }

    /// What was counted of every session, in the order of the ingresses. Paths
    /// that share the counts of a session are not listed.
    pub fn snapshot_all(&self) -> (r: Vec<(IngressId, BgpPeerStatsSnapshot)>)
        requires
            self.wf(),
        ensures
            snapshot_views(r@) == sessions(self.entries.entries@, self.counts),
    {
        let mut out: Vec<(IngressId, BgpPeerStatsSnapshot)> = Vec::new();
        let mut i: usize = 0;
        assert(snapshot_views(out@) =~= seq![]);
        while i < self.entries.entries.len()
            invariant
                self.wf(),
                i <= self.entries.entries.len(),
                snapshot_views(out@) == sessions(self.entries.entries@.take(i as int), self.counts),
            decreases self.entries.entries.len() - i,
        {
            let (id, entry) = self.entries.entries[i];
            let ghost before = out@;
            proof {
                let upto = self.entries.entries@.take(i + 1);
                assert(upto.drop_last() =~= self.entries.entries@.take(i as int));
                value_is_at(self.entries.entries@, i as int);
                assert(self.entries.value(id) is Some);
            }
            if let Entry::Session(number) = entry {
                if let Some(stats) = self.counts.get(number) {
                    out.push((id, stats.snapshot()));
                    assert(snapshot_views(out@) =~= snapshot_views(before).push(
                        (id, stats.snapshot_of()),
                    ));
                }
            }
            i += 1;
        }
        assert(self.entries.entries@.take(i as int) =~= self.entries.entries@);
        out
    }
}

/// Counts that were in use before one entry changed are in use after it,
/// unless that entry had them.
proof fn entries_stay_in_use(
    before: BgpPeerStatsRegistry,
    after: BgpPeerStatsRegistry,
    id: IngressId,
    dropped: u64,
)
    requires
        before.wf(),
        after.differs_in(before, id),
        before.entries.value(id) is Some ==> before.entries.value(id)->0.number() == dropped,
        after.entries.value(id) is Some ==> after.counts.value(
            after.entries.value(id)->0.number(),
        ) is Some,
    ensures
        forall|k: IngressId|
            (#[trigger] after.entries.value(k)) is Some ==> after.counts.value(
                after.entries.value(k)->0.number(),
            ) is Some,
        forall|n: u64|
            (#[trigger] after.counts.value(n)) is Some ==> n < after.next && after.counts.value(
                n,
            )->0.wf() && (n == dropped || after.in_use(n)),
{
    assert forall|k: IngressId| (#[trigger] after.entries.value(k)) is Some implies after.counts.value(
        after.entries.value(k)->0.number(),
    ) is Some by {
        if k != id {
            assert(before.entries.value(k) is Some);
        }
    }
    assert forall|n: u64| (#[trigger] after.counts.value(n)) is Some implies n < after.next
        && after.counts.value(n)->0.wf() && (n == dropped || after.in_use(n)) by {
        assert(before.counts.value(n) is Some);
        let k = choose|k: IngressId|
            (#[trigger] before.entries.value(k)) is Some && before.entries.value(k)->0.number() == n;
        if k != id {
            assert(after.entries.value(k) == before.entries.value(k));
        }
    }
}

/// A snapshot tells each count under its own name.
pub proof fn snapshots_tell_each_count(stats: BgpPeerStats)
    ensures
        stats.snapshot_of().prefixes_rejected == stats.prefixes_rejected,
        stats.snapshot_of().dup_prefix_advertisements == stats.dup_prefix_advertisements,
        stats.snapshot_of().dup_withdraws == stats.dup_withdraws,
        stats.snapshot_of().invalid_cluster_list_loops == stats.invalid_cluster_list_loops,
        stats.snapshot_of().invalid_as_path_loops == stats.invalid_as_path_loops,
        stats.snapshot_of().invalid_originator_id == stats.invalid_originator_id,
        stats.snapshot_of().invalid_as_confed_loops == stats.invalid_as_confed_loops,
        stats.snapshot_of().adj_rib_in_routes == stats.adj_rib_in_routes,
        stats.snapshot_of().loc_rib_routes == stats.loc_rib_routes,
        stats.snapshot_of().updates_treat_as_withdraw == stats.updates_treat_as_withdraw,
        stats.snapshot_of().prefixes_treat_as_withdraw == stats.prefixes_treat_as_withdraw,
        stats.snapshot_of().dup_updates == stats.dup_updates,
{
}

/// A session is listed with its own counts; what shares the counts of a session
/// is not listed.
pub proof fn sessions_are_listed_once(
    entries: Seq<(IngressId, Entry)>,
    counts: Keyed<u64, BgpPeerStats>,
    id: IngressId,
    number: u64,
)
    ensures
        counts.value(number) is Some ==> sessions(entries.push((id, Entry::Session(number))), counts)
            == sessions(entries, counts).push((id, counts.value(number)->0.snapshot_of())),
        sessions(entries.push((id, Entry::Alias(number))), counts) == sessions(entries, counts),
        sessions(Seq::empty(), counts).len() == 0,
{
    assert(entries.push((id, Entry::Session(number))).drop_last() =~= entries);
    assert(entries.push((id, Entry::Alias(number))).drop_last() =~= entries);
}

/// The number of a family has its AFI in the upper bits and its SAFI in the
/// lower eight.
pub proof fn family_numbers_are_made_of_both(family: AfiSafiKey)
    ensures
        family_number(family) == family.0 * 256 + family.1,
        family_of(family_number(family)).0 == family.0,
        family_of(family_number(family)).1 == family.1,
{
}

/// One more count adds to the sum.
pub proof fn counts_add_up(counts: Seq<(u32, u64)>, more: (u32, u64))
    ensures
        total(counts.push(more)) == total(counts) + more.1,
        total(Seq::empty()) == 0,
{
    assert(counts.push(more).drop_last() =~= counts);
}

} // verus!
