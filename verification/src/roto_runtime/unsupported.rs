//! Counts of routes that were dropped because the RIB cannot hold their
//! address family.

use crate::metrics::{
    counter, label, label_views, labelled, Metric, MetricType, MetricUnit, MetricView, Sample,
    SampleView, Target,
};
use crate::sorting::{sort, sorted, Ranked};
use crate::text::{decimal, decimal_text, join3, join_all, joined_with, string_views};
use routecore::bgp::types::AfiSafiType;
use vstd::prelude::*;
use vstd::string::{StrSliceExecFns, StringExecFns};

verus! {

/// An address family: the AFI, then the SAFI.
pub type Family = (u16, u8);

/// How long drops are gathered before they are told, in nanoseconds.
pub const SUMMARY_INTERVAL: u64 = 60_000_000_000;

/// The name of an address family; its numbers if it has none.
pub open spec fn family_text(afi: u16, safi: u8) -> Seq<char> {
    match (afi, safi) {
        (1, 1) => "Ipv4Unicast"@,
        (1, 2) => "Ipv4Multicast"@,
        (1, 4) => "Ipv4MplsUnicast"@,
        (1, 128) => "Ipv4MplsVpnUnicast"@,
        (1, 132) => "Ipv4RouteTarget"@,
        (1, 133) => "Ipv4FlowSpec"@,
        (2, 1) => "Ipv6Unicast"@,
        (2, 2) => "Ipv6Multicast"@,
        (2, 4) => "Ipv6MplsUnicast"@,
        (2, 128) => "Ipv6MplsVpnUnicast"@,
        (2, 133) => "Ipv6FlowSpec"@,
        (25, 65) => "L2VpnVpls"@,
        (25, 70) => "L2VpnEvpn"@,
        _ => "UnsupportedAfiSafi("@ + decimal_text(afi as nat) + ", "@ + decimal_text(safi as nat)
            + ")"@,
    }
}

/// The `Display` impl of `AfiSafiType` writes the name of an address family, or
/// its numbers if it is none of those that the type names.
#[verifier::external_body]
fn family_name(afi: u16, safi: u8) -> (r: String)
    ensures
        r@ == family_text(afi, safi),
{
    AfiSafiType::from((afi, safi)).to_string()
}

/// The number of drops of one family.
#[derive(Clone, Copy, Debug, PartialEq, Eq)]
pub struct FamilyCount {
    pub family: Family,
    pub count: u64,
}

/// The highest counts go first.
impl Ranked for FamilyCount {
    open spec fn rank(&self) -> int {
        -(self.count as int)
    }

    fn is_behind(&self, other: &FamilyCount) -> (r: bool) {
        self.count < other.count
    }
}

/// Where the count of a family stands, behind the last count if nowhere.
pub open spec fn count_position(counts: Seq<FamilyCount>, family: Family) -> int
    decreases counts.len(),
{
    if counts.len() == 0 || counts[0].family == family {
        0
    } else {
        1 + count_position(counts.drop_first(), family)
    }
}

/// The counts with one more drop of a family.
pub open spec fn bumped(counts: Seq<FamilyCount>, family: Family) -> Seq<FamilyCount> {
    let at = count_position(counts, family);
    if at < counts.len() {
        counts.update(at, FamilyCount { family, count: (counts[at].count + 1) as u64 })
    } else {
        counts.push(FamilyCount { family, count: 1 })
    }
}

/// The number of drops of all families.
pub open spec fn drops(counts: Seq<FamilyCount>) -> nat
    decreases counts.len(),
{
    if counts.len() == 0 {
        0
    } else {
        drops(counts.drop_last()) + counts.last().count as nat
    }
}

/// The number of drops of one family.
pub open spec fn drops_of(counts: Seq<FamilyCount>, family: Family) -> nat {
    let at = count_position(counts, family);
    if at < counts.len() {
        counts[at].count as nat
    } else {
        0
    }
}

proof fn position_is_within(counts: Seq<FamilyCount>, family: Family)
    ensures
        0 <= count_position(counts, family) <= counts.len(),
        count_position(counts, family) < counts.len() ==> counts[count_position(
            counts,
            family,
        )].family == family,
        forall|i: int|
            0 <= i < count_position(counts, family) ==> (#[trigger] counts[i]).family != family,
    decreases counts.len(),
{
    if counts.len() > 0 && counts[0].family != family {
        let rest = counts.drop_first();
        position_is_within(rest, family);
        assert forall|i: int| 0 <= i < count_position(counts, family) implies (
        #[trigger] counts[i]).family != family by {
            if i > 0 {
                assert(rest[i - 1] == counts[i]);
            }
        }
    }
}

/// No count is above the number of all drops.
proof fn count_is_within(counts: Seq<FamilyCount>, at: int)
    requires
        0 <= at < counts.len(),
    ensures
        counts[at].count <= drops(counts),
    decreases counts.len(),
{
    if at < counts.len() - 1 {
        count_is_within(counts.drop_last(), at);
    }
}

proof fn drops_after_update(counts: Seq<FamilyCount>, at: int, new: FamilyCount)
    requires
        0 <= at < counts.len(),
    ensures
        drops(counts.update(at, new)) == drops(counts) - counts[at].count + new.count,
    decreases counts.len(),
{
    let after = counts.update(at, new);
    if at == counts.len() - 1 {
        assert(after.drop_last() =~= counts.drop_last());
    } else {
        drops_after_update(counts.drop_last(), at, new);
        assert(after.drop_last() =~= counts.drop_last().update(at, new));
    }
}

/// One more drop of a family is one more of all, one more of this family, and
/// none more of another.
pub proof fn one_more_drop(counts: Seq<FamilyCount>, family: Family)
    requires
        drops(counts) < u64::MAX,
    ensures
        drops(bumped(counts, family)) == drops(counts) + 1,
        drops_of(bumped(counts, family), family) == drops_of(counts, family) + 1,
        forall|other: Family|
            other != family ==> drops_of(bumped(counts, family), other) == #[trigger] drops_of(
                counts,
                other,
            ),
{
    let at = count_position(counts, family);
    let after = bumped(counts, family);
    position_is_within(counts, family);
    if at < counts.len() {
        count_is_within(counts, at);
        drops_after_update(counts, at, after[at]);
    } else {
        assert(after.drop_last() =~= counts);
    }
    position_follows(counts, family, family);
    assert forall|other: Family| other != family implies drops_of(after, other)
        == #[trigger] drops_of(counts, other) by {
        position_follows(counts, family, other);
        position_is_within(counts, other);
    }
}

/// A drop moves no count; a new one comes last.
proof fn position_follows(counts: Seq<FamilyCount>, family: Family, other: Family)
    ensures
        count_position(bumped(counts, family), other) == (if count_position(counts, other)
            < counts.len() || family == other {
            count_position(counts, other)
        } else {
            bumped(counts, family).len() as int
        }),
    decreases counts.len(),
{
    let after = bumped(counts, family);
    position_is_within(counts, family);
    position_is_within(counts, other);
    if counts.len() == 0 {
        assert(after =~= seq![FamilyCount { family, count: 1 }]);
        assert(after.drop_first() =~= counts);
        if family != other {
            assert(count_position(after, other) == 1 + count_position(counts, other));
        }
    } else {
        let rest = counts.drop_first();
        position_is_within(rest, family);
        if counts[0].family == family {
            assert(after.drop_first() =~= rest);
            assert(after[0].family == family);
            position_is_within(rest, other);
        } else {
            position_follows(rest, family, other);
            position_is_within(rest, other);
            assert(after.drop_first() =~= bumped(rest, family));
            assert(after[0] == counts[0]);
        }
    }
}

/// Counts one more drop of a family.
fn bump(counts: &mut Vec<FamilyCount>, family: Family)
    requires
        drops(old(counts)@) < u64::MAX,
    ensures
        final(counts)@ == bumped(old(counts)@, family),
{
    let ghost all = counts@;
    let mut i: usize = 0;
    assert(all.skip(0) =~= all);
    while i < counts.len()
        invariant
            counts@ == all,
            all == old(counts)@,
            drops(all) < u64::MAX,
            i <= all.len(),
            count_position(all, family) == i + count_position(all.skip(i as int), family),
        decreases counts.len() - i,
    {
        let at = counts[i];
        if at.family.0 == family.0 && at.family.1 == family.1 {
            proof {
                count_is_within(all, i as int);
                assert(all.skip(i as int)[0] == all[i as int]);
                assert(at.family == family);
            }
            counts.set(i, FamilyCount { family, count: at.count + 1 });
            return ;
        }
        assert(all.skip(i as int).drop_first() =~= all.skip(i + 1));
        i += 1;
    }
    counts.push(FamilyCount { family, count: 1 });
}

/// The number of drops of all families.
fn sum(counts: &[FamilyCount]) -> (r: u64)
    requires
        drops(counts@) <= u64::MAX,
    ensures
        r == drops(counts@),
{
    let mut total: u64 = 0;
    let mut i: usize = 0;
    assert(counts@.take(0) =~= seq![]);
    while i < counts.len()
        invariant
            i <= counts@.len(),
            drops(counts@) <= u64::MAX,
            total == drops(counts@.take(i as int)),
        decreases counts.len() - i,
    {
        proof {
            let upto = counts@.take(i + 1);
            assert(upto.drop_last() =~= counts@.take(i as int));
            drops_of_front(counts@, i + 1);
        }
        total += counts[i].count;
        i += 1;
    }
    assert(counts@.take(i as int) =~= counts@);
    total
}

proof fn drops_of_front(counts: Seq<FamilyCount>, n: int)
    requires
        0 <= n <= counts.len(),
    ensures
        drops(counts.take(n)) <= drops(counts),
    decreases counts.len(),
{
    if n == counts.len() {
        assert(counts.take(n) =~= counts);
    } else {
        drops_of_front(counts.drop_last(), n);
        assert(counts.drop_last().take(n) =~= counts.take(n));
    }
}

/// Counts drops by family. A family is told when it is first dropped; after
/// that drops are gathered and told together.
#[derive(Debug)]
pub struct UnsupportedAfiSafiMetrics {
    /// The families that were told.
    pub seen: Vec<Family>,
    /// The drops since they were last told together.
    pub window_counts: Vec<FamilyCount>,
    /// The drops since the start.
    pub totals: Vec<FamilyCount>,
    /// When the first of the gathered drops was, in nanoseconds.
    pub window_start: Option<u64>,
}

/// Drops that are told together: how many, over how many seconds, and how many
/// of each family, the most frequent first.
#[derive(Debug)]
pub struct Summary {
    pub total: u64,
    pub seconds: u64,
    pub breakdown: Vec<FamilyCount>,
}

/// What is to be told of a drop.
#[derive(Debug)]
pub struct Noted {
    /// Whether a drop of the family is the first.
    pub first_sight: bool,
    pub summary: Option<Summary>,
}

impl Default for UnsupportedAfiSafiMetrics {
    fn default() -> (r: UnsupportedAfiSafiMetrics)
        ensures
            r.seen@.len() == 0,
            r.window_counts@.len() == 0,
            r.totals@.len() == 0,
            r.window_start is None,
            r.wf(),
    {
        UnsupportedAfiSafiMetrics {
            seen: Vec::new(),
            window_counts: Vec::new(),
            totals: Vec::new(),
            window_start: None,
        }
    }
}

/// The measurement that drops are shown as.
pub open spec fn dropped_metric() -> MetricView {
    counter(
        "unsupported_afisafi_dropped"@,
        "routes dropped because their AFI/SAFI has no internal representation and cannot be stored in any RIB"@,
    )
}

/// The samples of some counts, one for each family.
pub open spec fn count_samples(counts: Seq<FamilyCount>) -> Seq<SampleView> {
    counts.map_values(
        |count: FamilyCount|
            labelled(
                dropped_metric(),
                seq![("afi_safi"@, family_text(count.family.0, count.family.1))],
                count.count,
            ),
    )
}

/// The time between two moments, nothing if the first is the later.
pub open spec fn time_since(now: u64, start: u64) -> u64 {
    if now < start {
        0
    } else {
        (now - start) as u64
    }
}

impl UnsupportedAfiSafiMetrics {
    /// Whether no more drops were gathered than there were.
    pub open spec fn wf(self) -> bool {
        drops(self.window_counts@) <= drops(self.totals@)
    }

    /// The time since the first of the gathered drops, at a moment; this drop
    /// is the first if none is gathered.
    pub open spec fn gathered_for(self, now: u64) -> u64 {
        match self.window_start {
            Some(start) => time_since(now, start),
            None => 0,
        }
    }

    /// Counts a drop at a moment, in nanoseconds, and says what is to be told of
    /// it.
    pub fn note(&mut self, afi_safi: Family, now: u64) -> (r: Noted)
        requires
            old(self).wf(),
            drops(old(self).totals@) < u64::MAX,
        ensures
            final(self).wf(),
            final(self).totals@ == bumped(old(self).totals@, afi_safi),
            r.first_sight == !old(self).seen@.contains(afi_safi),
            final(self).seen@ == (if r.first_sight {
                old(self).seen@.push(afi_safi)
            } else {
                old(self).seen@
            }),
            final(self).seen@.contains(afi_safi),
            r.summary is Some <==> old(self).gathered_for(now) >= SUMMARY_INTERVAL,
            match r.summary {
                Some(summary) => {
                    let gathered = bumped(old(self).window_counts@, afi_safi);
                    &&& summary.total == drops(gathered)
                    &&& summary.seconds == old(self).gathered_for(now) / 1_000_000_000
                    &&& summary.breakdown@ == sorted(gathered)
                    &&& final(self).window_counts@ == Seq::<FamilyCount>::empty()
                    &&& final(self).window_start is None
                },
                None => {
                    &&& final(self).window_counts@ == bumped(old(self).window_counts@, afi_safi)
                    &&& final(self).window_start == (match old(self).window_start {
                        Some(start) => Some(start),
                        None => Some(now),
                    })
                },
            },
    {
        proof {
            one_more_drop(self.totals@, afi_safi);
            one_more_drop(self.window_counts@, afi_safi);
        }
        bump(&mut self.totals, afi_safi);
        let mut first_sight = true;
        let mut i: usize = 0;
        let ghost seen = self.seen@;
        while i < self.seen.len()
            invariant
                self.seen@ == seen,
                self.window_counts@ == old(self).window_counts@,
                self.totals@ == bumped(old(self).totals@, afi_safi),
                self.window_start == old(self).window_start,
                i <= seen.len(),
                first_sight == !seen.take(i as int).contains(afi_safi),
            decreases self.seen.len() - i,
        {
            let at = self.seen[i];
            proof {
                let upto = seen.take(i + 1);
                assert(upto =~= seen.take(i as int).push(seen[i as int]));
                assert(upto[i as int] == seen[i as int]);
                if seen.take(i as int).contains(afi_safi) {
                    let k = choose|k: int|
                        0 <= k < seen.take(i as int).len() && seen.take(i as int)[k] == afi_safi;
                    assert(upto[k] == afi_safi);
                }
                if upto.contains(afi_safi) && seen[i as int] != afi_safi {
                    let k = choose|k: int| 0 <= k < upto.len() && upto[k] == afi_safi;
                    assert(seen.take(i as int)[k] == afi_safi);
                }
            }
            if at.0 == afi_safi.0 && at.1 == afi_safi.1 {
                first_sight = false;
            }
            i += 1;
        }
        assert(seen.take(i as int) =~= seen);
        if first_sight {
            self.seen.push(afi_safi);
            assert(self.seen@[seen.len() as int] == afi_safi);
        }
        bump(&mut self.window_counts, afi_safi);
        let start: u64 = match self.window_start {
            Some(start) => start,
            None => now,
        };
        let elapsed: u64 = if now < start {
            0
        } else {
            now - start
        };
        if elapsed >= SUMMARY_INTERVAL {
            let total = sum(&self.window_counts);
            let mut gathered: Vec<FamilyCount> = Vec::new();
            gathered.append(&mut self.window_counts);
            assert(gathered@ =~= bumped(old(self).window_counts@, afi_safi));
            assert(self.window_counts@ =~= Seq::<FamilyCount>::empty());
            self.window_start = None;
            let breakdown = sort(gathered);
            Noted {
                first_sight,
                summary: Some(Summary { total, seconds: elapsed / 1_000_000_000, breakdown }),
            }
        } else {
            self.window_start = Some(start);
            Noted { first_sight, summary: None }
        }
    }

    /// Takes the drops to a target, one sample for each family that was
    /// dropped.
    pub fn append(&self, target: &mut Target)
        ensures
            final(target)@ == old(target)@ + count_samples(self.totals@),
    {
        let metric = Metric::new(
            "unsupported_afisafi_dropped",
            "routes dropped because their AFI/SAFI has no internal representation and cannot be stored in any RIB",
            MetricType::Counter,
            MetricUnit::Total,
        );
        let ghost before = target@;
        let mut i: usize = 0;
        assert(count_samples(self.totals@.take(0)) =~= seq![]);
        assert(before =~= before + seq![]);
        while i < self.totals.len()
            invariant
                i <= self.totals@.len(),
                metric@ == dropped_metric(),
                target@ == before + count_samples(self.totals@.take(i as int)),
            decreases self.totals.len() - i,
        {
            let count = self.totals[i];
            let name = family_name(count.family.0, count.family.1);
            let labels = label(Vec::new(), "afi_safi", name.as_str());
            let sample = Sample { metric, unit_name: None, labels, value: count.count };
            proof {
                assert(label_views(labels@) =~= seq![
                    ("afi_safi"@, family_text(count.family.0, count.family.1)),
                ]);
                assert(count_samples(self.totals@.take(i + 1)) =~= count_samples(
                    self.totals@.take(i as int),
                ).push(sample@));
            }
            let ghost taken = target@;
            target.append(sample);
            assert(target@ =~= before + count_samples(self.totals@.take(i + 1)));
            i += 1;
        }
        assert(self.totals@.take(i as int) =~= self.totals@);
    }
}

/// What is told of the first drop of a family.
pub open spec fn first_sight_text(family: Family) -> Seq<char> {
    "Dropping route(s) with unsupported AFI/SAFI "@ + family_text(family.0, family.1)
        + ": no RotondaRoute representation, not stored in any RIB. Further drops are summarized at most once per 60s and counted in rotonda_unsupported_afisafi_dropped_total."@
}

/// What is told of the first drop of a family.
pub fn first_sight_message(family: Family) -> (r: String)
    ensures
        r@ == first_sight_text(family),
{
    let name = family_name(family.0, family.1);
    join3(
        "Dropping route(s) with unsupported AFI/SAFI ",
        name.as_str(),
        ": no RotondaRoute representation, not stored in any RIB. Further drops are summarized at most once per 60s and counted in rotonda_unsupported_afisafi_dropped_total.",
    )
}

/// The number of drops of each family, as text.
pub open spec fn breakdown_texts(counts: Seq<FamilyCount>) -> Seq<Seq<char>> {
    counts.map_values(
        |count: FamilyCount|
            family_text(count.family.0, count.family.1) + "="@ + decimal_text(count.count as nat),
    )
}

impl Summary {
    /// What is told of drops together.
    pub open spec fn text(self) -> Seq<char> {
        "Dropped "@ + decimal_text(self.total as nat)
            + " route(s) with unsupported AFI/SAFI over the last "@ + decimal_text(
            self.seconds as nat,
        ) + "s (no RotondaRoute representation, not stored in any RIB): "@ + joined_with(
            breakdown_texts(self.breakdown@),
            ", "@,
        )
    }

    /// What is told of drops together.
    pub fn message(&self) -> (r: String)
        ensures
            r@ == self.text(),
    {
        let mut parts: Vec<String> = Vec::new();
        let mut i: usize = 0;
        while i < self.breakdown.len()
            invariant
                i <= self.breakdown@.len(),
                string_views(parts@) =~= breakdown_texts(self.breakdown@.take(i as int)),
            decreases self.breakdown.len() - i,
        {
            let count = self.breakdown[i];
            let ghost before = parts@;
            let name = family_name(count.family.0, count.family.1);
            parts.push(join3(name.as_str(), "=", decimal(count.count).as_str()));
            proof {
                assert(string_views(parts@) =~= string_views(before).push(parts@.last()@));
                assert(breakdown_texts(self.breakdown@.take(i + 1)) =~= breakdown_texts(
                    self.breakdown@.take(i as int),
                ).push(parts@.last()@));
            }
            i += 1;
        }
        assert(self.breakdown@.take(i as int) =~= self.breakdown@);
        let detail = join_all(&parts, ", ");
        let mut out = "Dropped ".to_owned();
        out.append(decimal(self.total).as_str());
        out.append(" route(s) with unsupported AFI/SAFI over the last ");
        out.append(decimal(self.seconds).as_str());
        out.append("s (no RotondaRoute representation, not stored in any RIB): ");
        out.append(detail.as_str());
        out
    }
}

/// Each family is shown under its own name with the number of its drops.
pub proof fn drops_are_shown_by_family(counts: Seq<FamilyCount>, i: int)
    requires
        0 <= i < counts.len(),
    ensures
        ({
            let sample = count_samples(counts)[i];
            &&& count_samples(counts).len() == counts.len()
            &&& sample.metric.name == "unsupported_afisafi_dropped"@
            &&& sample.metric.metric_type is Counter
            &&& sample.unit_name is None
            &&& sample.labels == seq![
                ("afi_safi"@, family_text(counts[i].family.0, counts[i].family.1)),
            ]
            &&& sample.value == counts[i].count
        }),
        breakdown_texts(counts).len() == counts.len(),
        breakdown_texts(counts)[i] == family_text(counts[i].family.0, counts[i].family.1) + "="@
            + decimal_text(counts[i].count as nat),
{
}

/// The time between two moments is what has to go by from the first to the
/// second.
pub proof fn time_goes_by(now: u64, start: u64)
    ensures
        now >= start ==> start + time_since(now, start) == now,
        now <= start ==> time_since(now, start) == 0,
{
}

/// Families are listed with the most drops first.
pub proof fn most_drops_come_first(a: FamilyCount, b: FamilyCount)
    ensures
        a.count > b.count <==> a.rank() < b.rank(),
{
}

} // verus!
