//! Counts of stored rules and of updates.

use crate::metrics::{
    counter, gauge, label, label_views, labelled, Metric, MetricType, MetricUnit, MetricView, Sample,
    Target,
};
use vstd::prelude::*;

verus! {

/// The rules that one store holds, by family, with the bookkeeping that lets
/// a recount notice that rules changed under it.
#[derive(Clone, Copy, Debug, PartialEq, Eq, Structural)]
pub struct FlowSpecRuleCounts {
    v4: u64,
    v6: u64,
    active_writers: u64,
    generation: u64,
}

/// Stands for a change of rules that is under way.
pub struct FlowSpecRuleCountMutation {
    begun: bool,
}

impl Default for FlowSpecRuleCounts {
    fn default() -> (r: FlowSpecRuleCounts)
        ensures
            r.counted() == (0u64, 0u64),
            r.writers() == 0,
            r.generations() == 0,
    {
        FlowSpecRuleCounts { v4: 0, v6: 0, active_writers: 0, generation: 0 }
    }
}

impl FlowSpecRuleCounts {
    /// The number of rules, IPv4 first.
    pub closed spec fn counted(self) -> (u64, u64) {
        (self.v4, self.v6)
    }

    /// The number of changes under way.
    pub closed spec fn writers(self) -> u64 {
        self.active_writers
    }

    /// The number of changes that came to an end, starting over behind the
    /// highest number.
    pub closed spec fn generations(self) -> u64 {
        self.generation
    }

    /// What a recount has to remember; nothing while a change is under way.
    pub open spec fn recounted(self) -> Option<u64> {
        if self.writers() == 0 {
            Some(self.generations())
        } else {
            None
        }
    }

    /// Whether these are counts after a call, by what the call promises.
    pub open spec fn follows(self, before: FlowSpecRuleCounts, call: CountsCall) -> bool {
        match call {
            CountsCall::Begin => self.writers() == before.writers() + 1 && self.generations()
                == before.generations(),
            CountsCall::End => before.writers() > 0 && self.writers() == before.writers() - 1
                && self.generations() == (before.generations() + 1) % 0x1_0000_0000_0000_0000,
            CountsCall::Change => self.writers() == before.writers() && self.generations()
                == before.generations(),
        }
    }

    /// Begins a change of rules.
    pub fn begin_mutation(&mut self) -> (r: FlowSpecRuleCountMutation)
        requires
            old(self).writers() < u64::MAX,
        ensures
            final(self).writers() == old(self).writers() + 1,
            final(self).counted() == old(self).counted(),
            final(self).generations() == old(self).generations(),
            final(self).follows(*old(self), CountsCall::Begin),
    {
        self.active_writers = self.active_writers + 1;
        FlowSpecRuleCountMutation { begun: true }
    }

    /// Ends a change of rules.
    pub fn end_mutation(&mut self, mutation: FlowSpecRuleCountMutation)
        requires
            old(self).writers() > 0,
        ensures
            final(self).writers() == old(self).writers() - 1,
            final(self).counted() == old(self).counted(),
            final(self).generations() == (old(self).generations() + 1) % 0x1_0000_0000_0000_0000,
            final(self).follows(*old(self), CountsCall::End),
    {
        self.generation = self.generation.wrapping_add(1);
        self.active_writers = self.active_writers - 1;
    }

    /// Adds to one of the numbers. It does not go below zero, and starts over
    /// behind the highest number.
    pub fn add(&mut self, is_v4: bool, delta: i64)
        ensures
            final(self).writers() == old(self).writers(),
            final(self).generations() == old(self).generations(),
            final(self).counted() == (if is_v4 {
                (changed(old(self).counted().0, delta), old(self).counted().1)
            } else {
                (old(self).counted().0, changed(old(self).counted().1, delta))
            }),
            final(self).follows(*old(self), CountsCall::Change),
    {
        if is_v4 {
            self.v4 = change(self.v4, delta);
        } else {
            self.v6 = change(self.v6, delta);
        }
    }

    /// Sets both numbers.
    pub fn set(&mut self, v4: u64, v6: u64)
        ensures
            final(self).counted() == (v4, v6),
            final(self).writers() == old(self).writers(),
            final(self).generations() == old(self).generations(),
            final(self).follows(*old(self), CountsCall::Change),
    {
        self.v4 = v4;
        self.v6 = v6;
    }

    /// What a recount has to remember; nothing while a change is under way.
    pub fn recount_generation(&self) -> (r: Option<u64>)
        ensures
            r == self.recounted(),
    {
        if self.active_writers != 0 {
            None
        } else {
            Some(self.generation)
        }
    }

    /// Whether nothing changed since a recount began.
    pub fn generation_is_quiescent(&self, generation: u64) -> (r: bool)
        ensures
            r == (self.writers() == 0 && self.generations() == generation),
    {
        self.active_writers == 0 && self.generation == generation
    }

    /// The number of rules, IPv4 first.
    pub fn snapshot(&self) -> (r: (u64, u64))
        ensures
            r == self.counted(),
    {
        (self.v4, self.v6)
    }
}

/// A number with something added to it: no lower than zero, and starting over
/// behind the highest number.
pub open spec fn changed(n: u64, delta: i64) -> u64 {
    if delta >= 0 {
        ((n + delta) % 0x1_0000_0000_0000_0000) as u64
    } else if n + delta < 0 {
        0
    } else {
        (n + delta) as u64
    }
}

fn change(n: u64, delta: i64) -> (r: u64)
    ensures
        r == changed(n, delta),
{
    if delta >= 0 {
        n.wrapping_add(delta as u64)
    } else {
        let amount: u64 = if delta == i64::MIN {
            0x8000_0000_0000_0000
        } else {
            (-delta) as u64
        };
        n.saturating_sub(amount)
    }
}

/// A recount that found no change under way when it began and still finds the
/// same generation with none under way has seen no change come to an end,
/// unless the generations went once round.
pub proof fn quiescence_means_no_change(before: FlowSpecRuleCounts, ended: nat, after: u64)
    requires
        before.writers() == 0,
        ended < 0x1_0000_0000_0000_0000,
        after == (before.generations() + ended) % 0x1_0000_0000_0000_0000,
        after == before.generations(),
    ensures
        ended == 0,
{
    let g = before.generations() as int;
    let m = 0x1_0000_0000_0000_0000int;
    if g + ended >= m {
        assert((g + ended) % m == g + ended - m) by {
            vstd::arithmetic::div_mod::lemma_fundamental_div_mod_converse(g + ended, m, 1, g + ended - m);
        }
    }
}

/// A call that changes counts.
pub ghost enum CountsCall {
    /// A change of rules begins.
    Begin,
    /// A change of rules ends.
    End,
    /// Something is added, or the numbers are set.
    Change,
}

/// How many changes of rules began.
pub open spec fn begun_in(calls: Seq<CountsCall>) -> nat
    decreases calls.len(),
{
    if calls.len() == 0 {
        0
    } else {
        begun_in(calls.drop_last()) + (if calls.last() == CountsCall::Begin {
            1nat
        } else {
            0
        })
    }
}

/// How many changes of rules ended.
pub open spec fn ended_in(calls: Seq<CountsCall>) -> nat
    decreases calls.len(),
{
    if calls.len() == 0 {
        0
    } else {
        ended_in(calls.drop_last()) + (if calls.last() == CountsCall::End {
            1nat
        } else {
            0
        })
    }
}

/// Whether counts went from state to state by calls, from none on.
pub open spec fn counts_history(states: Seq<FlowSpecRuleCounts>, calls: Seq<CountsCall>) -> bool {
    &&& states.len() == calls.len() + 1
    &&& states[0].writers() == 0
    &&& states[0].generations() == 0
    &&& forall|i: int|
        0 <= i < calls.len() ==> (#[trigger] states[i + 1]).follows(states[i], calls[i])
}

/// A recount can begin exactly if every change of rules that began has ended,
/// and then has to remember how many there were, in the numbers that there are.
pub proof fn recounts_follow_changes(states: Seq<FlowSpecRuleCounts>, calls: Seq<CountsCall>)
    requires
        counts_history(states, calls),
    ensures
        ended_in(calls) <= begun_in(calls),
        states.last().recounted() is None <==> ended_in(calls) < begun_in(calls),
        states.last().recounted() is Some ==> states.last().recounted()->0 == ended_in(calls)
            % 0x1_0000_0000_0000_0000,
{
    history_counts(states, calls);
}

proof fn history_counts(states: Seq<FlowSpecRuleCounts>, calls: Seq<CountsCall>)
    requires
        counts_history(states, calls),
    ensures
        states.last().writers() == begun_in(calls) - ended_in(calls),
        states.last().generations() == ended_in(calls) % 0x1_0000_0000_0000_0000,
    decreases calls.len(),
{
    if calls.len() > 0 {
        let before = states.drop_last();
        let earlier = calls.drop_last();
        assert forall|i: int| 0 <= i < earlier.len() implies (#[trigger] before[i + 1]).follows(
            before[i],
            earlier[i],
        ) by {
            assert(before[i + 1] == states[i + 1]);
        }
        history_counts(before, earlier);
        assert(states[calls.len() - 1 + 1].follows(states[calls.len() - 1], calls.last()));
        let m = 0x1_0000_0000_0000_0000int;
        let n = ended_in(earlier) as int;
        assert((n % m + 1) % m == (n + 1) % m) by {
            vstd::arithmetic::div_mod::lemma_add_mod_noop(n, 1, m);
            vstd::arithmetic::div_mod::lemma_small_mod(1, m as nat);
        }
    }
}

/// Accounting of FlowSpec rules over the whole process.
#[derive(Debug)]
pub struct FlowSpecMetrics {
    pub v4_announced: u64,
    pub v4_withdrawn: u64,
    pub v6_announced: u64,
    pub v6_withdrawn: u64,
    /// The counts of each store that registered, until it is gone.
    pub rule_counts: Vec<Option<FlowSpecRuleCounts>>,
}

impl Default for FlowSpecMetrics {
    fn default() -> (r: FlowSpecMetrics)
        ensures
            r.v4_announced == 0,
            r.v4_withdrawn == 0,
            r.v6_announced == 0,
            r.v6_withdrawn == 0,
            r.registered() == Seq::<Option<FlowSpecRuleCounts>>::empty(),
    {
        FlowSpecMetrics {
            v4_announced: 0,
            v4_withdrawn: 0,
            v6_announced: 0,
            v6_withdrawn: 0,
            rule_counts: Vec::new(),
        }
    }
}

/// The sum of the counts of the stores that are still there.
pub open spec fn live_sum(counts: Seq<Option<FlowSpecRuleCounts>>) -> (int, int)
    decreases counts.len(),
{
    if counts.len() == 0 {
        (0, 0)
    } else {
        let rest = live_sum(counts.drop_last());
        match counts.last() {
            Some(count) => (rest.0 + count.counted().0, rest.1 + count.counted().1),
            None => rest,
        }
    }
}

/// A number, or the highest that there is.
pub open spec fn capped(n: int) -> u64 {
    if n > u64::MAX {
        u64::MAX
    } else {
        n as u64
    }
}

/// The measurement of updates.
pub open spec fn updates_metric() -> MetricView {
    counter(
        "flowspec_updates"@,
        "FlowSpec rule announcements and withdrawals ingested into the flowspec store"@,
    )
}

/// The measurement of stored rules.
pub open spec fn rules_metric() -> MetricView {
    gauge(
        "flowspec_rules_stored"@,
        "FlowSpec rules currently stored, per address family"@,
        MetricUnit::Total,
    )
}

impl FlowSpecMetrics {
    /// The stores that registered, in order, with their counts while they are
    /// there.
    pub open spec fn registered(self) -> Seq<Option<FlowSpecRuleCounts>> {
        self.rule_counts@
    }

    /// Counts an announcement or a withdrawal.
    pub fn note_update(&mut self, is_v4: bool, withdrawn: bool)
        ensures
            final(self).registered() == old(self).registered(),
            final(self).v4_announced == (if is_v4 && !withdrawn {
                changed(old(self).v4_announced, 1)
            } else {
                old(self).v4_announced
            }),
            final(self).v4_withdrawn == (if is_v4 && withdrawn {
                changed(old(self).v4_withdrawn, 1)
            } else {
                old(self).v4_withdrawn
            }),
            final(self).v6_announced == (if !is_v4 && !withdrawn {
                changed(old(self).v6_announced, 1)
            } else {
                old(self).v6_announced
            }),
            final(self).v6_withdrawn == (if !is_v4 && withdrawn {
                changed(old(self).v6_withdrawn, 1)
            } else {
                old(self).v6_withdrawn
            }),
    {
        match (is_v4, withdrawn) {
            (true, false) => {
                self.v4_announced = self.v4_announced.wrapping_add(1);
            },
            (true, true) => {
                self.v4_withdrawn = self.v4_withdrawn.wrapping_add(1);
            },
            (false, false) => {
                self.v6_announced = self.v6_announced.wrapping_add(1);
            },
            (false, true) => {
                self.v6_withdrawn = self.v6_withdrawn.wrapping_add(1);
            },
        }
    }

    /// Registers a store; the result is its number.
    pub fn register_rule_counts(&mut self) -> (r: usize)
        ensures
            r == old(self).registered().len(),
            final(self).registered().len() == r + 1,
            final(self).registered().take(r as int) == old(self).registered(),
            final(self).registered()[r as int] is Some,
            final(self).registered()[r as int]->0.counted() == (0u64, 0u64),
            final(self).v4_announced == old(self).v4_announced,
            final(self).v4_withdrawn == old(self).v4_withdrawn,
            final(self).v6_announced == old(self).v6_announced,
            final(self).v6_withdrawn == old(self).v6_withdrawn,
    {
        let number: usize = self.rule_counts.len();
        self.rule_counts.push(Some(FlowSpecRuleCounts::default()));
        assert(self.rule_counts@.take(number as int) =~= old(self).rule_counts@);
        number
    }

    /// Takes over the counts of a registered store, or notes that the store
    /// is gone.
    pub fn update_rule_counts(&mut self, number: usize, counts: Option<FlowSpecRuleCounts>)
        requires
            number < old(self).registered().len(),
        ensures
            final(self).registered() == old(self).registered().update(number as int, counts),
            final(self).v4_announced == old(self).v4_announced,
            final(self).v4_withdrawn == old(self).v4_withdrawn,
            final(self).v6_announced == old(self).v6_announced,
            final(self).v6_withdrawn == old(self).v6_withdrawn,
    {
        self.rule_counts[number] = counts;
    }

    /// The number of rules in all stores that are still there, IPv4 first.
    pub fn rules(&self) -> (r: (u64, u64))
        ensures
            r.0 == capped(live_sum(self.registered()).0),
            r.1 == capped(live_sum(self.registered()).1),
    {
        let counts = &self.rule_counts;
        let mut v4: u64 = 0;
        let mut v6: u64 = 0;
        let mut i: usize = 0;
        while i < counts.len()
            invariant
                i <= counts.len(),
                v4 == capped(live_sum(counts@.take(i as int)).0),
                v6 == capped(live_sum(counts@.take(i as int)).1),
                live_sum(counts@.take(i as int)).0 >= 0,
                live_sum(counts@.take(i as int)).1 >= 0,
            decreases counts.len() - i,
        {
            assert(counts@.take(i + 1).drop_last() =~= counts@.take(i as int));
            match &counts[i] {
                Some(count) => {
                    let (more_v4, more_v6) = count.snapshot();
                    v4 = v4.saturating_add(more_v4);
                    v6 = v6.saturating_add(more_v6);
                },
                None => {},
            }
            i += 1;
        }
        assert(counts@.take(i as int) =~= counts@);
        (v4, v6)
    }

    /// Hands out the measurements.
    pub fn append(&self, target: &mut Target)
        ensures
            final(target)@ == old(target)@ + seq![
                labelled(
                    updates_metric(),
                    seq![("afi"@, "ipv4"@), ("op"@, "announce"@)],
                    self.v4_announced,
                ),
                labelled(
                    updates_metric(),
                    seq![("afi"@, "ipv4"@), ("op"@, "withdraw"@)],
                    self.v4_withdrawn,
                ),
                labelled(
                    updates_metric(),
                    seq![("afi"@, "ipv6"@), ("op"@, "announce"@)],
                    self.v6_announced,
                ),
                labelled(
                    updates_metric(),
                    seq![("afi"@, "ipv6"@), ("op"@, "withdraw"@)],
                    self.v6_withdrawn,
                ),
                labelled(
                    rules_metric(),
                    seq![("afi"@, "ipv4"@)],
                    capped(live_sum(self.registered()).0),
                ),
                labelled(
                    rules_metric(),
                    seq![("afi"@, "ipv6"@)],
                    capped(live_sum(self.registered()).1),
                ),
            ],
    {
        let updates = Metric::new(
            "flowspec_updates",
            "FlowSpec rule announcements and withdrawals ingested into the flowspec store",
            MetricType::Counter,
            MetricUnit::Total,
        );
        let stored = Metric::new(
            "flowspec_rules_stored",
            "FlowSpec rules currently stored, per address family",
            MetricType::Gauge,
            MetricUnit::Total,
        );
        let (v4, v6) = self.rules();
        target.append(update_sample(updates, "ipv4", "announce", self.v4_announced));
        target.append(update_sample(updates, "ipv4", "withdraw", self.v4_withdrawn));
        target.append(update_sample(updates, "ipv6", "announce", self.v6_announced));
        target.append(update_sample(updates, "ipv6", "withdraw", self.v6_withdrawn));
        target.append(family_sample(stored, "ipv4", v4));
        target.append(family_sample(stored, "ipv6", v6));
        assert(target@ =~= old(target)@ + seq![
            labelled(
                updates_metric(),
                seq![("afi"@, "ipv4"@), ("op"@, "announce"@)],
                self.v4_announced,
            ),
            labelled(
                updates_metric(),
                seq![("afi"@, "ipv4"@), ("op"@, "withdraw"@)],
                self.v4_withdrawn,
            ),
            labelled(
                updates_metric(),
                seq![("afi"@, "ipv6"@), ("op"@, "announce"@)],
                self.v6_announced,
            ),
            labelled(
                updates_metric(),
                seq![("afi"@, "ipv6"@), ("op"@, "withdraw"@)],
                self.v6_withdrawn,
            ),
            labelled(
                rules_metric(),
                seq![("afi"@, "ipv4"@)],
                capped(live_sum(self.registered()).0),
            ),
            labelled(
                rules_metric(),
                seq![("afi"@, "ipv6"@)],
                capped(live_sum(self.registered()).1),
            ),
        ]);
    }
}

fn family_labels(afi: &str) -> (r: Vec<(String, String)>)
    ensures
        label_views(r@) == seq![("afi"@, afi@)],
{
    let none: Vec<(String, String)> = Vec::new();
    assert(label_views(none@) =~= seq![]);
    let labels = label(none, "afi", afi);
    assert(label_views(labels@) =~= seq![("afi"@, afi@)]);
    labels
}

fn family_sample(metric: Metric, afi: &str, value: u64) -> (r: Sample)
    ensures
        r@ == labelled(metric@, seq![("afi"@, afi@)], value),
{
    let labels = family_labels(afi);
    assert(label_views(labels@) =~= seq![("afi"@, afi@)]);
    Sample { metric, unit_name: None, labels, value }
}

fn update_sample(metric: Metric, afi: &str, op: &str, value: u64) -> (r: Sample)
    ensures
        r@ == labelled(metric@, seq![("afi"@, afi@), ("op"@, op@)], value),
{
    let labels = label(family_labels(afi), "op", op);
    assert(label_views(labels@) =~= seq![("afi"@, afi@), ("op"@, op@)]);
    Sample { metric, unit_name: None, labels, value }
}

/// A count goes up and down by what is told, not below zero, and starts over
/// behind the highest number.
pub proof fn counts_change_by_the_difference(n: u64, delta: i64)
    ensures
        0 <= n + delta <= u64::MAX ==> changed(n, delta) == n + delta,
        n + delta < 0 ==> changed(n, delta) == 0,
        n + delta > u64::MAX ==> changed(n, delta) == n + delta - u64::MAX - 1,
{
}

/// A store that is there adds its rules to those of each family, and one that is
/// gone adds none.
pub proof fn stores_add_their_rules(
    counts: Seq<Option<FlowSpecRuleCounts>>,
    more: FlowSpecRuleCounts,
)
    ensures
        live_sum(counts.push(Some(more))).0 == live_sum(counts).0 + more.counted().0,
        live_sum(counts.push(Some(more))).1 == live_sum(counts).1 + more.counted().1,
        live_sum(counts.push(None)) == live_sum(counts),
        live_sum(Seq::empty()) == (0int, 0int),
{
    assert(counts.push(Some(more)).drop_last() =~= counts);
    assert(counts.push(None).drop_last() =~= counts);
}

/// Updates are counted as a counter and rules as a gauge, under names of their
/// own.
pub proof fn measurements_have_their_names()
    ensures
        updates_metric().name == "flowspec_updates"@ && updates_metric().metric_type
            == MetricType::Counter,
        rules_metric().name == "flowspec_rules_stored"@ && rules_metric().metric_type
            == MetricType::Gauge,
{
}

} // verus!
