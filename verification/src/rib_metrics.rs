//! What is measured of the RIB.

use crate::ingress::IngressId;
use crate::metrics::{
    counter, gauge, label, label_views, measured_as_counter, measured_as_gauge, simple, Metric, MetricType, MetricUnit, MetricView, Sample,
    SampleView, Target,
};
use crate::text::{decimal, decimal_text};
use dashmap::DashMap;
use vstd::prelude::*;

verus! {

/// The delay of the last route from a router, in milliseconds, and when it
/// came in, in milliseconds of a clock that does not go back.
#[derive(Clone, Copy, Debug, PartialEq, Eq, Structural)]
pub struct RouterMetrics {
    pub last_e2e_delay_millis: u64,
    pub last_e2e_delay_at: u64,
}

/// How long a router is shown after its last route, in milliseconds.
pub const MAX_AGE: u64 = 60_000;

/// A map that many threads can use.
#[verifier::external_type_specification]
#[verifier::external_body]
#[verifier::reject_recursive_types(K)]
#[verifier::reject_recursive_types(V)]
#[verifier::reject_recursive_types(S)]
pub struct ExDashMap<K, V, S>(DashMap<K, V, S>);

/// What a map of routers holds: for each ingress the delay of the last route,
/// and when it came in.
pub uninterp spec fn routers_in(map: DashMap<u32, (u64, u64)>) -> Map<u32, (u64, u64)>;

/// No routers.
pub open spec fn no_routers() -> Map<u32, (u64, u64)> {
    Map::empty()
}

/// Whether the last route of a router is not too old, at a moment.
pub open spec fn is_recent(router: (u64, u64), now: u64) -> bool {
    now < router.1 || now - router.1 <= MAX_AGE
}

/// The routers whose last route is not too old.
pub open spec fn recent(routers: Map<u32, (u64, u64)>, now: u64) -> Map<u32, (u64, u64)> {
    routers.restrict(Set::new(|id: u32| routers.dom().contains(id) && is_recent(routers[id], now)))
}

/// Whether some rows are those of a map, each once.
pub open spec fn lists(rows: Seq<(u32, (u64, u64))>, routers: Map<u32, (u64, u64)>) -> bool {
    &&& forall|i: int, j: int|
        0 <= i < j < rows.len() ==> (#[trigger] rows[i]).0 != (#[trigger] rows[j]).0
    &&& forall|i: int|
        0 <= i < rows.len() ==> routers.dom().contains((#[trigger] rows[i]).0)
            && routers[rows[i].0] == rows[i].1
    &&& forall|id: u32| #[trigger]
        routers.dom().contains(id) ==> exists|i: int| 0 <= i < rows.len() && rows[i].0 == id
}

/// `DashMap::new` makes a map that holds nothing.
#[verifier::external_body]
fn new_routers() -> (r: DashMap<u32, (u64, u64)>)
    ensures
        routers_in(r) == no_routers(),
{
    DashMap::new()
}

/// `DashMap::entry` with `Entry::or_insert` gives the value of a key, and puts
/// one there if there was none.
#[verifier::external_body]
fn get_or_insert(map: &mut DashMap<u32, (u64, u64)>, id: u32, value: (u64, u64)) -> (r: (u64, u64))
    ensures
        r == (if routers_in(*old(map)).dom().contains(id) {
            routers_in(*old(map))[id]
        } else {
            value
        }),
        routers_in(*final(map)) == routers_in(*old(map)).insert(id, r),
{
    *map.entry(id).or_insert(value).value()
}

/// `DashMap::insert` puts a value for a key, in place of the one that was
/// there.
#[verifier::external_body]
fn put(map: &mut DashMap<u32, (u64, u64)>, id: u32, value: (u64, u64))
    ensures
        routers_in(*final(map)) == routers_in(*old(map)).insert(id, value),
{
    map.insert(id, value);
}

/// `DashMap::retain` keeps what the given function approves.
#[verifier::external_body]
fn retain_recent(map: &mut DashMap<u32, (u64, u64)>, now: u64)
    ensures
        routers_in(*final(map)) == recent(routers_in(*old(map)), now),
{
    map.retain(|_, router| recently(*router, now));
}

/// `DashMap::iter` walks every entry once, in no order that is promised.
#[verifier::external_body]
fn rows_of(map: &DashMap<u32, (u64, u64)>) -> (r: Vec<(u32, (u64, u64))>)
    ensures
        lists(r@, routers_in(*map)),
{
    map.iter().map(|entry| (*entry.key(), *entry.value())).collect()
}

/// Whether the last route of a router is not too old, at a moment.
fn recently(router: (u64, u64), now: u64) -> (r: bool)
    ensures
        r == is_recent(router, now),
{
    now < router.1 || now - router.1 <= MAX_AGE
}

/// How many prefixes and routes a store holds.
#[derive(Clone, Copy, Debug)]
pub struct StoreCounts {
    pub prefixes: usize,
    pub routes: usize,
}

/// The number of prefixes in some stores.
pub open spec fn all_prefixes(counts: Seq<StoreCounts>) -> nat
    decreases counts.len(),
{
    if counts.len() == 0 {
        0
    } else {
        all_prefixes(counts.drop_last()) + counts.last().prefixes as nat
    }
}

/// The number of routes in some stores.
pub open spec fn all_routes(counts: Seq<StoreCounts>) -> nat
    decreases counts.len(),
{
    if counts.len() == 0 {
        0
    } else {
        all_routes(counts.drop_last()) + counts.last().routes as nat
    }
}

proof fn front_is_within(counts: Seq<StoreCounts>, n: int)
    requires
        0 <= n <= counts.len(),
    ensures
        all_prefixes(counts.take(n)) <= all_prefixes(counts),
        all_routes(counts.take(n)) <= all_routes(counts),
    decreases counts.len(),
{
    if n == counts.len() {
        assert(counts.take(n) =~= counts);
    } else {
        front_is_within(counts.drop_last(), n);
        assert(counts.drop_last().take(n) =~= counts.take(n));
    }
}

/// The number of prefixes and routes in all stores.
pub fn store_totals(counts: &[StoreCounts]) -> (r: (usize, usize))
    requires
        all_prefixes(counts@) <= usize::MAX,
        all_routes(counts@) <= usize::MAX,
    ensures
        r.0 == all_prefixes(counts@),
        r.1 == all_routes(counts@),
{
    let mut prefixes: usize = 0;
    let mut routes: usize = 0;
    let mut i: usize = 0;
    while i < counts.len()
        invariant
            i <= counts@.len(),
            all_prefixes(counts@) <= usize::MAX,
            all_routes(counts@) <= usize::MAX,
            prefixes == all_prefixes(counts@.take(i as int)),
            routes == all_routes(counts@.take(i as int)),
        decreases counts.len() - i,
    {
        proof {
            assert(counts@.take(i + 1).drop_last() =~= counts@.take(i as int));
            front_is_within(counts@, i + 1);
        }
        prefixes += counts[i].prefixes;
        routes += counts[i].routes;
        i += 1;
    }
    assert(counts@.take(i as int) =~= counts@);
    (prefixes, routes)
}

/// What is measured of the RIB.
pub struct RibUnitMetrics {
    pub num_insert_retries: u64,
    pub num_insert_hard_failures: u64,
    pub num_routes_announced: u64,
    pub num_modified_route_announcements: u64,
    pub num_routes_withdrawn: u64,
    pub num_route_withdrawals_without_announcement: u64,
    pub last_insert_duration_micros: u64,
    pub last_update_duration_micros: u64,
    pub routers: DashMap<u32, (u64, u64)>,
}

/// The measurement of the delay of a router's routes.
pub open spec fn delay_metric() -> MetricView {
    gauge(
        "rib_unit_e2e_duration"@,
        "the time taken from initial receipt to completed insertion for a prefix into the RIB unit store"@,
        MetricUnit::Millisecond,
    )
}

/// The sample of a router.
pub open spec fn router_sample(unit_name: Seq<char>, row: (u32, (u64, u64))) -> SampleView {
    SampleView {
        metric: delay_metric(),
        unit_name: Some(unit_name),
        labels: seq![("router"@, decimal_text(row.0 as nat))],
        value: row.1.0,
    }
}

/// The samples of some routers.
pub open spec fn router_samples(unit_name: Seq<char>, rows: Seq<(u32, (u64, u64))>) -> Seq<SampleView> {
    rows.map_values(|row: (u32, (u64, u64))| router_sample(unit_name, row))
}

/// Takes the delays of some routers to a target.
pub fn append_routers(rows: &[(u32, (u64, u64))], unit_name: &str, target: &mut Target)
    ensures
        final(target)@ == old(target)@ + router_samples(unit_name@, rows@),
{
    let metric = Metric::new(
        "rib_unit_e2e_duration",
        "the time taken from initial receipt to completed insertion for a prefix into the RIB unit store",
        MetricType::Gauge,
        MetricUnit::Millisecond,
    );
    let ghost before = target@;
    let mut i: usize = 0;
    assert(before =~= before + router_samples(unit_name@, rows@.take(0)));
    while i < rows.len()
        invariant
            i <= rows@.len(),
            metric@ == delay_metric(),
            target@ == before + router_samples(unit_name@, rows@.take(i as int)),
        decreases rows.len() - i,
    {
        let (id, router) = rows[i];
        let labels = label(Vec::new(), "router", decimal(id as u64).as_str());
        let sample = Sample {
            metric,
            unit_name: Some(unit_name.to_owned()),
            labels,
            value: router.0,
        };
        proof {
            assert(label_views(labels@) =~= seq![("router"@, decimal_text(id as nat))]);
            assert(router_samples(unit_name@, rows@.take(i + 1)) =~= router_samples(
                unit_name@,
                rows@.take(i as int),
            ).push(sample@));
        }
        target.append(sample);
        assert(target@ =~= before + router_samples(unit_name@, rows@.take(i + 1)));
        i += 1;
    }
    assert(rows@.take(i as int) =~= rows@);
}

impl RibUnitMetrics {
    /// The routers that are known.
    pub open spec fn known(self) -> Map<u32, (u64, u64)> {
        routers_in(self.routers)
    }

    /// The samples that do not concern a router, by the number of prefixes and
    /// routes in the store.
    pub open spec fn samples(self, unit_name: Seq<char>, prefixes: u64, routes: u64) -> Seq<SampleView> {
        seq![
            simple(
                gauge(
                    "rib_unit_num_unique_prefixes"@,
                    "the number of unique prefixes currently in the rib"@,
                    MetricUnit::Total,
                ),
                unit_name,
                prefixes,
            ),
            simple(
                gauge(
                    "rib_unit_num_items"@,
                    "the total number of records -- one per prefix and ingress -- stored (withdrawn or not) in the rib"@,
                    MetricUnit::Total,
                ),
                unit_name,
                routes,
            ),
            simple(
                counter(
                    "rib_unit_num_insert_retries"@,
                    "the number of times prefix insertions had to be retried due to contention"@,
                ),
                unit_name,
                self.num_insert_retries,
            ),
            simple(
                counter(
                    "rib_unit_num_insert_hard_failures"@,
                    "the number of prefix insertions that were given up after exhausting all retries"@,
                ),
                unit_name,
                self.num_insert_hard_failures,
            ),
            simple(
                counter(
                    "rib_unit_num_routes_announced"@,
                    "announcements that brought a new prefix into the rib (see rib_unit_num_items for what it currently holds)"@,
                ),
                unit_name,
                self.num_routes_announced,
            ),
            simple(
                counter(
                    "rib_unit_num_modified_route_announcements"@,
                    "announcements for a prefix the rib already held: another peer's path, or a re-announcement of one it had"@,
                ),
                unit_name,
                self.num_modified_route_announcements,
            ),
            simple(
                counter(
                    "rib_unit_num_routes_withdrawn"@,
                    "withdrawals applied to a route the rib held (see rib_unit_num_items for what it currently holds)"@,
                ),
                unit_name,
                self.num_routes_withdrawn,
            ),
            simple(
                counter(
                    "rib_unit_num_route_withdrawals_without_announcements"@,
                    "the number of route withdrawals processed without a corresponding announcement"@,
                ),
                unit_name,
                self.num_route_withdrawals_without_announcement,
            ),
            simple(
                gauge(
                    "rib_unit_insert_duration"@,
                    "the time taken to insert the last prefix inserted into the RIB unit store"@,
                    MetricUnit::Microsecond,
                ),
                unit_name,
                self.last_insert_duration_micros,
            ),
            simple(
                gauge(
                    "rib_unit_update_duration"@,
                    "the time taken to update the last prefix modified in the RIB unit store"@,
                    MetricUnit::Microsecond,
                ),
                unit_name,
                self.last_update_duration_micros,
            ),
        ]
    }

    /// Nothing measured.
    pub fn new() -> (r: RibUnitMetrics)
        ensures
            r.num_insert_retries == 0,
            r.num_insert_hard_failures == 0,
            r.num_routes_announced == 0,
            r.num_modified_route_announcements == 0,
            r.num_routes_withdrawn == 0,
            r.num_route_withdrawals_without_announcement == 0,
            r.last_insert_duration_micros == 0,
            r.last_update_duration_micros == 0,
            r.known() == no_routers(),
    {
        RibUnitMetrics {
            num_insert_retries: 0,
            num_insert_hard_failures: 0,
            num_routes_announced: 0,
            num_modified_route_announcements: 0,
            num_routes_withdrawn: 0,
            num_route_withdrawals_without_announcement: 0,
            last_insert_duration_micros: 0,
            last_update_duration_micros: 0,
            routers: new_routers(),
        }
    }

    /// What is measured of a router. A router that is not known yet becomes
    /// known at this moment, without a delay.
    pub fn router_metrics(&mut self, ingress_id: IngressId, now: u64) -> (r: RouterMetrics)
        ensures
            old(self).known().dom().contains(ingress_id) ==> (
            r.last_e2e_delay_millis, r.last_e2e_delay_at) == old(self).known()[ingress_id],
            !old(self).known().dom().contains(ingress_id) ==> r == (RouterMetrics {
                last_e2e_delay_millis: 0,
                last_e2e_delay_at: now,
            }),
            final(self).known() == old(self).known().insert(
                ingress_id,
                (r.last_e2e_delay_millis, r.last_e2e_delay_at),
            ),
            *final(self) == (RibUnitMetrics { routers: final(self).routers, ..*old(self) }),
    {
        let (last_e2e_delay_millis, last_e2e_delay_at) = get_or_insert(
            &mut self.routers,
            ingress_id,
            (0, now),
        );
        RouterMetrics { last_e2e_delay_millis, last_e2e_delay_at }
    }

    /// Notes the delay of a route from a router.
    pub fn set_router_metrics(&mut self, ingress_id: IngressId, metrics: RouterMetrics)
        ensures
            final(self).known() == old(self).known().insert(
                ingress_id,
                (metrics.last_e2e_delay_millis, metrics.last_e2e_delay_at),
            ),
            *final(self) == (RibUnitMetrics { routers: final(self).routers, ..*old(self) }),
    {
        put(
            &mut self.routers,
            ingress_id,
            (metrics.last_e2e_delay_millis, metrics.last_e2e_delay_at),
        );
    }

    /// Takes what does not concern a router to a target.
    fn append_totals(&self, unit_name: &str, target: &mut Target, prefixes: u64, routes: u64)
        ensures
            final(target)@ == old(target)@ + self.samples(unit_name@, prefixes, routes),
    {
        let ghost before = target@;
        target.append_simple(
            Metric::new(
                "rib_unit_num_unique_prefixes",
                "the number of unique prefixes currently in the rib",
                MetricType::Gauge,
                MetricUnit::Total,
            ),
            unit_name,
            prefixes,
        );
        target.append_simple(
            Metric::new(
                "rib_unit_num_items",
                "the total number of records -- one per prefix and ingress -- stored (withdrawn or not) in the rib",
                MetricType::Gauge,
                MetricUnit::Total,
            ),
            unit_name,
            routes,
        );
        target.append_simple(
            Metric::new(
                "rib_unit_num_insert_retries",
                "the number of times prefix insertions had to be retried due to contention",
                MetricType::Counter,
                MetricUnit::Total,
            ),
            unit_name,
            self.num_insert_retries,
        );
        target.append_simple(
            Metric::new(
                "rib_unit_num_insert_hard_failures",
                "the number of prefix insertions that were given up after exhausting all retries",
                MetricType::Counter,
                MetricUnit::Total,
            ),
            unit_name,
            self.num_insert_hard_failures,
        );
        target.append_simple(
            Metric::new(
                "rib_unit_num_routes_announced",
                "announcements that brought a new prefix into the rib (see rib_unit_num_items for what it currently holds)",
                MetricType::Counter,
                MetricUnit::Total,
            ),
            unit_name,
            self.num_routes_announced,
        );
        target.append_simple(
            Metric::new(
                "rib_unit_num_modified_route_announcements",
                "announcements for a prefix the rib already held: another peer's path, or a re-announcement of one it had",
                MetricType::Counter,
                MetricUnit::Total,
            ),
            unit_name,
            self.num_modified_route_announcements,
        );
        target.append_simple(
            Metric::new(
                "rib_unit_num_routes_withdrawn",
                "withdrawals applied to a route the rib held (see rib_unit_num_items for what it currently holds)",
                MetricType::Counter,
                MetricUnit::Total,
            ),
            unit_name,
            self.num_routes_withdrawn,
        );
        target.append_simple(
            Metric::new(
                "rib_unit_num_route_withdrawals_without_announcements",
                "the number of route withdrawals processed without a corresponding announcement",
                MetricType::Counter,
                MetricUnit::Total,
            ),
            unit_name,
            self.num_route_withdrawals_without_announcement,
        );
        target.append_simple(
            Metric::new(
                "rib_unit_insert_duration",
                "the time taken to insert the last prefix inserted into the RIB unit store",
                MetricType::Gauge,
                MetricUnit::Microsecond,
            ),
            unit_name,
            self.last_insert_duration_micros,
        );
        target.append_simple(
            Metric::new(
                "rib_unit_update_duration",
                "the time taken to update the last prefix modified in the RIB unit store",
                MetricType::Gauge,
                MetricUnit::Microsecond,
            ),
            unit_name,
            self.last_update_duration_micros,
        );
        assert(target@ =~= before + self.samples(unit_name@, prefixes, routes));
    }

    /// Takes what is measured to a target, at a moment. `store` says what the
    /// stores hold; without a RIB they hold nothing. A router whose last route
    /// is too old is forgotten. The routers come in no particular order.
    pub fn append(
        &mut self,
        unit_name: &str,
        target: &mut Target,
        store: Option<&[StoreCounts]>,
        now: u64,
    )
        requires
            store is Some ==> all_prefixes(store->0@) <= usize::MAX && all_routes(store->0@)
                <= usize::MAX,
        ensures
            final(self).known() == recent(old(self).known(), now),
            *final(self) == (RibUnitMetrics { routers: final(self).routers, ..*old(self) }),
            exists|rows: Seq<(u32, (u64, u64))>| #[trigger]
                lists(rows, final(self).known()) && final(target)@ == old(target)@ + old(
                    self,
                ).samples(
                    unit_name@,
                    match store {
                        Some(counts) => all_prefixes(counts@) as u64,
                        None => 0,
                    },
                    match store {
                        Some(counts) => all_routes(counts@) as u64,
                        None => 0,
                    },
                ) + router_samples(unit_name@, rows),
    {
        let (prefixes, routes): (usize, usize) = match store {
            Some(counts) => store_totals(counts),
            None => (0, 0),
        };
        self.append_totals(unit_name, target, prefixes as u64, routes as u64);
        retain_recent(&mut self.routers, now);
        let rows = rows_of(&self.routers);
        append_routers(&rows, unit_name, target);
        assert(lists(rows@, self.known()));
    }
}

/// Each measurement is handed out under its own name.
pub proof fn measurements_have_their_names(metrics: RibUnitMetrics, unit: Seq<char>, prefixes: u64, routes: u64)
    ensures
        measured_as_gauge(metrics.samples(unit, prefixes, routes), "rib_unit_num_unique_prefixes"@, MetricUnit::Total, prefixes),
        measured_as_gauge(metrics.samples(unit, prefixes, routes), "rib_unit_num_items"@, MetricUnit::Total, routes),
        measured_as_counter(metrics.samples(unit, prefixes, routes), "rib_unit_num_insert_retries"@, metrics.num_insert_retries),
        measured_as_counter(metrics.samples(unit, prefixes, routes), "rib_unit_num_insert_hard_failures"@, metrics.num_insert_hard_failures),
        measured_as_counter(metrics.samples(unit, prefixes, routes), "rib_unit_num_routes_announced"@, metrics.num_routes_announced),
        measured_as_counter(metrics.samples(unit, prefixes, routes), "rib_unit_num_modified_route_announcements"@, metrics.num_modified_route_announcements),
        measured_as_counter(metrics.samples(unit, prefixes, routes), "rib_unit_num_routes_withdrawn"@, metrics.num_routes_withdrawn),
        measured_as_counter(metrics.samples(unit, prefixes, routes), "rib_unit_num_route_withdrawals_without_announcements"@, metrics.num_route_withdrawals_without_announcement),
        measured_as_gauge(metrics.samples(unit, prefixes, routes), "rib_unit_insert_duration"@, MetricUnit::Microsecond, metrics.last_insert_duration_micros),
        measured_as_gauge(metrics.samples(unit, prefixes, routes), "rib_unit_update_duration"@, MetricUnit::Microsecond, metrics.last_update_duration_micros),
        metrics.samples(unit, prefixes, routes).len() == 10,
        forall|i: int|
            0 <= i < metrics.samples(unit, prefixes, routes).len() ==> (#[trigger] metrics.samples(unit, prefixes, routes)[i]).unit_name == Some(unit) && metrics.samples(unit, prefixes, routes)[i].labels.len() == 0,
{
    let samples = metrics.samples(unit, prefixes, routes);
    assert(samples[0].metric.name == "rib_unit_num_unique_prefixes"@);
    assert(samples[1].metric.name == "rib_unit_num_items"@);
    assert(samples[2].metric.name == "rib_unit_num_insert_retries"@);
    assert(samples[3].metric.name == "rib_unit_num_insert_hard_failures"@);
    assert(samples[4].metric.name == "rib_unit_num_routes_announced"@);
    assert(samples[5].metric.name == "rib_unit_num_modified_route_announcements"@);
    assert(samples[6].metric.name == "rib_unit_num_routes_withdrawn"@);
    assert(samples[7].metric.name == "rib_unit_num_route_withdrawals_without_announcements"@);
    assert(samples[8].metric.name == "rib_unit_insert_duration"@);
    assert(samples[9].metric.name == "rib_unit_update_duration"@);
}

/// A router is shown under its ingress with the delay of its last route, in
/// milliseconds, and not with the time at which that came in.
pub proof fn routers_are_shown_with_their_delay(
    unit_name: Seq<char>,
    rows: Seq<(u32, (u64, u64))>,
    i: int,
)
    requires
        0 <= i < rows.len(),
    ensures
        ({
            let sample = router_samples(unit_name, rows)[i];
            &&& router_samples(unit_name, rows).len() == rows.len()
            &&& sample.metric.name == "rib_unit_e2e_duration"@
            &&& sample.metric.metric_type is Gauge
            &&& sample.metric.unit is Millisecond
            &&& sample.unit_name == Some(unit_name)
            &&& sample.labels.len() == 1
            &&& sample.labels[0].0 == "router"@
            &&& sample.labels[0].1 == decimal_text(rows[i].0 as nat)
            &&& sample.value == rows[i].1.0
        }),
{
}

/// A router is shown for a minute after its last route and then forgotten. What
/// is shown of the others stays as it is.
pub proof fn routers_are_shown_for_a_minute(routers: Map<u32, (u64, u64)>, now: u64, id: u32)
    ensures
        recent(routers, now).dom().contains(id) <==> routers.dom().contains(id) && now
            <= routers[id].1 + 60_000,
        recent(routers, now).dom().contains(id) ==> recent(routers, now)[id] == routers[id],
{
}

/// One more store adds its prefixes to the prefixes and its routes to the
/// routes.
pub proof fn stores_add_up(counts: Seq<StoreCounts>, more: StoreCounts)
    ensures
        all_prefixes(counts.push(more)) == all_prefixes(counts) + more.prefixes,
        all_routes(counts.push(more)) == all_routes(counts) + more.routes,
        all_prefixes(Seq::empty()) == 0,
        all_routes(Seq::empty()) == 0,
{
    assert(counts.push(more).drop_last() =~= counts);
}

} // verus!
