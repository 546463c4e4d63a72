//! Selection of the best path among the records of one prefix.

use crate::best_path::attributes::{
    as_path_in, attributes, attributes_on_wire, get_as_path, parse_attributes, AttributeValue,
};
use crate::best_path::decision::{
    as_path_contains, check_eligible, compare, decision, decision_is_antisymmetric,
    decision_is_transitive, decisive_step, path_contains, readable, Assumed, Contender,
    ContenderView, DecisionStep, IneligibleReason, PeerType, Strategy,
};
use crate::ingress::{source_of, IngressId, IngressInfo, RouteSource};
use crate::order::{bytes_order, Order};
use crate::text::{join3, number_in, parse_number, same};
use std::collections::HashMap;
use vstd::prelude::*;

verus! {

broadcast use vstd::std_specs::hash::group_hash_axioms;

/// Whether a stored route is in use.
#[derive(Clone, Copy, Debug, PartialEq, Eq, Structural)]
pub enum RouteStatus {
    Active,
    InActive,
    Withdrawn,
}

/// A stored attribute blob: an octet for the RPKI status, one that is zero if
/// AS numbers take two octets, and the attributes as they came off the wire.
#[derive(Debug)]
pub struct RotondaPaMap {
    raw: Vec<u8>,
}

impl View for RotondaPaMap {
    type V = Seq<u8>;

    closed spec fn view(&self) -> Seq<u8> {
        self.raw@
    }
}

/// The attributes that a blob holds; `None` if one of them does not parse or
/// the blob is too short to say how to read them.
pub open spec fn blob_attributes(blob: Seq<u8>) -> Option<Map<u8, AttributeValue>> {
    if blob.len() < 2 {
        None
    } else {
        attributes_on_wire(blob.skip(2), blob[1] != 0)
    }
}

impl RotondaPaMap {
    /// A blob from its octets.
    pub fn from_raw(raw: Vec<u8>) -> (r: RotondaPaMap)
        ensures
            r@ == raw@,
    {
        RotondaPaMap { raw }
    }

    /// The octets of the blob.
    pub fn raw(&self) -> (r: &Vec<u8>)
        ensures
            r@ == self@,
    {
        &self.raw
    }

    /// A second blob with the same octets.
    pub fn duplicate(&self) -> (r: RotondaPaMap)
        ensures
            r@ == self@,
    {
        let raw = self.raw.clone();
        assert(raw@ =~= self.raw@);
        RotondaPaMap { raw }
    }

    /// Parses the attributes. One that does not parse spoils the blob: a route
    /// whose attributes cannot be read cannot be ranked on them.
    pub fn build_pa_map(&self) -> (r: Option<routecore::bgp::path_attributes::PaMap>)
        ensures
            r is Some <==> blob_attributes(self@) is Some,
            r is Some ==> blob_attributes(self@) == Some(attributes(r->0)),
    {
        if self.raw.len() < 2 {
            return None;
        }
        let wire = vstd::slice::slice_subrange(self.raw.as_slice(), 2, self.raw.len());
        assert(wire@ =~= self@.skip(2));
        parse_attributes(wire, self.raw[1] != 0)
    }
}

/// A route as the store has it.
#[derive(Debug)]
pub struct Record {
    pub multi_uniq_id: IngressId,
    pub ltime: u64,
    pub status: RouteStatus,
    pub meta: RotondaPaMap,
}

impl Record {
    pub fn new(multi_uniq_id: IngressId, ltime: u64, status: RouteStatus, meta: RotondaPaMap) -> (r:
        Record)
        ensures
            r == (Record { multi_uniq_id, ltime, status, meta }),
    {
        Record { multi_uniq_id, ltime, status, meta }
    }
}

/// How many ranked alternatives to report below the best path.
#[derive(Clone, Copy, Debug, PartialEq, Eq, Structural)]
pub enum Alternatives {
    All,
    AtMost(usize),
}

impl Default for Alternatives {
    fn default() -> (r: Alternatives)
        ensures
            r == Alternatives::All,
    {
        Alternatives::All
    }
}

impl Alternatives {
    /// Reads a number of alternatives, or `all`, from a query.
    pub fn parse(s: &str) -> (r: Result<Alternatives, String>)
        ensures
            s@ == "all"@ ==> r == Ok::<Alternatives, String>(Alternatives::All),
            s@ != "all"@ ==> match number_in(s@, usize::MAX as nat) {
                Some(n) => r == Ok::<Alternatives, String>(Alternatives::AtMost(n as usize)),
                None => r is Err && r->Err_0@ == "alternatives must be a number or 'all', got '"@
                    + s@ + "'"@,
            },
    {
        if same(s, "all") {
            return Ok(Alternatives::All);
        }
        match parse_number(s, usize::MAX as u64) {
            Some(n) => Ok(Alternatives::AtMost(n as usize)),
            None => Err(join3("alternatives must be a number or 'all', got '", s, "'")),
        }
    }

    /// The number of alternatives out of `n` that are reported.
    pub open spec fn reported(self, n: nat) -> nat {
        match self {
            Alternatives::All => n,
            Alternatives::AtMost(most) => if most < n {
                most as nat
            } else {
                n
            },
        }
    }
}

#[derive(Clone, Copy, Debug)]
pub struct BestPathOptions {
    pub strategy: Strategy,
    pub alternatives: Alternatives,
}

impl Default for BestPathOptions {
    fn default() -> (r: BestPathOptions)
        ensures
            r.strategy == Strategy::Rfc4271,
            r.alternatives == Alternatives::All,
    {
        BestPathOptions { strategy: Strategy::Rfc4271, alternatives: Alternatives::All }
    }
}

/// One record, with the inputs of the decision process resolved.
pub struct Candidate {
    pub mui: IngressId,
    pub status: RouteStatus,
    pub pamap: RotondaPaMap,
    pub contender: Contender,
    pub assumed: Vec<Assumed>,
}

/// What a [`Candidate`] holds.
pub ghost struct CandidateView {
    pub mui: IngressId,
    pub status: RouteStatus,
    pub pamap: Seq<u8>,
    pub contender: ContenderView,
    pub assumed: Seq<Assumed>,
}

impl View for Candidate {
    type V = CandidateView;

    open spec fn view(&self) -> CandidateView {
        CandidateView {
            mui: self.mui,
            status: self.status,
            pamap: self.pamap@,
            contender: self.contender@,
            assumed: self.assumed@,
        }
    }
}

/// A record that never entered the comparison.
#[derive(Debug)]
pub struct Excluded {
    pub mui: IngressId,
    pub status: RouteStatus,
    pub pamap: RotondaPaMap,
    pub reason: IneligibleReason,
}

/// What an [`Excluded`] holds.
pub ghost struct ExcludedView {
    pub mui: IngressId,
    pub status: RouteStatus,
    pub pamap: Seq<u8>,
    pub reason: IneligibleReason,
}

impl View for Excluded {
    type V = ExcludedView;

    open spec fn view(&self) -> ExcludedView {
        ExcludedView {
            mui: self.mui,
            status: self.status,
            pamap: self.pamap@,
            reason: self.reason,
        }
    }
}

/// Internal if both ends of a session are in one AS. A session with an end
/// unknown counts as external.
pub open spec fn session_type(info: IngressInfo) -> PeerType {
    match (info.local_asn, info.remote_asn) {
        (Some(local), Some(remote)) => if local == remote {
            PeerType::Ibgp
        } else {
            PeerType::Ebgp
        },
        _ => PeerType::Ebgp,
    }
}

/// The identifier that stands for an unknown one: the highest, since the
/// lowest wins step f.
pub open spec fn unknown_bgp_id() -> Seq<u8> {
    seq![255u8, 255u8, 255u8, 255u8]
}

/// What had to be guessed about a session, in the order in which it is
/// reported.
pub open spec fn assumptions(info: IngressInfo) -> Seq<Assumed> {
    let source = if info.local_asn is None || info.remote_asn is None {
        seq![Assumed::RouteSource]
    } else {
        seq![]
    };
    let id = if info.bgp_id is None {
        seq![Assumed::BgpIdentifier]
    } else {
        seq![]
    };
    source + id
}

/// A record as a candidate, or the reason why it cannot be one. An unknown
/// local AS is AS 0, which no route has for a neighbour.
pub open spec fn classified(record: Record, session: Option<IngressInfo>) -> Result<
    CandidateView,
    IneligibleReason,
> {
    match session {
        None => Err(IneligibleReason::UnknownIngress),
        Some(info) => match info.remote_addr {
            None => Err(IneligibleReason::UnknownPeerAddress),
            Some(peer_addr) => match blob_attributes(record.meta@) {
                None => Err(IneligibleReason::MalformedPathAttributes),
                Some(held) => {
                    let contender = ContenderView {
                        held,
                        route_source: session_type(info),
                        local_asn: match info.local_asn {
                            Some(asn) => asn,
                            None => 0,
                        },
                        bgp_identifier: match info.bgp_id {
                            Some(id) => id@,
                            None => unknown_bgp_id(),
                        },
                        peer_addr,
                    };
                    let looped = match (info.local_asn, as_path_in(held)) {
                        (Some(local), Some(path)) => path_contains(path, local),
                        _ => false,
                    };
                    if looped {
                        Err(IneligibleReason::AsPathLoop)
                    } else if contender.ineligible() is Some {
                        Err(contender.ineligible()->0)
                    } else if as_path_in(held) is None {
                        Err(IneligibleReason::MissingAsPath)
                    } else {
                        Ok(
                            CandidateView {
                                mui: record.multi_uniq_id,
                                status: record.status,
                                pamap: record.meta@,
                                contender,
                                assumed: assumptions(info),
                            },
                        )
                    }
                },
            },
        },
    }
}

/// A record that is left out for a reason.
pub open spec fn left_out(record: Record, reason: IneligibleReason) -> ExcludedView {
    ExcludedView {
        mui: record.multi_uniq_id,
        status: record.status,
        pamap: record.meta@,
        reason,
    }
}

fn exclude(record: &Record, reason: IneligibleReason) -> (r: Excluded)
    ensures
        r@ == left_out(*record, reason),
{
    Excluded {
        mui: record.multi_uniq_id,
        status: record.status,
        pamap: record.meta.duplicate(),
        reason,
    }
}

/// The session that is passed by reference, if any.
pub open spec fn known(session: Option<&IngressInfo>) -> Option<IngressInfo> {
    match session {
        Some(info) => Some(*info),
        None => None,
    }
}

/// Turns one stored record into a candidate, or says why it cannot be one.
///
/// The session is the one that the record's ingress resolves to: a path of an
/// ADD-PATH session has no peer identity of its own. The loop check comes
/// before the other reasons that the AS_PATH gives, being the more specific
/// answer, and is left out if the local AS is not known. A route whose AS_PATH
/// is there but cannot be read lacks one as far as the comparison goes.
pub fn classify(record: &Record, session: Option<&IngressInfo>) -> (r: Result<Candidate, Excluded>)
    ensures
        match classified(*record, known(session)) {
            Ok(candidate) => r is Ok && r->Ok_0@ == candidate,
            Err(reason) => r is Err && r->Err_0@ == left_out(*record, reason),
        },
{
    let info = match session {
        Some(info) => info,
        None => {
            return Err(exclude(record, IneligibleReason::UnknownIngress));
        },
    };
    let peer_addr = match info.remote_addr {
        Some(addr) => addr,
        None => {
            return Err(exclude(record, IneligibleReason::UnknownPeerAddress));
        },
    };
    let pa_map = match record.meta.build_pa_map() {
        Some(pa_map) => pa_map,
        None => {
            return Err(exclude(record, IneligibleReason::MalformedPathAttributes));
        },
    };
    let mut assumed: Vec<Assumed> = Vec::new();
    let route_source = match (info.local_asn, info.remote_asn) {
        (Some(local), Some(remote)) => if local == remote {
            PeerType::Ibgp
        } else {
            PeerType::Ebgp
        },
        _ => {
            assumed.push(Assumed::RouteSource);
            PeerType::Ebgp
        },
    };
    let local_asn: u32 = match info.local_asn {
        Some(asn) => asn,
        None => 0,
    };
    let bgp_identifier = match info.bgp_id {
        Some(id) => id,
        None => {
            assumed.push(Assumed::BgpIdentifier);
            let highest: [u8; 4] = [255, 255, 255, 255];
            assert(highest@ =~= unknown_bgp_id());
            highest
        },
    };
    assert(assumed@ =~= assumptions(*info));
    let contender = Contender { pa_map, route_source, local_asn, bgp_identifier, peer_addr };
    let path = get_as_path(&contender.pa_map);
    if let Some(local) = info.local_asn {
        if let Some(hops) = &path {
            if as_path_contains(hops, local) {
                return Err(exclude(record, IneligibleReason::AsPathLoop));
            }
        }
    }
    if let Err(reason) = check_eligible(&contender) {
        return Err(exclude(record, reason));
    }
    if path.is_none() {
        return Err(exclude(record, IneligibleReason::MissingAsPath));
    }
    Ok(
        Candidate {
            mui: record.multi_uniq_id,
            status: record.status,
            pamap: record.meta.duplicate(),
            contender,
            assumed,
        },
    )
}

/// The session that a record's ingress resolves to.
pub open spec fn session_of(mui: IngressId, register: Map<IngressId, IngressInfo>) -> Option<
    IngressInfo,
> {
    let source = source_of(mui, in_register(mui, register)).ingress_id;
    in_register(source, register)
}

/// What the register has for an ingress.
pub open spec fn in_register(id: IngressId, register: Map<IngressId, IngressInfo>) -> Option<
    IngressInfo,
> {
    if register.contains_key(id) {
        Some(register[id])
    } else {
        None
    }
}

/// How a record fares, given the register.
pub open spec fn outcome(record: Record, register: Map<IngressId, IngressInfo>) -> Result<
    CandidateView,
    IneligibleReason,
> {
    classified(record, session_of(record.multi_uniq_id, register))
}

/// The candidates among some records, in their order.
pub open spec fn candidates_in(
    records: Seq<Record>,
    register: Map<IngressId, IngressInfo>,
) -> Seq<CandidateView>
    decreases records.len(),
{
    if records.len() == 0 {
        seq![]
    } else {
        let rest = candidates_in(records.drop_last(), register);
        match outcome(records.last(), register) {
            Ok(candidate) => rest.push(candidate),
            Err(_) => rest,
        }
    }
}

/// The records that are no candidates, in their order.
pub open spec fn excluded_in(
    records: Seq<Record>,
    register: Map<IngressId, IngressInfo>,
) -> Seq<ExcludedView>
    decreases records.len(),
{
    if records.len() == 0 {
        seq![]
    } else {
        let rest = excluded_in(records.drop_last(), register);
        match outcome(records.last(), register) {
            Ok(_) => rest,
            Err(reason) => rest.push(left_out(records.last(), reason)),
        }
    }
}

/// Whether candidate `i` is preferred over candidate `k`.
pub open spec fn preferred(candidates: Seq<CandidateView>, i: int, k: int, strategy: Strategy) -> bool {
    decision(candidates[i].contender, candidates[k].contender, strategy).0 == Order::Less
}

/// Where candidate `i` goes in a ranking: behind the last one over which it is
/// not preferred.
pub open spec fn slot(
    candidates: Seq<CandidateView>,
    order: Seq<int>,
    i: int,
    strategy: Strategy,
) -> int
    decreases order.len(),
{
    if order.len() > 0 && preferred(candidates, i, order.last(), strategy) {
        slot(candidates, order.drop_last(), i, strategy)
    } else {
        order.len() as int
    }
}

/// A ranking with candidate `i` put in.
pub open spec fn placed(
    candidates: Seq<CandidateView>,
    order: Seq<int>,
    i: int,
    strategy: Strategy,
) -> Seq<int> {
    order.insert(slot(candidates, order, i, strategy), i)
}

/// The ranking of the first `n` candidates, by their indices, the most
/// preferred first: each candidate in turn is put into the ranking of those
/// before it.
pub open spec fn ranking(candidates: Seq<CandidateView>, n: nat, strategy: Strategy) -> Seq<int>
    decreases n,
{
    if n == 0 {
        seq![]
    } else {
        placed(candidates, ranking(candidates, (n - 1) as nat, strategy), n - 1, strategy)
    }
}

/// Whether the order is transitive over some candidates.
pub open spec fn transitive_over(candidates: Seq<CandidateView>, strategy: Strategy) -> bool {
    forall|i: int, j: int, k: int|
        #![trigger candidates[i], candidates[j], candidates[k]]
        0 <= i < candidates.len() && 0 <= j < candidates.len() && 0 <= k < candidates.len()
            && decision(candidates[i].contender, candidates[j].contender, strategy).0
            != Order::Greater && decision(
            candidates[j].contender,
            candidates[k].contender,
            strategy,
        ).0 != Order::Greater ==> {
            let far = decision(candidates[i].contender, candidates[k].contender, strategy).0;
            &&& far != Order::Greater
            &&& far == Order::Equal ==> decision(
                candidates[i].contender,
                candidates[j].contender,
                strategy,
            ).0 == Order::Equal && decision(
                candidates[j].contender,
                candidates[k].contender,
                strategy,
            ).0 == Order::Equal
        }
}

/// Whether candidate `i` is to stand before candidate `k`: preferred, or equal
/// and stored earlier.
pub open spec fn stands_before(
    candidates: Seq<CandidateView>,
    i: int,
    k: int,
    strategy: Strategy,
) -> bool {
    let order = decision(candidates[i].contender, candidates[k].contender, strategy).0;
    order == Order::Less || (order == Order::Equal && i < k)
}

/// Whether a ranking lists the first `n` candidates, each once.
pub open spec fn lists_all(order: Seq<int>, n: nat) -> bool {
    &&& order.len() == n
    &&& forall|p: int| 0 <= p < n ==> 0 <= #[trigger] order[p] < n
    &&& forall|p: int, q: int| 0 <= p < q < n ==> order[p] != order[q]
}

proof fn slot_bounds(candidates: Seq<CandidateView>, order: Seq<int>, i: int, strategy: Strategy)
    ensures
        0 <= slot(candidates, order, i, strategy) <= order.len(),
        forall|q: int|
            slot(candidates, order, i, strategy) <= q < order.len() ==> preferred(
                candidates,
                i,
                #[trigger] order[q],
                strategy,
            ),
        slot(candidates, order, i, strategy) > 0 ==> !preferred(
            candidates,
            i,
            order[slot(candidates, order, i, strategy) - 1],
            strategy,
        ),
    decreases order.len(),
{
    if order.len() > 0 && preferred(candidates, i, order.last(), strategy) {
        let short = order.drop_last();
        slot_bounds(candidates, short, i, strategy);
        let at = slot(candidates, order, i, strategy);
        assert forall|q: int| at <= q < order.len() implies preferred(
            candidates,
            i,
            #[trigger] order[q],
            strategy,
        ) by {
            if q < short.len() {
                assert(short[q] == order[q]);
            }
        }
        if at > 0 {
            assert(short[at - 1] == order[at - 1]);
        }
    }
}

/// A ranking lists every candidate once.
pub proof fn ranking_lists_all(candidates: Seq<CandidateView>, n: nat, strategy: Strategy)
    requires
        n <= candidates.len(),
    ensures
        lists_all(ranking(candidates, n, strategy), n),
    decreases n,
{
    if n > 0 {
        ranking_lists_all(candidates, (n - 1) as nat, strategy);
        let order = ranking(candidates, (n - 1) as nat, strategy);
        slot_bounds(candidates, order, n - 1, strategy);
        order.insert_ensures(slot(candidates, order, n - 1, strategy), n - 1);
        let at = slot(candidates, order, n - 1, strategy);
        let all = ranking(candidates, n, strategy);
        assert forall|p: int| 0 <= p < n implies 0 <= #[trigger] all[p] < n by {
            if p < at {
                assert(0 <= order[p] < n - 1);
            } else if p > at {
                assert(0 <= order[p - 1] < n - 1);
            }
        }
        assert forall|p: int, q: int| 0 <= p < q < n implies all[p] != all[q] by {
            let old_p = if p < at { p } else { p - 1 };
            let old_q = if q < at { q } else { q - 1 };
            if p != at {
                assert(all[p] == order[old_p] && 0 <= order[old_p] < n - 1);
            }
            if q != at {
                assert(all[q] == order[old_q] && 0 <= order[old_q] < n - 1);
            }
        }
    }
}

/// A ranking is sorted where the order is transitive: whoever stands earlier
/// is preferred, or is equal and was stored earlier.
pub proof fn ranking_is_sorted(candidates: Seq<CandidateView>, n: nat, strategy: Strategy)
    requires
        n <= candidates.len(),
        transitive_over(candidates, strategy),
    ensures
        forall|p: int, q: int|
            0 <= p < q < n ==> stands_before(
                candidates,
                #[trigger] ranking(candidates, n, strategy)[p],
                #[trigger] ranking(candidates, n, strategy)[q],
                strategy,
            ),
    decreases n,
{
    if n > 0 {
        let order = ranking(candidates, (n - 1) as nat, strategy);
        ranking_is_sorted(candidates, (n - 1) as nat, strategy);
        ranking_lists_all(candidates, (n - 1) as nat, strategy);
        slot_bounds(candidates, order, n - 1, strategy);
        order.insert_ensures(slot(candidates, order, n - 1, strategy), n - 1);
        let at = slot(candidates, order, n - 1, strategy);
        let all = ranking(candidates, n, strategy);
        assert forall|p: int, q: int| 0 <= p < q < n implies stands_before(
            candidates,
            #[trigger] all[p],
            #[trigger] all[q],
            strategy,
        ) by {
            let old_p = if p < at { p } else { p - 1 };
            let old_q = if q < at { q } else { q - 1 };
            if p != at && q != at {
                assert(all[p] == order[old_p] && all[q] == order[old_q]);
                assert(stands_before(candidates, order[old_p], order[old_q], strategy));
            } else if p == at {
                assert(all[q] == order[q - 1]);
            } else {
                let near = order[at - 1];
                assert(all[p] == order[p] && 0 <= order[p] < n - 1 && 0 <= near < n - 1);
                decision_is_antisymmetric(
                    candidates[n - 1].contender,
                    candidates[near].contender,
                    strategy,
                );
                if p < at - 1 {
                    assert(stands_before(candidates, order[p], near, strategy));
                    assert(candidates[order[p]] == candidates[order[p]] && candidates[near]
                        == candidates[near] && candidates[n - 1] == candidates[n - 1]);
                }
            }
        }
    }
}

/// The order is transitive over candidates whose mandatory attributes can be
/// read if MULTI_EXIT_DISC is left out or if all have the same neighbour AS.
pub proof fn order_is_transitive(candidates: Seq<CandidateView>, strategy: Strategy)
    requires
        forall|i: int| 0 <= i < candidates.len() ==> readable(#[trigger] candidates[i].contender),
        strategy == Strategy::SkipMed || forall|i: int, k: int|
            0 <= i < candidates.len() && 0 <= k < candidates.len()
                ==> #[trigger] candidates[i].contender.neighbor_asn()
                == #[trigger] candidates[k].contender.neighbor_asn(),
    ensures
        transitive_over(candidates, strategy),
{
    assert forall|i: int, j: int, k: int|
        #![trigger candidates[i], candidates[j], candidates[k]]
        0 <= i < candidates.len() && 0 <= j < candidates.len() && 0 <= k < candidates.len()
            && decision(candidates[i].contender, candidates[j].contender, strategy).0
            != Order::Greater && decision(
            candidates[j].contender,
            candidates[k].contender,
            strategy,
        ).0 != Order::Greater implies ({
        let far = decision(candidates[i].contender, candidates[k].contender, strategy).0;
        &&& far != Order::Greater
        &&& far == Order::Equal ==> decision(
            candidates[i].contender,
            candidates[j].contender,
            strategy,
        ).0 == Order::Equal && decision(
            candidates[j].contender,
            candidates[k].contender,
            strategy,
        ).0 == Order::Equal
    }) by {
        if strategy == Strategy::Rfc4271 {
            assert(candidates[i].contender.neighbor_asn()
                == candidates[j].contender.neighbor_asn());
            assert(candidates[j].contender.neighbor_asn()
                == candidates[k].contender.neighbor_asn());
        }
        decision_is_transitive(
            candidates[i].contender,
            candidates[j].contender,
            candidates[k].contender,
            strategy,
        );
    }
}

/// Every record is either a candidate or left out.
pub proof fn every_record_is_accounted_for(
    records: Seq<Record>,
    register: Map<IngressId, IngressInfo>,
)
    ensures
        candidates_in(records, register).len() + excluded_in(records, register).len()
            == records.len(),
    decreases records.len(),
{
    if records.len() > 0 {
        every_record_is_accounted_for(records.drop_last(), register);
    }
}

/// The identifier that stands for an unknown one never wins step f.
pub proof fn unknown_id_never_wins(a: ContenderView, b: ContenderView, strategy: Strategy)
    requires
        a.effective_bgp_id() == unknown_bgp_id(),
        b.effective_bgp_id().len() == 4,
        decision(a, b, strategy).1 == DecisionStep::BgpIdentifier,
    ensures
        decision(a, b, strategy).0 == Order::Greater,
{
    reveal(decision);
    reveal_with_fuel(bytes_order, 5);
    let x = unknown_bgp_id();
    let y = b.effective_bgp_id();
    assert(x.drop_first() =~= seq![255u8, 255u8, 255u8]);
    assert(x.drop_first().drop_first() =~= seq![255u8, 255u8]);
    assert(x.drop_first().drop_first().drop_first() =~= seq![255u8]);
    assert(x.drop_first().drop_first().drop_first().drop_first() =~= Seq::<u8>::empty());
}

/// A ranked route, with the step that placed it there.
pub struct Ranked {
    pub rank: usize,
    /// For the best path, the step that separated it from the runner-up. For
    /// an alternative, the step at which it lost to the best path. `None` when
    /// there is nothing to compare against.
    pub step: Option<DecisionStep>,
    pub candidate: Candidate,
}

/// What a [`Ranked`] holds.
pub ghost struct RankedView {
    pub rank: int,
    pub step: Option<DecisionStep>,
    pub candidate: CandidateView,
}

impl View for Ranked {
    type V = RankedView;

    open spec fn view(&self) -> RankedView {
        RankedView { rank: self.rank as int, step: self.step, candidate: self.candidate@ }
    }
}

/// The candidate at a place in the ranking.
pub open spec fn at_rank(candidates: Seq<CandidateView>, place: int, strategy: Strategy) -> CandidateView {
    candidates[ranking(candidates, candidates.len(), strategy)[place]]
}

/// The step that separates the best path from the one at another place.
pub open spec fn lost_at(candidates: Seq<CandidateView>, place: int, strategy: Strategy) -> DecisionStep {
    decision(
        at_rank(candidates, 0, strategy).contender,
        at_rank(candidates, place, strategy).contender,
        strategy,
    ).1
}

/// The best of some candidates.
pub open spec fn best_of(candidates: Seq<CandidateView>, strategy: Strategy) -> Option<RankedView> {
    if candidates.len() == 0 {
        None
    } else {
        Some(
            RankedView {
                rank: 1,
                step: if candidates.len() > 1 {
                    Some(lost_at(candidates, 1, strategy))
                } else {
                    None
                },
                candidate: at_rank(candidates, 0, strategy),
            },
        )
    }
}

/// The alternatives that are reported below the best of some candidates. Each
/// is explained against the best path, not against its neighbour in the
/// ranking.
pub open spec fn alternatives_of(
    candidates: Seq<CandidateView>,
    options: BestPathOptions,
) -> Seq<RankedView> {
    let below = if candidates.len() > 0 {
        (candidates.len() - 1) as nat
    } else {
        0
    };
    Seq::new(
        options.alternatives.reported(below),
        |k: int|
            RankedView {
                rank: k + 2,
                step: Some(lost_at(candidates, k + 1, options.strategy)),
                candidate: at_rank(candidates, k + 1, options.strategy),
            },
    )
}

/// What a list of ranked routes holds.
pub open spec fn ranked_views(list: Seq<Ranked>) -> Seq<RankedView> {
    list.map_values(|ranked: Ranked| ranked@)
}

/// What a list of candidates holds.
pub open spec fn candidate_views(list: Seq<Candidate>) -> Seq<CandidateView> {
    list.map_values(|candidate: Candidate| candidate@)
}

/// What a list of excluded records holds.
pub open spec fn excluded_views(list: Seq<Excluded>) -> Seq<ExcludedView> {
    list.map_values(|excluded: Excluded| excluded@)
}

/// A cap on the alternatives limits what is listed, not what was considered:
/// the best path stays the same, and the list is the head of the full one.
pub proof fn cap_limits_reporting_only(
    candidates: Seq<CandidateView>,
    strategy: Strategy,
    most: usize,
)
    ensures
        ({
            let all = alternatives_of(
                candidates,
                BestPathOptions { strategy, alternatives: Alternatives::All },
            );
            let capped = alternatives_of(
                candidates,
                BestPathOptions { strategy, alternatives: Alternatives::AtMost(most) },
            );
            capped == all.take(if most < all.len() { most as int } else { all.len() as int })
        }),
{
    let all = alternatives_of(
        candidates,
        BestPathOptions { strategy, alternatives: Alternatives::All },
    );
    let capped = alternatives_of(
        candidates,
        BestPathOptions { strategy, alternatives: Alternatives::AtMost(most) },
    );
    assert(capped =~= all.take(if most < all.len() { most as int } else { all.len() as int }));
}

/// Every alternative is explained against the best path: its step is the one
/// that separates the two. The best path has the step of the runner-up, and
/// the ranks count on from it.
pub proof fn alternatives_lose_to_the_best(
    candidates: Seq<CandidateView>,
    options: BestPathOptions,
    k: int,
)
    requires
        0 <= k < alternatives_of(candidates, options).len(),
    ensures
        ({
            let best = best_of(candidates, options.strategy);
            let all = alternatives_of(candidates, options);
            &&& best is Some
            &&& best->0.rank == 1
            &&& all[k].rank == k + 2
            &&& all[k].step == Some(
                decision(
                    best->0.candidate.contender,
                    all[k].candidate.contender,
                    options.strategy,
                ).1,
            )
            &&& best->0.step == all[0].step
        }),
{
}

/// With no cap every candidate is reported, as the best path or as an
/// alternative, and as many as there are.
pub proof fn every_candidate_is_reported(
    candidates: Seq<CandidateView>,
    strategy: Strategy,
    i: int,
)
    requires
        0 <= i < candidates.len(),
    ensures
        ({
            let best = best_of(candidates, strategy)->0.candidate;
            let all = alternatives_of(
                candidates,
                BestPathOptions { strategy, alternatives: Alternatives::All },
            );
            &&& all.len() + 1 == candidates.len()
            &&& candidates[i] == best || exists|k: int|
                0 <= k < all.len() && (#[trigger] all[k]).candidate == candidates[i]
        }),
{
    let n = candidates.len();
    let order = ranking(candidates, n, strategy);
    ranking_lists_all(candidates, n, strategy);
    ranking_reaches(candidates, n, strategy, i);
    let p = choose|p: int| 0 <= p < n && order[p] == i;
    let all = alternatives_of(
        candidates,
        BestPathOptions { strategy, alternatives: Alternatives::All },
    );
    if p > 0 {
        assert(all[p - 1].candidate == candidates[i]);
    }
}

/// What a candidate is compared by comes from its own record and session: its
/// attributes from its blob, its address, identifier and AS number from its
/// session.
pub proof fn candidates_are_their_records(record: Record, info: IngressInfo)
    requires
        classified(record, Some(info)) is Ok,
    ensures
        ({
            let c = classified(record, Some(info))->Ok_0;
            &&& c.mui == record.multi_uniq_id
            &&& c.status == record.status
            &&& c.pamap == record.meta@
            &&& Some(c.contender.held) == blob_attributes(record.meta@)
            &&& Some(c.contender.peer_addr) == info.remote_addr
            &&& info.bgp_id matches Some(id) ==> c.contender.bgp_identifier == id@
            &&& info.local_asn matches Some(asn) ==> c.contender.local_asn == asn
            &&& c.contender.route_source == PeerType::Ibgp <==> info.local_asn is Some
                && info.local_asn == info.remote_asn
            &&& c.assumed.contains(Assumed::BgpIdentifier) <==> info.bgp_id is None
            &&& c.assumed.contains(Assumed::RouteSource) <==> info.local_asn is None
                || info.remote_asn is None
            &&& c.contender.held.contains_key(1)
            &&& as_path_in(c.contender.held) is Some
            &&& info.local_asn matches Some(asn) ==> !path_contains(
                as_path_in(c.contender.held)->0,
                asn,
            )
        }),
{
    let c = classified(record, Some(info))->Ok_0;
    if info.bgp_id is None {
        assert(c.assumed.last() == Assumed::BgpIdentifier);
    }
    if info.local_asn is None || info.remote_asn is None {
        assert(c.assumed[0] == Assumed::RouteSource);
    }
    assert forall|a: Assumed| c.assumed.contains(a) implies (a == Assumed::BgpIdentifier
        ==> info.bgp_id is None) && (a == Assumed::RouteSource ==> info.local_asn is None
        || info.remote_asn is None) by {
        let i = choose|i: int| 0 <= i < c.assumed.len() && c.assumed[i] == a;
    }
}

/// Each reason for leaving a record out says what is wrong with it.
pub proof fn reasons_say_what_is_wrong(record: Record, session: Option<IngressInfo>)
    requires
        classified(record, session) is Err,
    ensures
        match classified(record, session)->Err_0 {
            IneligibleReason::UnknownIngress => session is None,
            IneligibleReason::UnknownPeerAddress => session is Some && session->0.remote_addr
                is None,
            IneligibleReason::MalformedPathAttributes => blob_attributes(record.meta@) is None,
            IneligibleReason::MissingOrigin => !blob_attributes(record.meta@)->0.contains_key(1),
            IneligibleReason::MissingAsPath => as_path_in(blob_attributes(record.meta@)->0) is None,
            IneligibleReason::EbgpWithoutNeighbour => session_type(session->0) == PeerType::Ebgp
                && (as_path_in(blob_attributes(record.meta@)->0) matches Some(path)
                ==> path.len() == 0 || path[0] is Segment),
            IneligibleReason::AsPathLoop => path_contains(
                as_path_in(blob_attributes(record.meta@)->0)->0,
                session->0.local_asn->0,
            ),
        },
{
}

/// Where the order is transitive no candidate is preferred over the best path.
pub proof fn nothing_beats_the_best(
    candidates: Seq<CandidateView>,
    strategy: Strategy,
    i: int,
)
    requires
        transitive_over(candidates, strategy),
        0 <= i < candidates.len(),
    ensures
        decision(candidates[i].contender, best_of(candidates, strategy)->0.candidate.contender, strategy).0
            != Order::Less,
{
    let n = candidates.len();
    let order = ranking(candidates, n, strategy);
    ranking_lists_all(candidates, n, strategy);
    ranking_is_sorted(candidates, n, strategy);
    ranking_reaches(candidates, n, strategy, i);
    let p = choose|p: int| 0 <= p < n && order[p] == i;
    decision_is_antisymmetric(candidates[order[0]].contender, candidates[i].contender, strategy);
    if p > 0 {
        assert(stands_before(candidates, order[0], order[p], strategy));
    } else {
        decision_is_antisymmetric(candidates[i].contender, candidates[i].contender, strategy);
    }
}

proof fn ranking_reaches(candidates: Seq<CandidateView>, n: nat, strategy: Strategy, i: int)
    requires
        n <= candidates.len(),
        0 <= i < n,
    ensures
        exists|p: int| 0 <= p < n && ranking(candidates, n, strategy)[p] == i,
    decreases n,
{
    let order = ranking(candidates, (n - 1) as nat, strategy);
    let at = slot(candidates, order, n - 1, strategy);
    ranking_lists_all(candidates, (n - 1) as nat, strategy);
    slot_bounds(candidates, order, n - 1, strategy);
    order.insert_ensures(at, n - 1);
    let all = ranking(candidates, n, strategy);
    if i == n - 1 {
        assert(all[at] == i);
    } else {
        ranking_reaches(candidates, (n - 1) as nat, strategy, i);
        let p = choose|p: int| 0 <= p < n - 1 && order[p] == i;
        let q = if p < at { p } else { p + 1 };
        assert(all[q] == i);
    }
}

/// The numbers that a list of indices stands for.
pub open spec fn indices(order: Seq<usize>) -> Seq<int> {
    order.map_values(|i: usize| i as int)
}

/// Whether every candidate can be compared with every other.
pub open spec fn all_comparable(candidates: Seq<CandidateView>) -> bool {
    forall|i: int| 0 <= i < candidates.len() ==> {
        &&& (#[trigger] candidates[i]).contender.ineligible() is None
        &&& as_path_in(candidates[i].contender.held) is Some
    }
}

proof fn candidates_are_comparable(records: Seq<Record>, register: Map<IngressId, IngressInfo>)
    ensures
        all_comparable(candidates_in(records, register)),
    decreases records.len(),
{
    if records.len() > 0 {
        candidates_are_comparable(records.drop_last(), register);
    }
}

/// Where a candidate goes among the ranked ones.
fn find_slot(candidates: &[Candidate], order: &[usize], i: usize, strategy: Strategy) -> (r: usize)
    requires
        all_comparable(candidate_views(candidates@)),
        i < candidates.len(),
        forall|p: int| 0 <= p < order.len() ==> #[trigger] order[p] < candidates.len(),
    ensures
        r == slot(candidate_views(candidates@), indices(order@), i as int, strategy),
        r <= order.len(),
{
    let ghost views = candidate_views(candidates@);
    let ghost ranked = indices(order@);
    let mut p: usize = order.len();
    assert(ranked.take(p as int) =~= ranked);
    while p > 0
        invariant
            p <= order.len(),
            i < candidates.len(),
            views == candidate_views(candidates@),
            ranked == indices(order@),
            all_comparable(views),
            forall|p: int| 0 <= p < order.len() ==> #[trigger] order[p] < candidates.len(),
            slot(views, ranked, i as int, strategy) == slot(
                views,
                ranked.take(p as int),
                i as int,
                strategy,
            ),
        decreases p,
    {
        let k: usize = order[p - 1];
        assert(views[i as int] == candidates@[i as int]@);
        assert(views[k as int] == candidates@[k as int]@);
        assert(ranked.take(p as int).drop_last() =~= ranked.take(p - 1));
        assert(ranked.take(p as int).last() == k);
        match compare(&candidates[i].contender, &candidates[k].contender, strategy) {
            Ok(Order::Less) => {},
            _ => {
                return p;
            },
        }
        p -= 1;
    }
    p
}

/// Ranks the candidates, the most preferred first. Candidates that compare as
/// equal keep their order.
fn rank(candidates: &[Candidate], strategy: Strategy) -> (r: Vec<usize>)
    requires
        all_comparable(candidate_views(candidates@)),
    ensures
        indices(r@) == ranking(candidate_views(candidates@), candidates@.len(), strategy),
{
    let ghost views = candidate_views(candidates@);
    let mut order: Vec<usize> = Vec::new();
    let mut i: usize = 0;
    assert(indices(order@) =~= ranking(views, 0, strategy));
    while i < candidates.len()
        invariant
            i <= candidates.len(),
            views == candidate_views(candidates@),
            all_comparable(views),
            order@.len() == i,
            forall|p: int| 0 <= p < order.len() ==> #[trigger] order[p] < candidates.len(),
            indices(order@) == ranking(views, i as nat, strategy),
        decreases candidates.len() - i,
    {
        let at: usize = find_slot(candidates, &order, i, strategy);
        let ghost before = order@;
        order.insert(at, i);
        proof {
            slot_bounds(views, indices(before), i as int, strategy);
            indices(before).insert_ensures(at as int, i as int);
            before.insert_ensures(at as int, i);
            assert(indices(order@) =~= indices(before).insert(at as int, i as int));
            assert forall|p: int| 0 <= p < order.len() implies #[trigger] order[p]
                < candidates.len() by {
                if p < at {
                    assert(order@[p] == before[p]);
                } else if p > at {
                    assert(order@[p] == before[p - 1]);
                }
            }
        }
        i += 1;
    }
    order
}

/// Splits the records into candidates and the rest.
fn classify_all(records: &[Record], ingress_info: &HashMap<IngressId, IngressInfo>) -> (r: (
    Vec<Candidate>,
    Vec<Excluded>,
))
    ensures
        candidate_views(r.0@) == candidates_in(records@, ingress_info@),
        excluded_views(r.1@) == excluded_in(records@, ingress_info@),
{
    let mut candidates: Vec<Candidate> = Vec::new();
    let mut excluded: Vec<Excluded> = Vec::new();
    let mut i: usize = 0;
    assert(candidate_views(candidates@) =~= candidates_in(records@.take(0), ingress_info@));
    assert(excluded_views(excluded@) =~= excluded_in(records@.take(0), ingress_info@));
    while i < records.len()
        invariant
            i <= records.len(),
            candidate_views(candidates@) == candidates_in(records@.take(i as int), ingress_info@),
            excluded_views(excluded@) == excluded_in(records@.take(i as int), ingress_info@),
        decreases records.len() - i,
    {
        let record = &records[i];
        let source = RouteSource::resolve(
            record.multi_uniq_id,
            ingress_info.get(&record.multi_uniq_id),
        );
        let session = ingress_info.get(&source.ingress_id);
        proof {
            assert(known(session) == session_of(record.multi_uniq_id, ingress_info@));
            assert(records@.take(i + 1).drop_last() =~= records@.take(i as int));
            assert(records@.take(i + 1).last() == *record);
        }
        let ghost candidates_before = candidates@;
        let ghost excluded_before = excluded@;
        match classify(record, session) {
            Ok(candidate) => {
                candidates.push(candidate);
                assert(candidate_views(candidates@) =~= candidate_views(candidates_before).push(
                    candidate@,
                ));
            },
            Err(left) => {
                excluded.push(left);
                assert(excluded_views(excluded@) =~= excluded_views(excluded_before).push(left@));
            },
        }
        i += 1;
    }
    assert(records@.take(i as int) =~= records@);
    (candidates, excluded)
}

/// The candidates, each in a slot of its own that it can be taken out of.
fn in_slots(candidates: Vec<Candidate>) -> (r: Vec<Option<Candidate>>)
    ensures
        r@.len() == candidates@.len(),
        forall|k: int| 0 <= k < r@.len() ==> #[trigger] r@[k] == Some(candidates@[k]),
{
    let mut slots: Vec<Option<Candidate>> = Vec::new();
    for candidate in iter: candidates
        invariant
            slots@.len() == iter.index(),
            forall|k: int| 0 <= k < slots@.len() ==> #[trigger] slots@[k] == Some(iter.seq()[k]),
    {
        slots.push(Some(candidate));
    }
    slots
}

/// Takes a candidate out of its slot.
fn take_slot(slots: &mut Vec<Option<Candidate>>, i: usize) -> (r: Candidate)
    requires
        i < old(slots)@.len(),
        old(slots)@[i as int] is Some,
    ensures
        old(slots)@[i as int] == Some(r),
        final(slots)@ == old(slots)@.update(i as int, None),
{
    slots[i].take().unwrap()
}

/// Runs the decision process over the records of one prefix.
pub fn select(
    records: &[Record],
    ingress_info: &HashMap<IngressId, IngressInfo>,
    options: BestPathOptions,
) -> (r: (Option<Ranked>, Vec<Ranked>, Vec<Excluded>))
    ensures
        match best_of(candidates_in(records@, ingress_info@), options.strategy) {
            Some(best) => r.0 is Some && r.0->0@ == best,
            None => r.0 is None,
        },
        ranked_views(r.1@) == alternatives_of(candidates_in(records@, ingress_info@), options),
        excluded_views(r.2@) == excluded_in(records@, ingress_info@),
        r.0 is None ==> r.1@.len() == 0,
        r.0 is Some ==> r.0->0.rank == 1,
        forall|k: int|
            0 <= k < r.1@.len() ==> (#[trigger] r.1@[k]).rank == k + 2 && r.1@[k].step == Some(
                decision(
                    r.0->0.candidate.contender@,
                    r.1@[k].candidate.contender@,
                    options.strategy,
                ).1,
            ),
        r.1@.len() > 0 ==> r.0->0.step == r.1@[0].step,
        options.alternatives == Alternatives::All && r.0 is Some ==> r.1@.len() + 1 + r.2@.len()
            == records@.len(),
{
    let (candidates, excluded) = classify_all(records, ingress_info);
    let ghost views = candidate_views(candidates@);
    proof {
        candidates_are_comparable(records@, ingress_info@);
        ranking_lists_all(views, views.len(), options.strategy);
        every_record_is_accounted_for(records@, ingress_info@);
        assert(excluded_views(excluded@).len() == excluded@.len());
    }
    if candidates.len() == 0 {
        let alternatives: Vec<Ranked> = Vec::new();
        assert(ranked_views(alternatives@) =~= alternatives_of(views, options));
        return (None, alternatives, excluded);
    }
    let order = rank(&candidates, options.strategy);
    let ghost places = ranking(views, views.len(), options.strategy);
    assert forall|p: int| 0 <= p < order.len() implies #[trigger] order[p] == places[p] by {
        assert(indices(order@)[p] == order@[p]);
    }
    let decided_by = if order.len() > 1 {
        assert(views[places[0]] == candidates@[order@[0] as int]@);
        assert(views[places[1]] == candidates@[order@[1] as int]@);
        Some(
            decisive_step(
                &candidates[order[0]].contender,
                &candidates[order[1]].contender,
                options.strategy,
            ).1,
        )
    } else {
        None
    };
    let wanted: usize = match options.alternatives {
        Alternatives::All => usize::MAX,
        Alternatives::AtMost(n) => n,
    };
    let mut slots = in_slots(candidates);
    assert(order[0] == places[0]);
    let best = take_slot(&mut slots, order[0]);
    assert(best@ == at_rank(views, 0, options.strategy));
    let mut alternatives: Vec<Ranked> = Vec::new();
    while alternatives.len() < wanted && alternatives.len() + 1 < order.len()
        invariant
            alternatives.len() < order.len(),
            alternatives.len() <= wanted,
            order.len() == views.len(),
            slots.len() == views.len(),
            best@ == at_rank(views, 0, options.strategy),
            places == ranking(views, views.len(), options.strategy),
            lists_all(places, views.len()),
            forall|p: int| 0 <= p < order.len() ==> #[trigger] order[p] == places[p],
            forall|p: int|
                alternatives.len() < p < order.len() ==> {
                    &&& slots@[(#[trigger] places[p])] is Some
                    &&& slots@[places[p]]->0@ == views[places[p]]
                },
            forall|k: int|
                0 <= k < alternatives.len() ==> (#[trigger] alternatives@[k])@ == (RankedView {
                    rank: k + 2,
                    step: Some(lost_at(views, k + 1, options.strategy)),
                    candidate: at_rank(views, k + 1, options.strategy),
                }),
        decreases order.len() - alternatives.len(),
    {
        let place: usize = alternatives.len() + 1;
        assert(order[place as int] == places[place as int]);
        let candidate = take_slot(&mut slots, order[place]);
        let step = decisive_step(&best.contender, &candidate.contender, options.strategy).1;
        alternatives.push(Ranked { rank: place + 1, step: Some(step), candidate });
    }
    assert(ranked_views(alternatives@) =~= alternatives_of(views, options));
    assert(places.len() == views.len());
    (Some(Ranked { rank: 1, step: decided_by, candidate: best }), alternatives, excluded)
}

/// A blob holds the attributes behind two octets, of which the second says
/// whether AS numbers have four octets; a shorter one holds none.
pub proof fn blobs_are_read_behind_their_header(rpki: u8, wire: Seq<u8>, four_octet_asns: bool)
    ensures
        blob_attributes(seq![rpki, if four_octet_asns { 1u8 } else { 0u8 }] + wire)
            == attributes_on_wire(wire, four_octet_asns),
        blob_attributes(seq![rpki]) is None,
{
    let blob = seq![rpki, if four_octet_asns { 1u8 } else { 0u8 }] + wire;
    assert(blob.skip(2) =~= wire);
}

/// The session of a path is that of its parent, and any other ingress is its own
/// session.
pub proof fn paths_belong_to_their_session(
    mui: IngressId,
    register: Map<IngressId, IngressInfo>,
)
    ensures
        !register.contains_key(mui) ==> session_of(mui, register) is None,
        register.contains_key(mui) && register[mui].ingress_type != Some(
            crate::ingress::IngressType::BgpPath,
        ) ==> session_of(mui, register) == Some(register[mui]),
        register.contains_key(mui) && register[mui].ingress_type == Some(
            crate::ingress::IngressType::BgpPath,
        ) && register[mui].parent_ingress is Some && register.contains_key(
            register[mui].parent_ingress->0,
        ) ==> session_of(mui, register) == Some(register[register[mui].parent_ingress->0]),
{
}

/// One more record is a candidate or excluded, behind those before it.
pub proof fn records_keep_their_order(
    records: Seq<Record>,
    more: Record,
    register: Map<IngressId, IngressInfo>,
)
    ensures
        outcome(more, register) is Ok ==> candidates_in(records.push(more), register)
            == candidates_in(records, register).push(outcome(more, register)->Ok_0) && excluded_in(
            records.push(more),
            register,
        ) == excluded_in(records, register),
        outcome(more, register) is Err ==> candidates_in(records.push(more), register)
            == candidates_in(records, register) && excluded_in(records.push(more), register).len()
            == excluded_in(records, register).len() + 1 && ({
            let last = excluded_in(records.push(more), register).last();
            &&& last.mui == more.multi_uniq_id
            &&& last.status == more.status
            &&& last.pamap == more.meta@
            &&& last.reason == outcome(more, register)->Err_0
        }),
{
    assert(records.push(more).drop_last() =~= records);
}

} // verus!
