//! The neighbors that are known, both those with a session of their own and
//! those that a monitored router tells of.

use crate::addr::{address_order, IpAddr};
use crate::bgp_in::session_status::{text_of, BgpSessionRegistry, FsmState, SessionStatus};
use crate::cli::fmt::{router_id, router_id_text};
use crate::daemon_info::ApiError;
use crate::ingress::{IngressId, IngressInfo, IngressType};
use crate::keyed::{has_key, value_is_at, Key, Keyed};
use crate::order::Order;
use crate::peer_stats::{BgpPeerStats, BgpPeerStatsRegistry};
use crate::roto_runtime::types::PeerRibType;
use crate::sorting::{is_sorted, place, sort, sorted, sorting_puts_in_order, Ranked};
use crate::text::{join, quote, quoted};
use vstd::prelude::*;

verus! {

/// Where a neighbor is known from.
#[derive(Clone, Copy, Debug, PartialEq, Eq, Structural)]
pub enum PeerSource {
    /// A session of this process.
    Bgp,
    /// A session that a monitored router has.
    Bmp,
}

/// Whether an ingress is connected.
#[derive(Clone, Copy, Debug, PartialEq, Eq, Structural)]
pub enum IngressState {
    Connected,
    Disconnected,
}

/// What the register has of an ingress.
#[derive(Clone, Copy, Debug)]
pub struct IngressRecord {
    pub info: IngressInfo,
    pub state: Option<IngressState>,
    /// How many seconds ago the session came up, if it ever did. A session that
    /// went down keeps it.
    pub came_up: Option<i64>,
    pub peer_rib_type: Option<PeerRibType>,
}

/// A neighbor.
#[derive(Debug)]
pub struct Neighbor {
    pub peer_address: Option<IpAddr>,
    pub peer_asn: Option<u32>,
    pub source: Option<PeerSource>,
    /// The state of the session. That of a monitored router's session is known
    /// only as up or down.
    pub state: Option<FsmState>,
    pub configured: bool,
    pub connect_mode: bool,
    pub name: Option<String>,
    pub router_id: Option<String>,
    pub ingress_id: Option<IngressId>,
    pub up_seconds: Option<u64>,
    pub hold_time_configured: Option<u16>,
    pub updates_received: Option<u64>,
    pub notifications_received: Option<u64>,
    pub prefixes_received: Option<u64>,
    pub prefixes_rejected: Option<u64>,
    /// Announcements of prefixes that the neighbor had announced already.
    pub dup_prefix_advertisements: Option<u64>,
    /// The monitored router.
    pub via_router: Option<IpAddr>,
    pub via_ingress_id: Option<IngressId>,
    pub peer_rib_type: Option<PeerRibType>,
    pub last_error: Option<String>,
}

/// What a [`Neighbor`] holds.
pub ghost struct NeighborView {
    pub peer_address: Option<IpAddr>,
    pub peer_asn: Option<u32>,
    pub source: Option<PeerSource>,
    pub state: Option<FsmState>,
    pub configured: bool,
    pub connect_mode: bool,
    pub name: Option<Seq<char>>,
    pub router_id: Option<Seq<char>>,
    pub ingress_id: Option<IngressId>,
    pub up_seconds: Option<u64>,
    pub hold_time_configured: Option<u16>,
    pub updates_received: Option<u64>,
    pub notifications_received: Option<u64>,
    pub prefixes_received: Option<u64>,
    pub prefixes_rejected: Option<u64>,
    pub dup_prefix_advertisements: Option<u64>,
    pub via_router: Option<IpAddr>,
    pub via_ingress_id: Option<IngressId>,
    pub peer_rib_type: Option<PeerRibType>,
    pub last_error: Option<Seq<char>>,
}

impl View for Neighbor {
    type V = NeighborView;

    open spec fn view(&self) -> NeighborView {
        NeighborView {
            peer_address: self.peer_address,
            peer_asn: self.peer_asn,
            source: self.source,
            state: self.state,
            configured: self.configured,
            connect_mode: self.connect_mode,
            name: text_of(self.name),
            router_id: text_of(self.router_id),
            ingress_id: self.ingress_id,
            up_seconds: self.up_seconds,
            hold_time_configured: self.hold_time_configured,
            updates_received: self.updates_received,
            notifications_received: self.notifications_received,
            prefixes_received: self.prefixes_received,
            prefixes_rejected: self.prefixes_rejected,
            dup_prefix_advertisements: self.dup_prefix_advertisements,
            via_router: self.via_router,
            via_ingress_id: self.via_ingress_id,
            peer_rib_type: self.peer_rib_type,
            last_error: text_of(self.last_error),
        }
    }
}

/// What some neighbors hold.
pub open spec fn neighbor_views(neighbors: Seq<Neighbor>) -> Seq<NeighborView> {
    neighbors.map_values(|neighbor: Neighbor| neighbor@)
}

/// Neighbors without an address go first, the others in the order of their
/// addresses.
impl Ranked for Neighbor {
    open spec fn rank(&self) -> int {
        match self.peer_address {
            Some(addr) => addr.rank(),
            None => -1,
        }
    }

    fn is_behind(&self, other: &Neighbor) -> (r: bool) {
        match (self.peer_address, other.peer_address) {
            (Some(a), Some(b)) => b.before(a),
            (Some(_), None) => true,
            (None, _) => false,
        }
    }
}

/// A number that zero stands for the absence of.
pub open spec fn nonzero_u32(n: u32) -> Option<u32> {
    if n == 0 {
        None
    } else {
        Some(n)
    }
}

/// A number that zero stands for the absence of.
pub open spec fn nonzero_u16(n: u16) -> Option<u16> {
    if n == 0 {
        None
    } else {
        Some(n)
    }
}

/// What was counted for a session, if it has an ingress and counts.
pub open spec fn counts_of(status: SessionStatus, stats: BgpPeerStatsRegistry) -> Option<BgpPeerStats> {
    match nonzero_u32(status.ingress_id) {
        Some(id) => stats.stats(id),
        None => None,
    }
}

/// The neighbor that a peer with a session of its own is.
pub open spec fn native_neighbor(
    addr: IpAddr,
    status: SessionStatus,
    counts: Option<BgpPeerStats>,
    now: i64,
) -> NeighborView {
    NeighborView {
        peer_address: Some(addr),
        peer_asn: nonzero_u32(status.remote_asn),
        source: Some(PeerSource::Bgp),
        state: Some(status.fsm),
        configured: status.configured,
        connect_mode: status.connect_mode,
        name: text_of(status.name),
        router_id: None,
        ingress_id: nonzero_u32(status.ingress_id),
        up_seconds: status.uptime(now),
        hold_time_configured: nonzero_u16(status.hold_time),
        updates_received: Some(status.updates_received),
        notifications_received: Some(status.notifications_received),
        prefixes_received: match counts {
            Some(counts) => Some(counts.adj_rib_in_routes),
            None => None,
        },
        prefixes_rejected: match counts {
            Some(counts) => Some(counts.prefixes_rejected),
            None => None,
        },
        dup_prefix_advertisements: match counts {
            Some(counts) => Some(counts.dup_prefix_advertisements),
            None => None,
        },
        via_router: None,
        via_ingress_id: None,
        peer_rib_type: None,
        last_error: text_of(status.last_error),
    }
}

/// The neighbors with a session of their own, in the order of their addresses.
pub open spec fn native_neighbors(
    sessions: BgpSessionRegistry,
    stats: BgpPeerStatsRegistry,
    now: i64,
) -> Seq<NeighborView> {
    sessions.peers.entries@.map_values(
        |peer: (IpAddr, SessionStatus)|
            native_neighbor(peer.0, peer.1, counts_of(peer.1, stats), now),
    )
}

/// The neighbors with a session of their own, at a moment in seconds since the
/// epoch.
pub fn native_bgp_neighbors(
    sessions: &BgpSessionRegistry,
    stats: &BgpPeerStatsRegistry,
    now: i64,
) -> (r: Vec<Neighbor>)
    requires
        sessions.wf(),
        stats.wf(),
    ensures
        neighbor_views(r@) == native_neighbors(*sessions, *stats, now),
        forall|i: int|
            0 <= i < r@.len() ==> (#[trigger] r@[i]).peer_address is Some && sessions.status(
                r@[i].peer_address->0,
            ) is Some,
        forall|i: int|
            #![trigger r@[i]]
            0 <= i < r@.len() ==> {
                let status = sessions.status(r@[i].peer_address->0)->0;
                &&& r@[i].updates_received == Some(status.updates_received)
                &&& r@[i].notifications_received == Some(status.notifications_received)
                &&& r@[i].state == Some(status.fsm)
                &&& r@[i].configured == status.configured
                &&& r@[i].connect_mode == status.connect_mode
                &&& text_of(r@[i].name) == text_of(status.name)
                &&& text_of(r@[i].last_error) == text_of(status.last_error)
                &&& r@[i].up_seconds == status.uptime(now)
                &&& r@[i].source == Some(PeerSource::Bgp)
            },
        forall|i: int|
            #![trigger r@[i]]
            0 <= i < r@.len() ==> {
                let status = sessions.status(r@[i].peer_address->0)->0;
                &&& r@[i].peer_asn is Some <==> status.remote_asn != 0
                &&& r@[i].peer_asn is Some ==> r@[i].peer_asn->0 == status.remote_asn
                &&& r@[i].ingress_id is Some <==> status.ingress_id != 0
                &&& r@[i].ingress_id is Some ==> r@[i].ingress_id->0 == status.ingress_id
                &&& r@[i].hold_time_configured is Some <==> status.hold_time != 0
                &&& r@[i].hold_time_configured is Some ==> r@[i].hold_time_configured->0
                    == status.hold_time
            },
{
    let peers = sessions.snapshot();
    let mut out: Vec<Neighbor> = Vec::new();
    let mut i: usize = 0;
    while i < peers.len()
        invariant
            stats.wf(),
            i <= peers@.len(),
            peers@.len() == sessions.peers.entries@.len(),
            forall|k: int|
                0 <= k < peers@.len() ==> (#[trigger] peers@[k]).0 == sessions.peers.entries@[k].0
                    && *peers@[k].1 == sessions.peers.entries@[k].1,
            out@.len() == i,
            forall|k: int|
                0 <= k < i ==> (#[trigger] out@[k])@ == native_neighbors(
                    *sessions,
                    *stats,
                    now,
                )[k],
        decreases peers.len() - i,
    {
        let (addr, status) = peers[i];
        let ingress_id = status.ingress_id();
        let counts = match ingress_id {
            Some(id) => stats.get(id),
            None => None,
        };
        let (received, rejected, repeated): (Option<u64>, Option<u64>, Option<u64>) = match counts {
            Some(counts) => (
                Some(counts.adj_rib_in_routes),
                Some(counts.prefixes_rejected),
                Some(counts.dup_prefix_advertisements),
            ),
            None => (None, None, None),
        };
        out.push(
            Neighbor {
                peer_address: Some(addr),
                peer_asn: status.remote_asn(),
                source: Some(PeerSource::Bgp),
                state: Some(status.state()),
                configured: status.configured(),
                connect_mode: status.connect_mode(),
                name: status.name(),
                router_id: None,
                ingress_id,
                up_seconds: status.uptime_secs(now),
                hold_time_configured: status.hold_time(),
                updates_received: Some(status.updates_received()),
                notifications_received: Some(status.notifications_received()),
                prefixes_received: received,
                prefixes_rejected: rejected,
                dup_prefix_advertisements: repeated,
                via_router: None,
                via_ingress_id: None,
                peer_rib_type: None,
                last_error: status.last_error(),
            },
        );
        i += 1;
    }
    assert(neighbor_views(out@) =~= native_neighbors(*sessions, *stats, now));
    proof {
        assert forall|i: int| 0 <= i < out@.len() implies (#[trigger] out@[i]).peer_address == Some(
            sessions.peers.entries@[i].0,
        ) && sessions.status(sessions.peers.entries@[i].0) == Some(
            sessions.peers.entries@[i].1,
        ) && out@[i]@ == native_neighbors(*sessions, *stats, now)[i] by {
            value_is_at(sessions.peers.entries@, i);
        }
    }
    out
}

/// A peer is listed with what the status of its session says, each count under
/// its own name, and with the counts of its own ingress.
pub proof fn sessions_are_listed_as_they_stand(
    sessions: BgpSessionRegistry,
    stats: BgpPeerStatsRegistry,
    now: i64,
    i: int,
)
    requires
        sessions.wf(),
        0 <= i < native_neighbors(sessions, stats, now).len(),
    ensures
        ({
            let listed = native_neighbors(sessions, stats, now)[i];
            let status = sessions.status(listed.peer_address->0)->0;
            &&& listed.peer_address is Some
            &&& sessions.status(listed.peer_address->0) is Some
            &&& listed.updates_received == Some(status.updates_received)
            &&& listed.notifications_received == Some(status.notifications_received)
            &&& listed.state == Some(status.fsm)
            &&& listed.configured == status.configured
            &&& listed.connect_mode == status.connect_mode
            &&& listed.name == text_of(status.name)
            &&& listed.last_error == text_of(status.last_error)
            &&& listed.router_id is None && listed.via_router is None
            &&& listed.via_ingress_id is None && listed.peer_rib_type is None
            &&& listed.prefixes_received is Some <==> listed.ingress_id is Some && stats.stats(
                listed.ingress_id->0,
            ) is Some
            &&& listed.prefixes_rejected is Some <==> listed.prefixes_received is Some
            &&& listed.dup_prefix_advertisements is Some <==> listed.prefixes_received is Some
            &&& listed.prefixes_received is Some ==> {
                let counts = stats.stats(status.ingress_id)->0;
                &&& listed.prefixes_received->0 == counts.adj_rib_in_routes
                &&& listed.prefixes_rejected->0 == counts.prefixes_rejected
                &&& listed.dup_prefix_advertisements->0 == counts.dup_prefix_advertisements
            }
        }),
{
    value_is_at(sessions.peers.entries@, i);
}

/// Every peer that has a status is listed.
pub proof fn every_session_is_listed(
    sessions: BgpSessionRegistry,
    stats: BgpPeerStatsRegistry,
    now: i64,
    peer: IpAddr,
) -> (i: int)
    requires
        sessions.wf(),
        sessions.status(peer) is Some,
    ensures
        0 <= i < native_neighbors(sessions, stats, now).len(),
        native_neighbors(sessions, stats, now)[i].peer_address == Some(peer),
{
    let entries = sessions.peers.entries@;
    assert(has_key(entries, peer));
    choose|i: int| 0 <= i < entries.len() && (#[trigger] entries[i]).0 == peer
}

/// One more UPDATE message raises the listed number of UPDATE messages by one
/// and changes nothing else, and one more NOTIFICATION message that of
/// NOTIFICATION messages.
pub proof fn each_count_is_listed_apart(
    addr: IpAddr,
    status: SessionStatus,
    counts: Option<BgpPeerStats>,
    now: i64,
)
    ensures
        status.updates_received < u64::MAX ==> {
            let before = native_neighbor(addr, status, counts, now);
            let after = native_neighbor(
                addr,
                SessionStatus {
                    updates_received: (status.updates_received + 1) as u64,
                    ..status
                },
                counts,
                now,
            );
            &&& after.updates_received->0 == before.updates_received->0 + 1
            &&& after == NeighborView { updates_received: after.updates_received, ..before }
        },
        status.notifications_received < u64::MAX ==> {
            let before = native_neighbor(addr, status, counts, now);
            let after = native_neighbor(
                addr,
                SessionStatus {
                    notifications_received: (status.notifications_received + 1) as u64,
                    ..status
                },
                counts,
                now,
            );
            &&& after.notifications_received->0 == before.notifications_received->0 + 1
            &&& after == NeighborView {
                notifications_received: after.notifications_received,
                ..before
            }
        },
{
}

/// The neighbor that an ingress of a monitored router is. Its time is told only
/// while it is up: the register keeps the time of a session that is gone.
pub open spec fn bmp_neighbor(
    id: IngressId,
    record: IngressRecord,
    via: Option<IngressRecord>,
) -> NeighborView {
    let up = record.state == Some(IngressState::Connected);
    NeighborView {
        peer_address: record.info.remote_addr,
        peer_asn: record.info.remote_asn,
        source: Some(PeerSource::Bmp),
        state: Some(
            if up {
                FsmState::Established
            } else {
                FsmState::Idle
            },
        ),
        configured: false,
        connect_mode: false,
        name: None,
        router_id: match record.info.bgp_id {
            Some(octets) => Some(router_id_text(octets@)),
            None => None,
        },
        ingress_id: Some(id),
        up_seconds: match record.came_up {
            Some(seconds) => if !up {
                None
            } else if seconds < 0 {
                Some(0)
            } else {
                Some(seconds as u64)
            },
            None => None,
        },
        hold_time_configured: None,
        updates_received: None,
        notifications_received: None,
        prefixes_received: None,
        prefixes_rejected: None,
        dup_prefix_advertisements: None,
        via_router: match via {
            Some(via) => via.info.remote_addr,
            None => None,
        },
        via_ingress_id: record.info.parent_ingress,
        peer_rib_type: record.peer_rib_type,
        last_error: None,
    }
}

/// What the register has of the ingress behind another.
pub open spec fn parent_of(register: Keyed<IngressId, IngressRecord>, record: IngressRecord) -> Option<
    IngressRecord,
> {
    match record.info.parent_ingress {
        Some(parent) => register.value(parent),
        None => None,
    }
}

/// The neighbors among some ingresses, in order.
pub open spec fn bmp_neighbors_in(
    entries: Seq<(IngressId, IngressRecord)>,
    register: Keyed<IngressId, IngressRecord>,
) -> Seq<NeighborView>
    decreases entries.len(),
{
    if entries.len() == 0 {
        seq![]
    } else {
        let rest = bmp_neighbors_in(entries.drop_last(), register);
        let (id, record) = entries.last();
        if record.info.ingress_type == Some(IngressType::BgpViaBmp) {
            rest.push(bmp_neighbor(id, record, parent_of(register, record)))
        } else {
            rest
        }
    }
}

/// The neighbor that an ingress of a monitored router is.
fn monitored(id: IngressId, record: &IngressRecord, via: Option<&IngressRecord>) -> (r: Neighbor)
    ensures
        r@ == bmp_neighbor(
            id,
            *record,
            match via {
                Some(via) => Some(*via),
                None => None,
            },
        ),
{
    let up = match record.state {
        Some(IngressState::Connected) => true,
        _ => false,
    };
    Neighbor {
        peer_address: record.info.remote_addr,
        peer_asn: record.info.remote_asn,
        source: Some(PeerSource::Bmp),
        state: Some(
            if up {
                FsmState::Established
            } else {
                FsmState::Idle
            },
        ),
        configured: false,
        connect_mode: false,
        name: None,
        router_id: match record.info.bgp_id {
            Some(octets) => Some(router_id(&octets)),
            None => None,
        },
        ingress_id: Some(id),
        up_seconds: match record.came_up {
            Some(seconds) => if !up {
                None
            } else if seconds < 0 {
                Some(0)
            } else {
                Some(seconds as u64)
            },
            None => None,
        },
        hold_time_configured: None,
        updates_received: None,
        notifications_received: None,
        prefixes_received: None,
        prefixes_rejected: None,
        dup_prefix_advertisements: None,
        via_router: match via {
            Some(via) => via.info.remote_addr,
            None => None,
        },
        via_ingress_id: record.info.parent_ingress,
        peer_rib_type: record.peer_rib_type,
        last_error: None,
    }
}

/// The neighbors that monitored routers tell of.
pub fn bmp_neighbors(register: &Keyed<IngressId, IngressRecord>) -> (r: Vec<Neighbor>)
    requires
        register.wf(),
    ensures
        neighbor_views(r@) == bmp_neighbors_in(register.entries@, *register),
{
    let mut out: Vec<Neighbor> = Vec::new();
    let mut i: usize = 0;
    assert(neighbor_views(out@) =~= seq![]);
    while i < register.entries.len()
        invariant
            register.wf(),
            i <= register.entries@.len(),
            neighbor_views(out@) == bmp_neighbors_in(register.entries@.take(i as int), *register),
        decreases register.entries.len() - i,
    {
        let ghost before = out@;
        let entry = &register.entries[i];
        proof {
            let upto = register.entries@.take(i + 1);
            assert(upto.drop_last() =~= register.entries@.take(i as int));
            assert(upto.last() == *entry);
        }
        let is_monitored = match entry.1.info.ingress_type {
            Some(IngressType::BgpViaBmp) => true,
            _ => false,
        };
        if is_monitored {
            let via = match entry.1.info.parent_ingress {
                Some(parent) => register.get(parent),
                None => None,
            };
            let neighbor = monitored(entry.0, &entry.1, via);
            out.push(neighbor);
            assert(neighbor_views(out@) =~= neighbor_views(before).push(neighbor@));
        }
        i += 1;
    }
    assert(register.entries@.take(i as int) =~= register.entries@);
    out
}

/// A monitored session is listed with what the register has of it: its state
/// is established exactly while it is connected, and a time is told for no other.
/// Nothing is counted for it, and it is reached by the ingress that it came in
/// on.
pub proof fn monitored_sessions_are_their_records(
    id: IngressId,
    record: IngressRecord,
    via: Option<IngressRecord>,
)
    ensures
        ({
            let listed = bmp_neighbor(id, record, via);
            &&& listed.peer_address == record.info.remote_addr
            &&& listed.peer_asn == record.info.remote_asn
            &&& listed.source == Some(PeerSource::Bmp)
            &&& listed.state == Some(FsmState::Established) <==> record.state == Some(
                IngressState::Connected,
            )
            &&& listed.state == Some(FsmState::Idle) <==> record.state != Some(
                IngressState::Connected,
            )
            &&& listed.ingress_id == Some(id)
            &&& listed.via_ingress_id == record.info.parent_ingress
            &&& listed.via_router == (match via {
                Some(via) => via.info.remote_addr,
                None => None,
            })
            &&& listed.peer_rib_type == record.peer_rib_type
            &&& listed.router_id is Some <==> record.info.bgp_id is Some
            &&& listed.up_seconds is Some <==> listed.state == Some(FsmState::Established)
                && record.came_up is Some
            &&& listed.up_seconds is Some && record.came_up->0 >= 0 ==> listed.up_seconds->0
                == record.came_up->0
            &&& listed.up_seconds is Some && record.came_up->0 < 0 ==> listed.up_seconds->0 == 0
            &&& !listed.configured && !listed.connect_mode
            &&& listed.updates_received is None && listed.notifications_received is None
            &&& listed.prefixes_received is None && listed.prefixes_rejected is None
            &&& listed.name is None && listed.last_error is None
            &&& listed.hold_time_configured is None && listed.dup_prefix_advertisements is None
        }),
{
}

/// Every monitored session of the register is listed, with the ingress that it
/// came in on.
pub proof fn monitored_sessions_are_listed(
    entries: Seq<(IngressId, IngressRecord)>,
    register: Keyed<IngressId, IngressRecord>,
    i: int,
) -> (k: int)
    requires
        0 <= i < entries.len(),
        entries[i].1.info.ingress_type == Some(IngressType::BgpViaBmp),
    ensures
        0 <= k < bmp_neighbors_in(entries, register).len(),
        bmp_neighbors_in(entries, register)[k] == bmp_neighbor(
            entries[i].0,
            entries[i].1,
            match entries[i].1.info.parent_ingress {
                Some(parent) => register.value(parent),
                None => None,
            },
        ),
    decreases entries.len(),
{
    let fore = entries.drop_last();
    if i < fore.len() {
        monitored_sessions_are_listed(fore, register, i)
    } else {
        bmp_neighbors_in(fore, register).len() as int
    }
}

/// Nothing but monitored sessions of the register is listed with them.
pub proof fn only_monitored_sessions_are_listed(
    entries: Seq<(IngressId, IngressRecord)>,
    register: Keyed<IngressId, IngressRecord>,
    k: int,
) -> (i: int)
    requires
        0 <= k < bmp_neighbors_in(entries, register).len(),
    ensures
        0 <= i < entries.len(),
        entries[i].1.info.ingress_type == Some(IngressType::BgpViaBmp),
        bmp_neighbors_in(entries, register)[k].ingress_id == Some(entries[i].0),
    decreases entries.len(),
{
    let fore = entries.drop_last();
    if k < bmp_neighbors_in(fore, register).len() {
        only_monitored_sessions_are_listed(fore, register, k)
    } else {
        entries.len() - 1
    }
}

/// The place of a neighbor among others.
pub open spec fn neighbor_rank(neighbor: NeighborView) -> int {
    match neighbor.peer_address {
        Some(addr) => addr.rank(),
        None => -1,
    }
}

/// The place of one more neighbor in a sorted list: behind all that do not go
/// behind it.
pub open spec fn neighbor_place(list: Seq<NeighborView>, neighbor: NeighborView) -> int
    decreases list.len(),
{
    if list.len() == 0 || neighbor_rank(list.last()) <= neighbor_rank(neighbor) {
        list.len() as int
    } else {
        neighbor_place(list.drop_last(), neighbor)
    }
}

/// Neighbors in the order of their addresses, those without one first; those
/// with one address in the order that they had.
pub open spec fn by_address(neighbors: Seq<NeighborView>) -> Seq<NeighborView>
    decreases neighbors.len(),
{
    if neighbors.len() == 0 {
        neighbors
    } else {
        let rest = by_address(neighbors.drop_last());
        rest.insert(neighbor_place(rest, neighbors.last()), neighbors.last())
    }
}

/// Putting neighbors in order keeps each of them and makes up none.
pub proof fn ordering_keeps_the_neighbors(neighbors: Seq<NeighborView>)
    ensures
        by_address(neighbors).to_multiset() == neighbors.to_multiset(),
        by_address(neighbors).len() == neighbors.len(),
        forall|i: int, j: int|
            0 <= i <= j < by_address(neighbors).len() ==> neighbor_rank(
                #[trigger] by_address(neighbors)[i],
            ) <= neighbor_rank(#[trigger] by_address(neighbors)[j]),
    decreases neighbors.len(),
{
    broadcast use vstd::seq_lib::group_to_multiset_ensures;

    if neighbors.len() > 0 {
        let fore = neighbors.drop_last();
        let rest = by_address(fore);
        ordering_keeps_the_neighbors(fore);
        neighbor_place_is_within(rest, neighbors.last());
        let at = neighbor_place(rest, neighbors.last());
        let all = by_address(neighbors);
        assert(neighbors =~= fore.push(neighbors.last()));
        vstd::seq_lib::to_multiset_insert(rest, at, neighbors.last());
        assert(all.to_multiset() =~= neighbors.to_multiset());
        assert forall|i: int, j: int| 0 <= i <= j < all.len() implies neighbor_rank(
            #[trigger] all[i],
        ) <= neighbor_rank(#[trigger] all[j]) by {
            let a = if i < at {
                i
            } else {
                i - 1
            };
            let b = if j < at {
                j
            } else {
                j - 1
            };
            assert(i == at || all[i] == rest[a]);
            assert(j == at || all[j] == rest[b]);
        }
    }
}

proof fn neighbor_place_is_within(list: Seq<NeighborView>, neighbor: NeighborView)
    requires
        forall|i: int, j: int|
            0 <= i <= j < list.len() ==> neighbor_rank(#[trigger] list[i]) <= neighbor_rank(
                #[trigger] list[j],
            ),
    ensures
        0 <= neighbor_place(list, neighbor) <= list.len(),
        forall|i: int|
            0 <= i < neighbor_place(list, neighbor) ==> neighbor_rank(#[trigger] list[i])
                <= neighbor_rank(neighbor),
        forall|i: int|
            neighbor_place(list, neighbor) <= i < list.len() ==> neighbor_rank(#[trigger] list[i])
                > neighbor_rank(neighbor),
    decreases list.len(),
{
    if list.len() > 0 && neighbor_rank(list.last()) > neighbor_rank(neighbor) {
        let fore = list.drop_last();
        assert forall|i: int, j: int| 0 <= i <= j < fore.len() implies neighbor_rank(
            #[trigger] fore[i],
        ) <= neighbor_rank(#[trigger] fore[j]) by {
            assert(fore[i] == list[i] && fore[j] == list[j]);
        }
        neighbor_place_is_within(fore, neighbor);
        assert forall|i: int|
            0 <= i < neighbor_place(list, neighbor) implies neighbor_rank(#[trigger] list[i])
            <= neighbor_rank(neighbor) by {
            assert(list[i] == fore[i]);
        }
        assert forall|i: int|
            neighbor_place(list, neighbor) <= i < list.len() implies neighbor_rank(
            #[trigger] list[i],
        ) > neighbor_rank(neighbor) by {
            if i < fore.len() {
                assert(list[i] == fore[i]);
            }
        }
    } else if list.len() > 0 {
        assert(list.last() == list[list.len() - 1]);
    }
}

proof fn places_agree(list: Seq<Neighbor>, neighbor: Neighbor)
    ensures
        place(list, neighbor) == neighbor_place(neighbor_views(list), neighbor@),
        0 <= place(list, neighbor) <= list.len(),
    decreases list.len(),
{
    if list.len() > 0 {
        places_agree(list.drop_last(), neighbor);
        assert(neighbor_views(list).drop_last() =~= neighbor_views(list.drop_last()));
        assert(neighbor_views(list).last() == list.last()@);
    }
}

proof fn sorting_agrees(neighbors: Seq<Neighbor>)
    ensures
        neighbor_views(sorted(neighbors)) == by_address(neighbor_views(neighbors)),
    decreases neighbors.len(),
{
    if neighbors.len() > 0 {
        let rest = neighbors.drop_last();
        sorting_agrees(rest);
        places_agree(sorted(rest), neighbors.last());
        assert(neighbor_views(neighbors).drop_last() =~= neighbor_views(rest));
        assert(neighbor_views(neighbors).last() == neighbors.last()@);
        assert(neighbor_views(sorted(neighbors)) =~= by_address(neighbor_views(neighbors)));
    } else {
        assert(neighbor_views(sorted(neighbors)) =~= by_address(neighbor_views(neighbors)));
    }
}

/// All neighbors: those with a session of their own and those that monitored
/// routers tell of, in the order of their addresses.
pub fn collect(
    sessions: &BgpSessionRegistry,
    stats: &BgpPeerStatsRegistry,
    register: &Keyed<IngressId, IngressRecord>,
    now: i64,
) -> (r: Vec<Neighbor>)
    requires
        sessions.wf(),
        stats.wf(),
        register.wf(),
    ensures
        neighbor_views(r@) == by_address(
            native_neighbors(*sessions, *stats, now) + bmp_neighbors_in(
                register.entries@,
                *register,
            ),
        ),
        is_sorted(r@),
{
    let mut out = native_bgp_neighbors(sessions, stats, now);
    let mut more = bmp_neighbors(register);
    let ghost (native, monitored) = (out@, more@);
    out.append(&mut more);
    proof {
        assert(neighbor_views(out@) =~= neighbor_views(native) + neighbor_views(monitored));
        sorting_agrees(out@);
        sorting_puts_in_order(out@);
    }
    sort(out)
}

/// Whether a neighbor has some address.
pub open spec fn has_address(neighbor: Neighbor, addr: IpAddr) -> bool {
    neighbor.peer_address == Some(addr)
}

/// The neighbors that are asked for by a text and the address that it is, if it
/// is one. Other texts are refused.
pub fn neighbor(neighbors: Vec<Neighbor>, peer: &str, addr: Option<IpAddr>) -> (r: Result<
    Vec<Neighbor>,
    ApiError,
>)
    ensures
        match addr {
            Some(addr) => r matches Ok(found) && found@ == neighbors@.filter(
                |neighbor: Neighbor| has_address(neighbor, addr),
            ),
            None => r matches Err(ApiError::BadRequest(text)) && text@ == quoted(peer@)
                + " is not an IP address"@,
        },
{
    match addr {
        Some(addr) => Ok(matching(neighbors, addr)),
        None => Err(ApiError::BadRequest(join(quote(peer).as_str(), " is not an IP address"))),
    }
}

/// The neighbors with an address. There can be more than one: two monitored
/// routers may have a session with one peer.
pub fn matching(neighbors: Vec<Neighbor>, addr: IpAddr) -> (r: Vec<Neighbor>)
    ensures
        r@ == neighbors@.filter(|neighbor: Neighbor| has_address(neighbor, addr)),
{
    let ghost all = neighbors@;
    let ghost keep = |neighbor: Neighbor| has_address(neighbor, addr);
    let mut out: Vec<Neighbor> = Vec::new();
    reveal(Seq::filter);
    for neighbor in iter: neighbors
        invariant
            iter.seq() == all,
            keep == (|neighbor: Neighbor| has_address(neighbor, addr)),
            out@ == all.take(iter.index() as int).filter(keep),
    {
        reveal(Seq::filter);
        proof {
            let upto = all.take(iter.index() + 1);
            assert(upto.drop_last() =~= all.take(iter.index() as int));
            assert(upto.last() == neighbor);
        }
        let found = match neighbor.peer_address {
            Some(a) => a == addr,
            None => false,
        };
        if found {
            out.push(neighbor);
        }
    }
    assert(all.take(all.len() as int) =~= all);
    out
}

/// Neighbors rank by their addresses: those without one first, then those with
/// IPv4 addresses and then those with IPv6 addresses, the lower number first.
pub proof fn neighbors_rank_by_address(a: NeighborView, b: NeighborView)
    ensures
        a.peer_address is None && b.peer_address is Some ==> neighbor_rank(a) < neighbor_rank(b),
        a.peer_address is Some && b.peer_address is Some ==> (neighbor_rank(a) < neighbor_rank(b)
            <==> address_order(a.peer_address->0, b.peer_address->0) == Order::Less),
        a.peer_address is Some && b.peer_address is Some ==> (neighbor_rank(a) == neighbor_rank(b)
            <==> a.peer_address == b.peer_address),
{
}

} // verus!
