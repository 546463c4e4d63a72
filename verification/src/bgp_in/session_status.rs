//! The status of each peer's session, also of peers that never had one.

use crate::addr::IpAddr;
use crate::ingress::IngressId;
use crate::keyed::{has_key, in_order, value_for, value_is_at, Keyed};
use vstd::prelude::*;

verus! {

/// A state of the finite state machine that RFC 4271 gives a session.
#[derive(Clone, Copy, Debug, PartialEq, Eq, Structural)]
pub enum FsmState {
    Idle,
    Connect,
    Active,
    OpenSent,
    OpenConfirm,
    Established,
}

impl FsmState {
    /// The number of a state.
    pub open spec fn number(self) -> u8 {
        match self {
            FsmState::Idle => 1,
            FsmState::Connect => 2,
            FsmState::Active => 3,
            FsmState::OpenSent => 4,
            FsmState::OpenConfirm => 5,
            FsmState::Established => 6,
        }
    }

    /// The number of a state.
    pub fn as_u8(self) -> (r: u8)
        ensures
            r == self.number(),
    {
        match self {
            FsmState::Idle => 1,
            FsmState::Connect => 2,
            FsmState::Active => 3,
            FsmState::OpenSent => 4,
            FsmState::OpenConfirm => 5,
            FsmState::Established => 6,
        }
    }

    /// The state with a number; a number that no state has is taken for idle.
    pub open spec fn numbered(v: u8) -> FsmState {
        if v == 2 {
            FsmState::Connect
        } else if v == 3 {
            FsmState::Active
        } else if v == 4 {
            FsmState::OpenSent
        } else if v == 5 {
            FsmState::OpenConfirm
        } else if v == 6 {
            FsmState::Established
        } else {
            FsmState::Idle
        }
    }

    /// The state with a number; a number that no state has is taken for idle.
    pub fn from_u8(v: u8) -> (r: FsmState)
        ensures
            r == FsmState::numbered(v),
    {
        match v {
            2 => FsmState::Connect,
            3 => FsmState::Active,
            4 => FsmState::OpenSent,
            5 => FsmState::OpenConfirm,
            6 => FsmState::Established,
            _ => FsmState::Idle,
        }
    }

    /// The state with a number of sixteen bits, of which the lower eight count.
    pub fn from_u16(v: u16) -> (r: FsmState)
        ensures
            r == FsmState::numbered((v % 256) as u8),
    {
        FsmState::from_u8((v % 256) as u8)
    }

    /// The name of a state.
    pub open spec fn name(self) -> Seq<char> {
        match self {
            FsmState::Idle => "Idle"@,
            FsmState::Connect => "Connect"@,
            FsmState::Active => "Active"@,
            FsmState::OpenSent => "OpenSent"@,
            FsmState::OpenConfirm => "OpenConfirm"@,
            FsmState::Established => "Established"@,
        }
    }

    /// The name of a state.
    pub fn as_str(self) -> (r: &'static str)
        ensures
            r@ == self.name(),
    {
        match self {
            FsmState::Idle => "Idle",
            FsmState::Connect => "Connect",
            FsmState::Active => "Active",
            FsmState::OpenSent => "OpenSent",
            FsmState::OpenConfirm => "OpenConfirm",
            FsmState::Established => "Established",
        }
    }
}

/// The number of a state gives the state back.
pub proof fn states_round_trip(state: FsmState)
    ensures
        FsmState::numbered(state.number()) == state,
{
}

/// The status of one peer's session. Where a number is not known, it is zero.
#[derive(Debug)]
pub struct SessionStatus {
    pub fsm: FsmState,
    pub ingress_id: IngressId,
    /// When the session last came up, in seconds since the epoch.
    pub established_unix: i64,
    pub hold_time: u16,
    pub remote_asn: u32,
    /// Whether the peer is dialled.
    pub connect_mode: bool,
    /// Whether the running configuration names the peer.
    pub configured: bool,
    pub updates_received: u64,
    pub notifications_received: u64,
    pub notifications_sent: u64,
    pub name: Option<String>,
    /// Why the session last went down.
    pub last_error: Option<String>,
}

/// The time of a session is told only while it is established.
pub proof fn uptime_is_told_while_established(status: SessionStatus, now: i64)
    ensures
        status.uptime(now) is Some ==> status.fsm == FsmState::Established,
        status.uptime(now) is Some && now >= status.established_unix ==> status.uptime(now)
            == Some((now - status.established_unix) as u64),
{
}

/// One more, starting over behind the highest number.
pub open spec fn one_more(n: u64) -> u64 {
    if n == u64::MAX {
        0
    } else {
        (n + 1) as u64
    }
}

/// The text that an optional text holds.
pub open spec fn text_of(text: Option<String>) -> Option<Seq<char>> {
    match text {
        Some(text) => Some(text@),
        None => None,
    }
}

fn copy_of(text: &Option<String>) -> (r: Option<String>)
    ensures
        text_of(r) == text_of(*text),
{
    match text {
        Some(text) => Some(text.as_str().to_owned()),
        None => None,
    }
}

impl Default for SessionStatus {
    fn default() -> (r: SessionStatus)
        ensures
            r == SessionStatus::fresh(),
    {
        SessionStatus {
            fsm: FsmState::Idle,
            ingress_id: 0,
            established_unix: 0,
            hold_time: 0,
            remote_asn: 0,
            connect_mode: false,
            configured: false,
            updates_received: 0,
            notifications_received: 0,
            notifications_sent: 0,
            name: None,
            last_error: None,
        }
    }
}

impl SessionStatus {
    /// The status of a peer that never had a session.
    pub open spec fn fresh() -> SessionStatus {
        SessionStatus {
            fsm: FsmState::Idle,
            ingress_id: 0,
            established_unix: 0,
            hold_time: 0,
            remote_asn: 0,
            connect_mode: false,
            configured: false,
            updates_received: 0,
            notifications_received: 0,
            notifications_sent: 0,
            name: None,
            last_error: None,
        }
    }

    /// How long the session is up at some moment, if it is.
    pub open spec fn uptime(self, now: i64) -> Option<u64> {
        if self.fsm != FsmState::Established || self.established_unix == 0 {
            None
        } else if now < self.established_unix {
            Some(0)
        } else {
            Some((now - self.established_unix) as u64)
        }
    }

    /// The state of the session.
    pub fn state(&self) -> (r: FsmState)
        ensures
            r == self.fsm,
    {
        self.fsm
    }

    /// Records the state of the session, at a moment in seconds since the
    /// epoch. Says whether it is another than before.
    pub fn set_state(&mut self, state: FsmState, now: i64) -> (r: bool)
        ensures
            r == (old(self).fsm != state),
            *final(self) == (SessionStatus {
                fsm: state,
                established_unix: if r && state == FsmState::Established {
                    now
                } else {
                    old(self).established_unix
                },
                ..*old(self)
            }),
    {
        if self.fsm == state {
            return false;
        }
        self.fsm = state;
        if state == FsmState::Established {
            self.established_unix = now;
        }
        true
    }

    pub fn set_ingress_id(&mut self, id: IngressId)
        ensures
            *final(self) == (SessionStatus { ingress_id: id, ..*old(self) }),
    {
        self.ingress_id = id;
    }

    pub fn ingress_id(&self) -> (r: Option<IngressId>)
        ensures
            r == (if self.ingress_id == 0 {
                None
            } else {
                Some(self.ingress_id)
            }),
    {
        match self.ingress_id {
            0 => None,
            id => Some(id),
        }
    }

    /// How many seconds the session is up at some moment, if it is.
    pub fn uptime_secs(&self, now: i64) -> (r: Option<u64>)
        ensures
            r == self.uptime(now),
    {
        if self.fsm != FsmState::Established || self.established_unix == 0 {
            None
        } else if now < self.established_unix {
            Some(0)
        } else {
            Some((now as i128 - self.established_unix as i128) as u64)
        }
    }

    pub fn set_hold_time(&mut self, secs: u16)
        ensures
            *final(self) == (SessionStatus { hold_time: secs, ..*old(self) }),
    {
        self.hold_time = secs;
    }

    pub fn hold_time(&self) -> (r: Option<u16>)
        ensures
            r == (if self.hold_time == 0 {
                None
            } else {
                Some(self.hold_time)
            }),
    {
        match self.hold_time {
            0 => None,
            secs => Some(secs),
        }
    }

    pub fn set_remote_asn(&mut self, asn: u32)
        ensures
            *final(self) == (SessionStatus { remote_asn: asn, ..*old(self) }),
    {
        self.remote_asn = asn;
    }

    pub fn remote_asn(&self) -> (r: Option<u32>)
        ensures
            r == (if self.remote_asn == 0 {
                None
            } else {
                Some(self.remote_asn)
            }),
    {
        match self.remote_asn {
            0 => None,
            asn => Some(asn),
        }
    }

    pub fn set_connect_mode(&mut self, on: bool)
        ensures
            *final(self) == (SessionStatus { connect_mode: on, ..*old(self) }),
    {
        self.connect_mode = on;
    }

    pub fn connect_mode(&self) -> (r: bool)
        ensures
            r == self.connect_mode,
    {
        self.connect_mode
    }

    pub fn set_configured(&mut self, on: bool)
        ensures
            *final(self) == (SessionStatus { configured: on, ..*old(self) }),
    {
        self.configured = on;
    }

    pub fn configured(&self) -> (r: bool)
        ensures
            r == self.configured,
    {
        self.configured
    }

    pub fn inc_updates_received(&mut self)
        ensures
            *final(self) == (SessionStatus {
                updates_received: one_more(old(self).updates_received),
                ..*old(self)
            }),
    {
        self.updates_received = self.updates_received.wrapping_add(1);
    }

    pub fn updates_received(&self) -> (r: u64)
        ensures
            r == self.updates_received,
    {
        self.updates_received
    }

    pub fn inc_notifications_received(&mut self)
        ensures
            *final(self) == (SessionStatus {
                notifications_received: one_more(old(self).notifications_received),
                ..*old(self)
            }),
    {
        self.notifications_received = self.notifications_received.wrapping_add(1);
    }

    pub fn notifications_received(&self) -> (r: u64)
        ensures
            r == self.notifications_received,
    {
        self.notifications_received
    }

    pub fn inc_notifications_sent(&mut self)
        ensures
            *final(self) == (SessionStatus {
                notifications_sent: one_more(old(self).notifications_sent),
                ..*old(self)
            }),
    {
        self.notifications_sent = self.notifications_sent.wrapping_add(1);
    }

    pub fn notifications_sent(&self) -> (r: u64)
        ensures
            r == self.notifications_sent,
    {
        self.notifications_sent
    }

    pub fn set_name(&mut self, name: String)
        ensures
            *final(self) == (SessionStatus { name: Some(name), ..*old(self) }),
    {
        self.name = Some(name);
    }

    pub fn name(&self) -> (r: Option<String>)
        ensures
            text_of(r) == text_of(self.name),
    {
        copy_of(&self.name)
    }

    pub fn set_last_error(&mut self, err: String)
        ensures
            *final(self) == (SessionStatus { last_error: Some(err), ..*old(self) }),
    {
        self.last_error = Some(err);
    }

    pub fn last_error(&self) -> (r: Option<String>)
        ensures
            text_of(r) == text_of(self.last_error),
    {
        copy_of(&self.last_error)
    }
}

/// The status of every peer's session, by the peer's address.
#[derive(Debug)]
pub struct BgpSessionRegistry {
    pub peers: Keyed<IpAddr, SessionStatus>,
}

/// Whether a peer is kept when others are forgotten.
pub open spec fn is_kept(peer: (IpAddr, SessionStatus)) -> bool {
    peer.1.configured || peer.1.fsm == FsmState::Established
}

/// The status of a peer after others were forgotten.
pub open spec fn if_kept(peer: IpAddr, status: Option<SessionStatus>) -> Option<SessionStatus> {
    match status {
        Some(status) => if is_kept((peer, status)) {
            Some(status)
        } else {
            None
        },
        None => None,
    }
}

/// Forgetting others leaves the status of a peer as it was.
proof fn kept_status_stays(entries: Seq<(IpAddr, SessionStatus)>, peer: IpAddr)
    requires
        in_order(entries),
        in_order(entries.filter(|peer: (IpAddr, SessionStatus)| is_kept(peer))),
    ensures
        value_for(entries.filter(|peer: (IpAddr, SessionStatus)| is_kept(peer)), peer) == if_kept(
            peer,
            value_for(entries, peer),
        ),
{
    let keep = |peer: (IpAddr, SessionStatus)| is_kept(peer);
    let left = entries.filter(keep);
    if has_key(left, peer) {
        let j = choose|j: int| 0 <= j < left.len() && (#[trigger] left[j]).0 == peer;
        value_is_at(left, j);
        entries.lemma_filter_pred(keep, j);
        assert(left.contains(left[j]));
        entries.lemma_filter_contains_rev(keep, left[j]);
        let i = choose|i: int| 0 <= i < entries.len() && entries[i] == left[j];
        value_is_at(entries, i);
    } else if has_key(entries, peer) {
        let i = choose|i: int| 0 <= i < entries.len() && (#[trigger] entries[i]).0 == peer;
        value_is_at(entries, i);
        if is_kept(entries[i]) {
            entries.lemma_filter_contains(keep, i);
            let j = choose|j: int| 0 <= j < left.len() && left[j] == entries[i];
            assert(left[j].0 == peer);
        }
    }
}

/// A peer without the mark that the configuration names it.
pub open spec fn unmarked(peer: (IpAddr, SessionStatus)) -> (IpAddr, SessionStatus) {
    (peer.0, SessionStatus { configured: false, ..peer.1 })
}

impl Default for BgpSessionRegistry {
    fn default() -> (r: BgpSessionRegistry)
        ensures
            r.wf(),
            r.peers.entries@.len() == 0,
            forall|peer: IpAddr| r.status(peer) is None,
    {
        BgpSessionRegistry { peers: Keyed::new() }
    }
}

impl BgpSessionRegistry {
    /// Whether the peers are in the order of their addresses, each address once.
    pub open spec fn wf(self) -> bool {
        self.peers.wf()
    }

    /// The status of a peer's session.
    pub open spec fn status(self, peer: IpAddr) -> Option<SessionStatus> {
        self.peers.value(peer)
    }

    /// The status of a peer's session, to be changed in place. A peer that is
    /// not known yet becomes known.
    pub fn get_or_create(&mut self, peer: IpAddr) -> (r: &mut SessionStatus)
        requires
            old(self).wf(),
        ensures
            *r == (match old(self).status(peer) {
                Some(status) => status,
                None => SessionStatus::fresh(),
            }),
            final(self).status(peer) == Some(*final(r)),
            forall|p: IpAddr| p != peer ==> #[trigger] final(self).status(p) == old(self).status(p),
            final(self).wf(),
    {
        self.peers.get_or_insert(peer, SessionStatus::default())
    }

    /// The status of a peer's session.
    pub fn get(&self, peer: IpAddr) -> (r: Option<&SessionStatus>)
        requires
            self.wf(),
        ensures
            r is Some <==> self.status(peer) is Some,
            r is Some ==> self.status(peer) == Some(*r->0),
    {
        self.peers.get(peer)
    }

    /// All peers, in the order of their addresses.
    pub fn snapshot(&self) -> (r: Vec<(IpAddr, &SessionStatus)>)
        requires
            self.wf(),
        ensures
            r@.len() == self.peers.entries@.len(),
            forall|i: int|
                0 <= i < r@.len() ==> (#[trigger] r@[i]).0 == self.peers.entries@[i].0 && *r@[i].1
                    == self.peers.entries@[i].1,
            forall|i: int|
                0 <= i < r@.len() ==> self.status((#[trigger] r@[i]).0) == Some(*r@[i].1),
    {
        let mut out: Vec<(IpAddr, &SessionStatus)> = Vec::new();
        let mut i: usize = 0;
        while i < self.peers.entries.len()
            invariant
                self.wf(),
                i <= self.peers.entries.len(),
                out@.len() == i,
                forall|k: int|
                    0 <= k < i ==> (#[trigger] out@[k]).0 == self.peers.entries@[k].0 && *out@[k].1
                        == self.peers.entries@[k].1,
                forall|k: int|
                    0 <= k < i ==> self.status((#[trigger] out@[k]).0) == Some(*out@[k].1),
            decreases self.peers.entries.len() - i,
        {
            proof {
                value_is_at(self.peers.entries@, i as int);
            }
            let entry = &self.peers.entries[i];
            out.push((entry.0, &entry.1));
            i += 1;
        }
        out
    }

    /// Forgets the peers that the configuration does not name and whose session
    /// is not established.
    pub fn forget_unconfigured_idle(&mut self)
        requires
            old(self).wf(),
        ensures
            final(self).peers.entries@ == old(self).peers.entries@.filter(
                |peer: (IpAddr, SessionStatus)| is_kept(peer),
            ),
            forall|peer: IpAddr| #[trigger]
                final(self).status(peer) == if_kept(peer, old(self).status(peer)),
            final(self).wf(),
    {
        let ghost before = self.peers.entries@;
        let ghost keep = |peer: (IpAddr, SessionStatus)| is_kept(peer);
        let mut i: usize = 0;
        assert(before.skip(0) =~= before);
        reveal(Seq::filter);
        while i < self.peers.entries.len()
            invariant
                keep == (|peer: (IpAddr, SessionStatus)| is_kept(peer)),
                i <= self.peers.entries@.len() <= before.len(),
                in_order(self.peers.entries@),
                self.peers.entries@.take(i as int) == before.take(
                    before.len() - (self.peers.entries@.len() - i),
                ).filter(keep),
                self.peers.entries@.skip(i as int) == before.skip(
                    before.len() - (self.peers.entries@.len() - i),
                ),
            decreases self.peers.entries.len() - i,
        {
            reveal(Seq::filter);
            let ghost now = self.peers.entries@;
            let ghost done = before.len() - (now.len() - i);
            proof {
                assert(now.skip(i as int)[0] == now[i as int]);
                assert(before.skip(done)[0] == before[done]);
                assert(before.take(done + 1).drop_last() =~= before.take(done));
                assert(before.take(done + 1).last() == before[done]);
            }
            let status = &self.peers.entries[i].1;
            if status.configured || status.fsm == FsmState::Established {
                i += 1;
                proof {
                    assert(now.take(i as int) =~= now.take(i - 1).push(now[i - 1]));
                    assert(now.skip(i as int) =~= now.skip(i - 1).skip(1));
                    assert(before.skip(done + 1) =~= before.skip(done).skip(1));
                }
            } else {
                self.peers.entries.remove(i);
                proof {
                    let after = self.peers.entries@;
                    assert(after.take(i as int) =~= now.take(i as int));
                    assert(after.skip(i as int) =~= now.skip(i as int).skip(1));
                    assert(before.skip(done + 1) =~= before.skip(done).skip(1));
                    crate::keyed::entry_removed(now, i as int);
                }
            }
        }
        proof {
            assert(self.peers.entries@.take(i as int) =~= self.peers.entries@);
            assert(before.take(before.len() as int) =~= before);
            assert forall|peer: IpAddr| #[trigger]
                self.status(peer) == if_kept(peer, old(self).status(peer)) by {
                kept_status_stays(before, peer);
            }
        }
    }

    /// Takes the mark from every peer that the configuration names it.
    pub fn clear_configured_marks(&mut self)
        requires
            old(self).wf(),
        ensures
            final(self).peers.entries@ == old(self).peers.entries@.map_values(
                |peer: (IpAddr, SessionStatus)| unmarked(peer),
            ),
            final(self).wf(),
    {
        let ghost before = self.peers.entries@;
        let mut i: usize = 0;
        while i < self.peers.entries.len()
            invariant
                i <= self.peers.entries@.len(),
                self.peers.entries@.len() == before.len(),
                in_order(before),
                forall|k: int|
                    0 <= k < i ==> #[trigger] self.peers.entries@[k] == unmarked(before[k]),
                forall|k: int|
                    i <= k < before.len() ==> #[trigger] self.peers.entries@[k] == before[k],
            decreases self.peers.entries.len() - i,
        {
            let status = &mut self.peers.entries[i].1;
            status.set_configured(false);
            i += 1;
        }
        proof {
            let after = self.peers.entries@;
            assert(after =~= before.map_values(|peer: (IpAddr, SessionStatus)| unmarked(peer)));
            assert forall|a: int, b: int| 0 <= a < b < after.len() implies crate::keyed::Key::rank(
                (#[trigger] after[a]).0,
            ) < crate::keyed::Key::rank((#[trigger] after[b]).0) by {
                assert(crate::keyed::Key::rank(before[a].0) < crate::keyed::Key::rank(before[b].0));
            }
        }
    }
}

/// The states are numbered in the order in which a session goes through them,
/// from one on, and a number that no state has is taken for idle.
pub proof fn states_are_numbered_in_order(v: u8)
    ensures
        FsmState::Idle.number() == 1,
        FsmState::Connect.number() == FsmState::Idle.number() + 1,
        FsmState::Active.number() == FsmState::Connect.number() + 1,
        FsmState::OpenSent.number() == FsmState::Active.number() + 1,
        FsmState::OpenConfirm.number() == FsmState::OpenSent.number() + 1,
        FsmState::Established.number() == FsmState::OpenConfirm.number() + 1,
        FsmState::numbered(v).number() == (if 1 <= v <= 6 {
            v
        } else {
            1
        }),
{
}

/// Each state has its own name.
pub proof fn states_have_their_names(state: FsmState)
    ensures
        state.name() == "Established"@ <==> state is Established,
        state.name() == "Idle"@ <==> state is Idle,
        state.name() == "Connect"@ <==> state is Connect,
        state.name() == "Active"@ <==> state is Active,
        state.name() == "OpenSent"@ <==> state is OpenSent,
        state.name() == "OpenConfirm"@ <==> state is OpenConfirm,
{
    reveal_strlit("Idle");
    reveal_strlit("Connect");
    reveal_strlit("Active");
    reveal_strlit("OpenSent");
    reveal_strlit("OpenConfirm");
    reveal_strlit("Established");
    assert("Idle"@.len() == 4);
    assert("Connect"@.len() == 7);
    assert("Active"@.len() == 6);
    assert("OpenSent"@.len() == 8);
    assert("OpenConfirm"@.len() == 11 && "OpenConfirm"@[0] == 'O');
    assert("Established"@.len() == 11 && "Established"@[0] == 'E');
}

/// A session that is up at two moments is up longer at the later by the time
/// between them. One more makes a count higher by one until there is no higher
/// number.
pub proof fn time_and_counts_go_up(status: SessionStatus, earlier: i64, later: i64, n: u64)
    requires
        status.established_unix <= earlier <= later,
    ensures
        status.uptime(earlier) is Some ==> status.uptime(later) is Some && status.uptime(later)->0
            - status.uptime(earlier)->0 == later - earlier,
        status.uptime(later) is Some <==> status.fsm == FsmState::Established
            && status.established_unix != 0,
        n < u64::MAX ==> one_more(n) == n + 1,
        one_more(u64::MAX) == 0,
{
}

/// A peer is forgotten only if the configuration does not name it and its
/// session is not established. Clearing the marks changes nothing else.
pub proof fn named_and_established_peers_stay(peer: IpAddr, status: SessionStatus)
    ensures
        status.configured ==> if_kept(peer, Some(status)) == Some(status),
        status.fsm == FsmState::Established ==> if_kept(peer, Some(status)) == Some(status),
        !status.configured && status.fsm != FsmState::Established ==> if_kept(peer, Some(status))
            is None,
        if_kept(peer, None) is None,
        unmarked((peer, status)).0 == peer,
        !unmarked((peer, status)).1.configured,
        (SessionStatus { configured: status.configured, ..unmarked((peer, status)).1 }) == status,
{
}

} // verus!
