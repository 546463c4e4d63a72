//! How observations become events.

use crate::addr::IpAddr;
use crate::clickhouse::event::{address_octets, blank_event, ip_bytes, Event, EventView};
use crate::clickhouse::hash::{sha256, sha256_digest};
use crate::clickhouse::writer::{json_string, json_text};
use crate::metrics::{counter, gauge, measured_as_counter, measured_as_gauge, simple, Metric, MetricType, MetricUnit, SampleView, Target};
use crate::text::{decimal, decimal_text};
use crate::wire::{array16, le32, le64, put, put_le32, put_le64};
use std::collections::HashMap;
use vstd::prelude::*;
use vstd::string::StringExecFns;
use vstd::utf8::encode_utf8;

verus! {

broadcast use vstd::std_specs::hash::group_hash_axioms;

/// What a peer is known by: a digest of where and when it was observed. It
/// changes when the peer reconnects, which begins a new generation.
pub open spec fn peer_key_of(stream: Seq<u8>, epoch: Seq<u8>, session: u32, generation: u64) -> Seq<
    u8,
> {
    sha256(stream + epoch + le32(session as int) + le64(generation as int)).take(16)
}

/// What a peer is known by.
pub fn peer_key(stream: [u8; 16], epoch: [u8; 16], session: u32, generation: u64) -> (r: [u8; 16])
    ensures
        r@ == peer_key_of(stream@, epoch@, session, generation),
{
    let mut data: Vec<u8> = Vec::new();
    put(&mut data, stream.as_slice());
    put(&mut data, epoch.as_slice());
    put_le32(&mut data, session);
    put_le64(&mut data, generation);
    assert(data@ =~= stream@ + epoch@ + le32(session as int) + le64(generation as int));
    let digest = sha256_digest(&data);
    let head = vstd::slice::slice_subrange(digest.as_slice(), 0, 16);
    assert(head@ =~= digest@.take(16));
    array16(head)
}

/// What an identity depends on.
#[derive(Clone, Copy, Debug, PartialEq, Eq, Structural)]
pub struct CacheKey {
    pub session: u32,
    pub generation: u64,
    pub revision: u64,
    pub router_revision: u64,
}

/// The most identities that are kept.
pub const MAX_CACHED: usize = 65_536;

/// The most that the kept identities may take up.
pub const MAX_CACHE_BYTES: usize = 16_777_216;

/// What one kept identity is taken to need beside its text.
pub const ENTRY_COST: usize = 128;

/// Identities of this length or more are not kept.
pub const LARGE_IDENTITY: usize = 262_144;

/// Identities that need not be put together again, by session.
#[derive(Debug)]
pub struct Identities {
    pub entries: HashMap<u32, Vec<(CacheKey, String)>>,
    pub count: usize,
    pub bytes: usize,
}

/// The identity for a key in a list.
pub open spec fn identity_in(list: Seq<(CacheKey, String)>, key: CacheKey) -> Option<Seq<char>>
    decreases list.len(),
{
    if list.len() == 0 {
        None
    } else if list.last().0 == key {
        Some(list.last().1@)
    } else {
        identity_in(list.drop_last(), key)
    }
}

impl Identities {
    /// The identity that is kept for a key.
    pub open spec fn kept(self, key: CacheKey) -> Option<Seq<char>> {
        if self.entries@.contains_key(key.session) {
            identity_in(self.entries@[key.session]@, key)
        } else {
            None
        }
    }

    /// The cache does not outgrow its limits.
    pub open spec fn within_limits(self) -> bool {
        self.count <= MAX_CACHED && self.bytes <= MAX_CACHE_BYTES
    }

    /// An empty cache.
    pub fn new() -> (r: Identities)
        ensures
            r.within_limits(),
            r.count == 0,
            r.bytes == 0,
            forall|key: CacheKey| (#[trigger] r.kept(key)) is None,
    {
        Identities { entries: HashMap::new(), count: 0, bytes: 0 }
    }

    /// The identity that is kept for a key.
    pub fn lookup(&self, key: CacheKey) -> (r: Option<String>)
        ensures
            r is Some <==> self.kept(key) is Some,
            r is Some ==> self.kept(key) == Some(r->0@),
    {
        match self.entries.get(&key.session) {
            Some(list) => {
                let mut i: usize = list.len();
                assert(list@.take(i as int) =~= list@);
                while i > 0
                    invariant
                        i <= list@.len(),
                        identity_in(list@, key) == identity_in(list@.take(i as int), key),
                        self.kept(key) == identity_in(list@, key),
                    decreases i,
                {
                    assert(list@.take(i as int).drop_last() =~= list@.take(i - 1));
                    assert(list@.take(i as int).last() == list@[i - 1]);
                    if list[i - 1].0 == key {
                        return Some(list[i - 1].1.clone());
                    }
                    i -= 1;
                }
                None
            },
            None => None,
        }
    }

    /// Whether the cache has to be emptied before an identity goes in.
    pub open spec fn must_evict(self, len: int) -> bool {
        self.count >= MAX_CACHED || self.bytes + len + ENTRY_COST > MAX_CACHE_BYTES
    }

    /// Whether the cache is another one into which an identity was to go: it is
    /// kept if it is not too large, and all others have gone if there would be
    /// too many, or they would take up too much.
    pub open spec fn has_stored(self, before: Identities, key: CacheKey, identity: Seq<char>) -> bool {
        let len = encode_utf8(identity).len() as int;
        let evict = before.must_evict(len);
        let keep = len < LARGE_IDENTITY;
        &&& forall|other: CacheKey| #[trigger]
            self.kept(other) == (if keep && other == key {
                Some(identity)
            } else if evict {
                None
            } else {
                before.kept(other)
            })
        &&& self.count == (if evict {
            0int
        } else {
            before.count as int
        }) + (if keep {
            1int
        } else {
            0
        })
        &&& self.bytes == (if evict {
            0int
        } else {
            before.bytes as int
        }) + (if keep {
            len + ENTRY_COST
        } else {
            0
        })
    }

    /// Keeps an identity that is not too large. All others go if there would
    /// be too many, or they would take up too much.
    pub fn store(&mut self, key: CacheKey, identity: &str)
        requires
            old(self).within_limits(),
        ensures
            final(self).within_limits(),
            final(self).has_stored(*old(self), key, identity@),
    {
        let octets = identity.as_bytes();
        let len: usize = octets.len();
        let evict = self.count >= MAX_CACHED || len > MAX_CACHE_BYTES - ENTRY_COST || self.bytes
            > MAX_CACHE_BYTES - ENTRY_COST - len;
        if evict {
            self.entries.clear();
            self.count = 0;
            self.bytes = 0;
        }
        let ghost cleared = *self;
        if len < LARGE_IDENTITY {
            self.bytes = self.bytes + len + ENTRY_COST;
            self.count = self.count + 1;
            let mut list = match self.entries.remove(&key.session) {
                Some(list) => list,
                None => Vec::new(),
            };
            let ghost before = list@;
            proof {
                assert(self.entries@ =~= cleared.entries@.remove(key.session));
                assert(cleared.entries@.contains_key(key.session) ==> before
                    == cleared.entries@[key.session]@);
            }
            list.push((key, identity.to_owned()));
            assert(list@.drop_last() =~= before);
            self.entries.insert(key.session, list);
            proof {
                assert(self.entries@ =~= cleared.entries@.insert(key.session, list));
                assert forall|other: CacheKey| #[trigger]
                    self.kept(other) == (if other == key {
                        Some(identity@)
                    } else {
                        cleared.kept(other)
                    }) by {
                    if other.session != key.session {
                        assert(self.entries@[other.session] == cleared.entries@[other.session]);
                    } else {
                        assert(self.entries@[other.session]@ == list@);
                    }
                }
            }
        }
    }
}

/// A text, or `null`.
pub open spec fn or_null(text: Option<Seq<char>>) -> Seq<char> {
    match text {
        Some(text) => text,
        None => "null"@,
    }
}

/// The text of a truth value.
pub open spec fn truth_text(b: bool) -> Seq<char> {
    if b {
        "true"@
    } else {
        "false"@
    }
}

/// The identity of a peer: the collector, the session and its generation, and
/// what is known of the peer and of the router that it was observed on, both
/// given as JSON.
pub open spec fn identity_text(
    collector: Seq<char>,
    session: u32,
    generation: u64,
    peer: Option<Seq<char>>,
    router: Option<Seq<char>>,
) -> Seq<char> {
    "{\"collector\":"@ + json_text(collector) + ",\"generation\":"@ + decimal_text(
        generation as nat,
    ) + ",\"missing\":"@ + truth_text(peer is None) + ",\"peer\":"@ + or_null(peer)
        + ",\"router\":"@ + or_null(router) + ",\"session_ingress\":"@ + decimal_text(
        session as nat,
    ) + "}"@
}

/// What a string that may be missing holds.
pub open spec fn string_view(s: Option<&str>) -> Option<Seq<char>> {
    match s {
        Some(s) => Some(s@),
        None => None,
    }
}

/// The identity of a peer.
pub fn identity_json(
    collector: &str,
    session: u32,
    generation: u64,
    peer: Option<&str>,
    router: Option<&str>,
) -> (r: String)
    ensures
        r@ == identity_text(
            collector@,
            session,
            generation,
            string_view(peer),
            string_view(router),
        ),
{
    let mut out = "{\"collector\":".to_owned();
    out.append(json_string(collector).as_str());
    out.append(",\"generation\":");
    out.append(decimal(generation).as_str());
    out.append(",\"missing\":");
    out.append(
        if peer.is_none() {
            "true"
        } else {
            "false"
        },
    );
    out.append(",\"peer\":");
    out.append(
        match peer {
            Some(text) => text,
            None => "null",
        },
    );
    out.append(",\"router\":");
    out.append(
        match router {
            Some(text) => text,
            None => "null",
        },
    );
    out.append(",\"session_ingress\":");
    out.append(decimal(session as u64).as_str());
    out.append("}");
    out
}

/// What the register knows of the session behind an ingress.
pub struct SessionHistory<'a> {
    pub session: u32,
    pub path_id: Option<u32>,
    pub generation: u64,
    pub revision: u64,
    pub router_revision: u64,
    /// The peer as JSON, if it is known.
    pub peer: Option<&'a str>,
    /// The router as JSON, if it is known.
    pub router: Option<&'a str>,
}

impl<'a> SessionHistory<'a> {
    /// What the identity depends on.
    pub open spec fn key(self) -> CacheKey {
        CacheKey {
            session: self.session,
            generation: self.generation,
            revision: self.revision,
            router_revision: self.router_revision,
        }
    }

    /// The identity, put together anew.
    pub open spec fn fresh_identity(self, collector: Seq<char>) -> Seq<char> {
        identity_text(
            collector,
            self.session,
            self.generation,
            string_view(self.peer),
            string_view(self.router),
        )
    }
}

/// Turns observations into events.
#[derive(Debug)]
pub struct Receiver {
    pub stream: [u8; 16],
    pub epoch: [u8; 16],
    pub collector: String,
    pub identities: Identities,
    /// Observations of peers that the register did not know.
    pub missing_identity: u64,
}

/// A counter that starts over behind the highest number.
pub open spec fn counted(n: u64) -> u64 {
    ((n + 1) % 0x1_0000_0000_0000_0000) as u64
}

impl Receiver {
    /// The identity of a session: the one that is kept, or a new one.
    pub open spec fn identity_of(self, history: SessionHistory) -> Seq<char> {
        match self.identities.kept(history.key()) {
            Some(identity) => identity,
            None => history.fresh_identity(self.collector@),
        }
    }

    /// Whether the receiver is another one that looked up the identity of a
    /// session: one that was not kept is stored, and a peer that is not known
    /// is counted then.
    pub open spec fn has_looked_up(self, before: Receiver, history: SessionHistory) -> bool {
        let kept = before.identities.kept(history.key()) is Some;
        &&& self.stream == before.stream
        &&& self.epoch == before.epoch
        &&& self.collector == before.collector
        &&& self.missing_identity == (if !kept && history.peer is None {
            counted(before.missing_identity)
        } else {
            before.missing_identity
        })
        &&& kept ==> self.identities == before.identities
        &&& !kept ==> self.identities.has_stored(
            before.identities,
            history.key(),
            before.identity_of(history),
        )
    }

    /// The key of a peer, which of its paths an ingress is, and its identity.
    pub fn identity(&mut self, history: SessionHistory<'_>) -> (r: (
        [u8; 16],
        Option<u32>,
        String,
    ))
        requires
            old(self).identities.within_limits(),
        ensures
            final(self).identities.within_limits(),
            final(self).has_looked_up(*old(self), history),
            r.0@ == peer_key_of(
                old(self).stream@,
                old(self).epoch@,
                history.session,
                history.generation,
            ),
            r.1 == history.path_id,
            r.2@ == old(self).identity_of(history),
    {
        let peer = peer_key(self.stream, self.epoch, history.session, history.generation);
        let key = CacheKey {
            session: history.session,
            generation: history.generation,
            revision: history.revision,
            router_revision: history.router_revision,
        };
        match self.identities.lookup(key) {
            Some(identity) => (peer, history.path_id, identity),
            None => {
                if history.peer.is_none() {
                    self.missing_identity = self.missing_identity.wrapping_add(1);
                }
                let identity = identity_json(
                    self.collector.as_str(),
                    history.session,
                    history.generation,
                    history.peer,
                    history.router,
                );
                self.identities.store(key, identity.as_str());
                (peer, history.path_id, identity)
            },
        }
    }

    /// An event of some kind for an ingress.
    pub open spec fn base_event(
        self,
        ingress: u32,
        kind: u8,
        history: SessionHistory,
        wall_ms: i64,
    ) -> EventView {
        EventView {
            stream: self.stream@,
            epoch: self.epoch@,
            received_ms: wall_ms,
            kind,
            peer: peer_key_of(self.stream@, self.epoch@, history.session, history.generation),
            ingress,
            path_id: history.path_id,
            identity: self.identity_of(history),
            ..blank_event()
        }
    }

    /// An event of some kind for an ingress.
    pub fn base(&mut self, ingress: u32, kind: u8, history: SessionHistory<'_>, wall_ms: i64) -> (r:
        Event)
        requires
            old(self).identities.within_limits(),
        ensures
            final(self).identities.within_limits(),
            final(self).has_looked_up(*old(self), history),
            r@ == old(self).base_event(ingress, kind, history, wall_ms),
    {
        let (peer, path_id, identity) = self.identity(history);
        Event {
            stream: self.stream,
            epoch: self.epoch,
            received_ms: wall_ms,
            kind,
            peer,
            ingress,
            path_id,
            identity,
            ..Event::default()
        }
    }
}

/// Whatever is kept of identities, events of one session and generation have
/// the same key of the peer. Emptying the cache does not change it.
pub proof fn eviction_keeps_keys(
    a: Receiver,
    b: Receiver,
    first: SessionHistory,
    second: SessionHistory,
    ingresses: (u32, u32),
    kinds: (u8, u8),
    times: (i64, i64),
)
    requires
        a.stream == b.stream,
        a.epoch == b.epoch,
        first.session == second.session,
        first.generation == second.generation,
    ensures
        a.base_event(ingresses.0, kinds.0, first, times.0).peer == b.base_event(
            ingresses.1,
            kinds.1,
            second,
            times.1,
        ).peer,
{
}

/// The most that an event may be taken to need in memory.
pub const MAX_EVENT: u64 = 1_048_576;

/// What an event is taken to need in memory: shared buffers count in full.
pub open spec fn event_cost(overhead: nat, attrs: nat, identity: nat) -> nat {
    overhead + attrs + identity + 128
}

/// What an event is taken to need in memory; nothing if that is too much.
/// `overhead` is what any event needs.
pub fn admission_cost(overhead: usize, event: &Event) -> (r: Option<u64>)
    ensures
        ({
            let cost = event_cost(
                overhead as nat,
                event@.attrs.len(),
                encode_utf8(event@.identity).len(),
            );
            r == (if cost <= MAX_EVENT {
                Some(cost as u64)
            } else {
                None
            })
        }),
{
    let identity = event.identity.as_str().as_bytes();
    let cost: u128 = overhead as u128 + event.attrs.len() as u128 + identity.len() as u128 + 128;
    if cost > MAX_EVENT as u128 {
        None
    } else {
        Some(cost as u64)
    }
}

/// A number within the range of a time.
pub open spec fn within_i64(n: int) -> i64 {
    if n > i64::MAX {
        i64::MAX
    } else if n < i64::MIN {
        i64::MIN
    } else {
        n as i64
    }
}

/// When a route was received, given a moment whose time is known and how long
/// before or after it the route was received. Later steps of the clock do not
/// matter.
pub fn received_at(anchor_ms: i64, after: bool, millis: u64) -> (r: i64)
    ensures
        r == within_i64(
            if after {
                anchor_ms + millis
            } else {
                anchor_ms - millis
            },
        ),
{
    let at: i128 = if after {
        anchor_ms as i128 + millis as i128
    } else {
        anchor_ms as i128 - millis as i128
    };
    if at > 9_223_372_036_854_775_807 {
        i64::MAX
    } else if at < -9_223_372_036_854_775_808 {
        i64::MIN
    } else {
        at as i64
    }
}

/// The family of a route.
#[derive(Clone, Copy, Debug, PartialEq, Eq, Structural)]
pub enum Family {
    Ipv4Unicast,
    Ipv6Unicast,
    Other,
}

/// What was observed.
#[derive(Clone, Copy, Debug, PartialEq, Eq, Structural)]
pub enum Observation {
    Route { family: Family, withdrawn: bool },
    /// All routes of a peer are gone, or those of one family.
    Withdraw(Option<Family>),
    /// One of several peers of which all routes are gone.
    WithdrawPeer,
    IngressReappeared,
    EndOfStream,
    /// Something that is observed in another way as well.
    Other,
}

/// What an event says of what was observed.
#[derive(Clone, Copy, Debug, PartialEq, Eq, Structural)]
pub struct EventKind {
    pub class: u8,
    pub kind: u8,
    pub afi: u16,
    pub safi: u8,
}

/// What becomes of an observation.
#[derive(Clone, Copy, Debug, PartialEq, Eq, Structural)]
pub enum Admission {
    Record(EventKind),
    /// A family that is not recorded.
    Unsupported,
    Ignore,
}

/// The numbers of a family.
pub open spec fn family_numbers(family: Family) -> Option<(u16, u8)> {
    match family {
        Family::Ipv4Unicast => Some((1u16, 1u8)),
        Family::Ipv6Unicast => Some((2u16, 1u8)),
        Family::Other => None,
    }
}

/// What becomes of an observation.
pub open spec fn admitted(observation: Observation) -> Admission {
    match observation {
        Observation::Route { family, withdrawn } => match family_numbers(family) {
            Some((afi, safi)) => Admission::Record(
                EventKind {
                    class: 1,
                    kind: if withdrawn {
                        2
                    } else {
                        1
                    },
                    afi,
                    safi,
                },
            ),
            None => Admission::Unsupported,
        },
        Observation::Withdraw(Some(family)) => match family_numbers(family) {
            Some((afi, safi)) => Admission::Record(EventKind { class: 0, kind: 5, afi, safi }),
            None => Admission::Unsupported,
        },
        Observation::Withdraw(None) | Observation::WithdrawPeer => Admission::Record(
            EventKind { class: 0, kind: 4, afi: 0, safi: 0 },
        ),
        Observation::IngressReappeared => Admission::Record(
            EventKind { class: 0, kind: 6, afi: 0, safi: 0 },
        ),
        Observation::EndOfStream => Admission::Record(
            EventKind { class: 0, kind: 9, afi: 0, safi: 0 },
        ),
        Observation::Other => Admission::Ignore,
    }
}

/// What becomes of an observation.
pub fn classify_observation(observation: Observation) -> (r: Admission)
    ensures
        r == admitted(observation),
{
    match observation {
        Observation::Route { family, withdrawn } => {
            let kind: u8 = if withdrawn {
                2
            } else {
                1
            };
            match family {
                Family::Ipv4Unicast => Admission::Record(
                    EventKind { class: 1, kind, afi: 1, safi: 1 },
                ),
                Family::Ipv6Unicast => Admission::Record(
                    EventKind { class: 1, kind, afi: 2, safi: 1 },
                ),
                Family::Other => Admission::Unsupported,
            }
        },
        Observation::Withdraw(Some(Family::Ipv4Unicast)) => Admission::Record(
            EventKind { class: 0, kind: 5, afi: 1, safi: 1 },
        ),
        Observation::Withdraw(Some(Family::Ipv6Unicast)) => Admission::Record(
            EventKind { class: 0, kind: 5, afi: 2, safi: 1 },
        ),
        Observation::Withdraw(Some(Family::Other)) => Admission::Unsupported,
        Observation::Withdraw(None) | Observation::WithdrawPeer => Admission::Record(
            EventKind { class: 0, kind: 4, afi: 0, safi: 0 },
        ),
        Observation::IngressReappeared => Admission::Record(
            EventKind { class: 0, kind: 6, afi: 0, safi: 0 },
        ),
        Observation::EndOfStream => Admission::Record(
            EventKind { class: 0, kind: 9, afi: 0, safi: 0 },
        ),
        Observation::Other => Admission::Ignore,
    }
}

/// Whether the identity of the peer is looked up for an observation: for all
/// that is recorded, and for all routes of a family that are gone.
pub open spec fn looks_up(observation: Observation) -> bool {
    admitted(observation) is Record || observation is Withdraw
}

/// What comes of an observation.
#[derive(Debug)]
pub enum Observed {
    /// An event of its ingress, and what it is to say.
    Recorded(Event, EventKind),
    /// A family that is not recorded.
    Unsupported,
    Ignored,
}

impl Receiver {
    /// Takes in an observation of an ingress.
    pub fn observe(
        &mut self,
        ingress: u32,
        observation: Observation,
        history: SessionHistory<'_>,
        wall_ms: i64,
    ) -> (r: Observed)
        requires
            old(self).identities.within_limits(),
        ensures
            final(self).identities.within_limits(),
            looks_up(observation) ==> final(self).has_looked_up(*old(self), history),
            !looks_up(observation) ==> *final(self) == *old(self),
            match admitted(observation) {
                Admission::Record(kind) => r matches Observed::Recorded(event, said) && said == kind
                    && event@ == old(self).base_event(ingress, kind.kind, history, wall_ms),
                Admission::Unsupported => r == Observed::Unsupported,
                Admission::Ignore => r == Observed::Ignored,
            },
    {
        match classify_observation(observation) {
            Admission::Record(kind) => Observed::Recorded(
                self.base(ingress, kind.kind, history, wall_ms),
                kind,
            ),
            Admission::Unsupported => {
                if let Observation::Withdraw(_) = observation {
                    let _ = self.identity(history);
                }
                Observed::Unsupported
            },
            Admission::Ignore => Observed::Ignored,
        }
    }
}

/// The event for a route: that of its ingress, with the route.
pub fn route_event(
    base: Event,
    kind: EventKind,
    received_ms: i64,
    prefix: IpAddr,
    prefix_len: u8,
    attrs: Vec<u8>,
) -> (r: Event)
    ensures
        r@ == (EventView {
            received_ms,
            class: kind.class,
            kind: kind.kind,
            afi: kind.afi,
            safi: kind.safi,
            prefix: address_octets(prefix),
            prefix_len,
            attrs: attrs@,
            ..base@
        }),
{
    let mut event = base;
    event.received_ms = received_ms;
    event.class = kind.class;
    event.kind = kind.kind;
    event.afi = kind.afi;
    event.safi = kind.safi;
    event.prefix = ip_bytes(prefix);
    event.prefix_len = prefix_len;
    event.attrs = attrs;
    event
}

/// The event for anything else that is recorded.
pub fn control_event(base: Event, kind: EventKind) -> (r: Event)
    ensures
        r@ == (EventView {
            class: kind.class,
            kind: kind.kind,
            afi: kind.afi,
            safi: kind.safi,
            ..base@
        }),
{
    let mut event = base;
    event.class = kind.class;
    event.kind = kind.kind;
    event.afi = kind.afi;
    event.safi = kind.safi;
    event
}

/// The longest pause, in seconds, after an insert that failed.
pub const MAX_BACKOFF: u64 = 30;

/// The pauses of the uploader.
#[derive(Clone, Copy, Debug, PartialEq, Eq, Structural)]
pub struct UploadBackoff {
    pub seconds: u64,
}

impl UploadBackoff {
    /// The pause before anything has failed.
    pub fn new() -> (r: UploadBackoff)
        ensures
            r.seconds == 1,
    {
        UploadBackoff { seconds: 1 }
    }

    /// After a success the pauses start over.
    pub fn succeeded(&mut self)
        ensures
            final(self).seconds == 1,
    {
        self.seconds = 1;
    }

    /// The pause after a failure; the next one is twice as long, up to a limit.
    pub fn failed(&mut self) -> (r: u64)
        requires
            old(self).seconds <= MAX_BACKOFF,
        ensures
            r == old(self).seconds,
            final(self).seconds == (if old(self).seconds * 2 > MAX_BACKOFF {
                MAX_BACKOFF as int
            } else {
                old(self).seconds * 2
            }),
            final(self).seconds <= MAX_BACKOFF,
    {
        let pause: u64 = self.seconds;
        self.seconds = if pause * 2 > MAX_BACKOFF {
            MAX_BACKOFF
        } else {
            pause * 2
        };
        pause
    }
}

/// What became of an event that was offered to the queue of the writer.
#[derive(Clone, Copy, Debug, PartialEq, Eq, Structural)]
pub enum Offer {
    TooLarge,
    /// The queue takes in nothing more.
    Closed,
    Queued,
}

/// A sum that starts over behind the highest number.
pub open spec fn more(a: u64, b: u64) -> u64 {
    ((a + b) % 0x1_0000_0000_0000_0000) as u64
}

/// A difference that starts over below zero.
pub open spec fn less(a: u64, b: u64) -> u64 {
    if a < b {
        (a - b + 0x1_0000_0000_0000_0000) as u64
    } else {
        (a - b) as u64
    }
}

/// What an event was taken to need is given back in full when it leaves the
/// queue.
pub proof fn queue_is_accounted_for(bytes: u64, cost: u64)
    ensures
        less(more(bytes, cost), cost) == bytes,
{
}

/// Measurements of the export.
#[derive(Clone, Copy, Debug, PartialEq, Eq, Structural)]
pub struct Metrics {
    pub accepted: u64,
    pub inserted: u64,
    pub errors: u64,
    pub unsupported: u64,
    pub missing_identity: u64,
    pub stopped: u64,
    pub disk_bytes: u64,
    pub queue_bytes: u64,
    pub healthy: u64,
}

/// A counter of the export.
pub open spec fn count_sample(name: Seq<char>, help: Seq<char>, unit: Seq<char>, value: u64) -> SampleView {
    simple(counter(name, help), unit, value)
}

/// A gauge of the export.
pub open spec fn state_sample(name: Seq<char>, help: Seq<char>, unit: Seq<char>, value: u64) -> SampleView {
    simple(gauge(name, help, MetricUnit::State), unit, value)
}

fn put_count(target: &mut Target, name: &'static str, help: &'static str, unit: &str, value: u64)
    ensures
        final(target)@ == old(target)@.push(count_sample(name@, help@, unit@, value)),
{
    target.append_simple(Metric::new(name, help, MetricType::Counter, MetricUnit::Total), unit, value);
}

fn put_state(target: &mut Target, name: &'static str, help: &'static str, unit: &str, value: u64)
    ensures
        final(target)@ == old(target)@.push(state_sample(name@, help@, unit@, value)),
{
    target.append_simple(Metric::new(name, help, MetricType::Gauge, MetricUnit::State), unit, value);
}

impl Metrics {
    /// The measurements of the export, under the name of its component.
    pub open spec fn samples(self, unit: Seq<char>) -> Seq<SampleView> {
        seq![
            count_sample(
                "clickhouse_accepted"@,
                "Observations admitted to exporter memory"@,
                unit,
                self.accepted,
            ),
            count_sample(
                "clickhouse_inserted"@,
                "Rows acknowledged, including control and identity rows"@,
                unit,
                self.inserted,
            ),
            count_sample(
                "clickhouse_errors"@,
                "Spool or ClickHouse errors"@,
                unit,
                self.errors,
            ),
            count_sample(
                "clickhouse_unsupported"@,
                "Unsupported route families"@,
                unit,
                self.unsupported,
            ),
            count_sample(
                "clickhouse_missing_identity"@,
                "Observations without registry metadata"@,
                unit,
                self.missing_identity,
            ),
            count_sample(
                "clickhouse_stopped"@,
                "Observations rejected after exporter shutdown/failure"@,
                unit,
                self.stopped,
            ),
            state_sample(
                "clickhouse_spool_bytes"@,
                "Approximate pending spool bytes"@,
                unit,
                self.disk_bytes,
            ),
            state_sample(
                "clickhouse_queue_bytes"@,
                "Accounted bytes waiting for the spool writer"@,
                unit,
                self.queue_bytes,
            ),
            state_sample(
                "clickhouse_healthy"@,
                "Last spool/insert operation succeeded"@,
                unit,
                self.healthy,
            ),
        ]
    }

    /// Notes an event that was offered to the queue of the writer, by what it
    /// was taken to need and by what became of it.
    pub fn note_offered(&mut self, cost: u64, outcome: Offer)
        ensures
            *final(self) == (match outcome {
                Offer::TooLarge => Metrics { errors: counted(old(self).errors), ..*old(self) },
                Offer::Closed => Metrics { stopped: counted(old(self).stopped), ..*old(self) },
                Offer::Queued => Metrics {
                    accepted: counted(old(self).accepted),
                    queue_bytes: more(old(self).queue_bytes, cost),
                    ..*old(self)
                },
            }),
    {
        match outcome {
            Offer::TooLarge => {
                self.errors = self.errors.wrapping_add(1);
            },
            Offer::Closed => {
                self.stopped = self.stopped.wrapping_add(1);
            },
            Offer::Queued => {
                self.accepted = self.accepted.wrapping_add(1);
                self.queue_bytes = self.queue_bytes.wrapping_add(cost);
            },
        }
    }

    /// Notes that an event has left the queue.
    pub fn note_taken(&mut self, cost: u64)
        ensures
            *final(self) == (Metrics {
                queue_bytes: less(old(self).queue_bytes, cost),
                ..*old(self)
            }),
    {
        self.queue_bytes = self.queue_bytes.wrapping_sub(cost);
    }

    /// Hands out the measurements.
    pub fn append(&self, unit: &str, target: &mut Target)
        ensures
            final(target)@ == old(target)@ + self.samples(unit@),
    {
        put_count(
            target,
            "clickhouse_accepted",
            "Observations admitted to exporter memory",
            unit,
            self.accepted,
        );
        put_count(
            target,
            "clickhouse_inserted",
            "Rows acknowledged, including control and identity rows",
            unit,
            self.inserted,
        );
        put_count(target, "clickhouse_errors", "Spool or ClickHouse errors", unit, self.errors);
        put_count(
            target,
            "clickhouse_unsupported",
            "Unsupported route families",
            unit,
            self.unsupported,
        );
        put_count(
            target,
            "clickhouse_missing_identity",
            "Observations without registry metadata",
            unit,
            self.missing_identity,
        );
        put_count(
            target,
            "clickhouse_stopped",
            "Observations rejected after exporter shutdown/failure",
            unit,
            self.stopped,
        );
        put_state(
            target,
            "clickhouse_spool_bytes",
            "Approximate pending spool bytes",
            unit,
            self.disk_bytes,
        );
        put_state(
            target,
            "clickhouse_queue_bytes",
            "Accounted bytes waiting for the spool writer",
            unit,
            self.queue_bytes,
        );
        put_state(
            target,
            "clickhouse_healthy",
            "Last spool/insert operation succeeded",
            unit,
            self.healthy,
        );
        assert(target@ =~= old(target)@ + self.samples(unit@));
    }
}

/// Each measurement is handed out under its own name.
pub proof fn measurements_have_their_names(metrics: Metrics, unit: Seq<char>)
    ensures
        measured_as_counter(metrics.samples(unit), "clickhouse_accepted"@, metrics.accepted),
        measured_as_counter(metrics.samples(unit), "clickhouse_inserted"@, metrics.inserted),
        measured_as_counter(metrics.samples(unit), "clickhouse_errors"@, metrics.errors),
        measured_as_counter(metrics.samples(unit), "clickhouse_unsupported"@, metrics.unsupported),
        measured_as_counter(metrics.samples(unit), "clickhouse_missing_identity"@, metrics.missing_identity),
        measured_as_counter(metrics.samples(unit), "clickhouse_stopped"@, metrics.stopped),
        measured_as_gauge(metrics.samples(unit), "clickhouse_spool_bytes"@, MetricUnit::State, metrics.disk_bytes),
        measured_as_gauge(metrics.samples(unit), "clickhouse_queue_bytes"@, MetricUnit::State, metrics.queue_bytes),
        measured_as_gauge(metrics.samples(unit), "clickhouse_healthy"@, MetricUnit::State, metrics.healthy),
        metrics.samples(unit).len() == 9,
        forall|i: int|
            0 <= i < metrics.samples(unit).len() ==> (#[trigger] metrics.samples(unit)[i]).unit_name == Some(unit) && metrics.samples(unit)[i].labels.len() == 0,
{
    let samples = metrics.samples(unit);
    assert(samples[0].metric.name == "clickhouse_accepted"@);
    assert(samples[1].metric.name == "clickhouse_inserted"@);
    assert(samples[2].metric.name == "clickhouse_errors"@);
    assert(samples[3].metric.name == "clickhouse_unsupported"@);
    assert(samples[4].metric.name == "clickhouse_missing_identity"@);
    assert(samples[5].metric.name == "clickhouse_stopped"@);
    assert(samples[6].metric.name == "clickhouse_spool_bytes"@);
    assert(samples[7].metric.name == "clickhouse_queue_bytes"@);
    assert(samples[8].metric.name == "clickhouse_healthy"@);
}

/// What is recorded of an observation: a route has class one and any other
/// class zero; an announcement has kind one, a withdrawal two, the end of all
/// routes four, that of one family five, a return six, the end of the stream
/// nine. The address family is one for IPv4, two for IPv6, and the routes are
/// unicast ones. Other families are not recorded.
pub proof fn observations_have_their_kinds(observation: Observation, family: Family)
    ensures
        admitted(observation) is Record && admitted(observation)->Record_0.class == 1
            <==> observation is Route && observation->family != Family::Other,
        admitted(observation) is Record && observation !is Route ==> admitted(
            observation,
        )->Record_0.class == 0,
        family != Family::Other ==> admitted(
            Observation::Route { family, withdrawn: false },
        )->Record_0.kind == 1 && admitted(
            Observation::Route { family, withdrawn: true },
        )->Record_0.kind == 2 && admitted(Observation::Withdraw(Some(family)))->Record_0.kind == 5,
        admitted(Observation::Withdraw(None))->Record_0.kind == 4,
        admitted(Observation::WithdrawPeer) == admitted(Observation::Withdraw(None)),
        admitted(Observation::IngressReappeared)->Record_0.kind == 6,
        admitted(Observation::EndOfStream)->Record_0.kind == 9,
        admitted(observation) is Record ==> (admitted(observation)->Record_0.safi == 1
            <==> admitted(observation)->Record_0.afi != 0) && (admitted(observation)->Record_0.safi
            == 0 <==> admitted(observation)->Record_0.afi == 0),
        admitted(observation) is Record ==> (admitted(observation)->Record_0.afi == 1 <==> (
        observation is Route && observation->family == Family::Ipv4Unicast || observation
            == Observation::Withdraw(Some(Family::Ipv4Unicast)))) && (admitted(
            observation,
        )->Record_0.afi == 2 <==> (observation is Route && observation->family
            == Family::Ipv6Unicast || observation == Observation::Withdraw(
            Some(Family::Ipv6Unicast),
        ))) && admitted(observation)->Record_0.afi <= 2,
        admitted(observation) is Unsupported <==> (observation is Route && observation->family
            == Family::Other || observation == Observation::Withdraw(Some(Family::Other))),
        admitted(observation) is Ignore <==> observation is Other,
{
}

/// An event carries the ingress, the kind and the time that it was observed
/// with, which path of the session it is, and nothing of a route.
pub proof fn events_are_of_their_ingress(
    receiver: Receiver,
    ingress: u32,
    kind: u8,
    history: SessionHistory,
    wall_ms: i64,
)
    ensures
        ({
            let event = receiver.base_event(ingress, kind, history, wall_ms);
            &&& event.ingress == ingress
            &&& event.kind == kind
            &&& event.received_ms == wall_ms
            &&& event.path_id == history.path_id
            &&& event.stream == receiver.stream@
            &&& event.epoch == receiver.epoch@
            &&& event.attrs.len() == 0
            &&& event.prefix_len == 0 && event.afi == 0 && event.safi == 0 && event.class == 0
            &&& receiver.identities.kept(history.key()) is None ==> event.identity
                == identity_text(
                receiver.collector@,
                history.session,
                history.generation,
                string_view(history.peer),
                string_view(history.router),
            )
            &&& receiver.identities.kept(history.key()) is Some ==> event.identity
                == receiver.identities.kept(history.key())->0
        }),
{
}

/// The octets that the key of a peer is the digest of are those of the stream,
/// of the epoch, of the session and of its generation, one behind the other.
pub proof fn peer_keys_depend_on_the_session(
    stream: Seq<u8>,
    epoch: Seq<u8>,
    session: u32,
    generation: u64,
) -> (hashed: Seq<u8>)
    requires
        stream.len() == 16,
        epoch.len() == 16,
    ensures
        peer_key_of(stream, epoch, session, generation) == sha256(hashed).take(16),
        hashed.len() == 44,
        hashed.take(16) == stream,
        hashed.subrange(16, 32) == epoch,
        hashed.subrange(32, 36) == le32(session as int),
        hashed.skip(36) == le64(generation as int),
{
    let hashed = stream + epoch + le32(session as int) + le64(generation as int);
    assert(hashed.take(16) =~= stream);
    assert(hashed.subrange(16, 32) =~= epoch);
    assert(hashed.subrange(32, 36) =~= le32(session as int));
    assert(hashed.skip(36) =~= le64(generation as int));
    hashed
}

/// An event needs more by what its attributes and its identity need more.
pub proof fn costs_add_up(overhead: nat, attrs: nat, identity: nat, more: nat)
    ensures
        event_cost(overhead + more, attrs, identity) == event_cost(overhead, attrs, identity)
            + more,
        event_cost(overhead, attrs + more, identity) == event_cost(overhead, attrs, identity)
            + more,
        event_cost(overhead, attrs, identity + more) == event_cost(overhead, attrs, identity)
            + more,
        event_cost(overhead, attrs, identity) >= overhead + attrs + identity + ENTRY_COST,
{
}

/// The identity of a peer tells the collector, the generation, whether the peer
/// is missing, the peer, the router and the session, each behind its name.
pub proof fn identities_name_their_parts(
    collector: Seq<char>,
    session: u32,
    generation: u64,
    peer: Option<Seq<char>>,
    router: Option<Seq<char>>,
)
    ensures
        identity_text(collector, session, generation, peer, router) == ("{\"collector\":"@
            + json_text(collector)) + (",\"generation\":"@ + decimal_text(generation as nat)) + (
        ",\"missing\":"@ + (if peer is None {
            "true"@
        } else {
            "false"@
        })) + (",\"peer\":"@ + (match peer {
            Some(peer) => peer,
            None => "null"@,
        })) + (",\"router\":"@ + (match router {
            Some(router) => router,
            None => "null"@,
        })) + (",\"session_ingress\":"@ + decimal_text(
            session as nat,
        ) + "}"@),
{
    assert(identity_text(collector, session, generation, peer, router) =~= ("{\"collector\":"@
        + json_text(collector)) + (",\"generation\":"@ + decimal_text(generation as nat)) + (
    ",\"missing\":"@ + truth_text(peer is None)) + (",\"peer\":"@ + or_null(peer)) + (
    ",\"router\":"@ + or_null(router)) + (",\"session_ingress\":"@ + decimal_text(session as nat)
        + "}"@));
}

/// Counts go up by one and sums by what is added until there is no higher
/// number, and a time is kept where it can be told.
pub proof fn counts_go_up(n: u64, by: u64, at: int)
    ensures
        n < u64::MAX ==> counted(n) == n + 1,
        counted(u64::MAX) == 0,
        n + by <= u64::MAX ==> more(n, by) == n + by,
        n >= by ==> less(n, by) == n - by,
        i64::MIN <= at <= i64::MAX ==> within_i64(at) == at,
        at > i64::MAX ==> within_i64(at) == i64::MAX,
        at < i64::MIN ==> within_i64(at) == i64::MIN,
{
}

/// An identity of less than a quarter of a mebibyte is kept and found again, a
/// larger one is not. Others stay as they are unless there are too many or they
/// take up too much, and then all of them go.
pub proof fn stored_identities_are_found(
    before: Identities,
    after: Identities,
    key: CacheKey,
    other: CacheKey,
    identity: Seq<char>,
)
    requires
        after.has_stored(before, key, identity),
    ensures
        encode_utf8(identity).len() < 256 * 1024 ==> after.kept(key) == Some(identity),
        encode_utf8(identity).len() >= 256 * 1024 && !before.must_evict(
            encode_utf8(identity).len() as int,
        ) ==> after.kept(key) == before.kept(key),
        other != key && !before.must_evict(encode_utf8(identity).len() as int) ==> after.kept(other)
            == before.kept(other),
        other != key && before.must_evict(encode_utf8(identity).len() as int) ==> after.kept(other)
            is None,
        before.must_evict(encode_utf8(identity).len() as int) <==> before.count >= 65_536
            || before.bytes + encode_utf8(identity).len() + 128 > 16 * 1024 * 1024,
{
}

/// The identity of a peer is looked up for all that is recorded, and beyond that
/// only where routes of a family that is not recorded are gone.
pub proof fn identities_are_looked_up(observation: Observation)
    ensures
        admitted(observation) is Record ==> looks_up(observation),
        admitted(observation) is Ignore ==> !looks_up(observation),
        admitted(observation) is Unsupported ==> (looks_up(observation) <==> observation
            is Withdraw),
{
}

} // verus!
