//! Messages that filters send out, and the log entries among them.

use crate::addr::IpAddr;
use crate::ingress::IngressId;
use crate::roto_runtime::explode::RotondaRoute;
use vstd::prelude::*;

verus! {

/// What a filter logged of one message.
#[derive(Debug)]
pub struct LogEntry {
    /// In microseconds since the epoch.
    pub timestamp: i64,
    pub origin_as: Option<u32>,
    pub peer_as: Option<u32>,
    pub as_path_hops: Option<usize>,
    pub conventional_reach: usize,
    pub conventional_unreach: usize,
    pub mp_reach: Option<usize>,
    pub mp_reach_afisafi: Option<(u16, u8)>,
    pub mp_unreach: Option<usize>,
    pub mp_unreach_afisafi: Option<(u16, u8)>,
    pub custom: Option<String>,
}

/// A log entry without the text that the filter added.
#[derive(Debug)]
pub struct MinimalLogEntry {
    /// In microseconds since the epoch.
    pub timestamp: i64,
    pub origin_as: Option<u32>,
    pub peer_as: Option<u32>,
    pub as_path_hops: Option<usize>,
    pub conventional_reach: usize,
    pub conventional_unreach: usize,
    pub mp_reach: Option<usize>,
    pub mp_reach_afisafi: Option<(u16, u8)>,
    pub mp_unreach: Option<usize>,
    pub mp_unreach_afisafi: Option<(u16, u8)>,
}

impl LogEntry {
    /// A log entry that says nothing.
    pub open spec fn blank() -> LogEntry {
        LogEntry {
            timestamp: 0,
            origin_as: None,
            peer_as: None,
            as_path_hops: None,
            conventional_reach: 0,
            conventional_unreach: 0,
            mp_reach: None,
            mp_reach_afisafi: None,
            mp_unreach: None,
            mp_unreach_afisafi: None,
            custom: None,
        }
    }

    /// The entry without the text that the filter added.
    pub open spec fn minimal(self) -> MinimalLogEntry {
        MinimalLogEntry {
            timestamp: self.timestamp,
            origin_as: self.origin_as,
            peer_as: self.peer_as,
            as_path_hops: self.as_path_hops,
            conventional_reach: self.conventional_reach,
            conventional_unreach: self.conventional_unreach,
            mp_reach: self.mp_reach,
            mp_reach_afisafi: self.mp_reach_afisafi,
            mp_unreach: self.mp_unreach,
            mp_unreach_afisafi: self.mp_unreach_afisafi,
        }
    }

    /// A log entry that says nothing.
    pub fn new() -> (r: LogEntry)
        ensures
            r == LogEntry::blank(),
    {
        LogEntry {
            timestamp: 0,
            origin_as: None,
            peer_as: None,
            as_path_hops: None,
            conventional_reach: 0,
            conventional_unreach: 0,
            mp_reach: None,
            mp_reach_afisafi: None,
            mp_unreach: None,
            mp_unreach_afisafi: None,
            custom: None,
        }
    }

    /// Leaves out the text that the filter added.
    pub fn into_minimal(self) -> (r: MinimalLogEntry)
        ensures
            r == self.minimal(),
    {
        MinimalLogEntry {
            timestamp: self.timestamp,
            origin_as: self.origin_as,
            peer_as: self.peer_as,
            as_path_hops: self.as_path_hops,
            conventional_reach: self.conventional_reach,
            conventional_unreach: self.conventional_unreach,
            mp_reach: self.mp_reach,
            mp_reach_afisafi: self.mp_reach_afisafi,
            mp_unreach: self.mp_unreach,
            mp_unreach_afisafi: self.mp_unreach_afisafi,
        }
    }
}

/// What a filter puts out for a message.
#[derive(Debug)]
pub enum Output {
    /// A community among the path attributes.
    Community(u32),
    /// An AS number in the AS_PATH.
    Asn(u32),
    /// The rightmost AS number of the AS_PATH.
    Origin(u32),
    /// A BMP peer down notification.
    PeerDown,
    /// A prefix, as it stands on the wire.
    Prefix(Vec<u8>),
    /// What the filter defines itself.
    Custom(u32, u32),
    Entry(LogEntry),
}

/// The messages that a filter puts out, and the log entry that it composes.
#[derive(Debug)]
pub struct OutputStream<M> {
    pub msgs: Vec<M>,
    pub entry: LogEntry,
}

impl<M> OutputStream<M> {
    /// A stream without messages.
    pub fn new() -> (r: OutputStream<M>)
        ensures
            r.msgs@ == Seq::<M>::empty(),
            r.entry == LogEntry::blank(),
    {
        let msgs: Vec<M> = Vec::new();
        assert(msgs@ =~= Seq::<M>::empty());
        OutputStream::with_vec(msgs)
    }

    /// A stream of some messages.
    pub fn with_vec(v: Vec<M>) -> (r: OutputStream<M>)
        ensures
            r.msgs == v,
            r.entry == LogEntry::blank(),
    {
        OutputStream { msgs: v, entry: LogEntry::new() }
    }

    /// Puts out a message.
    pub fn push(&mut self, msg: M)
        ensures
            final(self).msgs@ == old(self).msgs@.push(msg),
            final(self).entry == old(self).entry,
    {
        self.msgs.push(msg);
    }

    /// Takes out all messages, in order.
    pub fn drain(&mut self) -> (r: Vec<M>)
        ensures
            r@ == old(self).msgs@,
            final(self).msgs@ == Seq::<M>::empty(),
            final(self).entry == old(self).entry,
    {
        let mut taken: Vec<M> = Vec::new();
        taken.append(&mut self.msgs);
        assert(taken@ =~= old(self).msgs@);
        assert(self.msgs@ =~= Seq::<M>::empty());
        taken
    }

    /// Whether there are no messages.
    pub fn is_empty(&self) -> (r: bool)
        ensures
            r == (self.msgs@.len() == 0),
    {
        self.msgs.len() == 0
    }

    /// The log entry, to be changed in place.
    pub fn entry(&mut self) -> (r: &mut LogEntry)
        ensures
            *r == old(self).entry,
            final(self).entry == *final(r),
            final(self).msgs == old(self).msgs,
    {
        &mut self.entry
    }

    /// Takes out the log entry; one that says nothing takes its place.
    pub fn take_entry(&mut self) -> (r: LogEntry)
        ensures
            r == old(self).entry,
            final(self).entry == LogEntry::blank(),
            final(self).msgs == old(self).msgs,
    {
        let mut entry = LogEntry::new();
        std::mem::swap(&mut self.entry, &mut entry);
        entry
    }
}

/// A value that a filter logged under a number of its own.
#[derive(Clone, Copy, Debug, PartialEq, Eq, Structural)]
pub struct CustomLogEntry {
    pub id: u32,
    pub value: u32,
}

/// What a message tells.
#[derive(Debug)]
pub enum OutputStreamMessageRecord {
    Route(Option<RotondaRoute>),
    /// A peer that went down: its address and its AS number.
    Peerdown(IpAddr, u32),
    Custom(CustomLogEntry),
    Entry(LogEntry),
}

/// What a message tells, and when.
#[derive(Debug)]
pub struct TimestampedOSMR {
    /// In seconds since the epoch.
    pub timestamp: i64,
    pub record: OutputStreamMessageRecord,
}

impl OutputStreamMessageRecord {
    /// Notes a moment, in seconds since the epoch.
    pub fn into_timestamped(self, timestamp: i64) -> (r: TimestampedOSMR)
        ensures
            r == (TimestampedOSMR { timestamp, record: self }),
    {
        TimestampedOSMR { timestamp, record: self }
    }
}

/// A message to a target, under a topic.
#[derive(Debug)]
pub struct OutputStreamMessage {
    /// The target.
    pub name: String,
    pub topic: String,
    pub record: OutputStreamMessageRecord,
    pub ingress_id: Option<IngressId>,
}

/// The target of messages that name none.
pub const MQTT_NAME: &'static str = "mqtt";

impl OutputStreamMessage {
    /// Whether this is a message under a topic to the target of messages that
    /// name none.
    pub open spec fn is_message(
        self,
        topic: Seq<char>,
        record: OutputStreamMessageRecord,
        ingress_id: Option<IngressId>,
    ) -> bool {
        &&& self.name@ == MQTT_NAME@
        &&& self.topic@ == topic
        &&& self.record == record
        &&& self.ingress_id == ingress_id
    }

    fn message(topic: &str, record: OutputStreamMessageRecord, ingress_id: Option<IngressId>) -> (r:
        OutputStreamMessage)
        ensures
            r.is_message(topic@, record, ingress_id),
    {
        OutputStreamMessage {
            name: MQTT_NAME.to_owned(),
            topic: topic.to_owned(),
            record,
            ingress_id,
        }
    }

    /// A message about a prefix.
    pub fn prefix(record: Option<RotondaRoute>, ingress_id: Option<IngressId>) -> (r:
        OutputStreamMessage)
        ensures
            r.is_message("prefix"@, OutputStreamMessageRecord::Route(record), ingress_id),
    {
        OutputStreamMessage::message("prefix", OutputStreamMessageRecord::Route(record), ingress_id)
    }

    /// A message about a community.
    pub fn community(record: Option<RotondaRoute>, ingress_id: Option<IngressId>) -> (r:
        OutputStreamMessage)
        ensures
            r.is_message("community"@, OutputStreamMessageRecord::Route(record), ingress_id),
    {
        OutputStreamMessage::message(
            "community",
            OutputStreamMessageRecord::Route(record),
            ingress_id,
        )
    }

    /// A message about an AS number.
    pub fn asn(record: Option<RotondaRoute>, ingress_id: Option<IngressId>) -> (r:
        OutputStreamMessage)
        ensures
            r.is_message("asn"@, OutputStreamMessageRecord::Route(record), ingress_id),
    {
        OutputStreamMessage::message("asn", OutputStreamMessageRecord::Route(record), ingress_id)
    }

    /// A message about an origin.
    pub fn origin(record: Option<RotondaRoute>, ingress_id: Option<IngressId>) -> (r:
        OutputStreamMessage)
        ensures
            r.is_message("origin"@, OutputStreamMessageRecord::Route(record), ingress_id),
    {
        OutputStreamMessage::message("origin", OutputStreamMessageRecord::Route(record), ingress_id)
    }

    /// A message about a peer that went down, to a target and under a topic.
    pub fn peer_down(
        name: String,
        topic: String,
        peer_ip: IpAddr,
        peer_asn: u32,
        ingress_id: Option<IngressId>,
    ) -> (r: OutputStreamMessage)
        ensures
            r == (OutputStreamMessage {
                name,
                topic,
                record: OutputStreamMessageRecord::Peerdown(peer_ip, peer_asn),
                ingress_id,
            }),
    {
        OutputStreamMessage {
            name,
            topic,
            record: OutputStreamMessageRecord::Peerdown(peer_ip, peer_asn),
            ingress_id,
        }
    }

    /// A message about a value that a filter logged.
    pub fn custom(id: u32, value: u32, ingress_id: Option<IngressId>) -> (r: OutputStreamMessage)
        ensures
            r.is_message(
                "custom"@,
                OutputStreamMessageRecord::Custom((CustomLogEntry { id, value })),
                ingress_id,
            ),
    {
        let entry = CustomLogEntry { id, value };
        OutputStreamMessage::message("custom", OutputStreamMessageRecord::Custom(entry), ingress_id)
    }

    /// A message that is a log entry.
    pub fn entry(entry: LogEntry, ingress_id: Option<IngressId>) -> (r: OutputStreamMessage)
        ensures
            r.is_message("log_entry"@, OutputStreamMessageRecord::Entry(entry), ingress_id),
    {
        OutputStreamMessage::message("log_entry", OutputStreamMessageRecord::Entry(entry), ingress_id)
    }

    pub fn get_name(&self) -> (r: String)
        ensures
            r@ == self.name@,
    {
        self.name.as_str().to_owned()
    }

    pub fn get_topic(&self) -> (r: &String)
        ensures
            *r == self.topic,
    {
        &self.topic
    }

    pub fn get_record(&self) -> (r: &OutputStreamMessageRecord)
        ensures
            *r == self.record,
    {
        &self.record
    }

    pub fn into_record(self) -> (r: OutputStreamMessageRecord)
        ensures
            r == self.record,
    {
        self.record
    }

    pub fn get_ingress_id(&self) -> (r: Option<IngressId>)
        ensures
            r == self.ingress_id,
    {
        self.ingress_id
    }
}

/// An entry without the text that the filter added says all else that the entry
/// says, each under its own name, and a blank entry says nothing.
pub proof fn minimal_entries_say_the_same(entry: LogEntry)
    ensures
        entry.minimal().timestamp == entry.timestamp,
        entry.minimal().origin_as == entry.origin_as,
        entry.minimal().peer_as == entry.peer_as,
        entry.minimal().as_path_hops == entry.as_path_hops,
        entry.minimal().conventional_reach == entry.conventional_reach,
        entry.minimal().conventional_unreach == entry.conventional_unreach,
        entry.minimal().mp_reach == entry.mp_reach,
        entry.minimal().mp_reach_afisafi == entry.mp_reach_afisafi,
        entry.minimal().mp_unreach == entry.mp_unreach,
        entry.minimal().mp_unreach_afisafi == entry.mp_unreach_afisafi,
        LogEntry::blank().timestamp == 0,
        LogEntry::blank().conventional_reach == 0 && LogEntry::blank().conventional_unreach == 0,
        LogEntry::blank().origin_as is None && LogEntry::blank().peer_as is None,
        LogEntry::blank().as_path_hops is None && LogEntry::blank().custom is None,
        LogEntry::blank().mp_reach is None && LogEntry::blank().mp_reach_afisafi is None,
        LogEntry::blank().mp_unreach is None && LogEntry::blank().mp_unreach_afisafi is None,
{
}

} // verus!
