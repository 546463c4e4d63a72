//! How an event becomes rows.

use crate::clickhouse::event::{blank_event, row_is_not_empty, zeros16, Event, EventView};
use crate::clickhouse::hash::{sha256, sha256_digest};
use crate::clickhouse::seen::{IdentityKey, Seen};
use crate::wire::same_octets;
use vstd::prelude::*;
use vstd::string::StringExecFns;
use vstd::utf8::encode_utf8;

verus! {

/// Milliseconds in an hour.
pub const HOUR_MS: i64 = 3_600_000;

/// The most identities that are remembered of one segment.
pub const MAX_SEEN: usize = 65_536;

/// The hour that a time is in.
pub open spec fn hour_of(ms: i64) -> int {
    ms as int / 3_600_000
}

/// When a row expires, in seconds: at the end of the hour that it was received
/// in, and so many hours later.
pub open spec fn expiry_time(ms: i64, retention_hours: u32) -> u32 {
    let at = (hour_of(ms) + 1) * 3600 + retention_hours * 3600;
    if at < 0 {
        0
    } else if at > u32::MAX {
        u32::MAX
    } else {
        at as u32
    }
}

/// The hour that a time is in.
fn hour(ms: i64) -> (r: i64)
    ensures
        r == hour_of(ms),
        -0x400_0000_0000 < r < 0x400_0000_0000,
{
    if ms >= 0 {
        ms / HOUR_MS
    } else {
        let before: i64 = -(ms + 1);
        let r: i64 = -(before / HOUR_MS) - 1;
        proof {
            let q = before as int / 3_600_000;
            assert(before == q * 3_600_000 + before as int % 3_600_000);
            assert(ms as int / 3_600_000 == -q - 1) by (nonlinear_arith)
                requires
                    before == q * 3_600_000 + before as int % 3_600_000,
                    0 <= before as int % 3_600_000 < 3_600_000,
                    ms == -before - 1,
            ;
        }
        r
    }
}

/// When a row expires. Rows of one hour expire together, so that identities
/// never expire ahead of the rows that refer to them.
pub fn expiry(ms: i64, retention_hours: u32) -> (r: u32)
    ensures
        r == expiry_time(ms, retention_hours),
{
    let at: i64 = (hour(ms) + 1) * 3600 + retention_hours as i64 * 3600;
    if at < 0 {
        0
    } else if at > 4_294_967_295 {
        u32::MAX
    } else {
        at as u32
    }
}

/// A row does not expire ahead of one that was received earlier, and rows that
/// were received in one hour expire together.
pub proof fn expiry_follows_the_hour(a: i64, b: i64, retention_hours: u32)
    requires
        a <= b,
    ensures
        expiry_time(a, retention_hours) <= expiry_time(b, retention_hours),
        hour_of(a) == hour_of(b) ==> expiry_time(a, retention_hours) == expiry_time(
            b,
            retention_hours,
        ),
{
    assert(a as int / 3_600_000 <= b as int / 3_600_000) by (nonlinear_arith)
        requires
            a <= b,
    ;
}

/// A row outlives its retention, by an hour at most, and one more hour of
/// retention makes it last an hour longer. Only times that the column cannot
/// hold are moved to the nearest that it can.
pub proof fn rows_outlive_their_retention(ms: i64, retention_hours: u32)
    ensures
        0 < expiry_time(ms, retention_hours) < u32::MAX ==> {
            &&& expiry_time(ms, retention_hours) * 1000 > ms + retention_hours * 3_600_000
            &&& expiry_time(ms, retention_hours) * 1000 <= ms + (retention_hours + 1) * 3_600_000
            &&& expiry_time(ms, retention_hours) % 3600 == 0
        },
        expiry_time(ms, retention_hours) == 0 ==> ms + retention_hours * 3_600_000 < 0,
        expiry_time(ms, retention_hours) == u32::MAX ==> ms + (retention_hours + 1) * 3_600_000
            >= u32::MAX * 1000,
        0 < expiry_time(ms, retention_hours) <= u32::MAX - 3600 && retention_hours < u32::MAX
            ==> expiry_time(ms, (retention_hours + 1) as u32) == expiry_time(ms, retention_hours)
            + 3600,
        0 < expiry_time(ms, retention_hours) <= u32::MAX - 3600 && ms <= i64::MAX - 3_600_000
            ==> expiry_time((ms + 3_600_000) as i64, retention_hours) == expiry_time(
            ms,
            retention_hours,
        ) + 3600,
{
    let hour = hour_of(ms);
    assert(hour * 3_600_000 <= ms < hour * 3_600_000 + 3_600_000) by (nonlinear_arith)
        requires
            hour == ms as int / 3_600_000,
    ;
    if ms <= i64::MAX - 3_600_000 {
        assert(hour_of((ms + 3_600_000) as i64) == hour + 1) by (nonlinear_arith)
            requires
                hour == ms as int / 3_600_000,
                hour_of((ms + 3_600_000) as i64) == (ms + 3_600_000) / 3_600_000,
        ;
    }
}

/// What an event is introduced by.
pub open spec fn identity_key(e: EventView) -> IdentityKey {
    IdentityKey {
        peer: e.peer,
        digest: sha256(encode_utf8(e.identity)),
        hour: hour_of(e.received_ms),
    }
}

/// The rows that are being put together.
pub ghost struct RowsView {
    pub frame: Seq<u8>,
    pub frame_rows: int,
    pub seq: int,
    /// The identities that need no further row.
    pub seen: Set<IdentityKey>,
    pub seen_count: int,
    /// The identities that have a row in the current segment.
    pub introduced: Set<IdentityKey>,
}

/// Whether an event is one of a peer.
pub open spec fn has_peer(e: EventView) -> bool {
    e.peer != zeros16()
}

/// Whether the identity of an event needs a row of its own.
pub open spec fn needs_identity(rows: RowsView, e: EventView) -> bool {
    has_peer(e) && !rows.seen.contains(identity_key(e))
}

/// The row for the identity of an event.
pub open spec fn identity_row(e: EventView, epoch: Seq<u8>, seq: u64, retention: u32) -> EventView {
    EventView {
        stream: e.stream,
        epoch,
        seq,
        received_ms: e.received_ms,
        expires: expiry_time(e.received_ms, retention),
        kind: 3,
        peer: e.peer,
        ingress: e.ingress,
        identity: e.identity,
        ..blank_event()
    }
}

/// The row for an event itself. The identity of a peer is left to its own row.
pub open spec fn event_row(e: EventView, seq: u64, retention: u32) -> EventView {
    EventView {
        seq,
        expires: expiry_time(e.received_ms, retention),
        identity: if has_peer(e) {
            seq![]
        } else {
            e.identity
        },
        ..e
    }
}

/// The rows with an event added: where the segment has no row yet for the
/// identity of its peer at that hour, one comes first.
pub open spec fn recorded(rows: RowsView, e: EventView, epoch: Seq<u8>, retention: u32) -> RowsView {
    if needs_identity(rows, e) {
        let key = identity_key(e);
        RowsView {
            frame: rows.frame + identity_row(e, epoch, rows.seq as u64, retention).row()
                + event_row(e, (rows.seq + 1) as u64, retention).row(),
            frame_rows: rows.frame_rows + 2,
            seq: rows.seq + 2,
            seen: if rows.seen_count + 1 >= MAX_SEEN {
                Set::empty()
            } else {
                rows.seen.insert(key)
            },
            seen_count: if rows.seen_count + 1 >= MAX_SEEN {
                0
            } else {
                rows.seen_count + 1
            },
            introduced: rows.introduced.insert(key),
        }
    } else {
        RowsView {
            frame: rows.frame + event_row(e, rows.seq as u64, retention).row(),
            frame_rows: rows.frame_rows + 1,
            seq: rows.seq + 1,
            ..rows
        }
    }
}

/// The rows that are being put together.
pub struct Rows {
    pub frame: Vec<u8>,
    pub frame_rows: u32,
    pub seq: u64,
    pub seen: Seen,
    pub introduced: Ghost<Set<IdentityKey>>,
}

impl View for Rows {
    type V = RowsView;

    open spec fn view(&self) -> RowsView {
        RowsView {
            frame: self.frame@,
            frame_rows: self.frame_rows as int,
            seq: self.seq as int,
            seen: Set::new(|key: IdentityKey| self.seen.holds(key)),
            seen_count: self.seen.count as int,
            introduced: self.introduced@,
        }
    }
}

/// Whether the rows are in order: a frame has octets exactly if it has rows,
/// and an identity is only taken for known if the segment has a row for it.
pub open spec fn rows_fit(rows: RowsView) -> bool {
    &&& rows.frame.len() == 0 <==> rows.frame_rows == 0
    &&& rows.frame_rows >= 0
    &&& rows.seen_count < MAX_SEEN
    &&& rows.seen.subset_of(rows.introduced)
}

/// Whether there is room for the rows of one more event.
pub open spec fn rows_have_room(rows: RowsView) -> bool {
    rows.frame_rows <= u32::MAX - 2 && rows.seq <= u64::MAX - 2
}

/// No rows at all.
pub open spec fn no_rows() -> RowsView {
    RowsView {
        frame: seq![],
        frame_rows: 0,
        seq: 0,
        seen: Set::empty(),
        seen_count: 0,
        introduced: Set::empty(),
    }
}

/// The rows once the frame has been written.
pub open spec fn flushed(rows: RowsView) -> RowsView {
    RowsView { frame: seq![], frame_rows: 0, ..rows }
}

/// The rows once the segment is complete: the next one starts without any
/// identity.
pub open spec fn segment_left(rows: RowsView) -> RowsView {
    RowsView { seen: Set::empty(), seen_count: 0, introduced: Set::empty(), ..rows }
}

/// Every row that refers to a peer is in a segment with a row for the identity
/// of that peer.
pub proof fn identities_are_introduced(
    rows: RowsView,
    e: EventView,
    epoch: Seq<u8>,
    retention: u32,
)
    requires
        rows_fit(rows),
        has_peer(e),
    ensures
        recorded(rows, e, epoch, retention).introduced.contains(identity_key(e)),
        rows_fit(recorded(rows, e, epoch, retention)),
{
    recording_keeps_order(rows, e, epoch, retention);
}

/// Recording an event keeps the rows in order.
pub proof fn recording_keeps_order(rows: RowsView, e: EventView, epoch: Seq<u8>, retention: u32)
    requires
        rows_fit(rows),
    ensures
        rows_fit(recorded(rows, e, epoch, retention)),
{
    row_is_not_empty(event_row(e, (rows.seq + 1) as u64, retention));
    row_is_not_empty(event_row(e, rows.seq as u64, retention));
    assert(recorded(rows, e, epoch, retention).frame.len() > 0);
}

/// The row of an event says all that the event says but for its place, its
/// expiry and the identity of a peer. The row of an identity has the kind of
/// one and names the same peer, ingress, stream and time, and nothing of a
/// route.
pub proof fn rows_say_what_the_event_says(
    e: EventView,
    epoch: Seq<u8>,
    seq: u64,
    retention: u32,
)
    ensures
        ({
            let row = event_row(e, seq, retention);
            &&& EventView { seq: e.seq, expires: e.expires, identity: e.identity, ..row } == e
            &&& row.seq == seq
            &&& row.identity.len() == 0 || e.peer == zeros16() && row.identity == e.identity
            &&& e.peer == zeros16() ==> row.identity == e.identity
        }),
        ({
            let row = identity_row(e, epoch, seq, retention);
            &&& row.kind == 3
            &&& row.seq == seq
            &&& row.epoch == epoch
            &&& row.stream == e.stream
            &&& row.received_ms == e.received_ms
            &&& row.peer == e.peer
            &&& row.ingress == e.ingress
            &&& row.identity == e.identity
            &&& row.expires == event_row(e, seq, retention).expires
        }),
{
}

/// Recording an event leaves the octets of the rows before it, adds its row
/// last, and numbers each row behind the one before it. The second of two
/// events with one identity adds one row alone, unless the identities were
/// forgotten between them.
pub proof fn rows_are_appended(rows: RowsView, e: EventView, epoch: Seq<u8>, retention: u32)
    ensures
        ({
            let after = recorded(rows, e, epoch, retention);
            let row = event_row(e, (after.seq - 1) as u64, retention).row();
            &&& after.frame.len() >= rows.frame.len() + row.len()
            &&& after.frame.take(rows.frame.len() as int) == rows.frame
            &&& after.frame.skip(after.frame.len() - row.len()) == row
            &&& after.seq - rows.seq == after.frame_rows - rows.frame_rows
            &&& after.seq - rows.seq == 1 || after.seq - rows.seq == 2
            &&& !has_peer(e) ==> after.seq == rows.seq + 1
        }),
        has_peer(e) && rows.seen_count + 1 < MAX_SEEN ==> recorded(
            recorded(rows, e, epoch, retention),
            e,
            epoch,
            retention,
        ).seq == recorded(rows, e, epoch, retention).seq + 1,
        has_peer(e) && rows.seen == Set::<IdentityKey>::empty() ==> recorded(
            rows,
            e,
            epoch,
            retention,
        ).seq == rows.seq + 2,
{
    let after = recorded(rows, e, epoch, retention);
    let row = event_row(e, (after.seq - 1) as u64, retention).row();
    assert(after.frame.take(rows.frame.len() as int) =~= rows.frame);
    assert(after.frame.skip(after.frame.len() - row.len()) =~= row);
}

impl Rows {
    /// No rows at all.
    pub fn new() -> (r: Rows)
        ensures
            r@ == no_rows(),
    {
        let r = Rows {
            frame: Vec::new(),
            frame_rows: 0,
            seq: 0,
            seen: Seen::new(),
            introduced: Ghost(Set::empty()),
        };
        assert(r@.frame =~= seq![]);
        assert(r@.seen =~= Set::empty());
        r
    }

    /// Forgets the frame, which has been written.
    pub fn flush(&mut self)
        ensures
            final(self)@ == flushed(old(self)@),
    {
        self.frame.clear();
        self.frame_rows = 0;
        assert(self@.frame =~= seq![]);
        assert(self@.seen =~= old(self)@.seen);
    }

    /// Forgets the identities, since the segment is complete.
    pub fn leave_segment(&mut self)
        ensures
            final(self)@ == segment_left(old(self)@),
    {
        self.seen.clear();
        self.introduced = Ghost(Set::empty());
        assert(self@.seen =~= Set::empty());
    }

    /// Adds an event.
    pub fn record(&mut self, event: Event, epoch: [u8; 16], retention: u32)
        requires
            rows_fit(old(self)@),
            rows_have_room(old(self)@),
        ensures
            final(self)@ == recorded(old(self)@, event@, epoch@, retention),
            rows_fit(final(self)@),
    {
        let ghost before = self@;
        let ghost e = event@;
        let ghost key = identity_key(e);
        let mut event = event;
        event.expires = expiry(event.received_ms, retention);
        let digest = sha256_digest(event.identity.as_str().as_bytes());
        let none: [u8; 16] = [0; 16];
        assert(none@ =~= zeros16());
        let named = !same_octets(event.peer.as_slice(), none.as_slice());
        if named && self.seen.insert(event.peer, digest, hour(event.received_ms)) {
            let identity = Event {
                stream: event.stream,
                epoch,
                seq: self.seq,
                received_ms: event.received_ms,
                expires: event.expires,
                kind: 3,
                peer: event.peer,
                ingress: event.ingress,
                identity: event.identity.clone(),
                ..Event::default()
            };
            assert(identity@ == identity_row(e, epoch@, before.seq as u64, retention));
            identity.encode(&mut self.frame);
            self.seq = self.seq + 1;
            self.frame_rows = self.frame_rows + 1;
            self.introduced = Ghost(before.introduced.insert(key));
            if self.seen.count >= MAX_SEEN {
                self.seen.clear();
            }
        }
        if named {
            event.identity = String::new();
            assert(event.identity@ =~= seq![]);
        }
        event.seq = self.seq;
        assert(event@ == event_row(e, self.seq, retention));
        self.seq = self.seq + 1;
        event.encode(&mut self.frame);
        self.frame_rows = self.frame_rows + 1;
        proof {
            let after = recorded(before, e, epoch@, retention);
            assert(self@.seen =~= after.seen);
            assert(self@.frame =~= after.frame);
            recording_keeps_order(before, e, epoch@, retention);
        }
    }
}

} // verus!
