//! The writer of the spool, as a machine that says what is to be done next and
//! is told what came of it.

use crate::clickhouse::config::Config;
use crate::clickhouse::event::{blank_event, Event, EventView};
use crate::clickhouse::record::{
    flushed, has_peer, no_rows, recorded, recording_keeps_order, rows_fit, rows_have_room, segment_left, Rows, RowsView,
};
use crate::clickhouse::spool::{
    encode_frame, hex_char, is_frame, raw_len, row_count, segment_header, Segment, FRAME_HEADER, MAX_FRAME,
};
use crate::text::join3;
use vstd::prelude::*;

verus! {

/// How long, in milliseconds, between looks at the disk space and between
/// writes to disk.
pub const INTERVAL_MS: u64 = 500;

/// A frame of this size is written.
pub const FULL_FRAME: usize = 1_048_576;

/// Disk space that is kept for what has already been taken in.
pub const HEADROOM: u64 = 8_388_608;

/// A character in a JSON string. The quotation mark, the backslash and control
/// characters are escaped, the last by their number where they have no name.
pub open spec fn escaped(c: char) -> Seq<char> {
    if c == '"' || c == '\\' {
        seq!['\\', c]
    } else if c == '\u{8}' {
        seq!['\\', 'b']
    } else if c == '\t' {
        seq!['\\', 't']
    } else if c == '\n' {
        seq!['\\', 'n']
    } else if c == '\u{c}' {
        seq!['\\', 'f']
    } else if c == '\r' {
        seq!['\\', 'r']
    } else if (c as int) < 32 {
        seq!['\\', 'u', '0', '0', hex_char(c as int / 16), hex_char(c as int % 16)]
    } else {
        seq![c]
    }
}

/// The characters of a text in a JSON string.
pub open spec fn all_escaped(text: Seq<char>) -> Seq<char>
    decreases text.len(),
{
    if text.len() == 0 {
        seq![]
    } else {
        all_escaped(text.drop_last()) + escaped(text.last())
    }
}

/// The text as a JSON string.
pub open spec fn json_text(text: Seq<char>) -> Seq<char> {
    seq!['"'] + all_escaped(text) + seq!['"']
}

/// `serde_json::to_string` writes a text as a JSON string: between quotation
/// marks, with escapes for the characters that need them and for no others.
#[verifier::external_body]
pub(crate) fn json_string(text: &str) -> (r: String)
    ensures
        r@ == json_text(text@),
{
    serde_json::to_string(text).unwrap_or_default()
}

/// What the writer goes by.
#[derive(Clone, Copy, Debug, PartialEq, Eq, Structural)]
pub struct Limits {
    pub spool_bytes: u64,
    pub reserve_bytes: u64,
    pub batch_rows: u32,
    pub batch_bytes: u64,
    pub flush_seconds: u64,
    pub retention_hours: u32,
    pub shutdown_seconds: u64,
}

/// The limits that a configuration sets.
pub open spec fn limits_of(config: Config) -> Limits {
    Limits {
        spool_bytes: config.spool_bytes,
        reserve_bytes: config.reserve_bytes,
        batch_rows: config.batch_rows,
        batch_bytes: config.batch_bytes,
        flush_seconds: config.flush_seconds,
        retention_hours: config.retention_hours,
        shutdown_seconds: config.shutdown_seconds,
    }
}

impl Limits {
    /// The limits that a configuration sets.
    pub fn of(config: &Config) -> (r: Limits)
        ensures
            r == limits_of(*config),
    {
        Limits {
            spool_bytes: config.spool_bytes,
            reserve_bytes: config.reserve_bytes,
            batch_rows: config.batch_rows,
            batch_bytes: config.batch_bytes,
            flush_seconds: config.flush_seconds,
            retention_hours: config.retention_hours,
            shutdown_seconds: config.shutdown_seconds,
        }
    }
}

/// What the writer waits for.
#[derive(Clone, Copy, Debug, PartialEq, Eq, Structural)]
pub enum Phase {
    /// The next turn.
    Turn,
    /// The disk space.
    Space,
    /// A frame to be written while there is no more space.
    FullWrite,
    /// A segment to be completed while there is no more space.
    FullSeal,
    /// An event.
    Receiving,
    /// A new segment, for the event that is held back.
    Creating { done: bool },
    /// A frame to be written.
    Writing { seal: bool, done: bool },
    /// The frame to be on disk.
    Syncing { seal: bool, done: bool },
    /// Earlier frames to be on disk.
    Refreshing { seal: bool, done: bool },
    /// The segment to be completed.
    Sealing { done: bool },
    /// The use of disk space to be noted.
    Reporting { done: bool },
    /// Nothing more.
    Over,
}

/// What is to be done next.
#[derive(Clone, Copy, Debug, PartialEq, Eq, Structural)]
pub enum Action {
    /// Give up: the time for shutting down is over, and what is only in memory
    /// may be lost.
    Fail,
    /// Find out the use of disk space.
    CheckSpace,
    /// Write [`Writer::outgoing`] behind the segment, undoing a partial write.
    WriteFrame,
    /// Write the footer of the segment and call the segment ready.
    SealSegment,
    /// Wait a little.
    Pause,
    /// Wait a little for an event.
    Receive,
    /// Create a segment.
    CreateSegment,
    /// See to it that the segment is on disk.
    SyncSegment,
    /// Note the use of disk space.
    ReportUsage,
    /// Go on at once.
    Again,
    /// All is written.
    Finish,
}

/// What came of it.
#[derive(Debug)]
pub enum Input {
    /// Nothing in particular.
    Tick,
    Space { usage: u64, available: u64, total: u64 },
    Written,
    WriteFailed,
    Sealed,
    Received(Option<Event>),
    Created([u8; 16]),
    CreateFailed,
    Synced,
    Reported,
}

/// What an [`Input`] holds.
pub ghost enum InputView {
    Tick,
    Space { usage: u64, available: u64, total: u64 },
    Written,
    WriteFailed,
    Sealed,
    Received(Option<EventView>),
    Created(Seq<u8>),
    CreateFailed,
    Synced,
    Reported,
}

/// What an event that may be missing holds.
pub open spec fn event_view(event: Option<Event>) -> Option<EventView> {
    match event {
        Some(event) => Some(event@),
        None => None,
    }
}

impl View for Input {
    type V = InputView;

    open spec fn view(&self) -> InputView {
        match self {
            Input::Tick => InputView::Tick,
            Input::Space { usage, available, total } => InputView::Space {
                usage: *usage,
                available: *available,
                total: *total,
            },
            Input::Written => InputView::Written,
            Input::WriteFailed => InputView::WriteFailed,
            Input::Sealed => InputView::Sealed,
            Input::Received(event) => InputView::Received(event_view(*event)),
            Input::Created(id) => InputView::Created(id@),
            Input::CreateFailed => InputView::CreateFailed,
            Input::Synced => InputView::Synced,
            Input::Reported => InputView::Reported,
        }
    }
}

/// Whether an input is one that a phase waits for.
pub open spec fn awaited(phase: Phase, input: InputView) -> bool {
    match phase {
        Phase::Turn => input == InputView::Tick,
        Phase::Space => input is Space,
        Phase::FullWrite => input == InputView::Written || input == InputView::WriteFailed,
        Phase::FullSeal => input == InputView::Sealed,
        Phase::Receiving => input is Received,
        Phase::Creating { .. } => input is Created || input == InputView::CreateFailed,
        Phase::Writing { .. } => input == InputView::Written || input == InputView::WriteFailed,
        Phase::Syncing { .. } => input == InputView::Synced,
        Phase::Refreshing { .. } => input == InputView::Synced,
        Phase::Sealing { .. } => input == InputView::Sealed,
        Phase::Reporting { .. } => input == InputView::Reported,
        Phase::Over => false,
    }
}

/// The time, in milliseconds since some moment and since the epoch, and
/// whether the writer is to come to an end.
#[derive(Clone, Copy, Debug, PartialEq, Eq, Structural)]
pub struct Clock {
    pub stop: bool,
    pub now: u64,
    pub wall_ms: i64,
}

/// A segment that is being written.
pub ghost struct OpenSegment {
    pub hashed: Seq<u8>,
    pub rows: int,
    pub raw_bytes: int,
}

/// The state of the writer.
pub ghost struct WriterView {
    pub limits: Limits,
    pub stream: Seq<u8>,
    pub epoch: Seq<u8>,
    pub collector: Seq<char>,
    pub segment: Option<OpenSegment>,
    pub rows: RowsView,
    /// When the segment was begun.
    pub started: int,
    /// When frames were last seen to be on disk.
    pub synced: int,
    /// When the disk space was last looked at, if that holds.
    pub checked: Option<int>,
    /// When the writer was told to come to an end.
    pub shutdown: Option<int>,
    /// Whether the start of the history is still to be recorded.
    pub first: bool,
    /// Whether the end of the history has been recorded.
    pub ended: bool,
    pub full: bool,
    /// Whether there was space in this turn, as far as it is known.
    pub healthy: bool,
    pub errors: int,
    /// The event that is held back until there is a segment for it.
    pub pending: Option<EventView>,
    pub phase: Phase,
}

/// The time between two moments.
pub open spec fn elapsed(now: u64, since: int) -> int {
    if now > since {
        now - since
    } else {
        0
    }
}

/// The start of the history.
pub open spec fn start_event(w: WriterView, wall_ms: i64) -> EventView {
    EventView {
        stream: w.stream,
        epoch: w.epoch,
        received_ms: wall_ms,
        kind: 7,
        identity: "{\"collector\":"@ + json_text(w.collector)
            + ",\"coverage\":\"live observations; no initial snapshot\"}"@,
        ..blank_event()
    }
}

/// The end of the history.
pub open spec fn end_event(w: WriterView, wall_ms: i64) -> EventView {
    EventView { stream: w.stream, epoch: w.epoch, received_ms: wall_ms, kind: 8, ..blank_event() }
}

/// Whether there is too little disk space.
pub open spec fn space_is_short(limits: Limits, usage: u64, available: u64, total: u64) -> bool {
    let reserve = if limits.reserve_bytes > total / 20 {
        limits.reserve_bytes
    } else {
        total / 20
    };
    let wanted = if usage + HEADROOM > u64::MAX {
        u64::MAX as int
    } else {
        usage + HEADROOM
    };
    wanted > limits.spool_bytes || available < reserve + HEADROOM
}

/// The state at the start of a turn.
pub open spec fn begun(w: WriterView, clock: Clock) -> WriterView {
    WriterView {
        healthy: true,
        shutdown: if clock.stop && w.shutdown is None {
            Some(clock.now as int)
        } else {
            w.shutdown
        },
        ..w
    }
}

/// A turn begins: unless time is up, the disk space is looked at from time to
/// time.
pub open spec fn turn(w: WriterView, clock: Clock) -> (WriterView, Action) {
    let w = begun(w, clock);
    if w.shutdown is Some && elapsed(clock.now, w.shutdown->0) / 1000 >= w.limits.shutdown_seconds {
        (WriterView { phase: Phase::Over, ..w }, Action::Fail)
    } else if w.checked is None || elapsed(clock.now, w.checked->0) >= INTERVAL_MS {
        (WriterView { phase: Phase::Space, ..w }, Action::CheckSpace)
    } else {
        with_space(w, clock)
    }
}

/// A turn goes on: while space is short nothing more is taken in, and what
/// there is, is written and completed so that it can be inserted and removed.
pub open spec fn with_space(w: WriterView, clock: Clock) -> (WriterView, Action) {
    if w.full {
        let w = WriterView { healthy: false, ..w };
        if w.segment is Some && w.rows.frame.len() > 0 {
            if w.rows.frame.len() > MAX_FRAME {
                (WriterView { phase: Phase::Turn, ..w }, Action::Pause)
            } else {
                (WriterView { phase: Phase::FullWrite, ..w }, Action::WriteFrame)
            }
        } else {
            full_seal(w)
        }
    } else if w.pending is None && !w.first && !w.ended {
        (WriterView { phase: Phase::Receiving, ..w }, Action::Receive)
    } else {
        chosen(w, None, clock)
    }
}

/// While space is short a segment is completed as it is.
pub open spec fn full_seal(w: WriterView) -> (WriterView, Action) {
    if w.segment is Some {
        (WriterView { phase: Phase::FullSeal, ..w }, Action::SealSegment)
    } else {
        (WriterView { phase: Phase::Turn, ..w }, Action::Pause)
    }
}

/// An event is recorded: one that was held back, the start of the history, the
/// one that was received, or the end of the history once there is nothing
/// else.
pub open spec fn chosen(w: WriterView, current: Option<EventView>, clock: Clock) -> (
    WriterView,
    Action,
) {
    let done = current is None && w.pending is None && clock.stop;
    if w.pending is Some {
        record_event(WriterView { pending: None, ..w }, w.pending->0, done, clock)
    } else if w.first {
        record_event(
            WriterView { first: false, ..w },
            start_event(w, clock.wall_ms),
            done,
            clock,
        )
    } else if current is Some {
        record_event(w, current->0, done, clock)
    } else if done && !w.ended {
        record_event(WriterView { ended: true, ..w }, end_event(w, clock.wall_ms), done, clock)
    } else {
        written_on(w, done, clock)
    }
}

/// An event is recorded, or held back until there is a segment for it.
pub open spec fn record_event(w: WriterView, e: EventView, done: bool, clock: Clock) -> (
    WriterView,
    Action,
) {
    if w.segment is Some {
        written_on(
            WriterView { rows: recorded(w.rows, e, w.epoch, w.limits.retention_hours), ..w },
            done,
            clock,
        )
    } else {
        (
            WriterView { pending: Some(e), phase: Phase::Creating { done }, ..w },
            Action::CreateSegment,
        )
    }
}

/// Whether the segment is to be completed.
pub open spec fn to_be_sealed(w: WriterView, done: bool, clock: Clock) -> bool {
    done || (w.segment is Some && (w.segment->0.rows + w.rows.frame_rows >= w.limits.batch_rows
        || w.segment->0.raw_bytes + w.rows.frame.len() >= w.limits.batch_bytes || elapsed(
        clock.now,
        w.started,
    ) / 1000 >= w.limits.flush_seconds))
}

/// The frame is written if it is large, old, or the last of its segment.
pub open spec fn written_on(w: WriterView, done: bool, clock: Clock) -> (WriterView, Action) {
    let seal = to_be_sealed(w, done, clock);
    if w.rows.frame.len() > 0 && (w.rows.frame.len() >= FULL_FRAME || elapsed(clock.now, w.synced)
        >= INTERVAL_MS || seal) {
        if w.rows.frame.len() > MAX_FRAME {
            write_failed(w, clock)
        } else {
            (WriterView { phase: Phase::Writing { seal, done }, ..w }, Action::WriteFrame)
        }
    } else {
        refreshed(w, seal, done, clock)
    }
}

/// A frame that could not be written is kept, and nothing more is taken in.
pub open spec fn write_failed(w: WriterView, clock: Clock) -> (WriterView, Action) {
    (
        WriterView {
            errors: (w.errors + 1) % 0x1_0000_0000_0000_0000,
            full: true,
            checked: Some(clock.now as int),
            phase: Phase::Turn,
            ..w
        },
        Action::Again,
    )
}

/// Frames are put on disk in time even if nothing more comes in.
pub open spec fn refreshed(w: WriterView, seal: bool, done: bool, clock: Clock) -> (
    WriterView,
    Action,
) {
    if elapsed(clock.now, w.synced) >= INTERVAL_MS {
        if w.segment is Some {
            (WriterView { phase: Phase::Refreshing { seal, done }, ..w }, Action::SyncSegment)
        } else {
            turn_ended(WriterView { synced: clock.now as int, ..w }, seal, done)
        }
    } else {
        turn_ended(w, seal, done)
    }
}

/// The segment is completed if that is called for.
pub open spec fn turn_ended(w: WriterView, seal: bool, done: bool) -> (WriterView, Action) {
    if seal {
        if w.segment is Some {
            (WriterView { phase: Phase::Sealing { done }, ..w }, Action::SealSegment)
        } else {
            (WriterView { phase: Phase::Reporting { done }, ..w }, Action::ReportUsage)
        }
    } else {
        over_or_again(w, done)
    }
}

/// All is over once the end of the history has been recorded and nothing is
/// left to do.
pub open spec fn over_or_again(w: WriterView, done: bool) -> (WriterView, Action) {
    if done && w.ended {
        (WriterView { phase: Phase::Over, ..w }, Action::Finish)
    } else {
        (WriterView { phase: Phase::Turn, ..w }, Action::Again)
    }
}

/// The segment with a frame written behind it.
pub open spec fn with_frame(segment: OpenSegment, frame: Seq<u8>) -> OpenSegment {
    OpenSegment {
        hashed: segment.hashed + frame.take(FRAME_HEADER as int),
        rows: segment.rows + row_count(frame),
        raw_bytes: segment.raw_bytes + raw_len(frame),
    }
}

/// The segment with a frame behind it that has more rows than a segment can
/// count.
pub open spec fn with_uncounted_frame(segment: OpenSegment, frame: Seq<u8>) -> OpenSegment {
    OpenSegment { hashed: segment.hashed + frame.take(FRAME_HEADER as int), ..segment }
}

/// Whether the rows of a segment can still be counted with a frame behind it.
pub open spec fn rows_count(segment: OpenSegment, frame: Seq<u8>) -> bool {
    segment.rows + row_count(frame) <= u32::MAX
}

/// A segment without frames.
pub open spec fn new_segment(id: Seq<u8>) -> OpenSegment {
    OpenSegment { hashed: segment_header(id), rows: 0, raw_bytes: 0 }
}

/// What the writer does next, given what came of the last thing that it asked
/// for. `outgoing` is the frame that it asked to be written.
pub open spec fn next(w: WriterView, outgoing: Seq<u8>, input: InputView, clock: Clock) -> (
    WriterView,
    Action,
) {
    match (w.phase, input) {
        (Phase::Turn, _) => turn(w, clock),
        (Phase::Space, InputView::Space { usage, available, total }) => with_space(
            WriterView {
                full: space_is_short(w.limits, usage, available, total),
                checked: Some(clock.now as int),
                ..w
            },
            clock,
        ),
        (Phase::FullWrite, InputView::Written) => if rows_count(w.segment->0, outgoing) {
            full_seal(
                WriterView {
                    segment: Some(with_frame(w.segment->0, outgoing)),
                    rows: flushed(w.rows),
                    ..w
                },
            )
        } else {
            (
                WriterView {
                    segment: Some(with_uncounted_frame(w.segment->0, outgoing)),
                    phase: Phase::Turn,
                    ..w
                },
                Action::Pause,
            )
        },
        (Phase::FullWrite, _) => (WriterView { phase: Phase::Turn, ..w }, Action::Pause),
        (Phase::FullSeal, _) => (
            WriterView {
                segment: None,
                rows: segment_left(w.rows),
                phase: Phase::Turn,
                ..w
            },
            Action::Pause,
        ),
        (Phase::Receiving, InputView::Received(event)) => chosen(w, event, clock),
        (Phase::Creating { done }, InputView::Created(id)) => record_event(
            WriterView {
                segment: Some(new_segment(id)),
                started: clock.now as int,
                pending: None,
                ..w
            },
            w.pending->0,
            done,
            clock,
        ),
        (Phase::Creating { .. }, _) => (
            WriterView {
                errors: (w.errors + 1) % 0x1_0000_0000_0000_0000,
                phase: Phase::Turn,
                ..w
            },
            Action::Pause,
        ),
        (Phase::Writing { seal, done }, InputView::Written) => if rows_count(
            w.segment->0,
            outgoing,
        ) {
            let w = WriterView {
                segment: Some(with_frame(w.segment->0, outgoing)),
                rows: flushed(w.rows),
                checked: None,
                ..w
            };
            if elapsed(clock.now, w.synced) >= INTERVAL_MS || seal {
                (WriterView { phase: Phase::Syncing { seal, done }, ..w }, Action::SyncSegment)
            } else {
                refreshed(w, seal, done, clock)
            }
        } else {
            write_failed(
                WriterView {
                    segment: Some(with_uncounted_frame(w.segment->0, outgoing)),
                    ..w
                },
                clock,
            )
        },
        (Phase::Writing { .. }, _) => write_failed(w, clock),
        (Phase::Syncing { seal, done }, _) => refreshed(
            WriterView { synced: clock.now as int, ..w },
            seal,
            done,
            clock,
        ),
        (Phase::Refreshing { seal, done }, _) => turn_ended(
            WriterView { synced: clock.now as int, ..w },
            seal,
            done,
        ),
        (Phase::Sealing { done }, _) => (
            WriterView {
                segment: None,
                rows: segment_left(w.rows),
                phase: Phase::Reporting { done },
                ..w
            },
            Action::ReportUsage,
        ),
        (Phase::Reporting { done }, _) => over_or_again(w, done),
        _ => (w, Action::Fail),
    }
}

/// Whether the rows in memory have a segment to go to.
pub open spec fn rows_placed(w: WriterView) -> bool {
    &&& rows_fit(w.rows)
    &&& w.rows.frame.len() > 0 ==> w.segment is Some
    &&& w.limits.reserve_bytes <= u64::MAX - HEADROOM
    &&& w.segment is Some ==> 0 <= w.segment->0.rows <= u32::MAX && 0 <= w.segment->0.raw_bytes
        <= w.segment->0.rows * MAX_FRAME
}

/// Whether the state of the writer is in order: rows are only ever in memory
/// while there is a segment for them, none are left when it is completed, and
/// what is asked for can be done.
pub open spec fn writer_fits(w: WriterView, outgoing: Seq<u8>) -> bool {
    &&& rows_placed(w)
    &&& match w.phase {
        Phase::FullWrite => w.segment is Some && is_frame(
            outgoing,
            w.rows.frame,
            w.rows.frame_rows,
        ),
        Phase::Writing { seal, done } => {
            &&& w.segment is Some
            &&& is_frame(outgoing, w.rows.frame, w.rows.frame_rows)
            &&& done ==> seal && w.pending is None
        },
        Phase::FullSeal => w.segment is Some && w.rows.frame.len() == 0,
        Phase::Sealing { done } => {
            &&& w.segment is Some
            &&& w.rows.frame.len() == 0
            &&& done ==> w.pending is None
        },
        Phase::Syncing { seal, done } => {
            &&& w.segment is Some
            &&& w.rows.frame.len() == 0
            &&& done ==> seal && w.pending is None
        },
        Phase::Refreshing { seal, done } => {
            &&& w.segment is Some
            &&& seal ==> w.rows.frame.len() == 0
            &&& done ==> seal && w.pending is None
        },
        Phase::Reporting { done } => w.segment is None && (done ==> w.pending is None),
        Phase::Creating { .. } => w.segment is None && w.pending is Some,
        Phase::Receiving => w.pending is None && !w.first && !w.ended,
        _ => true,
    }
}

/// The writer of the spool.
pub struct Writer {
    pub limits: Limits,
    pub stream: [u8; 16],
    pub epoch: [u8; 16],
    pub collector: String,
    pub segment: Option<Segment>,
    pub rows: Rows,
    pub started: u64,
    pub synced: u64,
    pub checked: Option<u64>,
    pub shutdown: Option<u64>,
    pub first: bool,
    pub ended: bool,
    pub full: bool,
    pub healthy: bool,
    pub errors: u64,
    pub pending: Option<Event>,
    pub phase: Phase,
    /// The frame that is to be written.
    pub outgoing: Vec<u8>,
}

/// What a segment that is being written holds.
pub open spec fn segment_view(segment: Option<Segment>) -> Option<OpenSegment> {
    match segment {
        Some(segment) => Some(
            OpenSegment {
                hashed: segment.hashed@,
                rows: segment.rows as int,
                raw_bytes: segment.raw_bytes as int,
            },
        ),
        None => None,
    }
}

/// A moment, if there was one.
pub open spec fn moment(at: Option<u64>) -> Option<int> {
    match at {
        Some(at) => Some(at as int),
        None => None,
    }
}

impl View for Writer {
    type V = WriterView;

    open spec fn view(&self) -> WriterView {
        WriterView {
            limits: self.limits,
            stream: self.stream@,
            epoch: self.epoch@,
            collector: self.collector@,
            segment: segment_view(self.segment),
            rows: self.rows@,
            started: self.started as int,
            synced: self.synced as int,
            checked: moment(self.checked),
            shutdown: moment(self.shutdown),
            first: self.first,
            ended: self.ended,
            full: self.full,
            healthy: self.healthy,
            errors: self.errors as int,
            pending: event_view(self.pending),
            phase: self.phase,
        }
    }
}

/// The writer when nothing has happened yet.
pub open spec fn new_writer(
    limits: Limits,
    stream: Seq<u8>,
    epoch: Seq<u8>,
    collector: Seq<char>,
    now: u64,
) -> WriterView {
    WriterView {
        limits,
        stream,
        epoch,
        collector,
        segment: None,
        rows: no_rows(),
        started: now as int,
        synced: now as int,
        checked: None,
        shutdown: None,
        first: true,
        ended: false,
        full: false,
        healthy: true,
        errors: 0,
        pending: None,
        phase: Phase::Turn,
    }
}

fn elapsed_ms(now: u64, since: u64) -> (r: u64)
    ensures
        r == elapsed(now, since as int),
{
    now.saturating_sub(since)
}

impl Writer {
    /// A writer to which nothing has happened yet.
    pub fn new(limits: Limits, stream: [u8; 16], epoch: [u8; 16], collector: &str, now: u64) -> (r:
        Writer)
        requires
            limits.reserve_bytes <= u64::MAX - HEADROOM,
        ensures
            r@ == new_writer(limits, stream@, epoch@, collector@, now),
            writer_fits(r@, r.outgoing@),
    {
        Writer {
            limits,
            stream,
            epoch,
            collector: collector.to_owned(),
            segment: None,
            rows: Rows::new(),
            started: now,
            synced: now,
            checked: None,
            shutdown: None,
            first: true,
            ended: false,
            full: false,
            healthy: true,
            errors: 0,
            pending: None,
            phase: Phase::Turn,
            outgoing: Vec::new(),
        }
    }

    /// The frame that is to be written.
    pub fn outgoing(&self) -> (r: &Vec<u8>)
        ensures
            r@ == self.outgoing@,
    {
        &self.outgoing
    }

    fn over_or_again(&mut self, done: bool) -> (r: Action)
        ensures
            (final(self)@, r) == over_or_again(old(self)@, done),
            final(self).outgoing@ == old(self).outgoing@,
    {
        if done && self.ended {
            self.phase = Phase::Over;
            Action::Finish
        } else {
            self.phase = Phase::Turn;
            Action::Again
        }
    }

    fn turn_ended(&mut self, seal: bool, done: bool) -> (r: Action)
        ensures
            (final(self)@, r) == turn_ended(old(self)@, seal, done),
            final(self).outgoing@ == old(self).outgoing@,
    {
        if seal {
            if self.segment.is_some() {
                self.phase = Phase::Sealing { done };
                Action::SealSegment
            } else {
                self.phase = Phase::Reporting { done };
                Action::ReportUsage
            }
        } else {
            self.over_or_again(done)
        }
    }

    fn refreshed(&mut self, seal: bool, done: bool, clock: Clock) -> (r: Action)
        ensures
            (final(self)@, r) == refreshed(old(self)@, seal, done, clock),
            final(self).outgoing@ == old(self).outgoing@,
    {
        if elapsed_ms(clock.now, self.synced) >= INTERVAL_MS {
            if self.segment.is_some() {
                self.phase = Phase::Refreshing { seal, done };
                Action::SyncSegment
            } else {
                self.synced = clock.now;
                self.turn_ended(seal, done)
            }
        } else {
            self.turn_ended(seal, done)
        }
    }

    fn write_failed(&mut self, clock: Clock) -> (r: Action)
        ensures
            (final(self)@, r) == write_failed(old(self)@, clock),
            final(self).outgoing@ == old(self).outgoing@,
    {
        self.errors = self.errors.wrapping_add(1);
        self.full = true;
        self.checked = Some(clock.now);
        self.phase = Phase::Turn;
        Action::Again
    }

    /// Puts the frame together. It must not be larger than a frame can be.
    fn prepare(&mut self)
        requires
            rows_fit(old(self)@.rows),
            0 < old(self)@.rows.frame.len() <= MAX_FRAME,
        ensures
            final(self)@ == old(self)@,
            is_frame(final(self).outgoing@, old(self)@.rows.frame, old(self)@.rows.frame_rows),
    {
        match encode_frame(&self.rows.frame, self.rows.frame_rows) {
            Ok(frame) => {
                self.outgoing = frame;
            },
            Err(_) => {},
        }
    }

    fn to_be_sealed(&self, done: bool, clock: Clock) -> (r: bool)
        requires
            rows_placed(self@),
        ensures
            r == to_be_sealed(self@, done, clock),
    {
        let due = match &self.segment {
            Some(segment) => {
                proof {
                    assert(segment.rows * MAX_FRAME <= 0x7fff_ffff_ffff_ffff) by (nonlinear_arith)
                        requires
                            segment.rows <= 0xffff_ffff,
                            MAX_FRAME == 4_194_304,
                    ;
                }
                segment.rows as u64 + self.rows.frame_rows as u64 >= self.limits.batch_rows as u64
                    || segment.raw_bytes as u128 + self.rows.frame.len() as u128
                    >= self.limits.batch_bytes as u128 || elapsed_ms(clock.now, self.started) / 1000
                    >= self.limits.flush_seconds
            },
            None => false,
        };
        done || due
    }

    fn written_on(&mut self, done: bool, clock: Clock) -> (r: Action)
        requires
            rows_placed(old(self)@),
        ensures
            (final(self)@, r) == written_on(old(self)@, done, clock),
            r == Action::WriteFrame ==> is_frame(
                final(self).outgoing@,
                final(self)@.rows.frame,
                final(self)@.rows.frame_rows,
            ),
    {
        let seal = self.to_be_sealed(done, clock);
        let len: usize = self.rows.frame.len();
        if len > 0 && (len >= FULL_FRAME || elapsed_ms(clock.now, self.synced) >= INTERVAL_MS
            || seal) {
            if len > MAX_FRAME {
                self.write_failed(clock)
            } else {
                self.prepare();
                self.phase = Phase::Writing { seal, done };
                Action::WriteFrame
            }
        } else {
            self.refreshed(seal, done, clock)
        }
    }

    fn record_event(&mut self, event: Event, done: bool, clock: Clock) -> (r: Action)
        requires
            rows_placed(old(self)@),
            rows_have_room(old(self)@.rows),
        ensures
            (final(self)@, r) == record_event(old(self)@, event@, done, clock),
            r == Action::WriteFrame ==> is_frame(
                final(self).outgoing@,
                final(self)@.rows.frame,
                final(self)@.rows.frame_rows,
            ),
    {
        if self.segment.is_some() {
            self.rows.record(event, self.epoch, self.limits.retention_hours);
            self.written_on(done, clock)
        } else {
            self.pending = Some(event);
            self.phase = Phase::Creating { done };
            Action::CreateSegment
        }
    }

    fn start_event(&self, wall_ms: i64) -> (r: Event)
        ensures
            r@ == start_event(self@, wall_ms),
    {
        let collector = json_string(self.collector.as_str());
        let identity = join3(
            "{\"collector\":",
            collector.as_str(),
            ",\"coverage\":\"live observations; no initial snapshot\"}",
        );
        Event {
            stream: self.stream,
            epoch: self.epoch,
            received_ms: wall_ms,
            kind: 7,
            identity,
            ..Event::default()
        }
    }

    fn end_event(&self, wall_ms: i64) -> (r: Event)
        ensures
            r@ == end_event(self@, wall_ms),
    {
        Event {
            stream: self.stream,
            epoch: self.epoch,
            received_ms: wall_ms,
            kind: 8,
            ..Event::default()
        }
    }

    fn chosen(&mut self, current: Option<Event>, clock: Clock) -> (r: Action)
        requires
            rows_placed(old(self)@),
            rows_have_room(old(self)@.rows),
        ensures
            (final(self)@, r) == chosen(old(self)@, event_view(current), clock),
            r == Action::WriteFrame ==> is_frame(
                final(self).outgoing@,
                final(self)@.rows.frame,
                final(self)@.rows.frame_rows,
            ),
    {
        let done = current.is_none() && self.pending.is_none() && clock.stop;
        match self.pending.take() {
            Some(event) => self.record_event(event, done, clock),
            None => {
                if self.first {
                    let event = self.start_event(clock.wall_ms);
                    self.first = false;
                    self.record_event(event, done, clock)
                } else {
                    match current {
                        Some(event) => self.record_event(event, done, clock),
                        None => {
                            if done && !self.ended {
                                let event = self.end_event(clock.wall_ms);
                                self.ended = true;
                                self.record_event(event, done, clock)
                            } else {
                                self.written_on(done, clock)
                            }
                        },
                    }
                }
            },
        }
    }

    fn full_seal(&mut self) -> (r: Action)
        ensures
            (final(self)@, r) == full_seal(old(self)@),
            final(self).outgoing@ == old(self).outgoing@,
    {
        if self.segment.is_some() {
            self.phase = Phase::FullSeal;
            Action::SealSegment
        } else {
            self.phase = Phase::Turn;
            Action::Pause
        }
    }

    fn with_space(&mut self, clock: Clock) -> (r: Action)
        requires
            rows_placed(old(self)@),
            rows_have_room(old(self)@.rows),
        ensures
            (final(self)@, r) == with_space(old(self)@, clock),
            r == Action::WriteFrame ==> is_frame(
                final(self).outgoing@,
                final(self)@.rows.frame,
                final(self)@.rows.frame_rows,
            ),
    {
        if self.full {
            self.healthy = false;
            let len: usize = self.rows.frame.len();
            if self.segment.is_some() && len > 0 {
                if len > MAX_FRAME {
                    self.phase = Phase::Turn;
                    Action::Pause
                } else {
                    self.prepare();
                    self.phase = Phase::FullWrite;
                    Action::WriteFrame
                }
            } else {
                self.full_seal()
            }
        } else if self.pending.is_none() && !self.first && !self.ended {
            self.phase = Phase::Receiving;
            Action::Receive
        } else {
            self.chosen(None, clock)
        }
    }

    fn turn(&mut self, clock: Clock) -> (r: Action)
        requires
            rows_placed(old(self)@),
            rows_have_room(old(self)@.rows),
        ensures
            (final(self)@, r) == turn(old(self)@, clock),
            r == Action::WriteFrame ==> is_frame(
                final(self).outgoing@,
                final(self)@.rows.frame,
                final(self)@.rows.frame_rows,
            ),
    {
        self.healthy = true;
        if clock.stop && self.shutdown.is_none() {
            self.shutdown = Some(clock.now);
        }
        let late = match self.shutdown {
            Some(since) => elapsed_ms(clock.now, since) / 1000 >= self.limits.shutdown_seconds,
            None => false,
        };
        if late {
            self.phase = Phase::Over;
            return Action::Fail;
        }
        let look = match self.checked {
            Some(since) => elapsed_ms(clock.now, since) >= INTERVAL_MS,
            None => true,
        };
        if look {
            self.phase = Phase::Space;
            return Action::CheckSpace;
        }
        self.with_space(clock)
    }

    /// Takes account of the frame, which has been written. Says whether the
    /// rows of the segment can still be counted.
    fn frame_written(&mut self) -> (r: bool)
        requires
            rows_placed(old(self)@),
            old(self).segment is Some,
            is_frame(
                old(self).outgoing@,
                old(self)@.rows.frame,
                old(self)@.rows.frame_rows,
            ),
        ensures
            r == rows_count(old(self)@.segment->0, old(self).outgoing@),
            r ==> final(self)@ == (WriterView {
                segment: Some(with_frame(old(self)@.segment->0, old(self).outgoing@)),
                rows: flushed(old(self)@.rows),
                ..old(self)@
            }),
            !r ==> final(self)@ == (WriterView {
                segment: Some(with_uncounted_frame(old(self)@.segment->0, old(self).outgoing@)),
                ..old(self)@
            }),
            rows_placed(final(self)@),
            final(self).outgoing@ == old(self).outgoing@,
    {
        let counted = match self.segment.take() {
            Some(segment) => {
                let mut segment = segment;
                let counted = segment.append(&self.outgoing).is_ok();
                self.segment = Some(segment);
                counted
            },
            None => false,
        };
        if counted {
            self.rows.flush();
        }
        counted
    }

    /// Completes the segment: gives the footer to write. Only called for when
    /// that was asked for.
    pub fn footer(&self) -> (r: Vec<u8>)
        requires
            self.segment is Some,
        ensures
            r@ == crate::clickhouse::spool::footer(
                self@.segment->0.rows,
                self@.segment->0.hashed,
            ),
    {
        match &self.segment {
            Some(segment) => segment.footer(),
            None => Vec::new(),
        }
    }

    /// Takes in what came of the last thing that was asked for, and says what
    /// is to be done next.
    pub fn step(&mut self, input: Input, clock: Clock) -> (r: Action)
        requires
            writer_fits(old(self)@, old(self).outgoing@),
            rows_have_room(old(self)@.rows),
            awaited(old(self)@.phase, input@),
        ensures
            (final(self)@, r) == next(old(self)@, old(self).outgoing@, input@, clock),
            r == Action::WriteFrame ==> is_frame(
                final(self).outgoing@,
                final(self)@.rows.frame,
                final(self)@.rows.frame_rows,
            ),
            writer_fits(final(self)@, final(self).outgoing@),
    {
        let ghost before = self@;
        let ghost asked = self.outgoing@;
        let action = self.respond(input, clock);
        proof {
            state_stays_in_order(before, asked, input@, clock, self.outgoing@);
        }
        action
    }

    fn respond(&mut self, input: Input, clock: Clock) -> (r: Action)
        requires
            writer_fits(old(self)@, old(self).outgoing@),
            rows_have_room(old(self)@.rows),
            awaited(old(self)@.phase, input@),
        ensures
            (final(self)@, r) == next(old(self)@, old(self).outgoing@, input@, clock),
            r == Action::WriteFrame ==> is_frame(
                final(self).outgoing@,
                final(self)@.rows.frame,
                final(self)@.rows.frame_rows,
            ),
    {
        match self.phase {
            Phase::Turn | Phase::Space | Phase::FullWrite | Phase::FullSeal | Phase::Receiving => {
                self.respond_before_event(input, clock)
            },
            Phase::Creating { .. } => self.respond_to_segment(input, clock),
            Phase::Writing { .. } => self.respond_to_frame(input, clock),
            _ => self.respond_after_frame(input, clock),
        }
    }

    fn respond_before_event(&mut self, input: Input, clock: Clock) -> (r: Action)
        requires
            writer_fits(old(self)@, old(self).outgoing@),
            rows_have_room(old(self)@.rows),
            awaited(old(self)@.phase, input@),
            old(self)@.phase == Phase::Turn || old(self)@.phase == Phase::Space || old(self)@.phase
                == Phase::FullWrite || old(self)@.phase == Phase::FullSeal || old(self)@.phase
                == Phase::Receiving,
        ensures
            (final(self)@, r) == next(old(self)@, old(self).outgoing@, input@, clock),
            r == Action::WriteFrame ==> is_frame(
                final(self).outgoing@,
                final(self)@.rows.frame,
                final(self)@.rows.frame_rows,
            ),
    {
        match (self.phase, input) {
            (Phase::Turn, _) => self.turn(clock),
            (Phase::Space, Input::Space { usage, available, total }) => {
                self.full = space_short(self.limits, usage, available, total);
                self.checked = Some(clock.now);
                self.with_space(clock)
            },
            (Phase::FullWrite, Input::Written) => {
                if self.frame_written() {
                    self.full_seal()
                } else {
                    self.phase = Phase::Turn;
                    Action::Pause
                }
            },
            (Phase::FullWrite, _) => {
                self.phase = Phase::Turn;
                Action::Pause
            },
            (Phase::FullSeal, _) => {
                self.segment = None;
                self.rows.leave_segment();
                self.phase = Phase::Turn;
                Action::Pause
            },
            (Phase::Receiving, Input::Received(event)) => self.chosen(event, clock),
            _ => Action::Fail,
        }
    }

    fn respond_to_segment(&mut self, input: Input, clock: Clock) -> (r: Action)
        requires
            writer_fits(old(self)@, old(self).outgoing@),
            rows_have_room(old(self)@.rows),
            awaited(old(self)@.phase, input@),
            old(self)@.phase is Creating,
        ensures
            (final(self)@, r) == next(old(self)@, old(self).outgoing@, input@, clock),
            r == Action::WriteFrame ==> is_frame(
                final(self).outgoing@,
                final(self)@.rows.frame,
                final(self)@.rows.frame_rows,
            ),
    {
        match (self.phase, input) {
            (Phase::Creating { done }, Input::Created(id)) => {
                let (segment, _) = Segment::create(id);
                self.segment = Some(segment);
                self.started = clock.now;
                match self.pending.take() {
                    Some(event) => self.record_event(event, done, clock),
                    None => Action::Fail,
                }
            },
            _ => {
                self.errors = self.errors.wrapping_add(1);
                self.phase = Phase::Turn;
                Action::Pause
            },
        }
    }

    fn respond_to_frame(&mut self, input: Input, clock: Clock) -> (r: Action)
        requires
            writer_fits(old(self)@, old(self).outgoing@),
            rows_have_room(old(self)@.rows),
            awaited(old(self)@.phase, input@),
            old(self)@.phase is Writing,
        ensures
            (final(self)@, r) == next(old(self)@, old(self).outgoing@, input@, clock),
            r == Action::WriteFrame ==> is_frame(
                final(self).outgoing@,
                final(self)@.rows.frame,
                final(self)@.rows.frame_rows,
            ),
    {
        match (self.phase, input) {
            (Phase::Writing { seal, done }, Input::Written) => {
                if self.frame_written() {
                    self.checked = None;
                    if elapsed_ms(clock.now, self.synced) >= INTERVAL_MS || seal {
                        self.phase = Phase::Syncing { seal, done };
                        Action::SyncSegment
                    } else {
                        self.refreshed(seal, done, clock)
                    }
                } else {
                    self.write_failed(clock)
                }
            },
            _ => self.write_failed(clock),
        }
    }

    fn respond_after_frame(&mut self, input: Input, clock: Clock) -> (r: Action)
        requires
            writer_fits(old(self)@, old(self).outgoing@),
            rows_have_room(old(self)@.rows),
            awaited(old(self)@.phase, input@),
            old(self)@.phase is Syncing || old(self)@.phase is Refreshing || old(self)@.phase is Sealing
                || old(self)@.phase is Reporting || old(self)@.phase == Phase::Over,
        ensures
            (final(self)@, r) == next(old(self)@, old(self).outgoing@, input@, clock),
            r == Action::WriteFrame ==> is_frame(
                final(self).outgoing@,
                final(self)@.rows.frame,
                final(self)@.rows.frame_rows,
            ),
    {
        match self.phase {
            Phase::Syncing { seal, done } => {
                self.synced = clock.now;
                self.refreshed(seal, done, clock)
            },
            Phase::Refreshing { seal, done } => {
                self.synced = clock.now;
                self.turn_ended(seal, done)
            },
            Phase::Sealing { done } => {
                self.segment = None;
                self.rows.leave_segment();
                self.phase = Phase::Reporting { done };
                Action::ReportUsage
            },
            Phase::Reporting { done } => self.over_or_again(done),
            _ => Action::Fail,
        }
    }
}

/// Whether there is too little disk space.
fn space_short(limits: Limits, usage: u64, available: u64, total: u64) -> (r: bool)
    requires
        limits.reserve_bytes <= u64::MAX - HEADROOM,
    ensures
        r == space_is_short(limits, usage, available, total),
{
    let share: u64 = total / 20;
    let reserve: u64 = if limits.reserve_bytes > share {
        limits.reserve_bytes
    } else {
        share
    };
    usage.saturating_add(HEADROOM) > limits.spool_bytes || available < reserve + HEADROOM
}

/// Whether the frame in the state is the one to be written, where that is
/// asked for.
pub open spec fn frame_ready(step: (WriterView, Action), outgoing: Seq<u8>) -> bool {
    step.1 == Action::WriteFrame ==> is_frame(
        outgoing,
        step.0.rows.frame,
        step.0.rows.frame_rows,
    )
}

proof fn written_on_stays(w: WriterView, done: bool, clock: Clock, after: Seq<u8>)
    requires
        rows_placed(w),
        done ==> w.pending is None,
        frame_ready(written_on(w, done, clock), after),
    ensures
        writer_fits(written_on(w, done, clock).0, after),
{
}

proof fn record_event_stays(
    w: WriterView,
    e: EventView,
    done: bool,
    clock: Clock,
    after: Seq<u8>,
)
    requires
        rows_placed(w),
        w.pending is None,
        frame_ready(record_event(w, e, done, clock), after),
    ensures
        writer_fits(record_event(w, e, done, clock).0, after),
{
    if w.segment is Some {
        recording_keeps_order(w.rows, e, w.epoch, w.limits.retention_hours);
        written_on_stays(
            WriterView { rows: recorded(w.rows, e, w.epoch, w.limits.retention_hours), ..w },
            done,
            clock,
            after,
        );
    }
}

proof fn chosen_stays(w: WriterView, current: Option<EventView>, clock: Clock, after: Seq<u8>)
    requires
        rows_placed(w),
        frame_ready(chosen(w, current, clock), after),
    ensures
        writer_fits(chosen(w, current, clock).0, after),
{
    let done = current is None && w.pending is None && clock.stop;
    if w.pending is Some {
        record_event_stays(
            WriterView { pending: None, ..w },
            w.pending->0,
            done,
            clock,
            after,
        );
    } else if w.first {
        record_event_stays(
            WriterView { first: false, ..w },
            start_event(w, clock.wall_ms),
            done,
            clock,
            after,
        );
    } else if current is Some {
        record_event_stays(w, current->0, done, clock, after);
    } else if done && !w.ended {
        record_event_stays(
            WriterView { ended: true, ..w },
            end_event(w, clock.wall_ms),
            done,
            clock,
            after,
        );
    } else {
        written_on_stays(w, done, clock, after);
    }
}

proof fn with_space_stays(w: WriterView, clock: Clock, after: Seq<u8>)
    requires
        rows_placed(w),
        frame_ready(with_space(w, clock), after),
    ensures
        writer_fits(with_space(w, clock).0, after),
{
    if !w.full && !(w.pending is None && !w.first && !w.ended) {
        chosen_stays(w, None, clock, after);
    }
}

proof fn frame_counts(w: WriterView, outgoing: Seq<u8>)
    requires
        rows_placed(w),
        w.segment is Some,
        is_frame(outgoing, w.rows.frame, w.rows.frame_rows),
    ensures
        with_frame(w.segment->0, outgoing).raw_bytes <= with_frame(w.segment->0, outgoing).rows
            * MAX_FRAME,
{
    let rows = w.segment->0.rows;
    let more = row_count(outgoing);
    assert(rows * MAX_FRAME + MAX_FRAME <= (rows + more) * MAX_FRAME) by (nonlinear_arith)
        requires
            more >= 1,
    ;
}

/// Whatever happens, the state of the writer stays in order.
pub proof fn state_stays_in_order(
    w: WriterView,
    outgoing: Seq<u8>,
    input: InputView,
    clock: Clock,
    after: Seq<u8>,
)
    requires
        writer_fits(w, outgoing),
        awaited(w.phase, input),
        frame_ready(next(w, outgoing, input, clock), after),
    ensures
        writer_fits(next(w, outgoing, input, clock).0, after),
{
    match (w.phase, input) {
        (Phase::Turn, _) => {
            let v = begun(w, clock);
            if v.checked is Some && elapsed(clock.now, v.checked->0) < INTERVAL_MS && !(v.shutdown
                is Some && elapsed(clock.now, v.shutdown->0) / 1000 >= v.limits.shutdown_seconds) {
                with_space_stays(v, clock, after);
            }
        },
        (Phase::Space, InputView::Space { usage, available, total }) => {
            with_space_stays(
                WriterView {
                    full: space_is_short(w.limits, usage, available, total),
                    checked: Some(clock.now as int),
                    ..w
                },
                clock,
                after,
            );
        },
        (Phase::FullWrite, InputView::Written) => {
            frame_counts(w, outgoing);
        },
        (Phase::Writing { .. }, InputView::Written) => {
            frame_counts(w, outgoing);
        },
        (Phase::Receiving, InputView::Received(event)) => {
            chosen_stays(w, event, clock, after);
        },
        (Phase::Creating { done }, InputView::Created(id)) => {
            record_event_stays(
                WriterView {
                    segment: Some(new_segment(id)),
                    started: clock.now as int,
                    pending: None,
                    ..w
                },
                w.pending->0,
                done,
                clock,
                after,
            );
        },
        _ => {},
    }
}

/// The event that the writer holds or is given.
pub open spec fn taken_in(w: WriterView, input: InputView) -> Option<EventView> {
    match input {
        InputView::Received(Some(event)) => Some(event),
        _ => w.pending,
    }
}

/// No event is lost: one that the writer holds or is given is either held back
/// or goes into the frame, behind what is there and with the next sequence
/// number.
pub proof fn no_event_is_lost(
    w: WriterView,
    outgoing: Seq<u8>,
    input: InputView,
    clock: Clock,
)
    requires
        writer_fits(w, outgoing),
        awaited(w.phase, input),
        taken_in(w, input) is Some,
    ensures
        ({
            let after = next(w, outgoing, input, clock).0;
            let e = taken_in(w, input)->0;
            ||| after.pending == Some(e)
            ||| after.rows == recorded(w.rows, e, w.epoch, w.limits.retention_hours)
        }),
{
}

/// What goes to disk is what is in memory: a frame is forgotten only when it
/// has been written.
pub proof fn frames_are_kept_until_written(
    w: WriterView,
    outgoing: Seq<u8>,
    input: InputView,
    clock: Clock,
)
    requires
        writer_fits(w, outgoing),
        awaited(w.phase, input),
        input != InputView::Written,
    ensures
        w.rows.frame.is_prefix_of(next(w, outgoing, input, clock).0.rows.frame),
{
    let after = next(w, outgoing, input, clock).0.rows.frame;
    assert(w.rows.frame =~= after.take(w.rows.frame.len() as int));
}

/// A segment is completed only when no row of it is left in memory.
pub proof fn segments_are_complete_when_sealed(
    w: WriterView,
    outgoing: Seq<u8>,
    input: InputView,
    clock: Clock,
)
    requires
        writer_fits(w, outgoing),
        awaited(w.phase, input),
        next(w, outgoing, input, clock).1 == Action::SealSegment,
    ensures
        next(w, outgoing, input, clock).0.segment is Some,
        next(w, outgoing, input, clock).0.rows.frame.len() == 0,
{
    state_stays_in_order(w, outgoing, input, clock, outgoing);
}

/// The writer finishes only once it was told to, the end of the history is
/// recorded, and nothing is left in memory.
pub proof fn finishing_leaves_nothing_behind(
    w: WriterView,
    outgoing: Seq<u8>,
    input: InputView,
    clock: Clock,
)
    requires
        writer_fits(w, outgoing),
        awaited(w.phase, input),
        next(w, outgoing, input, clock).1 == Action::Finish,
    ensures
        next(w, outgoing, input, clock).0.ended,
        next(w, outgoing, input, clock).0.phase == Phase::Over,
        next(w, outgoing, input, clock).0.segment is None,
        next(w, outgoing, input, clock).0.rows.frame.len() == 0,
        next(w, outgoing, input, clock).0.pending is None,
{
}

/// While space is short no event is taken in.
pub proof fn no_event_is_asked_for_without_space(w: WriterView, clock: Clock)
    requires
        w.full,
    ensures
        with_space(w, clock).1 != Action::Receive,
        with_space(w, clock).0.rows.seq == w.rows.seq,
        !with_space(w, clock).0.healthy,
{
}

/// Once the writer has been told to come to an end for so long, it gives up.
pub proof fn shutdown_is_bounded(w: WriterView, clock: Clock)
    requires
        w.shutdown is Some,
        elapsed(clock.now, w.shutdown->0) >= w.limits.shutdown_seconds * 1000,
    ensures
        turn(w, clock).1 == Action::Fail,
{
}

/// The writer goes by the limits of its configuration, each by its name.
pub proof fn limits_are_the_configured_ones(config: Config)
    ensures
        limits_of(config).spool_bytes == config.spool_bytes,
        limits_of(config).reserve_bytes == config.reserve_bytes,
        limits_of(config).batch_rows == config.batch_rows,
        limits_of(config).batch_bytes == config.batch_bytes,
        limits_of(config).flush_seconds == config.flush_seconds,
        limits_of(config).retention_hours == config.retention_hours,
        limits_of(config).shutdown_seconds == config.shutdown_seconds,
{
}

/// Space is short exactly if the spool with a headroom of 8 MiB would outgrow its
/// limit, or if what is free would not leave the headroom beside the reserve, or
/// beside a twentieth of the disk.
pub proof fn space_is_short_without_headroom(
    limits: Limits,
    usage: u64,
    available: u64,
    total: u64,
)
    requires
        usage + 8 * 1024 * 1024 <= u64::MAX,
    ensures
        space_is_short(limits, usage, available, total) <==> {
            ||| usage + 8 * 1024 * 1024 > limits.spool_bytes
            ||| available < limits.reserve_bytes + 8 * 1024 * 1024
            ||| available < total / 20 + 8 * 1024 * 1024
        },
{
}

/// More free space and less use never make space short.
pub proof fn more_space_is_not_short(
    limits: Limits,
    usage: u64,
    available: u64,
    total: u64,
    less: u64,
    more: u64,
)
    requires
        less <= usage,
        more >= available,
        !space_is_short(limits, usage, available, total),
    ensures
        !space_is_short(limits, less, more, total),
{
}

/// The start and the end of the history have kinds of their own and are of no
/// peer; the start tells the collector.
pub proof fn histories_start_and_end(w: WriterView, wall_ms: i64)
    ensures
        start_event(w, wall_ms).kind == 7,
        end_event(w, wall_ms).kind == 8,
        start_event(w, wall_ms).stream == w.stream && end_event(w, wall_ms).stream == w.stream,
        start_event(w, wall_ms).epoch == w.epoch && end_event(w, wall_ms).epoch == w.epoch,
        start_event(w, wall_ms).received_ms == wall_ms,
        end_event(w, wall_ms).received_ms == wall_ms,
        start_event(w, wall_ms).class == 0 && end_event(w, wall_ms).class == 0,
        start_event(w, wall_ms).ingress == 0 && end_event(w, wall_ms).ingress == 0,
        !has_peer(start_event(w, wall_ms)) && !has_peer(end_event(w, wall_ms)),
        end_event(w, wall_ms).identity.len() == 0,
        start_event(w, wall_ms).identity == "{\"collector\":"@ + json_text(w.collector)
            + ",\"coverage\":\"live observations; no initial snapshot\"}"@,
{
}

/// A segment is completed in the end, and once it has the rows or the octets of
/// a batch or is as old as it may be; and not before.
pub proof fn segments_are_completed_in_time(w: WriterView, done: bool, clock: Clock)
    requires
        w.segment is Some,
        w.started <= clock.now,
    ensures
        to_be_sealed(w, done, clock) <==> {
            ||| done
            ||| w.segment->0.rows + w.rows.frame_rows >= w.limits.batch_rows
            ||| w.segment->0.raw_bytes + w.rows.frame.len() >= w.limits.batch_bytes
            ||| clock.now - w.started >= w.limits.flush_seconds * 1000
        },
{
}

/// A frame that was written adds its rows and its octets to those of the
/// segment, and its header to what the segment is sealed with.
pub proof fn written_frames_are_counted(
    segment: OpenSegment,
    frame: Seq<u8>,
    data: Seq<u8>,
    rows: int,
)
    requires
        is_frame(frame, data, rows),
    ensures
        with_frame(segment, frame).rows == segment.rows + rows,
        with_frame(segment, frame).raw_bytes == segment.raw_bytes + data.len(),
        with_frame(segment, frame).hashed == segment.hashed + frame.take(44),
{
}

/// A frame that could not be written stays in memory, is counted as an error,
/// and stops the intake until the space was looked at again.
pub proof fn failed_writes_keep_the_frame(w: WriterView, clock: Clock)
    requires
        0 <= w.errors < u64::MAX,
    ensures
        ({
            let after = write_failed(w, clock).0;
            &&& after.rows == w.rows
            &&& after.segment == w.segment
            &&& after.pending == w.pending
            &&& after.errors == w.errors + 1
            &&& after.full
            &&& after.checked == Some(clock.now as int)
            &&& write_failed(w, clock).1 == Action::Again
        }),
{
}

/// A frame is written once it is large, has waited for half a second or is the
/// last of its segment, and not before; and then everything that is on disk is
/// made safe if that was not done for as long.
pub proof fn frames_are_written_in_time(w: WriterView, done: bool, clock: Clock)
    requires
        0 < w.rows.frame.len() <= MAX_FRAME,
        w.synced <= clock.now,
    ensures
        written_on(w, done, clock).1 == Action::WriteFrame <==> {
            ||| w.rows.frame.len() >= 1024 * 1024
            ||| clock.now - w.synced >= 500
            ||| to_be_sealed(w, done, clock)
        },
{
}

/// A writer starts with the start of the history, with nothing in memory and
/// without an error.
pub proof fn writers_start_afresh(
    limits: Limits,
    stream: Seq<u8>,
    epoch: Seq<u8>,
    collector: Seq<char>,
    now: u64,
)
    ensures
        ({
            let w = new_writer(limits, stream, epoch, collector, now);
            &&& w.limits == limits && w.stream == stream && w.epoch == epoch && w.collector
                == collector
            &&& w.first && !w.ended && !w.full && w.healthy
            &&& w.errors == 0 && w.segment is None && w.pending is None
            &&& w.rows.frame.len() == 0 && w.rows.seq == 0
            &&& w.shutdown is None
            &&& w.started == now && w.synced == now
        }),
{
}

} // verus!
