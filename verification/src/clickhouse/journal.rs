//! What the writer has put on disk in the course of a run: every event that it
//! was given, in order.

use crate::clickhouse::event::EventView;
use crate::clickhouse::record::{
    event_row, flushed, has_peer, identity_key, identity_row, needs_identity, recorded,
    segment_left,
};
use crate::clickhouse::seen::IdentityKey;
use crate::clickhouse::spool::{
    footer, frames_data, frames_fit, frames_headers, frames_pushed, frames_rows, is_frame,
    open_segment, scan_gives_back_what_was_written, scanned, sealed_segment, segment_header,
    Written,
};
use crate::clickhouse::writer::{
    awaited, begun, chosen, end_event, finishing_leaves_nothing_behind, frame_ready, new_segment, new_writer, next, record_event,
    rows_count, space_is_short, start_event, state_stays_in_order, with_frame, with_space,
    writer_fits, written_on, Action, Clock, InputView, Limits, Phase, WriterView, HEADROOM,
};
use vstd::prelude::*;

verus! {

/// A row: that of an event, or the one for the identity of its peer.
pub ghost struct Entry {
    pub event: EventView,
    pub identity: bool,
}

/// A row with its number.
pub open spec fn entry_row(entry: Entry, seq: int, epoch: Seq<u8>, retention: u32) -> EventView {
    if entry.identity {
        identity_row(entry.event, epoch, seq as u64, retention)
    } else {
        event_row(entry.event, seq as u64, retention)
    }
}

/// Rows, numbered one by one from `first` on.
pub open spec fn entries_octets(
    entries: Seq<Entry>,
    first: int,
    epoch: Seq<u8>,
    retention: u32,
) -> Seq<u8>
    decreases entries.len(),
{
    if entries.len() == 0 {
        seq![]
    } else {
        entries_octets(entries.drop_last(), first, epoch, retention) + entry_row(
            entries.last(),
            first + entries.len() - 1,
            epoch,
            retention,
        ).row()
    }
}

/// The rows that an event makes.
pub open spec fn entries_for(event: EventView, with_identity: bool) -> Seq<Entry> {
    if with_identity {
        seq![Entry { event, identity: true }, Entry { event, identity: false }]
    } else {
        seq![Entry { event, identity: false }]
    }
}

/// The events among some rows.
pub open spec fn events_in(entries: Seq<Entry>) -> Seq<EventView>
    decreases entries.len(),
{
    if entries.len() == 0 {
        seq![]
    } else if entries.last().identity {
        events_in(entries.drop_last())
    } else {
        events_in(entries.drop_last()).push(entries.last().event)
    }
}

/// Whether the row for the identity of some key is among rows.
pub open spec fn has_identity(entries: Seq<Entry>, key: IdentityKey) -> bool {
    exists|m: int|
        0 <= m < entries.len() && (#[trigger] entries[m]).identity && identity_key(
            entries[m].event,
        ) == key
}

/// Whether every event of a peer comes behind a row for its identity.
pub open spec fn introduced(entries: Seq<Entry>) -> bool {
    forall|k: int|
        0 <= k < entries.len() && !(#[trigger] entries[k]).identity && has_peer(entries[k].event)
            ==> has_identity(entries.take(k), identity_key(entries[k].event))
}

/// The event that the writer records or holds back, where it does.
pub open spec fn event_of(w: WriterView, input: InputView, clock: Clock) -> EventView {
    if w.pending is Some {
        w.pending->0
    } else if w.first {
        start_event(w, clock.wall_ms)
    } else {
        match input {
            InputView::Received(Some(event)) => event,
            _ => end_event(w, clock.wall_ms),
        }
    }
}

/// Whether two states hold the same of the history.
pub open spec fn same_history(a: WriterView, b: WriterView) -> bool {
    &&& a.rows == b.rows
    &&& a.segment == b.segment
    &&& same_setting(a, b)
    &&& a.first == b.first
    &&& a.ended == b.ended
    &&& a.pending == b.pending
}

/// Whether two states are of one writer.
pub open spec fn same_setting(a: WriterView, b: WriterView) -> bool {
    &&& a.limits == b.limits
    &&& a.stream == b.stream
    &&& a.epoch == b.epoch
    &&& a.collector == b.collector
}

/// Whether an event is recorded between two states.
pub open spec fn records(w: WriterView, after: WriterView, e: EventView) -> bool {
    &&& after.rows == recorded(w.rows, e, w.epoch, w.limits.retention_hours)
    &&& after.pending is None
    &&& after.segment is Some
}

/// Whether an event is held back between two states.
pub open spec fn holds_back(w: WriterView, after: WriterView, e: EventView) -> bool {
    &&& after.rows == w.rows
    &&& after.pending == Some(e)
    &&& after.segment is None
    &&& w.segment is None
}

proof fn writing_keeps(w: WriterView, done: bool, clock: Clock)
    ensures
        same_history(written_on(w, done, clock).0, w),
{
}

proof fn recording_records(w: WriterView, e: EventView, done: bool, clock: Clock)
    requires
        w.pending is None,
    ensures
        ({
            let after = record_event(w, e, done, clock).0;
            &&& same_setting(after, w)
            &&& after.first == w.first
            &&& after.ended == w.ended
            &&& w.segment is Some ==> records(w, after, e) && after.segment == w.segment
            &&& w.segment is None ==> holds_back(w, after, e)
        }),
{
    if w.segment is Some {
        writing_keeps(
            WriterView { rows: recorded(w.rows, e, w.epoch, w.limits.retention_hours), ..w },
            done,
            clock,
        );
    }
}

/// What choosing an event does to the history: it is left as it is, or the
/// event is recorded or held back.
pub open spec fn chosen_history(
    w: WriterView,
    after: WriterView,
    current: Option<EventView>,
    clock: Clock,
) -> bool {
    let e = if w.pending is Some {
        w.pending->0
    } else if w.first {
        start_event(w, clock.wall_ms)
    } else {
        match current {
            Some(event) => event,
            None => end_event(w, clock.wall_ms),
        }
    };
    &&& same_setting(after, w)
    &&& same_history(after, w) || ((records(w, after, e) && after.segment == w.segment
        || holds_back(w, after, e)) && after.first == (w.first && w.pending is Some) && after.ended
        == (w.ended || (w.pending is None && !w.first && current is None)))
    &&& current is Some && w.pending is None && !w.first ==> records(w, after, e) || holds_back(
        w,
        after,
        e,
    )
    &&& w.pending is None && !w.first && current is None && w.ended ==> same_history(after, w)
}

proof fn choosing_records(w: WriterView, current: Option<EventView>, clock: Clock)
    requires
        w.first ==> current is None && w.pending is None,
    ensures
        chosen_history(w, chosen(w, current, clock).0, current, clock),
{
    let done = current is None && w.pending is None && clock.stop;
    if w.pending is Some {
        recording_records(WriterView { pending: None, ..w }, w.pending->0, done, clock);
    } else if w.first {
        recording_records(
            WriterView { first: false, ..w },
            start_event(w, clock.wall_ms),
            done,
            clock,
        );
    } else if current is Some {
        recording_records(w, current->0, done, clock);
    } else if done && !w.ended {
        recording_records(
            WriterView { ended: true, ..w },
            end_event(w, clock.wall_ms),
            done,
            clock,
        );
    } else {
        writing_keeps(w, done, clock);
    }
}

/// The event that came in, if one did.
pub open spec fn came_in(input: InputView) -> Option<EventView> {
    match input {
        InputView::Received(event) => event,
        _ => None,
    }
}

/// Whether a frame was written.
pub open spec fn writes(phase: Phase, input: InputView) -> bool {
    (phase == Phase::FullWrite || phase is Writing) && input == InputView::Written
}

/// Whether a segment was completed.
pub open spec fn seals(phase: Phase, input: InputView) -> bool {
    (phase == Phase::FullSeal || phase is Sealing) && input == InputView::Sealed
}

/// Whether a segment was begun.
pub open spec fn creates(phase: Phase, input: InputView) -> bool {
    phase is Creating && input is Created
}

/// What a step does to the history.
pub open spec fn step_history(
    w: WriterView,
    after: WriterView,
    outgoing: Seq<u8>,
    input: InputView,
    clock: Clock,
) -> bool {
    let kept = after.pending == w.pending && after.first == w.first && after.ended == w.ended;
    &&& same_setting(after, w)
    &&& if writes(w.phase, input) {
        &&& after.rows == flushed(w.rows)
        &&& after.segment == Some(with_frame(w.segment->0, outgoing))
        &&& kept
    } else if seals(w.phase, input) {
        &&& after.rows == segment_left(w.rows)
        &&& after.segment is None
        &&& kept
    } else if creates(w.phase, input) {
        &&& records(w, after, w.pending->0)
        &&& after.segment == Some(new_segment(input->Created_0))
        &&& after.first == w.first
        &&& after.ended == w.ended
    } else {
        chosen_history(w, after, came_in(input), clock)
    }
}

proof fn having_space_records(w: WriterView, clock: Clock)
    requires
        w.first ==> w.pending is None,
    ensures
        chosen_history(w, with_space(w, clock).0, None, clock),
{
    if !w.full && !(w.pending is None && !w.first && !w.ended) {
        choosing_records(w, None, clock);
    }
}

proof fn stepping_records(w: WriterView, outgoing: Seq<u8>, input: InputView, clock: Clock)
    requires
        writer_fits(w, outgoing),
        awaited(w.phase, input),
        w.first ==> w.pending is None,
        writes(w.phase, input) ==> rows_count(w.segment->0, outgoing),
    ensures
        step_history(w, next(w, outgoing, input, clock).0, outgoing, input, clock),
{
    match (w.phase, input) {
        (Phase::Turn, _) => {
            having_space_records(begun(w, clock), clock);
        },
        (Phase::Space, InputView::Space { usage, available, total }) => {
            having_space_records(
                WriterView {
                    full: space_is_short(w.limits, usage, available, total),
                    checked: Some(clock.now as int),
                    ..w
                },
                clock,
            );
        },
        (Phase::Receiving, InputView::Received(event)) => {
            choosing_records(w, event, clock);
        },
        (Phase::Creating { done }, InputView::Created(id)) => {
            recording_records(
                WriterView {
                    segment: Some(new_segment(id)),
                    started: clock.now as int,
                    pending: None,
                    ..w
                },
                w.pending->0,
                done,
                clock,
            );
        },
        _ => {},
    }
}

/// Octets one behind the other.
pub open spec fn flat(list: Seq<Seq<u8>>) -> Seq<u8>
    decreases list.len(),
{
    if list.len() == 0 {
        seq![]
    } else {
        flat(list.drop_last()) + list.last()
    }
}

/// How many rows there are in some segments.
pub open spec fn count(sealed: Seq<Seq<Entry>>) -> int
    decreases sealed.len(),
{
    if sealed.len() == 0 {
        0
    } else {
        count(sealed.drop_last()) + sealed.last().len()
    }
}

/// The events in some segments.
pub open spec fn all_events(sealed: Seq<Seq<Entry>>) -> Seq<EventView>
    decreases sealed.len(),
{
    if sealed.len() == 0 {
        seq![]
    } else {
        all_events(sealed.drop_last()) + events_in(sealed.last())
    }
}

/// What became of the history in the course of a run.
pub ghost struct Journal {
    /// The rows of each complete segment.
    pub sealed: Seq<Seq<Entry>>,
    /// What is in the file of each complete segment.
    pub files: Seq<Seq<u8>>,
    /// The rows for the segment that is being written, on disk and in memory.
    pub open: Seq<Entry>,
    /// The token of the segment that is being written.
    pub id: Seq<u8>,
    /// The frames of the segment that is being written.
    pub frames: Seq<Written>,
    /// The start of the history, the events that came in, and the end of the
    /// history.
    pub start: Seq<EventView>,
    pub received: Seq<EventView>,
    pub end: Seq<EventView>,
}

/// The journal when nothing has happened yet.
pub open spec fn blank_journal() -> Journal {
    Journal {
        sealed: seq![],
        files: seq![],
        open: seq![],
        id: seq![],
        frames: seq![],
        start: seq![],
        received: seq![],
        end: seq![],
    }
}

/// The writer in the course of a run.
pub ghost struct State {
    pub w: WriterView,
    pub outgoing: Seq<u8>,
    pub journal: Journal,
}

/// What happens next: what came of what the writer asked for, when, and the
/// frame that the writer then has ready.
pub ghost struct Step {
    pub input: InputView,
    pub clock: Clock,
    pub outgoing: Seq<u8>,
}

/// The journal with the rows for an event, if it was recorded.
pub open spec fn with_entries(j: Journal, w: WriterView, after: WriterView, e: EventView) -> Journal {
    if after.rows.seq != w.rows.seq {
        Journal { open: j.open + entries_for(e, needs_identity(w.rows, e)), ..j }
    } else {
        j
    }
}

/// The journal with what came of what the writer asked for: a frame stands
/// behind the others of its segment once it was written, and the file of a
/// segment is complete once the footer was written behind the frames.
pub open spec fn with_disk(j: Journal, w: WriterView, outgoing: Seq<u8>, input: InputView) -> Journal {
    if writes(w.phase, input) {
        Journal {
            frames: j.frames.push(
                Written { frame: outgoing, data: w.rows.frame, rows: w.rows.frame_rows },
            ),
            ..j
        }
    } else if seals(w.phase, input) {
        Journal {
            sealed: j.sealed.push(j.open),
            files: j.files.push(
                open_segment(j.id, j.frames) + footer(w.segment->0.rows, w.segment->0.hashed),
            ),
            open: seq![],
            frames: seq![],
            ..j
        }
    } else if creates(w.phase, input) {
        Journal { id: input->Created_0, ..j }
    } else {
        j
    }
}

/// The journal with the event that the writer was given or came up with.
pub open spec fn with_event(
    j: Journal,
    w: WriterView,
    after: WriterView,
    input: InputView,
    e: EventView,
) -> Journal {
    let new = w.pending is None && (after.rows.seq != w.rows.seq || after.pending is Some);
    match came_in(input) {
        Some(event) => Journal { received: j.received.push(event), ..j },
        None => if !new {
            j
        } else if w.first {
            Journal { start: j.start.push(e), ..j }
        } else {
            Journal { end: j.end.push(e), ..j }
        },
    }
}

/// The journal after a step.
pub open spec fn noted(s: State, step: Step) -> Journal {
    let after = next(s.w, s.outgoing, step.input, step.clock).0;
    let e = event_of(s.w, step.input, step.clock);
    with_event(
        with_entries(with_disk(s.journal, s.w, s.outgoing, step.input), s.w, after, e),
        s.w,
        after,
        step.input,
        e,
    )
}

/// The state after a step.
#[verifier::opaque]
pub open spec fn advanced(s: State, step: Step) -> State {
    State {
        w: next(s.w, s.outgoing, step.input, step.clock).0,
        outgoing: step.outgoing,
        journal: noted(s, step),
    }
}

/// Whether a step can come next. No segment has more rows than can be counted.
#[verifier::opaque]
pub open spec fn may_follow(s: State, step: Step) -> bool {
    &&& awaited(s.w.phase, step.input)
    &&& frame_ready(next(s.w, s.outgoing, step.input, step.clock), step.outgoing)
    &&& writes(s.w.phase, step.input) ==> rows_count(s.w.segment->0, s.outgoing)
    &&& step.input is Created ==> step.input->Created_0.len() == 16
}

/// Whether a file reads without error and holds some octets.
pub open spec fn file_holds(file: Seq<u8>, octets: Seq<u8>) -> bool {
    scanned(file, false) matches Ok((end, sealed)) && sealed && flat(end.frames) == octets
}

/// Whether the segment that is being written is what the journal says.
pub open spec fn segment_fits(w: WriterView, j: Journal) -> bool {
    &&& match w.segment {
        Some(segment) => {
            &&& segment.hashed == segment_header(j.id) + frames_headers(j.frames)
            &&& segment.rows == frames_rows(j.frames)
            &&& frames_fit(j.frames)
            &&& j.id.len() == 16
        },
        None => j.open.len() == 0 && j.frames.len() == 0,
    }
    &&& flat(frames_data(j.frames)) + w.rows.frame == entries_octets(
        j.open,
        count(j.sealed),
        w.epoch,
        w.limits.retention_hours,
    )
    &&& w.rows.seq == count(j.sealed) + j.open.len()
    &&& introduced(j.open)
    &&& forall|key: IdentityKey| #[trigger]
        w.rows.introduced.contains(key) ==> has_identity(j.open, key)
}

/// Whether the complete segments are on disk, row by row and numbered without
/// a gap, and in each every event of a peer comes behind a row for its
/// identity.
pub open spec fn sealed_fit(w: WriterView, j: Journal) -> bool {
    &&& j.files.len() == j.sealed.len()
    &&& forall|i: int|
        0 <= i < j.sealed.len() ==> introduced(#[trigger] j.sealed[i]) && file_holds(
            j.files[i],
            entries_octets(
                j.sealed[i],
                count(j.sealed.take(i)),
                w.epoch,
                w.limits.retention_hours,
            ),
        )
}

/// An event that is held back, if there is one.
pub open spec fn held_back(w: WriterView) -> Seq<EventView> {
    match w.pending {
        Some(event) => seq![event],
        None => seq![],
    }
}

/// Whether all events that there were are recorded, in order, or held back.
pub open spec fn events_fit(w: WriterView, j: Journal) -> bool {
    &&& all_events(j.sealed) + events_in(j.open) + held_back(w) == j.start + j.received + j.end
    &&& w.first ==> w.pending is None && j.received.len() == 0 && !w.ended
    &&& j.start.len() == (if w.first {
        0int
    } else {
        1
    })
    &&& j.end.len() == (if w.ended {
        1int
    } else {
        0
    })
    &&& forall|i: int| 0 <= i < j.start.len() ==> (#[trigger] j.start[i]).kind == 7
    &&& forall|i: int| 0 <= i < j.end.len() ==> (#[trigger] j.end[i]).kind == 8
}

/// Whether a state is one that a run can come to.
pub open spec fn state_fits(s: State) -> bool {
    &&& writer_fits(s.w, s.outgoing)
    &&& segment_fits(s.w, s.journal)
    &&& sealed_fit(s.w, s.journal)
    &&& events_fit(s.w, s.journal)
}

proof fn identity_stays(entries: Seq<Entry>, more: Seq<Entry>, key: IdentityKey)
    requires
        has_identity(entries, key),
    ensures
        has_identity(entries + more, key),
{
    let m = choose|m: int|
        0 <= m < entries.len() && (#[trigger] entries[m]).identity && identity_key(
            entries[m].event,
        ) == key;
    assert((entries + more)[m] == entries[m]);
}

/// The rows of an event come behind the others, and the event behind a row for
/// the identity of its peer.
proof fn entries_come_behind(
    w: WriterView,
    open: Seq<Entry>,
    first: int,
    e: EventView,
)
    requires
        w.rows.seen.subset_of(w.rows.introduced),
        w.rows.seq == first + open.len(),
        introduced(open),
        forall|key: IdentityKey| #[trigger]
            w.rows.introduced.contains(key) ==> has_identity(open, key),
    ensures
        ({
            let retention = w.limits.retention_hours;
            let rows = recorded(w.rows, e, w.epoch, retention);
            let all = open + entries_for(e, needs_identity(w.rows, e));
            &&& rows.seq == first + all.len()
            &&& rows.frame.len() >= w.rows.frame.len()
            &&& entries_octets(all, first, w.epoch, retention) == entries_octets(
                open,
                first,
                w.epoch,
                retention,
            ) + rows.frame.skip(w.rows.frame.len() as int)
            &&& rows.frame.take(w.rows.frame.len() as int) == w.rows.frame
            &&& events_in(all) == events_in(open).push(e)
            &&& introduced(all)
            &&& forall|key: IdentityKey| #[trigger]
                rows.introduced.contains(key) ==> has_identity(all, key)
        }),
{
    let retention = w.limits.retention_hours;
    let rows = recorded(w.rows, e, w.epoch, retention);
    let fresh = needs_identity(w.rows, e);
    let all = open + entries_for(e, fresh);
    let key = identity_key(e);
    let before = all.drop_last();
    assert(all.last() == (Entry { event: e, identity: false }));
    if fresh {
        assert(before =~= open.push(Entry { event: e, identity: true }));
        assert(before.drop_last() =~= open);
        assert(before[open.len() as int].identity);
        assert(has_identity(before, key));
    } else {
        assert(before =~= open);
        if has_peer(e) {
            assert(w.rows.introduced.contains(key));
        }
    }
    assert(rows.frame.take(w.rows.frame.len() as int) =~= w.rows.frame);
    let old_octets = entries_octets(open, first, w.epoch, retention);
    let own = entry_row(all.last(), first + all.len() - 1, w.epoch, retention).row();
    assert(entries_octets(all, first, w.epoch, retention) == entries_octets(
        before,
        first,
        w.epoch,
        retention,
    ) + own);
    if fresh {
        let identity = entry_row(before.last(), w.rows.seq, w.epoch, retention).row();
        assert(entries_octets(before, first, w.epoch, retention) == old_octets + identity);
        assert(rows.frame.skip(w.rows.frame.len() as int) =~= identity + own);
        assert(old_octets + identity + own =~= old_octets + (identity + own));
        assert(events_in(before) == events_in(open));
    } else {
        assert(rows.frame.skip(w.rows.frame.len() as int) =~= own);
    }
    assert forall|k: int|
        0 <= k < all.len() && !(#[trigger] all[k]).identity && has_peer(
            all[k].event,
        ) implies has_identity(all.take(k), identity_key(all[k].event)) by {
        if k < open.len() {
            assert(all[k] == open[k]);
            assert(all.take(k) =~= open.take(k));
        } else {
            assert(k == all.len() - 1);
            assert(all.take(k) =~= before);
        }
    }
    assert forall|other: IdentityKey| #[trigger]
        rows.introduced.contains(other) implies has_identity(all, other) by {
        if w.rows.introduced.contains(other) {
            identity_stays(open, entries_for(e, fresh), other);
        } else {
            assert(other == key);
            assert(all =~= before + seq![all.last()]);
            identity_stays(before, seq![all.last()], key);
        }
    }
}

/// A frame that was written holds what was in memory.
proof fn written_frame_is_noted(w: WriterView, after: WriterView, outgoing: Seq<u8>, j: Journal)
    requires
        segment_fits(w, j),
        w.segment is Some,
        is_frame(outgoing, w.rows.frame, w.rows.frame_rows),
        rows_count(w.segment->0, outgoing),
        same_setting(after, w),
        after.rows == flushed(w.rows),
        after.segment == Some(with_frame(w.segment->0, outgoing)),
    ensures
        segment_fits(
            after,
            Journal {
                frames: j.frames.push(
                    Written { frame: outgoing, data: w.rows.frame, rows: w.rows.frame_rows },
                ),
                ..j
            },
        ),
{
    let written = Written { frame: outgoing, data: w.rows.frame, rows: w.rows.frame_rows };
    let frames = j.frames.push(written);
    frames_pushed(j.frames, written);
    assert(frames_data(frames) =~= frames_data(j.frames).push(written.data));
    assert(frames_data(frames).drop_last() =~= frames_data(j.frames));
    assert(flat(frames_data(frames)) + after.rows.frame =~= flat(frames_data(j.frames))
        + w.rows.frame);
    assert(after.segment->0.hashed =~= segment_header(j.id) + frames_headers(frames));
    assert forall|i: int| 0 <= i < frames.len() implies is_frame(
        (#[trigger] frames[i]).frame,
        frames[i].data,
        frames[i].rows,
    ) by {
        if i < j.frames.len() {
            assert(frames[i] == j.frames[i]);
        }
    }
}

/// A segment that was completed is on disk, row by row.
proof fn sealed_segment_is_noted(w: WriterView, after: WriterView, j: Journal)
    requires
        segment_fits(w, j),
        sealed_fit(w, j),
        w.segment is Some,
        w.rows.frame.len() == 0,
        same_setting(after, w),
        after.rows == segment_left(w.rows),
        after.segment is None,
    ensures
        ({
            let noted = Journal {
                sealed: j.sealed.push(j.open),
                files: j.files.push(
                    open_segment(j.id, j.frames) + footer(w.segment->0.rows, w.segment->0.hashed),
                ),
                open: seq![],
                frames: seq![],
                ..j
            };
            &&& segment_fits(after, noted)
            &&& sealed_fit(after, noted)
            &&& all_events(noted.sealed) + events_in(noted.open) == all_events(j.sealed)
                + events_in(j.open)
        }),
{
    let file = open_segment(j.id, j.frames) + footer(w.segment->0.rows, w.segment->0.hashed);
    let sealed = j.sealed.push(j.open);
    let files = j.files.push(file);
    assert(sealed.drop_last() =~= j.sealed);
    assert(file == sealed_segment(j.id, j.frames));
    scan_gives_back_what_was_written(j.id, j.frames, false);
    assert(flat(frames_data(j.frames)) =~= flat(frames_data(j.frames)) + w.rows.frame);
    assert(frames_data(Seq::<Written>::empty()) =~= seq![]);
    assert(flat(frames_data(Seq::<Written>::empty())) + after.rows.frame =~= seq![]);
    assert forall|i: int| 0 <= i < sealed.len() implies introduced(#[trigger] sealed[i])
        && file_holds(
        files[i],
        entries_octets(sealed[i], count(sealed.take(i)), w.epoch, w.limits.retention_hours),
    ) by {
        assert(sealed.take(i) =~= j.sealed.take(i));
        if i < j.sealed.len() {
            assert(sealed[i] == j.sealed[i]);
        } else {
            assert(j.sealed.take(i) =~= j.sealed);
        }
    }
    assert(all_events(sealed) + events_in(Seq::<Entry>::empty()) =~= all_events(j.sealed)
        + events_in(j.open));
}

/// An event that was recorded has its rows in memory, behind the others.
proof fn recorded_event_is_noted(w: WriterView, after: WriterView, j: Journal, e: EventView)
    requires
        segment_fits(w, j),
        w.rows.seen.subset_of(w.rows.introduced),
        records(w, after, e),
        same_setting(after, w),
        match w.segment {
            Some(segment) => after.segment == Some(segment),
            None => after.segment == Some(new_segment(j.id)) && j.id.len() == 16,
        },
    ensures
        ({
            let noted = Journal { open: j.open + entries_for(e, needs_identity(w.rows, e)), ..j };
            &&& segment_fits(after, noted)
            &&& all_events(noted.sealed) + events_in(noted.open) == (all_events(j.sealed)
                + events_in(j.open)).push(e)
            &&& after.rows.seq != w.rows.seq
        }),
{
    let open = j.open + entries_for(e, needs_identity(w.rows, e));
    entries_come_behind(w, j.open, count(j.sealed), e);
    let rows = after.rows;
    let n = w.rows.frame.len() as int;
    assert(rows.frame =~= w.rows.frame + rows.frame.skip(n));
    assert(flat(frames_data(j.frames)) + rows.frame =~= flat(frames_data(j.frames)) + w.rows.frame
        + rows.frame.skip(n));
    if w.segment is None {
        assert(frames_headers(j.frames) =~= seq![]);
        assert(segment_header(j.id) + frames_headers(j.frames) =~= segment_header(j.id));
    }
    assert(all_events(j.sealed) + events_in(j.open).push(e) =~= (all_events(j.sealed) + events_in(
        j.open,
    )).push(e));
}

/// An event that comes up is recorded behind the others or held back, and one
/// that was held back is recorded before any other.
proof fn event_is_noted(w: WriterView, after: WriterView, input: InputView, clock: Clock, j: Journal)
    requires
        segment_fits(w, j),
        events_fit(w, j),
        w.rows.seen.subset_of(w.rows.introduced),
        came_in(input) is Some ==> w.pending is None && !w.first && !w.ended,
        creates(w.phase, input) ==> w.pending is Some && w.segment is None && records(
            w,
            after,
            w.pending->0,
        ) && same_setting(after, w) && after.segment == Some(new_segment(j.id)) && j.id.len() == 16
            && after.first == w.first && after.ended == w.ended,
        !creates(w.phase, input) ==> chosen_history(w, after, came_in(input), clock),
    ensures
        ({
            let e = event_of(w, input, clock);
            let noted = with_event(with_entries(j, w, after, e), w, after, input, e);
            &&& segment_fits(after, noted)
            &&& events_fit(after, noted)
            &&& noted.sealed == j.sealed
            &&& noted.files == j.files
        }),
{
    let e = event_of(w, input, clock);
    let noted = with_event(with_entries(j, w, after, e), w, after, input, e);
    let all = all_events(j.sealed) + events_in(j.open);
    let offered = j.start + j.received + j.end;
    if records(w, after, e) && !same_history(after, w) {
        recorded_event_is_noted(w, after, j, e);
        assert(all_events(noted.sealed) + events_in(noted.open) == all.push(e));
        assert(all.push(e) + held_back(after) =~= all + seq![e]);
        if w.pending is None {
            assert(all + held_back(w) =~= all);
            assert(noted.start + noted.received + noted.end =~= offered.push(e));
            assert(all + seq![e] =~= all.push(e));
        }
    } else if holds_back(w, after, e) && !same_history(after, w) {
        assert(all + held_back(w) =~= all);
        assert(all + held_back(after) =~= all.push(e));
        assert(noted.start + noted.received + noted.end =~= offered.push(e));
    }
}

/// Every step of a run keeps the journal true.
pub proof fn journal_is_kept(s: State, step: Step)
    requires
        state_fits(s),
        may_follow(s, step),
    ensures
        state_fits(advanced(s, step)),
{
    reveal(advanced);
    reveal(may_follow);
    let (w, j, input) = (s.w, s.journal, step.input);
    let after = next(w, s.outgoing, input, step.clock).0;
    state_stays_in_order(w, s.outgoing, input, step.clock, step.outgoing);
    stepping_records(w, s.outgoing, input, step.clock);
    let on_disk = with_disk(j, w, s.outgoing, input);
    if writes(w.phase, input) {
        written_frame_is_noted(w, after, s.outgoing, j);
        assert(noted(s, step) == on_disk);
    } else if seals(w.phase, input) {
        sealed_segment_is_noted(w, after, j);
        assert(noted(s, step) == on_disk);
    } else {
        event_is_noted(w, after, input, step.clock, on_disk);
    }
}

/// The state after some steps.
pub open spec fn ran(first: State, steps: Seq<Step>) -> State
    decreases steps.len(),
{
    if steps.len() == 0 {
        first
    } else {
        advanced(ran(first, steps.drop_last()), steps.last())
    }
}

/// Whether steps can follow one another.
pub open spec fn is_run(first: State, steps: Seq<Step>) -> bool
    decreases steps.len(),
{
    steps.len() == 0 || (is_run(first, steps.drop_last()) && may_follow(
        ran(first, steps.drop_last()),
        steps.last(),
    ))
}

pub(crate) proof fn run_keeps_journal(first: State, steps: Seq<Step>)
    requires
        state_fits(first),
        is_run(first, steps),
    ensures
        state_fits(ran(first, steps)),
    decreases steps.len(),
{
    if steps.len() > 0 {
        run_keeps_journal(first, steps.drop_last());
        journal_is_kept(ran(first, steps.drop_last()), steps.last());
    }
}

/// A writer to which nothing has happened yet.
pub open spec fn fresh(
    limits: Limits,
    stream: Seq<u8>,
    epoch: Seq<u8>,
    collector: Seq<char>,
    now: u64,
    outgoing: Seq<u8>,
) -> State {
    State {
        w: new_writer(limits, stream, epoch, collector, now),
        outgoing,
        journal: blank_journal(),
    }
}

/// Once the writer finishes, every event that came in is in a segment that is
/// complete on disk: the start of the history, all that came in and the end,
/// in that order and each once. The rows are numbered without a gap over all
/// segments, and in its segment every event of a peer comes behind a row for
/// the identity of the peer.
pub proof fn finished_history_is_complete(
    limits: Limits,
    stream: Seq<u8>,
    epoch: Seq<u8>,
    collector: Seq<char>,
    now: u64,
    outgoing: Seq<u8>,
    steps: Seq<Step>,
    last: Step,
)
    requires
        limits.reserve_bytes <= u64::MAX - HEADROOM,
        ({
            let first = fresh(limits, stream, epoch, collector, now, outgoing);
            let s = ran(first, steps);
            &&& is_run(first, steps.push(last))
            &&& next(s.w, s.outgoing, last.input, last.clock).1 == Action::Finish
        }),
    ensures
        ({
            let j = ran(
                fresh(limits, stream, epoch, collector, now, outgoing),
                steps.push(last),
            ).journal;
            &&& all_events(j.sealed) == j.start + j.received + j.end
            &&& j.start.len() == 1 && j.start[0].kind == 7
            &&& j.end.len() == 1 && j.end[0].kind == 8
            &&& j.files.len() == j.sealed.len()
            &&& forall|i: int|
                0 <= i < j.sealed.len() ==> introduced(#[trigger] j.sealed[i]) && file_holds(
                    j.files[i],
                    entries_octets(
                        j.sealed[i],
                        count(j.sealed.take(i)),
                        epoch,
                        limits.retention_hours,
                    ),
                )
        }),
{
    reveal(advanced);
    reveal(may_follow);
    let first = fresh(limits, stream, epoch, collector, now, outgoing);
    let all = steps.push(last);
    assert(all.drop_last() =~= steps);
    assert(all.last() == last);
    fresh_fits(limits, stream, epoch, collector, now, outgoing);
    run_keeps_journal(first, steps);
    let s = ran(first, steps);
    finishing_leaves_nothing_behind(s.w, s.outgoing, last.input, last.clock);
    journal_is_kept(s, last);
    setting_is_kept(first, all);
    let end = ran(first, all);
    assert(end.w == next(s.w, s.outgoing, last.input, last.clock).0);
    assert(all_events(end.journal.sealed) + events_in(end.journal.open) + held_back(end.w)
        =~= all_events(end.journal.sealed));
}

proof fn fresh_fits(
    limits: Limits,
    stream: Seq<u8>,
    epoch: Seq<u8>,
    collector: Seq<char>,
    now: u64,
    outgoing: Seq<u8>,
)
    requires
        limits.reserve_bytes <= u64::MAX - HEADROOM,
    ensures
        state_fits(fresh(limits, stream, epoch, collector, now, outgoing)),
{
    let s = fresh(limits, stream, epoch, collector, now, outgoing);
    assert(frames_data(s.journal.frames) =~= seq![]);
    assert(flat(frames_data(s.journal.frames)) + s.w.rows.frame =~= seq![]);
    assert(all_events(s.journal.sealed) + events_in(s.journal.open) + held_back(s.w) =~= seq![]);
    assert(s.journal.start + s.journal.received + s.journal.end =~= seq![]);
}

proof fn setting_is_kept(first: State, steps: Seq<Step>)
    requires
        state_fits(first),
        is_run(first, steps),
    ensures
        same_setting(ran(first, steps).w, first.w),
    decreases steps.len(),
{
    reveal(advanced);
    reveal(may_follow);
    if steps.len() > 0 {
        let s = ran(first, steps.drop_last());
        let step = steps.last();
        run_keeps_journal(first, steps.drop_last());
        setting_is_kept(first, steps.drop_last());
        stepping_records(s.w, s.outgoing, step.input, step.clock);
    }
}

} // verus!
