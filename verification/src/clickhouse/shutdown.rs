//! How the writer comes to its end once it is told to.

use crate::clickhouse::event::EventView;
use crate::clickhouse::journal::{
    advanced, came_in, is_run, journal_is_kept, may_follow, ran, run_keeps_journal, state_fits,
    writes, State, Step,
};
use crate::clickhouse::record::recorded;
use crate::clickhouse::spool::MAX_FRAME;
use crate::clickhouse::writer::{
    awaited, begun, chosen, elapsed, end_event, finishing_leaves_nothing_behind, new_segment, next,
    record_event, rows_count,
    space_is_short, start_event, with_space, writer_fits, written_on, Action, Clock, InputView,
    Phase, WriterView, INTERVAL_MS,
};
use vstd::prelude::*;

verus! {

/// Whether what the writer asked for was done, no event came in, there is
/// space, and the time for shutting down is not over. A look at the disk space
/// is due where it was short before.
pub open spec fn succeeds(w: WriterView, outgoing: Seq<u8>, input: InputView, clock: Clock) -> bool {
    &&& clock.stop
    &&& input != InputView::WriteFailed
    &&& input != InputView::CreateFailed
    &&& came_in(input) is None
    &&& input matches InputView::Space { usage, available, total } ==> !space_is_short(
        w.limits,
        usage,
        available,
        total,
    )
    &&& writes(w.phase, input) ==> rows_count(w.segment->0, outgoing)
    &&& next(w, outgoing, input, clock).0.rows.frame.len() <= MAX_FRAME
    &&& w.phase == Phase::Turn ==> {
        &&& elapsed(clock.now, begun(w, clock).shutdown->0) / 1000 < w.limits.shutdown_seconds
        &&& w.full ==> w.checked is None || elapsed(clock.now, w.checked->0) >= INTERVAL_MS
    }
}

/// How many turns the writer needs at the start of one: one for the event that
/// is held back, one for the start of the history, and one for its end.
pub open spec fn turns_needed(w: WriterView) -> int {
    (if w.pending is Some {
        1int
    } else {
        0
    }) + (if w.first {
        1int
    } else {
        0
    }) + 1
}

/// How many steps there are at most, before a turn, to the end of the run.
pub open spec fn steps_of_turns(turns: int) -> int {
    20 * turns
}

/// How many steps there are at most behind the turn that is under way, once its
/// event is recorded.
pub open spec fn steps_behind(w: WriterView, done: bool) -> int {
    if done && w.ended {
        0
    } else {
        steps_of_turns(turns_needed(w))
    }
}

/// How many steps there are at most to the end of the run.
pub open spec fn steps_left(w: WriterView) -> int {
    match w.phase {
        Phase::FullWrite => steps_of_turns(turns_needed(w)) + 2,
        Phase::FullSeal => steps_of_turns(turns_needed(w)) + 1,
        Phase::Turn => steps_of_turns(turns_needed(w)),
        Phase::Space => steps_of_turns(turns_needed(w)) - 1,
        Phase::Receiving => steps_of_turns(turns_needed(w)) - 2,
        Phase::Creating { done } => steps_behind(WriterView { pending: None, ..w }, done) + 6,
        Phase::Writing { seal, done } => steps_behind(w, done) + 5,
        Phase::Syncing { seal, done } => steps_behind(w, done) + 4,
        Phase::Refreshing { seal, done } => steps_behind(w, done) + 3,
        Phase::Sealing { done } => steps_behind(w, done) + 2,
        Phase::Reporting { done } => steps_behind(w, done) + 1,
        Phase::Over => 0,
    }
}

/// Whether a step leads on: to the end, or closer to it.
pub open spec fn leads_on(step: (WriterView, Action), before: int) -> bool {
    step.1 == Action::Finish || (step.0.phase != Phase::Over && 0 < steps_left(step.0) < before)
}

proof fn writing_leads_on(w: WriterView, done: bool, clock: Clock, before: int)
    requires
        w.rows.frame.len() <= MAX_FRAME,
        w.pending is None,
        steps_behind(w, done) + 6 <= before,
    ensures
        leads_on(written_on(w, done, clock), before),
{
}

proof fn recording_leads_on(w: WriterView, e: EventView, done: bool, clock: Clock, before: int)
    requires
        record_event(w, e, done, clock).0.rows.frame.len() <= MAX_FRAME,
        w.pending is None,
        steps_behind(w, done) + 6 < before,
    ensures
        leads_on(record_event(w, e, done, clock), before),
{
    if w.segment is Some {
        let v = WriterView { rows: recorded(w.rows, e, w.epoch, w.limits.retention_hours), ..w };
        assert(written_on(v, done, clock).0.rows == v.rows);
        writing_leads_on(v, done, clock, before);
    }
}

proof fn choosing_leads_on(w: WriterView, clock: Clock)
    requires
        clock.stop,
        chosen(w, None, clock).0.rows.frame.len() <= MAX_FRAME,
    ensures
        leads_on(chosen(w, None, clock), steps_of_turns(turns_needed(w)) - 2),
{
    let before = steps_of_turns(turns_needed(w)) - 2;
    let done = w.pending is None;
    if w.pending is Some {
        recording_leads_on(WriterView { pending: None, ..w }, w.pending->0, done, clock, before);
    } else if w.first {
        recording_leads_on(
            WriterView { first: false, ..w },
            start_event(w, clock.wall_ms),
            done,
            clock,
            before,
        );
    } else if !w.ended {
        recording_leads_on(
            WriterView { ended: true, ..w },
            end_event(w, clock.wall_ms),
            done,
            clock,
            before,
        );
    } else {
        assert(written_on(w, done, clock).0.rows == w.rows);
        writing_leads_on(w, done, clock, before);
    }
}

proof fn having_space_leads_on(w: WriterView, clock: Clock)
    requires
        clock.stop,
        !w.full,
        with_space(w, clock).0.rows.frame.len() <= MAX_FRAME,
    ensures
        leads_on(with_space(w, clock), steps_of_turns(turns_needed(w)) - 1),
{
    if !(w.pending is None && !w.first && !w.ended) {
        choosing_leads_on(w, clock);
    }
}

/// Once the writer is told to come to an end, every step that succeeds ends the
/// run or brings the end closer.
pub proof fn every_step_leads_on(w: WriterView, outgoing: Seq<u8>, input: InputView, clock: Clock)
    requires
        writer_fits(w, outgoing),
        awaited(w.phase, input),
        succeeds(w, outgoing, input, clock),
    ensures
        leads_on(next(w, outgoing, input, clock), steps_left(w)),
{
    match (w.phase, input) {
        (Phase::Turn, _) => {
            let v = begun(w, clock);
            if v.checked is Some && elapsed(clock.now, v.checked->0) < INTERVAL_MS {
                having_space_leads_on(v, clock);
            }
        },
        (Phase::Space, InputView::Space { usage, available, total }) => {
            having_space_leads_on(
                WriterView {
                    full: space_is_short(w.limits, usage, available, total),
                    checked: Some(clock.now as int),
                    ..w
                },
                clock,
            );
        },
        (Phase::Receiving, InputView::Received(event)) => {
            choosing_leads_on(w, clock);
        },
        (Phase::Creating { done }, InputView::Created(id)) => {
            let v = WriterView {
                segment: Some(new_segment(id)),
                started: clock.now as int,
                pending: None,
                ..w
            };
            let e = w.pending->0;
            let rows = recorded(v.rows, e, v.epoch, v.limits.retention_hours);
            assert(written_on(WriterView { rows, ..v }, done, clock).0.rows == rows);
            writing_leads_on(WriterView { rows, ..v }, done, clock, steps_left(w));
        },
        _ => {},
    }
}

/// As long as a run is not over there is something that the writer waits for.
pub proof fn something_is_awaited(phase: Phase)
    requires
        phase != Phase::Over,
    ensures
        exists|input: InputView| #[trigger] awaited(phase, input),
{
    let input = match phase {
        Phase::Turn => InputView::Tick,
        Phase::Space => InputView::Space { usage: 0, available: 0, total: 0 },
        Phase::FullWrite | Phase::Writing { .. } => InputView::Written,
        Phase::FullSeal | Phase::Sealing { .. } => InputView::Sealed,
        Phase::Receiving => InputView::Received(None),
        Phase::Creating { .. } => InputView::CreateFailed,
        Phase::Syncing { .. } | Phase::Refreshing { .. } => InputView::Synced,
        _ => InputView::Reported,
    };
    assert(awaited(phase, input));
}

/// Whether the writer says after a step that it has finished.
#[verifier::opaque]
pub open spec fn finishes(s: State, step: Step) -> bool {
    next(s.w, s.outgoing, step.input, step.clock).1 == Action::Finish
}

/// Whether the writer finishes with step number `k` of a run.
pub open spec fn finishes_at(first: State, steps: Seq<Step>, k: int) -> bool {
    finishes(ran(first, steps.take(k)), steps[k])
}

/// Whether a step of a run succeeds.
#[verifier::opaque]
pub open spec fn step_succeeds(s: State, step: Step) -> bool {
    succeeds(s.w, s.outgoing, step.input, step.clock)
}

/// Whether every step of a run succeeds.
pub open spec fn all_succeed(first: State, steps: Seq<Step>) -> bool {
    forall|k: int|
        0 <= k < steps.len() ==> step_succeeds(ran(first, steps.take(k)), #[trigger] steps[k])
}

/// Whether a state is one that a run can come to and go on from.
#[verifier::opaque]
pub open spec fn under_way(s: State) -> bool {
    state_fits(s) && s.w.phase != Phase::Over
}

/// How many steps there are at most to the end of the run.
#[verifier::opaque]
pub open spec fn left_of(s: State) -> int {
    steps_left(s.w)
}

proof fn step_goes_down(s: State, step: Step)
    requires
        under_way(s),
        may_follow(s, step),
        step_succeeds(s, step),
        !finishes(s, step),
    ensures
        under_way(advanced(s, step)),
        0 < left_of(advanced(s, step)) < left_of(s),
{
    reveal(under_way);
    reveal(may_follow);
    reveal(step_succeeds);
    reveal(finishes);
    reveal(advanced);
    reveal(left_of);
    every_step_leads_on(s.w, s.outgoing, step.input, step.clock);
    journal_is_kept(s, step);
}

/// A run in which the writer is told to come to an end and everything succeeds
/// has so many steps at most. As long as it has not finished it can go on, and
/// has fewer steps left with every one; so it ends only by finishing.
pub proof fn stopped_writer_finishes(first: State, steps: Seq<Step>)
    requires
        under_way(first),
        is_run(first, steps),
        all_succeed(first, steps),
    ensures
        steps.len() <= left_of(first),
        under_way(ran(first, steps)) || (steps.len() > 0 && finishes_at(
            first,
            steps,
            steps.len() - 1,
        )),
        under_way(ran(first, steps)) ==> 0 < left_of(ran(first, steps)) <= left_of(first)
            - steps.len(),
{
    if steps.len() == 0 {
        first_step_is_left(first);
    } else {
        let n = steps.len() - 1;
        let before = steps.drop_last();
        assert(steps.take(n) =~= before);
        assert forall|k: int| 0 <= k < before.len() implies step_succeeds(
            ran(first, before.take(k)),
            #[trigger] before[k],
        ) by {
            assert(before[k] == steps[k]);
            assert(before.take(k) =~= steps.take(k));
        }
        assert forall|k: int| 0 <= k < before.len() implies !#[trigger] finishes_at(
            first,
            before,
            k,
        ) by {
            if finishes_at(first, before, k) {
                assert(before.take(k) =~= steps.take(k));
                assert(steps.take(k + 1).drop_last() =~= steps.take(k));
                assert(steps.take(k + 1).last() == steps[k]);
                steps_follow(first, steps, k);
                steps_follow(first, steps, k + 1);
                nothing_follows_the_end(ran(first, steps.take(k)), steps[k], steps[k + 1]);
            }
        }
        steps_go_down(first, before);
        assert(step_succeeds(ran(first, steps.take(n)), steps[n]));
        if n == 0 {
            first_step_is_left(first);
        }
        if finishes(ran(first, before), steps[n]) {
            assert(finishes_at(first, steps, n));
            end_is_not_under_way(ran(first, before), steps[n]);
        } else {
            step_goes_down(ran(first, before), steps[n]);
        }
    }
}

/// Every step of a run can follow the ones before.
proof fn steps_follow(first: State, steps: Seq<Step>, m: int)
    requires
        under_way(first),
        is_run(first, steps),
        0 <= m < steps.len(),
    ensures
        may_follow(ran(first, steps.take(m)), steps[m]),
        state_fits(ran(first, steps.take(m))),
    decreases steps.len(),
{
    let before = steps.drop_last();
    if m < before.len() {
        steps_follow(first, before, m);
        assert(before.take(m) =~= steps.take(m));
    } else {
        assert(steps.take(m) =~= before);
        reveal(under_way);
        run_keeps_journal(first, before);
    }
}

proof fn nothing_follows_the_end(s: State, step: Step, more: Step)
    requires
        state_fits(s),
        may_follow(s, step),
        finishes(s, step),
    ensures
        !may_follow(advanced(s, step), more),
{
    reveal(may_follow);
    reveal(finishes);
    reveal(advanced);
    finishing_leaves_nothing_behind(s.w, s.outgoing, step.input, step.clock);
}

proof fn end_is_not_under_way(s: State, step: Step)
    requires
        under_way(s),
        may_follow(s, step),
        finishes(s, step),
    ensures
        !under_way(advanced(s, step)),
{
    reveal(under_way);
    reveal(may_follow);
    reveal(finishes);
    reveal(advanced);
    finishing_leaves_nothing_behind(s.w, s.outgoing, step.input, step.clock);
}

proof fn first_step_is_left(s: State)
    requires
        under_way(s),
    ensures
        left_of(s) > 0,
{
    reveal(under_way);
    reveal(left_of);
}

proof fn steps_go_down(first: State, steps: Seq<Step>)
    requires
        under_way(first),
        is_run(first, steps),
        all_succeed(first, steps),
        forall|k: int| 0 <= k < steps.len() ==> !#[trigger] finishes_at(first, steps, k),
    ensures
        under_way(ran(first, steps)),
        left_of(ran(first, steps)) <= left_of(first) - steps.len(),
        steps.len() > 0 ==> left_of(ran(first, steps)) > 0,
    decreases steps.len(),
{
    if steps.len() > 0 {
        let n = steps.len() - 1;
        let before = steps.drop_last();
        assert(steps.take(n) =~= before);
        assert forall|k: int| 0 <= k < before.len() implies step_succeeds(
            ran(first, before.take(k)),
            #[trigger] before[k],
        ) by {
            assert(before[k] == steps[k]);
            assert(before.take(k) =~= steps.take(k));
        }
        assert forall|k: int| 0 <= k < before.len() implies !#[trigger] finishes_at(
            first,
            before,
            k,
        ) by {
            assert(before.take(k) =~= steps.take(k));
            assert(!finishes_at(first, steps, k));
        }
        steps_go_down(first, before);
        assert(!finishes_at(first, steps, n));
        assert(step_succeeds(ran(first, steps.take(n)), steps[n]));
        step_goes_down(ran(first, before), steps[n]);
    }
}

} // verus!
