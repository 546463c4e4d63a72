//! The life of the export.

use vstd::prelude::*;

verus! {

/// What happens while the export runs.
#[derive(Clone, Copy, Debug, PartialEq, Eq, Structural)]
pub enum RunEvent {
    /// The writer ended by itself.
    WriterEnded,
    /// A report of the sources is asked for.
    ReportLinks,
    /// There is a new configuration.
    Reconfigure,
    /// The export is to end, or nobody is there to say so.
    Terminate,
}

/// What is to be done about it.
#[derive(Clone, Copy, Debug, PartialEq, Eq, Structural)]
pub enum RunAction {
    ReportLinks,
    /// Say that a new configuration takes effect with the next start, and keep
    /// the one that there is, and with it the destination of the spool.
    KeepConfiguration,
    /// Take in nothing more, wait for the writer if it still runs, and leave
    /// what is in the spool to the next start.
    ShutDown { await_writer: bool },
}

/// What is done about what happens. Only the end of the writer and being told
/// so end the export.
pub open spec fn run_next(event: RunEvent) -> RunAction {
    match event {
        RunEvent::WriterEnded => RunAction::ShutDown { await_writer: false },
        RunEvent::ReportLinks => RunAction::ReportLinks,
        RunEvent::Reconfigure => RunAction::KeepConfiguration,
        RunEvent::Terminate => RunAction::ShutDown { await_writer: true },
    }
}

/// What is to be done about what happens.
pub fn run_step(event: RunEvent) -> (r: RunAction)
    ensures
        r == run_next(event),
{
    match event {
        RunEvent::WriterEnded => RunAction::ShutDown { await_writer: false },
        RunEvent::ReportLinks => RunAction::ReportLinks,
        RunEvent::Reconfigure => RunAction::KeepConfiguration,
        RunEvent::Terminate => RunAction::ShutDown { await_writer: true },
    }
}

/// The export ends exactly when its writer does or when it is told to, and waits
/// for the writer only if that still runs. A new configuration ends nothing.
pub proof fn only_the_writer_and_orders_end_the_export(event: RunEvent)
    ensures
        run_next(event) is ShutDown <==> event is WriterEnded || event is Terminate,
        run_next(event) is ShutDown ==> (run_next(event)->await_writer <==> event is Terminate),
        run_next(event) is KeepConfiguration <==> event is Reconfigure,
        run_next(event) is ReportLinks <==> event is ReportLinks,
{
}

} // verus!
