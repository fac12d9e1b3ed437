//! Decisions of the task supervisor.
//!
//! The supervisor runs the background tasks, listens for process signals and
//! for requests over its handle, and on each event decides whether to keep
//! going, reload the configuration, or shut down.  The waiting itself is
//! asynchronous plumbing; what to do with each event is decided here.

use vstd::prelude::*;

verus! {

broadcast use vstd::string::group_string_axioms;

/// What woke the supervisor up.
#[derive(Debug, Clone, Copy, PartialEq, Eq, Structural)]
pub enum SupervisorEvent {
    /// The process received a hangup signal.
    Hangup,
    /// The process received an interrupt signal.
    Interrupt,
    /// The process received a termination signal.
    Terminate,
    /// A reload was requested over the run handle.
    ReloadRequest,
    /// A shutdown was requested over the run handle.
    ShutdownRequest,
    /// One of the supervised tasks finished.
    TaskFinished,
}

/// What the supervisor does next.
#[derive(Debug, Clone, Copy, PartialEq, Eq, Structural)]
pub enum SupervisorAction {
    /// Keep waiting.
    Continue,
    /// Reload the configuration and keep waiting.
    Reload,
    /// Begin the shutdown.
    Exit,
}

/// The decision of the main supervision loop: hangups and reload requests
/// reload, everything else that can happen there shuts down — including the
/// first task that finishes, since every task is expected to run forever.
pub fn main_loop_action(event: SupervisorEvent) -> (r: (SupervisorAction, &'static str))
    ensures
        event == SupervisorEvent::Hangup ==> r.0 == SupervisorAction::Reload && r.1@
            == "Received SIGHUP"@,
        event == SupervisorEvent::ReloadRequest ==> r.0 == SupervisorAction::Reload && r.1@
            == "Received reload request"@,
        event == SupervisorEvent::Interrupt ==> r.0 == SupervisorAction::Exit && r.1@
            == "Received SIGINT"@,
        event == SupervisorEvent::Terminate ==> r.0 == SupervisorAction::Exit && r.1@
            == "Received SIGTERM"@,
        event == SupervisorEvent::ShutdownRequest ==> r.0 == SupervisorAction::Exit && r.1@
            == "Received shutdown request"@,
        event == SupervisorEvent::TaskFinished ==> r.0 == SupervisorAction::Exit && r.1@
            == "Task exited"@,
{
    match event {
        SupervisorEvent::Hangup => (SupervisorAction::Reload, "Received SIGHUP"),
        SupervisorEvent::ReloadRequest => (SupervisorAction::Reload, "Received reload request"),
        SupervisorEvent::Interrupt => (SupervisorAction::Exit, "Received SIGINT"),
        SupervisorEvent::Terminate => (SupervisorAction::Exit, "Received SIGTERM"),
        SupervisorEvent::ShutdownRequest => (SupervisorAction::Exit, "Received shutdown request"),
        SupervisorEvent::TaskFinished => (SupervisorAction::Exit, "Task exited"),
    }
}

/// The decision while already shutting down: a task finishing is progress,
/// a second interrupt or termination signal abandons the graceful shutdown,
/// and anything else is ignored.
pub fn shutdown_loop_action(event: SupervisorEvent) -> (r: (SupervisorAction, &'static str))
    ensures
        event == SupervisorEvent::Interrupt ==> r.0 == SupervisorAction::Exit && r.1@
            == "Received second SIGINT"@,
        event == SupervisorEvent::Terminate ==> r.0 == SupervisorAction::Exit && r.1@
            == "Received second SIGTERM"@,
        !(event == SupervisorEvent::Interrupt || event == SupervisorEvent::Terminate) ==> r.0
            == SupervisorAction::Continue,
{
    match event {
        SupervisorEvent::Interrupt => (SupervisorAction::Exit, "Received second SIGINT"),
        SupervisorEvent::Terminate => (SupervisorAction::Exit, "Received second SIGTERM"),
        _ => (SupervisorAction::Continue, ""),
    }
}

/// Count one task as finished.
pub fn on_task_finished(remaining: &mut u64)
    requires
        *old(remaining) > 0,
    ensures
        *final(remaining) == *old(remaining) - 1,
{
    *remaining = *remaining - 1;
}

/// The message logged when a task leaves the supervised set: the result of
/// joining it (its name, or the join failure), or nothing when the set was
/// unexpectedly empty.  True marks a warning.
pub fn task_exit_message(result: Option<Result<&str, &str>>) -> (r: (String, bool))
    ensures
        result matches Some(Ok(ident)) ==> (r.0@ == "task "@ + ident@ + " exited"@ && !r.1),
        result matches Some(Err(e)) ==> (r.0@ == "task exited with failure: "@ + e@ && r.1),
        result is None ==> (r.0@ == "remaining tasks list is empty?"@ && r.1),
{
    match result {
        Some(Ok(ident)) => {
            let mut msg = "task ".to_owned();
            msg.append(ident);
            msg.append(" exited");
            proof {
                assert(msg@ =~= "task "@ + ident@ + " exited"@);
            }
            (msg, false)
        },
        Some(Err(e)) => {
            let mut msg = "task exited with failure: ".to_owned();
            msg.append(e);
            (msg, true)
        },
        None => ("remaining tasks list is empty?".to_owned(), true),
    }
}

} // verus!
