//! The course of one run: the optional start hook, the start record, the OpenSSH client,
//! the finish record, the optional end hook, and the result. The decisions are made here,
//! step by step; the caller performs each action and reports back.

use vstd::prelude::*;
use crate::error::{exit_code_of, outcome_label, AppError};
use crate::ssh::ssh_exit_meaning;

verus! {

/// How far a run has come.
#[derive(Debug)]
pub enum ExecState {
    /// Nothing done yet.
    Start,
    /// The start hook was called.
    StartHookCalled,
    /// The start of the run was logged.
    StartLogged,
    /// The OpenSSH client was asked to run.
    SshRunning,
    /// The end of the run was logged; holds the run's result.
    FinishLogged(Result<i32, AppError>),
    /// The end hook was called; holds the run's result.
    EndHookCalled(Result<i32, AppError>),
    /// The result was handed back.
    Done,
}

/// What the caller reports after performing an action.
#[derive(Debug)]
pub enum ExecEvent {
    /// The action was performed.
    Ready,
    /// The OpenSSH client finished with this result.
    SshFinished(Result<i32, AppError>),
}

/// What the caller must do next.
#[derive(Debug)]
pub enum ExecAction {
    CallStartHook,
    LogStart,
    RunSsh,
    /// Log the end of the run with this outcome label and exit code.
    LogFinish { outcome: &'static str, exit_code: i32 },
    CallEndHook,
    /// Hand back the run's result.
    Return(Result<i32, AppError>),
}

/// The outcome label that the end of a run is logged with.
pub open spec fn finish_outcome(r: Result<i32, AppError>) -> &'static str {
    match r {
        Ok(0) => "success",
        Ok(_) => "remote_failure",
        Err(e) => outcome_label(e),
    }
}

/// The exit code that the end of a run is logged with.
pub open spec fn finish_exit_code(r: Result<i32, AppError>) -> i32 {
    match r {
        Ok(code) => code,
        Err(e) => exit_code_of(e),
    }
}

/// The next state and action, where `dorarion` says whether the hooks are on.
pub open spec fn exec_step(dorarion: bool, state: ExecState, event: ExecEvent) -> (ExecState, ExecAction) {
    match state {
        ExecState::Start => if dorarion {
            (ExecState::StartHookCalled, ExecAction::CallStartHook)
        } else {
            (ExecState::StartLogged, ExecAction::LogStart)
        },
        ExecState::StartHookCalled => (ExecState::StartLogged, ExecAction::LogStart),
        ExecState::StartLogged => (ExecState::SshRunning, ExecAction::RunSsh),
        ExecState::SshRunning => match event {
            ExecEvent::SshFinished(r) => (
                ExecState::FinishLogged(r),
                ExecAction::LogFinish { outcome: finish_outcome(r), exit_code: finish_exit_code(r) },
            ),
            ExecEvent::Ready => (ExecState::SshRunning, ExecAction::RunSsh),
        },
        ExecState::FinishLogged(r) => if dorarion {
            (ExecState::EndHookCalled(r), ExecAction::CallEndHook)
        } else {
            (ExecState::Done, ExecAction::Return(r))
        },
        ExecState::EndHookCalled(r) => (ExecState::Done, ExecAction::Return(r)),
        ExecState::Done => (ExecState::Done, ExecAction::Return(Ok(0))),
    }
}

/// One step of a run: given whether the hooks are on, how far the run has come and what
/// the last action gave, returns the next state and the next action. A run that waits for
/// the client asks for it again on any other event; a finished run hands back `Ok(0)`.
pub fn execute(dorarion: bool, state: ExecState, event: ExecEvent) -> (next: (ExecState, ExecAction))
    ensures
        next == exec_step(dorarion, state, event),
{
    match state {
        ExecState::Start => if dorarion {
            (ExecState::StartHookCalled, ExecAction::CallStartHook)
        } else {
            (ExecState::StartLogged, ExecAction::LogStart)
        },
        ExecState::StartHookCalled => (ExecState::StartLogged, ExecAction::LogStart),
        ExecState::StartLogged => (ExecState::SshRunning, ExecAction::RunSsh),
        ExecState::SshRunning => match event {
            ExecEvent::SshFinished(r) => {
                let (outcome, exit_code) = match &r {
                    Ok(0) => ("success", 0),
                    Ok(code) => ("remote_failure", *code),
                    Err(error) => (error.outcome(), error.exit_code()),
                };
                (ExecState::FinishLogged(r), ExecAction::LogFinish { outcome, exit_code })
            },
            ExecEvent::Ready => (ExecState::SshRunning, ExecAction::RunSsh),
        },
        ExecState::FinishLogged(r) => if dorarion {
            (ExecState::EndHookCalled(r), ExecAction::CallEndHook)
        } else {
            (ExecState::Done, ExecAction::Return(r))
        },
        ExecState::EndHookCalled(r) => (ExecState::Done, ExecAction::Return(r)),
        ExecState::Done => (ExecState::Done, ExecAction::Return(Ok(0))),
    }
}

/// The actions of a run whose client gives `r`, from `state`, for at most `steps` steps,
/// each action followed by the event it calls for.
pub open spec fn run_actions(
    dorarion: bool,
    state: ExecState,
    r: Result<i32, AppError>,
    steps: nat,
) -> Seq<ExecAction>
    decreases steps,
{
    if steps == 0 || state is Done {
        Seq::empty()
    } else {
        let event = if state is SshRunning {
            ExecEvent::SshFinished(r)
        } else {
            ExecEvent::Ready
        };
        let (next, action) = exec_step(dorarion, state, event);
        seq![action] + run_actions(dorarion, next, r, (steps - 1) as nat)
    }
}

/// The course of a whole run: the start hook if the hooks are on, the start record, the
/// client, the finish record of the client's result, the end hook if the hooks are on,
/// and the client's result handed back.
pub open spec fn expected_course(dorarion: bool, r: Result<i32, AppError>) -> Seq<ExecAction> {
    (if dorarion {
        seq![ExecAction::CallStartHook]
    } else {
        Seq::empty()
    }) + seq![
        ExecAction::LogStart,
        ExecAction::RunSsh,
        ExecAction::LogFinish { outcome: finish_outcome(r), exit_code: finish_exit_code(r) },
    ] + (if dorarion {
        seq![ExecAction::CallEndHook]
    } else {
        Seq::empty()
    }) + seq![ExecAction::Return(r)]
}

/// Every run takes the same course: the end hook is called exactly when the start hook
/// was, the start is logged before the client runs, the finish is logged with the
/// client's result, and the result handed back is exactly the client's; after that the
/// run is over.
pub proof fn lemma_run_course(dorarion: bool, r: Result<i32, AppError>)
    ensures
        run_actions(dorarion, ExecState::Start, r, 6) == expected_course(dorarion, r),
        run_actions(dorarion, ExecState::Start, r, 100) == expected_course(dorarion, r),
{
    reveal_with_fuel(run_actions, 8);
    assert(run_actions(dorarion, ExecState::Start, r, 6) =~= expected_course(dorarion, r));
    assert(run_actions(dorarion, ExecState::Start, r, 100) =~= expected_course(dorarion, r));
}

/// The exit status of the process for a run's result: the remote script's code, or the
/// failure's code; a code that does not fit in a byte becomes 5.
pub open spec fn process_exit_status(r: Result<i32, AppError>) -> u8 {
    let code = finish_exit_code(r);
    if 0 <= code <= 255 {
        code as u8
    } else {
        5
    }
}

/// The exit status of the process for a run's result.
pub fn exit_status(result: &Result<i32, AppError>) -> (status: u8)
    ensures
        status == process_exit_status(*result),
{
    let code = match result {
        Ok(code) => *code,
        Err(error) => error.exit_code(),
    };
    if 0 <= code && code <= 255 {
        code as u8
    } else {
        5
    }
}

/// The process exits with the code that the finish record logs, wherever it fits in a
/// byte; every failure of the tool itself exits with 2 to 5.
pub proof fn lemma_exit_status_matches_log(r: Result<i32, AppError>)
    ensures
        0 <= finish_exit_code(r) <= 255 ==> process_exit_status(r) as i32 == finish_exit_code(r),
        r is Err ==> 2 <= process_exit_status(r) <= 5,
{
}

/// The process exits with the remote script's exit code; where the client reports its
/// own connection failure (255) it exits with 4, where a signal ended the client with 5.
pub proof fn lemma_remote_exit_code_returned(code: Option<i32>)
    ensures
        forall|c: i32|
            code == Some(c) && 0 <= c <= 254 ==> process_exit_status(ssh_exit_meaning(code)) as i32 == c,
        code == Some(255i32) ==> process_exit_status(ssh_exit_meaning(code)) == 4,
        code is None ==> process_exit_status(ssh_exit_meaning(code)) == 5,
{
}

} // verus!
