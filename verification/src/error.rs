//! The failures a run can end in, with their stable process exit codes.

use vstd::prelude::*;
use vstd::string::StringExecFns;

verus! {

/// Exit code of a run whose inputs were rejected.
pub const VALIDATION_EXIT_CODE: i32 = 2;

/// Exit code of a run whose OpenSSH client could not be started.
pub const SSH_START_EXIT_CODE: i32 = 3;

/// Exit code of a run whose SSH connection failed before the remote side reported a status.
pub const SSH_CONNECTION_EXIT_CODE: i32 = 4;

/// Exit code of a run whose OpenSSH client was killed by a signal.
pub const SIGNAL_EXIT_CODE: i32 = 5;

#[derive(Debug)]
pub enum AppError {
    /// An input was rejected; the text says which check failed.
    Validation(String),
    /// The OpenSSH client could not be started; the text says why.
    SshStart(String),
    /// The connection failed before a remote exit status was available.
    SshConnection,
    /// The OpenSSH client was terminated by a signal.
    Signaled,
}

/// The exit code that stands for each kind of failure.
pub open spec fn exit_code_of(e: AppError) -> i32 {
    match e {
        AppError::Validation(_) => VALIDATION_EXIT_CODE,
        AppError::SshStart(_) => SSH_START_EXIT_CODE,
        AppError::SshConnection => SSH_CONNECTION_EXIT_CODE,
        AppError::Signaled => SIGNAL_EXIT_CODE,
    }
}

/// The outcome label of each kind of failure, as the text the run's log shows.
pub open spec fn outcome_label(e: AppError) -> &'static str {
    match e {
        AppError::Validation(_) => "validation_failure",
        AppError::SshStart(_) => "ssh_start_failure",
        AppError::SshConnection => "connection_failure",
        AppError::Signaled => "signal_failure",
    }
}

/// The outcome label that stands for each kind of failure in the run's log, as characters.
pub open spec fn outcome_of(e: AppError) -> Seq<char> {
    outcome_label(e)@
}

/// The human-readable text of each failure.
pub open spec fn message_of(e: AppError) -> Seq<char> {
    match e {
        AppError::Validation(detail) => "invalid input: "@ + detail@,
        AppError::SshStart(detail) => "could not start the OpenSSH client: "@ + detail@,
        AppError::SshConnection => "SSH connection failed before a remote exit status was available"@,
        AppError::Signaled => "SSH client was terminated by a signal"@,
    }
}

impl AppError {
    /// The process exit code for this failure.
    pub fn exit_code(&self) -> (code: i32)
        ensures
            code == exit_code_of(*self),
    {
        match self {
            AppError::Validation(_) => VALIDATION_EXIT_CODE,
            AppError::SshStart(_) => SSH_START_EXIT_CODE,
            AppError::SshConnection => SSH_CONNECTION_EXIT_CODE,
            AppError::Signaled => SIGNAL_EXIT_CODE,
        }
    }

    /// The outcome label logged for this failure.
    pub fn outcome(&self) -> (label: &'static str)
        ensures
            label == outcome_label(*self),
            label@ == outcome_of(*self),
    {
        match self {
            AppError::Validation(_) => "validation_failure",
            AppError::SshStart(_) => "ssh_start_failure",
            AppError::SshConnection => "connection_failure",
            AppError::Signaled => "signal_failure",
        }
    }

    /// The text shown to a user for this failure.
    pub fn message(&self) -> (text: String)
        ensures
            text@ == message_of(*self),
    {
        match self {
            AppError::Validation(detail) => {
                let mut text = String::from_str("invalid input: ");
                text.append(detail.as_str());
                text
            },
            AppError::SshStart(detail) => {
                let mut text = String::from_str("could not start the OpenSSH client: ");
                text.append(detail.as_str());
                text
            },
            AppError::SshConnection => String::from_str(
                "SSH connection failed before a remote exit status was available",
            ),
            AppError::Signaled => String::from_str("SSH client was terminated by a signal"),
        }
    }
}

/// Each kind of failure has its own exit code, none of them 0 (success) or 1, and
/// its own outcome label.
pub proof fn lemma_failures_are_distinguishable(a: AppError, b: AppError)
    ensures
        exit_code_of(a) >= 2,
        exit_code_of(a) <= 5,
        exit_code_of(a) == exit_code_of(b) <==> outcome_of(a) == outcome_of(b),
        exit_code_of(a) == exit_code_of(b) <==> (
            (a is Validation && b is Validation) || (a is SshStart && b is SshStart)
            || (a is SshConnection && b is SshConnection) || (a is Signaled && b is Signaled)),
{
    reveal_strlit("validation_failure");
    reveal_strlit("ssh_start_failure");
    reveal_strlit("connection_failure");
    reveal_strlit("signal_failure");
    assert("validation_failure"@.len() != "ssh_start_failure"@.len());
    assert("validation_failure"@.len() != "signal_failure"@.len());
    assert("ssh_start_failure"@.len() != "connection_failure"@.len());
    assert("ssh_start_failure"@.len() != "signal_failure"@.len());
    assert("connection_failure"@.len() != "signal_failure"@.len());
    assert("validation_failure"@[0] != "connection_failure"@[0]);
}

} // verus!
