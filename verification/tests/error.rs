use shellcd_basic::error::AppError;

#[test]
fn errors_have_stable_exit_codes() {
    assert_eq!(AppError::Validation("bad".into()).exit_code(), 2);
    assert_eq!(AppError::SshStart("missing".into()).exit_code(), 3);
    assert_eq!(AppError::SshConnection.exit_code(), 4);
    assert_eq!(AppError::Signaled.exit_code(), 5);
}

#[test]
fn errors_have_stable_outcomes_and_messages() {
    assert_eq!(AppError::Validation("bad".into()).outcome(), "validation_failure");
    assert_eq!(AppError::SshStart("missing".into()).outcome(), "ssh_start_failure");
    assert_eq!(AppError::SshConnection.outcome(), "connection_failure");
    assert_eq!(AppError::Signaled.outcome(), "signal_failure");
    assert_eq!(
        AppError::Validation("bad".into()).message(),
        "invalid input: bad"
    );
    assert_eq!(
        AppError::SshStart("missing".into()).message(),
        "could not start the OpenSSH client: missing"
    );
    assert_eq!(
        AppError::SshConnection.message(),
        "SSH connection failed before a remote exit status was available"
    );
    assert_eq!(
        AppError::Signaled.message(),
        "SSH client was terminated by a signal"
    );
}
