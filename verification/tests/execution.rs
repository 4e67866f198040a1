use shellcd_basic::error::AppError;
use shellcd_basic::execution::{execute, exit_status, ExecAction, ExecEvent, ExecState};

fn course(dorarion: bool, result: Result<i32, AppError>) -> Vec<String> {
    let mut state = ExecState::Start;
    let mut pending = Some(result);
    let mut seen = Vec::new();
    loop {
        let event = if matches!(state, ExecState::SshRunning) {
            ExecEvent::SshFinished(pending.take().unwrap())
        } else {
            ExecEvent::Ready
        };
        let (next, action) = execute(dorarion, state, event);
        state = next;
        match action {
            ExecAction::CallStartHook => seen.push("start-hook".to_string()),
            ExecAction::LogStart => seen.push("log-start".to_string()),
            ExecAction::RunSsh => seen.push("ssh".to_string()),
            ExecAction::LogFinish { outcome, exit_code } => {
                seen.push(format!("log-finish {outcome} {exit_code}"))
            }
            ExecAction::CallEndHook => seen.push("end-hook".to_string()),
            ExecAction::Return(r) => {
                seen.push(match r {
                    Ok(code) => format!("return {code}"),
                    Err(e) => format!("return error {}", e.exit_code()),
                });
                return seen;
            }
        }
    }
}

#[test]
fn run_course_with_hooks() {
    assert_eq!(
        course(true, Ok(0)),
        [
            "start-hook",
            "log-start",
            "ssh",
            "log-finish success 0",
            "end-hook",
            "return 0"
        ]
    );
}

#[test]
fn run_course_without_hooks() {
    assert_eq!(
        course(false, Ok(42)),
        ["log-start", "ssh", "log-finish remote_failure 42", "return 42"]
    );
    assert_eq!(
        course(false, Err(AppError::SshConnection)),
        [
            "log-start",
            "ssh",
            "log-finish connection_failure 4",
            "return error 4"
        ]
    );
}

#[test]
fn process_exit_status_follows_result() {
    assert_eq!(exit_status(&Ok(0)), 0);
    assert_eq!(exit_status(&Ok(42)), 42);
    assert_eq!(exit_status(&Ok(255)), 255);
    assert_eq!(exit_status(&Ok(256)), 5);
    assert_eq!(exit_status(&Ok(-1)), 5);
    assert_eq!(exit_status(&Err(AppError::Validation("x".into()))), 2);
    assert_eq!(exit_status(&Err(AppError::SshStart("x".into()))), 3);
    assert_eq!(exit_status(&Err(AppError::SshConnection)), 4);
    assert_eq!(exit_status(&Err(AppError::Signaled)), 5);
}
