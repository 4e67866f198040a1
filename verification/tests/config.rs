use shellcd_basic::cli::{Command, RunArgs};
use shellcd_basic::config::{LocalFacts, RunConfig};
use shellcd_basic::error::AppError;
use shellcd_basic::ssh::remote_command;
use shellcd_basic::validation::FileStat;

fn args() -> RunArgs {
    RunArgs {
        host: "server.example.com".into(),
        port: 22,
        user: "deploy".into(),
        script: "/opt/shellcd/scripts/deploy-api.sh".into(),
        script_arg: None,
        private_key_file: b"/tmp/fixture/id ed25519".to_vec(),
        known_hosts_file: b"/tmp/fixture/known_hosts".to_vec(),
        caller_email: "developer@example.com".into(),
        gitlab_user_login: None,
        project_path: Some("example/api service".into()),
        pipeline_id: None,
        job_id: None,
        commit_sha: None,
        connect_timeout_seconds: 15,
        allow_root: false,
        dorarion: false,
    }
}

fn facts() -> LocalFacts {
    LocalFacts {
        private_key: Ok(FileStat {
            is_file: true,
            len: 30,
        }),
        private_key_mode: Some(Ok(0o600)),
        known_hosts: Ok(FileStat {
            is_file: true,
            len: 27,
        }),
    }
}

fn rejection(result: Result<RunConfig, AppError>) -> String {
    match result {
        Err(AppError::Validation(text)) => text,
        Err(other) => panic!("unexpected error {:?}", other),
        Ok(_) => panic!("accepted"),
    }
}

#[test]
fn builds_config_with_empty_defaults() {
    let config = RunConfig::try_from_args(args(), &facts()).unwrap();
    assert_eq!(config.host, "server.example.com");
    assert_eq!(config.port, 22);
    assert_eq!(config.metadata.caller_email, "developer@example.com");
    assert_eq!(config.metadata.project_path, "example/api service");
    assert_eq!(config.metadata.gitlab_user_login, "");
    assert_eq!(config.metadata.commit_sha, "");
    assert_eq!(config.connect_timeout_seconds, 15);
    assert!(remote_command(&config).ends_with("--commit-sha ''"));
}

#[test]
fn rejects_zero_port_and_timeout() {
    let mut a = args();
    a.port = 0;
    let error = RunConfig::try_from_args(a, &facts()).unwrap_err();
    assert_eq!(error.exit_code(), 2);
    assert_eq!(error.message(), "invalid input: port must be between 1 and 65535");
    let mut a = args();
    a.connect_timeout_seconds = 0;
    assert_eq!(
        rejection(RunConfig::try_from_args(a, &facts())),
        "connect timeout must be at least one second"
    );
}

#[test]
fn first_failed_check_decides() {
    let mut a = args();
    a.host = "bad host".into();
    a.user = "Root".into();
    a.port = 0;
    assert_eq!(
        rejection(RunConfig::try_from_args(a, &facts())),
        "host must not contain whitespace or control characters"
    );
    let mut a = args();
    a.user = "root".into();
    assert_eq!(
        rejection(RunConfig::try_from_args(a, &facts())),
        "SSH user 'root' requires --allow-root"
    );
    let mut f = facts();
    f.private_key_mode = Some(Ok(0o644));
    f.known_hosts = Err("missing".into());
    assert_eq!(
        rejection(RunConfig::try_from_args(args(), &f)),
        "private key file permissions allow group or other access; use chmod 600"
    );
    let mut f = facts();
    f.known_hosts = Ok(FileStat {
        is_file: true,
        len: 0,
    });
    assert_eq!(
        rejection(RunConfig::try_from_args(args(), &f)),
        "known-hosts file must not be empty"
    );
    let mut a = args();
    a.known_hosts_file = b"/tmp/known hosts".to_vec();
    assert_eq!(
        rejection(RunConfig::try_from_args(a, &facts())),
        "known-hosts path must not contain whitespace, quotes, backslashes, or control characters"
    );
}

#[test]
fn ip_hosts_skip_dns_checks() {
    let mut a = args();
    a.host = "2001:db8::1".into();
    assert!(RunConfig::try_from_args(a, &facts()).is_ok());
}

#[test]
fn builds_config_from_run_command() {
    let config = RunConfig::try_from_command(Command::Run(args()), &facts()).unwrap();
    assert_eq!(config.user, "deploy");
}
