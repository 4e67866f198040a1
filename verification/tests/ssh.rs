use shellcd_basic::config::{Metadata, RunConfig};
use shellcd_basic::error::AppError;
use shellcd_basic::ssh::{
    find_executable, is_executable, path_option, posix_escape, remote_command, ssh_arguments, ssh_exit_result,
};

#[test]
fn escapes_every_posix_argument() {
    assert_eq!(posix_escape(""), "''");
    assert_eq!(posix_escape("simple"), "'simple'");
    assert_eq!(posix_escape("two words"), "'two words'");
    assert_eq!(posix_escape("a'b"), "'a'\\''b'");
    assert_eq!(posix_escape("$HOME; id"), "'$HOME; id'");
    assert_eq!(posix_escape("line\nfeed"), "'line\nfeed'");
}

fn fixture_config(script_arg: Option<&str>) -> RunConfig {
    RunConfig {
        host: "server.example.com".into(),
        port: 22,
        user: "deploy".into(),
        script: "/opt/shellcd/scripts/deploy-api.sh".into(),
        script_arg: script_arg.map(|s| s.to_string()),
        private_key_file: b"/tmp/fixture/id ed25519".to_vec(),
        known_hosts_file: b"/tmp/fixture/known_hosts".to_vec(),
        metadata: Metadata {
            caller_email: "developer@example.com".into(),
            gitlab_user_login: String::new(),
            project_path: "example/api service".into(),
            pipeline_id: String::new(),
            job_id: String::new(),
            commit_sha: String::new(),
        },
        connect_timeout_seconds: 15,
        dorarion: true,
    }
}

#[test]
fn remote_command_quotes_every_value() {
    let config = fixture_config(Some("release 'candidate'; echo unsafe"));
    let remote = remote_command(&config);
    assert!(remote.starts_with("/opt/shellcd/scripts/deploy-api.sh "));
    assert!(remote.contains("--project-path 'example/api service'"));
    assert!(remote.ends_with("'release '\\''candidate'\\''; echo unsafe'"));
    assert_eq!(
        remote,
        "/opt/shellcd/scripts/deploy-api.sh --caller-email 'developer@example.com' \
         --gitlab-user-login '' --project-path 'example/api service' --pipeline-id '' \
         --job-id '' --commit-sha '' 'release '\\''candidate'\\''; echo unsafe'"
    );
    let without = remote_command(&fixture_config(None));
    assert!(without.ends_with("--commit-sha ''"));
}

#[test]
fn ssh_arguments_carry_secure_options() {
    let config = fixture_config(Some("release 'candidate'; echo unsafe"));
    let args: Vec<String> = ssh_arguments(&config)
        .into_iter()
        .map(|a| String::from_utf8(a).unwrap())
        .collect();
    for required in [
        "BatchMode=yes",
        "IdentitiesOnly=yes",
        "IdentityAgent=none",
        "StrictHostKeyChecking=yes",
        "ConnectionAttempts=1",
        "RequestTTY=no",
        "ClearAllForwardings=yes",
        "ForwardAgent=no",
        "ForwardX11=no",
        "PasswordAuthentication=no",
        "KbdInteractiveAuthentication=no",
        "PreferredAuthentications=publickey",
        "ConnectTimeout=15",
        "LogLevel=ERROR",
        "ExitOnForwardFailure=yes",
    ] {
        let at = args.iter().position(|a| a == required).expect(required);
        assert_eq!(args[at - 1], "-o", "{required}");
    }
    assert!(args.windows(2).any(|pair| pair == ["-F", "/dev/null"]));
    assert!(args.windows(2).any(|pair| pair == ["-i", "/tmp/fixture/id ed25519"]));
    assert!(args.windows(2).any(|pair| pair == ["-p", "22"]));
    assert!(args.windows(2).any(|pair| pair == ["-l", "deploy"]));
    assert!(args.windows(2).any(|pair| pair == ["--", "server.example.com"]));
    assert!(args
        .iter()
        .any(|a| a == "UserKnownHostsFile=/tmp/fixture/known_hosts"));
    assert_eq!(args.len(), 43);
    assert_eq!(args[0], "-F");
    assert_eq!(args.last().unwrap(), &remote_command(&config));
    assert!(!args.iter().any(|a| a == "sh" || a == "-c"));
}

#[test]
fn ssh_arguments_render_numbers_in_decimal() {
    let mut config = fixture_config(None);
    config.port = 65535;
    config.connect_timeout_seconds = 4294967295;
    let args: Vec<String> = ssh_arguments(&config)
        .into_iter()
        .map(|a| String::from_utf8(a).unwrap())
        .collect();
    assert!(args.windows(2).any(|pair| pair == ["-p", "65535"]));
    assert!(args.iter().any(|a| a == "ConnectTimeout=4294967295"));
    config.port = 7;
    config.connect_timeout_seconds = 10;
    let args: Vec<String> = ssh_arguments(&config)
        .into_iter()
        .map(|a| String::from_utf8(a).unwrap())
        .collect();
    assert!(args.windows(2).any(|pair| pair == ["-p", "7"]));
    assert!(args.iter().any(|a| a == "ConnectTimeout=10"));
}

#[test]
fn ssh_arguments_keep_path_bytes() {
    let mut config = fixture_config(None);
    config.private_key_file = b"/tmp/\xffkey".to_vec();
    let args = ssh_arguments(&config);
    assert_eq!(args[37], b"/tmp/\xffkey".to_vec());
    assert_eq!(args[36], b"-i".to_vec());
}

#[test]
fn maps_client_exit_to_result() {
    assert!(matches!(ssh_exit_result(Some(0)), Ok(0)));
    assert!(matches!(ssh_exit_result(Some(42)), Ok(42)));
    assert!(matches!(
        ssh_exit_result(Some(255)),
        Err(AppError::SshConnection)
    ));
    assert_eq!(ssh_exit_result(Some(255)).unwrap_err().exit_code(), 4);
    assert_eq!(
        ssh_exit_result(Some(255)).unwrap_err().outcome(),
        "connection_failure"
    );
    assert!(matches!(ssh_exit_result(None), Err(AppError::Signaled)));
}

#[test]
fn path_option_concatenates_plainly() {
    assert_eq!(
        path_option("UserKnownHostsFile=", b"/kh"),
        b"UserKnownHostsFile=/kh".to_vec()
    );
    assert_eq!(
        path_option("UserKnownHostsFile=", b"/a b/\xff"),
        b"UserKnownHostsFile=/a b/\xff".to_vec()
    );
    assert_eq!(path_option("", b""), Vec::<u8>::new());
}

#[test]
fn executable_needs_file_and_execute_bit() {
    assert!(is_executable(true, Some(0o755)));
    assert!(is_executable(true, Some(0o001)));
    assert!(!is_executable(true, Some(0o644)));
    assert!(!is_executable(false, Some(0o755)));
    assert!(is_executable(true, None));
    assert!(!is_executable(false, None));
}

#[test]
fn finds_first_executable_candidate() {
    assert_eq!(find_executable(true, &vec![false, true, true]).unwrap(), 1);
    assert_eq!(find_executable(true, &vec![true]).unwrap(), 0);
    let missing = find_executable(true, &vec![false, false]).unwrap_err();
    assert_eq!(missing.exit_code(), 3);
    assert_eq!(missing.outcome(), "ssh_start_failure");
    assert_eq!(
        missing.message(),
        "could not start the OpenSSH client: 'ssh' was not found as an executable in PATH"
    );
    assert!(matches!(
        find_executable(false, &vec![true]),
        Err(AppError::SshStart(text)) if text == "PATH is not set; cannot locate 'ssh'"
    ));
    assert!(find_executable(true, &Vec::new()).is_err());
}
