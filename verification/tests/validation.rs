use shellcd_basic::error::AppError;
use shellcd_basic::validation::{
    email, host, nonempty_regular_file, openssh_option_path, private_key_file, script_path,
    username, FileStat,
};

fn check_host(value: &str) -> Result<(), AppError> {
    host(value)
}

fn message(result: Result<(), AppError>) -> String {
    match result {
        Err(AppError::Validation(text)) => text,
        Err(other) => panic!("unexpected error {:?}", other),
        Ok(()) => panic!("accepted"),
    }
}

#[test]
fn accepts_valid_hosts() {
    for value in [
        "192.168.10.20",
        "2001:db8::1",
        "deploy-1.example.com",
        "localhost",
    ] {
        assert!(check_host(value).is_ok(), "{value}");
    }
}

#[test]
fn rejects_invalid_hosts() {
    for value in [
        "",
        "bad host",
        "-host",
        "deploy@host",
        "ssh://host",
        "bad_host",
    ] {
        assert!(check_host(value).is_err(), "{value}");
    }
}

#[test]
fn host_errors_name_the_failed_rule() {
    assert_eq!(message(check_host("")), "host must not be empty");
    assert_eq!(message(check_host("-host")), "host must not begin with '-'");
    assert_eq!(
        message(check_host("bad host")),
        "host must not contain whitespace or control characters"
    );
    assert_eq!(
        message(check_host("deploy@host")),
        "host must be a bare IP address or DNS hostname"
    );
    assert_eq!(
        message(check_host("ssh://host")),
        "host must be a bare IP address or DNS hostname"
    );
    assert_eq!(message(check_host(".")), "host is not a valid DNS hostname");
    assert_eq!(
        message(check_host("bad_host")),
        "host is not a valid IP address or DNS hostname"
    );
    assert_eq!(
        message(check_host("a..b")),
        "host is not a valid IP address or DNS hostname"
    );
    assert_eq!(
        message(check_host("a-.example.com")),
        "host is not a valid IP address or DNS hostname"
    );
}

#[test]
fn ip_addresses_skip_dns_checks() {
    assert!(check_host("10.0.0.1").is_ok());
    assert!(check_host("::1").is_ok());
    assert!(check_host("fe80::1:2:3:4").is_ok());
    assert!(check_host("1.2.3.4:22").is_err());
}

#[test]
fn host_length_limits() {
    assert!(check_host("example.com.").is_ok());
    let label63 = "a".repeat(63);
    let label64 = "a".repeat(64);
    assert!(check_host(&format!("{label63}.com")).is_ok());
    assert!(check_host(&format!("{label64}.com")).is_err());
    let long = vec![label63.as_str(); 4].join(".");
    assert_eq!(long.len(), 255);
    assert_eq!(message(check_host(&long)), "host is not a valid DNS hostname");
    let fits = format!("{}.{}.{}.{}", label63, label63, label63, "a".repeat(61));
    assert_eq!(fits.len(), 253);
    assert!(check_host(&fits).is_ok());
    assert!(check_host("\u{e9}.example.com").is_err());
}

#[test]
fn validates_usernames_and_root_policy() {
    for value in ["deploy", "_deploy", "deploy-01"] {
        assert!(username(value, false).is_ok(), "{value}");
    }
    for value in [
        "Deploy",
        "9deploy",
        "deploy.user",
        "",
        "abcdefghijklmnopqrstuvwxyzabcdefg",
    ] {
        assert!(username(value, false).is_err(), "{value}");
    }
    assert!(username("root", false).is_err());
    assert!(username("root", true).is_ok());
}

#[test]
fn username_errors_name_the_failed_rule() {
    assert_eq!(
        message(username("Deploy", true)),
        "SSH user must match ^[a-z_][a-z0-9_-]{0,31}$"
    );
    assert_eq!(
        message(username("root", false)),
        "SSH user 'root' requires --allow-root"
    );
    assert!(username("abcdefghijklmnopqrstuvwxyzabcdef", false).is_ok());
}

#[test]
fn validates_script_paths() {
    assert!(script_path("/opt/shellcd/scripts/deploy-api.sh").is_ok());
    for value in [
        "deploy.sh",
        "/tmp/deploy.sh",
        "/opt/shellcd/scripts/../deploy.sh",
        "/opt/shellcd/scripts/deploy api.sh",
        "/opt/shellcd/scripts/deploy;id.sh",
        "/opt/shellcd/scripts/deploy'api.sh",
        "/opt/shellcd/scripts/deploy\n.sh",
        "/opt/shellcd/scripts//deploy.sh",
    ] {
        assert!(script_path(value).is_err(), "{value:?}");
    }
}

#[test]
fn script_errors_name_the_failed_rule() {
    assert_eq!(
        message(script_path("/opt/shellcd/scripts/")),
        "script must be below /opt/shellcd/scripts/"
    );
    assert_eq!(
        message(script_path("/tmp/deploy.sh")),
        "script must be below /opt/shellcd/scripts/"
    );
    assert_eq!(
        message(script_path("/opt/shellcd/scripts/deploy")),
        "script must end in .sh"
    );
    assert_eq!(
        message(script_path("/opt/shellcd/scripts/../deploy.sh")),
        "script must not contain '..'"
    );
    assert_eq!(
        message(script_path("/opt/shellcd/scripts//deploy.sh")),
        "script must not contain repeated path separators"
    );
    assert_eq!(
        message(script_path("/opt/shellcd/scripts/deploy api.sh")),
        "script may contain only ASCII letters, digits, '/', '_', '-', and '.'"
    );
    assert!(script_path("/opt/shellcd/scripts/.sh").is_ok());
}

#[test]
fn validates_basic_email_addresses() {
    assert!(email("developer@example.com").is_ok());
    for value in [
        "",
        "developer",
        "@example.com",
        "dev@",
        "a@b@c",
        "a b@example.com",
    ] {
        assert!(email(value).is_err(), "{value:?}");
    }
}

#[test]
fn email_errors_name_the_failed_rule() {
    assert_eq!(
        message(email("a@b@c")),
        "caller email is not a valid basic email address"
    );
    assert_eq!(
        message(email("@example.com")),
        "caller email must have non-empty local and domain parts"
    );
    assert_eq!(
        message(email("dev@")),
        "caller email must have non-empty local and domain parts"
    );
    let long = format!("{}@example.com", "a".repeat(243));
    assert_eq!(long.len(), 255);
    assert!(email(&long).is_err());
    assert!(email(&long[1..]).is_ok());
}

#[test]
fn rejects_empty_files() {
    let empty = Ok(FileStat {
        is_file: true,
        len: 0,
    });
    assert!(nonempty_regular_file(b"/tmp/empty", "test", &empty).is_err());
}

#[test]
fn file_errors_name_the_failed_rule() {
    let directory = Ok(FileStat {
        is_file: false,
        len: 4096,
    });
    assert_eq!(
        message(nonempty_regular_file(b"/tmp", "known-hosts", &directory)),
        "known-hosts file must be a regular file"
    );
    let empty = Ok(FileStat {
        is_file: true,
        len: 0,
    });
    assert_eq!(
        message(nonempty_regular_file(b"/tmp/empty", "test", &empty)),
        "test file must not be empty"
    );
    let missing: Result<FileStat, String> = Err("No such file or directory (os error 2)".into());
    assert_eq!(
        message(nonempty_regular_file(b"/run/missing", "known-hosts", &missing)),
        "known-hosts file '/run/missing': No such file or directory (os error 2)"
    );
    let full = Ok(FileStat {
        is_file: true,
        len: 12,
    });
    assert!(nonempty_regular_file(b"/tmp/full", "test", &full).is_ok());
}

#[test]
fn rejects_ssh_config_syntax_in_option_paths() {
    assert!(openssh_option_path("/run/secrets/known_hosts".as_bytes(), "test").is_ok());
    assert!(openssh_option_path("/run/secrets/known hosts".as_bytes(), "test").is_err());
    assert!(openssh_option_path("/run/secrets/known\\hosts".as_bytes(), "test").is_err());
}

#[test]
fn option_path_errors_name_the_failed_rule() {
    assert_eq!(
        message(openssh_option_path(b"/run/\xff", "known-hosts")),
        "known-hosts path must be valid UTF-8"
    );
    assert_eq!(
        message(openssh_option_path(b"/run/\"x", "known-hosts")),
        "known-hosts path must not contain whitespace, quotes, backslashes, or control characters"
    );
}

#[test]
fn rejects_insecure_private_key_permissions() {
    let key = Ok(FileStat {
        is_file: true,
        len: 17,
    });
    assert!(private_key_file(b"/tmp/key", &key, &Some(Ok(0o640))).is_err());
    assert!(private_key_file(b"/tmp/key", &key, &Some(Ok(0o600))).is_ok());
}

#[test]
fn private_key_errors_name_the_failed_rule() {
    let key = Ok(FileStat {
        is_file: true,
        len: 17,
    });
    assert_eq!(
        message(private_key_file(b"/tmp/key", &key, &Some(Ok(0o604)))),
        "private key file permissions allow group or other access; use chmod 600"
    );
    assert!(private_key_file(b"/tmp/key", &key, &None).is_ok());
    assert_eq!(
        message(private_key_file(b"/tmp/key", &key, &Some(Err("gone".into())))),
        "private key file '/tmp/key': gone"
    );
    let empty = Ok(FileStat {
        is_file: true,
        len: 0,
    });
    assert_eq!(
        message(private_key_file(b"/tmp/key", &empty, &Some(Ok(0o600)))),
        "private key file must not be empty"
    );
}
