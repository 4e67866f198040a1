//! The checked configuration of one run, built from the command-line arguments.

use vstd::prelude::*;
use vstd::string::StringExecFns;
use crate::cli::{Command, RunArgs};
use crate::error::AppError;
use crate::shell::{join_words, shell_words};
use crate::ssh::{lemma_checked_script_is_plain, lemma_remote_command_words, remote_arguments, remote_values};
use crate::validation::{
    email_accepted, host_accepted, key_file_accepted, lemma_email_acceptance,
    lemma_file_acceptance, lemma_host_acceptance, lemma_option_path_acceptance,
    lemma_private_key_acceptance, lemma_script_path_acceptance, lemma_username_pattern,
    nonempty_regular, option_path_accepted, script_path_accepted, user_chars_ok,
};
use crate::validation::{
    email, email_problem, file_problem, host, host_problem, invalid, is_ip_address,
    nonempty_regular_file, openssh_option_path, option_path_problem, private_key_file, private_key_problem,
    script_path, script_path_problem, username, username_problem, FileStat,
};

verus! {

broadcast use vstd::string::group_string_axioms;

/// Who and what started the run, as reported to the remote script.
#[derive(Debug)]
pub struct Metadata {
    pub caller_email: String,
    pub gitlab_user_login: String,
    pub project_path: String,
    pub pipeline_id: String,
    pub job_id: String,
    pub commit_sha: String,
}

/// Everything one run needs, after every check has passed. Paths are held as the
/// bytes of the operating system's path.
#[derive(Debug)]
pub struct RunConfig {
    pub host: String,
    pub port: u16,
    pub user: String,
    pub script: String,
    pub script_arg: Option<String>,
    pub private_key_file: Vec<u8>,
    pub known_hosts_file: Vec<u8>,
    pub metadata: Metadata,
    pub connect_timeout_seconds: u32,
    pub dorarion: bool,
}

/// What the checks need to know of the files on the machine the run starts on.
#[derive(Debug)]
pub struct LocalFacts {
    /// What looking up the private key file gave (`Err`: the failure's text).
    pub private_key: Result<FileStat, String>,
    /// What reading the private key file's permission bits gave; `None` where the
    /// platform has none.
    pub private_key_mode: Option<Result<u32, String>>,
    /// What looking up the known-hosts file gave (`Err`: the failure's text).
    pub known_hosts: Result<FileStat, String>,
}

/// The first of two verdicts that names a problem.
pub open spec fn first_problem(a: Option<Seq<char>>, b: Option<Seq<char>>) -> Option<Seq<char>> {
    if a is Some {
        a
    } else {
        b
    }
}

/// The first rule that the arguments break, checked in this order: host, user, script,
/// email, private key file, known-hosts file and its path, port, connect timeout.
pub open spec fn run_args_problem(a: RunArgs, f: LocalFacts) -> Option<Seq<char>> {
    first_problem(
        host_problem(a.host@, is_ip_address(a.host@)),
        first_problem(
            username_problem(a.user@, a.allow_root),
            first_problem(
                script_path_problem(a.script@),
                first_problem(
                    email_problem(a.caller_email@),
                    first_problem(
                        private_key_problem(a.private_key_file@, f.private_key, f.private_key_mode),
                        first_problem(
                            file_problem(a.known_hosts_file@, "known-hosts"@, f.known_hosts),
                            first_problem(
                                option_path_problem(a.known_hosts_file@, "known-hosts"@),
                                if a.port == 0 {
                                    Some("port must be between 1 and 65535"@)
                                } else if a.connect_timeout_seconds == 0 {
                                    Some("connect timeout must be at least one second"@)
                                } else {
                                    None
                                },
                            ),
                        ),
                    ),
                ),
            ),
        ),
    )
}

/// The text of an optional value, empty where there is none.
pub open spec fn text_or_empty(v: Option<String>) -> Seq<char> {
    match v {
        Some(s) => s@,
        None => Seq::empty(),
    }
}

/// `c` carries the arguments `a` over unchanged, a missing metadata value as empty text.
pub open spec fn config_from_args(c: RunConfig, a: RunArgs) -> bool {
    &&& c.host == a.host
    &&& c.port == a.port
    &&& c.user == a.user
    &&& c.script == a.script
    &&& c.script_arg == a.script_arg
    &&& c.private_key_file == a.private_key_file
    &&& c.known_hosts_file == a.known_hosts_file
    &&& c.metadata.caller_email == a.caller_email
    &&& c.metadata.gitlab_user_login@ == text_or_empty(a.gitlab_user_login)
    &&& c.metadata.project_path@ == text_or_empty(a.project_path)
    &&& c.metadata.pipeline_id@ == text_or_empty(a.pipeline_id)
    &&& c.metadata.job_id@ == text_or_empty(a.job_id)
    &&& c.metadata.commit_sha@ == text_or_empty(a.commit_sha)
    &&& c.connect_timeout_seconds == a.connect_timeout_seconds
    &&& c.dorarion == a.dorarion
}

/// The value, or empty text.
fn or_empty(v: Option<String>) -> (s: String)
    ensures
        s@ == text_or_empty(v),
{
    match v {
        Some(s) => s,
        None => String::new(),
    }
}

impl RunConfig {
    /// Checks the arguments of `run`, given what the machine reports about the two files, and builds the configuration where every check passes.
    /// The first failed check decides the error.
    pub fn try_from_args(args: RunArgs, facts: &LocalFacts) -> (r: Result<RunConfig, AppError>)
        ensures
            match run_args_problem(args, *facts) {
                Some(text) => r matches Err(AppError::Validation(m)) && m@ == text,
                None => r matches Ok(c) && config_from_args(c, args),
            },
            r is Ok ==> {
                &&& host_problem(args.host@, is_ip_address(args.host@)) is None
                &&& username_problem(args.user@, args.allow_root) is None
                &&& script_path_problem(args.script@) is None
                &&& email_problem(args.caller_email@) is None
                &&& private_key_problem(
                    args.private_key_file@,
                    facts.private_key,
                    facts.private_key_mode,
                ) is None
                &&& file_problem(args.known_hosts_file@, "known-hosts"@, facts.known_hosts) is None
                &&& option_path_problem(args.known_hosts_file@, "known-hosts"@) is None
                &&& args.port != 0
                &&& args.connect_timeout_seconds != 0
            },
    {
        host(args.host.as_str())?;
        username(args.user.as_str(), args.allow_root)?;
        script_path(args.script.as_str())?;
        email(args.caller_email.as_str())?;
        private_key_file(args.private_key_file.as_slice(), &facts.private_key, &facts.private_key_mode)?;
        nonempty_regular_file(args.known_hosts_file.as_slice(), "known-hosts", &facts.known_hosts)?;
        openssh_option_path(args.known_hosts_file.as_slice(), "known-hosts")?;
        if args.port == 0 {
            return Err(invalid("port must be between 1 and 65535"));
        }
        if args.connect_timeout_seconds == 0 {
            return Err(invalid("connect timeout must be at least one second"));
        }
        Ok(RunConfig {
            host: args.host,
            port: args.port,
            user: args.user,
            script: args.script,
            script_arg: args.script_arg,
            private_key_file: args.private_key_file,
            known_hosts_file: args.known_hosts_file,
            metadata: Metadata {
                caller_email: args.caller_email,
                gitlab_user_login: or_empty(args.gitlab_user_login),
                project_path: or_empty(args.project_path),
                pipeline_id: or_empty(args.pipeline_id),
                job_id: or_empty(args.job_id),
                commit_sha: or_empty(args.commit_sha),
            },
            connect_timeout_seconds: args.connect_timeout_seconds,
            dorarion: args.dorarion,
        })
    }

    /// Builds the configuration for a command; `run` is the only one.
    pub fn try_from_command(command: Command, facts: &LocalFacts) -> (r: Result<
        RunConfig,
        AppError,
    >)
        ensures
            match command {
                Command::Run(args) => match run_args_problem(args, *facts) {
                    Some(text) => r matches Err(AppError::Validation(m)) && m@ == text,
                    None => r matches Ok(c) && config_from_args(c, args),
                },
            },
    {
        let Command::Run(args) = command;
        RunConfig::try_from_args(args, facts)
    }
}

/// In every configuration that was built, the remote side reads the remote command as
/// the script followed by each metadata value and the script's argument, each exactly one
/// argument and unchanged.
pub proof fn lemma_checked_config_command_words(args: RunArgs, facts: LocalFacts, c: RunConfig)
    requires
        run_args_problem(args, facts) is None,
        config_from_args(c, args),
    ensures
        shell_words(join_words(remote_arguments(c))) == Some(remote_values(c)),
{
    assert(script_path_problem(args.script@) is None);
    lemma_checked_script_is_plain(c.script@);
    lemma_remote_command_words(c);
}

/// The arguments build a configuration exactly when every rule holds: the host is a bare
/// IP address or DNS name; the user matches `^[a-z_][a-z0-9_-]{0,31}$` and is not `root`
/// unless `allow_root` is set; the script lies below the scripts directory; the email has
/// a local part and a domain; the private key is a private, non-empty regular file; the
/// known-hosts file is a non-empty regular file whose path can stand in an option; the
/// port and the connect timeout are not zero.
pub proof fn lemma_run_args_acceptance(a: RunArgs, f: LocalFacts)
    ensures
        run_args_problem(a, f) is None <==> {
            &&& host_accepted(a.host@, is_ip_address(a.host@))
            &&& user_chars_ok(a.user@)
            &&& a.user@.len() <= 32
            &&& (a.user@ != "root"@ || a.allow_root)
            &&& script_path_accepted(a.script@)
            &&& email_accepted(a.caller_email@)
            &&& key_file_accepted(f.private_key, f.private_key_mode)
            &&& nonempty_regular(f.known_hosts)
            &&& option_path_accepted(a.known_hosts_file@)
            &&& a.port != 0
            &&& a.connect_timeout_seconds != 0
        },
{
    lemma_host_acceptance(a.host@, is_ip_address(a.host@));
    lemma_username_pattern(a.user@, a.allow_root);
    lemma_script_path_acceptance(a.script@);
    lemma_email_acceptance(a.caller_email@);
    lemma_private_key_acceptance(a.private_key_file@, f.private_key, f.private_key_mode);
    lemma_file_acceptance(a.known_hosts_file@, "known-hosts"@, f.known_hosts);
    lemma_option_path_acceptance(a.known_hosts_file@, "known-hosts"@);
}

} // verus!
