//! The command-line interface: one `run` command and its arguments.

use vstd::prelude::*;
use vstd::string::StringExecFns;
use crate::text::same_text;

verus! {

broadcast use vstd::string::group_string_axioms;

/// The parsed command line.
#[derive(Debug)]
pub struct Cli {
    pub command: Command,
}

/// The commands the tool offers.
#[derive(Debug)]
pub enum Command {
    /// Run one approved script on a remote host.
    Run(RunArgs),
}

/// The arguments of `run`, as given. Paths are the bytes of the operating system's path.
#[derive(Debug)]
pub struct RunArgs {
    pub host: String,
    pub port: u16,
    pub user: String,
    pub script: String,
    /// Optional single positional argument passed to the remote script.
    pub script_arg: Option<String>,
    pub private_key_file: Vec<u8>,
    pub known_hosts_file: Vec<u8>,
    pub caller_email: String,
    pub gitlab_user_login: Option<String>,
    pub project_path: Option<String>,
    pub pipeline_id: Option<String>,
    pub job_id: Option<String>,
    pub commit_sha: Option<String>,
    pub connect_timeout_seconds: u32,
    pub allow_root: bool,
    /// Enable the no-op Dorarion start and end hooks.
    pub dorarion: bool,
}

/// The value that a `--dorarion` text stands for, where it stands for one.
pub open spec fn dorarion_value(s: Seq<char>) -> Option<bool> {
    if s == "true"@ || s == "1"@ {
        Some(true)
    } else if s == "false"@ || s == "0"@ {
        Some(false)
    } else {
        None
    }
}

/// Reads the value of `--dorarion`: `true` or `1` switch the hooks on, `false` or `0` off;
/// any other text is refused.
pub fn parse_dorarion(value: &str) -> (r: Result<bool, String>)
    ensures
        match dorarion_value(value@) {
            Some(b) => r == Ok::<bool, String>(b),
            None => r matches Err(m) && m@ == "expected one of: true, false, 1, 0"@,
        },
{
    if same_text(value, "true") || same_text(value, "1") {
        Ok(true)
    } else if same_text(value, "false") || same_text(value, "0") {
        Ok(false)
    } else {
        Err(String::from_str("expected one of: true, false, 1, 0"))
    }
}

} // verus!
