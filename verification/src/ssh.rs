//! The remote command line and the OpenSSH client's arguments.

use vstd::prelude::*;
use vstd::string::StringExecFns;
use crate::config::RunConfig;
use crate::shell::{
    escaped, is_plain_shell_char, is_plain_word, join_words, lemma_join_push,
    lemma_joined_words, lemma_replace_concat, lemma_replace_single, quote_replacement,
    replace_char, shell_words, stands_for,
};
use crate::validation::{script_char, script_dir, script_path_problem};
use crate::text::{chars_of, push_chars, string_from_chars, utf8_bytes};
use crate::error::AppError;
use vstd::utf8::encode_utf8;

verus! {

broadcast use vstd::string::group_string_axioms;

/// Quotes `value` as one POSIX shell word: the whole text in single quotes, each single
/// quote in it written as `'\''`.
pub fn posix_escape(value: &str) -> (quoted: String)
    ensures
        quoted@ == escaped(value@),
{
    let chars = chars_of(value);
    let mut out: Vec<char> = Vec::new();
    out.push('\'');
    let mut i: usize = 0;
    while i < chars.len()
        invariant
            i <= chars.len(),
            out@ == seq!['\''] + replace_char(chars@.take(i as int), '\'', quote_replacement()),
        decreases chars.len() - i,
    {
        let c = chars[i];
        let ghost before = chars@.take(i as int);
        let ghost old_out = out@;
        proof {
            assert(chars@.take(i + 1) =~= before + seq![c]);
            lemma_replace_concat(before, seq![c], '\'', quote_replacement());
            lemma_replace_single(c, '\'', quote_replacement());
        }
        if c == '\'' {
            out.push('\'');
            out.push('\\');
            out.push('\'');
            out.push('\'');
            assert(out@ =~= old_out + quote_replacement());
        } else {
            out.push(c);
            assert(out@ =~= old_out + seq![c]);
        }
        i = i + 1;
    }
    out.push('\'');
    assert(chars@.take(chars.len() as int) =~= chars@);
    string_from_chars(&out)
}

/// The arguments of the remote command: the script, each metadata value after its flag,
/// and the script's own argument last, where there is one.
pub open spec fn remote_arguments(c: RunConfig) -> Seq<Seq<char>> {
    let m = c.metadata;
    let base = seq![
        c.script@,
        "--caller-email"@,
        escaped(m.caller_email@),
        "--gitlab-user-login"@,
        escaped(m.gitlab_user_login@),
        "--project-path"@,
        escaped(m.project_path@),
        "--pipeline-id"@,
        escaped(m.pipeline_id@),
        "--job-id"@,
        escaped(m.job_id@),
        "--commit-sha"@,
        escaped(m.commit_sha@),
    ];
    match c.script_arg {
        Some(a) => base.push(escaped(a@)),
        None => base,
    }
}

/// The values that the remote script receives as its arguments.
pub open spec fn remote_values(c: RunConfig) -> Seq<Seq<char>> {
    let m = c.metadata;
    let base = seq![
        c.script@,
        "--caller-email"@,
        m.caller_email@,
        "--gitlab-user-login"@,
        m.gitlab_user_login@,
        "--project-path"@,
        m.project_path@,
        "--pipeline-id"@,
        m.pipeline_id@,
        "--job-id"@,
        m.job_id@,
        "--commit-sha"@,
        m.commit_sha@,
    ];
    match c.script_arg {
        Some(a) => base.push(a@),
        None => base,
    }
}

/// Appends a space and `piece`.
fn push_word(out: &mut String, piece: &str)
    ensures
        final(out)@ == old(out)@ + seq![' '] + piece@,
{
    proof {
        reveal_strlit(" ");
    }
    out.append(" ");
    out.append(piece);
}

/// The command line that the remote side runs: the arguments joined by single spaces.
pub fn remote_command(config: &RunConfig) -> (command: String)
    ensures
        command@ == join_words(remote_arguments(*config)),
{
    let m = &config.metadata;
    let mut out = config.script.clone();
    let ghost mut pieces: Seq<Seq<char>> = seq![config.script@];
    proof {
        assert(join_words(pieces) == config.script@);
    }
    proof {
        lemma_join_push(pieces, "--caller-email"@);
        pieces = pieces.push("--caller-email"@);
    }
    push_word(&mut out, "--caller-email");
    let e = posix_escape(m.caller_email.as_str());
    proof {
        lemma_join_push(pieces, e@);
        pieces = pieces.push(e@);
    }
    push_word(&mut out, e.as_str());
    proof {
        lemma_join_push(pieces, "--gitlab-user-login"@);
        pieces = pieces.push("--gitlab-user-login"@);
    }
    push_word(&mut out, "--gitlab-user-login");
    let e = posix_escape(m.gitlab_user_login.as_str());
    proof {
        lemma_join_push(pieces, e@);
        pieces = pieces.push(e@);
    }
    push_word(&mut out, e.as_str());
    proof {
        lemma_join_push(pieces, "--project-path"@);
        pieces = pieces.push("--project-path"@);
    }
    push_word(&mut out, "--project-path");
    let e = posix_escape(m.project_path.as_str());
    proof {
        lemma_join_push(pieces, e@);
        pieces = pieces.push(e@);
    }
    push_word(&mut out, e.as_str());
    proof {
        lemma_join_push(pieces, "--pipeline-id"@);
        pieces = pieces.push("--pipeline-id"@);
    }
    push_word(&mut out, "--pipeline-id");
    let e = posix_escape(m.pipeline_id.as_str());
    proof {
        lemma_join_push(pieces, e@);
        pieces = pieces.push(e@);
    }
    push_word(&mut out, e.as_str());
    proof {
        lemma_join_push(pieces, "--job-id"@);
        pieces = pieces.push("--job-id"@);
    }
    push_word(&mut out, "--job-id");
    let e = posix_escape(m.job_id.as_str());
    proof {
        lemma_join_push(pieces, e@);
        pieces = pieces.push(e@);
    }
    push_word(&mut out, e.as_str());
    proof {
        lemma_join_push(pieces, "--commit-sha"@);
        pieces = pieces.push("--commit-sha"@);
    }
    push_word(&mut out, "--commit-sha");
    let e = posix_escape(m.commit_sha.as_str());
    proof {
        lemma_join_push(pieces, e@);
        pieces = pieces.push(e@);
    }
    push_word(&mut out, e.as_str());
    if let Some(script_arg) = &config.script_arg {
        let e = posix_escape(script_arg.as_str());
        proof {
            lemma_join_push(pieces, e@);
            pieces = pieces.push(e@);
        }
        push_word(&mut out, e.as_str());
    }
    assert(pieces =~= remote_arguments(*config));
    out
}

/// The remote script receives each metadata value, and its own argument, as exactly one
/// argument, unchanged, whatever characters the values hold; the script path, which the
/// checks restrict to plain characters, is read as itself.
pub proof fn lemma_remote_command_words(c: RunConfig)
    requires
        is_plain_word(c.script@),
    ensures
        shell_words(join_words(remote_arguments(c))) == Some(remote_values(c)),
{
    reveal_strlit("--caller-email");
    reveal_strlit("--gitlab-user-login");
    reveal_strlit("--project-path");
    reveal_strlit("--pipeline-id");
    reveal_strlit("--job-id");
    reveal_strlit("--commit-sha");
    let pieces = remote_arguments(c);
    let values = remote_values(c);
    assert forall|i: int| 0 <= i < pieces.len() implies stands_for(
        #[trigger] pieces[i],
        values[i],
    ) by {
        if i % 2 == 1 || i == 12 {
        }
    }
    lemma_joined_words(pieces, values);
}

/// The character of a decimal digit.
pub open spec fn digit_char(d: nat) -> char {
    (('0' as nat) + d) as char
}

/// The decimal digits of `n`, without leading zeros (what `to_string` gives for an
/// unsigned integer).
pub open spec fn decimal(n: nat) -> Seq<char>
    decreases n,
{
    if n < 10 {
        seq![digit_char(n)]
    } else {
        decimal(n / 10).push(digit_char(n % 10))
    }
}

/// The decimal digits of `n`.
pub fn decimal_chars(n: u32) -> (digits: Vec<char>)
    ensures
        digits@ == decimal(n as nat),
    decreases n,
{
    let d = (n % 10) as u8;
    let c = (48u8 + d) as char;
    assert(c == digit_char((n % 10) as nat));
    if n < 10 {
        let mut v: Vec<char> = Vec::new();
        v.push(c);
        v
    } else {
        let mut v = decimal_chars(n / 10);
        v.push(c);
        v
    }
}

/// The text `prefix` followed by the decimal digits of `n`, as UTF-8 bytes.
fn prefixed_decimal(prefix: &str, n: u32) -> (b: Vec<u8>)
    ensures
        b@ == encode_utf8(prefix@ + decimal(n as nat)),
{
    let mut s = String::from_str(prefix);
    push_chars(&mut s, &decimal_chars(n));
    utf8_bytes(s.as_str())
}

/// The OpenSSH client options of a run, in order: no agent, no interactive prompts, no
/// forwarding, public-key authentication only, strict checking against the given
/// known-hosts file.
pub open spec fn ssh_options(c: RunConfig) -> Seq<Seq<u8>> {
    seq![
        encode_utf8("BatchMode=yes"@),
        encode_utf8("IdentitiesOnly=yes"@),
        encode_utf8("IdentityAgent=none"@),
        encode_utf8("StrictHostKeyChecking=yes"@),
        encode_utf8("UserKnownHostsFile="@) + c.known_hosts_file@,
        encode_utf8("ConnectTimeout="@ + decimal(c.connect_timeout_seconds as nat)),
        encode_utf8("ConnectionAttempts=1"@),
        encode_utf8("LogLevel=ERROR"@),
        encode_utf8("RequestTTY=no"@),
        encode_utf8("ClearAllForwardings=yes"@),
        encode_utf8("ExitOnForwardFailure=yes"@),
        encode_utf8("ForwardAgent=no"@),
        encode_utf8("ForwardX11=no"@),
        encode_utf8("PasswordAuthentication=no"@),
        encode_utf8("KbdInteractiveAuthentication=no"@),
        encode_utf8("PreferredAuthentications=publickey"@),
    ]
}

/// Each option preceded by `-o`.
pub open spec fn option_pairs(opts: Seq<Seq<u8>>) -> Seq<Seq<u8>>
    decreases opts.len(),
{
    if opts.len() == 0 {
        Seq::empty()
    } else {
        option_pairs(opts.drop_last()) + seq![encode_utf8("-o"@), opts.last()]
    }
}

/// What follows the options: port, identity and login, then `--`, the host and the
/// remote command.
pub open spec fn ssh_target(c: RunConfig) -> Seq<Seq<u8>> {
    seq![
        encode_utf8("-p"@),
        encode_utf8(decimal(c.port as nat)),
        encode_utf8("-i"@),
        c.private_key_file@,
        encode_utf8("-l"@),
        encode_utf8(c.user@),
        encode_utf8("--"@),
        encode_utf8(c.host@),
        encode_utf8(join_words(remote_arguments(c))),
    ]
}

/// The complete argument list of the OpenSSH client for a run: no configuration file,
/// the options, then the target.
pub open spec fn ssh_argument_list(c: RunConfig) -> Seq<Seq<u8>> {
    seq![encode_utf8("-F"@), encode_utf8("/dev/null"@)] + option_pairs(ssh_options(c)) + ssh_target(c)
}

/// The byte contents of each argument.
pub open spec fn arg_views(args: Seq<Vec<u8>>) -> Seq<Seq<u8>> {
    args.map_values(|a: Vec<u8>| a@)
}

/// An OpenSSH option whose value is a path: the prefix's UTF-8 bytes followed by the
/// path's bytes, with no separator, quoting or escaping.
pub fn path_option(prefix: &str, path: &[u8]) -> (option: Vec<u8>)
    ensures
        option@ == encode_utf8(prefix@) + path@,
{
    let mut option = utf8_bytes(prefix);
    let mut tail = vstd::slice::slice_to_vec(path);
    option.append(&mut tail);
    option
}

/// Whether a file may be run as a program: it is a regular file and, where the platform
/// has permission bits (`mode` is `Some`), some execute bit is set.
pub open spec fn executable_file(is_file: bool, mode: Option<u32>) -> bool {
    is_file && match mode {
        Some(bits) => bits & 0o111u32 != 0,
        None => true,
    }
}

/// Decides, from what the file system reports, whether a candidate for the OpenSSH client
/// can be run.
pub fn is_executable(is_file: bool, mode: Option<u32>) -> (r: bool)
    ensures
        r == executable_file(is_file, mode),
{
    if !is_file {
        return false;
    }
    match mode {
        Some(bits) => bits & 0o111u32 != 0,
        None => true,
    }
}

/// Picks the OpenSSH client among the candidates that `PATH` names, in order, given whether
/// `PATH` is set and which candidates can be run: the first that can, or a start failure
/// that says why there is none.
pub fn find_executable(path_set: bool, executable: &Vec<bool>) -> (r: Result<usize, AppError>)
    ensures
        !path_set ==> (r matches Err(AppError::SshStart(m)) && m@
            == "PATH is not set; cannot locate 'ssh'"@),
        path_set && (exists|i: int| 0 <= i < executable.len() && #[trigger] executable@[i]) ==> (
        r matches Ok(i) && i < executable.len() && executable@[i as int] && forall|k: int|
            0 <= k < i ==> !#[trigger] executable@[k]),
        path_set && !(exists|i: int| 0 <= i < executable.len() && #[trigger] executable@[i]) ==> (
        r matches Err(AppError::SshStart(m)) && m@ == "'ssh' was not found as an executable in PATH"@),
{
    if !path_set {
        return Err(AppError::SshStart(String::from_str("PATH is not set; cannot locate 'ssh'")));
    }
    let mut i: usize = 0;
    while i < executable.len()
        invariant
            path_set,
            i <= executable.len(),
            forall|k: int| 0 <= k < i ==> !#[trigger] executable@[k],
        decreases executable.len() - i,
    {
        if executable[i] {
            return Ok(i);
        }
        i = i + 1;
    }
    Err(AppError::SshStart(String::from_str("'ssh' was not found as an executable in PATH")))
}

/// The option values of a run.
fn option_values(config: &RunConfig) -> (opts: Vec<Vec<u8>>)
    ensures
        arg_views(opts@) == ssh_options(*config),
{
    let known_hosts = path_option("UserKnownHostsFile=", config.known_hosts_file.as_slice());
    let opts = vec![
        utf8_bytes("BatchMode=yes"),
        utf8_bytes("IdentitiesOnly=yes"),
        utf8_bytes("IdentityAgent=none"),
        utf8_bytes("StrictHostKeyChecking=yes"),
        known_hosts,
        prefixed_decimal("ConnectTimeout=", config.connect_timeout_seconds),
        utf8_bytes("ConnectionAttempts=1"),
        utf8_bytes("LogLevel=ERROR"),
        utf8_bytes("RequestTTY=no"),
        utf8_bytes("ClearAllForwardings=yes"),
        utf8_bytes("ExitOnForwardFailure=yes"),
        utf8_bytes("ForwardAgent=no"),
        utf8_bytes("ForwardX11=no"),
        utf8_bytes("PasswordAuthentication=no"),
        utf8_bytes("KbdInteractiveAuthentication=no"),
        utf8_bytes("PreferredAuthentications=publickey"),
    ];
    assert(arg_views(opts@) =~= ssh_options(*config));
    opts
}

/// The arguments for the OpenSSH client that runs the configured script on the
/// configured host, as the bytes of each argument.
pub fn ssh_arguments(config: &RunConfig) -> (args: Vec<Vec<u8>>)
    ensures
        arg_views(args@) == ssh_argument_list(*config),
{
    let opts = option_values(config);
    let mut args: Vec<Vec<u8>> = Vec::new();
    args.push(utf8_bytes("-F"));
    args.push(utf8_bytes("/dev/null"));
    let ghost head = seq![encode_utf8("-F"@), encode_utf8("/dev/null"@)];
    proof {
        assert(arg_views(args@) =~= head);
        assert(opts@.take(0) =~= Seq::<Vec<u8>>::empty());
        assert(arg_views(opts@).take(0) =~= Seq::<Seq<u8>>::empty());
        assert(head + option_pairs(Seq::empty()) =~= head);
    }
    let mut i: usize = 0;
    while i < opts.len()
        invariant
            i <= opts.len(),
            arg_views(opts@) == ssh_options(*config),
            arg_views(args@) == head + option_pairs(arg_views(opts@).take(i as int)),
        decreases opts.len() - i,
    {
        let o = opts[i].clone();
        assert(o@ =~= opts@[i as int]@);
        let ghost before = arg_views(args@);
        args.push(utf8_bytes("-o"));
        args.push(o);
        proof {
            let taken = arg_views(opts@).take(i + 1);
            assert(taken.drop_last() =~= arg_views(opts@).take(i as int));
            assert(taken.last() == opts@[i as int]@);
            assert(arg_views(args@) =~= before + seq![encode_utf8("-o"@), o@]);
        }
        i = i + 1;
    }
    assert(arg_views(opts@).take(opts.len() as int) =~= arg_views(opts@));
    let mut target = target_values(config);
    let ghost middle = args@;
    args.append(&mut target);
    assert(arg_views(args@) =~= arg_views(middle) + ssh_target(*config));
    args
}

/// The target arguments of a run.
fn target_values(config: &RunConfig) -> (t: Vec<Vec<u8>>)
    ensures
        arg_views(t@) == ssh_target(*config),
{
    let port = decimal_chars(config.port as u32);
    let key = config.private_key_file.clone();
    assert(key@ =~= config.private_key_file@);
    let t = vec![
        utf8_bytes("-p"),
        utf8_bytes(string_from_chars(&port).as_str()),
        utf8_bytes("-i"),
        key,
        utf8_bytes("-l"),
        utf8_bytes(config.user.as_str()),
        utf8_bytes("--"),
        utf8_bytes(config.host.as_str()),
        utf8_bytes(remote_command(config).as_str()),
    ];
    assert(arg_views(t@) =~= ssh_target(*config));
    t
}

/// What the exit code of the OpenSSH client, where it exited normally, means: 255 is
/// its own connection failure, any other code is the remote script's; no code at all
/// means a signal ended it.
pub open spec fn ssh_exit_meaning(code: Option<i32>) -> Result<i32, AppError> {
    match code {
        Some(255) => Err(AppError::SshConnection),
        Some(c) => Ok(c),
        None => Err(AppError::Signaled),
    }
}

/// Every exit code of the client but 255 is the remote script's own and comes back as it
/// is; 255 alone is the client's connection failure, and no code at all is a signal.
pub proof fn lemma_exit_code_meaning(code: i32)
    ensures
        code != 255 ==> ssh_exit_meaning(Some(code)) == Ok::<i32, AppError>(code),
        code == 255 ==> ssh_exit_meaning(Some(code)) is Err && ssh_exit_meaning(Some(code))->Err_0 is SshConnection,
        ssh_exit_meaning(None) is Err && ssh_exit_meaning(None)->Err_0 is Signaled,
{
}

/// Maps how the OpenSSH client ended to the run's result.
pub fn ssh_exit_result(code: Option<i32>) -> (r: Result<i32, AppError>)
    ensures
        r == ssh_exit_meaning(code),
{
    match code {
        Some(255) => Err(AppError::SshConnection),
        Some(c) => Ok(c),
        None => Err(AppError::Signaled),
    }
}

/// The `k`-th option stands at `at + 1 + 2k` in `args`, right after an `-o`.
pub open spec fn option_passed(args: Seq<Seq<u8>>, at: int, opts: Seq<Seq<u8>>, k: int) -> bool {
    &&& args[at + 2 * k] == encode_utf8("-o"@)
    &&& args[at + 2 * k + 1] == opts[k]
}

/// Each option sits right after its `-o`.
pub proof fn lemma_option_pairs(opts: Seq<Seq<u8>>)
    ensures
        option_pairs(opts).len() == 2 * opts.len(),
        forall|k: int| 0 <= k < opts.len() ==> #[trigger] option_passed(option_pairs(opts), 0, opts, k),
    decreases opts.len(),
{
    if opts.len() > 0 {
        lemma_option_pairs(opts.drop_last());
        let prev = option_pairs(opts.drop_last());
        let cur = option_pairs(opts);
        assert forall|k: int| 0 <= k < opts.len() implies #[trigger] option_passed(cur, 0, opts, k) by {
            if k < opts.len() - 1 {
                assert(option_passed(prev, 0, opts.drop_last(), k));
                assert(cur[2 * k] == prev[2 * k]);
                assert(cur[2 * k + 1] == prev[2 * k + 1]);
                assert(opts.drop_last()[k] == opts[k]);
            } else {
                assert(cur[2 * k] == encode_utf8("-o"@));
                assert(cur[2 * k + 1] == opts.last());
            }
        }
    }
}

/// The client reads no configuration file; every hardening option is passed right after
/// an `-o`; the target follows the options; the host comes right after `--`, so it is
/// never read as an option; the remote command is the last argument.
pub proof fn lemma_ssh_argument_shape(c: RunConfig)
    ensures
        ssh_argument_list(c).len() == 43,
        ssh_argument_list(c)[0] == encode_utf8("-F"@),
        ssh_argument_list(c)[1] == encode_utf8("/dev/null"@),
        forall|k: int| 0 <= k < 16 ==> #[trigger] option_passed(ssh_argument_list(c), 2, ssh_options(c), k),
        ssh_argument_list(c)[36] == encode_utf8("-i"@),
        ssh_argument_list(c)[37] == c.private_key_file@,
        ssh_argument_list(c)[40] == encode_utf8("--"@),
        ssh_argument_list(c)[41] == encode_utf8(c.host@),
        ssh_argument_list(c).last() == encode_utf8(join_words(remote_arguments(c))),
{
    let opts = ssh_options(c);
    lemma_option_pairs(opts);
    let pairs = option_pairs(opts);
    let a = ssh_argument_list(c);
    assert forall|k: int| 0 <= k < 16 implies #[trigger] option_passed(a, 2, opts, k) by {
        assert(option_passed(pairs, 0, opts, k));
        assert(a[2 + 2 * k] == pairs[2 * k]);
        assert(a[2 + 2 * k + 1] == pairs[2 * k + 1]);
    }
}

/// A script path that passed its check is read by a shell as itself.
pub proof fn lemma_checked_script_is_plain(s: Seq<char>)
    requires
        script_path_problem(s) is None,
    ensures
        is_plain_word(s),
{
    assert forall|i: int| 0 <= i < s.len() implies is_plain_shell_char(#[trigger] s[i]) by {
        assert(script_char(s[i]));
    }
    assert(s.len() >= script_dir().len());
}

/// The arguments that would hand the remote command to a local shell.
pub open spec fn is_shell_invocation(arg: Seq<u8>) -> bool {
    arg == encode_utf8("sh"@) || arg == encode_utf8("-c"@)
}

/// Different texts have different encodings.
proof fn lemma_encode_injective(a: Seq<char>, b: Seq<char>)
    requires
        encode_utf8(a) == encode_utf8(b),
    ensures
        a == b,
{
    vstd::utf8::encode_utf8_decode_utf8(a);
    vstd::utf8::encode_utf8_decode_utf8(b);
}

/// A text other than `sh` and `-c` is encoded as neither.
proof fn lemma_text_not_invocation(t: Seq<char>)
    requires
        t != "sh"@,
        t != "-c"@,
    ensures
        !is_shell_invocation(encode_utf8(t)),
{
    if encode_utf8(t) == encode_utf8("sh"@) {
        lemma_encode_injective(t, "sh"@);
    }
    if encode_utf8(t) == encode_utf8("-c"@) {
        lemma_encode_injective(t, "-c"@);
    }
}

/// Every character takes at least one byte.
proof fn lemma_encode_len(s: Seq<char>)
    ensures
        encode_utf8(s).len() >= s.len(),
    decreases s.len(),
{
    if s.len() > 0 {
        lemma_encode_len(s.drop_first());
        assert(vstd::utf8::encode_scalar(s[0] as u32).len() >= 1);
    }
}

/// The last character of a number's decimal digits is a digit.
proof fn lemma_decimal_last(n: nat)
    ensures
        decimal(n).len() > 0,
        '0' <= decimal(n).last() <= '9',
    decreases n,
{
    let d = n % 10;
    assert(d < 10);
    let v = ('0' as nat) + d;
    assert(48 <= v <= 57);
    assert(digit_char(d) == v as char);
    if n >= 10 {
        lemma_decimal_last(n / 10);
    }
}

/// Joined words are longer than the second word.
proof fn lemma_join_longer(ws: Seq<Seq<char>>)
    requires
        ws.len() >= 1,
    ensures
        join_words(ws).len() >= ws[0].len(),
        ws.len() >= 2 ==> join_words(ws).len() > ws[1].len(),
    decreases ws.len(),
{
    if ws.len() >= 2 {
        lemma_join_longer(ws.drop_first());
    }
}

/// Where the user, the host and the key path are not `sh` or `-c` themselves, no argument of
/// the OpenSSH client is: the client is run directly, with the remote command as one
/// argument, never through `sh -c`.
pub proof fn lemma_no_shell_invocation(c: RunConfig)
    requires
        c.user@ != "sh"@,
        c.user@ != "-c"@,
        c.host@ != "sh"@,
        c.host@ != "-c"@,
        !is_shell_invocation(c.private_key_file@),
    ensures
        forall|i: int|
            0 <= i < ssh_argument_list(c).len() ==> !is_shell_invocation(
                #[trigger] ssh_argument_list(c)[i],
            ),
{
    reveal_strlit("sh");
    reveal_strlit("-c");
    reveal_strlit("-F");
    reveal_strlit("/dev/null");
    reveal_strlit("-o");
    reveal_strlit("-p");
    reveal_strlit("-i");
    reveal_strlit("-l");
    reveal_strlit("--");
    reveal_strlit("BatchMode=yes");
    reveal_strlit("IdentitiesOnly=yes");
    reveal_strlit("IdentityAgent=none");
    reveal_strlit("StrictHostKeyChecking=yes");
    reveal_strlit("UserKnownHostsFile=");
    reveal_strlit("ConnectTimeout=");
    reveal_strlit("ConnectionAttempts=1");
    reveal_strlit("LogLevel=ERROR");
    reveal_strlit("RequestTTY=no");
    reveal_strlit("ClearAllForwardings=yes");
    reveal_strlit("ExitOnForwardFailure=yes");
    reveal_strlit("ForwardAgent=no");
    reveal_strlit("ForwardX11=no");
    reveal_strlit("PasswordAuthentication=no");
    reveal_strlit("KbdInteractiveAuthentication=no");
    reveal_strlit("PreferredAuthentications=publickey");
    reveal_strlit("--caller-email");
    let opts = ssh_options(c);
    let target = ssh_target(c);
    let head = seq![encode_utf8("-F"@), encode_utf8("/dev/null"@)];
    let a = ssh_argument_list(c);
    assert("-F"@[1] != "-c"@[1]);
    lemma_text_not_invocation("-F"@);
    lemma_text_not_invocation("/dev/null"@);
    assert("-o"@[1] != "-c"@[1]);
    lemma_text_not_invocation("-o"@);
    assert("-p"@[1] != "-c"@[1]);
    lemma_text_not_invocation("-p"@);
    assert("-i"@[1] != "-c"@[1]);
    lemma_text_not_invocation("-i"@);
    assert("-l"@[1] != "-c"@[1]);
    lemma_text_not_invocation("-l"@);
    assert("--"@[1] != "-c"@[1]);
    lemma_text_not_invocation("--"@);
    lemma_text_not_invocation(c.user@);
    lemma_text_not_invocation(c.host@);
    // the options
    lemma_text_not_invocation("BatchMode=yes"@);
    lemma_text_not_invocation("IdentitiesOnly=yes"@);
    lemma_text_not_invocation("IdentityAgent=none"@);
    lemma_text_not_invocation("StrictHostKeyChecking=yes"@);
    lemma_text_not_invocation("ConnectionAttempts=1"@);
    lemma_text_not_invocation("LogLevel=ERROR"@);
    lemma_text_not_invocation("RequestTTY=no"@);
    lemma_text_not_invocation("ClearAllForwardings=yes"@);
    lemma_text_not_invocation("ExitOnForwardFailure=yes"@);
    lemma_text_not_invocation("ForwardAgent=no"@);
    lemma_text_not_invocation("ForwardX11=no"@);
    lemma_text_not_invocation("PasswordAuthentication=no"@);
    lemma_text_not_invocation("KbdInteractiveAuthentication=no"@);
    lemma_text_not_invocation("PreferredAuthentications=publickey"@);
    let timeout = "ConnectTimeout="@ + decimal(c.connect_timeout_seconds as nat);
    assert(timeout.len() > 2);
    lemma_text_not_invocation(timeout);
    lemma_encode_len("UserKnownHostsFile="@);
    assert(encode_utf8("sh"@).len() == 2 && encode_utf8("-c"@).len() == 2) by {
        vstd::utf8::is_ascii_chars_encode_utf8("sh"@);
        vstd::utf8::is_ascii_chars_encode_utf8("-c"@);
    }
    assert(!is_shell_invocation(opts[4]));
    assert forall|k: int| 0 <= k < 16 implies !is_shell_invocation(#[trigger] opts[k]) by {}
    // the target
    let port = decimal(c.port as nat);
    lemma_decimal_last(c.port as nat);
    assert(port != "sh"@ && port != "-c"@) by {
        if port == "sh"@ || port == "-c"@ {
            assert(port.last() == port[1]);
        }
    }
    lemma_text_not_invocation(port);
    let remote = join_words(remote_arguments(c));
    lemma_join_longer(remote_arguments(c));
    assert(remote_arguments(c)[1] == "--caller-email"@);
    lemma_text_not_invocation(remote);
    assert forall|j: int| 0 <= j < 9 implies !is_shell_invocation(#[trigger] target[j]) by {}
    lemma_ssh_argument_shape(c);
    lemma_option_pairs(opts);
    let pairs = option_pairs(opts);
    assert forall|i: int| 0 <= i < a.len() implies !is_shell_invocation(#[trigger] a[i]) by {
        if i < 2 {
            assert(a[i] == head[i]);
        } else if i < 34 {
            let k = (i - 2) / 2;
            assert(option_passed(pairs, 0, opts, k));
            assert(a[i] == pairs[i - 2]);
            if (i - 2) % 2 == 0 {
                assert(pairs[i - 2] == pairs[2 * k]);
            } else {
                assert(pairs[i - 2] == pairs[2 * k + 1]);
                assert(!is_shell_invocation(opts[k]));
            }
        } else {
            assert(a[i] == target[i - 34]);
        }
    }
}

} // verus!
