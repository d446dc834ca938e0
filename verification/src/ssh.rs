//! How remote commands are put to the system `ssh` client.
use vstd::prelude::*;
use crate::text::{concat_str, concat3_str, decimal_chars, decimal_text, string_of};
use crate::service::texts;

verus! {

/// The `user@host` or plain `host` that `ssh` connects to.
pub open spec fn ssh_target_text(ssh_user: Option<Seq<char>>, host: Seq<char>) -> Seq<char> {
    match ssh_user {
        Some(u) => u + "@"@ + host,
        None => host,
    }
}

/// An optional string slice, by its text.
pub open spec fn opt_str_view(o: Option<&str>) -> Option<Seq<char>> {
    match o {
        Some(s) => Some(s@),
        None => None,
    }
}

/// The destination given to `ssh`: `user@host` when a user is set.
pub fn ssh_target(ssh_user: Option<&str>, host: &str) -> (r: String)
    ensures
        r@ == ssh_target_text(opt_str_view(ssh_user), host@),
{
    match ssh_user {
        Some(u) => concat3_str(u, "@", host),
        None => host.to_string(),
    }
}

/// The options given to every `ssh` call: never prompt, time out
/// connecting after 10 s, probe the connection every 15 s and give up after
/// three silent probes, accept new host keys but reject changed ones.
pub open spec fn ssh_option_texts() -> Seq<Seq<char>> {
    seq![
        "-o"@,
        "BatchMode=yes"@,
        "-o"@,
        "ConnectTimeout=10"@,
        "-o"@,
        "ServerAliveInterval=15"@,
        "-o"@,
        "ServerAliveCountMax=3"@,
        "-o"@,
        "StrictHostKeyChecking=accept-new"@,
    ]
}

/// The full argument list of one `ssh` call: the options, the target and
/// the remote command.
pub fn ssh_arguments(ssh_user: Option<&str>, host: &str, cmd: &str) -> (r: Vec<String>)
    ensures
        texts(r@) == ssh_option_texts() + seq![ssh_target_text(opt_str_view(ssh_user), host@), cmd@],
{
    let mut r: Vec<String> = Vec::new();
    r.push("-o".to_string());
    r.push("BatchMode=yes".to_string());
    r.push("-o".to_string());
    r.push("ConnectTimeout=10".to_string());
    r.push("-o".to_string());
    r.push("ServerAliveInterval=15".to_string());
    r.push("-o".to_string());
    r.push("ServerAliveCountMax=3".to_string());
    r.push("-o".to_string());
    r.push("StrictHostKeyChecking=accept-new".to_string());
    r.push(ssh_target(ssh_user, host));
    r.push(cmd.to_string());
    assert(texts(r@) =~= ssh_option_texts() + seq![ssh_target_text(opt_str_view(ssh_user), host@), cmd@]);
    r
}

/// The remote command wrapped so that its error output joins its standard
/// output: `{ cmd; } 2>&1`.
pub fn merged_command(cmd: &str) -> (r: String)
    ensures
        r@ == "{ "@ + cmd@ + "; } 2>&1"@,
{
    concat3_str("{ ", cmd, "; } 2>&1")
}

/// The command that prints the last `lines` lines of the file at `path`.
pub fn tail_command(lines: usize, path: &str) -> (r: String)
    ensures
        r@ == "tail -n "@ + decimal_text(lines as nat) + " "@ + path@,
{
    let n = decimal_chars(lines as u64);
    let ns = string_of(n.as_slice());
    let a = concat_str("tail -n ", ns.as_str());
    concat3_str(a.as_str(), " ", path)
}

/// What a finished `ssh` call means: when it succeeded, its whole output,
/// standard output followed by standard error; otherwise an error that
/// carries its standard error.
pub fn ssh_outcome(success: bool, stdout: String, stderr: &str) -> (r: Result<String, String>)
    ensures
        success ==> (r matches Ok(o) && o@ == stdout@ + stderr@),
        !success ==> (r matches Err(e) && e@ == "ssh failed: "@ + stderr@),
{
    if success {
        Ok(concat_str(stdout.as_str(), stderr))
    } else {
        Err(concat_str("ssh failed: ", stderr))
    }
}

/// The exit code reported for a streamed command: the remote code, or -1
/// when the process ended without one or could not be waited for.
pub fn streamed_exit_code(code: Option<i32>) -> (r: i32)
    ensures
        r == match code {
            Some(c) => c,
            None => -1i32,
        },
{
    match code {
        Some(c) => c,
        None => -1,
    }
}

} // verus!
