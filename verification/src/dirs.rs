//! Runtime-directory naming.
//!
//! The daemon owns one directory per effective user, derived from the
//! system temporary root and the user name. Reading the environment and
//! creating or removing the directory is the unverified front end's job;
//! here only the path computation lives.

use vstd::prelude::*;

verus! {

/// Missing environment state: the daemon refuses to start without both the
/// temporary root and the user name.
#[derive(Clone, Copy, PartialEq, Eq, Structural, Debug)]
pub enum ConfigError {
    /// The temporary-storage root is not known.
    MissingTmpDir,
    /// The user name is not known.
    MissingUser,
}

/// Computes the per-user runtime directory from the temporary root and the
/// user name, both handed in as plain values (read from the environment by
/// the caller). Fails exactly when one of them is absent.
pub fn daemon_dir(tmpdir: Option<&str>, user: Option<&str>) -> (r: Result<
    String,
    ConfigError,
>)
    ensures
        match r {
            Ok(dir) => {
                &&& tmpdir is Some
                &&& user is Some
                &&& dir@ == tmpdir->Some_0@ + "/kak-tree-sitter-"@ + user->Some_0@
            },
            Err(e) => {
                &&& tmpdir is None || user is None
                &&& e == ConfigError::MissingTmpDir <==> tmpdir is None
            },
        },
{
    match (tmpdir, user) {
        (Some(t), Some(u)) => {
            let mut dir = t.to_owned();
            dir.append("/kak-tree-sitter-");
            dir.append(u);
            Ok(dir)
        },
        (None, _) => Err(ConfigError::MissingTmpDir),
        (_, None) => Err(ConfigError::MissingUser),
    }
}

/// Path of the listening socket inside the runtime directory.
pub fn socket_path(dir: &str) -> (r: String)
    ensures
        r@ == dir@ + "/socket"@,
{
    let mut p = dir.to_owned();
    p.append("/socket");
    p
}

/// Path of the standard-output capture file inside the runtime directory.
pub fn stdout_path(dir: &str) -> (r: String)
    ensures
        r@ == dir@ + "/stdout.txt"@,
{
    let mut p = dir.to_owned();
    p.append("/stdout.txt");
    p
}

/// Path of the standard-error capture file inside the runtime directory.
pub fn stderr_path(dir: &str) -> (r: String)
    ensures
        r@ == dir@ + "/stderr.txt"@,
{
    let mut p = dir.to_owned();
    p.append("/stderr.txt");
    p
}

/// Path of the process-id file inside the runtime directory.
pub fn pid_path(dir: &str) -> (r: String)
    ensures
        r@ == dir@ + "/pid"@,
{
    let mut p = dir.to_owned();
    p.append("/pid");
    p
}

} // verus!
