//! Formatting commands for a running Kakoune session.
//!
//! Delivering a command spawns Kakoune's own executable in pipe mode; that
//! is the unverified front end's job. What is verified here is the command
//! text itself: how a raw command is wrapped for one client of the session
//! or passed through session-wide.

use vstd::prelude::*;

verus! {

/// A running Kakoune session to talk to, optionally scoped to one client
/// within it.
pub struct KakSession {
    /// Name of the running session.
    pub session_name: String,
    /// Client to address within the session, if any.
    pub client_name: Option<String>,
}

impl KakSession {
    /// A handle on the named session, scoped to `client_name` when one is
    /// given.
    pub fn new(session_name: String, client_name: Option<String>) -> (s: KakSession)
        ensures
            s.session_name == session_name,
            s.client_name == client_name,
    {
        KakSession { session_name, client_name }
    }

    /// Format a command to send to Kakoune.
    ///
    /// If `client_name` exists, the command is wrapped in an evaluation
    /// directive targeted at that client, so its effect stays in that
    /// client's view; otherwise the raw command goes out session-wide.
    /// Either way a newline terminates it.
    pub fn fmt_cmd(&self, cmd: &str) -> (r: String)
        ensures
            match self.client_name {
                Some(client) => r@ == "eval -client "@ + client@ + " '"@ + cmd@ + "'\n"@,
                None => r@ == cmd@ + "\n"@,
            },
    {
        match &self.client_name {
            Some(client) => {
                let mut out = "eval -client ".to_owned();
                out.append(client.as_str());
                out.append(" '");
                out.append(cmd);
                out.append("'\n");
                out
            },
            None => {
                let mut out = cmd.to_owned();
                out.append("\n");
                out
            },
        }
    }
}

} // verus!
