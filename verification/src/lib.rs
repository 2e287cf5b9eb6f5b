//! A client/server bridge between the Kakoune editor and tree-sitter.
//!
//! The daemon listens on a Unix-domain socket for encoded highlight
//! requests, parses the named buffer's content with tree-sitter and keeps
//! the resulting syntax tree in a cache keyed by (session, buffer).

use vstd::prelude::*;

pub mod codec;
pub mod dirs;
pub mod handler;
pub mod kak;

pub use codec::DecodeError;
pub use codec::Request;
pub use codec::decode;
pub use codec::encode;
pub use dirs::ConfigError;
pub use dirs::daemon_dir;
pub use dirs::pid_path;
pub use dirs::socket_path;
pub use dirs::stderr_path;
pub use dirs::stdout_path;
pub use handler::Outcome;
pub use handler::RequestHandler;
pub use handler::Step;
pub use kak::KakSession;

verus! {

/// Command-line surface of the binary. Argument parsing itself happens in
/// the unverified front end; this is the plain record it hands over.
pub struct Cli {
    /// Whether we start from Kakoune and then we should inject the rc/.
    pub kakoune: bool,
    /// Try to daemonize, if not already done.
    pub daemonize: bool,
    /// Kakoune session to connect to.
    pub session: Option<String>,
    /// Kakoune client to connect with, if any.
    pub client: Option<String>,
    /// Serialized request.
    pub request: Option<String>,
}

} // verus!
