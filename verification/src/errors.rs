//! Non-fatal errors surfaced through the session's transient error log.

use vstd::prelude::*;

verus! {

/// Failure conditions raised by the engine itself. They are logged and
/// shown to the user; they never abort the session.
#[derive(Debug)]
pub enum InternalError {
    /// `resolve` was asked for a match at a cursor position that has no
    /// corresponding entry in the current match list. Carries the offending
    /// index.
    SelectionIndexOutOfBounds(usize),
}

/// Errors a session can log. Upstream protocol and configuration errors are
/// handed to the engine already classified; it only stores and exposes them.
#[derive(Debug)]
pub enum PluginError {
    /// An engine-internal failure, wrapped for display beside upstream ones.
    UnexpectedError(InternalError),
    /// A host message arrived whose name is not a known command. Carries the
    /// unknown name.
    UnknownPipeMessageError(String),
    /// A host message that requires a payload arrived without one. Carries
    /// the message name.
    MissingPipeMessagePayloadError(String),
    /// A message payload could not be read as the number it must hold.
    /// Carries the message name and the payload as received.
    ConfigurationError { name: String, payload: String },
}

} // verus!
