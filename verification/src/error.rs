//! Error taxonomy of the library. Non-terminal kinds leave the session
//! usable; terminal kinds mark it broken.

use vstd::prelude::*;

verus! {

/// Every failure the library reports falls under one of these kinds.
#[derive(Clone, Copy, PartialEq, Eq, Structural, Debug)]
pub enum SshError {
    /// The underlying stream failed; terminal.
    IoBroken,
    /// The server banner was malformed; terminal.
    BannerInvalid,
    /// No overlap in algorithm lists, bad signature or bad DH value; terminal.
    KexFailure,
    /// The host-key verifier rejected the key; terminal.
    HostKeyMismatch,
    /// A packet MAC check failed; terminal.
    MacError,
    /// A wire decode ran out of bounds; terminal.
    MalformedField,
    /// All authentication methods were exhausted; terminal.
    AuthDenied,
    /// The server rejected a channel open; the session stays usable.
    ChannelOpenRejected,
    /// A channel request was answered with failure; affects only that request.
    RequestFailed,
    /// A deadline elapsed; terminal.
    Timeout,
    /// A bad SCP control line or truncated payload; terminal for the transfer.
    ScpProtocol,
}

pub type SshResult<T> = Result<T, SshError>;

} // verus!
