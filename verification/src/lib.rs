//! Core of an SSH-2 client: the wire codec, the version banner and
//! message dispatch, binary packet framing with the AES-CTR cipher and
//! MAC check, KEXINIT negotiation and key derivation, user
//! authentication with method fallback, channel multiplexing with
//! window accounting, an interactive shell channel, and the SCP sink
//! sub-protocol — each with verified contracts.

pub mod auth;
pub mod banner;
pub mod channel;
pub mod cipher;
pub mod codec;
pub mod error;
pub mod kdf;
pub mod kexinit;
pub mod negotiate;
pub mod scp;
pub mod shell;
pub mod transport;
