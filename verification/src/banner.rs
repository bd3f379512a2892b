//! The version banner exchanged before the binary protocol, and the
//! routing of transport message numbers to their handlers.

use vstd::prelude::*;

use crate::error::SshError;

verus! {

/// The bytes every protocol-2 banner opens with: `SSH-2.0-`.
pub open spec fn banner_prefix() -> Seq<u8> {
    seq![83u8, 83, 72, 45, 50, 46, 48, 45]
}

/// Bytes of the banner this client sends: the prefix, a software name,
/// and the line end.
pub open spec fn banner_bytes(software: Seq<u8>) -> Seq<u8> {
    banner_prefix() + software + seq![13u8, 10]
}

/// Builds the outgoing banner line around a software name.
pub fn make_banner(software: &[u8]) -> (r: Vec<u8>)
    ensures
        r@ =~= banner_bytes(software@),
{
    let mut out: Vec<u8> = Vec::new();
    out.push(83);
    out.push(83);
    out.push(72);
    out.push(45);
    out.push(50);
    out.push(46);
    out.push(48);
    out.push(45);
    let ghost head = out@;
    let mut q: usize = 0;
    while q < software.len()
        invariant
            q <= software@.len(),
            out@ =~= head + software@.take(q as int),
        decreases software@.len() - q,
    {
        out.push(software[q]);
        q = q + 1;
    }
    assert(software@.take(software@.len() as int) =~= software@);
    out.push(13);
    out.push(10);
    out
}

/// Whether a received line is a protocol-2 banner.
pub open spec fn is_banner(line: Seq<u8>) -> bool {
    line.len() >= banner_prefix().len() && line.take(banner_prefix().len() as int) =~= banner_prefix()
}

/// Checks the server banner: it must open with `SSH-2.0-`; any earlier
/// line from the server is not a banner and is discarded by the caller.
pub fn check_banner(line: &[u8]) -> (r: Result<(), SshError>)
    ensures
        is_banner(line@) <==> r is Ok,
        r is Err ==> r->Err_0 == SshError::BannerInvalid,
{
    if line.len() < 8 {
        return Err(SshError::BannerInvalid);
    }
    let expected: [u8; 8] = [83, 83, 72, 45, 50, 46, 48, 45];
    let mut q: usize = 0;
    while q < 8
        invariant
            q <= 8,
            line@.len() >= 8,
            expected@ =~= banner_prefix(),
            forall|j: int| 0 <= j < q ==> line@[j] == banner_prefix()[j],
        decreases 8 - q,
    {
        if line[q] != expected[q] {
            proof {
                assert(line@.take(8)[q as int] != banner_prefix()[q as int]);
            }
            return Err(SshError::BannerInvalid);
        }
        q = q + 1;
    }
    proof {
        assert(line@.take(8) =~= banner_prefix());
    }
    Ok(())
}

/// Where a transport-level message number is routed.
#[derive(Clone, Copy, PartialEq, Eq, Structural, Debug)]
pub enum MsgClass {
    /// 1: the peer ends the session.
    Disconnect,
    /// 2: dropped.
    Ignore,
    /// 3: a non-fatal signal to the sender of the unknown message.
    Unimplemented,
    /// 4: logged.
    Debug,
    /// 5 and 6: service negotiation.
    Service,
    /// 20 and 21: KEXINIT and NEWKEYS.
    Kex,
    /// 30 to 49: messages of the key-exchange method in flight.
    KexMethod,
    /// 50 to 79: user authentication.
    Userauth,
    /// 80 and up: the connection layer, handed to the multiplexer.
    Connection,
    /// Anything else is answered with UNIMPLEMENTED.
    Unknown,
}

/// The routing of message numbers, as the dispatcher applies it.
pub open spec fn spec_msg_class(code: u8) -> MsgClass {
    if code == 1 {
        MsgClass::Disconnect
    } else if code == 2 {
        MsgClass::Ignore
    } else if code == 3 {
        MsgClass::Unimplemented
    } else if code == 4 {
        MsgClass::Debug
    } else if code == 5 || code == 6 {
        MsgClass::Service
    } else if code == 20 || code == 21 {
        MsgClass::Kex
    } else if 30 <= code && code <= 49 {
        MsgClass::KexMethod
    } else if 50 <= code && code <= 79 {
        MsgClass::Userauth
    } else if code >= 80 {
        MsgClass::Connection
    } else {
        MsgClass::Unknown
    }
}

/// Routes one message number.
pub fn msg_class(code: u8) -> (r: MsgClass)
    ensures
        r == spec_msg_class(code),
{
    if code == 1 {
        MsgClass::Disconnect
    } else if code == 2 {
        MsgClass::Ignore
    } else if code == 3 {
        MsgClass::Unimplemented
    } else if code == 4 {
        MsgClass::Debug
    } else if code == 5 || code == 6 {
        MsgClass::Service
    } else if code == 20 || code == 21 {
        MsgClass::Kex
    } else if 30 <= code && code <= 49 {
        MsgClass::KexMethod
    } else if 50 <= code && code <= 79 {
        MsgClass::Userauth
    } else if code >= 80 {
        MsgClass::Connection
    } else {
        MsgClass::Unknown
    }
}

/// During a rekey only transport and KEX traffic may be on the wire;
/// channel traffic waits locally until NEWKEYS.
pub fn allowed_during_rekey(code: u8) -> (r: bool)
    ensures
        r == (spec_msg_class(code) == MsgClass::Disconnect || spec_msg_class(code)
            == MsgClass::Ignore || spec_msg_class(code) == MsgClass::Unimplemented
            || spec_msg_class(code) == MsgClass::Debug || spec_msg_class(code) == MsgClass::Kex
            || spec_msg_class(code) == MsgClass::KexMethod),
{
    let c = msg_class(code);
    matches!(
        c,
        MsgClass::Disconnect
            | MsgClass::Ignore
            | MsgClass::Unimplemented
            | MsgClass::Debug
            | MsgClass::Kex
            | MsgClass::KexMethod
    )
}

} // verus!
