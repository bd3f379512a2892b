//! Binary Packet Protocol: framing with padding, the per-direction
//! sequence and byte counters, the rekey trigger, and the session id
//! frozen at the first key exchange.

use vstd::prelude::*;

use crate::codec::{be_u32, u32_be};
use crate::error::SshError;

verus! {

/// Rekey after this many bytes in either direction (1 GiB).
pub const REKEY_BYTES: u64 = 0x4000_0000;

/// The cipher granularity a frame must be a multiple of: at least eight.
pub open spec fn frame_align(block: int) -> int {
    if block < 8 {
        8
    } else {
        block
    }
}

/// Padding length of a frame: the smallest count of at least four bytes
/// that brings `packet_length || padding_length || payload || padding`
/// to a multiple of the alignment.
pub open spec fn spec_padding_len(payload_len: int, block: int) -> int {
    let align = frame_align(block);
    let base = align - ((5 + payload_len) % align);
    if base >= 4 {
        base
    } else {
        base + align
    }
}

/// The unencrypted frame around a payload:
/// `packet_length(4) | padding_length(1) | payload | padding`.
pub open spec fn frame_bytes(payload: Seq<u8>, block: int) -> Seq<u8> {
    let pad = spec_padding_len(payload.len() as int, block);
    u32_be((payload.len() + pad + 1) as u32) + seq![pad as u8] + payload + Seq::new(pad as nat, |z: int| 0u8)
}

/// The payload recovered from an unencrypted frame, when the frame is
/// well formed.
pub open spec fn spec_deframe(f: Seq<u8>) -> Option<Seq<u8>> {
    if f.len() >= 6 {
        let packet_len = be_u32(f[0], f[1], f[2], f[3]) as int;
        let pad = f[4] as int;
        if f.len() == 4 + packet_len && packet_len >= pad + 1 {
            Some(f.subrange(5, 4 + packet_len - pad))
        } else {
            None
        }
    } else {
        None
    }
}

pub proof fn lemma_padding_len_bounds(payload_len: int, block: int)
    requires
        payload_len >= 0,
        0 < block <= 248,
    ensures
        4 <= spec_padding_len(payload_len, block) <= 255,
        (5 + payload_len + spec_padding_len(payload_len, block)) % frame_align(block) == 0,
{
    let align = frame_align(block);
    let rem = (5 + payload_len) % align;
    let q = (5 + payload_len) / align;
    let pad = spec_padding_len(payload_len, block);
    vstd::arithmetic::div_mod::lemma_mod_division_less_than_divisor(5 + payload_len, align);
    vstd::arithmetic::div_mod::lemma_fundamental_div_mod(5 + payload_len, align);
    if align - rem >= 4 {
        assert(5 + payload_len + pad == (q + 1) * align) by (nonlinear_arith)
            requires
                5 + payload_len == q * align + rem,
                pad == align - rem,
        ;
        vstd::arithmetic::div_mod::lemma_mod_multiples_basic(q + 1, align);
    } else {
        assert(5 + payload_len + pad == (q + 2) * align) by (nonlinear_arith)
            requires
                5 + payload_len == q * align + rem,
                pad == align - rem + align,
        ;
        vstd::arithmetic::div_mod::lemma_mod_multiples_basic(q + 2, align);
    }
}

/// Frames a payload for a cipher of the given block granularity. The
/// result length is a multiple of the alignment, the padding is between
/// four and 255 bytes, and parsing the frame gives the payload back.
pub fn frame(payload: &[u8], block: usize) -> (r: Result<Vec<u8>, SshError>)
    requires
        0 < block <= 248,
    ensures
        payload@.len() + 261 <= u32::MAX ==> r is Ok,
        r is Ok ==> r->Ok_0@ =~= frame_bytes(payload@, block as int),
        r is Ok ==> (r->Ok_0@.len() as int) % frame_align(block as int) == 0,
        r is Ok ==> spec_deframe(r->Ok_0@) == Some(payload@),
        r is Err ==> r->Err_0 == SshError::MalformedField,
    {
    if payload.len() > (u32::MAX - 261) as usize {
        return Err(SshError::MalformedField);
    }
    let align: usize = if block < 8 {
        8
    } else {
        block
    };
    let rem: usize = (5 + payload.len()) % align;
    let base: usize = align - rem;
    let pad: usize = if base >= 4 {
        base
    } else {
        base + align
    };
    proof {
        lemma_padding_len_bounds(payload@.len() as int, block as int);
        assert(pad == spec_padding_len(payload@.len() as int, block as int));
    }
    let packet_len: u32 = (payload.len() + pad + 1) as u32;
    let mut out: Vec<u8> = Vec::new();
    out.push(((packet_len >> 24) & 0xff) as u8);
    out.push(((packet_len >> 16) & 0xff) as u8);
    out.push(((packet_len >> 8) & 0xff) as u8);
    out.push((packet_len & 0xff) as u8);
    out.push(pad as u8);
    let mut i: usize = 0;
    while i < payload.len()
        invariant
            i <= payload@.len(),
            out@ =~= u32_be((payload@.len() + pad + 1) as u32) + seq![pad as u8] + payload@.take(
                i as int,
            ),
        decreases payload@.len() - i,
    {
        out.push(payload[i]);
        i = i + 1;
    }
    assert(payload@.take(payload@.len() as int) =~= payload@);
    let mut j: usize = 0;
    while j < pad
        invariant
            j <= pad,
            out@ =~= u32_be((payload@.len() + pad + 1) as u32) + seq![pad as u8] + payload@ + Seq::new(j as nat, |z: int| 0u8),
        decreases pad - j,
    {
        out.push(0);
        assert(Seq::new(j as nat, |z: int| 0u8).push(0u8) =~= Seq::new((j + 1) as nat, |z: int| 0u8));
        j = j + 1;
    }
    proof {
        let f = frame_bytes(payload@, block as int);
        assert(out@ =~= f);
        crate::codec::lemma_u32_round_trip(packet_len);
        assert(f.subrange(5, 4 + (packet_len as int) - (pad as int)) =~= payload@);
        assert((5 + payload@.len() + pad) % frame_align(block as int) == 0);
    }
    Ok(out)
}

/// A frame built around a payload parses back to exactly that payload,
/// and the framed size is a multiple of the alignment.
pub proof fn lemma_frame_parses(payload: Seq<u8>, block: int)
    requires
        0 < block <= 248,
        payload.len() + 261 <= u32::MAX,
    ensures
        spec_deframe(frame_bytes(payload, block)) == Some(payload),
        (frame_bytes(payload, block).len() as int) % frame_align(block) == 0,
{
    let pad = spec_padding_len(payload.len() as int, block);
    lemma_padding_len_bounds(payload.len() as int, block);
    let packet_len = (payload.len() + pad + 1) as u32;
    let f = frame_bytes(payload, block);
    crate::codec::lemma_u32_round_trip(packet_len);
    assert(f[0] == u32_be(packet_len)[0]);
    assert(f[1] == u32_be(packet_len)[1]);
    assert(f[2] == u32_be(packet_len)[2]);
    assert(f[3] == u32_be(packet_len)[3]);
    assert(f[4] == pad as u8);
    assert(f.len() == 5 + payload.len() + pad);
    assert(be_u32(f[0], f[1], f[2], f[3]) == packet_len);
    assert(f.subrange(5, 4 + packet_len as int - (pad as u8) as int) =~= payload);
    assert((f.len() as int) % frame_align(block) == 0);
}

/// Strips the header and padding from a decrypted frame.
pub fn deframe(f: &[u8]) -> (r: Result<Vec<u8>, SshError>)
    ensures
        spec_deframe(f@) is Some ==> r is Ok && r->Ok_0@ =~= spec_deframe(f@)->Some_0,
        spec_deframe(f@) is None ==> r == Err::<Vec<u8>, SshError>(SshError::MalformedField),
{
    if f.len() < 6 {
        return Err(SshError::MalformedField);
    }
    let packet_len = crate::codec::be_u32_exec(f[0], f[1], f[2], f[3]);
    let pad = f[4];
    if !(packet_len as usize == f.len() - 4 && packet_len as usize >= pad as usize + 1) {
        return Err(SshError::MalformedField);
    }
    let mut out: Vec<u8> = Vec::new();
    let hi: usize = f.len() - pad as usize;
    let mut i: usize = 5;
    while i < hi
        invariant
            5 <= i <= hi <= f@.len(),
            out@ =~= f@.subrange(5, i as int),
        decreases hi - i,
    {
        out.push(f[i]);
        i = i + 1;
    }
    Ok(out)
}

/// The receive-path decision once a packet is decrypted: a tag
/// mismatch is the fatal `MacError` and nothing is delivered; with the
/// tags equal, the payload comes out of the frame.
pub fn open_frame(f: &[u8], computed_tag: &[u8], received_tag: &[u8]) -> (r: Result<
    Vec<u8>,
    SshError,
>)
    ensures
        computed_tag@ != received_tag@ ==> r == Err::<Vec<u8>, SshError>(SshError::MacError),
        computed_tag@ == received_tag@ ==> match spec_deframe(f@) {
            Some(p) => r is Ok && r->Ok_0@ =~= p,
            None => r == Err::<Vec<u8>, SshError>(SshError::MalformedField),
        },
{
    match crate::cipher::check_mac(computed_tag, received_tag) {
        Ok(()) => deframe(f),
        Err(e) => Err(e),
    }
}

/// What the send path must do before the next application packet.
#[derive(Clone, Copy, PartialEq, Eq, Structural, Debug)]
pub enum SendGate {
    /// Send as usual.
    Proceed,
    /// Queue the packet and run a key exchange first; it goes out under
    /// the new keys, with the sequence numbers running on.
    RekeyFirst,
}

/// Sequence counters, traffic counters and the session id of one
/// transport direction pair.
pub struct Transport {
    send_seq: u32,
    recv_seq: u32,
    bytes_encrypted: u64,
    bytes_decrypted: u64,
    session_id: Option<Vec<u8>>,
}

impl Transport {
    /// Packets sent, modulo 2^32.
    pub closed spec fn seq_send(&self) -> u32 {
        self.send_seq
    }

    /// Packets received, modulo 2^32.
    pub closed spec fn seq_recv(&self) -> u32 {
        self.recv_seq
    }

    /// Bytes encrypted since the current keys were installed.
    pub closed spec fn enc_bytes(&self) -> u64 {
        self.bytes_encrypted
    }

    /// Bytes decrypted since the current keys were installed.
    pub closed spec fn dec_bytes(&self) -> u64 {
        self.bytes_decrypted
    }

    /// The exchange hash frozen at the first key exchange, if any yet.
    pub closed spec fn spec_session_id(&self) -> Option<Seq<u8>> {
        match self.session_id {
            Some(ref v) => Some(v@),
            None => None,
        }
    }

    /// The frozen session id, for reading.
    pub fn session_id_bytes(&self) -> (r: Option<&Vec<u8>>)
        ensures
            match r {
                Some(v) => self.spec_session_id() == Some(v@),
                None => self.spec_session_id() is None,
            },
    {
        match &self.session_id {
            Some(v) => Some(v),
            None => None,
        }
    }

    pub fn send_sequence(&self) -> (r: u32)
        ensures
            r == self.seq_send(),
    {
        self.send_seq
    }

    pub fn recv_sequence(&self) -> (r: u32)
        ensures
            r == self.seq_recv(),
    {
        self.recv_seq
    }

    pub fn new() -> (r: Transport)
        ensures
            r.seq_send() == 0,
            r.seq_recv() == 0,
            r.enc_bytes() == 0,
            r.dec_bytes() == 0,
            r.spec_session_id() is None,
    {
        Transport {
            send_seq: 0,
            recv_seq: 0,
            bytes_encrypted: 0,
            bytes_decrypted: 0,
            session_id: None,
        }
    }

    /// A transport resuming at given sequence numbers, as after earlier
    /// packets; the counters and session id start fresh.
    pub fn with_sequences(send: u32, recv: u32) -> (r: Transport)
        ensures
            r.seq_send() == send,
            r.seq_recv() == recv,
            r.enc_bytes() == 0,
            r.dec_bytes() == 0,
            r.spec_session_id() is None,
    {
        Transport {
            send_seq: send,
            recv_seq: recv,
            bytes_encrypted: 0,
            bytes_decrypted: 0,
            session_id: None,
        }
    }

    /// Accounts one sent packet: the send sequence number increases by
    /// one and wraps at 2^32; the byte counter grows by the frame size.
    pub fn record_send(&mut self, framed_len: u32)
        ensures
            final(self).seq_send() as int == (old(self).seq_send() as int + 1) % 0x1_0000_0000,
            final(self).enc_bytes() as int == if old(self).enc_bytes() + framed_len <= u64::MAX {
                old(self).enc_bytes() + framed_len
            } else {
                u64::MAX as int
            },
            final(self).seq_recv() == old(self).seq_recv(),
            final(self).dec_bytes() == old(self).dec_bytes(),
            final(self).spec_session_id() == old(self).spec_session_id(),
    {
        self.send_seq = self.send_seq.wrapping_add(1);
        self.bytes_encrypted = self.bytes_encrypted.saturating_add(framed_len as u64);
    }

    /// Accounts one received packet, symmetrically.
    pub fn record_recv(&mut self, framed_len: u32)
        ensures
            final(self).seq_recv() as int == (old(self).seq_recv() as int + 1) % 0x1_0000_0000,
            final(self).dec_bytes() as int == if old(self).dec_bytes() + framed_len <= u64::MAX {
                old(self).dec_bytes() + framed_len
            } else {
                u64::MAX as int
            },
            final(self).seq_send() == old(self).seq_send(),
            final(self).enc_bytes() == old(self).enc_bytes(),
            final(self).spec_session_id() == old(self).spec_session_id(),
    {
        self.recv_seq = self.recv_seq.wrapping_add(1);
        self.bytes_decrypted = self.bytes_decrypted.saturating_add(framed_len as u64);
    }

    /// Whether the traffic volume forces a key exchange before the next
    /// application packet; the one-hour clock trigger lives with the
    /// caller, which owns the clock.
    pub fn needs_rekey(&self) -> (r: bool)
        ensures
            r == (self.enc_bytes() >= REKEY_BYTES || self.dec_bytes() >= REKEY_BYTES),
    {
        self.bytes_encrypted >= REKEY_BYTES || self.bytes_decrypted >= REKEY_BYTES
    }

    /// Freezes the session id at the first exchange hash: a later
    /// exchange hash never changes it.
    pub fn install_exchange_hash(&mut self, h: &[u8])
        ensures
            old(self).spec_session_id() is None ==> final(self).spec_session_id() == Some(h@),
            old(self).spec_session_id() is Some ==> final(self).spec_session_id() == old(
                self,
            ).spec_session_id(),
            final(self).seq_send() == old(self).seq_send(),
            final(self).seq_recv() == old(self).seq_recv(),
            final(self).enc_bytes() == old(self).enc_bytes(),
            final(self).dec_bytes() == old(self).dec_bytes(),
    {
        if self.session_id.is_none() {
            let mut v: Vec<u8> = Vec::new();
            let mut i: usize = 0;
            while i < h.len()
                invariant
                    i <= h@.len(),
                    v@ =~= h@.take(i as int),
                decreases h@.len() - i,
            {
                v.push(h[i]);
                i = i + 1;
            }
            assert(h@.take(h@.len() as int) =~= h@);
            self.session_id = Some(v);
        }
    }

    /// The decision before the next outbound application packet: once
    /// the traffic volume (or the caller's clock, which the caller
    /// owns) has crossed the rekey threshold, the write waits until a
    /// full KEXINIT..NEWKEYS exchange has installed fresh keys; until
    /// then only the rekey traffic itself belongs on the wire.
    pub fn send_gate(&self, hour_elapsed: bool) -> (r: SendGate)
        ensures
            r == SendGate::RekeyFirst <==> (self.enc_bytes() >= REKEY_BYTES || self.dec_bytes()
                >= REKEY_BYTES || hour_elapsed),
            r == SendGate::Proceed <==> !(self.enc_bytes() >= REKEY_BYTES || self.dec_bytes()
                >= REKEY_BYTES || hour_elapsed),
    {
        if self.bytes_encrypted >= REKEY_BYTES || self.bytes_decrypted >= REKEY_BYTES
            || hour_elapsed {
            SendGate::RekeyFirst
        } else {
            SendGate::Proceed
        }
    }

    /// Installs freshly derived keys: the traffic counters restart, and
    /// the sequence numbers keep running and are never reset by a rekey.
    pub fn on_new_keys(&mut self)
        ensures
            final(self).enc_bytes() == 0,
            final(self).dec_bytes() == 0,
            final(self).seq_send() == old(self).seq_send(),
            final(self).seq_recv() == old(self).seq_recv(),
            final(self).spec_session_id() == old(self).spec_session_id(),
    {
        self.bytes_encrypted = 0;
        self.bytes_decrypted = 0;
    }
}

} // verus!
