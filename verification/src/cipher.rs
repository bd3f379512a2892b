//! AES-192-CTR packet cipher: the outside stream cipher sits behind
//! trusted wrappers whose contracts state the XOR-keystream behaviour,
//! and the packet-level encrypt/decrypt and MAC check are verified
//! against them.

use vstd::prelude::*;

use crate::codec::be_u32;
use crate::error::SshError;

verus! {

#[verifier::external_type_specification]
#[verifier::external_body]
pub struct ExAes192Ctr(aes::Aes192Ctr);

/// Byte `i` of the keystream that AES-192-CTR generates under a key and
/// an initial counter block; it depends on those three values alone.
pub uninterp spec fn aes192_ctr_keystream(key: Seq<u8>, iv: Seq<u8>, i: int) -> u8;

/// `data` XORed with the AES-192-CTR keystream starting at `pos`.
pub open spec fn xor_keystream(data: Seq<u8>, key: Seq<u8>, iv: Seq<u8>, pos: int) -> Seq<u8> {
    Seq::new(data.len(), |i: int| data[i] ^ aes192_ctr_keystream(key, iv, pos + i))
}

/// XOR with the same keystream twice gives the data back: ciphering is
/// its own inverse, whatever the keystream bytes are.
pub proof fn lemma_xor_round_trip(data: Seq<u8>, key: Seq<u8>, iv: Seq<u8>, pos: int)
    ensures
        xor_keystream(xor_keystream(data, key, iv, pos), key, iv, pos) =~= data,
{
    assert forall|i: int| 0 <= i < data.len() implies xor_keystream(
        xor_keystream(data, key, iv, pos),
        key,
        iv,
        pos,
    )[i] == data[i] by {
        let k = aes192_ctr_keystream(key, iv, pos + i);
        let d = data[i];
        assert((d ^ k) ^ k == d) by (bit_vector);
    }
}

/// Furthest keystream position a cipher object is driven to; far below
/// the end of the 64-bit-counter keystream, so applying it never panics.
pub const MAX_STREAM_POS: u64 = 0x1000_0000_0000_0000;

/// One direction of AES-192-CTR: the outside cipher object, with the
/// key, counter block and keystream position it stands at.
pub struct CtrCipher {
    inner: aes::Aes192Ctr,
    key: Ghost<Seq<u8>>,
    iv: Ghost<Seq<u8>>,
    pos: Ghost<int>,
}

impl CtrCipher {
    pub closed spec fn spec_key(&self) -> Seq<u8> {
        self.key@
    }

    pub closed spec fn spec_iv(&self) -> Seq<u8> {
        self.iv@
    }

    pub closed spec fn spec_pos(&self) -> int {
        self.pos@
    }

    /// Builds one direction and records the key, counter block and
    /// starting position it was built at.
    pub fn new(key: &[u8], iv: &[u8]) -> (r: CtrCipher)
        requires
            key@.len() == 24,
            iv@.len() == 16,
        ensures
            r.spec_key() == key@,
            r.spec_iv() == iv@,
            r.spec_pos() == 0,
    {
        CtrCipher { inner: aes192_ctr_new(key, iv), key: Ghost(key@), iv: Ghost(iv@), pos: Ghost(
            0,
        ) }
    }

    /// Relies on `cipher::StreamCipher::apply_keystream` for `Aes192Ctr`:
    /// it XORs the buffer with the keystream the cipher generates at its
    /// current position, and the synchronous cipher advances by the
    /// buffer length. It panics only at the end of the keystream, which
    /// the position bound keeps out of reach.
    #[verifier::external_body]
    pub fn apply(&mut self, buf: &mut Vec<u8>)
        requires
            0 <= old(self).spec_pos(),
            old(self).spec_pos() + old(buf)@.len() <= MAX_STREAM_POS,
        ensures
            final(self).spec_key() == old(self).spec_key(),
            final(self).spec_iv() == old(self).spec_iv(),
            final(self).spec_pos() == old(self).spec_pos() + old(buf)@.len(),
            final(buf)@.len() == old(buf)@.len(),
            forall|i: int|
                0 <= i < old(buf)@.len() ==> final(buf)@[i] == (old(buf)@[i]
                    ^ aes192_ctr_keystream(
                    old(self).spec_key(),
                    old(self).spec_iv(),
                    old(self).spec_pos() + i,
                )),
    {
        <aes::Aes192Ctr as cipher::StreamCipher>::apply_keystream(
            &mut self.inner,
            buf.as_mut_slice(),
        );
    }
}

/// Relies on `cipher::NewCipher::new_from_slices` for `Aes192Ctr`: with
/// a 24-byte key and a 16-byte nonce it returns `Ok`, holding the fresh
/// cipher at keystream position zero.
#[verifier::external_body]
fn aes192_ctr_new(key: &[u8], iv: &[u8]) -> aes::Aes192Ctr
    requires
        key@.len() == 24,
        iv@.len() == 16,
{
    <aes::Aes192Ctr as cipher::NewCipher>::new_from_slices(key, iv).unwrap()
}

/// Key material one direction of the packet cipher is built from.
pub const KEY_SIZE: usize = 24;

/// Counter-block size of the cipher.
pub const IV_SIZE: usize = 16;

/// Cipher input granularity the framing must align to.
pub const GROUP_SIZE: usize = 16;

/// Longest MAC tag in use: HMAC-SHA2-512 yields 64 bytes.
pub const MAX_MAC_LEN: usize = 64;

/// The AES-192-CTR packet cipher pair of a session: the client-to-server
/// and server-to-client key streams, the two integrity keys, and the MAC
/// tag length in use.
pub struct AesCtr192 {
    client: CtrCipher,
    server: CtrCipher,
    ik_c_s: Vec<u8>,
    ik_s_c: Vec<u8>,
    mac_len: usize,
}

impl AesCtr192 {
    pub closed spec fn client_key(&self) -> Seq<u8> {
        self.client.spec_key()
    }

    pub closed spec fn client_iv(&self) -> Seq<u8> {
        self.client.spec_iv()
    }

    pub closed spec fn client_pos(&self) -> int {
        self.client.spec_pos()
    }

    pub closed spec fn server_key(&self) -> Seq<u8> {
        self.server.spec_key()
    }

    pub closed spec fn server_iv(&self) -> Seq<u8> {
        self.server.spec_iv()
    }

    pub closed spec fn server_pos(&self) -> int {
        self.server.spec_pos()
    }

    pub closed spec fn spec_mac_len(&self) -> usize {
        self.mac_len
    }

    pub closed spec fn integrity_key_c_s(&self) -> Seq<u8> {
        self.ik_c_s@
    }

    pub closed spec fn integrity_key_s_c(&self) -> Seq<u8> {
        self.ik_s_c@
    }

    /// Key material size each direction consumes.
    pub fn bsize(&self) -> (r: usize)
        ensures
            r == KEY_SIZE,
    {
        KEY_SIZE
    }

    /// Counter-block size.
    pub fn iv_size(&self) -> (r: usize)
        ensures
            r == IV_SIZE,
    {
        IV_SIZE
    }

    /// Cipher input granularity, for the frame padding.
    pub fn group_size(&self) -> (r: usize)
        ensures
            r == GROUP_SIZE,
    {
        GROUP_SIZE
    }

    /// This cipher is not an AEAD.
    pub fn is_cp(&self) -> (r: bool)
        ensures
            r == false,
    {
        false
    }

    /// Builds the pair from the derived key streams: client and server
    /// cipher keys, their counter blocks, and the two integrity keys
    /// the MAC collaborator signs with.
    pub fn new(
        ck: &[u8],
        sk: &[u8],
        civ: &[u8],
        siv: &[u8],
        ik_c_s: Vec<u8>,
        ik_s_c: Vec<u8>,
        mac_len: usize,
    ) -> (r: AesCtr192)
        requires
            ck@.len() == KEY_SIZE,
            sk@.len() == KEY_SIZE,
            civ@.len() == IV_SIZE,
            siv@.len() == IV_SIZE,
            mac_len <= MAX_MAC_LEN,
        ensures
            r.client_key() == ck@,
            r.client_iv() == civ@,
            r.client_pos() == 0,
            r.server_key() == sk@,
            r.server_iv() == siv@,
            r.server_pos() == 0,
            r.spec_mac_len() == mac_len,
            r.integrity_key_c_s() == ik_c_s@,
            r.integrity_key_s_c() == ik_s_c@,
    {
        AesCtr192 {
            client: CtrCipher::new(ck, civ),
            server: CtrCipher::new(sk, siv),
            ik_c_s,
            ik_s_c,
            mac_len,
        }
    }

    /// Encrypts an outbound frame in place and appends the MAC tag the
    /// collaborator computed over `sequence_number || unencrypted_packet`:
    /// classical encrypt-and-MAC.
    pub fn encrypt(&mut self, buf: &mut Vec<u8>, tag: &[u8])
        requires
            tag@.len() == old(self).spec_mac_len(),
            0 <= old(self).client_pos(),
            old(self).client_pos() + old(buf)@.len() <= MAX_STREAM_POS,
        ensures
            final(buf)@ =~= xor_keystream(
                old(buf)@,
                old(self).client_key(),
                old(self).client_iv(),
                old(self).client_pos(),
            ) + tag@,
            final(self).client_pos() == old(self).client_pos() + old(buf)@.len(),
            final(self).client_key() == old(self).client_key(),
            final(self).client_iv() == old(self).client_iv(),
            final(self).server_key() == old(self).server_key(),
            final(self).server_iv() == old(self).server_iv(),
            final(self).server_pos() == old(self).server_pos(),
            final(self).spec_mac_len() == old(self).spec_mac_len(),
    {
        self.client.apply(buf);
        assert(buf@ =~= xor_keystream(
            old(buf)@,
            old(self).client_key(),
            old(self).client_iv(),
            old(self).client_pos(),
        ));
        let mut i: usize = 0;
        while i < tag.len()
            invariant
                i <= tag@.len(),
                buf@ =~= xor_keystream(
                    old(buf)@,
                    old(self).client_key(),
                    old(self).client_iv(),
                    old(self).client_pos(),
                ) + tag@.take(i as int),
            decreases tag@.len() - i,
        {
            buf.push(tag[i]);
            i = i + 1;
        }
        assert(tag@.take(tag@.len() as int) =~= tag@);
    }

    /// Decrypts an inbound packet body in place with the server-to-client
    /// key stream.
    pub fn decrypt(&mut self, buf: &mut Vec<u8>)
        requires
            0 <= old(self).server_pos(),
            old(self).server_pos() + old(buf)@.len() <= MAX_STREAM_POS,
        ensures
            final(buf)@ == xor_keystream(
                old(buf)@,
                old(self).server_key(),
                old(self).server_iv(),
                old(self).server_pos(),
            ),
            final(self).server_pos() == old(self).server_pos() + old(buf)@.len(),
            final(self).server_key() == old(self).server_key(),
            final(self).server_iv() == old(self).server_iv(),
            final(self).client_key() == old(self).client_key(),
            final(self).client_iv() == old(self).client_iv(),
            final(self).client_pos() == old(self).client_pos(),
            final(self).spec_mac_len() == old(self).spec_mac_len(),
    {
        self.server.apply(buf);
        assert(buf@ =~= xor_keystream(
            old(buf)@,
            old(self).server_key(),
            old(self).server_iv(),
            old(self).server_pos(),
        ));
    }

    /// Packet length field of a decrypted first block, plus the four
    /// length bytes themselves.
    pub fn packet_len(&self, first_block: &[u8]) -> (r: Result<u64, SshError>)
        ensures
            first_block@.len() >= 4 ==> r == Ok::<u64, SshError>(
                (be_u32(first_block@[0], first_block@[1], first_block@[2], first_block@[3]) + 4)
                    as u64,
            ),
            first_block@.len() < 4 ==> r == Err::<u64, SshError>(SshError::MalformedField),
    {
        if first_block.len() < 4 {
            return Err(SshError::MalformedField);
        }
        let v = crate::codec::be_u32_exec(
            first_block[0],
            first_block[1],
            first_block[2],
            first_block[3],
        );
        Ok(v as u64 + 4)
    }

    /// Bytes still to read after the first block is known: the rest of
    /// the packet plus the MAC tag.
    pub fn data_len(&self, first_block: &[u8]) -> (r: Result<u64, SshError>)
        requires
            self.spec_mac_len() <= MAX_MAC_LEN,
        ensures
            first_block@.len() >= 4 ==> r == Ok::<u64, SshError>(
                (be_u32(first_block@[0], first_block@[1], first_block@[2], first_block@[3]) + 4
                    + self.spec_mac_len()) as u64,
            ),
            first_block@.len() < 4 ==> r == Err::<u64, SshError>(SshError::MalformedField),
    {
        let pl = match self.packet_len(first_block) {
            Ok(v) => v,
            Err(e) => {
                return Err(e);
            },
        };
        Ok(pl + self.mac_len as u64)
    }
}

/// The MAC decision of the receive path: the tag the collaborator
/// computed over the decrypted packet against the tag that came off the
/// wire. A mismatch is the fatal `MacError`.
pub fn check_mac(computed: &[u8], received: &[u8]) -> (r: Result<(), SshError>)
    ensures
        r is Ok <==> computed@ =~= received@,
        r is Err ==> r->Err_0 == SshError::MacError,
{
    if computed.len() != received.len() {
        return Err(SshError::MacError);
    }
    let mut i: usize = 0;
    while i < computed.len()
        invariant
            i <= computed@.len(),
            computed@.len() == received@.len(),
            forall|j: int| 0 <= j < i ==> computed@[j] == received@[j],
        decreases computed@.len() - i,
    {
        if computed[i] != received[i] {
            return Err(SshError::MacError);
        }
        i = i + 1;
    }
    Ok(())
}

/// The whole packet protection round trip: for every payload and every
/// cipher granularity, the frame padding lies in [4, 255], the framed
/// size is a multiple of the alignment, deciphering the enciphered frame
/// gives the frame back, and parsing it gives the payload back.
pub proof fn lemma_packet_round_trip(
    payload: Seq<u8>,
    block: int,
    key: Seq<u8>,
    iv: Seq<u8>,
    pos: int,
)
    requires
        0 < block <= 248,
        payload.len() + 261 <= u32::MAX,
    ensures
        xor_keystream(
            xor_keystream(crate::transport::frame_bytes(payload, block), key, iv, pos),
            key,
            iv,
            pos,
        ) =~= crate::transport::frame_bytes(payload, block),
        crate::transport::spec_deframe(crate::transport::frame_bytes(payload, block)) == Some(
            payload,
        ),
        4 <= crate::transport::spec_padding_len(payload.len() as int, block) <= 255,
        (crate::transport::frame_bytes(payload, block).len() as int) % crate::transport::frame_align(
            block,
        ) == 0,
{
    let f = crate::transport::frame_bytes(payload, block);
    lemma_xor_round_trip(f, key, iv, pos);
    crate::transport::lemma_frame_parses(payload, block);
}

} // verus!
