//! Wire codec for the SSH primitive types: byte, boolean, uint32,
//! length-prefixed byte strings, mpint and name-list, written into a
//! growing buffer and read back through a cursor.

use vstd::prelude::*;
use vstd::slice::slice_subrange;
use vstd::string::StringSliceAdditionalSpecFns;

use crate::error::SshError;

verus! {

/// Big-endian bytes of a 32-bit integer.
pub open spec fn u32_be(v: u32) -> Seq<u8> {
    seq![
        ((v >> 24) & 0xff) as u8,
        ((v >> 16) & 0xff) as u8,
        ((v >> 8) & 0xff) as u8,
        (v & 0xff) as u8,
    ]
}

/// The 32-bit integer read big-endian from four bytes.
pub open spec fn be_u32(b0: u8, b1: u8, b2: u8, b3: u8) -> u32 {
    ((b0 as u32) << 24) | ((b1 as u32) << 16) | ((b2 as u32) << 8) | (b3 as u32)
}

/// Reading back the four big-endian bytes of `v` yields `v` again.
pub proof fn lemma_u32_round_trip(v: u32)
    ensures
        be_u32(u32_be(v)[0], u32_be(v)[1], u32_be(v)[2], u32_be(v)[3]) == v,
{
    assert(((((v >> 24) & 0xff) as u8 as u32) << 24) | ((((v >> 16) & 0xff) as u8 as u32) << 16)
        | ((((v >> 8) & 0xff) as u8 as u32) << 8) | ((v & 0xff) as u8 as u32) == v)
        by (bit_vector);
}

/// Four bytes written as the encoding of the integer they encode give the
/// same four bytes: the encoding is also injective.
pub proof fn lemma_be_u32_round_trip(b0: u8, b1: u8, b2: u8, b3: u8)
    ensures
        u32_be(be_u32(b0, b1, b2, b3)) =~= seq![b0, b1, b2, b3],
{
    let v = be_u32(b0, b1, b2, b3);
    assert((((((b0 as u32) << 24) | ((b1 as u32) << 16) | ((b2 as u32) << 8) | (b3 as u32)) >> 24)
        & 0xff) as u8 == b0) by (bit_vector);
    assert((((((b0 as u32) << 24) | ((b1 as u32) << 16) | ((b2 as u32) << 8) | (b3 as u32)) >> 16)
        & 0xff) as u8 == b1) by (bit_vector);
    assert((((((b0 as u32) << 24) | ((b1 as u32) << 16) | ((b2 as u32) << 8) | (b3 as u32)) >> 8)
        & 0xff) as u8 == b2) by (bit_vector);
    assert(((((b0 as u32) << 24) | ((b1 as u32) << 16) | ((b2 as u32) << 8) | (b3 as u32)) & 0xff)
        as u8 == b3) by (bit_vector);
}

/// Reading a length-prefixed byte string out of a buffer that starts
/// with its encoding yields the string and leaves the rest: the wire
/// form of `string` and of the byte-string primitive round-trips.
pub proof fn lemma_string_round_trip(v: Seq<u8>, rest: Seq<u8>)
    requires
        v.len() <= u32::MAX,
    ensures
        ({
            let enc = u32_be(v.len() as u32) + v + rest;
            &&& be_u32(enc[0], enc[1], enc[2], enc[3]) == v.len() as u32
            &&& enc.subrange(4, 4 + v.len() as int) =~= v
            &&& enc.skip(4 + v.len() as int) =~= rest
        }),
{
    lemma_u32_round_trip(v.len() as u32);
    let enc = u32_be(v.len() as u32) + v + rest;
    assert(enc[0] == u32_be(v.len() as u32)[0]);
    assert(enc[1] == u32_be(v.len() as u32)[1]);
    assert(enc[2] == u32_be(v.len() as u32)[2]);
    assert(enc[3] == u32_be(v.len() as u32)[3]);
}

/// Combines four bytes big-endian.
pub fn be_u32_exec(b0: u8, b1: u8, b2: u8, b3: u8) -> (r: u32)
    ensures
        r == be_u32(b0, b1, b2, b3),
{
    ((b0 as u32) << 24) | ((b1 as u32) << 16) | ((b2 as u32) << 8) | (b3 as u32)
}

/// `s` with its leading zero bytes removed.
pub open spec fn trim_leading_zeros(s: Seq<u8>) -> Seq<u8>
    decreases s.len(),
{
    if s.len() > 0 && s[0] == 0 {
        trim_leading_zeros(s.skip(1))
    } else {
        s
    }
}

proof fn lemma_trim_skip(s: Seq<u8>, i: int)
    requires
        0 <= i <= s.len(),
        forall|j: int| 0 <= j < i ==> s[j] == 0,
        i == s.len() || s[i] != 0,
    ensures
        trim_leading_zeros(s) =~= s.skip(i),
    decreases i,
{
    if i == 0 {
    } else {
        assert(s[0] == 0);
        lemma_trim_skip(s.skip(1), i - 1);
        assert(s.skip(1).skip(i - 1) =~= s.skip(i));
    }
}

proof fn lemma_trim_head(s: Seq<u8>)
    ensures
        trim_leading_zeros(s).len() > 0 ==> trim_leading_zeros(s)[0] != 0,
        trim_leading_zeros(s).len() <= s.len(),
    decreases s.len(),
{
    if s.len() > 0 && s[0] == 0 {
        lemma_trim_head(s.skip(1));
    }
}

/// Body of the SSH mpint encoding of a non-negative integer given as
/// big-endian magnitude bytes: leading zeros are dropped, zero itself is
/// empty, and a 0x00 byte is prepended when the top bit is set.
pub open spec fn mpint_body(mag: Seq<u8>) -> Seq<u8> {
    let t = trim_leading_zeros(mag);
    if t.len() == 0 {
        t
    } else if t[0] >= 0x80 {
        seq![0u8] + t
    } else {
        t
    }
}

/// Magnitude bytes recovered from an mpint body; `None` when the body
/// encodes a negative number, which the protocol never carries here.
pub open spec fn mpint_decode(body: Seq<u8>) -> Option<Seq<u8>> {
    if body.len() > 0 && body[0] >= 0x80 {
        None
    } else {
        Some(trim_leading_zeros(body))
    }
}

/// The magnitude of zero encodes as the empty body.
pub proof fn lemma_mpint_zero(mag: Seq<u8>)
    requires
        forall|j: int| 0 <= j < mag.len() ==> mag[j] == 0,
    ensures
        mpint_body(mag) =~= Seq::<u8>::empty(),
{
    lemma_trim_skip(mag, mag.len() as int);
}

/// A positive magnitude whose top bit is set encodes with a leading 0x00.
pub proof fn lemma_mpint_top_bit(mag: Seq<u8>)
    requires
        trim_leading_zeros(mag).len() > 0,
        trim_leading_zeros(mag)[0] >= 0x80,
    ensures
        mpint_body(mag).len() > 0,
        mpint_body(mag)[0] == 0,
{
}

/// Decoding an encoded magnitude gives the magnitude back, without its
/// leading zeros.
pub proof fn lemma_mpint_round_trip(mag: Seq<u8>)
    ensures
        mpint_decode(mpint_body(mag)) == Some(trim_leading_zeros(mag)),
{
    let t = trim_leading_zeros(mag);
    lemma_trim_head(mag);
    if t.len() == 0 {
        assert(trim_leading_zeros(mpint_body(mag)) =~= t);
    } else if t[0] >= 0x80 {
        let body = seq![0u8] + t;
        assert(body[0] == 0);
        assert(body.skip(1) =~= t);
        assert(trim_leading_zeros(body) == trim_leading_zeros(body.skip(1)));
        assert(trim_leading_zeros(t) =~= t);
    } else {
        assert(t[0] != 0);
        assert(trim_leading_zeros(t) =~= t);
    }
}

/// Comma-joined form of a name-list.
pub open spec fn name_list_bytes(ns: Seq<Seq<u8>>) -> Seq<u8>
    decreases ns.len(),
{
    if ns.len() == 0 {
        Seq::empty()
    } else if ns.len() == 1 {
        ns[0]
    } else {
        name_list_bytes(ns.drop_last()) + seq![44u8] + ns.last()
    }
}

/// First index of `b` in `s`, or `s.len()` when `b` does not occur.
pub open spec fn idx_of(s: Seq<u8>, b: u8) -> int
    decreases s.len(),
{
    if s.len() == 0 {
        0
    } else if s[0] == b {
        0
    } else {
        1 + idx_of(s.skip(1), b)
    }
}

pub proof fn lemma_idx_of(s: Seq<u8>, b: u8)
    ensures
        0 <= idx_of(s, b) <= s.len(),
        idx_of(s, b) < s.len() ==> s[idx_of(s, b)] == b,
        forall|j: int| 0 <= j < idx_of(s, b) ==> s[j] != b,
    decreases s.len(),
{
    if s.len() > 0 && s[0] != b {
        lemma_idx_of(s.skip(1), b);
        assert forall|j: int| 0 <= j < idx_of(s, b) implies s[j] != b by {
            if j > 0 {
                assert(s.skip(1)[j - 1] == s[j]);
            }
        }
    }
}

/// `idx_of` is determined by where the first occurrence lies.
pub proof fn lemma_idx_of_is(s: Seq<u8>, b: u8, i: int)
    requires
        0 <= i <= s.len(),
        forall|j: int| 0 <= j < i ==> s[j] != b,
        i == s.len() || s[i] == b,
    ensures
        idx_of(s, b) == i,
    decreases i,
{
    if i > 0 {
        lemma_idx_of_is(s.skip(1), b, i - 1);
    }
}

/// The members of a comma-joined name-list, in order.
pub open spec fn split_commas(s: Seq<u8>) -> Seq<Seq<u8>>
    decreases s.len(),
    via split_commas_decreases
{
    let i = idx_of(s, 44);
    if i == s.len() {
        seq![s]
    } else {
        seq![s.take(i)] + split_commas(s.skip(i + 1))
    }
}

#[via_fn]
proof fn split_commas_decreases(s: Seq<u8>) {
    lemma_idx_of(s, 44);
}

/// Splitting a comma-joined list of names gives the names back, provided
/// every name is non-empty and holds no comma; the empty list round-trips
/// to the list of one empty name, which the wire form cannot distinguish.
pub proof fn lemma_name_list_round_trip(ns: Seq<Seq<u8>>)
    requires
        ns.len() > 0,
        forall|k: int| 0 <= k < ns.len() ==> ns[k].len() > 0,
        forall|k: int, j: int|
            0 <= k < ns.len() && 0 <= j < ns[k].len() ==> ns[k][j] != 44,
    ensures
        split_commas(name_list_bytes(ns)) =~~= ns,
    decreases ns.len(),
{
    let s = name_list_bytes(ns);
    if ns.len() == 1 {
        assert(forall|j: int| 0 <= j < s.len() ==> s[j] != 44);
        lemma_idx_of_is(s, 44, s.len() as int);
        assert(split_commas(s) =~~= seq![s]);
    } else {
        let head = ns[0];
        let rest = ns.skip(1);
        lemma_name_list_cons(ns);
        let tail_bytes = name_list_bytes(rest);
        assert(s =~= head + seq![44u8] + tail_bytes);
        assert(forall|j: int| 0 <= j < head.len() ==> s[j] != 44);
        assert(s[head.len() as int] == 44);
        lemma_idx_of_is(s, 44, head.len() as int);
        assert(s.take(head.len() as int) =~= head);
        assert(s.skip(head.len() as int + 1) =~= tail_bytes);
        lemma_name_list_round_trip(rest);
        assert(split_commas(s) =~~= seq![head] + split_commas(tail_bytes));
        assert(seq![head] + rest =~~= ns);
    }
}

/// Joining recurses on the last name; this restates it over the first.
proof fn lemma_name_list_cons(ns: Seq<Seq<u8>>)
    requires
        ns.len() >= 2,
    ensures
        name_list_bytes(ns) =~= ns[0] + seq![44u8] + name_list_bytes(ns.skip(1)),
    decreases ns.len(),
{
    if ns.len() == 2 {
        assert(ns.drop_last() =~= seq![ns[0]]);
        assert(name_list_bytes(ns.drop_last()) == ns[0]);
        assert(ns.skip(1) =~= seq![ns[1]]);
    } else {
        lemma_name_list_cons(ns.drop_last());
        assert(ns.drop_last()[0] == ns[0]);
        assert(ns.drop_last().skip(1) =~= ns.skip(1).drop_last());
        assert(ns.skip(1).last() == ns.last());
        assert(name_list_bytes(ns.skip(1)) == name_list_bytes(ns.skip(1).drop_last())
            + seq![44u8] + ns.last());
    }
}

/// A growing byte buffer holding an SSH message under construction.
#[derive(Debug)]
pub struct Data {
    buf: Vec<u8>,
}

impl View for Data {
    type V = Seq<u8>;

    closed spec fn view(&self) -> Seq<u8> {
        self.buf@
    }
}

impl Data {
    pub fn new() -> (r: Data)
        ensures
            r@ =~= Seq::<u8>::empty(),
    {
        Data { buf: Vec::new() }
    }

    pub fn from_vec(v: Vec<u8>) -> (r: Data)
        ensures
            r@ == v@,
    {
        Data { buf: v }
    }

    pub fn len(&self) -> (r: usize)
        ensures
            r == self@.len(),
    {
        self.buf.len()
    }

    pub fn as_bytes(&self) -> (r: &Vec<u8>)
        ensures
            r@ == self@,
    {
        &self.buf
    }

    pub fn into_vec(self) -> (r: Vec<u8>)
        ensures
            r@ == self@,
    {
        self.buf
    }

    pub fn put_u8(&mut self, v: u8)
        ensures
            final(self)@ =~= old(self)@.push(v),
    {
        self.buf.push(v);
    }

    pub fn put_bool(&mut self, v: bool)
        ensures
            final(self)@ =~= old(self)@.push(if v { 1u8 } else { 0u8 }),
    {
        if v {
            self.buf.push(1);
        } else {
            self.buf.push(0);
        }
    }

    pub fn put_u32(&mut self, v: u32)
        ensures
            final(self)@ =~= old(self)@ + u32_be(v),
    {
        self.buf.push(((v >> 24) & 0xff) as u8);
        self.buf.push(((v >> 16) & 0xff) as u8);
        self.buf.push(((v >> 8) & 0xff) as u8);
        self.buf.push((v & 0xff) as u8);
    }

    /// Appends raw bytes, with no length prefix.
    pub fn put_raw(&mut self, v: &[u8])
        ensures
            final(self)@ =~= old(self)@ + v@,
    {
        let mut i: usize = 0;
        while i < v.len()
            invariant
                i <= v.len(),
                self@ =~= old(self)@ + v@.take(i as int),
            decreases v.len() - i,
        {
            self.buf.push(v[i]);
            i = i + 1;
            assert(old(self)@ + v@.take(i - 1) + seq![v@[i - 1]] =~= old(self)@ + v@.take(
                i as int,
            ));
        }
        assert(v@.take(v@.len() as int) =~= v@);
    }

    /// Appends a length-prefixed byte string.
    pub fn put_bytes(&mut self, v: &[u8]) -> (r: Result<(), SshError>)
        ensures
            v@.len() <= u32::MAX ==> r is Ok && final(self)@ =~= old(self)@ + u32_be(
                v@.len() as u32,
            ) + v@,
            v@.len() > u32::MAX ==> r is Err && r->Err_0 == SshError::MalformedField && final(self)@ =~= old(self)@,
    {
        if v.len() > u32::MAX as usize {
            return Err(SshError::MalformedField);
        }
        self.put_u32(v.len() as u32);
        self.put_raw(v);
        Ok(())
    }

    /// Appends a length-prefixed UTF-8 string.
    pub fn put_str(&mut self, s: &str) -> (r: Result<(), SshError>)
        ensures
            s.spec_bytes().len() <= u32::MAX ==> r is Ok && final(self)@ =~= old(self)@ + u32_be(
                s.spec_bytes().len() as u32,
            ) + s.spec_bytes(),
            s.spec_bytes().len() > u32::MAX ==> r is Err && r->Err_0 == SshError::MalformedField
                && final(self)@ =~= old(self)@,
    {
        self.put_bytes(s.as_bytes())
    }

    /// Appends a length-prefixed mpint built from big-endian magnitude
    /// bytes of a non-negative integer.
    pub fn put_mpint(&mut self, mag: &[u8]) -> (r: Result<(), SshError>)
        ensures
            mag@.len() + 1 <= u32::MAX ==> r is Ok && final(self)@ =~= old(self)@ + u32_be(
                mpint_body(mag@).len() as u32,
            ) + mpint_body(mag@),
            mag@.len() + 1 > u32::MAX ==> r is Err && r->Err_0 == SshError::MalformedField && final(self)@ =~= old(self)@,
    {
        if mag.len() >= u32::MAX as usize {
            return Err(SshError::MalformedField);
        }
        let mut i: usize = 0;
        while i < mag.len() && mag[i] == 0
            invariant
                i <= mag@.len(),
                forall|j: int| 0 <= j < i ==> mag@[j] == 0,
            decreases mag@.len() - i,
        {
            i = i + 1;
        }
        proof {
            lemma_trim_skip(mag@, i as int);
        }
        let ghost t = trim_leading_zeros(mag@);
        if i == mag.len() {
            self.put_u32(0);
            assert(mpint_body(mag@) =~= Seq::<u8>::empty());
            assert(old(self)@ + u32_be(0) + mpint_body(mag@) =~= old(self)@ + u32_be(0));
        } else if mag[i] >= 0x80 {
            let body_len = mag.len() - i + 1;
            self.put_u32(body_len as u32);
            self.put_u8(0);
            let tail: &[u8] = slice_subrange(mag, i, mag.len());
            self.put_raw(tail);
            assert(mpint_body(mag@) =~= seq![0u8] + t);
            assert(old(self)@ + u32_be(body_len as u32) + seq![0u8] + mag@.subrange(
                i as int,
                mag@.len() as int,
            ) =~= old(self)@ + u32_be(mpint_body(mag@).len() as u32) + mpint_body(mag@));
        } else {
            let body_len = mag.len() - i;
            self.put_u32(body_len as u32);
            let tail: &[u8] = slice_subrange(mag, i, mag.len());
            self.put_raw(tail);
            assert(mpint_body(mag@) =~= t);
            assert(old(self)@ + u32_be(body_len as u32) + mag@.subrange(i as int, mag@.len() as int)
                =~= old(self)@ + u32_be(mpint_body(mag@).len() as u32) + mpint_body(mag@));
        }
        Ok(())
    }

    /// Appends a length-prefixed name-list: the names joined by commas.
    pub fn put_name_list(&mut self, names: &Vec<Vec<u8>>) -> (r: Result<(), SshError>)
        ensures
            r is Ok ==> final(self)@ =~= old(self)@ + u32_be(
                name_list_bytes(names.deep_view()).len() as u32,
            ) + name_list_bytes(names.deep_view()),
            r is Err ==> r->Err_0 == SshError::MalformedField && final(self)@ =~= old(self)@,
            name_list_bytes(names.deep_view()).len() <= u32::MAX ==> r is Ok,
    {
        let mut joined: Vec<u8> = Vec::new();
        let mut k: usize = 0;
        while k < names.len()
            invariant
                k <= names@.len(),
                joined@ =~= name_list_bytes(names.deep_view().take(k as int)),
            decreases names@.len() - k,
        {
            if k > 0 {
                joined.push(44);
            }
            let name = &names[k];
            let mut j: usize = 0;
            while j < name.len()
                invariant
                    j <= name@.len(),
                    k < names@.len(),
                    name@ == names@[k as int]@,
                    k == 0 ==> joined@ =~= name_list_bytes(names.deep_view().take(k as int))
                        + name@.take(j as int),
                    k > 0 ==> joined@ =~= name_list_bytes(names.deep_view().take(k as int))
                        + seq![44u8] + name@.take(j as int),
                decreases name@.len() - j,
            {
                joined.push(name[j]);
                j = j + 1;
            }
            proof {
                let nsd = names.deep_view();
                assert(name@.take(name@.len() as int) =~= nsd[k as int]);
                if k == 0 {
                    assert(name_list_bytes(nsd.take(1)) == nsd.take(1)[0]);
                    assert(joined@ =~= name_list_bytes(nsd.take(k + 1)));
                } else {
                    assert(nsd.take(k + 1).drop_last() =~= nsd.take(k as int));
                    assert(nsd.take(k + 1).last() == nsd[k as int]);
                    assert(name_list_bytes(nsd.take(k + 1)) == name_list_bytes(nsd.take(k as int))
                        + seq![44u8] + nsd[k as int]);
                    assert(joined@ =~= name_list_bytes(nsd.take(k + 1)));
                }
            }
            k = k + 1;
        }
        proof {
            assert(names.deep_view().take(names@.len() as int) =~= names.deep_view());
        }
        if joined.len() > u32::MAX as usize {
            return Err(SshError::MalformedField);
        }
        self.put_u32(joined.len() as u32);
        self.put_raw(joined.as_slice());
        Ok(())
    }
}

/// A cursor over received bytes; its view is what is still unread.
pub struct Reader {
    buf: Vec<u8>,
    pos: usize,
}

impl View for Reader {
    type V = Seq<u8>;

    closed spec fn view(&self) -> Seq<u8> {
        self.buf@.skip(self.pos as int)
    }
}

#[verifier::type_invariant]
spec fn reader_inv(r: &Reader) -> bool {
    r.pos <= r.buf@.len()
}

impl Reader {
    pub fn new(v: Vec<u8>) -> (r: Reader)
        ensures
            r@ == v@,
    {
        let r = Reader { buf: v, pos: 0 };
        assert(r.buf@.skip(0) =~= r.buf@);
        r
    }

    pub fn remaining(&self) -> (r: usize)
        ensures
            r == self@.len(),
    {
        proof {
            use_type_invariant(self);
        }
        self.buf.len() - self.pos
    }

    pub fn is_empty(&self) -> (r: bool)
        ensures
            r == (self@.len() == 0),
    {
        self.remaining() == 0
    }

    pub fn get_u8(&mut self) -> (r: Result<u8, SshError>)
        ensures
            old(self)@.len() >= 1 ==> r == Ok::<u8, SshError>(old(self)@[0]) && final(self)@ =~=
                old(self)@.skip(1),
            old(self)@.len() == 0 ==> r == Err::<u8, SshError>(SshError::MalformedField) && final(self)@ == old(self)@,
    {
        proof {
            use_type_invariant(&*self);
        }
        if self.pos < self.buf.len() {
            let b = self.buf[self.pos];
            self.pos = self.pos + 1;
            assert(old(self)@.skip(1) =~= self.buf@.skip(self.pos as int));
            Ok(b)
        } else {
            Err(SshError::MalformedField)
        }
    }

    pub fn get_bool(&mut self) -> (r: Result<bool, SshError>)
        ensures
            old(self)@.len() >= 1 ==> r == Ok::<bool, SshError>(old(self)@[0] != 0) && final(self)@ =~= old(self)@.skip(1),
            old(self)@.len() == 0 ==> r == Err::<bool, SshError>(SshError::MalformedField) && final(self)@ == old(self)@,
    {
        match self.get_u8() {
            Ok(b) => Ok(b != 0),
            Err(e) => Err(e),
        }
    }

    pub fn get_u32(&mut self) -> (r: Result<u32, SshError>)
        ensures
            old(self)@.len() >= 4 ==> r == Ok::<u32, SshError>(
                be_u32(old(self)@[0], old(self)@[1], old(self)@[2], old(self)@[3]),
            ) && final(self)@ =~= old(self)@.skip(4),
            old(self)@.len() < 4 ==> r == Err::<u32, SshError>(SshError::MalformedField) && final(self)@ == old(self)@,
    {
        proof {
            use_type_invariant(&*self);
        }
        if self.buf.len() - self.pos < 4 {
            return Err(SshError::MalformedField);
        }
        let b0 = self.buf[self.pos];
        let b1 = self.buf[self.pos + 1];
        let b2 = self.buf[self.pos + 2];
        let b3 = self.buf[self.pos + 3];
        self.pos = self.pos + 4;
        assert(old(self)@.skip(4) =~= self.buf@.skip(self.pos as int));
        Ok(((b0 as u32) << 24) | ((b1 as u32) << 16) | ((b2 as u32) << 8) | (b3 as u32))
    }

    /// Reads exactly `n` raw bytes.
    pub fn get_raw(&mut self, n: usize) -> (r: Result<Vec<u8>, SshError>)
        ensures
            n <= old(self)@.len() ==> r is Ok && r->Ok_0@ =~= old(self)@.take(n as int) && final(self)@ =~= old(self)@.skip(n as int),
            n > old(self)@.len() ==> r == Err::<Vec<u8>, SshError>(SshError::MalformedField)
                && final(self)@ == old(self)@,
    {
        proof {
            use_type_invariant(&*self);
        }
        if self.buf.len() - self.pos < n {
            return Err(SshError::MalformedField);
        }
        let p: usize = self.pos;
        let len: usize = self.buf.len();
        let mut out: Vec<u8> = Vec::new();
        let mut i: usize = 0;
        while i < n
            invariant
                i <= n,
                p + n <= len,
                len == self.buf@.len(),
                self.pos == p,
                self.buf@ == old(self).buf@,
                out@ =~= self.buf@.skip(p as int).take(i as int),
            decreases n - i,
        {
            out.push(self.buf[p + i]);
            i = i + 1;
        }
        self.pos = p + n;
        assert(old(self)@.skip(n as int) =~= self.buf@.skip(self.pos as int));
        Ok(out)
    }

    /// Reads a length-prefixed byte string; the prefix must not exceed
    /// what remains.
    pub fn get_bytes(&mut self) -> (r: Result<Vec<u8>, SshError>)
        ensures
            ({
                let m = old(self)@;
                if m.len() >= 4 && 4 + be_u32(m[0], m[1], m[2], m[3]) <= m.len() {
                    let l = be_u32(m[0], m[1], m[2], m[3]) as int;
                    r is Ok && r->Ok_0@ =~= m.subrange(4, 4 + l) && final(self)@ =~= m.skip(4 + l)
                } else {
                    r == Err::<Vec<u8>, SshError>(SshError::MalformedField) && final(self)@ == m
                }
            }),
    {
        let avail = self.remaining();
        if avail < 4 {
            return Err(SshError::MalformedField);
        }
        let len32 = self.peek_u32();
        if len32 as usize > avail - 4 {
            return Err(SshError::MalformedField);
        }
        let _ = self.get_u32();
        let body = match self.get_raw(len32 as usize) {
            Ok(v) => v,
            Err(e) => {
                return Err(e);
            },
        };
        proof {
            let m = old(self)@;
            let l = be_u32(m[0], m[1], m[2], m[3]) as int;
            assert(m.skip(4).take(l) =~= m.subrange(4, 4 + l));
            assert(m.skip(4).skip(l) =~= m.skip(4 + l));
        }
        Ok(body)
    }

    /// Reads the big-endian u32 at the cursor without consuming it.
    pub fn peek_u32(&self) -> (r: u32)
        requires
            self@.len() >= 4,
        ensures
            r == be_u32(self@[0], self@[1], self@[2], self@[3]),
    {
        proof {
            use_type_invariant(self);
            assert(self@.len() == self.buf@.len() - self.pos);
        }
        let p: usize = self.pos;
        let len: usize = self.buf.len();
        assert(p + 4 <= len);
        let b0 = self.buf[p];
        let b1 = self.buf[p + 1];
        let b2 = self.buf[p + 2];
        let b3 = self.buf[p + 3];
        ((b0 as u32) << 24) | ((b1 as u32) << 16) | ((b2 as u32) << 8) | (b3 as u32)
    }

    /// Reads a length-prefixed mpint body and returns the magnitude
    /// bytes; a negative body is malformed here, since the protocol
    /// only carries non-negative values.
    pub fn get_mpint(&mut self) -> (r: Result<Vec<u8>, SshError>)
        ensures
            ({
                let m = old(self)@;
                if m.len() >= 4 && 4 + be_u32(m[0], m[1], m[2], m[3]) <= m.len() {
                    let l = be_u32(m[0], m[1], m[2], m[3]) as int;
                    let body = m.subrange(4, 4 + l);
                    match mpint_decode(body) {
                        Some(mag) => r is Ok && r->Ok_0@ =~= mag && final(self)@ =~= m.skip(4 + l),
                        None => r == Err::<Vec<u8>, SshError>(SshError::MalformedField),
                    }
                } else {
                    r == Err::<Vec<u8>, SshError>(SshError::MalformedField) && final(self)@ == m
                }
            }),
    {
        let body = match self.get_bytes() {
            Ok(v) => v,
            Err(e) => {
                return Err(e);
            },
        };
        if body.len() > 0 && body[0] >= 0x80 {
            return Err(SshError::MalformedField);
        }
        let mut i: usize = 0;
        while i < body.len() && body[i] == 0
            invariant
                i <= body@.len(),
                forall|j: int| 0 <= j < i ==> body@[j] == 0,
            decreases body@.len() - i,
        {
            i = i + 1;
        }
        proof {
            lemma_trim_skip(body@, i as int);
        }
        let mut mag: Vec<u8> = Vec::new();
        let mut k: usize = i;
        while k < body.len()
            invariant
                i <= k <= body@.len(),
                mag@ =~= body@.subrange(i as int, k as int),
            decreases body@.len() - k,
        {
            mag.push(body[k]);
            k = k + 1;
        }
        assert(mag@ =~= body@.skip(i as int));
        Ok(mag)
    }

    /// Reads a length-prefixed name-list and splits it on commas.
    pub fn get_name_list(&mut self) -> (r: Result<Vec<Vec<u8>>, SshError>)
        ensures
            ({
                let m = old(self)@;
                if m.len() >= 4 && 4 + be_u32(m[0], m[1], m[2], m[3]) <= m.len() {
                    let l = be_u32(m[0], m[1], m[2], m[3]) as int;
                    r is Ok && r->Ok_0.deep_view() =~~= split_commas(m.subrange(4, 4 + l)) && final(self)@ =~= m.skip(4 + l)
                } else {
                    r == Err::<Vec<Vec<u8>>, SshError>(SshError::MalformedField) && final(self)@
                        == m
                }
            }),
    {
        let body = match self.get_bytes() {
            Ok(v) => v,
            Err(e) => {
                return Err(e);
            },
        };
        let mut out: Vec<Vec<u8>> = Vec::new();
        let mut start: usize = 0;
        let mut j: usize = 0;
        proof {
            assert(body@.skip(0) =~= body@);
            assert(out.deep_view() =~~= Seq::<Seq<u8>>::empty());
            assert(out.deep_view() + split_commas(body@) =~~= split_commas(body@));
        }
        while j < body.len()
            invariant
                start <= j <= body@.len(),
                forall|q: int| start <= q < j ==> body@[q] != 44,
                split_commas(body@) =~~= out.deep_view() + split_commas(body@.skip(start as int)),
            decreases body@.len() - j,
        {
            if body[j] == 44 {
                let mut seg: Vec<u8> = Vec::new();
                let mut q: usize = start;
                while q < j
                    invariant
                        start <= q <= j <= body@.len(),
                        seg@ =~= body@.subrange(start as int, q as int),
                    decreases j - q,
                {
                    seg.push(body[q]);
                    q = q + 1;
                }
                proof {
                    let rest = body@.skip(start as int);
                    lemma_idx_of_is(rest, 44, j - start);
                    assert(rest.take(j - start) =~= body@.subrange(start as int, j as int));
                    assert(rest.skip(j - start + 1) =~= body@.skip(j + 1));
                    assert(split_commas(rest) =~~= seq![seg@] + split_commas(body@.skip(j + 1)));
                    assert((out.deep_view() + seq![seg@]) + split_commas(body@.skip(j + 1)) =~~=
                        out.deep_view() + (seq![seg@] + split_commas(body@.skip(j + 1))));
                }
                let ghost prev = out.deep_view();
                out.push(seg);
                assert(out.deep_view() =~~= prev + seq![seg@]);
                start = j + 1;
            }
            j = j + 1;
        }
        let mut seg: Vec<u8> = Vec::new();
        let mut q: usize = start;
        while q < body.len()
            invariant
                start <= q <= body@.len(),
                seg@ =~= body@.subrange(start as int, q as int),
            decreases body@.len() - q,
        {
            seg.push(body[q]);
            q = q + 1;
        }
        proof {
            let rest = body@.skip(start as int);
            lemma_idx_of_is(rest, 44, rest.len() as int);
            assert(seg@ =~= rest);
            assert(split_commas(rest) =~~= seq![seg@]);
        }
        out.push(seg);
        Ok(out)
    }
}

} // verus!
