//! The SCP sink sub-protocol, layered on an exec channel: parsing of
//! the textual control lines, the per-transfer file record, and the
//! byte-exact reception of file contents. The filesystem work the
//! decisions call for is done by the caller.

use vstd::prelude::*;
use vstd::utf8::*;

use crate::codec::idx_of;
use crate::error::SshError;

verus! {

/// Whether the bytes are a well-formed UTF-8 encoding. The sub-protocol
/// is textual: a control line that is not UTF-8 is rejected before any
/// decision is drawn from it.
pub fn is_valid_utf8(s: &[u8]) -> (r: bool)
    ensures
        r == valid_utf8(s@),
{
    let n = s.len();
    let mut i: usize = 0;
    proof {
        assert(s@.skip(0) =~= s@);
    }
    while i < n
        invariant
            i <= n,
            n == s@.len(),
            valid_utf8(s@) == valid_utf8(s@.skip(i as int)),
        decreases n - i,
    {
        let ghost t = s@.skip(i as int);
        proof {
            assert(t.len() == n - i);
            assert(t[0] == s@[i as int]);
        }
        let b0 = s[i];
        let width: usize;
        if b0 <= 0x7f {
            proof {
                assert(is_leading_byte_width_1(t[0]));
                assert((b0 & 0x7f) < 0xd800) by (bit_vector);
                assert(valid_first_scalar(t));
                assert(length_of_first_scalar(t) == 1);
                assert(pop_first_scalar(t) =~= s@.skip(i + 1));
            }
            width = 1;
        } else if b0 < 0xc0 {
            proof {
                assert(!valid_leading_and_continuation_bytes_first_codepoint(t));
            }
            return false;
        } else if b0 <= 0xdf {
            if n - i < 2 {
                proof {
                    assert(!valid_leading_and_continuation_bytes_first_codepoint(t));
                }
                return false;
            }
            let b1 = s[i + 1];
            proof {
                assert(t[1] == s@[i + 1]);
            }
            if !(0x80 <= b1 && b1 <= 0xbf) {
                proof {
                    assert(!valid_leading_and_continuation_bytes_first_codepoint(t));
                }
                return false;
            }
            let cp: u32 = (((b0 & 0x1f) as u32) << 6) | ((b1 & 0x3f) as u32);
            proof {
                assert(decode_first_codepoint(t) == cp);
            }
            if cp < 0x80 {
                proof {
                    assert(!not_overlong_encoding(cp, 2));
                    assert(!valid_first_scalar(t));
                }
                return false;
            }
            proof {
                assert((((b0 & 0x1f) as u32) << 6) | ((b1 & 0x3f) as u32) < 0x800)
                    by (bit_vector);
                assert(valid_first_scalar(t));
                assert(length_of_first_scalar(t) == 2);
                assert(pop_first_scalar(t) =~= s@.skip(i + 2));
            }
            width = 2;
        } else if b0 <= 0xef {
            if n - i < 3 {
                proof {
                    assert(!valid_leading_and_continuation_bytes_first_codepoint(t));
                }
                return false;
            }
            let b1 = s[i + 1];
            let b2 = s[i + 2];
            proof {
                assert(t[1] == s@[i + 1]);
                assert(t[2] == s@[i + 2]);
            }
            if !(0x80 <= b1 && b1 <= 0xbf && 0x80 <= b2 && b2 <= 0xbf) {
                proof {
                    assert(!valid_leading_and_continuation_bytes_first_codepoint(t));
                }
                return false;
            }
            let cp: u32 = (((b0 & 0x0f) as u32) << 12) | (((b1 & 0x3f) as u32) << 6) | ((b2
                & 0x3f) as u32);
            proof {
                assert(decode_first_codepoint(t) == cp);
            }
            if cp < 0x800 || (0xd800 <= cp && cp <= 0xdfff) {
                proof {
                    assert(!valid_first_scalar(t));
                }
                return false;
            }
            proof {
                assert(valid_first_scalar(t));
                assert(length_of_first_scalar(t) == 3);
                assert(pop_first_scalar(t) =~= s@.skip(i + 3));
            }
            width = 3;
        } else if b0 <= 0xf7 {
            if n - i < 4 {
                proof {
                    assert(!valid_leading_and_continuation_bytes_first_codepoint(t));
                }
                return false;
            }
            let b1 = s[i + 1];
            let b2 = s[i + 2];
            let b3 = s[i + 3];
            proof {
                assert(t[1] == s@[i + 1]);
                assert(t[2] == s@[i + 2]);
                assert(t[3] == s@[i + 3]);
            }
            if !(0x80 <= b1 && b1 <= 0xbf && 0x80 <= b2 && b2 <= 0xbf && 0x80 <= b3 && b3
                <= 0xbf) {
                proof {
                    assert(!valid_leading_and_continuation_bytes_first_codepoint(t));
                }
                return false;
            }
            let cp: u32 = (((b0 & 0x07) as u32) << 18) | (((b1 & 0x3f) as u32) << 12) | (((b2
                & 0x3f) as u32) << 6) | ((b3 & 0x3f) as u32);
            proof {
                assert(decode_first_codepoint(t) == cp);
            }
            if !(0x10000 <= cp && cp <= 0x10ffff) {
                proof {
                    assert(!valid_first_scalar(t));
                }
                return false;
            }
            proof {
                assert(valid_first_scalar(t));
                assert(length_of_first_scalar(t) == 4);
                assert(pop_first_scalar(t) =~= s@.skip(i + 4));
            }
            width = 4;
        } else {
            proof {
                assert(!valid_leading_and_continuation_bytes_first_codepoint(t));
            }
            return false;
        }
        i = i + width;
    }
    proof {
        assert(s@.skip(n as int).len() == 0);
    }
    true
}

/// Control line leads: timestamps, file, directory, ascend; and the two
/// error leads.
pub const SCP_T: u8 = 84;

pub const SCP_C: u8 = 67;

pub const SCP_D: u8 = 68;

pub const SCP_E: u8 = 69;

pub const SCP_ERR: u8 = 1;

pub const SCP_FATAL_ERR: u8 = 2;

pub open spec fn is_dec_digit(b: u8) -> bool {
    48 <= b <= 57
}

pub open spec fn all_dec(s: Seq<u8>) -> bool {
    forall|i: int| 0 <= i < s.len() ==> is_dec_digit(#[trigger] s[i])
}

/// Value of a decimal digit string.
pub open spec fn dec_value(s: Seq<u8>) -> int
    decreases s.len(),
{
    if s.len() == 0 {
        0
    } else {
        dec_value(s.drop_last()) * 10 + (s.last() - 48)
    }
}

pub open spec fn is_oct_digit(b: u8) -> bool {
    48 <= b <= 55
}

pub open spec fn all_oct(s: Seq<u8>) -> bool {
    forall|i: int| 0 <= i < s.len() ==> is_oct_digit(#[trigger] s[i])
}

/// Value of an octal digit string, as in the mode field.
pub open spec fn oct_value(s: Seq<u8>) -> int
    decreases s.len(),
{
    if s.len() == 0 {
        0
    } else {
        oct_value(s.drop_last()) * 8 + (s.last() - 48)
    }
}

spec fn pow8(n: nat) -> int
    decreases n,
{
    if n == 0 {
        1
    } else {
        8 * pow8((n - 1) as nat)
    }
}

proof fn lemma_oct_bound(s: Seq<u8>)
    requires
        all_oct(s),
    ensures
        0 <= oct_value(s) < pow8(s.len()),
    decreases s.len(),
{
    if s.len() > 0 {
        assert(all_oct(s.drop_last())) by {
            assert(forall|i: int| 0 <= i < s.len() - 1 ==> s.drop_last()[i] == s[i]);
        }
        lemma_oct_bound(s.drop_last());
        let x = oct_value(s.drop_last());
        let p = pow8((s.len() - 1) as nat);
        assert(48 <= s.last() <= 55);
        assert(0 <= x * 8 + (s.last() - 48) < 8 * p) by (nonlinear_arith)
            requires
                0 <= x < p,
                0 <= s.last() - 48 <= 7,
        ;
    }
}

proof fn lemma_pow8_le(a: nat, b: nat)
    requires
        a <= b,
    ensures
        pow8(a) <= pow8(b),
        pow8(a) >= 1,
    decreases b,
{
    if a < b {
        lemma_pow8_le(a, (b - 1) as nat);
    } else if a > 0 {
        lemma_pow8_le((a - 1) as nat, (b - 1) as nat);
    }
}

proof fn lemma_dec_nonneg(s: Seq<u8>)
    requires
        all_dec(s),
    ensures
        dec_value(s) >= 0,
    decreases s.len(),
{
    if s.len() > 0 {
        assert(all_dec(s.drop_last())) by {
            assert(forall|i: int| 0 <= i < s.len() - 1 ==> s.drop_last()[i] == s[i]);
        }
        lemma_dec_nonneg(s.drop_last());
    }
}

proof fn lemma_dec_prefix_le(s: Seq<u8>, i: int)
    requires
        all_dec(s),
        0 <= i <= s.len(),
    ensures
        dec_value(s.take(i)) <= dec_value(s),
    decreases s.len() - i,
{
    if i < s.len() {
        lemma_dec_prefix_le(s, i + 1);
        let t = s.take(i + 1);
        assert(t.drop_last() =~= s.take(i));
        assert(all_dec(s.take(i))) by {
            assert(forall|j: int| 0 <= j < i ==> s.take(i)[j] == s[j]);
        }
        lemma_dec_nonneg(s.take(i));
        assert(dec_value(t) == dec_value(s.take(i)) * 10 + (t.last() - 48));
        assert(dec_value(s.take(i)) * 10 >= dec_value(s.take(i))) by (nonlinear_arith)
            requires
                dec_value(s.take(i)) >= 0,
        ;
        assert(48 <= t.last() <= 57);
    } else {
        assert(s.take(i) =~= s);
    }
}

/// Parses a decimal number: defined exactly on non-empty all-digit
/// strings whose value fits, and fails otherwise.
pub fn parse_u64_dec(s: &[u8]) -> (r: Result<u64, SshError>)
    ensures
        (s@.len() > 0 && all_dec(s@) && dec_value(s@) <= u64::MAX) <==> r is Ok,
        r is Ok ==> r->Ok_0 == dec_value(s@),
        r is Err ==> r->Err_0 == SshError::ScpProtocol,
{
    if s.len() == 0 {
        return Err(SshError::ScpProtocol);
    }
    let mut acc: u64 = 0;
    let mut i: usize = 0;
    proof {
        assert(s@.take(0).len() == 0);
    }
    while i < s.len()
        invariant
            i <= s@.len(),
            all_dec(s@.take(i as int)),
            acc == dec_value(s@.take(i as int)),
        decreases s@.len() - i,
    {
        let b = s[i];
        if !(48 <= b && b <= 57) {
            proof {
                assert(!is_dec_digit(s@[i as int]));
            }
            return Err(SshError::ScpProtocol);
        }
        let d = (b - 48) as u64;
        if acc > (u64::MAX - d) / 10 {
            proof {
                assert(all_dec(s@.take(i + 1))) by {
                    assert(forall|j: int|
                        0 <= j < i + 1 ==> #[trigger] s@.take(i + 1)[j] == s@[j]);
                }
                assert(s@.take(i + 1).drop_last() =~= s@.take(i as int));
                assert(dec_value(s@.take(i + 1)) == acc * 10 + d);
                assert(acc * 10 + d > u64::MAX) by (nonlinear_arith)
                    requires
                        acc > (u64::MAX - d) / 10,
                        d <= 9,
                        acc >= 0,
                ;
                if all_dec(s@) {
                    lemma_dec_prefix_le(s@, i + 1);
                }
            }
            return Err(SshError::ScpProtocol);
        }
        proof {
            assert(acc * 10 + d <= u64::MAX) by (nonlinear_arith)
                requires
                    acc <= (u64::MAX - d) / 10,
                    d <= 9,
                    acc >= 0,
            ;
            assert(all_dec(s@.take(i + 1))) by {
                assert(forall|j: int| 0 <= j < i + 1 ==> #[trigger] s@.take(i + 1)[j] == s@[j]);
            }
            assert(s@.take(i + 1).drop_last() =~= s@.take(i as int));
        }
        acc = acc * 10 + d;
        i = i + 1;
    }
    proof {
        assert(s@.take(s@.len() as int) =~= s@);
    }
    Ok(acc)
}

/// Parses an octal mode field into mode bits; the field is at most
/// eight digits, as filesystem modes are.
pub fn parse_mode_oct(s: &[u8]) -> (r: Result<u32, SshError>)
    ensures
        (s@.len() > 0 && s@.len() <= 8 && all_oct(s@)) <==> r is Ok,
        r is Ok ==> r->Ok_0 == oct_value(s@),
        r is Err ==> r->Err_0 == SshError::ScpProtocol,
{
    if s.len() == 0 || s.len() > 8 {
        return Err(SshError::ScpProtocol);
    }
    let mut acc: u32 = 0;
    let mut i: usize = 0;
    proof {
        assert(s@.take(0).len() == 0);
    }
    while i < s.len()
        invariant
            i <= s@.len() <= 8,
            all_oct(s@.take(i as int)),
            acc == oct_value(s@.take(i as int)),
        decreases s@.len() - i,
    {
        let b = s[i];
        if !(48 <= b && b <= 55) {
            proof {
                assert(!is_oct_digit(s@[i as int]));
            }
            return Err(SshError::ScpProtocol);
        }
        let d = (b - 48) as u32;
        proof {
            assert(all_oct(s@.take(i + 1))) by {
                assert(forall|j: int| 0 <= j < i + 1 ==> #[trigger] s@.take(i + 1)[j] == s@[j]);
            }
            assert(s@.take(i + 1).drop_last() =~= s@.take(i as int));
            lemma_oct_bound(s@.take(i as int));
            lemma_pow8_le(s@.take(i as int).len(), 7);
            assert(pow8(7) == 0x20_0000) by {
                reveal_with_fuel(pow8, 9);
            }
        }
        acc = acc * 8 + d;
        i = i + 1;
    }
    proof {
        assert(s@.take(s@.len() as int) =~= s@);
    }
    Ok(acc)
}

/// One entry of a transfer: what the header lines said of it, and where
/// it goes locally, as path components under the transfer root.
pub struct ScpFile {
    pub name: Vec<u8>,
    pub size: u64,
    pub mode: u32,
    pub is_dir: bool,
    pub modify_time: i64,
    pub access_time: i64,
    pub have_times: bool,
    /// Directory components below the root the walk stands in.
    pub local_path: Vec<Vec<u8>>,
}

impl ScpFile {
    pub fn new() -> (r: ScpFile)
        ensures
            r.size == 0,
            r.mode == 0,
            !r.is_dir,
            !r.have_times,
            r.name@.len() == 0,
            r.local_path@.len() == 0,
    {
        ScpFile {
            name: Vec::new(),
            size: 0,
            mode: 0,
            is_dir: false,
            modify_time: 0,
            access_time: 0,
            have_times: false,
            local_path: Vec::new(),
        }
    }
}

/// What a parsed `C` or `D` header says.
pub open spec fn parse_header_spec(line: Seq<u8>) -> Option<(int, int, Seq<u8>)> {
    let body = if line.len() > 0 && line.last() == 10 {
        line.drop_last()
    } else {
        line
    };
    if body.len() < 1 {
        None
    } else {
        let rest = body.skip(1);
        let i1 = idx_of(rest, 32);
        if i1 == rest.len() {
            None
        } else {
            let mode_s = rest.take(i1);
            let after = rest.skip(i1 + 1);
            let i2 = idx_of(after, 32);
            if i2 == after.len() {
                None
            } else {
                let size_s = after.take(i2);
                let name = after.skip(i2 + 1);
                if mode_s.len() > 0 && mode_s.len() <= 8 && all_oct(mode_s) && size_s.len() > 0
                    && all_dec(size_s) && dec_value(size_s) <= u64::MAX && name.len() > 0
                    && valid_utf8(line) {
                    Some((oct_value(mode_s), dec_value(size_s), name))
                } else {
                    None
                }
            }
        }
    }
}

/// Finds the first space at or after `from`.
fn find_space(s: &[u8], from: usize) -> (r: usize)
    requires
        from <= s@.len(),
    ensures
        from <= r <= s@.len(),
        forall|q: int| from <= q < r ==> s@[q] != 32,
        r < s@.len() ==> s@[r as int] == 32,
{
    let mut j: usize = from;
    while j < s.len()
        invariant
            from <= j <= s@.len(),
            forall|q: int| from <= q < j ==> s@[q] != 32,
        decreases s@.len() - j,
    {
        if s[j] == 32 {
            return j;
        }
        j = j + 1;
    }
    s.len()
}

/// Parses a `Cmmmm size name` or `Dmmmm 0 name` header line into mode
/// bits, size and name; exactly the well-formed lines parse, and a line
/// that is not valid UTF-8 is never well formed.
pub fn parse_header(line: &[u8]) -> (r: Result<(u32, u64, Vec<u8>), SshError>)
    ensures
        match parse_header_spec(line@) {
            Some(h) => r is Ok && r->Ok_0.0 == h.0 && r->Ok_0.1 == h.1 && r->Ok_0.2@ =~= h.2,
            None => r == Err::<(u32, u64, Vec<u8>), SshError>(SshError::ScpProtocol),
        },
{
    if !is_valid_utf8(line) {
        return Err(SshError::ScpProtocol);
    }
    let mut hi: usize = line.len();
    if hi > 0 && line[hi - 1] == 10 {
        hi = hi - 1;
    }
    let ghost body = if line@.len() > 0 && line@.last() == 10 {
        line@.drop_last()
    } else {
        line@
    };
    proof {
        assert(body =~= line@.take(hi as int));
    }
    if hi < 1 {
        return Err(SshError::ScpProtocol);
    }
    let ghost rest = body.skip(1);
    proof {
        assert(forall|q: int| 0 <= q < rest.len() ==> rest[q] == line@[q + 1]);
    }
    let i1 = find_space(line, 1);
    if i1 >= hi {
        proof {
            crate::codec::lemma_idx_of_is(rest, 32, rest.len() as int);
        }
        return Err(SshError::ScpProtocol);
    }
    proof {
        crate::codec::lemma_idx_of_is(rest, 32, i1 - 1);
        assert(rest.take(i1 - 1) =~= line@.subrange(1, i1 as int));
    }
    let mode_slice = vstd::slice::slice_subrange(line, 1, i1);
    let ghost after = rest.skip(i1 as int);
    proof {
        assert(after =~= rest.skip((i1 - 1) + 1));
        assert(forall|q: int| 0 <= q < after.len() ==> after[q] == line@[q + i1 + 1]);
    }
    let mode = match parse_mode_oct(mode_slice) {
        Ok(v) => v,
        Err(e) => {
            return Err(e);
        },
    };
    let i2 = find_space(line, i1 + 1);
    if i2 >= hi {
        proof {
            crate::codec::lemma_idx_of_is(after, 32, after.len() as int);
        }
        return Err(SshError::ScpProtocol);
    }
    proof {
        crate::codec::lemma_idx_of_is(after, 32, i2 - i1 - 1);
        assert(after.take(i2 - i1 - 1) =~= line@.subrange(i1 as int + 1, i2 as int));
    }
    let size_slice = vstd::slice::slice_subrange(line, i1 + 1, i2);
    let size = match parse_u64_dec(size_slice) {
        Ok(v) => v,
        Err(e) => {
            return Err(e);
        },
    };
    let ghost spec_name = after.skip((i2 - i1 - 1) + 1);
    proof {
        assert(spec_name.len() == hi - i2 - 1);
        assert(forall|q: int| 0 <= q < spec_name.len() ==> spec_name[q] == line@[q + i2 + 1]);
    }
    if i2 + 1 >= hi {
        return Err(SshError::ScpProtocol);
    }
    let name_slice = vstd::slice::slice_subrange(line, i2 + 1, hi);
    let mut name: Vec<u8> = Vec::new();
    let mut q: usize = 0;
    while q < name_slice.len()
        invariant
            q <= name_slice@.len(),
            name@ =~= name_slice@.take(q as int),
        decreases name_slice@.len() - q,
    {
        name.push(name_slice[q]);
        q = q + 1;
    }
    proof {
        assert(name@ =~= name_slice@);
        assert(spec_name =~= name_slice@);
    }
    Ok((mode, size, name))
}

/// The decomposition of a well-formed `T` line, its trailing newline
/// dropped: `T || mtime || " 0 " || atime || " 0"`, both times decimal
/// and in range. Every accepted line is ASCII, so a line that is not
/// valid UTF-8 never parses.
pub open spec fn parse_scp_times(line: Seq<u8>) -> Option<(int, int)> {
    let body = if line.len() > 0 && line.last() == 10 {
        line.drop_last()
    } else {
        line
    };
    if body.len() >= 1 && body[0] == SCP_T {
        let rest = body.skip(1);
        let i1 = idx_of(rest, 32);
        if i1 == rest.len() {
            None
        } else {
            let mt_s = rest.take(i1);
            let after = rest.skip(i1 + 1);
            if after.len() >= 2 && after[0] == 48 && after[1] == 32 {
                let rest2 = after.skip(2);
                let i2 = idx_of(rest2, 32);
                if i2 == rest2.len() {
                    None
                } else {
                    let at_s = rest2.take(i2);
                    let tail = rest2.skip(i2 + 1);
                    if mt_s.len() > 0 && all_dec(mt_s) && dec_value(mt_s) <= i64::MAX && at_s.len()
                        > 0 && all_dec(at_s) && dec_value(at_s) <= i64::MAX && tail =~= seq![48u8] {
                        Some((dec_value(mt_s), dec_value(at_s)))
                    } else {
                        None
                    }
                }
            } else {
                None
            }
        }
    } else {
        None
    }
}

/// Parses `Tmtime 0 atime 0`: the modification and access times that
/// precede a file or directory entry; exactly the well-formed lines
/// parse.
#[verifier::rlimit(60)]
pub fn file_time(v: &[u8]) -> (r: Result<(i64, i64), SshError>)
    ensures
        match parse_scp_times(v@) {
            Some(t) => r is Ok && r->Ok_0.0 == t.0 && r->Ok_0.1 == t.1,
            None => r == Err::<(i64, i64), SshError>(SshError::ScpProtocol),
        },
{
    let mut hi: usize = v.len();
    if hi > 0 && v[hi - 1] == 10 {
        hi = hi - 1;
    }
    let ghost body = if v@.len() > 0 && v@.last() == 10 {
        v@.drop_last()
    } else {
        v@
    };
    proof {
        assert(body =~= v@.take(hi as int));
    }
    if hi < 1 || v[0] != SCP_T {
        return Err(SshError::ScpProtocol);
    }
    let ghost rest = body.skip(1);
    proof {
        assert(forall|q: int| 0 <= q < rest.len() ==> rest[q] == v@[q + 1]);
    }
    let i1 = find_space(v, 1);
    if i1 >= hi {
        proof {
            crate::codec::lemma_idx_of_is(rest, 32, rest.len() as int);
        }
        return Err(SshError::ScpProtocol);
    }
    proof {
        crate::codec::lemma_idx_of_is(rest, 32, i1 - 1);
        assert(rest.take(i1 - 1) =~= v@.subrange(1, i1 as int));
    }
    let ghost after = rest.skip(i1 as int);
    proof {
        assert(after =~= rest.skip((i1 - 1) + 1));
        assert(forall|q: int| 0 <= q < after.len() ==> after[q] == v@[q + i1 + 1]);
    }
    let mt_slice = vstd::slice::slice_subrange(v, 1, i1);
    let mt = match parse_u64_dec(mt_slice) {
        Ok(x) => x,
        Err(_) => {
            return Err(SshError::ScpProtocol);
        },
    };
    if mt > i64::MAX as u64 {
        return Err(SshError::ScpProtocol);
    }
    if !(hi - i1 > 2 && v[i1 + 1] == 48 && v[i1 + 2] == 32) {
        proof {
            assert(parse_scp_times(v@) is None) by {
                if after.len() >= 2 && after[0] == 48 && after[1] == 32 {
                    assert(v@[i1 + 1] == 48 && v@[i1 + 2] == 32 && i1 + 2 < hi);
                }
            }
        }
        return Err(SshError::ScpProtocol);
    }
    let ghost rest2 = after.skip(2);
    proof {
        assert(forall|q: int| 0 <= q < rest2.len() ==> rest2[q] == v@[q + i1 + 3]);
    }
    let i3 = find_space(v, i1 + 3);
    if i3 >= hi {
        proof {
            crate::codec::lemma_idx_of_is(rest2, 32, rest2.len() as int);
        }
        return Err(SshError::ScpProtocol);
    }
    proof {
        crate::codec::lemma_idx_of_is(rest2, 32, i3 - i1 - 3);
        assert(rest2.take(i3 - i1 - 3) =~= v@.subrange(i1 as int + 3, i3 as int));
    }
    let ghost tail = rest2.skip((i3 - i1 - 3) + 1);
    proof {
        assert(tail.len() == hi - i3 - 1);
        assert(forall|q: int| 0 <= q < tail.len() ==> tail[q] == v@[q + i3 + 1]);
    }
    let at_slice = vstd::slice::slice_subrange(v, i1 + 3, i3);
    let at = match parse_u64_dec(at_slice) {
        Ok(x) => x,
        Err(_) => {
            return Err(SshError::ScpProtocol);
        },
    };
    if at > i64::MAX as u64 {
        return Err(SshError::ScpProtocol);
    }
    if !(hi - i3 == 2 && v[i3 + 1] == 48) {
        proof {
            assert(parse_scp_times(v@) is None) by {
                if tail =~= seq![48u8] {
                    assert(tail.len() == 1);
                    assert(tail[0] == v@[i3 + 1]);
                    assert(v@[i3 + 1] == 48);
                }
            }
        }
        return Err(SshError::ScpProtocol);
    }
    proof {
        assert(tail =~= seq![48u8]);
    }
    Ok((mt as i64, at as i64))
}

/// Receives the contents of one file from channel data that may arrive
/// in any fragmentation: exactly `size` content bytes, then the single
/// zero terminator.
pub struct FileReceiver {
    /// Content bytes the header announced.
    pub size: u64,
    /// Content bytes seen so far.
    pub received: u64,
}

impl FileReceiver {
    pub fn new(size: u64) -> (r: FileReceiver)
        ensures
            r.size == size,
            r.received == 0,
    {
        FileReceiver { size, received: 0 }
    }

    /// Takes the next fragment. The returned bytes belong to the file
    /// and are to be written as they are; `true` says the terminator
    /// arrived and the file is complete. Bytes beyond the terminator,
    /// or a terminator that is not zero, are a protocol violation.
    pub fn push(&mut self, data: &[u8]) -> (r: Result<(Vec<u8>, bool), SshError>)
        requires
            old(self).received <= old(self).size,
        ensures
            final(self).size == old(self).size,
            ({
                let total = old(self).received + data@.len();
                let rem = old(self).size - old(self).received;
                if total <= old(self).size {
                    &&& r is Ok
                    &&& r->Ok_0.0@ =~= data@
                    &&& r->Ok_0.1 == false
                    &&& final(self).received == total
                } else if total == old(self).size + 1 && data@.last() == 0 {
                    &&& r is Ok
                    &&& r->Ok_0.0@ =~= data@.take(rem as int)
                    &&& r->Ok_0.1 == true
                    &&& final(self).received == old(self).size
                } else {
                    r == Err::<(Vec<u8>, bool), SshError>(SshError::ScpProtocol)
                }
            }),
    {
        let rem = self.size - self.received;
        let keep: usize;
        let done: bool;
        if data.len() as u64 <= rem {
            keep = data.len();
            done = false;
        } else if data.len() as u64 - rem == 1 {
            if data[data.len() - 1] != 0 {
                return Err(SshError::ScpProtocol);
            }
            keep = data.len() - 1;
            done = true;
        } else {
            return Err(SshError::ScpProtocol);
        }
        let mut w: Vec<u8> = Vec::new();
        let mut q: usize = 0;
        while q < keep
            invariant
                q <= keep,
                keep <= data@.len(),
                w@ =~= data@.take(q as int),
            decreases keep - q,
        {
            w.push(data[q]);
            q = q + 1;
        }
        if done {
            self.received = self.size;
        } else {
            self.received = self.received + keep as u64;
        }
        proof {
            if !done {
                assert(data@.take(data@.len() as int) =~= data@);
            }
        }
        Ok((w, done))
    }
}

/// What the caller must do after one SCP control message.
#[derive(Clone, Copy, PartialEq, Eq, Structural, Debug)]
pub enum ScpAction {
    /// Acknowledge with a single zero byte.
    Ack,
    /// Create or overwrite the file described by the current record,
    /// then receive its bytes, then acknowledge.
    StartFile,
    /// Create the directory described by the current record and descend
    /// into it, then acknowledge.
    MakeDir,
    /// Leave the current directory, one level up, then acknowledge.
    Ascend,
    /// The peer is done; the transfer is over.
    Finished,
}

/// The sink side of a download: interprets the control messages the
/// remote `scp` source sends and keeps the walk position.
pub struct ChannelScp {
    pub channel: crate::channel::Channel,
    pub scp_file: ScpFile,
}

impl ChannelScp {
    pub fn new(channel: crate::channel::Channel) -> (r: ChannelScp)
        ensures
            r.channel == channel,
            r.scp_file.local_path@.len() == 0,
            !r.scp_file.have_times,
    {
        ChannelScp { channel, scp_file: ScpFile::new() }
    }

    /// Handles one control message of the download: timestamps are
    /// captured, file and directory headers fill the current record,
    /// `E` climbs one level, never above the root, and an error message
    /// ends the transfer.
    pub fn process_d(&mut self, data: &[u8]) -> (r: Result<ScpAction, SshError>)
        ensures
            final(self).channel == old(self).channel,
            data@.len() == 0 ==> r == Ok::<ScpAction, SshError>(ScpAction::Finished) && *final(self)
                == *old(self),
            data@.len() > 0 && data@[0] == SCP_T ==> match parse_scp_times(data@) {
                Some(t) => r == Ok::<ScpAction, SshError>(ScpAction::Ack) && final(self).scp_file.modify_time == t.0 && final(self).scp_file.access_time == t.1 && final(self).scp_file.have_times && final(self).scp_file.local_path@ == old(self).scp_file.local_path@,
                None => r == Err::<ScpAction, SshError>(SshError::ScpProtocol),
            },
            data@.len() > 0 && data@[0] == SCP_C ==> match parse_header_spec(data@) {
                Some(h) => r == Ok::<ScpAction, SshError>(ScpAction::StartFile) && final(self).scp_file.mode == h.0 && final(self).scp_file.size == h.1 && final(self).scp_file.name@ =~= h.2 && !final(self).scp_file.is_dir && final(self).scp_file.local_path@ == old(self).scp_file.local_path@,
                None => r == Err::<ScpAction, SshError>(SshError::ScpProtocol),
            },
            data@.len() > 0 && data@[0] == SCP_D ==> match parse_header_spec(data@) {
                Some(h) => r == Ok::<ScpAction, SshError>(ScpAction::MakeDir) && final(self).scp_file.mode == h.0 && final(self).scp_file.name@ =~= h.2 && final(self).scp_file.is_dir && final(self).scp_file.local_path.deep_view() =~~= old(self).scp_file.local_path.deep_view().push(h.2),
                None => r == Err::<ScpAction, SshError>(SshError::ScpProtocol),
            },
            data@.len() > 0 && data@[0] == SCP_E ==> r == Ok::<ScpAction, SshError>(
                ScpAction::Ascend,
            ) && final(self).scp_file.local_path@ == if old(self).scp_file.local_path@.len() > 0 {
                old(self).scp_file.local_path@.drop_last()
            } else {
                old(self).scp_file.local_path@
            },
            data@.len() > 0 && (data@[0] == SCP_ERR || data@[0] == SCP_FATAL_ERR) ==> r == Err::<
                ScpAction,
                SshError,
            >(SshError::ScpProtocol),
            data@.len() > 0 && data@[0] != SCP_T && data@[0] != SCP_C && data@[0] != SCP_D && data@[0] != SCP_E && data@[0] != SCP_ERR && data@[0] != SCP_FATAL_ERR ==> r == Err::<
                ScpAction,
                SshError,
            >(SshError::ScpProtocol),
    {
        if data.len() == 0 {
            return Ok(ScpAction::Finished);
        }
        let code = data[0];
        if code == SCP_T {
            let (mt, at) = match file_time(data) {
                Ok(t) => t,
                Err(e) => {
                    return Err(e);
                },
            };
            self.scp_file.modify_time = mt;
            self.scp_file.access_time = at;
            self.scp_file.have_times = true;
            Ok(ScpAction::Ack)
        } else if code == SCP_C {
            self.process_file_d(data)
        } else if code == SCP_D {
            let (mode, _size, name) = match parse_header(data) {
                Ok(h) => h,
                Err(e) => {
                    return Err(e);
                },
            };
            self.scp_file.mode = mode;
            self.scp_file.name = name;
            self.scp_file.is_dir = true;
            let mut copy: Vec<u8> = Vec::new();
            let mut q: usize = 0;
            let nm = &self.scp_file.name;
            while q < nm.len()
                invariant
                    q <= nm@.len(),
                    copy@ =~= nm@.take(q as int),
                decreases nm@.len() - q,
            {
                copy.push(nm[q]);
                q = q + 1;
            }
            assert(copy@ =~= nm@);
            let ghost prev = self.scp_file.local_path.deep_view();
            self.scp_file.local_path.push(copy);
            proof {
                assert(self.scp_file.local_path.deep_view() =~~= prev.push(copy@));
            }
            Ok(ScpAction::MakeDir)
        } else if code == SCP_E {
            if self.scp_file.local_path.len() > 0 {
                let _ = self.scp_file.local_path.pop();
                proof {
                    assert(self.scp_file.local_path@ =~= old(self).scp_file.local_path@.drop_last());
                }
            }
            Ok(ScpAction::Ascend)
        } else {
            Err(SshError::ScpProtocol)
        }
    }

    /// Handles a file header: the record takes the announced mode, size
    /// and name, and the caller starts receiving the contents.
    pub fn process_file_d(&mut self, data: &[u8]) -> (r: Result<ScpAction, SshError>)
        ensures
            final(self).channel == old(self).channel,
            final(self).scp_file.local_path@ == old(self).scp_file.local_path@,
            match parse_header_spec(data@) {
                Some(h) => r == Ok::<ScpAction, SshError>(ScpAction::StartFile) && final(self).scp_file.mode == h.0 && final(self).scp_file.size == h.1 && final(self).scp_file.name@ =~= h.2 && !final(self).scp_file.is_dir,
                None => r == Err::<ScpAction, SshError>(SshError::ScpProtocol) && *final(self)
                    == *old(self),
            },
    {
        let (mode, size, name) = match parse_header(data) {
            Ok(h) => h,
            Err(e) => {
                return Err(e);
            },
        };
        self.scp_file.mode = mode;
        self.scp_file.size = size;
        self.scp_file.name = name;
        self.scp_file.is_dir = false;
        Ok(ScpAction::StartFile)
    }
}

/// Bytes of the remote command that starts a download: `scp`, `-r` when
/// recursive, `-p` when times are preserved, then `-f` and the path.
pub open spec fn scp_command_bytes(remote: Seq<u8>, recursive: bool, preserve: bool) -> Seq<u8> {
    seq![115u8, 99, 112] + (if recursive {
        seq![32u8, 45, 114]
    } else {
        Seq::<u8>::empty()
    }) + (if preserve {
        seq![32u8, 45, 112]
    } else {
        Seq::<u8>::empty()
    }) + seq![32u8, 45, 102, 32] + remote
}

/// Builds the `scp` source command for `exec`.
pub fn scp_source_command(remote: &[u8], recursive: bool, preserve: bool) -> (r: Vec<u8>)
    ensures
        r@ =~= scp_command_bytes(remote@, recursive, preserve),
{
    let mut out: Vec<u8> = Vec::new();
    out.push(115);
    out.push(99);
    out.push(112);
    if recursive {
        out.push(32);
        out.push(45);
        out.push(114);
    }
    if preserve {
        out.push(32);
        out.push(45);
        out.push(112);
    }
    out.push(32);
    out.push(45);
    out.push(102);
    out.push(32);
    let mut q: usize = 0;
    let ghost head = out@;
    while q < remote.len()
        invariant
            q <= remote@.len(),
            out@ =~= head + remote@.take(q as int),
        decreases remote@.len() - q,
    {
        out.push(remote[q]);
        q = q + 1;
    }
    assert(remote@.take(remote@.len() as int) =~= remote@);
    out
}

} // verus!
