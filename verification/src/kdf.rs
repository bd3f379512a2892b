//! Key derivation: a derived key is `HASH(K || H || letter || session_id)`,
//! extended by hash chaining and truncated to the requested length. The
//! hash itself comes from the hash collaborator; this module assembles
//! the chain blocks it produced.

use vstd::prelude::*;

use crate::error::SshError;

verus! {

/// The chain blocks laid end to end.
pub open spec fn concat_blocks(bs: Seq<Seq<u8>>) -> Seq<u8>
    decreases bs.len(),
{
    if bs.len() == 0 {
        Seq::empty()
    } else {
        concat_blocks(bs.drop_last()) + bs.last()
    }
}

proof fn lemma_concat_len_ge_first(bs: Seq<Seq<u8>>)
    requires
        bs.len() > 0,
    ensures
        concat_blocks(bs).len() >= bs[0].len(),
        concat_blocks(bs).take(bs[0].len() as int) =~= bs[0],
    decreases bs.len(),
{
    if bs.len() == 1 {
        assert(concat_blocks(bs.drop_last()).len() == 0);
        assert(concat_blocks(bs) =~= bs[0]);
    } else {
        lemma_concat_len_ge_first(bs.drop_last());
        assert(bs.drop_last()[0] == bs[0]);
    }
}

/// Requesting a length no longer than one hash output yields exactly
/// the first bytes of the first block, `HASH(K || H || letter || id)`.
pub proof fn lemma_kdf_prefix(bs: Seq<Seq<u8>>, l: int)
    requires
        bs.len() > 0,
        0 <= l <= bs[0].len(),
    ensures
        concat_blocks(bs).take(l) =~= bs[0].take(l),
{
    lemma_concat_len_ge_first(bs);
    assert(concat_blocks(bs).take(bs[0].len() as int).take(l) =~= concat_blocks(bs).take(l));
    assert(bs[0].take(l) =~= concat_blocks(bs).take(bs[0].len() as int).take(l));
}

/// Truncates the chain `HASH(..) || HASH(..) || ...` to the requested
/// key length; fails when the chain is too short to cover it.
pub fn derive_key(blocks: &Vec<Vec<u8>>, l: usize) -> (r: Result<Vec<u8>, SshError>)
    ensures
        concat_blocks(blocks.deep_view()).len() >= l ==> r is Ok && r->Ok_0@ =~= concat_blocks(
            blocks.deep_view(),
        ).take(l as int),
        concat_blocks(blocks.deep_view()).len() < l ==> r == Err::<Vec<u8>, SshError>(
            SshError::KexFailure,
        ),
{
    let ghost dv = blocks.deep_view();
    let mut acc: Vec<u8> = Vec::new();
    let mut bi: usize = 0;
    proof {
        assert(dv.take(0).len() == 0);
        assert(acc@ =~= concat_blocks(dv.take(0)));
    }
    while bi < blocks.len()
        invariant
            bi <= dv.len(),
            dv == blocks.deep_view(),
            dv.len() == blocks@.len(),
            acc@ =~= concat_blocks(dv.take(bi as int)),
        decreases dv.len() - bi,
    {
        let blk = &blocks[bi];
        let mut q: usize = 0;
        while q < blk.len()
            invariant
                q <= blk@.len(),
                bi < dv.len(),
                blk@ == dv[bi as int],
                acc@ =~= concat_blocks(dv.take(bi as int)) + blk@.take(q as int),
            decreases blk@.len() - q,
        {
            acc.push(blk[q]);
            q = q + 1;
        }
        proof {
            assert(blk@.take(blk@.len() as int) =~= blk@);
            assert(dv.take(bi + 1).drop_last() =~~= dv.take(bi as int));
            assert(dv.take(bi + 1).last() == dv[bi as int]);
            assert(concat_blocks(dv.take(bi + 1)) == concat_blocks(dv.take(bi as int)) + dv[
                bi as int
            ]);
        }
        bi = bi + 1;
    }
    proof {
        assert(dv.take(dv.len() as int) =~= dv);
    }
    if acc.len() < l {
        return Err(SshError::KexFailure);
    }
    let mut out: Vec<u8> = Vec::new();
    let mut q: usize = 0;
    while q < l
        invariant
            q <= l,
            l <= acc@.len(),
            out@ =~= acc@.take(q as int),
        decreases l - q,
    {
        out.push(acc[q]);
        q = q + 1;
    }
    proof {
        assert(out@ =~= concat_blocks(dv).take(l as int));
    }
    Ok(out)
}

} // verus!
