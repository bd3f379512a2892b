//! Algorithm negotiation: for each list the chosen algorithm is the
//! first client name that also appears in the server list.

use vstd::prelude::*;

use crate::error::SshError;

verus! {

/// Whether `name` occurs in `list`.
pub open spec fn contains_name(list: Seq<Seq<u8>>, name: Seq<u8>) -> bool {
    exists|i: int| 0 <= i < list.len() && list[i] == name
}

/// The first client name that the server list also holds, in client
/// preference order; `None` when the lists share nothing.
pub open spec fn first_common(client: Seq<Seq<u8>>, server: Seq<Seq<u8>>) -> Option<Seq<u8>>
    decreases client.len(),
{
    if client.len() == 0 {
        None
    } else if contains_name(server, client[0]) {
        Some(client[0])
    } else {
        first_common(client.skip(1), server)
    }
}

/// Whether two byte strings hold the same bytes.
pub fn bytes_eq(a: &[u8], b: &[u8]) -> (r: bool)
    ensures
        r == (a@ == b@),
{
    if a.len() != b.len() {
        proof {
            assert(a@.len() != b@.len());
        }
        return false;
    }
    let mut i: usize = 0;
    while i < a.len()
        invariant
            i <= a@.len(),
            a@.len() == b@.len(),
            forall|j: int| 0 <= j < i ==> a@[j] == b@[j],
        decreases a@.len() - i,
    {
        if a[i] != b[i] {
            return false;
        }
        i = i + 1;
    }
    proof {
        assert(a@ =~= b@);
    }
    true
}

/// Whether `name` occurs among `list`.
pub fn list_contains(list: &Vec<Vec<u8>>, name: &[u8]) -> (r: bool)
    ensures
        r == contains_name(list.deep_view(), name@),
{
    let mut k: usize = 0;
    while k < list.len()
        invariant
            k <= list@.len(),
            forall|j: int| 0 <= j < k ==> list.deep_view()[j] != name@,
        decreases list@.len() - k,
    {
        proof {
            assert(list.deep_view()[k as int] == list@[k as int]@);
        }
        if bytes_eq(list[k].as_slice(), name) {
            return true;
        }
        k = k + 1;
    }
    false
}

/// Picks the algorithm both sides support: the first name of the client
/// list that the server list also holds. With no overlap the key
/// exchange has failed.
pub fn negotiate(client: &Vec<Vec<u8>>, server: &Vec<Vec<u8>>) -> (r: Result<Vec<u8>, SshError>)
    ensures
        match first_common(client.deep_view(), server.deep_view()) {
            Some(v) => r is Ok && r->Ok_0@ == v,
            None => r == Err::<Vec<u8>, SshError>(SshError::KexFailure),
        },
{
    let ghost cd = client.deep_view();
    let ghost sd = server.deep_view();
    let mut i: usize = 0;
    proof {
        assert(cd.skip(0) =~~= cd);
    }
    while i < client.len()
        invariant
            i <= cd.len(),
            cd == client.deep_view(),
            sd == server.deep_view(),
            cd.len() == client@.len(),
            first_common(cd, sd) == first_common(cd.skip(i as int), sd),
        decreases cd.len() - i,
    {
        let name = &client[i];
        proof {
            assert(cd[i as int] == client@[i as int]@);
        }
        if list_contains(server, name.as_slice()) {
            proof {
                assert(cd.skip(i as int)[0] == cd[i as int]);
                assert(cd.skip(i as int).len() > 0);
                assert(contains_name(sd, cd.skip(i as int)[0]));
                assert(first_common(cd.skip(i as int), sd) == Some(cd[i as int]));
            }
            let mut out: Vec<u8> = Vec::new();
            let mut q: usize = 0;
            while q < name.len()
                invariant
                    q <= name@.len(),
                    out@ =~= name@.take(q as int),
                decreases name@.len() - q,
            {
                out.push(name[q]);
                q = q + 1;
            }
            assert(out@ =~= name@);
            return Ok(out);
        }
        proof {
            assert(cd.skip(i as int)[0] == cd[i as int]);
            assert(!contains_name(sd, cd.skip(i as int)[0]));
            assert(cd.skip(i as int).skip(1) =~~= cd.skip(i + 1));
        }
        i = i + 1;
    }
    proof {
        assert(cd.skip(cd.len() as int).len() == 0);
    }
    Err(SshError::KexFailure)
}

} // verus!
