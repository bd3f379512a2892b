//! User authentication: the `ssh-userauth` service request, the
//! `password` and `publickey` requests, and the fallback over the
//! configured methods in priority order.

use vstd::prelude::*;

use crate::codec::{u32_be, Data};
use crate::error::SshError;

verus! {

pub const SSH_MSG_SERVICE_REQUEST: u8 = 5;

pub const SSH_MSG_SERVICE_ACCEPT: u8 = 6;

pub const SSH_MSG_USERAUTH_REQUEST: u8 = 50;

pub const SSH_MSG_USERAUTH_FAILURE: u8 = 51;

pub const SSH_MSG_USERAUTH_SUCCESS: u8 = 52;

pub open spec fn ssh_userauth_name() -> Seq<u8> {
    seq![115u8, 115, 104, 45, 117, 115, 101, 114, 97, 117, 116, 104]
}

pub open spec fn ssh_connection_name() -> Seq<u8> {
    seq![115u8, 115, 104, 45, 99, 111, 110, 110, 101, 99, 116, 105, 111, 110]
}

pub open spec fn password_name() -> Seq<u8> {
    seq![112u8, 97, 115, 115, 119, 111, 114, 100]
}

pub open spec fn publickey_name() -> Seq<u8> {
    seq![112u8, 117, 98, 108, 105, 99, 107, 101, 121]
}

/// A length-prefixed string field.
pub open spec fn field(s: Seq<u8>) -> Seq<u8> {
    u32_be(s.len() as u32) + s
}

/// Bytes of the `SERVICE_REQUEST` for `ssh-userauth`.
pub open spec fn service_request_bytes() -> Seq<u8> {
    seq![SSH_MSG_SERVICE_REQUEST] + field(ssh_userauth_name())
}

/// Bytes of a `password` authentication request.
pub open spec fn password_request_bytes(user: Seq<u8>, password: Seq<u8>) -> Seq<u8> {
    seq![SSH_MSG_USERAUTH_REQUEST] + field(user) + field(ssh_connection_name()) + field(
        password_name(),
    ) + seq![0u8] + field(password)
}

/// Bytes of a `publickey` check request, without a signature.
pub open spec fn publickey_check_bytes(user: Seq<u8>, alg: Seq<u8>, blob: Seq<u8>) -> Seq<u8> {
    seq![SSH_MSG_USERAUTH_REQUEST] + field(user) + field(ssh_connection_name()) + field(
        publickey_name(),
    ) + seq![0u8] + field(alg) + field(blob)
}

/// Bytes the private key signs: the session id bound to the full
/// request that will carry the signature.
pub open spec fn signed_blob_bytes(
    session_id: Seq<u8>,
    user: Seq<u8>,
    alg: Seq<u8>,
    blob: Seq<u8>,
) -> Seq<u8> {
    field(session_id) + seq![SSH_MSG_USERAUTH_REQUEST] + field(user) + field(ssh_connection_name())
        + field(publickey_name()) + seq![1u8] + field(alg) + field(blob)
}

/// Bytes of the full `publickey` request carrying the signature.
pub open spec fn publickey_signed_bytes(
    user: Seq<u8>,
    alg: Seq<u8>,
    blob: Seq<u8>,
    sig: Seq<u8>,
) -> Seq<u8> {
    seq![SSH_MSG_USERAUTH_REQUEST] + field(user) + field(ssh_connection_name()) + field(
        publickey_name(),
    ) + seq![1u8] + field(alg) + field(blob) + field(sig)
}

fn push_ssh_connection(data: &mut Data)
    ensures
        final(data)@ =~= old(data)@ + field(ssh_connection_name()),
{
    data.put_u32(14);
    data.put_u8(115);
    data.put_u8(115);
    data.put_u8(104);
    data.put_u8(45);
    data.put_u8(99);
    data.put_u8(111);
    data.put_u8(110);
    data.put_u8(110);
    data.put_u8(101);
    data.put_u8(99);
    data.put_u8(116);
    data.put_u8(105);
    data.put_u8(111);
    data.put_u8(110);
}

/// The `SERVICE_REQUEST` that starts authentication.
pub fn service_request() -> (msg: Data)
    ensures
        msg@ =~= service_request_bytes(),
{
    let mut data = Data::new();
    data.put_u8(SSH_MSG_SERVICE_REQUEST);
    data.put_u32(12);
    data.put_u8(115);
    data.put_u8(115);
    data.put_u8(104);
    data.put_u8(45);
    data.put_u8(117);
    data.put_u8(115);
    data.put_u8(101);
    data.put_u8(114);
    data.put_u8(97);
    data.put_u8(117);
    data.put_u8(116);
    data.put_u8(104);
    data
}

/// One configured way to authenticate, in the order given.
pub enum AuthMethod {
    /// The password to offer.
    Password(Vec<u8>),
    /// Algorithm name and public key blob of a key pair.
    Publickey(Vec<u8>, Vec<u8>),
}

/// Progress of the authentication exchange.
#[derive(Clone, Copy, PartialEq, Eq, Structural, Debug)]
pub enum AuthState {
    NotStarted,
    ServiceRequested,
    MethodsPending,
    Authenticated,
    Denied,
}

/// Tries each configured method in order, stopping at the first the
/// server accepts; when all are exhausted, authentication is denied.
pub struct AuthClient {
    pub user: Vec<u8>,
    pub methods: Vec<AuthMethod>,
    /// The method the next request will offer.
    pub next_idx: usize,
    pub state: AuthState,
}

impl AuthClient {
    pub fn new(user: Vec<u8>, methods: Vec<AuthMethod>) -> (r: AuthClient)
        ensures
            r.user == user,
            r.methods == methods,
            r.next_idx == 0,
            r.state == AuthState::NotStarted,
    {
        AuthClient { user, methods, next_idx: 0, state: AuthState::NotStarted }
    }

    /// Starts the exchange: the service request goes out once.
    pub fn start(&mut self) -> (msg: Data)
        requires
            old(self).state == AuthState::NotStarted,
        ensures
            final(self).state == AuthState::ServiceRequested,
            final(self).next_idx == old(self).next_idx,
            final(self).user == old(self).user,
            final(self).methods == old(self).methods,
            msg@ =~= service_request_bytes(),
    {
        self.state = AuthState::ServiceRequested;
        service_request()
    }

    /// `SERVICE_ACCEPT` arrived: the methods may now be offered.
    pub fn on_service_accept(&mut self)
        requires
            old(self).state == AuthState::ServiceRequested,
        ensures
            final(self).state == AuthState::MethodsPending,
            final(self).next_idx == old(self).next_idx,
            final(self).user == old(self).user,
            final(self).methods == old(self).methods,
    {
        self.state = AuthState::MethodsPending;
    }

    /// Builds the request for the next method in line: the password
    /// request, or the publickey check without a signature. With no
    /// method left, authentication is denied for good.
    pub fn next_request(&mut self) -> (r: Result<Data, SshError>)
        requires
            old(self).state == AuthState::MethodsPending,
        ensures
            final(self).user == old(self).user,
            final(self).methods == old(self).methods,
            final(self).next_idx == old(self).next_idx,
            old(self).next_idx >= old(self).methods@.len() ==> r == Err::<Data, SshError>(
                SshError::AuthDenied,
            ) && final(self).state == AuthState::Denied,
            old(self).next_idx < old(self).methods@.len() ==> final(self).state == old(self).state,
            old(self).next_idx < old(self).methods@.len() && old(self).user@.len() <= u32::MAX
                ==> (match old(self).methods@[old(self).next_idx as int] {
                AuthMethod::Password(pw) => pw@.len() <= u32::MAX ==> r is Ok && r->Ok_0@
                    =~= password_request_bytes(old(self).user@, pw@),
                AuthMethod::Publickey(alg, blob) => alg@.len() <= u32::MAX && blob@.len()
                    <= u32::MAX ==> r is Ok && r->Ok_0@ =~= publickey_check_bytes(
                    old(self).user@,
                    alg@,
                    blob@,
                ),
            }),
            r is Err ==> r->Err_0 == SshError::AuthDenied || r->Err_0 == SshError::MalformedField,
    {
        if self.next_idx >= self.methods.len() {
            self.state = AuthState::Denied;
            return Err(SshError::AuthDenied);
        }
        let mut data = Data::new();
        data.put_u8(SSH_MSG_USERAUTH_REQUEST);
        if data.put_bytes(self.user.as_slice()).is_err() {
            return Err(SshError::MalformedField);
        }
        push_ssh_connection(&mut data);
        let m = &self.methods[self.next_idx];
        match m {
            AuthMethod::Password(pw) => {
                data.put_u32(8);
                data.put_u8(112);
                data.put_u8(97);
                data.put_u8(115);
                data.put_u8(115);
                data.put_u8(119);
                data.put_u8(111);
                data.put_u8(114);
                data.put_u8(100);
                data.put_u8(0);
                if data.put_bytes(pw.as_slice()).is_err() {
                    return Err(SshError::MalformedField);
                }
                Ok(data)
            },
            AuthMethod::Publickey(alg, blob) => {
                data.put_u32(9);
                data.put_u8(112);
                data.put_u8(117);
                data.put_u8(98);
                data.put_u8(108);
                data.put_u8(105);
                data.put_u8(99);
                data.put_u8(107);
                data.put_u8(101);
                data.put_u8(121);
                data.put_u8(0);
                if data.put_bytes(alg.as_slice()).is_err() {
                    return Err(SshError::MalformedField);
                }
                if data.put_bytes(blob.as_slice()).is_err() {
                    return Err(SshError::MalformedField);
                }
                Ok(data)
            },
        }
    }

    /// `USERAUTH_FAILURE` arrived: the method in flight is spent; the
    /// next request offers the following one, and when none is left the
    /// next call to `next_request` denies.
    pub fn on_failure(&mut self)
        requires
            old(self).state == AuthState::MethodsPending,
            old(self).next_idx < usize::MAX,
        ensures
            final(self).next_idx == old(self).next_idx + 1,
            final(self).state == old(self).state,
            final(self).user == old(self).user,
            final(self).methods == old(self).methods,
    {
        self.next_idx = self.next_idx + 1;
    }

    /// `USERAUTH_SUCCESS` arrived: the session is authenticated.
    pub fn on_success(&mut self)
        ensures
            final(self).state == AuthState::Authenticated,
            final(self).next_idx == old(self).next_idx,
            final(self).user == old(self).user,
            final(self).methods == old(self).methods,
    {
        self.state = AuthState::Authenticated;
    }
}

/// The bytes a `publickey` method signs: the session id, then the full
/// request as it will be sent with `has_signature` true.
pub fn signed_blob(session_id: &[u8], user: &[u8], alg: &[u8], blob: &[u8]) -> (r: Result<
    Data,
    SshError,
>)
    ensures
        session_id@.len() <= u32::MAX && user@.len() <= u32::MAX && alg@.len() <= u32::MAX
            && blob@.len() <= u32::MAX ==> r is Ok,
        r is Ok ==> r->Ok_0@ =~= signed_blob_bytes(session_id@, user@, alg@, blob@),
        r is Err ==> r->Err_0 == SshError::MalformedField,
{
    let mut data = Data::new();
    if data.put_bytes(session_id).is_err() {
        return Err(SshError::MalformedField);
    }
    data.put_u8(SSH_MSG_USERAUTH_REQUEST);
    if data.put_bytes(user).is_err() {
        return Err(SshError::MalformedField);
    }
    push_ssh_connection(&mut data);
    data.put_u32(9);
    data.put_u8(112);
    data.put_u8(117);
    data.put_u8(98);
    data.put_u8(108);
    data.put_u8(105);
    data.put_u8(99);
    data.put_u8(107);
    data.put_u8(101);
    data.put_u8(121);
    data.put_u8(1);
    if data.put_bytes(alg).is_err() {
        return Err(SshError::MalformedField);
    }
    if data.put_bytes(blob).is_err() {
        return Err(SshError::MalformedField);
    }
    Ok(data)
}

/// The full `publickey` request once the signature is in hand.
pub fn publickey_signed_request(user: &[u8], alg: &[u8], blob: &[u8], sig: &[u8]) -> (r: Result<
    Data,
    SshError,
>)
    ensures
        user@.len() <= u32::MAX && alg@.len() <= u32::MAX && blob@.len() <= u32::MAX && sig@.len()
            <= u32::MAX ==> r is Ok,
        r is Ok ==> r->Ok_0@ =~= publickey_signed_bytes(user@, alg@, blob@, sig@),
        r is Err ==> r->Err_0 == SshError::MalformedField,
{
    let mut data = Data::new();
    data.put_u8(SSH_MSG_USERAUTH_REQUEST);
    if data.put_bytes(user).is_err() {
        return Err(SshError::MalformedField);
    }
    push_ssh_connection(&mut data);
    data.put_u32(9);
    data.put_u8(112);
    data.put_u8(117);
    data.put_u8(98);
    data.put_u8(108);
    data.put_u8(105);
    data.put_u8(99);
    data.put_u8(107);
    data.put_u8(101);
    data.put_u8(121);
    data.put_u8(1);
    if data.put_bytes(alg).is_err() {
        return Err(SshError::MalformedField);
    }
    if data.put_bytes(blob).is_err() {
        return Err(SshError::MalformedField);
    }
    if data.put_bytes(sig).is_err() {
        return Err(SshError::MalformedField);
    }
    Ok(data)
}

} // verus!
