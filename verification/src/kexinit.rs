//! The KEXINIT message and the negotiation record: ten ordered
//! name-lists and the first-packet flag; for each list the chosen
//! algorithm is the first client name the server also offers.

use vstd::prelude::*;

use crate::codec::{name_list_bytes, u32_be, Data};
use crate::error::SshError;
use crate::negotiate::{first_common, negotiate};

verus! {

pub const SSH_MSG_KEXINIT: u8 = 20;

pub const SSH_MSG_NEWKEYS: u8 = 21;

/// One side's KEXINIT: the cookie and the ten preference lists.
pub struct KexInit {
    /// Sixteen random bytes.
    pub cookie: Vec<u8>,
    pub kex_algorithms: Vec<Vec<u8>>,
    pub server_host_key_algorithms: Vec<Vec<u8>>,
    pub encryption_client_to_server: Vec<Vec<u8>>,
    pub encryption_server_to_client: Vec<Vec<u8>>,
    pub mac_client_to_server: Vec<Vec<u8>>,
    pub mac_server_to_client: Vec<Vec<u8>>,
    pub compression_client_to_server: Vec<Vec<u8>>,
    pub compression_server_to_client: Vec<Vec<u8>>,
    pub languages_client_to_server: Vec<Vec<u8>>,
    pub languages_server_to_client: Vec<Vec<u8>>,
    pub first_kex_packet_follows: bool,
}

/// A name-list field on the wire.
pub open spec fn nl_field(ns: Seq<Seq<u8>>) -> Seq<u8> {
    u32_be(name_list_bytes(ns).len() as u32) + name_list_bytes(ns)
}

/// The KEXINIT bytes: message number, cookie, the ten lists, the
/// first-packet flag, and the reserved word.
pub open spec fn kexinit_bytes(k: &KexInit) -> Seq<u8> {
    seq![SSH_MSG_KEXINIT] + k.cookie@ + nl_field(k.kex_algorithms.deep_view()) + nl_field(
        k.server_host_key_algorithms.deep_view(),
    ) + nl_field(k.encryption_client_to_server.deep_view()) + nl_field(
        k.encryption_server_to_client.deep_view(),
    ) + nl_field(k.mac_client_to_server.deep_view()) + nl_field(
        k.mac_server_to_client.deep_view(),
    ) + nl_field(k.compression_client_to_server.deep_view()) + nl_field(
        k.compression_server_to_client.deep_view(),
    ) + nl_field(k.languages_client_to_server.deep_view()) + nl_field(
        k.languages_server_to_client.deep_view(),
    ) + seq![if k.first_kex_packet_follows {
        1u8
    } else {
        0u8
    }] + u32_be(0)
}

impl KexInit {
    /// Whether every name-list of this KEXINIT fits its length prefix;
    /// real algorithm lists always do.
    pub open spec fn lists_fit(&self) -> bool {
        &&& name_list_bytes(self.kex_algorithms.deep_view()).len() <= u32::MAX
        &&& name_list_bytes(self.server_host_key_algorithms.deep_view()).len() <= u32::MAX
        &&& name_list_bytes(self.encryption_client_to_server.deep_view()).len() <= u32::MAX
        &&& name_list_bytes(self.encryption_server_to_client.deep_view()).len() <= u32::MAX
        &&& name_list_bytes(self.mac_client_to_server.deep_view()).len() <= u32::MAX
        &&& name_list_bytes(self.mac_server_to_client.deep_view()).len() <= u32::MAX
        &&& name_list_bytes(self.compression_client_to_server.deep_view()).len() <= u32::MAX
        &&& name_list_bytes(self.compression_server_to_client.deep_view()).len() <= u32::MAX
        &&& name_list_bytes(self.languages_client_to_server.deep_view()).len() <= u32::MAX
        &&& name_list_bytes(self.languages_server_to_client.deep_view()).len() <= u32::MAX
    }

    /// Builds the message; a list too long for its length prefix is
    /// refused, and that is the only refusal.
    #[verifier::rlimit(80)]
    pub fn build(&self) -> (r: Result<Data, SshError>)
        ensures
            self.lists_fit() ==> r is Ok,
            r is Ok ==> r->Ok_0@ =~= kexinit_bytes(self),
            r is Err ==> r->Err_0 == SshError::MalformedField,
    {
        let mut data = Data::new();
        data.put_u8(SSH_MSG_KEXINIT);
        data.put_raw(self.cookie.as_slice());
        if data.put_name_list(&self.kex_algorithms).is_err() {
            return Err(SshError::MalformedField);
        }
        if data.put_name_list(&self.server_host_key_algorithms).is_err() {
            return Err(SshError::MalformedField);
        }
        if data.put_name_list(&self.encryption_client_to_server).is_err() {
            return Err(SshError::MalformedField);
        }
        if data.put_name_list(&self.encryption_server_to_client).is_err() {
            return Err(SshError::MalformedField);
        }
        if data.put_name_list(&self.mac_client_to_server).is_err() {
            return Err(SshError::MalformedField);
        }
        if data.put_name_list(&self.mac_server_to_client).is_err() {
            return Err(SshError::MalformedField);
        }
        if data.put_name_list(&self.compression_client_to_server).is_err() {
            return Err(SshError::MalformedField);
        }
        if data.put_name_list(&self.compression_server_to_client).is_err() {
            return Err(SshError::MalformedField);
        }
        if data.put_name_list(&self.languages_client_to_server).is_err() {
            return Err(SshError::MalformedField);
        }
        if data.put_name_list(&self.languages_server_to_client).is_err() {
            return Err(SshError::MalformedField);
        }
        data.put_bool(self.first_kex_packet_follows);
        data.put_u32(0);
        Ok(data)
    }
}

/// What negotiation settled on, one algorithm per list that matters;
/// compression and languages follow the same rule.
#[derive(Debug)]
pub struct Negotiated {
    pub kex: Vec<u8>,
    pub host_key: Vec<u8>,
    pub encryption_client_to_server: Vec<u8>,
    pub encryption_server_to_client: Vec<u8>,
    pub mac_client_to_server: Vec<u8>,
    pub mac_server_to_client: Vec<u8>,
    pub compression_client_to_server: Vec<u8>,
    pub compression_server_to_client: Vec<u8>,
}

/// Negotiates every list of the two KEXINITs: each chosen algorithm is
/// the first client name that the server list also holds, and the
/// session aborts with `KexFailure` as soon as any of the eight lists
/// that must agree has no common name.
pub fn negotiate_all(client: &KexInit, server: &KexInit) -> (r: Result<Negotiated, SshError>)
    ensures
        ({
            &&& first_common(
                client.kex_algorithms.deep_view(),
                server.kex_algorithms.deep_view(),
            ) is Some
            &&& first_common(
                client.server_host_key_algorithms.deep_view(),
                server.server_host_key_algorithms.deep_view(),
            ) is Some
            &&& first_common(
                client.encryption_client_to_server.deep_view(),
                server.encryption_client_to_server.deep_view(),
            ) is Some
            &&& first_common(
                client.encryption_server_to_client.deep_view(),
                server.encryption_server_to_client.deep_view(),
            ) is Some
            &&& first_common(
                client.mac_client_to_server.deep_view(),
                server.mac_client_to_server.deep_view(),
            ) is Some
            &&& first_common(
                client.mac_server_to_client.deep_view(),
                server.mac_server_to_client.deep_view(),
            ) is Some
            &&& first_common(
                client.compression_client_to_server.deep_view(),
                server.compression_client_to_server.deep_view(),
            ) is Some
            &&& first_common(
                client.compression_server_to_client.deep_view(),
                server.compression_server_to_client.deep_view(),
            ) is Some
        }) ==> r is Ok,
        r is Ok ==> ({
            let n = r->Ok_0;
            &&& Some(n.kex@) == first_common(
                client.kex_algorithms.deep_view(),
                server.kex_algorithms.deep_view(),
            )
            &&& Some(n.host_key@) == first_common(
                client.server_host_key_algorithms.deep_view(),
                server.server_host_key_algorithms.deep_view(),
            )
            &&& Some(n.encryption_client_to_server@) == first_common(
                client.encryption_client_to_server.deep_view(),
                server.encryption_client_to_server.deep_view(),
            )
            &&& Some(n.encryption_server_to_client@) == first_common(
                client.encryption_server_to_client.deep_view(),
                server.encryption_server_to_client.deep_view(),
            )
            &&& Some(n.mac_client_to_server@) == first_common(
                client.mac_client_to_server.deep_view(),
                server.mac_client_to_server.deep_view(),
            )
            &&& Some(n.mac_server_to_client@) == first_common(
                client.mac_server_to_client.deep_view(),
                server.mac_server_to_client.deep_view(),
            )
            &&& Some(n.compression_client_to_server@) == first_common(
                client.compression_client_to_server.deep_view(),
                server.compression_client_to_server.deep_view(),
            )
            &&& Some(n.compression_server_to_client@) == first_common(
                client.compression_server_to_client.deep_view(),
                server.compression_server_to_client.deep_view(),
            )
        }),
        r is Err ==> r->Err_0 == SshError::KexFailure,
{
    let kex = negotiate(&client.kex_algorithms, &server.kex_algorithms)?;
    let host_key = negotiate(
        &client.server_host_key_algorithms,
        &server.server_host_key_algorithms,
    )?;
    let enc_c2s = negotiate(
        &client.encryption_client_to_server,
        &server.encryption_client_to_server,
    )?;
    let enc_s2c = negotiate(
        &client.encryption_server_to_client,
        &server.encryption_server_to_client,
    )?;
    let mac_c2s = negotiate(&client.mac_client_to_server, &server.mac_client_to_server)?;
    let mac_s2c = negotiate(&client.mac_server_to_client, &server.mac_server_to_client)?;
    let comp_c2s = negotiate(
        &client.compression_client_to_server,
        &server.compression_client_to_server,
    )?;
    let comp_s2c = negotiate(
        &client.compression_server_to_client,
        &server.compression_server_to_client,
    )?;
    Ok(Negotiated {
        kex,
        host_key,
        encryption_client_to_server: enc_c2s,
        encryption_server_to_client: enc_s2c,
        mac_client_to_server: mac_c2s,
        mac_server_to_client: mac_s2c,
        compression_client_to_server: comp_c2s,
        compression_server_to_client: comp_s2c,
    })
}

} // verus!
