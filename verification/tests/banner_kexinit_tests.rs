use ssh_core::banner::{check_banner, make_banner, msg_class, allowed_during_rekey, MsgClass};
use ssh_core::error::SshError;
use ssh_core::kexinit::{negotiate_all, KexInit};

#[test]
fn banner_round_trip() {
    let banner = make_banner(b"testclient_0.1");
    assert_eq!(banner, b"SSH-2.0-testclient_0.1\r\n".to_vec());
    assert!(check_banner(&banner).is_ok());
}

#[test]
fn bad_banners_are_invalid() {
    assert_eq!(check_banner(b"SSH-1.5-old\r\n").unwrap_err(), SshError::BannerInvalid);
    assert_eq!(check_banner(b"Welcome to the server\r\n").unwrap_err(), SshError::BannerInvalid);
    assert_eq!(check_banner(b"SSH-2").unwrap_err(), SshError::BannerInvalid);
}

#[test]
fn message_numbers_route_to_their_handlers() {
    assert_eq!(msg_class(1), MsgClass::Disconnect);
    assert_eq!(msg_class(2), MsgClass::Ignore);
    assert_eq!(msg_class(3), MsgClass::Unimplemented);
    assert_eq!(msg_class(4), MsgClass::Debug);
    assert_eq!(msg_class(5), MsgClass::Service);
    assert_eq!(msg_class(6), MsgClass::Service);
    assert_eq!(msg_class(20), MsgClass::Kex);
    assert_eq!(msg_class(21), MsgClass::Kex);
    assert_eq!(msg_class(30), MsgClass::KexMethod);
    assert_eq!(msg_class(49), MsgClass::KexMethod);
    assert_eq!(msg_class(50), MsgClass::Userauth);
    assert_eq!(msg_class(94), MsgClass::Connection);
    assert_eq!(msg_class(0), MsgClass::Unknown);
    assert_eq!(msg_class(10), MsgClass::Unknown);
}

#[test]
fn rekey_quiesces_channel_traffic() {
    assert!(allowed_during_rekey(20));
    assert!(allowed_during_rekey(21));
    assert!(allowed_during_rekey(31));
    assert!(allowed_during_rekey(1));
    assert!(!allowed_during_rekey(94));
    assert!(!allowed_during_rekey(50));
}

fn lists(names: &[&[u8]]) -> Vec<Vec<u8>> {
    names.iter().map(|n| n.to_vec()).collect()
}

fn kexinit(kex: Vec<Vec<u8>>, host: Vec<Vec<u8>>) -> KexInit {
    KexInit {
        cookie: vec![0; 16],
        kex_algorithms: kex,
        server_host_key_algorithms: host,
        encryption_client_to_server: lists(&[b"aes128-ctr"]),
        encryption_server_to_client: lists(&[b"aes128-ctr"]),
        mac_client_to_server: lists(&[b"hmac-sha2-256"]),
        mac_server_to_client: lists(&[b"hmac-sha2-256"]),
        compression_client_to_server: lists(&[b"none"]),
        compression_server_to_client: lists(&[b"none"]),
        languages_client_to_server: Vec::new(),
        languages_server_to_client: Vec::new(),
        first_kex_packet_follows: false,
    }
}

#[test]
fn kexinit_bytes_are_exact() {
    let k = kexinit(lists(&[b"curve25519-sha256"]), lists(&[b"ssh-ed25519"]));
    let msg = k.build().unwrap().into_vec();
    let mut expected: Vec<u8> = vec![20];
    expected.extend_from_slice(&[0; 16]);
    for list in [
        &b"curve25519-sha256"[..],
        b"ssh-ed25519",
        b"aes128-ctr",
        b"aes128-ctr",
        b"hmac-sha2-256",
        b"hmac-sha2-256",
        b"none",
        b"none",
        b"",
        b"",
    ] {
        expected.extend_from_slice(&(list.len() as u32).to_be_bytes());
        expected.extend_from_slice(list);
    }
    expected.push(0);
    expected.extend_from_slice(&0u32.to_be_bytes());
    assert_eq!(msg, expected);
}

#[test]
fn negotiation_over_all_lists() {
    let client = kexinit(
        lists(&[b"curve25519-sha256", b"diffie-hellman-group14-sha256"]),
        lists(&[b"ssh-ed25519", b"rsa-sha2-256"]),
    );
    let server = kexinit(
        lists(&[b"diffie-hellman-group14-sha256", b"curve25519-sha256"]),
        lists(&[b"rsa-sha2-256"]),
    );
    let n = negotiate_all(&client, &server).unwrap();
    assert_eq!(n.kex, b"curve25519-sha256".to_vec());
    assert_eq!(n.host_key, b"rsa-sha2-256".to_vec());
    assert_eq!(n.encryption_client_to_server, b"aes128-ctr".to_vec());
    assert_eq!(n.compression_client_to_server, b"none".to_vec());
}

#[test]
fn negotiation_aborts_without_shared_kex() {
    let client = kexinit(lists(&[b"curve25519-sha256"]), lists(&[b"ssh-ed25519"]));
    let server = kexinit(lists(&[b"diffie-hellman-group14-sha256"]), lists(&[b"ssh-ed25519"]));
    assert_eq!(negotiate_all(&client, &server).unwrap_err(), SshError::KexFailure);
}
