use ssh_core::auth::{signed_blob, AuthClient, AuthMethod, AuthState};
use ssh_core::error::SshError;

fn field(s: &[u8]) -> Vec<u8> {
    let mut v = (s.len() as u32).to_be_bytes().to_vec();
    v.extend_from_slice(s);
    v
}

#[test]
fn fallback_from_publickey_to_password() {
    // methods [publickey(bad key), password("pw")]; the server rejects
    // the key and accepts the password; observable order: one publickey
    // check, one failure, one password request, one success
    let methods = vec![
        AuthMethod::Publickey(b"ssh-ed25519".to_vec(), b"badkeyblob".to_vec()),
        AuthMethod::Password(b"pw".to_vec()),
    ];
    let mut auth = AuthClient::new(b"user".to_vec(), methods);
    let service = auth.start();
    let mut service_expected: Vec<u8> = vec![5];
    service_expected.extend_from_slice(&field(b"ssh-userauth"));
    assert_eq!(service.as_bytes().as_slice(), service_expected.as_slice());
    auth.on_service_accept();

    let first = auth.next_request().unwrap();
    let mut pk_expected: Vec<u8> = vec![50];
    pk_expected.extend_from_slice(&field(b"user"));
    pk_expected.extend_from_slice(&field(b"ssh-connection"));
    pk_expected.extend_from_slice(&field(b"publickey"));
    pk_expected.push(0);
    pk_expected.extend_from_slice(&field(b"ssh-ed25519"));
    pk_expected.extend_from_slice(&field(b"badkeyblob"));
    assert_eq!(first.as_bytes().as_slice(), pk_expected.as_slice());

    auth.on_failure();
    let second = auth.next_request().unwrap();
    let mut pw_expected: Vec<u8> = vec![50];
    pw_expected.extend_from_slice(&field(b"user"));
    pw_expected.extend_from_slice(&field(b"ssh-connection"));
    pw_expected.extend_from_slice(&field(b"password"));
    pw_expected.push(0);
    pw_expected.extend_from_slice(&field(b"pw"));
    assert_eq!(second.as_bytes().as_slice(), pw_expected.as_slice());

    auth.on_success();
    assert_eq!(auth.state, AuthState::Authenticated);
}

#[test]
fn all_methods_exhausted_is_denied() {
    let methods = vec![AuthMethod::Password(b"one".to_vec())];
    let mut auth = AuthClient::new(b"u".to_vec(), methods);
    auth.start();
    auth.on_service_accept();
    let _ = auth.next_request().unwrap();
    auth.on_failure();
    assert_eq!(auth.next_request().unwrap_err(), SshError::AuthDenied);
    assert_eq!(auth.state, AuthState::Denied);
}

#[test]
fn signed_blob_binds_the_session_id() {
    let blob = signed_blob(b"SESSIONID", b"user", b"ssh-ed25519", b"keyblob").unwrap();
    let mut expected = field(b"SESSIONID");
    expected.push(50);
    expected.extend_from_slice(&field(b"user"));
    expected.extend_from_slice(&field(b"ssh-connection"));
    expected.extend_from_slice(&field(b"publickey"));
    expected.push(1);
    expected.extend_from_slice(&field(b"ssh-ed25519"));
    expected.extend_from_slice(&field(b"keyblob"));
    assert_eq!(blob.as_bytes().as_slice(), expected.as_slice());
}
