use ssh_core::error::SshError;
use ssh_core::kdf::derive_key;
use ssh_core::negotiate::negotiate;

#[test]
fn first_client_match_wins() {
    let client: Vec<Vec<u8>> = vec![
        b"curve25519-sha256".to_vec(),
        b"diffie-hellman-group14-sha256".to_vec(),
    ];
    let server: Vec<Vec<u8>> = vec![
        b"diffie-hellman-group14-sha256".to_vec(),
        b"curve25519-sha256".to_vec(),
    ];
    assert_eq!(negotiate(&client, &server).unwrap(), b"curve25519-sha256".to_vec());
}

#[test]
fn second_client_entry_when_first_unknown() {
    let client: Vec<Vec<u8>> = vec![b"exotic".to_vec(), b"aes128-ctr".to_vec()];
    let server: Vec<Vec<u8>> = vec![b"aes256-ctr".to_vec(), b"aes128-ctr".to_vec()];
    assert_eq!(negotiate(&client, &server).unwrap(), b"aes128-ctr".to_vec());
}

#[test]
fn no_overlap_is_kex_failure() {
    let client: Vec<Vec<u8>> = vec![b"a".to_vec(), b"b".to_vec()];
    let server: Vec<Vec<u8>> = vec![b"c".to_vec()];
    assert_eq!(negotiate(&client, &server).unwrap_err(), SshError::KexFailure);
}

#[test]
fn short_key_is_prefix_of_first_hash() {
    // requesting L <= hash size yields the first L bytes of HASH(K||H||letter||id)
    let blocks: Vec<Vec<u8>> = vec![b"0123456789".to_vec(), b"abcdefghij".to_vec()];
    assert_eq!(derive_key(&blocks, 4).unwrap(), b"0123".to_vec());
    assert_eq!(derive_key(&blocks, 10).unwrap(), b"0123456789".to_vec());
}

#[test]
fn long_key_chains_blocks() {
    let blocks: Vec<Vec<u8>> = vec![b"0123456789".to_vec(), b"abcdefghij".to_vec()];
    assert_eq!(derive_key(&blocks, 13).unwrap(), b"0123456789abc".to_vec());
    assert_eq!(derive_key(&blocks, 20).unwrap(), b"0123456789abcdefghij".to_vec());
}

#[test]
fn chain_too_short_fails() {
    let blocks: Vec<Vec<u8>> = vec![b"0123".to_vec()];
    assert_eq!(derive_key(&blocks, 5).unwrap_err(), SshError::KexFailure);
}
