use ssh_core::cipher::{check_mac, AesCtr192};
use ssh_core::error::SshError;

fn test_pair() -> AesCtr192 {
    let key = [0x11u8; 24];
    let iv = [0x22u8; 16];
    // same key stream on both directions, so decrypt undoes encrypt
    AesCtr192::new(&key, &key, &iv, &iv, Vec::new(), Vec::new(), 0)
}

#[test]
fn encrypt_changes_the_bytes() {
    let mut c = test_pair();
    let plain = b"the quick brown fox jumps over!!".to_vec();
    let mut buf = plain.clone();
    c.encrypt(&mut buf, &[]);
    assert_eq!(buf.len(), plain.len());
    assert_ne!(buf, plain);
}

#[test]
fn encrypt_then_decrypt_round_trips() {
    let mut c = test_pair();
    let plain = b"hello world, 1234567890 hello world".to_vec();
    let mut buf = plain.clone();
    c.encrypt(&mut buf, &[]);
    c.decrypt(&mut buf);
    assert_eq!(buf, plain);
}

#[test]
fn keystream_is_positional() {
    // one cipher enciphers 32 bytes at once; another the same bytes in
    // two halves; a synchronous stream cipher gives the same output
    let mut a = test_pair();
    let mut b = test_pair();
    let plain = [0xabu8; 32];
    let mut whole = plain.to_vec();
    a.encrypt(&mut whole, &[]);
    let mut first = plain[..16].to_vec();
    let mut second = plain[16..].to_vec();
    b.encrypt(&mut first, &[]);
    b.encrypt(&mut second, &[]);
    let mut split = first;
    split.extend_from_slice(&second);
    assert_eq!(whole, split);
}

#[test]
fn encrypt_appends_the_tag() {
    let key = [7u8; 24];
    let iv = [9u8; 16];
    let mut c = AesCtr192::new(&key, &key, &iv, &iv, Vec::new(), Vec::new(), 4);
    let mut buf = b"data".to_vec();
    c.encrypt(&mut buf, &[0xaa, 0xbb, 0xcc, 0xdd]);
    assert_eq!(buf.len(), 8);
    assert_eq!(&buf[4..], &[0xaa, 0xbb, 0xcc, 0xdd]);
}

#[test]
fn packet_len_reads_the_length_field() {
    let c = test_pair();
    let first_block = [0, 0, 0, 28, 6, 1, 2, 3, 4, 5, 6, 7, 8, 9, 10, 11];
    assert_eq!(c.packet_len(&first_block).unwrap(), 32);
    assert_eq!(c.data_len(&first_block).unwrap(), 32);
    assert!(c.packet_len(&[1, 2]).is_err());
}

#[test]
fn sizes_match_the_algorithm() {
    let c = test_pair();
    assert_eq!(c.bsize(), 24);
    assert_eq!(c.iv_size(), 16);
    assert_eq!(c.group_size(), 16);
    assert!(!c.is_cp());
}

#[test]
fn mac_check_decides() {
    assert!(check_mac(&[1, 2, 3], &[1, 2, 3]).is_ok());
    assert_eq!(check_mac(&[1, 2, 3], &[1, 2, 4]).unwrap_err(), SshError::MacError);
    assert_eq!(check_mac(&[1, 2, 3], &[1, 2]).unwrap_err(), SshError::MacError);
}
