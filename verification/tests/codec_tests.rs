use ssh_core::codec::{Data, Reader};
use ssh_core::error::SshError;

#[test]
fn u32_round_trip() {
    let mut d = Data::new();
    d.put_u32(0xdeadbeef);
    d.put_u32(0);
    d.put_u32(u32::MAX);
    assert_eq!(d.as_bytes().as_slice(), &[0xde, 0xad, 0xbe, 0xef, 0, 0, 0, 0, 0xff, 0xff, 0xff, 0xff]);
    let mut r = Reader::new(d.into_vec());
    assert_eq!(r.get_u32().unwrap(), 0xdeadbeef);
    assert_eq!(r.get_u32().unwrap(), 0);
    assert_eq!(r.get_u32().unwrap(), u32::MAX);
    assert!(r.is_empty());
}

#[test]
fn u8_and_bool_round_trip() {
    let mut d = Data::new();
    d.put_u8(7);
    d.put_bool(true);
    d.put_bool(false);
    let mut r = Reader::new(d.into_vec());
    assert_eq!(r.get_u8().unwrap(), 7);
    assert_eq!(r.get_bool().unwrap(), true);
    assert_eq!(r.get_bool().unwrap(), false);
}

#[test]
fn bytes_round_trip() {
    let mut d = Data::new();
    d.put_bytes(b"hello world").unwrap();
    d.put_bytes(b"").unwrap();
    let mut r = Reader::new(d.into_vec());
    assert_eq!(r.get_bytes().unwrap(), b"hello world".to_vec());
    assert_eq!(r.get_bytes().unwrap(), Vec::<u8>::new());
}

#[test]
fn str_put_is_length_prefixed_utf8() {
    let mut d = Data::new();
    d.put_str("abc").unwrap();
    assert_eq!(d.as_bytes().as_slice(), &[0, 0, 0, 3, 97, 98, 99]);
}

#[test]
fn bytes_prefix_too_long_is_malformed() {
    let mut r = Reader::new(vec![0, 0, 0, 9, 1, 2]);
    assert_eq!(r.get_bytes().unwrap_err(), SshError::MalformedField);
    // the reader did not consume anything
    assert_eq!(r.remaining(), 6);
}

#[test]
fn short_reads_are_malformed() {
    let mut r = Reader::new(vec![1, 2]);
    assert_eq!(r.get_u32().unwrap_err(), SshError::MalformedField);
    let mut r2 = Reader::new(vec![]);
    assert_eq!(r2.get_u8().unwrap_err(), SshError::MalformedField);
}

#[test]
fn mpint_zero_is_empty() {
    let mut d = Data::new();
    d.put_mpint(&[0, 0, 0]).unwrap();
    assert_eq!(d.as_bytes().as_slice(), &[0, 0, 0, 0]);
    let mut e = Data::new();
    e.put_mpint(&[]).unwrap();
    assert_eq!(e.as_bytes().as_slice(), &[0, 0, 0, 0]);
}

#[test]
fn mpint_top_bit_gets_leading_zero() {
    let mut d = Data::new();
    d.put_mpint(&[0x80]).unwrap();
    assert_eq!(d.as_bytes().as_slice(), &[0, 0, 0, 2, 0x00, 0x80]);
    let mut e = Data::new();
    e.put_mpint(&[0x00, 0xff, 0x10]).unwrap();
    assert_eq!(e.as_bytes().as_slice(), &[0, 0, 0, 3, 0x00, 0xff, 0x10]);
}

#[test]
fn mpint_plain_positive() {
    let mut d = Data::new();
    d.put_mpint(&[0x7f, 0x01]).unwrap();
    assert_eq!(d.as_bytes().as_slice(), &[0, 0, 0, 2, 0x7f, 0x01]);
}

#[test]
fn mpint_round_trip() {
    for mag in [&b"\x00\x00\x9a\x37\x8f\x9b\x2e\x33\x2a\x7f"[..], &b"\x80"[..], &b""[..], &b"\x12\x34"[..]] {
        let mut d = Data::new();
        d.put_mpint(mag).unwrap();
        let mut r = Reader::new(d.into_vec());
        let back = r.get_mpint().unwrap();
        let trimmed: Vec<u8> = mag.iter().copied().skip_while(|b| *b == 0).collect();
        assert_eq!(back, trimmed);
    }
}

#[test]
fn mpint_negative_is_malformed() {
    let mut r = Reader::new(vec![0, 0, 0, 1, 0x80]);
    assert_eq!(r.get_mpint().unwrap_err(), SshError::MalformedField);
}

#[test]
fn name_list_round_trip() {
    let names: Vec<Vec<u8>> = vec![b"curve25519-sha256".to_vec(), b"ssh-ed25519".to_vec()];
    let mut d = Data::new();
    d.put_name_list(&names).unwrap();
    assert_eq!(
        d.as_bytes().as_slice(),
        [&[0, 0, 0, 29][..], b"curve25519-sha256,ssh-ed25519"].concat().as_slice()
    );
    let mut r = Reader::new(d.into_vec());
    assert_eq!(r.get_name_list().unwrap(), names);
}

#[test]
fn name_list_single_and_empty() {
    let names: Vec<Vec<u8>> = vec![b"none".to_vec()];
    let mut d = Data::new();
    d.put_name_list(&names).unwrap();
    assert_eq!(d.as_bytes().as_slice(), [&[0, 0, 0, 4][..], b"none"].concat().as_slice());
    let empty: Vec<Vec<u8>> = Vec::new();
    let mut e = Data::new();
    e.put_name_list(&empty).unwrap();
    assert_eq!(e.as_bytes().as_slice(), &[0, 0, 0, 0]);
}
