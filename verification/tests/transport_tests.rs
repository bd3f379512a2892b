use ssh_core::error::SshError;
use ssh_core::transport::{deframe, frame, open_frame, SendGate, Transport, REKEY_BYTES};

#[test]
fn receive_path_checks_the_mac_first() {
    let framed = frame(b"payload", 16).unwrap();
    assert_eq!(open_frame(&framed, &[1, 2], &[1, 2]).unwrap(), b"payload".to_vec());
    assert_eq!(open_frame(&framed, &[1, 2], &[1, 3]).unwrap_err(), SshError::MacError);
    assert_eq!(open_frame(&[0, 0, 0, 1], &[1], &[1]).unwrap_err(), SshError::MalformedField);
}

#[test]
fn padding_for_hello_block_16() {
    let framed = frame(b"hello", 16).unwrap();
    // 4 length bytes + 1 padding-length byte + 5 payload + 6 padding = 16
    assert_eq!(framed.len(), 16);
    assert_eq!(framed.len() % 16, 0);
    let pad = framed[4] as usize;
    assert_eq!(pad, 6);
    assert!(pad >= 4 && pad <= 255);
    // packet_length = payload + padding + 1
    let packet_len = u32::from_be_bytes([framed[0], framed[1], framed[2], framed[3]]);
    assert_eq!(packet_len, 12);
    assert_eq!(&framed[5..10], b"hello");
}

#[test]
fn frame_parses_back() {
    for (payload, block) in [(&b"hello"[..], 16usize), (&b""[..], 8), (&b"abcdefgh"[..], 8), (&[0u8; 300][..], 16)] {
        let framed = frame(payload, block).unwrap();
        let align = block.max(8);
        assert_eq!(framed.len() % align, 0);
        assert!(framed[4] >= 4);
        assert_eq!(deframe(&framed).unwrap(), payload.to_vec());
    }
}

#[test]
fn deframe_rejects_garbage() {
    assert!(deframe(&[1, 2, 3]).is_err());
    // a declared length that does not match the buffer
    assert!(deframe(&[0, 0, 0, 50, 4, 0, 0, 0, 0, 0]).is_err());
}

#[test]
fn sequence_numbers_increase_and_wrap() {
    let mut t = Transport::new();
    t.record_send(100);
    t.record_send(100);
    assert_eq!(t.send_sequence(), 2);
    assert_eq!(t.recv_sequence(), 0);
    t.record_recv(50);
    assert_eq!(t.recv_sequence(), 1);

    let mut w = Transport::with_sequences(u32::MAX, u32::MAX - 1);
    w.record_send(16);
    assert_eq!(w.send_sequence(), 0);
    w.record_recv(16);
    assert_eq!(w.recv_sequence(), u32::MAX);
    w.record_recv(16);
    assert_eq!(w.recv_sequence(), 0);
}

#[test]
fn rekey_after_one_gib() {
    let mut t = Transport::new();
    assert!(!t.needs_rekey());
    // 1 GiB of traffic in packets of 1 MiB
    for _ in 0..1024 {
        t.record_send(1024 * 1024);
    }
    assert!(t.needs_rekey());
    assert_eq!(t.send_sequence(), 1024);
    // NEWKEYS: the counters restart, the sequence numbers do not
    t.on_new_keys();
    assert!(!t.needs_rekey());
    assert_eq!(t.send_sequence(), 1024);
    assert_eq!(REKEY_BYTES, 1024 * 1024 * 1024);
}

#[test]
fn writes_wait_for_rekey_at_the_threshold() {
    let mut t = Transport::new();
    assert_eq!(t.send_gate(false), SendGate::Proceed);
    // the clock trigger is the caller's
    assert_eq!(t.send_gate(true), SendGate::RekeyFirst);
    t.record_send(u32::MAX);
    assert_eq!(t.send_gate(false), SendGate::RekeyFirst);
    // after NEWKEYS the next write proceeds under the new keys, and the
    // sequence numbers have run on
    let seq = t.send_sequence();
    t.on_new_keys();
    assert_eq!(t.send_gate(false), SendGate::Proceed);
    assert_eq!(t.send_sequence(), seq);
}

#[test]
fn session_id_is_set_once() {
    let mut t = Transport::new();
    assert!(t.session_id_bytes().is_none());
    t.install_exchange_hash(b"first-exchange-hash");
    assert_eq!(t.session_id_bytes().unwrap().as_slice(), b"first-exchange-hash");
    // a rekey produces a new H; the session id stays the first one
    t.install_exchange_hash(b"second-exchange-hash");
    assert_eq!(t.session_id_bytes().unwrap().as_slice(), b"first-exchange-hash");
}
