use ssh_core::channel::Channel;
use ssh_core::error::SshError;
use ssh_core::scp::{
    file_time, parse_mode_oct, parse_u64_dec, scp_source_command, ChannelScp, FileReceiver,
    ScpAction,
};

fn sink() -> ChannelScp {
    ChannelScp::new(Channel::new(1, 1024))
}

#[test]
fn single_file_download() {
    // the server announces "C0644 5 a.txt", then sends "hello" and a zero
    let mut scp = sink();
    let action = scp.process_d(b"C0644 5 a.txt\n").unwrap();
    assert_eq!(action, ScpAction::StartFile);
    assert_eq!(scp.scp_file.name, b"a.txt".to_vec());
    assert_eq!(scp.scp_file.size, 5);
    assert_eq!(scp.scp_file.mode, 0o644);
    assert!(!scp.scp_file.is_dir);

    let mut recv = FileReceiver::new(scp.scp_file.size);
    let (bytes, done) = recv.push(b"hello\0").unwrap();
    assert_eq!(bytes, b"hello".to_vec());
    assert!(done);

    // an empty read ends the transfer
    assert_eq!(scp.process_d(b"").unwrap(), ScpAction::Finished);
}

#[test]
fn fragmented_file_contents() {
    let mut recv = FileReceiver::new(10);
    let (w1, d1) = recv.push(b"hell").unwrap();
    assert_eq!(w1, b"hell".to_vec());
    assert!(!d1);
    let (w2, d2) = recv.push(b"o wor").unwrap();
    assert_eq!(w2, b"o wor".to_vec());
    assert!(!d2);
    let (w3, d3) = recv.push(b"l\0").unwrap();
    assert_eq!(w3, b"l".to_vec());
    assert!(d3);
}

#[test]
fn bad_terminator_is_protocol_error() {
    let mut recv = FileReceiver::new(2);
    assert_eq!(recv.push(b"ab\x07").unwrap_err(), SshError::ScpProtocol);
    let mut over = FileReceiver::new(2);
    assert_eq!(over.push(b"abcde").unwrap_err(), SshError::ScpProtocol);
}

#[test]
fn timestamps_are_captured() {
    let mut scp = sink();
    let action = scp.process_d(b"T1700000000 0 1700000001 0\n").unwrap();
    assert_eq!(action, ScpAction::Ack);
    assert!(scp.scp_file.have_times);
    assert_eq!(scp.scp_file.modify_time, 1700000000);
    assert_eq!(scp.scp_file.access_time, 1700000001);
}

#[test]
fn directories_descend_and_ascend() {
    let mut scp = sink();
    assert_eq!(scp.process_d(b"D0755 0 sub\n").unwrap(), ScpAction::MakeDir);
    assert!(scp.scp_file.is_dir);
    assert_eq!(scp.scp_file.local_path, vec![b"sub".to_vec()]);
    assert_eq!(scp.process_d(b"D0700 0 deeper\n").unwrap(), ScpAction::MakeDir);
    assert_eq!(scp.scp_file.local_path, vec![b"sub".to_vec(), b"deeper".to_vec()]);
    // E climbs one level each time, and never above the root
    assert_eq!(scp.process_d(b"E\n").unwrap(), ScpAction::Ascend);
    assert_eq!(scp.scp_file.local_path, vec![b"sub".to_vec()]);
    assert_eq!(scp.process_d(b"E\n").unwrap(), ScpAction::Ascend);
    assert!(scp.scp_file.local_path.is_empty());
    assert_eq!(scp.process_d(b"E\n").unwrap(), ScpAction::Ascend);
    assert!(scp.scp_file.local_path.is_empty());
}

#[test]
fn error_lines_fail_the_transfer() {
    let mut scp = sink();
    assert_eq!(scp.process_d(b"\x01scp: no such file").unwrap_err(), SshError::ScpProtocol);
    assert_eq!(scp.process_d(b"\x02fatal").unwrap_err(), SshError::ScpProtocol);
    assert_eq!(scp.process_d(b"Zwhat").unwrap_err(), SshError::ScpProtocol);
}

#[test]
fn non_utf8_lines_are_rejected() {
    // a control line that is not valid UTF-8 yields an error before any
    // file work is decided
    let mut scp = sink();
    assert_eq!(scp.process_d(b"C0644 5 \xff\n").unwrap_err(), SshError::ScpProtocol);
    assert_eq!(scp.process_file_d(b"C0644 5 a\xc3.txt\n").unwrap_err(), SshError::ScpProtocol);
    assert_eq!(scp.process_d(b"D0755 0 \xf8dir\n").unwrap_err(), SshError::ScpProtocol);
    // a well-formed multi-byte name is text and still parses
    assert_eq!(scp.process_file_d(b"C0644 5 caf\xc3\xa9.txt\n").unwrap(), ScpAction::StartFile);
    assert_eq!(scp.scp_file.name, b"caf\xc3\xa9.txt".to_vec());
}

#[test]
fn malformed_headers_fail() {
    let mut scp = sink();
    assert_eq!(scp.process_d(b"C0644\n").unwrap_err(), SshError::ScpProtocol);
    assert_eq!(scp.process_d(b"C0644 x a.txt\n").unwrap_err(), SshError::ScpProtocol);
    assert_eq!(scp.process_d(b"C0999 5 a.txt\n").unwrap_err(), SshError::ScpProtocol);
    assert_eq!(scp.process_d(b"T123\n").unwrap_err(), SshError::ScpProtocol);
}

#[test]
fn file_time_parses_the_t_line() {
    let (mt, at) = file_time(b"T1616100000 0 1616100001 0\n").unwrap();
    assert_eq!(mt, 1616100000);
    assert_eq!(at, 1616100001);
    // without the trailing newline as well
    let (mt2, at2) = file_time(b"T5 0 6 0").unwrap();
    assert_eq!(mt2, 5);
    assert_eq!(at2, 6);
    assert!(file_time(b"Tnope 0 1 0\n").is_err());
    assert!(file_time(b"T1 0 2\n").is_err());
}

#[test]
fn decimal_and_octal_parsers() {
    assert_eq!(parse_u64_dec(b"0").unwrap(), 0);
    assert_eq!(parse_u64_dec(b"18446744073709551615").unwrap(), u64::MAX);
    assert_eq!(parse_u64_dec(b"18446744073709551616").unwrap_err(), SshError::ScpProtocol);
    assert_eq!(parse_u64_dec(b"").unwrap_err(), SshError::ScpProtocol);
    assert_eq!(parse_u64_dec(b"1x").unwrap_err(), SshError::ScpProtocol);
    assert_eq!(parse_mode_oct(b"0644").unwrap(), 0o644);
    assert_eq!(parse_mode_oct(b"7777").unwrap(), 0o7777);
    assert_eq!(parse_mode_oct(b"08").unwrap_err(), SshError::ScpProtocol);
}

#[test]
fn source_command_flags() {
    assert_eq!(scp_source_command(b"/tmp/x", false, false), b"scp -f /tmp/x".to_vec());
    assert_eq!(scp_source_command(b"/tmp/x", true, false), b"scp -r -f /tmp/x".to_vec());
    assert_eq!(scp_source_command(b"/tmp/x", false, true), b"scp -p -f /tmp/x".to_vec());
    assert_eq!(scp_source_command(b"dir", true, true), b"scp -r -p -f dir".to_vec());
}
