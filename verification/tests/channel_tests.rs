use ssh_core::channel::{Channel, ChannelState};
use ssh_core::error::SshError;
use ssh_core::shell::ChannelShell;

const TWO_MIB: u32 = 2 * 1024 * 1024;
const ONE_MIB: u32 = 1024 * 1024;

fn open_channel(peer_window: u32, peer_max_packet: u32) -> Channel {
    let mut ch = Channel::new(1, TWO_MIB);
    ch.on_open_confirmation(9, peer_window, peer_max_packet);
    assert_eq!(ch.state, ChannelState::Open);
    ch
}

#[test]
fn window_replenishes_after_one_mib() {
    let mut ch = open_channel(1000, 1000);
    // nothing owed while above half of the initial window
    assert!(ch.replenish().is_none());
    let payload = vec![7u8; ONE_MIB as usize];
    ch.deliver_data(&payload).unwrap();
    assert_eq!(ch.local_window, TWO_MIB - ONE_MIB);
    // at half the initial window the adjust must go out, for all consumed bytes
    let msg = ch.replenish().expect("a WINDOW_ADJUST is owed");
    let bytes = msg.into_vec();
    assert_eq!(bytes[0], 93);
    assert_eq!(u32::from_be_bytes([bytes[1], bytes[2], bytes[3], bytes[4]]), 9);
    let adjustment = u32::from_be_bytes([bytes[5], bytes[6], bytes[7], bytes[8]]);
    assert!(adjustment >= ONE_MIB);
    assert_eq!(ch.local_window, TWO_MIB);
}

#[test]
fn inbound_data_decrements_window_and_buffers() {
    let mut ch = open_channel(100, 100);
    ch.deliver_data(b"abc").unwrap();
    assert_eq!(ch.local_window, TWO_MIB - 3);
    assert_eq!(ch.recv_buf, b"abc".to_vec());
    ch.deliver_data(b"de").unwrap();
    assert_eq!(ch.recv_buf, b"abcde".to_vec());
}

#[test]
fn window_accounting_on_send() {
    let mut ch = open_channel(10, 4);
    let (msgs, sent) = ch.send_data(b"eightbyt");
    // peer window 10 covers all 8 bytes, in packets of at most 4
    assert_eq!(sent, 8);
    assert_eq!(ch.peer_window, 2);
    assert_eq!(msgs.len(), 2);
    let first = msgs[0].as_bytes();
    assert_eq!(first[0], 94);
    assert_eq!(u32::from_be_bytes([first[1], first[2], first[3], first[4]]), 9);
    assert_eq!(u32::from_be_bytes([first[5], first[6], first[7], first[8]]), 4);
    assert_eq!(&first[9..], b"eigh");
    let second = msgs[1].as_bytes();
    assert_eq!(second[0], 94);
    assert_eq!(u32::from_be_bytes([second[5], second[6], second[7], second[8]]), 4);
    assert_eq!(&second[9..], b"tbyt");
    // the payloads put together are exactly what was sent, in order
    let rebuilt: Vec<u8> = msgs.iter().flat_map(|m| m.as_bytes()[9..].to_vec()).collect();
    assert_eq!(rebuilt, b"eightbyt".to_vec());
}

#[test]
fn send_stops_at_window() {
    let mut ch = open_channel(3, 100);
    let (_msgs, sent) = ch.send_data(b"eightbyt");
    assert_eq!(sent, 3);
    assert_eq!(ch.peer_window, 0);
    // window exhausted: nothing more goes out until a WINDOW_ADJUST
    let (more, sent2) = ch.send_data(b"rest");
    assert_eq!(sent2, 0);
    assert!(more.is_empty());
    ch.on_window_adjust(5);
    assert_eq!(ch.peer_window, 5);
    let (_m, sent3) = ch.send_data(b"rest");
    assert_eq!(sent3, 4);
}

#[test]
fn open_and_exec_messages() {
    let ch = Channel::new(3, TWO_MIB);
    let open = ch.open_message(32768).into_vec();
    let mut open_expected: Vec<u8> = vec![90];
    open_expected.extend_from_slice(&7u32.to_be_bytes());
    open_expected.extend_from_slice(b"session");
    open_expected.extend_from_slice(&3u32.to_be_bytes());
    open_expected.extend_from_slice(&TWO_MIB.to_be_bytes());
    open_expected.extend_from_slice(&32768u32.to_be_bytes());
    assert_eq!(open, open_expected);

    let ch2 = open_channel(100, 100);
    let exec = ch2.exec_request(b"scp -f file").unwrap().into_vec();
    let mut exec_expected: Vec<u8> = vec![98];
    exec_expected.extend_from_slice(&9u32.to_be_bytes());
    exec_expected.extend_from_slice(&4u32.to_be_bytes());
    exec_expected.extend_from_slice(b"exec");
    exec_expected.push(1);
    exec_expected.extend_from_slice(&11u32.to_be_bytes());
    exec_expected.extend_from_slice(b"scp -f file");
    assert_eq!(exec, exec_expected);
}

#[test]
fn closed_stays_closed() {
    let mut ch = open_channel(10, 10);
    let reply = ch.on_close_received();
    assert!(reply.is_some());
    assert_eq!(ch.state, ChannelState::Closed);
    // no event leads out of Closed
    ch.on_open_confirmation(3, 1, 1);
    assert_eq!(ch.state, ChannelState::Closed);
    ch.on_remote_eof();
    assert_eq!(ch.state, ChannelState::Closed);
    ch.on_local_eof();
    assert_eq!(ch.state, ChannelState::Closed);
    ch.on_open_failure();
    assert_eq!(ch.state, ChannelState::Closed);
}

#[test]
fn close_handshake_both_directions() {
    // this side closes first; the channel closes when the peer answers
    let mut ch = open_channel(10, 10);
    let msg = ch.send_close().expect("first CLOSE goes out");
    assert_eq!(msg.as_bytes()[0], 97);
    assert_ne!(ch.state, ChannelState::Closed);
    let reply = ch.on_close_received();
    assert!(reply.is_none());
    assert_eq!(ch.state, ChannelState::Closed);
    assert!(ch.send_close().is_none());
}

#[test]
fn eof_transitions() {
    let mut ch = open_channel(10, 10);
    ch.on_remote_eof();
    assert_eq!(ch.state, ChannelState::EofReceived);
    let mut ch2 = open_channel(10, 10);
    ch2.on_local_eof();
    assert_eq!(ch2.state, ChannelState::EofSent);
}

#[test]
fn pending_requests_resolve_in_order() {
    let mut ch = open_channel(10, 10);
    ch.push_pending_request(true);
    ch.push_pending_request(false);
    assert_eq!(ch.resolve_request().unwrap(), true);
    assert_eq!(ch.resolve_request().unwrap(), false);
    assert_eq!(ch.resolve_request().unwrap_err(), SshError::MalformedField);
}

#[test]
fn open_failure_surfaces_rejection() {
    let mut ch = Channel::new(4, TWO_MIB);
    ch.on_open_failure();
    assert_eq!(ch.state, ChannelState::Closed);
    // the error kind a session reports for this
    assert_eq!(SshError::ChannelOpenRejected, SshError::ChannelOpenRejected);
}

#[test]
fn shell_requests_have_exact_bytes() {
    let ch = open_channel(100, 100);
    let (shell, msgs) = ChannelShell::open(ch);
    assert_eq!(msgs.len(), 2);
    let mut pty_expected: Vec<u8> = vec![98];
    pty_expected.extend_from_slice(&9u32.to_be_bytes());
    pty_expected.extend_from_slice(&7u32.to_be_bytes());
    pty_expected.extend_from_slice(b"pty-req");
    pty_expected.push(0);
    pty_expected.extend_from_slice(&5u32.to_be_bytes());
    pty_expected.extend_from_slice(b"xterm");
    pty_expected.extend_from_slice(&80u32.to_be_bytes());
    pty_expected.extend_from_slice(&24u32.to_be_bytes());
    pty_expected.extend_from_slice(&640u32.to_be_bytes());
    pty_expected.extend_from_slice(&480u32.to_be_bytes());
    pty_expected.extend_from_slice(&11u32.to_be_bytes());
    pty_expected.extend_from_slice(&[128, 0, 1, 0xc2, 0, 129, 0, 1, 0xc2, 0, 0]);
    assert_eq!(msgs[0].as_bytes().as_slice(), pty_expected.as_slice());

    let mut shell_expected: Vec<u8> = vec![98];
    shell_expected.extend_from_slice(&9u32.to_be_bytes());
    shell_expected.extend_from_slice(&5u32.to_be_bytes());
    shell_expected.extend_from_slice(b"shell");
    shell_expected.push(1);
    assert_eq!(msgs[1].as_bytes().as_slice(), shell_expected.as_slice());

    assert!(shell.is_ready_reply(99));
    assert!(!shell.is_ready_reply(100));
}

#[test]
fn shell_read_drains_and_write_fragments() {
    let mut ch = open_channel(100, 4);
    ch.deliver_data(b"output").unwrap();
    let mut shell = ChannelShell(ch);
    assert_eq!(shell.read().unwrap(), b"output".to_vec());
    assert_eq!(shell.read().unwrap(), Vec::<u8>::new());
    let (msgs, sent) = shell.write(b"input bytes").unwrap();
    assert_eq!(sent, 11);
    assert_eq!(msgs.len(), 3);
}

#[test]
fn shell_write_on_closed_channel_fails() {
    let mut ch = open_channel(100, 100);
    ch.on_close_received();
    let mut shell = ChannelShell(ch);
    assert_eq!(shell.write(b"x").unwrap_err(), SshError::RequestFailed);
}
