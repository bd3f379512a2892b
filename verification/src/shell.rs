//! The interactive shell channel: a pseudo-terminal request followed by
//! a shell request, then reads and writes over the channel.

use vstd::prelude::*;

use crate::channel::{
    data_msg_bytes, spec_chunk_payloads, Channel, ChannelState, SSH_MSG_CHANNEL_REQUEST,
    SSH_MSG_CHANNEL_SUCCESS,
};
use crate::codec::{u32_be, Data};
use crate::error::SshError;

verus! {

/// Terminal modes sent with the pty request: input and output speed
/// both 115200, then the end-of-modes opcode.
pub open spec fn tty_modes() -> Seq<u8> {
    seq![128u8, 0, 1, 0xc2, 0, 129, 0, 1, 0xc2, 0, 0]
}

/// Bytes of the `pty-req` channel request: an xterm terminal of 80 by 24
/// characters and 640 by 480 pixels, without a reply.
pub open spec fn pty_req_bytes(server_no: u32) -> Seq<u8> {
    seq![SSH_MSG_CHANNEL_REQUEST] + u32_be(server_no) + u32_be(7) + seq![
        112u8,
        116,
        121,
        45,
        114,
        101,
        113,
    ] + seq![0u8] + u32_be(5) + seq![120u8, 116, 101, 114, 109] + u32_be(80) + u32_be(24) + u32_be(
        640,
    ) + u32_be(480) + u32_be(11) + tty_modes()
}

/// Bytes of the `shell` channel request, with a reply wanted.
pub open spec fn shell_req_bytes(server_no: u32) -> Seq<u8> {
    seq![SSH_MSG_CHANNEL_REQUEST] + u32_be(server_no) + u32_be(5) + seq![
        115u8,
        104,
        101,
        108,
        108,
    ] + seq![1u8]
}

/// A shell running over one channel.
pub struct ChannelShell(pub Channel);

impl ChannelShell {
    /// Prepares the shell on an open channel: the pty request and the
    /// shell request, in the order they go to the wire. The caller sends
    /// them and feeds replies to `is_ready_reply`.
    pub fn open(channel: Channel) -> (r: (ChannelShell, Vec<Data>))
        ensures
            r.0.0 == channel,
            r.1@.len() == 2,
            r.1@[0]@ =~= pty_req_bytes(channel.server_channel_no),
            r.1@[1]@ =~= shell_req_bytes(channel.server_channel_no),
    {
        let shell = ChannelShell(channel);
        let first = shell.request_pty();
        let second = shell.get_shell();
        let mut msgs: Vec<Data> = Vec::new();
        msgs.push(first);
        msgs.push(second);
        (shell, msgs)
    }

    /// The `pty-req` message: a shell needs a pseudo-terminal.
    pub fn request_pty(&self) -> (msg: Data)
        ensures
            msg@ =~= pty_req_bytes(self.0.server_channel_no),
    {
        let mut data = Data::new();
        data.put_u8(SSH_MSG_CHANNEL_REQUEST);
        data.put_u32(self.0.server_channel_no);
        data.put_u32(7);
        data.put_u8(112);
        data.put_u8(116);
        data.put_u8(121);
        data.put_u8(45);
        data.put_u8(114);
        data.put_u8(101);
        data.put_u8(113);
        data.put_u8(0);
        data.put_u32(5);
        data.put_u8(120);
        data.put_u8(116);
        data.put_u8(101);
        data.put_u8(114);
        data.put_u8(109);
        data.put_u32(80);
        data.put_u32(24);
        data.put_u32(640);
        data.put_u32(480);
        data.put_u32(11);
        data.put_u8(128);
        data.put_u8(0);
        data.put_u8(1);
        data.put_u8(0xc2);
        data.put_u8(0);
        data.put_u8(129);
        data.put_u8(0);
        data.put_u8(1);
        data.put_u8(0xc2);
        data.put_u8(0);
        data.put_u8(0);
        data
    }

    /// The `shell` request message.
    pub fn get_shell(&self) -> (msg: Data)
        ensures
            msg@ =~= shell_req_bytes(self.0.server_channel_no),
    {
        let mut data = Data::new();
        data.put_u8(SSH_MSG_CHANNEL_REQUEST);
        data.put_u32(self.0.server_channel_no);
        data.put_u32(5);
        data.put_u8(115);
        data.put_u8(104);
        data.put_u8(101);
        data.put_u8(108);
        data.put_u8(108);
        data.put_u8(1);
        data
    }

    /// Whether a reply code ends the wait for the shell to come up.
    pub fn is_ready_reply(&self, code: u8) -> (r: bool)
        ensures
            r == (code == SSH_MSG_CHANNEL_SUCCESS),
    {
        code == SSH_MSG_CHANNEL_SUCCESS
    }

    /// Hands out everything the shell has produced so far and empties
    /// the buffer.
    pub fn read(&mut self) -> (r: Result<Vec<u8>, SshError>)
        ensures
            r is Ok,
            r->Ok_0@ =~= old(self).0.recv_buf@,
            final(self).0.recv_buf@.len() == 0,
            final(self).0.state == old(self).0.state,
            final(self).0.peer_window == old(self).0.peer_window,
            final(self).0.local_window == old(self).0.local_window,
    {
        let mut out: Vec<u8> = Vec::new();
        let mut q: usize = 0;
        let n = self.0.recv_buf.len();
        while q < n
            invariant
                q <= n,
                n == self.0.recv_buf@.len(),
                self.0 == old(self).0,
                out@ =~= self.0.recv_buf@.take(q as int),
            decreases n - q,
        {
            out.push(self.0.recv_buf[q]);
            q = q + 1;
        }
        assert(out@ =~= old(self).0.recv_buf@);
        self.0.recv_buf = Vec::new();
        Ok(out)
    }

    /// Sends bytes to the shell: fragmented into consecutive
    /// `CHANNEL_DATA` messages whose payloads are exactly the bytes
    /// sent in order, never beyond the peer window, which drops by
    /// exactly what was sent; what the window cannot cover waits for a
    /// `WINDOW_ADJUST`. Writing on a channel that is not open fails and
    /// changes nothing.
    pub fn write(&mut self, buf: &[u8]) -> (r: Result<(Vec<Data>, usize), SshError>)
        requires
            buf@.len() <= u32::MAX,
        ensures
            old(self).0.state != ChannelState::Open ==> r == Err::<(Vec<Data>, usize), SshError>(
                SshError::RequestFailed,
            ) && *final(self) == *old(self),
            old(self).0.state == ChannelState::Open ==> ({
                let sent = r->Ok_0.1;
                &&& r is Ok
                &&& final(self).0.peer_window == old(self).0.peer_window - sent
                &&& sent <= buf@.len()
                &&& sent <= old(self).0.peer_window
                &&& (old(self).0.peer_max_packet > 0 ==> sent == if buf@.len() <= old(
                    self,
                ).0.peer_window {
                    buf@.len() as int
                } else {
                    old(self).0.peer_window as int
                })
                &&& final(self).0.state == old(self).0.state
                &&& final(self).0.local_window == old(self).0.local_window
                &&& final(self).0.recv_buf@ == old(self).0.recv_buf@
                &&& ({
                    let chunks = spec_chunk_payloads(
                        buf@,
                        old(self).0.peer_window as int,
                        old(self).0.peer_max_packet as int,
                    );
                    r->Ok_0.0@.len() == chunks.len() && forall|k: int|
                        0 <= k < chunks.len() ==> (#[trigger] r->Ok_0.0@[k])@ =~= data_msg_bytes(
                            old(self).0.server_channel_no,
                            chunks[k],
                        )
                })
            }),
    {
        if !matches!(self.0.state, ChannelState::Open) {
            return Err(SshError::RequestFailed);
        }
        let (msgs, sent) = self.0.send_data(buf);
        Ok((msgs, sent))
    }
}

} // verus!
