//! Channel multiplexer: the per-channel record, its open/close state
//! machine, window accounting in both directions, and the data-message
//! builders the send path uses.

use vstd::prelude::*;

use crate::codec::{u32_be, Data};
use crate::error::SshError;

verus! {

pub const SSH_MSG_CHANNEL_OPEN: u8 = 90;
pub const SSH_MSG_CHANNEL_OPEN_CONFIRMATION: u8 = 91;
pub const SSH_MSG_CHANNEL_OPEN_FAILURE: u8 = 92;
pub const SSH_MSG_CHANNEL_WINDOW_ADJUST: u8 = 93;
pub const SSH_MSG_CHANNEL_DATA: u8 = 94;
pub const SSH_MSG_CHANNEL_EXTENDED_DATA: u8 = 95;
pub const SSH_MSG_CHANNEL_EOF: u8 = 96;
pub const SSH_MSG_CHANNEL_CLOSE: u8 = 97;
pub const SSH_MSG_CHANNEL_REQUEST: u8 = 98;
pub const SSH_MSG_CHANNEL_SUCCESS: u8 = 99;
pub const SSH_MSG_CHANNEL_FAILURE: u8 = 100;

/// Lifecycle of one channel.
#[derive(Clone, Copy, PartialEq, Eq, Structural, Debug)]
pub enum ChannelState {
    Opening,
    Open,
    EofSent,
    EofReceived,
    Closed,
}

/// What can move a channel between states.
#[derive(Clone, Copy, PartialEq, Eq, Structural, Debug)]
pub enum ChanEvent {
    OpenConfirmed,
    OpenFailed,
    LocalEof,
    RemoteEof,
    CloseExchanged,
}

/// The channel state machine. `Closed` is terminal: no event leads out
/// of it.
pub open spec fn step_state(s: ChannelState, e: ChanEvent) -> ChannelState {
    match s {
        ChannelState::Closed => ChannelState::Closed,
        ChannelState::Opening => match e {
            ChanEvent::OpenConfirmed => ChannelState::Open,
            ChanEvent::OpenFailed => ChannelState::Closed,
            ChanEvent::CloseExchanged => ChannelState::Closed,
            _ => ChannelState::Opening,
        },
        ChannelState::Open => match e {
            ChanEvent::LocalEof => ChannelState::EofSent,
            ChanEvent::RemoteEof => ChannelState::EofReceived,
            ChanEvent::CloseExchanged => ChannelState::Closed,
            _ => ChannelState::Open,
        },
        ChannelState::EofSent => match e {
            ChanEvent::CloseExchanged => ChannelState::Closed,
            _ => ChannelState::EofSent,
        },
        ChannelState::EofReceived => match e {
            ChanEvent::CloseExchanged => ChannelState::Closed,
            _ => ChannelState::EofReceived,
        },
    }
}

/// A closed channel stays closed, whatever happens next.
pub proof fn lemma_closed_is_terminal(e: ChanEvent)
    ensures
        step_state(ChannelState::Closed, e) == ChannelState::Closed,
{
}

/// Bytes of the `CHANNEL_OPEN` for a `session` channel.
pub open spec fn open_session_bytes(client_no: u32, initial_window: u32, max_packet: u32) -> Seq<
    u8,
> {
    seq![SSH_MSG_CHANNEL_OPEN] + u32_be(7) + seq![115u8, 101, 115, 115, 105, 111, 110] + u32_be(
        client_no,
    ) + u32_be(initial_window) + u32_be(max_packet)
}

/// Bytes of the `exec` channel request that starts a remote command,
/// with a reply wanted.
pub open spec fn exec_req_bytes(server_no: u32, command: Seq<u8>) -> Seq<u8> {
    seq![SSH_MSG_CHANNEL_REQUEST] + u32_be(server_no) + u32_be(4) + seq![101u8, 120, 101, 99]
        + seq![1u8] + u32_be(command.len() as u32) + command
}

/// Bytes of a `CHANNEL_DATA` message.
pub open spec fn data_msg_bytes(server_no: u32, payload: Seq<u8>) -> Seq<u8> {
    seq![SSH_MSG_CHANNEL_DATA] + u32_be(server_no) + u32_be(payload.len() as u32) + payload
}

/// The smaller of what is wanted, the remaining window, and the packet
/// cap.
pub open spec fn chunk_min(want: int, window: int, maxp: int) -> int {
    if want <= window && want <= maxp {
        want
    } else if window <= maxp {
        window
    } else {
        maxp
    }
}

/// The payload pieces greedy fragmentation cuts `buf` into: consecutive,
/// in order, each at most the packet cap, stopping when the window is
/// spent.
pub open spec fn spec_chunk_payloads(buf: Seq<u8>, window: int, maxp: int) -> Seq<Seq<u8>>
    decreases buf.len(),
{
    if buf.len() == 0 || window <= 0 || maxp <= 0 {
        Seq::empty()
    } else {
        let n = chunk_min(buf.len() as int, window, maxp);
        seq![buf.take(n)] + spec_chunk_payloads(buf.skip(n), window - n, maxp)
    }
}

/// The cut pieces laid end to end are exactly the first
/// `min(buf.len(), window)` bytes of `buf`: nothing is lost, duplicated
/// or reordered by fragmentation.
pub proof fn lemma_chunks_cover(buf: Seq<u8>, window: int, maxp: int)
    requires
        window >= 0,
        maxp > 0,
    ensures
        spec_chunk_payloads(buf, window, maxp).flatten() =~= buf.take(
            if buf.len() <= window {
                buf.len() as int
            } else {
                window
            },
        ),
    decreases buf.len(),
{
    let chunks = spec_chunk_payloads(buf, window, maxp);
    if buf.len() == 0 || window <= 0 {
        assert(chunks.flatten() =~= Seq::<u8>::empty());
    } else {
        let n = chunk_min(buf.len() as int, window, maxp);
        let rest = spec_chunk_payloads(buf.skip(n), window - n, maxp);
        assert(chunks == seq![buf.take(n)] + rest);
        assert(chunks.first() == buf.take(n));
        assert(chunks.drop_first() =~= rest);
        lemma_chunks_cover(buf.skip(n), window - n, maxp);
        let m = if buf.len() - n <= window - n {
            buf.len() - n
        } else {
            window - n
        };
        assert(rest.flatten() =~= buf.skip(n).take(m));
        assert(chunks.flatten() == chunks.first() + chunks.drop_first().flatten());
        assert(buf.take(n) + buf.skip(n).take(m) =~= buf.take(n + m));
    }
}

/// Bytes of a `CHANNEL_WINDOW_ADJUST` message.
pub open spec fn window_adjust_bytes(server_no: u32, adjustment: u32) -> Seq<u8> {
    seq![SSH_MSG_CHANNEL_WINDOW_ADJUST] + u32_be(server_no) + u32_be(adjustment)
}

/// One multiplexed channel: ids, windows, state and inbound buffers.
pub struct Channel {
    /// Client-chosen channel id.
    pub client_channel_no: u32,
    /// Peer id, captured from `OPEN_CONFIRMATION`.
    pub server_channel_no: u32,
    /// What the peer may still send before a `WINDOW_ADJUST`.
    pub local_window: u32,
    /// The local window is replenished back to this value.
    pub local_window_initial: u32,
    /// What this side may still send the peer.
    pub peer_window: u32,
    /// Largest data payload the peer accepts in one message.
    pub peer_max_packet: u32,
    pub state: ChannelState,
    /// Inbound application data not yet read.
    pub recv_buf: Vec<u8>,
    /// Inbound extended (stderr) data not yet read.
    pub ext_buf: Vec<u8>,
    /// Want-reply channel requests awaiting `CHANNEL_SUCCESS`/`FAILURE`,
    /// oldest first.
    pub pending_requests: Vec<bool>,
    pub close_sent: bool,
    pub close_received: bool,
}

impl Channel {
    /// A fresh channel in the `Opening` state, before the server answer.
    pub fn new(client_channel_no: u32, initial_window: u32) -> (r: Channel)
        ensures
            r.client_channel_no == client_channel_no,
            r.local_window == initial_window,
            r.local_window_initial == initial_window,
            r.state == ChannelState::Opening,
            r.recv_buf@.len() == 0,
            r.ext_buf@.len() == 0,
            r.pending_requests@.len() == 0,
            !r.close_sent,
            !r.close_received,
    {
        Channel {
            client_channel_no,
            server_channel_no: 0,
            local_window: initial_window,
            local_window_initial: initial_window,
            peer_window: 0,
            peer_max_packet: 0,
            state: ChannelState::Opening,
            recv_buf: Vec::new(),
            ext_buf: Vec::new(),
            pending_requests: Vec::new(),
            close_sent: false,
            close_received: false,
        }
    }

    /// The `CHANNEL_OPEN` message announcing this channel to the
    /// server, with the window it grants and the packet size it takes.
    pub fn open_message(&self, max_packet: u32) -> (msg: Data)
        ensures
            msg@ =~= open_session_bytes(
                self.client_channel_no,
                self.local_window_initial,
                max_packet,
            ),
    {
        let mut data = Data::new();
        data.put_u8(SSH_MSG_CHANNEL_OPEN);
        data.put_u32(7);
        data.put_u8(115);
        data.put_u8(101);
        data.put_u8(115);
        data.put_u8(115);
        data.put_u8(105);
        data.put_u8(111);
        data.put_u8(110);
        data.put_u32(self.client_channel_no);
        data.put_u32(self.local_window_initial);
        data.put_u32(max_packet);
        data
    }

    /// The `exec` request that runs a command on this channel, as the
    /// file-transfer driver and plain remote commands use it.
    pub fn exec_request(&self, command: &[u8]) -> (r: Result<Data, SshError>)
        ensures
            command@.len() <= u32::MAX ==> r is Ok,
            r is Ok ==> r->Ok_0@ =~= exec_req_bytes(self.server_channel_no, command@),
            r is Err ==> r->Err_0 == SshError::MalformedField,
    {
        let mut data = Data::new();
        data.put_u8(SSH_MSG_CHANNEL_REQUEST);
        data.put_u32(self.server_channel_no);
        data.put_u32(4);
        data.put_u8(101);
        data.put_u8(120);
        data.put_u8(101);
        data.put_u8(99);
        data.put_u8(1);
        if data.put_bytes(command).is_err() {
            return Err(SshError::MalformedField);
        }
        Ok(data)
    }

    pub fn is_close(&self) -> (r: bool)
        ensures
            r == (self.state == ChannelState::Closed),
    {
        matches!(self.state, ChannelState::Closed)
    }

    /// The server confirmed the open: capture its id, window and packet
    /// limit; `Opening` becomes `Open`.
    pub fn on_open_confirmation(&mut self, server_no: u32, peer_window: u32, peer_max_packet: u32)
        ensures
            final(self).state == step_state(old(self).state, ChanEvent::OpenConfirmed),
            old(self).state == ChannelState::Opening ==> final(self).server_channel_no == server_no
                && final(self).peer_window == peer_window && final(self).peer_max_packet
                == peer_max_packet,
            old(self).state != ChannelState::Opening ==> *final(self) == *old(self),
            final(self).local_window == old(self).local_window,
            final(self).recv_buf@ == old(self).recv_buf@,
            final(self).client_channel_no == old(self).client_channel_no,
    {
        if matches!(self.state, ChannelState::Opening) {
            self.server_channel_no = server_no;
            self.peer_window = peer_window;
            self.peer_max_packet = peer_max_packet;
            self.state = ChannelState::Open;
        }
    }

    /// The server rejected the open: the channel is closed for good; the
    /// caller surfaces `ChannelOpenRejected`.
    pub fn on_open_failure(&mut self)
        ensures
            final(self).state == step_state(old(self).state, ChanEvent::OpenFailed),
            final(self).recv_buf@ == old(self).recv_buf@,
            final(self).peer_window == old(self).peer_window,
            final(self).local_window == old(self).local_window,
    {
        if matches!(self.state, ChannelState::Opening) {
            self.state = ChannelState::Closed;
        }
    }

    /// Largest payload the next `CHANNEL_DATA` may carry right now.
    pub fn chunk_limit(&self, want: usize) -> (r: usize)
        ensures
            r <= want,
            r <= self.peer_window,
            r <= self.peer_max_packet,
            r == if want <= self.peer_window && want <= self.peer_max_packet {
                want as int
            } else if self.peer_window <= self.peer_max_packet {
                self.peer_window as int
            } else {
                self.peer_max_packet as int
            },
    {
        let mut limit: usize = want;
        if (self.peer_window as usize) < limit {
            limit = self.peer_window as usize;
        }
        if (self.peer_max_packet as usize) < limit {
            limit = self.peer_max_packet as usize;
        }
        limit
    }

    /// Builds the next `CHANNEL_DATA` message for a prefix of `buf` and
    /// charges it against the peer window: the window drops by exactly
    /// the bytes taken, and never below zero.
    pub fn next_data_chunk(&mut self, buf: &[u8]) -> (r: Option<(Data, usize)>)
        requires
            old(self).state == ChannelState::Open,
            buf@.len() <= u32::MAX,
        ensures
            final(self).state == old(self).state,
            final(self).local_window == old(self).local_window,
            final(self).client_channel_no == old(self).client_channel_no,
            final(self).server_channel_no == old(self).server_channel_no,
            final(self).peer_max_packet == old(self).peer_max_packet,
            final(self).recv_buf@ == old(self).recv_buf@,
            buf@.len() == 0 || old(self).peer_window == 0 || old(self).peer_max_packet == 0 ==> r
                is None && final(self).peer_window == old(self).peer_window,
            buf@.len() > 0 && old(self).peer_window > 0 && old(self).peer_max_packet > 0 ==> ({
                let n = r->Some_0.1;
                &&& r is Some
                &&& n > 0
                &&& n <= buf@.len()
                &&& n <= old(self).peer_window
                &&& n <= old(self).peer_max_packet
                &&& n == old(self).chunk_limit_spec(buf@.len() as int)
                &&& final(self).peer_window == old(self).peer_window - n
                &&& r->Some_0.0@ =~= data_msg_bytes(
                    old(self).server_channel_no,
                    buf@.take(n as int),
                )
            }),
    {
        if buf.len() == 0 || self.peer_window == 0 || self.peer_max_packet == 0 {
            return None;
        }
        let n = self.chunk_limit(buf.len());
        let mut msg = Data::new();
        msg.put_u8(SSH_MSG_CHANNEL_DATA);
        msg.put_u32(self.server_channel_no);
        msg.put_u32(n as u32);
        let mut q: usize = 0;
        while q < n
            invariant
                q <= n,
                n <= buf@.len(),
                msg@ =~= seq![SSH_MSG_CHANNEL_DATA] + u32_be(self.server_channel_no) + u32_be(
                    n as u32,
                ) + buf@.take(q as int),
                self == old(self),
            decreases n - q,
        {
            msg.put_u8(buf[q]);
            q = q + 1;
        }
        self.peer_window = self.peer_window - n as u32;
        proof {
            assert(buf@.take(n as int).len() == n);
        }
        Some((msg, n))
    }

    /// What `chunk_limit` picks, at the spec level.
    pub open spec fn chunk_limit_spec(&self, want: int) -> int {
        chunk_min(want, self.peer_window as int, self.peer_max_packet as int)
    }

    /// Fragments outbound data into `CHANNEL_DATA` messages: as much of
    /// `buf` goes out as the peer window allows, in consecutive pieces
    /// of at most the peer's packet cap whose concatenation is exactly
    /// what was sent, the window drops by exactly those bytes, and what
    /// is left waits for the peer's `WINDOW_ADJUST`.
    pub fn send_data(&mut self, buf: &[u8]) -> (r: (Vec<Data>, usize))
        requires
            old(self).state == ChannelState::Open,
            buf@.len() <= u32::MAX,
        ensures
            final(self).state == old(self).state,
            final(self).local_window == old(self).local_window,
            final(self).recv_buf@ == old(self).recv_buf@,
            final(self).peer_window == old(self).peer_window - r.1,
            r.1 <= buf@.len(),
            r.1 <= old(self).peer_window,
            old(self).peer_max_packet > 0 ==> r.1 == if buf@.len() <= old(self).peer_window {
                buf@.len() as int
            } else {
                old(self).peer_window as int
            },
            ({
                let chunks = spec_chunk_payloads(
                    buf@,
                    old(self).peer_window as int,
                    old(self).peer_max_packet as int,
                );
                &&& r.0@.len() == chunks.len()
                &&& forall|k: int|
                    0 <= k < chunks.len() ==> (#[trigger] r.0@[k])@ =~= data_msg_bytes(
                        old(self).server_channel_no,
                        chunks[k],
                    )
            }),
    {
        let ghost chunks_full = spec_chunk_payloads(
            buf@,
            old(self).peer_window as int,
            old(self).peer_max_packet as int,
        );
        let mut msgs: Vec<Data> = Vec::new();
        let mut sent: usize = 0;
        proof {
            assert(buf@.skip(0) =~= buf@);
            assert(chunks_full.skip(0) =~~= chunks_full);
        }
        loop
            invariant
                self.state == old(self).state,
                self.state == ChannelState::Open,
                self.local_window == old(self).local_window,
                self.recv_buf@ == old(self).recv_buf@,
                self.client_channel_no == old(self).client_channel_no,
                self.server_channel_no == old(self).server_channel_no,
                self.peer_max_packet == old(self).peer_max_packet,
                buf@.len() <= u32::MAX,
                sent <= buf@.len(),
                sent <= old(self).peer_window,
                self.peer_window == old(self).peer_window - sent,
                chunks_full == spec_chunk_payloads(
                    buf@,
                    old(self).peer_window as int,
                    old(self).peer_max_packet as int,
                ),
                msgs@.len() <= chunks_full.len(),
                forall|k: int|
                    0 <= k < msgs@.len() ==> (#[trigger] msgs@[k])@ =~= data_msg_bytes(
                        old(self).server_channel_no,
                        chunks_full[k],
                    ),
                chunks_full.skip(msgs@.len() as int) =~~= spec_chunk_payloads(
                    buf@.skip(sent as int),
                    self.peer_window as int,
                    self.peer_max_packet as int,
                ),
            ensures
                sent == buf@.len() || self.peer_window == 0 || self.peer_max_packet == 0,
            decreases buf@.len() - sent + self.peer_window,
        {
            if sent >= buf.len() {
                break;
            }
            let rest = vstd::slice::slice_subrange(buf, sent, buf.len());
            proof {
                assert(rest@ =~= buf@.skip(sent as int));
            }
            let ghost window_pre = self.peer_window as int;
            let ghost m = msgs@.len() as int;
            match self.next_data_chunk(rest) {
                Some((msg, n)) => {
                    proof {
                        let rest_seq = buf@.skip(sent as int);
                        let tail = spec_chunk_payloads(
                            rest_seq.skip(n as int),
                            window_pre - n,
                            self.peer_max_packet as int,
                        );
                        assert(spec_chunk_payloads(
                            rest_seq,
                            window_pre,
                            self.peer_max_packet as int,
                        ) == seq![rest_seq.take(n as int)] + tail);
                        assert(chunks_full.skip(m)[0] == rest_seq.take(n as int));
                        assert(chunks_full[m] == rest_seq.take(n as int));
                        assert(msg@ =~= data_msg_bytes(
                            old(self).server_channel_no,
                            chunks_full[m],
                        ));
                        assert(chunks_full.skip(m).skip(1) =~~= chunks_full.skip(m + 1));
                        assert((seq![rest_seq.take(n as int)] + tail).skip(1) =~~= tail);
                        assert(rest_seq.skip(n as int) =~= buf@.skip(sent + n));
                    }
                    msgs.push(msg);
                    sent = sent + n;
                },
                None => {
                    break;
                },
            }
        }
        proof {
            assert(spec_chunk_payloads(
                buf@.skip(sent as int),
                self.peer_window as int,
                self.peer_max_packet as int,
            ).len() == 0);
            assert(chunks_full.skip(msgs@.len() as int).len() == 0);
            assert(msgs@.len() == chunks_full.len());
        }
        (msgs, sent)
    }

    /// Accounts inbound application data against the local window and
    /// buffers it for the reader. Data beyond the granted window is a
    /// protocol violation.
    pub fn deliver_data(&mut self, data: &[u8]) -> (r: Result<(), SshError>)
        ensures
            data@.len() <= old(self).local_window ==> r is Ok && final(self).local_window == old(
                self,
            ).local_window - data@.len() && final(self).recv_buf@ =~= old(self).recv_buf@ + data@,
            data@.len() > old(self).local_window ==> r == Err::<(), SshError>(
                SshError::MalformedField,
            ) && *final(self) == *old(self),
            final(self).state == old(self).state,
            final(self).peer_window == old(self).peer_window,
            final(self).local_window_initial == old(self).local_window_initial,
            final(self).server_channel_no == old(self).server_channel_no,
    {
        if data.len() > u32::MAX as usize || data.len() as u32 > self.local_window {
            proof {
                assert(data@.len() > old(self).local_window);
            }
            return Err(SshError::MalformedField);
        }
        self.local_window = self.local_window - data.len() as u32;
        let mut q: usize = 0;
        while q < data.len()
            invariant
                q <= data@.len(),
                self.recv_buf@ =~= old(self).recv_buf@ + data@.take(q as int),
                self.local_window == old(self).local_window - data@.len(),
                self.state == old(self).state,
                self.peer_window == old(self).peer_window,
                self.local_window_initial == old(self).local_window_initial,
                self.server_channel_no == old(self).server_channel_no,
            decreases data@.len() - q,
        {
            self.recv_buf.push(data[q]);
            q = q + 1;
        }
        assert(data@.take(data@.len() as int) =~= data@);
        Ok(())
    }

    /// When the window has fallen to half its initial size or below,
    /// replenishes it to full and yields the `WINDOW_ADJUST` to send;
    /// the adjustment covers every byte consumed so far.
    pub fn replenish(&mut self) -> (r: Option<Data>)
        requires
            old(self).local_window <= old(self).local_window_initial,
        ensures
            final(self).state == old(self).state,
            final(self).peer_window == old(self).peer_window,
            final(self).recv_buf@ == old(self).recv_buf@,
            final(self).local_window_initial == old(self).local_window_initial,
            old(self).local_window <= old(self).local_window_initial / 2 ==> ({
                &&& r is Some
                &&& final(self).local_window == old(self).local_window_initial
                &&& r->Some_0@ =~= window_adjust_bytes(
                    old(self).server_channel_no,
                    (old(self).local_window_initial - old(self).local_window) as u32,
                )
            }),
            old(self).local_window > old(self).local_window_initial / 2 ==> r is None && final(self).local_window == old(self).local_window,
    {
        if self.local_window <= self.local_window_initial / 2 {
            let adjustment = self.local_window_initial - self.local_window;
            self.local_window = self.local_window_initial;
            let mut msg = Data::new();
            msg.put_u8(SSH_MSG_CHANNEL_WINDOW_ADJUST);
            msg.put_u32(self.server_channel_no);
            msg.put_u32(adjustment);
            Some(msg)
        } else {
            None
        }
    }

    /// The peer granted more window; the grant saturates rather than
    /// wraps.
    pub fn on_window_adjust(&mut self, n: u32)
        ensures
            final(self).peer_window as int == if old(self).peer_window + n <= u32::MAX {
                old(self).peer_window + n
            } else {
                u32::MAX as int
            },
            final(self).state == old(self).state,
            final(self).local_window == old(self).local_window,
            final(self).recv_buf@ == old(self).recv_buf@,
    {
        self.peer_window = self.peer_window.saturating_add(n);
    }

    /// A want-reply request was sent: it joins the FIFO awaiting
    /// `CHANNEL_SUCCESS` or `CHANNEL_FAILURE`.
    pub fn push_pending_request(&mut self, want_reply: bool)
        ensures
            final(self).pending_requests@ =~= old(self).pending_requests@.push(want_reply),
            final(self).state == old(self).state,
    {
        self.pending_requests.push(want_reply);
    }

    /// `CHANNEL_SUCCESS` or `CHANNEL_FAILURE` resolves the oldest
    /// pending request; an answer with none pending is a protocol
    /// violation.
    pub fn resolve_request(&mut self) -> (r: Result<bool, SshError>)
        ensures
            old(self).pending_requests@.len() > 0 ==> r == Ok::<bool, SshError>(
                old(self).pending_requests@[0],
            ) && final(self).pending_requests@ =~= old(self).pending_requests@.skip(1),
            old(self).pending_requests@.len() == 0 ==> r == Err::<bool, SshError>(
                SshError::MalformedField,
            ) && *final(self) == *old(self),
            final(self).state == old(self).state,
    {
        if self.pending_requests.len() == 0 {
            return Err(SshError::MalformedField);
        }
        let head = self.pending_requests.remove(0);
        Ok(head)
    }

    /// The peer announced end of data in its direction.
    pub fn on_remote_eof(&mut self)
        ensures
            final(self).state == step_state(old(self).state, ChanEvent::RemoteEof),
            final(self).recv_buf@ == old(self).recv_buf@,
            final(self).peer_window == old(self).peer_window,
            final(self).local_window == old(self).local_window,
    {
        if matches!(self.state, ChannelState::Open) {
            self.state = ChannelState::EofReceived;
        }
    }

    /// This side announces end of data.
    pub fn on_local_eof(&mut self)
        ensures
            final(self).state == step_state(old(self).state, ChanEvent::LocalEof),
            final(self).recv_buf@ == old(self).recv_buf@,
            final(self).peer_window == old(self).peer_window,
            final(self).local_window == old(self).local_window,
    {
        if matches!(self.state, ChannelState::Open) {
            self.state = ChannelState::EofSent;
        }
    }

    /// `CHANNEL_CLOSE` arrived: reply with `CLOSE` if this side has not
    /// sent it yet, and mark the channel closed once both sides have.
    pub fn on_close_received(&mut self) -> (r: Option<Data>)
        ensures
            final(self).close_received,
            final(self).close_sent,
            final(self).state == step_state(old(self).state, ChanEvent::CloseExchanged),
            final(self).state == ChannelState::Closed,
            old(self).close_sent ==> r is None,
            !old(self).close_sent ==> r is Some && r->Some_0@ =~= seq![SSH_MSG_CHANNEL_CLOSE]
                + u32_be(old(self).server_channel_no),
    {
        self.close_received = true;
        let reply = if !self.close_sent {
            self.close_sent = true;
            let mut msg = Data::new();
            msg.put_u8(SSH_MSG_CHANNEL_CLOSE);
            msg.put_u32(self.server_channel_no);
            Some(msg)
        } else {
            None
        };
        self.state = ChannelState::Closed;
        reply
    }

    /// This side closes first: the message to send, once; the channel is
    /// marked closed when the peer's `CLOSE` has also been seen.
    pub fn send_close(&mut self) -> (r: Option<Data>)
        ensures
            final(self).close_sent,
            old(self).close_sent ==> r is None && *final(self) == *old(self),
            !old(self).close_sent ==> r is Some && r->Some_0@ =~= seq![SSH_MSG_CHANNEL_CLOSE]
                + u32_be(old(self).server_channel_no),
            old(self).close_received && !old(self).close_sent ==> final(self).state == step_state(
                old(self).state,
                ChanEvent::CloseExchanged,
            ),
            !old(self).close_received ==> final(self).state == old(self).state,
    {
        if self.close_sent {
            return None;
        }
        self.close_sent = true;
        let mut msg = Data::new();
        msg.put_u8(SSH_MSG_CHANNEL_CLOSE);
        msg.put_u32(self.server_channel_no);
        if self.close_received {
            self.state = ChannelState::Closed;
        }
        Some(msg)
    }
}

} // verus!
