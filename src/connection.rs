use vstd::prelude::*;
use vstd::string::StringExecFns;

use crate::types::{
    response_encodable, spec_request_frames, spec_request_from_frames, spec_response_frames,
    spec_response_from_frames, views, RequestMessage, ResponseMessage, ResponseView, BUF_CAP,
    ERR_CODE_INVALID_MSG, ERR_DESC_INVALID_MSG,
};
use crate::wire::{spec_parse, try_parse_frame, Frame, FrameError, FrameView};

verus! {

/// Milliseconds a connection may wait for its first byte.
pub const CXN_FIRST_BYTE_TIMEOUT_MS: u64 = 5000;

/// Milliseconds a connection may stay silent once bytes have arrived.
pub const CXN_RECENT_BYTE_TIMEOUT_MS: u64 = 5000;

/// Why reading stopped with bytes left over.
#[derive(Clone, Copy, Debug, PartialEq, Eq, Structural)]
pub enum ConnectionError {
    /// The stream ended inside a frame.
    TruncatedFrame,
}

/// The read side of one connection: the bytes received and not yet parsed, when the
/// connection started and when bytes last arrived, in milliseconds.
#[derive(Debug)]
pub struct Connection {
    buffer: Vec<u8>,
    last_recv_ms: Option<u64>,
    cxn_start_ms: u64,
}

impl Connection {
    pub closed spec fn buffer_view(&self) -> Seq<u8> {
        self.buffer@
    }

    pub closed spec fn last_recv(&self) -> Option<u64> {
        self.last_recv_ms
    }

    pub closed spec fn start(&self) -> u64 {
        self.cxn_start_ms
    }

    /// A connection that started at `now_ms` and has received nothing.
    pub fn new(now_ms: u64) -> (r: Connection)
        ensures
            r.buffer_view() == Seq::<u8>::empty(),
            r.last_recv() is None,
            r.start() == now_ms,
    {
        Connection { buffer: Vec::with_capacity(BUF_CAP * 4), last_recv_ms: None, cxn_start_ms: now_ms }
    }

    /// The bytes received and not yet parsed.
    pub fn buffered(&self) -> (r: &[u8])
        ensures
            r@ == self.buffer_view(),
    {
        self.buffer.as_slice()
    }

    /// Appends bytes read from the socket at `now_ms`; any bytes at all count as a
    /// sign of life.
    pub fn receive(&mut self, bytes: &[u8], now_ms: u64)
        ensures
            final(self).buffer_view() == old(self).buffer_view() + bytes@,
            final(self).start() == old(self).start(),
            final(self).last_recv() == if bytes@.len() > 0 { Some(now_ms) } else { old(self).last_recv() },
    {
        self.buffer.extend_from_slice(bytes);
        if bytes.len() > 0 {
            self.last_recv_ms = Some(now_ms);
        }
        assert(self.buffer@ =~= old(self).buffer@ + bytes@);
    }

    /// Takes one frame off the front of the buffer. `Ok(None)` means that more bytes
    /// are needed; a bad magic or a malformed header is an error, and leaves the
    /// buffer as it is.
    pub fn parse_frame(&mut self) -> (r: Result<Option<Frame>, FrameError>)
        ensures
            final(self).start() == old(self).start(),
            final(self).last_recv() == old(self).last_recv(),
            match spec_parse(old(self).buffer_view()) {
                Ok(f) => r matches Ok(Some(g)) && g@ == f && final(self).buffer_view()
                    == old(self).buffer_view().subrange(f.size() as int, old(self).buffer_view().len() as int),
                Err(FrameError::ShortBuffer) => r matches Ok(None) && final(self).buffer_view() == old(self).buffer_view(),
                Err(e) => r == Err::<Option<Frame>, FrameError>(e) && final(self).buffer_view() == old(self).buffer_view(),
            },
    {
        match try_parse_frame(self.buffer.as_slice()) {
            Ok(f) => {
                let sz = f.size();
                let rest = vstd::slice::slice_to_vec(&self.buffer.as_slice()[sz..self.buffer.len()]);
                self.buffer = rest;
                Ok(Some(f))
            },
            Err(FrameError::ShortBuffer) => Ok(None),
            Err(e) => Err(e),
        }
    }

    /// What the end of the stream means: nothing more when the buffer is empty, a
    /// truncated frame otherwise.
    pub fn end_of_stream(&self) -> (r: Result<(), ConnectionError>)
        ensures
            r is Ok <==> self.buffer_view().len() == 0,
            r is Err ==> r == Err::<(), ConnectionError>(ConnectionError::TruncatedFrame),
    {
        if self.buffer.len() == 0 {
            Ok(())
        } else {
            Err(ConnectionError::TruncatedFrame)
        }
    }

    /// Whether the connection has been idle too long at `now_ms`: no byte within the
    /// first-byte timeout of the start, or none within the recent-byte timeout of the
    /// last arrival.
    pub fn is_timed_out(&self, now_ms: u64) -> (r: bool)
        ensures
            r == match self.last_recv() {
                Some(t) => now_ms > t + CXN_RECENT_BYTE_TIMEOUT_MS,
                None => now_ms > self.start() + CXN_FIRST_BYTE_TIMEOUT_MS,
            },
    {
        match self.last_recv_ms {
            Some(t) => now_ms >= t && now_ms - t > CXN_RECENT_BYTE_TIMEOUT_MS,
            None => now_ms >= self.cxn_start_ms && now_ms - self.cxn_start_ms > CXN_FIRST_BYTE_TIMEOUT_MS,
        }
    }
}

/// A message at the pump's boundary: a request or a reply.
#[derive(Debug)]
pub enum BearcubMessage {
    Request { msg: RequestMessage },
    Response { msg: ResponseMessage },
}

/// What the pump asks of the loop that drives it.
#[derive(Debug)]
pub enum PumpStep {
    /// Read another frame.
    Continue,
    /// Hand this whole message to the handler, then pass its answer to `on_reply`.
    Deliver { msg: BearcubMessage },
    /// Write these frames in order, then read on; close if a write fails.
    Send { frames: Vec<Frame> },
    /// Close the connection.
    Close,
}

/// The frames of the `INVALID_MSG` error reply.
pub open spec fn invalid_msg_frames() -> Seq<FrameView> {
    spec_response_frames(ResponseView::Error { code: ERR_CODE_INVALID_MSG, description: ERR_DESC_INVALID_MSG@ })
}

fn invalid_msg_reply() -> (r: Vec<Frame>)
    ensures
        views(r@) == invalid_msg_frames(),
        forall|i: int| 0 <= i < r@.len() ==> #[trigger] r@[i]@.wf(),
{
    let m = ResponseMessage::Error { code: ERR_CODE_INVALID_MSG, description: String::from_str(ERR_DESC_INVALID_MSG) };
    proof {
        reveal_strlit("invalid message");
        vstd::utf8::encode_utf8_valid_utf8(m@->Error_description);
        assert(crate::types::response_payload(m@).len() < 100) by {
            lemma_ascii_len(m@->Error_description);
        }
    }
    m.to_frames()
}

proof fn lemma_ascii_len(s: Seq<char>)
    requires
        s == "invalid message"@,
    ensures
        vstd::utf8::encode_utf8(s).len() <= 4 * s.len(),
{
    reveal_strlit("invalid message");
    lemma_encode_len(s);
}

proof fn lemma_encode_len(s: Seq<char>)
    ensures
        vstd::utf8::encode_utf8(s).len() <= 4 * s.len(),
    decreases s.len(),
{
    if s.len() > 0 {
        lemma_encode_len(s.drop_first());
    }
}

/// The frame accumulator of one connection, on the server or the client side.
#[derive(Debug)]
pub struct MessagePump {
    is_client_side: bool,
    frames: Vec<Frame>,
}

impl MessagePump {
    pub closed spec fn client_side(&self) -> bool {
        self.is_client_side
    }

    /// The frames of the message in progress.
    pub closed spec fn pending(&self) -> Seq<FrameView> {
        views(self.frames@)
    }

    pub fn new(is_client_side: bool) -> (r: MessagePump)
        ensures
            r.client_side() == is_client_side,
            r.pending() == Seq::<FrameView>::empty(),
    {
        let p = MessagePump { is_client_side, frames: Vec::new() };
        assert(views(p.frames@) =~= Seq::<FrameView>::empty());
        p
    }

    /// Takes in one frame. A frame whose remaining count is not one is kept for the
    /// message in progress. The last frame completes the message: the frames are
    /// parsed as a request on the server side and as a reply on the client side, and
    /// the buffer is cleared. A message that parses is delivered; one that does not is
    /// answered with `INVALID_MSG` on the server side and closes the client side.
    pub fn on_frame(&mut self, frame: Frame) -> (r: PumpStep)
        ensures
            final(self).client_side() == old(self).client_side(),
            frame.n_remaining_frames != 1 ==> r is Continue && final(self).pending() == old(self).pending().push(frame@),
            frame.n_remaining_frames == 1 ==> final(self).pending() == Seq::<FrameView>::empty() && {
                let all = old(self).pending().push(frame@);
                if old(self).client_side() {
                    match spec_response_from_frames(all) {
                        Ok(m) => r matches PumpStep::Deliver { msg: BearcubMessage::Response { msg } } && msg@ == m,
                        Err(_) => r is Close,
                    }
                } else {
                    match spec_request_from_frames(all) {
                        Ok(m) => r matches PumpStep::Deliver { msg: BearcubMessage::Request { msg } } && msg@ == m,
                        Err(_) => r matches PumpStep::Send { frames } && views(frames@) == invalid_msg_frames(),
                    }
                }
            },
    {
        let last = frame.n_remaining_frames == 1;
        let ghost before = views(self.frames@);
        self.frames.push(frame);
        assert(views(self.frames@) =~= before.push(frame@));
        if !last {
            return PumpStep::Continue;
        }
        let ghost pushed = self.frames@;
        let frames = self.frames.split_off(0);
        assert(frames@ =~= pushed);
        assert(views(self.frames@) =~= Seq::<FrameView>::empty());
        if self.is_client_side {
            match ResponseMessage::from_frames(frames) {
                Ok(msg) => PumpStep::Deliver { msg: BearcubMessage::Response { msg } },
                Err(_) => PumpStep::Close,
            }
        } else {
            match RequestMessage::from_frames(frames) {
                Ok(msg) => PumpStep::Deliver { msg: BearcubMessage::Request { msg } },
                Err(_) => PumpStep::Send { frames: invalid_msg_reply() },
            }
        }
    }

    /// Turns the handler's answer into frames to write. No answer closes the
    /// connection. The server side sends a reply, and answers a request handed back
    /// to it with `INVALID_MSG`; the client side sends a request, and closes on a
    /// reply handed back to it. A message too large to frame closes the connection.
    pub fn on_reply(&self, reply: Option<BearcubMessage>) -> (r: PumpStep)
        ensures
            match reply {
                None => r is Close,
                Some(BearcubMessage::Response { msg }) => if self.client_side() {
                    r is Close
                } else if response_encodable(msg@) {
                    r matches PumpStep::Send { frames } && views(frames@) == spec_response_frames(msg@)
                } else {
                    r is Close
                },
                Some(BearcubMessage::Request { msg }) => if !self.client_side() {
                    r matches PumpStep::Send { frames } && views(frames@) == invalid_msg_frames()
                } else if msg@.encodable() {
                    r matches PumpStep::Send { frames } && views(frames@) == spec_request_frames(msg@)
                } else {
                    r is Close
                },
            },
            r matches PumpStep::Send { frames } ==> forall|i: int| 0 <= i < frames@.len() ==> #[trigger] frames@[i]@.wf(),
    {
        match reply {
            None => PumpStep::Close,
            Some(BearcubMessage::Response { msg }) => {
                if self.is_client_side || !msg.is_encodable() {
                    PumpStep::Close
                } else {
                    PumpStep::Send { frames: msg.to_frames() }
                }
            },
            Some(BearcubMessage::Request { msg }) => {
                if !self.is_client_side {
                    PumpStep::Send { frames: invalid_msg_reply() }
                } else if !msg.is_encodable() {
                    PumpStep::Close
                } else {
                    PumpStep::Send { frames: msg.to_frames() }
                }
            },
        }
    }
}

} // verus!
