use vstd::prelude::*;
use vstd::utf8::{decode_utf8, encode_utf8, valid_utf8};

use crate::text::{lemma_utf8_round_trip, opt_view, string_bytes, utf8_string};

verus! {

/// Bytes of the fixed header: magic, length, remaining count and type flag.
pub const FRAME_FIXED_HEADER: usize = 13;

/// Width of the tenant id carried by frames that need one.
pub const USER_ID_LEN: usize = 36;

/// Continuation and data frames.
pub const FLAG_DATA: u8 = 100;

/// Error replies.
pub const FLAG_ERROR: u8 = 101;

/// Get by id.
pub const FLAG_GET_ID: u8 = 71;

/// Get by path.
pub const FLAG_GET_PATH: u8 = 80;

/// Put.
pub const FLAG_PUT: u8 = 112;

/// Set.
pub const FLAG_SET: u8 = 115;

/// Remove.
pub const FLAG_REMOVE: u8 = 82;

/// List.
pub const FLAG_LIST: u8 = 76;

/// Whether frames of this type carry the 36-byte tenant id in their header.
pub open spec fn spec_user_id_required(flag: u8) -> bool {
    flag == FLAG_GET_ID || flag == FLAG_LIST || flag == FLAG_GET_PATH || flag == FLAG_PUT
        || flag == FLAG_SET || flag == FLAG_REMOVE
}

/// True for the request flags `G`, `L`, `P`, `p`, `s` and `R`.
pub fn is_user_id_required_msgtype(msg_type_flag: u8) -> (r: bool)
    ensures
        r == spec_user_id_required(msg_type_flag),
{
    msg_type_flag == FLAG_GET_ID || msg_type_flag == FLAG_LIST || msg_type_flag == FLAG_GET_PATH
        || msg_type_flag == FLAG_PUT || msg_type_flag == FLAG_SET || msg_type_flag == FLAG_REMOVE
}

/// The version magic `c0.1`.
pub open spec fn magic() -> Seq<u8> {
    seq![99u8, 48u8, 46u8, 49u8]
}

/// Big-endian encoding of a 32-bit integer.
pub open spec fn be32(n: u32) -> Seq<u8> {
    seq![(n >> 24u32) as u8, ((n >> 16u32) & 0xffu32) as u8, ((n >> 8u32) & 0xffu32) as u8, (n & 0xffu32) as u8]
}

/// The 32-bit integer whose big-endian encoding is the first four bytes of `s`.
pub open spec fn from_be32(s: Seq<u8>) -> u32 {
    ((s[0] as u32) << 24u32) | ((s[1] as u32) << 16u32) | ((s[2] as u32) << 8u32) | (s[3] as u32)
}

pub proof fn lemma_be32_round_trip(n: u32)
    ensures
        from_be32(be32(n)) == n,
        be32(n).len() == 4,
{
    let b0 = (n >> 24u32) as u8;
    let b1 = ((n >> 16u32) & 0xffu32) as u8;
    let b2 = ((n >> 8u32) & 0xffu32) as u8;
    let b3 = (n & 0xffu32) as u8;
    assert(((b0 as u32) << 24u32) | ((b1 as u32) << 16u32) | ((b2 as u32) << 8u32) | (b3 as u32)
        == n) by (bit_vector)
        requires
            b0 == (n >> 24u32) as u8,
            b1 == ((n >> 16u32) & 0xffu32) as u8,
            b2 == ((n >> 8u32) & 0xffu32) as u8,
            b3 == (n & 0xffu32) as u8,
    ;
}

/// Header bytes of a frame with this type flag.
pub open spec fn header_len(flag: u8) -> nat {
    if spec_user_id_required(flag) {
        49
    } else {
        13
    }
}

/// The abstract content of a frame.
pub ghost struct FrameView {
    pub user_id: Option<Seq<char>>,
    pub n_remaining_frames: u32,
    pub msg_type_flag: u8,
    pub data: Seq<u8>,
}

impl FrameView {
    /// Total serialized size in bytes.
    pub open spec fn size(self) -> nat {
        header_len(self.msg_type_flag) + self.data.len()
    }

    /// A frame that can be put on the wire: the tenant id is there exactly when the
    /// type needs it and encodes to 36 bytes, the count is at least one, and the
    /// size fits the length field.
    pub open spec fn wf(self) -> bool {
        &&& self.n_remaining_frames >= 1
        &&& self.user_id is Some <==> spec_user_id_required(self.msg_type_flag)
        &&& self.user_id matches Some(u) ==> encode_utf8(u).len() == USER_ID_LEN
        &&& self.size() <= u32::MAX
    }

    /// The bytes of the tenant id slot.
    pub open spec fn user_id_bytes(self) -> Seq<u8> {
        match self.user_id {
            Some(u) => encode_utf8(u),
            None => Seq::empty(),
        }
    }
}

/// The wire encoding of a frame.
pub open spec fn frame_bytes(f: FrameView) -> Seq<u8> {
    magic() + be32(f.size() as u32) + be32(f.n_remaining_frames) + seq![f.msg_type_flag]
        + f.user_id_bytes() + f.data
}

/// Why a buffer does not start with a complete frame.
#[derive(Clone, Copy, Debug, PartialEq, Eq, Structural)]
pub enum FrameError {
    /// The first four bytes are not `c0.1`.
    InvalidMagic,
    /// More bytes are needed.
    ShortBuffer,
    /// The header is malformed.
    BadHeader,
}

/// The length field of a buffer that holds at least eight bytes.
pub open spec fn length_field(b: Seq<u8>) -> u32 {
    from_be32(b.subrange(4, 8))
}

/// What `try_parse_frame` reports for a buffer, in this order: `ShortBuffer` below
/// four bytes, `InvalidMagic` for a wrong magic, `ShortBuffer` below eight bytes,
/// `BadHeader` for a length field below the fixed header, `ShortBuffer` while fewer
/// bytes than the length field have arrived, then `BadHeader` for a length below the
/// flag's header, a remaining count of zero, or a tenant id that is not UTF-8.
pub open spec fn spec_parse(b: Seq<u8>) -> Result<FrameView, FrameError> {
    if b.len() < 4 {
        Err(FrameError::ShortBuffer)
    } else if b.subrange(0, 4) != magic() {
        Err(FrameError::InvalidMagic)
    } else if b.len() < 8 {
        Err(FrameError::ShortBuffer)
    } else if length_field(b) < FRAME_FIXED_HEADER {
        Err(FrameError::BadHeader)
    } else if b.len() < length_field(b) {
        Err(FrameError::ShortBuffer)
    } else if (length_field(b) as nat) < header_len(b[12]) {
        Err(FrameError::BadHeader)
    } else if from_be32(b.subrange(8, 12)) == 0 {
        Err(FrameError::BadHeader)
    } else if spec_user_id_required(b[12]) && !valid_utf8(b.subrange(13, 49)) {
        Err(FrameError::BadHeader)
    } else {
        Ok(
            FrameView {
                user_id: if spec_user_id_required(b[12]) {
                    Some(decode_utf8(b.subrange(13, 49)))
                } else {
                    None
                },
                n_remaining_frames: from_be32(b.subrange(8, 12)),
                msg_type_flag: b[12],
                data: b.subrange(header_len(b[12]) as int, length_field(b) as int),
            },
        )
    }
}

/// What `check_frame` reports for a buffer: the frame length, when the buffer holds
/// the magic, a length field no shorter than the fixed header, and that many bytes.
pub open spec fn spec_check(b: Seq<u8>) -> Option<usize> {
    if b.len() >= 8 && b.subrange(0, 4) == magic() && length_field(b) >= FRAME_FIXED_HEADER
        && b.len() >= length_field(b) {
        Some(length_field(b) as usize)
    } else {
        None
    }
}

/// One unit of wire transfer.
#[derive(Clone, Debug)]
pub struct Frame {
    pub user_id: Option<String>,
    pub n_remaining_frames: u32,
    pub msg_type_flag: u8,
    pub data: Vec<u8>,
}

impl View for Frame {
    type V = FrameView;

    open spec fn view(&self) -> FrameView {
        FrameView {
            user_id: opt_view(self.user_id),
            n_remaining_frames: self.n_remaining_frames,
            msg_type_flag: self.msg_type_flag,
            data: self.data@,
        }
    }
}

pub(crate) fn push_be32(out: &mut Vec<u8>, n: u32)
    ensures
        final(out)@ == old(out)@ + be32(n),
{
    out.push((n >> 24u32) as u8);
    out.push(((n >> 16u32) & 0xffu32) as u8);
    out.push(((n >> 8u32) & 0xffu32) as u8);
    out.push((n & 0xffu32) as u8);
}

pub(crate) fn read_be32(b: &[u8], at: usize) -> (r: u32)
    requires
        at + 4 <= b@.len(),
    ensures
        r == from_be32(b@.subrange(at as int, at + 4)),
{
    ((b[at] as u32) << 24u32) | ((b[at + 1] as u32) << 16u32) | ((b[at + 2] as u32) << 8u32) | (
    b[at + 3] as u32)
}

impl Frame {
    pub fn new(user_id: Option<String>, n_remaining_frames: u32, msg_type_flag: u8, data: Vec<u8>) -> (r: Frame)
        ensures
            r.user_id == user_id,
            r.n_remaining_frames == n_remaining_frames,
            r.msg_type_flag == msg_type_flag,
            r.data == data,
    {
        Frame { user_id, n_remaining_frames, msg_type_flag, data }
    }

    /// Serialized size: the header, with the tenant id slot where the type needs it,
    /// and the payload.
    pub fn size(&self) -> (r: usize)
        requires
            self@.size() <= usize::MAX,
        ensures
            r == self@.size(),
    {
        let mut prefix_sz: usize = FRAME_FIXED_HEADER;
        if is_user_id_required_msgtype(self.msg_type_flag) {
            prefix_sz = prefix_sz + USER_ID_LEN;
        }
        prefix_sz + self.data.len()
    }

    /// The wire encoding of the frame.
    pub fn to_bytes(&self) -> (r: Vec<u8>)
        requires
            self@.wf(),
        ensures
            r@ == frame_bytes(self@),
    {
        let total_sz = self.size();
        let mut bs: Vec<u8> = Vec::with_capacity(total_sz);
        bs.push(99u8);
        bs.push(48u8);
        bs.push(46u8);
        bs.push(49u8);
        assert(bs@ == magic());
        push_be32(&mut bs, total_sz as u32);
        push_be32(&mut bs, self.n_remaining_frames);
        bs.push(self.msg_type_flag);
        match &self.user_id {
            Some(uid) => {
                let ub = string_bytes(uid);
                bs.extend_from_slice(ub.as_slice());
            },
            None => {},
        }
        bs.extend_from_slice(self.data.as_slice());
        assert(bs@ =~= frame_bytes(self@));
        bs
    }
}

/// The length of the frame at the start of `buf`, once all of it has arrived.
pub fn check_frame(buf: &[u8]) -> (r: Option<usize>)
    ensures
        r == spec_check(buf@),
{
    if buf.len() < 8 {
        return None;
    }
    if !(buf[0] == 99u8 && buf[1] == 48u8 && buf[2] == 46u8 && buf[3] == 49u8) {
        assert(buf@.subrange(0, 4) != magic()) by {
            if buf@.subrange(0, 4) == magic() {
                assert(buf@.subrange(0, 4)[0] == buf@[0]);
                assert(buf@.subrange(0, 4)[1] == buf@[1]);
                assert(buf@.subrange(0, 4)[2] == buf@[2]);
                assert(buf@.subrange(0, 4)[3] == buf@[3]);
            }
        };
        return None;
    }
    assert(buf@.subrange(0, 4) =~= magic());
    let sz = read_be32(buf, 4);
    if (sz as usize) < FRAME_FIXED_HEADER || buf.len() < sz as usize {
        None
    } else {
        Some(sz as usize)
    }
}

/// Parses the frame at the start of `buf`; the frame occupies its first `size()` bytes.
pub fn try_parse_frame(buf: &[u8]) -> (r: Result<Frame, FrameError>)
    ensures
        match r {
            Ok(f) => spec_parse(buf@) == Ok::<FrameView, FrameError>(f@),
            Err(e) => spec_parse(buf@) == Err::<FrameView, FrameError>(e),
        },
{
    if buf.len() < 4 {
        return Err(FrameError::ShortBuffer);
    }
    if !(buf[0] == 99u8 && buf[1] == 48u8 && buf[2] == 46u8 && buf[3] == 49u8) {
        assert(buf@.subrange(0, 4) != magic()) by {
            if buf@.subrange(0, 4) == magic() {
                assert(buf@.subrange(0, 4)[0] == buf@[0]);
                assert(buf@.subrange(0, 4)[1] == buf@[1]);
                assert(buf@.subrange(0, 4)[2] == buf@[2]);
                assert(buf@.subrange(0, 4)[3] == buf@[3]);
            }
        };
        return Err(FrameError::InvalidMagic);
    }
    assert(buf@.subrange(0, 4) =~= magic());
    if buf.len() < 8 {
        return Err(FrameError::ShortBuffer);
    }
    let sz = read_be32(buf, 4);
    if (sz as usize) < FRAME_FIXED_HEADER {
        return Err(FrameError::BadHeader);
    }
    if buf.len() < sz as usize {
        return Err(FrameError::ShortBuffer);
    }
    let flag = buf[12];
    let required = is_user_id_required_msgtype(flag);
    let header: usize = if required { FRAME_FIXED_HEADER + USER_ID_LEN } else { FRAME_FIXED_HEADER };
    if (sz as usize) < header {
        return Err(FrameError::BadHeader);
    }
    let n_remaining_frames = read_be32(buf, 8);
    if n_remaining_frames == 0 {
        return Err(FrameError::BadHeader);
    }
    let user_id = if required {
        match utf8_string(&buf[13..49]) {
            Some(u) => Some(u),
            None => {
                return Err(FrameError::BadHeader);
            },
        }
    } else {
        None
    };
    let data = vstd::slice::slice_to_vec(&buf[header..sz as usize]);
    let f = Frame::new(user_id, n_remaining_frames, flag, data);
    assert(f@ == spec_parse(buf@)->Ok_0);
    Ok(f)
}

/// Parsing the encoding of a well-formed frame, followed by anything, gives back that
/// frame and finds its length: the codec loses nothing, payload length included.
pub proof fn lemma_frame_round_trip(f: FrameView, rest: Seq<u8>)
    requires
        f.wf(),
    ensures
        spec_parse(frame_bytes(f) + rest) == Ok::<FrameView, FrameError>(f),
        spec_check(frame_bytes(f) + rest) == Some(f.size() as usize),
        frame_bytes(f).len() == f.size(),
{
    let b = frame_bytes(f) + rest;
    let sz = f.size() as u32;
    lemma_be32_round_trip(sz);
    lemma_be32_round_trip(f.n_remaining_frames);
    let hl = header_len(f.msg_type_flag);
    assert(b.subrange(0, 4) =~= magic());
    assert(b.subrange(4, 8) =~= be32(sz));
    assert(b.subrange(8, 12) =~= be32(f.n_remaining_frames));
    assert(b[12] == f.msg_type_flag);
    assert(frame_bytes(f).len() == f.size());
    if spec_user_id_required(f.msg_type_flag) {
        let u = f.user_id.unwrap();
        lemma_utf8_round_trip(u);
        assert(b.subrange(13, 49) =~= encode_utf8(u));
    }
    assert(b.subrange(hl as int, sz as int) =~= f.data);
    let g = spec_parse(b)->Ok_0;
    assert(g.user_id == f.user_id);
    assert(g == f);
}

} // verus!
