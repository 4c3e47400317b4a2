use vstd::prelude::*;
use vstd::utf8::{decode_utf8, encode_utf8, valid_utf8};

use crate::text::{lemma_utf8_round_trip, opt_view, string_bytes, utf8_string};
use vstd::string::StringExecFns;
use crate::wire::{
    from_be32, be32, lemma_be32_round_trip, push_be32, Frame, FrameView, FLAG_DATA, FLAG_ERROR,
    FLAG_GET_ID, FLAG_GET_PATH, FLAG_LIST, FLAG_PUT, FLAG_REMOVE, FLAG_SET, USER_ID_LEN,
};

verus! {

/// Socket buffer slab that a serialized frame should stay under.
pub const BUF_CAP: usize = 4096;

/// Room left in each slab for the frame header.
pub const BUF_CAP_HEADER_SZ_RES: usize = 128;

/// Payload bytes carried by each frame of a fragmented message.
pub const DATA_BYTES_PER_FRAME: usize = BUF_CAP - BUF_CAP_HEADER_SZ_RES;

/// The message failed to parse or broke an invariant.
pub const ERR_CODE_INVALID_MSG: u32 = 11;

pub const ERR_DESC_INVALID_MSG: &'static str = "invalid message";

/// The requested id or path does not exist.
pub const ERR_CODE_NO_SUCH_ENTITY: u32 = 12;

pub const ERR_DESC_NO_SUCH_ENTITY: &'static str = "no such entity";

/// Number of frames that carry a payload of `len` bytes: one per started chunk, and
/// one for an empty payload.
pub open spec fn n_chunks(len: nat) -> nat {
    if len == 0 {
        1
    } else {
        ((len - 1) as nat / 3968 + 1) as nat
    }
}

/// The `i`-th chunk of a payload.
pub open spec fn chunk_of(p: Seq<u8>, i: int) -> Seq<u8> {
    p.subrange(i * 3968, if (i + 1) * 3968 < p.len() { (i + 1) * 3968 } else { p.len() as int })
}

/// The frames that carry payload `p`: the first one has the message's flag and tenant
/// id, the others are continuation frames; the remaining count runs down to one.
pub open spec fn chunked(user_id: Option<Seq<char>>, flag: u8, p: Seq<u8>) -> Seq<FrameView> {
    Seq::new(
        n_chunks(p.len()),
        |i: int|
            FrameView {
                user_id: if i == 0 { user_id } else { None },
                n_remaining_frames: (n_chunks(p.len()) - i) as u32,
                msg_type_flag: if i == 0 { flag } else { FLAG_DATA },
                data: chunk_of(p, i),
            },
    )
}

/// The payloads of a sequence of frames, spliced in order.
pub open spec fn concat_data(frames: Seq<FrameView>) -> Seq<u8>
    decreases frames.len(),
{
    if frames.len() == 0 {
        Seq::empty()
    } else {
        concat_data(frames.drop_last()) + frames.last().data
    }
}

/// The views of a sequence of frames.
pub open spec fn views(frames: Seq<Frame>) -> Seq<FrameView> {
    frames.map_values(|f: Frame| f@)
}

proof fn lemma_n_chunks_bounds(len: nat)
    ensures
        n_chunks(len) >= 1,
        len > 0 ==> (n_chunks(len) - 1) * 3968 < len,
        n_chunks(len) * 3968 >= len,
        n_chunks(len) <= len + 1,
{
    if len > 0 {
        let x = (len - 1) as int;
        vstd::arithmetic::div_mod::lemma_fundamental_div_mod(x, 3968);
        assert(0 <= x % 3968 < 3968);
    }
}

/// The splice of the first `k` chunks is the payload's first `k` chunk-widths.
proof fn lemma_concat_chunks_prefix(user_id: Option<Seq<char>>, flag: u8, p: Seq<u8>, k: int)
    requires
        0 <= k <= n_chunks(p.len()),
    ensures
        concat_data(chunked(user_id, flag, p).take(k)) == p.subrange(
            0,
            if k * 3968 < p.len() { k * 3968 } else { p.len() as int },
        ),
    decreases k,
{
    let fs = chunked(user_id, flag, p);
    lemma_n_chunks_bounds(p.len());
    if k == 0 {
        assert(fs.take(0) =~= Seq::<FrameView>::empty());
        assert(p.subrange(0, 0) =~= Seq::<u8>::empty());
    } else {
        lemma_concat_chunks_prefix(user_id, flag, p, k - 1);
        assert(fs.take(k).drop_last() =~= fs.take(k - 1));
        assert(fs.take(k).last() == fs[k - 1]);
        if p.len() > 0 {
            assert((k - 1) * 3968 < p.len()) by (nonlinear_arith)
                requires
                    k - 1 <= n_chunks(p.len()) - 1,
                    (n_chunks(p.len()) - 1) * 3968 < p.len(),
            ;
        }
        assert(concat_data(fs.take(k)) =~= p.subrange(
            0,
            if k * 3968 < p.len() { k * 3968 } else { p.len() as int },
        ));
    }
}

/// Splicing the frames that carry a payload gives the payload back.
pub proof fn lemma_concat_chunks(user_id: Option<Seq<char>>, flag: u8, p: Seq<u8>)
    ensures
        concat_data(chunked(user_id, flag, p)) == p,
{
    let fs = chunked(user_id, flag, p);
    lemma_n_chunks_bounds(p.len());
    lemma_concat_chunks_prefix(user_id, flag, p, n_chunks(p.len()) as int);
    assert(fs.take(n_chunks(p.len()) as int) =~= fs);
    assert(p.subrange(0, p.len() as int) =~= p);
}

/// Fragment count and chunk boundaries: a payload of `len` bytes travels in
/// ⌈len / 3968⌉ frames (one when empty); every frame but the last carries exactly 3968
/// bytes; the last frame's remaining count is one and each earlier count is one more
/// than the next.
pub proof fn lemma_chunk_laws(user_id: Option<Seq<char>>, flag: u8, p: Seq<u8>)
    requires
        p.len() <= u32::MAX,
    ensures
        chunked(user_id, flag, p).len() == n_chunks(p.len()),
        p.len() > 0 ==> chunked(user_id, flag, p).len() * 3968 >= p.len() && (chunked(
            user_id,
            flag,
            p,
        ).len() - 1) * 3968 < p.len(),
        p.len() == 0 ==> chunked(user_id, flag, p).len() == 1,
        chunked(user_id, flag, p).last().n_remaining_frames == 1,
        forall|i: int|
            0 <= i < chunked(user_id, flag, p).len() - 1 ==> #[trigger] chunked(
                user_id,
                flag,
                p,
            )[i].data.len() == 3968 && chunked(user_id, flag, p)[i].n_remaining_frames
                == chunked(user_id, flag, p)[i + 1].n_remaining_frames + 1,
{
    lemma_n_chunks_bounds(p.len());
    let n = n_chunks(p.len());
    assert forall|i: int| 0 <= i < n - 1 implies #[trigger] chunked(user_id, flag, p)[i].data.len()
        == 3968 && chunked(user_id, flag, p)[i].n_remaining_frames == chunked(
        user_id,
        flag,
        p,
    )[i + 1].n_remaining_frames + 1 by {
        assert((i + 1) * 3968 < p.len()) by (nonlinear_arith)
            requires
                i + 1 <= n - 1,
                (n - 1) * 3968 < p.len(),
        ;
    }
}

/// Cuts a payload into the frames of one message.
fn chunk_frames(user_id: Option<String>, flag: u8, payload: &Vec<u8>) -> (r: Vec<Frame>)
    requires
        payload@.len() <= u32::MAX,
    ensures
        views(r@) == chunked(opt_view(user_id), flag, payload@),
{
    let ghost uv = opt_view(user_id);
    let ghost spec_frames = chunked(uv, flag, payload@);
    let len = payload.len();
    proof {
        lemma_n_chunks_bounds(len as nat);
    }
    let n: usize = if len == 0 { 1 } else { (len - 1) / DATA_BYTES_PER_FRAME + 1 };
    let mut frames: Vec<Frame> = Vec::new();
    let mut uid_opt = user_id;
    let mut i: usize = 0;
    while i < n
        invariant
            n == n_chunks(len as nat),
            len == payload@.len(),
            len <= u32::MAX,
            spec_frames == chunked(uv, flag, payload@),
            0 <= i <= n,
            frames@.len() == i,
            forall|j: int| 0 <= j < i ==> #[trigger] frames@[j]@ == spec_frames[j],
            i == 0 ==> uv == opt_view(uid_opt),
        decreases n - i,
    {
        let off: usize = i * DATA_BYTES_PER_FRAME;
        assert(off <= len) by (nonlinear_arith)
            requires
                off == i * 3968,
                i < n,
                len > 0 ==> (n - 1) * 3968 < len,
                len == 0 ==> n == 1,
        ;
        let end: usize = if len - off > DATA_BYTES_PER_FRAME { off + DATA_BYTES_PER_FRAME } else { len };
        let data = vstd::slice::slice_to_vec(&payload.as_slice()[off..end]);
        let f = if i == 0 {
            Frame::new(uid_opt, (n - i) as u32, flag, data)
        } else {
            Frame::new(None, (n - i) as u32, FLAG_DATA, data)
        };
        uid_opt = None;
        proof {
            assert(chunk_of(payload@, i as int) =~= data@);
        }
        assert(f@ == spec_frames[i as int]);
        frames.push(f);
        i = i + 1;
    }
    assert(views(frames@) =~= spec_frames);
    frames
}

/// Every frame that carries a payload of bounded size is well formed when the first
/// frame's tenant id matches its flag.
proof fn lemma_chunked_wf(user_id: Option<Seq<char>>, flag: u8, p: Seq<u8>)
    requires
        p.len() <= u32::MAX,
        user_id is Some <==> crate::wire::spec_user_id_required(flag),
        user_id matches Some(u) ==> encode_utf8(u).len() == USER_ID_LEN,
    ensures
        forall|i: int| 0 <= i < chunked(user_id, flag, p).len() ==> #[trigger] chunked(user_id, flag, p)[i].wf(),
{
    lemma_n_chunks_bounds(p.len());
    assert forall|i: int| 0 <= i < chunked(user_id, flag, p).len() implies #[trigger] chunked(user_id, flag, p)[i].wf() by {
        let f = chunked(user_id, flag, p)[i];
        assert(f.data.len() <= 3968);
    }
}

/// Splices the payloads of `frames[from..]` onto `out`.
fn splice_payloads(frames: &Vec<Frame>, from: usize, out: Vec<u8>) -> (r: Vec<u8>)
    requires
        from <= frames@.len(),
    ensures
        r@ == out@ + concat_data(views(frames@).subrange(from as int, frames@.len() as int)),
{
    let mut out = out;
    let ghost init = out@;
    let ghost vs = views(frames@);
    let mut i: usize = from;
    assert(vs.subrange(from as int, from as int) =~= Seq::<FrameView>::empty());
    assert(out@ =~= init + concat_data(vs.subrange(from as int, i as int)));
    while i < frames.len()
        invariant
            from <= i <= frames@.len(),
            vs == views(frames@),
            out@ == init + concat_data(vs.subrange(from as int, i as int)),
        decreases frames@.len() - i,
    {
        out.extend_from_slice(frames[i].data.as_slice());
        proof {
            assert(vs.subrange(from as int, i + 1).drop_last() =~= vs.subrange(from as int, i as int));
            assert(vs[i as int] == frames@[i as int]@);
        }
        i = i + 1;
        assert(out@ =~= init + concat_data(vs.subrange(from as int, i as int)));
    }
    out
}

/// Why a sequence of frames does not make a message.
#[derive(Clone, Copy, Debug, PartialEq, Eq, Structural)]
pub enum MessageError {
    /// There is no frame at all.
    NoFrames,
    /// The first frame's type flag names no message of this kind.
    UnknownType,
    /// A request frame lacks its tenant id.
    MissingUserId,
    /// The payload is too short or holds text that is not UTF-8.
    Malformed,
}

/// The reply to a request.
#[derive(Clone, Debug)]
pub enum ResponseMessage {
    Error { code: u32, description: String },
    Data { data: Vec<u8> },
}

/// The abstract content of a reply.
pub ghost enum ResponseView {
    Error { code: u32, description: Seq<char> },
    Data { data: Seq<u8> },
}

impl View for ResponseMessage {
    type V = ResponseView;

    open spec fn view(&self) -> ResponseView {
        match self {
            ResponseMessage::Error { code, description } => ResponseView::Error {
                code: *code,
                description: description@,
            },
            ResponseMessage::Data { data } => ResponseView::Data { data: data@ },
        }
    }
}

/// The payload that a reply puts on the wire.
pub open spec fn response_payload(m: ResponseView) -> Seq<u8> {
    match m {
        ResponseView::Error { code, description } => be32(code) + encode_utf8(description),
        ResponseView::Data { data } => data,
    }
}

/// A reply that fits the 32-bit length and count fields.
pub open spec fn response_encodable(m: ResponseView) -> bool {
    response_payload(m).len() + 49 <= u32::MAX
}

/// The frames of a reply: data is cut into chunks, an error travels in one frame.
pub open spec fn spec_response_frames(m: ResponseView) -> Seq<FrameView> {
    match m {
        ResponseView::Error { .. } => seq![
            FrameView {
                user_id: None,
                n_remaining_frames: 1,
                msg_type_flag: FLAG_ERROR,
                data: response_payload(m),
            },
        ],
        ResponseView::Data { data } => chunked(None, FLAG_DATA, data),
    }
}

/// The reply that a sequence of frames holds.
pub open spec fn spec_response_from_frames(fs: Seq<FrameView>) -> Result<ResponseView, MessageError> {
    if fs.len() == 0 {
        Err(MessageError::NoFrames)
    } else if fs[0].msg_type_flag == FLAG_DATA {
        Ok(ResponseView::Data { data: concat_data(fs) })
    } else if fs[0].msg_type_flag == FLAG_ERROR {
        if fs[0].data.len() < 4 {
            Err(MessageError::Malformed)
        } else {
            let rest = fs[0].data.subrange(4, fs[0].data.len() as int);
            Ok(
                ResponseView::Error {
                    code: from_be32(fs[0].data),
                    description: if valid_utf8(rest) {
                        decode_utf8(rest)
                    } else {
                        "unknown error"@
                    },
                },
            )
        }
    } else {
        Err(MessageError::UnknownType)
    }
}

impl ResponseMessage {
    /// Whether the reply fits the 32-bit length and count fields.
    pub fn is_encodable(&self) -> (r: bool)
        ensures
            r == response_encodable(self@),
    {
        let len: usize = match self {
            ResponseMessage::Error { description, .. } => {
                let n = string_bytes(description).len();
                if n > usize::MAX - 4 {
                    return false;
                }
                4 + n
            },
            ResponseMessage::Data { data } => data.len(),
        };
        len <= 4294967295 - 49
    }

    /// Frames the reply for the wire.
    pub fn to_frames(self) -> (r: Vec<Frame>)
        requires
            response_encodable(self@),
        ensures
            views(r@) == spec_response_frames(self@),
            forall|i: int| 0 <= i < r@.len() ==> #[trigger] r@[i]@.wf(),
    {
        match self {
            ResponseMessage::Error { code, description } => {
                let mut buf: Vec<u8> = Vec::new();
                push_be32(&mut buf, code);
                let db = string_bytes(&description);
                buf.extend_from_slice(db.as_slice());
                assert(buf@ =~= be32(code) + encode_utf8(description@));
                let f = Frame::new(None, 1, FLAG_ERROR, buf);
                let frames = vec![f];
                assert(frames@[0] == f);
                assert(views(frames@) =~= spec_response_frames(self@));
                frames
            },
            ResponseMessage::Data { data } => {
                let frames = chunk_frames(None, FLAG_DATA, &data);
                proof {
                    lemma_chunked_wf(None, FLAG_DATA, data@);
                    assert forall|i: int| 0 <= i < frames@.len() implies #[trigger] frames@[i]@.wf() by {
                        assert(frames@[i]@ == views(frames@)[i]);
                    }
                }
                frames
            },
        }
    }

    /// Reassembles a reply from its frames.
    pub fn from_frames(frames: Vec<Frame>) -> (r: Result<ResponseMessage, MessageError>)
        ensures
            match r {
                Ok(m) => spec_response_from_frames(views(frames@)) == Ok::<ResponseView, MessageError>(m@),
                Err(e) => spec_response_from_frames(views(frames@)) == Err::<ResponseView, MessageError>(e),
            },
    {
        let ghost vs = views(frames@);
        if frames.len() == 0 {
            return Err(MessageError::NoFrames);
        }
        assert(vs[0] == frames@[0]@);
        let flag = frames[0].msg_type_flag;
        if flag == FLAG_DATA {
            let data = splice_payloads(&frames, 0, Vec::new());
            assert(vs.subrange(0, vs.len() as int) =~= vs);
            assert(data@ =~= concat_data(vs));
            Ok(ResponseMessage::Data { data })
        } else if flag == FLAG_ERROR {
            let d = frames[0].data.as_slice();
            if d.len() < 4 {
                return Err(MessageError::Malformed);
            }
            let code = crate::wire::read_be32(d, 0);
            assert(d@.subrange(0, 4)[0] == d@[0] && d@.subrange(0, 4)[1] == d@[1]
                && d@.subrange(0, 4)[2] == d@[2] && d@.subrange(0, 4)[3] == d@[3]);
            let description = match utf8_string(&d[4..d.len()]) {
                Some(s) => s,
                None => {
                    proof {
                        reveal_strlit("unknown error");
                    }
                    String::from_str("unknown error")
                },
            };
            Ok(ResponseMessage::Error { code, description })
        } else {
            Err(MessageError::UnknownType)
        }
    }
}

/// Decoding the frames of a reply gives the reply back.
pub proof fn lemma_response_round_trip(m: ResponseView)
    requires
        response_encodable(m),
    ensures
        spec_response_from_frames(spec_response_frames(m)) == Ok::<ResponseView, MessageError>(m),
{
    match m {
        ResponseView::Error { code, description } => {
            let p = response_payload(m);
            lemma_be32_round_trip(code);
            lemma_utf8_round_trip(description);
            assert(p.subrange(4, p.len() as int) =~= encode_utf8(description));
            assert(p[0] == be32(code)[0] && p[1] == be32(code)[1] && p[2] == be32(code)[2]
                && p[3] == be32(code)[3]);
        },
        ResponseView::Data { data } => {
            lemma_n_chunks_bounds(data.len());
            lemma_concat_chunks(None, FLAG_DATA, data);
        },
    }
}

/// A request from a client; every variant names the tenant it is for.
#[derive(Clone, Debug)]
pub enum RequestMessage {
    Get { user_id: String, id: Option<String>, path: Option<String> },
    Put { user_id: String, id: String, parent: Option<String>, data: Vec<u8> },
    SetBlob { user_id: String, id: String, data: Vec<u8> },
    Remove { user_id: String, id: String },
    List { user_id: String, blob_id: Option<String> },
}

/// The abstract content of a request.
pub ghost enum RequestView {
    Get { user_id: Seq<char>, id: Option<Seq<char>>, path: Option<Seq<char>> },
    Put { user_id: Seq<char>, id: Seq<char>, parent: Option<Seq<char>>, data: Seq<u8> },
    SetBlob { user_id: Seq<char>, id: Seq<char>, data: Seq<u8> },
    Remove { user_id: Seq<char>, id: Seq<char> },
    List { user_id: Seq<char>, blob_id: Option<Seq<char>> },
}

impl View for RequestMessage {
    type V = RequestView;

    open spec fn view(&self) -> RequestView {
        match self {
            RequestMessage::Get { user_id, id, path } => RequestView::Get {
                user_id: user_id@,
                id: opt_view(*id),
                path: opt_view(*path),
            },
            RequestMessage::Put { user_id, id, parent, data } => RequestView::Put {
                user_id: user_id@,
                id: id@,
                parent: opt_view(*parent),
                data: data@,
            },
            RequestMessage::SetBlob { user_id, id, data } => RequestView::SetBlob {
                user_id: user_id@,
                id: id@,
                data: data@,
            },
            RequestMessage::Remove { user_id, id } => RequestView::Remove {
                user_id: user_id@,
                id: id@,
            },
            RequestMessage::List { user_id, blob_id } => RequestView::List {
                user_id: user_id@,
                blob_id: opt_view(*blob_id),
            },
        }
    }
}

/// The 36-byte slot of an absent parent.
pub open spec fn zero_slot() -> Seq<u8> {
    Seq::new(36, |i: int| 0u8)
}

/// Whether every byte is zero.
pub open spec fn all_zero(s: Seq<u8>) -> bool {
    forall|i: int| 0 <= i < s.len() ==> s[i] == 0u8
}

impl RequestView {
    pub open spec fn user_id(self) -> Seq<char> {
        match self {
            RequestView::Get { user_id, .. } => user_id,
            RequestView::Put { user_id, .. } => user_id,
            RequestView::SetBlob { user_id, .. } => user_id,
            RequestView::Remove { user_id, .. } => user_id,
            RequestView::List { user_id, .. } => user_id,
        }
    }

    /// The type flag of the request's first frame.
    pub open spec fn flag(self) -> u8 {
        match self {
            RequestView::Get { id, .. } => if id is Some { FLAG_GET_ID } else { FLAG_GET_PATH },
            RequestView::Put { .. } => FLAG_PUT,
            RequestView::SetBlob { .. } => FLAG_SET,
            RequestView::Remove { .. } => FLAG_REMOVE,
            RequestView::List { .. } => FLAG_LIST,
        }
    }

    /// The bytes that the request's frames carry: the id or path of a lookup; for
    /// `Put` the target id, the parent id (or 36 zero bytes) and the body; for `Set`
    /// the target id and the body; for `List` the optional start id.
    pub open spec fn payload(self) -> Seq<u8> {
        match self {
            RequestView::Get { id, path, .. } => match id {
                Some(i) => encode_utf8(i),
                None => match path {
                    Some(p) => encode_utf8(p),
                    None => Seq::empty(),
                },
            },
            RequestView::Put { id, parent, data, .. } => encode_utf8(id) + match parent {
                Some(p) => encode_utf8(p),
                None => zero_slot(),
            } + data,
            RequestView::SetBlob { id, data, .. } => encode_utf8(id) + data,
            RequestView::Remove { id, .. } => encode_utf8(id),
            RequestView::List { blob_id, .. } => match blob_id {
                Some(b) => encode_utf8(b),
                None => Seq::empty(),
            },
        }
    }

    /// A request that can be framed: the tenant id and the fixed id slots take 36
    /// bytes each, a lookup names an id or a path, and the payload fits the 32-bit
    /// length field.
    pub open spec fn encodable(self) -> bool {
        &&& encode_utf8(self.user_id()).len() == USER_ID_LEN
        &&& self.payload().len() + 49 <= u32::MAX
        &&& match self {
            RequestView::Get { id, path, .. } => id is Some || path is Some,
            RequestView::Put { id, parent, .. } => encode_utf8(id).len() == USER_ID_LEN && (
            parent matches Some(p) ==> encode_utf8(p).len() == USER_ID_LEN),
            RequestView::SetBlob { id, .. } => encode_utf8(id).len() == USER_ID_LEN,
            _ => true,
        }
    }

    /// An encodable request whose framing is unambiguous: a lookup names exactly one
    /// of id and path, a parent id is not all zero bytes, and a listing's start id is
    /// not empty.
    pub open spec fn wf(self) -> bool {
        &&& self.encodable()
        &&& match self {
            RequestView::Get { id, path, .. } => id is Some != path is Some,
            RequestView::Put { parent, .. } => parent matches Some(p) ==> !all_zero(
                encode_utf8(p),
            ),
            RequestView::List { blob_id, .. } => blob_id matches Some(b) ==> b.len() > 0,
            _ => true,
        }
    }
}

/// The frames of a request: lookups, removals and listings travel in one frame, puts
/// and sets are cut into chunks.
pub open spec fn spec_request_frames(m: RequestView) -> Seq<FrameView> {
    match m {
        RequestView::Put { .. } => chunked(Some(m.user_id()), m.flag(), m.payload()),
        RequestView::SetBlob { .. } => chunked(Some(m.user_id()), m.flag(), m.payload()),
        _ => seq![
            FrameView {
                user_id: Some(m.user_id()),
                n_remaining_frames: 1,
                msg_type_flag: m.flag(),
                data: m.payload(),
            },
        ],
    }
}

/// The text that a payload slice encodes, if it is UTF-8.
pub open spec fn utf8_text(b: Seq<u8>) -> Option<Seq<char>> {
    if valid_utf8(b) {
        Some(decode_utf8(b))
    } else {
        None
    }
}

/// The request that a sequence of frames holds: the first frame's flag selects the
/// kind, and for puts and sets the payloads of the later frames extend the body.
pub open spec fn spec_request_from_frames(fs: Seq<FrameView>) -> Result<RequestView, MessageError> {
    if fs.len() == 0 {
        Err(MessageError::NoFrames)
    } else {
        let f0 = fs[0];
        let d = f0.data;
        let flag = f0.msg_type_flag;
        if !(flag == FLAG_GET_ID || flag == FLAG_GET_PATH || flag == FLAG_PUT || flag == FLAG_SET
            || flag == FLAG_REMOVE || flag == FLAG_LIST) {
            Err(MessageError::UnknownType)
        } else if f0.user_id is None {
            Err(MessageError::MissingUserId)
        } else {
            let uid = f0.user_id->Some_0;
            if flag == FLAG_PUT || flag == FLAG_SET {
                let slots: int = if flag == FLAG_PUT { 72 } else { 36 };
                if d.len() < slots {
                    Err(MessageError::Malformed)
                } else if utf8_text(d.subrange(0, 36)) is None {
                    Err(MessageError::Malformed)
                } else if flag == FLAG_PUT && !all_zero(d.subrange(36, 72)) && utf8_text(
                    d.subrange(36, 72),
                ) is None {
                    Err(MessageError::Malformed)
                } else {
                    let id = utf8_text(d.subrange(0, 36))->Some_0;
                    let body = d.subrange(slots, d.len() as int) + concat_data(
                        fs.subrange(1, fs.len() as int),
                    );
                    if flag == FLAG_PUT {
                        Ok(
                            RequestView::Put {
                                user_id: uid,
                                id,
                                parent: if all_zero(d.subrange(36, 72)) {
                                    None
                                } else {
                                    utf8_text(d.subrange(36, 72))
                                },
                                data: body,
                            },
                        )
                    } else {
                        Ok(RequestView::SetBlob { user_id: uid, id, data: body })
                    }
                }
            } else if flag == FLAG_LIST && d.len() == 0 {
                Ok(RequestView::List { user_id: uid, blob_id: None })
            } else if utf8_text(d) is None {
                Err(MessageError::Malformed)
            } else {
                let t = utf8_text(d)->Some_0;
                if flag == FLAG_GET_ID {
                    Ok(RequestView::Get { user_id: uid, id: Some(t), path: None })
                } else if flag == FLAG_GET_PATH {
                    Ok(RequestView::Get { user_id: uid, id: None, path: Some(t) })
                } else if flag == FLAG_REMOVE {
                    Ok(RequestView::Remove { user_id: uid, id: t })
                } else {
                    Ok(RequestView::List { user_id: uid, blob_id: Some(t) })
                }
            }
        }
    }
}

/// Whether every byte of the slice is zero.
fn is_zero_slot(b: &[u8]) -> (r: bool)
    ensures
        r == all_zero(b@),
{
    let mut i: usize = 0;
    while i < b.len()
        invariant
            0 <= i <= b@.len(),
            forall|j: int| 0 <= j < i ==> b@[j] == 0u8,
        decreases b@.len() - i,
    {
        if b[i] != 0u8 {
            return false;
        }
        i = i + 1;
    }
    true
}

impl RequestMessage {
    /// The tenant id of the request.
    pub fn user_id(&self) -> (r: Option<String>)
        ensures
            r matches Some(u) && u@ == self@.user_id(),
    {
        let u = match self {
            RequestMessage::Get { user_id, .. } => user_id.clone(),
            RequestMessage::Put { user_id, .. } => user_id.clone(),
            RequestMessage::SetBlob { user_id, .. } => user_id.clone(),
            RequestMessage::Remove { user_id, .. } => user_id.clone(),
            RequestMessage::List { user_id, .. } => user_id.clone(),
        };
        Some(u)
    }

    /// Whether the request can be framed: see `RequestView::encodable`.
    pub fn is_encodable(&self) -> (r: bool)
        ensures
            r == self@.encodable(),
    {
        let ghost m = self@;
        let uid = match self {
            RequestMessage::Get { user_id, .. } => user_id,
            RequestMessage::Put { user_id, .. } => user_id,
            RequestMessage::SetBlob { user_id, .. } => user_id,
            RequestMessage::Remove { user_id, .. } => user_id,
            RequestMessage::List { user_id, .. } => user_id,
        };
        if string_bytes(uid).len() != USER_ID_LEN {
            return false;
        }
        let limit: usize = 4294967295 - 49;
        match self {
            RequestMessage::Get { id, path, .. } => match (id, path) {
                (Some(i), _) => string_bytes(i).len() <= limit,
                (None, Some(p)) => string_bytes(p).len() <= limit,
                (None, None) => false,
            },
            RequestMessage::Put { id, parent, data, .. } => {
                if string_bytes(id).len() != USER_ID_LEN {
                    return false;
                }
                match parent {
                    Some(p) => {
                        if string_bytes(p).len() != USER_ID_LEN {
                            return false;
                        }
                    },
                    None => {},
                }
                data.len() <= limit - 72
            },
            RequestMessage::SetBlob { id, data, .. } => {
                if string_bytes(id).len() != USER_ID_LEN {
                    return false;
                }
                data.len() <= limit - 36
            },
            RequestMessage::Remove { id, .. } => string_bytes(id).len() <= limit,
            RequestMessage::List { blob_id, .. } => match blob_id {
                Some(b) => string_bytes(b).len() <= limit,
                None => true,
            },
        }
    }

    /// Frames the request for the wire.
    pub fn to_frames(self) -> (r: Vec<Frame>)
        requires
            self@.encodable(),
        ensures
            views(r@) == spec_request_frames(self@),
            forall|i: int| 0 <= i < r@.len() ==> #[trigger] r@[i]@.wf(),
    {
        let ghost m = self@;
        match self {
            RequestMessage::Put { user_id, id, parent, data } => {
                let mut buf = string_bytes(&id);
                match &parent {
                    Some(pid) => {
                        let pb = string_bytes(pid);
                        buf.extend_from_slice(pb.as_slice());
                    },
                    None => {
                        let mut k: usize = 0;
                        let ghost start = buf@;
                        while k < USER_ID_LEN
                            invariant
                                k <= USER_ID_LEN,
                                buf@ == start + Seq::new(k as nat, |i: int| 0u8),
                            decreases USER_ID_LEN - k,
                        {
                            buf.push(0u8);
                            k = k + 1;
                            assert(buf@ =~= start + Seq::new(k as nat, |i: int| 0u8));
                        }
                    },
                }
                buf.extend_from_slice(data.as_slice());
                assert(buf@ =~= m.payload());
                let frames = chunk_frames(Some(user_id), FLAG_PUT, &buf);
                proof {
                    lemma_chunked_wf(Some(m.user_id()), FLAG_PUT, buf@);
                    assert forall|i: int| 0 <= i < frames@.len() implies #[trigger] frames@[i]@.wf() by {
                        assert(frames@[i]@ == views(frames@)[i]);
                    }
                }
                frames
            },
            RequestMessage::SetBlob { user_id, id, data } => {
                let mut buf = string_bytes(&id);
                buf.extend_from_slice(data.as_slice());
                assert(buf@ =~= m.payload());
                let frames = chunk_frames(Some(user_id), FLAG_SET, &buf);
                proof {
                    lemma_chunked_wf(Some(m.user_id()), FLAG_SET, buf@);
                    assert forall|i: int| 0 <= i < frames@.len() implies #[trigger] frames@[i]@.wf() by {
                        assert(frames@[i]@ == views(frames@)[i]);
                    }
                }
                frames
            },
            RequestMessage::Get { user_id, id, path } => {
                let (flag, payload) = match (&id, &path) {
                    (Some(i), _) => (FLAG_GET_ID, string_bytes(i)),
                    (None, Some(p)) => (FLAG_GET_PATH, string_bytes(p)),
                    (None, None) => (FLAG_GET_PATH, Vec::new()),
                };
                single_frame(user_id, flag, payload)
            },
            RequestMessage::Remove { user_id, id } => {
                let payload = string_bytes(&id);
                single_frame(user_id, FLAG_REMOVE, payload)
            },
            RequestMessage::List { user_id, blob_id } => {
                let payload = match &blob_id {
                    Some(b) => string_bytes(b),
                    None => Vec::new(),
                };
                single_frame(user_id, FLAG_LIST, payload)
            },
        }
    }

    /// Reassembles a request from its frames.
    pub fn from_frames(frames: Vec<Frame>) -> (r: Result<RequestMessage, MessageError>)
        ensures
            match r {
                Ok(m) => spec_request_from_frames(views(frames@)) == Ok::<RequestView, MessageError>(m@),
                Err(e) => spec_request_from_frames(views(frames@)) == Err::<RequestView, MessageError>(e),
            },
    {
        let ghost vs = views(frames@);
        if frames.len() == 0 {
            return Err(MessageError::NoFrames);
        }
        assert(vs[0] == frames@[0]@);
        let flag = frames[0].msg_type_flag;
        if !(flag == FLAG_GET_ID || flag == FLAG_GET_PATH || flag == FLAG_PUT || flag == FLAG_SET
            || flag == FLAG_REMOVE || flag == FLAG_LIST) {
            return Err(MessageError::UnknownType);
        }
        let uid = match &frames[0].user_id {
            Some(u) => u.clone(),
            None => {
                return Err(MessageError::MissingUserId);
            },
        };
        let d = frames[0].data.as_slice();
        if flag == FLAG_PUT || flag == FLAG_SET {
            let slots: usize = if flag == FLAG_PUT { 72 } else { 36 };
            if d.len() < slots {
                return Err(MessageError::Malformed);
            }
            let id = match utf8_string(&d[0..36]) {
                Some(s) => s,
                None => {
                    return Err(MessageError::Malformed);
                },
            };
            let parent = if flag == FLAG_PUT && !is_zero_slot(&d[36..72]) {
                match utf8_string(&d[36..72]) {
                    Some(s) => Some(s),
                    None => {
                        return Err(MessageError::Malformed);
                    },
                }
            } else {
                None
            };
            let first = vstd::slice::slice_to_vec(&d[slots..d.len()]);
            let body = splice_payloads(&frames, 1, first);
            if flag == FLAG_PUT {
                Ok(RequestMessage::Put { user_id: uid, id, parent, data: body })
            } else {
                Ok(RequestMessage::SetBlob { user_id: uid, id, data: body })
            }
        } else if flag == FLAG_LIST && d.len() == 0 {
            Ok(RequestMessage::List { user_id: uid, blob_id: None })
        } else {
            let t = match utf8_string(d) {
                Some(s) => s,
                None => {
                    return Err(MessageError::Malformed);
                },
            };
            if flag == FLAG_GET_ID {
                Ok(RequestMessage::Get { user_id: uid, id: Some(t), path: None })
            } else if flag == FLAG_GET_PATH {
                Ok(RequestMessage::Get { user_id: uid, id: None, path: Some(t) })
            } else if flag == FLAG_REMOVE {
                Ok(RequestMessage::Remove { user_id: uid, id: t })
            } else {
                Ok(RequestMessage::List { user_id: uid, blob_id: Some(t) })
            }
        }
    }
}

/// A one-frame request.
fn single_frame(user_id: String, flag: u8, payload: Vec<u8>) -> (r: Vec<Frame>)
    requires
        crate::wire::spec_user_id_required(flag),
        encode_utf8(user_id@).len() == USER_ID_LEN,
        payload@.len() + 49 <= u32::MAX,
    ensures
        views(r@) == seq![
            FrameView {
                user_id: Some(user_id@),
                n_remaining_frames: 1,
                msg_type_flag: flag,
                data: payload@,
            },
        ],
        forall|i: int| 0 <= i < r@.len() ==> #[trigger] r@[i]@.wf(),
{
    let f = Frame::new(Some(user_id), 1, flag, payload);
    let frames = vec![f];
    assert(frames@[0] == f);
    assert(views(frames@) =~= seq![f@]);
    frames
}

/// Splicing a non-empty sequence of frames is the first payload followed by the
/// splice of the rest.
proof fn lemma_concat_first(fs: Seq<FrameView>)
    requires
        fs.len() > 0,
    ensures
        concat_data(fs) == fs[0].data + concat_data(fs.subrange(1, fs.len() as int)),
    decreases fs.len(),
{
    if fs.len() == 1 {
        assert(fs.drop_last() =~= Seq::<FrameView>::empty());
        assert(fs.subrange(1, 1) =~= Seq::<FrameView>::empty());
        assert(concat_data(Seq::<FrameView>::empty()) == Seq::<u8>::empty());
        assert(concat_data(fs) =~= fs[0].data);
    } else {
        lemma_concat_first(fs.drop_last());
        assert(fs.drop_last().subrange(1, fs.len() - 1) =~= fs.subrange(1, fs.len() as int).drop_last());
        assert(fs.subrange(1, fs.len() as int).last() == fs.last());
        assert(concat_data(fs) =~= fs[0].data + concat_data(fs.subrange(1, fs.len() as int)));
    }
}

/// Decoding the frames of a well-formed request gives the request back: tenant id,
/// ids, parent and body are all kept.
pub proof fn lemma_request_round_trip(m: RequestView)
    requires
        m.wf(),
    ensures
        spec_request_from_frames(spec_request_frames(m)) == Ok::<RequestView, MessageError>(m),
{
    let fs = spec_request_frames(m);
    let p = m.payload();
    match m {
        RequestView::Get { user_id, id, path } => {
            match id {
                Some(i) => lemma_utf8_round_trip(i),
                None => lemma_utf8_round_trip(path->Some_0),
            }
        },
        RequestView::Remove { id, .. } => {
            lemma_utf8_round_trip(id);
        },
        RequestView::List { blob_id, .. } => {
            match blob_id {
                Some(b) => {
                    lemma_utf8_round_trip(b);
                    assert(encode_utf8(b).len() > 0) by {
                        assert(decode_utf8(encode_utf8(b)) == b);
                        if encode_utf8(b).len() == 0 {
                            assert(encode_utf8(b) =~= Seq::<u8>::empty());
                        }
                    }
                },
                None => {},
            }
        },
        RequestView::Put { user_id, id, parent, data } => {
            lemma_n_chunks_bounds(p.len());
            lemma_concat_chunks(Some(user_id), FLAG_PUT, p);
            lemma_concat_first(fs);
            let d = fs[0].data;
            lemma_utf8_round_trip(id);
            assert(d.subrange(0, 36) =~= encode_utf8(id));
            match parent {
                Some(q) => {
                    lemma_utf8_round_trip(q);
                    assert(d.subrange(36, 72) =~= encode_utf8(q));
                },
                None => {
                    assert(d.subrange(36, 72) =~= zero_slot());
                },
            }
            assert(p =~= d + concat_data(fs.subrange(1, fs.len() as int)));
            let c = concat_data(fs.subrange(1, fs.len() as int));
            assert(d.len() >= 72);
            assert((d + c).subrange(72, (d + c).len() as int) =~= d.subrange(72, d.len() as int) + c);
            assert(p.subrange(72, p.len() as int) =~= data);
        },
        RequestView::SetBlob { user_id, id, data } => {
            lemma_n_chunks_bounds(p.len());
            lemma_concat_chunks(Some(user_id), FLAG_SET, p);
            lemma_concat_first(fs);
            let d = fs[0].data;
            lemma_utf8_round_trip(id);
            assert(d.subrange(0, 36) =~= encode_utf8(id));
            assert(p =~= d + concat_data(fs.subrange(1, fs.len() as int)));
            let c = concat_data(fs.subrange(1, fs.len() as int));
            assert(d.len() >= 36);
            assert((d + c).subrange(36, (d + c).len() as int) =~= d.subrange(36, d.len() as int) + c);
            assert(p.subrange(36, p.len() as int) =~= data);
        },
    }
}

/// The frame-count and chunk laws for whole messages: a data reply, a put or a set
/// travels in ⌈payload / 3968⌉ frames (one when the payload is empty), any other
/// message in one; in every case the last frame's remaining count is one, each earlier
/// count is one more than the next, and every frame but the last carries exactly 3968
/// payload bytes.
pub proof fn lemma_message_fragment_laws(req: RequestView, resp: ResponseView)
    requires
        req.encodable(),
        response_encodable(resp),
    ensures
        (req is Put || req is SetBlob) ==> spec_request_frames(req).len() == n_chunks(
            req.payload().len(),
        ),
        !(req is Put || req is SetBlob) ==> spec_request_frames(req).len() == 1,
        resp is Data ==> spec_response_frames(resp).len() == n_chunks(response_payload(resp).len()),
        resp is Error ==> spec_response_frames(resp).len() == 1,
        spec_request_frames(req).last().n_remaining_frames == 1,
        spec_response_frames(resp).last().n_remaining_frames == 1,
        forall|i: int|
            0 <= i < spec_request_frames(req).len() - 1 ==> #[trigger] spec_request_frames(
                req,
            )[i].data.len() == DATA_BYTES_PER_FRAME && spec_request_frames(req)[i].n_remaining_frames
                == spec_request_frames(req)[i + 1].n_remaining_frames + 1,
        forall|i: int|
            0 <= i < spec_response_frames(resp).len() - 1 ==> #[trigger] spec_response_frames(
                resp,
            )[i].data.len() == DATA_BYTES_PER_FRAME && spec_response_frames(
                resp,
            )[i].n_remaining_frames == spec_response_frames(resp)[i + 1].n_remaining_frames + 1,
{
    lemma_chunk_laws(Some(req.user_id()), req.flag(), req.payload());
    lemma_chunk_laws(None, FLAG_DATA, response_payload(resp));
}

} // verus!
