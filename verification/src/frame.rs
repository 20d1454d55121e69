use vstd::prelude::*;
use vstd::slice::{slice_subrange, slice_to_vec};
use vstd::utf8::encode_utf8;

use crate::msgpack::{
    array_len, array_len_bytes, bin_bytes, write_array_len, write_bin, write_i32, write_i64, write_i8,
    write_str, write_u64, read_array_len, read_bin_len, read_i64, read_str_len, read_u64,
    string_from_utf8, ReadFail, group_step_len, lemma_array_len_bytes, lemma_bin_bytes,
    lemma_i32_bytes, lemma_i64_bytes, lemma_i8_bytes, lemma_str_bytes, lemma_u64_value_bytes,
    settled, lemma_array_len_prefix, lemma_u64_value_prefix, lemma_i64_value_prefix,
    lemma_bin_value_prefix, lemma_str_value_prefix, bin_value, i32_bytes, i64_bytes, i64_value, i8_bytes,
    str_bytes, str_value, u64_value, u64_value_bytes, Step,
};

verus! {

broadcast use group_step_len;

/// Identifies a channel. `Local` channels were offered by this side,
/// `Remote` channels by the peer.
#[derive(Debug, Clone, Copy, Hash, PartialEq, Eq, Structural)]
pub enum StreamId {
    Local(u64),
    Remote(u64),
}

impl StreamId {
    /// The same channel as seen from the other end of the connection.
    pub open spec fn flipped(self) -> StreamId {
        match self {
            StreamId::Local(id) => StreamId::Remote(id),
            StreamId::Remote(id) => StreamId::Local(id),
        }
    }

    /// Seen from the other end and back, a channel is itself again.
    pub proof fn lemma_flip_twice(id: StreamId)
        ensures
            id.flipped().flipped() == id,
    {
    }

    /// The same channel as seen from the other end of the connection.
    pub fn flip(self) -> (r: Self)
        ensures
            r == self.flipped(),
    {
        match self {
            StreamId::Local(id) => StreamId::Remote(id),
            StreamId::Remote(id) => StreamId::Local(id),
        }
    }
}

/// A message of the multiplexing protocol.
#[derive(Debug)]
pub enum Frame {
    Offer { id: StreamId, name: String, window_size: Option<u64> },
    OfferAccepted { id: StreamId, rem_window_size: Option<u64> },
    Content { id: StreamId, payload: Vec<u8> },
    ContentProcessed { id: StreamId, processed: i64 },
    ContentWritingCompleted { id: StreamId },
    ChannelTerminated { id: StreamId },
}

/// What a frame says, with its text and bytes as sequences.
pub enum FrameModel {
    Offer { id: StreamId, name: Seq<char>, window_size: Option<u64> },
    OfferAccepted { id: StreamId, rem_window_size: Option<u64> },
    Content { id: StreamId, payload: Seq<u8> },
    ContentProcessed { id: StreamId, processed: i64 },
    ContentWritingCompleted { id: StreamId },
    ChannelTerminated { id: StreamId },
}

impl View for Frame {
    type V = FrameModel;

    open spec fn view(&self) -> FrameModel {
        match self {
            Frame::Offer { id, name, window_size } => FrameModel::Offer {
                id: *id,
                name: name@,
                window_size: *window_size,
            },
            Frame::OfferAccepted { id, rem_window_size } => FrameModel::OfferAccepted {
                id: *id,
                rem_window_size: *rem_window_size,
            },
            Frame::Content { id, payload } => FrameModel::Content { id: *id, payload: payload@ },
            Frame::ContentProcessed { id, processed } => FrameModel::ContentProcessed {
                id: *id,
                processed: *processed,
            },
            Frame::ContentWritingCompleted { id } => FrameModel::ContentWritingCompleted { id: *id },
            Frame::ChannelTerminated { id } => FrameModel::ChannelTerminated { id: *id },
        }
    }
}

impl FrameModel {
    /// The same frame with its channel named from the other end.
    pub open spec fn flipped(self) -> FrameModel {
        match self {
            FrameModel::Offer { id, name, window_size } => FrameModel::Offer {
                id: id.flipped(),
                name,
                window_size,
            },
            FrameModel::OfferAccepted { id, rem_window_size } => FrameModel::OfferAccepted {
                id: id.flipped(),
                rem_window_size,
            },
            FrameModel::Content { id, payload } => FrameModel::Content {
                id: id.flipped(),
                payload,
            },
            FrameModel::ContentProcessed { id, processed } => FrameModel::ContentProcessed {
                id: id.flipped(),
                processed,
            },
            FrameModel::ContentWritingCompleted { id } => FrameModel::ContentWritingCompleted {
                id: id.flipped(),
            },
            FrameModel::ChannelTerminated { id } => FrameModel::ChannelTerminated {
                id: id.flipped(),
            },
        }
    }
}

// ---------------------------------------------------------------------------
// The wire format of a frame
//
// A frame is a MessagePack array: the frame code, the channel number, the
// side that opened the channel (1 for the sender, -1 for the receiver), and
// for the frames that carry one, a binary payload. The payload of `Offer`,
// `OfferAccepted` and `ContentProcessed` is itself a MessagePack array.

/// The channel number on the wire.
pub open spec fn wire_number(id: StreamId) -> u64 {
    match id {
        StreamId::Local(n) => n,
        StreamId::Remote(n) => n,
    }
}

/// Who opened the channel, as the sender writes it: 1 for the sender
/// itself, -1 for its peer.
pub open spec fn wire_source(id: StreamId) -> i8 {
    match id {
        StreamId::Local(_) => 1i8,
        StreamId::Remote(_) => -1i8,
    }
}

/// The channel a received frame is about, named from the receiver's side:
/// the sender's 1 is the receiver's remote channel.
pub open spec fn received_id(number: u64, source: int) -> Option<StreamId> {
    if source == 1 {
        Some(StreamId::Remote(number))
    } else if source == -1 {
        Some(StreamId::Local(number))
    } else {
        None
    }
}

/// The frame code, channel number and source, behind an array header for
/// `len` elements.
pub open spec fn header_bytes(len: u32, code: i32, id: StreamId) -> Seq<u8> {
    array_len_bytes(len) + i32_bytes(code) + u64_value_bytes(wire_number(id)) + i8_bytes(
        wire_source(id),
    )
}

pub open spec fn offer_payload_bytes(name: Seq<char>, window_size: Option<u64>) -> Seq<u8> {
    match window_size {
        Some(w) => array_len_bytes(2) + str_bytes(name) + u64_value_bytes(w),
        None => array_len_bytes(1) + str_bytes(name),
    }
}

pub open spec fn accepted_payload_bytes(rem_window_size: Option<u64>) -> Seq<u8> {
    match rem_window_size {
        Some(w) => array_len_bytes(1) + u64_value_bytes(w),
        None => array_len_bytes(0),
    }
}

pub open spec fn processed_payload_bytes(processed: i64) -> Seq<u8> {
    array_len_bytes(1) + i64_bytes(processed)
}

/// The bytes that encode a frame.
pub open spec fn frame_bytes(f: FrameModel) -> Seq<u8> {
    match f {
        FrameModel::Offer { id, name, window_size } => header_bytes(4, 0, id) + bin_bytes(
            offer_payload_bytes(name, window_size),
        ),
        FrameModel::OfferAccepted { id, rem_window_size } => header_bytes(4, 1, id) + bin_bytes(
            accepted_payload_bytes(rem_window_size),
        ),
        FrameModel::Content { id, payload } => header_bytes(4, 2, id) + bin_bytes(payload),
        FrameModel::ContentProcessed { id, processed } => header_bytes(4, 5, id) + bin_bytes(
            processed_payload_bytes(processed),
        ),
        FrameModel::ContentWritingCompleted { id } => header_bytes(3, 3, id),
        FrameModel::ChannelTerminated { id } => header_bytes(3, 4, id),
    }
}

/// The leading part every frame has: the element count of the frame array,
/// the frame code, the channel number and the source, and how many bytes
/// they take. Each element is read only if the array has room for it, and
/// a code above 5 is refused before anything after it is read.
pub open spec fn frame_head(s: Seq<u8>) -> Step<(nat, u64, u64, int)> {
    match array_len(s) {
        Step::Short => Step::Short,
        Step::Bad => Step::Bad,
        Step::Done(count, n0) => if count < 1 {
            Step::Bad
        } else {
            let s1 = s.skip(n0 as int);
            match u64_value(s1) {
                Step::Short => Step::Short,
                Step::Bad => Step::Bad,
                Step::Done(code, n1) => if code > 5 || count < 2 {
                    Step::Bad
                } else {
                    let s2 = s1.skip(n1 as int);
                    match u64_value(s2) {
                        Step::Short => Step::Short,
                        Step::Bad => Step::Bad,
                        Step::Done(number, n2) => if count < 3 {
                            Step::Bad
                        } else {
                            let s3 = s2.skip(n2 as int);
                            match i64_value(s3) {
                                Step::Short => Step::Short,
                                Step::Bad => Step::Bad,
                                Step::Done(source, n3) => Step::Done(
                                    (count, code as u64, number as u64, source),
                                    n0 + n1 + n2 + n3,
                                ),
                            }
                        }
                    }
                }
            }
        },
    }
}

/// The fields in an `Offer` payload: the name, and the window size when the
/// array has a second element.
pub open spec fn offer_fields(p: Seq<u8>) -> Option<(Seq<char>, Option<u64>)> {
    match array_len(p) {
        Step::Done(count, n0) => if count < 1 {
            None
        } else {
            let p1 = p.skip(n0 as int);
            match str_value(p1) {
                Step::Done(name, n1) => if count >= 2 {
                    match u64_value(p1.skip(n1 as int)) {
                        Step::Done(w, _) => Some((name, Some(w as u64))),
                        _ => None,
                    }
                } else {
                    Some((name, None))
                },
                _ => None,
            }
        },
        _ => None,
    }
}

/// The field in an `OfferAccepted` payload: the window size when the array
/// has an element.
pub open spec fn accepted_fields(p: Seq<u8>) -> Option<Option<u64>> {
    match array_len(p) {
        Step::Done(count, n0) => if count >= 1 {
            match u64_value(p.skip(n0 as int)) {
                Step::Done(w, _) => Some(Some(w as u64)),
                _ => None,
            }
        } else {
            Some(None)
        },
        _ => None,
    }
}

/// The field in a `ContentProcessed` payload: a count that fits `u64`.
pub open spec fn processed_field(p: Seq<u8>) -> Option<u64> {
    match array_len(p) {
        Step::Done(count, n0) => if count >= 1 {
            match u64_value(p.skip(n0 as int)) {
                Step::Done(v, _) => Some(v as u64),
                _ => None,
            }
        } else {
            None
        },
        _ => None,
    }
}

/// The frame a payload-carrying code makes of a payload.
pub open spec fn payload_frame(code: u64, id: StreamId, p: Seq<u8>) -> Option<FrameModel> {
    if code == 0 {
        match offer_fields(p) {
            Some((name, window_size)) => Some(FrameModel::Offer { id, name, window_size }),
            None => None,
        }
    } else if code == 1 {
        match accepted_fields(p) {
            Some(rem_window_size) => Some(FrameModel::OfferAccepted { id, rem_window_size }),
            None => None,
        }
    } else if code == 2 {
        Some(FrameModel::Content { id, payload: p })
    } else {
        match processed_field(p) {
            Some(v) => Some(FrameModel::ContentProcessed { id, processed: v as i64 }),
            None => None,
        }
    }
}

/// Reading one frame from the front of `s`: the frame and the bytes it
/// took, or `Short` when the frame does not end within `s`, or `Bad` when
/// no continuation of `s` makes a frame. Only the elements the frame needs
/// are read; the source is checked once the payload has been read.
pub open spec fn frame_value(s: Seq<u8>) -> Step<FrameModel> {
    match frame_head(s) {
        Step::Short => Step::Short,
        Step::Bad => Step::Bad,
        Step::Done((count, code, number, source), h) => if code == 3 || code == 4 {
            match received_id(number, source) {
                Some(id) => Step::Done(
                    if code == 3 {
                        FrameModel::ContentWritingCompleted { id }
                    } else {
                        FrameModel::ChannelTerminated { id }
                    },
                    h,
                ),
                None => Step::Bad,
            }
        } else if count < 4 {
            Step::Bad
        } else {
            match bin_value(s.skip(h as int)) {
                Step::Short => Step::Short,
                Step::Bad => Step::Bad,
                Step::Done(p, n) => match received_id(number, source) {
                    Some(id) => match payload_frame(code, id, p) {
                        Some(f) => Step::Done(f, h + n),
                        None => Step::Bad,
                    },
                    None => Step::Bad,
                },
            }
        },
    }
}

// ---------------------------------------------------------------------------
// Encoding

/// Appends the array header, frame code, channel number and source.
fn write_header(buf: &mut Vec<u8>, len: u32, code: i32, id: StreamId)
    ensures
        final(buf)@ == old(buf)@ + header_bytes(len, code, id),
{
    let (number, source): (u64, i8) = match id {
        StreamId::Local(n) => (n, 1),
        StreamId::Remote(n) => (n, -1),
    };
    let ghost start = buf@;
    write_array_len(buf, len);
    write_i32(buf, code);
    write_u64(buf, number);
    write_i8(buf, source);
    assert(buf@ =~= start + header_bytes(len, code, id));
}

/// The bytes that go on the wire for `frame`.
pub fn encode_frame(frame: &Frame) -> (r: Vec<u8>)
    ensures
        r@ == frame_bytes(frame@),
{
    let mut buf: Vec<u8> = Vec::new();
    match frame {
        Frame::Offer { id, name, window_size } => {
            write_header(&mut buf, 4, 0, *id);
            let mut payload: Vec<u8> = Vec::new();
            match window_size {
                Some(w) => {
                    write_array_len(&mut payload, 2);
                    write_str(&mut payload, name.as_str());
                    write_u64(&mut payload, *w);
                },
                None => {
                    write_array_len(&mut payload, 1);
                    write_str(&mut payload, name.as_str());
                },
            }
            assert(payload@ =~= offer_payload_bytes(name@, *window_size));
            write_bin(&mut buf, payload.as_slice());
        },
        Frame::OfferAccepted { id, rem_window_size } => {
            write_header(&mut buf, 4, 1, *id);
            let mut payload: Vec<u8> = Vec::new();
            match rem_window_size {
                Some(w) => {
                    write_array_len(&mut payload, 1);
                    write_u64(&mut payload, *w);
                },
                None => {
                    write_array_len(&mut payload, 0);
                },
            }
            assert(payload@ =~= accepted_payload_bytes(*rem_window_size));
            write_bin(&mut buf, payload.as_slice());
        },
        Frame::Content { id, payload } => {
            write_header(&mut buf, 4, 2, *id);
            write_bin(&mut buf, payload.as_slice());
        },
        Frame::ContentProcessed { id, processed } => {
            write_header(&mut buf, 4, 5, *id);
            let mut payload: Vec<u8> = Vec::new();
            write_array_len(&mut payload, 1);
            write_i64(&mut payload, *processed);
            assert(payload@ =~= processed_payload_bytes(*processed));
            write_bin(&mut buf, payload.as_slice());
        },
        Frame::ContentWritingCompleted { id } => {
            write_header(&mut buf, 3, 3, *id);
        },
        Frame::ChannelTerminated { id } => {
            write_header(&mut buf, 3, 4, *id);
        },
    }
    assert(buf@ =~= frame_bytes(frame@));
    buf
}

// ---------------------------------------------------------------------------
// Decoding

/// The outcome of reading a frame from the front of a buffer.
#[derive(Debug)]
pub enum Decoded {
    /// A frame, and how many bytes of the buffer it took.
    Complete(Frame, usize),
    /// The buffer ends before the frame does: more bytes are needed.
    Incomplete,
    /// The buffer cannot start a frame, whatever follows.
    Malformed,
}

impl Decoded {
    pub open spec fn step(self) -> Step<FrameModel> {
        match self {
            Decoded::Complete(f, n) => Step::Done(f@, n as nat),
            Decoded::Incomplete => Step::Short,
            Decoded::Malformed => Step::Bad,
        }
    }
}

/// Reads a string value from the front of `p`.
fn read_string(p: &[u8]) -> (r: Result<(String, &[u8]), ReadFail>)
    ensures
        match r {
            Ok((text, rest)) => str_value(p@) matches Step::Done(t, n) && t == text@ && rest@
                == p@.skip(n as int),
            Err(ReadFail::Short) => str_value(p@) is Short,
            Err(ReadFail::Malformed) => str_value(p@) is Bad,
        },
{
    let (len, rest) = match read_str_len(p) {
        Ok(x) => x,
        Err(e) => return Err(e),
    };
    let len = len as usize;
    if rest.len() < len {
        return Err(ReadFail::Short);
    }
    let bytes = slice_to_vec(slice_subrange(rest, 0, len));
    let after = slice_subrange(rest, len, rest.len());
    proof {
        let n = p@.len() - rest@.len();
        assert(bytes@ =~= p@.subrange(n, n + len));
        assert(after@ =~= p@.skip(n + len));
    }
    match string_from_utf8(bytes) {
        Some(text) => Ok((text, after)),
        None => Err(ReadFail::Malformed),
    }
}

/// Reads a binary value from the front of `p`.
fn read_binary(p: &[u8]) -> (r: Result<(Vec<u8>, &[u8]), ReadFail>)
    ensures
        match r {
            Ok((data, rest)) => bin_value(p@) matches Step::Done(d, n) && d == data@ && rest@
                == p@.skip(n as int),
            Err(ReadFail::Short) => bin_value(p@) is Short,
            Err(ReadFail::Malformed) => bin_value(p@) is Bad,
        },
{
    let (len, rest) = match read_bin_len(p) {
        Ok(x) => x,
        Err(e) => return Err(e),
    };
    let len = len as usize;
    if rest.len() < len {
        return Err(ReadFail::Short);
    }
    let data = slice_to_vec(slice_subrange(rest, 0, len));
    let after = slice_subrange(rest, len, rest.len());
    proof {
        let n = p@.len() - rest@.len();
        assert(data@ =~= p@.subrange(n, n + len));
        assert(after@ =~= p@.skip(n + len));
    }
    Ok((data, after))
}

/// The name and window size in an `Offer` payload.
fn read_offer_fields(p: &[u8]) -> (r: Option<(String, Option<u64>)>)
    ensures
        match r {
            Some((name, w)) => offer_fields(p@) == Some((name@, w)),
            None => offer_fields(p@) is None,
        },
{
    let (count, rest) = match read_array_len(p) {
        Ok(x) => x,
        Err(_) => return None,
    };
    if count < 1 {
        return None;
    }
    let (name, rest) = match read_string(rest) {
        Ok(x) => x,
        Err(_) => return None,
    };
    if count >= 2 {
        match read_u64(rest) {
            Ok((w, _)) => Some((name, Some(w))),
            Err(_) => None,
        }
    } else {
        Some((name, None))
    }
}

/// The window size in an `OfferAccepted` payload.
fn read_accepted_fields(p: &[u8]) -> (r: Option<Option<u64>>)
    ensures
        r == accepted_fields(p@),
{
    let (count, rest) = match read_array_len(p) {
        Ok(x) => x,
        Err(_) => return None,
    };
    if count >= 1 {
        match read_u64(rest) {
            Ok((w, _)) => Some(Some(w)),
            Err(_) => None,
        }
    } else {
        Some(None)
    }
}

/// The count in a `ContentProcessed` payload.
fn read_processed_field(p: &[u8]) -> (r: Option<u64>)
    ensures
        r == processed_field(p@),
{
    let (count, rest) = match read_array_len(p) {
        Ok(x) => x,
        Err(_) => return None,
    };
    if count >= 1 {
        match read_u64(rest) {
            Ok((v, _)) => Some(v),
            Err(_) => None,
        }
    } else {
        None
    }
}

/// Reads the array header, frame code, channel number and source.
fn read_head(buf: &[u8]) -> (r: Result<(u32, u64, u64, i64, &[u8]), ReadFail>)
    ensures
        match r {
            Ok((count, code, number, source, rest)) => frame_head(buf@) matches Step::Done(
                (c, k, m, src),
                n,
            ) && c == count && k == code && m == number && src == source && rest@ == buf@.skip(
                n as int,
            ),
            Err(ReadFail::Short) => frame_head(buf@) is Short,
            Err(ReadFail::Malformed) => frame_head(buf@) is Bad,
        },
{
    let (count, rest0) = match read_array_len(buf) {
        Ok(x) => x,
        Err(e) => return Err(e),
    };
    if count < 1 {
        return Err(ReadFail::Malformed);
    }
    let (code, rest1) = match read_u64(rest0) {
        Ok(x) => x,
        Err(e) => return Err(e),
    };
    if code > 5 || count < 2 {
        return Err(ReadFail::Malformed);
    }
    let (number, rest2) = match read_u64(rest1) {
        Ok(x) => x,
        Err(e) => return Err(e),
    };
    if count < 3 {
        return Err(ReadFail::Malformed);
    }
    let (source, rest3) = match read_i64(rest2) {
        Ok(x) => x,
        Err(e) => return Err(e),
    };
    proof {
        let n = buf@.len() - rest3@.len();
        assert(rest3@ =~= buf@.skip(n));
    }
    Ok((count, code, number, source, rest3))
}

/// Reads one frame from the front of `buf`, naming its channel from this
/// side of the connection.
pub fn decode_frame(buf: &[u8]) -> (r: Decoded)
    ensures
        r.step() == frame_value(buf@),
        r matches Decoded::Complete(_, n) ==> n <= buf@.len(),
{
    let (count, code, number, source, rest) = match read_head(buf) {
        Ok(x) => x,
        Err(ReadFail::Short) => return Decoded::Incomplete,
        Err(ReadFail::Malformed) => return Decoded::Malformed,
    };
    let head = buf.len() - rest.len();
    let id = if source == 1 {
        Some(StreamId::Remote(number))
    } else if source == -1 {
        Some(StreamId::Local(number))
    } else {
        None
    };
    if code == 3 || code == 4 {
        return match id {
            Some(id) => if code == 3 {
                Decoded::Complete(Frame::ContentWritingCompleted { id }, head)
            } else {
                Decoded::Complete(Frame::ChannelTerminated { id }, head)
            },
            None => Decoded::Malformed,
        };
    }
    if count < 4 {
        return Decoded::Malformed;
    }
    let (payload, after) = match read_binary(rest) {
        Ok(x) => x,
        Err(ReadFail::Short) => return Decoded::Incomplete,
        Err(ReadFail::Malformed) => return Decoded::Malformed,
    };
    let used = buf.len() - after.len();
    let id = match id {
        Some(id) => id,
        None => return Decoded::Malformed,
    };
    if code == 0 {
        match read_offer_fields(payload.as_slice()) {
            Some((name, window_size)) => Decoded::Complete(
                Frame::Offer { id, name, window_size },
                used,
            ),
            None => Decoded::Malformed,
        }
    } else if code == 1 {
        match read_accepted_fields(payload.as_slice()) {
            Some(rem_window_size) => Decoded::Complete(
                Frame::OfferAccepted { id, rem_window_size },
                used,
            ),
            None => Decoded::Malformed,
        }
    } else if code == 2 {
        Decoded::Complete(Frame::Content { id, payload }, used)
    } else {
        match read_processed_field(payload.as_slice()) {
            Some(v) => Decoded::Complete(
                Frame::ContentProcessed { id, processed: v as i64 },
                used,
            ),
            None => Decoded::Malformed,
        }
    }
}

// ---------------------------------------------------------------------------
// Reading back what was written

/// The byte strings a frame carries fit the 32-bit length fields of the
/// format, and a `ContentProcessed` count is not negative (the reader takes
/// it as an unsigned number).
pub open spec fn fits_wire(f: FrameModel) -> bool {
    match f {
        FrameModel::Offer { name, window_size, .. } => encode_utf8(name).len() <= u32::MAX
            && offer_payload_bytes(name, window_size).len() <= u32::MAX,
        FrameModel::OfferAccepted { .. } => true,
        FrameModel::Content { payload, .. } => payload.len() <= u32::MAX,
        FrameModel::ContentProcessed { processed, .. } => processed >= 0,
        FrameModel::ContentWritingCompleted { .. } => true,
        FrameModel::ChannelTerminated { .. } => true,
    }
}

proof fn lemma_header(len: u32, code: i32, id: StreamId, tail: Seq<u8>)
    requires
        3 <= len <= 4,
        0 <= code <= 5,
    ensures
        frame_head(header_bytes(len, code, id) + tail) == Step::Done(
            (len as nat, code as u64, wire_number(id), wire_source(id) as int),
            header_bytes(len, code, id).len(),
        ),
        received_id(wire_number(id), wire_source(id) as int) == Some(id.flipped()),
{
    let a = array_len_bytes(len);
    let c = i32_bytes(code);
    let u = u64_value_bytes(wire_number(id));
    let i = i8_bytes(wire_source(id));
    let s = header_bytes(len, code, id) + tail;
    assert(s =~= a + (c + u + i + tail));
    lemma_array_len_bytes(len, c + u + i + tail);
    let s1 = s.skip(a.len() as int);
    assert(s1 =~= c + (u + i + tail));
    lemma_i32_bytes(code, u + i + tail);
    let s2 = s1.skip(c.len() as int);
    assert(s2 =~= u + (i + tail));
    lemma_u64_value_bytes(wire_number(id), i + tail);
    let s3 = s2.skip(u.len() as int);
    assert(s3 =~= i + tail);
    lemma_i8_bytes(wire_source(id), tail);
}

proof fn lemma_offer_payload(name: Seq<char>, window_size: Option<u64>)
    requires
        encode_utf8(name).len() <= u32::MAX,
    ensures
        offer_fields(offer_payload_bytes(name, window_size)) == Some((name, window_size)),
{
    let p = offer_payload_bytes(name, window_size);
    let t = str_bytes(name);
    match window_size {
        Some(w) => {
            let u = u64_value_bytes(w);
            assert(p =~= array_len_bytes(2) + (t + u));
            lemma_array_len_bytes(2, t + u);
            let p1 = p.skip(array_len_bytes(2).len() as int);
            assert(p1 =~= t + u);
            lemma_str_bytes(name, u);
            assert(p1.skip(t.len() as int) =~= u + Seq::empty());
            lemma_u64_value_bytes(w, Seq::empty());
        },
        None => {
            assert(p =~= array_len_bytes(1) + t);
            lemma_array_len_bytes(1, t);
            let p1 = p.skip(array_len_bytes(1).len() as int);
            assert(p1 =~= t + Seq::empty());
            lemma_str_bytes(name, Seq::empty());
        },
    }
}

proof fn lemma_accepted_payload(rem_window_size: Option<u64>)
    ensures
        accepted_fields(accepted_payload_bytes(rem_window_size)) == Some(rem_window_size),
{
    let p = accepted_payload_bytes(rem_window_size);
    match rem_window_size {
        Some(w) => {
            let u = u64_value_bytes(w);
            lemma_array_len_bytes(1, u);
            assert(p.skip(array_len_bytes(1).len() as int) =~= u + Seq::empty());
            lemma_u64_value_bytes(w, Seq::empty());
        },
        None => {
            assert(p =~= array_len_bytes(0) + Seq::empty());
            lemma_array_len_bytes(0, Seq::empty());
        },
    }
}

proof fn lemma_processed_payload(processed: i64)
    requires
        processed >= 0,
    ensures
        processed_field(processed_payload_bytes(processed)) == Some(processed as u64),
        (processed as u64) as i64 == processed,
{
    let p = processed_payload_bytes(processed);
    let v = i64_bytes(processed);
    lemma_array_len_bytes(1, v);
    assert(p.skip(array_len_bytes(1).len() as int) =~= v + Seq::empty());
    lemma_i64_bytes(processed, Seq::empty());
}

proof fn lemma_payload_frame_roundtrip(code: i32, id: StreamId, p: Seq<u8>, rest: Seq<u8>)
    requires
        code == 0 || code == 1 || code == 2 || code == 5,
        p.len() <= u32::MAX,
    ensures
        frame_value(header_bytes(4, code, id) + bin_bytes(p) + rest) == match payload_frame(
            code as u64,
            id.flipped(),
            p,
        ) {
            Some(f) => Step::Done(f, (header_bytes(4, code, id) + bin_bytes(p)).len()),
            None => Step::Bad,
        },
{
    let h = header_bytes(4, code, id);
    let b = bin_bytes(p);
    let s = h + b + rest;
    assert(s =~= h + (b + rest));
    lemma_header(4, code, id, b + rest);
    assert(s.skip(h.len() as int) =~= b + rest);
    lemma_bin_bytes(p, rest);
}

/// What one end writes, the other end reads back: the same frame, with its
/// channel named from the reader's side, taking exactly the bytes written
/// whatever follows them. This holds for every frame whose byte strings
/// fit the format's length fields and whose processed count is not
/// negative.
pub proof fn lemma_frame_roundtrip(f: FrameModel, rest: Seq<u8>)
    requires
        fits_wire(f),
    ensures
        frame_value(frame_bytes(f) + rest) == Step::Done(f.flipped(), frame_bytes(f).len()),
{
    match f {
        FrameModel::Offer { id, name, window_size } => {
            lemma_payload_frame_roundtrip(0, id, offer_payload_bytes(name, window_size), rest);
            lemma_offer_payload(name, window_size);
        },
        FrameModel::OfferAccepted { id, rem_window_size } => {
            lemma_payload_frame_roundtrip(1, id, accepted_payload_bytes(rem_window_size), rest);
            lemma_accepted_payload(rem_window_size);
        },
        FrameModel::Content { id, payload } => {
            lemma_payload_frame_roundtrip(2, id, payload, rest);
        },
        FrameModel::ContentProcessed { id, processed } => {
            lemma_payload_frame_roundtrip(5, id, processed_payload_bytes(processed), rest);
            lemma_processed_payload(processed);
        },
        FrameModel::ContentWritingCompleted { id } => {
            lemma_header(3, 3, id, rest);
        },
        FrameModel::ChannelTerminated { id } => {
            lemma_header(3, 4, id, rest);
        },
    }
}

// ---------------------------------------------------------------------------
// Reading from a stream

proof fn lemma_frame_head_prefix(s: Seq<u8>, t: Seq<u8>)
    ensures
        settled(frame_head(s), frame_head(s + t)),
{
    lemma_array_len_prefix(s, t);
    if let Step::Done(count, n0) = array_len(s) {
        let s1 = s.skip(n0 as int);
        assert((s + t).skip(n0 as int) =~= s1 + t);
        lemma_u64_value_prefix(s1, t);
        if let Step::Done(code, n1) = u64_value(s1) {
            let s2 = s1.skip(n1 as int);
            assert((s1 + t).skip(n1 as int) =~= s2 + t);
            lemma_u64_value_prefix(s2, t);
            if let Step::Done(number, n2) = u64_value(s2) {
                let s3 = s2.skip(n2 as int);
                assert((s2 + t).skip(n2 as int) =~= s3 + t);
                lemma_i64_value_prefix(s3, t);
            }
        }
    }
}

proof fn lemma_frame_head_len(s: Seq<u8>)
    ensures
        frame_head(s) matches Step::Done(_, n) ==> n <= s.len(),
{
}

/// Reading a frame from a stream need not wait for bytes beyond it: once
/// the bytes at hand make a frame, or show that no frame can start there,
/// whatever arrives after them changes nothing.
pub proof fn lemma_frame_value_prefix(s: Seq<u8>, t: Seq<u8>)
    ensures
        settled(frame_value(s), frame_value(s + t)),
{
    lemma_frame_head_prefix(s, t);
    lemma_frame_head_len(s);
    if let Step::Done((count, code, number, source), h) = frame_head(s) {
        assert((s + t).skip(h as int) =~= s.skip(h as int) + t);
        lemma_bin_value_prefix(s.skip(h as int), t);
    }
}

// ---------------------------------------------------------------------------
// Reading what any peer wrote
//
// A peer may write each integer of a frame in any MessagePack width: small
// numbers usually go out as one-byte fixints. The laws below take every
// field as any encoding of its value, not only the forms `encode_frame`
// writes.

/// The count in a `ContentProcessed` payload is read whatever width it was
/// written in: behind an array header with room for it, any MessagePack
/// encoding `e` of a count `n` gives `n`, whatever follows it.
pub proof fn lemma_processed_field_any_width(
    a: Seq<u8>,
    count: nat,
    e: Seq<u8>,
    n: u64,
    rest: Seq<u8>,
)
    requires
        array_len(a) == Step::Done(count, a.len()),
        count >= 1,
        u64_value(e) == Step::Done(n as int, e.len()),
    ensures
        processed_field(a + e + rest) == Some(n),
{
    let p = a + e + rest;
    assert(p =~= a + (e + rest));
    lemma_array_len_prefix(a, e + rest);
    assert(p.skip(a.len() as int) =~= e + rest);
    lemma_u64_value_prefix(e, rest);
}

/// An `Offer` payload of two or more elements gives its name and the
/// window it announces, whatever width the window was written in.
pub proof fn lemma_offer_fields_any_width(
    a: Seq<u8>,
    count: nat,
    t: Seq<u8>,
    name: Seq<char>,
    e: Seq<u8>,
    w: u64,
    rest: Seq<u8>,
)
    requires
        array_len(a) == Step::Done(count, a.len()),
        count >= 2,
        str_value(t) == Step::Done(name, t.len()),
        u64_value(e) == Step::Done(w as int, e.len()),
    ensures
        offer_fields(a + t + e + rest) == Some((name, Some(w))),
{
    let p = a + t + e + rest;
    assert(p =~= a + (t + (e + rest)));
    lemma_array_len_prefix(a, t + (e + rest));
    let p1 = p.skip(a.len() as int);
    assert(p1 =~= t + (e + rest));
    lemma_str_value_prefix(t, e + rest);
    assert(p1.skip(t.len() as int) =~= e + rest);
    lemma_u64_value_prefix(e, rest);
}

/// An `Offer` payload of one element gives its name and no window.
pub proof fn lemma_offer_fields_name_only(a: Seq<u8>, t: Seq<u8>, name: Seq<char>, rest: Seq<u8>)
    requires
        array_len(a) == Step::Done(1nat, a.len()),
        str_value(t) == Step::Done(name, t.len()),
    ensures
        offer_fields(a + t + rest) == Some((name, None::<u64>)),
{
    let p = a + t + rest;
    assert(p =~= a + (t + rest));
    lemma_array_len_prefix(a, t + rest);
    assert(p.skip(a.len() as int) =~= t + rest);
    lemma_str_value_prefix(t, rest);
}

/// An `OfferAccepted` payload of one or more elements gives the window it
/// announces, whatever width it was written in; an empty one gives none.
pub proof fn lemma_accepted_fields_any_width(
    a: Seq<u8>,
    count: nat,
    e: Seq<u8>,
    w: u64,
    rest: Seq<u8>,
)
    requires
        array_len(a) == Step::Done(count, a.len()),
        count >= 1 ==> u64_value(e) == Step::Done(w as int, e.len()),
    ensures
        count >= 1 ==> accepted_fields(a + e + rest) == Some(Some(w)),
        count == 0 ==> accepted_fields(a + e + rest) == Some(None::<u64>),
{
    let p = a + e + rest;
    assert(p =~= a + (e + rest));
    lemma_array_len_prefix(a, e + rest);
    assert(p.skip(a.len() as int) =~= e + rest);
    lemma_u64_value_prefix(e, rest);
}

/// A frame's leading part is read whatever widths the writer chose: an
/// array header for three or more elements, then the frame code, the
/// channel number and the source, each a MessagePack integer of any width.
pub proof fn lemma_frame_head_any_width(
    a: Seq<u8>,
    count: nat,
    c: Seq<u8>,
    code: u64,
    m: Seq<u8>,
    number: u64,
    o: Seq<u8>,
    source: int,
    rest: Seq<u8>,
)
    requires
        array_len(a) == Step::Done(count, a.len()),
        count >= 3,
        u64_value(c) == Step::Done(code as int, c.len()),
        code <= 5,
        u64_value(m) == Step::Done(number as int, m.len()),
        i64_value(o) == Step::Done(source, o.len()),
    ensures
        frame_head(a + c + m + o + rest) == Step::Done(
            (count, code, number, source),
            (a + c + m + o).len(),
        ),
{
    let s = a + c + m + o + rest;
    assert(s =~= a + (c + m + o + rest));
    lemma_array_len_prefix(a, c + m + o + rest);
    let s1 = s.skip(a.len() as int);
    assert(s1 =~= c + (m + o + rest));
    lemma_u64_value_prefix(c, m + o + rest);
    let s2 = s1.skip(c.len() as int);
    assert(s2 =~= m + (o + rest));
    lemma_u64_value_prefix(m, o + rest);
    let s3 = s2.skip(m.len() as int);
    assert(s3 =~= o + rest);
    lemma_i64_value_prefix(o, rest);
}

/// The channel a received frame names, from the receiver's side: the
/// sender's own channel (source 1) is the receiver's remote one, the
/// sender's remote channel (source -1) the receiver's own.
pub open spec fn channel_from(number: u64, source: int) -> StreamId {
    if source == 1 {
        StreamId::Remote(number)
    } else {
        StreamId::Local(number)
    }
}

/// A frame without payload (code 3 or 4) is read from its leading part
/// alone, as the end of writing or the end of the channel it names.
pub proof fn lemma_read_closing_frame(
    h: Seq<u8>,
    count: nat,
    code: u64,
    number: u64,
    source: int,
    rest: Seq<u8>,
)
    requires
        frame_head(h) == Step::Done((count, code, number, source), h.len()),
        code == 3 || code == 4,
        source == 1 || source == -1,
    ensures
        frame_value(h + rest) == Step::Done(
            if code == 3 {
                FrameModel::ContentWritingCompleted { id: channel_from(number, source) }
            } else {
                FrameModel::ChannelTerminated { id: channel_from(number, source) }
            },
            h.len(),
        ),
{
    lemma_frame_head_prefix(h, rest);
}

/// A `Content` frame carries its payload bytes as they are.
pub proof fn lemma_read_content_frame(
    h: Seq<u8>,
    count: nat,
    number: u64,
    source: int,
    b: Seq<u8>,
    p: Seq<u8>,
    rest: Seq<u8>,
)
    requires
        frame_head(h) == Step::Done((count, 2u64, number, source), h.len()),
        count >= 4,
        source == 1 || source == -1,
        bin_value(b) == Step::Done(p, b.len()),
    ensures
        frame_value(h + b + rest) == Step::Done(
            FrameModel::Content { id: channel_from(number, source), payload: p },
            h.len() + b.len(),
        ),
{
    lemma_read_payload(h, count, 2u64, number, source, b, p, rest);
}

/// An `Offer` frame gives the name and window its payload holds.
pub proof fn lemma_read_offer_frame(
    h: Seq<u8>,
    count: nat,
    number: u64,
    source: int,
    b: Seq<u8>,
    p: Seq<u8>,
    name: Seq<char>,
    window_size: Option<u64>,
    rest: Seq<u8>,
)
    requires
        frame_head(h) == Step::Done((count, 0u64, number, source), h.len()),
        count >= 4,
        source == 1 || source == -1,
        bin_value(b) == Step::Done(p, b.len()),
        offer_fields(p) == Some((name, window_size)),
    ensures
        frame_value(h + b + rest) == Step::Done(
            FrameModel::Offer { id: channel_from(number, source), name, window_size },
            h.len() + b.len(),
        ),
{
    lemma_read_payload(h, count, 0u64, number, source, b, p, rest);
}

/// An `OfferAccepted` frame gives the window its payload holds.
pub proof fn lemma_read_accepted_frame(
    h: Seq<u8>,
    count: nat,
    number: u64,
    source: int,
    b: Seq<u8>,
    p: Seq<u8>,
    rem_window_size: Option<u64>,
    rest: Seq<u8>,
)
    requires
        frame_head(h) == Step::Done((count, 1u64, number, source), h.len()),
        count >= 4,
        source == 1 || source == -1,
        bin_value(b) == Step::Done(p, b.len()),
        accepted_fields(p) == Some(rem_window_size),
    ensures
        frame_value(h + b + rest) == Step::Done(
            FrameModel::OfferAccepted { id: channel_from(number, source), rem_window_size },
            h.len() + b.len(),
        ),
{
    lemma_read_payload(h, count, 1u64, number, source, b, p, rest);
}

/// A `ContentProcessed` frame gives the count its payload holds.
pub proof fn lemma_read_processed_frame(
    h: Seq<u8>,
    count: nat,
    number: u64,
    source: int,
    b: Seq<u8>,
    p: Seq<u8>,
    n: u64,
    rest: Seq<u8>,
)
    requires
        frame_head(h) == Step::Done((count, 5u64, number, source), h.len()),
        count >= 4,
        source == 1 || source == -1,
        bin_value(b) == Step::Done(p, b.len()),
        processed_field(p) == Some(n),
    ensures
        frame_value(h + b + rest) == Step::Done(
            FrameModel::ContentProcessed { id: channel_from(number, source), processed: n as i64 },
            h.len() + b.len(),
        ),
{
    lemma_read_payload(h, count, 5u64, number, source, b, p, rest);
}

proof fn lemma_read_payload(
    h: Seq<u8>,
    count: nat,
    code: u64,
    number: u64,
    source: int,
    b: Seq<u8>,
    p: Seq<u8>,
    rest: Seq<u8>,
)
    requires
        frame_head(h) == Step::Done((count, code, number, source), h.len()),
        bin_value(b) == Step::Done(p, b.len()),
    ensures
        frame_head(h + b + rest) == Step::Done((count, code, number, source), h.len()),
        bin_value((h + b + rest).skip(h.len() as int)) == Step::Done(p, b.len()),
        received_id(number, source) == (if source == 1 || source == -1 {
            Some(channel_from(number, source))
        } else {
            None
        }),
{
    let s = h + b + rest;
    assert(s =~= h + (b + rest));
    lemma_frame_head_prefix(h, b + rest);
    assert(s.skip(h.len() as int) =~= b + rest);
    lemma_bin_value_prefix(b, rest);
}

} // verus!
