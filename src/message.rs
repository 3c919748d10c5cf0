use crate::bencode::{bytes_range, decode_exact};
use crate::bytes::{be_u32, lemma_u32_be_round_trip, push_u32_be, read_u32_be, u32_be};
use crate::extension::{
    decode_metadata_message, handshake_accepted, metadata_accepted, ExtensionHandshake,
    ExtensionPayload, ExtensionType,
};
use crate::torrent::decoded_whole;
use vstd::prelude::*;

verus! {

/// The kind of a peer wire message.
#[derive(Debug, PartialEq, Eq, Structural, Clone, Copy)]
pub enum MessageTag {
    Choke,
    Unchoke,
    Interested,
    NotInterested,
    Have,
    Bitfield,
    Request,
    Piece,
    Cancel,
    Extension,
}

/// The byte that stands for each kind of message on the wire.
pub open spec fn tag_byte(t: MessageTag) -> u8 {
    match t {
        MessageTag::Choke => 0,
        MessageTag::Unchoke => 1,
        MessageTag::Interested => 2,
        MessageTag::NotInterested => 3,
        MessageTag::Have => 4,
        MessageTag::Bitfield => 5,
        MessageTag::Request => 6,
        MessageTag::Piece => 7,
        MessageTag::Cancel => 8,
        MessageTag::Extension => 20,
    }
}

/// A byte that stands for some kind of message.
pub open spec fn is_known_tag(b: u8) -> bool {
    b <= 8 || b == 20
}

impl MessageTag {
    /// The byte that stands for this kind of message.
    pub fn type_to_tag(&self) -> (r: u8)
        ensures
            r == tag_byte(*self),
    {
        match self {
            MessageTag::Choke => 0,
            MessageTag::Unchoke => 1,
            MessageTag::Interested => 2,
            MessageTag::NotInterested => 3,
            MessageTag::Have => 4,
            MessageTag::Bitfield => 5,
            MessageTag::Request => 6,
            MessageTag::Piece => 7,
            MessageTag::Cancel => 8,
            MessageTag::Extension => 20,
        }
    }

    /// The kind of message that a byte stands for, if any.
    pub fn tag_to_type(tag: &u8) -> (r: Option<MessageTag>)
        ensures
            match r {
                Some(t) => tag_byte(t) == *tag,
                None => !is_known_tag(*tag),
            },
    {
        match *tag {
            0 => Some(MessageTag::Choke),
            1 => Some(MessageTag::Unchoke),
            2 => Some(MessageTag::Interested),
            3 => Some(MessageTag::NotInterested),
            4 => Some(MessageTag::Have),
            5 => Some(MessageTag::Bitfield),
            6 => Some(MessageTag::Request),
            7 => Some(MessageTag::Piece),
            8 => Some(MessageTag::Cancel),
            20 => Some(MessageTag::Extension),
            _ => None,
        }
    }
}

/// Each kind of message has its own byte: reading back a kind's byte gives that kind.
pub proof fn lemma_tag_round_trip(t: MessageTag, u: MessageTag)
    ensures
        is_known_tag(tag_byte(t)),
        tag_byte(t) == tag_byte(u) ==> t == u,
{
}

/// One peer wire message.
#[derive(Debug, PartialEq, Eq)]
pub struct Message {
    pub message_tag: MessageTag,
    pub payload: Payload,
}

/// The body of a message.
#[derive(Debug, PartialEq, Eq)]
pub enum Payload {
    SimplePayload(Vec<u8>),
    /// Used for extension messages.
    ExtendedPayload(ExtensionPayload),
}

impl Payload {
    /// The bytes that follow the tag byte on the wire.
    pub open spec fn spec_bytes(&self) -> Seq<u8> {
        match self {
            Payload::SimplePayload(v) => v@,
            Payload::ExtendedPayload(p) => p.spec_bytes(),
        }
    }
}

/// Largest frame length accepted: the tag byte and the payload together.
pub const MAX: usize = 32768;

/// Why a frame could not be read or written.
#[derive(Debug, PartialEq, Eq, Structural, Clone, Copy)]
pub enum FrameError {
    /// The length field is above the largest accepted.
    FrameTooLarge,
    /// The length field is 0, so there is no tag byte.
    EmptyFrame,
    /// The tag byte stands for no kind of message.
    UnknownMessageTag,
    /// An extension message whose body cannot be read.
    MalformedExtension,
}

/// Turns a byte stream into messages and back. Holds the id under which the peer's
/// metadata messages arrive, as negotiated in the extension handshake (0 before that).
pub struct MessageFramer {
    pub metadata_extension_id: u8,
}

/// The length field at the start of a buffer.
pub open spec fn frame_len(s: Seq<u8>) -> int {
    be_u32(s[0], s[1], s[2], s[3])
}

/// The frame that carries `payload` under `tag`.
pub open spec fn frame_bytes(tag: u8, payload: Seq<u8>) -> Seq<u8> {
    u32_be((1 + payload.len()) as u32) + seq![tag] + payload
}

/// The body of an extension message can be read: a handshake under id 0, or a metadata
/// message under the negotiated id.
pub open spec fn extension_accepted(body: Seq<u8>, id: u8) -> bool {
    &&& body.len() >= 1
    &&& {
        ||| body[0] == 0 && (decoded_whole(body.subrange(1, body.len() as int)) matches Some(v)
            && handshake_accepted(v))
        ||| body[0] != 0 && body[0] == id && metadata_accepted(body, 1)
    }
}

impl Message {
    /// This message is what a frame with tag byte `tag` and body `body` says.
    pub open spec fn decoded_from(&self, tag: u8, body: Seq<u8>, id: u8) -> bool {
        &&& tag_byte(self.message_tag) == tag
        &&& if tag != 20 {
            self.payload matches Payload::SimplePayload(v) && v@ == body
        } else {
            self.payload matches Payload::ExtendedPayload(p) && body.len() >= 1 && p.extension_id
                == body[0] && match p.payload {
                ExtensionType::ExtensionHandshakeMessage(h) => body[0] == 0 && (decoded_whole(
                    body.subrange(1, body.len() as int),
                ) matches Some(v) && h.read_from(v)),
                ExtensionType::MetaDataMessage(m) => body[0] != 0 && body[0] == id && m.read_from(
                    body,
                    1,
                ),
            }
        }
    }
}

/// The length field of a frame written for `payload` is one more than the payload's
/// length, whatever follows the frame.
pub proof fn lemma_frame_length(tag: u8, payload: Seq<u8>, rest: Seq<u8>)
    requires
        payload.len() + 1 <= u32::MAX,
    ensures
        frame_len(frame_bytes(tag, payload) + rest) == 1 + payload.len(),
        (frame_bytes(tag, payload) + rest)[4] == tag,
        (frame_bytes(tag, payload) + rest).subrange(5, 5 + payload.len() as int) == payload,
        (frame_bytes(tag, payload) + rest).subrange(
            5 + payload.len() as int,
            (frame_bytes(tag, payload) + rest).len() as int,
        ) == rest,
{
    let x = (1 + payload.len()) as u32;
    lemma_u32_be_round_trip(x);
    let s = frame_bytes(tag, payload) + rest;
    assert(s.subrange(5, 5 + payload.len() as int) =~= payload);
    assert(s.subrange(5 + payload.len() as int, s.len() as int) =~= rest);
}

/// Any prefix of a written frame that is shorter than the whole frame and holds at least
/// the length field announces the whole frame's length, so the prefix is never mistaken
/// for a complete frame.
pub proof fn lemma_frame_prefix(tag: u8, payload: Seq<u8>, k: int)
    requires
        payload.len() + 1 <= u32::MAX,
        4 <= k < frame_bytes(tag, payload).len(),
    ensures
        frame_len(frame_bytes(tag, payload).subrange(0, k)) == 1 + payload.len(),
        frame_bytes(tag, payload).subrange(0, k).len() < 4 + frame_len(
            frame_bytes(tag, payload).subrange(0, k),
        ),
{
    let x = (1 + payload.len()) as u32;
    lemma_u32_be_round_trip(x);
    let f = frame_bytes(tag, payload);
    let p = f.subrange(0, k);
    assert(p[0] == f[0] && p[1] == f[1] && p[2] == f[2] && p[3] == f[3]);
}

impl MessageFramer {
    /// Takes one message off the front of `src`. Gives `None`, and leaves `src` as it was,
    /// while the buffer holds less than a whole frame; once it holds one, removes exactly
    /// that frame and gives its message.
    pub fn decode(&mut self, src: &mut Vec<u8>) -> (r: Result<Option<Message>, FrameError>)
        ensures
            *final(self) == *old(self),
            old(src)@.len() < 5 ==> (r matches Ok(None)) && final(src)@ == old(src)@,
            old(src)@.len() >= 5 ==> ({
                let s = old(src)@;
                let n = frame_len(s);
                &&& n > MAX ==> (r matches Err(FrameError::FrameTooLarge)) && final(src)@ == s
                &&& n == 0 ==> (r matches Err(FrameError::EmptyFrame)) && final(src)@ == s
                &&& 1 <= n <= MAX && s.len() < 4 + n ==> (r matches Ok(None)) && final(src)@ == s
                &&& 1 <= n <= MAX && s.len() >= 4 + n && !is_known_tag(s[4]) ==> (r matches Err(
                    FrameError::UnknownMessageTag,
                )) && final(src)@ == s
                &&& 1 <= n <= MAX && s.len() >= 4 + n && is_known_tag(s[4]) ==> {
                    let body = s.subrange(5, 4 + n);
                    &&& final(src)@ == s.subrange(4 + n, s.len() as int)
                    &&& match r {
                        Ok(Some(m)) => m.decoded_from(s[4], body, old(self).metadata_extension_id),
                        Ok(None) => false,
                        Err(e) => e == FrameError::MalformedExtension && s[4] == 20
                            && !extension_accepted(body, old(self).metadata_extension_id),
                    }
                    &&& (s[4] != 20 || extension_accepted(body, old(self).metadata_extension_id))
                        ==> r is Ok
                }
            }),
    {
        if src.len() < 5 {
            return Ok(None);
        }
        let length = read_u32_be(src, 0) as usize;
        if length > MAX {
            return Err(FrameError::FrameTooLarge);
        }
        if length == 0 {
            return Err(FrameError::EmptyFrame);
        }
        if src.len() < 4 + length {
            return Ok(None);
        }
        let tag_value = src[4];
        let message_tag = match MessageTag::tag_to_type(&tag_value) {
            Some(t) => t,
            None => {
                return Err(FrameError::UnknownMessageTag);
            },
        };
        let ghost s = src@;
        let data = bytes_range(src, 5, 4 + length);
        let rest = bytes_range(src, 4 + length, src.len());
        *src = rest;
        if tag_value != 20 {
            return Ok(Some(Message { message_tag, payload: Payload::SimplePayload(data) }));
        }
        if data.len() == 0 {
            return Err(FrameError::MalformedExtension);
        }
        let id = data[0];
        if id == 0 {
            let dict = bytes_range(&data, 1, data.len());
            assert(dict@ =~= data@.subrange(1, data@.len() as int));
            let value = match decode_exact(&dict) {
                Ok(v) => v,
                Err(_) => {
                    return Err(FrameError::MalformedExtension);
                },
            };
            match ExtensionHandshake::from_bencode(&value) {
                Some(h) => Ok(
                    Some(
                        Message {
                            message_tag,
                            payload: Payload::ExtendedPayload(
                                ExtensionPayload {
                                    extension_id: 0,
                                    payload: ExtensionType::ExtensionHandshakeMessage(h),
                                },
                            ),
                        },
                    ),
                ),
                None => Err(FrameError::MalformedExtension),
            }
        } else if id == self.metadata_extension_id {
            match decode_metadata_message(&data, 1) {
                Some(m) => Ok(
                    Some(
                        Message {
                            message_tag,
                            payload: Payload::ExtendedPayload(
                                ExtensionPayload {
                                    extension_id: id,
                                    payload: ExtensionType::MetaDataMessage(m),
                                },
                            ),
                        },
                    ),
                ),
                None => Err(FrameError::MalformedExtension),
            }
        } else {
            Err(FrameError::MalformedExtension)
        }
    }

    /// Appends the frame that carries `message`: its length, its tag byte, its payload.
    pub fn encode(&mut self, message: Message, dst: &mut Vec<u8>) -> (r: Result<(), FrameError>)
        ensures
            *final(self) == *old(self),
            message.payload.spec_bytes().len() + 1 > MAX ==> (r matches Err(
                FrameError::FrameTooLarge,
            )) && final(dst)@ == old(dst)@,
            message.payload.spec_bytes().len() + 1 <= MAX ==> r is Ok && final(dst)@ == old(dst)@
                + frame_bytes(tag_byte(message.message_tag), message.payload.spec_bytes()),
    {
        let payload = match &message.payload {
            Payload::SimplePayload(v) => bytes_range(v, 0, v.len()),
            Payload::ExtendedPayload(p) => p.to_vec(),
        };
        assert(payload@ =~= message.payload.spec_bytes());
        if payload.len() >= MAX {
            return Err(FrameError::FrameTooLarge);
        }
        push_u32_be(dst, payload.len() as u32 + 1);
        dst.push(message.message_tag.type_to_tag());
        let ghost head = dst@;
        let mut i: usize = 0;
        while i < payload.len()
            invariant
                i <= payload.len(),
                dst@ == head + payload@.subrange(0, i as int),
            decreases payload.len() - i,
        {
            dst.push(payload[i]);
            i = i + 1;
            assert(dst@ =~= head + payload@.subrange(0, i as int));
        }
        assert(payload@.subrange(0, i as int) =~= payload@);
        assert(dst@ =~= old(dst)@ + frame_bytes(tag_byte(message.message_tag), payload@));
        Ok(())
    }
}

/// The body of a `Request` (and a `Cancel`): which block of which piece.
#[derive(Debug, PartialEq, Eq, Structural, Clone, Copy)]
pub struct RequestPayload {
    /// The zero-based piece index.
    pub index: u32,
    /// The zero-based byte offset within the piece.
    pub begin: u32,
    /// The length of the block in bytes.
    pub length: u32,
}

impl RequestPayload {
    /// The twelve bytes of the body: index, offset, length, each big-endian.
    pub fn to_vec(&self) -> (r: Vec<u8>)
        ensures
            r@ == u32_be(self.index) + u32_be(self.begin) + u32_be(self.length),
    {
        let mut buf: Vec<u8> = Vec::new();
        push_u32_be(&mut buf, self.index);
        push_u32_be(&mut buf, self.begin);
        push_u32_be(&mut buf, self.length);
        assert(buf@ =~= u32_be(self.index) + u32_be(self.begin) + u32_be(self.length));
        buf
    }
}

/// The body of a `Piece` message: a block of a piece and where it belongs.
pub struct ReceivePayload {
    /// The zero-based piece index.
    pub index: u32,
    /// The zero-based byte offset within the piece.
    pub begin: u32,
    /// The data of the block.
    pub block: Vec<u8>,
}

impl ReceivePayload {
    /// Reads a `Piece` body; the block is moved out of `payload`, which keeps its first
    /// eight bytes.
    pub fn new(payload: &mut Vec<u8>) -> (r: Self)
        requires
            old(payload)@.len() >= 8,
        ensures
            r.index == be_u32(old(payload)@[0], old(payload)@[1], old(payload)@[2], old(payload)@[3]),
            r.begin == be_u32(old(payload)@[4], old(payload)@[5], old(payload)@[6], old(payload)@[7]),
            r.block@ == old(payload)@.subrange(8, old(payload)@.len() as int),
            final(payload)@ == old(payload)@.subrange(0, 8),
    {
        let index = read_u32_be(payload, 0);
        let begin = read_u32_be(payload, 4);
        Self { index, begin, block: payload.split_off(8) }
    }
}

} // verus!
