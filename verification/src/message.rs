//! Wire message codec: the framed binary messages exchanged after the
//! handshake, and the per-peer bitfield those messages update.
//!
//! A frame is a 4-byte big-endian length prefix covering one identifier byte
//! plus the payload; a keep-alive is a zero length with nothing after it.

use vstd::prelude::*;

use crate::bytes::{lemma_be_round_trip, push_be_u32, spec_be_of_u32, spec_u32_of_be};

verus! {

/// Identifier of a peer-wire message.  `KeepAlive` is the zero-length frame
/// and has no identifier byte of its own.
#[derive(Debug, Clone, Copy, PartialEq, Eq, Structural)]
pub enum MessageId {
    KeepAlive,
    Choke,
    Unchoke,
    Interested,
    NotInterested,
    Have,
    Bitfield,
    Request,
    Piece,
    Cancel,
    Port,
}

/// The identifier byte that a message carries on the wire.  Meaningful for
/// every identifier except `KeepAlive`, which has none.
pub open spec fn spec_message_code(id: MessageId) -> u8 {
    match id {
        MessageId::KeepAlive => 0,
        MessageId::Choke => 0,
        MessageId::Unchoke => 1,
        MessageId::Interested => 2,
        MessageId::NotInterested => 3,
        MessageId::Have => 4,
        MessageId::Bitfield => 5,
        MessageId::Request => 6,
        MessageId::Piece => 7,
        MessageId::Cancel => 8,
        MessageId::Port => 9,
    }
}

/// The identifier a byte decodes to: defined exactly for bytes 0 through 9.
pub open spec fn spec_decode_id(code: u8) -> Option<MessageId> {
    if code == 0 {
        Some(MessageId::Choke)
    } else if code == 1 {
        Some(MessageId::Unchoke)
    } else if code == 2 {
        Some(MessageId::Interested)
    } else if code == 3 {
        Some(MessageId::NotInterested)
    } else if code == 4 {
        Some(MessageId::Have)
    } else if code == 5 {
        Some(MessageId::Bitfield)
    } else if code == 6 {
        Some(MessageId::Request)
    } else if code == 7 {
        Some(MessageId::Piece)
    } else if code == 8 {
        Some(MessageId::Cancel)
    } else if code == 9 {
        Some(MessageId::Port)
    } else {
        None
    }
}

/// Decoding the identifier byte of a wire identifier gives it back.
pub proof fn lemma_id_code_round_trip(id: MessageId)
    requires
        id != MessageId::KeepAlive,
    ensures
        spec_decode_id(spec_message_code(id)) == Some(id),
{
}

/// Error returned when a frame's identifier byte names no message.
#[derive(Debug, Clone, Copy, PartialEq, Eq, Structural)]
pub enum FromMessageError {
    InvalidMessage,
}

/// A peer-wire message: an identifier and an opaque payload whose meaning
/// depends on the identifier.
#[derive(Debug, Clone)]
pub struct Message {
    pub id: MessageId,
    pub payload: Vec<u8>,
}

/// The full wire frame of a message: length prefix, identifier byte, payload.
/// A keep-alive is the zero length prefix alone.
pub open spec fn spec_frame(id: MessageId, payload: Seq<u8>) -> Seq<u8> {
    if id == MessageId::KeepAlive {
        spec_be_of_u32(0)
    } else {
        spec_be_of_u32((payload.len() + 1) as u32) + seq![spec_message_code(id)] + payload
    }
}

/// The message a whole frame parses to, or `None` where the frame is
/// malformed: too short, inconsistent with its length prefix, or carrying an
/// unknown identifier byte.
pub open spec fn spec_parse_frame(bytes: Seq<u8>) -> Option<(MessageId, Seq<u8>)> {
    if bytes.len() < 4 {
        None
    } else {
        let len = spec_u32_of_be(bytes[0], bytes[1], bytes[2], bytes[3]);
        if len == 0 {
            if bytes.len() == 4 {
                Some((MessageId::KeepAlive, Seq::empty()))
            } else {
                None
            }
        } else if bytes.len() == 4 + len {
            match spec_decode_id(bytes[4]) {
                Some(id) => Some((id, bytes.subrange(5, bytes.len() as int))),
                None => None,
            }
        } else {
            None
        }
    }
}

impl Message {
    /// Packs an identifier and payload into a message.
    pub fn new(id: MessageId, payload: Vec<u8>) -> (m: Message)
        ensures
            m.id == id,
            m.payload == payload,
    {
        Message { id, payload }
    }

    /// Decodes a frame already split into its identifier byte and payload
    /// bytes.  Fails exactly when the identifier byte is 10 or more; the
    /// payload is taken as given and never inspected.
    pub fn from_bytes(msg_type: &[u8], payload: &[u8]) -> (r: Result<Message, FromMessageError>)
        requires
            msg_type@.len() >= 1,
        ensures
            match r {
                Ok(m) => {
                    &&& msg_type@[0] <= 9
                    &&& m.id != MessageId::KeepAlive
                    &&& spec_decode_id(msg_type@[0]) == Some(m.id)
                    &&& m.payload@ == payload@
                },
                Err(e) => msg_type@[0] > 9 && e == FromMessageError::InvalidMessage,
            },
    {
        let code = msg_type[0];
        let id = if code == 0 {
            MessageId::Choke
        } else if code == 1 {
            MessageId::Unchoke
        } else if code == 2 {
            MessageId::Interested
        } else if code == 3 {
            MessageId::NotInterested
        } else if code == 4 {
            MessageId::Have
        } else if code == 5 {
            MessageId::Bitfield
        } else if code == 6 {
            MessageId::Request
        } else if code == 7 {
            MessageId::Piece
        } else if code == 8 {
            MessageId::Cancel
        } else if code == 9 {
            MessageId::Port
        } else {
            return Err(FromMessageError::InvalidMessage);
        };
        Ok(Message { id, payload: slice_to_vec(payload) })
    }

    /// Encodes the message as a whole wire frame.
    pub fn to_bytes(&self) -> (r: Vec<u8>)
        requires
            self.id == MessageId::KeepAlive ==> self.payload@.len() == 0,
            self.payload@.len() + 1 <= u32::MAX,
        ensures
            r@ == spec_frame(self.id, self.payload@),
    {
        let mut out: Vec<u8> = Vec::new();
        if matches!(self.id, MessageId::KeepAlive) {
            push_be_u32(&mut out, 0);
            return out;
        }
        let len: u32 = (self.payload.len() + 1) as u32;
        push_be_u32(&mut out, len);
        let code = message_code(self.id);
        out.push(code);
        let ghost prefix = out@;
        let mut i: usize = 0;
        while i < self.payload.len()
            invariant
                i <= self.payload@.len(),
                out@ =~= prefix + self.payload@.subrange(0, i as int),
            decreases self.payload@.len() - i,
        {
            out.push(self.payload[i]);
            i = i + 1;
        }
        assert(out@ =~= spec_frame(self.id, self.payload@));
        out
    }
}

/// The identifier byte of a message that has one.
pub fn message_code(id: MessageId) -> (code: u8)
    requires
        id != MessageId::KeepAlive,
    ensures
        code == spec_message_code(id),
{
    match id {
        MessageId::KeepAlive => 0,
        MessageId::Choke => 0,
        MessageId::Unchoke => 1,
        MessageId::Interested => 2,
        MessageId::NotInterested => 3,
        MessageId::Have => 4,
        MessageId::Bitfield => 5,
        MessageId::Request => 6,
        MessageId::Piece => 7,
        MessageId::Cancel => 8,
        MessageId::Port => 9,
    }
}

/// Copies a byte slice into an owned vector.
fn slice_to_vec(s: &[u8]) -> (r: Vec<u8>)
    ensures
        r@ == s@,
{
    let mut out: Vec<u8> = Vec::new();
    let mut i: usize = 0;
    while i < s.len()
        invariant
            i <= s@.len(),
            out@ =~= s@.subrange(0, i as int),
        decreases s@.len() - i,
    {
        out.push(s[i]);
        i = i + 1;
    }
    assert(out@ =~= s@);
    out
}

/// Parsing an encoded frame gives back the identifier and payload that were
/// encoded, for every identifier including the keep-alive.
pub proof fn lemma_frame_round_trip(id: MessageId, payload: Seq<u8>)
    requires
        id == MessageId::KeepAlive ==> payload.len() == 0,
        payload.len() + 1 <= u32::MAX,
    ensures
        spec_parse_frame(spec_frame(id, payload)) == Some((id, payload)),
{
    if id == MessageId::KeepAlive {
        let f = spec_frame(id, payload);
        lemma_be_round_trip(0);
        assert(f.len() == 4);
        assert(spec_u32_of_be(f[0], f[1], f[2], f[3]) == 0);
        assert(payload =~= Seq::<u8>::empty());
    } else {
        let f = spec_frame(id, payload);
        let len = (payload.len() + 1) as u32;
        lemma_be_round_trip(len);
        assert(f[0] == spec_be_of_u32(len)[0]);
        assert(f[1] == spec_be_of_u32(len)[1]);
        assert(f[2] == spec_be_of_u32(len)[2]);
        assert(f[3] == spec_be_of_u32(len)[3]);
        assert(spec_u32_of_be(f[0], f[1], f[2], f[3]) == len);
        assert(f[4] == spec_message_code(id));
        lemma_id_code_round_trip(id);
        assert(f.subrange(5, f.len() as int) =~= payload);
    }
}

/// Payload of a Request (or Cancel) message: three big-endian 32-bit
/// integers naming a piece, a byte offset inside it, and a length.
pub open spec fn spec_request_payload(index: u32, begin: u32, length: u32) -> Seq<u8> {
    spec_be_of_u32(index) + spec_be_of_u32(begin) + spec_be_of_u32(length)
}

/// Payload of a Request message: which block of which piece is wanted.
#[derive(Debug, Clone, Copy)]
pub struct Request {
    pub index: u32,
    pub begin: u32,
    pub length: u32,
}

impl Request {
    /// Packs a block request.
    pub fn new(index: u32, begin: u32, length: u32) -> (r: Request)
        ensures
            r.index == index,
            r.begin == begin,
            r.length == length,
    {
        Request { index, begin, length }
    }

    /// Encodes the request as the 12-byte payload of a Request message.
    pub fn to_bytes(&self) -> (r: Vec<u8>)
        ensures
            r@ == spec_request_payload(self.index, self.begin, self.length),
            r@.len() == 12,
    {
        let mut out: Vec<u8> = Vec::new();
        push_be_u32(&mut out, self.index);
        push_be_u32(&mut out, self.begin);
        push_be_u32(&mut out, self.length);
        assert(out@ =~= spec_request_payload(self.index, self.begin, self.length));
        out
    }
}

/// Record of which pieces a remote peer claims to possess: bit `i` of the
/// bitmap, most-significant bit of each byte first, stands for piece `i`.
#[derive(Debug, Clone)]
pub struct Bitfield {
    pub bitfield: Vec<u8>,
}

/// Whether bit `i` of the bitmap is set, counting the most significant bit
/// of each byte first.  False for any `i` past the bitmap's end.
pub open spec fn spec_has_bit(bits: Seq<u8>, i: int) -> bool {
    &&& 0 <= i
    &&& i / 8 < bits.len()
    &&& (bits[i / 8] >> (7 - i % 8) as u8) & 1 == 1
}

impl Bitfield {
    /// Wraps a raw bitmap.
    pub fn new(bitfield: Vec<u8>) -> (b: Bitfield)
        ensures
            b.bitfield == bitfield,
    {
        Bitfield { bitfield }
    }

    /// The number of bytes in the bitmap.
    pub fn byte_len(&self) -> (n: usize)
        ensures
            n == self.bitfield@.len(),
    {
        self.bitfield.len()
    }

    /// Whether the peer claims piece `index`.  False for any index past the
    /// end of the bitmap.
    pub fn has_piece(&self, index: u32) -> (r: bool)
        ensures
            r == spec_has_bit(self.bitfield@, index as int),
    {
        let byte_index = (index / 8) as usize;
        if byte_index >= self.bitfield.len() {
            return false;
        }
        let byte = self.bitfield[byte_index];
        let shift: u8 = (7 - (index % 8)) as u8;
        (byte >> shift) & 1 == 1
    }

    /// Records that the peer now claims piece `index`, as a Have message
    /// reports; every other bit keeps its value.
    pub fn set_piece(&mut self, index: u32)
        requires
            index as int / 8 < old(self).bitfield@.len(),
        ensures
            final(self).bitfield@.len() == old(self).bitfield@.len(),
            forall|j: int|
                spec_has_bit(final(self).bitfield@, j) == (j == index as int || spec_has_bit(
                    old(self).bitfield@,
                    j,
                )),
    {
        let byte_index = (index / 8) as usize;
        let shift: u8 = (7 - (index % 8)) as u8;
        let mask: u8 = 1u8 << shift;
        let updated = self.bitfield[byte_index] | mask;
        self.bitfield.set(byte_index, updated);
        proof {
            assert(forall|b: u8, s: u8, t: u8|
                s < 8 && t < 8 ==> ((b | (1u8 << s)) >> t) & 1 == (if s == t {
                    1u8
                } else {
                    (b >> t) & 1
                })) by (bit_vector);
            assert forall|j: int|
                spec_has_bit(self.bitfield@, j) == (j == index as int || spec_has_bit(
                    old(self).bitfield@,
                    j,
                )) by {
                if 0 <= j && j / 8 < self.bitfield@.len() {
                    if j / 8 == index as int / 8 {
                        assert(((7 - j % 8) as u8) < 8);
                        assert(shift < 8);
                        assert(j == index as int <==> ((7 - j % 8) as u8) == shift);
                    }
                }
            }
        }
    }
}

} // verus!
