//! Client-side WebSocket framing (RFC 6455): one frame to bytes and back.

use crate::bytes::{
    be_bytes, be_value, lemma_be_bytes_len, lemma_be_value_of_bytes, lemma_pow256_values, push_be,
    read_be,
};
use crate::random::random_bytes;
use vstd::prelude::*;

verus! {

/// Why a buffer does not hold one whole frame.
#[derive(Debug, Clone, Copy, PartialEq, Eq, Structural)]
pub enum FrameError {
    /// Fewer than the two bytes every frame starts with.
    TooShort,
    /// The length byte announces an extended length that is cut off.
    ExtendedLengthIncomplete,
    /// The mask bit is set and the four key bytes are cut off.
    MaskingKeyIncomplete,
    /// Fewer payload bytes than the length field announces.
    PayloadIncomplete,
}

/// One WebSocket frame.
#[derive(Debug, Clone)]
pub struct WebSocketFrame {
    pub fin: bool,
    pub rsv1: bool,
    pub rsv2: bool,
    pub rsv3: bool,
    pub opcode: u8,
    pub masked: bool,
    pub payload_len: u64,
    pub masking_key: Option<[u8; 4]>,
    pub payload: Vec<u8>,
}

/// A frame as a mathematical value.
pub struct FrameView {
    pub fin: bool,
    pub rsv1: bool,
    pub rsv2: bool,
    pub rsv3: bool,
    pub opcode: u8,
    pub masked: bool,
    pub payload_len: u64,
    pub masking_key: Option<Seq<u8>>,
    pub payload: Seq<u8>,
}

impl FrameView {
    /// The key is there exactly when the frame is masked, it has four bytes,
    /// the payload has the announced length, and the opcode has four bits.
    pub open spec fn wf(self) -> bool {
        &&& self.masking_key is Some <==> self.masked
        &&& self.masking_key matches Some(k) ==> k.len() == 4
        &&& self.payload.len() == self.payload_len
        &&& self.opcode < 16
    }
}

impl View for WebSocketFrame {
    type V = FrameView;

    open spec fn view(&self) -> FrameView {
        FrameView {
            fin: self.fin,
            rsv1: self.rsv1,
            rsv2: self.rsv2,
            rsv3: self.rsv3,
            opcode: self.opcode,
            masked: self.masked,
            payload_len: self.payload_len,
            masking_key: match self.masking_key {
                Some(k) => Some(k@),
                None => None,
            },
            payload: self.payload@,
        }
    }
}

/// Byte `i` of `bytes` combined by XOR with byte `i mod 4` of `key`.
pub open spec fn apply_mask(bytes: Seq<u8>, key: Seq<u8>) -> Seq<u8> {
    Seq::new(bytes.len(), |i: int| bytes[i] ^ key[i % 4])
}

/// The seven length bits of the second header byte.
pub open spec fn len7(b: u8) -> u8 {
    b & 0x7F
}

/// The mask bit of the second header byte.
pub open spec fn mask_bit(b: u8) -> bool {
    b & 0x80 != 0
}

/// How many bytes the header takes before the masking key: the two fixed
/// bytes and the extended length, if any.
pub open spec fn length_end(data: Seq<u8>) -> int
    recommends
        data.len() >= 2,
{
    if len7(data[1]) == 126 {
        4
    } else if len7(data[1]) == 127 {
        10
    } else {
        2
    }
}

/// The payload length that the header announces.
pub open spec fn announced_len(data: Seq<u8>) -> nat
    recommends
        data.len() >= length_end(data),
{
    if len7(data[1]) == 126 {
        be_value(data.subrange(2, 4))
    } else if len7(data[1]) == 127 {
        be_value(data.subrange(2, 10))
    } else {
        len7(data[1]) as nat
    }
}

/// Where the payload starts.
pub open spec fn payload_start(data: Seq<u8>) -> int
    recommends
        data.len() >= 2,
{
    if mask_bit(data[1]) {
        length_end(data) + 4
    } else {
        length_end(data)
    }
}

/// What decoding `data` gives: the frame at its start, or the first reason,
/// in header order, why there is none. Bytes after the frame are ignored.
pub open spec fn decode(data: Seq<u8>) -> Result<FrameView, FrameError> {
    if data.len() < 2 {
        Err(FrameError::TooShort)
    } else if data.len() < length_end(data) {
        Err(FrameError::ExtendedLengthIncomplete)
    } else if data.len() < payload_start(data) {
        Err(FrameError::MaskingKeyIncomplete)
    } else if data.len() < payload_start(data) + announced_len(data) {
        Err(FrameError::PayloadIncomplete)
    } else {
        let start = payload_start(data);
        let raw = data.subrange(start, start + announced_len(data));
        let key = data.subrange(length_end(data), length_end(data) + 4);
        Ok(
            FrameView {
                fin: data[0] & 0x80 != 0,
                rsv1: data[0] & 0x40 != 0,
                rsv2: data[0] & 0x20 != 0,
                rsv3: data[0] & 0x10 != 0,
                opcode: data[0] & 0x0F,
                masked: mask_bit(data[1]),
                payload_len: announced_len(data) as u64,
                masking_key: if mask_bit(data[1]) {
                    Some(key)
                } else {
                    None
                },
                payload: if mask_bit(data[1]) {
                    apply_mask(raw, key)
                } else {
                    raw
                },
            },
        )
    }
}

/// The opcode of a text frame.
pub const OPCODE_TEXT: u8 = 1;

/// The opcode of a binary frame.
pub const OPCODE_BINARY: u8 = 2;

/// The opcode of a close frame.
pub const OPCODE_CLOSE: u8 = 8;

/// The opcode of a ping frame.
pub const OPCODE_PING: u8 = 9;

/// The opcode of a pong frame.
pub const OPCODE_PONG: u8 = 10;

/// The payload of every ping this benchmark sends.
pub open spec fn ping_message() -> Seq<u8> {
    seq![0x50u8, 0x49u8, 0x4Eu8, 0x47u8]
}

/// The first header byte of a client frame: final fragment, no reserved
/// bits, and the low four bits of `opcode`.
pub open spec fn first_byte(opcode: u8) -> u8 {
    0x80u8 | (opcode & 0x0F)
}

/// The length field of a masked frame with `len` payload bytes: the mask bit
/// with the length itself below 126, with 126 and two big-endian bytes below
/// 65536, with 127 and eight big-endian bytes from there on.
pub open spec fn length_field(len: nat) -> Seq<u8> {
    if len < 126 {
        seq![0x80u8 | (len as u8)]
    } else if len < 0x1_0000 {
        seq![0xFEu8] + be_bytes(len, 2)
    } else {
        seq![0xFFu8] + be_bytes(len, 8)
    }
}

/// The client frame that carries `payload` under `opcode`, masked with `key`.
pub open spec fn frame_bytes(opcode: u8, payload: Seq<u8>, key: Seq<u8>) -> Seq<u8> {
    seq![first_byte(opcode)] + length_field(payload.len()) + key + apply_mask(payload, key)
}

/// The frame that `decode` reads back from `frame_bytes(opcode, payload, key)`.
pub open spec fn client_frame(opcode: u8, payload: Seq<u8>, key: Seq<u8>) -> FrameView {
    FrameView {
        fin: true,
        rsv1: false,
        rsv2: false,
        rsv3: false,
        opcode: opcode & 0x0F,
        masked: true,
        payload_len: payload.len() as u64,
        masking_key: Some(key),
        payload,
    }
}

impl FrameError {
    /// A short description for reports.
    pub fn message(&self) -> (text: &'static str)
        ensures
            text@ == match *self {
                FrameError::TooShort => "Frame too short"@,
                FrameError::ExtendedLengthIncomplete => "Extended length incomplete"@,
                FrameError::MaskingKeyIncomplete => "Masking key incomplete"@,
                FrameError::PayloadIncomplete => "Payload incomplete"@,
            },
    {
        match self {
            FrameError::TooShort => "Frame too short",
            FrameError::ExtendedLengthIncomplete => "Extended length incomplete",
            FrameError::MaskingKeyIncomplete => "Masking key incomplete",
            FrameError::PayloadIncomplete => "Payload incomplete",
        }
    }
}

impl WebSocketFrame {
    /// Decodes the frame at the start of `data`.
    pub fn parse_frame(data: &[u8]) -> (result: Result<WebSocketFrame, FrameError>)
        ensures
            result matches Ok(frame) ==> decode(data@) == Ok::<FrameView, FrameError>(frame@)
                && frame@.wf(),
            result matches Err(e) ==> decode(data@) == Err::<FrameView, FrameError>(e),
    {
        if data.len() < 2 {
            return Err(FrameError::TooShort);
        }
        let byte1: u8 = data[0];
        let byte2: u8 = data[1];

        let fin = (byte1 & 0x80) != 0;
        let rsv1 = (byte1 & 0x40) != 0;
        let rsv2 = (byte1 & 0x20) != 0;
        let rsv3 = (byte1 & 0x10) != 0;
        let opcode: u8 = byte1 & 0x0F;
        let masked = (byte2 & 0x80) != 0;
        let short_len: u8 = byte2 & 0x7F;
        assert(byte1 & 0x0F < 16) by (bit_vector);

        let mut offset: usize = 2;
        let mut payload_len: u64 = short_len as u64;
        if short_len == 126 {
            if data.len() < 4 {
                return Err(FrameError::ExtendedLengthIncomplete);
            }
            payload_len = read_be(data, 2, 2);
            offset = 4;
        } else if short_len == 127 {
            if data.len() < 10 {
                return Err(FrameError::ExtendedLengthIncomplete);
            }
            payload_len = read_be(data, 2, 8);
            offset = 10;
        }
        assert(offset == length_end(data@));
        assert(payload_len == announced_len(data@));

        let mut masking_key: Option<[u8; 4]> = None;
        if masked {
            if data.len() - offset < 4 {
                return Err(FrameError::MaskingKeyIncomplete);
            }
            let key: [u8; 4] = [
                data[offset],
                data[offset + 1],
                data[offset + 2],
                data[offset + 3],
            ];
            assert(key@ =~= data@.subrange(offset as int, offset + 4));
            masking_key = Some(key);
            offset = offset + 4;
        }
        assert(offset == payload_start(data@));

        if payload_len > (data.len() - offset) as u64 {
            return Err(FrameError::PayloadIncomplete);
        }
        let count: usize = payload_len as usize;
        let ghost raw = data@.subrange(offset as int, offset + count);
        let mut payload: Vec<u8> = Vec::with_capacity(count);
        let mut i: usize = 0;
        while i < count
            invariant
                i <= count,
                offset + count <= data.len(),
                raw == data@.subrange(offset as int, offset + count),
                payload@.len() == i,
                forall|j: int|
                    0 <= j < i ==> payload@[j] == (match masking_key {
                        Some(k) => #[trigger] raw[j] ^ k@[j % 4],
                        None => raw[j],
                    }),
            decreases count - i,
        {
            let b: u8 = data[offset + i];
            match masking_key {
                Some(k) => {
                    payload.push(b ^ k[i % 4]);
                },
                None => {
                    payload.push(b);
                },
            }
            i = i + 1;
        }
        proof {
            match masking_key {
                Some(k) => {
                    assert(payload@ =~= apply_mask(raw, k@));
                },
                None => {
                    assert(payload@ =~= raw);
                },
            }
        }
        Ok(
            WebSocketFrame {
                fin,
                rsv1,
                rsv2,
                rsv3,
                opcode,
                masked,
                payload_len,
                masking_key,
                payload,
            },
        )
    }

    /// Builds the client frame for `payload` under `opcode` with the given
    /// masking key.
    pub fn encode_frame(opcode: u8, payload: &[u8], key: [u8; 4]) -> (frame: Vec<u8>)
        ensures
            frame@ == frame_bytes(opcode, payload@, key@),
    {
        let len: usize = payload.len();
        let mut frame: Vec<u8> = Vec::new();
        frame.push(0x80u8 | (opcode & 0x0F));
        if len < 126 {
            frame.push(0x80u8 | (len as u8));
        } else if len < 65536 {
            frame.push(0x80u8 | 126u8);
            push_be(&mut frame, len as u64, 2);
            assert(0x80u8 | 126u8 == 0xFEu8) by (bit_vector);
        } else {
            frame.push(0x80u8 | 127u8);
            push_be(&mut frame, len as u64, 8);
            assert(0x80u8 | 127u8 == 0xFFu8) by (bit_vector);
        }
        let ghost header = frame@;
        assert(header =~= seq![first_byte(opcode)] + length_field(len as nat));
        frame.push(key[0]);
        frame.push(key[1]);
        frame.push(key[2]);
        frame.push(key[3]);
        assert(frame@ =~= header + key@);
        let ghost base: int = header.len() as int + 4;
        let mut i: usize = 0;
        while i < len
            invariant
                i <= len,
                len == payload@.len(),
                base == header.len() + 4,
                frame@.len() == base + i,
                frame@.subrange(0, base) == header + key@,
                forall|j: int|
                    0 <= j < i ==> frame@[base + j] == #[trigger] payload@[j] ^ key@[j % 4],
            decreases len - i,
        {
            let ghost before = frame@;
            frame.push(payload[i] ^ key[i % 4]);
            assert(frame@.subrange(0, base) =~= before.subrange(0, base));
            i = i + 1;
        }
        assert(frame@ =~= frame@.subrange(0, base) + apply_mask(payload@, key@));
        frame
    }

    /// Builds the client frame for `payload` under `opcode` with a fresh
    /// random masking key.
    pub fn create_frame(opcode: u8, payload: &[u8]) -> (frame: Vec<u8>)
        ensures
            exists|key: Seq<u8>|
                key.len() == 4 && frame@ == #[trigger] frame_bytes(opcode, payload@, key),
            frame@.len() >= 6 + payload@.len(),
            frame@[0] == first_byte(opcode),
            mask_bit(frame@[1]),
            decode(frame@) matches Ok(f) && f.payload == payload@ && f.opcode == opcode & 0x0F
                && f.fin && f.masked,
    {
        let bytes = random_bytes(4);
        let key: [u8; 4] = [bytes[0], bytes[1], bytes[2], bytes[3]];
        let frame = Self::encode_frame(opcode, payload, key);
        proof {
            assert(payload@.len() == payload.len() <= usize::MAX <= u64::MAX);
            lemma_frame_bytes_shape(opcode, payload@, key@);
            lemma_decode_frame_bytes(opcode, payload@, key@);
        }
        frame
    }

    /// Builds the text frame that carries `payload`.
    pub fn create_text_frame(payload: &[u8]) -> (frame: Vec<u8>)
        ensures
            exists|key: Seq<u8>|
                key.len() == 4 && frame@ == #[trigger] frame_bytes(OPCODE_TEXT, payload@, key),
            frame@.len() >= 6 + payload@.len(),
            frame@[0] == 0x81,
            mask_bit(frame@[1]),
            decode(frame@) matches Ok(f) && f.payload == payload@ && f.opcode == OPCODE_TEXT
                && f.fin && f.masked,
    {
        assert(0x80u8 | (1u8 & 0x0F) == 0x81u8) by (bit_vector);
        assert(1u8 & 0x0F == 1u8) by (bit_vector);
        Self::create_frame(OPCODE_TEXT, payload)
    }
}

/// Builds the text frame that carries the ping message.
pub fn create_ping_frame() -> (frame: Vec<u8>)
    ensures
        exists|key: Seq<u8>|
            key.len() == 4 && frame@ == #[trigger] frame_bytes(OPCODE_TEXT, ping_message(), key),
        frame@.len() == 10,
        frame@[0] == 0x81,
        frame@[1] == 0x84,
        decode(frame@) matches Ok(f) && f.payload == ping_message() && f.opcode == OPCODE_TEXT,
{
    let message: [u8; 4] = [0x50, 0x49, 0x4E, 0x47];
    assert(message@ =~= ping_message());
    let frame = WebSocketFrame::create_text_frame(message.as_slice());
    proof {
        let key = choose|key: Seq<u8>|
            key.len() == 4 && frame@ == #[trigger] frame_bytes(OPCODE_TEXT, ping_message(), key);
        lemma_frame_bytes_shape(OPCODE_TEXT, ping_message(), key);
        assert(0x80u8 | 4u8 == 0x84u8) by (bit_vector);
    }
    frame
}

/// XOR with the same byte twice changes nothing.
pub proof fn lemma_xor_twice(a: u8, b: u8)
    ensures
        (a ^ b) ^ b == a,
{
    assert((a ^ b) ^ b == a) by (bit_vector);
}

/// Masking twice with one key gives the bytes back.
pub proof fn lemma_mask_twice(bytes: Seq<u8>, key: Seq<u8>)
    ensures
        apply_mask(apply_mask(bytes, key), key) == bytes,
{
    let once = apply_mask(bytes, key);
    assert forall|i: int| 0 <= i < bytes.len() implies (#[trigger] once[i]) ^ key[i % 4]
        == bytes[i] by {
        lemma_xor_twice(bytes[i], key[i % 4]);
    }
    assert(apply_mask(once, key) =~= bytes);
}

/// The layout of an encoded frame: its length, its first byte, the mask bit,
/// and where the length field ends.
pub proof fn lemma_frame_bytes_shape(opcode: u8, payload: Seq<u8>, key: Seq<u8>)
    requires
        key.len() == 4,
    ensures
        frame_bytes(opcode, payload, key).len() == length_field(payload.len()).len() + 5
            + payload.len(),
        length_field(payload.len()).len() == (if payload.len() < 126 {
            1int
        } else if payload.len() < 0x1_0000 {
            3int
        } else {
            9int
        }),
        frame_bytes(opcode, payload, key)[0] == first_byte(opcode),
        frame_bytes(opcode, payload, key)[1] == length_field(payload.len())[0],
        mask_bit(frame_bytes(opcode, payload, key)[1]),
        payload.len() < 126 ==> frame_bytes(opcode, payload, key)[1] == 0x80u8 | (
        payload.len() as u8),
{
    let len = payload.len();
    lemma_be_bytes_len(len, 2);
    lemma_be_bytes_len(len, 8);
    let low = len as u8;
    assert((0x80u8 | low) & 0x80 != 0) by (bit_vector);
    assert(0xFEu8 & 0x80 != 0) by (bit_vector);
    assert(0xFFu8 & 0x80 != 0) by (bit_vector);
}

/// Decoding an encoded frame gives the final, masked frame with the same
/// payload and the low four bits of the opcode, whatever the key.
pub proof fn lemma_decode_frame_bytes(opcode: u8, payload: Seq<u8>, key: Seq<u8>)
    requires
        key.len() == 4,
        payload.len() <= u64::MAX,
    ensures
        decode(frame_bytes(opcode, payload, key)) == Ok::<FrameView, FrameError>(
            client_frame(opcode, payload, key),
        ),
        client_frame(opcode, payload, key).wf(),
        opcode < 16 ==> client_frame(opcode, payload, key).opcode == opcode,
{
    let len = payload.len();
    let data = frame_bytes(opcode, payload, key);
    let field = length_field(len);
    let masked = apply_mask(payload, key);
    lemma_frame_bytes_shape(opcode, payload, key);
    lemma_pow256_values();

    let b0 = data[0];
    assert(b0 == 0x80u8 | (opcode & 0x0F));
    assert((0x80u8 | (opcode & 0x0F)) & 0x80 != 0) by (bit_vector);
    assert((0x80u8 | (opcode & 0x0F)) & 0x40 == 0) by (bit_vector);
    assert((0x80u8 | (opcode & 0x0F)) & 0x20 == 0) by (bit_vector);
    assert((0x80u8 | (opcode & 0x0F)) & 0x10 == 0) by (bit_vector);
    assert((0x80u8 | (opcode & 0x0F)) & 0x0F == opcode & 0x0F) by (bit_vector);
    assert(opcode & 0x0F < 16) by (bit_vector);
    assert(opcode < 16 ==> opcode & 0x0F == opcode) by (bit_vector);

    let low = len as u8;
    if len < 126 {
        assert(low < 126);
        assert((0x80u8 | low) & 0x7F == low) by (bit_vector)
            requires
                low < 126,
        ;
        assert(announced_len(data) == len);
    } else if len < 0x1_0000 {
        assert(0xFEu8 & 0x7F == 126) by (bit_vector);
        assert(data.subrange(2, 4) =~= be_bytes(len, 2));
        lemma_be_value_of_bytes(len, 2);
        assert(announced_len(data) == len);
    } else {
        assert(0xFFu8 & 0x7F == 127) by (bit_vector);
        assert(data.subrange(2, 10) =~= be_bytes(len, 8));
        lemma_be_value_of_bytes(len, 8);
        assert(announced_len(data) == len);
    }
    let end = length_end(data);
    assert(end == 1 + field.len());
    assert(data.subrange(end, end + 4) =~= key);
    assert(data.subrange(end + 4, end + 4 + len) =~= masked);
    lemma_mask_twice(payload, key);
}

} // verus!
