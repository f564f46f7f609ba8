//! WebSocket frames (RFC 6455, section 5.2): encoding of client frames and
//! decoding of frames from a receive buffer.
use vstd::prelude::*;
use crate::external::{lossy_text, unix_time_nanos, utf8_lossy};
use vstd::string::StringSliceAdditionalSpecFns;

verus! {

/// The frame opcodes this codec knows.
#[derive(Debug, Clone, Copy, PartialEq, Eq, Structural)]
pub enum Opcode {
    Continuation,
    Text,
    Binary,
    Close,
    Ping,
    Pong,
}

/// The four-bit wire value of an opcode.
pub open spec fn opcode_value(op: Opcode) -> u8 {
    match op {
        Opcode::Continuation => 0x0,
        Opcode::Text => 0x1,
        Opcode::Binary => 0x2,
        Opcode::Close => 0x8,
        Opcode::Ping => 0x9,
        Opcode::Pong => 0xA,
    }
}

/// The opcode whose wire value is `b`, if any.
pub open spec fn opcode_of_value(b: u8) -> Option<Opcode> {
    if b == 0x0 {
        Some(Opcode::Continuation)
    } else if b == 0x1 {
        Some(Opcode::Text)
    } else if b == 0x2 {
        Some(Opcode::Binary)
    } else if b == 0x8 {
        Some(Opcode::Close)
    } else if b == 0x9 {
        Some(Opcode::Ping)
    } else if b == 0xA {
        Some(Opcode::Pong)
    } else {
        None
    }
}

impl Opcode {
    pub fn from_u8(byte: u8) -> (r: Option<Opcode>)
        ensures
            r == opcode_of_value(byte),
    {
        match byte {
            0x0 => Some(Opcode::Continuation),
            0x1 => Some(Opcode::Text),
            0x2 => Some(Opcode::Binary),
            0x8 => Some(Opcode::Close),
            0x9 => Some(Opcode::Ping),
            0xA => Some(Opcode::Pong),
            _ => None,
        }
    }

    pub fn as_u8(self) -> (r: u8)
        ensures
            r == opcode_value(self),
    {
        match self {
            Opcode::Continuation => 0x0,
            Opcode::Text => 0x1,
            Opcode::Binary => 0x2,
            Opcode::Close => 0x8,
            Opcode::Ping => 0x9,
            Opcode::Pong => 0xA,
        }
    }
}


/// A decoded message. Each message owns its payload.
#[derive(Debug)]
pub enum Message {
    Text(String),
    Binary(Vec<u8>),
    Close(Option<(u16, String)>),
    Ping(Vec<u8>),
    Pong(Vec<u8>),
}

/// What the fixed part of a frame says: its opcode, the payload length, and
/// the length of the header including the masking key, if there is one.
#[derive(Debug, Clone, Copy, PartialEq, Eq, Structural)]
pub struct FrameHeader {
    pub opcode: Opcode,
    pub payload_len: usize,
    pub header_len: usize,
}

/// The MASK bit of the second header byte.
pub open spec fn mask_flag(masked: bool) -> u8 {
    if masked {
        0x80
    } else {
        0x00
    }
}

/// A 16-bit length, big-endian.
pub open spec fn be16_bytes(n: u16) -> Seq<u8> {
    seq![(n >> 8u16) as u8, n as u8]
}

/// A 64-bit length, big-endian.
pub open spec fn be64_bytes(n: u64) -> Seq<u8> {
    seq![
        (n >> 56u64) as u8,
        (n >> 48u64) as u8,
        (n >> 40u64) as u8,
        (n >> 32u64) as u8,
        (n >> 24u64) as u8,
        (n >> 16u64) as u8,
        (n >> 8u64) as u8,
        n as u8,
    ]
}

/// The big-endian 16-bit value of `b[at]`, `b[at + 1]`.
pub open spec fn be16_value(b: Seq<u8>, at: int) -> u16 {
    ((b[at] as u16) << 8u16) | (b[at + 1] as u16)
}

/// The big-endian 64-bit value of the eight bytes of `b` from `at` on.
pub open spec fn be64_value(b: Seq<u8>, at: int) -> u64 {
    ((b[at] as u64) << 56u64) | ((b[at + 1] as u64) << 48u64) | ((b[at + 2] as u64) << 40u64)
        | ((b[at + 3] as u64) << 32u64) | ((b[at + 4] as u64) << 24u64) | ((b[at + 5] as u64)
        << 16u64) | ((b[at + 6] as u64) << 8u64) | (b[at + 7] as u64)
}

/// The second header byte and the extended length that follows it: a 7-bit
/// length below 126, marker 126 and 16 bits below 65536, else marker 127 and
/// 64 bits.
pub open spec fn length_field(len: nat, masked: bool) -> Seq<u8> {
    if len < 126 {
        seq![mask_flag(masked) | (len as u8)]
    } else if len < 65536 {
        seq![mask_flag(masked) | 126u8] + be16_bytes(len as u16)
    } else {
        seq![mask_flag(masked) | 127u8] + be64_bytes(len as u64)
    }
}

/// The payload XORed with the four-byte key, cyclically.
pub open spec fn apply_mask(p: Seq<u8>, key: Seq<u8>) -> Seq<u8> {
    Seq::new(p.len(), |i: int| p[i] ^ key[i % 4])
}

/// The bytes of a final (FIN) frame with this opcode and payload, masked with
/// `key` when there is one.
pub open spec fn frame_bytes(op: Opcode, payload: Seq<u8>, key: Option<Seq<u8>>) -> Seq<u8> {
    seq![0x80u8 | opcode_value(op)] + length_field(payload.len(), key is Some) + match key {
        Some(k) => k + apply_mask(payload, k),
        None => payload,
    }
}

/// Encodes a final frame, masked with `key` when one is given.
pub fn encode_frame_with_key(opcode: Opcode, payload: &[u8], key: Option<[u8; 4]>) -> (r: Vec<u8>)
    ensures
        r@ == frame_bytes(
            opcode,
            payload@,
            match key {
                Some(k) => Some(k@),
                None => None,
            },
        ),
{
    let payload_len = payload.len();
    let mut frame: Vec<u8> = Vec::new();
    frame.push(0x80u8 | opcode.as_u8());
    let mask_bit: u8 = if key.is_some() {
        0x80
    } else {
        0x00
    };
    if payload_len < 126 {
        frame.push(mask_bit | (payload_len as u8));
    } else if payload_len < 65536 {
        let n = payload_len as u16;
        frame.push(mask_bit | 126);
        frame.push((n >> 8u16) as u8);
        frame.push(n as u8);
    } else {
        let n = payload_len as u64;
        frame.push(mask_bit | 127);
        frame.push((n >> 56u64) as u8);
        frame.push((n >> 48u64) as u8);
        frame.push((n >> 40u64) as u8);
        frame.push((n >> 32u64) as u8);
        frame.push((n >> 24u64) as u8);
        frame.push((n >> 16u64) as u8);
        frame.push((n >> 8u64) as u8);
        frame.push(n as u8);
    }
    let ghost head = frame@;
    assert(head =~= seq![0x80u8 | opcode_value(opcode)] + length_field(payload_len as nat, key is Some));
    match key {
        Some(k) => {
            frame.push(k[0]);
            frame.push(k[1]);
            frame.push(k[2]);
            frame.push(k[3]);
            assert(frame@ =~= head + k@);
            let mut i: usize = 0;
            while i < payload_len
                invariant
                    i <= payload_len == payload@.len(),
                    frame@ =~= head + k@ + apply_mask(payload@, k@).take(i as int),
                decreases payload_len - i,
            {
                frame.push(payload[i] ^ k[i % 4]);
                i = i + 1;
                assert(frame@ =~= head + k@ + apply_mask(payload@, k@).take(i as int));
            }
            assert(apply_mask(payload@, k@).take(i as int) =~= apply_mask(payload@, k@));
            assert(frame@ =~= head + (k@ + apply_mask(payload@, k@)));
        },
        None => {
            let mut i: usize = 0;
            while i < payload_len
                invariant
                    i <= payload_len == payload@.len(),
                    frame@ =~= head + payload@.take(i as int),
                decreases payload_len - i,
            {
                frame.push(payload[i]);
                i = i + 1;
                assert(frame@ =~= head + payload@.take(i as int));
            }
            assert(payload@.take(i as int) =~= payload@);
        },
    }
    frame
}


/// Whether the MASK bit of a frame's second byte is set.
pub open spec fn mask_bit_set(data: Seq<u8>) -> bool {
    data[1] & 0x80u8 != 0
}

/// The header at the start of `data`, or `None` where `data` is too short to
/// hold the length field or the opcode is unknown.
pub open spec fn header_of(data: Seq<u8>) -> Option<FrameHeader> {
    if data.len() < 2 {
        None
    } else {
        match opcode_of_value(data[0] & 0x0Fu8) {
            None => None,
            Some(op) => {
                let key_len: usize = if mask_bit_set(data) {
                    4
                } else {
                    0
                };
                let length_byte = data[1] & 0x7Fu8;
                if length_byte < 126 {
                    Some(
                        FrameHeader { opcode: op, payload_len: length_byte as usize, header_len: (2 + key_len) as usize },
                    )
                } else if length_byte == 126 {
                    if data.len() < 4 {
                        None
                    } else {
                        Some(
                            FrameHeader {
                                opcode: op,
                                payload_len: be16_value(data, 2) as usize,
                                header_len: (4 + key_len) as usize,
                            },
                        )
                    }
                } else if data.len() < 10 {
                    None
                } else {
                    Some(
                        FrameHeader {
                            opcode: op,
                            payload_len: be64_value(data, 2) as usize,
                            header_len: (10 + key_len) as usize,
                        },
                    )
                }
            },
        }
    }
}

/// The payload of the frame with header `h` at the start of `data`, unmasked
/// with the key in the header where the MASK bit is set.
pub open spec fn frame_payload(data: Seq<u8>, h: FrameHeader) -> Seq<u8> {
    let raw = data.subrange(h.header_len as int, h.header_len + h.payload_len);
    if mask_bit_set(data) {
        apply_mask(raw, data.subrange(h.header_len - 4, h.header_len as int))
    } else {
        raw
    }
}

/// The frame at the start of `data`: its opcode, its payload and its total
/// length; `None` where `data` does not yet hold all of it.
pub open spec fn decoded_frame(data: Seq<u8>) -> Option<(Opcode, Seq<u8>, nat)> {
    match header_of(data) {
        None => None,
        Some(h) => if data.len() < h.header_len + h.payload_len {
            None
        } else {
            Some((h.opcode, frame_payload(data, h), (h.header_len + h.payload_len) as nat))
        },
    }
}

/// The text of a reason or message payload.
pub open spec fn payload_text(p: Seq<u8>) -> Seq<char> {
    utf8_lossy(p)
}

/// Whether `m` is the message that a frame with opcode `op` and payload `p`
/// carries. A continuation frame stands alone as a binary message; a close
/// payload of two bytes or more is a big-endian code and a reason.
pub open spec fn message_for(m: Message, op: Opcode, p: Seq<u8>) -> bool {
    match op {
        Opcode::Text => m matches Message::Text(t) && t@ == payload_text(p),
        Opcode::Binary | Opcode::Continuation => m matches Message::Binary(b) && b@ == p,
        Opcode::Ping => m matches Message::Ping(b) && b@ == p,
        Opcode::Pong => m matches Message::Pong(b) && b@ == p,
        Opcode::Close => match m {
            Message::Close(None) => p.len() < 2,
            Message::Close(Some((code, reason))) => {
                &&& p.len() >= 2
                &&& code == be16_value(p, 0)
                &&& reason@ == if p.len() > 2 {
                    payload_text(p.skip(2))
                } else {
                    Seq::empty()
                }
            },
            _ => false,
        },
    }
}

/// Parses the frame header at the start of `data`; `None` where more bytes
/// are needed or the opcode is unknown.
pub fn parse_frame_header(data: &[u8]) -> (r: Option<FrameHeader>)
    ensures
        r == header_of(data@),
{
    if data.len() < 2 {
        return None;
    }
    let opcode = match Opcode::from_u8(data[0] & 0x0F) {
        Some(op) => op,
        None => return None,
    };
    let masked = (data[1] & 0x80) != 0;
    let length_byte = data[1] & 0x7F;
    let key_len: usize = if masked {
        4
    } else {
        0
    };
    if length_byte < 126 {
        Some(FrameHeader { opcode, payload_len: length_byte as usize, header_len: 2 + key_len })
    } else if length_byte == 126 {
        if data.len() < 4 {
            return None;
        }
        let len = ((data[2] as u16) << 8u16) | (data[3] as u16);
        Some(FrameHeader { opcode, payload_len: len as usize, header_len: 4 + key_len })
    } else {
        if data.len() < 10 {
            return None;
        }
        let len = ((data[2] as u64) << 56u64) | ((data[3] as u64) << 48u64) | ((data[4] as u64)
            << 40u64) | ((data[5] as u64) << 32u64) | ((data[6] as u64) << 24u64) | ((
        data[7] as u64) << 16u64) | ((data[8] as u64) << 8u64) | (data[9] as u64);
        Some(FrameHeader { opcode, payload_len: len as usize, header_len: 10 + key_len })
    }
}

/// Copies `data[start..end]`.
fn copy_range(data: &[u8], start: usize, end: usize) -> (r: Vec<u8>)
    requires
        start <= end <= data@.len(),
    ensures
        r@ == data@.subrange(start as int, end as int),
{
    let mut out: Vec<u8> = Vec::new();
    let mut i: usize = start;
    while i < end
        invariant
            start <= i <= end <= data@.len(),
            out@ =~= data@.subrange(start as int, i as int),
        decreases end - i,
    {
        out.push(data[i]);
        i = i + 1;
    }
    out
}

/// Decodes the frame at the start of `data`, with the number of bytes it
/// takes; `None` while `data` holds less than the whole frame, and for an
/// unknown opcode. A masked frame is unmasked with its key.
pub fn decode_frame(data: &[u8]) -> (r: Option<(Message, usize)>)
    ensures
        match (r, decoded_frame(data@)) {
            (None, None) => true,
            (Some((m, n)), Some((op, p, total))) => n == total && message_for(m, op, p),
            _ => false,
        },
{
    let header = match parse_frame_header(data) {
        Some(h) => h,
        None => return None,
    };
    if header.payload_len > data.len() || header.header_len > data.len() - header.payload_len {
        return None;
    }
    let total_len = header.header_len + header.payload_len;
    let raw = copy_range(data, header.header_len, total_len);
    let masked = (data[1] & 0x80) != 0;
    let payload = if masked {
        let mask_start = header.header_len - 4;
        let data_len = data.len();
        let mut out: Vec<u8> = Vec::new();
        let mut i: usize = 0;
        while i < raw.len()
            invariant
                i <= raw@.len(),
                mask_start + 4 <= data_len == data@.len(),
                out@ =~= apply_mask(raw@, data@.subrange(mask_start as int, mask_start + 4)).take(
                    i as int,
                ),
            decreases raw@.len() - i,
        {
            let j: usize = i % 4;
            out.push(raw[i] ^ data[mask_start + j]);
            i = i + 1;
        }
        out
    } else {
        raw
    };
    assert(payload@ =~= frame_payload(data@, header));
    let message = match header.opcode {
        Opcode::Text => Message::Text(lossy_text(payload.as_slice())),
        Opcode::Binary => Message::Binary(payload),
        Opcode::Close => {
            if payload.len() >= 2 {
                let code = ((payload[0] as u16) << 8u16) | (payload[1] as u16);
                let reason = if payload.len() > 2 {
                    let rest = copy_range(payload.as_slice(), 2, payload.len());
                    assert(rest@ =~= payload@.skip(2));
                    lossy_text(rest.as_slice())
                } else {
                    String::new()
                };
                Message::Close(Some((code, reason)))
            } else {
                Message::Close(None)
            }
        },
        Opcode::Ping => Message::Ping(payload),
        Opcode::Pong => Message::Pong(payload),
        Opcode::Continuation => Message::Binary(payload),
    };
    Some((message, total_len))
}


/// The masking key taken from a clock reading: its four low bytes, lowest
/// first.
pub fn mask_key_from_clock(nanos: u128) -> (r: [u8; 4])
    ensures
        r@ == seq![nanos as u8, (nanos >> 8u128) as u8, (nanos >> 16u128) as u8, (nanos >> 24u128) as u8],
{
    let r = [nanos as u8, (nanos >> 8u128) as u8, (nanos >> 16u128) as u8, (nanos >> 24u128) as u8];
    assert(r@ =~= seq![nanos as u8, (nanos >> 8u128) as u8, (nanos >> 16u128) as u8, (nanos >> 24u128) as u8]);
    r
}

/// A four-byte masking key drawn from the system clock.
pub fn generate_mask_key() -> (r: [u8; 4])
    ensures
        r@.len() == 4,
{
    mask_key_from_clock(unix_time_nanos())
}

/// Encodes a final frame; a masked frame gets a fresh key from
/// `generate_mask_key`.
pub fn encode_frame(opcode: Opcode, payload: &[u8], masked: bool) -> (r: Vec<u8>)
    ensures
        masked ==> exists|k: Seq<u8>| k.len() == 4 && r@ == frame_bytes(opcode, payload@, Some(k)),
        !masked ==> r@ == frame_bytes(opcode, payload@, None),
{
    if masked {
        let key = generate_mask_key();
        let r = encode_frame_with_key(opcode, payload, Some(key));
        assert(key@.len() == 4 && r@ == frame_bytes(opcode, payload@, Some(key@)));
        r
    } else {
        encode_frame_with_key(opcode, payload, None)
    }
}

/// Encodes a masked text frame carrying the UTF-8 bytes of `text`.
pub fn encode_text_frame(text: &str) -> (r: Vec<u8>)
    ensures
        exists|k: Seq<u8>| k.len() == 4 && r@ == frame_bytes(Opcode::Text, text.spec_bytes(), Some(k)),
{
    encode_frame(Opcode::Text, text.as_bytes(), true)
}

/// The payload of a close frame: the status code big-endian, or nothing.
pub open spec fn close_payload(code: Option<u16>) -> Seq<u8> {
    match code {
        Some(c) => be16_bytes(c),
        None => Seq::empty(),
    }
}

/// Encodes a masked close frame, with a status code when one is given.
pub fn encode_close_frame(code: Option<u16>) -> (r: Vec<u8>)
    ensures
        exists|k: Seq<u8>| k.len() == 4 && r@ == frame_bytes(Opcode::Close, close_payload(code), Some(k)),
{
    let mut payload: Vec<u8> = Vec::new();
    match code {
        Some(c) => {
            payload.push((c >> 8u16) as u8);
            payload.push(c as u8);
        },
        None => {},
    }
    assert(payload@ =~= close_payload(code));
    encode_frame(Opcode::Close, payload.as_slice(), true)
}

proof fn lemma_opcode_byte(op: Opcode)
    ensures
        (0x80u8 | opcode_value(op)) & 0x0Fu8 == opcode_value(op),
        opcode_of_value(opcode_value(op)) == Some(op),
{
    let v = opcode_value(op);
    assert(v < 16);
    assert(v < 16 ==> (0x80u8 | v) & 0x0Fu8 == v) by (bit_vector);
}

proof fn lemma_length_byte(masked: bool, x: u8)
    requires
        x < 128,
    ensures
        ((mask_flag(masked) | x) & 0x80u8 != 0) == masked,
        (mask_flag(masked) | x) & 0x7Fu8 == x,
{
    let m = mask_flag(masked);
    assert(x < 128 ==> (0x80u8 | x) & 0x80u8 != 0 && (0x80u8 | x) & 0x7Fu8 == x) by (bit_vector);
    assert(x < 128 ==> (0x00u8 | x) & 0x80u8 == 0 && (0x00u8 | x) & 0x7Fu8 == x) by (bit_vector);
}

proof fn lemma_be_round_trip(a: u16, b: u64)
    ensures
        be16_value(be16_bytes(a), 0) == a,
        be64_value(be64_bytes(b), 0) == b,
{
    assert(((((a >> 8u16) as u8) as u16) << 8u16) | ((a as u8) as u16) == a) by (bit_vector);
    assert((((b >> 56u64) as u8 as u64) << 56u64) | (((b >> 48u64) as u8 as u64) << 48u64) | ((
    (b >> 40u64) as u8 as u64) << 40u64) | (((b >> 32u64) as u8 as u64) << 32u64) | (((b
        >> 24u64) as u8 as u64) << 24u64) | (((b >> 16u64) as u8 as u64) << 16u64) | (((b
        >> 8u64) as u8 as u64) << 8u64) | (b as u8 as u64) == b) by (bit_vector);
}

proof fn lemma_mask_twice(p: Seq<u8>, k: Seq<u8>)
    requires
        k.len() == 4,
    ensures
        apply_mask(apply_mask(p, k), k) == p,
{
    assert forall|x: u8, y: u8| #[trigger] ((x ^ y) ^ y) == x by {
        assert((x ^ y) ^ y == x) by (bit_vector);
    }
    assert(apply_mask(apply_mask(p, k), k) =~= p);
}

/// The header that the encoder writes for a payload of `len` bytes.
pub open spec fn encoded_header(op: Opcode, len: nat, masked: bool) -> FrameHeader {
    let key_len: nat = if masked {
        4
    } else {
        0
    };
    let field_len: nat = if len < 126 {
        2
    } else if len < 65536 {
        4
    } else {
        10
    };
    FrameHeader { opcode: op, payload_len: len as usize, header_len: (field_len + key_len) as usize }
}

proof fn lemma_header_of_frame(op: Opcode, payload: Seq<u8>, key: Option<Seq<u8>>)
    requires
        payload.len() <= usize::MAX,
        key matches Some(k) ==> k.len() == 4,
    ensures
        header_of(frame_bytes(op, payload, key)) == Some(encoded_header(op, payload.len(), key is Some)),
        frame_bytes(op, payload, key).len() == encoded_header(op, payload.len(), key is Some).header_len
            + payload.len(),
{
    let f = frame_bytes(op, payload, key);
    let masked = key is Some;
    let len = payload.len();
    let lf = length_field(len, masked);
    let tail = match key {
        Some(k) => k + apply_mask(payload, k),
        None => payload,
    };
    assert(f == seq![0x80u8 | opcode_value(op)] + lf + tail);
    lemma_opcode_byte(op);
    assert(f[0] == 0x80u8 | opcode_value(op));
    assert(f[1] == lf[0]);
    if len < 126 {
        lemma_length_byte(masked, len as u8);
    } else if len < 65536 {
        lemma_length_byte(masked, 126u8);
        lemma_be_round_trip(len as u16, 0);
        assert(f[2] == lf[1] && f[3] == lf[2]);
        assert(be16_value(f, 2) == be16_value(be16_bytes(len as u16), 0));
    } else {
        lemma_length_byte(masked, 127u8);
        lemma_be_round_trip(0, len as u64);
        assert(forall|i: int| 2 <= i < 10 ==> f[i] == lf[i - 1]);
        assert(be64_value(f, 2) == be64_value(be64_bytes(len as u64), 0));
    }
}

/// Decoding a frame that the encoder wrote gives back its opcode and its
/// payload, and takes the whole frame, for every payload length and with or
/// without a masking key.
pub proof fn lemma_frame_round_trip(op: Opcode, payload: Seq<u8>, key: Option<Seq<u8>>)
    requires
        payload.len() <= usize::MAX,
        key matches Some(k) ==> k.len() == 4,
    ensures
        decoded_frame(frame_bytes(op, payload, key)) == Some(
            (op, payload, frame_bytes(op, payload, key).len()),
        ),
{
    let f = frame_bytes(op, payload, key);
    lemma_header_of_frame(op, payload, key);
    let h = encoded_header(op, payload.len(), key is Some);
    let lf = length_field(payload.len(), key is Some);
    assert(lf.len() + 1 == h.header_len - if key is Some { 4int } else { 0int });
    match key {
        Some(k) => {
            assert(f == seq![0x80u8 | opcode_value(op)] + lf + (k + apply_mask(payload, k)));
            assert(f.subrange(h.header_len - 4, h.header_len as int) =~= k);
            assert(f.subrange(h.header_len as int, h.header_len + h.payload_len) =~= apply_mask(payload, k));
            lemma_mask_twice(payload, k);
        },
        None => {
            assert(f.subrange(h.header_len as int, h.header_len + h.payload_len) =~= payload);
        },
    }
    assert(frame_payload(f, h) == payload);
}

/// Every proper prefix of an encoded frame decodes as incomplete.
pub proof fn lemma_truncated_frame_incomplete(op: Opcode, payload: Seq<u8>, key: Option<Seq<u8>>, n: int)
    requires
        payload.len() <= usize::MAX,
        key matches Some(k) ==> k.len() == 4,
        0 <= n < frame_bytes(op, payload, key).len(),
    ensures
        decoded_frame(frame_bytes(op, payload, key).take(n)) is None,
{
    let f = frame_bytes(op, payload, key);
    let t = f.take(n);
    lemma_header_of_frame(op, payload, key);
    if n >= 2 {
        assert(t[0] == f[0] && t[1] == f[1]);
        if n >= 4 {
            assert(t[2] == f[2] && t[3] == f[3]);
        }
        if n >= 10 {
            assert(forall|i: int| 2 <= i < 10 ==> t[i] == f[i]);
        }
        assert(header_of(t) is None || header_of(t) == header_of(f));
    }
}

} // verus!
