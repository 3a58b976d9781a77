//! The framed messages exchanged between clients and the master.
//!
//! A frame is the magic `DTRS`, a kind byte, the payload's length as a
//! big-endian 32-bit number, and the payload.

use vstd::prelude::*;
use vstd::utf8::*;

use crate::args::{RedrawMethod, redraw_from_wire, redraw_wire};
use crate::text::{string_bytes, string_from_utf8};

verus! {

broadcast use {encode_utf8_valid_utf8, encode_utf8_decode_utf8, decode_utf8_encode_utf8};

/// Length of a frame header.
pub const HEADER_LEN: usize = 9;

/// Largest payload that a reader accepts.
pub const MAX_PAYLOAD: usize = 1048576;

/// A terminal's size in character cells.
#[derive(Clone, Copy, Debug, PartialEq, Eq, Structural)]
pub struct TerminalSize {
    pub rows: u16,
    pub cols: u16,
}

impl TerminalSize {
    /// The size assumed when the terminal cannot be asked: 24 by 80.
    pub fn fallback() -> (r: Self)
        ensures
            r.rows == 24,
            r.cols == 80,
    {
        TerminalSize { rows: 24, cols: 80 }
    }
}

/// A message between a client and the master.
#[derive(Debug, PartialEq, Eq)]
pub enum Message {
    /// The session token, which authenticates a new connection.
    Hello(String),
    /// The client starts receiving the program's output.
    Attach,
    /// The client stops receiving the program's output.
    Detach,
    /// Bytes for the program's input.
    Push(Vec<u8>),
    /// The client's terminal has a new size.
    Resize(TerminalSize),
    /// The client asks for the screen to be redrawn.
    Redraw { method: RedrawMethod, size: TerminalSize },
}

/// A message as plain values.
pub enum MessageView {
    Hello(Seq<char>),
    Attach,
    Detach,
    Push(Seq<u8>),
    Resize(TerminalSize),
    Redraw { method: RedrawMethod, size: TerminalSize },
}

impl View for Message {
    type V = MessageView;

    open spec fn view(&self) -> MessageView {
        match self {
            Message::Hello(token) => MessageView::Hello(token@),
            Message::Attach => MessageView::Attach,
            Message::Detach => MessageView::Detach,
            Message::Push(bytes) => MessageView::Push(bytes@),
            Message::Resize(size) => MessageView::Resize(*size),
            Message::Redraw { method, size } => MessageView::Redraw { method: *method, size: *size },
        }
    }
}

/// Why a frame was refused.
#[derive(Clone, Copy, Debug, PartialEq, Eq, Structural)]
pub enum ProtocolError {
    /// The input ended inside the frame.
    UnexpectedEof,
    /// The frame does not start with the magic.
    InvalidMagic,
    /// The announced payload is longer than `MAX_PAYLOAD`.
    PayloadTooLarge,
    /// A hello token that is not UTF-8.
    TokenNotUtf8,
    /// An unknown kind, or an attach or detach with a payload.
    UnknownMessage,
    /// A redraw payload that is not five bytes long.
    InvalidRedrawPayload,
    /// A redraw payload with an unknown method.
    BadRedrawMethod,
    /// A size payload that is not four bytes long.
    InvalidSizePayload,
}

/// The magic that starts every frame: `DTRS`.
pub open spec fn magic() -> Seq<u8> {
    seq![0x44u8, 0x54u8, 0x52u8, 0x53u8]
}

/// Big-endian bytes of a 16-bit number.
pub open spec fn be16(n: u16) -> Seq<u8> {
    seq![(n / 256) as u8, (n % 256) as u8]
}

/// The number that two big-endian bytes stand for.
pub open spec fn from_be16(hi: u8, lo: u8) -> u16 {
    (hi * 256 + lo) as u16
}

/// Big-endian bytes of a 32-bit number.
pub open spec fn be32(n: u32) -> Seq<u8> {
    seq![
        (n / 16777216) as u8,
        (n / 65536 % 256) as u8,
        (n / 256 % 256) as u8,
        (n % 256) as u8,
    ]
}

/// The number that four big-endian bytes stand for.
pub open spec fn from_be32(b: Seq<u8>) -> nat {
    (b[0] * 16777216 + b[1] * 65536 + b[2] * 256 + b[3]) as nat
}

/// The payload of a size: rows, then columns.
pub open spec fn size_bytes(size: TerminalSize) -> Seq<u8> {
    be16(size.rows) + be16(size.cols)
}

/// The kind byte of a message.
pub open spec fn kind_of(m: MessageView) -> u8 {
    match m {
        MessageView::Hello(_) => 1,
        MessageView::Attach => 2,
        MessageView::Detach => 3,
        MessageView::Push(_) => 4,
        MessageView::Resize(_) => 5,
        MessageView::Redraw { .. } => 6,
    }
}

/// The payload of a message.
pub open spec fn payload_of(m: MessageView) -> Seq<u8> {
    match m {
        MessageView::Hello(token) => encode_utf8(token),
        MessageView::Attach => Seq::empty(),
        MessageView::Detach => Seq::empty(),
        MessageView::Push(bytes) => bytes,
        MessageView::Resize(size) => size_bytes(size),
        MessageView::Redraw { method, size } => seq![redraw_wire(method)] + size_bytes(size),
    }
}

/// The frame of a message. The length field holds the payload's length
/// modulo 2^32.
pub open spec fn frame(m: MessageView) -> Seq<u8> {
    magic() + seq![kind_of(m)] + be32((payload_of(m).len() % 4294967296) as u32) + payload_of(m)
}

/// The size that a size payload stands for.
pub open spec fn decode_size_spec(payload: Seq<u8>) -> Result<TerminalSize, ProtocolError> {
    if payload.len() != 4 {
        Err(ProtocolError::InvalidSizePayload)
    } else {
        Ok(
            TerminalSize {
                rows: from_be16(payload[0], payload[1]),
                cols: from_be16(payload[2], payload[3]),
            },
        )
    }
}

/// The message that a kind and a payload stand for.
pub open spec fn decode_spec(kind: u8, payload: Seq<u8>) -> Result<MessageView, ProtocolError> {
    if kind == 1 {
        if valid_utf8(payload) {
            Ok(MessageView::Hello(decode_utf8(payload)))
        } else {
            Err(ProtocolError::TokenNotUtf8)
        }
    } else if kind == 2 && payload.len() == 0 {
        Ok(MessageView::Attach)
    } else if kind == 3 && payload.len() == 0 {
        Ok(MessageView::Detach)
    } else if kind == 4 {
        Ok(MessageView::Push(payload))
    } else if kind == 5 {
        match decode_size_spec(payload) {
            Ok(size) => Ok(MessageView::Resize(size)),
            Err(e) => Err(e),
        }
    } else if kind == 6 {
        if payload.len() != 5 {
            Err(ProtocolError::InvalidRedrawPayload)
        } else {
            match redraw_from_wire(payload[0]) {
                None => Err(ProtocolError::BadRedrawMethod),
                Some(method) => Ok(
                    MessageView::Redraw {
                        method,
                        size: decode_size_spec(payload.skip(1)).unwrap(),
                    },
                ),
            }
        }
    } else {
        Err(ProtocolError::UnknownMessage)
    }
}

/// The kind and payload length that a header announces.
pub open spec fn header_spec(header: Seq<u8>) -> Result<(u8, nat), ProtocolError> {
    if header.len() < 9 {
        Err(ProtocolError::UnexpectedEof)
    } else if header.take(4) != magic() {
        Err(ProtocolError::InvalidMagic)
    } else if from_be32(header.subrange(5, 9)) > MAX_PAYLOAD {
        Err(ProtocolError::PayloadTooLarge)
    } else {
        Ok((header[4], from_be32(header.subrange(5, 9))))
    }
}

/// The message that reading the start of `input` gives.
pub open spec fn read_spec(input: Seq<u8>) -> Result<MessageView, ProtocolError> {
    match header_spec(input) {
        Err(e) => Err(e),
        Ok((kind, len)) => if input.len() < 9 + len {
            Err(ProtocolError::UnexpectedEof)
        } else {
            decode_spec(kind, input.subrange(9, 9 + len as int))
        },
    }
}

/// A decoded message, as plain values.
pub open spec fn result_view(r: Result<Message, ProtocolError>) -> Result<MessageView, ProtocolError> {
    match r {
        Ok(m) => Ok(m@),
        Err(e) => Err(e),
    }
}

/// Big-endian bytes of a 16-bit number.
fn encode_u16(n: u16) -> (r: Vec<u8>)
    ensures
        r@ == be16(n),
{
    let v = vec![(n / 256) as u8, (n % 256) as u8];
    assert(v@ =~= be16(n));
    v
}

/// The payload of a size.
pub fn encode_size(size: TerminalSize) -> (r: Vec<u8>)
    ensures
        r@ == size_bytes(size),
{
    let mut bytes = encode_u16(size.rows);
    let mut cols = encode_u16(size.cols);
    bytes.append(&mut cols);
    bytes
}

/// The size that a size payload stands for.
pub fn decode_size(payload: &[u8]) -> (r: Result<TerminalSize, ProtocolError>)
    ensures
        r == decode_size_spec(payload@),
{
    if payload.len() != 4 {
        return Err(ProtocolError::InvalidSizePayload);
    }
    let rows = (payload[0] as u16) * 256 + payload[1] as u16;
    let cols = (payload[2] as u16) * 256 + payload[3] as u16;
    Ok(TerminalSize { rows, cols })
}

/// The kind byte and payload of a message.
pub fn encode_message(message: &Message) -> (r: (u8, Vec<u8>))
    ensures
        r.0 == kind_of(message@),
        r.1@ == payload_of(message@),
{
    match message {
        Message::Hello(token) => (1, string_bytes(token)),
        Message::Attach => (2, Vec::new()),
        Message::Detach => (3, Vec::new()),
        Message::Push(bytes) => (4, bytes.clone()),
        Message::Resize(size) => (5, encode_size(*size)),
        Message::Redraw { method, size } => {
            let mut payload = Vec::with_capacity(5);
            payload.push(method.to_wire());
            let mut rest = encode_size(*size);
            payload.append(&mut rest);
            assert(payload@ =~= seq![redraw_wire(*method)] + size_bytes(*size));
            (6, payload)
        },
    }
}

/// The message that a kind byte and a payload stand for.
pub fn decode_message(kind: u8, payload: Vec<u8>) -> (r: Result<Message, ProtocolError>)
    ensures
        result_view(r) == decode_spec(kind, payload@),
{
    match kind {
        1 => match string_from_utf8(payload) {
            Some(token) => Ok(Message::Hello(token)),
            None => Err(ProtocolError::TokenNotUtf8),
        },
        2 if payload.len() == 0 => Ok(Message::Attach),
        3 if payload.len() == 0 => Ok(Message::Detach),
        4 => Ok(Message::Push(payload)),
        5 => match decode_size(payload.as_slice()) {
            Ok(size) => Ok(Message::Resize(size)),
            Err(e) => Err(e),
        },
        6 => {
            if payload.len() != 5 {
                return Err(ProtocolError::InvalidRedrawPayload);
            }
            let method = match RedrawMethod::from_wire(payload[0]) {
                Some(method) => method,
                None => return Err(ProtocolError::BadRedrawMethod),
            };
            let rest = vstd::slice::slice_subrange(payload.as_slice(), 1, 5);
            assert(rest@ =~= payload@.skip(1));
            match decode_size(rest) {
                Ok(size) => Ok(Message::Redraw { method, size }),
                Err(e) => Err(e),
            }
        },
        _ => Err(ProtocolError::UnknownMessage),
    }
}

/// The kind and payload length that a frame header announces.
pub fn parse_header(header: &[u8]) -> (r: Result<(u8, usize), ProtocolError>)
    ensures
        match r {
            Ok((kind, len)) => header_spec(header@) == Ok::<(u8, nat), ProtocolError>((kind, len as nat)),
            Err(e) => header_spec(header@) == Err::<(u8, nat), ProtocolError>(e),
        },
{
    if header.len() < 9 {
        return Err(ProtocolError::UnexpectedEof);
    }
    if header[0] != 0x44 || header[1] != 0x54 || header[2] != 0x52 || header[3] != 0x53 {
        assert(header@.take(4) != magic()) by {
            if header@.take(4) == magic() {
                assert(header@.take(4)[0] == header@[0]);
                assert(header@.take(4)[1] == header@[1]);
                assert(header@.take(4)[2] == header@[2]);
                assert(header@.take(4)[3] == header@[3]);
            }
        }
        return Err(ProtocolError::InvalidMagic);
    }
    assert(header@.take(4) =~= magic());
    let len: u64 = (header[5] as u64) * 16777216 + (header[6] as u64) * 65536 + (header[7] as u64)
        * 256 + header[8] as u64;
    assert(from_be32(header@.subrange(5, 9)) == len);
    if len > 1048576 {
        return Err(ProtocolError::PayloadTooLarge);
    }
    Ok((header[4], len as usize))
}

/// Appends the frame of `message` to `out`.
pub fn write_message(out: &mut Vec<u8>, message: &Message) -> (r: Result<(), ProtocolError>)
    ensures
        r is Ok,
        final(out)@ == old(out)@ + frame(message@),
{
    let (kind, mut payload) = encode_message(message);
    let len = payload.len();
    let wide: u64 = len as u64;
    let n: u32 = (wide % 4294967296) as u32;
    let ghost before = out@;
    out.push(0x44);
    out.push(0x54);
    out.push(0x52);
    out.push(0x53);
    out.push(kind);
    out.push((n / 16777216) as u8);
    out.push((n / 65536 % 256) as u8);
    out.push((n / 256 % 256) as u8);
    out.push((n % 256) as u8);
    out.append(&mut payload);
    assert(out@ =~= before + frame(message@));
    Ok(())
}

/// Reads the message framed at the start of `input`; bytes after the frame
/// are left alone.
pub fn read_message(input: &[u8]) -> (r: Result<Message, ProtocolError>)
    ensures
        result_view(r) == read_spec(input@),
{
    let (kind, len) = match parse_header(input) {
        Ok(h) => h,
        Err(e) => return Err(e),
    };
    if input.len() - 9 < len {
        return Err(ProtocolError::UnexpectedEof);
    }
    let payload = vstd::slice::slice_to_vec(vstd::slice::slice_subrange(input, 9, 9 + len));
    decode_message(kind, payload)
}


/// The big-endian bytes of a 16-bit number stand for that number.
proof fn lemma_be16_round_trip(n: u16)
    ensures
        from_be16(be16(n)[0], be16(n)[1]) == n,
{
}

/// Four big-endian bytes of a number below 2^32 stand for that number.
proof fn lemma_be32_round_trip(n: u32)
    ensures
        be32(n).len() == 4,
        from_be32(be32(n)) == n,
{
}

/// The bytes of a number stand for it, and bytes stand for a number whose
/// bytes they are.
proof fn lemma_be32_canonical(b: Seq<u8>)
    requires
        b.len() == 4,
    ensures
        from_be32(b) < 4294967296,
        be32(from_be32(b) as u32) == b,
{
    let v = from_be32(b);
    let (b0, b1, b2, b3) = (b[0] as int, b[1] as int, b[2] as int, b[3] as int);
    assert(v == b0 * 16777216 + b1 * 65536 + b2 * 256 + b3);
    assert(v / 16777216 == b0 && v / 65536 % 256 == b1 && v / 256 % 256 == b2 && v % 256 == b3)
        by (nonlinear_arith)
        requires
            v == b0 * 16777216 + b1 * 65536 + b2 * 256 + b3,
            0 <= b0 < 256,
            0 <= b1 < 256,
            0 <= b2 < 256,
            0 <= b3 < 256,
    ;
    assert(be32(v as u32) =~= b);
}

/// Decoding a size payload gives back the size.
pub proof fn lemma_size_round_trip(size: TerminalSize)
    ensures
        size_bytes(size).len() == 4,
        decode_size_spec(size_bytes(size)) == Ok::<TerminalSize, ProtocolError>(size),
{
    lemma_be16_round_trip(size.rows);
    lemma_be16_round_trip(size.cols);
}

/// Reading a frame gives back the message that was written into it, whatever
/// bytes follow the frame.
pub proof fn lemma_read_written(m: MessageView, rest: Seq<u8>)
    requires
        payload_of(m).len() <= MAX_PAYLOAD,
    ensures
        read_spec(frame(m) + rest) == Ok::<MessageView, ProtocolError>(m),
{
    let p = payload_of(m);
    let n = (p.len() % 4294967296) as u32;
    let input = frame(m) + rest;
    lemma_be32_round_trip(n);
    assert(input.take(4) =~= magic());
    assert(input.subrange(5, 9) =~= be32(n));
    assert(input[4] == kind_of(m));
    assert(input.subrange(9, 9 + p.len() as int) =~= p);
    match m {
        MessageView::Resize(size) => {
            lemma_size_round_trip(size);
        },
        MessageView::Redraw { method, size } => {
            lemma_size_round_trip(size);
            assert(p.skip(1) =~= size_bytes(size));
        },
        _ => {},
    }
}

/// A frame that reads as a message is the start of the input exactly when it
/// is that message's frame: the encoding of a message is unique.
pub proof fn lemma_read_canonical(input: Seq<u8>)
    ensures
        read_spec(input) matches Ok(m) ==> payload_of(m).len() <= MAX_PAYLOAD && frame(m)
            == input.take(frame(m).len() as int),
{
    if let Ok(m) = read_spec(input) {
        let len = from_be32(input.subrange(5, 9));
        let payload = input.subrange(9, 9 + len as int);
        lemma_be32_canonical(input.subrange(5, 9));
        match m {
            MessageView::Hello(t) => {
                assert(payload_of(m) =~= payload);
            },
            MessageView::Attach => {
                assert(payload_of(m) =~= payload);
            },
            MessageView::Detach => {
                assert(payload_of(m) =~= payload);
            },
            MessageView::Push(b) => {
                assert(payload_of(m) =~= payload);
            },
            MessageView::Resize(size) => {
                assert(payload_of(m) =~= payload);
            },
            MessageView::Redraw { method, size } => {
                assert(payload_of(m) =~= payload);
            },
        }
        assert(payload_of(m).len() == len);
        assert(frame(m) =~= input.take(frame(m).len() as int));
    }
}


/// A size payload is read exactly when it is four bytes long.
pub proof fn lemma_decode_size_accepts(payload: Seq<u8>)
    ensures
        decode_size_spec(payload) is Ok <==> payload.len() == 4,
{
}

/// Four bytes read as a size are that size's payload: the encoding of a
/// size is unique.
pub proof fn lemma_size_canonical(payload: Seq<u8>)
    requires
        payload.len() == 4,
    ensures
        size_bytes(decode_size_spec(payload).unwrap()) == payload,
{
    let size = decode_size_spec(payload).unwrap();
    let (a, b, c, d) = (payload[0] as int, payload[1] as int, payload[2] as int, payload[3] as int);
    assert(size.rows == a * 256 + b);
    assert(size.cols == c * 256 + d);
    assert(size_bytes(size) =~= payload);
}

/// A kind and payload that decode to a message are that message's kind and
/// payload: every accepted frame is the unique encoding of its message.
pub proof fn lemma_decoded_is_encoding(kind: u8, payload: Seq<u8>)
    ensures
        decode_spec(kind, payload) matches Ok(m) ==> kind_of(m) == kind && payload_of(m) == payload,
{
    if let Ok(m) = decode_spec(kind, payload) {
        match m {
            MessageView::Resize(size) => {
                lemma_size_canonical(payload);
            },
            MessageView::Redraw { method, size } => {
                lemma_size_canonical(payload.skip(1));
                assert(payload_of(m) =~= payload);
            },
            _ => {},
        }
    }
}

} // verus!
