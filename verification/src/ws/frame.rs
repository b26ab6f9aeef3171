//! WebSocket frames: reading them from the bytes received and writing
//! them out.

use vstd::prelude::*;
use vstd::slice::slice_subrange;
use vstd::string::{StringExecFns, StringSliceAdditionalSpecFns};
use crate::text::{convert_usize, decimal, hex_text, push_hex};
use byteorder::{BigEndian, ByteOrder};
use bytes::{BufMut, Bytes, BytesMut};
use crate::payload::{Async, PayloadError, PayloadHelper};
use crate::ws::mask::{apply_mask, masked};
use crate::ws::proto::{close_number, opcode_byte, opcode_of, CloseCode, OpCode};

verus! {

/// The number that `bytes` stand for, most significant byte first.
pub open spec fn be_value(bytes: Seq<u8>) -> nat
    decreases bytes.len(),
{
    if bytes.len() == 0 {
        0
    } else {
        be_value(bytes.drop_last()) * 256 + bytes.last() as nat
    }
}

/// The low `width` bytes of `n`, most significant byte first.
pub open spec fn be_bytes(n: nat, width: nat) -> Seq<u8>
    decreases width,
{
    if width == 0 {
        Seq::empty()
    } else {
        be_bytes(n / 256, (width - 1) as nat).push((n % 256) as u8)
    }
}

/// 256 to the power of `width`.
pub open spec fn pow256(width: nat) -> nat
    decreases width,
{
    if width == 0 {
        1
    } else {
        256 * pow256((width - 1) as nat)
    }
}

/// The bytes of a number stand for that number, as far as they hold it.
pub proof fn lemma_be_roundtrip(n: nat, width: nat)
    ensures
        be_bytes(n, width).len() == width,
        pow256(width) > 0,
        be_value(be_bytes(n, width)) == n % pow256(width),
    decreases width,
{
    if width > 0 {
        let rest = be_bytes(n / 256, (width - 1) as nat);
        lemma_be_roundtrip(n / 256, (width - 1) as nat);
        assert(be_bytes(n, width).drop_last() =~= rest);
        let q = pow256((width - 1) as nat);
        vstd::arithmetic::div_mod::lemma_mod_breakdown(n as int, 256, q as int);
        assert(((n % 256) as u8) as nat == n % 256);
        assert(be_value(be_bytes(n, width)) == ((n / 256) % q) * 256 + n % 256);
        assert(((n / 256) % q) * 256 == 256 * ((n / 256) % q)) by (nonlinear_arith);
    }
}

/// `byteorder::BigEndian::read_uint`: the number that the first `nbytes`
/// bytes of `buf` stand for, most significant byte first. It panics unless
/// `nbytes` is between 1 and 8 and `buf` holds that many bytes, so the
/// contract asks for that.
#[verifier::external_body]
fn read_uint(buf: &[u8], nbytes: usize) -> (r: u64)
    requires
        1 <= nbytes <= 8,
        nbytes <= buf@.len(),
    ensures
        r == be_value(buf@.take(nbytes as int)),
{
    BigEndian::read_uint(buf, nbytes)
}

/// `byteorder::BigEndian::write_u16` on two bytes: they are those of `n`,
/// most significant byte first.
#[verifier::external_body]
fn write_u16(n: u16) -> (r: [u8; 2])
    ensures
        r@ == be_bytes(n as nat, 2),
{
    let mut buf = [0u8; 2];
    BigEndian::write_u16(&mut buf, n);
    buf
}

/// `byteorder::BigEndian::write_u64` on eight bytes: they are those of `n`,
/// most significant byte first.
#[verifier::external_body]
fn write_u64(n: u64) -> (r: [u8; 8])
    ensures
        r@ == be_bytes(n as nat, 8),
{
    let mut buf = [0u8; 8];
    BigEndian::write_u64(&mut buf, n);
    buf
}

/// `rand::random` for four bytes. Nothing is known of what comes out.
#[verifier::external_body]
fn random_mask() -> (r: [u8; 4]) {
    rand::random()
}

/// `bytes::BytesMut`, a buffer of bytes that grows. It is declared so
/// that frames can be built in one; what it holds has the name
/// [`buffered`].
#[verifier::external_type_specification]
#[verifier::external_body]
pub struct ExBytesMut(BytesMut);

/// `bytes::Bytes`, bytes that do not change any more. It is declared so
/// that frames can be handed out as such; what it holds has the name
/// [`frozen`].
#[verifier::external_type_specification]
#[verifier::external_body]
pub struct ExBytes(Bytes);

/// The bytes that a `bytes::BytesMut` holds.
pub uninterp spec fn buffered(buf: BytesMut) -> Seq<u8>;

/// The bytes that a `bytes::Bytes` holds.
pub uninterp spec fn frozen(bytes: Bytes) -> Seq<u8>;

/// `bytes::BytesMut::with_capacity`: a buffer that holds no bytes. The
/// capacity is room set aside and says nothing of the contents.
#[verifier::external_body]
fn buffer_with_capacity(capacity: usize) -> (r: BytesMut)
    ensures
        buffered(r) == Seq::<u8>::empty(),
{
    BytesMut::with_capacity(capacity)
}

/// `bytes::BufMut::put_slice` on a `BytesMut`, which grows as needed: the
/// bytes of `src` are appended.
#[verifier::external_body]
fn buffer_put(buf: &mut BytesMut, src: &[u8])
    ensures
        buffered(*final(buf)) == buffered(*old(buf)) + src@,
{
    buf.put_slice(src)
}

/// `bytes::BytesMut::freeze`: the same bytes, not to be changed any more.
#[verifier::external_body]
fn buffer_freeze(buf: BytesMut) -> (r: Bytes)
    ensures
        frozen(r) == buffered(buf),
{
    buf.freeze()
}

/// Why the bytes received are no frame that the endpoint takes.
#[derive(Clone, Copy, Debug, PartialEq, Eq, Structural)]
pub enum ProtocolError {
    /// A client sent a frame that is not masked.
    UnmaskedFrame,
    /// A server sent a frame that is masked.
    MaskedFrame,
    /// The operation code names no kind of frame.
    InvalidOpcode(u8),
    /// A control frame is longer than 125 bytes.
    InvalidLength(usize),
    /// The payload is larger than allowed.
    Overflow,
    /// The stream of bytes failed.
    Payload(PayloadError),
}

/// What a frame says: whether it ends its message, the three reserved
/// bits, its kind, and its payload without mask.
pub struct FrameData {
    pub finished: bool,
    pub rsv1: bool,
    pub rsv2: bool,
    pub rsv3: bool,
    pub opcode: OpCode,
    pub payload: Seq<u8>,
}

/// A WebSocket frame.
#[derive(Debug)]
pub struct Frame {
    pub finished: bool,
    pub rsv1: bool,
    pub rsv2: bool,
    pub rsv3: bool,
    pub opcode: OpCode,
    pub payload: Vec<u8>,
}

impl View for Frame {
    type V = FrameData;

    open spec fn view(&self) -> FrameData {
        FrameData {
            finished: self.finished,
            rsv1: self.rsv1,
            rsv2: self.rsv2,
            rsv3: self.rsv3,
            opcode: self.opcode,
            payload: self.payload@,
        }
    }
}

/// The close frame that stands in for a close frame whose payload is too
/// long.
pub open spec fn default_frame() -> FrameData {
    FrameData {
        finished: true,
        rsv1: false,
        rsv2: false,
        rsv3: false,
        opcode: OpCode::Close,
        payload: Seq::empty(),
    }
}

/// What a run of bytes is, read as the start of a stream of frames.
pub enum Parsed {
    /// Not a whole frame yet.
    Short,
    /// A frame, and the number of bytes it takes.
    Frame(FrameData, nat),
    /// No frame that the endpoint takes, and the number of bytes that are
    /// used up.
    Error(ProtocolError, nat),
}

/// The length of the header of a frame up to its length field, by its
/// second byte.
pub open spec fn header_len(second: u8) -> nat {
    if second & 0x7f == 126 {
        4
    } else if second & 0x7f == 127 {
        10
    } else {
        2
    }
}

/// The length of the payload of a frame whose header `buf` holds.
pub open spec fn payload_len(buf: Seq<u8>) -> nat {
    if buf[1] & 0x7f == 126 {
        be_value(buf.subrange(2, 4))
    } else if buf[1] & 0x7f == 127 {
        be_value(buf.subrange(2, 10))
    } else {
        (buf[1] & 0x7f) as nat
    }
}

/// What the header at the start of a run of bytes says.
pub enum Headed {
    /// Not a whole header yet.
    Short,
    /// A header that the endpoint refuses.
    Error(ProtocolError),
    /// A header: where the mask key would stand, where the payload starts,
    /// and how long it is.
    Header { key_at: nat, start: nat, length: nat },
}

/// The header at the start of `buf`, as an endpoint reads it that takes
/// payloads of up to `max_size` bytes and is a server (`server`) or a
/// client.
///
/// The second byte holds the mask bit and a length of seven bits. A server
/// takes masked frames only, a client unmasked ones only. A length of 126
/// or 127 stands for a length in the next two or eight bytes, most
/// significant byte first. A payload that is longer than `max_size` is
/// refused. The four bytes of the mask key follow, if the frame is masked.
pub open spec fn headed(buf: Seq<u8>, server: bool, max_size: nat) -> Headed {
    if buf.len() < 2 {
        Headed::Short
    } else if buf[1] & 0x80 == 0 && server {
        Headed::Error(ProtocolError::UnmaskedFrame)
    } else if buf[1] & 0x80 != 0 && !server {
        Headed::Error(ProtocolError::MaskedFrame)
    } else if buf.len() < header_len(buf[1]) {
        Headed::Short
    } else if payload_len(buf) > max_size {
        Headed::Error(ProtocolError::Overflow)
    } else {
        Headed::Header {
            key_at: header_len(buf[1]),
            start: if server {
                header_len(buf[1]) + 4
            } else {
                header_len(buf[1])
            },
            length: payload_len(buf),
        }
    }
}

/// The frame that the first byte of a header and a payload make, as the
/// payload came in, with the mask key `key` where the endpoint is a server.
///
/// The first byte holds the final bit, three reserved bits and the
/// operation code. A code that names no kind of frame is refused; so is a
/// ping or pong of more than 125 bytes; a close frame of more than 125
/// bytes is replaced by an empty one. The payload of a masked frame is
/// unmasked.
pub open spec fn framed(first: u8, data: Seq<u8>, server: bool, key: Seq<u8>) -> Result<
    FrameData,
    ProtocolError,
> {
    let code = opcode_of(first & 0x0f);
    if code == OpCode::Bad {
        Err(ProtocolError::InvalidOpcode(first & 0x0f))
    } else if (code == OpCode::Ping || code == OpCode::Pong) && data.len() > 125 {
        Err(ProtocolError::InvalidLength(data.len() as usize))
    } else if code == OpCode::Close && data.len() > 125 {
        Ok(default_frame())
    } else {
        Ok(
            FrameData {
                finished: first & 0x80 != 0,
                rsv1: first & 0x40 != 0,
                rsv2: first & 0x20 != 0,
                rsv3: first & 0x10 != 0,
                opcode: code,
                payload: if server {
                    masked(data, key)
                } else {
                    data
                },
            },
        )
    }
}

/// The frame at the start of `buf`, as an endpoint reads it that takes
/// payloads of up to `max_size` bytes and is a server (`server`) or a
/// client: the header is read as [`headed`] says, and a header that is
/// refused uses up no bytes; then comes the payload; and only when the
/// whole payload is there the frame is made as [`framed`] says, or refused
/// with all its bytes used up.
pub open spec fn parsed(buf: Seq<u8>, server: bool, max_size: nat) -> Parsed {
    match headed(buf, server, max_size) {
        Headed::Short => Parsed::Short,
        Headed::Error(err) => Parsed::Error(err, 0),
        Headed::Header { key_at, start, length } => if buf.len() < start + length {
            Parsed::Short
        } else {
            match framed(
                buf[0],
                buf.subrange(start as int, (start + length) as int),
                server,
                buf.subrange(key_at as int, (key_at + 4) as int),
            ) {
                Ok(frame) => Parsed::Frame(frame, start + length),
                Err(err) => Parsed::Error(err, start + length),
            }
        },
    }
}

/// The length field of a frame header: the mask bit with the length where
/// that is below 126, else with 126 and the length in two bytes where two
/// hold it, else with 127 and the length in eight bytes.
pub open spec fn length_field(len: nat, mask_bit: u8) -> Seq<u8> {
    if len < 126 {
        seq![mask_bit | (len as u8)]
    } else if len <= 65535 {
        seq![mask_bit | 126u8] + be_bytes(len, 2)
    } else {
        seq![mask_bit | 127u8] + be_bytes(len, 8)
    }
}

/// The first byte of a frame header.
pub open spec fn first_byte(code: OpCode, finished: bool) -> u8 {
    if finished {
        0x80u8 | opcode_byte(code)
    } else {
        opcode_byte(code)
    }
}

/// The bytes of a frame: header, then the mask key and the masked payload
/// where there is a key, else the payload as it is.
pub open spec fn emitted(
    payload: Seq<u8>,
    code: OpCode,
    finished: bool,
    key: Option<Seq<u8>>,
) -> Seq<u8> {
    match key {
        Some(k) => seq![first_byte(code, finished)] + length_field(payload.len(), 0x80) + k
            + masked(payload, k),
        None => seq![first_byte(code, finished)] + length_field(payload.len(), 0) + payload,
    }
}

/// The payload of a close frame: empty for the code `Empty`, else the
/// number of the code in two bytes and then the reason.
pub open spec fn close_payload(code: CloseCode, reason: Seq<u8>) -> Seq<u8> {
    if code == CloseCode::Empty {
        Seq::empty()
    } else {
        be_bytes(close_number(code) as nat, 2) + reason
    }
}


/// What the stream says to a parser that wants more than is there.
pub open spec fn starving(pl: PayloadHelper) -> Result<Async<Option<Frame>>, ProtocolError> {
    match pl.err {
        Some(err) => Err(ProtocolError::Payload(err)),
        None => if pl.eof {
            Ok(Async::Ready(None))
        } else {
            Ok(Async::NotReady)
        },
    }
}

/// What the stream says to a parser that wants more than is there.
fn starve(pl: &PayloadHelper) -> (r: Result<Async<Option<Frame>>, ProtocolError>)
    ensures
        r == starving(*pl),
{
    match pl.err {
        Some(err) => Err(ProtocolError::Payload(err)),
        None => if pl.eof {
            Ok(Async::Ready(None))
        } else {
            Ok(Async::NotReady)
        },
    }
}

impl Default for Frame {
    /// An empty close frame.
    fn default() -> (r: Frame)
        ensures
            r@ == default_frame(),
    {
        Frame {
            finished: true,
            rsv1: false,
            rsv2: false,
            rsv3: false,
            opcode: OpCode::Close,
            payload: Vec::new(),
        }
    }
}

/// `true` or `false`.
pub open spec fn bool_text(b: bool) -> Seq<char> {
    if b {
        "true"@
    } else {
        "false"@
    }
}

/// The name of a kind of frame.
pub open spec fn opcode_text(code: OpCode) -> Seq<char> {
    match code {
        OpCode::Continue => "CONTINUE"@,
        OpCode::Text => "TEXT"@,
        OpCode::Binary => "BINARY"@,
        OpCode::Close => "CLOSE"@,
        OpCode::Ping => "PING"@,
        OpCode::Pong => "PONG"@,
        OpCode::Bad => "BAD"@,
    }
}

/// A frame as text for a reader: its final bit, its reserved bits, its
/// kind, the length of its payload, and the payload to the base sixteen.
pub open spec fn frame_text(frame: FrameData) -> Seq<char> {
    "\n<FRAME>\n    final: "@ + bool_text(frame.finished) + "\n    reserved: "@ + bool_text(
        frame.rsv1,
    ) + " "@ + bool_text(frame.rsv2) + " "@ + bool_text(frame.rsv3) + "\n    opcode: "@
        + opcode_text(frame.opcode) + "\n    payload length: "@ + decimal(frame.payload.len())
        + "\n    payload: 0x"@ + hex_text(frame.payload) + "\n</FRAME>"@
}

/// `true` or `false`.
fn bool_str(b: bool) -> (r: &'static str)
    ensures
        r@ == bool_text(b),
{
    if b {
        "true"
    } else {
        "false"
    }
}

impl Frame {
    /// The frame as text for a reader.
    pub fn to_string(&self) -> (r: String)
        ensures
            r@ == frame_text(self@),
    {
        let mut text = "\n<FRAME>\n    final: ".to_owned();
        text.append(bool_str(self.finished));
        text.append("\n    reserved: ");
        text.append(bool_str(self.rsv1));
        text.append(" ");
        text.append(bool_str(self.rsv2));
        text.append(" ");
        text.append(bool_str(self.rsv3));
        text.append("\n    opcode: ");
        text.append(self.opcode.name());
        text.append("\n    payload length: ");
        text.append(convert_usize(self.payload.len()).as_str());
        text.append("\n    payload: 0x");
        push_hex(&mut text, self.payload.as_slice());
        text.append("\n</FRAME>");
        text
    }

    /// Takes the frame apart: whether it ends its message, its kind, its
    /// payload.
    pub fn unpack(self) -> (r: (bool, OpCode, Vec<u8>))
        ensures
            r == (self.finished, self.opcode, self.payload),
    {
        (self.finished, self.opcode, self.payload)
    }

    /// The bytes of a close frame with `code` and `reason`, masked with a
    /// random key if `genmask` is set.
    pub fn close(code: CloseCode, reason: &str, genmask: bool) -> (r: Bytes)
        ensures
            !genmask ==> frozen(r) == emitted(
                close_payload(code, reason.spec_bytes()),
                OpCode::Close,
                true,
                None,
            ),
            genmask ==> exists|key: Seq<u8>|
                key.len() == 4 && frozen(r) == emitted(
                    close_payload(code, reason.spec_bytes()),
                    OpCode::Close,
                    true,
                    Some(key),
                ),
    {
        let payload = Frame::close_payload(code, reason);
        Frame::message(payload, OpCode::Close, true, genmask)
    }

    /// The payload of a close frame with `code` and `reason`.
    pub fn close_payload(code: CloseCode, reason: &str) -> (r: Vec<u8>)
        ensures
            r@ == close_payload(code, reason.spec_bytes()),
    {
        let mut payload: Vec<u8> = Vec::new();
        if let CloseCode::Empty = code {
        } else {
            let raw = write_u16(u16::from(code));
            payload.push(raw[0]);
            payload.push(raw[1]);
            let text = reason.as_bytes();
            let mut i: usize = 0;
            assert(payload@ =~= raw@);
            while i < text.len()
                invariant
                    i <= text.len(),
                    payload@ == raw@ + text@.take(i as int),
                decreases text.len() - i,
            {
                payload.push(text[i]);
                i += 1;
                assert(payload@ =~= raw@ + text@.take(i as int));
            }
            assert(text@.take(text@.len() as int) =~= text@);
        }
        payload
    }

    /// The bytes of a frame with payload `data`, masked with a random key
    /// if `genmask` is set.
    pub fn message(data: Vec<u8>, code: OpCode, finished: bool, genmask: bool) -> (r: Bytes)
        ensures
            !genmask ==> frozen(r) == emitted(data@, code, finished, None),
            genmask ==> exists|key: Seq<u8>|
                key.len() == 4 && frozen(r) == emitted(data@, code, finished, Some(key)),
    {
        if genmask {
            let mask = random_mask();
            Frame::encode(data, code, finished, Some(mask))
        } else {
            Frame::encode(data, code, finished, None)
        }
    }

    /// The bytes of a frame with payload `data`, masked with `mask` if
    /// there is one.
    pub fn encode(data: Vec<u8>, code: OpCode, finished: bool, mask: Option<[u8; 4]>) -> (r: Bytes)
        ensures
            frozen(r) == emitted(
                data@,
                code,
                finished,
                match mask {
                    Some(key) => Some(key@),
                    None => None,
                },
            ),
    {
        let mut payload = data;
        let one: u8 = if finished {
            0x80 | u8::from(code)
        } else {
            u8::from(code)
        };
        let payload_len = payload.len();
        let two: u8 = if mask.is_some() {
            0x80
        } else {
            0
        };
        let mut buf = buffer_with_capacity(0);
        let ghost head;
        if payload_len < 126 {
            let start: [u8; 2] = [one, two | (payload_len as u8)];
            buffer_put(&mut buf, start.as_slice());
            proof {
                head = seq![one] + length_field(payload_len as nat, two);
                assert(buffered(buf) =~= head);
            }
        } else if payload_len <= 65_535 {
            let start: [u8; 2] = [one, two | 126];
            buffer_put(&mut buf, start.as_slice());
            let len = write_u16(payload_len as u16);
            buffer_put(&mut buf, len.as_slice());
            proof {
                head = seq![one] + length_field(payload_len as nat, two);
                assert(buffered(buf) =~= head);
            }
        } else {
            let start: [u8; 2] = [one, two | 127];
            buffer_put(&mut buf, start.as_slice());
            let len = write_u64(payload_len as u64);
            buffer_put(&mut buf, len.as_slice());
            proof {
                head = seq![one] + length_field(payload_len as nat, two);
                assert(buffered(buf) =~= head);
            }
        }
        match mask {
            Some(key) => {
                buffer_put(&mut buf, key.as_slice());
                apply_mask(&mut payload, &key);
                buffer_put(&mut buf, payload.as_slice());
            },
            None => {
                buffer_put(&mut buf, payload.as_slice());
            },
        }
        buffer_freeze(buf)
    }

    /// Reads the header at the start of `buf`: where the mask key would
    /// stand, where the payload starts, and how long it is; `None` where
    /// the bytes are no whole header yet.
    pub fn read_header(buf: &[u8], server: bool, max_size: usize) -> (r: Result<
        Option<(usize, usize, usize)>,
        ProtocolError,
    >)
        ensures
            match headed(buf@, server, max_size as nat) {
                Headed::Short => r == Ok::<_, ProtocolError>(None::<(usize, usize, usize)>),
                Headed::Error(err) => r == Err::<Option<(usize, usize, usize)>, _>(err),
                Headed::Header { key_at, start, length } => r == Ok::<_, ProtocolError>(
                    Some((key_at as usize, start as usize, length as usize)),
                ) && key_at <= 10 && start <= 14 && length <= max_size,
            },
    {
        if buf.len() < 2 {
            return Ok(None);
        }
        let second = buf[1];
        let masked = second & 0x80 != 0;
        if !masked && server {
            return Err(ProtocolError::UnmaskedFrame);
        } else if masked && !server {
            return Err(ProtocolError::MaskedFrame);
        }
        let len = second & 0x7f;
        let mut idx: usize = 2;
        let length: u64 = if len == 126 {
            if buf.len() < 4 {
                return Ok(None);
            }
            let ext = slice_subrange(buf, 2, 4);
            assert(ext@.take(2) =~= buf@.subrange(2, 4));
            idx = 4;
            read_uint(ext, 2)
        } else if len == 127 {
            if buf.len() < 10 {
                return Ok(None);
            }
            let ext = slice_subrange(buf, 2, 10);
            assert(ext@.take(8) =~= buf@.subrange(2, 10));
            idx = 10;
            read_uint(ext, 8)
        } else {
            len as u64
        };
        if length > max_size as u64 {
            return Err(ProtocolError::Overflow);
        }
        let key_at = idx;
        if server {
            idx = idx + 4;
        }
        Ok(Some((key_at, idx, length as usize)))
    }

    /// Reads the next frame from the bytes received.
    ///
    /// A frame is taken off the buffer with its header. Where the bytes are
    /// no whole frame yet the buffer stays as it is, and the result says
    /// what the stream says: its error, that it has ended, or that it is
    /// not ready. A frame that is refused for its mask or for its length
    /// leaves the buffer as it is; one that is refused for what it holds is
    /// taken off.
    pub fn parse(pl: &mut PayloadHelper, server: bool, max_size: usize) -> (r: Result<
        Async<Option<Frame>>,
        ProtocolError,
    >)
        ensures
            final(pl).eof == old(pl).eof,
            final(pl).err == old(pl).err,
            match parsed(old(pl).buf@, server, max_size as nat) {
                Parsed::Short => r == starving(*old(pl)) && final(pl).buf == old(pl).buf,
                Parsed::Error(err, used) => r == Err::<Async<Option<Frame>>, _>(err) && final(pl).buf@ == old(pl).buf@.skip(used as int),
                Parsed::Frame(frame, used) => (r matches Ok(Async::Ready(Some(f))) && f@
                    == frame) && final(pl).buf@ == old(pl).buf@.skip(used as int),
            },
    {
        let ghost buf = pl.buf@;
        let (key_at, idx, length) = match Frame::read_header(pl.buf.as_slice(), server, max_size) {
            Ok(Some(header)) => header,
            Ok(None) => {
                return starve(pl);
            },
            Err(err) => {
                assert(buf.skip(0) =~= buf);
                return Err(err);
            },
        };
        let have = pl.buf.len();
        let total = match idx.checked_add(length) {
            Some(total) => total,
            None => {
                return starve(pl);
            },
        };
        if have < total {
            return starve(pl);
        }
        let first = pl.buf[0];
        let mut key: [u8; 4] = [0u8; 4];
        if server {
            key[0] = pl.buf[key_at];
            key[1] = pl.buf[key_at + 1];
            key[2] = pl.buf[key_at + 2];
            key[3] = pl.buf[key_at + 3];
            assert(key@ =~= buf.subrange(key_at as int, key_at + 4));
        }
        pl.drop_payload(idx);
        let data = match pl.readexactly(length) {
            Ok(Async::Ready(Some(data))) => data,
            _ => {
                return starve(pl);
            },
        };
        proof {
            assert(data@ =~= buf.subrange(idx as int, idx + length));
            assert(pl.buf@ =~= buf.skip(total as int));
            if !server {
                assert(framed(first, data@, server, key@) == framed(
                    first,
                    data@,
                    server,
                    buf.subrange(key_at as int, key_at + 4),
                ));
            }
        }
        Frame::finish(first, data, server, &key)
    }

    /// Makes a frame of the first byte of its header and its payload, as
    /// it came in.
    fn finish(first: u8, data: Vec<u8>, server: bool, key: &[u8; 4]) -> (r: Result<
        Async<Option<Frame>>,
        ProtocolError,
    >)
        ensures
            match framed(first, data@, server, key@) {
                Ok(frame) => r matches Ok(Async::Ready(Some(f))) && f@ == frame,
                Err(err) => r == Err::<Async<Option<Frame>>, _>(err),
            },
    {
        let mut data = data;
        let length = data.len();
        let opcode = OpCode::from(first & 0x0f);
        if let OpCode::Bad = opcode {
            return Err(ProtocolError::InvalidOpcode(first & 0x0f));
        }
        match opcode {
            OpCode::Ping | OpCode::Pong => {
                if length > 125 {
                    return Err(ProtocolError::InvalidLength(length));
                }
            },
            OpCode::Close => {
                if length > 125 {
                    return Ok(Async::Ready(Some(Frame::default())));
                }
            },
            _ => {},
        }
        if server {
            apply_mask(&mut data, key);
        }
        Ok(
            Async::Ready(
                Some(
                    Frame {
                        finished: first & 0x80 != 0,
                        rsv1: first & 0x40 != 0,
                        rsv2: first & 0x20 != 0,
                        rsv3: first & 0x10 != 0,
                        opcode,
                        payload: data,
                    },
                ),
            ),
        )
    }
}


/// The mask law: masking twice with the same key gives the payload back.
pub proof fn lemma_mask_involution(payload: Seq<u8>, key: Seq<u8>)
    requires
        key.len() == 4,
    ensures
        masked(masked(payload, key), key) == payload,
{
    let once = masked(payload, key);
    let twice = masked(once, key);
    assert forall|i: int| 0 <= i < payload.len() implies twice[i] == payload[i] by {
        let b = payload[i];
        let k = key[i % 4];
        assert((b ^ k) ^ k == b) by (bit_vector);
    }
    assert(twice =~= payload);
}

/// What the bits of the first byte of a header say.
proof fn lemma_first_byte(code: OpCode, finished: bool)
    requires
        code != OpCode::Bad,
    ensures
        opcode_of(first_byte(code, finished) & 0x0f) == code,
        (first_byte(code, finished) & 0x80 != 0) == finished,
        first_byte(code, finished) & 0x40 == 0,
        first_byte(code, finished) & 0x20 == 0,
        first_byte(code, finished) & 0x10 == 0,
{
    let c = opcode_byte(code);
    assert(c < 16);
    assert((0x80u8 | c) & 0x0f == c && (0x80u8 | c) & 0x80 != 0 && (0x80u8 | c) & 0x40 == 0 && (
    0x80u8 | c) & 0x20 == 0 && (0x80u8 | c) & 0x10 == 0 && c & 0x0f == c && c & 0x80 == 0 && c
        & 0x40 == 0 && c & 0x20 == 0 && c & 0x10 == 0) by (bit_vector)
        requires
            c < 16,
    ;
}

/// What the bits of the second byte of a header say.
proof fn lemma_second_byte(len7: u8)
    requires
        len7 <= 127,
    ensures
        (0x80u8 | len7) & 0x80 != 0,
        (0x80u8 | len7) & 0x7f == len7,
        (0u8 | len7) & 0x80 == 0,
        (0u8 | len7) & 0x7f == len7,
{
    assert((0x80u8 | len7) & 0x80 != 0 && (0x80u8 | len7) & 0x7f == len7 && (0u8 | len7) & 0x80
        == 0 && (0u8 | len7) & 0x7f == len7) by (bit_vector)
        requires
            len7 <= 127,
    ;
}

/// The header that the bytes of a frame start with is read back as it was
/// written.
proof fn lemma_header_round_trip(
    payload: Seq<u8>,
    code: OpCode,
    finished: bool,
    key: Option<Seq<u8>>,
    max_size: nat,
)
    requires
        payload.len() <= max_size,
        payload.len() <= u64::MAX,
        key matches Some(k) ==> k.len() == 4,
    ensures
        ({
            let bytes = emitted(payload, code, finished, key);
            let field = length_field(
                payload.len(),
                if key is Some {
                    0x80u8
                } else {
                    0u8
                },
            );
            &&& bytes[0] == first_byte(code, finished)
            &&& headed(bytes, key is Some, max_size) == (Headed::Header {
                key_at: 1 + field.len(),
                start: 1 + field.len() + if key is Some {
                    4nat
                } else {
                    0nat
                },
                length: payload.len(),
            })
            &&& bytes.len() == 1 + field.len() + (if key is Some {
                4nat
            } else {
                0nat
            }) + payload.len()
        }),
{
    let n = payload.len();
    let mask_bit = if key is Some {
        0x80u8
    } else {
        0u8
    };
    let field = length_field(n, mask_bit);
    let bytes = emitted(payload, code, finished, key);
    let rest = match key {
        Some(k) => k + masked(payload, k),
        None => payload,
    };
    assert(bytes =~= seq![first_byte(code, finished)] + field + rest);
    assert(pow256(2) == 65536 && pow256(8) == 0x1_0000_0000_0000_0000) by {
        reveal_with_fuel(pow256, 9);
    }
    if n < 126 {
        lemma_second_byte(n as u8);
        assert(field.len() == 1);
        assert(bytes[1] == mask_bit | (n as u8));
    } else if n <= 65535 {
        lemma_second_byte(126);
        lemma_be_roundtrip(n, 2);
        assert(field.len() == 3);
        assert(bytes[1] == mask_bit | 126u8);
        assert(bytes.subrange(2, 4) =~= be_bytes(n, 2));
        assert(n % 65536 == n);
    } else {
        lemma_second_byte(127);
        lemma_be_roundtrip(n, 8);
        assert(field.len() == 9);
        assert(bytes[1] == mask_bit | 127u8);
        assert(bytes.subrange(2, 10) =~= be_bytes(n, 8));
        assert(n % 0x1_0000_0000_0000_0000 == n);
    }
}

/// The round trip: the bytes written for a frame are read back as that
/// frame, and all of them are used. This holds for every kind of frame that
/// has a code, every payload that the reader takes for its size, and for
/// control frames every payload of up to 125 bytes; written with a mask key
/// the bytes are read by a server, without one by a client.
pub proof fn lemma_round_trip(
    payload: Seq<u8>,
    code: OpCode,
    finished: bool,
    key: Option<Seq<u8>>,
    max_size: nat,
)
    requires
        code != OpCode::Bad,
        payload.len() <= max_size,
        payload.len() <= u64::MAX,
        code == OpCode::Ping || code == OpCode::Pong || code == OpCode::Close ==> payload.len()
            <= 125,
        key matches Some(k) ==> k.len() == 4,
    ensures
        parsed(emitted(payload, code, finished, key), key is Some, max_size) == Parsed::Frame(
            FrameData {
                finished,
                rsv1: false,
                rsv2: false,
                rsv3: false,
                opcode: code,
                payload,
            },
            emitted(payload, code, finished, key).len(),
        ),
{
    let n = payload.len();
    let bytes = emitted(payload, code, finished, key);
    let mask_bit = if key is Some {
        0x80u8
    } else {
        0u8
    };
    let field = length_field(n, mask_bit);
    lemma_header_round_trip(payload, code, finished, key, max_size);
    lemma_first_byte(code, finished);
    let key_at = (1 + field.len()) as int;
    match key {
        Some(k) => {
            assert(bytes =~= seq![first_byte(code, finished)] + field + k + masked(payload, k));
            assert(bytes.subrange(key_at, key_at + 4) =~= k);
            assert(bytes.subrange(key_at + 4, key_at + 4 + n) =~= masked(payload, k));
            lemma_mask_involution(payload, k);
        },
        None => {
            assert(bytes =~= seq![first_byte(code, finished)] + field + payload);
            assert(bytes.subrange(key_at, key_at + n) =~= payload);
        },
    }
}

} // verus!
