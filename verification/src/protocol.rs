//! The wire format shared by the student client and the teacher's server.
//!
//! Every packet is an 8-byte header followed by the payload:
//! the two magic bytes `H` `E`, the packet type as a big-endian `u16`
//! and the payload length as a big-endian `u32`.

use std::io::Cursor;
use vstd::prelude::*;
use vstd::slice::slice_subrange;

verus! {

pub const HEADER_SIZE: usize = 8;

/// Sent by the server as a `Message` packet just before it closes a
/// connection that presented the wrong class code.
pub const REJECT_WRONG_CODE: &'static str = "WRONG_CODE";

/// Sent by the client as a `Message` packet when the OS refuses screen capture.
pub const CLIENT_NO_SCREEN_PERMISSION: &'static str = "NO_SCREEN_PERMISSION";

/// Prefix marking a generated per-install device id rather than a real student ID.
pub const DEVICE_ID_PREFIX: &'static str = "dev:";

/// First magic byte, ASCII `H`.
pub const MAGIC_FIRST: u8 = 0x48;

/// Second magic byte, ASCII `E`.
pub const MAGIC_SECOND: u8 = 0x45;

/// Largest payload a reader accepts (20 MiB).
pub const MAX_PAYLOAD_SIZE: u32 = 20971520;

#[derive(Clone, Copy, Debug, PartialEq, Eq, Structural)]
pub enum PacketType {
    Name,
    Message,
    Picture,
}

/// Why a packet could not be written or read.
#[derive(Clone, Copy, Debug, PartialEq, Eq, Structural)]
pub enum ProtocolError {
    /// The payload is longer than a `u32` length field can describe.
    PayloadTooLarge,
    /// Fewer than eight bytes were available for the header.
    TruncatedHeader,
    /// The header does not start with `HE`.
    InvalidMagic,
    /// The type field holds a value other than 0, 1 or 2.
    UnknownPacketType(u16),
    /// The length field exceeds `MAX_PAYLOAD_SIZE`.
    PayloadExceedsMaximum,
    /// The stream ended before the announced payload was complete.
    TruncatedPayload,
}

impl ProtocolError {
    /// A short human-readable description of the error.
    pub fn message(&self) -> (r: &'static str)
        ensures
            r@ == match *self {
                ProtocolError::PayloadTooLarge => "payload too large"@,
                ProtocolError::TruncatedHeader => "failed to fill whole buffer"@,
                ProtocolError::InvalidMagic => "invalid packet magic"@,
                ProtocolError::UnknownPacketType(_) => "unknown packet type"@,
                ProtocolError::PayloadExceedsMaximum => "payload exceeds maximum size"@,
                ProtocolError::TruncatedPayload => "connection closed mid-payload"@,
            },
    {
        match self {
            ProtocolError::PayloadTooLarge => "payload too large",
            ProtocolError::TruncatedHeader => "failed to fill whole buffer",
            ProtocolError::InvalidMagic => "invalid packet magic",
            ProtocolError::UnknownPacketType(_) => "unknown packet type",
            ProtocolError::PayloadExceedsMaximum => "payload exceeds maximum size",
            ProtocolError::TruncatedPayload => "connection closed mid-payload",
        }
    }

    /// Whether the error means that the input ended too early.
    pub fn is_unexpected_eof(&self) -> (r: bool)
        ensures
            r == (*self is TruncatedHeader || *self is TruncatedPayload),
    {
        match self {
            ProtocolError::TruncatedHeader => true,
            ProtocolError::TruncatedPayload => true,
            _ => false,
        }
    }
}

impl PacketType {
    /// The number that stands for the type on the wire.
    pub open spec fn spec_code(self) -> u16 {
        match self {
            PacketType::Name => 0,
            PacketType::Message => 1,
            PacketType::Picture => 2,
        }
    }

    pub fn code(self) -> (c: u16)
        ensures
            c == self.spec_code(),
    {
        match self {
            PacketType::Name => 0,
            PacketType::Message => 1,
            PacketType::Picture => 2,
        }
    }

    /// The type a wire number stands for, if any.
    pub open spec fn spec_from_code(value: u16) -> Option<PacketType> {
        if value == 0 {
            Some(PacketType::Name)
        } else if value == 1 {
            Some(PacketType::Message)
        } else if value == 2 {
            Some(PacketType::Picture)
        } else {
            None
        }
    }

    pub fn from_code(value: u16) -> (r: Result<PacketType, ProtocolError>)
        ensures
            match PacketType::spec_from_code(value) {
                Some(t) => r == Ok::<PacketType, ProtocolError>(t),
                None => r == Err::<PacketType, ProtocolError>(ProtocolError::UnknownPacketType(value)),
            },
    {
        if value == 0 {
            Ok(PacketType::Name)
        } else if value == 1 {
            Ok(PacketType::Message)
        } else if value == 2 {
            Ok(PacketType::Picture)
        } else {
            Err(ProtocolError::UnknownPacketType(value))
        }
    }
}

impl TryFrom<u16> for PacketType {
    type Error = ProtocolError;

    fn try_from(value: u16) -> (r: Result<PacketType, ProtocolError>) {
        PacketType::from_code(value)
    }
}

impl vstd::std_specs::convert::TryFromSpecImpl<u16> for PacketType {
    open spec fn obeys_try_from_spec() -> bool {
        true
    }

    open spec fn try_from_spec(value: u16) -> Result<PacketType, ProtocolError> {
        match PacketType::spec_from_code(value) {
            Some(t) => Ok(t),
            None => Err(ProtocolError::UnknownPacketType(value)),
        }
    }
}

pub struct Packet {
    pub packet_type: PacketType,
    pub payload: Vec<u8>,
}

/// Big-endian bytes of a `u16`.
pub open spec fn be_u16_bytes(v: u16) -> Seq<u8> {
    seq![(v / 256) as u8, (v % 256) as u8]
}

/// Big-endian bytes of a `u32`.
pub open spec fn be_u32_bytes(v: u32) -> Seq<u8> {
    seq![(v / 16777216) as u8, ((v / 65536) % 256) as u8, ((v / 256) % 256) as u8, (v % 256) as u8]
}

/// The `u16` that two big-endian bytes stand for.
pub open spec fn be_u16_value(b0: u8, b1: u8) -> u16 {
    (b0 * 256 + b1) as u16
}

/// The `u32` that four big-endian bytes stand for.
pub open spec fn be_u32_value(b0: u8, b1: u8, b2: u8, b3: u8) -> u32 {
    (b0 * 16777216 + b1 * 65536 + b2 * 256 + b3) as u32
}

/// The header of a packet of type `t` with a payload of `len` bytes.
pub open spec fn header_bytes(t: PacketType, len: u32) -> Seq<u8> {
    seq![MAGIC_FIRST, MAGIC_SECOND] + be_u16_bytes(t.spec_code()) + be_u32_bytes(len)
}

/// The complete frame of a packet: header, then payload.
pub open spec fn frame_bytes(t: PacketType, payload: Seq<u8>) -> Seq<u8>
    recommends
        payload.len() <= u32::MAX,
{
    header_bytes(t, payload.len() as u32) + payload
}

/// What a reader makes of the bytes that lie ahead of it: the packet at their
/// start, or the reason why there is none.
pub open spec fn decode_frame(bytes: Seq<u8>) -> Result<(PacketType, Seq<u8>), ProtocolError> {
    if bytes.len() < HEADER_SIZE {
        Err(ProtocolError::TruncatedHeader)
    } else if bytes[0] != MAGIC_FIRST || bytes[1] != MAGIC_SECOND {
        Err(ProtocolError::InvalidMagic)
    } else {
        let code = be_u16_value(bytes[2], bytes[3]);
        match PacketType::spec_from_code(code) {
            None => Err(ProtocolError::UnknownPacketType(code)),
            Some(t) => {
                let len = be_u32_value(bytes[4], bytes[5], bytes[6], bytes[7]);
                if len > MAX_PAYLOAD_SIZE {
                    Err(ProtocolError::PayloadExceedsMaximum)
                } else if bytes.len() - HEADER_SIZE < len {
                    Err(ProtocolError::TruncatedPayload)
                } else {
                    Ok((t, bytes.subrange(HEADER_SIZE as int, HEADER_SIZE + len)))
                }
            },
        }
    }
}

proof fn lemma_be_u16_round_trip(v: u16)
    ensures
        be_u16_value(be_u16_bytes(v)[0], be_u16_bytes(v)[1]) == v,
{
}

proof fn lemma_be_u32_round_trip(v: u32)
    ensures
        be_u32_value(be_u32_bytes(v)[0], be_u32_bytes(v)[1], be_u32_bytes(v)[2], be_u32_bytes(v)[3]) == v,
{
    let b = be_u32_bytes(v);
    assert(b[0] * 16777216 + b[1] * 65536 + b[2] * 256 + b[3] == v) by (nonlinear_arith)
        requires
            b[0] == v / 16777216,
            b[1] == (v / 65536) % 256,
            b[2] == (v / 256) % 256,
            b[3] == v % 256,
            v <= u32::MAX,
    ;
}

proof fn lemma_be_u32_bytes_of_value(b0: u8, b1: u8, b2: u8, b3: u8)
    ensures
        be_u32_bytes(be_u32_value(b0, b1, b2, b3)) == seq![b0, b1, b2, b3],
{
    let v = be_u32_value(b0, b1, b2, b3);
    assert(v == b0 * 16777216 + b1 * 65536 + b2 * 256 + b3);
    assert(v / 16777216 == b0 && (v / 65536) % 256 == b1 && (v / 256) % 256 == b2 && v % 256 == b3)
        by (nonlinear_arith)
        requires
            v == b0 * 16777216 + b1 * 65536 + b2 * 256 + b3,
            b0 < 256,
            b1 < 256,
            b2 < 256,
            b3 < 256,
    ;
    assert(be_u32_bytes(v) =~= seq![b0, b1, b2, b3]);
}

proof fn lemma_be_u16_bytes_of_value(b0: u8, b1: u8)
    ensures
        be_u16_bytes(be_u16_value(b0, b1)) == seq![b0, b1],
{
    assert(be_u16_bytes(be_u16_value(b0, b1)) =~= seq![b0, b1]);
}

/// A reader that meets the frame of a packet gets that packet back, whatever
/// follows the frame, as long as the payload is within `MAX_PAYLOAD_SIZE`.
pub proof fn lemma_frame_round_trip(t: PacketType, payload: Seq<u8>, rest: Seq<u8>)
    requires
        payload.len() <= MAX_PAYLOAD_SIZE,
    ensures
        decode_frame(frame_bytes(t, payload) + rest) == Ok::<(PacketType, Seq<u8>), ProtocolError>((t, payload)),
{
    let len = payload.len() as u32;
    let bytes = frame_bytes(t, payload) + rest;
    lemma_be_u16_round_trip(t.spec_code());
    lemma_be_u32_round_trip(len);
    assert(bytes[2] == be_u16_bytes(t.spec_code())[0]);
    assert(bytes[3] == be_u16_bytes(t.spec_code())[1]);
    assert(bytes[4] == be_u32_bytes(len)[0]);
    assert(bytes[5] == be_u32_bytes(len)[1]);
    assert(bytes[6] == be_u32_bytes(len)[2]);
    assert(bytes[7] == be_u32_bytes(len)[3]);
    assert(bytes.subrange(HEADER_SIZE as int, HEADER_SIZE + len) =~= payload);
}

/// A frame whose payload is longer than `MAX_PAYLOAD_SIZE` is refused by the
/// reader, though a writer produces it.
pub proof fn lemma_oversized_frame_refused(t: PacketType, payload: Seq<u8>, rest: Seq<u8>)
    requires
        MAX_PAYLOAD_SIZE < payload.len() <= u32::MAX,
    ensures
        decode_frame(frame_bytes(t, payload) + rest) == Err::<(PacketType, Seq<u8>), ProtocolError>(ProtocolError::PayloadExceedsMaximum),
{
    let len = payload.len() as u32;
    let bytes = frame_bytes(t, payload) + rest;
    lemma_be_u16_round_trip(t.spec_code());
    lemma_be_u32_round_trip(len);
    assert(bytes[2] == be_u16_bytes(t.spec_code())[0]);
    assert(bytes[3] == be_u16_bytes(t.spec_code())[1]);
    assert(bytes[4] == be_u32_bytes(len)[0]);
    assert(bytes[5] == be_u32_bytes(len)[1]);
    assert(bytes[6] == be_u32_bytes(len)[2]);
    assert(bytes[7] == be_u32_bytes(len)[3]);
}

/// Every packet that a reader accepts was written in exactly one way: the
/// bytes it consumed are the frame of the packet it returned.
pub proof fn lemma_decoded_frame_is_canonical(bytes: Seq<u8>)
    requires
        decode_frame(bytes) is Ok,
    ensures
        ({
            let (t, payload) = decode_frame(bytes)->Ok_0;
            &&& payload.len() <= MAX_PAYLOAD_SIZE
            &&& HEADER_SIZE + payload.len() <= bytes.len()
            &&& frame_bytes(t, payload) == bytes.subrange(0, HEADER_SIZE + payload.len())
        }),
{
    let (t, payload) = decode_frame(bytes)->Ok_0;
    let len = be_u32_value(bytes[4], bytes[5], bytes[6], bytes[7]);
    let code = be_u16_value(bytes[2], bytes[3]);
    lemma_be_u32_bytes_of_value(bytes[4], bytes[5], bytes[6], bytes[7]);
    lemma_be_u16_bytes_of_value(bytes[2], bytes[3]);
    assert(t.spec_code() == code);
    assert(payload.len() == len);
    assert(frame_bytes(t, payload) =~= bytes.subrange(0, HEADER_SIZE + payload.len()));
}

/// Appends the frame of a packet to `writer`.
///
/// The payload length must fit in the `u32` length field; otherwise nothing
/// is written and `PayloadTooLarge` comes back.
pub fn write_packet(writer: &mut Vec<u8>, packet_type: PacketType, payload: &[u8]) -> (r: Result<
    (),
    ProtocolError,
>)
    ensures
        payload@.len() > u32::MAX ==> r == Err::<(), ProtocolError>(ProtocolError::PayloadTooLarge)
            && final(writer)@ == old(writer)@,
        payload@.len() <= u32::MAX ==> r is Ok && final(writer)@ == old(writer)@ + frame_bytes(
            packet_type,
            payload@,
        ),
{
    if payload.len() > 4294967295usize {
        return Err(ProtocolError::PayloadTooLarge);
    }
    let len = payload.len() as u32;
    let code = packet_type.code();
    let ghost start = writer@;
    writer.push(MAGIC_FIRST);
    writer.push(MAGIC_SECOND);
    writer.push((code / 256) as u8);
    writer.push((code % 256) as u8);
    writer.push((len / 16777216) as u8);
    writer.push(((len / 65536) % 256) as u8);
    writer.push(((len / 256) % 256) as u8);
    writer.push((len % 256) as u8);
    assert(writer@ =~= start + header_bytes(packet_type, len));
    let mut i: usize = 0;
    while i < payload.len()
        invariant
            0 <= i <= payload@.len(),
            writer@ == start + header_bytes(packet_type, len) + payload@.subrange(0, i as int),
        decreases payload@.len() - i,
    {
        writer.push(payload[i]);
        i = i + 1;
        assert(writer@ =~= start + header_bytes(packet_type, len) + payload@.subrange(0, i as int));
    }
    assert(payload@.subrange(0, payload@.len() as int) =~= payload@);
    Ok(())
}

/// What a reader makes of a header: the packet type and payload length it
/// announces, or why it is refused. `bytes` must hold at least the header.
pub open spec fn decode_header_spec(bytes: Seq<u8>) -> Result<(PacketType, u32), ProtocolError> {
    if bytes.len() < HEADER_SIZE {
        Err(ProtocolError::TruncatedHeader)
    } else if bytes[0] != MAGIC_FIRST || bytes[1] != MAGIC_SECOND {
        Err(ProtocolError::InvalidMagic)
    } else {
        let code = be_u16_value(bytes[2], bytes[3]);
        match PacketType::spec_from_code(code) {
            None => Err(ProtocolError::UnknownPacketType(code)),
            Some(t) => {
                let len = be_u32_value(bytes[4], bytes[5], bytes[6], bytes[7]);
                if len > MAX_PAYLOAD_SIZE {
                    Err(ProtocolError::PayloadExceedsMaximum)
                } else {
                    Ok((t, len))
                }
            },
        }
    }
}

/// Reading a frame is reading its header, then as many payload bytes as
/// the header announces.
pub proof fn lemma_decode_frame_by_header(bytes: Seq<u8>)
    ensures
        decode_frame(bytes) == match decode_header_spec(bytes) {
            Err(e) => Err(e),
            Ok((t, len)) => if bytes.len() - HEADER_SIZE < len {
                Err(ProtocolError::TruncatedPayload)
            } else {
                Ok((t, bytes.subrange(HEADER_SIZE as int, HEADER_SIZE + len)))
            },
        },
{
}

/// Checks the header at the start of `bytes`: magic, packet type and
/// payload length. Used by readers that fetch the payload separately.
pub fn decode_header(bytes: &[u8]) -> (r: Result<(PacketType, u32), ProtocolError>)
    ensures
        r == decode_header_spec(bytes@),
{
    if bytes.len() < HEADER_SIZE {
        return Err(ProtocolError::TruncatedHeader);
    }
    if bytes[0] != MAGIC_FIRST || bytes[1] != MAGIC_SECOND {
        return Err(ProtocolError::InvalidMagic);
    }
    let code: u16 = (bytes[2] as u16) * 256 + (bytes[3] as u16);
    let packet_type = PacketType::from_code(code)?;
    let len: u32 = (bytes[4] as u32) * 16777216 + (bytes[5] as u32) * 65536 + (bytes[6] as u32)
        * 256 + (bytes[7] as u32);
    if len > MAX_PAYLOAD_SIZE {
        return Err(ProtocolError::PayloadExceedsMaximum);
    }
    Ok((packet_type, len))
}

/// Decodes the packet at the start of `bytes`, returning it with the number
/// of bytes its frame takes.
pub fn decode_packet(bytes: &[u8]) -> (r: Result<(Packet, usize), ProtocolError>)
    ensures
        match decode_frame(bytes@) {
            Ok((t, payload)) => r is Ok && r->Ok_0.0.packet_type == t && r->Ok_0.0.payload@
                == payload && r->Ok_0.1 == HEADER_SIZE + payload.len(),
            Err(e) => r == Err::<(Packet, usize), ProtocolError>(e),
        },
{
    if bytes.len() < HEADER_SIZE {
        return Err(ProtocolError::TruncatedHeader);
    }
    if bytes[0] != MAGIC_FIRST || bytes[1] != MAGIC_SECOND {
        return Err(ProtocolError::InvalidMagic);
    }
    let code: u16 = (bytes[2] as u16) * 256 + (bytes[3] as u16);
    let packet_type = match PacketType::from_code(code) {
        Ok(t) => t,
        Err(e) => return Err(e),
    };
    let len: u32 = (bytes[4] as u32) * 16777216 + (bytes[5] as u32) * 65536 + (bytes[6] as u32)
        * 256 + (bytes[7] as u32);
    if len > MAX_PAYLOAD_SIZE {
        return Err(ProtocolError::PayloadExceedsMaximum);
    }
    let len = len as usize;
    if bytes.len() - HEADER_SIZE < len {
        return Err(ProtocolError::TruncatedPayload);
    }
    let mut payload: Vec<u8> = Vec::new();
    let mut i: usize = 0;
    while i < len
        invariant
            0 <= i <= len,
            HEADER_SIZE + len <= bytes@.len(),
            bytes@.len() <= usize::MAX,
            payload@ == bytes@.subrange(HEADER_SIZE as int, HEADER_SIZE + i),
        decreases len - i,
    {
        payload.push(bytes[HEADER_SIZE + i]);
        i = i + 1;
        assert(payload@ =~= bytes@.subrange(HEADER_SIZE as int, HEADER_SIZE + i));
    }
    Ok((Packet { packet_type, payload }, HEADER_SIZE + len))
}

/// The position from which `std::io::Cursor` reads next.
pub uninterp spec fn cursor_position(c: Cursor<Vec<u8>>) -> u64;

/// The buffer that a `std::io::Cursor` reads from.
pub uninterp spec fn cursor_contents(c: Cursor<Vec<u8>>) -> Seq<u8>;

#[verifier::external_type_specification]
#[verifier::external_body]
#[verifier::reject_recursive_types(T)]
pub struct ExCursor<T>(Cursor<T>);

/// `Cursor::get_ref`: the buffer that the cursor reads from.
#[verifier::external_body]
fn cursor_buffer(c: &Cursor<Vec<u8>>) -> (r: &Vec<u8>)
    ensures
        r@ == cursor_contents(*c),
{
    c.get_ref()
}

/// `Cursor::position`: the offset that the cursor reads from next.
#[verifier::external_body]
fn cursor_offset(c: &Cursor<Vec<u8>>) -> (p: u64)
    ensures
        p == cursor_position(*c),
{
    c.position()
}

/// `Cursor::set_position`: moves the read offset, leaving the buffer as it is.
#[verifier::external_body]
fn cursor_seek(c: &mut Cursor<Vec<u8>>, pos: u64)
    ensures
        cursor_contents(*final(c)) == cursor_contents(*old(c)),
        cursor_position(*final(c)) == pos,
{
    c.set_position(pos)
}

/// The bytes that a cursor has not read yet.
pub open spec fn cursor_unread(data: Seq<u8>, pos: u64) -> Seq<u8> {
    if pos < data.len() {
        data.subrange(pos as int, data.len() as int)
    } else {
        Seq::empty()
    }
}

/// Reads one packet from an in-memory stream.
///
/// On success the cursor has moved past the frame. On a short header or a
/// short payload it stands at the end of the buffer; on a bad magic, type or
/// length it stands just past the header.
pub fn read_packet(reader: &mut Cursor<Vec<u8>>) -> (r: Result<Packet, ProtocolError>)
    ensures
        cursor_contents(*final(reader)) == cursor_contents(*old(reader)),
        ({
            let data = cursor_contents(*old(reader));
            let pos = cursor_position(*old(reader));
            match decode_frame(cursor_unread(data, pos)) {
                Ok((t, payload)) => r is Ok && r->Ok_0.packet_type == t && r->Ok_0.payload@
                    == payload && cursor_position(*final(reader)) == pos + HEADER_SIZE
                    + payload.len(),
                Err(e) => r == Err::<Packet, ProtocolError>(e) && cursor_position(*final(reader))
                    == if e is TruncatedHeader || e is TruncatedPayload {
                    data.len() as int
                } else {
                    pos + HEADER_SIZE
                },
            }
        }),
{
    let pos = cursor_offset(reader);
    let data = cursor_buffer(reader);
    let data_len = data.len();
    let unread: &[u8] = if pos < data_len as u64 {
        slice_subrange(data.as_slice(), pos as usize, data_len)
    } else {
        slice_subrange(data.as_slice(), data_len, data_len)
    };
    assert(unread@ =~= cursor_unread(cursor_contents(*reader), pos));
    match decode_packet(unread) {
        Ok((packet, consumed)) => {
            cursor_seek(reader, pos + consumed as u64);
            Ok(packet)
        },
        Err(e) => {
            if e.is_unexpected_eof() {
                cursor_seek(reader, data_len as u64);
            } else {
                cursor_seek(reader, pos + HEADER_SIZE as u64);
            }
            Err(e)
        },
    }
}

} // verus!
