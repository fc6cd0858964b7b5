//! Byte buffers of the OpenRGB SDK protocol: little-endian integers, length-prefixed
//! strings, colours and response frames.

use vstd::prelude::*;
use vstd::string::StringSliceAdditionalSpecFns;

verus! {

/// An 8-bit RGB colour.
#[derive(Clone, Copy, Debug, PartialEq, Eq, Structural)]
pub struct Color {
    pub red: u8,
    pub green: u8,
    pub blue: u8,
}

/// The two bytes of `v`, least significant first.
pub open spec fn le_u16(v: u16) -> Seq<u8> {
    seq![(v & 0xff) as u8, (v >> 8) as u8]
}

/// The four bytes of `v`, least significant first.
pub open spec fn le_u32(v: u32) -> Seq<u8> {
    seq![(v & 0xff) as u8, ((v >> 8) & 0xff) as u8, ((v >> 16) & 0xff) as u8, (v >> 24) as u8]
}

/// The four bytes of `v` in two's complement, least significant first.
pub open spec fn le_i32(v: i32) -> Seq<u8> {
    le_u32(v as u32)
}

/// The 16-bit number that two bytes write, least significant first.
pub open spec fn u16_from_le(b: Seq<u8>) -> u16 {
    ((b[0] as u16) | ((b[1] as u16) << 8)) as u16
}

/// The 32-bit number that four bytes write, least significant first.
pub open spec fn u32_from_le(b: Seq<u8>) -> u32 {
    ((b[0] as u32) | ((b[1] as u32) << 8) | ((b[2] as u32) << 16) | ((b[3] as u32) << 24)) as u32
}

/// A string on the wire: its length with the terminating NUL as 16 bits, its bytes, NUL.
pub open spec fn str_field(bytes: Seq<u8>) -> Seq<u8> {
    le_u16((bytes.len() + 1) as u16) + bytes + seq![0u8]
}

/// A colour on the wire: red, green, blue and a padding byte.
pub open spec fn color_bytes(color: Color) -> Seq<u8> {
    seq![color.red, color.green, color.blue, 0u8]
}

/// 32-bit numbers on the wire, one after the other.
pub open spec fn u32s_bytes(values: Seq<u32>) -> Seq<u8>
    decreases values.len(),
{
    if values.len() == 0 {
        Seq::empty()
    } else {
        u32s_bytes(values.drop_last()) + le_u32(values.last())
    }
}

/// The magic bytes that open every frame: `ORGB`.
pub open spec fn frame_magic() -> Seq<u8> {
    seq![0x4Fu8, 0x52u8, 0x47u8, 0x42u8]
}

/// A response frame: magic, device index, request id, payload length, payload.
pub open spec fn response_frame(device: u32, kind: u32, data: Seq<u8>) -> Seq<u8> {
    frame_magic() + le_u32(device) + le_u32(kind) + le_u32(data.len() as u32) + data
}

/// Appends the two bytes of `v`, least significant first.
pub fn push_u16(buf: &mut Vec<u8>, v: u16)
    ensures
        final(buf)@ == old(buf)@ + le_u16(v),
{
    buf.push((v & 0xff) as u8);
    buf.push((v >> 8) as u8);
    assert(final(buf)@ =~= old(buf)@ + le_u16(v));
}

/// Appends the four bytes of `v`, least significant first.
pub fn push_u32(buf: &mut Vec<u8>, v: u32)
    ensures
        final(buf)@ == old(buf)@ + le_u32(v),
{
    buf.push((v & 0xff) as u8);
    buf.push(((v >> 8) & 0xff) as u8);
    buf.push(((v >> 16) & 0xff) as u8);
    buf.push((v >> 24) as u8);
    assert(final(buf)@ =~= old(buf)@ + le_u32(v));
}

/// Appends the four bytes of `v` in two's complement, least significant first.
pub fn push_i32(buf: &mut Vec<u8>, v: i32)
    ensures
        final(buf)@ == old(buf)@ + le_i32(v),
{
    push_u32(buf, v as u32);
}

/// Appends `bytes`.
pub fn push_bytes(buf: &mut Vec<u8>, bytes: &[u8])
    ensures
        final(buf)@ == old(buf)@ + bytes@,
{
    let ghost start = buf@;
    let mut i: usize = 0;
    while i < bytes.len()
        invariant
            i <= bytes.len(),
            buf@ == start + bytes@.take(i as int),
        decreases bytes.len() - i,
    {
        buf.push(bytes[i]);
        i = i + 1;
        assert(buf@ =~= start + bytes@.take(i as int));
    }
    assert(bytes@.take(i as int) =~= bytes@);
}

/// Appends `bytes` as a string on the wire.
pub fn push_str_bytes(buf: &mut Vec<u8>, bytes: &[u8])
    ensures
        final(buf)@ == old(buf)@ + str_field(bytes@),
{
    let n: usize = bytes.len();
    let length: u16 = if n < usize::MAX {
        (n + 1) as u16
    } else {
        0
    };
    if n == usize::MAX {
        assert(usize::MAX == 0xffff_ffff || usize::MAX == 0xffff_ffff_ffff_ffff);
        assert((n + 1) as u16 == 0u16) by (bit_vector)
            requires
                n as u64 == 0xffff_ffffu64 || n as u64 == 0xffff_ffff_ffff_ffffu64,
        ;
    }
    push_u16(buf, length);
    push_bytes(buf, bytes);
    buf.push(0);
    assert(final(buf)@ =~= old(buf)@ + str_field(bytes@));
}

/// Writing to and reading from the byte buffers of the protocol.
pub trait BufferExt {
    /// The bytes of the buffer.
    spec fn contents(&self) -> Seq<u8>;

    /// Appends `s` as a string on the wire.
    fn extend_from_str(&mut self, s: &str)
        ensures
            final(self).contents() == old(self).contents() + str_field(s.spec_bytes()),
    ;

    /// Appends a colour.
    fn extend_from_color(&mut self, color: &Color)
        ensures
            final(self).contents() == old(self).contents() + color_bytes(*color),
    ;

    /// Appends 32-bit numbers, least significant byte first.
    fn extend_from_u32s(&mut self, values: &[u32])
        ensures
            final(self).contents() == old(self).contents() + u32s_bytes(values@),
    ;

    /// Reads the 32-bit number at `offset`, least significant byte first.
    fn read_u32_le(&self, offset: usize) -> (value: u32)
        requires
            offset + 4 <= self.contents().len(),
        ensures
            value == u32_from_le(self.contents().subrange(offset as int, offset + 4)),
    ;

    /// Reads the 16-bit number at `offset`, least significant byte first.
    fn read_u16_le(&self, offset: usize) -> (value: u16)
        requires
            offset + 2 <= self.contents().len(),
        ensures
            value == u16_from_le(self.contents().subrange(offset as int, offset + 2)),
    ;

    /// Reads the colour whose red, green and blue bytes start at `offset`.
    fn read_rgb(&self, offset: usize) -> (color: Color)
        requires
            offset + 3 <= self.contents().len(),
        ensures
            color == (Color {
                red: self.contents()[offset as int],
                green: self.contents()[offset + 1],
                blue: self.contents()[offset + 2],
            }),
    ;
}

impl BufferExt for Vec<u8> {
    open spec fn contents(&self) -> Seq<u8> {
        self@
    }

    fn extend_from_str(&mut self, s: &str) {
        push_str_bytes(self, s.as_bytes());
    }

    fn extend_from_color(&mut self, color: &Color) {
        self.push(color.red);
        self.push(color.green);
        self.push(color.blue);
        self.push(0);
        assert(self@ =~= old(self)@ + color_bytes(*color));
    }

    fn extend_from_u32s(&mut self, values: &[u32]) {
        let ghost start = self@;
        let mut i: usize = 0;
        assert(values@.take(0) =~= Seq::<u32>::empty());
        while i < values.len()
            invariant
                i <= values.len(),
                self@ == start + u32s_bytes(values@.take(i as int)),
            decreases values.len() - i,
        {
            push_u32(self, values[i]);
            assert(values@.take(i + 1).drop_last() =~= values@.take(i as int));
            i = i + 1;
            assert(self@ =~= start + u32s_bytes(values@.take(i as int)));
        }
        assert(values@.take(i as int) =~= values@);
    }

    fn read_u32_le(&self, offset: usize) -> (value: u32) {
        assert(self.contents() == self@ && self@.len() == self.len());
        (self[offset] as u32) | ((self[offset + 1] as u32) << 8) | ((self[offset + 2] as u32)
            << 16) | ((self[offset + 3] as u32) << 24)
    }

    fn read_u16_le(&self, offset: usize) -> (value: u16) {
        assert(self.contents() == self@ && self@.len() == self.len());
        (self[offset] as u16) | ((self[offset + 1] as u16) << 8)
    }

    fn read_rgb(&self, offset: usize) -> (color: Color) {
        assert(self.contents() == self@ && self@.len() == self.len());
        Color { red: self[offset], green: self[offset + 1], blue: self[offset + 2] }
    }
}

/// The frame that answers request `kind` for device `device` with the payload `data`.
pub fn encode_response(device: u32, kind: u32, data: &[u8]) -> (frame: Vec<u8>)
    ensures
        frame@ == response_frame(device, kind, data@),
{
    let mut frame: Vec<u8> = Vec::new();
    frame.push(0x4F);
    frame.push(0x52);
    frame.push(0x47);
    frame.push(0x42);
    push_u32(&mut frame, device);
    push_u32(&mut frame, kind);
    push_u32(&mut frame, data.len() as u32);
    push_bytes(&mut frame, data);
    assert(frame@ =~= response_frame(device, kind, data@));
    frame
}

/// Reading back four bytes written least significant first gives the number written.
pub proof fn lemma_u32_roundtrip(v: u32)
    ensures
        u32_from_le(le_u32(v)) == v,
{
    let b = le_u32(v);
    let (b0, b1, b2, b3) = (b[0], b[1], b[2], b[3]);
    assert(((b0 as u32) | ((b1 as u32) << 8) | ((b2 as u32) << 16) | ((b3 as u32) << 24)) == v)
        by (bit_vector)
        requires
            b0 == (v & 0xff) as u8,
            b1 == ((v >> 8) & 0xff) as u8,
            b2 == ((v >> 16) & 0xff) as u8,
            b3 == (v >> 24) as u8,
    ;
}

/// Reading back two bytes written least significant first gives the number written.
pub proof fn lemma_u16_roundtrip(v: u16)
    ensures
        u16_from_le(le_u16(v)) == v,
{
    let b = le_u16(v);
    let (b0, b1) = (b[0], b[1]);
    assert(((b0 as u16) | ((b1 as u16) << 8)) == v) by (bit_vector)
        requires
            b0 == (v & 0xff) as u8,
            b1 == (v >> 8) as u8,
    ;
}

proof fn lemma_u32s_bytes_len(values: Seq<u32>)
    ensures
        u32s_bytes(values).len() == 4 * values.len(),
    decreases values.len(),
{
    if values.len() > 0 {
        lemma_u32s_bytes_len(values.drop_last());
    }
}

proof fn lemma_u32s_bytes_at(values: Seq<u32>, i: int)
    requires
        0 <= i < values.len(),
    ensures
        u32s_bytes(values).subrange(4 * i, 4 * i + 4) == le_u32(values[i]),
    decreases values.len(),
{
    lemma_u32s_bytes_len(values.drop_last());
    if i < values.len() - 1 {
        lemma_u32s_bytes_at(values.drop_last(), i);
        assert(u32s_bytes(values).subrange(4 * i, 4 * i + 4) =~= u32s_bytes(
            values.drop_last(),
        ).subrange(4 * i, 4 * i + 4));
    } else {
        assert(u32s_bytes(values).subrange(4 * i, 4 * i + 4) =~= le_u32(values[i]));
    }
}

/// What `extend_from_u32s` appends, `read_u32_le` reads back: the `i`-th number appended
/// after `before` is read at offset `before.len() + 4 * i`.
pub proof fn lemma_read_back_u32s(before: Seq<u8>, values: Seq<u32>, i: int)
    requires
        0 <= i < values.len(),
    ensures
        before.len() + 4 * i + 4 <= (before + u32s_bytes(values)).len(),
        u32_from_le(
            (before + u32s_bytes(values)).subrange(before.len() + 4 * i, before.len() + 4 * i + 4),
        ) == values[i],
{
    lemma_u32s_bytes_len(values);
    lemma_u32s_bytes_at(values, i);
    lemma_u32_roundtrip(values[i]);
    assert((before + u32s_bytes(values)).subrange(before.len() + 4 * i, before.len() + 4 * i + 4)
        =~= u32s_bytes(values).subrange(4 * i, 4 * i + 4));
}

/// A response frame opens with the magic bytes, then the device index, the request id and
/// the payload length, each read back as written; the payload follows.
pub proof fn lemma_response_frame_header(device: u32, kind: u32, data: Seq<u8>)
    ensures
        response_frame(device, kind, data).len() == 16 + data.len(),
        response_frame(device, kind, data).subrange(0, 4) == frame_magic(),
        u32_from_le(response_frame(device, kind, data).subrange(4, 8)) == device,
        u32_from_le(response_frame(device, kind, data).subrange(8, 12)) == kind,
        u32_from_le(response_frame(device, kind, data).subrange(12, 16)) == data.len() as u32,
        response_frame(device, kind, data).subrange(16, 16 + data.len() as int) == data,
{
    let f = response_frame(device, kind, data);
    lemma_u32_roundtrip(device);
    lemma_u32_roundtrip(kind);
    lemma_u32_roundtrip(data.len() as u32);
    assert(f.subrange(0, 4) =~= frame_magic());
    assert(f.subrange(4, 8) =~= le_u32(device));
    assert(f.subrange(8, 12) =~= le_u32(kind));
    assert(f.subrange(12, 16) =~= le_u32(data.len() as u32));
    assert(f.subrange(16, 16 + data.len() as int) =~= data);
}

/// A colour appended to a buffer reads back, from where it was appended, as the colour.
pub proof fn lemma_color_reads_back(before: Seq<u8>, color: Color)
    ensures
        ({
            let buf = before + color_bytes(color);
            let o = before.len() as int;
            &&& o + 3 <= buf.len()
            &&& (Color { red: buf[o], green: buf[o + 1], blue: buf[o + 2] }) == color
        }),
{
}

/// A string on the wire opens with its length plus one, read back as written where that fits
/// in 16 bits, then holds its bytes and a terminating NUL.
pub proof fn lemma_str_field(bytes: Seq<u8>)
    ensures
        str_field(bytes).len() == bytes.len() + 3,
        u16_from_le(str_field(bytes).subrange(0, 2)) == (bytes.len() + 1) as u16,
        str_field(bytes).subrange(2, bytes.len() + 2int) == bytes,
        str_field(bytes)[bytes.len() + 2int] == 0,
{
    lemma_u16_roundtrip((bytes.len() + 1) as u16);
    assert(str_field(bytes).subrange(0, 2) =~= le_u16((bytes.len() + 1) as u16));
    assert(str_field(bytes).subrange(2, bytes.len() + 2int) =~= bytes);
}

/// The severity of a log message.
#[derive(Clone, Copy, Debug, PartialEq, Eq, Structural)]
pub enum LogLevel {
    Error,
    Warn,
    Info,
    Debug,
    Trace,
}

/// The marker that a log line shows for its severity.
pub fn level_marker(level: LogLevel) -> (marker: &'static str)
    ensures
        marker@ == (match level {
            LogLevel::Error => "!"@,
            LogLevel::Warn => "?"@,
            LogLevel::Info => "+"@,
            LogLevel::Debug => "|"@,
            LogLevel::Trace => "->"@,
        }),
{
    match level {
        LogLevel::Error => "!",
        LogLevel::Warn => "?",
        LogLevel::Info => "+",
        LogLevel::Debug => "|",
        LogLevel::Trace => "->",
    }
}

#[verifier::external_type_specification]
#[verifier::external_body]
pub struct ExAnyhowError(anyhow::Error);

/// What an error comes from, as far as telling a lost connection from other failures goes.
#[derive(Clone, Copy, Debug, PartialEq, Eq, Structural)]
pub enum ErrorCause {
    /// An I/O error of kind `UnexpectedEof`.
    UnexpectedEof,
    /// An I/O error of kind `ConnectionReset`.
    ConnectionReset,
    /// An I/O error of another kind.
    OtherIo,
    /// Not an I/O error.
    NotIo,
}

/// What `error` comes from: whether it holds a `std::io::Error`, and of which kind. It is a
/// function of the error value alone.
pub uninterp spec fn error_cause_of(error: anyhow::Error) -> ErrorCause;

/// Calls `anyhow::Error::downcast_ref::<std::io::Error>` and, on an I/O error,
/// `std::io::Error::kind`, and names the outcome. Claimed: the outcome is `error_cause_of`
/// the error; what that is for a given error is not stated, as verified code cannot look
/// into an `anyhow::Error`.
#[verifier::external_body]
fn error_cause(error: &anyhow::Error) -> (cause: ErrorCause)
    ensures
        cause == error_cause_of(*error),
{
    match error.downcast_ref::<std::io::Error>() {
        Some(io) => match io.kind() {
            std::io::ErrorKind::UnexpectedEof => ErrorCause::UnexpectedEof,
            std::io::ErrorKind::ConnectionReset => ErrorCause::ConnectionReset,
            _ => ErrorCause::OtherIo,
        },
        None => ErrorCause::NotIo,
    }
}

/// Whether an error of this cause means that the client went away: the connection ended
/// early or was reset.
pub fn is_disconnect_cause(cause: ErrorCause) -> (disconnect: bool)
    ensures
        disconnect == (cause == ErrorCause::UnexpectedEof || cause == ErrorCause::ConnectionReset),
{
    match cause {
        ErrorCause::UnexpectedEof | ErrorCause::ConnectionReset => true,
        _ => false,
    }
}

/// Telling a lost connection from other failures.
pub trait ErrorExt {
    /// Whether the error means that the client went away.
    fn is_disconnect(&self) -> bool;
}

impl ErrorExt for anyhow::Error {
    fn is_disconnect(&self) -> (disconnect: bool)
        ensures
            disconnect == (error_cause_of(*self) == ErrorCause::UnexpectedEof || error_cause_of(
                *self,
            ) == ErrorCause::ConnectionReset),
    {
        is_disconnect_cause(error_cause(self))
    }
}

} // verus!
