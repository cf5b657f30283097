//! Field encodings, the byte writer and the bounds-checked byte reader.
use vstd::bytes::{
    lemma_auto_spec_u16_to_from_le_bytes, lemma_auto_spec_u32_to_from_le_bytes,
    lemma_auto_spec_u64_to_from_le_bytes, spec_u16_from_le_bytes, spec_u16_to_le_bytes,
    spec_u32_from_le_bytes, spec_u32_to_le_bytes, spec_u64_from_le_bytes, spec_u64_to_le_bytes,
    u16_from_le_bytes, u16_to_le_bytes, u32_from_le_bytes, u32_to_le_bytes, u64_from_le_bytes,
    u64_to_le_bytes,
};
use vstd::prelude::*;
use vstd::slice::slice_to_vec;
use vstd::utf8::{
    decode_utf8, encode_utf8, encode_utf8_decode_utf8, encode_utf8_valid_utf8, valid_utf8,
};

verus! {

/// Protocol major version spoken by this host.
pub const MAJOR: u8 = 1;

/// Protocol minor version spoken by this host.
pub const MINOR: u8 = 0;

/// Size of the fixed packet header in bytes.
pub const HEADER: usize = 36;

/// Largest reliable packet, header included.
pub const MAX_CONTROL: usize = 65536;

/// Largest encoded access unit, and largest `bytes` field a reader accepts.
pub const MAX_FRAME: usize = 2097152;

/// Largest datagram payload.
pub const MAX_DATAGRAM: usize = 1200;

/// Largest UTF-8 string field, in bytes.
pub const MAX_STRING: usize = 1024;

/// Why a packet or a field was rejected.
#[derive(Debug, Clone, Copy, PartialEq, Eq, Structural)]
pub enum ProtocolError {
    /// Fewer bytes remain than the field needs.
    Truncated,
    /// A float field holds an infinity or a NaN.
    NonFinite,
    /// A `bytes` field announces more than `MAX_FRAME` bytes.
    FieldTooLarge,
    /// A string field holds more than `MAX_STRING` bytes.
    StringTooLong,
    /// A string field is not UTF-8.
    InvalidUtf8,
    /// Bytes remain after the last field of a payload.
    TrailingPayload,
    /// The packet is shorter than a header or longer than the limit.
    PacketLength,
    /// The packet does not start with `SDOS`.
    BadMagic,
    /// The packet's major version is not `MAJOR`.
    UnsupportedMajor,
    /// The header's body length disagrees with the packet length.
    BodyLengthMismatch,
    /// The packet carries another message kind than the one asked for.
    UnexpectedKind,
    /// The offered version range does not contain `MAJOR`.
    NoCompatibleVersion,
    /// A reliable sequence number did not increase.
    Replayed,
    /// A reliable message is too large for the control stream.
    ControlTooLarge,
    /// A control packet carries another session token.
    SessionMismatch,
    /// A reliable stream does not start a packet with `SDOS`.
    InvalidFraming,
    /// A reliable packet announces more than `MAX_CONTROL` bytes.
    OversizedMessage,
    /// An encoded frame exceeds `MAX_FRAME`.
    FrameTooLarge,
    /// The peer did not negotiate QUIC datagrams.
    NoDatagrams,
    /// The datagram size cannot hold a fragment header.
    MtuTooSmall,
    /// A frame would need no fragment or more than 4096.
    FragmentCount,
    /// A message kind that the active session does not accept.
    UnexpectedMessage,
}

impl ProtocolError {
    /// The text `describe` gives for each reason.
    pub open spec fn reason_text(&self) -> Seq<char> {
        match *self {
            ProtocolError::Truncated => "truncated message"@,
            ProtocolError::NonFinite => "nonfinite number"@,
            ProtocolError::FieldTooLarge => "field too large"@,
            ProtocolError::StringTooLong => "string too long"@,
            ProtocolError::InvalidUtf8 => "invalid UTF-8 string"@,
            ProtocolError::TrailingPayload => "trailing payload"@,
            ProtocolError::PacketLength => "packet length out of bounds"@,
            ProtocolError::BadMagic => "bad magic"@,
            ProtocolError::UnsupportedMajor => "unsupported protocol major"@,
            ProtocolError::BodyLengthMismatch => "body length mismatch"@,
            ProtocolError::UnexpectedKind => "unexpected message kind"@,
            ProtocolError::NoCompatibleVersion => "no compatible protocol version"@,
            ProtocolError::Replayed => "replayed or out-of-order reliable message"@,
            ProtocolError::ControlTooLarge => "control too large"@,
            ProtocolError::SessionMismatch => "session mismatch"@,
            ProtocolError::InvalidFraming => "invalid stream framing"@,
            ProtocolError::OversizedMessage => "oversized reliable message"@,
            ProtocolError::FrameTooLarge => "encoded frame too large"@,
            ProtocolError::NoDatagrams => "peer must support QUIC Datagram"@,
            ProtocolError::MtuTooSmall => "datagram MTU too small"@,
            ProtocolError::FragmentCount => "invalid fragment count"@,
            ProtocolError::UnexpectedMessage => "unexpected session control message"@,
        }
    }

    /// Human-readable reason.
    pub fn describe(&self) -> (r: &'static str)
        ensures
            r@ == self.reason_text(),
    {
        match self {
            ProtocolError::Truncated => "truncated message",
            ProtocolError::NonFinite => "nonfinite number",
            ProtocolError::FieldTooLarge => "field too large",
            ProtocolError::StringTooLong => "string too long",
            ProtocolError::InvalidUtf8 => "invalid UTF-8 string",
            ProtocolError::TrailingPayload => "trailing payload",
            ProtocolError::PacketLength => "packet length out of bounds",
            ProtocolError::BadMagic => "bad magic",
            ProtocolError::UnsupportedMajor => "unsupported protocol major",
            ProtocolError::BodyLengthMismatch => "body length mismatch",
            ProtocolError::UnexpectedKind => "unexpected message kind",
            ProtocolError::NoCompatibleVersion => "no compatible protocol version",
            ProtocolError::Replayed => "replayed or out-of-order reliable message",
            ProtocolError::ControlTooLarge => "control too large",
            ProtocolError::SessionMismatch => "session mismatch",
            ProtocolError::InvalidFraming => "invalid stream framing",
            ProtocolError::OversizedMessage => "oversized reliable message",
            ProtocolError::FrameTooLarge => "encoded frame too large",
            ProtocolError::NoDatagrams => "peer must support QUIC Datagram",
            ProtocolError::MtuTooSmall => "datagram MTU too small",
            ProtocolError::FragmentCount => "invalid fragment count",
            ProtocolError::UnexpectedMessage => "unexpected session control message",
        }
    }
}

// ---------------------------------------------------------------------------
// Encodings of single fields
// ---------------------------------------------------------------------------
pub open spec fn enc_u8(v: u8) -> Seq<u8> {
    seq![v]
}

pub open spec fn enc_u16(v: u16) -> Seq<u8> {
    spec_u16_to_le_bytes(v)
}

pub open spec fn enc_u32(v: u32) -> Seq<u8> {
    spec_u32_to_le_bytes(v)
}

pub open spec fn enc_u64(v: u64) -> Seq<u8> {
    spec_u64_to_le_bytes(v)
}

/// Two's complement, little endian.
pub open spec fn enc_i32(v: i32) -> Seq<u8> {
    spec_u32_to_le_bytes(v as u32)
}

/// A `u32` length (truncated to 32 bits) followed by the bytes.
pub open spec fn enc_bytes(b: Seq<u8>) -> Seq<u8> {
    enc_u32(b.len() as u32) + b
}

/// The UTF-8 bytes of the string, as a `bytes` field.
pub open spec fn enc_string(s: Seq<char>) -> Seq<u8> {
    enc_bytes(encode_utf8(s))
}

/// An IEEE-754 binary32 bit pattern is finite when its exponent is not all ones.
pub open spec fn is_finite_bits(bits: u32) -> bool {
    bits & 0x7f80_0000u32 != 0x7f80_0000u32
}

// ---------------------------------------------------------------------------
// Decodings of single fields: the value and the bytes that follow it
// ---------------------------------------------------------------------------
pub open spec fn parse_u8(s: Seq<u8>) -> Result<(u8, Seq<u8>), ProtocolError> {
    if s.len() >= 1 {
        Ok((s[0], s.skip(1)))
    } else {
        Err(ProtocolError::Truncated)
    }
}

pub open spec fn parse_u16(s: Seq<u8>) -> Result<(u16, Seq<u8>), ProtocolError> {
    if s.len() >= 2 {
        Ok((spec_u16_from_le_bytes(s.take(2)), s.skip(2)))
    } else {
        Err(ProtocolError::Truncated)
    }
}

pub open spec fn parse_u32(s: Seq<u8>) -> Result<(u32, Seq<u8>), ProtocolError> {
    if s.len() >= 4 {
        Ok((spec_u32_from_le_bytes(s.take(4)), s.skip(4)))
    } else {
        Err(ProtocolError::Truncated)
    }
}

pub open spec fn parse_u64(s: Seq<u8>) -> Result<(u64, Seq<u8>), ProtocolError> {
    if s.len() >= 8 {
        Ok((spec_u64_from_le_bytes(s.take(8)), s.skip(8)))
    } else {
        Err(ProtocolError::Truncated)
    }
}

pub open spec fn parse_i32(s: Seq<u8>) -> Result<(i32, Seq<u8>), ProtocolError> {
    match parse_u32(s) {
        Ok((v, rest)) => Ok((v as i32, rest)),
        Err(e) => Err(e),
    }
}

/// A float field, kept as its bit pattern; non-finite values are rejected.
pub open spec fn parse_f32(s: Seq<u8>) -> Result<(u32, Seq<u8>), ProtocolError> {
    match parse_u32(s) {
        Ok((v, rest)) => if is_finite_bits(v) {
            Ok((v, rest))
        } else {
            Err(ProtocolError::NonFinite)
        },
        Err(e) => Err(e),
    }
}

pub open spec fn parse_bytes(s: Seq<u8>) -> Result<(Seq<u8>, Seq<u8>), ProtocolError> {
    match parse_u32(s) {
        Ok((n, rest)) => if n > MAX_FRAME {
            Err(ProtocolError::FieldTooLarge)
        } else if rest.len() < n {
            Err(ProtocolError::Truncated)
        } else {
            Ok((rest.take(n as int), rest.skip(n as int)))
        },
        Err(e) => Err(e),
    }
}

pub open spec fn parse_string(s: Seq<u8>) -> Result<(Seq<char>, Seq<u8>), ProtocolError> {
    match parse_bytes(s) {
        Ok((b, rest)) => if b.len() > MAX_STRING {
            Err(ProtocolError::StringTooLong)
        } else if !valid_utf8(b) {
            Err(ProtocolError::InvalidUtf8)
        } else {
            Ok((decode_utf8(b), rest))
        },
        Err(e) => Err(e),
    }
}

// ---------------------------------------------------------------------------
// Each decoding reads back its encoding
// ---------------------------------------------------------------------------
pub proof fn lemma_parse_u8(v: u8, rest: Seq<u8>)
    ensures
        parse_u8(enc_u8(v) + rest) == Ok::<(u8, Seq<u8>), ProtocolError>((v, rest)),
{
    assert((enc_u8(v) + rest).skip(1) =~= rest);
}

pub proof fn lemma_parse_u16(v: u16, rest: Seq<u8>)
    ensures
        parse_u16(enc_u16(v) + rest) == Ok::<(u16, Seq<u8>), ProtocolError>((v, rest)),
{
    lemma_auto_spec_u16_to_from_le_bytes();
    let s = enc_u16(v) + rest;
    assert(s.take(2) =~= enc_u16(v));
    assert(s.skip(2) =~= rest);
}

pub proof fn lemma_parse_u32(v: u32, rest: Seq<u8>)
    ensures
        parse_u32(enc_u32(v) + rest) == Ok::<(u32, Seq<u8>), ProtocolError>((v, rest)),
{
    lemma_auto_spec_u32_to_from_le_bytes();
    let s = enc_u32(v) + rest;
    assert(s.take(4) =~= enc_u32(v));
    assert(s.skip(4) =~= rest);
}

pub proof fn lemma_parse_u64(v: u64, rest: Seq<u8>)
    ensures
        parse_u64(enc_u64(v) + rest) == Ok::<(u64, Seq<u8>), ProtocolError>((v, rest)),
{
    lemma_auto_spec_u64_to_from_le_bytes();
    let s = enc_u64(v) + rest;
    assert(s.take(8) =~= enc_u64(v));
    assert(s.skip(8) =~= rest);
}

pub proof fn lemma_parse_i32(v: i32, rest: Seq<u8>)
    ensures
        parse_i32(enc_i32(v) + rest) == Ok::<(i32, Seq<u8>), ProtocolError>((v, rest)),
{
    lemma_parse_u32(v as u32, rest);
    assert((v as u32) as i32 == v) by (bit_vector);
}

pub proof fn lemma_parse_f32(bits: u32, rest: Seq<u8>)
    requires
        is_finite_bits(bits),
    ensures
        parse_f32(enc_u32(bits) + rest) == Ok::<(u32, Seq<u8>), ProtocolError>((bits, rest)),
{
    lemma_parse_u32(bits, rest);
}

pub proof fn lemma_parse_bytes(b: Seq<u8>, rest: Seq<u8>)
    requires
        b.len() <= MAX_FRAME,
    ensures
        parse_bytes(enc_bytes(b) + rest) == Ok::<(Seq<u8>, Seq<u8>), ProtocolError>((b, rest)),
{
    let tail = b + rest;
    assert(enc_bytes(b) + rest =~= enc_u32(b.len() as u32) + tail);
    lemma_parse_u32(b.len() as u32, tail);
    assert(tail.take(b.len() as int) =~= b);
    assert(tail.skip(b.len() as int) =~= rest);
}

pub proof fn lemma_parse_string(s: Seq<char>, rest: Seq<u8>)
    requires
        encode_utf8(s).len() <= MAX_STRING,
    ensures
        parse_string(enc_string(s) + rest) == Ok::<(Seq<char>, Seq<u8>), ProtocolError>((s, rest)),
{
    lemma_parse_bytes(encode_utf8(s), rest);
    encode_utf8_valid_utf8(s);
    encode_utf8_decode_utf8(s);
}

// ---------------------------------------------------------------------------
// Writer
// ---------------------------------------------------------------------------
/// Appends encoded fields to a growing buffer.
pub struct Writer(pub Vec<u8>);

impl View for Writer {
    type V = Seq<u8>;

    open spec fn view(&self) -> Seq<u8> {
        self.0@
    }
}

impl Default for Writer {
    fn default() -> (w: Self)
        ensures
            w@ == Seq::<u8>::empty(),
    {
        Writer(Vec::new())
    }
}

impl Writer {
    pub fn u8(&mut self, v: u8)
        ensures
            final(self)@ == old(self)@ + enc_u8(v),
    {
        self.0.push(v);
        assert(self@ =~= old(self)@ + enc_u8(v));
    }

    pub fn u16(&mut self, v: u16)
        ensures
            final(self)@ == old(self)@ + enc_u16(v),
    {
        let mut b = u16_to_le_bytes(v);
        self.0.append(&mut b);
    }

    pub fn u32(&mut self, v: u32)
        ensures
            final(self)@ == old(self)@ + enc_u32(v),
    {
        let mut b = u32_to_le_bytes(v);
        self.0.append(&mut b);
    }

    pub fn u64(&mut self, v: u64)
        ensures
            final(self)@ == old(self)@ + enc_u64(v),
    {
        let mut b = u64_to_le_bytes(v);
        self.0.append(&mut b);
    }

    pub fn i32(&mut self, v: i32)
        ensures
            final(self)@ == old(self)@ + enc_i32(v),
    {
        self.u32(v as u32);
    }

    /// A float field, given as its IEEE-754 bit pattern.
    pub fn f32_bits(&mut self, bits: u32)
        ensures
            final(self)@ == old(self)@ + enc_u32(bits),
    {
        self.u32(bits);
    }

    pub fn bytes(&mut self, v: &[u8])
        ensures
            final(self)@ == old(self)@ + enc_bytes(v@),
    {
        self.u32(v.len() as u32);
        let mut t = slice_to_vec(v);
        self.0.append(&mut t);
        assert(self@ =~= old(self)@ + enc_bytes(v@));
    }

    pub fn string(&mut self, v: &str)
        ensures
            final(self)@ == old(self)@ + enc_string(v@),
    {
        self.bytes(v.as_bytes());
    }
}

// ---------------------------------------------------------------------------
// Reader
// ---------------------------------------------------------------------------
/// `String::from_utf8`: the standard library documents that it fails exactly
/// when the bytes are not UTF-8, and otherwise keeps the bytes as the string.
#[verifier::external_body]
fn utf8_string(bytes: Vec<u8>) -> (r: Option<String>)
    ensures
        r is Some <==> valid_utf8(bytes@),
        r matches Some(s) ==> s@ == decode_utf8(bytes@),
{
    String::from_utf8(bytes).ok()
}

/// Reads fields front to back from a byte slice; never reads past its end.
pub struct Reader<'a> {
    data: &'a [u8],
    pos: usize,
}

impl<'a> Reader<'a> {
    #[verifier::type_invariant]
    spec fn inv(&self) -> bool {
        self.pos <= self.data@.len()
    }

    /// The whole input.
    pub closed spec fn data(&self) -> Seq<u8> {
        self.data@
    }

    /// How many bytes have been consumed.
    pub closed spec fn position(&self) -> int {
        self.pos as int
    }

    /// The bytes not consumed yet.
    pub closed spec fn remaining(&self) -> Seq<u8> {
        self.data@.subrange(self.pos as int, self.data@.len() as int)
    }

    /// The bytes not consumed are the input from the position on.
    pub proof fn lemma_remaining(&self)
        ensures
            self.remaining() == self.data().subrange(self.position(), self.data().len() as int),
    {
    }

    pub fn new(data: &'a [u8]) -> (r: Self)
        ensures
            r.data() == data@,
            r.position() == 0,
            r.remaining() == data@,
    {
        let r = Reader { data, pos: 0 };
        assert(r.remaining() =~= data@);
        r
    }

    /// The next `n` bytes, or `Truncated` (and nothing consumed) when fewer remain.
    pub fn take(&mut self, n: usize) -> (res: Result<&'a [u8], ProtocolError>)
        ensures
            final(self).data() == old(self).data(),
            old(self).position() <= final(self).position(),
            old(self).position() <= old(self).data().len(),
            final(self).position() <= final(self).data().len(),
            n <= old(self).remaining().len() ==> (res matches Ok(b) && b@ == old(
                self,
            ).remaining().take(n as int) && final(self).remaining() == old(self).remaining().skip(
                n as int,
            )),
            n > old(self).remaining().len() ==> res == Err::<&'a [u8], ProtocolError>(
                ProtocolError::Truncated,
            ) && final(self).remaining() == old(self).remaining(),
            n <= old(self).remaining().len() ==> final(self).position() == old(self).position() + n,
            n > old(self).remaining().len() ==> final(self).position() == old(self).position(),
    {
        proof {
            use_type_invariant(&*self);
        }
        if n <= self.data.len() - self.pos {
            let result = &self.data[self.pos..self.pos + n];
            self.pos = self.pos + n;
            assert(result@ =~= old(self).remaining().take(n as int));
            assert(self.remaining() =~= old(self).remaining().skip(n as int));
            Ok(result)
        } else {
            Err(ProtocolError::Truncated)
        }
    }

    pub fn u8(&mut self) -> (res: Result<u8, ProtocolError>)
        ensures
            final(self).data() == old(self).data(),
            old(self).position() <= final(self).position(),
            old(self).position() <= old(self).data().len(),
            final(self).position() <= final(self).data().len(),
            match parse_u8(old(self).remaining()) {
                Ok((v, rest)) => res == Ok::<u8, ProtocolError>(v) && final(self).remaining()
                    == rest,
                Err(e) => res == Err::<u8, ProtocolError>(e) && final(self).remaining() == old(
                    self,
                ).remaining(),
            },
    {
        proof {
            use_type_invariant(&*self);
        }
        let b = self.take(1)?;
        Ok(b[0])
    }

    pub fn u16(&mut self) -> (res: Result<u16, ProtocolError>)
        ensures
            final(self).data() == old(self).data(),
            old(self).position() <= final(self).position(),
            old(self).position() <= old(self).data().len(),
            final(self).position() <= final(self).data().len(),
            match parse_u16(old(self).remaining()) {
                Ok((v, rest)) => res == Ok::<u16, ProtocolError>(v) && final(self).remaining()
                    == rest,
                Err(e) => res == Err::<u16, ProtocolError>(e) && final(self).remaining() == old(
                    self,
                ).remaining(),
            },
    {
        proof {
            use_type_invariant(&*self);
        }
        let b = self.take(2)?;
        Ok(u16_from_le_bytes(b))
    }

    pub fn u32(&mut self) -> (res: Result<u32, ProtocolError>)
        ensures
            final(self).data() == old(self).data(),
            old(self).position() <= final(self).position(),
            old(self).position() <= old(self).data().len(),
            final(self).position() <= final(self).data().len(),
            match parse_u32(old(self).remaining()) {
                Ok((v, rest)) => res == Ok::<u32, ProtocolError>(v) && final(self).remaining()
                    == rest,
                Err(e) => res == Err::<u32, ProtocolError>(e) && final(self).remaining() == old(
                    self,
                ).remaining(),
            },
    {
        proof {
            use_type_invariant(&*self);
        }
        let b = self.take(4)?;
        Ok(u32_from_le_bytes(b))
    }

    pub fn u64(&mut self) -> (res: Result<u64, ProtocolError>)
        ensures
            final(self).data() == old(self).data(),
            old(self).position() <= final(self).position(),
            old(self).position() <= old(self).data().len(),
            final(self).position() <= final(self).data().len(),
            match parse_u64(old(self).remaining()) {
                Ok((v, rest)) => res == Ok::<u64, ProtocolError>(v) && final(self).remaining()
                    == rest,
                Err(e) => res == Err::<u64, ProtocolError>(e) && final(self).remaining() == old(
                    self,
                ).remaining(),
            },
    {
        proof {
            use_type_invariant(&*self);
        }
        let b = self.take(8)?;
        Ok(u64_from_le_bytes(b))
    }

    pub fn i32(&mut self) -> (res: Result<i32, ProtocolError>)
        ensures
            final(self).data() == old(self).data(),
            old(self).position() <= final(self).position(),
            old(self).position() <= old(self).data().len(),
            final(self).position() <= final(self).data().len(),
            match parse_i32(old(self).remaining()) {
                Ok((v, rest)) => res == Ok::<i32, ProtocolError>(v) && final(self).remaining()
                    == rest,
                Err(e) => res == Err::<i32, ProtocolError>(e) && final(self).remaining() == old(
                    self,
                ).remaining(),
            },
    {
        proof {
            use_type_invariant(&*self);
        }
        let v = self.u32()?;
        Ok(v as i32)
    }

    /// A float field, returned as its IEEE-754 bit pattern.
    pub fn f32_bits(&mut self) -> (res: Result<u32, ProtocolError>)
        ensures
            final(self).data() == old(self).data(),
            old(self).position() <= final(self).position(),
            old(self).position() <= old(self).data().len(),
            final(self).position() <= final(self).data().len(),
            match parse_f32(old(self).remaining()) {
                Ok((v, rest)) => res == Ok::<u32, ProtocolError>(v) && final(self).remaining()
                    == rest,
                Err(e) => res == Err::<u32, ProtocolError>(e),
            },
    {
        proof {
            use_type_invariant(&*self);
        }
        let v = self.u32()?;
        if v & 0x7f80_0000u32 == 0x7f80_0000u32 {
            return Err(ProtocolError::NonFinite);
        }
        Ok(v)
    }

    pub fn bytes(&mut self) -> (res: Result<Vec<u8>, ProtocolError>)
        ensures
            final(self).data() == old(self).data(),
            old(self).position() <= final(self).position(),
            old(self).position() <= old(self).data().len(),
            final(self).position() <= final(self).data().len(),
            match parse_bytes(old(self).remaining()) {
                Ok((v, rest)) => res matches Ok(b) && b@ == v && final(self).remaining() == rest,
                Err(e) => res matches Err(x) && x == e,
            },
    {
        proof {
            use_type_invariant(&*self);
        }
        let n = self.u32()?;
        if n as usize > MAX_FRAME {
            return Err(ProtocolError::FieldTooLarge);
        }
        let b = self.take(n as usize)?;
        Ok(slice_to_vec(b))
    }

    pub fn string(&mut self) -> (res: Result<String, ProtocolError>)
        ensures
            final(self).data() == old(self).data(),
            old(self).position() <= final(self).position(),
            old(self).position() <= old(self).data().len(),
            final(self).position() <= final(self).data().len(),
            match parse_string(old(self).remaining()) {
                Ok((v, rest)) => res matches Ok(s) && s@ == v && final(self).remaining() == rest,
                Err(e) => res matches Err(x) && x == e,
            },
    {
        proof {
            use_type_invariant(&*self);
        }
        let b = self.bytes()?;
        if b.len() > MAX_STRING {
            return Err(ProtocolError::StringTooLong);
        }
        match utf8_string(b) {
            Some(s) => Ok(s),
            None => Err(ProtocolError::InvalidUtf8),
        }
    }

    /// Succeeds exactly when every byte has been consumed.
    pub fn finish(&self) -> (res: Result<(), ProtocolError>)
        ensures
            self.position() <= self.data().len(),
            self.remaining().len() == 0 ==> res == Ok::<(), ProtocolError>(()),
            self.remaining().len() != 0 ==> res == Err::<(), ProtocolError>(
                ProtocolError::TrailingPayload,
            ),
    {
        proof {
            use_type_invariant(self);
        }
        if self.pos == self.data.len() {
            Ok(())
        } else {
            Err(ProtocolError::TrailingPayload)
        }
    }
}

} // verus!
