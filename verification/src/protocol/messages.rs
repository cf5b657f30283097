//! The protocol messages, each with its kind and payload layout in schema order.
use super::packet::Wire;
use super::wire::{
    enc_bytes, enc_string, enc_u16, enc_u32, enc_u64, enc_u8, is_finite_bits, lemma_parse_bytes,
    lemma_parse_f32, lemma_parse_string, lemma_parse_u16, lemma_parse_u32, lemma_parse_u64,
    lemma_parse_u8, parse_bytes, parse_f32, parse_string, parse_u16, parse_u32, parse_u64,
    parse_u8, ProtocolError, Reader, Writer, MAX_FRAME, MAX_STRING,
};
use vstd::prelude::*;
use vstd::utf8::encode_utf8;

verus! {

/// A display mode offered to the virtual monitor.
#[derive(Debug, Clone, Copy, PartialEq, Eq, Structural)]
pub struct DisplayMode {
    pub width: u32,
    pub height: u32,
    pub fps: u32,
    pub scale_percent: u32,
}

/// One encoded access unit with its timing metadata.
#[derive(Debug, Clone, PartialEq)]
pub struct VideoFrame {
    pub generation: u32,
    pub frame_id: u64,
    pub capture_timestamp: u64,
    pub encode_timestamp: u64,
    pub send_timestamp: u64,
    pub keyframe: u8,
    pub data: Vec<u8>,
}

/// First client message: identity, display name, supported versions and whether a host key is saved.
#[derive(Debug, Clone, PartialEq)]
pub struct Handshake {
    pub client_id: Vec<u8>,
    pub name: String,
    pub min_major: u8,
    pub max_major: u8,
    pub minor: u8,
    pub trusted: u8,
}

/// The field values of a [`Handshake`].
pub struct HandshakeView {
    pub client_id: Seq<u8>,
    pub name: Seq<char>,
    pub min_major: u8,
    pub max_major: u8,
    pub minor: u8,
    pub trusted: u8,
}

impl View for Handshake {
    type V = HandshakeView;

    open spec fn view(&self) -> HandshakeView {
        HandshakeView {
            client_id: self.client_id@,
            name: self.name@,
            min_major: self.min_major,
            max_major: self.max_major,
            minor: self.minor,
            trusted: self.trusted,
        }
    }
}

impl Wire for Handshake {
    open spec fn spec_kind() -> u16 {
        1
    }

    open spec fn encoding(v: HandshakeView) -> Seq<u8> {
        enc_bytes(v.client_id) + (enc_string(v.name) + (enc_u8(v.min_major) + (enc_u8(v.max_major) + (enc_u8(v.minor) + (enc_u8(v.trusted))))))
    }

    open spec fn encodable(v: HandshakeView) -> bool {
        &&& v.client_id.len() <= MAX_FRAME
        &&& encode_utf8(v.name).len() <= MAX_STRING
    }

    open spec fn parse(s0: Seq<u8>) -> Result<(HandshakeView, Seq<u8>), ProtocolError> {
        match parse_bytes(s0) {
            Err(e) => Err(e),
            Ok((client_id, s1)) =>
                match parse_string(s1) {
                    Err(e) => Err(e),
                    Ok((name, s2)) =>
                        match parse_u8(s2) {
                            Err(e) => Err(e),
                            Ok((min_major, s3)) =>
                                match parse_u8(s3) {
                                    Err(e) => Err(e),
                                    Ok((max_major, s4)) =>
                                        match parse_u8(s4) {
                                            Err(e) => Err(e),
                                            Ok((minor, s5)) =>
                                                match parse_u8(s5) {
                                                    Err(e) => Err(e),
                                                    Ok((trusted, s6)) =>
                                                        Ok((HandshakeView { client_id, name, min_major, max_major, minor, trusted }, s6)),
                                                },
                                        },
                                },
                        },
                },
        }
    }

    fn kind() -> (k: u16) {
        1
    }

    fn write(&self, w: &mut Writer) {
        w.bytes(self.client_id.as_slice());
        w.string(self.name.as_str());
        w.u8(self.min_major);
        w.u8(self.max_major);
        w.u8(self.minor);
        w.u8(self.trusted);
        assert(w@ =~= old(w)@ + Self::encoding(self@));
    }

    fn read(r: &mut Reader) -> (res: Result<Self, ProtocolError>) {
        let client_id = r.bytes()?;
        let name = r.string()?;
        let min_major = r.u8()?;
        let max_major = r.u8()?;
        let minor = r.u8()?;
        let trusted = r.u8()?;
        Ok(Handshake { client_id, name, min_major, max_major, minor, trusted })
    }

    proof fn lemma_roundtrip(v: HandshakeView, rest: Seq<u8>) {
        let t5 = enc_u8(v.trusted) + rest;
        let t4 = enc_u8(v.minor) + t5;
        let t3 = enc_u8(v.max_major) + t4;
        let t2 = enc_u8(v.min_major) + t3;
        let t1 = enc_string(v.name) + t2;
        assert(Self::encoding(v) + rest =~= enc_bytes(v.client_id) + t1);
        lemma_parse_bytes(v.client_id, t1);
        lemma_parse_string(v.name, t2);
        lemma_parse_u8(v.min_major, t3);
        lemma_parse_u8(v.max_major, t4);
        lemma_parse_u8(v.minor, t5);
        lemma_parse_u8(v.trusted, rest);
    }
}

/// The version the host selected.
#[derive(Debug, Clone, Copy, PartialEq, Eq)]
pub struct ProtocolVersion {
    pub major: u8,
    pub minor: u8,
}

impl View for ProtocolVersion {
    type V = ProtocolVersion;

    open spec fn view(&self) -> ProtocolVersion {
        *self
    }
}

impl Wire for ProtocolVersion {
    open spec fn spec_kind() -> u16 {
        2
    }

    open spec fn encoding(v: ProtocolVersion) -> Seq<u8> {
        enc_u8(v.major) + (enc_u8(v.minor))
    }

    open spec fn encodable(v: ProtocolVersion) -> bool {
        true
    }

    open spec fn parse(s0: Seq<u8>) -> Result<(ProtocolVersion, Seq<u8>), ProtocolError> {
        match parse_u8(s0) {
            Err(e) => Err(e),
            Ok((major, s1)) =>
                match parse_u8(s1) {
                    Err(e) => Err(e),
                    Ok((minor, s2)) =>
                        Ok((ProtocolVersion { major, minor }, s2)),
                },
        }
    }

    fn kind() -> (k: u16) {
        2
    }

    fn write(&self, w: &mut Writer) {
        w.u8(self.major);
        w.u8(self.minor);
        assert(w@ =~= old(w)@ + Self::encoding(self@));
    }

    fn read(r: &mut Reader) -> (res: Result<Self, ProtocolError>) {
        let major = r.u8()?;
        let minor = r.u8()?;
        Ok(ProtocolVersion { major, minor })
    }

    proof fn lemma_roundtrip(v: ProtocolVersion, rest: Seq<u8>) {
        let t1 = enc_u8(v.minor) + rest;
        assert(Self::encoding(v) + rest =~= enc_u8(v.major) + t1);
        lemma_parse_u8(v.major, t1);
        lemma_parse_u8(v.minor, rest);
    }
}

/// The host's persistent identity and display name.
#[derive(Debug, Clone, PartialEq)]
pub struct HostInfo {
    pub host_id: Vec<u8>,
    pub name: String,
}

/// The field values of a [`HostInfo`].
pub struct HostInfoView {
    pub host_id: Seq<u8>,
    pub name: Seq<char>,
}

impl View for HostInfo {
    type V = HostInfoView;

    open spec fn view(&self) -> HostInfoView {
        HostInfoView {
            host_id: self.host_id@,
            name: self.name@,
        }
    }
}

impl Wire for HostInfo {
    open spec fn spec_kind() -> u16 {
        3
    }

    open spec fn encoding(v: HostInfoView) -> Seq<u8> {
        enc_bytes(v.host_id) + (enc_string(v.name))
    }

    open spec fn encodable(v: HostInfoView) -> bool {
        &&& v.host_id.len() <= MAX_FRAME
        &&& encode_utf8(v.name).len() <= MAX_STRING
    }

    open spec fn parse(s0: Seq<u8>) -> Result<(HostInfoView, Seq<u8>), ProtocolError> {
        match parse_bytes(s0) {
            Err(e) => Err(e),
            Ok((host_id, s1)) =>
                match parse_string(s1) {
                    Err(e) => Err(e),
                    Ok((name, s2)) =>
                        Ok((HostInfoView { host_id, name }, s2)),
                },
        }
    }

    fn kind() -> (k: u16) {
        3
    }

    fn write(&self, w: &mut Writer) {
        w.bytes(self.host_id.as_slice());
        w.string(self.name.as_str());
        assert(w@ =~= old(w)@ + Self::encoding(self@));
    }

    fn read(r: &mut Reader) -> (res: Result<Self, ProtocolError>) {
        let host_id = r.bytes()?;
        let name = r.string()?;
        Ok(HostInfo { host_id, name })
    }

    proof fn lemma_roundtrip(v: HostInfoView, rest: Seq<u8>) {
        let t1 = enc_string(v.name) + rest;
        assert(Self::encoding(v) + rest =~= enc_bytes(v.host_id) + t1);
        lemma_parse_bytes(v.host_id, t1);
        lemma_parse_string(v.name, rest);
    }
}

/// One step of the pairing exchange.
#[derive(Debug, Clone, PartialEq)]
pub struct Pairing {
    pub phase: u8,
    pub nonce: Vec<u8>,
    pub proof: Vec<u8>,
    pub secret: Vec<u8>,
}

/// The field values of a [`Pairing`].
pub struct PairingView {
    pub phase: u8,
    pub nonce: Seq<u8>,
    pub proof: Seq<u8>,
    pub secret: Seq<u8>,
}

impl View for Pairing {
    type V = PairingView;

    open spec fn view(&self) -> PairingView {
        PairingView {
            phase: self.phase,
            nonce: self.nonce@,
            proof: self.proof@,
            secret: self.secret@,
        }
    }
}

impl Wire for Pairing {
    open spec fn spec_kind() -> u16 {
        4
    }

    open spec fn encoding(v: PairingView) -> Seq<u8> {
        enc_u8(v.phase) + (enc_bytes(v.nonce) + (enc_bytes(v.proof) + (enc_bytes(v.secret))))
    }

    open spec fn encodable(v: PairingView) -> bool {
        &&& v.nonce.len() <= MAX_FRAME
        &&& v.proof.len() <= MAX_FRAME
        &&& v.secret.len() <= MAX_FRAME
    }

    open spec fn parse(s0: Seq<u8>) -> Result<(PairingView, Seq<u8>), ProtocolError> {
        match parse_u8(s0) {
            Err(e) => Err(e),
            Ok((phase, s1)) =>
                match parse_bytes(s1) {
                    Err(e) => Err(e),
                    Ok((nonce, s2)) =>
                        match parse_bytes(s2) {
                            Err(e) => Err(e),
                            Ok((proof, s3)) =>
                                match parse_bytes(s3) {
                                    Err(e) => Err(e),
                                    Ok((secret, s4)) =>
                                        Ok((PairingView { phase, nonce, proof, secret }, s4)),
                                },
                        },
                },
        }
    }

    fn kind() -> (k: u16) {
        4
    }

    fn write(&self, w: &mut Writer) {
        w.u8(self.phase);
        w.bytes(self.nonce.as_slice());
        w.bytes(self.proof.as_slice());
        w.bytes(self.secret.as_slice());
        assert(w@ =~= old(w)@ + Self::encoding(self@));
    }

    fn read(r: &mut Reader) -> (res: Result<Self, ProtocolError>) {
        let phase = r.u8()?;
        let nonce = r.bytes()?;
        let proof = r.bytes()?;
        let secret = r.bytes()?;
        Ok(Pairing { phase, nonce, proof, secret })
    }

    proof fn lemma_roundtrip(v: PairingView, rest: Seq<u8>) {
        let t3 = enc_bytes(v.secret) + rest;
        let t2 = enc_bytes(v.proof) + t3;
        let t1 = enc_bytes(v.nonce) + t2;
        assert(Self::encoding(v) + rest =~= enc_u8(v.phase) + t1);
        lemma_parse_u8(v.phase, t1);
        lemma_parse_bytes(v.nonce, t2);
        lemma_parse_bytes(v.proof, t3);
        lemma_parse_bytes(v.secret, rest);
    }
}

/// The client's panel geometry and refresh limit; float fields are IEEE-754 bit patterns.
#[derive(Debug, Clone, Copy, PartialEq, Eq)]
pub struct DisplayCapabilities {
    pub physical_width: u32,
    pub physical_height: u32,
    pub logical_width: u32,
    pub logical_height: u32,
    pub max_fps: u32,
    /// IEEE-754 binary32 bit pattern.
    pub native_scale: u32,
    /// IEEE-754 binary32 bit pattern.
    pub safe_top: u32,
    /// IEEE-754 binary32 bit pattern.
    pub safe_right: u32,
    /// IEEE-754 binary32 bit pattern.
    pub safe_bottom: u32,
    /// IEEE-754 binary32 bit pattern.
    pub safe_left: u32,
    pub orientation: u8,
}

impl View for DisplayCapabilities {
    type V = DisplayCapabilities;

    open spec fn view(&self) -> DisplayCapabilities {
        *self
    }
}

impl Wire for DisplayCapabilities {
    open spec fn spec_kind() -> u16 {
        5
    }

    open spec fn encoding(v: DisplayCapabilities) -> Seq<u8> {
        enc_u32(v.physical_width) + (enc_u32(v.physical_height) + (enc_u32(v.logical_width) + (enc_u32(v.logical_height) + (enc_u32(v.max_fps) + (enc_u32(v.native_scale) + (enc_u32(v.safe_top) + (enc_u32(v.safe_right) + (enc_u32(v.safe_bottom) + (enc_u32(v.safe_left) + (enc_u8(v.orientation)))))))))))
    }

    open spec fn encodable(v: DisplayCapabilities) -> bool {
        &&& is_finite_bits(v.native_scale)
        &&& is_finite_bits(v.safe_top)
        &&& is_finite_bits(v.safe_right)
        &&& is_finite_bits(v.safe_bottom)
        &&& is_finite_bits(v.safe_left)
    }

    open spec fn parse(s0: Seq<u8>) -> Result<(DisplayCapabilities, Seq<u8>), ProtocolError> {
        match parse_u32(s0) {
            Err(e) => Err(e),
            Ok((physical_width, s1)) =>
                match parse_u32(s1) {
                    Err(e) => Err(e),
                    Ok((physical_height, s2)) =>
                        match parse_u32(s2) {
                            Err(e) => Err(e),
                            Ok((logical_width, s3)) =>
                                match parse_u32(s3) {
                                    Err(e) => Err(e),
                                    Ok((logical_height, s4)) =>
                                        match parse_u32(s4) {
                                            Err(e) => Err(e),
                                            Ok((max_fps, s5)) =>
                                                match parse_f32(s5) {
                                                    Err(e) => Err(e),
                                                    Ok((native_scale, s6)) =>
                                                        match parse_f32(s6) {
                                                            Err(e) => Err(e),
                                                            Ok((safe_top, s7)) =>
                                                                match parse_f32(s7) {
                                                                    Err(e) => Err(e),
                                                                    Ok((safe_right, s8)) =>
                                                                        match parse_f32(s8) {
                                                                            Err(e) => Err(e),
                                                                            Ok((safe_bottom, s9)) =>
                                                                                match parse_f32(s9) {
                                                                                    Err(e) => Err(e),
                                                                                    Ok((safe_left, s10)) =>
                                                                                        match parse_u8(s10) {
                                                                                            Err(e) => Err(e),
                                                                                            Ok((orientation, s11)) =>
                                                                                                Ok((DisplayCapabilities { physical_width, physical_height, logical_width, logical_height, max_fps, native_scale, safe_top, safe_right, safe_bottom, safe_left, orientation }, s11)),
                                                                                        },
                                                                                },
                                                                        },
                                                                },
                                                        },
                                                },
                                        },
                                },
                        },
                },
        }
    }

    fn kind() -> (k: u16) {
        5
    }

    fn write(&self, w: &mut Writer) {
        w.u32(self.physical_width);
        w.u32(self.physical_height);
        w.u32(self.logical_width);
        w.u32(self.logical_height);
        w.u32(self.max_fps);
        w.f32_bits(self.native_scale);
        w.f32_bits(self.safe_top);
        w.f32_bits(self.safe_right);
        w.f32_bits(self.safe_bottom);
        w.f32_bits(self.safe_left);
        w.u8(self.orientation);
        assert(w@ =~= old(w)@ + Self::encoding(self@));
    }

    fn read(r: &mut Reader) -> (res: Result<Self, ProtocolError>) {
        let physical_width = r.u32()?;
        let physical_height = r.u32()?;
        let logical_width = r.u32()?;
        let logical_height = r.u32()?;
        let max_fps = r.u32()?;
        let native_scale = r.f32_bits()?;
        let safe_top = r.f32_bits()?;
        let safe_right = r.f32_bits()?;
        let safe_bottom = r.f32_bits()?;
        let safe_left = r.f32_bits()?;
        let orientation = r.u8()?;
        Ok(DisplayCapabilities { physical_width, physical_height, logical_width, logical_height, max_fps, native_scale, safe_top, safe_right, safe_bottom, safe_left, orientation })
    }

    proof fn lemma_roundtrip(v: DisplayCapabilities, rest: Seq<u8>) {
        let t10 = enc_u8(v.orientation) + rest;
        let t9 = enc_u32(v.safe_left) + t10;
        let t8 = enc_u32(v.safe_bottom) + t9;
        let t7 = enc_u32(v.safe_right) + t8;
        let t6 = enc_u32(v.safe_top) + t7;
        let t5 = enc_u32(v.native_scale) + t6;
        let t4 = enc_u32(v.max_fps) + t5;
        let t3 = enc_u32(v.logical_height) + t4;
        let t2 = enc_u32(v.logical_width) + t3;
        let t1 = enc_u32(v.physical_height) + t2;
        assert(Self::encoding(v) + rest =~= enc_u32(v.physical_width) + t1);
        lemma_parse_u32(v.physical_width, t1);
        lemma_parse_u32(v.physical_height, t2);
        lemma_parse_u32(v.logical_width, t3);
        lemma_parse_u32(v.logical_height, t4);
        lemma_parse_u32(v.max_fps, t5);
        lemma_parse_f32(v.native_scale, t6);
        lemma_parse_f32(v.safe_top, t7);
        lemma_parse_f32(v.safe_right, t8);
        lemma_parse_f32(v.safe_bottom, t9);
        lemma_parse_f32(v.safe_left, t10);
        lemma_parse_u8(v.orientation, rest);
    }
}

/// The mode a new session starts with.
#[derive(Debug, Clone, Copy, PartialEq, Eq)]
pub struct SessionStart {
    pub width: u32,
    pub height: u32,
    pub fps: u32,
}

impl View for SessionStart {
    type V = SessionStart;

    open spec fn view(&self) -> SessionStart {
        *self
    }
}

impl Wire for SessionStart {
    open spec fn spec_kind() -> u16 {
        6
    }

    open spec fn encoding(v: SessionStart) -> Seq<u8> {
        enc_u32(v.width) + (enc_u32(v.height) + (enc_u32(v.fps)))
    }

    open spec fn encodable(v: SessionStart) -> bool {
        true
    }

    open spec fn parse(s0: Seq<u8>) -> Result<(SessionStart, Seq<u8>), ProtocolError> {
        match parse_u32(s0) {
            Err(e) => Err(e),
            Ok((width, s1)) =>
                match parse_u32(s1) {
                    Err(e) => Err(e),
                    Ok((height, s2)) =>
                        match parse_u32(s2) {
                            Err(e) => Err(e),
                            Ok((fps, s3)) =>
                                Ok((SessionStart { width, height, fps }, s3)),
                        },
                },
        }
    }

    fn kind() -> (k: u16) {
        6
    }

    fn write(&self, w: &mut Writer) {
        w.u32(self.width);
        w.u32(self.height);
        w.u32(self.fps);
        assert(w@ =~= old(w)@ + Self::encoding(self@));
    }

    fn read(r: &mut Reader) -> (res: Result<Self, ProtocolError>) {
        let width = r.u32()?;
        let height = r.u32()?;
        let fps = r.u32()?;
        Ok(SessionStart { width, height, fps })
    }

    proof fn lemma_roundtrip(v: SessionStart, rest: Seq<u8>) {
        let t2 = enc_u32(v.fps) + rest;
        let t1 = enc_u32(v.height) + t2;
        assert(Self::encoding(v) + rest =~= enc_u32(v.width) + t1);
        lemma_parse_u32(v.width, t1);
        lemma_parse_u32(v.height, t2);
        lemma_parse_u32(v.fps, rest);
    }
}

/// What the host's encoder can produce.
#[derive(Debug, Clone, Copy, PartialEq, Eq)]
pub struct EncoderCapabilities {
    pub codecs: u32,
    pub hardware: u8,
    pub max_width: u32,
    pub max_height: u32,
}

impl View for EncoderCapabilities {
    type V = EncoderCapabilities;

    open spec fn view(&self) -> EncoderCapabilities {
        *self
    }
}

impl Wire for EncoderCapabilities {
    open spec fn spec_kind() -> u16 {
        7
    }

    open spec fn encoding(v: EncoderCapabilities) -> Seq<u8> {
        enc_u32(v.codecs) + (enc_u8(v.hardware) + (enc_u32(v.max_width) + (enc_u32(v.max_height))))
    }

    open spec fn encodable(v: EncoderCapabilities) -> bool {
        true
    }

    open spec fn parse(s0: Seq<u8>) -> Result<(EncoderCapabilities, Seq<u8>), ProtocolError> {
        match parse_u32(s0) {
            Err(e) => Err(e),
            Ok((codecs, s1)) =>
                match parse_u8(s1) {
                    Err(e) => Err(e),
                    Ok((hardware, s2)) =>
                        match parse_u32(s2) {
                            Err(e) => Err(e),
                            Ok((max_width, s3)) =>
                                match parse_u32(s3) {
                                    Err(e) => Err(e),
                                    Ok((max_height, s4)) =>
                                        Ok((EncoderCapabilities { codecs, hardware, max_width, max_height }, s4)),
                                },
                        },
                },
        }
    }

    fn kind() -> (k: u16) {
        7
    }

    fn write(&self, w: &mut Writer) {
        w.u32(self.codecs);
        w.u8(self.hardware);
        w.u32(self.max_width);
        w.u32(self.max_height);
        assert(w@ =~= old(w)@ + Self::encoding(self@));
    }

    fn read(r: &mut Reader) -> (res: Result<Self, ProtocolError>) {
        let codecs = r.u32()?;
        let hardware = r.u8()?;
        let max_width = r.u32()?;
        let max_height = r.u32()?;
        Ok(EncoderCapabilities { codecs, hardware, max_width, max_height })
    }

    proof fn lemma_roundtrip(v: EncoderCapabilities, rest: Seq<u8>) {
        let t3 = enc_u32(v.max_height) + rest;
        let t2 = enc_u32(v.max_width) + t3;
        let t1 = enc_u8(v.hardware) + t2;
        assert(Self::encoding(v) + rest =~= enc_u32(v.codecs) + t1);
        lemma_parse_u32(v.codecs, t1);
        lemma_parse_u8(v.hardware, t2);
        lemma_parse_u32(v.max_width, t3);
        lemma_parse_u32(v.max_height, rest);
    }
}

/// The stream configuration of one encoder generation.
#[derive(Debug, Clone, PartialEq)]
pub struct VideoConfig {
    pub generation: u32,
    pub codec: u8,
    pub width: u32,
    pub height: u32,
    pub fps: u32,
    pub bit_depth: u8,
    pub color_space: u8,
    pub parameter_sets: Vec<u8>,
}

/// The field values of a [`VideoConfig`].
pub struct VideoConfigView {
    pub generation: u32,
    pub codec: u8,
    pub width: u32,
    pub height: u32,
    pub fps: u32,
    pub bit_depth: u8,
    pub color_space: u8,
    pub parameter_sets: Seq<u8>,
}

impl View for VideoConfig {
    type V = VideoConfigView;

    open spec fn view(&self) -> VideoConfigView {
        VideoConfigView {
            generation: self.generation,
            codec: self.codec,
            width: self.width,
            height: self.height,
            fps: self.fps,
            bit_depth: self.bit_depth,
            color_space: self.color_space,
            parameter_sets: self.parameter_sets@,
        }
    }
}

impl Wire for VideoConfig {
    open spec fn spec_kind() -> u16 {
        8
    }

    open spec fn encoding(v: VideoConfigView) -> Seq<u8> {
        enc_u32(v.generation) + (enc_u8(v.codec) + (enc_u32(v.width) + (enc_u32(v.height) + (enc_u32(v.fps) + (enc_u8(v.bit_depth) + (enc_u8(v.color_space) + (enc_bytes(v.parameter_sets))))))))
    }

    open spec fn encodable(v: VideoConfigView) -> bool {
        v.parameter_sets.len() <= MAX_FRAME
    }

    open spec fn parse(s0: Seq<u8>) -> Result<(VideoConfigView, Seq<u8>), ProtocolError> {
        match parse_u32(s0) {
            Err(e) => Err(e),
            Ok((generation, s1)) =>
                match parse_u8(s1) {
                    Err(e) => Err(e),
                    Ok((codec, s2)) =>
                        match parse_u32(s2) {
                            Err(e) => Err(e),
                            Ok((width, s3)) =>
                                match parse_u32(s3) {
                                    Err(e) => Err(e),
                                    Ok((height, s4)) =>
                                        match parse_u32(s4) {
                                            Err(e) => Err(e),
                                            Ok((fps, s5)) =>
                                                match parse_u8(s5) {
                                                    Err(e) => Err(e),
                                                    Ok((bit_depth, s6)) =>
                                                        match parse_u8(s6) {
                                                            Err(e) => Err(e),
                                                            Ok((color_space, s7)) =>
                                                                match parse_bytes(s7) {
                                                                    Err(e) => Err(e),
                                                                    Ok((parameter_sets, s8)) =>
                                                                        Ok((VideoConfigView { generation, codec, width, height, fps, bit_depth, color_space, parameter_sets }, s8)),
                                                                },
                                                        },
                                                },
                                        },
                                },
                        },
                },
        }
    }

    fn kind() -> (k: u16) {
        8
    }

    fn write(&self, w: &mut Writer) {
        w.u32(self.generation);
        w.u8(self.codec);
        w.u32(self.width);
        w.u32(self.height);
        w.u32(self.fps);
        w.u8(self.bit_depth);
        w.u8(self.color_space);
        w.bytes(self.parameter_sets.as_slice());
        assert(w@ =~= old(w)@ + Self::encoding(self@));
    }

    fn read(r: &mut Reader) -> (res: Result<Self, ProtocolError>) {
        let generation = r.u32()?;
        let codec = r.u8()?;
        let width = r.u32()?;
        let height = r.u32()?;
        let fps = r.u32()?;
        let bit_depth = r.u8()?;
        let color_space = r.u8()?;
        let parameter_sets = r.bytes()?;
        Ok(VideoConfig { generation, codec, width, height, fps, bit_depth, color_space, parameter_sets })
    }

    proof fn lemma_roundtrip(v: VideoConfigView, rest: Seq<u8>) {
        let t7 = enc_bytes(v.parameter_sets) + rest;
        let t6 = enc_u8(v.color_space) + t7;
        let t5 = enc_u8(v.bit_depth) + t6;
        let t4 = enc_u32(v.fps) + t5;
        let t3 = enc_u32(v.height) + t4;
        let t2 = enc_u32(v.width) + t3;
        let t1 = enc_u8(v.codec) + t2;
        assert(Self::encoding(v) + rest =~= enc_u32(v.generation) + t1);
        lemma_parse_u32(v.generation, t1);
        lemma_parse_u8(v.codec, t2);
        lemma_parse_u32(v.width, t3);
        lemma_parse_u32(v.height, t4);
        lemma_parse_u32(v.fps, t5);
        lemma_parse_u8(v.bit_depth, t6);
        lemma_parse_u8(v.color_space, t7);
        lemma_parse_bytes(v.parameter_sets, rest);
    }
}

/// One datagram-sized piece of an encoded access unit.
#[derive(Debug, Clone, PartialEq)]
pub struct VideoFragment {
    pub generation: u32,
    pub frame_id: u64,
    pub capture_timestamp: u64,
    pub encode_timestamp: u64,
    pub send_timestamp: u64,
    pub keyframe: u8,
    pub index: u16,
    pub count: u16,
    pub total_bytes: u32,
    pub data: Vec<u8>,
}

/// The field values of a [`VideoFragment`].
pub struct VideoFragmentView {
    pub generation: u32,
    pub frame_id: u64,
    pub capture_timestamp: u64,
    pub encode_timestamp: u64,
    pub send_timestamp: u64,
    pub keyframe: u8,
    pub index: u16,
    pub count: u16,
    pub total_bytes: u32,
    pub data: Seq<u8>,
}

impl View for VideoFragment {
    type V = VideoFragmentView;

    open spec fn view(&self) -> VideoFragmentView {
        VideoFragmentView {
            generation: self.generation,
            frame_id: self.frame_id,
            capture_timestamp: self.capture_timestamp,
            encode_timestamp: self.encode_timestamp,
            send_timestamp: self.send_timestamp,
            keyframe: self.keyframe,
            index: self.index,
            count: self.count,
            total_bytes: self.total_bytes,
            data: self.data@,
        }
    }
}

impl Wire for VideoFragment {
    open spec fn spec_kind() -> u16 {
        9
    }

    open spec fn encoding(v: VideoFragmentView) -> Seq<u8> {
        enc_u32(v.generation) + (enc_u64(v.frame_id) + (enc_u64(v.capture_timestamp) + (enc_u64(v.encode_timestamp) + (enc_u64(v.send_timestamp) + (enc_u8(v.keyframe) + (enc_u16(v.index) + (enc_u16(v.count) + (enc_u32(v.total_bytes) + (enc_bytes(v.data))))))))))
    }

    open spec fn encodable(v: VideoFragmentView) -> bool {
        v.data.len() <= MAX_FRAME
    }

    open spec fn parse(s0: Seq<u8>) -> Result<(VideoFragmentView, Seq<u8>), ProtocolError> {
        match parse_u32(s0) {
            Err(e) => Err(e),
            Ok((generation, s1)) =>
                match parse_u64(s1) {
                    Err(e) => Err(e),
                    Ok((frame_id, s2)) =>
                        match parse_u64(s2) {
                            Err(e) => Err(e),
                            Ok((capture_timestamp, s3)) =>
                                match parse_u64(s3) {
                                    Err(e) => Err(e),
                                    Ok((encode_timestamp, s4)) =>
                                        match parse_u64(s4) {
                                            Err(e) => Err(e),
                                            Ok((send_timestamp, s5)) =>
                                                match parse_u8(s5) {
                                                    Err(e) => Err(e),
                                                    Ok((keyframe, s6)) =>
                                                        match parse_u16(s6) {
                                                            Err(e) => Err(e),
                                                            Ok((index, s7)) =>
                                                                match parse_u16(s7) {
                                                                    Err(e) => Err(e),
                                                                    Ok((count, s8)) =>
                                                                        match parse_u32(s8) {
                                                                            Err(e) => Err(e),
                                                                            Ok((total_bytes, s9)) =>
                                                                                match parse_bytes(s9) {
                                                                                    Err(e) => Err(e),
                                                                                    Ok((data, s10)) =>
                                                                                        Ok((VideoFragmentView { generation, frame_id, capture_timestamp, encode_timestamp, send_timestamp, keyframe, index, count, total_bytes, data }, s10)),
                                                                                },
                                                                        },
                                                                },
                                                        },
                                                },
                                        },
                                },
                        },
                },
        }
    }

    fn kind() -> (k: u16) {
        9
    }

    fn write(&self, w: &mut Writer) {
        w.u32(self.generation);
        w.u64(self.frame_id);
        w.u64(self.capture_timestamp);
        w.u64(self.encode_timestamp);
        w.u64(self.send_timestamp);
        w.u8(self.keyframe);
        w.u16(self.index);
        w.u16(self.count);
        w.u32(self.total_bytes);
        w.bytes(self.data.as_slice());
        assert(w@ =~= old(w)@ + Self::encoding(self@));
    }

    fn read(r: &mut Reader) -> (res: Result<Self, ProtocolError>) {
        let generation = r.u32()?;
        let frame_id = r.u64()?;
        let capture_timestamp = r.u64()?;
        let encode_timestamp = r.u64()?;
        let send_timestamp = r.u64()?;
        let keyframe = r.u8()?;
        let index = r.u16()?;
        let count = r.u16()?;
        let total_bytes = r.u32()?;
        let data = r.bytes()?;
        Ok(VideoFragment { generation, frame_id, capture_timestamp, encode_timestamp, send_timestamp, keyframe, index, count, total_bytes, data })
    }

    proof fn lemma_roundtrip(v: VideoFragmentView, rest: Seq<u8>) {
        let t9 = enc_bytes(v.data) + rest;
        let t8 = enc_u32(v.total_bytes) + t9;
        let t7 = enc_u16(v.count) + t8;
        let t6 = enc_u16(v.index) + t7;
        let t5 = enc_u8(v.keyframe) + t6;
        let t4 = enc_u64(v.send_timestamp) + t5;
        let t3 = enc_u64(v.encode_timestamp) + t4;
        let t2 = enc_u64(v.capture_timestamp) + t3;
        let t1 = enc_u64(v.frame_id) + t2;
        assert(Self::encoding(v) + rest =~= enc_u32(v.generation) + t1);
        lemma_parse_u32(v.generation, t1);
        lemma_parse_u64(v.frame_id, t2);
        lemma_parse_u64(v.capture_timestamp, t3);
        lemma_parse_u64(v.encode_timestamp, t4);
        lemma_parse_u64(v.send_timestamp, t5);
        lemma_parse_u8(v.keyframe, t6);
        lemma_parse_u16(v.index, t7);
        lemma_parse_u16(v.count, t8);
        lemma_parse_u32(v.total_bytes, t9);
        lemma_parse_bytes(v.data, rest);
    }
}

/// A video fragment's payload is laid out in schema order at fixed offsets: the
/// generation (bytes 0..4), frame id (4..12), capture, encode and send timestamps
/// (12..20, 20..28, 28..36), the keyframe flag (36), the fragment index (37..39), the
/// fragment count (39..41), the access unit's total bytes (41..45), then the data's
/// length (45..49) and the data, every integer little endian.
pub proof fn lemma_video_fragment_layout(v: VideoFragmentView)
    ensures
        ({
            let e = <VideoFragment as Wire>::encoding(v);
            &&& e.len() == 49 + v.data.len()
            &&& e.subrange(0, 4) == enc_u32(v.generation)
            &&& e.subrange(4, 12) == enc_u64(v.frame_id)
            &&& e.subrange(12, 20) == enc_u64(v.capture_timestamp)
            &&& e.subrange(20, 28) == enc_u64(v.encode_timestamp)
            &&& e.subrange(28, 36) == enc_u64(v.send_timestamp)
            &&& e[36] == v.keyframe
            &&& e.subrange(37, 39) == enc_u16(v.index)
            &&& e.subrange(39, 41) == enc_u16(v.count)
            &&& e.subrange(41, 45) == enc_u32(v.total_bytes)
            &&& e.subrange(45, 49) == enc_u32(v.data.len() as u32)
            &&& e.subrange(49, e.len() as int) == v.data
        }),
{
    vstd::bytes::lemma_auto_spec_u16_to_from_le_bytes();
    vstd::bytes::lemma_auto_spec_u32_to_from_le_bytes();
    vstd::bytes::lemma_auto_spec_u64_to_from_le_bytes();
    let e = <VideoFragment as Wire>::encoding(v);
    let t9 = enc_u32(v.total_bytes) + enc_bytes(v.data);
    let t8 = enc_u16(v.count) + t9;
    let t7 = enc_u16(v.index) + t8;
    let t6 = enc_u8(v.keyframe) + t7;
    let t5 = enc_u64(v.send_timestamp) + t6;
    let t4 = enc_u64(v.encode_timestamp) + t5;
    let t3 = enc_u64(v.capture_timestamp) + t4;
    let t2 = enc_u64(v.frame_id) + t3;
    assert(e == enc_u32(v.generation) + t2);
    assert(e.subrange(0, 4) =~= enc_u32(v.generation));
    assert(e.subrange(4, 12) =~= enc_u64(v.frame_id));
    assert(e.subrange(12, 20) =~= enc_u64(v.capture_timestamp));
    assert(e.subrange(20, 28) =~= enc_u64(v.encode_timestamp));
    assert(e.subrange(28, 36) =~= enc_u64(v.send_timestamp));
    assert(e.subrange(37, 39) =~= enc_u16(v.index));
    assert(e.subrange(39, 41) =~= enc_u16(v.count));
    assert(e.subrange(41, 45) =~= enc_u32(v.total_bytes));
    assert(e.subrange(45, 49) =~= enc_u32(v.data.len() as u32));
    assert(e.subrange(49, e.len() as int) =~= v.data);
}

/// The client asks for an IDR frame.
#[derive(Debug, Clone, Copy, PartialEq, Eq)]
pub struct KeyframeRequest {
    pub reason: u8,
}

impl View for KeyframeRequest {
    type V = KeyframeRequest;

    open spec fn view(&self) -> KeyframeRequest {
        *self
    }
}

impl Wire for KeyframeRequest {
    open spec fn spec_kind() -> u16 {
        10
    }

    open spec fn encoding(v: KeyframeRequest) -> Seq<u8> {
        enc_u8(v.reason)
    }

    open spec fn encodable(v: KeyframeRequest) -> bool {
        true
    }

    open spec fn parse(s0: Seq<u8>) -> Result<(KeyframeRequest, Seq<u8>), ProtocolError> {
        match parse_u8(s0) {
            Err(e) => Err(e),
            Ok((reason, s1)) =>
                Ok((KeyframeRequest { reason }, s1)),
        }
    }

    fn kind() -> (k: u16) {
        10
    }

    fn write(&self, w: &mut Writer) {
        w.u8(self.reason);
        assert(w@ =~= old(w)@ + Self::encoding(self@));
    }

    fn read(r: &mut Reader) -> (res: Result<Self, ProtocolError>) {
        let reason = r.u8()?;
        Ok(KeyframeRequest { reason })
    }

    proof fn lemma_roundtrip(v: KeyframeRequest, rest: Seq<u8>) {
        assert(Self::encoding(v) + rest =~= enc_u8(v.reason) + rest);
        lemma_parse_u8(v.reason, rest);
    }
}

/// The client asks for another mode.
#[derive(Debug, Clone, Copy, PartialEq, Eq, Structural)]
pub struct DisplayModeChange {
    pub width: u32,
    pub height: u32,
    pub fps: u32,
}

impl View for DisplayModeChange {
    type V = DisplayModeChange;

    open spec fn view(&self) -> DisplayModeChange {
        *self
    }
}

impl Wire for DisplayModeChange {
    open spec fn spec_kind() -> u16 {
        11
    }

    open spec fn encoding(v: DisplayModeChange) -> Seq<u8> {
        enc_u32(v.width) + (enc_u32(v.height) + (enc_u32(v.fps)))
    }

    open spec fn encodable(v: DisplayModeChange) -> bool {
        true
    }

    open spec fn parse(s0: Seq<u8>) -> Result<(DisplayModeChange, Seq<u8>), ProtocolError> {
        match parse_u32(s0) {
            Err(e) => Err(e),
            Ok((width, s1)) =>
                match parse_u32(s1) {
                    Err(e) => Err(e),
                    Ok((height, s2)) =>
                        match parse_u32(s2) {
                            Err(e) => Err(e),
                            Ok((fps, s3)) =>
                                Ok((DisplayModeChange { width, height, fps }, s3)),
                        },
                },
        }
    }

    fn kind() -> (k: u16) {
        11
    }

    fn write(&self, w: &mut Writer) {
        w.u32(self.width);
        w.u32(self.height);
        w.u32(self.fps);
        assert(w@ =~= old(w)@ + Self::encoding(self@));
    }

    fn read(r: &mut Reader) -> (res: Result<Self, ProtocolError>) {
        let width = r.u32()?;
        let height = r.u32()?;
        let fps = r.u32()?;
        Ok(DisplayModeChange { width, height, fps })
    }

    proof fn lemma_roundtrip(v: DisplayModeChange, rest: Seq<u8>) {
        let t2 = enc_u32(v.fps) + rest;
        let t1 = enc_u32(v.height) + t2;
        assert(Self::encoding(v) + rest =~= enc_u32(v.width) + t1);
        lemma_parse_u32(v.width, t1);
        lemma_parse_u32(v.height, t2);
        lemma_parse_u32(v.fps, rest);
    }
}

/// One touch, pointer or keyboard event; float fields are IEEE-754 bit patterns.
#[derive(Debug, Clone, Copy, PartialEq, Eq)]
pub struct InputEvent {
    pub kind: u8,
    pub phase: u8,
    pub contact_id: u16,
    /// IEEE-754 binary32 bit pattern.
    pub x: u32,
    /// IEEE-754 binary32 bit pattern.
    pub y: u32,
    /// IEEE-754 binary32 bit pattern.
    pub dx: u32,
    /// IEEE-754 binary32 bit pattern.
    pub dy: u32,
    pub buttons: u32,
    pub physical_key: u16,
    pub logical_key: u32,
    pub modifiers: u32,
    pub is_repeat: u8,
}

impl View for InputEvent {
    type V = InputEvent;

    open spec fn view(&self) -> InputEvent {
        *self
    }
}

impl Wire for InputEvent {
    open spec fn spec_kind() -> u16 {
        12
    }

    open spec fn encoding(v: InputEvent) -> Seq<u8> {
        enc_u8(v.kind) + (enc_u8(v.phase) + (enc_u16(v.contact_id) + (enc_u32(v.x) + (enc_u32(v.y) + (enc_u32(v.dx) + (enc_u32(v.dy) + (enc_u32(v.buttons) + (enc_u16(v.physical_key) + (enc_u32(v.logical_key) + (enc_u32(v.modifiers) + (enc_u8(v.is_repeat))))))))))))
    }

    open spec fn encodable(v: InputEvent) -> bool {
        &&& is_finite_bits(v.x)
        &&& is_finite_bits(v.y)
        &&& is_finite_bits(v.dx)
        &&& is_finite_bits(v.dy)
    }

    open spec fn parse(s0: Seq<u8>) -> Result<(InputEvent, Seq<u8>), ProtocolError> {
        match parse_u8(s0) {
            Err(e) => Err(e),
            Ok((kind, s1)) =>
                match parse_u8(s1) {
                    Err(e) => Err(e),
                    Ok((phase, s2)) =>
                        match parse_u16(s2) {
                            Err(e) => Err(e),
                            Ok((contact_id, s3)) =>
                                match parse_f32(s3) {
                                    Err(e) => Err(e),
                                    Ok((x, s4)) =>
                                        match parse_f32(s4) {
                                            Err(e) => Err(e),
                                            Ok((y, s5)) =>
                                                match parse_f32(s5) {
                                                    Err(e) => Err(e),
                                                    Ok((dx, s6)) =>
                                                        match parse_f32(s6) {
                                                            Err(e) => Err(e),
                                                            Ok((dy, s7)) =>
                                                                match parse_u32(s7) {
                                                                    Err(e) => Err(e),
                                                                    Ok((buttons, s8)) =>
                                                                        match parse_u16(s8) {
                                                                            Err(e) => Err(e),
                                                                            Ok((physical_key, s9)) =>
                                                                                match parse_u32(s9) {
                                                                                    Err(e) => Err(e),
                                                                                    Ok((logical_key, s10)) =>
                                                                                        match parse_u32(s10) {
                                                                                            Err(e) => Err(e),
                                                                                            Ok((modifiers, s11)) =>
                                                                                                match parse_u8(s11) {
                                                                                                    Err(e) => Err(e),
                                                                                                    Ok((is_repeat, s12)) =>
                                                                                                        Ok((InputEvent { kind, phase, contact_id, x, y, dx, dy, buttons, physical_key, logical_key, modifiers, is_repeat }, s12)),
                                                                                                },
                                                                                        },
                                                                                },
                                                                        },
                                                                },
                                                        },
                                                },
                                        },
                                },
                        },
                },
        }
    }

    fn kind() -> (k: u16) {
        12
    }

    fn write(&self, w: &mut Writer) {
        w.u8(self.kind);
        w.u8(self.phase);
        w.u16(self.contact_id);
        w.f32_bits(self.x);
        w.f32_bits(self.y);
        w.f32_bits(self.dx);
        w.f32_bits(self.dy);
        w.u32(self.buttons);
        w.u16(self.physical_key);
        w.u32(self.logical_key);
        w.u32(self.modifiers);
        w.u8(self.is_repeat);
        assert(w@ =~= old(w)@ + Self::encoding(self@));
    }

    fn read(r: &mut Reader) -> (res: Result<Self, ProtocolError>) {
        let kind = r.u8()?;
        let phase = r.u8()?;
        let contact_id = r.u16()?;
        let x = r.f32_bits()?;
        let y = r.f32_bits()?;
        let dx = r.f32_bits()?;
        let dy = r.f32_bits()?;
        let buttons = r.u32()?;
        let physical_key = r.u16()?;
        let logical_key = r.u32()?;
        let modifiers = r.u32()?;
        let is_repeat = r.u8()?;
        Ok(InputEvent { kind, phase, contact_id, x, y, dx, dy, buttons, physical_key, logical_key, modifiers, is_repeat })
    }

    proof fn lemma_roundtrip(v: InputEvent, rest: Seq<u8>) {
        let t11 = enc_u8(v.is_repeat) + rest;
        let t10 = enc_u32(v.modifiers) + t11;
        let t9 = enc_u32(v.logical_key) + t10;
        let t8 = enc_u16(v.physical_key) + t9;
        let t7 = enc_u32(v.buttons) + t8;
        let t6 = enc_u32(v.dy) + t7;
        let t5 = enc_u32(v.dx) + t6;
        let t4 = enc_u32(v.y) + t5;
        let t3 = enc_u32(v.x) + t4;
        let t2 = enc_u16(v.contact_id) + t3;
        let t1 = enc_u8(v.phase) + t2;
        assert(Self::encoding(v) + rest =~= enc_u8(v.kind) + t1);
        lemma_parse_u8(v.kind, t1);
        lemma_parse_u8(v.phase, t2);
        lemma_parse_u16(v.contact_id, t3);
        lemma_parse_f32(v.x, t4);
        lemma_parse_f32(v.y, t5);
        lemma_parse_f32(v.dx, t6);
        lemma_parse_f32(v.dy, t7);
        lemma_parse_u32(v.buttons, t8);
        lemma_parse_u16(v.physical_key, t9);
        lemma_parse_u32(v.logical_key, t10);
        lemma_parse_u32(v.modifiers, t11);
        lemma_parse_u8(v.is_repeat, rest);
    }
}

/// Periodic client statistics; `fps` is an IEEE-754 bit pattern.
#[derive(Debug, Clone, Copy, PartialEq, Eq, Structural)]
pub struct Statistics {
    /// IEEE-754 binary32 bit pattern.
    pub fps: u32,
    pub bitrate: u32,
    pub rtt_us: u32,
    pub loss_ppm: u32,
    pub decode_queue: u32,
    pub dropped_frames: u32,
    pub received_bytes: u64,
    pub decode_us: u32,
    pub render_us: u32,
    pub estimated_latency_us: u32,
}

impl View for Statistics {
    type V = Statistics;

    open spec fn view(&self) -> Statistics {
        *self
    }
}

impl Wire for Statistics {
    open spec fn spec_kind() -> u16 {
        13
    }

    open spec fn encoding(v: Statistics) -> Seq<u8> {
        enc_u32(v.fps) + (enc_u32(v.bitrate) + (enc_u32(v.rtt_us) + (enc_u32(v.loss_ppm) + (enc_u32(v.decode_queue) + (enc_u32(v.dropped_frames) + (enc_u64(v.received_bytes) + (enc_u32(v.decode_us) + (enc_u32(v.render_us) + (enc_u32(v.estimated_latency_us))))))))))
    }

    open spec fn encodable(v: Statistics) -> bool {
        is_finite_bits(v.fps)
    }

    open spec fn parse(s0: Seq<u8>) -> Result<(Statistics, Seq<u8>), ProtocolError> {
        match parse_f32(s0) {
            Err(e) => Err(e),
            Ok((fps, s1)) =>
                match parse_u32(s1) {
                    Err(e) => Err(e),
                    Ok((bitrate, s2)) =>
                        match parse_u32(s2) {
                            Err(e) => Err(e),
                            Ok((rtt_us, s3)) =>
                                match parse_u32(s3) {
                                    Err(e) => Err(e),
                                    Ok((loss_ppm, s4)) =>
                                        match parse_u32(s4) {
                                            Err(e) => Err(e),
                                            Ok((decode_queue, s5)) =>
                                                match parse_u32(s5) {
                                                    Err(e) => Err(e),
                                                    Ok((dropped_frames, s6)) =>
                                                        match parse_u64(s6) {
                                                            Err(e) => Err(e),
                                                            Ok((received_bytes, s7)) =>
                                                                match parse_u32(s7) {
                                                                    Err(e) => Err(e),
                                                                    Ok((decode_us, s8)) =>
                                                                        match parse_u32(s8) {
                                                                            Err(e) => Err(e),
                                                                            Ok((render_us, s9)) =>
                                                                                match parse_u32(s9) {
                                                                                    Err(e) => Err(e),
                                                                                    Ok((estimated_latency_us, s10)) =>
                                                                                        Ok((Statistics { fps, bitrate, rtt_us, loss_ppm, decode_queue, dropped_frames, received_bytes, decode_us, render_us, estimated_latency_us }, s10)),
                                                                                },
                                                                        },
                                                                },
                                                        },
                                                },
                                        },
                                },
                        },
                },
        }
    }

    fn kind() -> (k: u16) {
        13
    }

    fn write(&self, w: &mut Writer) {
        w.f32_bits(self.fps);
        w.u32(self.bitrate);
        w.u32(self.rtt_us);
        w.u32(self.loss_ppm);
        w.u32(self.decode_queue);
        w.u32(self.dropped_frames);
        w.u64(self.received_bytes);
        w.u32(self.decode_us);
        w.u32(self.render_us);
        w.u32(self.estimated_latency_us);
        assert(w@ =~= old(w)@ + Self::encoding(self@));
    }

    fn read(r: &mut Reader) -> (res: Result<Self, ProtocolError>) {
        let fps = r.f32_bits()?;
        let bitrate = r.u32()?;
        let rtt_us = r.u32()?;
        let loss_ppm = r.u32()?;
        let decode_queue = r.u32()?;
        let dropped_frames = r.u32()?;
        let received_bytes = r.u64()?;
        let decode_us = r.u32()?;
        let render_us = r.u32()?;
        let estimated_latency_us = r.u32()?;
        Ok(Statistics { fps, bitrate, rtt_us, loss_ppm, decode_queue, dropped_frames, received_bytes, decode_us, render_us, estimated_latency_us })
    }

    proof fn lemma_roundtrip(v: Statistics, rest: Seq<u8>) {
        let t9 = enc_u32(v.estimated_latency_us) + rest;
        let t8 = enc_u32(v.render_us) + t9;
        let t7 = enc_u32(v.decode_us) + t8;
        let t6 = enc_u64(v.received_bytes) + t7;
        let t5 = enc_u32(v.dropped_frames) + t6;
        let t4 = enc_u32(v.decode_queue) + t5;
        let t3 = enc_u32(v.loss_ppm) + t4;
        let t2 = enc_u32(v.rtt_us) + t3;
        let t1 = enc_u32(v.bitrate) + t2;
        assert(Self::encoding(v) + rest =~= enc_u32(v.fps) + t1);
        lemma_parse_f32(v.fps, t1);
        lemma_parse_u32(v.bitrate, t2);
        lemma_parse_u32(v.rtt_us, t3);
        lemma_parse_u32(v.loss_ppm, t4);
        lemma_parse_u32(v.decode_queue, t5);
        lemma_parse_u32(v.dropped_frames, t6);
        lemma_parse_u64(v.received_bytes, t7);
        lemma_parse_u32(v.decode_us, t8);
        lemma_parse_u32(v.render_us, t9);
        lemma_parse_u32(v.estimated_latency_us, rest);
    }
}

/// Clock probe carrying the client's send time.
#[derive(Debug, Clone, Copy, PartialEq, Eq)]
pub struct Ping {
    pub client_timestamp: u64,
}

impl View for Ping {
    type V = Ping;

    open spec fn view(&self) -> Ping {
        *self
    }
}

impl Wire for Ping {
    open spec fn spec_kind() -> u16 {
        14
    }

    open spec fn encoding(v: Ping) -> Seq<u8> {
        enc_u64(v.client_timestamp)
    }

    open spec fn encodable(v: Ping) -> bool {
        true
    }

    open spec fn parse(s0: Seq<u8>) -> Result<(Ping, Seq<u8>), ProtocolError> {
        match parse_u64(s0) {
            Err(e) => Err(e),
            Ok((client_timestamp, s1)) =>
                Ok((Ping { client_timestamp }, s1)),
        }
    }

    fn kind() -> (k: u16) {
        14
    }

    fn write(&self, w: &mut Writer) {
        w.u64(self.client_timestamp);
        assert(w@ =~= old(w)@ + Self::encoding(self@));
    }

    fn read(r: &mut Reader) -> (res: Result<Self, ProtocolError>) {
        let client_timestamp = r.u64()?;
        Ok(Ping { client_timestamp })
    }

    proof fn lemma_roundtrip(v: Ping, rest: Seq<u8>) {
        assert(Self::encoding(v) + rest =~= enc_u64(v.client_timestamp) + rest);
        lemma_parse_u64(v.client_timestamp, rest);
    }
}

/// Answer to a ping with the host's receive and send times.
#[derive(Debug, Clone, Copy, PartialEq, Eq)]
pub struct Pong {
    pub client_timestamp: u64,
    pub host_receive: u64,
    pub host_send: u64,
}

impl View for Pong {
    type V = Pong;

    open spec fn view(&self) -> Pong {
        *self
    }
}

impl Wire for Pong {
    open spec fn spec_kind() -> u16 {
        15
    }

    open spec fn encoding(v: Pong) -> Seq<u8> {
        enc_u64(v.client_timestamp) + (enc_u64(v.host_receive) + (enc_u64(v.host_send)))
    }

    open spec fn encodable(v: Pong) -> bool {
        true
    }

    open spec fn parse(s0: Seq<u8>) -> Result<(Pong, Seq<u8>), ProtocolError> {
        match parse_u64(s0) {
            Err(e) => Err(e),
            Ok((client_timestamp, s1)) =>
                match parse_u64(s1) {
                    Err(e) => Err(e),
                    Ok((host_receive, s2)) =>
                        match parse_u64(s2) {
                            Err(e) => Err(e),
                            Ok((host_send, s3)) =>
                                Ok((Pong { client_timestamp, host_receive, host_send }, s3)),
                        },
                },
        }
    }

    fn kind() -> (k: u16) {
        15
    }

    fn write(&self, w: &mut Writer) {
        w.u64(self.client_timestamp);
        w.u64(self.host_receive);
        w.u64(self.host_send);
        assert(w@ =~= old(w)@ + Self::encoding(self@));
    }

    fn read(r: &mut Reader) -> (res: Result<Self, ProtocolError>) {
        let client_timestamp = r.u64()?;
        let host_receive = r.u64()?;
        let host_send = r.u64()?;
        Ok(Pong { client_timestamp, host_receive, host_send })
    }

    proof fn lemma_roundtrip(v: Pong, rest: Seq<u8>) {
        let t2 = enc_u64(v.host_send) + rest;
        let t1 = enc_u64(v.host_receive) + t2;
        assert(Self::encoding(v) + rest =~= enc_u64(v.client_timestamp) + t1);
        lemma_parse_u64(v.client_timestamp, t1);
        lemma_parse_u64(v.host_receive, t2);
        lemma_parse_u64(v.host_send, rest);
    }
}

/// The client ends the session; reason 0 is an explicit disconnect.
#[derive(Debug, Clone, Copy, PartialEq, Eq)]
pub struct SessionStop {
    pub reason: u8,
}

impl View for SessionStop {
    type V = SessionStop;

    open spec fn view(&self) -> SessionStop {
        *self
    }
}

impl Wire for SessionStop {
    open spec fn spec_kind() -> u16 {
        16
    }

    open spec fn encoding(v: SessionStop) -> Seq<u8> {
        enc_u8(v.reason)
    }

    open spec fn encodable(v: SessionStop) -> bool {
        true
    }

    open spec fn parse(s0: Seq<u8>) -> Result<(SessionStop, Seq<u8>), ProtocolError> {
        match parse_u8(s0) {
            Err(e) => Err(e),
            Ok((reason, s1)) =>
                Ok((SessionStop { reason }, s1)),
        }
    }

    fn kind() -> (k: u16) {
        16
    }

    fn write(&self, w: &mut Writer) {
        w.u8(self.reason);
        assert(w@ =~= old(w)@ + Self::encoding(self@));
    }

    fn read(r: &mut Reader) -> (res: Result<Self, ProtocolError>) {
        let reason = r.u8()?;
        Ok(SessionStop { reason })
    }

    proof fn lemma_roundtrip(v: SessionStop, rest: Seq<u8>) {
        assert(Self::encoding(v) + rest =~= enc_u8(v.reason) + rest);
        lemma_parse_u8(v.reason, rest);
    }
}

/// The payload of a version reply is laid out in schema order at fixed offsets, every
/// integer little endian: major (0), minor (1); 2 bytes in all.
pub proof fn lemma_protocol_version_layout(v: ProtocolVersion)
    ensures
        ({
            let e = <ProtocolVersion as Wire>::encoding(v);
            &&& e.len() == 2
            &&& e[0] == v.major
            &&& e[1] == v.minor
        }),
{
    vstd::bytes::lemma_auto_spec_u16_to_from_le_bytes();
    vstd::bytes::lemma_auto_spec_u32_to_from_le_bytes();
    vstd::bytes::lemma_auto_spec_u64_to_from_le_bytes();
    let e = <ProtocolVersion as Wire>::encoding(v);
    let t1 = enc_u8(v.minor);
    assert(e == enc_u8(v.major) + t1);
    assert(e[0] == enc_u8(v.major)[0]);
    assert(e[1] == enc_u8(v.minor)[0]);
}

/// The payload of the client's capabilities is laid out in schema order at fixed offsets,
/// every integer little endian: physical_width (0..4), physical_height (4..8),
/// logical_width (8..12), logical_height (12..16), max_fps (16..20), native_scale
/// (20..24), safe_top (24..28), safe_right (28..32), safe_bottom (32..36), safe_left
/// (36..40), orientation (40); 41 bytes in all.
pub proof fn lemma_display_capabilities_layout(v: DisplayCapabilities)
    ensures
        ({
            let e = <DisplayCapabilities as Wire>::encoding(v);
            &&& e.len() == 41
            &&& e.subrange(0, 4) == enc_u32(v.physical_width)
            &&& e.subrange(4, 8) == enc_u32(v.physical_height)
            &&& e.subrange(8, 12) == enc_u32(v.logical_width)
            &&& e.subrange(12, 16) == enc_u32(v.logical_height)
            &&& e.subrange(16, 20) == enc_u32(v.max_fps)
            &&& e.subrange(20, 24) == enc_u32(v.native_scale)
            &&& e.subrange(24, 28) == enc_u32(v.safe_top)
            &&& e.subrange(28, 32) == enc_u32(v.safe_right)
            &&& e.subrange(32, 36) == enc_u32(v.safe_bottom)
            &&& e.subrange(36, 40) == enc_u32(v.safe_left)
            &&& e[40] == v.orientation
        }),
{
    vstd::bytes::lemma_auto_spec_u16_to_from_le_bytes();
    vstd::bytes::lemma_auto_spec_u32_to_from_le_bytes();
    vstd::bytes::lemma_auto_spec_u64_to_from_le_bytes();
    let e = <DisplayCapabilities as Wire>::encoding(v);
    let t10 = enc_u8(v.orientation);
    let t9 = enc_u32(v.safe_left) + t10;
    let t8 = enc_u32(v.safe_bottom) + t9;
    let t7 = enc_u32(v.safe_right) + t8;
    let t6 = enc_u32(v.safe_top) + t7;
    let t5 = enc_u32(v.native_scale) + t6;
    let t4 = enc_u32(v.max_fps) + t5;
    let t3 = enc_u32(v.logical_height) + t4;
    let t2 = enc_u32(v.logical_width) + t3;
    let t1 = enc_u32(v.physical_height) + t2;
    assert(e == enc_u32(v.physical_width) + t1);
    assert(e.subrange(0, 4) =~= enc_u32(v.physical_width));
    assert(e.subrange(4, 8) =~= enc_u32(v.physical_height));
    assert(e.subrange(8, 12) =~= enc_u32(v.logical_width));
    assert(e.subrange(12, 16) =~= enc_u32(v.logical_height));
    assert(e.subrange(16, 20) =~= enc_u32(v.max_fps));
    assert(e.subrange(20, 24) =~= enc_u32(v.native_scale));
    assert(e.subrange(24, 28) =~= enc_u32(v.safe_top));
    assert(e.subrange(28, 32) =~= enc_u32(v.safe_right));
    assert(e.subrange(32, 36) =~= enc_u32(v.safe_bottom));
    assert(e.subrange(36, 40) =~= enc_u32(v.safe_left));
    assert(e[40] == enc_u8(v.orientation)[0]);
}

/// The payload of a session start is laid out in schema order at fixed offsets, every
/// integer little endian: width (0..4), height (4..8), fps (8..12); 12 bytes in all.
pub proof fn lemma_session_start_layout(v: SessionStart)
    ensures
        ({
            let e = <SessionStart as Wire>::encoding(v);
            &&& e.len() == 12
            &&& e.subrange(0, 4) == enc_u32(v.width)
            &&& e.subrange(4, 8) == enc_u32(v.height)
            &&& e.subrange(8, 12) == enc_u32(v.fps)
        }),
{
    vstd::bytes::lemma_auto_spec_u16_to_from_le_bytes();
    vstd::bytes::lemma_auto_spec_u32_to_from_le_bytes();
    vstd::bytes::lemma_auto_spec_u64_to_from_le_bytes();
    let e = <SessionStart as Wire>::encoding(v);
    let t2 = enc_u32(v.fps);
    let t1 = enc_u32(v.height) + t2;
    assert(e == enc_u32(v.width) + t1);
    assert(e.subrange(0, 4) =~= enc_u32(v.width));
    assert(e.subrange(4, 8) =~= enc_u32(v.height));
    assert(e.subrange(8, 12) =~= enc_u32(v.fps));
}

/// The payload of the encoder capabilities is laid out in schema order at fixed offsets,
/// every integer little endian: codecs (0..4), hardware (4), max_width (5..9),
/// max_height (9..13); 13 bytes in all.
pub proof fn lemma_encoder_capabilities_layout(v: EncoderCapabilities)
    ensures
        ({
            let e = <EncoderCapabilities as Wire>::encoding(v);
            &&& e.len() == 13
            &&& e.subrange(0, 4) == enc_u32(v.codecs)
            &&& e[4] == v.hardware
            &&& e.subrange(5, 9) == enc_u32(v.max_width)
            &&& e.subrange(9, 13) == enc_u32(v.max_height)
        }),
{
    vstd::bytes::lemma_auto_spec_u16_to_from_le_bytes();
    vstd::bytes::lemma_auto_spec_u32_to_from_le_bytes();
    vstd::bytes::lemma_auto_spec_u64_to_from_le_bytes();
    let e = <EncoderCapabilities as Wire>::encoding(v);
    let t3 = enc_u32(v.max_height);
    let t2 = enc_u32(v.max_width) + t3;
    let t1 = enc_u8(v.hardware) + t2;
    assert(e == enc_u32(v.codecs) + t1);
    assert(e.subrange(0, 4) =~= enc_u32(v.codecs));
    assert(e[4] == enc_u8(v.hardware)[0]);
    assert(e.subrange(5, 9) =~= enc_u32(v.max_width));
    assert(e.subrange(9, 13) =~= enc_u32(v.max_height));
}

/// The payload of a video configuration is laid out in schema order at fixed offsets,
/// every integer little endian: generation (0..4), codec (4), width (5..9), height
/// (9..13), fps (13..17), bit_depth (17), color_space (18), then the length and bytes
/// of parameter_sets (19..).
pub proof fn lemma_video_config_layout(v: VideoConfigView)
    ensures
        ({
            let e = <VideoConfig as Wire>::encoding(v);
            &&& e.len() == 19 + 4 + v.parameter_sets.len()
            &&& e.subrange(0, 4) == enc_u32(v.generation)
            &&& e[4] == v.codec
            &&& e.subrange(5, 9) == enc_u32(v.width)
            &&& e.subrange(9, 13) == enc_u32(v.height)
            &&& e.subrange(13, 17) == enc_u32(v.fps)
            &&& e[17] == v.bit_depth
            &&& e[18] == v.color_space
            &&& e.subrange(19, 23) == enc_u32(v.parameter_sets.len() as u32)
            &&& e.subrange(23, e.len() as int) == v.parameter_sets
        }),
{
    vstd::bytes::lemma_auto_spec_u16_to_from_le_bytes();
    vstd::bytes::lemma_auto_spec_u32_to_from_le_bytes();
    vstd::bytes::lemma_auto_spec_u64_to_from_le_bytes();
    let e = <VideoConfig as Wire>::encoding(v);
    let t7 = enc_bytes(v.parameter_sets);
    let t6 = enc_u8(v.color_space) + t7;
    let t5 = enc_u8(v.bit_depth) + t6;
    let t4 = enc_u32(v.fps) + t5;
    let t3 = enc_u32(v.height) + t4;
    let t2 = enc_u32(v.width) + t3;
    let t1 = enc_u8(v.codec) + t2;
    assert(e == enc_u32(v.generation) + t1);
    assert(e.subrange(0, 4) =~= enc_u32(v.generation));
    assert(e[4] == enc_u8(v.codec)[0]);
    assert(e.subrange(5, 9) =~= enc_u32(v.width));
    assert(e.subrange(9, 13) =~= enc_u32(v.height));
    assert(e.subrange(13, 17) =~= enc_u32(v.fps));
    assert(e[17] == enc_u8(v.bit_depth)[0]);
    assert(e[18] == enc_u8(v.color_space)[0]);
    assert(e.subrange(19, 23) =~= enc_u32(v.parameter_sets.len() as u32));
    assert(e.subrange(23, e.len() as int) =~= v.parameter_sets);
}

/// The payload of a mode change request is laid out in schema order at fixed offsets,
/// every integer little endian: width (0..4), height (4..8), fps (8..12); 12 bytes in
/// all.
pub proof fn lemma_display_mode_change_layout(v: DisplayModeChange)
    ensures
        ({
            let e = <DisplayModeChange as Wire>::encoding(v);
            &&& e.len() == 12
            &&& e.subrange(0, 4) == enc_u32(v.width)
            &&& e.subrange(4, 8) == enc_u32(v.height)
            &&& e.subrange(8, 12) == enc_u32(v.fps)
        }),
{
    vstd::bytes::lemma_auto_spec_u16_to_from_le_bytes();
    vstd::bytes::lemma_auto_spec_u32_to_from_le_bytes();
    vstd::bytes::lemma_auto_spec_u64_to_from_le_bytes();
    let e = <DisplayModeChange as Wire>::encoding(v);
    let t2 = enc_u32(v.fps);
    let t1 = enc_u32(v.height) + t2;
    assert(e == enc_u32(v.width) + t1);
    assert(e.subrange(0, 4) =~= enc_u32(v.width));
    assert(e.subrange(4, 8) =~= enc_u32(v.height));
    assert(e.subrange(8, 12) =~= enc_u32(v.fps));
}

/// The payload of an input event is laid out in schema order at fixed offsets, every
/// integer little endian: kind (0), phase (1), contact_id (2..4), x (4..8), y (8..12),
/// dx (12..16), dy (16..20), buttons (20..24), physical_key (24..26), logical_key
/// (26..30), modifiers (30..34), is_repeat (34); 35 bytes in all.
pub proof fn lemma_input_event_layout(v: InputEvent)
    ensures
        ({
            let e = <InputEvent as Wire>::encoding(v);
            &&& e.len() == 35
            &&& e[0] == v.kind
            &&& e[1] == v.phase
            &&& e.subrange(2, 4) == enc_u16(v.contact_id)
            &&& e.subrange(4, 8) == enc_u32(v.x)
            &&& e.subrange(8, 12) == enc_u32(v.y)
            &&& e.subrange(12, 16) == enc_u32(v.dx)
            &&& e.subrange(16, 20) == enc_u32(v.dy)
            &&& e.subrange(20, 24) == enc_u32(v.buttons)
            &&& e.subrange(24, 26) == enc_u16(v.physical_key)
            &&& e.subrange(26, 30) == enc_u32(v.logical_key)
            &&& e.subrange(30, 34) == enc_u32(v.modifiers)
            &&& e[34] == v.is_repeat
        }),
{
    vstd::bytes::lemma_auto_spec_u16_to_from_le_bytes();
    vstd::bytes::lemma_auto_spec_u32_to_from_le_bytes();
    vstd::bytes::lemma_auto_spec_u64_to_from_le_bytes();
    let e = <InputEvent as Wire>::encoding(v);
    let t11 = enc_u8(v.is_repeat);
    let t10 = enc_u32(v.modifiers) + t11;
    let t9 = enc_u32(v.logical_key) + t10;
    let t8 = enc_u16(v.physical_key) + t9;
    let t7 = enc_u32(v.buttons) + t8;
    let t6 = enc_u32(v.dy) + t7;
    let t5 = enc_u32(v.dx) + t6;
    let t4 = enc_u32(v.y) + t5;
    let t3 = enc_u32(v.x) + t4;
    let t2 = enc_u16(v.contact_id) + t3;
    let t1 = enc_u8(v.phase) + t2;
    assert(e == enc_u8(v.kind) + t1);
    assert(e[0] == enc_u8(v.kind)[0]);
    assert(e[1] == enc_u8(v.phase)[0]);
    assert(e.subrange(2, 4) =~= enc_u16(v.contact_id));
    assert(e.subrange(4, 8) =~= enc_u32(v.x));
    assert(e.subrange(8, 12) =~= enc_u32(v.y));
    assert(e.subrange(12, 16) =~= enc_u32(v.dx));
    assert(e.subrange(16, 20) =~= enc_u32(v.dy));
    assert(e.subrange(20, 24) =~= enc_u32(v.buttons));
    assert(e.subrange(24, 26) =~= enc_u16(v.physical_key));
    assert(e.subrange(26, 30) =~= enc_u32(v.logical_key));
    assert(e.subrange(30, 34) =~= enc_u32(v.modifiers));
    assert(e[34] == enc_u8(v.is_repeat)[0]);
}

/// The payload of a statistics sample is laid out in schema order at fixed offsets,
/// every integer little endian: fps (0..4), bitrate (4..8), rtt_us (8..12), loss_ppm
/// (12..16), decode_queue (16..20), dropped_frames (20..24), received_bytes (24..32),
/// decode_us (32..36), render_us (36..40), estimated_latency_us (40..44); 44 bytes in
/// all.
pub proof fn lemma_statistics_layout(v: Statistics)
    ensures
        ({
            let e = <Statistics as Wire>::encoding(v);
            &&& e.len() == 44
            &&& e.subrange(0, 4) == enc_u32(v.fps)
            &&& e.subrange(4, 8) == enc_u32(v.bitrate)
            &&& e.subrange(8, 12) == enc_u32(v.rtt_us)
            &&& e.subrange(12, 16) == enc_u32(v.loss_ppm)
            &&& e.subrange(16, 20) == enc_u32(v.decode_queue)
            &&& e.subrange(20, 24) == enc_u32(v.dropped_frames)
            &&& e.subrange(24, 32) == enc_u64(v.received_bytes)
            &&& e.subrange(32, 36) == enc_u32(v.decode_us)
            &&& e.subrange(36, 40) == enc_u32(v.render_us)
            &&& e.subrange(40, 44) == enc_u32(v.estimated_latency_us)
        }),
{
    vstd::bytes::lemma_auto_spec_u16_to_from_le_bytes();
    vstd::bytes::lemma_auto_spec_u32_to_from_le_bytes();
    vstd::bytes::lemma_auto_spec_u64_to_from_le_bytes();
    let e = <Statistics as Wire>::encoding(v);
    let t9 = enc_u32(v.estimated_latency_us);
    let t8 = enc_u32(v.render_us) + t9;
    let t7 = enc_u32(v.decode_us) + t8;
    let t6 = enc_u64(v.received_bytes) + t7;
    let t5 = enc_u32(v.dropped_frames) + t6;
    let t4 = enc_u32(v.decode_queue) + t5;
    let t3 = enc_u32(v.loss_ppm) + t4;
    let t2 = enc_u32(v.rtt_us) + t3;
    let t1 = enc_u32(v.bitrate) + t2;
    assert(e == enc_u32(v.fps) + t1);
    assert(e.subrange(0, 4) =~= enc_u32(v.fps));
    assert(e.subrange(4, 8) =~= enc_u32(v.bitrate));
    assert(e.subrange(8, 12) =~= enc_u32(v.rtt_us));
    assert(e.subrange(12, 16) =~= enc_u32(v.loss_ppm));
    assert(e.subrange(16, 20) =~= enc_u32(v.decode_queue));
    assert(e.subrange(20, 24) =~= enc_u32(v.dropped_frames));
    assert(e.subrange(24, 32) =~= enc_u64(v.received_bytes));
    assert(e.subrange(32, 36) =~= enc_u32(v.decode_us));
    assert(e.subrange(36, 40) =~= enc_u32(v.render_us));
    assert(e.subrange(40, 44) =~= enc_u32(v.estimated_latency_us));
}

/// The payload of a clock probe answer is laid out in schema order at fixed offsets,
/// every integer little endian: client_timestamp (0..8), host_receive (8..16),
/// host_send (16..24); 24 bytes in all.
pub proof fn lemma_pong_layout(v: Pong)
    ensures
        ({
            let e = <Pong as Wire>::encoding(v);
            &&& e.len() == 24
            &&& e.subrange(0, 8) == enc_u64(v.client_timestamp)
            &&& e.subrange(8, 16) == enc_u64(v.host_receive)
            &&& e.subrange(16, 24) == enc_u64(v.host_send)
        }),
{
    vstd::bytes::lemma_auto_spec_u16_to_from_le_bytes();
    vstd::bytes::lemma_auto_spec_u32_to_from_le_bytes();
    vstd::bytes::lemma_auto_spec_u64_to_from_le_bytes();
    let e = <Pong as Wire>::encoding(v);
    let t2 = enc_u64(v.host_send);
    let t1 = enc_u64(v.host_receive) + t2;
    assert(e == enc_u64(v.client_timestamp) + t1);
    assert(e.subrange(0, 8) =~= enc_u64(v.client_timestamp));
    assert(e.subrange(8, 16) =~= enc_u64(v.host_receive));
    assert(e.subrange(16, 24) =~= enc_u64(v.host_send));
}

/// The payload of a handshake holds, in schema order, the client id as a length-prefixed
/// byte field, the name as a length-prefixed UTF-8 field, then four single bytes: the
/// lowest and highest major version, the minor version and the trusted flag.
pub proof fn lemma_handshake_layout(v: HandshakeView)
    ensures
        <Handshake as Wire>::encoding(v) == enc_bytes(v.client_id) + enc_string(v.name) + seq![
            v.min_major,
            v.max_major,
            v.minor,
            v.trusted,
        ],
{
    assert(<Handshake as Wire>::encoding(v) =~= enc_bytes(v.client_id) + enc_string(v.name)
        + seq![v.min_major, v.max_major, v.minor, v.trusted]);
}

/// The payload of the host's information holds, in schema order, the host id as a
/// length-prefixed byte field, then the name as a length-prefixed UTF-8 field.
pub proof fn lemma_host_info_layout(v: HostInfoView)
    ensures
        <HostInfo as Wire>::encoding(v) == enc_u32(v.host_id.len() as u32) + v.host_id
            + enc_string(v.name),
{
    assert(<HostInfo as Wire>::encoding(v) =~= enc_u32(v.host_id.len() as u32) + v.host_id
        + enc_string(v.name));
}

/// The payload of a pairing message is its phase byte, then the nonce, the proof and
/// the secret, each a 32-bit little-endian length followed by its bytes, in that order.
pub proof fn lemma_pairing_layout(v: PairingView)
    ensures
        <Pairing as Wire>::encoding(v) == seq![v.phase] + enc_u32(v.nonce.len() as u32) + v.nonce
            + enc_u32(v.proof.len() as u32) + v.proof + enc_u32(v.secret.len() as u32) + v.secret,
{
    assert(<Pairing as Wire>::encoding(v) =~= seq![v.phase] + enc_u32(v.nonce.len() as u32)
        + v.nonce + enc_u32(v.proof.len() as u32) + v.proof + enc_u32(v.secret.len() as u32)
        + v.secret);
}

} // verus!
