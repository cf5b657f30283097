//! Length-delimited, little-endian binary protocol. Limits apply before allocation.
mod wire;

pub use wire::{
    enc_bytes, enc_i32, enc_string, enc_u16, enc_u32, enc_u64, enc_u8, is_finite_bits,
    lemma_parse_bytes, lemma_parse_f32, lemma_parse_i32, lemma_parse_string, lemma_parse_u16,
    lemma_parse_u32, lemma_parse_u64, lemma_parse_u8, parse_bytes, parse_f32, parse_i32,
    parse_string, parse_u16, parse_u32, parse_u64, parse_u8, ProtocolError, Reader, Writer,
    HEADER, MAJOR, MAX_CONTROL, MAX_DATAGRAM, MAX_FRAME, MAX_STRING, MINOR,
};
mod packet;
pub use packet::{
    decode_spec, lemma_decode_encode, lemma_message_roundtrip, lemma_packet_len, lemma_replay_last_is_max, lemma_replay_rejected,
    lemma_truncated_packet_rejected, magic, replay_accepted, replay_last, message_spec, negotiate, negotiate_spec, packet_bytes,
    Packet, PacketView, ReplayGuard, Wire,
};
mod messages;
pub use messages::{
    DisplayCapabilities, DisplayMode, DisplayModeChange, EncoderCapabilities, Handshake,
    HandshakeView, HostInfo, HostInfoView, InputEvent, KeyframeRequest, Pairing, PairingView, Ping,
    Pong, ProtocolVersion, SessionStart, SessionStop, Statistics, VideoConfig, VideoConfigView,
    VideoFragment, VideoFragmentView, VideoFrame, lemma_display_capabilities_layout,
    lemma_display_mode_change_layout, lemma_encoder_capabilities_layout, lemma_handshake_layout,
    lemma_host_info_layout, lemma_input_event_layout, lemma_pairing_layout, lemma_pong_layout,
    lemma_protocol_version_layout, lemma_session_start_layout, lemma_statistics_layout,
    lemma_video_config_layout, lemma_video_fragment_layout,
};
