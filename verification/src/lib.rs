//! Verified core of the SidecarDOS Windows host: the binary wire protocol,
//! pairing proofs, display-mode negotiation, H.264 access-unit handling,
//! keyboard mapping, bitrate adaptation and the session / topology state
//! machines.
pub mod protocol;
pub mod encoder;
pub mod display;
pub mod input;
pub mod config;
pub mod session;
pub mod telemetry;
pub mod topology;
pub mod pairing;
pub mod network;
