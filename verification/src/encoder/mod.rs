//! Video encoding: settings and H.264 access-unit handling.
pub mod h264;

use vstd::prelude::*;

verus! {

/// What an encoder is configured to produce.
#[derive(Debug, Clone, Copy, PartialEq, Eq)]
pub struct EncoderSettings {
    pub width: u32,
    pub height: u32,
    pub fps: u32,
    pub bitrate: u32,
}

} // verus!
