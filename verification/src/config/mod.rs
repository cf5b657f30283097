//! Host configuration and its limits.
use vstd::prelude::*;

verus! {

/// Where the virtual display sits relative to the main display.
#[derive(Debug, Clone, Copy, PartialEq, Eq, Structural)]
pub enum Position {
    Left,
    Right,
    Above,
    Below,
}

impl Default for Position {
    fn default() -> (p: Self)
        ensures
            p == Position::Right,
    {
        Position::Right
    }
}

/// Placement of the virtual display.
#[derive(Debug, Clone, Copy, PartialEq, Eq)]
pub struct Display {
    pub position: Position,
    pub primary: bool,
    pub reconnect_grace_ms: u64,
}

impl Default for Display {
    fn default() -> (d: Self)
        ensures
            d.position == Position::Right,
            !d.primary,
            d.reconnect_grace_ms == 4000,
    {
        Display { position: Position::Right, primary: false, reconnect_grace_ms: 4000 }
    }
}

/// Video stream settings; bitrates in bits per second.
#[derive(Debug, Clone, Copy, PartialEq, Eq)]
pub struct Video {
    pub fps: u32,
    pub bitrate: u32,
    pub min_bitrate: u32,
    pub max_bitrate: u32,
    pub adaptive: bool,
}

impl Default for Video {
    fn default() -> (v: Self)
        ensures
            v.fps == 60,
            v.bitrate == 12_000_000,
            v.min_bitrate == 2_000_000,
            v.max_bitrate == 30_000_000,
            v.adaptive,
    {
        Video {
            fps: 60,
            bitrate: 12_000_000,
            min_bitrate: 2_000_000,
            max_bitrate: 30_000_000,
            adaptive: true,
        }
    }
}

/// The whole host configuration.
#[derive(Debug, Clone, Copy, PartialEq, Eq)]
pub struct Config {
    pub display: Display,
    pub video: Video,
    pub port: u16,
}

impl Default for Config {
    fn default() -> (c: Self)
        ensures
            c.display == (Display { position: Position::Right, primary: false, reconnect_grace_ms: 4000 }),
            c.video == (Video {
                fps: 60,
                bitrate: 12_000_000,
                min_bitrate: 2_000_000,
                max_bitrate: 30_000_000,
                adaptive: true,
            }),
            c.port == 47736,
    {
        Config { display: Display::default(), video: Video::default(), port: 47736 }
    }
}

/// Why a configuration was rejected.
#[derive(Debug, Clone, Copy, PartialEq, Eq, Structural)]
pub enum ConfigError {
    /// The frame rate is outside 30..=60.
    Fps,
    /// The port is 1024 or below.
    Port,
    /// The reconnect grace is outside 1..=10 seconds.
    Grace,
    /// The bitrates are not ordered within 500 kbit/s..=100 Mbit/s.
    Bitrate,
}

impl ConfigError {
    /// The text `describe` gives for each reason.
    pub open spec fn reason_text(&self) -> Seq<char> {
        match *self {
            ConfigError::Fps => "MVP fps must be 30..60"@,
            ConfigError::Port => "port must be above 1024"@,
            ConfigError::Grace => "grace period must be 1..10 seconds"@,
            ConfigError::Bitrate => "invalid bitrate bounds"@,
        }
    }

    /// Human-readable reason.
    pub fn describe(&self) -> (r: &'static str)
        ensures
            r@ == self.reason_text(),
    {
        match self {
            ConfigError::Fps => "MVP fps must be 30..60",
            ConfigError::Port => "port must be above 1024",
            ConfigError::Grace => "grace period must be 1..10 seconds",
            ConfigError::Bitrate => "invalid bitrate bounds",
        }
    }
}

/// The bitrates are ordered and within the supported range.
pub open spec fn bitrates_valid(v: Video) -> bool {
    v.min_bitrate >= 500_000 && v.min_bitrate <= v.bitrate && v.bitrate <= v.max_bitrate
        && v.max_bitrate <= 100_000_000
}

/// The first limit a configuration breaks, checked in order.
pub open spec fn validate_spec(c: Config) -> Result<(), ConfigError> {
    if !(30 <= c.video.fps <= 60) {
        Err(ConfigError::Fps)
    } else if !(c.port > 1024) {
        Err(ConfigError::Port)
    } else if !(1000 <= c.display.reconnect_grace_ms <= 10000) {
        Err(ConfigError::Grace)
    } else if !bitrates_valid(c.video) {
        Err(ConfigError::Bitrate)
    } else {
        Ok(())
    }
}

impl Config {
    /// Checks the frame rate, port, reconnect grace and bitrate limits.
    pub fn validate(&self) -> (r: Result<(), ConfigError>)
        ensures
            r == validate_spec(*self),
    {
        if !(30 <= self.video.fps && self.video.fps <= 60) {
            return Err(ConfigError::Fps);
        }
        if !(self.port > 1024) {
            return Err(ConfigError::Port);
        }
        if !(1000 <= self.display.reconnect_grace_ms && self.display.reconnect_grace_ms <= 10000) {
            return Err(ConfigError::Grace);
        }
        if !(self.video.min_bitrate >= 500_000 && self.video.min_bitrate <= self.video.bitrate
            && self.video.bitrate <= self.video.max_bitrate && self.video.max_bitrate
            <= 100_000_000) {
            return Err(ConfigError::Bitrate);
        }
        Ok(())
    }
}

/// The default configuration is valid.
pub proof fn lemma_default_valid()
    ensures
        validate_spec(
            Config {
                display: Display { position: Position::Right, primary: false, reconnect_grace_ms: 4000 },
                video: Video {
                    fps: 60,
                    bitrate: 12_000_000,
                    min_bitrate: 2_000_000,
                    max_bitrate: 30_000_000,
                    adaptive: true,
                },
                port: 47736,
            },
        ) == Ok::<(), ConfigError>(()),
{
}

} // verus!
