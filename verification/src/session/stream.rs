//! The running session's control stream: what each control packet asks of the host.
use super::control::{
    session_event_spec, session_packet, statistics_valid, statistics_valid_spec,
    KeyframeLimiter, SessionEvent, KEYFRAME_INTERVAL_US,
};
use super::auth::AuthenticatedLink;
use crate::protocol::{DisplayModeChange, Packet, PacketView, ProtocolError, ReplayGuard, Statistics};
use vstd::prelude::*;

verus! {

/// Why a control packet ends the session.
#[derive(Debug, Clone, Copy, PartialEq, Eq, Structural)]
pub enum ControlError {
    /// The packet is foreign, replayed, malformed or of a kind the session refuses.
    Protocol(ProtocolError),
    /// The statistics are implausible.
    InvalidStatistics,
}

impl ControlError {
    /// The text `describe` gives for each reason.
    pub open spec fn reason_text(&self) -> Seq<char> {
        match *self {
            ControlError::Protocol(e) => e.reason_text(),
            ControlError::InvalidStatistics => "invalid statistics"@,
        }
    }

    /// Human-readable reason.
    pub fn describe(&self) -> (r: &'static str)
        ensures
            r@ == self.reason_text(),
    {
        match self {
            ControlError::Protocol(e) => e.describe(),
            ControlError::InvalidStatistics => "invalid statistics",
        }
    }
}

/// What the host does for an accepted control packet.
#[derive(Debug, Clone, Copy, PartialEq, Eq, Structural)]
pub enum ControlAction {
    /// End the session; `explicit` for reason 0 (no reconnect grace).
    Stop { explicit: bool },
    /// A keyframe request; `set` when an IDR is to be requested now.
    Keyframe { set: bool },
    /// Apply another mode.
    Mode(DisplayModeChange),
    /// Plausible statistics, for bitrate adaptation.
    Stats(Statistics),
    /// Answer a clock probe.
    Pong { client_timestamp: u64 },
}

/// The control stream's state: the last sequence number accepted, when an IDR was last
/// requested, the session token and the authenticated device it streams to.
pub struct ControlView {
    pub last_sequence: u64,
    pub last_keyframe: u64,
    pub token: Seq<u8>,
    pub device: Seq<u8>,
}

/// The next state and the answer for a control packet `p` received at `now`.
pub open spec fn control_spec(s: ControlView, p: PacketView, now: u64) -> (
    ControlView,
    Result<ControlAction, ControlError>,
) {
    if p.session != s.token {
        (s, Err(ControlError::Protocol(ProtocolError::SessionMismatch)))
    } else if p.sequence <= s.last_sequence {
        (s, Err(ControlError::Protocol(ProtocolError::Replayed)))
    } else {
        let s1 = ControlView { last_sequence: p.sequence, ..s };
        match session_event_spec(p) {
            Err(e) => (s1, Err(ControlError::Protocol(e))),
            Ok(SessionEvent::Stop { explicit }) => (s1, Ok(ControlAction::Stop { explicit })),
            Ok(SessionEvent::Keyframe) => {
                let set = now > s.last_keyframe && now - s.last_keyframe > KEYFRAME_INTERVAL_US;
                (
                    ControlView {
                        last_keyframe: if set {
                            now
                        } else {
                            s.last_keyframe
                        },
                        ..s1
                    },
                    Ok(ControlAction::Keyframe { set }),
                )
            },
            Ok(SessionEvent::ModeChange(m)) => (s1, Ok(ControlAction::Mode(m))),
            Ok(SessionEvent::Stats(st)) => if statistics_valid_spec(st) {
                (s1, Ok(ControlAction::Stats(st)))
            } else {
                (s1, Err(ControlError::InvalidStatistics))
            },
            Ok(SessionEvent::Ping(ping)) => (
                s1,
                Ok(ControlAction::Pong { client_timestamp: ping.client_timestamp }),
            ),
        }
    }
}

/// The control stream of a running session.
pub struct SessionControl {
    guard: ReplayGuard,
    token: [u8; 16],
    keyframes: KeyframeLimiter,
    device: [u8; 16],
}

impl View for SessionControl {
    type V = ControlView;

    closed spec fn view(&self) -> ControlView {
        ControlView {
            last_sequence: self.guard.last(),
            last_keyframe: self.keyframes.last(),
            token: self.token@,
            device: self.device@,
        }
    }
}

impl SessionControl {
    /// A session under `token` starting at `now` on an authenticated link: no packet
    /// accepted yet, and the first keyframe request is honoured.
    pub fn new(link: &AuthenticatedLink, token: [u8; 16], now: u64) -> (c: Self)
        ensures
            c@.device == link.device(),
            c@.last_sequence == 0,
            c@.last_keyframe == if now >= 1_000_000 {
                (now - 1_000_000) as u64
            } else {
                0
            },
            c@.token == token@,
    {
        SessionControl {
            guard: ReplayGuard::default(),
            token,
            keyframes: KeyframeLimiter::new(now),
            device: link.device_id(),
        }
    }

    /// The session token.
    pub fn token(&self) -> (t: [u8; 16])
        ensures
            t@ == self@.token,
    {
        self.token
    }

    /// Handles a control packet received at `now`.
    pub fn control(&mut self, p: &Packet, now: u64) -> (r: Result<ControlAction, ControlError>)
        ensures
            (final(self)@, r) == control_spec(old(self)@, p@, now),
    {
        let event = match session_packet(&mut self.guard, &self.token, p) {
            Ok(e) => e,
            Err(e) => {
                return Err(ControlError::Protocol(e));
            },
        };
        match event {
            SessionEvent::Stop { explicit } => Ok(ControlAction::Stop { explicit }),
            SessionEvent::Keyframe => {
                let set = self.keyframes.request(now);
                Ok(ControlAction::Keyframe { set })
            },
            SessionEvent::ModeChange(m) => Ok(ControlAction::Mode(m)),
            SessionEvent::Stats(s) => {
                if statistics_valid(&s) {
                    Ok(ControlAction::Stats(s))
                } else {
                    Err(ControlError::InvalidStatistics)
                }
            },
            SessionEvent::Ping(ping) => Ok(
                ControlAction::Pong { client_timestamp: ping.client_timestamp },
            ),
        }
    }
}

/// The state after the control packets `calls` (each with its arrival time) in order.
pub open spec fn control_run(s: ControlView, calls: Seq<(PacketView, u64)>) -> ControlView
    decreases calls.len(),
{
    if calls.len() == 0 {
        s
    } else {
        let last = calls.last();
        control_spec(control_run(s, calls.drop_last()), last.0, last.1).0
    }
}

/// The `i`-th control packet asks for an IDR now.
pub open spec fn keyframe_set_at(s: ControlView, calls: Seq<(PacketView, u64)>, i: int) -> bool {
    control_spec(control_run(s, calls.take(i)), calls[i].0, calls[i].1).1 == Ok::<
        ControlAction,
        ControlError,
    >(ControlAction::Keyframe { set: true })
}

proof fn lemma_control_keyframe_grows(s: ControlView, calls: Seq<(PacketView, u64)>, i: int, j: int)
    requires
        0 <= i <= j <= calls.len(),
    ensures
        control_run(s, calls.take(i)).last_keyframe <= control_run(s, calls.take(j)).last_keyframe,
    decreases j - i, j,
{
    if j > 0 {
        assert(calls.take(j).drop_last() =~= calls.take(j - 1));
    }
    if i < j {
        lemma_control_keyframe_grows(s, calls, i, j - 1);
    }
}

/// Over any run of a session's control stream, two keyframe requests that both ask
/// for an IDR lie more than 200 ms apart, whatever came between them;
/// a request sooner after the last honoured one is accepted but asks for nothing.
pub proof fn lemma_session_keyframes_spaced(
    s: ControlView,
    calls: Seq<(PacketView, u64)>,
    i: int,
    j: int,
)
    requires
        0 <= i < j < calls.len(),
        keyframe_set_at(s, calls, i),
        keyframe_set_at(s, calls, j),
    ensures
        calls[j].1 > calls[i].1 + 200_000,
{
    assert(calls.take(i + 1).drop_last() =~= calls.take(i));
    assert(control_run(s, calls.take(i + 1)).last_keyframe == calls[i].1);
    lemma_control_keyframe_grows(s, calls, i + 1, j);
}

} // verus!
