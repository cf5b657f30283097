//! Which device the virtual display belongs to.
use vstd::prelude::*;

mod actions;
mod auth;
mod control;
mod stream;
mod worker;

pub use stream::{
    control_run, control_spec, keyframe_set_at, lemma_session_keyframes_spaced, ControlAction,
    ControlError, ControlView, SessionControl,
};
pub use worker::{
    encoder_fps_spec, step_allowed, worker_spec, WorkerAction, WorkerError, WorkerEvent,
    WorkerState, WorkerView, STARTUP_US,
};

pub use actions::{
    action_effect, action_effect_spec, menu_action, menu_action_spec, ActionEffect, TrayAction,
};
pub use auth::{
    accept_hello, answer_valid, complete_pairing, hello_valid, open_pairing, AuthFailure,
    AuthenticatedLink,
    PendingPairing,
};

pub use control::{
    challenge, confirmation, encode_plan, encode_plan_spec, encoder_fps, frame_gap,
    input_packet, keyframe_due, keyframe_honoured, keyframe_last, lemma_keyframes_spaced,
    mode_request_valid, mode_request_valid_spec, newest_fresh, order_modes, order_modes_spec,
    quality, reconnect_requested, reservation, reservation_spec, reserved_for_other, reserved_spec,
    lemma_order_modes_regroups, split_by_size,
    lemma_reservation_holds_for_grace, session_event, session_event_spec,
    session_packet, statistics_valid, statistics_valid_spec, validate_answer, validate_hello,
    AuthError, KeyframeLimiter, SessionEvent, FPS_240_BITS, KEYFRAME_INTERVAL_US, MAX_NAME,
    NEGATIVE_ZERO_BITS,
};

verus! {

/// The display is free, streaming to a device, or reserved for it after a disconnect
/// until `deadline` (monotonic microseconds).
#[derive(Debug, Clone, Copy, PartialEq, Eq)]
pub enum SessionState {
    Idle,
    Streaming { device: [u8; 16] },
    Grace { device: [u8; 16], deadline: u64 },
}

/// Whether a session in state `s` lets `device` take the display.
pub open spec fn accepts_spec(s: SessionState, device: Seq<u8>) -> bool {
    match s {
        SessionState::Idle => true,
        SessionState::Streaming { .. } => false,
        SessionState::Grace { device: d, .. } => d@ == device,
    }
}

/// The state after the client of `s` is lost at `now` with a reconnect grace of `grace`.
pub open spec fn disconnect_spec(s: SessionState, now: u64, grace: u64) -> SessionState {
    match s {
        SessionState::Streaming { device } => SessionState::Grace {
            device,
            deadline: (now + grace) as u64,
        },
        other => other,
    }
}

/// Whether the reservation of `s` has run out at `now`.
pub open spec fn expired_spec(s: SessionState, now: u64) -> bool {
    s matches SessionState::Grace { deadline, .. } && now >= deadline
}

impl SessionState {
    /// Whether a connection from `device` may take the display.
    pub fn accepts(&self, device: [u8; 16]) -> (r: bool)
        ensures
            r == accepts_spec(*self, device@),
    {
        match self {
            SessionState::Idle => true,
            SessionState::Streaming { .. } => false,
            SessionState::Grace { device: d, .. } => {
                let mut i: usize = 0;
                while i < 16
                    invariant
                        0 <= i <= 16,
                        d@.len() == 16,
                        device@.len() == 16,
                        *self matches SessionState::Grace { device: dd, .. } && dd == *d,
                        forall|j: int| 0 <= j < i ==> d@[j] == device@[j],
                    decreases 16 - i,
                {
                    if d[i] != device[i] {
                        assert(d@[i as int] != device@[i as int]);
                        return false;
                    }
                    i = i + 1;
                }
                assert(d@ =~= device@);
                true
            },
        }
    }

    /// A streaming session lost its client at `now`: reserve the display for `grace`.
    pub fn disconnect(&mut self, now: u64, grace: u64)
        requires
            now + grace <= u64::MAX,
        ensures
            *final(self) == disconnect_spec(*old(self), now, grace),
    {
        if let SessionState::Streaming { device } = *self {
            *self = SessionState::Grace { device, deadline: now + grace };
        }
    }

    /// Whether a reservation has run out at `now`.
    pub fn expired(&self, now: u64) -> (r: bool)
        ensures
            r == expired_spec(*self, now),
    {
        match self {
            SessionState::Grace { deadline, .. } => now >= *deadline,
            _ => false,
        }
    }
}

/// After a streaming device disconnects, the display is reserved for that device alone
/// and the reservation runs out exactly when the grace period has passed.
pub proof fn lemma_grace_reserves_identity(
    device: [u8; 16],
    other: [u8; 16],
    now: u64,
    grace: u64,
    later: u64,
)
    requires
        now + grace <= u64::MAX,
        other@ != device@,
    ensures
        ({
            let s = disconnect_spec(SessionState::Streaming { device }, now, grace);
            &&& accepts_spec(s, device@)
            &&& !accepts_spec(s, other@)
            &&& expired_spec(s, later) <==> later >= now + grace
        }),
{
}

} // verus!
