//! The capture worker's decisions: which monitor to show, when the encoder is opened
//! again, when the bitrate is retuned, how frames are numbered and when startup has
//! failed. The worker performs the device, encoder and network work each step asks for.
use super::control::mode_request_valid;
use super::{accepts_spec, disconnect_spec, expired_spec, SessionState};
use crate::protocol::{DisplayMode, DisplayModeChange};
use vstd::prelude::*;

verus! {

/// How long a new session may wait for the virtual display to show up, in microseconds.
pub const STARTUP_US: u64 = 8_000_000;

/// Why the worker stops the current session.
#[derive(Debug, Clone, Copy, PartialEq, Eq, Structural)]
pub enum WorkerError {
    /// The display is reserved for another device.
    Reserved,
    /// The connection offers no display mode.
    NoModes,
    /// The requested mode is outside the host's limits.
    InvalidMode,
    /// The reservation deadline does not fit the clock.
    GraceOverflow,
    /// The virtual display did not become active in time.
    StartupTimeout,
}

impl WorkerError {
    /// The text `describe` gives for each reason.
    pub open spec fn reason_text(&self) -> Seq<char> {
        match *self {
            WorkerError::Reserved => "display reserved for another device"@,
            WorkerError::NoModes => "no display modes"@,
            WorkerError::InvalidMode => "invalid mode request"@,
            WorkerError::GraceOverflow => "grace deadline overflow"@,
            WorkerError::StartupTimeout => "virtual display did not become active"@,
        }
    }

    /// Human-readable reason.
    pub fn describe(&self) -> (r: &'static str)
        ensures
            r@ == self.reason_text(),
    {
        match self {
            WorkerError::Reserved => "display reserved for another device",
            WorkerError::NoModes => "no display modes",
            WorkerError::InvalidMode => "invalid mode request",
            WorkerError::GraceOverflow => "grace deadline overflow",
            WorkerError::StartupTimeout => "virtual display did not become active",
        }
    }
}

/// What happened, as the worker reports it.
pub enum WorkerEvent {
    /// An authenticated device connects with the modes it supports, preferred first.
    Connect { device: [u8; 16], modes: Vec<DisplayMode>, now: u64 },
    /// The client went away; `immediate` ends the session, otherwise the display is
    /// reserved for `grace` microseconds.
    Disconnect { immediate: bool, now: u64, grace: u64 },
    /// The client asks for another mode.
    Mode { change: DisplayModeChange },
    /// A new round starts at `now`.
    Round { now: u64 },
    /// The placement of the display was applied, with any requested mode.
    Placed,
    /// The driver's status: the swapchain generation and the source mode (width 0
    /// while inactive), whether input can be injected, and the target bitrate.
    Status { now: u64, generation: u32, width: u32, height: u32, fps: u32, ready: bool, bitrate: u32 },
    /// GPU slot `slot` with frame `frame` was handed to the encoder.
    Encoded { slot: usize, frame: u64 },
    /// The encoder produced an access unit.
    Output,
    /// Device or encoder work failed.
    Failed,
}

/// What the worker is to do.
#[derive(Debug, Clone, Copy, PartialEq, Eq, Structural)]
pub enum WorkerAction {
    /// Stop the session with this error.
    Error(WorkerError),
    /// Make sure the driver is open, show the offered modes as a new monitor when
    /// `replace`, and start afresh: no encoder, no injector, no frame.
    Start { replace: bool },
    /// The connection offers no mode: make sure the driver is open, show the empty mode
    /// list as a new monitor when `replace` (which the driver refuses), and fail with
    /// `NoModes`; nothing else changes.
    Offer { replace: bool },
    /// Drop the encoder, the injector and the frame; when `depart`, remove the monitor.
    Stop { depart: bool },
    /// A mode was requested: reconcile the topology again and request an IDR.
    Reconcile,
    /// The reservation ran out: remove the monitor.
    Depart,
    /// Nothing streams: wait for the next command.
    Idle,
    /// Streaming: go on with topology and status.
    Continue,
    /// The display is not ready yet: wait.
    Wait,
    /// Open the encoder for this generation and mode, register its surfaces, send the
    /// video configuration and request an IDR; then encode.
    Open { generation: u32, width: u32, height: u32, fps: u32, bitrate: u32 },
    /// Change the running encoder's bitrate; then encode.
    Retune { width: u32, height: u32, fps: u32, bitrate: u32 },
    /// Encode.
    Run,
    /// Publish the access unit under this frame id.
    Publish { frame_id: u64 },
    /// Nothing more to do.
    Done,
}

/// The worker's state as its decisions see it.
pub struct WorkerView {
    pub session: SessionState,
    pub modes: Seq<DisplayMode>,
    pub mode_request: Option<(u32, u32, u32)>,
    pub startup: Option<u64>,
    pub encoder: Option<u32>,
    pub seen: Seq<u64>,
    pub serial: u64,
    pub rate: u32,
}

/// The state the capture worker keeps between its steps.
pub struct WorkerState {
    session: SessionState,
    modes: Vec<DisplayMode>,
    mode_request: Option<(u32, u32, u32)>,
    startup: Option<u64>,
    encoder: Option<u32>,
    seen: [u64; 3],
    serial: u64,
    rate: u32,
}

impl View for WorkerState {
    type V = WorkerView;

    closed spec fn view(&self) -> WorkerView {
        WorkerView {
            session: self.session,
            modes: self.modes@,
            mode_request: self.mode_request,
            startup: self.startup,
            encoder: self.encoder,
            seen: self.seen@,
            serial: self.serial,
            rate: self.rate,
        }
    }
}

/// The encoder frame rate for a display rate: clamped to 30..=60.
pub open spec fn encoder_fps_spec(fps: u32) -> u32 {
    if fps < 30 {
        30
    } else if fps > 60 {
        60
    } else {
        fps
    }
}

/// The worker's next state and action for an event. The event's modes become the
/// monitor's modes on a connection.
pub open spec fn worker_spec(s: WorkerView, e: WorkerEvent) -> (WorkerView, WorkerAction) {
    match e {
        WorkerEvent::Connect { device, modes, now } => if !accepts_spec(s.session, device@) {
            (s, WorkerAction::Error(WorkerError::Reserved))
        } else if modes@.len() == 0 {
            (s, WorkerAction::Offer { replace: s.session is Idle || modes@ != s.modes })
        } else {
            let replace = s.session is Idle || modes@ != s.modes;
            let first = modes@[0];
            (
                WorkerView {
                    session: SessionState::Streaming { device },
                    modes: modes@,
                    mode_request: if replace {
                        Some((first.width, first.height, first.fps))
                    } else {
                        None
                    },
                    startup: Some(now),
                    encoder: None,
                    seen: seq![0u64, 0u64, 0u64],
                    ..s
                },
                WorkerAction::Start { replace },
            )
        },
        WorkerEvent::Disconnect { immediate, now, grace } => if immediate {
            (
                WorkerView { session: SessionState::Idle, encoder: None, ..s },
                WorkerAction::Stop { depart: true },
            )
        } else if now + grace > u64::MAX {
            (WorkerView { encoder: None, ..s }, WorkerAction::Error(WorkerError::GraceOverflow))
        } else {
            (
                WorkerView {
                    session: disconnect_spec(s.session, now, grace),
                    encoder: None,
                    ..s
                },
                WorkerAction::Stop { depart: false },
            )
        },
        WorkerEvent::Mode { change } => if !(320 <= change.width <= 4094 && 320 <= change.height
            <= 4094 && change.width % 2 == 0 && change.height % 2 == 0 && 30 <= change.fps
            <= 60) {
            (s, WorkerAction::Error(WorkerError::InvalidMode))
        } else {
            (
                WorkerView { mode_request: Some((change.width, change.height, change.fps)), ..s },
                WorkerAction::Reconcile,
            )
        },
        WorkerEvent::Round { now } => if expired_spec(s.session, now) {
            (WorkerView { session: SessionState::Idle, ..s }, WorkerAction::Depart)
        } else if s.session is Streaming {
            (s, WorkerAction::Continue)
        } else {
            (s, WorkerAction::Idle)
        },
        WorkerEvent::Placed => (WorkerView { mode_request: None, ..s }, WorkerAction::Done),
        WorkerEvent::Status { now, generation, width, height, fps, ready, bitrate } => if width
            == 0 || !ready {
            if s.startup matches Some(t) && now > t && now - t > STARTUP_US {
                (s, WorkerAction::Error(WorkerError::StartupTimeout))
            } else {
                (s, WorkerAction::Wait)
            }
        } else if s.encoder != Some(generation) {
            (
                WorkerView {
                    encoder: Some(generation),
                    seen: seq![0u64, 0u64, 0u64],
                    startup: None,
                    rate: bitrate,
                    ..s
                },
                WorkerAction::Open { generation, width, height, fps: encoder_fps_spec(fps), bitrate },
            )
        } else if bitrate != s.rate {
            (
                WorkerView { rate: bitrate, ..s },
                WorkerAction::Retune { width, height, fps: encoder_fps_spec(fps), bitrate },
            )
        } else {
            (s, WorkerAction::Run)
        },
        WorkerEvent::Encoded { slot, frame } => (
            WorkerView { seen: s.seen.update(slot as int, frame), ..s },
            WorkerAction::Done,
        ),
        WorkerEvent::Output => (
            WorkerView { serial: (s.serial + 1) as u64, ..s },
            WorkerAction::Publish { frame_id: (s.serial + 1) as u64 },
        ),
        WorkerEvent::Failed => (
            WorkerView { session: SessionState::Idle, encoder: None, ..s },
            WorkerAction::Stop { depart: true },
        ),
    }
}

/// Whether a step may be taken: a handed-over slot is one of the three, and the
/// frame counter has room for another access unit.
pub open spec fn step_allowed(s: WorkerView, e: WorkerEvent) -> bool {
    match e {
        WorkerEvent::Encoded { slot, .. } => slot < 3,
        WorkerEvent::Output => s.serial < u64::MAX,
        _ => true,
    }
}

fn same_modes(a: &Vec<DisplayMode>, b: &Vec<DisplayMode>) -> (r: bool)
    ensures
        r == (a@ == b@),
{
    if a.len() != b.len() {
        return false;
    }
    let mut i: usize = 0;
    while i < a.len()
        invariant
            i <= a@.len(),
            a@.len() == b@.len(),
            forall|j: int| 0 <= j < i ==> a@[j] == b@[j],
        decreases a.len() - i,
    {
        if a[i] != b[i] {
            return false;
        }
        i = i + 1;
    }
    assert(a@ =~= b@);
    true
}

impl WorkerState {
    /// A worker with nothing to show.
    pub fn new(bitrate: u32) -> (w: Self)
        ensures
            w@.session == SessionState::Idle,
            w@.modes == Seq::<DisplayMode>::empty(),
            w@.mode_request is None,
            w@.startup is None,
            w@.encoder is None,
            w@.seen == seq![0u64, 0u64, 0u64],
            w@.serial == 0,
            w@.rate == bitrate,
    {
        let w = WorkerState {
            session: SessionState::Idle,
            modes: Vec::new(),
            mode_request: None,
            startup: None,
            encoder: None,
            seen: [0; 3],
            serial: 0,
            rate: bitrate,
        };
        assert(w@.seen =~= seq![0u64, 0u64, 0u64]);
        w
    }

    /// The session state.
    pub fn session(&self) -> (s: SessionState)
        ensures
            s == self@.session,
    {
        self.session
    }

    /// The mode to apply at the next placement.
    pub fn mode_request(&self) -> (m: Option<(u32, u32, u32)>)
        ensures
            m == self@.mode_request,
    {
        self.mode_request
    }

    /// The id of the last access unit published.
    pub fn serial(&self) -> (n: u64)
        ensures
            n == self@.serial,
    {
        self.serial
    }

    /// The frame last handed to the encoder from each GPU slot.
    pub fn seen(&self) -> (s: [u64; 3])
        ensures
            s@ == self@.seen,
    {
        self.seen
    }

    /// Takes one step.
    pub fn step(&mut self, e: WorkerEvent) -> (a: WorkerAction)
        requires
            step_allowed(old(self)@, e),
        ensures
            (final(self)@, a) == worker_spec(old(self)@, e),
    {
        let ghost s = self@;
        match e {
            WorkerEvent::Connect { device, modes, now } => {
                if !self.session.accepts(device) {
                    return WorkerAction::Error(WorkerError::Reserved);
                }
                let idle = match self.session {
                    SessionState::Idle => true,
                    _ => false,
                };
                let replace = idle || !same_modes(&modes, &self.modes);
                if modes.len() == 0 {
                    return WorkerAction::Offer { replace };
                }
                let first = modes[0];
                self.mode_request = if replace {
                    Some((first.width, first.height, first.fps))
                } else {
                    None
                };
                self.modes = modes;
                self.session = SessionState::Streaming { device };
                self.startup = Some(now);
                self.encoder = None;
                self.seen = [0; 3];
                assert(self@.seen =~= seq![0u64, 0u64, 0u64]);
                WorkerAction::Start { replace }
            },
            WorkerEvent::Disconnect { immediate, now, grace } => {
                self.encoder = None;
                if immediate {
                    self.session = SessionState::Idle;
                    return WorkerAction::Stop { depart: true };
                }
                if now > u64::MAX - grace {
                    return WorkerAction::Error(WorkerError::GraceOverflow);
                }
                self.session.disconnect(now, grace);
                WorkerAction::Stop { depart: false }
            },
            WorkerEvent::Mode { change } => {
                if !mode_request_valid(&change) {
                    return WorkerAction::Error(WorkerError::InvalidMode);
                }
                self.mode_request = Some((change.width, change.height, change.fps));
                WorkerAction::Reconcile
            },
            WorkerEvent::Round { now } => {
                if self.session.expired(now) {
                    self.session = SessionState::Idle;
                    return WorkerAction::Depart;
                }
                match self.session {
                    SessionState::Streaming { .. } => WorkerAction::Continue,
                    _ => WorkerAction::Idle,
                }
            },
            WorkerEvent::Placed => {
                self.mode_request = None;
                WorkerAction::Done
            },
            WorkerEvent::Status { now, generation, width, height, fps, ready, bitrate } => {
                if width == 0 || !ready {
                    if let Some(t) = self.startup {
                        if now > t && now - t > STARTUP_US {
                            return WorkerAction::Error(WorkerError::StartupTimeout);
                        }
                    }
                    return WorkerAction::Wait;
                }
                let fresh = match self.encoder {
                    Some(g) => g != generation,
                    None => true,
                };
                let f = if fps < 30 {
                    30
                } else if fps > 60 {
                    60
                } else {
                    fps
                };
                if fresh {
                    self.encoder = Some(generation);
                    self.seen = [0; 3];
                    self.startup = None;
                    self.rate = bitrate;
                    assert(self@.seen =~= seq![0u64, 0u64, 0u64]);
                    return WorkerAction::Open { generation, width, height, fps: f, bitrate };
                }
                if bitrate != self.rate {
                    self.rate = bitrate;
                    return WorkerAction::Retune { width, height, fps: f, bitrate };
                }
                WorkerAction::Run
            },
            WorkerEvent::Encoded { slot, frame } => {
                self.seen[slot] = frame;
                assert(self@.seen =~= s.seen.update(slot as int, frame));
                WorkerAction::Done
            },
            WorkerEvent::Output => {
                self.serial = self.serial + 1;
                WorkerAction::Publish { frame_id: self.serial }
            },
            WorkerEvent::Failed => {
                self.session = SessionState::Idle;
                self.encoder = None;
                WorkerAction::Stop { depart: true }
            },
        }
    }
}

} // verus!
