//! Decisions of the authentication exchange and of a running session.
use crate::protocol::{
    message_spec, DisplayMode, DisplayModeChange, Handshake, InputEvent, KeyframeRequest, Packet,
    Pairing, Ping, ProtocolError, ReplayGuard, SessionStop, Statistics, Wire,
};
use vstd::prelude::*;
use vstd::utf8::encode_utf8;

verus! {

/// Why authentication was refused.
#[derive(Debug, Clone, Copy, PartialEq, Eq, Structural)]
pub enum AuthError {
    /// The client id is not 16 bytes or the name is longer than 128 bytes.
    InvalidClient,
    /// The trusted flag is neither 0 nor 1.
    InvalidPairingState,
    /// The client's pairing answer has the wrong phase, nonce or a secret.
    UnexpectedPairingResponse,
}

impl AuthError {
    /// The text `describe` gives for each reason.
    pub open spec fn reason_text(&self) -> Seq<char> {
        match *self {
            AuthError::InvalidClient => "invalid client identity"@,
            AuthError::InvalidPairingState => "invalid pairing state"@,
            AuthError::UnexpectedPairingResponse => "unexpected pairing response"@,
        }
    }

    /// Human-readable reason.
    pub fn describe(&self) -> (r: &'static str)
        ensures
            r@ == self.reason_text(),
    {
        match self {
            AuthError::InvalidClient => "invalid client identity",
            AuthError::InvalidPairingState => "invalid pairing state",
            AuthError::UnexpectedPairingResponse => "unexpected pairing response",
        }
    }
}

/// Longest client name, in UTF-8 bytes.
pub const MAX_NAME: usize = 128;

/// The client's 16-byte id, when the handshake identifies the client properly.
pub fn validate_hello(h: &Handshake) -> (r: Result<[u8; 16], AuthError>)
    ensures
        (h.client_id@.len() == 16 && encode_utf8(h.name@).len() <= MAX_NAME) ==> (r matches Ok(
            id,
        ) && id@ == h.client_id@),
        !(h.client_id@.len() == 16 && encode_utf8(h.name@).len() <= MAX_NAME) ==> r
            == Err::<[u8; 16], AuthError>(AuthError::InvalidClient),
{
    if !(h.client_id.len() == 16 && h.name.as_str().as_bytes().len() <= MAX_NAME) {
        return Err(AuthError::InvalidClient);
    }
    let mut id = [0u8; 16];
    let mut i: usize = 0;
    while i < 16
        invariant
            0 <= i <= 16,
            h.client_id@.len() == 16,
            encode_utf8(h.name@).len() <= MAX_NAME,
            id@.len() == 16,
            forall|j: int| 0 <= j < i ==> id@[j] == h.client_id@[j],
        decreases 16 - i,
    {
        id[i] = h.client_id[i];
        i = i + 1;
    }
    assert(id@ =~= h.client_id@);
    Ok(id)
}

/// Whether the client asks to reconnect with a saved key (1) or to pair anew (0).
pub fn reconnect_requested(trusted: u8) -> (r: Result<bool, AuthError>)
    ensures
        trusted <= 1 ==> r == Ok::<bool, AuthError>(trusted == 1),
        trusted > 1 ==> r == Err::<bool, AuthError>(AuthError::InvalidPairingState),
{
    if trusted > 1 {
        return Err(AuthError::InvalidPairingState);
    }
    Ok(trusted == 1)
}

/// The host's challenge: phase 0 for a new pairing code, 1 for a known device.
pub fn challenge(is_new: bool, nonce: &[u8; 32]) -> (p: Pairing)
    ensures
        p.phase == if is_new {
            0u8
        } else {
            1u8
        },
        p.nonce@ == nonce@,
        p.proof@.len() == 0,
        p.secret@.len() == 0,
{
    Pairing {
        phase: if is_new {
            0
        } else {
            1
        },
        nonce: vstd::slice::slice_to_vec(nonce.as_slice()),
        proof: Vec::new(),
        secret: Vec::new(),
    }
}

/// The client's answer must be phase 2, echo the nonce and carry no secret.
pub fn validate_answer(answer: &Pairing, nonce: &[u8; 32]) -> (r: Result<(), AuthError>)
    ensures
        (answer.phase == 2 && answer.nonce@ == nonce@ && answer.secret@.len() == 0) ==> r == Ok::<
            (),
            AuthError,
        >(()),
        !(answer.phase == 2 && answer.nonce@ == nonce@ && answer.secret@.len() == 0) ==> r
            == Err::<(), AuthError>(AuthError::UnexpectedPairingResponse),
{
    if answer.phase != 2 || answer.nonce.len() != 32 || answer.secret.len() != 0 {
        return Err(AuthError::UnexpectedPairingResponse);
    }
    let mut i: usize = 0;
    while i < 32
        invariant
            0 <= i <= 32,
            answer.nonce@.len() == 32,
            nonce@.len() == 32,
            forall|j: int| 0 <= j < i ==> answer.nonce@[j] == nonce@[j],
        decreases 32 - i,
    {
        if answer.nonce[i] != nonce[i] {
            assert(answer.nonce@[i as int] != nonce@[i as int]);
            return Err(AuthError::UnexpectedPairingResponse);
        }
        i = i + 1;
    }
    assert(answer.nonce@ =~= nonce@);
    Ok(())
}

/// The host's confirmation: phase 3 with its proof; a new pairing carries the fresh
/// device secret, a reconnect none.
pub fn confirmation(is_new: bool, nonce: &[u8; 32], proof: Vec<u8>, secret: Vec<u8>) -> (p: Pairing)
    ensures
        p.phase == 3,
        p.nonce@ == nonce@,
        p.proof@ == proof@,
        p.secret@ == if is_new {
            secret@
        } else {
            Seq::<u8>::empty()
        },
{
    Pairing {
        phase: 3,
        nonce: vstd::slice::slice_to_vec(nonce.as_slice()),
        proof,
        secret: if is_new {
            secret
        } else {
            Vec::new()
        },
    }
}

/// Bit pattern of the binary32 value 240.0.
pub const FPS_240_BITS: u32 = 0x4370_0000;

/// Bit pattern of the binary32 value -0.0.
pub const NEGATIVE_ZERO_BITS: u32 = 0x8000_0000;

/// Statistics are plausible: loss at most 100%, and a frame rate in 0.0..=240.0 (as
/// bits: every non-negative finite value up to 240.0, or -0.0, which compares equal to 0.0).
pub open spec fn statistics_valid_spec(s: Statistics) -> bool {
    s.loss_ppm <= 1_000_000 && (s.fps <= FPS_240_BITS || s.fps == NEGATIVE_ZERO_BITS)
}

pub fn statistics_valid(s: &Statistics) -> (r: bool)
    ensures
        r == statistics_valid_spec(*s),
{
    s.loss_ppm <= 1_000_000 && (s.fps <= FPS_240_BITS || s.fps == NEGATIVE_ZERO_BITS)
}

/// A mode request the host can honour: even edges in 320..=4094 and 30..=60 fps.
pub open spec fn mode_request_valid_spec(m: DisplayModeChange) -> bool {
    320 <= m.width <= 4094 && 320 <= m.height <= 4094 && m.width % 2 == 0 && m.height % 2 == 0
        && 30 <= m.fps <= 60
}

pub fn mode_request_valid(m: &DisplayModeChange) -> (r: bool)
    ensures
        r == mode_request_valid_spec(*m),
{
    320 <= m.width && m.width <= 4094 && 320 <= m.height && m.height <= 4094 && m.width % 2 == 0
        && m.height % 2 == 0 && 30 <= m.fps && m.fps <= 60
}

/// The tray's quality choice: whether bitrate adapts, and the bitrate.
pub fn quality(choice: u8) -> (r: (bool, u32))
    ensures
        r.0 == (choice == 0),
        r.1 == if choice == 1 {
            6_000_000u32
        } else if choice == 2 {
            20_000_000u32
        } else {
            12_000_000u32
        },
{
    let rate = if choice == 1 {
        6_000_000
    } else if choice == 2 {
        20_000_000
    } else {
        12_000_000
    };
    (choice == 0, rate)
}

/// Another device's connection is refused while the display is reserved for a device
/// that disconnected less than a grace period ago.
pub open spec fn reserved_spec(reserve: Option<([u8; 16], u64)>, id: [u8; 16], now: u64) -> bool {
    reserve matches Some((device, until)) && device@ != id@ && now < until
}

/// Whether the reservation `reserve` refuses device `id` at `now`.
pub fn reserved_for_other(reserve: Option<([u8; 16], u64)>, id: [u8; 16], now: u64) -> (r: bool)
    ensures
        r == reserved_spec(reserve, id, now),
{
    match reserve {
        Some((device, until)) => !crate::network::same_token(&device, &id) && now < until,
        None => false,
    }
}

/// What the display stays reserved for after a session of device `id` ends at `now`:
/// nothing after an explicit end, else that device until the grace period of
/// `grace_ms` milliseconds has passed.
pub open spec fn reservation_spec(id: [u8; 16], immediate: bool, now: u64, grace_ms: u64) -> Option<
    ([u8; 16], u64),
> {
    if immediate {
        None
    } else {
        Some((id, (now + grace_ms * 1000) as u64))
    }
}

/// The reservation left when a session of device `id` ends at `now`.
pub fn reservation(id: [u8; 16], immediate: bool, now: u64, grace_ms: u64) -> (r: Option<
    ([u8; 16], u64),
>)
    requires
        now + grace_ms * 1000 <= u64::MAX,
    ensures
        r == reservation_spec(id, immediate, now, grace_ms),
{
    if immediate {
        None
    } else {
        Some((id, now + grace_ms * 1000))
    }
}

/// After a session ends without an explicit stop, the display is held for the same
/// device during the grace period: any other device is refused before it ends, the
/// device itself never, and nobody once it has passed or after an explicit stop.
pub proof fn lemma_reservation_holds_for_grace(
    id: [u8; 16],
    now: u64,
    grace_ms: u64,
    other: [u8; 16],
    later: u64,
)
    requires
        now + grace_ms * 1000 <= u64::MAX,
    ensures
        other@ != id@ && later < now + grace_ms * 1000 ==> reserved_spec(
            reservation_spec(id, false, now, grace_ms),
            other,
            later,
        ),
        !reserved_spec(reservation_spec(id, false, now, grace_ms), id, later),
        later >= now + grace_ms * 1000 ==> !reserved_spec(
            reservation_spec(id, false, now, grace_ms),
            other,
            later,
        ),
        !reserved_spec(reservation_spec(id, true, now, grace_ms), other, later),
{
}

/// Keyframe requests are honoured at most once per 200 ms.
pub const KEYFRAME_INTERVAL_US: u64 = 200_000;

pub fn keyframe_due(now: u64, last: u64) -> (r: bool)
    ensures
        r == (now > last && now - last > 200_000),
{
    now > last && now - last > KEYFRAME_INTERVAL_US
}

/// Honours keyframe requests at most once per `KEYFRAME_INTERVAL_US`.
pub struct KeyframeLimiter {
    last: u64,
}

impl KeyframeLimiter {
    /// When the last request was honoured (monotonic microseconds).
    pub closed spec fn last(&self) -> u64 {
        self.last
    }

    /// A limiter whose last honoured request lies one second before `now` (or at 0).
    pub fn new(now: u64) -> (k: Self)
        ensures
            k.last() == if now >= 1_000_000 {
                (now - 1_000_000) as u64
            } else {
                0
            },
    {
        KeyframeLimiter { last: now.saturating_sub(1_000_000) }
    }

    /// Whether a keyframe request at `now` is honoured; an honoured one becomes the last.
    pub fn request(&mut self, now: u64) -> (r: bool)
        ensures
            r == (now > old(self).last() && now - old(self).last() > 200_000),
            final(self).last() == if r {
                now
            } else {
                old(self).last()
            },
            r == keyframe_honoured(old(self).last(), seq![now], 0),
            final(self).last() == keyframe_last(old(self).last(), seq![now]),
    {
        proof {
            assert(seq![now].drop_last() =~= Seq::<u64>::empty());
            assert(seq![now].take(0) =~= Seq::<u64>::empty());
            reveal_with_fuel(keyframe_last, 2);
        }
        if keyframe_due(now, self.last) {
            self.last = now;
            true
        } else {
            false
        }
    }
}

/// The last honoured time after a limiter that last honoured `start` is asked at the
/// times `ts` in order; each step is the effect of `KeyframeLimiter::request`.
pub open spec fn keyframe_last(start: u64, ts: Seq<u64>) -> u64
    decreases ts.len(),
{
    if ts.len() == 0 {
        start
    } else {
        let last = keyframe_last(start, ts.drop_last());
        if ts.last() > last && ts.last() - last > KEYFRAME_INTERVAL_US {
            ts.last()
        } else {
            last
        }
    }
}

/// Whether the `i`-th request is honoured.
pub open spec fn keyframe_honoured(start: u64, ts: Seq<u64>, i: int) -> bool {
    let last = keyframe_last(start, ts.take(i));
    ts[i] > last && ts[i] - last > KEYFRAME_INTERVAL_US
}

proof fn lemma_keyframe_last_grows(start: u64, ts: Seq<u64>, i: int, j: int)
    requires
        0 <= i <= j <= ts.len(),
    ensures
        keyframe_last(start, ts.take(i)) <= keyframe_last(start, ts.take(j)),
    decreases j - i, j,
{
    if j > 0 {
        assert(ts.take(j).drop_last() =~= ts.take(j - 1));
    }
    if i < j {
        lemma_keyframe_last_grows(start, ts, i, j - 1);
    }
}

/// Any two honoured keyframe requests lie more than 200 ms apart, in
/// the order they were made, whatever requests were refused between them.
pub proof fn lemma_keyframes_spaced(start: u64, ts: Seq<u64>, i: int, j: int)
    requires
        0 <= i < j < ts.len(),
        keyframe_honoured(start, ts, i),
        keyframe_honoured(start, ts, j),
    ensures
        ts[j] > ts[i] + 200_000,
{
    assert(ts.take(i + 1).drop_last() =~= ts.take(i));
    assert(keyframe_last(start, ts.take(i + 1)) == ts[i]);
    lemma_keyframe_last_grows(start, ts, i + 1, j);
}

/// A frame id that skips ahead shows that frames were lost.
pub fn frame_gap(last_id: u64, frame_id: u64) -> (r: bool)
    ensures
        r == (frame_id > last_id + 1),
{
    last_id < u64::MAX && frame_id > last_id + 1
}

/// The encoder frame rate for a display rate: clamped to 30..=60.
pub fn encoder_fps(fps: u32) -> (r: u32)
    ensures
        r == if fps < 30 {
            30
        } else if fps > 60 {
            60
        } else {
            fps
        },
{
    if fps < 30 {
        30
    } else if fps > 60 {
        60
    } else {
        fps
    }
}

/// Modes of the same size as `p`.
pub open spec fn same_size(p: DisplayMode) -> spec_fn(DisplayMode) -> bool {
    |m: DisplayMode| m.width == p.width && m.height == p.height
}

/// Modes of another size than `p`.
pub open spec fn other_size(p: DisplayMode) -> spec_fn(DisplayMode) -> bool {
    |m: DisplayMode| !(m.width == p.width && m.height == p.height)
}

/// The modes with those of the preferred size first, each group in the order given.
pub open spec fn order_modes_spec(ms: Seq<DisplayMode>, p: DisplayMode) -> Seq<DisplayMode> {
    ms.filter(same_size(p)) + ms.filter(other_size(p))
}

proof fn lemma_partition_len(ms: Seq<DisplayMode>, p: DisplayMode)
    ensures
        ms.filter(same_size(p)).len() + ms.filter(other_size(p)).len() == ms.len(),
    decreases ms.len(),
{
    reveal(Seq::filter);
    if ms.len() > 0 {
        lemma_partition_len(ms.drop_last(), p);
    }
}

/// The first `k` modes of `r` have the width and height of `p`, and the rest do not.
pub open spec fn split_by_size(r: Seq<DisplayMode>, p: DisplayMode, k: int) -> bool {
    &&& 0 <= k <= r.len()
    &&& forall|i: int| 0 <= i < k ==> (#[trigger] r[i]).width == p.width && r[i].height == p.height
    &&& forall|i: int| k <= i < r.len() ==> !((#[trigger] r[i]).width == p.width && r[i].height == p.height)
}

/// Ordering the modes keeps every mode offered, as many as before, and puts all
/// modes of the preferred mode's width and height before all the others.
pub proof fn lemma_order_modes_regroups(ms: Seq<DisplayMode>, p: DisplayMode)
    ensures
        order_modes_spec(ms, p).len() == ms.len(),
        forall|m: DisplayMode| #[trigger] order_modes_spec(ms, p).contains(m) <==> ms.contains(m),
        exists|k: int| #[trigger] split_by_size(order_modes_spec(ms, p), p, k),
{
    broadcast use vstd::seq_lib::group_filter_ensures;

    let a = ms.filter(same_size(p));
    let b = ms.filter(other_size(p));
    let r = order_modes_spec(ms, p);
    lemma_partition_len(ms, p);
    assert forall|i: int| 0 <= i < a.len() implies (#[trigger] r[i]).width == p.width && r[i].height
        == p.height by {
        assert(r[i] == a[i]);
        assert(same_size(p)(a[i]));
    }
    assert forall|i: int| a.len() <= i < ms.len() implies !((#[trigger] r[i]).width == p.width
        && r[i].height == p.height) by {
        assert(r[i] == b[i - a.len()]);
        assert(other_size(p)(b[i - a.len()]));
    }
    assert forall|m: DisplayMode| #[trigger] r.contains(m) <==> ms.contains(m) by {
        if r.contains(m) {
            let i = choose|i: int| 0 <= i < r.len() && r[i] == m;
            if i < a.len() {
                assert(a[i] == m);
                assert(a.contains(m));
                ms.lemma_filter_contains_rev(same_size(p), m);
            } else {
                assert(b[i - a.len()] == m);
                assert(b.contains(m));
                ms.lemma_filter_contains_rev(other_size(p), m);
            }
        }
        if ms.contains(m) {
            let i = choose|i: int| 0 <= i < ms.len() && ms[i] == m;
            if same_size(p)(ms[i]) {
                assert(a.contains(ms[i]));
                let j = choose|j: int| 0 <= j < a.len() && a[j] == m;
                assert(r[j] == m);
            } else {
                assert(b.contains(ms[i]));
                let j = choose|j: int| 0 <= j < b.len() && b[j] == m;
                assert(r[j + a.len()] == m);
            }
        }
    }
    assert(split_by_size(r, p, a.len() as int));
}

/// Puts the modes of the preferred size first (a stable sort on that key).
pub fn order_modes(ms: &Vec<DisplayMode>, p: &DisplayMode) -> (r: Vec<DisplayMode>)
    ensures
        r@ == order_modes_spec(ms@, *p),
{
    let mut first: Vec<DisplayMode> = Vec::new();
    let mut rest: Vec<DisplayMode> = Vec::new();
    let mut i: usize = 0;
    while i < ms.len()
        invariant
            i <= ms@.len(),
            first@ == ms@.take(i as int).filter(same_size(*p)),
            rest@ == ms@.take(i as int).filter(other_size(*p)),
        decreases ms.len() - i,
    {
        let m = ms[i];
        proof {
            reveal(Seq::filter);
            let t = ms@.take(i + 1);
            assert(t.drop_last() =~= ms@.take(i as int));
            assert(t.last() == m);
            assert(same_size(*p)(m) == (m.width == p.width && m.height == p.height));
            assert(other_size(*p)(m) == !(m.width == p.width && m.height == p.height));
            assert(t.filter(same_size(*p)) == if same_size(*p)(m) {
                t.drop_last().filter(same_size(*p)).push(m)
            } else {
                t.drop_last().filter(same_size(*p))
            });
            assert(t.filter(other_size(*p)) == if other_size(*p)(m) {
                t.drop_last().filter(other_size(*p)).push(m)
            } else {
                t.drop_last().filter(other_size(*p))
            });
        }
        if m.width == p.width && m.height == p.height {
            first.push(m);
        } else {
            rest.push(m);
        }
        i = i + 1;
    }
    assert(ms@.take(ms@.len() as int) =~= ms@);
    let mut out = first;
    let mut tail = rest;
    out.append(&mut tail);
    out
}

/// What a control packet asks of a running session.
#[derive(Debug, Clone, PartialEq)]
pub enum SessionEvent {
    /// The client ends the session; `explicit` for reason 0.
    Stop { explicit: bool },
    /// The client asks for an IDR frame.
    Keyframe,
    /// The client asks for another mode.
    ModeChange(DisplayModeChange),
    /// Periodic statistics.
    Stats(Statistics),
    /// A clock probe to answer.
    Ping(Ping),
}

/// The event a packet carries, or why it is refused.
pub open spec fn session_event_spec(p: crate::protocol::PacketView) -> Result<SessionEvent, ProtocolError> {
    if p.kind == SessionStop::spec_kind() {
        match message_spec::<SessionStop>(p) {
            Ok(v) => Ok(SessionEvent::Stop { explicit: v.reason == 0 }),
            Err(e) => Err(e),
        }
    } else if p.kind == KeyframeRequest::spec_kind() {
        match message_spec::<KeyframeRequest>(p) {
            Ok(v) => Ok(SessionEvent::Keyframe),
            Err(e) => Err(e),
        }
    } else if p.kind == DisplayModeChange::spec_kind() {
        match message_spec::<DisplayModeChange>(p) {
            Ok(v) => Ok(SessionEvent::ModeChange(v)),
            Err(e) => Err(e),
        }
    } else if p.kind == Statistics::spec_kind() {
        match message_spec::<Statistics>(p) {
            Ok(v) => Ok(SessionEvent::Stats(v)),
            Err(e) => Err(e),
        }
    } else if p.kind == Ping::spec_kind() {
        match message_spec::<Ping>(p) {
            Ok(v) => Ok(SessionEvent::Ping(v)),
            Err(e) => Err(e),
        }
    } else {
        Err(ProtocolError::UnexpectedMessage)
    }
}

/// Reads the session event a control packet carries; other kinds are refused.
pub fn session_event(p: &Packet) -> (r: Result<SessionEvent, ProtocolError>)
    ensures
        r == session_event_spec(p@),
{
    let k = p.kind;
    if k == SessionStop::kind() {
        let v = p.message::<SessionStop>()?;
        Ok(SessionEvent::Stop { explicit: v.reason == 0 })
    } else if k == KeyframeRequest::kind() {
        let _v = p.message::<KeyframeRequest>()?;
        Ok(SessionEvent::Keyframe)
    } else if k == DisplayModeChange::kind() {
        let v = p.message::<DisplayModeChange>()?;
        Ok(SessionEvent::ModeChange(v))
    } else if k == Statistics::kind() {
        let v = p.message::<Statistics>()?;
        Ok(SessionEvent::Stats(v))
    } else if k == Ping::kind() {
        let v = p.message::<Ping>()?;
        Ok(SessionEvent::Ping(v))
    } else {
        Err(ProtocolError::UnexpectedMessage)
    }
}

/// Accepts a packet of the running session's control stream: it must carry the
/// session token and a sequence number above every one accepted before; then its
/// event is read.
pub fn session_packet(guard: &mut ReplayGuard, token: &[u8; 16], p: &Packet) -> (r: Result<
    SessionEvent,
    ProtocolError,
>)
    ensures
        p.session@ != token@ ==> r == Err::<SessionEvent, ProtocolError>(
            ProtocolError::SessionMismatch,
        ) && final(guard).last() == old(guard).last(),
        p.session@ == token@ && p.sequence <= old(guard).last() ==> r == Err::<
            SessionEvent,
            ProtocolError,
        >(ProtocolError::Replayed) && final(guard).last() == old(guard).last(),
        p.session@ == token@ && p.sequence > old(guard).last() ==> r == session_event_spec(p@)
            && final(guard).last() == p.sequence,
{
    if !crate::network::same_token(&p.session, token) {
        return Err(ProtocolError::SessionMismatch);
    }
    guard.accept(p.sequence)?;
    session_event(p)
}

/// Accepts a packet of the session's input stream, checked as `session_packet` checks
/// control packets, and reads its input event.
pub fn input_packet(guard: &mut ReplayGuard, token: &[u8; 16], p: &Packet) -> (r: Result<
    InputEvent,
    ProtocolError,
>)
    ensures
        p.session@ != token@ ==> r == Err::<InputEvent, ProtocolError>(
            ProtocolError::SessionMismatch,
        ) && final(guard).last() == old(guard).last(),
        p.session@ == token@ && p.sequence <= old(guard).last() ==> r == Err::<
            InputEvent,
            ProtocolError,
        >(ProtocolError::Replayed) && final(guard).last() == old(guard).last(),
        p.session@ == token@ && p.sequence > old(guard).last() ==> final(guard).last()
            == p.sequence && match message_spec::<InputEvent>(p@) {
            Ok(v) => r matches Ok(e) && e@ == v,
            Err(e) => r == Err::<InputEvent, ProtocolError>(e),
        },
{
    if !crate::network::same_token(&p.session, token) {
        return Err(ProtocolError::SessionMismatch);
    }
    guard.accept(p.sequence)?;
    p.message::<InputEvent>()
}

/// Which GPU slots to hand to the encoder: every slot with a frame newer than the
/// one last handed over; only the newest of them (the last one on ties) is encoded,
/// the others are released with frame 0.
pub open spec fn encode_plan_spec(frames: Seq<u64>, seen: Seq<u64>) -> Seq<Option<u64>> {
    let fresh = |i: int| frames[i] > seen[i];
    let newest = newest_fresh(frames, seen, 3);
    Seq::new(
        3,
        |i: int|
            if fresh(i) {
                Some(
                    if newest == i {
                        frames[i]
                    } else {
                        0u64
                    },
                )
            } else {
                None
            },
    )
}

/// Among the first `n` slots, the fresh one with the largest frame (the last one on
/// ties), or -1 when none is fresh.
pub open spec fn newest_fresh(frames: Seq<u64>, seen: Seq<u64>, n: int) -> int
    decreases n,
{
    if n <= 0 {
        -1
    } else {
        let prev = newest_fresh(frames, seen, n - 1);
        let i = n - 1;
        if frames[i] > seen[i] && (prev < 0 || frames[i] >= frames[prev]) {
            i
        } else {
            prev
        }
    }
}

pub fn encode_plan(frames: [u64; 3], seen: [u64; 3]) -> (r: [Option<u64>; 3])
    ensures
        r@ == encode_plan_spec(frames@, seen@),
{
    let mut newest: usize = 3;
    let mut i: usize = 0;
    while i < 3
        invariant
            0 <= i <= 3,
            frames@.len() == 3,
            seen@.len() == 3,
            newest_fresh(frames@, seen@, i as int) == if newest == 3 {
                -1
            } else {
                newest as int
            },
            newest == 3 || newest < i,
        decreases 3 - i,
    {
        if frames[i] > seen[i] && (newest == 3 || frames[i] >= frames[newest]) {
            newest = i;
        }
        i = i + 1;
    }
    let mut out: [Option<u64>; 3] = [None, None, None];
    let mut j: usize = 0;
    while j < 3
        invariant
            0 <= j <= 3,
            out@.len() == 3,
            frames@.len() == 3,
            seen@.len() == 3,
            newest_fresh(frames@, seen@, 3) == if newest == 3 {
                -1
            } else {
                newest as int
            },
            forall|k: int| 0 <= k < j ==> out@[k] == encode_plan_spec(frames@, seen@)[k],
        decreases 3 - j,
    {
        if frames[j] > seen[j] {
            out[j] = Some(
                if newest == j {
                    frames[j]
                } else {
                    0
                },
            );
        } else {
            out[j] = None;
        }
        j = j + 1;
    }
    assert(out@ =~= encode_plan_spec(frames@, seen@));
    out
}

} // verus!
