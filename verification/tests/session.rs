use sidecardos_host::config::Position;
use sidecardos_host::input::{
    button_changes, classify, held_buttons, InputError, InputKind, KeyAction, KeyboardState,
    TouchPhase, TouchState,
};
use sidecardos_host::network::{
    control_body_length, fragment, fragment_plan, stale, ControlState, FRAGMENT_OVERHEAD,
};
use sidecardos_host::protocol::{
    DisplayMode, DisplayModeChange, Handshake, InputEvent, KeyframeRequest, Packet, Pairing, Ping,
    Pong, ProtocolError, ReplayGuard, SessionStop, Statistics, VideoFragment, VideoFrame, HEADER, MAX_DATAGRAM,
};
use sidecardos_host::pairing::{pairing_proof, verify, Identity, PairingError};
use sidecardos_host::session::{
    action_effect, menu_action, ActionEffect, TrayAction,
    SessionState, WorkerAction, WorkerError, WorkerEvent, WorkerState,
    accept_hello, complete_pairing, input_packet, open_pairing, session_packet, AuthFailure,
    challenge, confirmation, encode_plan, encoder_fps, frame_gap, keyframe_due, KeyframeLimiter,
    mode_request_valid,
    order_modes, quality, reconnect_requested, reserved_for_other, session_event,
    statistics_valid, validate_answer, validate_hello, AuthError, SessionEvent,
};

#[test]
fn control_header_checks() {
    let p = Packet::new(&Ping { client_timestamp: 1 }, 1, [0; 16]).encode();
    let mut h = [0u8; HEADER];
    h.copy_from_slice(&p[..HEADER]);
    assert_eq!(control_body_length(&h).unwrap(), 8);
    let mut big = h;
    big[8..12].copy_from_slice(&(65536u32 - 35).to_le_bytes());
    assert_eq!(control_body_length(&big).unwrap_err(), ProtocolError::OversizedMessage);
    big[8..12].copy_from_slice(&(65536u32 - 36).to_le_bytes());
    assert_eq!(control_body_length(&big).unwrap(), 65500);
    let mut bad = h;
    bad[1] = 0;
    assert_eq!(control_body_length(&bad).unwrap_err(), ProtocolError::InvalidFraming);
}

#[test]
fn control_sequences_and_tokens() {
    let mut c = ControlState::new();
    let a = c.outgoing(&Ping { client_timestamp: 9 }).unwrap();
    let b = c.outgoing(&Ping { client_timestamp: 9 }).unwrap();
    assert_eq!(Packet::decode(&a, 65536).unwrap().sequence, 1);
    assert_eq!(Packet::decode(&b, 65536).unwrap().sequence, 2);
    c.set_session([5; 16]);
    assert_eq!(c.session(), [5; 16]);
    let ok = Packet::new(&Ping { client_timestamp: 1 }, 1, [5; 16]);
    assert!(c.incoming(&ok).is_ok());
    assert_eq!(c.incoming(&ok).unwrap_err(), ProtocolError::Replayed);
    let wrong = Packet::new(&Ping { client_timestamp: 1 }, 2, [6; 16]);
    assert_eq!(c.incoming(&wrong).unwrap_err(), ProtocolError::SessionMismatch);
    let next = Packet::new(&Ping { client_timestamp: 1 }, 2, [5; 16]);
    assert_eq!(c.incoming(&next).unwrap_err(), ProtocolError::Replayed);
    let big = Pairing { phase: 0, nonce: vec![0; 70000], proof: vec![], secret: vec![] };
    assert_eq!(c.outgoing(&big).unwrap_err(), ProtocolError::ControlTooLarge);
}

#[test]
fn fragmentation_plan_and_pieces() {
    assert_eq!(fragment_plan(2200, Some(1350)).unwrap(), (1100, 2));
    assert_eq!(fragment_plan(2200, Some(585)).unwrap(), (500, 5));
    assert_eq!(fragment_plan(10, None).unwrap_err(), ProtocolError::NoDatagrams);
    assert_eq!(fragment_plan(10, Some(FRAGMENT_OVERHEAD)).unwrap_err(), ProtocolError::MtuTooSmall);
    assert_eq!(fragment_plan(0, Some(1200)).unwrap_err(), ProtocolError::FragmentCount);
    assert_eq!(fragment_plan(2 * 1024 * 1024 + 1, Some(1200)).unwrap_err(), ProtocolError::FrameTooLarge);
    let frame = VideoFrame {
        generation: 1,
        frame_id: 1,
        capture_timestamp: 5,
        encode_timestamp: 2,
        send_timestamp: 3,
        keyframe: 1,
        data: (0..2200u32).map(|i| i as u8).collect(),
    };
    let (chunk, count) = fragment_plan(frame.data.len(), Some(1200)).unwrap();
    let mut joined = Vec::new();
    for i in 0..count {
        let f: VideoFragment = fragment(&frame, i, chunk, count, 77);
        assert_eq!(f.index as usize, i);
        assert_eq!(f.count as usize, count);
        assert_eq!(f.total_bytes, 2200);
        assert_eq!(f.send_timestamp, 77);
        let bytes = Packet::new(&f, 0, [7; 16]).encode();
        assert!(bytes.len() <= MAX_DATAGRAM);
        joined.extend(f.data);
    }
    assert_eq!(joined, frame.data);
    assert!(stale(100_000, 10_000));
    assert!(!stale(90_000, 10_000));
    assert!(!stale(0, 10_000));
}

fn hello(id_len: usize, name: &str, trusted: u8) -> Handshake {
    Handshake { client_id: vec![1; id_len], name: name.to_string(), min_major: 1, max_major: 1, minor: 0, trusted }
}

#[test]
fn authentication_checks() {
    assert_eq!(validate_hello(&hello(16, "iPad", 0)).unwrap(), [1; 16]);
    assert_eq!(validate_hello(&hello(15, "iPad", 0)).unwrap_err(), AuthError::InvalidClient);
    assert_eq!(validate_hello(&hello(16, &"é".repeat(65), 0)).unwrap_err(), AuthError::InvalidClient);
    assert!(validate_hello(&hello(16, &"é".repeat(64), 0)).is_ok());
    assert_eq!(reconnect_requested(1).unwrap(), true);
    assert_eq!(reconnect_requested(0).unwrap(), false);
    assert_eq!(reconnect_requested(2).unwrap_err(), AuthError::InvalidPairingState);
    let nonce = [9; 32];
    assert_eq!(challenge(true, &nonce).phase, 0);
    assert_eq!(challenge(false, &nonce).phase, 1);
    let answer = Pairing { phase: 2, nonce: nonce.to_vec(), proof: vec![1], secret: vec![] };
    assert!(validate_answer(&answer, &nonce).is_ok());
    assert!(validate_answer(&Pairing { phase: 1, ..answer.clone() }, &nonce).is_err());
    assert!(validate_answer(&Pairing { nonce: vec![8; 32], ..answer.clone() }, &nonce).is_err());
    assert!(validate_answer(&Pairing { secret: vec![1], ..answer.clone() }, &nonce).is_err());
    let c = confirmation(false, &nonce, vec![3], vec![4]);
    assert_eq!((c.phase, c.secret.len()), (3, 0));
    assert_eq!(confirmation(true, &nonce, vec![3], vec![4]).secret, vec![4]);
}

#[test]
fn hello_step_checks_identity_then_version() {
    assert_eq!(accept_hello(&hello(16, "iPad", 0)).unwrap(), ([1; 16], (1, 0)));
    assert_eq!(
        accept_hello(&hello(15, "iPad", 0)).unwrap_err(),
        AuthFailure::Client(AuthError::InvalidClient)
    );
    let old = Handshake { min_major: 2, max_major: 3, ..hello(16, "iPad", 0) };
    assert_eq!(
        accept_hello(&old).unwrap_err(),
        AuthFailure::Protocol(ProtocolError::NoCompatibleVersion)
    );
}

#[test]
fn challenge_step_picks_key() {
    let mut identity = Identity::new([2; 16], vec![7; 40], vec![8]);
    identity.trust(&[1; 16], &[5; 16]).unwrap();
    let (p, m) = open_pairing(1, &identity, [1; 16], [6; 16], [9; 32]).unwrap();
    assert!(!p.is_new);
    assert_eq!(p.key, vec![5; 16]);
    assert_eq!((m.phase, m.nonce.clone()), (1, vec![9; 32]));
    let (p, m) = open_pairing(0, &identity, [1; 16], [6; 16], [9; 32]).unwrap();
    assert!(p.is_new);
    assert_eq!(p.key, vec![6; 16]);
    assert_eq!(m.phase, 0);
    let (p, _) = open_pairing(1, &identity, [3; 16], [6; 16], [9; 32]).unwrap();
    assert!(p.is_new);
    assert_eq!(
        open_pairing(2, &identity, [1; 16], [6; 16], [9; 32]).err().unwrap(),
        AuthFailure::Client(AuthError::InvalidPairingState)
    );
    identity.restore("04040404040404040404040404040404".to_string(), "xyz".to_string());
    assert_eq!(
        open_pairing(1, &identity, [4; 16], [6; 16], [9; 32]).err().unwrap(),
        AuthFailure::Pairing(PairingError::InvalidStoredKey)
    );
}

#[test]
fn answer_step_trusts_only_after_proof() {
    let cert = vec![7; 40];
    let mut identity = Identity::new([2; 16], cert.clone(), vec![8]);
    let (p, _) = open_pairing(0, &identity, [1; 16], [6; 16], [9; 32]).unwrap();
    let good = pairing_proof(&[6; 16], &cert, &[1; 16], &[9; 32], 1).unwrap();
    let answer = Pairing { phase: 2, nonce: vec![9; 32], proof: good.clone(), secret: vec![] };
    let wrong_phase = Pairing { phase: 1, ..answer.clone() };
    assert_eq!(
        complete_pairing(&p, &wrong_phase, &mut identity, [4; 32]).err().unwrap(),
        AuthFailure::Client(AuthError::UnexpectedPairingResponse)
    );
    let host_role = pairing_proof(&[6; 16], &cert, &[1; 16], &[9; 32], 2).unwrap();
    let forged = Pairing { proof: host_role.clone(), ..answer.clone() };
    assert_eq!(
        complete_pairing(&p, &forged, &mut identity, [4; 32]).err().unwrap(),
        AuthFailure::Pairing(PairingError::BadProof)
    );
    assert!(identity.entries().is_empty());
    let (done, link) = complete_pairing(&p, &answer, &mut identity, [4; 32]).unwrap();
    assert_eq!(link.device_id(), [1; 16]);
    assert_eq!((done.phase, done.nonce.clone(), done.secret.clone()), (3, vec![9; 32], vec![4; 32]));
    assert_eq!(done.proof, host_role);
    assert!(verify(&[6; 16], &cert, &[1; 16], &[9; 32], 2, &done.proof).is_ok());
    assert_eq!(identity.trusted(&[1; 16]).unwrap(), Some(vec![4; 32]));
    // The device reconnects with the secret it was given.
    let (p, _) = open_pairing(1, &identity, [1; 16], [6; 16], [8; 32]).unwrap();
    assert_eq!(p.key, vec![4; 32]);
    let proof = pairing_proof(&[4; 32], &cert, &[1; 16], &[8; 32], 1).unwrap();
    let answer = Pairing { phase: 2, nonce: vec![8; 32], proof, secret: vec![] };
    let (done, _) = complete_pairing(&p, &answer, &mut identity, [5; 32]).unwrap();
    assert!(done.secret.is_empty());
    assert_eq!(identity.entries().len(), 1);
    assert_eq!(identity.trusted(&[1; 16]).unwrap(), Some(vec![4; 32]));
}

#[test]
fn answer_step_respects_device_limit() {
    let cert = vec![7; 40];
    let mut identity = Identity::new([2; 16], cert.clone(), vec![8]);
    for i in 0..64u8 {
        identity.trust(&[i; 16], &[1; 16]).unwrap();
    }
    let (p, _) = open_pairing(0, &identity, [200; 16], [6; 16], [9; 32]).unwrap();
    let proof = pairing_proof(&[6; 16], &cert, &[200; 16], &[9; 32], 1).unwrap();
    let answer = Pairing { phase: 2, nonce: vec![9; 32], proof, secret: vec![] };
    assert_eq!(
        complete_pairing(&p, &answer, &mut identity, [4; 32]).err().unwrap(),
        AuthFailure::Pairing(PairingError::DeviceLimit)
    );
    assert_eq!(identity.entries().len(), 64);
}

#[test]
fn session_decisions() {
    let stats = Statistics { fps: 60f32.to_bits(), bitrate: 0, rtt_us: 0, loss_ppm: 0, decode_queue: 0, dropped_frames: 0, received_bytes: 0, decode_us: 0, render_us: 0, estimated_latency_us: 0 };
    assert!(statistics_valid(&stats));
    assert!(statistics_valid(&Statistics { fps: (-0.0f32).to_bits(), ..stats }));
    assert!(statistics_valid(&Statistics { fps: 240f32.to_bits(), ..stats }));
    assert!(!statistics_valid(&Statistics { fps: 240.5f32.to_bits(), ..stats }));
    assert!(!statistics_valid(&Statistics { fps: (-1f32).to_bits(), ..stats }));
    assert!(!statistics_valid(&Statistics { fps: f32::NAN.to_bits(), ..stats }));
    assert!(!statistics_valid(&Statistics { loss_ppm: 1_000_001, ..stats }));
    assert!(mode_request_valid(&DisplayModeChange { width: 1920, height: 1080, fps: 60 }));
    assert!(!mode_request_valid(&DisplayModeChange { width: 1921, height: 1080, fps: 60 }));
    assert!(!mode_request_valid(&DisplayModeChange { width: 1920, height: 1080, fps: 29 }));
    assert_eq!(quality(0), (true, 12_000_000));
    assert_eq!(quality(1), (false, 6_000_000));
    assert_eq!(quality(2), (false, 20_000_000));
    assert!(reserved_for_other(Some(([1; 16], 100)), [2; 16], 99));
    assert!(!reserved_for_other(Some(([1; 16], 100)), [1; 16], 99));
    assert!(!reserved_for_other(Some(([1; 16], 100)), [2; 16], 100));
    assert!(keyframe_due(300_001, 100_000));
    let mut k = KeyframeLimiter::new(2_000_000);
    assert!(k.request(2_000_000));
    assert!(!k.request(2_150_000));
    assert!(!k.request(2_200_000));
    assert!(k.request(2_200_001));
    assert!(!k.request(1_000_000));
    let mut early = KeyframeLimiter::new(100);
    assert!(!early.request(200_000));
    assert!(early.request(200_001));
    assert!(!keyframe_due(300_000, 100_000));
    assert!(frame_gap(3, 5));
    assert!(!frame_gap(3, 4));
    assert_eq!(encoder_fps(120), 60);
    assert_eq!(encoder_fps(24), 30);
    let m = |w, h| DisplayMode { width: w, height: h, fps: 60, scale_percent: 100 };
    let ordered = order_modes(&vec![m(1280, 720), m(1920, 1080), m(2732, 2048), m(1920, 1080)], &m(1920, 1080));
    assert_eq!(ordered, vec![m(1920, 1080), m(1920, 1080), m(1280, 720), m(2732, 2048)]);
    assert_eq!(encode_plan([5, 7, 7], [0, 0, 7]), [Some(0), Some(7), None]);
    assert_eq!(encode_plan([5, 9, 9], [0, 0, 0]), [Some(0), Some(0), Some(9)]);
    assert_eq!(encode_plan([1, 1, 1], [1, 1, 1]), [None, None, None]);
}

#[test]
fn session_events_by_kind() {
    let stop = Packet::new(&SessionStop { reason: 0 }, 1, [0; 16]);
    assert_eq!(session_event(&stop).unwrap(), SessionEvent::Stop { explicit: true });
    let stop = Packet::new(&SessionStop { reason: 2 }, 1, [0; 16]);
    assert_eq!(session_event(&stop).unwrap(), SessionEvent::Stop { explicit: false });
    let key = Packet::new(&KeyframeRequest { reason: 2 }, 1, [0; 16]);
    assert_eq!(session_event(&key).unwrap(), SessionEvent::Keyframe);
    let ping = Packet::new(&Ping { client_timestamp: 4 }, 1, [0; 16]);
    assert_eq!(session_event(&ping).unwrap(), SessionEvent::Ping(Ping { client_timestamp: 4 }));
    let other = Packet::new(&Pairing { phase: 0, nonce: vec![], proof: vec![], secret: vec![] }, 1, [0; 16]);
    assert_eq!(session_event(&other).unwrap_err(), ProtocolError::UnexpectedMessage);
}

#[test]
fn session_packets_check_token_then_sequence() {
    let mut guard = ReplayGuard::default();
    let token = [7; 16];
    let ping = Packet::new(&Ping { client_timestamp: 4 }, 3, [7; 16]);
    let foreign = Packet::new(&Ping { client_timestamp: 4 }, 5, [1; 16]);
    assert_eq!(session_packet(&mut guard, &token, &foreign).unwrap_err(), ProtocolError::SessionMismatch);
    assert_eq!(
        session_packet(&mut guard, &token, &ping).unwrap(),
        SessionEvent::Ping(Ping { client_timestamp: 4 })
    );
    assert_eq!(session_packet(&mut guard, &token, &ping).unwrap_err(), ProtocolError::Replayed);
    let other = Packet::new(&Pong { client_timestamp: 1, host_receive: 2, host_send: 3 }, 4, [7; 16]);
    assert_eq!(session_packet(&mut guard, &token, &other).unwrap_err(), ProtocolError::UnexpectedMessage);
    assert_eq!(session_packet(&mut guard, &token, &other).unwrap_err(), ProtocolError::Replayed);

    let mut input_guard = ReplayGuard::default();
    let e = key_event(4, 0, 0);
    let p = Packet::new(&e, 1, [7; 16]);
    assert_eq!(input_packet(&mut input_guard, &token, &p).unwrap(), e);
    assert_eq!(input_packet(&mut input_guard, &token, &p).unwrap_err(), ProtocolError::Replayed);
    let p = Packet::new(&e, 2, [8; 16]);
    assert_eq!(input_packet(&mut input_guard, &token, &p).unwrap_err(), ProtocolError::SessionMismatch);
    let p = Packet::new(&Ping { client_timestamp: 4 }, 2, [7; 16]);
    assert_eq!(input_packet(&mut input_guard, &token, &p).unwrap_err(), ProtocolError::UnexpectedKind);
}

fn key_event(physical_key: u16, modifiers: u32, phase: u8) -> InputEvent {
    InputEvent { kind: 3, phase, contact_id: 0, x: 0, y: 0, dx: 0, dy: 0, buttons: 0, physical_key, logical_key: 0, modifiers, is_repeat: 0 }
}

#[test]
fn keyboard_plans_modifiers() {
    let mut k = KeyboardState::new();
    let down = key_event(4, 1 | 2, 0);
    let plan = k.plan(&down);
    assert_eq!(plan, vec![
        KeyAction { code: 0x1d, up: false, modifier: true },
        KeyAction { code: 0x2a, up: false, modifier: true },
        KeyAction { code: 0x1e, up: false, modifier: false },
    ]);
    for a in &plan {
        k.before_send(*a);
        k.after_send(*a);
    }
    assert!(k.contains(0x1d) && k.contains(0x2a) && k.contains(0x1e));
    let up = key_event(4, 0, 2);
    let plan = k.plan(&up);
    assert_eq!(plan, vec![
        KeyAction { code: 0x1d, up: true, modifier: true },
        KeyAction { code: 0x2a, up: true, modifier: true },
        KeyAction { code: 0x1e, up: true, modifier: false },
    ]);
    for a in &plan {
        k.before_send(*a);
        k.after_send(*a);
    }
    assert!(!k.contains(0x1e));
    assert!(k.plan(&key_event(4, 0, 2)).is_empty());
    assert!(k.plan(&key_event(50, 0, 0)).is_empty());
    k.after_send(KeyAction { code: 0x38, up: false, modifier: false });
    k.after_send(KeyAction { code: 0x10, up: false, modifier: false });
    assert_eq!(k.release_all(), vec![0x10, 0x38]);
    assert!(!k.contains(0x38));
}

#[test]
fn touch_contacts_and_buttons() {
    let e = InputEvent { kind: 0, phase: 0, contact_id: 0, x: 0, y: 0, dx: 0, dy: 0, buttons: 0, physical_key: 0, logical_key: 0, modifiers: 0, is_repeat: 0 };
    assert_eq!(classify(&e).unwrap(), InputKind::Touch);
    assert_eq!(classify(&InputEvent { kind: 2, ..e }).unwrap(), InputKind::Mouse);
    assert_eq!(classify(&InputEvent { kind: 3, ..e }).unwrap(), InputKind::Keyboard);
    assert_eq!(classify(&InputEvent { kind: 4, ..e }).unwrap_err(), InputError::UnsupportedKind);
    assert_eq!(classify(&InputEvent { buttons: 8, ..e }).unwrap_err(), InputError::InvalidFlags);
    assert_eq!(TouchState::check_contact(10).unwrap_err(), InputError::TooManyContacts);
    let mut t = TouchState::new();
    assert!(t.is_empty());
    assert_eq!(t.begin(3, 1, 5, 5).unwrap_err(), InputError::TouchWithoutDown);
    let v = t.begin(3, 0, 10, 20).unwrap();
    assert!(!t.is_empty());
    assert_eq!((v.len(), v[0].phase), (1, TouchPhase::Down));
    t.end(3, 0);
    assert_eq!(t.begin(3, 0, 1, 1).unwrap_err(), InputError::DuplicateTouchDown);
    let v = t.begin(1, 0, 7, 7).unwrap();
    assert_eq!(v.iter().map(|p| (p.contact, p.phase)).collect::<Vec<_>>(), vec![(1, TouchPhase::Down), (3, TouchPhase::Update)]);
    t.end(1, 0);
    let v = t.begin(3, 2, 99, 99).unwrap();
    assert_eq!((v[1].x, v[1].y, v[1].phase), (10, 20, TouchPhase::Up));
    t.end(3, 2);
    assert_eq!(t.list().len(), 1);
    let r = t.release_all();
    assert_eq!((r.len(), r[0].phase), (1, TouchPhase::Canceled));
    assert!(t.list().is_empty());
    assert!(t.is_empty());
    assert_eq!(button_changes(1, 6), vec![(1, false), (2, true), (4, true)]);
    assert_eq!(held_buttons(5), vec![1, 4]);
}

fn mode(width: u32, height: u32) -> DisplayMode {
    DisplayMode { width, height, fps: 60, scale_percent: 100 }
}

fn status(now: u64, generation: u32, width: u32, ready: bool, bitrate: u32) -> WorkerEvent {
    WorkerEvent::Status { now, generation, width, height: 1080, fps: 120, ready, bitrate }
}

#[test]
fn worker_connects_streams_and_numbers_frames() {
    let mut w = WorkerState::new(0);
    let modes = vec![mode(1920, 1080), mode(1280, 720)];
    assert_eq!(w.step(WorkerEvent::Connect { device: [1; 16], modes: modes.clone(), now: 10 }), WorkerAction::Start { replace: true });
    assert_eq!(w.mode_request(), Some((1920, 1080, 60)));
    assert_eq!(w.step(WorkerEvent::Round { now: 11 }), WorkerAction::Continue);
    assert_eq!(w.step(status(12, 0, 0, false, 6)), WorkerAction::Wait);
    assert_eq!(w.step(status(8_000_010, 0, 0, false, 6)), WorkerAction::Wait);
    assert_eq!(w.step(WorkerEvent::Placed), WorkerAction::Done);
    assert_eq!(w.mode_request(), None);
    // A new generation opens the encoder at a clamped frame rate.
    assert_eq!(w.step(status(20, 4, 1920, true, 6)), WorkerAction::Open { generation: 4, width: 1920, height: 1080, fps: 60, bitrate: 6 });
    assert_eq!(w.step(status(21, 4, 1920, true, 6)), WorkerAction::Run);
    assert_eq!(w.step(status(22, 4, 1920, true, 9)), WorkerAction::Retune { width: 1920, height: 1080, fps: 60, bitrate: 9 });
    assert_eq!(w.step(status(23, 5, 1920, true, 9)), WorkerAction::Open { generation: 5, width: 1920, height: 1080, fps: 60, bitrate: 9 });
    assert_eq!(w.step(WorkerEvent::Output), WorkerAction::Publish { frame_id: 1 });
    assert_eq!(w.step(WorkerEvent::Output), WorkerAction::Publish { frame_id: 2 });
    assert_eq!(w.step(WorkerEvent::Encoded { slot: 1, frame: 7 }), WorkerAction::Done);
    assert_eq!(w.seen(), [0, 7, 0]);
    // Reconnecting within grace with the same modes keeps the monitor.
    assert_eq!(w.step(WorkerEvent::Disconnect { immediate: false, now: 100, grace: 4_000_000 }), WorkerAction::Stop { depart: false });
    assert_eq!(w.step(WorkerEvent::Connect { device: [2; 16], modes: modes.clone(), now: 200 }), WorkerAction::Error(WorkerError::Reserved));
    assert_eq!(w.step(WorkerEvent::Connect { device: [1; 16], modes: modes.clone(), now: 200 }), WorkerAction::Start { replace: false });
    assert_eq!(w.mode_request(), None);
    assert_eq!(w.step(WorkerEvent::Output), WorkerAction::Publish { frame_id: 3 });
    // Other modes replace it.
    w.step(WorkerEvent::Disconnect { immediate: false, now: 300, grace: 4_000_000 });
    assert_eq!(w.step(WorkerEvent::Connect { device: [1; 16], modes: vec![mode(1280, 720)], now: 400 }), WorkerAction::Start { replace: true });
    assert_eq!(w.step(WorkerEvent::Connect { device: [1; 16], modes: vec![], now: 500 }), WorkerAction::Error(WorkerError::Reserved));
    assert_eq!(w.step(WorkerEvent::Disconnect { immediate: true, now: 600, grace: 0 }), WorkerAction::Stop { depart: true });
    assert_eq!(w.step(WorkerEvent::Connect { device: [1; 16], modes: vec![], now: 700 }), WorkerAction::Offer { replace: true });
    assert_eq!(w.session(), SessionState::Idle);
}

#[test]
fn worker_times_out_expires_and_validates() {
    let mut w = WorkerState::new(0);
    assert_eq!(w.step(WorkerEvent::Round { now: 1 }), WorkerAction::Idle);
    w.step(WorkerEvent::Connect { device: [1; 16], modes: vec![mode(1920, 1080)], now: 1_000 });
    assert_eq!(w.step(status(8_001_000, 0, 0, true, 6)), WorkerAction::Wait);
    assert_eq!(w.step(status(8_001_001, 0, 1920, false, 6)), WorkerAction::Error(WorkerError::StartupTimeout));
    assert_eq!(w.step(WorkerEvent::Mode { change: DisplayModeChange { width: 1601, height: 900, fps: 60 } }), WorkerAction::Error(WorkerError::InvalidMode));
    assert_eq!(w.step(WorkerEvent::Mode { change: DisplayModeChange { width: 1600, height: 900, fps: 30 } }), WorkerAction::Reconcile);
    assert_eq!(w.mode_request(), Some((1600, 900, 30)));
    assert_eq!(w.step(WorkerEvent::Disconnect { immediate: false, now: u64::MAX - 1, grace: 2 }), WorkerAction::Error(WorkerError::GraceOverflow));
    assert_eq!(w.step(WorkerEvent::Disconnect { immediate: false, now: 10, grace: 5 }), WorkerAction::Stop { depart: false });
    assert_eq!(w.step(WorkerEvent::Round { now: 14 }), WorkerAction::Idle);
    assert_eq!(w.step(WorkerEvent::Round { now: 15 }), WorkerAction::Depart);
    assert_eq!(w.session(), SessionState::Idle);
    assert_eq!(w.step(WorkerEvent::Failed), WorkerAction::Stop { depart: true });
}

#[test]
fn tray_commands_and_their_effects() {
    assert_eq!(menu_action(1), Some(TrayAction::Disconnect));
    assert_eq!(menu_action(12), Some(TrayAction::Position(Position::Above)));
    assert_eq!(menu_action(22), Some(TrayAction::Quality(2)));
    assert_eq!(menu_action(99), Some(TrayAction::Exit));
    assert_eq!(menu_action(30), None);
    assert_eq!(menu_action(14), None);
    assert_eq!(action_effect(Some(TrayAction::Disconnect)), ActionEffect::EndSession);
    assert_eq!(action_effect(Some(TrayAction::Exit)), ActionEffect::Quit);
    assert_eq!(action_effect(None), ActionEffect::Quit);
    assert_eq!(action_effect(Some(TrayAction::Position(Position::Left))), ActionEffect::Place(Position::Left));
    assert_eq!(action_effect(Some(TrayAction::Quality(0))), ActionEffect::SetQuality { adaptive: true, bitrate: 12_000_000 });
    assert_eq!(action_effect(Some(TrayAction::Quality(1))), ActionEffect::SetQuality { adaptive: false, bitrate: 6_000_000 });
}
