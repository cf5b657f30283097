use sidecardos_host::pairing::{pairing_proof, Identity};
use sidecardos_host::protocol::{
    DisplayCapabilities, DisplayModeChange, Handshake, KeyframeRequest, Packet, Pairing, Ping,
    ProtocolError, SessionStop, Statistics,
};
use sidecardos_host::session::{
    complete_pairing, open_pairing, reservation, reserved_for_other, ControlAction, ControlError,
    AuthenticatedLink, SessionControl,
    KEYFRAME_INTERVAL_US,
};
use sidecardos_host::telemetry::AdaptiveBitrate;

const TOKEN: [u8; 16] = [3; 16];
const START: u64 = 5_000_000;

fn stats(loss_ppm: u32) -> Statistics {
    Statistics {
        fps: 60f32.to_bits(),
        bitrate: 0,
        rtt_us: 0,
        loss_ppm,
        decode_queue: 0,
        dropped_frames: 0,
        received_bytes: 0,
        decode_us: 0,
        render_us: 0,
        estimated_latency_us: 0,
    }
}

fn caps() -> DisplayCapabilities {
    DisplayCapabilities {
        physical_width: 2732,
        physical_height: 2048,
        logical_width: 1366,
        logical_height: 1024,
        max_fps: 120,
        native_scale: 2f32.to_bits(),
        safe_top: 0f32.to_bits(),
        safe_right: 0f32.to_bits(),
        safe_bottom: 0f32.to_bits(),
        safe_left: 0f32.to_bits(),
        orientation: 0,
    }
}

fn link() -> AuthenticatedLink {
    let cert = vec![7; 40];
    let mut identity = Identity::new([2; 16], cert.clone(), vec![8]);
    let (p, _) = open_pairing(0, &identity, [1; 16], [6; 16], [9; 32]).unwrap();
    let proof = pairing_proof(&[6; 16], &cert, &[1; 16], &[9; 32], 1).unwrap();
    let answer = Pairing { phase: 2, nonce: vec![9; 32], proof, secret: vec![] };
    complete_pairing(&p, &answer, &mut identity, [4; 32]).unwrap().1
}

#[test]
fn control_refuses_foreign_and_replayed_packets() {
    let mut c = SessionControl::new(&link(), TOKEN, START);
    assert_eq!(c.token(), TOKEN);
    let foreign = Packet::new(&Ping { client_timestamp: 1 }, 1, [4; 16]);
    assert_eq!(
        c.control(&foreign, START),
        Err(ControlError::Protocol(ProtocolError::SessionMismatch))
    );
    let ping = Packet::new(&Ping { client_timestamp: 77 }, 1, TOKEN);
    assert_eq!(c.control(&ping, START), Ok(ControlAction::Pong { client_timestamp: 77 }));
    assert_eq!(c.control(&ping, START), Err(ControlError::Protocol(ProtocolError::Replayed)));
    let hello = Packet::new(&Pairing { phase: 2, nonce: vec![], proof: vec![], secret: vec![] }, 2, TOKEN);
    assert_eq!(
        c.control(&hello, START),
        Err(ControlError::Protocol(ProtocolError::UnexpectedMessage))
    );
}

#[test]
fn control_spaces_keyframes() {
    let mut c = SessionControl::new(&link(), TOKEN, START);
    let key = |seq: u64| Packet::new(&KeyframeRequest { reason: 1 }, seq, TOKEN);
    // The first request after the start is honoured.
    assert_eq!(c.control(&key(1), START), Ok(ControlAction::Keyframe { set: true }));
    // Within the interval: accepted, asks for nothing.
    assert_eq!(
        c.control(&key(2), START + KEYFRAME_INTERVAL_US),
        Ok(ControlAction::Keyframe { set: false })
    );
    // Just past the interval after the last honoured one.
    assert_eq!(
        c.control(&key(3), START + KEYFRAME_INTERVAL_US + 1),
        Ok(ControlAction::Keyframe { set: true })
    );
    assert_eq!(
        c.control(&key(4), START + KEYFRAME_INTERVAL_US + 100),
        Ok(ControlAction::Keyframe { set: false })
    );
}

#[test]
fn control_reads_stop_mode_and_statistics() {
    let mut c = SessionControl::new(&link(), TOKEN, START);
    let mode = DisplayModeChange { width: 1920, height: 1080, fps: 60 };
    assert_eq!(c.control(&Packet::new(&mode, 1, TOKEN), START), Ok(ControlAction::Mode(mode)));
    assert_eq!(
        c.control(&Packet::new(&stats(0), 2, TOKEN), START),
        Ok(ControlAction::Stats(stats(0)))
    );
    assert_eq!(
        c.control(&Packet::new(&stats(2_000_000), 3, TOKEN), START),
        Err(ControlError::InvalidStatistics)
    );
    assert_eq!(
        c.control(&Packet::new(&SessionStop { reason: 2 }, 4, TOKEN), START),
        Ok(ControlAction::Stop { explicit: false })
    );
    assert_eq!(
        c.control(&Packet::new(&SessionStop { reason: 0 }, 5, TOKEN), START),
        Ok(ControlAction::Stop { explicit: true })
    );
    assert_eq!(ControlError::InvalidStatistics.describe(), "invalid statistics");
}

#[test]
fn capabilities_are_read_on_an_authenticated_link() {
    let cert = vec![7; 40];
    let mut identity = Identity::new([2; 16], cert.clone(), vec![8]);
    let (p, _) = open_pairing(0, &identity, [1; 16], [6; 16], [9; 32]).unwrap();
    let proof = pairing_proof(&[6; 16], &cert, &[1; 16], &[9; 32], 1).unwrap();
    let answer = Pairing { phase: 2, nonce: vec![9; 32], proof, secret: vec![] };
    let (_, link) = complete_pairing(&p, &answer, &mut identity, [4; 32]).unwrap();
    assert_eq!(link.device_id(), [1; 16]);
    assert_eq!(link.capabilities(&Packet::new(&caps(), 3, [0; 16])), Ok(caps()));
    let hello = Handshake {
        client_id: vec![1; 16],
        name: "iPad".into(),
        min_major: 1,
        max_major: 1,
        minor: 0,
        trusted: 0,
    };
    assert_eq!(
        link.capabilities(&Packet::new(&hello, 4, [0; 16])),
        Err(ProtocolError::UnexpectedKind)
    );
}

#[test]
fn bitrate_update_fits_check() {
    let a = AdaptiveBitrate::new(u32::MAX / 2, 1, u32::MAX, 0);
    let congested = Statistics { rtt_us: 100_000, ..stats(0) };
    // Within a second nothing is computed.
    assert!(a.update_fits_at(&congested, 500_000));
    // A congested sample would multiply past u32.
    assert!(!a.update_fits_at(&congested, 2_000_000));
    // A healthy first sample changes nothing.
    assert!(a.update_fits_at(&stats(0), 2_000_000));
    let mut b = AdaptiveBitrate::new(12_000_000, 2_000_000, 30_000_000, 0);
    assert!(b.update_fits_at(&congested, 2_000_000));
    assert_eq!(b.update(&congested, 2_000_000), Some(9_000_000));
}

#[test]
fn reservation_holds_for_the_grace_period() {
    assert_eq!(reservation([1; 16], true, 10, 4000), None);
    let held = reservation([1; 16], false, 10, 4000);
    assert_eq!(held, Some(([1; 16], 4_000_010)));
    assert!(reserved_for_other(held, [2; 16], 4_000_009));
    assert!(!reserved_for_other(held, [2; 16], 4_000_010));
    assert!(!reserved_for_other(held, [1; 16], 11));
}

#[test]
fn identity_is_stored_as_hex_and_read_back() {
    let identity = Identity::new([0xab; 16], vec![1, 2, 0xff], vec![0x10]);
    let (host_id, cert, key) = identity.stored_text();
    assert_eq!(host_id, "ab".repeat(16));
    assert_eq!(cert, "0102ff");
    assert_eq!(key, "10");
    let back = Identity::from_stored(&host_id, &cert, &key, vec![]).unwrap();
    assert_eq!(back.stored_text(), (host_id, cert, key));
}

#[test]
fn generated_identity_trusts_nobody() {
    let identity = Identity::generate([5; 16]).unwrap();
    assert!(identity.entries().is_empty());
    assert!(!identity.certificate().is_empty());
    assert_eq!(identity.stored_text().0, "05".repeat(16));
}
