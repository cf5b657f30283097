use sidecardos_host::config::{Config, ConfigError, Position};
use sidecardos_host::display::{modes, preferred, ModeError};
use sidecardos_host::encoder::h264::{units, H264Error, ParameterSets};
use sidecardos_host::input::scan_code;
use sidecardos_host::pairing::{pairing_proof, verify, Identity, PairingError};
use sidecardos_host::protocol::{DisplayCapabilities, DisplayMode, Statistics};
use sidecardos_host::session::SessionState;
use sidecardos_host::telemetry::AdaptiveBitrate;
use sidecardos_host::topology::{placement, settled, Bounds, Reconciler, TopologyError};

const SECOND: u64 = 1_000_000;

#[test]
fn grace_reserves_identity() {
    let t = 5 * SECOND;
    let mut s = SessionState::Streaming { device: [1; 16] };
    s.disconnect(t, 4 * SECOND);
    assert!(s.accepts([1; 16]));
    assert!(!s.accepts([2; 16]));
    assert!(!s.expired(t));
    assert!(s.expired(t + 5 * SECOND));
}

#[test]
fn idle_accepts_and_streaming_refuses() {
    let mut idle = SessionState::Idle;
    assert!(idle.accepts([3; 16]));
    idle.disconnect(0, SECOND);
    assert_eq!(idle, SessionState::Idle);
    let s = SessionState::Streaming { device: [3; 16] };
    assert!(!s.accepts([3; 16]));
    assert!(!s.expired(u64::MAX));
    let g = SessionState::Grace { device: [3; 16], deadline: 10 };
    assert!(g.expired(10));
    assert!(!g.expired(9));
}

fn ipad() -> DisplayCapabilities {
    DisplayCapabilities {
        physical_width: 2732,
        physical_height: 2048,
        logical_width: 1366,
        logical_height: 1024,
        max_fps: 120,
        native_scale: 2f32.to_bits(),
        safe_top: 0f32.to_bits(),
        safe_right: 0f32.to_bits(),
        safe_bottom: 0f32.to_bits(),
        safe_left: 0f32.to_bits(),
        orientation: 0,
    }
}

#[test]
fn preserves_aspect_and_bounds() {
    let c = ipad();
    let m = modes(&c, 60).unwrap();
    assert!(m.len() > 1);
    assert_eq!(preferred(&m).unwrap().width, 1920);
    assert!(m.iter().all(|m| m.width % 2 == 0 && m.height % 2 == 0 && m.fps == 60));
}

#[test]
fn modes_match_binary64_scaling() {
    let c = ipad();
    let m = modes(&c, 60).unwrap();
    let sizes: Vec<(u32, u32)> = m.iter().map(|m| (m.width, m.height)).collect();
    let mut expected = Vec::new();
    for edge in [1280u32, 1920, 2732] {
        let scale = (edge as f64 / 2732f64).min(1.0);
        let pair = (((2732f64 * scale) as u32) & !1, ((2048f64 * scale) as u32) & !1);
        if !expected.contains(&pair) {
            expected.push(pair);
        }
    }
    if !expected.contains(&(1920, 1080)) {
        expected.push((1920, 1080));
    }
    assert_eq!(sizes, expected);
    assert_eq!(m[2].scale_percent, 150);
    assert_eq!(m[0].scale_percent, 100);
    // 1432 x 537 gives 1280 * 537 / 1432 = 480 exactly, which binary64 rounds to 479.99...
    let mut odd = ipad();
    odd.physical_width = 1432;
    odd.physical_height = 537;
    let s = modes(&odd, 30).unwrap();
    let scale = 1280f64 / 1432f64;
    assert_eq!(s[0].height, ((537f64 * scale) as u32) & !1);
    assert_eq!(s[0].height, 478);
}

#[test]
fn modes_reject_bad_capabilities() {
    let mut c = ipad();
    c.physical_width = 200;
    assert_eq!(modes(&c, 60).unwrap_err(), ModeError::UnsupportedDimensions);
    let mut c = ipad();
    c.native_scale = f32::NAN.to_bits();
    assert_eq!(modes(&c, 60).unwrap_err(), ModeError::InvalidCapabilities);
    let mut c = ipad();
    c.native_scale = 4.5f32.to_bits();
    assert_eq!(modes(&c, 60).unwrap_err(), ModeError::InvalidCapabilities);
    let mut c = ipad();
    c.max_fps = 24;
    assert_eq!(modes(&c, 60).unwrap_err(), ModeError::InvalidCapabilities);
    let mut c = ipad();
    c.logical_height = 0;
    assert_eq!(modes(&c, 60).unwrap_err(), ModeError::InvalidLogicalResolution);
    let mut c = ipad();
    c.physical_width = 4094;
    c.physical_height = 4094;
    assert_eq!(modes(&c, 60).unwrap_err(), ModeError::TimingLimit);
    let mut c = ipad();
    c.max_fps = 45;
    assert!(modes(&c, 60).unwrap().iter().all(|m| m.fps == 45));
}

#[test]
fn preferred_takes_first_closest() {
    let a = DisplayMode { width: 1920, height: 1080, fps: 60, scale_percent: 100 };
    let b = DisplayMode { width: 1080, height: 1920, fps: 60, scale_percent: 100 };
    let c = DisplayMode { width: 1280, height: 720, fps: 60, scale_percent: 100 };
    assert_eq!(preferred(&[c, b, a]).unwrap().height, 1920);
    assert!(preferred(&[]).is_none());
}

#[test]
fn physical_keys_and_modifiers() {
    assert_eq!(scan_code(4), Some(0x1e));
    assert_eq!(scan_code(79), Some(0x14d));
    assert_eq!(scan_code(228), Some(0x11d));
    assert_eq!(scan_code(65535), None);
}

#[test]
fn scan_code_ranges() {
    assert_eq!(scan_code(29), Some(0x2c));
    assert_eq!(scan_code(30), Some(2));
    assert_eq!(scan_code(38), Some(10));
    assert_eq!(scan_code(58), Some(59));
    assert_eq!(scan_code(67), Some(68));
    assert_eq!(scan_code(89), Some(0x4f));
    assert_eq!(scan_code(97), Some(0x49));
    assert_eq!(scan_code(50), None);
    assert_eq!(scan_code(231), Some(0x15c));
}

#[test]
fn idr_repeats_parameter_sets() {
    let mut p = ParameterSets::default();
    let initial = [0, 0, 0, 1, 0x67, 0xaa, 0, 0, 1, 0x68, 0xbb, 0, 0, 1, 0x65, 0xcc];
    assert!(p.prepare(&initial).unwrap().1);
    let (next, key) = p.prepare(&[0, 0, 0, 1, 0x65, 0xdd]).unwrap();
    assert!(key);
    assert_eq!(units(&next).unwrap().iter().map(|n| n[0] & 31).collect::<Vec<_>>(), vec![7, 8, 5]);
    assert!(units(&[0, 0, 1]).is_err());
    assert!(units(&[5, 6, 7]).is_err());
}

#[test]
fn idr_gets_only_missing_parameter_set() {
    let mut p = ParameterSets::default();
    let initial = [0, 0, 0, 1, 0x67, 0xaa, 0, 0, 1, 0x68, 0xbb, 0, 0, 1, 0x65, 0xcc];
    p.prepare(&initial).unwrap();
    // A new SPS arrives with the IDR; only the remembered PPS is put in front.
    let (out, key) = p.prepare(&[0, 0, 1, 0x67, 0x11, 0, 0, 1, 0x65, 0xee]).unwrap();
    assert!(key);
    assert_eq!(out, vec![0, 0, 0, 1, 0x68, 0xbb, 0, 0, 1, 0x67, 0x11, 0, 0, 1, 0x65, 0xee]);
    let (out, _) = p.prepare(&[0, 0, 0, 1, 0x65, 0x01]).unwrap();
    assert_eq!(out, vec![0, 0, 0, 1, 0x67, 0x11, 0, 0, 0, 1, 0x68, 0xbb, 0, 0, 0, 1, 0x65, 0x01]);
    // A non-IDR unit passes through unchanged.
    let (out, key) = p.prepare(&[0, 0, 1, 0x41, 0x9a]).unwrap();
    assert!(!key);
    assert_eq!(out, vec![0, 0, 1, 0x41, 0x9a]);
    // An IDR before any parameter set is refused.
    let mut fresh = ParameterSets::default();
    assert_eq!(fresh.prepare(&[0, 0, 1, 0x65, 0x01]).unwrap_err(), H264Error::MissingParameterSets);
}

#[test]
fn idr_after_zero_ending_pps_still_splits() {
    let mut p = ParameterSets::default();
    // The PPS is the access unit's last unit and ends with a zero byte.
    p.prepare(&[0, 0, 0, 1, 0x67, 0xaa, 0, 0, 1, 0x68, 0xbb, 0]).unwrap();
    let (out, key) = p.prepare(&[0, 0, 1, 0x65, 0x11]).unwrap();
    assert!(key);
    let types: Vec<u8> = units(&out).unwrap().iter().map(|n| n[0] & 31).collect();
    assert_eq!(types, vec![7, 8, 5]);
}

#[test]
fn units_split_framed_units_back() {
    let framed = [0, 0, 0, 1, 0x67, 0, 0, 0, 0, 1, 0x68, 0, 0, 0, 0, 0, 1, 0x65, 9, 0];
    let got: Vec<Vec<u8>> = units(&framed).unwrap().iter().map(|n| n.to_vec()).collect();
    assert_eq!(got, vec![vec![0x67, 0], vec![0x68, 0, 0], vec![0x65, 9, 0]]);
}

#[test]
fn access_unit_errors() {
    assert_eq!(units(&[0, 0, 1, 0, 0, 1, 5]).unwrap_err(), H264Error::EmptyNal);
    assert_eq!(units(&[1, 2]).unwrap_err(), H264Error::InvalidAccessUnit);
    let mut p = ParameterSets::default();
    assert_eq!(p.prepare(&[0, 0, 1, 0x65, 1]).unwrap_err(), H264Error::MissingParameterSets);
    let (out, key) = p.prepare(&[0, 0, 1, 0x41, 1]).unwrap();
    assert!(!key);
    assert_eq!(out, vec![0, 0, 1, 0x41, 1]);
    let u = units(&[9, 0, 0, 0, 1, 0x67, 0, 0, 1, 0x68, 2]).unwrap();
    assert_eq!(u, vec![&[0x67u8][..], &[0x68u8, 2][..]]);
}

#[test]
fn drops_quality_under_loss() {
    let t0 = 100 * SECOND;
    let mut a = AdaptiveBitrate::new(12_000_000, 2_000_000, 30_000_000, t0);
    let s = Statistics {
        fps: 60f32.to_bits(),
        bitrate: 0,
        rtt_us: 100_000,
        loss_ppm: 0,
        decode_queue: 0,
        dropped_frames: 0,
        received_bytes: 0,
        decode_us: 0,
        render_us: 0,
        estimated_latency_us: 0,
    };
    assert_eq!(a.update(&s, t0 + 2 * SECOND), Some(9_000_000));
}

#[test]
fn bitrate_grows_after_five_healthy_samples() {
    let t0 = 0;
    let mut a = AdaptiveBitrate::new(10_000_000, 2_000_000, 10_400_000, t0);
    let s = Statistics {
        fps: 60f32.to_bits(),
        bitrate: 0,
        rtt_us: 5_000,
        loss_ppm: 0,
        decode_queue: 0,
        dropped_frames: 0,
        received_bytes: 0,
        decode_us: 0,
        render_us: 0,
        estimated_latency_us: 0,
    };
    assert_eq!(a.update(&s, t0 + SECOND / 2), None);
    for i in 1..5 {
        assert_eq!(a.update(&s, t0 + i * SECOND), None);
    }
    assert_eq!(a.update(&s, t0 + 5 * SECOND), Some(10_400_000));
    assert_eq!(a.current, 10_400_000);
    let mut low = AdaptiveBitrate::new(2_100_000, 2_000_000, 30_000_000, 0);
    let bad = Statistics { loss_ppm: 50_000, ..s };
    assert_eq!(low.update(&bad, SECOND), Some(2_000_000));
}

#[test]
fn retry_is_bounded() {
    let t = 10 * SECOND;
    let mut r = Reconciler::new(t);
    for i in 0..3 {
        let now = t + i * SECOND;
        assert!(r.ready(now));
        r.result(now, false)
    }
    assert!(!r.ready(t + 9 * SECOND));
}

#[test]
fn change_after_failure_is_debounced() {
    let mut r = Reconciler::new(0);
    r.result(SECOND, false);
    r.changed(SECOND + 100_000);
    assert!(!r.ready(SECOND + 200_000));
    r.changed(2 * SECOND);
    assert!(!r.ready(2 * SECOND + 199_999));
    assert!(r.ready(2 * SECOND + 200_000));
    r.result(3 * SECOND, true);
    assert!(!r.ready(4 * SECOND));
}

#[test]
fn adjacent_sides() {
    let anchor = Bounds { x: 0, y: 0, width: 1920, height: 1080 };
    assert_eq!(Bounds::adjacent(anchor, 1600, 900, Position::Left), Bounds { x: -1600, y: 0, width: 1600, height: 900 });
    assert_eq!(Bounds::adjacent(anchor, 1600, 900, Position::Right).x, 1920);
    assert_eq!(Bounds::adjacent(anchor, 1600, 900, Position::Above).y, -900);
    assert_eq!(Bounds::adjacent(anchor, 1600, 900, Position::Below).y, 1080);
}

#[test]
fn placement_follows_anchor_and_request() {
    let side = Bounds { x: -1280, y: 0, width: 1280, height: 1024 };
    let main = Bounds { x: 0, y: 0, width: 1920, height: 1080 };
    // The display at the origin anchors, even when listed second.
    let p = placement(&[side, main], None, false, Position::Right, false, None).unwrap();
    assert_eq!(p.desired, Bounds { x: 1920, y: 0, width: 1920, height: 1080 });
    assert_eq!((p.fps, p.matched, p.reset_mode), (60, false, true));
    assert_eq!(p.target, p.desired);
    // Without one at the origin, the first anchors; the current size is kept.
    let far = Bounds { x: 100, y: 50, width: 800, height: 600 };
    let current = Bounds { x: 100, y: -650, width: 1366, height: 700 };
    let p = placement(&[far, side], Some(current), true, Position::Above, false, None).unwrap();
    assert_eq!(p.desired, current);
    assert!(p.matched);
    assert!(!p.reset_mode);
    // A requested mode always resets the target mode and is never already matched.
    let p = placement(&[main], Some(current), true, Position::Left, false, Some((1600, 1000, 30))).unwrap();
    assert_eq!(p.desired, Bounds { x: -1600, y: 0, width: 1600, height: 1000 });
    assert_eq!((p.fps, p.matched, p.reset_mode), (30, false, true));
    // Becoming primary moves the display to the origin.
    let p = placement(&[main], Some(Bounds { x: 1920, y: 0, width: 1280, height: 800 }), true, Position::Right, true, None).unwrap();
    assert_eq!(p.target, Bounds { x: 0, y: 0, width: 1280, height: 800 });
    assert!(!p.matched);
    assert!(!p.reset_mode);
    assert_eq!(placement(&[], None, false, Position::Right, false, None), Err(TopologyError::NoAnchor));
    let edge = Bounds { x: i32::MAX - 10, y: 0, width: 1920, height: 1080 };
    assert_eq!(placement(&[edge], None, false, Position::Right, false, None), Err(TopologyError::Overflow));
    assert!(settled(true, Some(main), main, None));
    assert!(!settled(true, Some(main), main, Some((1920, 1080, 60))));
    assert!(!settled(false, Some(main), main, None));
    assert!(!settled(true, None, main, None));
}

#[test]
fn config_limits() {
    let c = Config::default();
    assert!(c.validate().is_ok());
    assert_eq!(c.port, 47736);
    let mut bad = c;
    bad.video.fps = 75;
    assert_eq!(bad.validate().unwrap_err(), ConfigError::Fps);
    let mut bad = c;
    bad.port = 80;
    assert_eq!(bad.validate().unwrap_err(), ConfigError::Port);
    let mut bad = c;
    bad.display.reconnect_grace_ms = 20_000;
    assert_eq!(bad.validate().unwrap_err(), ConfigError::Grace);
    let mut bad = c;
    bad.video.min_bitrate = 40_000_000;
    assert_eq!(bad.validate().unwrap_err(), ConfigError::Bitrate);
}

#[test]
fn proof_binds_certificate_nonce_and_role() {
    let key = [3; 32];
    let nonce = [4; 32];
    let id = [1; 16];
    let p = pairing_proof(&key, b"cert", &id, &nonce, 1).unwrap();
    assert!(verify(&key, b"cert", &id, &nonce, 1, &p).is_ok());
    assert!(verify(&key, b"mitm", &id, &nonce, 1, &p).is_err());
    assert!(verify(&key, b"cert", &id, &nonce, 2, &p).is_err());
    assert!(verify(&key, b"cert", &id, &[5; 32], 1, &p).is_err());
}

fn hex_of(b: &[u8]) -> String {
    b.iter().map(|x| format!("{x:02x}")).collect()
}

#[test]
fn proof_matches_hmac_sha256_reference() {
    let key = [3; 32];
    let p = pairing_proof(&key, b"cert", &[1; 16], &[4; 32], 1).unwrap();
    assert_eq!(hex_of(&p), "e064ccc0f034e81b6eb8c31c2236bb710ee28b5599b2830c506f0ffd4fcdcded");
    let p = pairing_proof(&key, b"cert", &[1; 16], &[4; 32], 2).unwrap();
    assert_eq!(hex_of(&p), "8af4584bdded297d84de611bbee15fd143af7f189ecafff3db7bda6bcf280393");
}

#[test]
fn verify_checks_context_first() {
    let p = pairing_proof(&[3; 8], b"cert", &[1; 16], &[4; 32], 1).unwrap();
    assert_eq!(p.len(), 32);
    assert_eq!(verify(&[3; 8], b"cert", &[1; 16], &[4; 32], 1, &p).unwrap_err(), PairingError::InvalidContext);
    assert_eq!(verify(&[3; 16], b"cert", &[1; 15], &[4; 32], 1, &p).unwrap_err(), PairingError::InvalidContext);
    assert_eq!(verify(&[3; 16], b"cert", &[1; 16], &[4; 32], 1, &p).unwrap_err(), PairingError::BadProof);
}

#[test]
fn identity_from_stored_text() {
    let host = "0102030405060708090a0b0c0d0e0f10";
    let devices = vec![
        ("07070707070707070707070707070707".to_string(), "ab01".to_string()),
        ("08080808080808080808080808080808".to_string(), "CD".to_string()),
    ];
    let id = Identity::from_stored(host, "aabb", "01", devices.clone()).unwrap();
    assert_eq!(id.host_id, [1, 2, 3, 4, 5, 6, 7, 8, 9, 10, 11, 12, 13, 14, 15, 16]);
    assert_eq!((id.cert.clone(), id.key.clone()), (vec![0xaa, 0xbb], vec![1]));
    assert_eq!(id.entries(), &devices);
    assert_eq!(id.trusted(&[8; 16]).unwrap(), Some(vec![0xcd]));
    assert_eq!(Identity::from_stored("0g", "", "", vec![]).err(), Some(PairingError::InvalidStoredHex));
    assert_eq!(Identity::from_stored("0102", "", "", vec![]).err(), Some(PairingError::InvalidHostIdentity));
    assert_eq!(Identity::from_stored(host, "abc", "", vec![]).err(), Some(PairingError::InvalidStoredHex));
    assert_eq!(Identity::from_stored(host, "", "zz", vec![]).err(), Some(PairingError::InvalidStoredHex));
}

#[test]
fn trusted_devices_roundtrip() {
    let mut id = Identity::new([2; 16], vec![1], vec![2]);
    assert_eq!(id.trusted(&[7; 16]).unwrap(), None);
    id.trust(&[7; 16], &[0xab, 0x01]).unwrap();
    assert_eq!(id.trusted(&[7; 16]).unwrap(), Some(vec![0xab, 0x01]));
    assert_eq!(id.entries()[0], ("07070707070707070707070707070707".to_string(), "ab01".to_string()));
    id.trust(&[7; 16], &[0xcd]).unwrap();
    assert_eq!(id.entries().len(), 1);
    assert_eq!(id.trusted(&[7; 16]).unwrap(), Some(vec![0xcd]));
    id.restore("08080808080808080808080808080808".to_string(), "zz".to_string());
    assert_eq!(id.trusted(&[8; 16]).unwrap_err(), PairingError::InvalidStoredKey);
    id.forget_all();
    assert!(id.entries().is_empty());
    for i in 0..64u8 {
        id.trust(&[i; 16], &[i]).unwrap();
    }
    assert_eq!(id.trust(&[200; 16], &[1]).unwrap_err(), PairingError::DeviceLimit);
    assert_eq!(id.trust(&[5; 16], &[1]).unwrap_err(), PairingError::DeviceLimit);
}
