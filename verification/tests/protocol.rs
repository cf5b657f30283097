use sidecardos_host::protocol::{
    negotiate, Packet, Ping, Pong, ProtocolError, Reader, ReplayGuard, VideoFragment, Writer,
    MAX_CONTROL, MAX_DATAGRAM,
};

#[test]
fn roundtrip_and_limits() {
    let p = Packet::new(&Ping { client_timestamp: 42 }, 1, [7; 16]);
    let b = p.encode();
    assert_eq!(
        Packet::decode(&b, MAX_CONTROL).unwrap().message::<Ping>().unwrap().client_timestamp,
        42
    );
    for n in 0..b.len() {
        assert!(Packet::decode(&b[..n], MAX_CONTROL).is_err())
    }
    let mut bad = b;
    bad[8] = 255;
    assert!(Packet::decode(&bad, MAX_CONTROL).is_err());
}

#[test]
fn version_and_replay() {
    assert!(negotiate(2, 3, 0).is_err());
    assert_eq!(negotiate(1, 2, 9).unwrap(), (1, 0));
    let mut g = ReplayGuard::default();
    assert!(g.accept(1).is_ok());
    assert!(g.accept(1).is_err());
    assert!(g.accept(0).is_err());
}

#[test]
fn replay_refused_after_later_accepts() {
    let mut g = ReplayGuard::default();
    assert!(g.accept(5).is_ok());
    assert!(g.accept(9).is_ok());
    assert_eq!(g.accept(7), Err(ProtocolError::Replayed));
    assert_eq!(g.accept(5), Err(ProtocolError::Replayed));
    assert!(g.accept(10).is_ok());
}

#[test]
fn malicious_fields() {
    let mut r = Reader::new(&[255; 4]);
    assert!(r.bytes().is_err());
    let b = f32::NAN.to_le_bytes();
    assert!(Reader::new(&b).f32_bits().is_err());
}

#[test]
fn header_layout_is_little_endian() {
    let p = Packet { kind: 0x0102, sequence: 0x0807060504030201, session: [9; 16], body: vec![0xaa, 0xbb] };
    let b = p.encode();
    assert_eq!(b.len(), 38);
    assert_eq!(&b[..4], b"SDOS");
    assert_eq!(b[4], 1);
    assert_eq!(b[5], 0);
    assert_eq!(&b[6..8], &[0x02, 0x01]);
    assert_eq!(&b[8..12], &[2, 0, 0, 0]);
    assert_eq!(&b[12..20], &[1, 2, 3, 4, 5, 6, 7, 8]);
    assert_eq!(&b[20..36], &[9; 16]);
    assert_eq!(&b[36..], &[0xaa, 0xbb]);
}

#[test]
fn decode_reports_each_header_fault() {
    let b = Packet::new(&Ping { client_timestamp: 1 }, 3, [1; 16]).encode();
    assert_eq!(Packet::decode(&b, b.len() - 1).unwrap_err(), ProtocolError::PacketLength);
    let mut magic = b.clone();
    magic[0] = b'X';
    assert_eq!(Packet::decode(&magic, MAX_CONTROL).unwrap_err(), ProtocolError::BadMagic);
    let mut major = b.clone();
    major[4] = 2;
    assert_eq!(Packet::decode(&major, MAX_CONTROL).unwrap_err(), ProtocolError::UnsupportedMajor);
    let mut minor = b.clone();
    minor[5] = 7;
    assert!(Packet::decode(&minor, MAX_CONTROL).is_ok());
    let mut trailing = b.clone();
    trailing.push(0);
    assert_eq!(
        Packet::decode(&trailing, MAX_CONTROL).unwrap_err(),
        ProtocolError::BodyLengthMismatch
    );
}

#[test]
fn message_rejects_wrong_kind_and_trailing_bytes() {
    let p = Packet::new(&Ping { client_timestamp: 5 }, 1, [0; 16]);
    assert_eq!(p.message::<Pong>().unwrap_err(), ProtocolError::UnexpectedKind);
    let mut q = Packet::new(&Ping { client_timestamp: 5 }, 1, [0; 16]);
    q.body.push(1);
    assert_eq!(q.message::<Ping>().unwrap_err(), ProtocolError::TrailingPayload);
    let mut r = Packet::new(&Pong { client_timestamp: 5, host_receive: 6, host_send: 7 }, 1, [0; 16]);
    r.body.pop();
    assert_eq!(r.message::<Pong>().unwrap_err(), ProtocolError::Truncated);
}

#[test]
fn fragment_roundtrip_within_datagram() {
    let f = VideoFragment {
        generation: 3,
        frame_id: 9,
        capture_timestamp: 10,
        encode_timestamp: 11,
        send_timestamp: 12,
        keyframe: 1,
        index: 0,
        count: 2,
        total_bytes: 2200,
        data: vec![42; 1100],
    };
    let b = Packet::new(&f, 0, [7; 16]).encode();
    assert!(b.len() <= MAX_DATAGRAM);
    let back = Packet::decode(&b, MAX_DATAGRAM).unwrap().message::<VideoFragment>().unwrap();
    assert_eq!(back, f);
}

#[test]
fn reader_fields_and_limits() {
    let mut w = Writer::default();
    w.u16(0xbeef);
    w.i32(-2);
    w.u64(u64::MAX);
    w.string("héllo");
    w.f32_bits(1.5f32.to_bits());
    let mut r = Reader::new(&w.0);
    assert_eq!(r.u16().unwrap(), 0xbeef);
    assert_eq!(r.i32().unwrap(), -2);
    assert_eq!(r.u64().unwrap(), u64::MAX);
    assert_eq!(r.string().unwrap(), "héllo");
    assert_eq!(f32::from_bits(r.f32_bits().unwrap()), 1.5);
    assert!(r.finish().is_ok());
    assert_eq!(r.u8().unwrap_err(), ProtocolError::Truncated);

    let mut big = Writer::default();
    big.u32(2 * 1024 * 1024 + 1);
    assert_eq!(Reader::new(&big.0).bytes().unwrap_err(), ProtocolError::FieldTooLarge);
    let mut long = Writer::default();
    long.string(&"x".repeat(1025));
    assert_eq!(Reader::new(&long.0).string().unwrap_err(), ProtocolError::StringTooLong);
    let mut bad = Writer::default();
    bad.bytes(&[0xff, 0xfe]);
    assert_eq!(Reader::new(&bad.0).string().unwrap_err(), ProtocolError::InvalidUtf8);
    let inf = f32::INFINITY.to_bits().to_le_bytes();
    assert_eq!(Reader::new(&inf).f32_bits().unwrap_err(), ProtocolError::NonFinite);
}
