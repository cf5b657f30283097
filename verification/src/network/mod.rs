//! Control-stream framing and sequencing, and the fragmentation of video frames
//! into datagrams. The QUIC transport itself lives outside the library.
use crate::protocol::{
    enc_bytes, enc_u16, enc_u32, enc_u64, enc_u8, magic, packet_bytes, parse_u32, Packet,
    PacketView, ProtocolError, ReplayGuard, VideoFragment, VideoFragmentView, VideoFrame, Wire,
    HEADER, MAX_CONTROL, MAX_DATAGRAM, MAX_FRAME,
};
use vstd::prelude::*;

verus! {

/// Bytes a fragment packet needs besides its data: the packet header, the fragment
/// fields and the data's length prefix.
pub const FRAGMENT_OVERHEAD: usize = HEADER + 4 + 8 * 4 + 1 + 2 + 2 + 4 + 4;

/// Most data bytes in one fragment.
pub const MAX_FRAGMENT_DATA: usize = 1100;

/// Most fragments of one frame.
pub const MAX_FRAGMENTS: usize = 4096;

/// Frames captured longer ago than this (microseconds) are not sent.
pub const STALE_US: u64 = 80_000;

/// Whether two session tokens are equal.
pub fn same_token(a: &[u8; 16], b: &[u8; 16]) -> (r: bool)
    ensures
        r == (a@ == b@),
{
    let mut i: usize = 0;
    while i < 16
        invariant
            0 <= i <= 16,
            a@.len() == 16,
            b@.len() == 16,
            forall|j: int| 0 <= j < i ==> a@[j] == b@[j],
        decreases 16 - i,
    {
        if a[i] != b[i] {
            assert(a@[i as int] != b@[i as int]);
            return false;
        }
        i = i + 1;
    }
    assert(a@ =~= b@);
    true
}

/// What a reliable stream may carry after a packet header: the body length, when the
/// header starts a packet and the packet fits `MAX_CONTROL`.
pub open spec fn control_body_length_spec(header: Seq<u8>) -> Result<usize, ProtocolError> {
    if header.take(4) != magic() {
        Err(ProtocolError::InvalidFraming)
    } else {
        let n = parse_u32(header.skip(8)).unwrap().0;
        if n > MAX_CONTROL - HEADER {
            Err(ProtocolError::OversizedMessage)
        } else {
            Ok(n as usize)
        }
    }
}

/// The body length announced by a reliable packet header, checked before the body is read.
pub fn control_body_length(header: &[u8; HEADER]) -> (r: Result<usize, ProtocolError>)
    ensures
        r == control_body_length_spec(header@),
{
    if !(header[0] == 0x53 && header[1] == 0x44 && header[2] == 0x4f && header[3] == 0x53) {
        assert(header@.take(4) != magic()) by {
            if header@.take(4) == magic() {
                assert(header@.take(4)[0] == header@[0]);
                assert(header@.take(4)[1] == header@[1]);
                assert(header@.take(4)[2] == header@[2]);
                assert(header@.take(4)[3] == header@[3]);
            }
        }
        return Err(ProtocolError::InvalidFraming);
    }
    assert(header@.take(4) =~= magic());
    let field = &header.as_slice()[8..12];
    assert(field@ =~= header@.skip(8).take(4));
    let n = vstd::bytes::u32_from_le_bytes(field);
    if n as usize > MAX_CONTROL - HEADER {
        return Err(ProtocolError::OversizedMessage);
    }
    Ok(n as usize)
}

/// Sequence numbers and session token of one reliable control stream.
pub struct ControlState {
    sequence: u64,
    guard: ReplayGuard,
    session: [u8; 16],
}

impl ControlState {
    /// The sequence number of the last packet sent.
    pub closed spec fn sent(&self) -> u64 {
        self.sequence
    }

    /// The sequence number of the last packet accepted.
    pub closed spec fn received(&self) -> u64 {
        self.guard.last()
    }

    /// The session token sent and expected.
    pub closed spec fn token(&self) -> Seq<u8> {
        self.session@
    }

    /// A fresh stream: nothing sent or received, all-zero token.
    pub fn new() -> (c: Self)
        ensures
            c.sent() == 0,
            c.received() == 0,
            c.token() == seq![0u8; 16],
    {
        let c = ControlState { sequence: 0, guard: ReplayGuard::default(), session: [0u8; 16] };
        assert(c.token() =~= seq![0u8; 16]);
        c
    }

    pub fn session(&self) -> (s: [u8; 16])
        ensures
            s@ == self.token(),
    {
        self.session
    }

    /// Whether another packet can be numbered.
    pub fn can_send(&self) -> (r: bool)
        ensures
            r == (self.sent() < u64::MAX),
    {
        self.sequence < u64::MAX
    }

    /// Switches to the token of an authenticated session.
    pub fn set_session(&mut self, token: [u8; 16])
        ensures
            final(self).token() == token@,
            final(self).sent() == old(self).sent(),
            final(self).received() == old(self).received(),
    {
        self.session = token;
    }

    /// The bytes of the next outgoing control packet. The sequence number advances
    /// even when the packet is too large to send.
    pub fn outgoing<T: Wire>(&mut self, v: &T) -> (r: Result<Vec<u8>, ProtocolError>)
        requires
            old(self).sent() < u64::MAX,
        ensures
            final(self).sent() == old(self).sent() + 1,
            final(self).received() == old(self).received(),
            final(self).token() == old(self).token(),
            ({
                let p = PacketView {
                    kind: T::spec_kind(),
                    sequence: final(self).sent(),
                    session: old(self).token(),
                    body: T::encoding(v@),
                };
                if packet_bytes(p).len() > MAX_CONTROL {
                    r == Err::<Vec<u8>, ProtocolError>(ProtocolError::ControlTooLarge)
                } else {
                    r matches Ok(b) && b@ == packet_bytes(p)
                }
            }),
    {
        self.sequence = self.sequence + 1;
        let b = Packet::new(v, self.sequence, self.session).encode();
        if b.len() > MAX_CONTROL {
            return Err(ProtocolError::ControlTooLarge);
        }
        Ok(b)
    }

    /// Accepts an incoming control packet: its sequence number must increase (the
    /// replay guard advances before the token is compared) and its token must match.
    pub fn incoming(&mut self, p: &Packet) -> (r: Result<(), ProtocolError>)
        ensures
            final(self).sent() == old(self).sent(),
            final(self).token() == old(self).token(),
            p.sequence <= old(self).received() ==> r == Err::<(), ProtocolError>(
                ProtocolError::Replayed,
            ) && final(self).received() == old(self).received(),
            p.sequence > old(self).received() ==> final(self).received() == p.sequence && r == if p.session@
                == old(self).token() {
                Ok::<(), ProtocolError>(())
            } else {
                Err(ProtocolError::SessionMismatch)
            },
    {
        self.guard.accept(p.sequence)?;
        if !same_token(&p.session, &self.session) {
            return Err(ProtocolError::SessionMismatch);
        }
        Ok(())
    }
}

/// The smaller of two integers.
pub open spec fn min_nat(a: int, b: int) -> int {
    if a <= b {
        a
    } else {
        b
    }
}

/// Fragment size and count for a frame of `len` bytes over datagrams of at most
/// `max_datagram` bytes (`None` when the peer has no datagrams).
pub open spec fn fragment_plan_spec(len: int, max_datagram: Option<usize>) -> Result<
    (usize, usize),
    ProtocolError,
> {
    if len > MAX_FRAME {
        Err(ProtocolError::FrameTooLarge)
    } else {
        match max_datagram {
            None => Err(ProtocolError::NoDatagrams),
            Some(d) => {
                let mtu = min_nat(d as int, MAX_DATAGRAM as int);
                if mtu <= FRAGMENT_OVERHEAD {
                    Err(ProtocolError::MtuTooSmall)
                } else {
                    let chunk = min_nat(mtu - FRAGMENT_OVERHEAD, MAX_FRAGMENT_DATA as int);
                    let count = (len + chunk - 1) / chunk;
                    if count == 0 || count > MAX_FRAGMENTS {
                        Err(ProtocolError::FragmentCount)
                    } else {
                        Ok((chunk as usize, count as usize))
                    }
                }
            },
        }
    }
}

/// Chooses the fragment size and count for a frame.
pub fn fragment_plan(len: usize, max_datagram: Option<usize>) -> (r: Result<
    (usize, usize),
    ProtocolError,
>)
    ensures
        r == fragment_plan_spec(len as int, max_datagram),
{
    if len > MAX_FRAME {
        return Err(ProtocolError::FrameTooLarge);
    }
    let d = match max_datagram {
        Some(d) => d,
        None => {
            return Err(ProtocolError::NoDatagrams);
        },
    };
    let mtu = if d <= MAX_DATAGRAM {
        d
    } else {
        MAX_DATAGRAM
    };
    if mtu <= FRAGMENT_OVERHEAD {
        return Err(ProtocolError::MtuTooSmall);
    }
    let room = mtu - FRAGMENT_OVERHEAD;
    let chunk = if room <= MAX_FRAGMENT_DATA {
        room
    } else {
        MAX_FRAGMENT_DATA
    };
    let count = (len + chunk - 1) / chunk;
    if count == 0 || count > MAX_FRAGMENTS {
        return Err(ProtocolError::FragmentCount);
    }
    Ok((chunk, count))
}

/// Whether a frame captured at `capture` is too old to send at `now`.
pub fn stale(now: u64, capture: u64) -> (r: bool)
    ensures
        r == (now > capture && now - capture > 80_000),
{
    let age = if now >= capture {
        now - capture
    } else {
        0
    };
    age > STALE_US
}

/// The data of fragment `index` of `data` cut into pieces of `chunk` bytes.
pub open spec fn fragment_data(data: Seq<u8>, chunk: int, index: int) -> Seq<u8> {
    data.subrange(index * chunk, min_nat((index + 1) * chunk, data.len() as int))
}

/// Fragment `index` of `count` of a frame, stamped with its send time.
pub fn fragment(
    f: &VideoFrame,
    index: usize,
    chunk: usize,
    count: usize,
    send_timestamp: u64,
) -> (v: VideoFragment)
    requires
        0 < chunk,
        index < count <= MAX_FRAGMENTS,
        count == (f.data@.len() + chunk - 1) / (chunk as int),
        f.data@.len() <= MAX_FRAME,
    ensures
        v.generation == f.generation,
        v.frame_id == f.frame_id,
        v.capture_timestamp == f.capture_timestamp,
        v.encode_timestamp == f.encode_timestamp,
        v.send_timestamp == send_timestamp,
        v.keyframe == f.keyframe,
        v.index == index,
        v.count == count,
        v.total_bytes == f.data@.len(),
        v.data@ == fragment_data(f.data@, chunk as int, index as int),
        v.data@.len() <= chunk,
{
    let len = f.data.len();
    assert(index * chunk < len) by (nonlinear_arith)
        requires
            index < count,
            count == (len + chunk - 1) / (chunk as int),
            chunk > 0,
    {
        assert(count * chunk <= len + chunk - 1);
        assert((index + 1) * chunk <= count * chunk);
    }
    let start = index * chunk;
    let end = if len - start <= chunk {
        len
    } else {
        start + chunk
    };
    assert(end == min_nat((index + 1) * chunk, len as int)) by (nonlinear_arith)
        requires
            start == index * chunk,
            end == if len - start <= chunk {
                len as int
            } else {
                start + chunk
            },
    ;
    let piece = &f.data.as_slice()[start..end];
    VideoFragment {
        generation: f.generation,
        frame_id: f.frame_id,
        capture_timestamp: f.capture_timestamp,
        encode_timestamp: f.encode_timestamp,
        send_timestamp,
        keyframe: f.keyframe,
        index: index as u16,
        count: count as u16,
        total_bytes: len as u32,
        data: vstd::slice::slice_to_vec(piece),
    }
}

/// A fragment packet carrying at most `chunk` data bytes, with `chunk` chosen by
/// `fragment_plan`, fits the datagram size it was planned for.
pub proof fn lemma_fragment_fits(v: VideoFragmentView, sequence: u64, session: Seq<u8>, mtu: int)
    requires
        session.len() == 16,
        FRAGMENT_OVERHEAD + v.data.len() <= mtu,
    ensures
        packet_bytes(
            PacketView {
                kind: VideoFragment::spec_kind(),
                sequence,
                session,
                body: VideoFragment::encoding(v),
            },
        ).len() <= mtu,
{
    vstd::bytes::lemma_auto_spec_u16_to_from_le_bytes();
    vstd::bytes::lemma_auto_spec_u32_to_from_le_bytes();
    vstd::bytes::lemma_auto_spec_u64_to_from_le_bytes();
    assert(enc_u8(v.keyframe).len() == 1);
    assert(enc_u16(v.index).len() == 2);
    assert(enc_u32(v.generation).len() == 4);
    assert(enc_u64(v.frame_id).len() == 8);
    assert(enc_bytes(v.data).len() == 4 + v.data.len());
    let body = VideoFragment::encoding(v);
    assert(body.len() == 4 + 8 * 4 + 1 + 2 + 2 + 4 + 4 + v.data.len());
    let p = PacketView { kind: VideoFragment::spec_kind(), sequence, session, body };
    crate::protocol::lemma_packet_len(p);
}

/// Putting the fragments of a frame back together in index order gives the frame.
pub proof fn lemma_fragments_reassemble(data: Seq<u8>, chunk: int)
    requires
        chunk > 0,
    ensures
        Seq::new(
            ((data.len() + chunk - 1) / chunk) as nat,
            |i: int| fragment_data(data, chunk, i),
        ).flatten() == data,
{
    let count = (data.len() + chunk - 1) / chunk;
    lemma_prefix_reassembly(data, chunk, count);
    assert(count * chunk >= data.len()) by (nonlinear_arith)
        requires
            count == (data.len() + chunk - 1) / chunk,
            chunk > 0,
    ;
    assert(data.subrange(0, data.len() as int) =~= data);
}

proof fn lemma_prefix_reassembly(data: Seq<u8>, chunk: int, k: int)
    requires
        chunk > 0,
        0 <= k <= (data.len() + chunk - 1) / chunk,
    ensures
        Seq::new(k as nat, |i: int| fragment_data(data, chunk, i)).flatten() == data.subrange(
            0,
            min_nat(k * chunk, data.len() as int),
        ),
    decreases k,
{
    let count = (data.len() + chunk - 1) / chunk;
    let s = Seq::new(k as nat, |i: int| fragment_data(data, chunk, i));
    if k == 0 {
        assert(s =~= Seq::<Seq<u8>>::empty());
        assert(data.subrange(0, 0) =~= Seq::<u8>::empty());
    } else {
        lemma_prefix_reassembly(data, chunk, k - 1);
        let s0 = Seq::new((k - 1) as nat, |i: int| fragment_data(data, chunk, i));
        assert(s =~= s0.push(fragment_data(data, chunk, k - 1)));
        s0.lemma_flatten_push(fragment_data(data, chunk, k - 1));
        assert((k - 1) * chunk < data.len()) by (nonlinear_arith)
            requires
                k <= count,
                count == (data.len() + chunk - 1) / chunk,
                chunk > 0,
                k >= 1,
        {
            assert(count * chunk <= data.len() + chunk - 1);
            assert(k * chunk <= count * chunk);
        }
        assert((k - 1) * chunk + chunk == k * chunk) by (nonlinear_arith);
        assert(data.subrange(0, min_nat(k * chunk, data.len() as int)) =~= data.subrange(
            0,
            (k - 1) * chunk,
        ) + fragment_data(data, chunk, k - 1));
    }
}

} // verus!
