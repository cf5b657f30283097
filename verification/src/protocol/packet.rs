//! The message trait and the packet envelope around a message payload.
use super::wire::{
    enc_u16, enc_u32, enc_u64, enc_u8, parse_u16, parse_u32, parse_u64, parse_u8, ProtocolError,
    Reader, Writer, HEADER, MAJOR, MINOR,
};
use vstd::prelude::*;

verus! {

/// A message with a fixed kind and a payload of fields in schema order.
pub trait Wire: Sized + View {
    /// The message kind carried in the packet header.
    spec fn spec_kind() -> u16;

    /// The payload bytes of a message.
    spec fn encoding(v: Self::V) -> Seq<u8>;

    /// A message whose fields respect the protocol limits, so that a reader accepts it.
    spec fn encodable(v: Self::V) -> bool;

    /// Reading a payload from its front: the message and the bytes after it.
    spec fn parse(s: Seq<u8>) -> Result<(Self::V, Seq<u8>), ProtocolError>;

    fn kind() -> (k: u16)
        ensures
            k == Self::spec_kind(),
    ;

    fn write(&self, w: &mut Writer)
        ensures
            final(w)@ == old(w)@ + Self::encoding(self@),
    ;

    fn read(r: &mut Reader) -> (res: Result<Self, ProtocolError>)
        ensures
            final(r).data() == old(r).data(),
            old(r).position() <= final(r).position(),
            match Self::parse(old(r).remaining()) {
                Ok((v, rest)) => res matches Ok(m) && m@ == v && final(r).remaining() == rest,
                Err(e) => res matches Err(x) && x == e,
            },
    ;

    /// A reader gives back every encodable message that a writer wrote.
    proof fn lemma_roundtrip(v: Self::V, rest: Seq<u8>)
        requires
            Self::encodable(v),
        ensures
            Self::parse(Self::encoding(v) + rest) == Ok::<(Self::V, Seq<u8>), ProtocolError>(
                (v, rest),
            ),
    ;
}

/// The four magic bytes `SDOS` that open every packet.
pub open spec fn magic() -> Seq<u8> {
    seq![0x53u8, 0x44u8, 0x4fu8, 0x53u8]
}

/// The header fields and the payload of a packet.
pub struct PacketView {
    pub kind: u16,
    pub sequence: u64,
    pub session: Seq<u8>,
    pub body: Seq<u8>,
}

/// The bytes of a packet: magic, version, kind, body length, sequence, token, body.
pub open spec fn packet_bytes(p: PacketView) -> Seq<u8> {
    magic() + enc_u8(MAJOR) + enc_u8(MINOR) + enc_u16(p.kind) + enc_u32(p.body.len() as u32)
        + enc_u64(p.sequence) + p.session + p.body
}

/// What `Packet::decode` accepts of `data` under a length limit, and what it rejects it for.
pub open spec fn decode_spec(data: Seq<u8>, limit: int) -> Result<PacketView, ProtocolError> {
    if !(HEADER <= data.len() && data.len() <= limit) {
        Err(ProtocolError::PacketLength)
    } else if data.take(4) != magic() {
        Err(ProtocolError::BadMagic)
    } else if data[4] != MAJOR {
        Err(ProtocolError::UnsupportedMajor)
    } else {
        let kind = parse_u16(data.skip(6)).unwrap().0;
        let n = parse_u32(data.skip(8)).unwrap().0;
        let sequence = parse_u64(data.skip(12)).unwrap().0;
        if n != data.len() - HEADER {
            Err(ProtocolError::BodyLengthMismatch)
        } else {
            Ok(
                PacketView {
                    kind,
                    sequence,
                    session: data.subrange(20, 36),
                    body: data.skip(HEADER as int),
                },
            )
        }
    }
}

/// What `Packet::message` gives for a packet's kind and payload.
pub open spec fn message_spec<T: Wire>(p: PacketView) -> Result<T::V, ProtocolError> {
    if p.kind != T::spec_kind() {
        Err(ProtocolError::UnexpectedKind)
    } else {
        match T::parse(p.body) {
            Ok((v, rest)) => if rest.len() == 0 {
                Ok(v)
            } else {
                Err(ProtocolError::TrailingPayload)
            },
            Err(e) => Err(e),
        }
    }
}

/// A message framed with its kind, sequence number and session token.
#[derive(Debug)]
pub struct Packet {
    pub kind: u16,
    pub sequence: u64,
    pub session: [u8; 16],
    pub body: Vec<u8>,
}

impl View for Packet {
    type V = PacketView;

    open spec fn view(&self) -> PacketView {
        PacketView {
            kind: self.kind,
            sequence: self.sequence,
            session: self.session@,
            body: self.body@,
        }
    }
}

impl Packet {
    /// Frames `msg` with its kind.
    pub fn new<T: Wire>(msg: &T, sequence: u64, session: [u8; 16]) -> (p: Self)
        ensures
            p.kind == T::spec_kind(),
            p.sequence == sequence,
            p.session == session,
            p.body@ == T::encoding(msg@),
    {
        let mut w = Writer::default();
        msg.write(&mut w);
        Packet { kind: T::kind(), sequence, session, body: w.0 }
    }

    /// The wire bytes of the packet.
    pub fn encode(&self) -> (b: Vec<u8>)
        ensures
            b@ == packet_bytes(self@),
    {
        let mut w = Writer::default();
        w.u8(0x53);
        w.u8(0x44);
        w.u8(0x4f);
        w.u8(0x53);
        w.u8(MAJOR);
        w.u8(MINOR);
        w.u16(self.kind);
        w.u32(self.body.len() as u32);
        w.u64(self.sequence);
        let mut i: usize = 0;
        while i < 16
            invariant
                0 <= i <= 16,
                w@ == magic() + enc_u8(MAJOR) + enc_u8(MINOR) + enc_u16(self.kind) + enc_u32(
                    self.body@.len() as u32,
                ) + enc_u64(self.sequence) + self.session@.take(i as int),
            decreases 16 - i,
        {
            w.u8(self.session[i]);
            assert(self.session@.take(i + 1) =~= self.session@.take(i as int).push(
                self.session@[i as int],
            ));
            i = i + 1;
        }
        let mut w = w;
        let mut body = self.body.clone();
        assert(body@ == self.body@);
        w.0.append(&mut body);
        assert(self.session@.take(16) =~= self.session@);
        assert(w@ =~= packet_bytes(self@));
        w.0
    }

    /// Parses and checks a packet of at most `limit` bytes.
    pub fn decode(data: &[u8], limit: usize) -> (res: Result<Self, ProtocolError>)
        ensures
            match decode_spec(data@, limit as int) {
                Ok(v) => res matches Ok(p) && p@ == v,
                Err(e) => res matches Err(x) && x == e,
            },
    {
        if !(data.len() >= HEADER && data.len() <= limit) {
            return Err(ProtocolError::PacketLength);
        }
        let mut r = Reader::new(data);
        let head = r.take(4)?;
        if !(head[0] == 0x53 && head[1] == 0x44 && head[2] == 0x4f && head[3] == 0x53) {
            assert(data@.take(4) != magic()) by {
                if data@.take(4) == magic() {
                    assert(head@ == data@.take(4));
                    assert(head@[0] == 0x53u8 && head@[1] == 0x44u8);
                    assert(head@[2] == 0x4fu8 && head@[3] == 0x53u8);
                }
            }
            return Err(ProtocolError::BadMagic);
        }
        assert(data@.take(4) =~= magic());
        let major = r.u8()?;
        assert(major == data@[4]);
        assert(r.remaining() =~= data@.skip(5));
        if major != MAJOR {
            return Err(ProtocolError::UnsupportedMajor);
        }
        let _minor = r.u8()?;
        assert(r.remaining() =~= data@.skip(6));
        let kind = r.u16()?;
        assert(r.remaining() =~= data@.skip(8));
        let n = r.u32()?;
        assert(r.remaining() =~= data@.skip(12));
        let sequence = r.u64()?;
        assert(r.remaining() =~= data@.skip(20));
        let token = r.take(16)?;
        assert(token@ =~= data@.subrange(20, 36));
        assert(r.remaining() =~= data@.skip(36));
        let mut session = [0u8; 16];
        let mut i: usize = 0;
        while i < 16
            invariant
                0 <= i <= 16,
                token@.len() == 16,
                session@.len() == 16,
                forall|j: int| 0 <= j < i ==> session@[j] == token@[j],
            decreases 16 - i,
        {
            session[i] = token[i];
            i = i + 1;
        }
        assert(session@ =~= token@);
        if n as usize != data.len() - HEADER {
            return Err(ProtocolError::BodyLengthMismatch);
        }
        let body = r.take(n as usize)?;
        assert(body@ =~= data@.skip(36));
        Ok(Packet { kind, sequence, session, body: vstd::slice::slice_to_vec(body) })
    }

    /// The payload as a message of type `T`; the whole payload must be consumed.
    pub fn message<T: Wire>(&self) -> (res: Result<T, ProtocolError>)
        ensures
            match message_spec::<T>(self@) {
                Ok(v) => res matches Ok(m) && m@ == v,
                Err(e) => res matches Err(x) && x == e,
            },
    {
        if self.kind != T::kind() {
            return Err(ProtocolError::UnexpectedKind);
        }
        let mut r = Reader::new(self.body.as_slice());
        let v = T::read(&mut r)?;
        r.finish()?;
        Ok(v)
    }
}

/// The version a host speaking `MAJOR.MINOR` selects from a client's offer.
pub open spec fn negotiate_spec(min: u8, max: u8) -> Result<(u8, u8), ProtocolError> {
    if min > MAJOR || max < MAJOR || min > max {
        Err(ProtocolError::NoCompatibleVersion)
    } else {
        Ok((MAJOR, MINOR))
    }
}

/// Selects `MAJOR.MINOR` when the client's inclusive major range contains it.
pub fn negotiate(min: u8, max: u8, _minor: u8) -> (res: Result<(u8, u8), ProtocolError>)
    ensures
        res == negotiate_spec(min, max),
{
    if min > MAJOR || max < MAJOR || min > max {
        return Err(ProtocolError::NoCompatibleVersion);
    }
    Ok((MAJOR, MINOR))
}

/// Accepts reliable sequence numbers only in strictly increasing order.
pub struct ReplayGuard(u64);

impl ReplayGuard {
    /// The last accepted sequence number (0 before any).
    pub closed spec fn last(&self) -> u64 {
        self.0
    }

    /// Accepts `n` exactly when it exceeds every number accepted before.
    pub fn accept(&mut self, n: u64) -> (res: Result<(), ProtocolError>)
        ensures
            n > old(self).last() ==> res == Ok::<(), ProtocolError>(()) && final(self).last() == n,
            n <= old(self).last() ==> res == Err::<(), ProtocolError>(ProtocolError::Replayed)
                && final(self).last() == old(self).last(),
            res is Ok <==> replay_accepted(old(self).last(), seq![n], 0),
            final(self).last() == replay_last(old(self).last(), seq![n]),
    {
        proof {
            assert(seq![n].drop_last() =~= Seq::<u64>::empty());
            assert(seq![n].take(0) =~= Seq::<u64>::empty());
            reveal_with_fuel(replay_last, 2);
        }
        if n > self.0 {
            self.0 = n;
            Ok(())
        } else {
            Err(ProtocolError::Replayed)
        }
    }
}

impl Default for ReplayGuard {
    fn default() -> (g: Self)
        ensures
            g.last() == 0,
    {
        ReplayGuard(0)
    }
}

/// The last accepted number after a guard that had accepted `start` is offered `ns` in order;
/// each step is the effect of `ReplayGuard::accept` on `last()`.
pub open spec fn replay_last(start: u64, ns: Seq<u64>) -> u64
    decreases ns.len(),
{
    if ns.len() == 0 {
        start
    } else {
        let last = replay_last(start, ns.drop_last());
        if ns.last() > last {
            ns.last()
        } else {
            last
        }
    }
}

/// Whether `ReplayGuard::accept` accepts the `i`-th number offered.
pub open spec fn replay_accepted(start: u64, ns: Seq<u64>, i: int) -> bool {
    ns[i] > replay_last(start, ns.take(i))
}

proof fn lemma_replay_last_grows(start: u64, ns: Seq<u64>, i: int, j: int)
    requires
        0 <= i <= j <= ns.len(),
    ensures
        replay_last(start, ns.take(i)) <= replay_last(start, ns.take(j)),
        start <= replay_last(start, ns.take(j)),
    decreases j - i, j,
{
    if j > 0 {
        assert(ns.take(j).drop_last() =~= ns.take(j - 1));
    }
    if i < j {
        lemma_replay_last_grows(start, ns, i, j - 1);
    } else if j > 0 {
        lemma_replay_last_grows(start, ns, j - 1, j - 1);
    }
}

/// Once a guard accepts a sequence number, it refuses that number and every smaller
/// one on any later call, whatever was offered in between.
pub proof fn lemma_replay_rejected(start: u64, ns: Seq<u64>, i: int, j: int)
    requires
        0 <= i < j < ns.len(),
        replay_accepted(start, ns, i),
        ns[j] <= ns[i],
    ensures
        !replay_accepted(start, ns, j),
{
    assert(ns.take(i + 1).drop_last() =~= ns.take(i));
    assert(replay_last(start, ns.take(i + 1)) == ns[i]);
    lemma_replay_last_grows(start, ns, i + 1, j);
}

/// After a guard that had last accepted `start` is offered `ns`, its last accepted
/// number is the largest of `start` and every number offered, and it is `start` or a
/// number that was accepted. So a guard accepts exactly the numbers above all that it
/// accepted before (and above 0 for a new guard).
pub proof fn lemma_replay_last_is_max(start: u64, ns: Seq<u64>)
    ensures
        start <= replay_last(start, ns),
        forall|i: int| 0 <= i < ns.len() ==> ns[i] <= replay_last(start, ns),
        replay_last(start, ns) == start || exists|i: int|
            0 <= i < ns.len() && replay_accepted(start, ns, i) && ns[i] == replay_last(start, ns),
    decreases ns.len(),
{
    if ns.len() > 0 {
        let init = ns.drop_last();
        lemma_replay_last_is_max(start, init);
        let n = ns.len() - 1;
        assert(ns.take(n) =~= init);
        assert forall|i: int| 0 <= i < ns.len() implies ns[i] <= replay_last(start, ns) by {
            if i < n {
                assert(ns[i] == init[i]);
            }
        }
        if replay_last(start, ns) != start {
            if ns[n] > replay_last(start, init) {
                assert(replay_accepted(start, ns, n));
            } else {
                let i = choose|i: int|
                    0 <= i < init.len() && replay_accepted(start, init, i) && init[i]
                        == replay_last(start, init);
                assert(init.take(i) =~= ns.take(i));
                assert(replay_accepted(start, ns, i));
            }
        }
    }
}

/// A packet's bytes are a header of `HEADER` bytes followed by the body.
pub proof fn lemma_packet_len(p: PacketView)
    requires
        p.session.len() == 16,
    ensures
        packet_bytes(p).len() == HEADER + p.body.len(),
        packet_bytes(p).skip(HEADER as int) == p.body,
{
    vstd::bytes::lemma_auto_spec_u16_to_from_le_bytes();
    vstd::bytes::lemma_auto_spec_u32_to_from_le_bytes();
    vstd::bytes::lemma_auto_spec_u64_to_from_le_bytes();
    assert(enc_u16(p.kind).len() == 2);
    assert(enc_u32(p.body.len() as u32).len() == 4);
    assert(enc_u64(p.sequence).len() == 8);
    assert(packet_bytes(p).skip(HEADER as int) =~= p.body);
}

/// The header of a packet's bytes decodes to the fields it was built from.
proof fn lemma_header_fields(p: PacketView, data: Seq<u8>)
    requires
        p.session.len() == 16,
        data.len() >= HEADER,
        data.take(HEADER as int) == packet_bytes(p).take(HEADER as int),
    ensures
        data.take(4) == magic(),
        data[4] == MAJOR,
        parse_u16(data.skip(6)).unwrap().0 == p.kind,
        parse_u32(data.skip(8)).unwrap().0 == p.body.len() as u32,
        parse_u64(data.skip(12)).unwrap().0 == p.sequence,
        data.subrange(20, 36) == p.session,
{
    vstd::bytes::lemma_auto_spec_u16_to_from_le_bytes();
    vstd::bytes::lemma_auto_spec_u32_to_from_le_bytes();
    vstd::bytes::lemma_auto_spec_u64_to_from_le_bytes();
    let b = packet_bytes(p);
    lemma_packet_len(p);
    let h = data.take(HEADER as int);
    assert(b.take(4) =~= magic());
    assert(data.take(4) =~= h.take(4));
    assert(b[4] == MAJOR);
    assert(data[4] == h[4]);
    let a6 = magic() + enc_u8(MAJOR) + enc_u8(MINOR);
    let a8 = a6 + enc_u16(p.kind);
    let a12 = a8 + enc_u32(p.body.len() as u32);
    let a20 = a12 + enc_u64(p.sequence);
    assert(b == a20 + p.session + p.body);
    assert(b.subrange(6, 8) =~= enc_u16(p.kind));
    assert(b.subrange(8, 12) =~= enc_u32(p.body.len() as u32));
    assert(b.subrange(12, 20) =~= enc_u64(p.sequence));
    assert(b.subrange(20, 36) =~= p.session);
    assert(data.subrange(6, 8) =~= h.subrange(6, 8));
    assert(data.subrange(8, 12) =~= h.subrange(8, 12));
    assert(data.subrange(12, 20) =~= h.subrange(12, 20));
    assert(data.subrange(20, 36) =~= h.subrange(20, 36));
    assert(h.subrange(6, 8) =~= b.subrange(6, 8));
    assert(h.subrange(8, 12) =~= b.subrange(8, 12));
    assert(h.subrange(12, 20) =~= b.subrange(12, 20));
    assert(h.subrange(20, 36) =~= b.subrange(20, 36));
    assert(data.skip(6).take(2) =~= data.subrange(6, 8));
    assert(data.skip(8).take(4) =~= data.subrange(8, 12));
    assert(data.skip(12).take(8) =~= data.subrange(12, 20));
}

/// A packet decodes to exactly the fields it was encoded from.
pub proof fn lemma_decode_encode(p: PacketView, limit: int)
    requires
        p.session.len() == 16,
        HEADER + p.body.len() <= limit,
        p.body.len() <= u32::MAX,
    ensures
        decode_spec(packet_bytes(p), limit) == Ok::<PacketView, ProtocolError>(p),
{
    let b = packet_bytes(p);
    lemma_packet_len(p);
    lemma_header_fields(p, b);
}

/// Every proper prefix of a packet's bytes is rejected.
pub proof fn lemma_truncated_packet_rejected(p: PacketView, limit: int, k: int)
    requires
        p.session.len() == 16,
        HEADER + p.body.len() <= limit,
        limit <= u32::MAX,
        0 <= k < packet_bytes(p).len(),
    ensures
        decode_spec(packet_bytes(p).take(k), limit) is Err,
{
    let b = packet_bytes(p);
    let t = b.take(k);
    lemma_packet_len(p);
    if k >= HEADER {
        assert(t.take(HEADER as int) =~= b.take(HEADER as int));
        lemma_header_fields(p, t);
    }
}

/// A message framed by `Packet::new`, encoded, decoded and read back as its own type
/// is the message that was sent.
pub proof fn lemma_message_roundtrip<T: Wire>(v: T::V, sequence: u64, session: Seq<u8>, limit: int)
    requires
        T::encodable(v),
        session.len() == 16,
        HEADER + T::encoding(v).len() <= limit,
        T::encoding(v).len() <= u32::MAX,
    ensures
        ({
            let p = PacketView { kind: T::spec_kind(), sequence, session, body: T::encoding(v) };
            &&& decode_spec(packet_bytes(p), limit) == Ok::<PacketView, ProtocolError>(p)
            &&& message_spec::<T>(p) == Ok::<T::V, ProtocolError>(v)
        }),
{
    let p = PacketView { kind: T::spec_kind(), sequence, session, body: T::encoding(v) };
    lemma_decode_encode(p, limit);
    T::lemma_roundtrip(v, Seq::empty());
    assert(T::encoding(v) + Seq::<u8>::empty() =~= T::encoding(v));
}

} // verus!
