//! H.264 Annex B access units: splitting into NAL units and repeating parameter sets.
use crate::protocol::MAX_FRAME;
use vstd::prelude::*;

verus! {

/// Why an access unit was rejected.
#[derive(Debug, Clone, Copy, PartialEq, Eq, Structural)]
pub enum H264Error {
    /// No start code, or more than 4096 NAL units.
    InvalidAccessUnit,
    /// Two start codes with nothing between them.
    EmptyNal,
    /// An IDR arrived before any SPS and PPS were seen.
    MissingParameterSets,
    /// The access unit with repeated parameter sets exceeds `MAX_FRAME`.
    TooLarge,
}

impl H264Error {
    /// The text `describe` gives for each reason.
    pub open spec fn reason_text(&self) -> Seq<char> {
        match *self {
            H264Error::InvalidAccessUnit => "invalid H.264 Annex B access unit"@,
            H264Error::EmptyNal => "empty H.264 NAL"@,
            H264Error::MissingParameterSets => "H.264 keyframe lacks parameter sets"@,
            H264Error::TooLarge => "H.264 access unit exceeds maximum"@,
        }
    }

    /// Human-readable reason.
    pub fn describe(&self) -> (r: &'static str)
        ensures
            r@ == self.reason_text(),
    {
        match self {
            H264Error::InvalidAccessUnit => "invalid H.264 Annex B access unit",
            H264Error::EmptyNal => "empty H.264 NAL",
            H264Error::MissingParameterSets => "H.264 keyframe lacks parameter sets",
            H264Error::TooLarge => "H.264 access unit exceeds maximum",
        }
    }
}

/// Most NAL units one access unit may hold.
pub const MAX_NALS: usize = 4096;

/// The start codes found by a left-to-right scan from `i`: each is the pair
/// (first byte of the code, first byte after it). `00 00 01` is tried before
/// `00 00 00 01`, and the scan resumes after each code it finds.
pub open spec fn scan(d: Seq<u8>, i: int) -> Seq<(int, int)>
    decreases d.len() - i,
{
    if i < 0 || i + 3 > d.len() {
        seq![]
    } else if d[i] == 0 && d[i + 1] == 0 && d[i + 2] == 1 {
        seq![(i, i + 3)] + scan(d, i + 3)
    } else if d[i] == 0 && d[i + 1] == 0 && i + 4 <= d.len() && d[i + 2] == 0 && d[i + 3] == 1 {
        seq![(i, i + 4)] + scan(d, i + 4)
    } else {
        scan(d, i + 1)
    }
}

/// Where the `k`-th NAL unit ends: at the next start code, or at the end of the data.
pub open spec fn nal_end(d: Seq<u8>, s: Seq<(int, int)>, k: int) -> int {
    if k + 1 < s.len() {
        s[k + 1].0
    } else {
        d.len() as int
    }
}

/// The NAL units of an Annex B access unit, or why it is rejected.
pub open spec fn units_spec(d: Seq<u8>) -> Result<Seq<Seq<u8>>, H264Error> {
    let s = scan(d, 0);
    if s.len() == 0 || s.len() > MAX_NALS {
        Err(H264Error::InvalidAccessUnit)
    } else if exists|k: int| 0 <= k < s.len() && nal_end(d, s, k) <= s[k].1 {
        Err(H264Error::EmptyNal)
    } else {
        Ok(Seq::new(s.len(), |k: int| d.subrange(s[k].1, nal_end(d, s, k))))
    }
}

spec fn as_ints(v: Seq<(usize, usize)>) -> Seq<(int, int)> {
    v.map_values(|p: (usize, usize)| (p.0 as int, p.1 as int))
}

proof fn lemma_scan_bounds(d: Seq<u8>, i: int)
    requires
        0 <= i,
    ensures
        forall|k: int|
            0 <= k < scan(d, i).len() ==> i <= #[trigger] scan(d, i)[k].0 && scan(d, i)[k].0
                + 3 <= scan(d, i)[k].1 <= d.len() && scan(d, i)[k].1 <= scan(d, i)[k].0 + 4,
        forall|k: int, l: int|
            0 <= k < l < scan(d, i).len() ==> #[trigger] scan(d, i)[k].1 <= #[trigger] scan(
                d,
                i,
            )[l].0,
    decreases d.len() - i,
{
    if i + 3 > d.len() {
    } else if d[i] == 0 && d[i + 1] == 0 && d[i + 2] == 1 {
        lemma_scan_bounds(d, i + 3);
        lemma_scan_cons(d, i, i + 3);
    } else if d[i] == 0 && d[i + 1] == 0 && i + 4 <= d.len() && d[i + 2] == 0 && d[i + 3] == 1 {
        lemma_scan_bounds(d, i + 4);
        lemma_scan_cons(d, i, i + 4);
    } else {
        lemma_scan_bounds(d, i + 1);
        assert(scan(d, i) == scan(d, i + 1));
    }
}

proof fn lemma_scan_cons(d: Seq<u8>, i: int, j: int)
    requires
        0 <= i,
        j == i + 3 || j == i + 4,
        j <= d.len(),
        scan(d, i) == seq![(i, j)] + scan(d, j),
        forall|k: int|
            0 <= k < scan(d, j).len() ==> j <= #[trigger] scan(d, j)[k].0 && scan(d, j)[k].0 + 3
                <= scan(d, j)[k].1 <= d.len() && scan(d, j)[k].1 <= scan(d, j)[k].0 + 4,
        forall|k: int, l: int|
            0 <= k < l < scan(d, j).len() ==> #[trigger] scan(d, j)[k].1 <= #[trigger] scan(
                d,
                j,
            )[l].0,
    ensures
        forall|k: int|
            0 <= k < scan(d, i).len() ==> i <= #[trigger] scan(d, i)[k].0 && scan(d, i)[k].0
                + 3 <= scan(d, i)[k].1 <= d.len() && scan(d, i)[k].1 <= scan(d, i)[k].0 + 4,
        forall|k: int, l: int|
            0 <= k < l < scan(d, i).len() ==> #[trigger] scan(d, i)[k].1 <= #[trigger] scan(
                d,
                i,
            )[l].0,
{
    let s = scan(d, i);
    let r = scan(d, j);
    assert forall|k: int| 0 < k < s.len() implies s[k] == r[k - 1] by {}
    assert forall|k: int|
        0 <= k < s.len() implies i <= #[trigger] s[k].0 && s[k].0 + 3 <= s[k].1 <= d.len()
            && s[k].1 <= s[k].0 + 4 by {
        if k > 0 {
            assert(s[k] == r[k - 1]);
        }
    }
    assert forall|k: int, l: int| 0 <= k < l < s.len() implies #[trigger] s[k].1 <= #[trigger] s[l].0 by {
        assert(s[l] == r[l - 1]);
        if k > 0 {
            assert(s[k] == r[k - 1]);
        }
    }
}

/// Splits an Annex B access unit at its start codes into non-empty NAL units.
pub fn units(data: &[u8]) -> (res: Result<Vec<&[u8]>, H264Error>)
    ensures
        match units_spec(data@) {
            Ok(nals) => res matches Ok(v) && v@.len() == nals.len() && forall|k: int|
                0 <= k < nals.len() ==> (#[trigger] v@[k])@ == nals[k],
            Err(e) => res matches Err(x) && x == e,
        },
{
    let ghost d = data@;
    let mut starts: Vec<(usize, usize)> = Vec::new();
    let mut i: usize = 0;
    while data.len() >= 3 && i <= data.len() - 3
        invariant
            i <= data.len(),
            d == data@,
            as_ints(starts@) + scan(d, i as int) == scan(d, 0),
        decreases data.len() - i,
    {
        if data[i] == 0 && data[i + 1] == 0 {
            if data[i + 2] == 1 {
                let ghost before = starts@;
                starts.push((i, i + 3));
                proof {
                    assert(as_ints(starts@) =~= as_ints(before).push((i as int, i + 3)));
                    assert(as_ints(starts@) + scan(d, i + 3) =~= as_ints(before) + scan(
                        d,
                        i as int,
                    ));
                }
                i = i + 3;
                continue ;
            }
            if i < data.len() - 3 && data[i + 2] == 0 && data[i + 3] == 1 {
                let ghost before = starts@;
                starts.push((i, i + 4));
                proof {
                    assert(as_ints(starts@) =~= as_ints(before).push((i as int, i + 4)));
                    assert(as_ints(starts@) + scan(d, i + 4) =~= as_ints(before) + scan(
                        d,
                        i as int,
                    ));
                }
                i = i + 4;
                continue ;
            }
        }
        i = i + 1;
    }
    proof {
        assert(scan(d, i as int) =~= Seq::<(int, int)>::empty());
        assert(as_ints(starts@) =~= scan(d, 0));
        lemma_scan_bounds(d, 0);
    }
    let ghost s = scan(d, 0);
    if starts.len() == 0 || starts.len() > MAX_NALS {
        return Err(H264Error::InvalidAccessUnit);
    }
    let mut out: Vec<&[u8]> = Vec::new();
    let mut k: usize = 0;
    while k < starts.len()
        invariant
            0 < starts@.len() <= MAX_NALS,
            as_ints(starts@) == s,
            s == scan(d, 0),
            d == data@,
            k <= starts@.len(),
            out@.len() == k,
            forall|j: int|
                0 <= j < s.len() ==> s[j].0 + 3 <= #[trigger] s[j].1 <= d.len(),
            forall|j: int, l: int| 0 <= j < l < s.len() ==> #[trigger] s[j].1 <= #[trigger] s[l].0,
            forall|j: int| 0 <= j < k ==> nal_end(d, s, j) > #[trigger] s[j].1,
            forall|j: int|
                0 <= j < k ==> (#[trigger] out@[j])@ == d.subrange(s[j].1, nal_end(d, s, j)),
        decreases starts.len() - k,
    {
        let begin = starts[k].1;
        assert(begin as int == s[k as int].1);
        let end = if k + 1 < starts.len() {
            assert(starts[k + 1].0 as int == s[k + 1].0);
            starts[k + 1].0
        } else {
            data.len()
        };
        assert(end as int == nal_end(d, s, k as int));
        if end <= begin {
            return Err(H264Error::EmptyNal);
        }
        out.push(&data[begin..end]);
        k = k + 1;
    }
    Ok(out)
}

/// The type of a NAL unit: the low five bits of its first byte.
pub open spec fn nal_type(n: Seq<u8>) -> u8 {
    n[0] & 31u8
}

/// Whether some NAL unit has type `t`.
pub open spec fn has_type(nals: Seq<Seq<u8>>, t: u8) -> bool {
    exists|k: int| 0 <= k < nals.len() && nal_type(#[trigger] nals[k]) == t
}

/// The last NAL unit of type `t`, or `previous` when there is none.
pub open spec fn last_of_type(nals: Seq<Seq<u8>>, t: u8, previous: Seq<u8>) -> Seq<u8>
    decreases nals.len(),
{
    if nals.len() == 0 {
        previous
    } else if nal_type(nals.last()) == t {
        nals.last()
    } else {
        last_of_type(nals.drop_last(), t, previous)
    }
}

/// A four-byte start code.
pub open spec fn start_code() -> Seq<u8> {
    seq![0u8, 0u8, 0u8, 1u8]
}

/// Parameter sets as `ParameterSets` keeps them: each empty, or a NAL unit of its type.
pub open spec fn remembered(sps: Seq<u8>, pps: Seq<u8>) -> bool {
    &&& (sps.len() == 0 || (nal_type(sps) == 7 && nal_body(sps)))
    &&& (pps.len() == 0 || (nal_type(pps) == 8 && nal_body(pps)))
}

/// Remembers the latest SPS and PPS so that every IDR can carry them.
pub struct ParameterSets {
    sps: Vec<u8>,
    pps: Vec<u8>,
}

impl Default for ParameterSets {
    fn default() -> (p: Self)
        ensures
            remembered(p.sps(), p.pps()),
            p.sps() == Seq::<u8>::empty(),
            p.pps() == Seq::<u8>::empty(),
    {
        ParameterSets { sps: Vec::new(), pps: Vec::new() }
    }
}

/// What `ParameterSets::prepare` gives for an access unit's units, with the
/// parameter sets remembered after it: the output and whether it is an IDR.
pub open spec fn prepare_spec(
    nals: Seq<Seq<u8>>,
    data: Seq<u8>,
    sps: Seq<u8>,
    pps: Seq<u8>,
) -> Result<(Seq<u8>, bool), H264Error> {
    let idr = has_type(nals, 5);
    let with_sps = if idr && !has_type(nals, 7) {
        start_code() + sps
    } else {
        Seq::empty()
    };
    let with_pps = if idr && !has_type(nals, 8) {
        start_code() + pps
    } else {
        Seq::empty()
    };
    let out = with_sps + with_pps + data;
    if idr && (sps.len() == 0 || pps.len() == 0) {
        Err(H264Error::MissingParameterSets)
    } else if out.len() > MAX_FRAME {
        Err(H264Error::TooLarge)
    } else {
        Ok((out, idr))
    }
}

/// Every IDR that `prepare` returns carries an SPS and a PPS: each is either among the
/// access unit's own NAL units or put in front of them, as a four-byte start code
/// followed by the remembered parameter set.
pub proof fn lemma_idr_carries_parameter_sets(
    nals: Seq<Seq<u8>>,
    data: Seq<u8>,
    sps: Seq<u8>,
    pps: Seq<u8>,
)
    requires
        remembered(sps, pps),
        prepare_spec(nals, data, sps, pps) is Ok,
        prepare_spec(nals, data, sps, pps).unwrap().1,
    ensures
        ({
            let out = prepare_spec(nals, data, sps, pps).unwrap().0;
            let at: int = if has_type(nals, 7) {
                0
            } else {
                4 + sps.len() as int
            };
            &&& has_type(nals, 7) || (out.take(4) == start_code() && out.len() > 4 && nal_type(
                out.skip(4),
            ) == 7)
            &&& has_type(nals, 8) || (out.subrange(at, at + 4) == start_code() && out.len() > at
                + 4 && nal_type(out.skip(at + 4)) == 8)
        }),
{
    let out = prepare_spec(nals, data, sps, pps).unwrap().0;
    let with_sps = if !has_type(nals, 7) {
        start_code() + sps
    } else {
        Seq::empty()
    };
    let with_pps = if !has_type(nals, 8) {
        start_code() + pps
    } else {
        Seq::empty()
    };
    assert(out == with_sps + with_pps + data);
    assert(with_sps.len() == if has_type(nals, 7) { 0 } else { 4 + sps.len() });
    if !has_type(nals, 7) {
        assert(out.take(4) =~= start_code());
        assert(out.skip(4)[0] == sps[0]);
    }
    if !has_type(nals, 8) {
        let at = with_sps.len() as int;
        assert(out.subrange(at, at + 4) =~= start_code());
        assert(out.skip(at + 4)[0] == pps[0]);
    }
}

/// The bytes `00 00 01` start at `p`.
pub open spec fn three_at(s: Seq<u8>, p: int) -> bool {
    s[p] == 0 && s[p + 1] == 0 && s[p + 2] == 1
}

/// A NAL unit as `units` returns it: non-empty and without `00 00 01` inside.
pub open spec fn nal_body(s: Seq<u8>) -> bool {
    &&& s.len() > 0
    &&& forall|p: int| 0 <= p && p + 3 <= s.len() ==> !#[trigger] three_at(s, p)
}

/// `rest` is empty or starts with a four-byte start code.
pub open spec fn framed_next(rest: Seq<u8>) -> bool {
    rest.len() == 0 || (rest.len() >= 4 && rest.take(4) == start_code())
}

/// NAL units framed as an Annex B access unit, each behind a four-byte start code.
pub open spec fn annex_b(nals: Seq<Seq<u8>>) -> Seq<u8>
    decreases nals.len(),
{
    if nals.len() == 0 {
        seq![]
    } else {
        start_code() + nals[0] + annex_b(nals.skip(1))
    }
}

/// Start code positions moved `o` bytes further.
spec fn shift(s: Seq<(int, int)>, o: int) -> Seq<(int, int)> {
    s.map_values(|x: (int, int)| (x.0 + o, x.1 + o))
}

/// `scan` finds a start code at `p`.
spec fn code_at(d: Seq<u8>, p: int) -> bool {
    &&& 0 <= p
    &&& p + 3 <= d.len()
    &&& d[p] == 0
    &&& d[p + 1] == 0
    &&& (d[p + 2] == 1 || (p + 4 <= d.len() && d[p + 2] == 0 && d[p + 3] == 1))
}

proof fn lemma_scan_skip(d: Seq<u8>, i: int, k: int)
    requires
        0 <= i <= k,
        forall|p: int| i <= p < k ==> !#[trigger] code_at(d, p),
    ensures
        scan(d, i) == scan(d, k),
    decreases k - i,
{
    if i < k && i + 3 <= d.len() {
        assert(!code_at(d, i));
        assert(scan(d, i) == scan(d, i + 1));
        lemma_scan_skip(d, i + 1, k);
    }
}

proof fn lemma_scan_shift(a: Seq<u8>, b: Seq<u8>, j: int)
    requires
        0 <= j,
    ensures
        scan(a + b, a.len() + j) == shift(scan(b, j), a.len() as int),
    decreases b.len() - j,
{
    let d = a + b;
    let i = a.len() + j;
    let o = a.len() as int;
    if j + 3 > b.len() {
        assert(shift(scan(b, j), o) =~= Seq::<(int, int)>::empty());
    } else {
        assert(d[i] == b[j]);
        assert(d[i + 1] == b[j + 1]);
        assert(d[i + 2] == b[j + 2]);
        if j + 4 <= b.len() {
            assert(d[i + 3] == b[j + 3]);
        }
        if b[j] == 0 && b[j + 1] == 0 && b[j + 2] == 1 {
            lemma_scan_shift(a, b, j + 3);
            assert(shift(scan(b, j), o) =~= seq![(i, i + 3)] + shift(scan(b, j + 3), o));
        } else if b[j] == 0 && b[j + 1] == 0 && j + 4 <= b.len() && b[j + 2] == 0 && b[j + 3]
            == 1 {
            lemma_scan_shift(a, b, j + 4);
            assert(shift(scan(b, j), o) =~= seq![(i, i + 4)] + shift(scan(b, j + 4), o));
        } else {
            lemma_scan_shift(a, b, j + 1);
        }
    }
}

/// A clean unit framed by a four-byte start code is one NAL unit to `scan`, which
/// then goes on through the rest as it would on its own.
proof fn lemma_scan_framed(s: Seq<u8>, rest: Seq<u8>)
    requires
        nal_body(s),
        s.last() != 0 || framed_next(rest),
    ensures
        scan(start_code() + s + rest, 0) == seq![(0int, 4int)] + shift(
            scan(rest, 0),
            4 + s.len() as int,
        ),
{
    let a = start_code() + s;
    let d = a + rest;
    assert(d[0] == 0 && d[1] == 0 && d[2] == 0 && d[3] == 1);
    assert(scan(d, 0) == seq![(0int, 4int)] + scan(d, 4));
    assert forall|p: int| 4 <= p < 4 + s.len() implies !#[trigger] code_at(d, p) by {
        let q = p - 4;
        assert(d[p] == s[q]);
        if q + 1 < s.len() {
            assert(d[p + 1] == s[q + 1]);
        }
        if q + 2 < s.len() {
            assert(d[p + 2] == s[q + 2]);
        }
        if q + 3 < s.len() {
            assert(d[p + 3] == s[q + 3]);
        }
        if q + 3 <= s.len() {
            assert(!three_at(s, q));
        }
        if q + 4 <= s.len() {
            assert(!three_at(s, q + 1));
        }
        if s.last() == 0 && rest.len() > 0 {
            assert(rest.take(4) == start_code());
            assert(rest[0] == 0 && rest[1] == 0 && rest[2] == 0);
            if q + 3 == s.len() {
                assert(d[p + 3] == rest[0]);
            }
            if q + 2 == s.len() {
                assert(d[p + 2] == rest[0]);
                assert(d[p + 3] == rest[1]);
            }
            if q + 1 == s.len() {
                assert(d[p + 1] == rest[0]);
                assert(d[p + 2] == rest[1]);
                assert(d[p + 3] == rest[2]);
            }
        }
    }
    lemma_scan_skip(d, 4, 4 + s.len() as int);
    lemma_scan_shift(a, rest, 0);
}

proof fn lemma_scan_entry(d: Seq<u8>, k: int)
    requires
        0 <= k < scan(d, 0).len(),
    ensures
        0 <= scan(d, 0)[k].0,
        scan(d, 0)[k].0 + 3 <= scan(d, 0)[k].1 <= d.len(),
        k + 1 < scan(d, 0).len() ==> scan(d, 0)[k].1 <= scan(d, 0)[k + 1].0,
{
    lemma_scan_bounds(d, 0);
    if k + 1 < scan(d, 0).len() {
        assert(scan(d, 0)[k].1 <= scan(d, 0)[k + 1].0);
    }
}

/// Framing a clean unit before an access unit adds it as the first NAL unit, together
/// with whatever bytes precede the access unit's first start code.
#[verifier::rlimit(40)]
proof fn lemma_units_framed(s: Seq<u8>, rest: Seq<u8>, us: Seq<Seq<u8>>)
    requires
        nal_body(s),
        s.last() != 0 || framed_next(rest),
        units_spec(rest) == Ok::<Seq<Seq<u8>>, H264Error>(us),
        us.len() + 1 <= MAX_NALS,
    ensures
        units_spec(start_code() + s + rest) == Ok::<Seq<Seq<u8>>, H264Error>(
            seq![s + rest.take(scan(rest, 0)[0].0)] + us,
        ),
        scan(start_code() + s + rest, 0)[0].0 == 0,
{
    let d = start_code() + s + rest;
    let r = scan(rest, 0);
    let o: int = 4 + s.len() as int;
    lemma_scan_framed(s, rest);
    let t = scan(d, 0);
    assert(t == seq![(0int, 4int)] + shift(r, o));
    assert(r.len() == us.len());
    assert(t.len() == r.len() + 1);
    lemma_scan_entry(rest, 0);
    assert forall|k: int| 1 <= k < t.len() implies #[trigger] t[k] == (
        r[k - 1].0 + o,
        r[k - 1].1 + o,
    ) && nal_end(d, t, k) == nal_end(rest, r, k - 1) + o by {
        if k + 1 < t.len() {
            assert(t[k + 1] == (r[k].0 + o, r[k].1 + o));
        }
    }
    assert(t[1] == (r[0].0 + o, r[0].1 + o));
    assert(nal_end(d, t, 0) == r[0].0 + o);
    assert forall|k: int| 0 <= k < t.len() implies nal_end(d, t, k) > #[trigger] t[k].1 by {
        if k >= 1 {
            if nal_end(rest, r, k - 1) <= r[k - 1].1 {
                assert(exists|j: int| 0 <= j < r.len() && nal_end(rest, r, j) <= r[j].1);
            }
        }
    }
    let want = seq![s + rest.take(r[0].0)] + us;
    let got = Seq::new(t.len(), |k: int| d.subrange(t[k].1, nal_end(d, t, k)));
    assert forall|k: int| 0 <= k < t.len() implies got[k] == want[k] by {
        if k == 0 {
            assert(d.subrange(4, r[0].0 + o) =~= s + rest.take(r[0].0));
        } else {
            lemma_scan_entry(rest, k - 1);
            if k < r.len() {
                lemma_scan_entry(rest, k);
            }
            assert(us[k - 1] == rest.subrange(r[k - 1].1, nal_end(rest, r, k - 1)));
            assert(d.subrange(t[k].1, nal_end(d, t, k)) =~= rest.subrange(
                r[k - 1].1,
                nal_end(rest, r, k - 1),
            ));
        }
    }
    assert(got =~= want);
}

proof fn lemma_units_single(s: Seq<u8>)
    requires
        nal_body(s),
    ensures
        units_spec(start_code() + s) == Ok::<Seq<Seq<u8>>, H264Error>(seq![s]),
{
    let d = start_code() + s;
    lemma_scan_framed(s, Seq::<u8>::empty());
    assert(d + Seq::<u8>::empty() =~= d);
    assert(start_code() + s + Seq::<u8>::empty() =~= d);
    let t = scan(d, 0);
    assert(shift(scan(Seq::<u8>::empty(), 0), 4 + s.len() as int) =~= Seq::<(int, int)>::empty());
    assert(t =~= seq![(0int, 4int)]);
    assert(nal_end(d, t, 0) == d.len());
    let got = Seq::new(t.len(), |k: int| d.subrange(t[k].1, nal_end(d, t, k)));
    assert(got[0] =~= s);
    assert(got =~= seq![s]);
}

proof fn lemma_scan_starts_framed(rest: Seq<u8>)
    requires
        rest.len() >= 4,
        rest.take(4) == start_code(),
    ensures
        scan(rest, 0).len() > 0,
        scan(rest, 0)[0].0 == 0,
{
    assert(rest[0] == 0 && rest[1] == 0 && rest[2] == 0 && rest[3] == 1) by {
        assert(rest.take(4)[0] == rest[0]);
        assert(rest.take(4)[1] == rest[1]);
        assert(rest.take(4)[2] == rest[2]);
        assert(rest.take(4)[3] == rest[3]);
    }
    assert(scan(rest, 0) == seq![(0int, 4int)] + scan(rest, 4));
}

/// `units` inverts Annex B framing: NAL units without `00 00 01` inside, each framed by
/// a four-byte start code, are split back into exactly those units.
pub proof fn lemma_units_inverts_framing(nals: Seq<Seq<u8>>)
    requires
        1 <= nals.len() <= MAX_NALS,
        forall|i: int| 0 <= i < nals.len() ==> nal_body(#[trigger] nals[i]),
    ensures
        units_spec(annex_b(nals)) == Ok::<Seq<Seq<u8>>, H264Error>(nals),
    decreases nals.len(),
{
    let tail = nals.skip(1);
    assert(nal_body(nals[0]));
    if nals.len() == 1 {
        assert(tail =~= Seq::<Seq<u8>>::empty());
        assert(annex_b(tail) =~= Seq::<u8>::empty());
        assert(annex_b(nals) =~= start_code() + nals[0]);
        lemma_units_single(nals[0]);
        assert(seq![nals[0]] =~= nals);
    } else {
        assert forall|i: int| 0 <= i < tail.len() implies nal_body(#[trigger] tail[i]) by {
            assert(tail[i] == nals[i + 1]);
        }
        lemma_units_inverts_framing(tail);
        let rest = annex_b(tail);
        assert(rest == start_code() + tail[0] + annex_b(tail.skip(1)));
        assert(rest.take(4) =~= start_code());
        lemma_scan_starts_framed(rest);
        lemma_units_framed(nals[0], rest, tail);
        assert(rest.take(0) =~= Seq::<u8>::empty());
        assert(nals[0] + rest.take(0) =~= nals[0]);
        assert(seq![nals[0]] + tail =~= nals);
    }
}

/// `scan` finds every start code: none begins before its first find, or between the end
/// of one find and the start of the next, or after the last.
proof fn lemma_scan_gaps(d: Seq<u8>, i: int)
    requires
        0 <= i,
    ensures
        forall|p: int|
            i <= p && (scan(d, i).len() == 0 || p < scan(d, i)[0].0) ==> !#[trigger] code_at(
                d,
                p,
            ),
        forall|k: int, p: int|
            0 <= k < scan(d, i).len() && scan(d, i)[k].1 <= p && (k + 1 == scan(d, i).len() || p
                < scan(d, i)[k + 1].0) ==> !#[trigger] code_at(d, p) && #[trigger] scan(d, i)[k]
                == scan(d, i)[k],
    decreases d.len() - i,
{
    let t = scan(d, i);
    if i + 3 > d.len() {
    } else if d[i] == 0 && d[i + 1] == 0 && d[i + 2] == 1 {
        lemma_scan_gaps(d, i + 3);
        let r = scan(d, i + 3);
        assert(t == seq![(i, i + 3)] + r);
        assert forall|k: int, p: int|
            0 <= k < t.len() && t[k].1 <= p && (k + 1 == t.len() || p < t[k + 1].0) implies !code_at(
            d,
            p,
        ) by {
            if k == 0 {
                if r.len() > 0 {
                    assert(t[1] == r[0]);
                }
            } else {
                assert(t[k] == r[k - 1]);
                if k + 1 < t.len() {
                    assert(t[k + 1] == r[k]);
                }
                assert(r[k - 1] == r[k - 1]);
            }
        }
    } else if d[i] == 0 && d[i + 1] == 0 && i + 4 <= d.len() && d[i + 2] == 0 && d[i + 3] == 1 {
        lemma_scan_gaps(d, i + 4);
        let r = scan(d, i + 4);
        assert(t == seq![(i, i + 4)] + r);
        assert forall|k: int, p: int|
            0 <= k < t.len() && t[k].1 <= p && (k + 1 == t.len() || p < t[k + 1].0) implies !code_at(
            d,
            p,
        ) by {
            if k == 0 {
                if r.len() > 0 {
                    assert(t[1] == r[0]);
                }
            } else {
                assert(t[k] == r[k - 1]);
                if k + 1 < t.len() {
                    assert(t[k + 1] == r[k]);
                }
                assert(r[k - 1] == r[k - 1]);
            }
        }
    } else {
        lemma_scan_gaps(d, i + 1);
        assert(t == scan(d, i + 1));
        assert(!code_at(d, i));
    }
}

/// Every NAL unit that `units` returns is non-empty and has no `00 00 01` inside.
pub proof fn lemma_units_are_bodies(d: Seq<u8>)
    requires
        units_spec(d) is Ok,
    ensures
        forall|k: int|
            0 <= k < units_spec(d).unwrap().len() ==> nal_body(#[trigger] units_spec(d).unwrap()[k]),
{
    let s = scan(d, 0);
    let us = units_spec(d).unwrap();
    lemma_scan_gaps(d, 0);
    assert forall|k: int| 0 <= k < us.len() implies nal_body(#[trigger] us[k]) by {
        lemma_scan_entry(d, k);
        if k + 1 < s.len() {
            lemma_scan_entry(d, k + 1);
        }
        let a = s[k].1;
        let e = nal_end(d, s, k);
        assert(!(e <= s[k].1));
        assert(us[k] == d.subrange(a, e));
        assert forall|p: int| 0 <= p && p + 3 <= us[k].len() implies !#[trigger] three_at(
            us[k],
            p,
        ) by {
            if three_at(us[k], p) {
                assert(d[a + p] == us[k][p]);
                assert(d[a + p + 1] == us[k][p + 1]);
                assert(d[a + p + 2] == us[k][p + 2]);
                assert(code_at(d, a + p));
                assert(s[k] == s[k]);
            }
        }
    }
}

/// `d` begins with a start code, in its three- or four-byte form.
pub open spec fn starts_with_code(d: Seq<u8>) -> bool {
    &&& d.len() >= 3
    &&& d[0] == 0
    &&& d[1] == 0
    &&& (d[2] == 1 || (d.len() >= 4 && d[2] == 0 && d[3] == 1))
}

/// A framed unit that ends with a zero byte, before a three-byte start code: `scan`
/// finds a four-byte code at that zero byte, ending where the three-byte code ends.
proof fn lemma_scan_framed_short(s: Seq<u8>, rest: Seq<u8>)
    requires
        nal_body(s),
        s.len() >= 2,
        s.last() == 0,
        rest.len() >= 3,
        rest[0] == 0 && rest[1] == 0 && rest[2] == 1,
    ensures
        scan(start_code() + s + rest, 0) == seq![(0int, 4int), (3 + s.len() as int, 7 + s.len() as int)]
            + shift(scan(rest, 3), 4 + s.len() as int),
{
    let a = start_code() + s;
    let d = a + rest;
    let p = 3 + s.len() as int;
    assert(d[0] == 0 && d[1] == 0 && d[2] == 0 && d[3] == 1);
    assert(scan(d, 0) == seq![(0int, 4int)] + scan(d, 4));
    assert forall|x: int| 4 <= x < p implies !#[trigger] code_at(d, x) by {
        let q = x - 4;
        assert(d[x] == s[q]);
        assert(d[x + 1] == s[q + 1]);
        if q + 2 < s.len() {
            assert(d[x + 2] == s[q + 2]);
        } else {
            assert(d[x + 2] == rest[0]);
        }
        if q + 3 < s.len() {
            assert(d[x + 3] == s[q + 3]);
        } else if q + 3 == s.len() {
            assert(d[x + 3] == rest[0]);
        } else {
            assert(d[x + 3] == rest[1]);
        }
        if q + 3 <= s.len() {
            assert(!three_at(s, q));
        }
        if q + 4 <= s.len() {
            assert(!three_at(s, q + 1));
        }
    }
    lemma_scan_skip(d, 4, p);
    assert(d[p] == 0 && d[p + 1] == rest[0] && d[p + 2] == rest[1] && d[p + 3] == rest[2]);
    assert(scan(d, p) == seq![(p, p + 4)] + scan(d, p + 4));
    lemma_scan_shift(a, rest, 3);
    assert(seq![(0int, 4int)] + (seq![(p, p + 4)] + scan(d, p + 4)) =~= seq![(0int, 4int), (p, p + 4)]
        + scan(d, p + 4));
}

/// As `lemma_units_framed`, for a unit that ends with a zero byte before a three-byte
/// start code: the unit loses that byte to the start code.
#[verifier::rlimit(40)]
proof fn lemma_units_framed_short(s: Seq<u8>, rest: Seq<u8>, us: Seq<Seq<u8>>)
    requires
        nal_body(s),
        s.len() >= 2,
        s.last() == 0,
        rest.len() >= 3,
        rest[0] == 0 && rest[1] == 0 && rest[2] == 1,
        units_spec(rest) == Ok::<Seq<Seq<u8>>, H264Error>(us),
        us.len() + 1 <= MAX_NALS,
    ensures
        units_spec(start_code() + s + rest) == Ok::<Seq<Seq<u8>>, H264Error>(
            seq![s.take(s.len() - 1)] + us,
        ),
        scan(start_code() + s + rest, 0)[0].0 == 0,
{
    let d = start_code() + s + rest;
    let r = scan(rest, 0);
    let o: int = 4 + s.len() as int;
    lemma_scan_framed_short(s, rest);
    let t = scan(d, 0);
    assert(r == seq![(0int, 3int)] + scan(rest, 3));
    assert(t == seq![(0int, 4int), (o - 1, o + 3)] + shift(scan(rest, 3), o));
    assert(r.len() == us.len());
    assert(t.len() == r.len() + 1);
    lemma_scan_entry(rest, 0);
    assert forall|k: int| 2 <= k < t.len() implies #[trigger] t[k] == (
        r[k - 1].0 + o,
        r[k - 1].1 + o,
    ) by {
        assert(r[k - 1] == scan(rest, 3)[k - 2]);
    }
    assert forall|k: int| 1 <= k < t.len() implies #[trigger] t[k].1 == r[k - 1].1 + o
        && nal_end(d, t, k) == nal_end(rest, r, k - 1) + o by {
        if k + 1 < t.len() {
            assert(t[k + 1] == (r[k].0 + o, r[k].1 + o));
        }
    }
    assert(nal_end(d, t, 0) == o - 1);
    assert forall|k: int| 0 <= k < t.len() implies nal_end(d, t, k) > #[trigger] t[k].1 by {
        if k >= 1 {
            if nal_end(rest, r, k - 1) <= r[k - 1].1 {
                assert(exists|j: int| 0 <= j < r.len() && nal_end(rest, r, j) <= r[j].1);
            }
        }
    }
    let want = seq![s.take(s.len() - 1)] + us;
    let got = Seq::new(t.len(), |k: int| d.subrange(t[k].1, nal_end(d, t, k)));
    assert forall|k: int| 0 <= k < t.len() implies got[k] == want[k] by {
        if k == 0 {
            assert(d.subrange(4, o - 1) =~= s.take(s.len() - 1));
        } else {
            lemma_scan_entry(rest, k - 1);
            if k < r.len() {
                lemma_scan_entry(rest, k);
            }
            assert(us[k - 1] == rest.subrange(r[k - 1].1, nal_end(rest, r, k - 1)));
            assert(d.subrange(t[k].1, nal_end(d, t, k)) =~= rest.subrange(
                r[k - 1].1,
                nal_end(rest, r, k - 1),
            ));
        }
    }
    assert(got =~= want);
}

/// A remembered parameter set framed before an access unit becomes one NAL unit that
/// starts with the set's first byte, and the access unit's own units follow.
proof fn lemma_units_set(s: Seq<u8>, data: Seq<u8>, nals: Seq<Seq<u8>>) -> (u: Seq<u8>)
    requires
        nal_body(s),
        s[0] != 0,
        units_spec(data) == Ok::<Seq<Seq<u8>>, H264Error>(nals),
        nals.len() + 1 <= MAX_NALS,
        s.last() != 0 || starts_with_code(data),
    ensures
        units_spec(start_code() + s + data) == Ok::<Seq<Seq<u8>>, H264Error>(seq![u] + nals),
        u.len() > 0,
        u[0] == s[0],
{
    if s.last() != 0 || framed_next(data) {
        lemma_units_framed(s, data, nals);
        lemma_scan_entry(data, 0);
        let g = scan(data, 0)[0].0;
        s + data.take(g)
    } else {
        assert(data[2] == 1) by {
            if data[2] != 1 {
                assert(data.take(4) =~= start_code());
            }
        }
        lemma_units_framed_short(s, data, nals);
        s.take(s.len() - 1)
    }
}

/// Every IDR that `prepare` returns, split again into NAL units, holds an SPS, a PPS
/// and the IDR slice: the remembered parameter sets come first where the access unit
/// lacks them, and the access unit's own NAL units follow unchanged. This holds for every
/// remembered state when the access unit begins with a start code (or a prepended set
/// does not end with a zero byte) and leaves room for two more units.
pub proof fn lemma_idr_units(nals: Seq<Seq<u8>>, data: Seq<u8>, sps: Seq<u8>, pps: Seq<u8>)
    requires
        units_spec(data) == Ok::<Seq<Seq<u8>>, H264Error>(nals),
        remembered(sps, pps),
        prepare_spec(nals, data, sps, pps) is Ok,
        prepare_spec(nals, data, sps, pps).unwrap().1,
        !has_type(nals, 7) ==> sps.last() != 0 || starts_with_code(data),
        !has_type(nals, 8) ==> pps.last() != 0 || starts_with_code(data),
        nals.len() + 2 <= MAX_NALS,
    ensures
        ({
            let out = prepare_spec(nals, data, sps, pps).unwrap().0;
            &&& units_spec(out) is Ok
            &&& has_type(units_spec(out).unwrap(), 7)
            &&& has_type(units_spec(out).unwrap(), 8)
            &&& has_type(units_spec(out).unwrap(), 5)
            &&& units_spec(out).unwrap().len() >= nals.len()
            &&& units_spec(out).unwrap().skip(units_spec(out).unwrap().len() - nals.len())
                == nals
        }),
{
    let out = prepare_spec(nals, data, sps, pps).unwrap().0;
    let has_sps = has_type(nals, 7);
    let has_pps = has_type(nals, 8);
    if sps.len() > 0 {
        let b = sps[0];
        assert(b & 31u8 == 7u8 ==> b != 0u8) by (bit_vector);
    }
    if pps.len() > 0 {
        let b = pps[0];
        assert(b & 31u8 == 8u8 ==> b != 0u8) by (bit_vector);
    }
    if has_sps && has_pps {
        assert(out =~= data);
        assert(nals.skip(0) =~= nals);
    } else if has_sps {
        assert(out =~= start_code() + pps + data);
        let u = lemma_units_set(pps, data, nals);
        let us = seq![u] + nals;
        assert(us[0][0] == pps[0]);
        assert(nal_type(us[0]) == 8);
        assert(us.skip(1) =~= nals);
        let w = choose|k: int| 0 <= k < nals.len() && nal_type(#[trigger] nals[k]) == 7;
        assert(us[w + 1] == nals[w]);
        let x = choose|k: int| 0 <= k < nals.len() && nal_type(#[trigger] nals[k]) == 5;
        assert(us[x + 1] == nals[x]);
    } else if has_pps {
        assert(out =~= start_code() + sps + data);
        let u = lemma_units_set(sps, data, nals);
        let us = seq![u] + nals;
        assert(us[0][0] == sps[0]);
        assert(nal_type(us[0]) == 7);
        assert(us.skip(1) =~= nals);
        let w = choose|k: int| 0 <= k < nals.len() && nal_type(#[trigger] nals[k]) == 8;
        assert(us[w + 1] == nals[w]);
        let x = choose|k: int| 0 <= k < nals.len() && nal_type(#[trigger] nals[k]) == 5;
        assert(us[x + 1] == nals[x]);
    } else {
        let rest = start_code() + pps + data;
        assert(out =~= start_code() + sps + rest);
        assert(rest.take(4) =~= start_code());
        let u = lemma_units_set(pps, data, nals);
        let ur = seq![u] + nals;
        lemma_units_framed(sps, rest, ur);
        assert(rest.take(0) =~= Seq::<u8>::empty());
        assert(sps + rest.take(0) =~= sps);
        let us = seq![sps] + ur;
        assert(us[0] == sps);
        assert(nal_type(us[0]) == 7);
        assert(us[1][0] == pps[0]);
        assert(nal_type(us[1]) == 8);
        assert(us.skip(2) =~= nals);
        let x = choose|k: int| 0 <= k < nals.len() && nal_type(#[trigger] nals[k]) == 5;
        assert(us[x + 2] == nals[x]);
    }
}

impl ParameterSets {
    /// Only an SPS NAL unit is remembered as the SPS, and only a PPS as the PPS.
    #[verifier::type_invariant]
    spec fn inv(&self) -> bool {
        remembered(self.sps@, self.pps@)
    }

    /// The latest sequence parameter set seen.
    pub closed spec fn sps(&self) -> Seq<u8> {
        self.sps@
    }

    /// The latest picture parameter set seen.
    pub closed spec fn pps(&self) -> Seq<u8> {
        self.pps@
    }

    /// Records the access unit's parameter sets and returns the unit, with the
    /// remembered SPS / PPS put in front of an IDR that lacks them.
    pub fn prepare(&mut self, data: &[u8]) -> (res: Result<(Vec<u8>, bool), H264Error>)
        ensures
            match units_spec(data@) {
                Err(e) => res matches Err(x) && x == e && final(self).sps() == old(self).sps()
                    && final(self).pps() == old(self).pps(),
                Ok(nals) => {
                    &&& remembered(final(self).sps(), final(self).pps())
                    &&& final(self).sps() == last_of_type(nals, 7, old(self).sps())
                    &&& final(self).pps() == last_of_type(nals, 8, old(self).pps())
                    &&& match prepare_spec(nals, data@, final(self).sps(), final(self).pps()) {
                        Ok((out, idr)) => res matches Ok(r) && r.0@ == out && r.1 == idr,
                        Err(e) => res matches Err(x) && x == e,
                    }
                },
            },
    {
        proof {
            use_type_invariant(&*self);
        }
        let nals = units(data)?;
        let ghost ns = units_spec(data@).unwrap();
        proof {
            let d = data@;
            let s = scan(d, 0);
            lemma_scan_bounds(d, 0);
            assert(units_spec(d) is Ok);
            assert(!(exists|k: int| 0 <= k < s.len() && nal_end(d, s, k) <= s[k].1));
            lemma_units_are_bodies(d);
            assert forall|j: int| 0 <= j < ns.len() implies (#[trigger] ns[j]).len() > 0 by {
                assert(!(nal_end(d, s, j) <= s[j].1));
                if j + 1 < s.len() {
                    assert(s[j + 1].0 + 3 <= s[j + 1].1 <= d.len());
                }
                assert(s[j].0 + 3 <= s[j].1);
                assert(0 <= s[j].1 < nal_end(d, s, j) <= d.len());
                assert(ns[j] == d.subrange(s[j].1, nal_end(d, s, j)));
            }
        }
        let ghost old_sps = self.sps@;
        let ghost old_pps = self.pps@;
        let mut sps = false;
        let mut pps = false;
        let mut idr = false;
        let mut k: usize = 0;
        while k < nals.len()
            invariant
                k <= nals@.len(),
                nals@.len() == ns.len(),
                forall|j: int| 0 <= j < ns.len() ==> (#[trigger] nals@[j])@ == ns[j],
                forall|j: int| 0 <= j < ns.len() ==> (#[trigger] ns[j]).len() > 0,
                forall|j: int| 0 <= j < ns.len() ==> nal_body(#[trigger] ns[j]),
                remembered(self.sps@, self.pps@),
                self.sps@ == last_of_type(ns.take(k as int), 7, old_sps),
                self.pps@ == last_of_type(ns.take(k as int), 8, old_pps),
                sps == has_type(ns.take(k as int), 7),
                pps == has_type(ns.take(k as int), 8),
                idr == has_type(ns.take(k as int), 5),
            decreases nals.len() - k,
        {
            let n = nals[k];
            let t = n[0] & 31;
            proof {
                let next = ns.take(k + 1);
                assert(next.drop_last() =~= ns.take(k as int));
                assert(next.last() == ns[k as int]);
                assert(nal_type(ns[k as int]) == t);
                if has_type(next, 7) {
                    let w = choose|j: int| 0 <= j < next.len() && nal_type(#[trigger] next[j]) == 7;
                    if w < k {
                        assert(ns.take(k as int)[w] == next[w]);
                    }
                }
                if has_type(next, 8) {
                    let w = choose|j: int| 0 <= j < next.len() && nal_type(#[trigger] next[j]) == 8;
                    if w < k {
                        assert(ns.take(k as int)[w] == next[w]);
                    }
                }
                if has_type(next, 5) {
                    let w = choose|j: int| 0 <= j < next.len() && nal_type(#[trigger] next[j]) == 5;
                    if w < k {
                        assert(ns.take(k as int)[w] == next[w]);
                    }
                }
                if has_type(ns.take(k as int), 7) {
                    let w = choose|j: int|
                        0 <= j < k && nal_type(#[trigger] ns.take(k as int)[j]) == 7;
                    assert(next[w] == ns.take(k as int)[w]);
                }
                if has_type(ns.take(k as int), 8) {
                    let w = choose|j: int|
                        0 <= j < k && nal_type(#[trigger] ns.take(k as int)[j]) == 8;
                    assert(next[w] == ns.take(k as int)[w]);
                }
                if has_type(ns.take(k as int), 5) {
                    let w = choose|j: int|
                        0 <= j < k && nal_type(#[trigger] ns.take(k as int)[j]) == 5;
                    assert(next[w] == ns.take(k as int)[w]);
                }
            }
            if t == 7 {
                self.sps = vstd::slice::slice_to_vec(n);
                sps = true;
            } else if t == 8 {
                self.pps = vstd::slice::slice_to_vec(n);
                pps = true;
            } else if t == 5 {
                idr = true;
            }
            k = k + 1;
        }
        assert(ns.take(ns.len() as int) =~= ns);
        let mut out: Vec<u8> = Vec::new();
        if idr {
            if self.sps.len() == 0 || self.pps.len() == 0 {
                return Err(H264Error::MissingParameterSets);
            }
            if !sps {
                out.push(0);
                out.push(0);
                out.push(0);
                out.push(1);
                let mut s = vstd::slice::slice_to_vec(self.sps.as_slice());
                out.append(&mut s);
            }
            let ghost after_sps = out@;
            if !pps {
                out.push(0);
                out.push(0);
                out.push(0);
                out.push(1);
                let mut p = vstd::slice::slice_to_vec(self.pps.as_slice());
                out.append(&mut p);
            }
            proof {
                if !sps {
                    assert(after_sps =~= start_code() + self.sps@);
                } else {
                    assert(after_sps =~= Seq::<u8>::empty());
                }
                if !pps {
                    assert(out@ =~= after_sps + (start_code() + self.pps@));
                } else {
                    assert(out@ =~= after_sps);
                }
            }
        }
        let ghost head = out@;
        let mut rest = vstd::slice::slice_to_vec(data);
        out.append(&mut rest);
        proof {
            let with_sps = if idr && !sps {
                start_code() + self.sps@
            } else {
                Seq::<u8>::empty()
            };
            let with_pps = if idr && !pps {
                start_code() + self.pps@
            } else {
                Seq::<u8>::empty()
            };
            assert(head =~= with_sps + with_pps);
            assert(out@ =~= with_sps + with_pps + data@);
        }
        if out.len() > MAX_FRAME {
            return Err(H264Error::TooLarge);
        }
        Ok((out, idr))
    }
}

} // verus!
