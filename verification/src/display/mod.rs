//! Display modes derived from the client's capabilities.
use crate::protocol::{DisplayCapabilities, DisplayMode};
use vstd::prelude::*;

verus! {

/// Why the client's capabilities yield no display modes.
#[derive(Debug, Clone, Copy, PartialEq, Eq, Structural)]
pub enum ModeError {
    /// A physical edge is outside 320..=4094 pixels.
    UnsupportedDimensions,
    /// The native scale is outside 1.0..=4.0, or the client cannot show 30 fps.
    InvalidCapabilities,
    /// A logical edge is zero.
    InvalidLogicalResolution,
    /// Some mode would exceed the EDID pixel-clock limit.
    TimingLimit,
}

impl ModeError {
    /// The text `describe` gives for each reason.
    pub open spec fn reason_text(&self) -> Seq<char> {
        match *self {
            ModeError::UnsupportedDimensions => "unsupported iPad dimensions"@,
            ModeError::InvalidCapabilities => "invalid display capabilities"@,
            ModeError::InvalidLogicalResolution => "invalid logical resolution"@,
            ModeError::TimingLimit => "display timing exceeds EDID clock limit"@,
        }
    }

    /// Human-readable reason.
    pub fn describe(&self) -> (r: &'static str)
        ensures
            r@ == self.reason_text(),
    {
        match self {
            ModeError::UnsupportedDimensions => "unsupported iPad dimensions",
            ModeError::InvalidCapabilities => "invalid display capabilities",
            ModeError::InvalidLogicalResolution => "invalid logical resolution",
            ModeError::TimingLimit => "display timing exceeds EDID clock limit",
        }
    }
}

/// Bit pattern of the binary32 value 1.0.
pub const SCALE_ONE_BITS: u32 = 0x3f80_0000;

/// Bit pattern of the binary32 value 4.0.
pub const SCALE_FOUR_BITS: u32 = 0x4080_0000;

/// Non-negative finite binary32 values are ordered as their bit patterns, and every
/// negative or non-finite pattern lies outside this range, so a float lies in
/// 1.0..=4.0 exactly when its bits do.
pub open spec fn scale_in_range(bits: u32) -> bool {
    SCALE_ONE_BITS <= bits <= SCALE_FOUR_BITS
}

/// `num / den` rounded to the nearest integer, ties to even.
pub open spec fn round_half_even(num: nat, den: nat) -> nat
    recommends
        den > 0,
{
    let q = num / den;
    let r = num % den;
    if 2 * r > den || (2 * r == den && q % 2 == 1) {
        q + 1
    } else {
        q
    }
}

/// The weight of the 53rd significant bit of `p`, when `p` has more than 53 bits;
/// otherwise 1: the smallest power of two `u` from `start` on with `p < 2^53 * u`.
pub open spec fn sig_unit(p: nat, u: nat) -> nat
    decreases p - u,
{
    if u >= 1 && p >= 0x20_0000_0000_0000 * u {
        sig_unit(p, 2 * u)
    } else {
        u
    }
}

/// `p` rounded to 53 significant bits, ties to even.
pub open spec fn round_53(p: nat) -> nat {
    let u = sig_unit(p, 1);
    round_half_even(p, u) * u
}

/// The edge `x` of a display whose longer edge `m` is brought down to `e`, as the
/// host computes it in binary64: `e / m` rounded to 53 significant bits (it lies in
/// [1/4, 1) when `e < m`, so it is a multiple of 2^-53 or 2^-54), the product with
/// `x` rounded to 53 significant bits, then truncated. When `e >= m` the scale is 1
/// and `x` is kept.
pub open spec fn scaled_edge(x: nat, e: nat, m: nat) -> nat {
    if e >= m {
        x
    } else {
        let unit: nat = if 2 * e >= m {
            0x20_0000_0000_0000
        } else {
            0x40_0000_0000_0000
        };
        let q = round_half_even(e * unit, m);
        round_53(x * q) / unit
    }
}

/// The largest even number not above `x`.
pub open spec fn even(x: int) -> int {
    x - x % 2
}

/// The candidate sizes: the panel scaled so its longer edge is 1280, 1920 and its own
/// length (each made even, later duplicates dropped), then 1920x1080 in the panel's
/// orientation when it fits and is not listed yet.
pub open spec fn sizes_spec(w: nat, h: nat) -> Seq<(u32, u32)> {
    let m = if w >= h {
        w
    } else {
        h
    };
    let c1 = (even(scaled_edge(w, 1280, m) as int) as u32, even(scaled_edge(h, 1280, m) as int) as u32);
    let c2 = (even(scaled_edge(w, 1920, m) as int) as u32, even(scaled_edge(h, 1920, m) as int) as u32);
    let c3 = (even(w as int) as u32, even(h as int) as u32);
    let s1 = seq![c1];
    let s2 = if s1.contains(c2) {
        s1
    } else {
        s1.push(c2)
    };
    let s3 = if s2.contains(c3) {
        s2
    } else {
        s2.push(c3)
    };
    let full_hd: (u32, u32) = if w >= h {
        (1920, 1080)
    } else {
        (1080, 1920)
    };
    if full_hd.0 <= w && full_hd.1 <= h && !s3.contains(full_hd) {
        s3.push(full_hd)
    } else {
        s3
    }
}

/// The EDID pixel-clock bound with blanking (160 horizontal, 30 vertical).
pub open spec fn within_clock(size: (u32, u32), fps: u32) -> bool {
    (size.0 + 160) * (size.1 + 30) * fps <= 655_350_000
}

/// The mode for a size: 150% scaling from 2300 pixels wide.
pub open spec fn mode_of(size: (u32, u32), fps: u32) -> DisplayMode {
    DisplayMode {
        width: size.0,
        height: size.1,
        fps,
        scale_percent: if size.0 >= 2300 {
            150
        } else {
            100
        },
    }
}

/// The frame rate offered: the configured one, capped by the client and by 60.
pub open spec fn offered_fps(c: DisplayCapabilities, fps: u32) -> u32 {
    let a = if fps <= c.max_fps {
        fps
    } else {
        c.max_fps
    };
    if a <= 60 {
        a
    } else {
        60
    }
}

/// The modes offered for the capabilities `c` and configured frame rate, or why none are.
pub open spec fn modes_spec(c: DisplayCapabilities, fps: u32) -> Result<Seq<DisplayMode>, ModeError> {
    if !(320 <= c.physical_width <= 4094 && 320 <= c.physical_height <= 4094) {
        Err(ModeError::UnsupportedDimensions)
    } else if !(scale_in_range(c.native_scale) && c.max_fps >= 30) {
        Err(ModeError::InvalidCapabilities)
    } else if !(c.logical_width > 0 && c.logical_height > 0) {
        Err(ModeError::InvalidLogicalResolution)
    } else {
        let f = offered_fps(c, fps);
        let sizes = sizes_spec(c.physical_width as nat, c.physical_height as nat);
        if exists|i: int| 0 <= i < sizes.len() && !within_clock(#[trigger] sizes[i], f) {
            Err(ModeError::TimingLimit)
        } else {
            Ok(sizes.map_values(|s: (u32, u32)| mode_of(s, f)))
        }
    }
}

/// Executable `round_half_even` on `u128`.
fn div_round_even(num: u128, den: u128) -> (r: u128)
    requires
        den > 0,
    ensures
        r == round_half_even(num as nat, den as nat),
        r <= num / den + 1,
{
    let q = num / den;
    let r = num % den;
    if r > den - r || (r == den - r && q % 2 == 1) {
        assert(q < num) by (nonlinear_arith)
            requires
                q == num / den,
                r == num % den,
                r > 0,
                den > 0,
        {
        }
        q + 1
    } else {
        q
    }
}

proof fn lemma_round_bound(num: nat, den: nat, unit: nat, e: nat)
    requires
        0 < den,
        e < den,
        num == e * unit,
        unit > 0,
    ensures
        round_half_even(num, den) <= unit,
{
    let q = num / den;
    assert(q * den <= num) by (nonlinear_arith)
        requires
            q == num / den,
            den > 0,
    ;
    assert(q < unit) by (nonlinear_arith)
        requires
            q * den <= num,
            num == e * unit,
            e < den,
            unit > 0,
    {
        if q >= unit {
            assert(q * den >= unit * den);
            assert(unit * den > unit * e);
        }
    }
}

proof fn lemma_result_bound(x: nat, q: nat, unit: nat, p: nat, u: nat, t: nat)
    requires
        p == x * q,
        q <= unit,
        0 < u < unit,
        t <= (p / u + 1) * u,
    ensures
        t / unit <= x,
{
    assert((p / u) * u <= p) by (nonlinear_arith)
        requires
            u > 0,
    ;
    assert(t <= p + u) by (nonlinear_arith)
        requires
            t <= (p / u + 1) * u,
            (p / u) * u <= p,
    ;
    assert(p <= x * unit) by (nonlinear_arith)
        requires
            p == x * q,
            q <= unit,
    ;
    assert(t / unit <= x) by (nonlinear_arith)
        requires
            t <= x * unit + u,
            0 < u < unit,
    {
        if t / unit > x {
            assert((t / unit) * unit >= (x + 1) * unit);
            assert((t / unit) * unit <= t);
        }
    }
}

proof fn lemma_rhe_bounds(n: nat, d: nat)
    requires
        d > 0,
    ensures
        n / d <= round_half_even(n, d) <= n / d + 1,
        (n / d) * d <= n,
{
    assert((n / d) * d <= n) by (nonlinear_arith)
        requires
            d > 0,
    ;
}

proof fn lemma_rhe_monotone(n1: nat, n2: nat, d: nat)
    requires
        d > 0,
        n1 <= n2,
    ensures
        round_half_even(n1, d) <= round_half_even(n2, d),
{
    let q1 = n1 / d;
    let q2 = n2 / d;
    let r1 = n1 % d;
    let r2 = n2 % d;
    assert(q1 <= q2) by (nonlinear_arith)
        requires
            d > 0,
            n1 <= n2,
            q1 == n1 / d,
            q2 == n2 / d,
    ;
    if q1 == q2 {
        assert(r1 <= r2) by (nonlinear_arith)
            requires
                d > 0,
                n1 <= n2,
                q1 == n1 / d,
                q2 == n2 / d,
                q1 == q2,
                r1 == n1 % d,
                r2 == n2 % d,
        {
            assert(n1 == q1 * d + r1);
            assert(n2 == q2 * d + r2);
        }
    }
}

/// `sig_unit` from `u` on: at least `u`, `p` below 2^53 of it, and when it grew, `p`
/// at least 2^52 of it.
proof fn lemma_sig_unit(p: nat, u: nat)
    requires
        u >= 1,
    ensures
        sig_unit(p, u) >= u,
        p < 0x20_0000_0000_0000 * sig_unit(p, u),
        sig_unit(p, u) > u ==> 2 * p >= 0x20_0000_0000_0000 * sig_unit(p, u),
    decreases p - u,
{
    if p >= 0x20_0000_0000_0000 * u {
        lemma_sig_unit(p, 2 * u);
    }
}

proof fn lemma_sig_unit_pair(p1: nat, p2: nat, u: nat)
    requires
        u >= 1,
        p1 <= p2,
    ensures
        sig_unit(p1, u) <= sig_unit(p2, u),
        sig_unit(p1, u) < sig_unit(p2, u) ==> 2 * sig_unit(p1, u) <= sig_unit(p2, u),
    decreases p2 - u,
{
    if p1 >= 0x20_0000_0000_0000 * u {
        lemma_sig_unit_pair(p1, p2, 2 * u);
    } else if p2 >= 0x20_0000_0000_0000 * u {
        lemma_sig_unit(p2, 2 * u);
    }
}

/// Rounding to 53 significant bits keeps the order of its arguments.
proof fn lemma_round_53_monotone(p1: nat, p2: nat)
    requires
        p1 <= p2,
    ensures
        round_53(p1) <= round_53(p2),
{
    let a = sig_unit(p1, 1);
    let b = sig_unit(p2, 1);
    lemma_sig_unit(p1, 1);
    lemma_sig_unit(p2, 1);
    lemma_sig_unit_pair(p1, p2, 1);
    if a == b {
        lemma_rhe_monotone(p1, p2, a);
        let r1 = round_half_even(p1, a);
        let r2 = round_half_even(p2, a);
        assert(r1 * a <= r2 * a) by (nonlinear_arith)
            requires
                r1 <= r2,
        ;
    } else {
        lemma_rhe_bounds(p1, a);
        lemma_rhe_bounds(p2, b);
        let r1 = round_half_even(p1, a);
        let r2 = round_half_even(p2, b);
        assert(p1 / a < 0x20_0000_0000_0000) by (nonlinear_arith)
            requires
                a >= 1,
                p1 < 0x20_0000_0000_0000 * a,
        {
            if p1 / a >= 0x20_0000_0000_0000 {
                assert((p1 / a) * a >= 0x20_0000_0000_0000 * a);
                assert((p1 / a) * a <= p1);
            }
        }
        assert(r1 * a <= 0x20_0000_0000_0000 * a) by (nonlinear_arith)
            requires
                r1 <= 0x20_0000_0000_0000,
        ;
        assert(p2 / b >= 0x10_0000_0000_0000) by (nonlinear_arith)
            requires
                b >= 1,
                2 * p2 >= 0x20_0000_0000_0000 * b,
        {
            assert(p2 >= 0x10_0000_0000_0000 * b);
            assert(p2 == (p2 / b) * b + p2 % b);
            if p2 / b < 0x10_0000_0000_0000 {
                assert((p2 / b) * b <= (0x10_0000_0000_0000 - 1) * b);
            }
        }
        assert(r2 * b >= 0x10_0000_0000_0000 * b) by (nonlinear_arith)
            requires
                r2 >= 0x10_0000_0000_0000,
        ;
        assert(0x10_0000_0000_0000 * b >= 0x20_0000_0000_0000 * a) by (nonlinear_arith)
            requires
                2 * a <= b,
        ;
    }
}

/// Rounding to 53 significant bits at most doubles its argument, plus one.
proof fn lemma_round_53_bound(p: nat)
    ensures
        round_53(p) <= 2 * p + 1,
{
    let u = sig_unit(p, 1);
    lemma_sig_unit(p, 1);
    lemma_rhe_bounds(p, u);
    let r = round_half_even(p, u);
    assert(r * u <= p + u) by (nonlinear_arith)
        requires
            r <= p / u + 1,
            (p / u) * u <= p,
            u >= 1,
    ;
    if u > 1 {
        assert(p >= u) by (nonlinear_arith)
            requires
                2 * p >= 0x20_0000_0000_0000 * u,
                u > 1,
        ;
    }
}

/// The scaled edge keeps the order of the edges it scales.
proof fn lemma_scaled_edge_monotone(x1: nat, x2: nat, e: nat, m: nat)
    requires
        x1 <= x2,
        m > 0,
    ensures
        scaled_edge(x1, e, m) <= scaled_edge(x2, e, m),
{
    if e < m {
        let unit: nat = if 2 * e >= m {
            0x20_0000_0000_0000
        } else {
            0x40_0000_0000_0000
        };
        let q = round_half_even(e * unit, m);
        assert(x1 * q <= x2 * q) by (nonlinear_arith)
            requires
                x1 <= x2,
        ;
        lemma_round_53_monotone(x1 * q, x2 * q);
        let t1 = round_53(x1 * q);
        let t2 = round_53(x2 * q);
        assert(t1 / unit <= t2 / unit) by (nonlinear_arith)
            requires
                t1 <= t2,
                unit > 0,
        ;
    }
}

/// The scaled edge of a display at most 4094 wide or high fits easily in 32 bits.
proof fn lemma_scaled_edge_small(x: nat, e: nat, m: nat)
    requires
        x <= 4094,
        m > 0,
    ensures
        scaled_edge(x, e, m) <= 2 * x + 1,
{
    if e < m {
        let unit: nat = if 2 * e >= m {
            0x20_0000_0000_0000
        } else {
            0x40_0000_0000_0000
        };
        let q = round_half_even(e * unit, m);
        lemma_round_bound(e * unit, m, unit, e);
        assert(x * q <= x * unit) by (nonlinear_arith)
            requires
                q <= unit,
        ;
        lemma_round_53_bound(x * q);
        let t = round_53(x * q);
        assert(t / unit <= 2 * x + 1) by (nonlinear_arith)
            requires
                t <= 2 * (x * unit) + 1,
                unit > 1,
        {
            assert(t <= (2 * x + 1) * unit);
            if t / unit > 2 * x + 1 {
                assert((t / unit) * unit >= (2 * x + 2) * unit);
                assert((t / unit) * unit <= t);
            }
        }
    }
}

/// A candidate size scaled from a panel keeps the panel's orientation.
proof fn lemma_scaled_pair_oriented(a: nat, b: nat, e: nat, m: nat)
    requires
        a <= b <= 4094,
        m > 0,
    ensures
        (even(scaled_edge(a, e, m) as int) as u32) <= (even(scaled_edge(b, e, m) as int) as u32),
{
    lemma_scaled_edge_monotone(a, b, e, m);
    lemma_scaled_edge_small(a, e, m);
    lemma_scaled_edge_small(b, e, m);
}

/// The candidate sizes follow the panel's orientation: on a portrait panel no size is
/// wider than high, on a landscape or square one none is higher than wide; and the
/// full-HD size in that orientation, 1080x1920 or 1920x1080, is among them whenever the
/// panel holds it.
pub proof fn lemma_sizes_follow_orientation(w: nat, h: nat)
    requires
        320 <= w <= 4094,
        320 <= h <= 4094,
    ensures
        w < h ==> forall|i: int|
            0 <= i < sizes_spec(w, h).len() ==> (#[trigger] sizes_spec(w, h)[i]).0
                <= sizes_spec(w, h)[i].1,
        w >= h ==> forall|i: int|
            0 <= i < sizes_spec(w, h).len() ==> (#[trigger] sizes_spec(w, h)[i]).0
                >= sizes_spec(w, h)[i].1,
        w < h && 1080 <= w && 1920 <= h ==> sizes_spec(w, h).contains((1080u32, 1920u32)),
        w >= h && 1920 <= w && 1080 <= h ==> sizes_spec(w, h).contains((1920u32, 1080u32)),
{
    let m = if w >= h {
        w
    } else {
        h
    };
    let c1 = (even(scaled_edge(w, 1280, m) as int) as u32, even(scaled_edge(h, 1280, m) as int) as u32);
    let c2 = (even(scaled_edge(w, 1920, m) as int) as u32, even(scaled_edge(h, 1920, m) as int) as u32);
    let c3 = (even(w as int) as u32, even(h as int) as u32);
    let s1 = seq![c1];
    let s2 = if s1.contains(c2) {
        s1
    } else {
        s1.push(c2)
    };
    let s3 = if s2.contains(c3) {
        s2
    } else {
        s2.push(c3)
    };
    let full_hd: (u32, u32) = if w >= h {
        (1920, 1080)
    } else {
        (1080, 1920)
    };
    let sz = sizes_spec(w, h);
    if w < h {
        lemma_scaled_pair_oriented(w, h, 1280, m);
        lemma_scaled_pair_oriented(w, h, 1920, m);
    } else {
        lemma_scaled_pair_oriented(h, w, 1280, m);
        lemma_scaled_pair_oriented(h, w, 1920, m);
    }
    assert(forall|i: int| 0 <= i < sz.len() ==> #[trigger] sz[i] == c1 || sz[i] == c2 || sz[i] == c3 || sz[i] == full_hd);
    if full_hd.0 <= w && full_hd.1 <= h {
        if s3.contains(full_hd) {
            assert(sz == s3);
        } else {
            assert(sz[sz.len() - 1] == full_hd);
        }
    }
}

/// The modes offered follow the panel's orientation: on a portrait panel every mode is
/// at most as wide as high and the portrait full-HD mode 1080x1920 is offered when the
/// panel holds it; on a landscape or square panel every mode is at least as wide as
/// high and 1920x1080 is offered when it fits.
pub proof fn lemma_modes_follow_orientation(c: DisplayCapabilities, fps: u32)
    ensures
        modes_spec(c, fps) is Ok && c.physical_width < c.physical_height ==> forall|i: int|
            0 <= i < modes_spec(c, fps)->Ok_0.len() ==> (#[trigger] modes_spec(c, fps)->Ok_0[i]).width
                <= modes_spec(c, fps)->Ok_0[i].height,
        modes_spec(c, fps) is Ok && c.physical_width >= c.physical_height ==> forall|i: int|
            0 <= i < modes_spec(c, fps)->Ok_0.len() ==> (#[trigger] modes_spec(c, fps)->Ok_0[i]).width
                >= modes_spec(c, fps)->Ok_0[i].height,
        modes_spec(c, fps) is Ok && c.physical_width < c.physical_height && 1080 <= c.physical_width
            && 1920 <= c.physical_height ==> exists|i: int|
            0 <= i < modes_spec(c, fps)->Ok_0.len() && (#[trigger] modes_spec(c, fps)->Ok_0[i]).width
                == 1080 && modes_spec(c, fps)->Ok_0[i].height == 1920,
        modes_spec(c, fps) is Ok && c.physical_width >= c.physical_height && 1920 <= c.physical_width
            && 1080 <= c.physical_height ==> exists|i: int|
            0 <= i < modes_spec(c, fps)->Ok_0.len() && (#[trigger] modes_spec(c, fps)->Ok_0[i]).width
                == 1920 && modes_spec(c, fps)->Ok_0[i].height == 1080,
{
    if modes_spec(c, fps) is Ok {
        let w = c.physical_width as nat;
        let h = c.physical_height as nat;
        let f = offered_fps(c, fps);
        let sz = sizes_spec(w, h);
        let ms = sz.map_values(|s: (u32, u32)| mode_of(s, f));
        assert(modes_spec(c, fps) == Ok::<Seq<DisplayMode>, ModeError>(ms));
        lemma_sizes_follow_orientation(w, h);
        assert(forall|i: int| 0 <= i < ms.len() ==> #[trigger] ms[i] == mode_of(sz[i], f));
        if w < h {
            assert forall|i: int| 0 <= i < ms.len() implies (#[trigger] ms[i]).width <= ms[i].height by {
                assert(ms[i] == mode_of(sz[i], f));
                assert(sz[i].0 <= sz[i].1);
            }
        } else {
            assert forall|i: int| 0 <= i < ms.len() implies (#[trigger] ms[i]).width >= ms[i].height by {
                assert(ms[i] == mode_of(sz[i], f));
                assert(sz[i].0 >= sz[i].1);
            }
        }
        if w < h && 1080 <= w && 1920 <= h {
            let j = choose|j: int| 0 <= j < sz.len() && sz[j] == (1080u32, 1920u32);
            assert(ms[j].width == 1080 && ms[j].height == 1920);
            assert(modes_spec(c, fps)->Ok_0[j] == ms[j]);
            assert(exists|i: int|
                0 <= i < ms.len() && (#[trigger] ms[i]).width == 1080 && ms[i].height == 1920);
        }
        if w >= h && 1920 <= w && 1080 <= h {
            let j = choose|j: int| 0 <= j < sz.len() && sz[j] == (1920u32, 1080u32);
            assert(ms[j].width == 1920 && ms[j].height == 1080);
            assert(modes_spec(c, fps)->Ok_0[j] == ms[j]);
            assert(exists|i: int|
                0 <= i < ms.len() && (#[trigger] ms[i]).width == 1920 && ms[i].height == 1080);
        }
    }
}

/// Executable `scaled_edge` for the sizes the host handles.
fn scale_edge(x: u32, e: u32, m: u32) -> (r: u32)
    requires
        0 < x <= m <= 4094,
        e <= 1920,
    ensures
        r == scaled_edge(x as nat, e as nat, m as nat),
        r <= x,
{
    if e >= m {
        return x;
    }
    let unit: u128 = if 2 * e >= m {
        0x20_0000_0000_0000
    } else {
        0x40_0000_0000_0000
    };
    let num = e as u128 * unit;
    let q = div_round_even(num, m as u128);
    proof {
        lemma_round_bound(num as nat, m as nat, unit as nat, e as nat);
    }
    assert(x as u128 * q <= 4094 * 0x40_0000_0000_0000) by (nonlinear_arith)
        requires
            x <= 4094,
            q <= unit,
            unit <= 0x40_0000_0000_0000,
    ;
    let p = x as u128 * q;
    let mut u: u128 = 1;
    while p >= 0x20_0000_0000_0000 * u
        invariant
            1 <= u <= 0x4000,
            p <= 4094 * 0x40_0000_0000_0000,
            sig_unit(p as nat, u as nat) == sig_unit(p as nat, 1),
        decreases p - u,
    {
        u = u * 2;
    }
    assert(sig_unit(p as nat, u as nat) == u);
    let r = div_round_even(p, u);
    assert(r * u <= (p / u + 1) * u) by (nonlinear_arith)
        requires
            r <= p / u + 1,
    ;
    assert((p / u + 1) * u <= p + u) by (nonlinear_arith)
        requires
            u > 0,
    ;
    let t = r * u;
    proof {
        lemma_result_bound(x as nat, q as nat, unit as nat, p as nat, u as nat, t as nat);
    }
    (t / unit) as u32
}

fn contains_pair(v: &Vec<(u32, u32)>, p: (u32, u32)) -> (r: bool)
    ensures
        r == v@.contains(p),
{
    let mut i: usize = 0;
    while i < v.len()
        invariant
            i <= v@.len(),
            forall|j: int| 0 <= j < i ==> v@[j] != p,
        decreases v.len() - i,
    {
        if v[i].0 == p.0 && v[i].1 == p.1 {
            assert(v@[i as int] == p);
            return true;
        }
        i = i + 1;
    }
    false
}

/// The display modes offered for the client's capabilities at the configured frame rate.
pub fn modes(c: &DisplayCapabilities, fps: u32) -> (res: Result<Vec<DisplayMode>, ModeError>)
    ensures
        match modes_spec(*c, fps) {
            Ok(ms) => res matches Ok(v) && v@ == ms,
            Err(e) => res matches Err(x) && x == e,
        },
        res matches Ok(v) ==> v@.len() >= 1 && forall|i: int|
            0 <= i < v@.len() ==> {
                &&& (#[trigger] v@[i]).width % 2 == 0
                &&& v@[i].height % 2 == 0
                &&& v@[i].width <= c.physical_width
                &&& v@[i].height <= c.physical_height
                &&& v@[i].fps == offered_fps(*c, fps)
                &&& v@[i].fps <= 60
                &&& v@[i].fps <= c.max_fps
            },
{
    if !(320 <= c.physical_width && c.physical_width <= 4094 && 320 <= c.physical_height
        && c.physical_height <= 4094) {
        return Err(ModeError::UnsupportedDimensions);
    }
    if !(SCALE_ONE_BITS <= c.native_scale && c.native_scale <= SCALE_FOUR_BITS && c.max_fps >= 30) {
        return Err(ModeError::InvalidCapabilities);
    }
    if !(c.logical_width > 0 && c.logical_height > 0) {
        return Err(ModeError::InvalidLogicalResolution);
    }
    let capped = if fps <= c.max_fps {
        fps
    } else {
        c.max_fps
    };
    let f = if capped <= 60 {
        capped
    } else {
        60
    };
    let w = c.physical_width;
    let h = c.physical_height;
    let m = if w >= h {
        w
    } else {
        h
    };
    let a1 = scale_edge(w, 1280, m);
    let b1 = scale_edge(h, 1280, m);
    let a2 = scale_edge(w, 1920, m);
    let b2 = scale_edge(h, 1920, m);
    let c1 = (a1 - a1 % 2, b1 - b1 % 2);
    let c2 = (a2 - a2 % 2, b2 - b2 % 2);
    let c3 = (w - w % 2, h - h % 2);
    let mut sizes: Vec<(u32, u32)> = Vec::new();
    sizes.push(c1);
    if !contains_pair(&sizes, c2) {
        sizes.push(c2);
    }
    if !contains_pair(&sizes, c3) {
        sizes.push(c3);
    }
    let full_hd: (u32, u32) = if w >= h {
        (1920, 1080)
    } else {
        (1080, 1920)
    };
    if full_hd.0 <= w && full_hd.1 <= h && !contains_pair(&sizes, full_hd) {
        sizes.push(full_hd);
    }
    let ghost expected = sizes_spec(w as nat, h as nat);
    assert(sizes@ =~= expected);
    assert(forall|j: int|
        0 <= j < sizes@.len() ==> (#[trigger] sizes@[j]).0 % 2 == 0 && sizes@[j].1 % 2 == 0
            && sizes@[j].0 <= w && sizes@[j].1 <= h);
    let mut i: usize = 0;
    while i < sizes.len()
        invariant
            i <= sizes@.len(),
            sizes@ == expected,
            expected == sizes_spec(c.physical_width as nat, c.physical_height as nat),
            f == offered_fps(*c, fps),
            f <= 60,
            320 <= c.physical_width <= 4094 && 320 <= c.physical_height <= 4094,
            scale_in_range(c.native_scale) && c.max_fps >= 30,
            c.logical_width > 0 && c.logical_height > 0,
            forall|j: int|
                0 <= j < sizes@.len() ==> (#[trigger] sizes@[j]).0 <= 4094 && sizes@[j].1 <= 4094,
            forall|j: int| 0 <= j < i ==> within_clock(#[trigger] sizes@[j], f),
        decreases sizes.len() - i,
    {
        let (sw, sh) = sizes[i];
        let a = sw as u64 + 160;
        let b = sh as u64 + 30;
        assert(a * b <= 4254 * 4124) by (nonlinear_arith)
            requires
                a <= 4254,
                b <= 4124,
        ;
        let ab = a * b;
        assert(ab * (f as u64) <= 4254 * 4124 * 60) by (nonlinear_arith)
            requires
                ab <= 4254 * 4124,
                f <= 60,
        ;
        let clock = ab * (f as u64);
        if clock > 655_350_000 {
            proof {
                let sz = sizes_spec(c.physical_width as nat, c.physical_height as nat);
                assert(sz[i as int] == (sw, sh));
                assert(!within_clock(sz[i as int], f));
                assert(f == offered_fps(*c, fps));
                assert(exists|j: int| 0 <= j < sz.len() && !within_clock(#[trigger] sz[j], f));
            }
            return Err(ModeError::TimingLimit);
        }
        i = i + 1;
    }
    let mut out: Vec<DisplayMode> = Vec::new();
    let mut k: usize = 0;
    while k < sizes.len()
        invariant
            k <= sizes@.len(),
            out@.len() == k,
            forall|j: int| 0 <= j < k ==> out@[j] == mode_of(#[trigger] sizes@[j], f),
            forall|j: int|
                0 <= j < sizes@.len() ==> (#[trigger] sizes@[j]).0 % 2 == 0 && sizes@[j].1 % 2
                    == 0 && sizes@[j].0 <= c.physical_width && sizes@[j].1 <= c.physical_height,
            f == offered_fps(*c, fps),
            f <= 60,
            f <= c.max_fps,
        decreases sizes.len() - k,
    {
        let (sw, sh) = sizes[k];
        out.push(
            DisplayMode {
                width: sw,
                height: sh,
                fps: f,
                scale_percent: if sw >= 2300 {
                    150
                } else {
                    100
                },
            },
        );
        k = k + 1;
    }
    assert(out@ =~= expected.map_values(|s: (u32, u32)| mode_of(s, f)));
    Ok(out)
}

/// How far a mode's pixel count is from 1920x1080.
pub open spec fn distance_to_full_hd(m: DisplayMode) -> int {
    let d = m.width * m.height - 1920 * 1080;
    if d >= 0 {
        d
    } else {
        -d
    }
}

/// `i` is the first mode whose pixel count is closest to 1920x1080.
pub open spec fn is_preferred(ms: Seq<DisplayMode>, i: int) -> bool {
    &&& 0 <= i < ms.len()
    &&& forall|j: int| 0 <= j < ms.len() ==> distance_to_full_hd(ms[i]) <= distance_to_full_hd(#[trigger] ms[j])
    &&& forall|j: int| 0 <= j < i ==> distance_to_full_hd(ms[i]) < distance_to_full_hd(#[trigger] ms[j])
}

/// The preferred mode has, of all the modes, a pixel count nearest to the 2,073,600
/// pixels of 1920x1080, and every mode before it is strictly farther.
pub proof fn lemma_preferred_nearest_full_hd(ms: Seq<DisplayMode>, i: int, j: int)
    requires
        is_preferred(ms, i),
        0 <= j < ms.len(),
    ensures
        ({
            let a = ms[i].width * ms[i].height - 2_073_600;
            let b = ms[j].width * ms[j].height - 2_073_600;
            &&& (if a >= 0 { a } else { -a }) <= (if b >= 0 { b } else { -b })
            &&& j < i ==> (if a >= 0 { a } else { -a }) < (if b >= 0 { b } else { -b })
        }),
{
    assert(distance_to_full_hd(ms[i]) <= distance_to_full_hd(ms[j]));
}

/// The first mode whose pixel count is closest to 1920x1080.
pub fn preferred(modes: &[DisplayMode]) -> (r: Option<&DisplayMode>)
    requires
        forall|j: int|
            0 <= j < modes@.len() ==> (#[trigger] modes@[j]).width * modes@[j].height
                <= i64::MAX,
    ensures
        modes@.len() == 0 ==> r is None,
        modes@.len() > 0 ==> (r matches Some(m) && exists|i: int|
            is_preferred(modes@, i) && *m == modes@[i]),
{
    if modes.len() == 0 {
        return None;
    }
    let mut best: usize = 0;
    let mut best_key: u64 = 0;
    let mut i: usize = 0;
    while i < modes.len()
        invariant
            i <= modes@.len(),
            modes@.len() > 0,
            best < modes@.len(),
            i > 0 ==> best < i,
            i > 0 ==> best_key == distance_to_full_hd(modes@[best as int]),
            i > 0 ==> forall|j: int|
                0 <= j < i ==> distance_to_full_hd(modes@[best as int]) <= distance_to_full_hd(
                    #[trigger] modes@[j],
                ),
            forall|j: int|
                0 <= j < best ==> distance_to_full_hd(modes@[best as int]) < distance_to_full_hd(
                    #[trigger] modes@[j],
                ),
        decreases modes.len() - i,
    {
        let mw = modes[i].width as u64;
        let mh = modes[i].height as u64;
        assert(mw * mh <= 0xffff_fffe_0000_0001) by (nonlinear_arith)
            requires
                mw <= 0xffff_ffff,
                mh <= 0xffff_ffff,
        ;
        let area = mw * mh;
        let key = if area >= 2073600 {
            area - 2073600
        } else {
            2073600 - area
        };
        if i == 0 || key < best_key {
            best = i;
            best_key = key;
        }
        i = i + 1;
    }
    assert(is_preferred(modes@, best as int));
    Some(&modes[best])
}

} // verus!
