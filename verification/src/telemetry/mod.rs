//! Adaptive bitrate control from client statistics.
use crate::protocol::Statistics;
use vstd::prelude::*;

verus! {

/// One second, in microseconds.
pub const SAMPLE_INTERVAL_US: u64 = 1_000_000;

/// Healthy samples in a row before the bitrate grows.
pub const HEALTHY_SAMPLES: u8 = 5;

/// The link is congested: high loss or RTT, a decoder backlog, or dropped frames.
pub open spec fn congested(s: Statistics) -> bool {
    s.loss_ppm > 20_000 || s.rtt_us > 60_000 || s.decode_queue > 1 || s.dropped_frames > 3
}

/// The link is healthy: low loss and RTT and an empty decoder queue.
pub open spec fn healthy(s: Statistics) -> bool {
    s.loss_ppm < 2000 && s.rtt_us < 30_000 && s.decode_queue == 0
}

/// Whole microseconds from `earlier` to `later`, zero when `later` is not after it.
pub open spec fn elapsed(earlier: u64, later: u64) -> int {
    if later >= earlier {
        later - earlier
    } else {
        0
    }
}

/// Lowers the bitrate by a quarter under congestion and raises it by a twentieth
/// after five healthy one-second samples, within the configured limits.
pub struct AdaptiveBitrate {
    pub current: u32,
    min: u32,
    max: u32,
    healthy: u8,
    last: u64,
}

/// The state of the bitrate controller: the target rate, its limits, the healthy
/// samples counted and when the last sample was taken.
pub struct BitrateView {
    pub rate: u32,
    pub min: u32,
    pub max: u32,
    pub healthy: u8,
    pub last: u64,
}

/// The state and answer after the sample `s` arrives at `now`.
pub open spec fn sample_spec(a: BitrateView, s: Statistics, now: u64) -> (BitrateView, Option<u32>) {
    if elapsed(a.last, now) < SAMPLE_INTERVAL_US {
        (a, None)
    } else {
        let b = if congested(s) {
            BitrateView {
                rate: if a.rate * 3 / 4 >= a.min {
                    (a.rate * 3 / 4) as u32
                } else {
                    a.min
                },
                healthy: 0,
                last: now,
                ..a
            }
        } else if healthy(s) {
            if a.healthy + 1 >= HEALTHY_SAMPLES {
                BitrateView {
                    rate: if a.rate + a.rate / 20 <= a.max {
                        (a.rate + a.rate / 20) as u32
                    } else {
                        a.max
                    },
                    healthy: 0,
                    last: now,
                    ..a
                }
            } else {
                BitrateView { healthy: (a.healthy + 1) as u8, last: now, ..a }
            }
        } else {
            BitrateView { healthy: 0, last: now, ..a }
        };
        (b, if b.rate != a.rate {
            Some(b.rate)
        } else {
            None
        })
    }
}

impl View for AdaptiveBitrate {
    type V = BitrateView;

    open spec fn view(&self) -> BitrateView {
        BitrateView {
            rate: self.rate(),
            min: self.min(),
            max: self.max(),
            healthy: self.healthy_count(),
            last: self.last(),
        }
    }
}

/// A sample taken a second or more after the last one that shows loss above 2%, a
/// round trip above 60 ms, more than one frame queued at the decoder or more than
/// three dropped frames lowers the target by a quarter, never below the minimum, and
/// restarts the count of healthy samples, whatever the other fields hold.
pub proof fn lemma_congestion_lowers_rate(a: BitrateView, s: Statistics, now: u64)
    requires
        elapsed(a.last, now) >= 1_000_000,
        s.loss_ppm > 20_000 || s.rtt_us > 60_000 || s.decode_queue > 1 || s.dropped_frames > 3,
    ensures
        sample_spec(a, s, now).0.rate == if a.rate * 3 / 4 >= a.min {
            a.rate * 3 / 4
        } else {
            a.min as int
        },
        sample_spec(a, s, now).0.healthy == 0,
        sample_spec(a, s, now).0.last == now,
        sample_spec(a, s, now).0.min == a.min,
        sample_spec(a, s, now).0.max == a.max,
        sample_spec(a, s, now).1 == if sample_spec(a, s, now).0.rate != a.rate {
            Some(sample_spec(a, s, now).0.rate)
        } else {
            None::<u32>
        },
{
}

/// The fifth healthy sample in a row (loss below 0.2%, round trip below 30 ms, an empty
/// decoder queue and at most three dropped frames), a second or more after the last,
/// raises the target by a twentieth, never above the maximum; earlier healthy samples
/// only count.
pub proof fn lemma_healthy_raises_rate(a: BitrateView, s: Statistics, now: u64)
    requires
        elapsed(a.last, now) >= 1_000_000,
        s.loss_ppm < 2_000,
        s.rtt_us < 30_000,
        s.decode_queue == 0,
        s.dropped_frames <= 3,
    ensures
        a.healthy >= 4 ==> sample_spec(a, s, now).0.rate == if a.rate + a.rate / 20 <= a.max {
            a.rate + a.rate / 20
        } else {
            a.max as int
        } && sample_spec(a, s, now).0.healthy == 0,
        a.healthy < 4 ==> sample_spec(a, s, now).0.rate == a.rate && sample_spec(a, s, now).0.healthy
            == a.healthy + 1 && sample_spec(a, s, now).1 is None,
        sample_spec(a, s, now).0.last == now,
{
}

/// A sample that is neither congested nor healthy keeps the target and restarts the
/// count; a sample within a second of the last one changes nothing.
pub proof fn lemma_other_samples_keep_rate(a: BitrateView, s: Statistics, now: u64)
    ensures
        elapsed(a.last, now) < 1_000_000 ==> sample_spec(a, s, now) == (a, None::<u32>),
        elapsed(a.last, now) >= 1_000_000 && s.loss_ppm <= 20_000 && s.rtt_us <= 60_000
            && s.decode_queue <= 1 && s.dropped_frames <= 3 && !(s.loss_ppm < 2_000 && s.rtt_us
            < 30_000 && s.decode_queue == 0) ==> sample_spec(a, s, now).0 == (BitrateView {
            healthy: 0,
            last: now,
            ..a
        }) && sample_spec(a, s, now).1 is None,
{
}

impl AdaptiveBitrate {
    /// The current target bitrate.
    pub closed spec fn rate(&self) -> u32 {
        self.current
    }

    pub closed spec fn min(&self) -> u32 {
        self.min
    }

    pub closed spec fn max(&self) -> u32 {
        self.max
    }

    /// Healthy samples counted since the last change or unhealthy sample.
    pub closed spec fn healthy_count(&self) -> u8 {
        self.healthy
    }

    /// Monotonic time of the last sample taken, in microseconds.
    pub closed spec fn last(&self) -> u64 {
        self.last
    }

    pub open spec fn wf(&self) -> bool {
        self.healthy_count() < HEALTHY_SAMPLES
    }

    /// Starts at `current` with the limits `min`..=`max`; `now` is the monotonic time in
    /// microseconds, so that the first sample is taken a second later.
    pub fn new(current: u32, min: u32, max: u32, now: u64) -> (a: Self)
        ensures
            a.wf(),
            a.rate() == current,
            a.min() == min,
            a.max() == max,
            a.healthy_count() == 0,
            a.last() == now,
    {
        AdaptiveBitrate { current, min, max, healthy: 0, last: now }
    }

    /// Taking the sample `s` at `now` keeps the bitrate arithmetic within `u32`.
    pub open spec fn update_fits(&self, s: Statistics, now: u64) -> bool {
        &&& elapsed(self.last(), now) >= SAMPLE_INTERVAL_US && congested(s) ==> self.rate() * 3
            <= u32::MAX
        &&& elapsed(self.last(), now) >= SAMPLE_INTERVAL_US && !congested(s) && healthy(s)
            && self.healthy_count() + 1 >= HEALTHY_SAMPLES ==> self.rate() + self.rate() / 20
            <= u32::MAX
    }

    /// Whether `update` may take the sample `s` at `now` without leaving `u32`.
    pub fn update_fits_at(&self, s: &Statistics, now: u64) -> (r: bool)
        ensures
            r == self.update_fits(*s, now),
    {
        let since = if now >= self.last {
            now - self.last
        } else {
            0
        };
        if since < SAMPLE_INTERVAL_US {
            return true;
        }
        let current = self.current as u64;
        if s.loss_ppm > 20_000 || s.rtt_us > 60_000 || s.decode_queue > 1 || s.dropped_frames > 3 {
            current * 3 <= 0xffff_ffff
        } else if s.loss_ppm < 2000 && s.rtt_us < 30_000 && s.decode_queue == 0
            && self.healthy >= HEALTHY_SAMPLES - 1 {
            current + current / 20 <= 0xffff_ffff
        } else {
            true
        }
    }

    /// Takes a statistics sample at most once a second; returns the new bitrate when it changed.
    pub fn update(&mut self, s: &Statistics, now: u64) -> (r: Option<u32>)
        requires
            old(self).wf(),
            old(self).update_fits(*s, now),
        ensures
            (final(self)@, r) == sample_spec(old(self)@, *s, now),
            final(self).wf(),
            final(self).min() == old(self).min(),
            final(self).max() == old(self).max(),
            elapsed(old(self).last(), now) < SAMPLE_INTERVAL_US ==> r is None && *final(self)
                == *old(self),
            elapsed(old(self).last(), now) >= SAMPLE_INTERVAL_US ==> {
                &&& final(self).last() == now
                &&& congested(*s) ==> {
                    &&& final(self).rate() == if old(self).rate() * 3 / 4 >= old(self).min() {
                        (old(self).rate() * 3 / 4) as u32
                    } else {
                        old(self).min()
                    }
                    &&& final(self).healthy_count() == 0
                }
                &&& !congested(*s) && healthy(*s) ==> if old(self).healthy_count() + 1
                    >= HEALTHY_SAMPLES {
                    &&& final(self).rate() == if old(self).rate() + old(self).rate() / 20
                        <= old(self).max() {
                        (old(self).rate() + old(self).rate() / 20) as u32
                    } else {
                        old(self).max()
                    }
                    &&& final(self).healthy_count() == 0
                } else {
                    &&& final(self).rate() == old(self).rate()
                    &&& final(self).healthy_count() == old(self).healthy_count() + 1
                }
                &&& !congested(*s) && !healthy(*s) ==> final(self).rate() == old(self).rate()
                    && final(self).healthy_count() == 0
                &&& r == if final(self).rate() != old(self).rate() {
                    Some(final(self).rate())
                } else {
                    None::<u32>
                }
            },
            old(self).min() <= old(self).rate() <= old(self).max() ==> final(self).min()
                <= final(self).rate() <= final(self).max(),
    {
        let since = if now >= self.last {
            now - self.last
        } else {
            0
        };
        if since < SAMPLE_INTERVAL_US {
            return None;
        }
        self.last = now;
        let before = self.current;
        if s.loss_ppm > 20_000 || s.rtt_us > 60_000 || s.decode_queue > 1 || s.dropped_frames > 3 {
            let lowered = self.current * 3 / 4;
            self.current = if lowered >= self.min {
                lowered
            } else {
                self.min
            };
            self.healthy = 0;
        } else if s.loss_ppm < 2000 && s.rtt_us < 30_000 && s.decode_queue == 0 {
            self.healthy = self.healthy + 1;
            if self.healthy >= HEALTHY_SAMPLES {
                let raised = self.current + self.current / 20;
                self.current = if raised <= self.max {
                    raised
                } else {
                    self.max
                };
                self.healthy = 0;
            }
        } else {
            self.healthy = 0;
        }
        if before != self.current {
            Some(self.current)
        } else {
            None
        }
    }
}

} // verus!
