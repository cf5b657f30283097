//! Placement of the virtual display and the reconciliation retry policy.
use crate::config::Position;
use vstd::prelude::*;

verus! {

/// A display rectangle in virtual-desktop coordinates.
#[derive(Debug, Default, Clone, Copy, PartialEq, Eq, Structural)]
pub struct Bounds {
    pub x: i32,
    pub y: i32,
    pub width: u32,
    pub height: u32,
}

/// Where `adjacent` places a `width` x `height` display next to `anchor`.
pub open spec fn adjacent_origin(anchor: Bounds, width: u32, height: u32, pos: Position) -> (int, int) {
    match pos {
        Position::Left => (anchor.x - (width as i32), anchor.y as int),
        Position::Right => (anchor.x + (anchor.width as i32), anchor.y as int),
        Position::Above => (anchor.x as int, anchor.y - (height as i32)),
        Position::Below => (anchor.x as int, anchor.y + (anchor.height as i32)),
    }
}

impl Bounds {
    /// A `width` x `height` rectangle touching `anchor` on the side `pos`.
    pub fn adjacent(anchor: Self, width: u32, height: u32, pos: Position) -> (b: Self)
        requires
            i32::MIN <= adjacent_origin(anchor, width, height, pos).0 <= i32::MAX,
            i32::MIN <= adjacent_origin(anchor, width, height, pos).1 <= i32::MAX,
        ensures
            b.x == adjacent_origin(anchor, width, height, pos).0,
            b.y == adjacent_origin(anchor, width, height, pos).1,
            b.width == width,
            b.height == height,
    {
        let (x, y) = match pos {
            Position::Left => (anchor.x - width as i32, anchor.y),
            Position::Right => (anchor.x + anchor.width as i32, anchor.y),
            Position::Above => (anchor.x, anchor.y - height as i32),
            Position::Below => (anchor.x, anchor.y + anchor.height as i32),
        };
        Bounds { x, y, width, height }
    }
}

/// Where `adjacent` places the display, when both coordinates fit an `i32`.
pub open spec fn adjacent_fits(anchor: Bounds, width: u32, height: u32, pos: Position) -> bool {
    &&& i32::MIN <= adjacent_origin(anchor, width, height, pos).0 <= i32::MAX
    &&& i32::MIN <= adjacent_origin(anchor, width, height, pos).1 <= i32::MAX
}

/// The physical display the virtual one is placed against: the one at the desktop
/// origin, else the first.
pub open spec fn anchor_spec(physical: Seq<Bounds>) -> Option<Bounds> {
    if exists|i: int| 0 <= i < physical.len() && physical[i].x == 0 && physical[i].y == 0 {
        let i = choose|i: int|
            0 <= i < physical.len() && physical[i].x == 0 && physical[i].y == 0 && forall|j: int|
                0 <= j < i ==> !(physical[j].x == 0 && physical[j].y == 0);
        Some(physical[i])
    } else if physical.len() > 0 {
        Some(physical[0])
    } else {
        None
    }
}

/// The size and refresh rate the virtual display gets: the requested mode, else its
/// current size at 60 Hz, else 1920x1080 at 60 Hz.
pub open spec fn size_spec(requested: Option<(u32, u32, u32)>, current: Option<Bounds>) -> (
    u32,
    u32,
    u32,
) {
    match requested {
        Some(r) => r,
        None => match current {
            Some(b) => (b.width, b.height, 60),
            None => (1920, 1080, 60),
        },
    }
}

/// Why no placement could be planned.
#[derive(Debug, Clone, Copy, PartialEq, Eq, Structural)]
pub enum TopologyError {
    /// No active physical display has a position.
    NoAnchor,
    /// The placement lies outside the virtual desktop's coordinate range.
    Overflow,
}

impl TopologyError {
    /// The text `describe` gives for each reason.
    pub open spec fn reason_text(&self) -> Seq<char> {
        match *self {
            TopologyError::NoAnchor => "no physical display anchor"@,
            TopologyError::Overflow => "display placement overflows the virtual desktop"@,
        }
    }

    /// Human-readable reason.
    pub fn describe(&self) -> (r: &'static str)
        ensures
            r@ == self.reason_text(),
    {
        match self {
            TopologyError::NoAnchor => "no physical display anchor",
            TopologyError::Overflow => "display placement overflows the virtual desktop",
        }
    }
}

/// How the virtual display is to be placed.
#[derive(Debug, Clone, Copy, PartialEq, Eq, Structural)]
pub struct Placement {
    pub width: u32,
    pub height: u32,
    pub fps: u32,
    /// The rectangle next to the anchor.
    pub desired: Bounds,
    /// The display is active there already, stays secondary and no mode was asked
    /// for: nothing needs to change.
    pub matched: bool,
    /// The target mode must be chosen anew at `fps`: the size changes, the display is
    /// being activated, or a mode was asked for.
    pub reset_mode: bool,
    /// Where the display ends up: at the desktop origin when it becomes primary.
    pub target: Bounds,
}

/// The placement for the physical displays' bounds, the virtual display's current
/// bounds (`current`, when it has a source mode) and whether it is active.
pub open spec fn placement_spec(
    physical: Seq<Bounds>,
    current: Option<Bounds>,
    active: bool,
    position: Position,
    primary: bool,
    requested: Option<(u32, u32, u32)>,
) -> Result<Placement, TopologyError> {
    match anchor_spec(physical) {
        None => Err(TopologyError::NoAnchor),
        Some(anchor) => {
            let (width, height, fps) = size_spec(requested, current);
            if !adjacent_fits(anchor, width, height, position) {
                Err(TopologyError::Overflow)
            } else {
                let (x, y) = adjacent_origin(anchor, width, height, position);
                let desired = Bounds { x: x as i32, y: y as i32, width, height };
                Ok(
                    Placement {
                        width,
                        height,
                        fps,
                        desired,
                        matched: active && current == Some(desired) && !primary && requested
                            is None,
                        reset_mode: (current matches Some(b) && (b.width != width || b.height
                            != height)) || !active || requested is Some,
                        target: if primary {
                            Bounds { x: 0, y: 0, width, height }
                        } else {
                            desired
                        },
                    },
                )
            }
        },
    }
}

/// Plans where the virtual display goes, before the topology is touched.
pub fn placement(
    physical: &[Bounds],
    current: Option<Bounds>,
    active: bool,
    position: Position,
    primary: bool,
    requested: Option<(u32, u32, u32)>,
) -> (r: Result<Placement, TopologyError>)
    ensures
        r == placement_spec(physical@, current, active, position, primary, requested),
{
    let mut found: Option<Bounds> = None;
    let mut i: usize = 0;
    while i < physical.len()
        invariant
            i <= physical@.len(),
            found is None ==> forall|j: int|
                0 <= j < i ==> !(physical@[j].x == 0 && physical@[j].y == 0),
            found matches Some(b) ==> exists|k: int|
                0 <= k < i && physical@[k] == b && physical@[k].x == 0 && physical@[k].y == 0
                    && forall|j: int| 0 <= j < k ==> !(physical@[j].x == 0 && physical@[j].y == 0),
        decreases physical.len() - i,
    {
        if found.is_none() && physical[i].x == 0 && physical[i].y == 0 {
            found = Some(physical[i]);
        }
        i = i + 1;
    }
    let anchor = match found {
        Some(b) => b,
        None => {
            if physical.len() == 0 {
                return Err(TopologyError::NoAnchor);
            }
            physical[0]
        },
    };
    proof {
        if let Some(b) = found {
            let k = choose|k: int|
                0 <= k < physical@.len() && physical@[k] == b && physical@[k].x == 0
                    && physical@[k].y == 0 && forall|j: int|
                    0 <= j < k ==> !(physical@[j].x == 0 && physical@[j].y == 0);
            let c = choose|i: int|
                0 <= i < physical@.len() && physical@[i].x == 0 && physical@[i].y == 0 && forall|
                    j: int,
                | 0 <= j < i ==> !(physical@[j].x == 0 && physical@[j].y == 0);
            assert(c == k) by {
                if c < k {
                    assert(!(physical@[c].x == 0 && physical@[c].y == 0));
                } else if k < c {
                    assert(!(physical@[k].x == 0 && physical@[k].y == 0));
                }
            }
        }
        assert(anchor_spec(physical@) == Some(anchor));
    }
    let (width, height, fps) = match requested {
        Some(r) => r,
        None => match current {
            Some(b) => (b.width, b.height, 60),
            None => (1920, 1080, 60),
        },
    };
    let x: i64 = match position {
        Position::Left => anchor.x as i64 - (width as i32) as i64,
        Position::Right => anchor.x as i64 + (anchor.width as i32) as i64,
        Position::Above => anchor.x as i64,
        Position::Below => anchor.x as i64,
    };
    let y: i64 = match position {
        Position::Left => anchor.y as i64,
        Position::Right => anchor.y as i64,
        Position::Above => anchor.y as i64 - (height as i32) as i64,
        Position::Below => anchor.y as i64 + (anchor.height as i32) as i64,
    };
    if x < i32::MIN as i64 || x > i32::MAX as i64 || y < i32::MIN as i64 || y > i32::MAX as i64 {
        return Err(TopologyError::Overflow);
    }
    let desired = Bounds::adjacent(anchor, width, height, position);
    let same = match current {
        Some(b) => b == desired,
        None => false,
    };
    let resized = match current {
        Some(b) => b.width != width || b.height != height,
        None => false,
    };
    Ok(
        Placement {
            width,
            height,
            fps,
            desired,
            matched: active && same && !primary && requested.is_none(),
            reset_mode: resized || !active || requested.is_some(),
            target: if primary {
                Bounds { x: 0, y: 0, width, height }
            } else {
                desired
            },
        },
    )
}

/// After the placement was planned, a fresh look at the topology shows the display
/// active at `target` with no mode asked for: it need not be applied.
pub fn settled(
    active: bool,
    current: Option<Bounds>,
    target: Bounds,
    requested: Option<(u32, u32, u32)>,
) -> (r: bool)
    ensures
        r == (active && current == Some(target) && requested is None),
{
    let same = match current {
        Some(b) => b == target,
        None => false,
    };
    active && same && requested.is_none()
}

/// Delay before a topology change is applied, in microseconds.
pub const SETTLE_US: u64 = 200_000;

/// Pause after a failed attempt, during which change notifications are ignored.
pub const RETRY_US: u64 = 750_000;

/// Attempts before the reconciler gives up until the next change.
pub const MAX_RETRIES: u8 = 3;

/// A change at `now` comes less than `RETRY_US` after the failed attempt at `last`
/// (or before it), and is ignored.
pub open spec fn suppressed(last: Option<u64>, now: u64) -> bool {
    match last {
        Some(t) => now < t || now - t < RETRY_US,
        None => false,
    }
}

/// Coalesces display events and stops reapplying a failing topology indefinitely.
/// Times are monotonic microseconds.
pub struct Reconciler {
    due: u64,
    retries: u8,
    pub dirty: bool,
    last_applied: Option<u64>,
}

impl Reconciler {
    /// A change is waiting to be applied.
    pub closed spec fn is_dirty(&self) -> bool {
        self.dirty
    }

    pub closed spec fn due(&self) -> u64 {
        self.due
    }

    /// Failed attempts since the last change.
    pub closed spec fn retries(&self) -> u8 {
        self.retries
    }

    /// When the last failed attempt was made.
    pub closed spec fn last_applied(&self) -> Option<u64> {
        self.last_applied
    }

    /// A reconciler created at `now` that wants to apply at once.
    pub fn new(now: u64) -> (r: Self)
        ensures
            r.due() == now,
            r.retries() == 0,
            r.is_dirty(),
            r.last_applied() is None,
    {
        Reconciler { due: now, retries: 0, dirty: true, last_applied: None }
    }

    /// A display change was seen at `now`; ignored within `RETRY_US` of a failed attempt.
    pub fn changed(&mut self, now: u64)
        requires
            now <= u64::MAX - SETTLE_US,
        ensures
            suppressed(old(self).last_applied(), now) ==> *final(self) == *old(self),
            !suppressed(old(self).last_applied(), now) ==> {
                &&& final(self).due() == now + SETTLE_US
                &&& final(self).retries() == 0
                &&& final(self).is_dirty()
                &&& final(self).last_applied() == old(self).last_applied()
            },
    {
        if let Some(t) = self.last_applied {
            let since = if now >= t {
                now - t
            } else {
                0
            };
            if since < RETRY_US {
                return;
            }
        }
        self.due = now + SETTLE_US;
        self.retries = 0;
        self.dirty = true;
    }

    /// Whether an attempt should be made at `now`.
    pub fn ready(&self, now: u64) -> (r: bool)
        ensures
            r == (self.is_dirty() && self.retries() < MAX_RETRIES && now >= self.due()),
    {
        self.dirty && self.retries < MAX_RETRIES && now >= self.due
    }

    /// The reconciler after an attempt at `now` that `matched` or failed.
    pub closed spec fn after_attempt(self, now: u64, matched: bool) -> Reconciler {
        if matched {
            Reconciler { dirty: false, ..self }
        } else {
            Reconciler {
                dirty: true,
                retries: (self.retries + 1) as u8,
                due: (now + RETRY_US) as u64,
                last_applied: Some(now),
            }
        }
    }

    /// Records an attempt made at `now`; a failed one is retried after `RETRY_US`.
    pub fn result(&mut self, now: u64, matched: bool)
        requires
            !matched ==> old(self).retries() < u8::MAX && now <= u64::MAX - RETRY_US,
        ensures
            *final(self) == old(self).after_attempt(now, matched),
            final(self).is_dirty() == !matched,
            matched ==> final(self).retries() == old(self).retries() && final(self).due() == old(
                self,
            ).due() && final(self).last_applied() == old(self).last_applied(),
            !matched ==> final(self).retries() == old(self).retries() + 1 && final(self).due()
                == now + RETRY_US && final(self).last_applied() == Some(now),
    {
        self.dirty = !matched;
        if !matched {
            self.retries = self.retries + 1;
            self.due = now + RETRY_US;
            self.last_applied = Some(now);
        }
    }
}

/// The failed attempts made when the attempts `tries` (time, whether the display
/// matched afterwards) are offered in order and one is made only when `ready` allows it.
pub open spec fn failures(r: Reconciler, tries: Seq<(u64, bool)>) -> nat
    decreases tries.len(),
{
    if tries.len() == 0 {
        0
    } else {
        let (now, matched) = tries[0];
        if r.is_dirty() && r.retries() < MAX_RETRIES && now >= r.due() {
            (if matched {
                0nat
            } else {
                1nat
            }) + failures(r.after_attempt(now, matched), tries.skip(1))
        } else {
            failures(r, tries.skip(1))
        }
    }
}

/// Without a new display change, a reconciler fails at most `MAX_RETRIES` attempts in
/// all, counting those it has already failed: it never reapplies a failing topology
/// indefinitely.
pub proof fn lemma_retries_bounded(r: Reconciler, tries: Seq<(u64, bool)>)
    requires
        r.retries() <= MAX_RETRIES,
    ensures
        failures(r, tries) + r.retries() <= MAX_RETRIES,
    decreases tries.len(),
{
    if tries.len() > 0 {
        let (now, matched) = tries[0];
        if r.is_dirty() && r.retries() < MAX_RETRIES && now >= r.due() {
            lemma_retries_bounded(r.after_attempt(now, matched), tries.skip(1));
        } else {
            lemma_retries_bounded(r, tries.skip(1));
        }
    }
}

} // verus!
