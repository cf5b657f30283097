//! What the input injector holds down and what it must send for each client event.
//! Sending is done outside the library; each planned key is applied to the state
//! around its send, so a failed send leaves the state as the sends before it left it.
use super::{scan_code, scan_code_spec};
use crate::protocol::InputEvent;
use std::collections::BTreeSet;
use vstd::prelude::*;
use vstd::std_specs::btree::{increasing_seq, spec_btree_keys_iter};
use vstd::std_specs::cmp::OrdSpec;
use vstd::std_specs::iter::IteratorSpec;

verus! {

/// Why an input event was refused.
#[derive(Debug, Clone, Copy, PartialEq, Eq, Structural)]
pub enum InputError {
    /// Phase above 3, buttons above 7 or a repeat flag above 1.
    InvalidFlags,
    /// An input kind the host does not handle.
    UnsupportedKind,
    /// A touch contact id of 10 or more.
    TooManyContacts,
    /// A touch down for a contact that is already down.
    DuplicateTouchDown,
    /// A touch update or up for a contact that is not down.
    TouchWithoutDown,
}

impl InputError {
    /// The text `describe` gives for each reason.
    pub open spec fn reason_text(&self) -> Seq<char> {
        match *self {
            InputError::InvalidFlags => "invalid input flags"@,
            InputError::UnsupportedKind => "unsupported input kind"@,
            InputError::TooManyContacts => "too many touch contacts"@,
            InputError::DuplicateTouchDown => "duplicate touch down"@,
            InputError::TouchWithoutDown => "touch update without down"@,
        }
    }

    /// Human-readable reason.
    pub fn describe(&self) -> (r: &'static str)
        ensures
            r@ == self.reason_text(),
    {
        match self {
            InputError::InvalidFlags => "invalid input flags",
            InputError::UnsupportedKind => "unsupported input kind",
            InputError::TooManyContacts => "too many touch contacts",
            InputError::DuplicateTouchDown => "duplicate touch down",
            InputError::TouchWithoutDown => "touch update without down",
        }
    }
}

/// How an event is injected.
#[derive(Debug, Clone, Copy, PartialEq, Eq, Structural)]
pub enum InputKind {
    Touch,
    Mouse,
    Keyboard,
}

/// The injection path of an event: 0 touch, 1 and 2 mouse, 3 keyboard, after the
/// flags are checked.
pub open spec fn classify_spec(e: InputEvent) -> Result<InputKind, InputError> {
    if !(e.phase <= 3 && e.buttons <= 7 && e.is_repeat <= 1) {
        Err(InputError::InvalidFlags)
    } else if e.kind == 0 {
        Ok(InputKind::Touch)
    } else if e.kind == 1 || e.kind == 2 {
        Ok(InputKind::Mouse)
    } else if e.kind == 3 {
        Ok(InputKind::Keyboard)
    } else {
        Err(InputError::UnsupportedKind)
    }
}

pub fn classify(e: &InputEvent) -> (r: Result<InputKind, InputError>)
    ensures
        r == classify_spec(*e),
{
    if !(e.phase <= 3 && e.buttons <= 7 && e.is_repeat <= 1) {
        return Err(InputError::InvalidFlags);
    }
    match e.kind {
        0 => Ok(InputKind::Touch),
        1 | 2 => Ok(InputKind::Mouse),
        3 => Ok(InputKind::Keyboard),
        _ => Err(InputError::UnsupportedKind),
    }
}

// ---------------------------------------------------------------------------
// Mouse buttons
// ---------------------------------------------------------------------------
/// The button transitions from `old` to `new` held masks, left (1), right (2) and
/// middle (4) in that order: each changed button with whether it goes down.
pub open spec fn button_changes_spec(old: u32, new: u32) -> Seq<(u32, bool)> {
    (if (old ^ new) & 1 != 0 {
        seq![(1u32, new & 1 != 0)]
    } else {
        seq![]
    }) + (if (old ^ new) & 2 != 0 {
        seq![(2u32, new & 2 != 0)]
    } else {
        seq![]
    }) + (if (old ^ new) & 4 != 0 {
        seq![(4u32, new & 4 != 0)]
    } else {
        seq![]
    })
}

/// The held mask after pressing (`true`) or releasing each button of `cs` in order.
pub open spec fn apply_buttons(held: u32, cs: Seq<(u32, bool)>) -> u32
    decreases cs.len(),
{
    if cs.len() == 0 {
        held
    } else {
        let h = apply_buttons(held, cs.drop_last());
        let c = cs.last();
        if c.1 {
            h | c.0
        } else {
            h & !c.0
        }
    }
}

proof fn lemma_apply_buttons_concat(held: u32, a: Seq<(u32, bool)>, b: Seq<(u32, bool)>)
    ensures
        apply_buttons(held, a + b) == apply_buttons(apply_buttons(held, a), b),
    decreases b.len(),
{
    if b.len() > 0 {
        assert((a + b).drop_last() =~= a + b.drop_last());
        lemma_apply_buttons_concat(held, a, b.drop_last());
    } else {
        assert(a + b =~= a);
    }
}

proof fn lemma_apply_one(held: u32, c: (u32, bool))
    ensures
        apply_buttons(held, seq![c]) == if c.1 {
            held | c.0
        } else {
            held & !c.0
        },
{
    let one = seq![c];
    assert(one.drop_last() =~= Seq::<(u32, bool)>::empty());
    assert(apply_buttons(held, one.drop_last()) == held);
    assert(one.last() == c);
}

/// Sending the transitions from the held mask `old` to `new` (left 1, right 2,
/// middle 4) brings the buttons to `new`: each button that differs goes down or up
/// once, left before right before middle, and no other button is touched.
pub proof fn lemma_button_changes_reach(old: u32, new: u32)
    requires
        old <= 7,
        new <= 7,
    ensures
        apply_buttons(old, button_changes_spec(old, new)) == new,
        forall|i: int|
            0 <= i < button_changes_spec(old, new).len() ==> {
                let c = #[trigger] button_changes_spec(old, new)[i];
                &&& c.0 == 1 || c.0 == 2 || c.0 == 4
                &&& (old & c.0 != 0) != (new & c.0 != 0)
                &&& c.1 == (new & c.0 != 0)
            },
        forall|i: int, j: int|
            0 <= i < j < button_changes_spec(old, new).len() ==> button_changes_spec(old, new)[i].0
                < button_changes_spec(old, new)[j].0,
{
    let s1: Seq<(u32, bool)> = if (old ^ new) & 1 != 0 {
        seq![(1u32, new & 1 != 0)]
    } else {
        seq![]
    };
    let s2: Seq<(u32, bool)> = if (old ^ new) & 2 != 0 {
        seq![(2u32, new & 2 != 0)]
    } else {
        seq![]
    };
    let s3: Seq<(u32, bool)> = if (old ^ new) & 4 != 0 {
        seq![(4u32, new & 4 != 0)]
    } else {
        seq![]
    };
    let cs = button_changes_spec(old, new);
    assert(cs == s1 + s2 + s3);
    lemma_apply_buttons_concat(old, s1 + s2, s3);
    lemma_apply_buttons_concat(old, s1, s2);
    let h1 = apply_buttons(old, s1);
    let h2 = apply_buttons(h1, s2);
    let h3 = apply_buttons(h2, s3);
    let d1 = (old ^ new) & 1 != 0;
    let d2 = (old ^ new) & 2 != 0;
    let d3 = (old ^ new) & 4 != 0;
    let n1 = new & 1 != 0;
    let n2 = new & 2 != 0;
    let n3 = new & 4 != 0;
    if d1 {
        lemma_apply_one(old, (1u32, n1));
    }
    if d2 {
        lemma_apply_one(h1, (2u32, n2));
    }
    if d3 {
        lemma_apply_one(h2, (4u32, n3));
    }
    assert(h1 == if d1 {
        if n1 {
            old | 1
        } else {
            old & !1u32
        }
    } else {
        old
    });
    assert(h2 == if d2 {
        if n2 {
            h1 | 2
        } else {
            h1 & !2u32
        }
    } else {
        h1
    });
    assert(h3 == if d3 {
        if n3 {
            h2 | 4
        } else {
            h2 & !4u32
        }
    } else {
        h2
    });
    assert(h3 == new) by (bit_vector)
        requires
            old <= 7,
            new <= 7,
            d1 == ((old ^ new) & 1 != 0),
            d2 == ((old ^ new) & 2 != 0),
            d3 == ((old ^ new) & 4 != 0),
            n1 == (new & 1 != 0),
            n2 == (new & 2 != 0),
            n3 == (new & 4 != 0),
            h1 == if d1 {
                if n1 {
                    old | 1
                } else {
                    old & !1u32
                }
            } else {
                old
            },
            h2 == if d2 {
                if n2 {
                    h1 | 2
                } else {
                    h1 & !2u32
                }
            } else {
                h1
            },
            h3 == if d3 {
                if n3 {
                    h2 | 4
                } else {
                    h2 & !4u32
                }
            } else {
                h2
            },
    ;
    assert(d1 == ((old & 1 != 0) != (new & 1 != 0))) by (bit_vector)
        requires
            d1 == ((old ^ new) & 1 != 0),
    ;
    assert(d2 == ((old & 2 != 0) != (new & 2 != 0))) by (bit_vector)
        requires
            d2 == ((old ^ new) & 2 != 0),
    ;
    assert(d3 == ((old & 4 != 0) != (new & 4 != 0))) by (bit_vector)
        requires
            d3 == ((old ^ new) & 4 != 0),
    ;
}

pub fn button_changes(old: u32, new: u32) -> (r: Vec<(u32, bool)>)
    ensures
        r@ == button_changes_spec(old, new),
{
    let mut r: Vec<(u32, bool)> = Vec::new();
    if (old ^ new) & 1 != 0 {
        r.push((1, new & 1 != 0));
    }
    if (old ^ new) & 2 != 0 {
        r.push((2, new & 2 != 0));
    }
    if (old ^ new) & 4 != 0 {
        r.push((4, new & 4 != 0));
    }
    assert(r@ =~= button_changes_spec(old, new));
    r
}

/// The buttons of `held` to release, left, right and middle in that order.
pub open spec fn held_buttons_spec(held: u32) -> Seq<u32> {
    (if held & 1 != 0 {
        seq![1u32]
    } else {
        seq![]
    }) + (if held & 2 != 0 {
        seq![2u32]
    } else {
        seq![]
    }) + (if held & 4 != 0 {
        seq![4u32]
    } else {
        seq![]
    })
}

pub fn held_buttons(held: u32) -> (r: Vec<u32>)
    ensures
        r@ == held_buttons_spec(held),
{
    let mut r: Vec<u32> = Vec::new();
    if held & 1 != 0 {
        r.push(1);
    }
    if held & 2 != 0 {
        r.push(2);
    }
    if held & 4 != 0 {
        r.push(4);
    }
    assert(r@ =~= held_buttons_spec(held));
    r
}

// ---------------------------------------------------------------------------
// Keyboard
// ---------------------------------------------------------------------------
/// One key transition to send.
#[derive(Debug, Clone, Copy, PartialEq, Eq, Structural)]
pub struct KeyAction {
    /// Scan code; 0x100 marks an extended key.
    pub code: u16,
    pub up: bool,
    /// A modifier synchronised to the event's modifier flags.
    pub modifier: bool,
}

/// `s` is strictly increasing.
pub open spec fn sorted(s: Seq<u16>) -> bool {
    forall|i: int, j: int| 0 <= i < j < s.len() ==> s[i] < s[j]
}

/// The transitions of one modifier (`mask`, left and right scan codes) for an event
/// with scan code `scan` and modifier flags `mods`, given the keys held.
pub open spec fn modifier_actions(
    held: Set<u16>,
    scan: u16,
    mods: u32,
    mask: u32,
    left: u16,
    right: u16,
) -> Seq<KeyAction> {
    if scan == left || scan == right {
        seq![]
    } else if mods & mask != 0 {
        if !held.contains(left) && !held.contains(right) {
            seq![KeyAction { code: left, up: false, modifier: true }]
        } else {
            seq![]
        }
    } else {
        (if held.contains(left) {
            seq![KeyAction { code: left, up: true, modifier: true }]
        } else {
            seq![]
        }) + (if held.contains(right) {
            seq![KeyAction { code: right, up: true, modifier: true }]
        } else {
            seq![]
        })
    }
}

/// The transitions for a keyboard event: Ctrl (1), Shift (2), Alt (4) and Win (8)
/// are brought in line with the flags, pressing the left key of a missing modifier
/// and releasing both keys of an unwanted one; then the key itself goes down, or up
/// when it is held. A key without a scan code sends nothing.
pub open spec fn keyboard_plan_spec(held: Set<u16>, e: InputEvent) -> Seq<KeyAction> {
    match scan_code_spec(e.physical_key) {
        None => seq![],
        Some(scan) => {
            let up = e.phase >= 2;
            modifier_actions(held, scan, e.modifiers, 1, 0x1d, 0x11d) + modifier_actions(
                held,
                scan,
                e.modifiers,
                2,
                0x2a,
                0x36,
            ) + modifier_actions(held, scan, e.modifiers, 4, 0x38, 0x138) + modifier_actions(
                held,
                scan,
                e.modifiers,
                8,
                0x15b,
                0x15c,
            ) + if up && !held.contains(scan) {
                seq![]
            } else {
                seq![KeyAction { code: scan, up, modifier: false }]
            }
        },
    }
}

/// The actions of `p` on one modifier, whose flag is `mask` and whose left and right
/// keys are `left` and `right`, keep it in line with the flags `mods`: every action
/// on one of its keys is a modifier action that presses the left key, when the flag is
/// set and neither key is held, or releases a held key, when the flag is clear; the
/// left key is pressed in the first case, and every held key released in the second.
pub open spec fn modifier_synced(
    p: Seq<KeyAction>,
    held: Set<u16>,
    mods: u32,
    mask: u32,
    left: u16,
    right: u16,
) -> bool {
    &&& forall|i: int|
        0 <= i < p.len() && (#[trigger] p[i].code == left || p[i].code == right) ==> p[i].modifier
            && if mods & mask != 0 {
            !p[i].up && p[i].code == left && !held.contains(left) && !held.contains(right)
        } else {
            p[i].up && held.contains(p[i].code)
        }
    &&& mods & mask != 0 && !held.contains(left) && !held.contains(right) ==> p.contains(
        KeyAction { code: left, up: false, modifier: true },
    )
    &&& mods & mask == 0 && held.contains(left) ==> p.contains(
        KeyAction { code: left, up: true, modifier: true },
    )
    &&& mods & mask == 0 && held.contains(right) ==> p.contains(
        KeyAction { code: right, up: true, modifier: true },
    )
}

proof fn lemma_modifier_segment(held: Set<u16>, scan: u16, mods: u32, mask: u32, left: u16, right: u16)
    requires
        scan != left,
        scan != right,
        left != right,
    ensures
        modifier_synced(modifier_actions(held, scan, mods, mask, left, right), held, mods, mask, left, right),
        forall|i: int|
            0 <= i < modifier_actions(held, scan, mods, mask, left, right).len() ==> (
            #[trigger] modifier_actions(held, scan, mods, mask, left, right)[i]).code == left
                || modifier_actions(held, scan, mods, mask, left, right)[i].code == right,
{
    let seg = modifier_actions(held, scan, mods, mask, left, right);
    if mods & mask == 0 {
        if held.contains(left) {
            assert(seg[0] == KeyAction { code: left, up: true, modifier: true });
        }
        if held.contains(right) {
            assert(seg[seg.len() - 1] == KeyAction { code: right, up: true, modifier: true });
        }
    } else if !held.contains(left) && !held.contains(right) {
        assert(seg[0] == KeyAction { code: left, up: false, modifier: true });
    }
}

/// `modifier_synced` carries over to a longer plan whose added actions touch none of
/// the modifier's keys.
proof fn lemma_synced_extend(
    a: Seq<KeyAction>,
    b: Seq<KeyAction>,
    held: Set<u16>,
    mods: u32,
    mask: u32,
    left: u16,
    right: u16,
    before: bool,
)
    requires
        modifier_synced(a, held, mods, mask, left, right),
        forall|i: int| 0 <= i < b.len() ==> (#[trigger] b[i]).code != left && b[i].code != right,
    ensures
        before ==> modifier_synced(b + a, held, mods, mask, left, right),
        !before ==> modifier_synced(a + b, held, mods, mask, left, right),
{
    let ba = b + a;
    let ab = a + b;
    assert forall|i: int| 0 <= i < ba.len() && (#[trigger] ba[i].code == left || ba[i].code == right) implies ba[i] == a[i - b.len()] by {
        if i < b.len() {
            assert(ba[i] == b[i]);
        }
    }
    assert forall|i: int| 0 <= i < ab.len() && (#[trigger] ab[i].code == left || ab[i].code == right) implies ab[i] == a[i] by {
        if i >= a.len() {
            assert(ab[i] == b[i - a.len()]);
        }
    }
    assert forall|k: KeyAction| a.contains(k) implies ba.contains(k) && ab.contains(k) by {
        let j = choose|j: int| 0 <= j < a.len() && a[j] == k;
        assert(ba[j + b.len()] == k);
        assert(ab[j] == k);
    }
    if before {
        assert forall|i: int|
            0 <= i < ba.len() && (#[trigger] ba[i].code == left || ba[i].code == right) implies ba[i].modifier
                && if mods & mask != 0 {
                !ba[i].up && ba[i].code == left && !held.contains(left) && !held.contains(right)
            } else {
                ba[i].up && held.contains(ba[i].code)
            } by {
            let j = i - b.len();
            assert(a[j].code == left || a[j].code == right);
        }
    } else {
        assert forall|i: int|
            0 <= i < ab.len() && (#[trigger] ab[i].code == left || ab[i].code == right) implies ab[i].modifier
                && if mods & mask != 0 {
                !ab[i].up && ab[i].code == left && !held.contains(left) && !held.contains(right)
            } else {
                ab[i].up && held.contains(ab[i].code)
            } by {
            assert(a[i].code == left || a[i].code == right);
        }
    }
}

/// The scan codes of the left and right Ctrl, Shift, Alt and Win keys.
pub open spec fn is_modifier_code(c: u16) -> bool {
    c == 0x1d || c == 0x11d || c == 0x2a || c == 0x36 || c == 0x38 || c == 0x138 || c == 0x15b
        || c == 0x15c
}

/// The modifiers of a keyboard event are kept in line with its flags, Ctrl (flag 1,
/// scan codes 0x1d and 0x11d), Shift (2; 0x2a, 0x36), Alt (4; 0x38, 0x138) and Win or
/// Command (8; 0x15b, 0x15c), each only by its own flag, and then the key itself goes
/// down, or up when it is held; a usage without a scan code sends nothing.
pub proof fn lemma_plan_keeps_modifiers(held: Set<u16>, e: InputEvent)
    ensures
        scan_code_spec(e.physical_key) is None ==> keyboard_plan_spec(held, e).len() == 0,
        ({
            let scan = scan_code_spec(e.physical_key)->Some_0;
            let p = keyboard_plan_spec(held, e);
            let up = e.phase >= 2;
            scan_code_spec(e.physical_key) is Some && !is_modifier_code(scan) ==> {
                &&& modifier_synced(p, held, e.modifiers, 1, 0x1d, 0x11d)
                &&& modifier_synced(p, held, e.modifiers, 2, 0x2a, 0x36)
                &&& modifier_synced(p, held, e.modifiers, 4, 0x38, 0x138)
                &&& modifier_synced(p, held, e.modifiers, 8, 0x15b, 0x15c)
                &&& up && !held.contains(scan) ==> forall|i: int|
                    0 <= i < p.len() ==> (#[trigger] p[i]).code != scan
                &&& !(up && !held.contains(scan)) ==> p.len() > 0 && p.last() == (KeyAction {
                    code: scan,
                    up,
                    modifier: false,
                })
            }
        }),
{
    if let Some(scan) = scan_code_spec(e.physical_key) {
        if !is_modifier_code(scan) {
            lemma_plan_ctrl(held, e, scan);
            lemma_plan_shift(held, e, scan);
            lemma_plan_alt(held, e, scan);
            lemma_plan_win(held, e, scan);
            let up = e.phase >= 2;
            let p = keyboard_plan_spec(held, e);
            if up && !held.contains(scan) {
                let m = e.modifiers;
                lemma_segment_avoids(held, scan, m, 1, 0x1d, 0x11d, scan, scan);
                lemma_segment_avoids(held, scan, m, 2, 0x2a, 0x36, scan, scan);
                lemma_segment_avoids(held, scan, m, 4, 0x38, 0x138, scan, scan);
                lemma_segment_avoids(held, scan, m, 8, 0x15b, 0x15c, scan, scan);
                let s1 = modifier_actions(held, scan, m, 1, 0x1d, 0x11d);
                let s2 = modifier_actions(held, scan, m, 2, 0x2a, 0x36);
                let s3 = modifier_actions(held, scan, m, 4, 0x38, 0x138);
                let s4 = modifier_actions(held, scan, m, 8, 0x15b, 0x15c);
                lemma_avoids_concat(s1, s2, scan, scan);
                lemma_avoids_concat(s1 + s2, s3, scan, scan);
                lemma_avoids_concat(s1 + s2 + s3, s4, scan, scan);
                assert(p =~= s1 + s2 + s3 + s4);
            }
        }
    }
}

/// No action of `p` is on the keys `x` or `y`.
pub open spec fn avoids(p: Seq<KeyAction>, x: u16, y: u16) -> bool {
    forall|i: int| 0 <= i < p.len() ==> (#[trigger] p[i]).code != x && p[i].code != y
}

proof fn lemma_avoids_concat(a: Seq<KeyAction>, b: Seq<KeyAction>, x: u16, y: u16)
    requires
        avoids(a, x, y),
        avoids(b, x, y),
    ensures
        avoids(a + b, x, y),
{
    assert forall|i: int| 0 <= i < (a + b).len() implies (#[trigger] (a + b)[i]).code != x && (a
        + b)[i].code != y by {
        if i >= a.len() {
            assert((a + b)[i] == b[i - a.len()]);
        }
    }
}

proof fn lemma_segment_avoids(
    held: Set<u16>,
    scan: u16,
    mods: u32,
    mask: u32,
    left: u16,
    right: u16,
    x: u16,
    y: u16,
)
    requires
        x != left && x != right && y != left && y != right,
        scan != left && scan != right && left != right,
    ensures
        avoids(modifier_actions(held, scan, mods, mask, left, right), x, y),
{
    lemma_modifier_segment(held, scan, mods, mask, left, right);
}

proof fn plan_parts(held: Set<u16>, e: InputEvent, scan: u16) -> (r: (Seq<KeyAction>, Seq<KeyAction>, Seq<KeyAction>, Seq<KeyAction>, Seq<KeyAction>))
    requires
        scan_code_spec(e.physical_key) == Some(scan),
        !is_modifier_code(scan),
    ensures
        keyboard_plan_spec(held, e) == r.0 + r.1 + r.2 + r.3 + r.4,
        r.0 == modifier_actions(held, scan, e.modifiers, 1, 0x1d, 0x11d),
        r.1 == modifier_actions(held, scan, e.modifiers, 2, 0x2a, 0x36),
        r.2 == modifier_actions(held, scan, e.modifiers, 4, 0x38, 0x138),
        r.3 == modifier_actions(held, scan, e.modifiers, 8, 0x15b, 0x15c),
        r.4.len() <= 1,
        r.4.len() == 1 ==> r.4[0].code == scan,
{
    let m = e.modifiers;
    let up = e.phase >= 2;
    let k: Seq<KeyAction> = if up && !held.contains(scan) {
        seq![]
    } else {
        seq![KeyAction { code: scan, up, modifier: false }]
    };
    (
        modifier_actions(held, scan, m, 1, 0x1d, 0x11d),
        modifier_actions(held, scan, m, 2, 0x2a, 0x36),
        modifier_actions(held, scan, m, 4, 0x38, 0x138),
        modifier_actions(held, scan, m, 8, 0x15b, 0x15c),
        k,
    )
}

proof fn lemma_plan_ctrl(held: Set<u16>, e: InputEvent, scan: u16)
    requires
        scan_code_spec(e.physical_key) == Some(scan),
        !is_modifier_code(scan),
    ensures
        modifier_synced(keyboard_plan_spec(held, e), held, e.modifiers, 1, 0x1d, 0x11d),
{
    let m = e.modifiers;
    let (s1, s2, s3, s4, k) = plan_parts(held, e, scan);
    let p = keyboard_plan_spec(held, e);
    assert(avoids(k, 0x1d, 0x11d));
    lemma_modifier_segment(held, scan, m, 1, 0x1d, 0x11d);
    lemma_segment_avoids(held, scan, m, 2, 0x2a, 0x36, 0x1d, 0x11d);
    lemma_segment_avoids(held, scan, m, 4, 0x38, 0x138, 0x1d, 0x11d);
    lemma_segment_avoids(held, scan, m, 8, 0x15b, 0x15c, 0x1d, 0x11d);
    lemma_avoids_concat(s2, s3, 0x1d, 0x11d);
    lemma_avoids_concat(s2 + s3, s4, 0x1d, 0x11d);
    lemma_avoids_concat(s2 + s3 + s4, k, 0x1d, 0x11d);
    assert(p =~= s1 + (s2 + s3 + s4 + k));
    lemma_synced_extend(s1, s2 + s3 + s4 + k, held, m, 1, 0x1d, 0x11d, false);
}

proof fn lemma_plan_shift(held: Set<u16>, e: InputEvent, scan: u16)
    requires
        scan_code_spec(e.physical_key) == Some(scan),
        !is_modifier_code(scan),
    ensures
        modifier_synced(keyboard_plan_spec(held, e), held, e.modifiers, 2, 0x2a, 0x36),
{
    let m = e.modifiers;
    let (s1, s2, s3, s4, k) = plan_parts(held, e, scan);
    let p = keyboard_plan_spec(held, e);
    assert(avoids(k, 0x2a, 0x36));
    lemma_modifier_segment(held, scan, m, 2, 0x2a, 0x36);
    lemma_segment_avoids(held, scan, m, 1, 0x1d, 0x11d, 0x2a, 0x36);
    lemma_segment_avoids(held, scan, m, 4, 0x38, 0x138, 0x2a, 0x36);
    lemma_segment_avoids(held, scan, m, 8, 0x15b, 0x15c, 0x2a, 0x36);
    lemma_avoids_concat(s3, s4, 0x2a, 0x36);
    lemma_avoids_concat(s3 + s4, k, 0x2a, 0x36);
    lemma_synced_extend(s2, s3 + s4 + k, held, m, 2, 0x2a, 0x36, false);
    lemma_synced_extend(s2 + (s3 + s4 + k), s1, held, m, 2, 0x2a, 0x36, true);
    assert(p =~= s1 + (s2 + (s3 + s4 + k)));
}

proof fn lemma_plan_alt(held: Set<u16>, e: InputEvent, scan: u16)
    requires
        scan_code_spec(e.physical_key) == Some(scan),
        !is_modifier_code(scan),
    ensures
        modifier_synced(keyboard_plan_spec(held, e), held, e.modifiers, 4, 0x38, 0x138),
{
    let m = e.modifiers;
    let (s1, s2, s3, s4, k) = plan_parts(held, e, scan);
    let p = keyboard_plan_spec(held, e);
    assert(avoids(k, 0x38, 0x138));
    lemma_modifier_segment(held, scan, m, 4, 0x38, 0x138);
    lemma_segment_avoids(held, scan, m, 1, 0x1d, 0x11d, 0x38, 0x138);
    lemma_segment_avoids(held, scan, m, 2, 0x2a, 0x36, 0x38, 0x138);
    lemma_segment_avoids(held, scan, m, 8, 0x15b, 0x15c, 0x38, 0x138);
    lemma_avoids_concat(s1, s2, 0x38, 0x138);
    lemma_avoids_concat(s4, k, 0x38, 0x138);
    lemma_synced_extend(s3, s4 + k, held, m, 4, 0x38, 0x138, false);
    lemma_synced_extend(s3 + (s4 + k), s1 + s2, held, m, 4, 0x38, 0x138, true);
    assert(p =~= (s1 + s2) + (s3 + (s4 + k)));
}

proof fn lemma_plan_win(held: Set<u16>, e: InputEvent, scan: u16)
    requires
        scan_code_spec(e.physical_key) == Some(scan),
        !is_modifier_code(scan),
    ensures
        modifier_synced(keyboard_plan_spec(held, e), held, e.modifiers, 8, 0x15b, 0x15c),
{
    let m = e.modifiers;
    let (s1, s2, s3, s4, k) = plan_parts(held, e, scan);
    let p = keyboard_plan_spec(held, e);
    assert(avoids(k, 0x15b, 0x15c));
    lemma_modifier_segment(held, scan, m, 8, 0x15b, 0x15c);
    lemma_segment_avoids(held, scan, m, 1, 0x1d, 0x11d, 0x15b, 0x15c);
    lemma_segment_avoids(held, scan, m, 2, 0x2a, 0x36, 0x15b, 0x15c);
    lemma_segment_avoids(held, scan, m, 4, 0x38, 0x138, 0x15b, 0x15c);
    lemma_avoids_concat(s1, s2, 0x15b, 0x15c);
    lemma_avoids_concat(s1 + s2, s3, 0x15b, 0x15c);
    lemma_synced_extend(s4, k, held, m, 8, 0x15b, 0x15c, false);
    lemma_synced_extend(s4 + k, s1 + s2 + s3, held, m, 8, 0x15b, 0x15c, true);
    assert(p =~= (s1 + s2 + s3) + (s4 + k));
}

/// `a` comes before `b` in the type's order.
spec fn ordered_before<K: Ord>(a: K, b: K) -> bool {
    a.cmp_spec(&b) is Less
}

/// The keys currently held down.
pub struct KeyboardState {
    keys: BTreeSet<u16>,
}

impl KeyboardState {
    /// The scan codes held down.
    pub closed spec fn keys(&self) -> Set<u16> {
        self.keys@
    }

    pub fn new() -> (k: Self)
        ensures
            k.keys() == Set::<u16>::empty(),
    {
        KeyboardState { keys: BTreeSet::new() }
    }

    pub fn contains(&self, code: u16) -> (r: bool)
        ensures
            r == self.keys().contains(code),
    {
        broadcast use vstd::std_specs::btree::group_btree_axioms, vstd::laws_cmp::group_laws_cmp;

        self.keys.contains(&code)
    }

    fn modifier(&self, scan: u16, mods: u32, mask: u32, left: u16, right: u16, out: &mut Vec<
        KeyAction,
    >)
        ensures
            final(out)@ == old(out)@ + modifier_actions(self.keys(), scan, mods, mask, left, right),
    {
        if scan == left || scan == right {
            assert(old(out)@ + Seq::<KeyAction>::empty() =~= old(out)@);
            return ;
        }
        let has_left = self.contains(left);
        let has_right = self.contains(right);
        if mods & mask != 0 {
            if !has_left && !has_right {
                out.push(KeyAction { code: left, up: false, modifier: true });
            }
        } else {
            if has_left {
                out.push(KeyAction { code: left, up: true, modifier: true });
            }
            if has_right {
                out.push(KeyAction { code: right, up: true, modifier: true });
            }
        }
        assert(out@ =~= old(out)@ + modifier_actions(self.keys(), scan, mods, mask, left, right));
    }

    /// The key transitions to send for a keyboard event, in order.
    pub fn plan(&self, e: &InputEvent) -> (r: Vec<KeyAction>)
        ensures
            r@ == keyboard_plan_spec(self.keys(), *e),
    {
        let mut out: Vec<KeyAction> = Vec::new();
        let scan = match scan_code(e.physical_key) {
            Some(s) => s,
            None => {
                return out;
            },
        };
        self.modifier(scan, e.modifiers, 1, 0x1d, 0x11d, &mut out);
        self.modifier(scan, e.modifiers, 2, 0x2a, 0x36, &mut out);
        self.modifier(scan, e.modifiers, 4, 0x38, 0x138, &mut out);
        self.modifier(scan, e.modifiers, 8, 0x15b, 0x15c, &mut out);
        let up = e.phase >= 2;
        let held = self.contains(scan);
        if !(up && !held) {
            out.push(KeyAction { code: scan, up, modifier: false });
        }
        assert(out@ =~= keyboard_plan_spec(self.keys(), *e));
        out
    }

    /// The state change made before a transition is sent: a modifier being released
    /// is no longer counted as held.
    pub fn before_send(&mut self, a: KeyAction)
        ensures
            final(self).keys() == if a.up && a.modifier {
                old(self).keys().remove(a.code)
            } else {
                old(self).keys()
            },
    {
        broadcast use vstd::std_specs::btree::group_btree_axioms, vstd::laws_cmp::group_laws_cmp;

        if a.up && a.modifier {
            self.keys.remove(&a.code);
        }
    }

    /// The state change made once a transition was sent: a pressed key is held, a
    /// released main key is not.
    pub fn after_send(&mut self, a: KeyAction)
        ensures
            final(self).keys() == if !a.up {
                old(self).keys().insert(a.code)
            } else if !a.modifier {
                old(self).keys().remove(a.code)
            } else {
                old(self).keys()
            },
    {
        broadcast use vstd::std_specs::btree::group_btree_axioms, vstd::laws_cmp::group_laws_cmp;

        if !a.up {
            self.keys.insert(a.code);
        } else if !a.modifier {
            self.keys.remove(&a.code);
        }
    }

    /// Every held key, in ascending order, to be released; nothing is held afterwards.
    pub fn release_all(&mut self) -> (r: Vec<u16>)
        ensures
            r@.to_set() == old(self).keys(),
            sorted(r@),
            final(self).keys() == Set::<u16>::empty(),
    {
        broadcast use vstd::std_specs::btree::group_btree_axioms, vstd::laws_cmp::group_laws_cmp;

        let mut r: Vec<u16> = Vec::new();
        for k in it: self.keys.iter()
            invariant
                r@.len() == it.index(),
                forall|i: int| 0 <= i < r@.len() ==> r@[i] == *it.seq()[i],
        {
            r.push(*k);
        }
        proof {
            let s = spec_btree_keys_iter(&self.keys).remaining();
            assert(r@ =~= s.unref());
            assert(increasing_seq(s));
            assert(vstd::laws_cmp::obeys_cmp::<u16>());
            assert(vstd::laws_cmp::obeys_cmp::<&u16>());
            vstd::std_specs::btree::axiom_increasing_seq_meaning(s);
            assert forall|i: int, j: int| 0 <= i < j < r@.len() implies r@[i] < r@[j] by {
                assert(ordered_before::<&u16>(s[i], s[j]));
                assert(r@[i] == *s[i] && r@[j] == *s[j]);
            }
        }
        self.keys.clear();
        r
    }
}

// ---------------------------------------------------------------------------
// Touch
// ---------------------------------------------------------------------------
/// The pointer flags of a touch contact.
#[derive(Debug, Clone, Copy, PartialEq, Eq, Structural)]
pub enum TouchPhase {
    Down,
    Update,
    Up,
    Canceled,
}

/// One contact as it is injected: id, pixel location and flags.
#[derive(Debug, Clone, Copy, PartialEq, Eq, Structural)]
pub struct TouchPoint {
    pub contact: u16,
    pub x: i32,
    pub y: i32,
    pub phase: TouchPhase,
}

/// The flags of a touch event's phase: 0 down, 1 update, 2 up, 3 cancel.
pub open spec fn touch_phase(phase: u8) -> TouchPhase {
    if phase == 0 {
        TouchPhase::Down
    } else if phase == 1 {
        TouchPhase::Update
    } else if phase == 2 {
        TouchPhase::Up
    } else {
        TouchPhase::Canceled
    }
}

/// Most touch contacts at once.
pub const MAX_CONTACTS: usize = 10;

/// The contacts held in the first `n` slots, ascending by id.
pub open spec fn points_of(slots: Seq<Option<TouchPoint>>, n: int) -> Seq<TouchPoint>
    decreases n,
{
    if n <= 0 {
        seq![]
    } else {
        match slots[n - 1] {
            Some(p) => points_of(slots, n - 1).push(p),
            None => points_of(slots, n - 1),
        }
    }
}

/// Every held contact with its phase replaced by `phase`.
pub open spec fn with_phase(slots: Seq<Option<TouchPoint>>, phase: TouchPhase) -> Seq<
    Option<TouchPoint>,
> {
    slots.map_values(
        |o: Option<TouchPoint>|
            match o {
                Some(p) => Some(TouchPoint { phase, ..p }),
                None => None,
            },
    )
}

/// The contacts currently down, one slot per contact id.
pub struct TouchState {
    slots: [Option<TouchPoint>; MAX_CONTACTS],
}

impl TouchState {
    /// Slot `c` holds contact `c` when it is down.
    pub closed spec fn slots(&self) -> Seq<Option<TouchPoint>> {
        self.slots@
    }

    /// The contacts down, ascending by id.
    pub open spec fn points(&self) -> Seq<TouchPoint> {
        points_of(self.slots(), MAX_CONTACTS as int)
    }

    pub open spec fn wf(&self) -> bool {
        &&& self.slots().len() == MAX_CONTACTS
        &&& forall|c: int|
            0 <= c < MAX_CONTACTS ==> (#[trigger] self.slots()[c] matches Some(p) ==> p.contact == c)
    }

    pub fn new() -> (t: Self)
        ensures
            t.wf(),
            forall|c: int| 0 <= c < MAX_CONTACTS ==> #[trigger] t.slots()[c] is None,
    {
        TouchState { slots: [None; MAX_CONTACTS] }
    }

    /// Whether no contact is down.
    pub fn is_empty(&self) -> (r: bool)
        requires
            self.wf(),
        ensures
            r == forall|c: int| 0 <= c < MAX_CONTACTS ==> #[trigger] self.slots()[c] is None,
    {
        let mut c: usize = 0;
        while c < MAX_CONTACTS
            invariant
                c <= MAX_CONTACTS,
                self.slots@.len() == MAX_CONTACTS,
                forall|k: int| 0 <= k < c ==> #[trigger] self.slots@[k] is None,
            decreases MAX_CONTACTS - c,
        {
            if self.slots[c].is_some() {
                return false;
            }
            c = c + 1;
        }
        true
    }

    /// Contact ids 0..9 are accepted.
    pub fn check_contact(contact: u16) -> (r: Result<(), InputError>)
        ensures
            contact < 10 ==> r == Ok::<(), InputError>(()),
            contact >= 10 ==> r == Err::<(), InputError>(InputError::TooManyContacts),
    {
        if contact < 10 {
            Ok(())
        } else {
            Err(InputError::TooManyContacts)
        }
    }

    /// The contacts held, ascending by id.
    pub fn list(&self) -> (r: Vec<TouchPoint>)
        requires
            self.wf(),
        ensures
            r@ == self.points(),
    {
        let mut r: Vec<TouchPoint> = Vec::new();
        let mut c: usize = 0;
        while c < MAX_CONTACTS
            invariant
                c <= MAX_CONTACTS,
                self.slots@.len() == MAX_CONTACTS,
                r@ == points_of(self.slots@, c as int),
            decreases MAX_CONTACTS - c,
        {
            match self.slots[c] {
                Some(p) => r.push(p),
                None => {},
            }
            c = c + 1;
        }
        r
    }

    /// Records a touch event for `contact` at the mapped location (`x`, `y`) and
    /// returns every contact to inject, ascending by id. A down needs a free contact,
    /// other phases a held one; a lifted contact keeps its last location.
    pub fn begin(&mut self, contact: u16, phase: u8, x: i32, y: i32) -> (r: Result<
        Vec<TouchPoint>,
        InputError,
    >)
        requires
            old(self).wf(),
            contact < MAX_CONTACTS,
        ensures
            final(self).wf(),
            ({
                let old_slot = old(self).slots()[contact as int];
                if phase == 0 && old_slot is Some {
                    r == Err::<Vec<TouchPoint>, InputError>(InputError::DuplicateTouchDown)
                        && final(self).slots() == old(self).slots()
                } else if phase != 0 && old_slot is None {
                    r == Err::<Vec<TouchPoint>, InputError>(InputError::TouchWithoutDown)
                        && final(self).slots() == old(self).slots()
                } else {
                    let (px, py) = match old_slot {
                        Some(p) => if phase >= 2 {
                            (p.x, p.y)
                        } else {
                            (x, y)
                        },
                        None => (x, y),
                    };
                    &&& final(self).slots() == old(self).slots().update(
                        contact as int,
                        Some(TouchPoint { contact, x: px, y: py, phase: touch_phase(phase) }),
                    )
                    &&& r matches Ok(v) && v@ == final(self).points()
                }
            }),
    {
        let c = contact as usize;
        let old_slot = self.slots[c];
        if phase == 0 && old_slot.is_some() {
            return Err(InputError::DuplicateTouchDown);
        }
        if phase != 0 && old_slot.is_none() {
            return Err(InputError::TouchWithoutDown);
        }
        let (px, py) = match old_slot {
            Some(p) => if phase >= 2 {
                (p.x, p.y)
            } else {
                (x, y)
            },
            None => (x, y),
        };
        let flags = if phase == 0 {
            TouchPhase::Down
        } else if phase == 1 {
            TouchPhase::Update
        } else if phase == 2 {
            TouchPhase::Up
        } else {
            TouchPhase::Canceled
        };
        self.slots[c] = Some(TouchPoint { contact, x: px, y: py, phase: flags });
        Ok(self.list())
    }

    /// After the contacts were injected: a lifted contact is released, and every
    /// remaining one continues as an update.
    pub fn end(&mut self, contact: u16, phase: u8)
        requires
            old(self).wf(),
            contact < MAX_CONTACTS,
        ensures
            final(self).wf(),
            final(self).slots() == with_phase(
                if phase >= 2 {
                    old(self).slots().update(contact as int, None)
                } else {
                    old(self).slots()
                },
                TouchPhase::Update,
            ),
    {
        if phase >= 2 {
            self.slots[contact as usize] = None;
        }
        let ghost start = self.slots@;
        let mut c: usize = 0;
        while c < MAX_CONTACTS
            invariant
                c <= MAX_CONTACTS,
                start.len() == MAX_CONTACTS,
                self.slots@.len() == MAX_CONTACTS,
                forall|k: int|
                    0 <= k < MAX_CONTACTS ==> (#[trigger] start[k] matches Some(p) ==> p.contact
                        == k),
                forall|k: int|
                    0 <= k < c ==> #[trigger] self.slots@[k] == with_phase(start, TouchPhase::Update)[k],
                forall|k: int| c <= k < MAX_CONTACTS ==> #[trigger] self.slots@[k] == start[k],
            decreases MAX_CONTACTS - c,
        {
            match self.slots[c] {
                Some(p) => {
                    self.slots[c] = Some(TouchPoint { phase: TouchPhase::Update, ..p });
                },
                None => {},
            }
            c = c + 1;
        }
        assert(self.slots@ =~= with_phase(start, TouchPhase::Update));
    }

    /// Every held contact, canceled, to be injected once more; nothing is held afterwards.
    pub fn release_all(&mut self) -> (r: Vec<TouchPoint>)
        requires
            old(self).wf(),
        ensures
            final(self).wf(),
            r@ == points_of(with_phase(old(self).slots(), TouchPhase::Canceled), MAX_CONTACTS as int),
            forall|c: int| 0 <= c < MAX_CONTACTS ==> #[trigger] final(self).slots()[c] is None,
    {
        let ghost start = self.slots@;
        let mut c: usize = 0;
        while c < MAX_CONTACTS
            invariant
                c <= MAX_CONTACTS,
                start.len() == MAX_CONTACTS,
                self.slots@.len() == MAX_CONTACTS,
                forall|k: int|
                    0 <= k < MAX_CONTACTS ==> (#[trigger] start[k] matches Some(p) ==> p.contact
                        == k),
                forall|k: int|
                    0 <= k < c ==> #[trigger] self.slots@[k] == with_phase(start, TouchPhase::Canceled)[k],
                forall|k: int| c <= k < MAX_CONTACTS ==> #[trigger] self.slots@[k] == start[k],
            decreases MAX_CONTACTS - c,
        {
            match self.slots[c] {
                Some(p) => {
                    self.slots[c] = Some(TouchPoint { phase: TouchPhase::Canceled, ..p });
                },
                None => {},
            }
            c = c + 1;
        }
        assert(self.slots@ =~= with_phase(start, TouchPhase::Canceled));
        let r = self.list();
        self.slots = [None; MAX_CONTACTS];
        r
    }
}

} // verus!
