//! The digital half of the GameCube mapping: GIP button bits to Dolphin
//! pipe buttons, and the `PRESS`/`RELEASE` commands between two states.

use vstd::prelude::*;
use vstd::arithmetic::power2::{lemma_pow2_adds, lemma_pow2_pos, lemma_pow2_strictly_increases, pow2};

verus! {

/// The Dolphin pipe buttons that the bridge drives.
#[derive(Clone, Copy, Debug, PartialEq, Eq)]
pub enum GcButton {
    A,
    B,
    X,
    Y,
    Z,
    Start,
    DUp,
    DDown,
    DLeft,
    DRight,
}

/// The state of every Dolphin pipe button.
#[derive(Clone, Copy, Debug, PartialEq, Eq)]
pub struct GcButtons {
    pub a: bool,
    pub b: bool,
    pub x: bool,
    pub y: bool,
    pub z: bool,
    pub start: bool,
    pub d_up: bool,
    pub d_down: bool,
    pub d_left: bool,
    pub d_right: bool,
}

/// Whether bit `bit` of `w` is set.
pub open spec fn bit_set(w: u16, bit: nat) -> bool {
    (w as nat / vstd::arithmetic::power2::pow2(bit)) % 2 == 1
}

/// The GIP `0x20` button word read as pipe buttons (bit layout as in Linux
/// `xpad`): bit 2 Menu is Start, bit 3 View is Z, bits 4 to 7 are A, B, X,
/// Y, bits 8 to 11 the d-pad up, down, left, right.
pub open spec fn buttons_from_word(w: u16) -> GcButtons {
    GcButtons {
        a: bit_set(w, 4),
        b: bit_set(w, 5),
        x: bit_set(w, 6),
        y: bit_set(w, 7),
        z: bit_set(w, 3),
        start: bit_set(w, 2),
        d_up: bit_set(w, 8),
        d_down: bit_set(w, 9),
        d_left: bit_set(w, 10),
        d_right: bit_set(w, 11),
    }
}

fn has_bit(w: u16, mask: u16, bit: Ghost<nat>) -> (r: bool)
    requires
        2 <= bit@ <= 11,
        mask == vstd::arithmetic::power2::pow2(bit@),
    ensures
        r == bit_set(w, bit@),
{
    let r = (w & mask) != 0;
    proof {
        vstd::arithmetic::power2::lemma2_to64();
        let b = bit@;
        if b == 2 {
            assert(((w & 4u16) != 0) == ((w / 4u16) % 2 == 1)) by (bit_vector);
        } else if b == 3 {
            assert(((w & 8u16) != 0) == ((w / 8u16) % 2 == 1)) by (bit_vector);
        } else if b == 4 {
            assert(((w & 16u16) != 0) == ((w / 16u16) % 2 == 1)) by (bit_vector);
        } else if b == 5 {
            assert(((w & 32u16) != 0) == ((w / 32u16) % 2 == 1)) by (bit_vector);
        } else if b == 6 {
            assert(((w & 64u16) != 0) == ((w / 64u16) % 2 == 1)) by (bit_vector);
        } else if b == 7 {
            assert(((w & 128u16) != 0) == ((w / 128u16) % 2 == 1)) by (bit_vector);
        } else if b == 8 {
            assert(((w & 256u16) != 0) == ((w / 256u16) % 2 == 1)) by (bit_vector);
        } else if b == 9 {
            assert(((w & 512u16) != 0) == ((w / 512u16) % 2 == 1)) by (bit_vector);
        } else if b == 10 {
            assert(((w & 1024u16) != 0) == ((w / 1024u16) % 2 == 1)) by (bit_vector);
        } else {
            assert(((w & 2048u16) != 0) == ((w / 2048u16) % 2 == 1)) by (bit_vector);
        }
    }
    r
}

/// The pipe buttons that the GIP button word `w` holds down.
pub fn decode_buttons(w: u16) -> (s: GcButtons)
    ensures
        s == buttons_from_word(w),
{
    proof {
        vstd::arithmetic::power2::lemma2_to64();
    }
    GcButtons {
        a: has_bit(w, 0x0010, Ghost(4)),
        b: has_bit(w, 0x0020, Ghost(5)),
        x: has_bit(w, 0x0040, Ghost(6)),
        y: has_bit(w, 0x0080, Ghost(7)),
        z: has_bit(w, 0x0008, Ghost(3)),
        start: has_bit(w, 0x0004, Ghost(2)),
        d_up: has_bit(w, 0x0100, Ghost(8)),
        d_down: has_bit(w, 0x0200, Ghost(9)),
        d_left: has_bit(w, 0x0400, Ghost(10)),
        d_right: has_bit(w, 0x0800, Ghost(11)),
    }
}


/// Whether button `b` is held in `s`.
pub open spec fn held(s: GcButtons, b: GcButton) -> bool {
    match b {
        GcButton::A => s.a,
        GcButton::B => s.b,
        GcButton::X => s.x,
        GcButton::Y => s.y,
        GcButton::Z => s.z,
        GcButton::Start => s.start,
        GcButton::DUp => s.d_up,
        GcButton::DDown => s.d_down,
        GcButton::DLeft => s.d_left,
        GcButton::DRight => s.d_right,
    }
}

/// `s` with button `b` set to `down`.
pub open spec fn with_button(s: GcButtons, b: GcButton, down: bool) -> GcButtons {
    match b {
        GcButton::A => GcButtons { a: down, ..s },
        GcButton::B => GcButtons { b: down, ..s },
        GcButton::X => GcButtons { x: down, ..s },
        GcButton::Y => GcButtons { y: down, ..s },
        GcButton::Z => GcButtons { z: down, ..s },
        GcButton::Start => GcButtons { start: down, ..s },
        GcButton::DUp => GcButtons { d_up: down, ..s },
        GcButton::DDown => GcButtons { d_down: down, ..s },
        GcButton::DLeft => GcButtons { d_left: down, ..s },
        GcButton::DRight => GcButtons { d_right: down, ..s },
    }
}

/// The order in which button changes are reported.
pub open spec fn report_order() -> Seq<GcButton> {
    seq![
        GcButton::A,
        GcButton::B,
        GcButton::X,
        GcButton::Y,
        GcButton::Z,
        GcButton::Start,
        GcButton::DUp,
        GcButton::DDown,
        GcButton::DLeft,
        GcButton::DRight,
    ]
}

/// A button going down (`pressed`) or up.
#[derive(Clone, Copy, Debug, PartialEq, Eq)]
pub struct ButtonEvent {
    pub button: GcButton,
    pub pressed: bool,
}

/// The events for the buttons of `order` whose state differs between
/// `prev` and `now`, in the order of `order`.
pub open spec fn changes_in(prev: GcButtons, now: GcButtons, order: Seq<GcButton>) -> Seq<ButtonEvent>
    decreases order.len(),
{
    if order.len() == 0 {
        Seq::empty()
    } else {
        let rest = changes_in(prev, now, order.drop_last());
        let b = order.last();
        if held(prev, b) != held(now, b) {
            rest.push(ButtonEvent { button: b, pressed: held(now, b) })
        } else {
            rest
        }
    }
}

/// The `PRESS`/`RELEASE` events that take the pipe from `prev` to `now`.
pub open spec fn button_changes(prev: GcButtons, now: GcButtons) -> Seq<ButtonEvent> {
    changes_in(prev, now, report_order())
}

/// `s` after the events `evs`, applied in order.
pub open spec fn apply_events(s: GcButtons, evs: Seq<ButtonEvent>) -> GcButtons
    decreases evs.len(),
{
    if evs.len() == 0 {
        s
    } else {
        with_button(apply_events(s, evs.drop_last()), evs.last().button, evs.last().pressed)
    }
}

fn is_held(s: GcButtons, b: GcButton) -> (r: bool)
    ensures
        r == held(s, b),
{
    match b {
        GcButton::A => s.a,
        GcButton::B => s.b,
        GcButton::X => s.x,
        GcButton::Y => s.y,
        GcButton::Z => s.z,
        GcButton::Start => s.start,
        GcButton::DUp => s.d_up,
        GcButton::DDown => s.d_down,
        GcButton::DLeft => s.d_left,
        GcButton::DRight => s.d_right,
    }
}

fn report_button(k: usize) -> (b: GcButton)
    requires
        k < 10,
    ensures
        b == report_order()[k as int],
{
    match k {
        0 => GcButton::A,
        1 => GcButton::B,
        2 => GcButton::X,
        3 => GcButton::Y,
        4 => GcButton::Z,
        5 => GcButton::Start,
        6 => GcButton::DUp,
        7 => GcButton::DDown,
        8 => GcButton::DLeft,
        _ => GcButton::DRight,
    }
}

/// The button events between two pipe states, in the fixed report order
/// A, B, X, Y, Z, START, D_UP, D_DOWN, D_LEFT, D_RIGHT.
pub fn button_events(prev: GcButtons, now: GcButtons) -> (evs: Vec<ButtonEvent>)
    ensures
        evs@ == button_changes(prev, now),
{
    let ghost o = report_order();
    let mut evs: Vec<ButtonEvent> = Vec::new();
    assert(o.take(0) =~= Seq::<GcButton>::empty());
    for k in 0..10
        invariant
            o == report_order(),
            evs@ == changes_in(prev, now, o.take(k as int)),
    {
        let b = report_button(k);
        let before = is_held(prev, b);
        let after = is_held(now, b);
        assert(o.take(k + 1).drop_last() =~= o.take(k as int));
        if before != after {
            evs.push(ButtonEvent { button: b, pressed: after });
        }
    }
    assert(o.take(10) =~= o);
    evs
}


/// The name of a button in Dolphin's pipe protocol.
pub open spec fn pipe_name_of(b: GcButton) -> Seq<char> {
    match b {
        GcButton::A => "A"@,
        GcButton::B => "B"@,
        GcButton::X => "X"@,
        GcButton::Y => "Y"@,
        GcButton::Z => "Z"@,
        GcButton::Start => "START"@,
        GcButton::DUp => "D_UP"@,
        GcButton::DDown => "D_DOWN"@,
        GcButton::DLeft => "D_LEFT"@,
        GcButton::DRight => "D_RIGHT"@,
    }
}

/// The name of a button in Dolphin's pipe protocol.
pub fn button_name(b: GcButton) -> (name: &'static str)
    ensures
        name@ == pipe_name_of(b),
{
    match b {
        GcButton::A => "A",
        GcButton::B => "B",
        GcButton::X => "X",
        GcButton::Y => "Y",
        GcButton::Z => "Z",
        GcButton::Start => "START",
        GcButton::DUp => "D_UP",
        GcButton::DDown => "D_DOWN",
        GcButton::DLeft => "D_LEFT",
        GcButton::DRight => "D_RIGHT",
    }
}

/// The pipe command line (without its newline) for one button event.
pub open spec fn event_line_spec(ev: ButtonEvent) -> Seq<char> {
    (if ev.pressed {
        "PRESS "@
    } else {
        "RELEASE "@
    }) + pipe_name_of(ev.button)
}

/// The pipe command line (without its newline) for one button event:
/// `PRESS <name>` or `RELEASE <name>`.
pub fn event_line(ev: ButtonEvent) -> (line: String)
    ensures
        line@ == event_line_spec(ev),
{
    let head = if ev.pressed {
        "PRESS "
    } else {
        "RELEASE "
    };
    let line = String::from_str(head);
    line.concat(button_name(ev.button))
}

proof fn lemma_apply_changes_in(prev: GcButtons, now: GcButtons, o: Seq<GcButton>)
    ensures
        forall|c: GcButton|
            #[trigger] held(apply_events(prev, changes_in(prev, now, o)), c) == if o.contains(c) {
                held(now, c)
            } else {
                held(prev, c)
            },
    decreases o.len(),
{
    if o.len() > 0 {
        let o1 = o.drop_last();
        lemma_apply_changes_in(prev, now, o1);
        let r = changes_in(prev, now, o1);
        let b = o.last();
        assert forall|c: GcButton| #[trigger] o.contains(c) == (o1.contains(c) || c == b) by {
            if o.contains(c) {
                let k = choose|k: int| 0 <= k < o.len() && o[k] == c;
                if k < o.len() - 1 {
                    assert(o1[k] == c);
                }
            }
            if o1.contains(c) {
                let k = choose|k: int| 0 <= k < o1.len() && o1[k] == c;
                assert(o[k] == c);
            }
            if c == b {
                assert(o[o.len() - 1] == c);
            }
        }
        if held(prev, b) != held(now, b) {
            let ev = ButtonEvent { button: b, pressed: held(now, b) };
            assert(r.push(ev).drop_last() =~= r);
            let s1 = apply_events(prev, r);
            assert(apply_events(prev, r.push(ev)) == with_button(s1, b, held(now, b)));
            assert forall|c: GcButton| #[trigger] held(with_button(s1, b, held(now, b)), c) == (if c
                == b {
                held(now, b)
            } else {
                held(s1, c)
            }) by {
                lemma_held_with_button(s1, b, held(now, b), c);
            }
        }
    } else {
        assert forall|c: GcButton| !(#[trigger] o.contains(c)) by {}
    }
}

proof fn lemma_held_with_button(s: GcButtons, b: GcButton, down: bool, c: GcButton)
    ensures
        held(with_button(s, b, down), c) == if c == b {
            down
        } else {
            held(s, c)
        },
{
}

proof fn lemma_buttons_eq(s: GcButtons, t: GcButtons)
    requires
        forall|c: GcButton| held(s, c) == #[trigger] held(t, c),
    ensures
        s == t,
{
    assert(held(s, GcButton::A) == held(t, GcButton::A));
    assert(held(s, GcButton::B) == held(t, GcButton::B));
    assert(held(s, GcButton::X) == held(t, GcButton::X));
    assert(held(s, GcButton::Y) == held(t, GcButton::Y));
    assert(held(s, GcButton::Z) == held(t, GcButton::Z));
    assert(held(s, GcButton::Start) == held(t, GcButton::Start));
    assert(held(s, GcButton::DUp) == held(t, GcButton::DUp));
    assert(held(s, GcButton::DDown) == held(t, GcButton::DDown));
    assert(held(s, GcButton::DLeft) == held(t, GcButton::DLeft));
    assert(held(s, GcButton::DRight) == held(t, GcButton::DRight));
}

/// Replaying the button events between two states on the first state gives
/// the second: the events are all the pipe needs to follow the buttons.
pub proof fn law_events_replay_to_new_state(prev: GcButtons, now: GcButtons)
    ensures
        apply_events(prev, button_changes(prev, now)) == now,
{
    let o = report_order();
    lemma_apply_changes_in(prev, now, o);
    assert forall|c: GcButton| #[trigger] o.contains(c) by {
        match c {
            GcButton::A => assert(o[0] == c),
            GcButton::B => assert(o[1] == c),
            GcButton::X => assert(o[2] == c),
            GcButton::Y => assert(o[3] == c),
            GcButton::Z => assert(o[4] == c),
            GcButton::Start => assert(o[5] == c),
            GcButton::DUp => assert(o[6] == c),
            GcButton::DDown => assert(o[7] == c),
            GcButton::DLeft => assert(o[8] == c),
            GcButton::DRight => assert(o[9] == c),
        }
    }
    lemma_buttons_eq(apply_events(prev, button_changes(prev, now)), now);
}

proof fn lemma_no_changes(s: GcButtons, o: Seq<GcButton>)
    ensures
        changes_in(s, s, o).len() == 0,
    decreases o.len(),
{
    if o.len() > 0 {
        lemma_no_changes(s, o.drop_last());
    }
}

/// An unchanged button state produces no command.
pub proof fn law_no_events_without_change(s: GcButtons)
    ensures
        button_changes(s, s).len() == 0,
{
    lemma_no_changes(s, report_order());
}

/// Each button changes at most once per update, and only buttons whose
/// state differs are reported, carrying their new state.
pub proof fn law_events_are_exact(prev: GcButtons, now: GcButtons)
    ensures
        forall|k: int|
            0 <= k < button_changes(prev, now).len() ==> {
                let ev = #[trigger] button_changes(prev, now)[k];
                held(prev, ev.button) != held(now, ev.button) && ev.pressed == held(now, ev.button)
            },
        button_changes(prev, now).len() <= 10,
{
    lemma_changes_exact(prev, now, report_order());
}

proof fn lemma_changes_exact(prev: GcButtons, now: GcButtons, o: Seq<GcButton>)
    ensures
        forall|k: int|
            0 <= k < changes_in(prev, now, o).len() ==> {
                let ev = #[trigger] changes_in(prev, now, o)[k];
                held(prev, ev.button) != held(now, ev.button) && ev.pressed == held(now, ev.button)
            },
        changes_in(prev, now, o).len() <= o.len(),
    decreases o.len(),
{
    if o.len() > 0 {
        lemma_changes_exact(prev, now, o.drop_last());
    }
}


/// The bit of the GIP button word that holds each pipe button, in the
/// layout of Linux `xpad`: Menu (bit 2) is Start, View (bit 3) is Z, bits
/// 4 to 7 are A, B, X, Y, bits 8 to 11 the d-pad up, down, left, right.
pub open spec fn xpad_bit(b: GcButton) -> nat {
    match b {
        GcButton::Start => 2,
        GcButton::Z => 3,
        GcButton::A => 4,
        GcButton::B => 5,
        GcButton::X => 6,
        GcButton::Y => 7,
        GcButton::DUp => 8,
        GcButton::DDown => 9,
        GcButton::DLeft => 10,
        GcButton::DRight => 11,
    }
}

/// Every pipe button is held exactly when its `xpad` bit is set in the
/// button word, whatever the other bits hold.
pub proof fn law_buttons_follow_xpad_bits(w: u16, b: GcButton)
    ensures
        held(buttons_from_word(w), b) == ((w as nat / vstd::arithmetic::power2::pow2(xpad_bit(b)))
            % 2 == 1),
{
}

proof fn lemma_single_bit(k: nat, j: nat)
    requires
        k < 16,
        j < 16,
    ensures
        ((vstd::arithmetic::power2::pow2(k) / vstd::arithmetic::power2::pow2(j)) % 2 == 1) == (j
            == k),
{
    lemma_pow2_pos(k);
    lemma_pow2_pos(j);
    if j > k {
        lemma_pow2_strictly_increases(k, j);
        vstd::arithmetic::div_mod::lemma_basic_div(pow2(k) as int, pow2(j) as int);
    } else if j == k {
        vstd::arithmetic::div_mod::lemma_div_by_self(pow2(k) as int);
    } else {
        let d = (k - j) as nat;
        lemma_pow2_adds(j, d);
        lemma_pow2_pos(d);
        vstd::arithmetic::div_mod::lemma_div_multiples_vanish(pow2(d) as int, pow2(j) as int);
        lemma_pow2_adds(1, (d - 1) as nat);
        vstd::arithmetic::power2::lemma2_to64();
        vstd::arithmetic::div_mod::lemma_mod_multiples_basic(pow2((d - 1) as nat) as int, 2);
        assert(pow2(d) == pow2((d - 1) as nat) * 2) by (nonlinear_arith)
            requires
                pow2(d) == pow2(1) * pow2((d - 1) as nat),
                pow2(1) == 2,
        ;
    }
}

/// A button word with the single bit `k` set holds exactly the button whose
/// `xpad` bit is `k`: no button when `k` is 0, 1 or 12 to 15 (LB, RB and
/// the stick clicks have no GameCube button).
pub proof fn law_single_bit_word(k: nat, b: GcButton)
    requires
        k < 16,
    ensures
        held(buttons_from_word(vstd::arithmetic::power2::pow2(k) as u16), b) == (xpad_bit(b) == k),
{
    vstd::arithmetic::power2::lemma2_to64();
    vstd::arithmetic::power2::lemma_pow2_strictly_increases(k, 16);
    vstd::arithmetic::power2::lemma_pow2_pos(k);
    lemma_single_bit(k, xpad_bit(b));
}

/// Each button's pipe name is the name Dolphin's pipe protocol uses for it.
pub proof fn law_pipe_names_are_dolphins(b: GcButton)
    ensures
        pipe_name_of(b) == match b {
            GcButton::A => seq!['A'],
            GcButton::B => seq!['B'],
            GcButton::X => seq!['X'],
            GcButton::Y => seq!['Y'],
            GcButton::Z => seq!['Z'],
            GcButton::Start => seq!['S', 'T', 'A', 'R', 'T'],
            GcButton::DUp => seq!['D', '_', 'U', 'P'],
            GcButton::DDown => seq!['D', '_', 'D', 'O', 'W', 'N'],
            GcButton::DLeft => seq!['D', '_', 'L', 'E', 'F', 'T'],
            GcButton::DRight => seq!['D', '_', 'R', 'I', 'G', 'H', 'T'],
        },
{
    reveal_strlit("A");
    reveal_strlit("B");
    reveal_strlit("X");
    reveal_strlit("Y");
    reveal_strlit("Z");
    reveal_strlit("START");
    reveal_strlit("D_UP");
    reveal_strlit("D_DOWN");
    reveal_strlit("D_LEFT");
    reveal_strlit("D_RIGHT");
    assert(pipe_name_of(b) =~= match b {
        GcButton::A => seq!['A'],
        GcButton::B => seq!['B'],
        GcButton::X => seq!['X'],
        GcButton::Y => seq!['Y'],
        GcButton::Z => seq!['Z'],
        GcButton::Start => seq!['S', 'T', 'A', 'R', 'T'],
        GcButton::DUp => seq!['D', '_', 'U', 'P'],
        GcButton::DDown => seq!['D', '_', 'D', 'O', 'W', 'N'],
        GcButton::DLeft => seq!['D', '_', 'L', 'E', 'F', 'T'],
        GcButton::DRight => seq!['D', '_', 'R', 'I', 'G', 'H', 'T'],
    });
}

/// Different buttons have different pipe names, so every command line
/// names exactly one button.
pub proof fn law_pipe_names_distinct(b1: GcButton, b2: GcButton)
    ensures
        pipe_name_of(b1) == pipe_name_of(b2) ==> b1 == b2,
{
    law_pipe_names_are_dolphins(b1);
    law_pipe_names_are_dolphins(b2);
    if pipe_name_of(b1) == pipe_name_of(b2) && b1 != b2 {
        let n1 = pipe_name_of(b1);
        let n2 = pipe_name_of(b2);
        assert(n1.len() == n2.len());
        assert(n1[0] == n2[0]);
        if n1.len() > 2 {
            assert(n1[2] == n2[2]);
        }
        if n1.len() > 3 {
            assert(n1[3] == n2[3]);
        }
    }
}

} // verus!
