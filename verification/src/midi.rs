//! The control surface, a Korg nanoKONTROL2: where each control sits on the
//! panel, what each one is bound to, which lamps the panel should show, and
//! what one control change does to the instrument as the surface stands.
//!
//! Two kinds of control, because a surface has two kinds of thing on it. A
//! fader or a rotary names a [`Knob`] and turns it by how far it has moved,
//! never to where it stands. A button sends that it was pushed, so it names
//! an [`Action`].

use vstd::prelude::*;
use crate::command::{let_go, released, Action, Axis, Edge, Throw};
use crate::tempo::Step;
use crate::lamps::{has_lamp, lamp};
use crate::params::{knobs, Focus, Knob, Node};
use crate::rig::MAX_PERIOD;
use crate::text::decimal;
use crate::wire::ControlChange;

verus! {

/// The control number the first strip's control carries, one per block. The
/// panel is eight strips wide and each block is that eight in a run, so a
/// block is named by where it starts.
pub const FADER_ROW: u8 = 0;
pub const ROTARY_ROW: u8 = 16;
pub const S_ROW: u8 = 32;
pub const M_ROW: u8 = 48;
pub const R_ROW: u8 = 64;

/// How many channel strips the panel has, and so how wide a select row is.
pub const STRIPS: u8 = 8;

/// The tails of the Record and Solo rows, which the rig leaves dead — the
/// switchers and the cameras stop short of them — so they are the select
/// buttons no rig can claim.
pub const SELECT: u8 = 71;
pub const FLIP_X: u8 = 69;
pub const FLIP_Y: u8 = 70;
pub const REVERSE: u8 = 68;
pub const CLUTCH: u8 = 39;
pub const COARSER: u8 = 38;
pub const FINER: u8 = 37;

/// The value at and above which a button counts as pushed. Everything sends
/// 0 and 127, so the halfway line is here for its distance from both ends.
pub const PUSHED: u8 = 64;

/// A fader or a rotary, and the knob it turns.
#[derive(Clone, Copy, Debug, PartialEq, Eq, Structural)]
pub struct Fader {
    pub cc: u8,
    pub knob: Knob,
}

/// A button, and what pressing it does.
#[derive(Clone, Copy, Debug, PartialEq, Eq, Structural)]
pub struct Button {
    pub cc: u8,
    pub action: Action,
}

/// The faders are the left hand's: the focused monitor's front panel, then
/// the focused switcher's period and its crossfade. The rotaries above them
/// are the right hand's: where the focused camera stands on its shaft and
/// how late its cable is. Eleven knobs on sixteen controls, so there is no
/// second page and the five rotaries past the third are dead.
pub open spec fn fader_table() -> Seq<Fader> {
    seq![
        Fader { cc: 0, knob: Knob::Hue },
        Fader { cc: 1, knob: Knob::Saturation },
        Fader { cc: 2, knob: Knob::Brightness },
        Fader { cc: 3, knob: Knob::Contrast },
        Fader { cc: 4, knob: Knob::Temperature },
        Fader { cc: 5, knob: Knob::Sharpness },
        Fader { cc: 6, knob: Knob::Period },
        Fader { cc: 7, knob: Knob::Switcher },
        Fader { cc: 16, knob: Knob::Zoom },
        Fader { cc: 17, knob: Knob::Rotation },
        Fader { cc: 18, knob: Knob::Delay },
    ]
}

/// The three select rows, each exactly as wide as its kind of node, then
/// the transport strip and the rows' tails. The tape row's left half is the
/// reset ladder, in the order of how much it takes back; cycle shows and
/// hides the overlay; marker set takes a still and record records for as
/// long as a hand stays on it. The track pair plays the tempo, slower and
/// faster; play is dead.
pub open spec fn button_table() -> Seq<Button> {
    seq![
        Button { cc: 32, action: Action::Focus(Node::Camera, 0) },
        Button { cc: 33, action: Action::Focus(Node::Camera, 1) },
        Button { cc: 34, action: Action::Focus(Node::Camera, 2) },
        Button { cc: 48, action: Action::Focus(Node::Monitor, 0) },
        Button { cc: 49, action: Action::Focus(Node::Monitor, 1) },
        Button { cc: 50, action: Action::Focus(Node::Monitor, 2) },
        Button { cc: 51, action: Action::Focus(Node::Monitor, 3) },
        Button { cc: 52, action: Action::Focus(Node::Monitor, 4) },
        Button { cc: 64, action: Action::Focus(Node::Switcher, 0) },
        Button { cc: 65, action: Action::Focus(Node::Switcher, 1) },
        Button { cc: 66, action: Action::Focus(Node::Switcher, 2) },
        Button { cc: 67, action: Action::Focus(Node::Switcher, 3) },
        Button { cc: 62, action: Action::Clear },
        Button { cc: 43, action: Action::ResetLastKnob },
        Button { cc: 42, action: Action::Reset },
        Button { cc: 46, action: Action::Overlay },
        Button { cc: 44, action: Action::Solo },
        Button { cc: 60, action: Action::Screencap },
        Button { cc: 45, action: Action::Record(Edge::Down) },
        Button { cc: 61, action: Action::Cut(Edge::Down) },
        Button { cc: 58, action: Action::Rate(Step::Slower) },
        Button { cc: 59, action: Action::Rate(Step::Faster) },
        Button { cc: 68, action: Action::Reverse },
        Button { cc: 69, action: Action::Flip(Axis::X) },
        Button { cc: 70, action: Action::Flip(Axis::Y) },
        Button { cc: 71, action: Action::Select },
        Button { cc: 37, action: Action::Finer },
        Button { cc: 38, action: Action::Coarser },
        Button { cc: 39, action: Action::Clutch(Edge::Down) },
    ]
}

/// The knob of the first fader in `table` on control `cc`.
pub open spec fn fader_in(table: Seq<Fader>, cc: u8) -> Option<Knob>
    decreases table.len(),
{
    if table.len() == 0 {
        None
    } else if table[0].cc == cc {
        Some(table[0].knob)
    } else {
        fader_in(table.drop_first(), cc)
    }
}

/// What the first button in `table` on control `cc` does.
pub open spec fn button_in(table: Seq<Button>, cc: u8) -> Option<Action>
    decreases table.len(),
{
    if table.len() == 0 {
        None
    } else if table[0].cc == cc {
        Some(table[0].action)
    } else {
        button_in(table.drop_first(), cc)
    }
}

/// The knob control `cc` turns, if it is a fader or a rotary that turns one.
pub open spec fn knob_on(cc: u8) -> Option<Knob> {
    fader_in(fader_table(), cc)
}

/// What control `cc` does when pushed, if it is a button bound to anything.
pub open spec fn action_on(cc: u8) -> Option<Action> {
    button_in(button_table(), cc)
}

/// Every fader and rotary that turns a knob.
pub fn faders() -> (faders: Vec<Fader>)
    ensures
        faders@ == fader_table(),
{
    let mut faders: Vec<Fader> = Vec::new();
    faders.push(Fader { cc: 0, knob: Knob::Hue });
    faders.push(Fader { cc: 1, knob: Knob::Saturation });
    faders.push(Fader { cc: 2, knob: Knob::Brightness });
    faders.push(Fader { cc: 3, knob: Knob::Contrast });
    faders.push(Fader { cc: 4, knob: Knob::Temperature });
    faders.push(Fader { cc: 5, knob: Knob::Sharpness });
    faders.push(Fader { cc: 6, knob: Knob::Period });
    faders.push(Fader { cc: 7, knob: Knob::Switcher });
    faders.push(Fader { cc: 16, knob: Knob::Zoom });
    faders.push(Fader { cc: 17, knob: Knob::Rotation });
    faders.push(Fader { cc: 18, knob: Knob::Delay });
    assert(faders@ =~= fader_table());
    faders
}

/// Every button bound to something.
pub fn buttons() -> (buttons: Vec<Button>)
    ensures
        buttons@ == button_table(),
{
    let mut buttons: Vec<Button> = Vec::new();
    buttons.push(Button { cc: 32, action: Action::Focus(Node::Camera, 0) });
    buttons.push(Button { cc: 33, action: Action::Focus(Node::Camera, 1) });
    buttons.push(Button { cc: 34, action: Action::Focus(Node::Camera, 2) });
    buttons.push(Button { cc: 48, action: Action::Focus(Node::Monitor, 0) });
    buttons.push(Button { cc: 49, action: Action::Focus(Node::Monitor, 1) });
    buttons.push(Button { cc: 50, action: Action::Focus(Node::Monitor, 2) });
    buttons.push(Button { cc: 51, action: Action::Focus(Node::Monitor, 3) });
    buttons.push(Button { cc: 52, action: Action::Focus(Node::Monitor, 4) });
    buttons.push(Button { cc: 64, action: Action::Focus(Node::Switcher, 0) });
    buttons.push(Button { cc: 65, action: Action::Focus(Node::Switcher, 1) });
    buttons.push(Button { cc: 66, action: Action::Focus(Node::Switcher, 2) });
    buttons.push(Button { cc: 67, action: Action::Focus(Node::Switcher, 3) });
    buttons.push(Button { cc: 62, action: Action::Clear });
    buttons.push(Button { cc: 43, action: Action::ResetLastKnob });
    buttons.push(Button { cc: 42, action: Action::Reset });
    buttons.push(Button { cc: 46, action: Action::Overlay });
    buttons.push(Button { cc: 44, action: Action::Solo });
    buttons.push(Button { cc: 60, action: Action::Screencap });
    buttons.push(Button { cc: 45, action: Action::Record(Edge::Down) });
    buttons.push(Button { cc: 61, action: Action::Cut(Edge::Down) });
    buttons.push(Button { cc: 58, action: Action::Rate(Step::Slower) });
    buttons.push(Button { cc: 59, action: Action::Rate(Step::Faster) });
    buttons.push(Button { cc: REVERSE, action: Action::Reverse });
    buttons.push(Button { cc: FLIP_X, action: Action::Flip(Axis::X) });
    buttons.push(Button { cc: FLIP_Y, action: Action::Flip(Axis::Y) });
    buttons.push(Button { cc: SELECT, action: Action::Select });
    buttons.push(Button { cc: FINER, action: Action::Finer });
    buttons.push(Button { cc: COARSER, action: Action::Coarser });
    buttons.push(Button { cc: CLUTCH, action: Action::Clutch(Edge::Down) });
    assert(buttons@ =~= button_table());
    buttons
}

/// The knob control `cc` turns, if any.
pub fn fader_of(cc: u8) -> (knob: Option<Knob>)
    ensures
        knob == knob_on(cc),
{
    let table = faders();
    let mut i: usize = 0;
    assert(fader_table().skip(0) =~= fader_table());
    while i < table.len()
        invariant
            table@ == fader_table(),
            i <= table@.len(),
            fader_in(fader_table(), cc) == fader_in(fader_table().skip(i as int), cc),
        decreases table@.len() - i,
    {
        proof {
            let rest = fader_table().skip(i as int);
            assert(rest[0] == table@[i as int]);
            assert(rest.drop_first() =~= fader_table().skip(i + 1));
        }
        if table[i].cc == cc {
            return Some(table[i].knob);
        }
        i = i + 1;
    }
    assert(table@.skip(i as int) =~= Seq::empty());
    None
}

/// What control `cc` does when pushed, if anything.
pub fn button_of(cc: u8) -> (action: Option<Action>)
    ensures
        action == action_on(cc),
{
    let table = buttons();
    let mut i: usize = 0;
    assert(button_table().skip(0) =~= button_table());
    while i < table.len()
        invariant
            table@ == button_table(),
            i <= table@.len(),
            button_in(button_table(), cc) == button_in(button_table().skip(i as int), cc),
        decreases table@.len() - i,
    {
        proof {
            let rest = button_table().skip(i as int);
            assert(rest[0] == table@[i as int]);
            assert(rest.drop_first() =~= button_table().skip(i + 1));
        }
        if table[i].cc == cc {
            return Some(table[i].action);
        }
        i = i + 1;
    }
    assert(table@.skip(i as int) =~= Seq::empty());
    None
}

/// The name the silkscreen prints above a group of transport buttons.
#[derive(Clone, Copy, Debug, PartialEq, Eq, Structural)]
pub enum Group {
    Track,
    Marker,
}

impl Group {
    pub fn name(self) -> (name: &'static str)
        ensures
            name@ == (match self {
                Group::Track => "TRACK"@,
                Group::Marker => "MARKER"@,
            }),
    {
        match self {
            Group::Track => "TRACK",
            Group::Marker => "MARKER",
        }
    }
}

/// One button of the transport strip, and where it sits in the strip's grid
/// of three rows.
#[derive(Clone, Copy, Debug, PartialEq, Eq, Structural)]
pub struct TransportButton {
    pub cc: u8,
    pub row: u8,
    pub col: u8,
    /// The group the silkscreen names above the button, for the buttons
    /// that are in one.
    pub group: Option<Group>,
}

/// The transport strip as the device has it: the track pair on top; cycle
/// alone at the left of the middle row with the marker three set apart over
/// the last three columns; the tape row of five underneath.
pub open spec fn transport_table() -> Seq<TransportButton> {
    seq![
        TransportButton { cc: 58, row: 0, col: 0, group: Some(Group::Track) },
        TransportButton { cc: 59, row: 0, col: 1, group: Some(Group::Track) },
        TransportButton { cc: 46, row: 1, col: 0, group: None },
        TransportButton { cc: 60, row: 1, col: 2, group: Some(Group::Marker) },
        TransportButton { cc: 61, row: 1, col: 3, group: Some(Group::Marker) },
        TransportButton { cc: 62, row: 1, col: 4, group: Some(Group::Marker) },
        TransportButton { cc: 43, row: 2, col: 0, group: None },
        TransportButton { cc: 44, row: 2, col: 1, group: None },
        TransportButton { cc: 42, row: 2, col: 2, group: None },
        TransportButton { cc: 41, row: 2, col: 3, group: None },
        TransportButton { cc: 45, row: 2, col: 4, group: None },
    ]
}

pub fn transport() -> (strip: Vec<TransportButton>)
    ensures
        strip@ == transport_table(),
{
    let mut strip: Vec<TransportButton> = Vec::new();
    strip.push(TransportButton { cc: 58, row: 0, col: 0, group: Some(Group::Track) });
    strip.push(TransportButton { cc: 59, row: 0, col: 1, group: Some(Group::Track) });
    strip.push(TransportButton { cc: 46, row: 1, col: 0, group: None });
    strip.push(TransportButton { cc: 60, row: 1, col: 2, group: Some(Group::Marker) });
    strip.push(TransportButton { cc: 61, row: 1, col: 3, group: Some(Group::Marker) });
    strip.push(TransportButton { cc: 62, row: 1, col: 4, group: Some(Group::Marker) });
    strip.push(TransportButton { cc: 43, row: 2, col: 0, group: None });
    strip.push(TransportButton { cc: 44, row: 2, col: 1, group: None });
    strip.push(TransportButton { cc: 42, row: 2, col: 2, group: None });
    strip.push(TransportButton { cc: 41, row: 2, col: 3, group: None });
    strip.push(TransportButton { cc: 45, row: 2, col: 4, group: None });
    assert(strip@ =~= transport_table());
    strip
}

/// Where a control number sits on the panel: the one copy of the device's
/// physical facts, which the overlay draws off.
#[derive(Clone, Copy, Debug, PartialEq, Eq, Structural)]
pub enum Spot {
    Fader(u8),
    Rotary(u8),
    S(u8),
    M(u8),
    R(u8),
    Transport(TransportButton),
}

/// The first button of the transport strip on control `cc`.
pub open spec fn transport_in(table: Seq<TransportButton>, cc: u8) -> Option<TransportButton>
    decreases table.len(),
{
    if table.len() == 0 {
        None
    } else if table[0].cc == cc {
        Some(table[0])
    } else {
        transport_in(table.drop_first(), cc)
    }
}

/// Where control `cc` sits: a strip of one of the five blocks of eight, or a
/// button of the transport strip.
pub open spec fn spot_at(cc: u8) -> Option<Spot> {
    if FADER_ROW <= cc < FADER_ROW + STRIPS {
        Some(Spot::Fader((cc - FADER_ROW) as u8))
    } else if ROTARY_ROW <= cc < ROTARY_ROW + STRIPS {
        Some(Spot::Rotary((cc - ROTARY_ROW) as u8))
    } else if S_ROW <= cc < S_ROW + STRIPS {
        Some(Spot::S((cc - S_ROW) as u8))
    } else if M_ROW <= cc < M_ROW + STRIPS {
        Some(Spot::M((cc - M_ROW) as u8))
    } else if R_ROW <= cc < R_ROW + STRIPS {
        Some(Spot::R((cc - R_ROW) as u8))
    } else {
        match transport_in(transport_table(), cc) {
            Some(t) => Some(Spot::Transport(t)),
            None => None,
        }
    }
}

pub fn spot(cc: u8) -> (spot: Option<Spot>)
    ensures
        spot == spot_at(cc),
{
    if cc < FADER_ROW + STRIPS {
        return Some(Spot::Fader(cc - FADER_ROW));
    }
    if ROTARY_ROW <= cc && cc < ROTARY_ROW + STRIPS {
        return Some(Spot::Rotary(cc - ROTARY_ROW));
    }
    if S_ROW <= cc && cc < S_ROW + STRIPS {
        return Some(Spot::S(cc - S_ROW));
    }
    if M_ROW <= cc && cc < M_ROW + STRIPS {
        return Some(Spot::M(cc - M_ROW));
    }
    if R_ROW <= cc && cc < R_ROW + STRIPS {
        return Some(Spot::R(cc - R_ROW));
    }
    let strip = transport();
    let mut i: usize = 0;
    assert(transport_table().skip(0) =~= transport_table());
    while i < strip.len()
        invariant
            strip@ == transport_table(),
            i <= strip@.len(),
            transport_in(transport_table(), cc) == transport_in(transport_table().skip(i as int), cc),
        decreases strip@.len() - i,
    {
        proof {
            let rest = transport_table().skip(i as int);
            assert(rest[0] == strip@[i as int]);
            assert(rest.drop_first() =~= transport_table().skip(i + 1));
        }
        if strip[i].cc == cc {
            return Some(Spot::Transport(strip[i]));
        }
        i = i + 1;
    }
    assert(strip@.skip(i as int) =~= Seq::empty());
    None
}

proof fn lemma_button_in(table: Seq<Button>, cc: u8)
    ensures
        button_in(table, cc) is Some <==> exists|j: int| 0 <= j < table.len() && #[trigger] table[j].cc == cc,
        button_in(table, cc) matches Some(a) ==> exists|j: int|
            0 <= j < table.len() && #[trigger] table[j].cc == cc && table[j].action == a,
    decreases table.len(),
{
    if table.len() > 0 {
        let rest = table.drop_first();
        lemma_button_in(rest, cc);
        if table[0].cc != cc {
            assert forall|j: int| 0 <= j < table.len() && #[trigger] table[j].cc == cc implies exists|k: int|
                0 <= k < rest.len() && #[trigger] rest[k].cc == cc by {
                assert(rest[j - 1] == table[j]);
            }
            if button_in(rest, cc) is Some {
                let k = choose|k: int| 0 <= k < rest.len() && #[trigger] rest[k].cc == cc && rest[k].action == button_in(rest, cc)->0;
                assert(table[k + 1] == rest[k]);
            }
        }
    }
}

proof fn lemma_one_more_lamp(mask: u128, cc: u8, x: u8)
    requires
        cc < 128,
        x < 128,
    ensures
        has_lamp(mask | (1u128 << cc), x) == (has_lamp(mask, x) || x == cc),
{
    assert(has_lamp(mask | (1u128 << cc), x) == (has_lamp(mask, x) || x == cc)) by (bit_vector)
        requires
            cc < 128,
            x < 128,
    ;
}

proof fn lemma_no_lamps(x: u8)
    requires
        x < 128,
    ensures
        !has_lamp(0, x),
{
    assert(!has_lamp(0, x)) by (bit_vector)
        requires
            x < 128,
    ;
}

/// Every control number a button answers to, which is the whole of what the
/// surface may ever be told to light.
pub fn lamps() -> (mask: u128)
    ensures
        forall|cc: u8| cc < 128 ==> (has_lamp(mask, cc) <==> (#[trigger] action_on(cc)) is Some),
{
    let table = buttons();
    let mut mask: u128 = 0;
    let mut i: usize = 0;
    proof {
        assert forall|cc: u8| cc < 128 implies !has_lamp(mask, cc) by {
            lemma_no_lamps(cc);
        }
    }
    while i < table.len()
        invariant
            table@ == button_table(),
            i <= table@.len(),
            forall|cc: u8|
                cc < 128 ==> (#[trigger] has_lamp(mask, cc) <==> exists|j: int|
                    0 <= j < i && #[trigger] button_table()[j].cc == cc),
        decreases table@.len() - i,
    {
        let cc = table[i].cc;
        assert(cc < 128);
        let more = lamp(cc);
        proof {
            assert forall|x: u8| x < 128 implies (#[trigger] has_lamp(mask | more, x) <==> exists|j: int|
                0 <= j < i + 1 && #[trigger] button_table()[j].cc == x) by {
                lemma_one_more_lamp(mask, cc, x);
                if x == cc {
                    assert(button_table()[i as int].cc == x);
                }
            }
        }
        mask = mask | more;
        i = i + 1;
    }
    proof {
        assert forall|cc: u8| cc < 128 implies (has_lamp(mask, cc) <==> (#[trigger] action_on(cc)) is Some) by {
            lemma_button_in(button_table(), cc);
        }
    }
    mask
}

/// What the lamps say that the focus alone cannot. The caller owns every
/// one of them.
#[derive(Clone, Copy, Debug, Default, PartialEq, Eq)]
pub struct Shown {
    /// Whether the focused monitor's router output is mirrored, left for
    /// right and top for bottom.
    pub flipped: [bool; 2],
    /// Whether the focused monitor is on its switcher's program rather than
    /// on its own camera direct.
    pub program: bool,
    pub overlay: bool,
    pub solo: bool,
}

/// How much of a continuous knob's travel one full throw moves: a power of
/// two from the whole travel down to a sixteenth, a quarter to start. A
/// count knob runs its whole count over the throw and does not listen.
#[derive(Clone, Copy, Debug, PartialEq, Eq)]
pub struct Precision {
    halvings: u8,
}

/// The finest rung of the precision ladder: a sixteenth of the travel.
pub const FINEST: u8 = 4;

impl Precision {
    #[verifier::type_invariant]
    spec fn on_the_ladder(self) -> bool {
        self.halvings <= FINEST
    }

    /// How many times a full throw's share of the travel is halved.
    pub closed spec fn rung(self) -> nat {
        self.halvings as nat
    }

    pub fn halvings(self) -> (halvings: u8)
        ensures
            halvings == self.rung(),
            halvings <= FINEST,
    {
        proof {
            use_type_invariant(&self);
        }
        self.halvings
    }

    /// One rung finer, stopping at the finest.
    pub fn finer(self) -> (finer: Precision)
        ensures
            finer.rung() == if self.rung() < FINEST { self.rung() + 1 } else { FINEST as nat },
    {
        proof {
            use_type_invariant(&self);
        }
        Precision { halvings: if self.halvings < FINEST { self.halvings + 1 } else { FINEST } }
    }

    /// One rung coarser, stopping at the whole travel.
    pub fn coarser(self) -> (coarser: Precision)
        ensures
            coarser.rung() == if self.rung() > 0 { (self.rung() - 1) as nat } else { 0 },
    {
        proof {
            use_type_invariant(&self);
        }
        Precision { halvings: if self.halvings > 0 { self.halvings - 1 } else { 0 } }
    }

    /// The share of the travel a full throw moves, as the log writes it:
    /// `1/4`.
    pub fn describe(self) -> (text: String)
        ensures
            text@ == "1/"@ + decimal(pow2(self.rung())),
    {
        proof {
            use_type_invariant(&self);
            reveal_strlit("1/");
        }
        let mut text = String::from_str("1/");
        let share: u64 = 1u64 << (self.halvings as u64);
        proof {
            lemma_shift_is_pow2(self.halvings);
        }
        crate::text::push_decimal(&mut text, share);
        text
    }
}

/// Two to the `n`.
pub open spec fn pow2(n: nat) -> nat
    decreases n,
{
    if n == 0 {
        1
    } else {
        2 * pow2((n - 1) as nat)
    }
}

proof fn lemma_shift_is_pow2(h: u8)
    requires
        h <= FINEST,
    ensures
        (1u64 << (h as u64)) as nat == pow2(h as nat),
{
    reveal_with_fuel(pow2, 5);
    assert(1u64 << 0u64 == 1) by (bit_vector);
    assert(1u64 << 1u64 == 2) by (bit_vector);
    assert(1u64 << 2u64 == 4) by (bit_vector);
    assert(1u64 << 3u64 == 8) by (bit_vector);
    assert(1u64 << 4u64 == 16) by (bit_vector);
}

impl Default for Precision {
    /// A quarter of the travel to a full throw.
    fn default() -> (precision: Precision)
        ensures
            precision.rung() == 2,
    {
        Precision { halvings: 2 }
    }
}

/// How many whole steps a knob that counts runs over a fader's whole
/// throw: the delay unit's reach in frames for the delay, the longest
/// period for the period; and nothing for a continuous knob.
pub open spec fn count_of(knob: Knob, delay: u32) -> Option<u32> {
    match knob {
        Knob::Delay => Some(delay),
        Knob::Period => Some(MAX_PERIOD),
        _ => None,
    }
}

/// The whole number nearest `x / 127`. A throw is banked in 127ths of a
/// step — one per code of the fader — and paid a whole step at a time,
/// ticking over at the half like a detent; 127 is odd, so the half is never
/// met exactly.
pub open spec fn nearest(x: int) -> int {
    if x >= 0 {
        (x + 63) / 127
    } else {
        -((-x + 63) / 127)
    }
}

/// The surface as the instrument holds it, as plain values: where each
/// control was last seen, what each counting knob has been turned by and
/// not yet paid (in 127ths of a step), the precision's rung, and which
/// buttons are being held.
pub struct Hands {
    pub standing: Seq<Option<u8>>,
    pub owed: Seq<int>,
    pub rung: nat,
    pub held: Seq<bool>,
}

/// Whether the surface's account of itself is whole: a place for every
/// control and every knob, nothing owed past half a step either way, and
/// only a button held.
pub open spec fn settled(h: Hands) -> bool {
    &&& h.standing.len() == 128
    &&& h.held.len() == 128
    &&& h.owed.len() == 11
    &&& h.rung <= FINEST
    &&& forall|k: int| 0 <= k < 11 ==> -63 <= #[trigger] h.owed[k] <= 63
    &&& forall|cc: int| 0 <= cc < 128 && #[trigger] h.held[cc] ==> action_on(cc as u8) is Some
}

/// What one control change does to the surface as it stands, and the action
/// it asks of the instrument, if any. `delay` is the reach of the delay
/// units, in frames.
pub open spec fn hear(h: Hands, message: ControlChange, delay: u32) -> (Hands, Option<Action>) {
    let cc = message.control as int;
    let from = h.standing[cc];
    let placed = Hands { standing: h.standing.update(cc, Some(message.value)), ..h };
    match knob_on(message.control) {
        Some(knob) => match from {
            None => (placed, None),
            Some(was) => {
                let steps = message.value - was;
                if h.held[CLUTCH as int] {
                    (placed, None)
                } else {
                    match count_of(knob, delay) {
                        Some(n) => {
                            let k = knob.spec_index() as int;
                            let total = h.owed[k] + steps * n;
                            let paid = nearest(total);
                            (
                                Hands { owed: h.owed.update(k, total - 127 * paid), ..placed },
                                if paid != 0 {
                                    Some(Action::Turn(knob, Throw::Steps(paid as i64)))
                                } else {
                                    None
                                },
                            )
                        },
                        None => (
                            placed,
                            if steps != 0 {
                                Some(
                                    Action::Turn(
                                        knob,
                                        Throw::Travel { codes: steps as i16, halvings: h.rung as u8 },
                                    ),
                                )
                            } else {
                                None
                            },
                        ),
                    }
                }
            },
        },
        None => match action_on(message.control) {
            None => (placed, None),
            Some(action) => {
                let down = message.value >= PUSHED;
                let was = h.held[cc];
                (
                    Hands { held: h.held.update(cc, down), ..placed },
                    if down && !was {
                        Some(action)
                    } else if !down && was {
                        let_go(action)
                    } else {
                        None
                    },
                )
            },
        },
    }
}

/// Whether button `b` is lit for a panel focused on `focus`, showing
/// `shown`, with `held` under the fingers: the select button of the focused
/// node of each kind, the button holding each latched mode that is on, and
/// every button a finger is on.
pub open spec fn lit(b: Button, focus: Focus, shown: Shown, held: Seq<bool>) -> bool {
    ||| held[b.cc as int]
    ||| b.action == Action::Focus(Node::Camera, focus.camera)
    ||| b.action == Action::Focus(Node::Monitor, focus.monitor)
    ||| b.action == Action::Focus(Node::Switcher, focus.switcher)
    ||| shown.overlay && b.action == Action::Overlay
    ||| shown.solo && b.action == Action::Solo
    ||| shown.program && b.action == Action::Select
    ||| shown.flipped[0] && b.action == Action::Flip(Axis::X)
    ||| shown.flipped[1] && b.action == Action::Flip(Axis::Y)
}

/// The surface, as the instrument holds it while it is plugged in.
pub struct Midi {
    standing: Vec<Option<u8>>,
    owed: Vec<i64>,
    precision: Precision,
    held: Vec<bool>,
}

impl View for Midi {
    type V = Hands;

    closed spec fn view(&self) -> Hands {
        Hands {
            standing: self.standing@,
            owed: self.owed@.map_values(|o: i64| o as int),
            rung: self.precision.rung(),
            held: self.held@,
        }
    }
}

impl Midi {
    pub fn precision(&self) -> (precision: Precision)
        ensures
            precision.rung() == self@.rung,
    {
        self.precision
    }

    /// One rung finer on the precision ladder.
    pub fn finer(&mut self)
        requires
            settled(old(self)@),
        ensures
            settled(final(self)@),
            final(self)@ == (Hands {
                rung: if old(self)@.rung < FINEST { old(self)@.rung + 1 } else { FINEST as nat },
                ..old(self)@
            }),
    {
        let finer = self.precision.finer();
        self.precision = finer;
    }

    /// One rung coarser on the precision ladder.
    pub fn coarser(&mut self)
        requires
            settled(old(self)@),
        ensures
            settled(final(self)@),
            final(self)@ == (Hands {
                rung: if old(self)@.rung > 0 { (old(self)@.rung - 1) as nat } else { 0 },
                ..old(self)@
            }),
    {
        let coarser = self.precision.coarser();
        self.precision = coarser;
    }

    /// Where control `cc` was last seen.
    pub fn standing(&self, cc: u8) -> (at: Option<u8>)
        requires
            settled(self@),
            cc < 128,
        ensures
            at == self@.standing[cc as int],
    {
        self.standing[cc as usize]
    }

    /// Whether button `cc` is being held.
    pub fn held(&self, cc: u8) -> (held: bool)
        requires
            settled(self@),
            cc < 128,
        ensures
            held == self@.held[cc as int],
    {
        self.held[cc as usize]
    }
}

proof fn lemma_nearest(x: int)
    ensures
        -63 <= x - 127 * nearest(x) <= 63,
{
}

fn nearest_of(x: i64) -> (paid: i64)
    requires
        -0x1_0000_0000_0000 <= x <= 0x1_0000_0000_0000,
    ensures
        paid == nearest(x as int),
{
    if x >= 0 {
        (x + 63) / 127
    } else {
        -((-x + 63) / 127)
    }
}

/// How many whole steps `knob` counts over a fader's throw, if it counts.
pub fn count(knob: Knob, delay: u32) -> (count: Option<u32>)
    ensures
        count == count_of(knob, delay),
{
    match knob {
        Knob::Delay => Some(delay),
        Knob::Period => Some(MAX_PERIOD),
        _ => None,
    }
}

impl Default for Midi {
    /// A surface nothing has been heard from: no control seen, nothing
    /// owed, nothing held, and a quarter of the travel to a full throw.
    fn default() -> (midi: Midi)
        ensures
            midi@.standing == Seq::new(128, |cc: int| None::<u8>),
            midi@.owed == Seq::new(11, |k: int| 0int),
            midi@.rung == 2,
            midi@.held == Seq::new(128, |cc: int| false),
            settled(midi@),
    {
        let mut standing: Vec<Option<u8>> = Vec::new();
        let mut held: Vec<bool> = Vec::new();
        let mut i: usize = 0;
        while i < 128
            invariant
                i <= 128,
                standing@ == Seq::new(i as nat, |cc: int| None::<u8>),
                held@ == Seq::new(i as nat, |cc: int| false),
            decreases 128 - i,
        {
            standing.push(None);
            held.push(false);
            i = i + 1;
            assert(standing@ =~= Seq::new(i as nat, |cc: int| None::<u8>));
            assert(held@ =~= Seq::new(i as nat, |cc: int| false));
        }
        let mut owed: Vec<i64> = Vec::new();
        let mut k: usize = 0;
        while k < 11
            invariant
                k <= 11,
                owed@ == Seq::new(k as nat, |j: int| 0i64),
            decreases 11 - k,
        {
            owed.push(0);
            k = k + 1;
            assert(owed@ =~= Seq::new(k as nat, |j: int| 0i64));
        }
        let midi = Midi { standing, owed, precision: Precision::default(), held };
        assert(midi@.owed =~= Seq::new(11, |k: int| 0int));
        midi
    }
}

impl Midi {
    /// Let go of what each of `knobs` was turned by and not yet paid, so it
    /// turns on from a whole step.
    pub fn forgive(&mut self, knobs: &[Knob])
        requires
            settled(old(self)@),
        ensures
            settled(final(self)@),
            final(self)@ == (Hands {
                owed: Seq::new(
                    11,
                    |k: int|
                        if exists|j: int| 0 <= j < knobs@.len() && #[trigger] knobs@[j].spec_index() == k {
                            0
                        } else {
                            old(self)@.owed[k]
                        },
                ),
                ..old(self)@
            }),
    {
        let mut i: usize = 0;
        while i < knobs.len()
            invariant
                i <= knobs@.len(),
                settled(old(self)@),
                self@.standing == old(self)@.standing,
                self@.held == old(self)@.held,
                self@.rung == old(self)@.rung,
                self@.owed.len() == 11,
                forall|k: int|
                    0 <= k < 11 ==> #[trigger] self@.owed[k] == if exists|j: int|
                        0 <= j < i && #[trigger] knobs@[j].spec_index() == k {
                        0
                    } else {
                        old(self)@.owed[k]
                    },
            decreases knobs@.len() - i,
        {
            let k = knobs[i].index();
            let ghost before = self@;
            self.owed.set(k, 0);
            assert(self@.owed =~= before.owed.update(k as int, 0));
            proof {
                assert forall|x: int| 0 <= x < 11 implies #[trigger] self@.owed[x] == if exists|j: int|
                    0 <= j < i + 1 && #[trigger] knobs@[j].spec_index() == x {
                    0
                } else {
                    old(self)@.owed[x]
                } by {
                    if x == k as int {
                        assert(knobs@[i as int].spec_index() == x);
                    }
                }
            }
            i = i + 1;
        }
        assert(self@.owed =~= Seq::new(
            11,
            |k: int|
                if exists|j: int| 0 <= j < knobs@.len() && #[trigger] knobs@[j].spec_index() == k {
                    0
                } else {
                    old(self)@.owed[k]
                },
        ));
    }

    /// The surface has gone. The next one plugged in is standing wherever it
    /// was left, so no position survives; the buttons are let go of by
    /// hearing [`releases`] rather than here.
    pub fn unplugged(&mut self)
        requires
            settled(old(self)@),
        ensures
            settled(final(self)@),
            final(self)@ == (Hands { standing: Seq::new(128, |cc: int| None::<u8>), ..old(self)@ }),
    {
        let mut cc: usize = 0;
        while cc < 128
            invariant
                cc <= 128,
                self@.owed == old(self)@.owed,
                self@.held == old(self)@.held,
                self@.rung == old(self)@.rung,
                self@.standing.len() == 128,
                forall|x: int| 0 <= x < cc ==> self@.standing[x] is None,
                forall|x: int| cc <= x < 128 ==> self@.standing[x] == old(self)@.standing[x],
            decreases 128 - cc,
        {
            self.standing.set(cc, None);
            cc = cc + 1;
        }
        assert(self@.standing =~= Seq::new(128, |cc: int| None::<u8>));
    }

    /// What one control change does to the surface as it stands, if
    /// anything. A fader or a rotary turns its knob by how far it has moved
    /// since it was last heard from; a button acts when it goes down, and a
    /// held one again when it comes up.
    pub fn action_for(&mut self, message: ControlChange, delay: u32) -> (action: Option<Action>)
        requires
            settled(old(self)@),
            message.control < 128,
        ensures
            settled(final(self)@),
            (final(self)@, action) == hear(old(self)@, message, delay),
    {
        let cc = message.control as usize;
        let from = self.standing[cc];
        self.standing.set(cc, Some(message.value));
        let ghost placed = self@;
        match fader_of(message.control) {
            Some(knob) => {
                let was = match from {
                    None => {
                        return None;
                    },
                    Some(was) => was,
                };
                let steps: i64 = message.value as i64 - was as i64;
                if self.held[CLUTCH as usize] {
                    return None;
                }
                match count(knob, delay) {
                    Some(n) => {
                        let k = knob.index();
                        assert(self@.owed[k as int] == self.owed@[k as int] as int);
                        assert(-255 * 0x1_0000_0000 <= steps * (n as i64) <= 255 * 0x1_0000_0000) by (nonlinear_arith)
                            requires
                                -255 <= steps <= 255,
                                0 <= n < 0x1_0000_0000,
                        ;
                        let total = self.owed[k] + steps * (n as i64);
                        let paid = nearest_of(total);
                        proof {
                            lemma_nearest(total as int);
                        }
                        self.owed.set(k, total - 127 * paid);
                        assert(self@.owed =~= old(self)@.owed.update(k as int, total - 127 * paid));
                        if paid != 0 {
                            Some(Action::Turn(knob, Throw::Steps(paid)))
                        } else {
                            None
                        }
                    },
                    None => {
                        if steps != 0 {
                            Some(
                                Action::Turn(
                                    knob,
                                    Throw::Travel { codes: steps as i16, halvings: self.precision.halvings() },
                                ),
                            )
                        } else {
                            None
                        }
                    },
                }
            },
            None => match button_of(message.control) {
                None => None,
                Some(action) => {
                    let down = message.value >= PUSHED;
                    let was = self.held[cc];
                    self.held.set(cc, down);
                    if down && !was {
                        Some(action)
                    } else if !down && was {
                        released(action)
                    } else {
                        None
                    }
                },
            },
        }
    }

    /// The lamps the panel should show for `focus`: the select button of
    /// the focused camera, monitor and switcher, the button holding each
    /// latched mode that is on, and every button a finger is on — a button
    /// lit under a finger in the surface's own mode has to be lit here once
    /// the instrument has its lights, or it goes dark for good.
    pub fn wanted(&self, focus: Focus, shown: Shown) -> (want: u128)
        requires
            settled(self@),
        ensures
            forall|cc: u8|
                cc < 128 ==> (#[trigger] has_lamp(want, cc) <==> exists|j: int|
                    0 <= j < button_table().len() && button_table()[j].cc == cc && lit(
                        #[trigger] button_table()[j],
                        focus,
                        shown,
                        self@.held,
                    )),
    {
        let table = buttons();
        let mut want: u128 = 0;
        let mut i: usize = 0;
        proof {
            assert forall|cc: u8| cc < 128 implies !has_lamp(want, cc) by {
                lemma_no_lamps(cc);
            }
        }
        while i < table.len()
            invariant
                table@ == button_table(),
                i <= table@.len(),
                self@.held.len() == 128,
                forall|cc: u8|
                    cc < 128 ==> (#[trigger] has_lamp(want, cc) <==> exists|j: int|
                        0 <= j < i && button_table()[j].cc == cc && lit(
                            #[trigger] button_table()[j],
                            focus,
                            shown,
                            self@.held,
                        )),
            decreases table@.len() - i,
        {
            let b = table[i];
            assert(b.cc < 128);
            let on = self.held[b.cc as usize] || b.action == Action::Focus(Node::Camera, focus.camera)
                || b.action == Action::Focus(Node::Monitor, focus.monitor) || b.action == Action::Focus(
                Node::Switcher,
                focus.switcher,
            ) || (shown.overlay && b.action == Action::Overlay) || (shown.solo && b.action
                == Action::Solo) || (shown.program && b.action == Action::Select) || (
            shown.flipped[0] && b.action == Action::Flip(Axis::X)) || (shown.flipped[1] && b.action
                == Action::Flip(Axis::Y));
            assert(on == lit(b, focus, shown, self@.held));
            if on {
                let more = lamp(b.cc);
                proof {
                    assert forall|x: u8| x < 128 implies (#[trigger] has_lamp(want | more, x) <==> exists|j: int|
                        0 <= j < i + 1 && button_table()[j].cc == x && lit(
                            #[trigger] button_table()[j],
                            focus,
                            shown,
                            self@.held,
                        )) by {
                        lemma_one_more_lamp(want, b.cc, x);
                        if x == b.cc {
                            assert(button_table()[i as int] == b);
                        }
                    }
                }
                want = want | more;
            } else {
                proof {
                    assert forall|x: u8| x < 128 implies (#[trigger] has_lamp(want, x) <==> exists|j: int|
                        0 <= j < i + 1 && button_table()[j].cc == x && lit(
                            #[trigger] button_table()[j],
                            focus,
                            shown,
                            self@.held,
                        )) by {
                        if exists|j: int|
                            0 <= j < i + 1 && button_table()[j].cc == x && lit(
                                #[trigger] button_table()[j],
                                focus,
                                shown,
                                self@.held,
                            ) {
                            let j = choose|j: int|
                                0 <= j < i + 1 && button_table()[j].cc == x && lit(
                                    #[trigger] button_table()[j],
                                    focus,
                                    shown,
                                    self@.held,
                                );
                            assert(j != i);
                        }
                    }
                }
            }
            i = i + 1;
        }
        want
    }
}

/// What an unplug hands the instrument after the messages already in hand:
/// every button the map binds, let go of, so a held mode ends the way a
/// release would have ended it rather than outliving the surface that held
/// it. Every button and not only the held ones, because the backlog may
/// still hold a press; a release of a button nobody is on is nothing.
pub fn releases() -> (releases: Vec<ControlChange>)
    ensures
        releases@.len() == button_table().len(),
        forall|i: int|
            0 <= i < releases@.len() ==> #[trigger] releases@[i] == (ControlChange {
                control: button_table()[i].cc,
                value: 0,
            }),
{
    let table = buttons();
    let mut releases: Vec<ControlChange> = Vec::new();
    let mut i: usize = 0;
    while i < table.len()
        invariant
            table@ == button_table(),
            i <= table@.len(),
            releases@.len() == i,
            forall|j: int|
                0 <= j < i ==> #[trigger] releases@[j] == (ControlChange {
                    control: button_table()[j].cc,
                    value: 0,
                }),
        decreases table@.len() - i,
    {
        releases.push(ControlChange { control: table[i].cc, value: 0 });
        i = i + 1;
    }
    releases
}

/// The control numbers of every fader and then every button.
pub open spec fn bound_controls() -> Seq<u8> {
    fader_table().map_values(|f: Fader| f.cc) + button_table().map_values(|b: Button| b.cc)
}

/// Whether some fader turns `knob`.
pub open spec fn has_fader(knob: Knob) -> bool {
    exists|i: int| 0 <= i < fader_table().len() && #[trigger] fader_table()[i].knob == knob
}

spec fn owner(cc: u8) -> int {
    match cc {
        0 => 0,
        1 => 1,
        2 => 2,
        3 => 3,
        4 => 4,
        5 => 5,
        6 => 6,
        7 => 7,
        16 => 8,
        17 => 9,
        18 => 10,
        32 => 11,
        33 => 12,
        34 => 13,
        48 => 14,
        49 => 15,
        50 => 16,
        51 => 17,
        52 => 18,
        64 => 19,
        65 => 20,
        66 => 21,
        67 => 22,
        62 => 23,
        43 => 24,
        42 => 25,
        46 => 26,
        44 => 27,
        60 => 28,
        45 => 29,
        61 => 30,
        58 => 31,
        59 => 32,
        68 => 33,
        69 => 34,
        70 => 35,
        71 => 36,
        37 => 37,
        38 => 38,
        39 => 39,
        _ => -1,
    }
}

spec fn press_index(action: Action) -> int {
    match action {
        Action::Focus(Node::Camera, i) => if i < 3 { i as int } else { -1 },
        Action::Focus(Node::Monitor, i) => if i < 5 { 3 + i } else { -1 },
        Action::Focus(Node::Switcher, i) => if i < 4 { 8 + i } else { -1 },
        Action::Clear => 12,
        Action::ResetLastKnob => 13,
        Action::Reset => 14,
        Action::Overlay => 15,
        Action::Solo => 16,
        Action::Screencap => 17,
        Action::Record(Edge::Down) => 18,
        Action::Cut(Edge::Down) => 19,
        Action::Rate(Step::Slower) => 20,
        Action::Rate(Step::Faster) => 21,
        Action::Reverse => 22,
        Action::Flip(Axis::X) => 23,
        Action::Flip(Axis::Y) => 24,
        Action::Select => 25,
        Action::Finer => 26,
        Action::Coarser => 27,
        Action::Clutch(Edge::Down) => 28,
        _ => -1,
    }
}

/// Every control the map binds is somewhere on the panel, and none is bound
/// twice: a fader and a button, or two buttons, never share a control.
pub proof fn lemma_every_control_is_on_the_panel_once()
    ensures
        forall|i: int, j: int|
            0 <= i < j < bound_controls().len() ==> bound_controls()[i] != bound_controls()[j],
        forall|i: int| 0 <= i < bound_controls().len() ==> (#[trigger] spot_at(bound_controls()[i])) is Some,
{
    assert(bound_controls().len() == 40);
    reveal_with_fuel(transport_in, 12);
    assert forall|i: int| 0 <= i < 40 implies owner(#[trigger] bound_controls()[i]) == i && spot_at(bound_controls()[i]) is Some by {
        if i == 0 {
            assert(owner(bound_controls()[0]) == 0 && spot_at(bound_controls()[0]) is Some);
        } else if i == 1 {
            assert(owner(bound_controls()[1]) == 1 && spot_at(bound_controls()[1]) is Some);
        } else if i == 2 {
            assert(owner(bound_controls()[2]) == 2 && spot_at(bound_controls()[2]) is Some);
        } else if i == 3 {
            assert(owner(bound_controls()[3]) == 3 && spot_at(bound_controls()[3]) is Some);
        } else if i == 4 {
            assert(owner(bound_controls()[4]) == 4 && spot_at(bound_controls()[4]) is Some);
        } else if i == 5 {
            assert(owner(bound_controls()[5]) == 5 && spot_at(bound_controls()[5]) is Some);
        } else if i == 6 {
            assert(owner(bound_controls()[6]) == 6 && spot_at(bound_controls()[6]) is Some);
        } else if i == 7 {
            assert(owner(bound_controls()[7]) == 7 && spot_at(bound_controls()[7]) is Some);
        } else if i == 8 {
            assert(owner(bound_controls()[8]) == 8 && spot_at(bound_controls()[8]) is Some);
        } else if i == 9 {
            assert(owner(bound_controls()[9]) == 9 && spot_at(bound_controls()[9]) is Some);
        } else if i == 10 {
            assert(owner(bound_controls()[10]) == 10 && spot_at(bound_controls()[10]) is Some);
        } else if i == 11 {
            assert(owner(bound_controls()[11]) == 11 && spot_at(bound_controls()[11]) is Some);
        } else if i == 12 {
            assert(owner(bound_controls()[12]) == 12 && spot_at(bound_controls()[12]) is Some);
        } else if i == 13 {
            assert(owner(bound_controls()[13]) == 13 && spot_at(bound_controls()[13]) is Some);
        } else if i == 14 {
            assert(owner(bound_controls()[14]) == 14 && spot_at(bound_controls()[14]) is Some);
        } else if i == 15 {
            assert(owner(bound_controls()[15]) == 15 && spot_at(bound_controls()[15]) is Some);
        } else if i == 16 {
            assert(owner(bound_controls()[16]) == 16 && spot_at(bound_controls()[16]) is Some);
        } else if i == 17 {
            assert(owner(bound_controls()[17]) == 17 && spot_at(bound_controls()[17]) is Some);
        } else if i == 18 {
            assert(owner(bound_controls()[18]) == 18 && spot_at(bound_controls()[18]) is Some);
        } else if i == 19 {
            assert(owner(bound_controls()[19]) == 19 && spot_at(bound_controls()[19]) is Some);
        } else if i == 20 {
            assert(owner(bound_controls()[20]) == 20 && spot_at(bound_controls()[20]) is Some);
        } else if i == 21 {
            assert(owner(bound_controls()[21]) == 21 && spot_at(bound_controls()[21]) is Some);
        } else if i == 22 {
            assert(owner(bound_controls()[22]) == 22 && spot_at(bound_controls()[22]) is Some);
        } else if i == 23 {
            assert(owner(bound_controls()[23]) == 23 && spot_at(bound_controls()[23]) is Some);
        } else if i == 24 {
            assert(owner(bound_controls()[24]) == 24 && spot_at(bound_controls()[24]) is Some);
        } else if i == 25 {
            assert(owner(bound_controls()[25]) == 25 && spot_at(bound_controls()[25]) is Some);
        } else if i == 26 {
            assert(owner(bound_controls()[26]) == 26 && spot_at(bound_controls()[26]) is Some);
        } else if i == 27 {
            assert(owner(bound_controls()[27]) == 27 && spot_at(bound_controls()[27]) is Some);
        } else if i == 28 {
            assert(owner(bound_controls()[28]) == 28 && spot_at(bound_controls()[28]) is Some);
        } else if i == 29 {
            assert(owner(bound_controls()[29]) == 29 && spot_at(bound_controls()[29]) is Some);
        } else if i == 30 {
            assert(owner(bound_controls()[30]) == 30 && spot_at(bound_controls()[30]) is Some);
        } else if i == 31 {
            assert(owner(bound_controls()[31]) == 31 && spot_at(bound_controls()[31]) is Some);
        } else if i == 32 {
            assert(owner(bound_controls()[32]) == 32 && spot_at(bound_controls()[32]) is Some);
        } else if i == 33 {
            assert(owner(bound_controls()[33]) == 33 && spot_at(bound_controls()[33]) is Some);
        } else if i == 34 {
            assert(owner(bound_controls()[34]) == 34 && spot_at(bound_controls()[34]) is Some);
        } else if i == 35 {
            assert(owner(bound_controls()[35]) == 35 && spot_at(bound_controls()[35]) is Some);
        } else if i == 36 {
            assert(owner(bound_controls()[36]) == 36 && spot_at(bound_controls()[36]) is Some);
        } else if i == 37 {
            assert(owner(bound_controls()[37]) == 37 && spot_at(bound_controls()[37]) is Some);
        } else if i == 38 {
            assert(owner(bound_controls()[38]) == 38 && spot_at(bound_controls()[38]) is Some);
        } else if i == 39 {
            assert(owner(bound_controls()[39]) == 39 && spot_at(bound_controls()[39]) is Some);
        }
    }
    assert forall|i: int, j: int| 0 <= i < j < bound_controls().len() implies bound_controls()[i] != bound_controls()[j] by {
        assert(owner(bound_controls()[i]) == i);
        assert(owner(bound_controls()[j]) == j);
    }
}

proof fn lemma_press_indices()
    ensures
        forall|i: int| 0 <= i < 29 ==> press_index(#[trigger] button_table()[i].action) == i,
{
    assert forall|i: int| 0 <= i < 29 implies press_index(#[trigger] button_table()[i].action) == i by {
        if i == 0 {
            assert(press_index(button_table()[0].action) == 0);
        } else if i == 1 {
            assert(press_index(button_table()[1].action) == 1);
        } else if i == 2 {
            assert(press_index(button_table()[2].action) == 2);
        } else if i == 3 {
            assert(press_index(button_table()[3].action) == 3);
        } else if i == 4 {
            assert(press_index(button_table()[4].action) == 4);
        } else if i == 5 {
            assert(press_index(button_table()[5].action) == 5);
        } else if i == 6 {
            assert(press_index(button_table()[6].action) == 6);
        } else if i == 7 {
            assert(press_index(button_table()[7].action) == 7);
        } else if i == 8 {
            assert(press_index(button_table()[8].action) == 8);
        } else if i == 9 {
            assert(press_index(button_table()[9].action) == 9);
        } else if i == 10 {
            assert(press_index(button_table()[10].action) == 10);
        } else if i == 11 {
            assert(press_index(button_table()[11].action) == 11);
        } else if i == 12 {
            assert(press_index(button_table()[12].action) == 12);
        } else if i == 13 {
            assert(press_index(button_table()[13].action) == 13);
        } else if i == 14 {
            assert(press_index(button_table()[14].action) == 14);
        } else if i == 15 {
            assert(press_index(button_table()[15].action) == 15);
        } else if i == 16 {
            assert(press_index(button_table()[16].action) == 16);
        } else if i == 17 {
            assert(press_index(button_table()[17].action) == 17);
        } else if i == 18 {
            assert(press_index(button_table()[18].action) == 18);
        } else if i == 19 {
            assert(press_index(button_table()[19].action) == 19);
        } else if i == 20 {
            assert(press_index(button_table()[20].action) == 20);
        } else if i == 21 {
            assert(press_index(button_table()[21].action) == 21);
        } else if i == 22 {
            assert(press_index(button_table()[22].action) == 22);
        } else if i == 23 {
            assert(press_index(button_table()[23].action) == 23);
        } else if i == 24 {
            assert(press_index(button_table()[24].action) == 24);
        } else if i == 25 {
            assert(press_index(button_table()[25].action) == 25);
        } else if i == 26 {
            assert(press_index(button_table()[26].action) == 26);
        } else if i == 27 {
            assert(press_index(button_table()[27].action) == 27);
        } else if i == 28 {
            assert(press_index(button_table()[28].action) == 28);
        }
    }
}

/// Every press has exactly one button, and every knob a fader: no action
/// is bound twice, and no knob goes unturned.
pub proof fn lemma_every_press_has_one_button_and_every_knob_a_fader()
    ensures
        forall|i: int, j: int|
            0 <= i < j < button_table().len() ==> button_table()[i].action != button_table()[j].action,
        forall|k: Knob| #[trigger] has_fader(k),
{
    lemma_press_indices();
    assert forall|i: int, j: int| 0 <= i < j < button_table().len() implies button_table()[i].action
        != button_table()[j].action by {
        assert(press_index(button_table()[i].action) == i);
        assert(press_index(button_table()[j].action) == j);
    }
    assert forall|k: Knob| #[trigger] has_fader(k) by {
        match k {
            Knob::Hue => assert(fader_table()[0].knob == k),
            Knob::Saturation => assert(fader_table()[1].knob == k),
            Knob::Brightness => assert(fader_table()[2].knob == k),
            Knob::Contrast => assert(fader_table()[3].knob == k),
            Knob::Temperature => assert(fader_table()[4].knob == k),
            Knob::Sharpness => assert(fader_table()[5].knob == k),
            Knob::Period => assert(fader_table()[6].knob == k),
            Knob::Switcher => assert(fader_table()[7].knob == k),
            Knob::Zoom => assert(fader_table()[8].knob == k),
            Knob::Rotation => assert(fader_table()[9].knob == k),
            Knob::Delay => assert(fader_table()[10].knob == k),
        }
    }
}

/// The select row a kind of node is on: Solo for the cameras, Mute for the
/// monitors, Record for the switchers.
pub open spec fn row_of(node: Node) -> u8 {
    match node {
        Node::Camera => S_ROW,
        Node::Monitor => M_ROW,
        Node::Switcher => R_ROW,
    }
}

/// A row is exactly as wide as its kind: the rig's every node of a kind has
/// the button at its place in that kind's row, and no button selects a
/// node the rig has not got.
pub proof fn lemma_every_select_row_is_as_wide_as_its_kind(node: Node, index: usize)
    ensures
        index < crate::rig::spec_count(node) ==> action_on((row_of(node) + index) as u8) == Some(
            Action::Focus(node, index),
        ),
        index >= crate::rig::spec_count(node) ==> forall|i: int|
            0 <= i < button_table().len() ==> #[trigger] button_table()[i].action != Action::Focus(node, index),
{
    if index < crate::rig::spec_count(node) {
        reveal_with_fuel(button_in, 30);
        match node {
            Node::Camera => {
                if index == 0 {
                    assert(action_on(32u8) == Some(Action::Focus(Node::Camera, 0)));
                } else if index == 1 {
                    assert(action_on(33u8) == Some(Action::Focus(Node::Camera, 1)));
                } else if index == 2 {
                    assert(action_on(34u8) == Some(Action::Focus(Node::Camera, 2)));
                }
            },
            Node::Monitor => {
                if index == 0 {
                    assert(action_on(48u8) == Some(Action::Focus(Node::Monitor, 0)));
                } else if index == 1 {
                    assert(action_on(49u8) == Some(Action::Focus(Node::Monitor, 1)));
                } else if index == 2 {
                    assert(action_on(50u8) == Some(Action::Focus(Node::Monitor, 2)));
                } else if index == 3 {
                    assert(action_on(51u8) == Some(Action::Focus(Node::Monitor, 3)));
                } else if index == 4 {
                    assert(action_on(52u8) == Some(Action::Focus(Node::Monitor, 4)));
                }
            },
            Node::Switcher => {
                if index == 0 {
                    assert(action_on(64u8) == Some(Action::Focus(Node::Switcher, 0)));
                } else if index == 1 {
                    assert(action_on(65u8) == Some(Action::Focus(Node::Switcher, 1)));
                } else if index == 2 {
                    assert(action_on(66u8) == Some(Action::Focus(Node::Switcher, 2)));
                } else if index == 3 {
                    assert(action_on(67u8) == Some(Action::Focus(Node::Switcher, 3)));
                }
            },
        }
    } else {
        lemma_press_indices();
        assert forall|i: int| 0 <= i < button_table().len() implies #[trigger] button_table()[i].action
            != Action::Focus(node, index) by {
            assert(press_index(button_table()[i].action) == i);
        }
    }
}

/// A fader's first word places it and moves nothing: where it stood before
/// it was first heard from is not known, so there is no distance to turn a
/// knob by — a hot-plug never throws a knob.
pub proof fn lemma_a_fader_is_placed_by_its_first_word(h: Hands, message: ControlChange, delay: u32)
    requires
        settled(h),
        message.control < 128,
        knob_on(message.control) is Some,
        h.standing[message.control as int] is None,
    ensures
        hear(h, message, delay).1 is None,
        hear(h, message, delay).0.standing[message.control as int] == Some(message.value),
{
}

/// A full throw of a fader moves a continuous knob by the whole of the
/// share of its travel the precision gives it, and a throw back moves it
/// back by as much.
pub proof fn lemma_a_full_throw_is_the_precision(h: Hands, cc: u8, delay: u32)
    requires
        settled(h),
        cc < 128,
        knob_on(cc) matches Some(knob) && count_of(knob, delay) is None,
        !h.held[CLUTCH as int],
    ensures
        h.standing[cc as int] == Some(0u8) ==> hear(h, ControlChange { control: cc, value: 127 }, delay).1
            == Some(Action::Turn(knob_on(cc)->0, Throw::Travel { codes: 127, halvings: h.rung as u8 })),
        h.standing[cc as int] == Some(127u8) ==> hear(h, ControlChange { control: cc, value: 0 }, delay).1
            == Some(Action::Turn(knob_on(cc)->0, Throw::Travel { codes: -127i16, halvings: h.rung as u8 })),
{
}

/// While the clutch is held every fader and rotary moves nothing, yet is
/// still followed, so letting go resumes from where the hand left it rather
/// than jumping.
pub proof fn lemma_the_clutch_holds_every_knob_still(h: Hands, message: ControlChange, delay: u32)
    requires
        settled(h),
        message.control < 128,
        knob_on(message.control) is Some,
        h.held[CLUTCH as int],
    ensures
        hear(h, message, delay).1 is None,
        hear(h, message, delay).0.standing[message.control as int] == Some(message.value),
        hear(h, message, delay).0.owed == h.owed,
{
}

/// A knob that counts is paid in whole steps, and nothing is lost or made
/// up: what is paid and what is still owed together are exactly what the
/// fader moved, and what is owed never reaches half a step.
pub proof fn lemma_a_count_is_paid_in_whole_steps(h: Hands, message: ControlChange, delay: u32)
    requires
        settled(h),
        message.control < 128,
        knob_on(message.control) matches Some(knob) && count_of(knob, delay) is Some,
        h.standing[message.control as int] is Some,
        !h.held[CLUTCH as int],
    ensures
        ({
            let knob = knob_on(message.control)->0;
            let k = knob.spec_index() as int;
            let n = count_of(knob, delay)->0;
            let steps = message.value - h.standing[message.control as int]->0;
            let (after, action) = hear(h, message, delay);
            let paid = match action {
                Some(Action::Turn(_, Throw::Steps(p))) => p as int,
                _ => 0,
            };
            &&& 127 * paid + after.owed[k] == h.owed[k] + steps * n
            &&& -63 <= after.owed[k] <= 63
        }),
{
    let knob = knob_on(message.control)->0;
    let k = knob.spec_index() as int;
    let n = count_of(knob, delay)->0;
    let steps = message.value - h.standing[message.control as int]->0;
    assert(-255 * 0x1_0000_0000 <= steps * n <= 255 * 0x1_0000_0000) by (nonlinear_arith)
        requires
            -255 <= steps <= 255,
            0 <= n < 0x1_0000_0000,
    ;
    lemma_nearest(h.owed[k] + steps * n);
}

/// Hearing any control change leaves the surface's account of itself
/// whole.
pub proof fn lemma_hearing_keeps_the_surface_settled(h: Hands, message: ControlChange, delay: u32)
    requires
        settled(h),
        message.control < 128,
    ensures
        settled(hear(h, message, delay).0),
{
    let after = hear(h, message, delay).0;
    if let Some(knob) = knob_on(message.control) {
        if let Some(n) = count_of(knob, delay) {
            if let Some(was) = h.standing[message.control as int] {
                let k = knob.spec_index() as int;
                lemma_nearest(h.owed[k] + (message.value - was) * n);
            }
        }
    }
    assert forall|cc: int| 0 <= cc < 128 && #[trigger] after.held[cc] implies action_on(cc as u8) is Some by {
        if cc != message.control as int {
            assert(after.held[cc] == h.held[cc]);
        }
    }
}

/// A button acts when it goes down and not when it comes up; held, it acts
/// once however many times it says so; a hold it ends is let go of on the
/// way up.
pub proof fn lemma_a_button_acts_on_the_way_down(h: Hands, cc: u8, value: u8, delay: u32)
    requires
        settled(h),
        cc < 128,
        knob_on(cc) is None,
        action_on(cc) is Some,
    ensures
        ({
            let (after, action) = hear(h, ControlChange { control: cc, value }, delay);
            &&& after.held[cc as int] == (value >= PUSHED)
            &&& (value >= PUSHED ==> action == if h.held[cc as int] { None } else { action_on(cc) })
            &&& (value < PUSHED ==> action == if h.held[cc as int] { let_go(action_on(cc)->0) } else { None })
        }),
{
}

/// What a run of control changes does to the surface, one after another.
pub open spec fn hear_all(h: Hands, messages: Seq<ControlChange>, delay: u32) -> Hands
    decreases messages.len(),
{
    if messages.len() == 0 {
        h
    } else {
        hear_all(hear(h, messages[0], delay).0, messages.drop_first(), delay)
    }
}

proof fn lemma_fader_in(table: Seq<Fader>, cc: u8)
    ensures
        fader_in(table, cc) is Some ==> exists|j: int| 0 <= j < table.len() && #[trigger] table[j].cc == cc,
    decreases table.len(),
{
    if table.len() > 0 && table[0].cc != cc {
        let rest = table.drop_first();
        lemma_fader_in(rest, cc);
        if fader_in(rest, cc) is Some {
            let k = choose|k: int| 0 <= k < rest.len() && #[trigger] rest[k].cc == cc;
            assert(table[k + 1] == rest[k]);
        }
    }
}

/// No control is both a fader and a button.
proof fn lemma_faders_are_not_buttons(cc: u8)
    ensures
        knob_on(cc) is Some ==> action_on(cc) is None,
{
    lemma_fader_in(fader_table(), cc);
    lemma_button_in(button_table(), cc);
    assert forall|j: int| 0 <= j < 29 implies #[trigger] button_table()[j].cc >= 32 by {
        if j == 0 {
        } else if j == 1 {
        } else if j == 2 {
        } else if j == 3 {
        } else if j == 4 {
        } else if j == 5 {
        } else if j == 6 {
        } else if j == 7 {
        } else if j == 8 {
        } else if j == 9 {
        } else if j == 10 {
        } else if j == 11 {
        } else if j == 12 {
        } else if j == 13 {
        } else if j == 14 {
        } else if j == 15 {
        } else if j == 16 {
        } else if j == 17 {
        } else if j == 18 {
        } else if j == 19 {
        } else if j == 20 {
        } else if j == 21 {
        } else if j == 22 {
        } else if j == 23 {
        } else if j == 24 {
        } else if j == 25 {
        } else if j == 26 {
        } else if j == 27 {
        } else if j == 28 {
        }
    }
    assert forall|j: int| 0 <= j < 11 implies #[trigger] fader_table()[j].cc < 32 by {
    }
}

proof fn lemma_letting_go(h: Hands, messages: Seq<ControlChange>, delay: u32)
    requires
        settled(h),
        forall|i: int| 0 <= i < messages.len() ==> (#[trigger] messages[i]).value == 0 && messages[i].control < 128,
    ensures
        settled(hear_all(h, messages, delay)),
        forall|cc: int|
            0 <= cc < 128 && #[trigger] hear_all(h, messages, delay).held[cc] ==> h.held[cc] && forall|i: int|
                0 <= i < messages.len() ==> messages[i].control != cc,
    decreases messages.len(),
{
    if messages.len() > 0 {
        let first = messages[0];
        let next = hear(h, first, delay).0;
        lemma_hearing_keeps_the_surface_settled(h, first, delay);
        let rest = messages.drop_first();
        assert forall|i: int| 0 <= i < rest.len() implies (#[trigger] rest[i]).value == 0 && rest[i].control < 128 by {
            assert(rest[i] == messages[i + 1]);
        }
        lemma_letting_go(next, rest, delay);
        let last = hear_all(h, messages, delay);
        assert forall|cc: int| 0 <= cc < 128 && #[trigger] last.held[cc] implies h.held[cc] && forall|i: int|
            0 <= i < messages.len() ==> messages[i].control != cc by {
            assert(next.held[cc]);
            if cc == first.control as int {
                lemma_faders_are_not_buttons(first.control);
                assert(!next.held[cc]);
            }
            assert forall|i: int| 0 <= i < messages.len() implies messages[i].control != cc by {
                if i > 0 {
                    assert(messages[i] == rest[i - 1]);
                }
            }
        }
    }
}

/// An unplug lets go of every button a finger was on: after hearing the
/// releases, nothing is held, so a held mode ends the way a release would
/// have ended it rather than outliving the surface that held it.
pub proof fn lemma_an_unplug_lets_go_of_every_button(h: Hands, messages: Seq<ControlChange>, delay: u32)
    requires
        settled(h),
        messages.len() == button_table().len(),
        forall|i: int|
            0 <= i < messages.len() ==> #[trigger] messages[i] == (ControlChange {
                control: button_table()[i].cc,
                value: 0,
            }),
    ensures
        forall|cc: int| 0 <= cc < 128 ==> !(#[trigger] hear_all(h, messages, delay).held[cc]),
{
    assert forall|i: int| 0 <= i < messages.len() implies (#[trigger] messages[i]).value == 0 && messages[i].control < 128 by {
        assert(button_table()[i].cc < 128);
    }
    lemma_letting_go(h, messages, delay);
    assert forall|cc: int| 0 <= cc < 128 implies !(#[trigger] hear_all(h, messages, delay).held[cc]) by {
        if hear_all(h, messages, delay).held[cc] {
            lemma_button_in(button_table(), cc as u8);
            let j = choose|j: int| 0 <= j < button_table().len() && #[trigger] button_table()[j].cc == cc as u8;
            assert(messages[j].control == cc);
        }
    }
}

} // verus!
