//! What a control on the surface does.

use vstd::prelude::*;
use crate::params::{Knob, Node};
use crate::tempo::Step;
use crate::text::{decimal, push_decimal};

verus! {

/// Which way a control is moving. Only the ones a hand *holds* have two
/// edges — every other binding on the panel is a press and nothing else.
#[derive(Clone, Copy, Debug, PartialEq, Eq, Structural)]
pub enum Edge {
    Down,
    Up,
}

/// An axis a router output can mirror about, in the order the pair of flips
/// is written down.
#[derive(Clone, Copy, Debug, PartialEq, Eq, Structural)]
pub enum Axis {
    X,
    Y,
}

impl Axis {
    pub const ALL: [Axis; 2] = [Axis::X, Axis::Y];

    /// Where the axis stands in [`Axis::ALL`].
    pub open spec fn spec_index(self) -> nat {
        match self {
            Axis::X => 0,
            Axis::Y => 1,
        }
    }

    /// Where the axis stands in [`Axis::ALL`].
    pub fn index(self) -> (index: usize)
        ensures
            index == self.spec_index(),
    {
        match self {
            Axis::X => 0,
            Axis::Y => 1,
        }
    }
}

/// A monitor's mirror latches, in [`Axis`] order, after a flip about
/// `axis`: that latch thrown, the other as it stood.
pub open spec fn spec_flip(latches: (bool, bool), axis: Axis) -> (bool, bool) {
    match axis {
        Axis::X => (!latches.0, latches.1),
        Axis::Y => (latches.0, !latches.1),
    }
}

pub fn flip(latches: [bool; 2], axis: Axis) -> (flipped: [bool; 2])
    ensures
        (flipped[0], flipped[1]) == spec_flip((latches[0], latches[1]), axis),
{
    let mut flipped = latches;
    let i = axis.index();
    flipped.set(i, !latches[i]);
    flipped
}

/// A flip pressed again puts the monitor back, and the two axes' flips
/// come out the same in either order.
pub proof fn lemma_a_flip_again_puts_it_back(latches: (bool, bool), axis: Axis, other: Axis)
    ensures
        spec_flip(spec_flip(latches, axis), axis) == latches,
        spec_flip(spec_flip(latches, axis), other) == spec_flip(spec_flip(latches, other), axis),
        spec_flip(latches, axis) != latches,
{
}

/// How far a fader moved a knob. A fader reads off how far it has moved
/// since it was last heard from, never where it stands, so what it hands
/// on is a distance; what that distance is in the knob's own units is the
/// knob's business.
#[derive(Clone, Copy, Debug, PartialEq, Eq, Structural)]
pub enum Throw {
    /// A share of the knob's whole travel: `codes` of the fader's 127,
    /// halved `halvings` times by the precision.
    Travel { codes: i16, halvings: u8 },
    /// Whole steps of a knob that counts frames or passes.
    Steps(i64),
}

#[derive(Clone, Copy, Debug, PartialEq, Eq, Structural)]
pub enum Action {
    /// Turn a knob by this much. A distance and not a position, so where a
    /// fader stands is the surface's business and not the instrument's.
    Turn(Knob, Throw),
    /// Put the knobs' focus on one node of one kind outright, by its place
    /// in the rig.
    Focus(Node, usize),
    Reset,
    /// Put the last knob that moved back to its identity, and nothing else.
    ResetLastKnob,
    /// Blank every monitor, so the loops restart from the seed alone.
    Clear,
    /// Show the focused monitor on the whole display, or go back to the
    /// tiled bank.
    Solo,
    Overlay,
    Screencap,
    Record(Edge),
    /// The switcher's foot pedal. Held rather than latched because the trap
    /// is the flick back.
    Cut(Edge),
    /// Move the tempo one press: four of them halve or double it.
    Rate(Step),
    /// A press, since pressing it again is the reverse of the reverse.
    Reverse,
    /// The focused monitor's router select: its own camera direct, or its
    /// switcher's program.
    Select,
    /// A latch on a button with a lamp: a flip is on or off.
    Flip(Axis),
    /// Halve or double what a full throw of a fader moves.
    Finer,
    Coarser,
    /// While held, every fader and rotary is inert, so a hand can bring one
    /// back from a rail it has hit.
    Clutch(Edge),
}

/// What letting go of a control does: the up edge of the three a hand holds,
/// and nothing for every other press.
pub open spec fn let_go(action: Action) -> Option<Action> {
    match action {
        Action::Record(Edge::Down) => Some(Action::Record(Edge::Up)),
        Action::Cut(Edge::Down) => Some(Action::Cut(Edge::Up)),
        Action::Clutch(Edge::Down) => Some(Action::Clutch(Edge::Up)),
        _ => None,
    }
}

pub fn released(action: Action) -> (up: Option<Action>)
    ensures
        up == let_go(action),
{
    match action {
        Action::Record(Edge::Down) => Some(Action::Record(Edge::Up)),
        Action::Cut(Edge::Down) => Some(Action::Cut(Edge::Up)),
        Action::Clutch(Edge::Down) => Some(Action::Clutch(Edge::Up)),
        _ => None,
    }
}

impl Action {
    /// What the overlay captions a control with: two words at most.
    pub open spec fn spec_caption(self) -> Seq<char> {
        match self {
            Action::Turn(knob, _) => knob.spec_name(),
            Action::Focus(node, index) => node.spec_short() + " "@ + decimal(index as nat + 1),
            Action::Reset => "reset"@,
            Action::ResetLastKnob => "reset 1"@,
            Action::Clear => "blank"@,
            Action::Solo => "solo"@,
            Action::Overlay => "help"@,
            Action::Screencap => "snap"@,
            Action::Record(_) => "record"@,
            Action::Cut(_) => "cut"@,
            Action::Rate(Step::Slower) => "rate -"@,
            Action::Rate(Step::Faster) => "rate +"@,
            Action::Reverse => "reverse"@,
            Action::Select => "select"@,
            Action::Flip(Axis::X) => "flip x"@,
            Action::Flip(Axis::Y) => "flip y"@,
            Action::Finer => "precision -"@,
            Action::Coarser => "precision +"@,
            Action::Clutch(_) => "clutch"@,
        }
    }

    pub fn caption(self) -> (caption: String)
        requires
            self matches Action::Focus(_, index) ==> index < usize::MAX,
        ensures
            caption@ == self.spec_caption(),
    {
        let words = match self {
            Action::Turn(knob, _) => knob.name(),
            Action::Focus(node, index) => {
                let mut caption = String::from_str(node.short());
                caption.append(" ");
                push_decimal(&mut caption, index as u64 + 1);
                return caption;
            },
            Action::Reset => "reset",
            Action::ResetLastKnob => "reset 1",
            Action::Clear => "blank",
            Action::Solo => "solo",
            Action::Overlay => "help",
            Action::Screencap => "snap",
            Action::Record(_) => "record",
            Action::Cut(_) => "cut",
            Action::Rate(Step::Slower) => "rate -",
            Action::Rate(Step::Faster) => "rate +",
            Action::Reverse => "reverse",
            Action::Select => "select",
            Action::Flip(Axis::X) => "flip x",
            Action::Flip(Axis::Y) => "flip y",
            Action::Finer => "precision -",
            Action::Coarser => "precision +",
            Action::Clutch(_) => "clutch",
        };
        String::from_str(words)
    }
}

} // verus!
