//! What the instrument does with one action off the control surface, as a
//! decision: which node the knobs are on, which knob "the last one turned"
//! names, which switcher a held cut stands on, and what is shown — and what
//! is asked of the rig, the display and the capture in consequence.
//!
//! Nothing here can end the run: the instrument is quit the way any window
//! is, and a slipped finger on a control surface must not be able to.

use vstd::prelude::*;
use crate::command::{Action, Axis, Edge, Throw};
use crate::params::{Focus, Knob, Node};
use crate::tempo::Step;

verus! {

/// What the instrument keeps of the panel besides the knobs themselves.
#[derive(Clone, Copy, Debug, PartialEq, Eq, Structural)]
pub struct Desk {
    /// The camera, the monitor and the switcher the knobs act on.
    pub focus: Focus,
    /// The last knob that moved, which is the one a rewind puts back.
    /// `None` until something is turned, and again once the panel moves
    /// without the hands.
    pub last_knob: Option<Knob>,
    /// The switcher a held cut stands on, for as long as the hand is on the
    /// button. Named rather than taken from the focus at the release, so a
    /// select pressed mid-hold cannot hand the release to another one.
    pub cut: Option<usize>,
    /// Whether the display shows the focused monitor alone.
    pub solo: bool,
    /// Whether the controls overlay is showing.
    pub overlay: bool,
}

/// What an action asks of the rest of the instrument.
#[derive(Clone, Copy, Debug, PartialEq, Eq, Structural)]
pub enum Effect {
    /// Turn `knob` by `throw` on the node of `focus`.
    Turn(Knob, Throw, Focus),
    /// The focus moved; the knobs of `forgive`, if any, were moved out from
    /// under a hand and owe nothing any more.
    Refocused { forgive: Option<Node> },
    /// Put every knob back to the rig as it was built, and restart the
    /// beat the period mode counts on.
    Reset,
    /// Put `knob` back to its identity on the node of `focus`.
    ResetKnob(Knob, Focus),
    /// A rewind with no knob to put back, which still says so.
    NothingTurned,
    /// Blank every monitor, so the loops restart from the seed alone.
    Clear,
    /// The display changed between the tiled bank and one monitor alone.
    Solo(bool),
    /// The overlay was shown or hidden.
    Overlay(bool),
    Screencap,
    StartRecording,
    StopRecording,
    /// Run switcher `s` to the other end of its travel.
    Reverse(usize),
    /// Move monitor `m`'s router select to the other input.
    Select(usize),
    /// Mirror monitor `m`'s router output about `axis`.
    Flip(usize, Axis),
    /// Move the tempo one press.
    Rate(Step),
    /// One rung finer or coarser on the precision ladder.
    Finer,
    Coarser,
    /// Nothing to do.
    Nothing,
}

/// Whether `knob`, on the node a focus at `at` would move it from, was moved
/// out from under a hand by a select of `node` number `index`.
pub open spec fn moved_under(knob: Knob, at: Focus, node: Node, index: usize) -> bool {
    knob.spec_node() == node && index != at.index(node)
}

/// What one action does to the desk, and what it asks of the rest.
pub open spec fn act(d: Desk, action: Action) -> (Desk, Effect) {
    match action {
        Action::Turn(knob, throw) => (Desk { last_knob: Some(knob), ..d }, Effect::Turn(knob, throw, d.focus)),
        Action::Focus(node, index) => {
            let last = match d.last_knob {
                Some(k) => if moved_under(k, d.focus, node, index) {
                    None
                } else {
                    Some(k)
                },
                None => None,
            };
            (
                Desk { focus: d.focus.moved(node, index), last_knob: last, ..d },
                Effect::Refocused {
                    forgive: if index != d.focus.index(node) {
                        Some(node)
                    } else {
                        None
                    },
                },
            )
        },
        Action::Reset => (Desk { cut: None, last_knob: None, ..d }, Effect::Reset),
        Action::ResetLastKnob => match d.last_knob {
            Some(knob) => (d, Effect::ResetKnob(knob, d.focus)),
            None => (d, Effect::NothingTurned),
        },
        Action::Clear => (d, Effect::Clear),
        Action::Solo => (Desk { solo: !d.solo, ..d }, Effect::Solo(!d.solo)),
        Action::Overlay => (Desk { overlay: !d.overlay, ..d }, Effect::Overlay(!d.overlay)),
        Action::Screencap => (d, Effect::Screencap),
        Action::Record(Edge::Down) => (d, Effect::StartRecording),
        Action::Record(Edge::Up) => (d, Effect::StopRecording),
        Action::Cut(edge) => match (edge, d.cut) {
            (Edge::Down, None) => (Desk { cut: Some(d.focus.switcher), ..d }, Effect::Reverse(d.focus.switcher)),
            (Edge::Up, Some(held)) => (Desk { cut: None, ..d }, Effect::Reverse(held)),
            _ => (d, Effect::Nothing),
        },
        Action::Rate(step) => (d, Effect::Rate(step)),
        Action::Reverse => (d, Effect::Reverse(d.focus.switcher)),
        Action::Select => (d, Effect::Select(d.focus.monitor)),
        Action::Flip(axis) => (d, Effect::Flip(d.focus.monitor, axis)),
        Action::Finer => (d, Effect::Finer),
        Action::Coarser => (d, Effect::Coarser),
        Action::Clutch(_) => (d, Effect::Nothing),
    }
}

impl Desk {
    /// The panel as the instrument starts: every focus on the first node,
    /// nothing turned, no cut held, the tiled bank and no overlay — the
    /// overlay is help, and help is what the cycle button is for.
    pub fn new() -> (desk: Desk)
        ensures
            desk == (Desk { focus: Focus { camera: 0, monitor: 0, switcher: 0 }, last_knob: None, cut: None, solo: false, overlay: false }),
    {
        Desk { focus: Focus { camera: 0, monitor: 0, switcher: 0 }, last_knob: None, cut: None, solo: false, overlay: false }
    }

    /// Take one action.
    pub fn act(&mut self, action: Action) -> (effect: Effect)
        ensures
            (*final(self), effect) == act(*old(self), action),
            action matches Action::Rate(step) ==> effect == Effect::Rate(step) && *final(self)
                == *old(self),
    {
        match action {
            Action::Turn(knob, throw) => {
                self.last_knob = Some(knob);
                Effect::Turn(knob, throw, self.focus)
            },
            Action::Focus(node, index) => {
                let at = self.focus.at(node);
                if let Some(k) = self.last_knob {
                    if k.node() == node && index != at {
                        self.last_knob = None;
                    }
                }
                self.focus = self.focus.with(node, index);
                Effect::Refocused { forgive: if index != at { Some(node) } else { None } }
            },
            Action::Reset => {
                self.cut = None;
                self.last_knob = None;
                Effect::Reset
            },
            Action::ResetLastKnob => match self.last_knob {
                Some(knob) => Effect::ResetKnob(knob, self.focus),
                None => Effect::NothingTurned,
            },
            Action::Clear => Effect::Clear,
            Action::Solo => {
                self.solo = !self.solo;
                Effect::Solo(self.solo)
            },
            Action::Overlay => {
                self.overlay = !self.overlay;
                Effect::Overlay(self.overlay)
            },
            Action::Screencap => Effect::Screencap,
            Action::Record(Edge::Down) => Effect::StartRecording,
            Action::Record(Edge::Up) => Effect::StopRecording,
            Action::Cut(edge) => match (edge, self.cut) {
                (Edge::Down, None) => {
                    self.cut = Some(self.focus.switcher);
                    Effect::Reverse(self.focus.switcher)
                },
                (Edge::Up, Some(held)) => {
                    self.cut = None;
                    Effect::Reverse(held)
                },
                _ => Effect::Nothing,
            },
            Action::Rate(step) => Effect::Rate(step),
            Action::Reverse => Effect::Reverse(self.focus.switcher),
            Action::Select => Effect::Select(self.focus.monitor),
            Action::Flip(axis) => Effect::Flip(self.focus.monitor, axis),
            Action::Finer => Effect::Finer,
            Action::Coarser => Effect::Coarser,
            Action::Clutch(_) => Effect::Nothing,
        }
    }
}

/// What a run of actions does to the desk, and what each asks.
pub open spec fn act_all(d: Desk, actions: Seq<Action>) -> (Desk, Seq<Effect>)
    decreases actions.len(),
{
    if actions.len() == 0 {
        (d, Seq::empty())
    } else {
        let (next, effect) = act(d, actions[0]);
        let (last, rest) = act_all(next, actions.drop_first());
        (last, seq![effect] + rest)
    }
}

/// Whether an action leaves a held cut where it stands: anything but letting
/// go of the cut and a whole-panel reset — the pedal pressed again while it
/// is held included.
pub open spec fn keeps_the_cut(action: Action) -> bool {
    action != Action::Cut(Edge::Up) && !(action is Reset)
}

proof fn lemma_the_cut_stands(d: Desk, actions: Seq<Action>)
    requires
        d.cut is Some,
        forall|i: int| 0 <= i < actions.len() ==> keeps_the_cut(#[trigger] actions[i]),
    ensures
        act_all(d, actions).0.cut == d.cut,
    decreases actions.len(),
{
    if actions.len() > 0 {
        let rest = actions.drop_first();
        assert forall|i: int| 0 <= i < rest.len() implies keeps_the_cut(#[trigger] rest[i]) by {
            assert(rest[i] == actions[i + 1]);
        }
        assert(keeps_the_cut(actions[0]));
        lemma_the_cut_stands(act(d, actions[0]).0, rest);
    }
}

/// A held cut belongs to the switcher it was taken from: whatever the hands
/// do in between — selects of other switchers among it — the release throws
/// back the switcher the press threw, and no other. The pedal pressed again
/// while held throws nothing and takes no second switcher.
pub proof fn lemma_a_held_cut_belongs_to_the_switcher_it_was_taken_from(d: Desk, between: Seq<Action>)
    requires
        d.cut is None,
        forall|i: int| 0 <= i < between.len() ==> keeps_the_cut(#[trigger] between[i]),
    ensures
        ({
            let (pressed, thrown) = act(d, Action::Cut(Edge::Down));
            let held = act_all(pressed, between).0;
            &&& thrown == Effect::Reverse(d.focus.switcher)
            &&& act(held, Action::Cut(Edge::Up)).1 == Effect::Reverse(d.focus.switcher)
            &&& act(held, Action::Cut(Edge::Up)).0.cut is None
            &&& act(held, Action::Cut(Edge::Down)) == (held, Effect::Nothing)
        }),
{
    let pressed = act(d, Action::Cut(Edge::Down)).0;
    lemma_the_cut_stands(pressed, between);
}

/// A reset under a held cut wins over the release: the panel the cut was
/// taken from is gone, so letting go afterwards throws nothing.
pub proof fn lemma_a_reset_under_a_held_cut_wins_over_the_release(d: Desk)
    ensures
        act(act(d, Action::Reset).0, Action::Cut(Edge::Up)).1 == Effect::Nothing,
        act(d, Action::Reset).0.last_knob is None,
{
}

/// A rewind puts back the knob the hand was just on, on the node it was
/// on; a select that moves that knob's node out from under the hand, or a
/// reset, leaves it nothing to put back.
pub proof fn lemma_a_rewind_names_the_last_knob_turned(d: Desk, knob: Knob, throw: Throw, node: Node, index: usize)
    ensures
        act(act(d, Action::Turn(knob, throw)).0, Action::ResetLastKnob).1 == Effect::ResetKnob(knob, d.focus),
        ({
            let turned = act(d, Action::Turn(knob, throw)).0;
            let moved = act(turned, Action::Focus(node, index)).0;
            act(moved, Action::ResetLastKnob).1 == if moved_under(knob, d.focus, node, index) {
                Effect::NothingTurned
            } else {
                Effect::ResetKnob(knob, d.focus.moved(node, index))
            }
        }),
        act(act(act(d, Action::Turn(knob, throw)).0, Action::Reset).0, Action::ResetLastKnob).1
            == Effect::NothingTurned,
{
}

/// A rate button moves the tempo the way it was pressed — `rate -` slows the
/// piece and `rate +` speeds it up — and touches nothing on the desk.
pub proof fn lemma_a_rate_press_carries_its_direction(d: Desk, step: Step)
    ensures
        act(d, Action::Rate(step)) == (d, Effect::Rate(step)),
        act(d, Action::Rate(Step::Slower)).1 != act(d, Action::Rate(Step::Faster)).1,
{
}

/// The latches are latches: pressing solo, or the overlay, twice puts the
/// display back as it was.
pub proof fn lemma_a_latch_pressed_twice_is_where_it_was(d: Desk)
    ensures
        act(act(d, Action::Solo).0, Action::Solo).0 == d,
        act(act(d, Action::Overlay).0, Action::Overlay).0 == d,
{
}

} // verus!
