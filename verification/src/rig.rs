//! The rig: three cameras, five monitors, four switchers and one seed, and
//! the levers that route between them.

use vstd::prelude::*;
use crate::params::Node;

verus! {

/// The longest period a switcher's reversal mode runs at, in passes: a
/// second. A beat slower than that is a hand on the reversal, not a rhythm.
pub const MAX_PERIOD: u32 = 60;

/// The rig's counts, which are the instrument's: nothing chooses them.
pub const CAMERAS: usize = 3;

pub const MONITORS: usize = 5;

pub const SWITCHERS: usize = 4;

/// The monitors a router select stands in front of: every monitor but the
/// rotating one, which is wired to camera B and has no select to press.
pub const SELECTS: usize = 4;

/// The four M/Es, each a crossfade from its In1 to its In2 — D a keyer,
/// since its In2 is the seed. C and D are the chain that brings the
/// rotating monitor and the seed into structure B.
#[derive(Clone, Copy, Debug, PartialEq, Eq, Structural)]
pub enum Switcher {
    A,
    B,
    C,
    D,
}

/// A structure monitor's router crosspoint: its own camera direct, or its
/// switcher's program. One or the other, never a mix — mixing is the
/// switcher's job, one stage upstream.
#[derive(Clone, Copy, Debug, PartialEq, Eq, Structural)]
pub enum Select {
    Direct,
    Program,
}

/// The other crosspoint.
pub open spec fn other(select: Select) -> Select {
    match select {
        Select::Direct => Select::Program,
        Select::Program => Select::Direct,
    }
}

/// The rig's routing levers that are not crossfades: the structure
/// monitors' router selects, in monitor order, and each switcher's period —
/// passes between reversals, zero the mode off. The crossfades themselves
/// are amounts, and stand beside these wherever the rig is played.
#[derive(Clone, Copy, Debug)]
pub struct Rig {
    pub selects: [Select; SELECTS],
    pub periods: [u32; SWITCHERS],
}

/// Whether a switcher with reversal period `period` reverses on pass
/// `pass`: every switcher in the mode beats on one grid, counted from the
/// start of the run, and one out of it never does.
pub open spec fn beats(period: u32, pass: u64) -> bool {
    period != 0 && pass % (period as u64) == 0
}

impl Rig {
    /// Every monitor on its program and no switcher in the period mode: the
    /// routing that hands the seed the length of the chain.
    pub fn identity() -> (rig: Rig)
        ensures
            forall|m: int| 0 <= m < SELECTS ==> rig.selects@[m] == Select::Program,
            forall|s: int| 0 <= s < SWITCHERS ==> rig.periods@[s] == 0,
    {
        Rig { selects: [Select::Program; SELECTS], periods: [0; SWITCHERS] }
    }

    /// Whether monitor `m` is on its switcher's program rather than on its
    /// own camera direct. The rotating monitor has no select and is never on
    /// a program: it shows camera B, always.
    pub open spec fn spec_on_program(self, m: int) -> bool {
        0 <= m < SELECTS && self.selects@[m] == Select::Program
    }

    pub fn on_program(&self, m: usize) -> (on: bool)
        ensures
            on == self.spec_on_program(m as int),
    {
        m < SELECTS && self.selects[m] == Select::Program
    }

    /// Turn monitor `m`'s router select over, and say whether there was one
    /// to turn: the rotating monitor has none.
    pub fn select(&mut self, m: usize) -> (turned: bool)
        ensures
            turned == (m < SELECTS),
            final(self).periods == old(self).periods,
            final(self).selects@ == (if m < SELECTS {
                old(self).selects@.update(m as int, other(old(self).selects@[m as int]))
            } else {
                old(self).selects@
            }),
    {
        if m >= SELECTS {
            return false;
        }
        let turned = match self.selects[m] {
            Select::Direct => Select::Program,
            Select::Program => Select::Direct,
        };
        self.selects[m] = turned;
        true
    }

    /// Which switchers reverse on pass `pass`, in switcher order.
    pub fn beat(&self, pass: u64) -> (reversing: [bool; SWITCHERS])
        ensures
            forall|s: int| 0 <= s < SWITCHERS ==> reversing@[s] == beats(self.periods@[s], pass),
    {
        let mut reversing = [false; SWITCHERS];
        let mut i: usize = 0;
        while i < SWITCHERS
            invariant
                i <= SWITCHERS,
                forall|s: int| 0 <= s < i ==> reversing@[s] == beats(self.periods@[s], pass),
            decreases SWITCHERS - i,
        {
            let period = self.periods[i] as u64;
            reversing[i] = period != 0 && pass % period == 0;
            i = i + 1;
        }
        reversing
    }
}

/// The router select is a latch: turned over twice, a monitor's select is
/// where it was, and so is every other.
pub proof fn lemma_a_select_turned_twice_is_where_it_was(rig: Rig, m: int)
    requires
        0 <= m < SELECTS,
    ensures
        ({
            let once = rig.selects@.update(m, other(rig.selects@[m]));
            once.update(m, other(once[m])) == rig.selects@
        }),
{
    let once = rig.selects@.update(m, other(rig.selects@[m]));
    assert(once.update(m, other(once[m])) =~= rig.selects@);
}

/// A switcher out of the period mode never reverses, and one in it reverses
/// on the passes its period divides and on no others: every switcher in the
/// mode beats on the one grid counted from the start of the run.
pub proof fn lemma_a_switcher_beats_on_its_period(period: u32, pass: u64, k: u64)
    requires
        period != 0,
        k * (period as u64) <= u64::MAX,
    ensures
        !beats(0, pass),
        beats(period, (k * (period as u64)) as u64),
        pass % (period as u64) != 0 ==> !beats(period, pass),
{
    vstd::arithmetic::div_mod::lemma_mod_multiples_basic(k as int, period as int);
}

/// How many nodes of a kind the rig has.
pub open spec fn spec_count(node: Node) -> usize {
    match node {
        Node::Camera => 3,
        Node::Monitor => 5,
        Node::Switcher => 4,
    }
}

pub fn count(node: Node) -> (count: usize)
    ensures
        count == spec_count(node),
{
    match node {
        Node::Camera => 3,
        Node::Monitor => 5,
        Node::Switcher => 4,
    }
}

} // verus!
