//! When passes fall due, which is not when the display shows them.
//!
//! The loop evolves one pass at a time and every knob compounds once per
//! pass, so the step rate is the tempo. Passes fall due here on the wall
//! clock, counted in nanoseconds, and the run loop presents on every blank
//! whether or not one fell due: a tempo under the display's grid shows the
//! same bank twice, a tempo over it runs several passes to a present, and
//! neither moves the piece off the wall clock.

use vstd::prelude::*;

verus! {

/// How far behind the tempo may fall before it stops owing the passes it
/// missed, in nanoseconds: a tenth of a second, which is six passes at sixty.
/// Something must bound it, or a machine that cannot make the rate runs a
/// batch that grows every present until it is doing nothing else. What
/// falls past it is dropped, not owed.
pub const BACKLOG: u64 = 100_000_000;

/// Which way a press moves the rate.
#[derive(Clone, Copy, Debug, PartialEq, Eq, Structural)]
pub enum Step {
    Slower,
    Faster,
}

/// A beat, and when its next pass falls due, in nanoseconds on a clock that
/// only goes forward.
pub struct Clock {
    beat: u64,
    due: u64,
}

/// A clock as plain values.
pub struct Beat {
    pub beat: nat,
    pub due: nat,
}

impl View for Clock {
    type V = Beat;

    closed spec fn view(&self) -> Beat {
        Beat { beat: self.beat as nat, due: self.due as nat }
    }
}

/// The deadline a clock owes from at `now`: anything older than the
/// backlog is given up on rather than owed.
pub open spec fn owed_from(due: nat, now: nat) -> nat {
    if now >= BACKLOG && due < now - BACKLOG {
        (now - BACKLOG) as nat
    } else {
        due
    }
}

/// How many passes fall due by `now`: every deadline from the one owed
/// from, a beat apart, that is not after `now`.
pub open spec fn passes_due(b: Beat, now: nat) -> nat {
    let from = owed_from(b.due, now);
    if from > now {
        0
    } else {
        (((now - from) as nat) / b.beat + 1) as nat
    }
}

/// The clock after the passes due by `now` are taken off it. Deadlines are
/// absolute — each is the last one plus a beat, never "now plus a beat" —
/// so a present that came late does not push the tempo out with it.
pub open spec fn after_taking(b: Beat, now: nat) -> Beat {
    Beat { due: owed_from(b.due, now) + passes_due(b, now) * b.beat, ..b }
}

impl Clock {
    /// A clock of `beat` nanoseconds whose first pass falls due at `now`.
    pub fn new(beat: u64, now: u64) -> (clock: Clock)
        requires
            beat > 0,
        ensures
            clock@ == (Beat { beat: beat as nat, due: now as nat }),
    {
        Clock { beat, due: now }
    }

    /// When the next pass falls due.
    pub fn due(&self) -> (due: u64)
        ensures
            due == self@.due,
    {
        self.due
    }

    /// How long a beat is.
    pub fn beat(&self) -> (beat: u64)
        ensures
            beat == self@.beat,
    {
        self.beat
    }

    /// Play from `now`, dropping the deadline that stood before.
    pub fn start(&mut self, now: u64)
        ensures
            final(self)@ == (Beat { due: now as nat, ..old(self)@ }),
    {
        self.due = now;
    }

    /// Move to a beat of `beat`. The deadline already standing is kept, but
    /// never further off than one new beat: without that, speeding up out
    /// of a slow tempo would be heard at the end of the long beat it
    /// interrupted rather than on the press. Slowing down keeps the nearer
    /// deadline, so one last pass lands at the old spacing.
    pub fn retime(&mut self, beat: u64, now: u64)
        requires
            beat > 0,
            now + beat <= u64::MAX,
        ensures
            final(self)@ == (Beat {
                beat: beat as nat,
                due: if old(self)@.due < now + beat {
                    old(self)@.due
                } else {
                    (now + beat) as nat
                },
            }),
    {
        self.beat = beat;
        if self.due >= now + beat {
            self.due = now + beat;
        }
    }

    /// How many passes fall due by `now`, taking them off the clock. Zero is
    /// the ordinary answer when the piece plays slower than the display.
    /// Missed deadlines are run rather than dropped, back to the backlog: a
    /// present that arrives late owes the piece the passes it did not show.
    pub fn take_due(&mut self, now: u64) -> (passes: u32)
        requires
            old(self)@.beat > 0,
            now + old(self)@.beat <= u64::MAX,
        ensures
            passes == passes_due(old(self)@, now as nat),
            final(self)@ == after_taking(old(self)@, now as nat),
    {
        if now >= BACKLOG && self.due < now - BACKLOG {
            self.due = now - BACKLOG;
        }
        if self.due > now {
            return 0;
        }
        let passes = (now - self.due) / self.beat + 1;
        assert(passes <= BACKLOG + 1);
        assert(passes * self.beat <= now - self.due + self.beat) by (nonlinear_arith)
            requires
                passes == ((now - self.due) as int) / (self.beat as int) + 1,
                self.beat > 0,
        ;
        self.due = self.due + passes * self.beat;
        passes as u32
    }
}

/// After the passes due are taken, the next deadline is after `now` and the
/// last one taken was not: every deadline up to `now` is run once, none
/// twice, and the clock is never left behind. What is run is bounded by the
/// backlog, so a stall is repaired by a batch and not by a lurch.
pub proof fn lemma_the_clock_runs_what_fell_due(b: Beat, now: nat)
    requires
        b.beat > 0,
    ensures
        after_taking(b, now).due > now,
        passes_due(b, now) > 0 ==> after_taking(b, now).due <= now + b.beat,
        after_taking(b, now).beat == b.beat,
        passes_due(b, now) <= (BACKLOG as nat) / b.beat + 1,
        owed_from(b.due, now) <= now ==> owed_from(b.due, now) + (passes_due(b, now) - 1) * b.beat <= now,
{
    let from = owed_from(b.due, now);
    if from <= now {
        let gap = (now - from) as nat;
        let p = gap / b.beat + 1;
        assert(from + p * b.beat > now && from + (p - 1) * b.beat <= now && from + p * b.beat <= now + b.beat)
            by (nonlinear_arith)
            requires
                p == gap / b.beat + 1,
                gap == now - from,
                b.beat > 0,
        ;
        assert(gap <= BACKLOG);
        assert(gap / b.beat <= (BACKLOG as nat) / b.beat) by (nonlinear_arith)
            requires
                gap <= BACKLOG,
                b.beat > 0,
        ;
    }
}

/// A present on the deadline owes one pass, and the next deadline is a beat
/// on; one half a beat after that owes none; one on the next deadline owes
/// one again, and leaves the clock two beats past the first.
pub proof fn lemma_an_on_time_pass_owes_one_beat(b: Beat)
    requires
        b.beat > 0,
    ensures
        passes_due(b, b.due) == 1,
        after_taking(b, b.due) == (Beat { due: b.due + b.beat, ..b }),
        passes_due(after_taking(b, b.due), b.due + b.beat / 2) == 0,
        after_taking(after_taking(b, b.due), b.due + b.beat / 2) == after_taking(b, b.due),
        passes_due(after_taking(b, b.due), b.due + b.beat) == 1,
        after_taking(after_taking(b, b.due), b.due + b.beat).due == b.due + 2 * b.beat,
{
    assert(0nat / b.beat == 0) by (nonlinear_arith)
        requires
            b.beat > 0,
    ;
}

/// A present that comes `missed` whole beats and a part of one late, still
/// inside the backlog, owes a pass for every deadline that fell: `missed`
/// and one.
pub proof fn lemma_a_late_present_runs_what_it_missed(b: Beat, missed: nat, part: nat)
    requires
        b.beat > 0,
        part < b.beat,
        missed * b.beat + part <= BACKLOG,
    ensures
        passes_due(b, b.due + missed * b.beat + part) == missed + 1,
        after_taking(b, b.due + missed * b.beat + part).due == b.due + (missed + 1) * b.beat,
{
    let gap = missed * b.beat + part;
    assert(gap / b.beat == missed) by (nonlinear_arith)
        requires
            gap == missed * b.beat + part,
            part < b.beat,
            b.beat > 0,
    ;
    assert((missed + 1) * b.beat == missed * b.beat + b.beat) by (nonlinear_arith);
}

} // verus!
