//! The whole life of one surface's lights, as decisions: which message goes
//! on the wire next, given what the surface has said and what the frame loop
//! wants lit.
//!
//! The handshake waits on replies that may never come and a MIDI write blocks
//! when the wire is full, so whoever drives this runs it on a thread of its
//! own: it performs each write this asks for and says whether it went, and it
//! hands over every frame the surface sends, every panel the frame loop asks
//! for, a reply that took too long, and the instrument going.
//!
//! The way out always runs once the surface has answered as a
//! nanoKONTROL2: the panel is put dark, and the LED mode goes back to
//! Internal — a surface left in a mode only this program drives is a surface
//! whose buttons have gone dark for everything else on the machine.

use vstd::prelude::*;
use crate::lamps::{
    ack, ack_in, channel_in, channel_of, dump, dump_of, inquiry, inquiry_of, lemma_light_again_is_silent,
    lemma_unpacked_len, light, lighting, request, request_of, scene_in, scene_of, EXTERNAL,
    GLOBAL_CHANNEL, INTERNAL, LED_MODE, SCENE_BYTES,
};

verus! {

/// Where the conversation with the surface stands. A phase that names a
/// write is waiting to hear whether that write went.
pub enum Phase {
    /// Nothing said yet.
    Fresh,
    /// The device inquiry is on its way.
    Inquiring,
    /// Waiting for the surface to say what it is.
    Identifying,
    /// The scene dump request is on its way to the surface on this channel.
    Requesting(u8),
    /// Waiting for the scene.
    Reading(u8),
    /// The scene with the LED mode set is on its way; held here is the scene
    /// that gives the lights back.
    Flipping(u8, Vec<u8>),
    /// Waiting for the surface to take or refuse the scene.
    Acknowledging(u8),
    /// Every button is being put out.
    Blanking(u8),
    /// The lamps wanted are being written.
    Lighting(u8),
    /// The panel agrees with the frame loop; waiting for it to want another.
    Playing(u8),
    /// The panel is being put dark on the way out.
    Dimming(u8),
    /// The LED mode is going back to Internal.
    Restoring(u8),
    /// Nothing more will be written.
    Finished,
}

/// What the surface's driver hands in.
pub enum Event {
    /// A system exclusive frame the surface sent.
    Frame(Vec<u8>),
    /// The lamps the frame loop wants lit now.
    Show(u128),
    /// Whether the write asked for last went.
    Wrote(bool),
    /// A reply was waited for and did not come in time.
    TimedOut,
    /// The instrument is going, or the surface with it.
    Quit,
}

/// What the driver does next.
pub enum Step {
    /// Write these bytes to the surface, and say whether they went.
    Write(Vec<u8>),
    /// Wait for a reply, for no longer than the surface is given to answer.
    Reply,
    /// Go on waiting for the reply already waited for, inside the same time.
    Wait,
    /// Wait for the next thing the frame loop says, however long it takes.
    Idle,
    /// Stop: nothing more is written.
    Finished,
}

/// Phases as plain values.
pub enum PhaseView {
    Fresh,
    Inquiring,
    Identifying,
    Requesting(u8),
    Reading(u8),
    Flipping(u8, Seq<u8>),
    Acknowledging(u8),
    Blanking(u8),
    Lighting(u8),
    Playing(u8),
    Dimming(u8),
    Restoring(u8),
    Finished,
}

pub enum EventView {
    Frame(Seq<u8>),
    Show(u128),
    Wrote(bool),
    TimedOut,
    Quit,
}

pub enum StepView {
    Write(Seq<u8>),
    Reply,
    Wait,
    Idle,
    Finished,
}

impl View for Phase {
    type V = PhaseView;

    open spec fn view(&self) -> PhaseView {
        match self {
            Phase::Fresh => PhaseView::Fresh,
            Phase::Inquiring => PhaseView::Inquiring,
            Phase::Identifying => PhaseView::Identifying,
            Phase::Requesting(c) => PhaseView::Requesting(*c),
            Phase::Reading(c) => PhaseView::Reading(*c),
            Phase::Flipping(c, s) => PhaseView::Flipping(*c, s@),
            Phase::Acknowledging(c) => PhaseView::Acknowledging(*c),
            Phase::Blanking(c) => PhaseView::Blanking(*c),
            Phase::Lighting(c) => PhaseView::Lighting(*c),
            Phase::Playing(c) => PhaseView::Playing(*c),
            Phase::Dimming(c) => PhaseView::Dimming(*c),
            Phase::Restoring(c) => PhaseView::Restoring(*c),
            Phase::Finished => PhaseView::Finished,
        }
    }
}

impl View for Event {
    type V = EventView;

    open spec fn view(&self) -> EventView {
        match self {
            Event::Frame(f) => EventView::Frame(f@),
            Event::Show(w) => EventView::Show(*w),
            Event::Wrote(ok) => EventView::Wrote(*ok),
            Event::TimedOut => EventView::TimedOut,
            Event::Quit => EventView::Quit,
        }
    }
}

impl View for Step {
    type V = StepView;

    open spec fn view(&self) -> StepView {
        match self {
            Step::Write(b) => StepView::Write(b@),
            Step::Reply => StepView::Reply,
            Step::Wait => StepView::Wait,
            Step::Idle => StepView::Idle,
            Step::Finished => StepView::Finished,
        }
    }
}

/// The lights of one surface, as plain values: where the conversation
/// stands, the buttons it may ever light, the lamps last asked for, the
/// lamps the panel was last asked to show, and the scene that puts the
/// surface's lights back in its own hands, once one is owed.
pub struct Lights {
    pub phase: PhaseView,
    pub buttons: u128,
    pub want: u128,
    pub lit: u128,
    pub restore: Option<Seq<u8>>,
}

/// The scene as the surface sent it, with the LED mode set to `mode`.
pub open spec fn with_mode(scene: Seq<u8>, mode: u8) -> Seq<u8> {
    scene.update(LED_MODE as int, mode)
}

/// Put every button out. Whatever drove these lamps last — another program,
/// or this one killed without putting them out — left them somewhere
/// unknown, so the panel is taken to be lit on every button.
pub open spec fn blank(l: Lights, c: u8) -> (Lights, StepView) {
    (
        Lights { phase: PhaseView::Blanking(c), lit: 0, ..l },
        StepView::Write(lighting(c, l.buttons, 0)),
    )
}

/// Light what is wanted, of the buttons.
pub open spec fn show(l: Lights, c: u8) -> (Lights, StepView) {
    (
        Lights { phase: PhaseView::Lighting(c), lit: l.want & l.buttons, ..l },
        StepView::Write(lighting(c, l.lit, l.want & l.buttons)),
    )
}

/// Put the panel dark on the way out.
pub open spec fn close(l: Lights, c: u8) -> (Lights, StepView) {
    (Lights { phase: PhaseView::Dimming(c), lit: 0, ..l }, StepView::Write(lighting(c, l.lit, 0)))
}

/// What `event` does to the lights, and what the driver does next.
pub open spec fn after(l: Lights, event: EventView) -> (Lights, StepView) {
    match l.phase {
        PhaseView::Fresh => (Lights { phase: PhaseView::Inquiring, ..l }, StepView::Write(inquiry_of())),
        PhaseView::Inquiring => match event {
            EventView::Wrote(true) => (Lights { phase: PhaseView::Identifying, ..l }, StepView::Reply),
            EventView::Show(w) => (Lights { want: w, ..l }, StepView::Wait),
            _ => (Lights { phase: PhaseView::Finished, ..l }, StepView::Finished),
        },
        PhaseView::Identifying => match event {
            EventView::Frame(f) => match channel_in(f) {
                Some(c) => (
                    Lights { phase: PhaseView::Requesting(c), ..l },
                    StepView::Write(request_of(c)),
                ),
                None => (l, StepView::Wait),
            },
            EventView::Show(w) => (Lights { want: w, ..l }, StepView::Wait),
            EventView::Wrote(_) => (l, StepView::Wait),
            _ => (Lights { phase: PhaseView::Finished, ..l }, StepView::Finished),
        },
        PhaseView::Requesting(c) => match event {
            EventView::Wrote(true) => (Lights { phase: PhaseView::Reading(c), ..l }, StepView::Reply),
            EventView::Show(w) => (Lights { want: w, ..l }, StepView::Wait),
            _ => blank(l, c),
        },
        PhaseView::Reading(c) => match event {
            EventView::Frame(f) => match scene_of(c, f) {
                Some(s) => if s[GLOBAL_CHANNEL as int] != c {
                    blank(l, c)
                } else if s[LED_MODE as int] != EXTERNAL {
                    (
                        Lights { phase: PhaseView::Flipping(c, with_mode(s, INTERNAL)), ..l },
                        StepView::Write(dump_of(c, with_mode(s, EXTERNAL))),
                    )
                } else {
                    blank(Lights { restore: Some(with_mode(s, INTERNAL)), ..l }, c)
                },
                None => (l, StepView::Wait),
            },
            EventView::Show(w) => (Lights { want: w, ..l }, StepView::Wait),
            EventView::Wrote(_) => (l, StepView::Wait),
            EventView::TimedOut => blank(l, c),
            EventView::Quit => close(l, c),
        },
        PhaseView::Flipping(c, s) => match event {
            EventView::Wrote(true) => (
                Lights { phase: PhaseView::Acknowledging(c), restore: Some(s), ..l },
                StepView::Reply,
            ),
            EventView::Show(w) => (Lights { want: w, ..l }, StepView::Wait),
            _ => blank(l, c),
        },
        PhaseView::Acknowledging(c) => match event {
            EventView::Frame(f) => match ack_in(c, f) {
                Some(true) => blank(l, c),
                Some(false) => blank(Lights { restore: None, ..l }, c),
                None => (l, StepView::Wait),
            },
            EventView::Show(w) => (Lights { want: w, ..l }, StepView::Wait),
            EventView::Wrote(_) => (l, StepView::Wait),
            EventView::TimedOut => blank(l, c),
            EventView::Quit => close(l, c),
        },
        PhaseView::Blanking(c) => match event {
            EventView::Wrote(true) => show(l, c),
            EventView::Show(w) => (Lights { want: w, ..l }, StepView::Wait),
            _ => close(l, c),
        },
        PhaseView::Lighting(c) => match event {
            EventView::Wrote(true) => (Lights { phase: PhaseView::Playing(c), ..l }, StepView::Idle),
            EventView::Show(w) => (Lights { want: w, ..l }, StepView::Wait),
            _ => close(l, c),
        },
        PhaseView::Playing(c) => match event {
            EventView::Show(w) => show(Lights { want: w, ..l }, c),
            EventView::Quit => close(l, c),
            _ => (l, StepView::Idle),
        },
        PhaseView::Dimming(c) => match event {
            EventView::Show(w) => (Lights { want: w, ..l }, StepView::Wait),
            _ => match l.restore {
                Some(s) => (Lights { phase: PhaseView::Restoring(c), ..l }, StepView::Write(dump_of(c, s))),
                None => (Lights { phase: PhaseView::Finished, ..l }, StepView::Finished),
            },
        },
        PhaseView::Restoring(c) => match event {
            EventView::Show(w) => (Lights { want: w, ..l }, StepView::Wait),
            _ => (Lights { phase: PhaseView::Finished, restore: None, ..l }, StepView::Finished),
        },
        PhaseView::Finished => (l, StepView::Finished),
    }
}

/// What holds of the lights at every step: the panel is only ever lit on
/// buttons, and a scene owed back is a whole scene, on the surface's own
/// channel, with the LED mode at Internal.
pub open spec fn owed_scene(s: Seq<u8>, c: u8) -> bool {
    &&& s.len() == SCENE_BYTES
    &&& s[LED_MODE as int] == INTERNAL
    &&& s[GLOBAL_CHANNEL as int] == c
}

pub open spec fn channel_of_phase(p: PhaseView) -> Option<u8> {
    match p {
        PhaseView::Requesting(c) | PhaseView::Reading(c) | PhaseView::Acknowledging(c)
        | PhaseView::Blanking(c) | PhaseView::Lighting(c) | PhaseView::Playing(c)
        | PhaseView::Dimming(c) | PhaseView::Restoring(c) | PhaseView::Flipping(c, _) => Some(c),
        _ => None,
    }
}

pub open spec fn sound(l: Lights) -> bool {
    &&& l.lit & !l.buttons == 0
    &&& l.restore matches Some(s) ==> channel_of_phase(l.phase) matches Some(c) && owed_scene(s, c)
    &&& l.restore is Some ==> !(l.phase is Requesting || l.phase is Reading || l.phase is Flipping)
    &&& l.phase matches PhaseView::Flipping(c, s) ==> owed_scene(s, c)
    &&& channel_of_phase(l.phase) matches Some(c) ==> c < 16
}

/// The lights of one surface.
pub struct Panel {
    phase: Phase,
    buttons: u128,
    want: u128,
    lit: u128,
    restore: Option<Vec<u8>>,
}

impl View for Panel {
    type V = Lights;

    closed spec fn view(&self) -> Lights {
        Lights {
            phase: self.phase@,
            buttons: self.buttons,
            want: self.want,
            lit: self.lit,
            restore: match self.restore {
                Some(s) => Some(s@),
                None => None,
            },
        }
    }
}

proof fn lemma_zero_mask(buttons: u128)
    ensures
        0u128 & buttons == 0,
        0u128 & !buttons == 0,
        buttons & !0u128 == buttons,
{
    assert(0u128 & buttons == 0) by (bit_vector);
    assert(0u128 & !buttons == 0) by (bit_vector);
    assert(buttons & !0u128 == buttons) by (bit_vector);
}

proof fn lemma_masked_lit(want: u128, buttons: u128)
    ensures
        (want & buttons) & !buttons == 0,
{
    assert((want & buttons) & !buttons == 0) by (bit_vector);
}

fn copy(bytes: &Vec<u8>) -> (same: Vec<u8>)
    ensures
        same@ == bytes@,
{
    let mut same: Vec<u8> = Vec::new();
    for i in 0..bytes.len()
        invariant
            same@ == bytes@.take(i as int),
    {
        same.push(bytes[i]);
        proof {
            assert(bytes@.take(i + 1) =~= bytes@.take(i as int).push(bytes@[i as int]));
        }
    }
    proof {
        assert(bytes@.take(bytes@.len() as int) =~= bytes@);
    }
    same
}

impl Panel {
    /// A surface's lights before anything has been said to it. `buttons` is
    /// every control number the map binds to a button — the only numbers
    /// that will ever be lit.
    pub fn new(buttons: u128) -> (panel: Panel)
        ensures
            panel@ == (Lights {
                phase: PhaseView::Fresh,
                buttons,
                want: 0,
                lit: 0,
                restore: None,
            }),
            sound(panel@),
    {
        proof {
            lemma_zero_mask(buttons);
        }
        Panel { phase: Phase::Fresh, buttons, want: 0, lit: 0, restore: None }
    }

    fn blank(&mut self, c: u8) -> (step: Step)
        requires
            old(self)@.lit & !old(self)@.buttons == 0,
            c < 16,
            old(self)@.restore matches Some(s) ==> owed_scene(s, c),
        ensures
            (final(self)@, step@) == blank(old(self)@, c),
            sound(final(self)@),
    {
        let (bytes, lit) = light(c, self.buttons, self.buttons, 0);
        self.phase = Phase::Blanking(c);
        self.lit = lit;
        proof {
            lemma_zero_mask(self.buttons);
        }
        Step::Write(bytes)
    }

    fn show(&mut self, c: u8) -> (step: Step)
        requires
            old(self)@.lit & !old(self)@.buttons == 0,
            c < 16,
            old(self)@.restore matches Some(s) ==> owed_scene(s, c),
        ensures
            (final(self)@, step@) == show(old(self)@, c),
            sound(final(self)@),
    {
        let (bytes, lit) = light(c, self.buttons, self.lit, self.want);
        self.phase = Phase::Lighting(c);
        self.lit = lit;
        proof {
            lemma_masked_lit(old(self).want, self.buttons);
        }
        Step::Write(bytes)
    }

    fn close(&mut self, c: u8) -> (step: Step)
        requires
            old(self)@.lit & !old(self)@.buttons == 0,
            c < 16,
            old(self)@.restore matches Some(s) ==> owed_scene(s, c),
        ensures
            (final(self)@, step@) == close(old(self)@, c),
            sound(final(self)@),
    {
        let (bytes, lit) = light(c, self.buttons, self.lit, 0);
        self.phase = Phase::Dimming(c);
        self.lit = lit;
        proof {
            lemma_zero_mask(self.buttons);
        }
        Step::Write(bytes)
    }

    /// What to do first, whatever has been said: ask the surface what it
    /// is.
    pub fn start(&mut self) -> (step: Step)
        requires
            sound(old(self)@),
            old(self)@.phase is Fresh,
        ensures
            sound(final(self)@),
            final(self)@ == (Lights { phase: PhaseView::Inquiring, ..old(self)@ }),
            step@ == StepView::Write(inquiry_of()),
    {
        self.next(Event::TimedOut)
    }

    /// Take one event, and say what to do next.
    pub fn next(&mut self, event: Event) -> (step: Step)
        requires
            sound(old(self)@),
        ensures
            (final(self)@, step@) == after(old(self)@, event@),
            sound(final(self)@),
    {
        let mut phase = Phase::Finished;
        std::mem::swap(&mut phase, &mut self.phase);
        match phase {
            Phase::Fresh => {
                self.phase = Phase::Inquiring;
                Step::Write(inquiry())
            },
            Phase::Inquiring => match event {
                Event::Wrote(true) => {
                    self.phase = Phase::Identifying;
                    Step::Reply
                },
                Event::Show(w) => {
                    self.phase = Phase::Inquiring;
                    self.want = w;
                    Step::Wait
                },
                _ => Step::Finished,
            },
            Phase::Identifying => match event {
                Event::Frame(f) => match channel_of(f.as_slice()) {
                    Some(c) => {
                        self.phase = Phase::Requesting(c);
                        Step::Write(request(c))
                    },
                    None => {
                        self.phase = Phase::Identifying;
                        Step::Wait
                    },
                },
                Event::Show(w) => {
                    self.phase = Phase::Identifying;
                    self.want = w;
                    Step::Wait
                },
                Event::Wrote(_) => {
                    self.phase = Phase::Identifying;
                    Step::Wait
                },
                _ => Step::Finished,
            },
            Phase::Requesting(c) => match event {
                Event::Wrote(true) => {
                    self.phase = Phase::Reading(c);
                    Step::Reply
                },
                Event::Show(w) => {
                    self.phase = Phase::Requesting(c);
                    self.want = w;
                    Step::Wait
                },
                _ => self.blank(c),
            },
            Phase::Reading(c) => match event {
                Event::Frame(f) => match scene_in(c, f.as_slice()) {
                    Some(mut s) => {
                        if s[GLOBAL_CHANNEL] != c {
                            // Every offset here is read on faith from Korg's
                            // table, and this is the one the surface has also
                            // said another way: a scene read where this does
                            // not think it is goes back to nobody.
                            self.blank(c)
                        } else if s[LED_MODE] != EXTERNAL {
                            let ghost sent = s@;
                            s.set(LED_MODE, EXTERNAL);
                            let flipped = dump(c, s.as_slice());
                            // Internal, not whatever was found: found-external
                            // is exactly what a killed run leaves behind.
                            s.set(LED_MODE, INTERNAL);
                            proof {
                                assert(s@ =~= with_mode(sent, INTERNAL));
                            }
                            self.phase = Phase::Flipping(c, s);
                            Step::Write(flipped)
                        } else {
                            s.set(LED_MODE, INTERNAL);
                            self.restore = Some(s);
                            self.blank(c)
                        }
                    },
                    None => {
                        self.phase = Phase::Reading(c);
                        Step::Wait
                    },
                },
                Event::Show(w) => {
                    self.phase = Phase::Reading(c);
                    self.want = w;
                    Step::Wait
                },
                Event::Wrote(_) => {
                    self.phase = Phase::Reading(c);
                    Step::Wait
                },
                Event::TimedOut => self.blank(c),
                Event::Quit => self.close(c),
            },
            Phase::Flipping(c, s) => match event {
                Event::Wrote(true) => {
                    // Recorded here, before the acknowledgement: the surface
                    // applies a scene as it arrives, so it has the mode
                    // whatever it says next.
                    self.restore = Some(s);
                    self.phase = Phase::Acknowledging(c);
                    Step::Reply
                },
                Event::Show(w) => {
                    self.phase = Phase::Flipping(c, s);
                    self.want = w;
                    Step::Wait
                },
                _ => self.blank(c),
            },
            Phase::Acknowledging(c) => match event {
                Event::Frame(f) => match ack(c, f.as_slice()) {
                    Some(true) => self.blank(c),
                    Some(false) => {
                        // A refusal is the one answer that says the surface
                        // did not take the scene: nothing to undo.
                        self.restore = None;
                        self.blank(c)
                    },
                    None => {
                        self.phase = Phase::Acknowledging(c);
                        Step::Wait
                    },
                },
                Event::Show(w) => {
                    self.phase = Phase::Acknowledging(c);
                    self.want = w;
                    Step::Wait
                },
                Event::Wrote(_) => {
                    self.phase = Phase::Acknowledging(c);
                    Step::Wait
                },
                Event::TimedOut => self.blank(c),
                Event::Quit => self.close(c),
            },
            Phase::Blanking(c) => match event {
                Event::Wrote(true) => self.show(c),
                Event::Show(w) => {
                    self.phase = Phase::Blanking(c);
                    self.want = w;
                    Step::Wait
                },
                _ => self.close(c),
            },
            Phase::Lighting(c) => match event {
                Event::Wrote(true) => {
                    self.phase = Phase::Playing(c);
                    Step::Idle
                },
                Event::Show(w) => {
                    self.phase = Phase::Lighting(c);
                    self.want = w;
                    Step::Wait
                },
                _ => self.close(c),
            },
            Phase::Playing(c) => match event {
                Event::Show(w) => {
                    self.want = w;
                    self.show(c)
                },
                Event::Quit => self.close(c),
                _ => {
                    self.phase = Phase::Playing(c);
                    Step::Idle
                },
            },
            Phase::Dimming(c) => match event {
                Event::Show(w) => {
                    self.phase = Phase::Dimming(c);
                    self.want = w;
                    Step::Wait
                },
                _ => match &self.restore {
                    Some(s) => {
                        let back = dump(c, s.as_slice());
                        self.phase = Phase::Restoring(c);
                        Step::Write(back)
                    },
                    None => Step::Finished,
                },
            },
            Phase::Restoring(c) => match event {
                Event::Show(w) => {
                    self.phase = Phase::Restoring(c);
                    self.want = w;
                    Step::Wait
                },
                _ => {
                    self.restore = None;
                    Step::Finished
                },
            },
            Phase::Finished => Step::Finished,
        }
    }
}

/// Everything a run of events puts on the wire, write by write, starting from
/// the lights `l`.
pub open spec fn writes(l: Lights, events: Seq<EventView>) -> Seq<Seq<u8>>
    decreases events.len(),
{
    if events.len() == 0 {
        Seq::empty()
    } else {
        let (next, step) = after(l, events[0]);
        let rest = writes(next, events.drop_first());
        match step {
            StepView::Write(bytes) => seq![bytes] + rest,
            _ => rest,
        }
    }
}

/// Whether an event is the surface naming itself as a nanoKONTROL2.
pub open spec fn identifies(event: EventView) -> bool {
    event matches EventView::Frame(f) && channel_in(f) is Some
}

/// The lights of a surface before anything has been said to it.
pub open spec fn fresh(buttons: u128) -> Lights {
    Lights { phase: PhaseView::Fresh, buttons, want: 0, lit: 0, restore: None }
}

proof fn lemma_unidentified_writes(l: Lights, events: Seq<EventView>)
    requires
        l.phase is Fresh || l.phase is Inquiring || l.phase is Identifying || l.phase is Finished,
        forall|i: int| 0 <= i < events.len() ==> !identifies(#[trigger] events[i]),
    ensures
        forall|i: int|
            0 <= i < writes(l, events).len() ==> #[trigger] writes(l, events)[i] == inquiry_of(),
    decreases events.len(),
{
    if events.len() > 0 {
        let (next, step) = after(l, events[0]);
        assert(!identifies(events[0]));
        let rest = events.drop_first();
        assert forall|i: int| 0 <= i < rest.len() implies !identifies(#[trigger] rest[i]) by {
            assert(rest[i] == events[i + 1]);
        }
        lemma_unidentified_writes(next, rest);
        let all = writes(l, events);
        let later = writes(next, rest);
        match step {
            StepView::Write(bytes) => {
                assert(bytes == inquiry_of());
                assert(all == seq![bytes] + later);
                assert forall|i: int| 0 <= i < all.len() implies #[trigger] all[i] == inquiry_of() by {
                    if i > 0 {
                        assert(all[i] == later[i - 1]);
                    }
                }
            },
            _ => {
                assert(all == later);
            },
        }
    }
}

/// A device that never answers as a nanoKONTROL2 — some other maker's
/// device, one that echoes what it is sent, or one that answers nothing —
/// is written the device inquiry and nothing else, however the run goes.
pub proof fn lemma_a_stranger_is_written_only_the_inquiry(buttons: u128, events: Seq<EventView>)
    requires
        forall|i: int| 0 <= i < events.len() ==> !identifies(#[trigger] events[i]),
    ensures
        forall|i: int|
            0 <= i < writes(fresh(buttons), events).len() ==> #[trigger] writes(
                fresh(buttons),
                events,
            )[i] == inquiry_of(),
{
    lemma_unidentified_writes(fresh(buttons), events);
}

/// An internal scene goes back to the surface it came from whole, with one
/// byte changed: the LED mode, now External. The other 338 are the
/// performer's assignments and are handed back as they came.
pub proof fn lemma_the_scene_goes_back_with_one_byte_changed(l: Lights, frame: Seq<u8>)
    requires
        sound(l),
        l.phase matches PhaseView::Reading(c) && scene_of(c, frame) matches Some(s) && s[GLOBAL_CHANNEL as int] == c
            && s[LED_MODE as int] != EXTERNAL,
    ensures
        ({
            let c = channel_of_phase(l.phase)->0;
            let s = scene_of(c, frame)->0;
            &&& s.len() == SCENE_BYTES
            &&& after(l, EventView::Frame(frame)).1 == StepView::Write(dump_of(c, with_mode(s, EXTERNAL)))
            &&& with_mode(s, EXTERNAL).len() == s.len()
            &&& with_mode(s, EXTERNAL)[LED_MODE as int] == EXTERNAL
            &&& forall|i: int|
                0 <= i < s.len() && i != LED_MODE ==> #[trigger] with_mode(s, EXTERNAL)[i] == s[i]
        }),
{
    let c = channel_of_phase(l.phase)->0;
    let body = frame.subrange(13, frame.len() - 1);
    lemma_unpacked_len(body);
}

/// A surface already in external mode is written no scene to get it there:
/// what goes out next is the blanking pass, and the scene owed back is the
/// one it sent, with the mode at Internal.
pub proof fn lemma_an_external_surface_is_sent_no_scene(l: Lights, frame: Seq<u8>)
    requires
        sound(l),
        l.phase matches PhaseView::Reading(c) && scene_of(c, frame) matches Some(s) && s[GLOBAL_CHANNEL as int] == c
            && s[LED_MODE as int] == EXTERNAL,
    ensures
        ({
            let c = channel_of_phase(l.phase)->0;
            let s = scene_of(c, frame)->0;
            let (next, step) = after(l, EventView::Frame(frame));
            &&& step == StepView::Write(lighting(c, l.buttons, 0))
            &&& next.restore == Some(with_mode(s, INTERNAL))
        }),
{
}

/// A scene whose channel byte disagrees with the channel the surface
/// answered on is read where this does not think it is, and is never
/// written back: no scene is owed, and the blanking pass goes out instead.
pub proof fn lemma_a_disagreeing_scene_is_not_written_back(l: Lights, frame: Seq<u8>)
    requires
        sound(l),
        l.phase matches PhaseView::Reading(c) && scene_of(c, frame) matches Some(s) && s[GLOBAL_CHANNEL as int] != c,
    ensures
        ({
            let c = channel_of_phase(l.phase)->0;
            let (next, step) = after(l, EventView::Frame(frame));
            &&& step == StepView::Write(lighting(c, l.buttons, 0))
            &&& next.restore == l.restore
            &&& next.phase == PhaseView::Blanking(c)
        }),
{
}

/// Once the surface has been handed the flipped scene, the scene that puts
/// its lights back is owed until it goes out: no event drops it but the
/// surface's refusal, and the only way into the last write is writing it.
pub proof fn lemma_the_mode_goes_home(l: Lights, event: EventView)
    requires
        sound(l),
        l.restore is Some,
    ensures
        ({
            let c = channel_of_phase(l.phase)->0;
            let s = l.restore->0;
            let (next, step) = after(l, event);
            &&& owed_scene(s, c)
            &&& (next.phase is Restoring && !(l.phase is Restoring)) ==> step == StepView::Write(
                dump_of(c, s),
            )
            &&& (next.restore == l.restore || l.phase is Restoring || (l.phase is Acknowledging
                && (event matches EventView::Frame(f) && ack_in(c, f) == Some(false))))
        }),
{
}

/// The blanking pass is the only way into the lamps: a lamp is lit only from
/// a panel that was put out first, or from one already being played.
pub proof fn lemma_blank_before_the_first_lamp(l: Lights, event: EventView)
    requires
        sound(l),
    ensures
        ({
            let (next, step) = after(l, event);
            &&& (next.phase is Lighting ==> (l.phase is Blanking || l.phase is Lighting
                || l.phase is Playing))
            &&& (next.phase is Blanking && !(l.phase is Blanking)) ==> step == StepView::Write(
                lighting(channel_of_phase(next.phase)->0, l.buttons, 0),
            )
        }),
{
}

/// The same panel asked for again, sixty times a second, puts nothing on
/// the wire.
pub proof fn lemma_the_same_panel_again_is_silent(l: Lights, want: u128)
    requires
        sound(l),
        l.phase is Playing,
        l.lit == want & l.buttons,
    ensures
        after(l, EventView::Show(want)).1 == StepView::Write(Seq::empty()),
{
    lemma_light_again_is_silent(channel_of_phase(l.phase)->0, l.buttons, want);
}

} // verus!
