//! The controls overlay: a picture of the surface, every strip, button and
//! transport key where the device has it, with what each control is bound
//! to captioned beside it, the knobs' readings under them and the lit lamps
//! filled in. Drawn once per change of what it shows, onto a canvas the
//! display scales up.

use vstd::prelude::*;

use crate::canvas::{
    along,
    fitting,
    in_box,
    in_text,
    line_steps,
    on_frame,
    on_line,
    on_ring,
    painted,
    rounded,
    stamped,
    Canvas,
    Ink,
};
use crate::command::Action;
use crate::lamps::has_lamp;
use crate::midi::{
    bound_controls,
    lemma_every_control_is_on_the_panel_once,
    button_table,
    buttons,
    fader_table,
    faders,
    knob_on,
    spot,
    spot_at,
    transport,
    transport_table,
    Group,
    Spot,
    TransportButton,
    FADER_ROW,
    ROTARY_ROW,
    STRIPS,
};
use crate::params::{Knob, Node};
use crate::rig::{count, spec_count};
use crate::text::{decimal, push_decimal};
use vstd::arithmetic::div_mod::{
    lemma_fundamental_div_mod_converse,
    lemma_multiply_divide_lt,
    lemma_div_pos_is_pos,
};

verus! {

/// The width of a glyph, and of the step from one character to the next.
pub const GLYPH: i32 = 8;

/// The width of one channel strip of the picture.
pub const STRIP_W: i32 = 84;

/// A transport button's size, and the step from one to the next.
pub const BUTTON_W: i32 = 60;

pub const BUTTON_H: i32 = 16;

pub const BUTTON_PITCH: i32 = 64;

/// The margin round the picture.
pub const PAD: i32 = 10;

/// How far above its row a group's name on the silkscreen stands.
pub const GROUP_LIFT: i32 = 10;

/// Where the first channel strip starts: right of the transport's five
/// columns and a gap.
pub const STRIPS_X: i32 = 342;

/// The picture's size: the transport, eight strips and the margins.
pub const PANEL_W: i32 = 1024;

pub const PANEL_H: i32 = 152;

/// The tops of the three select rows, S, M and R, which the transport's
/// three rows share.
pub const S_Y: i32 = 66;

pub const M_Y: i32 = 84;

pub const R_Y: i32 = 102;

/// A select button's side.
pub const SQUARE: i32 = 14;

/// The rotary's centre row, its radius, and the rows of its caption and its
/// reading.
pub const ROTARY_Y: i32 = 24;

pub const ROTARY_R: i32 = 12;

pub const ROTARY_CAPTION_Y: i32 = 42;

pub const ROTARY_VALUE_Y: i32 = 52;

/// The rows of a fader's caption and its reading.
pub const FADER_CAPTION_Y: i32 = 124;

pub const FADER_VALUE_Y: i32 = 134;

/// The thumb's height, and how many rows it travels from the bottom of its
/// track to the top.
pub const THUMB_H: i32 = 3;

pub const THUMB_TRAVEL: i32 = 45;

/// The length of a needle: two texels short of the rotary's ring.
pub const NEEDLE: i32 = 10;

/// A box of the sources legend, and the gap between two.
pub const SOURCE_W: i32 = 64;

pub const SOURCE_H: i32 = 16;

pub const SOURCE_GAP: i32 = 6;

/// The top of select row `row`: 0 for S, 1 for M, 2 for R.
pub open spec fn spec_row_y(row: int) -> int {
    if row == 0 {
        S_Y as int
    } else if row == 1 {
        M_Y as int
    } else {
        R_Y as int
    }
}

pub fn row_y(row: u8) -> (y: i32)
    requires
        row < 3,
    ensures
        y == spec_row_y(row as int),
{
    if row == 0 {
        S_Y
    } else if row == 1 {
        M_Y
    } else {
        R_Y
    }
}

/// Where channel strip `i` starts.
pub open spec fn spec_strip_x(i: int) -> int {
    STRIPS_X + i * STRIP_W
}

pub fn strip_x(i: u8) -> (x: i32)
    ensures
        x == spec_strip_x(i as int),
{
    STRIPS_X + i as i32 * STRIP_W
}

/// Where strip `i`'s fader track stands, at its right edge.
pub open spec fn spec_track_x(i: int) -> int {
    spec_strip_x(i) + STRIP_W - 14
}

pub fn track_x(i: u8) -> (x: i32)
    ensures
        x == spec_track_x(i as int),
{
    strip_x(i) + STRIP_W - 14
}

/// The centre column of strip `i`, where its rotary stands and its captions
/// are centred.
pub open spec fn spec_centre_x(i: int) -> int {
    spec_strip_x(i) + STRIP_W / 2
}

/// Where transport column `col` starts.
pub open spec fn spec_button_x(col: int) -> int {
    PAD + col * BUTTON_PITCH
}

pub fn button_x(col: u8) -> (x: i32)
    ensures
        x == spec_button_x(col as int),
{
    PAD + col as i32 * BUTTON_PITCH
}

/// The top row of a thumb that stands `travelled` rows up its track.
pub open spec fn spec_thumb_y(travelled: int) -> int {
    R_Y + SQUARE - 1 - THUMB_H - travelled
}

pub fn thumb_y(travelled: i32) -> (y: i32)
    requires
        0 <= travelled <= THUMB_TRAVEL,
    ensures
        y == spec_thumb_y(travelled as int),
{
    R_Y + SQUARE - 1 - THUMB_H - travelled
}

/// `text` centred on column `cx` from row `y`, cut off at `max_x`.
pub open spec fn centred(cx: int, y: int, text: Seq<char>, max_x: int) -> spec_fn(int, int) -> bool {
    in_text(cx - text.len() * 4, y, text, max_x)
}

/// The dim chrome of strip `i`: the rotary's ring, the three select buttons
/// and the fader's track.
pub open spec fn chrome(v: Seq<Ink>, w: int, i: int) -> Seq<Ink> {
    let x = spec_strip_x(i);
    let ring = painted(v, w, on_ring(spec_centre_x(i), ROTARY_Y as int, ROTARY_R as int), Ink::Dim);
    let s = painted(ring, w, on_frame(x + 2, S_Y as int, SQUARE as int, SQUARE as int), Ink::Dim);
    let m = painted(s, w, on_frame(x + 2, M_Y as int, SQUARE as int, SQUARE as int), Ink::Dim);
    let r = painted(m, w, on_frame(x + 2, R_Y as int, SQUARE as int, SQUARE as int), Ink::Dim);
    painted(r, w, on_frame(spec_track_x(i), S_Y as int, 12, R_Y + SQUARE - S_Y), Ink::Dim)
}

/// Strip `i`'s fader thumb, `travelled` rows up its track.
pub open spec fn thumb(v: Seq<Ink>, w: int, i: int, ink: Ink, travelled: int) -> Seq<Ink> {
    painted(v, w, in_box(spec_track_x(i) - 1, spec_thumb_y(travelled), 14, THUMB_H as int), ink)
}

/// Strip `i`'s rotary needle, from the centre to the offset `tip`.
pub open spec fn needle(v: Seq<Ink>, w: int, i: int, ink: Ink, tip: (i32, i32)) -> Seq<Ink> {
    let cx = spec_centre_x(i);
    painted(v, w, on_line(cx, ROTARY_Y as int, cx + tip.0, ROTARY_Y + tip.1), ink)
}

/// The outline of the transport button in `row` and `col`.
pub open spec fn transport_outline(v: Seq<Ink>, w: int, row: int, col: int, ink: Ink) -> Seq<Ink> {
    painted(
        v,
        w,
        on_frame(spec_button_x(col), spec_row_y(row), BUTTON_W as int, BUTTON_H as int),
        ink,
    )
}

impl Canvas {
    /// Draw strip `i`'s chrome: what is there whether or not anything is
    /// bound to it.
    pub fn strip_chrome(&mut self, i: u8)
        requires
            old(self).wf(),
        ensures
            final(self).wf(),
            final(self).wide() == old(self).wide(),
            final(self).high() == old(self).high(),
            final(self)@ == chrome(old(self)@, old(self).wide(), i as int),
    {
        let x = strip_x(i);
        self.ring(x + STRIP_W / 2, ROTARY_Y, ROTARY_R, Ink::Dim);
        self.frame(x + 2, S_Y, SQUARE, SQUARE, Ink::Dim);
        self.frame(x + 2, M_Y, SQUARE, SQUARE, Ink::Dim);
        self.frame(x + 2, R_Y, SQUARE, SQUARE, Ink::Dim);
        self.frame(track_x(i), S_Y, 12, R_Y + SQUARE - S_Y, Ink::Dim);
    }

    /// Draw strip `i`'s thumb `travelled` rows up its track.
    pub fn thumb(&mut self, i: u8, ink: Ink, travelled: i32)
        requires
            old(self).wf(),
            0 <= travelled <= THUMB_TRAVEL,
        ensures
            final(self).wf(),
            final(self).wide() == old(self).wide(),
            final(self).high() == old(self).high(),
            final(self)@ == thumb(old(self)@, old(self).wide(), i as int, ink, travelled as int),
    {
        self.fill(track_x(i) - 1, thumb_y(travelled), 14, THUMB_H, ink);
    }

    /// Draw strip `i`'s needle from the rotary's centre to the offset `tip`.
    pub fn needle(&mut self, i: u8, ink: Ink, tip: (i32, i32))
        requires
            old(self).wf(),
            -NEEDLE <= tip.0 <= NEEDLE,
            -NEEDLE <= tip.1 <= NEEDLE,
        ensures
            final(self).wf(),
            final(self).wide() == old(self).wide(),
            final(self).high() == old(self).high(),
            final(self)@ == needle(old(self)@, old(self).wide(), i as int, ink, tip),
    {
        let cx = strip_x(i) + STRIP_W / 2;
        self.line((cx, ROTARY_Y), (cx + tip.0, ROTARY_Y + tip.1), ink);
    }

    /// Outline the transport button in `row` and `col`.
    pub fn transport_button(&mut self, row: u8, col: u8, ink: Ink)
        requires
            old(self).wf(),
            row < 3,
        ensures
            final(self).wf(),
            final(self).wide() == old(self).wide(),
            final(self).high() == old(self).high(),
            final(self)@ == transport_outline(old(self)@, old(self).wide(), row as int, col as int, ink),
    {
        self.frame(button_x(col), row_y(row), BUTTON_W, BUTTON_H, ink);
    }
}



/// The name the silkscreen prints over group `g`.
pub open spec fn group_name(g: Group) -> Seq<char> {
    match g {
        Group::Track => "TRACK"@,
        Group::Marker => "MARKER"@,
    }
}

/// The columns the transport buttons of group `g` in `table` span, lowest
/// and highest, and the row of the first of them.
pub open spec fn group_span(table: Seq<TransportButton>, g: Group) -> Option<(u8, u8, u8)>
    decreases table.len(),
{
    if table.len() == 0 {
        None
    } else {
        let t = table[0];
        let rest = group_span(table.drop_first(), g);
        if t.group == Some(g) {
            match rest {
                None => Some((t.col, t.col, t.row)),
                Some((lo, hi, _)) => Some(
                    (if t.col < lo { t.col } else { lo }, if t.col > hi { t.col } else { hi }, t.row),
                ),
            }
        } else {
            rest
        }
    }
}

/// Group `g`'s name over the middle of the buttons it spans.
pub open spec fn labelled(v: Seq<Ink>, w: int, g: Group) -> Seq<Ink> {
    match group_span(transport_table(), g) {
        None => v,
        Some((lo, hi, row)) => painted(
            v,
            w,
            centred(
                (spec_button_x(lo as int) + spec_button_x(hi as int) + BUTTON_W) / 2,
                spec_row_y(row as int) - GROUP_LIFT,
                group_name(g),
                w,
            ),
            Ink::Dim,
        ),
    }
}

/// The silkscreen's group names, in the order the transport strip meets
/// them.
pub open spec fn group_labels(v: Seq<Ink>, w: int) -> Seq<Ink> {
    labelled(labelled(v, w, Group::Track), w, Group::Marker)
}

/// What one knob reads, as the overlay shows it. Working these out from
/// the knob's value is the caller's: they rest on the value's fraction of
/// the knob's travel.
pub struct Reading {
    /// The knob's value as text, under its caption.
    pub value: String,
    /// How many rows up its track a fader's thumb stands, from 0 at the
    /// bottom to [`THUMB_TRAVEL`] at the top.
    pub thumb: i32,
    /// Where a rotary's needle points, as an offset from the rotary's
    /// centre: across, and down.
    pub needle_x: i32,
    pub needle_y: i32,
}

/// Everything the overlay shows that can change: every knob's reading, in
/// the order [`Knob::ALL`] lists them, and the lamps that are lit.
pub struct Readout {
    pub knobs: Vec<Reading>,
    pub lamps: u128,
}

/// Whether a reading can be drawn: its thumb on its track, its needle
/// inside its ring, and its text short enough to be measured.
pub open spec fn readable(r: Reading) -> bool {
    &&& 0 <= r.thumb <= THUMB_TRAVEL
    &&& -NEEDLE <= r.needle_x <= NEEDLE
    &&& -NEEDLE <= r.needle_y <= NEEDLE
    &&& r.value@.len() * 8 <= i32::MAX
}

impl Readout {
    /// A reading for every knob, each of them drawable.
    pub open spec fn wf(self) -> bool {
        &&& self.knobs@.len() == 11
        &&& forall|k: int| 0 <= k < 11 ==> readable(#[trigger] self.knobs@[k])
    }

    /// What `knob` reads.
    pub open spec fn reading(self, knob: Knob) -> Reading {
        self.knobs@[knob.spec_index() as int]
    }

    /// Whether the lamp of control `cc` is lit.
    pub open spec fn spec_lit(self, cc: u8) -> bool {
        has_lamp(self.lamps, cc)
    }

    pub fn reads(&self, knob: Knob) -> (text: String)
        requires
            self.wf(),
        ensures
            text@ == self.reading(knob).value@,
    {
        self.knobs[knob.index()].value.clone()
    }

    pub fn lit(&self, cc: u8) -> (lit: bool)
        requires
            cc < 128,
        ensures
            lit == self.spec_lit(cc),
    {
        (self.lamps >> cc) & 1u128 == 1u128
    }
}

/// What a control on the surface is bound to: a knob it turns, or a
/// command captioned by its words.
pub enum Control {
    Knob(Knob),
    Button(String),
}

/// A fader or a rotary turning `knob`, drawn lit with its caption and its
/// reading.
pub open spec fn placed_knob(v: Seq<Ink>, w: int, cc: u8, knob: Knob, readout: Readout) -> Seq<Ink> {
    let r = readout.reading(knob);
    match spot_at(cc) {
        Some(Spot::Fader(i)) => {
            let cx = spec_centre_x(i as int);
            let track = painted(
                v,
                w,
                on_frame(spec_track_x(i as int), S_Y as int, 12, R_Y + SQUARE - S_Y),
                Ink::Lit,
            );
            let thumbed = thumb(track, w, i as int, Ink::Lit, r.thumb as int);
            let named = painted(
                thumbed,
                w,
                centred(cx, FADER_CAPTION_Y as int, knob.spec_name(), w),
                Ink::Lit,
            );
            painted(named, w, centred(cx, FADER_VALUE_Y as int, r.value@, w), Ink::Lit)
        },
        Some(Spot::Rotary(i)) => {
            let cx = spec_centre_x(i as int);
            let ring = painted(v, w, on_ring(cx, ROTARY_Y as int, ROTARY_R as int), Ink::Lit);
            let pointed = needle(ring, w, i as int, Ink::Lit, (r.needle_x, r.needle_y));
            let named = painted(
                pointed,
                w,
                centred(cx, ROTARY_CAPTION_Y as int, knob.spec_name(), w),
                Ink::Lit,
            );
            painted(named, w, centred(cx, ROTARY_VALUE_Y as int, r.value@, w), Ink::Lit)
        },
        _ => v,
    }
}

/// A select button of strip `i` in `row`, filled when its lamp is lit and
/// outlined when not, with its caption beside it as far as the fader track.
pub open spec fn beside(v: Seq<Ink>, w: int, i: int, row: int, label: Seq<char>, lit: bool) -> Seq<
    Ink,
> {
    let x = spec_strip_x(i);
    let y = spec_row_y(row);
    let button = if lit {
        painted(v, w, in_box(x + 2, y, SQUARE as int, SQUARE as int), Ink::Lit)
    } else {
        painted(v, w, on_frame(x + 2, y, SQUARE as int, SQUARE as int), Ink::Lit)
    };
    painted(button, w, in_text(x + SQUARE + 4, y + 3, label, spec_track_x(i) - 1), Ink::Lit)
}

/// A button on control `cc`, captioned `label`: a select button beside its
/// strip, or a transport key, filled when its lamp is lit with the caption
/// cut out of it.
pub open spec fn placed_button(v: Seq<Ink>, w: int, cc: u8, label: Seq<char>, lit: bool) -> Seq<
    Ink,
> {
    match spot_at(cc) {
        Some(Spot::S(i)) => beside(v, w, i as int, 0, label, lit),
        Some(Spot::M(i)) => beside(v, w, i as int, 1, label, lit),
        Some(Spot::R(i)) => beside(v, w, i as int, 2, label, lit),
        Some(Spot::Transport(t)) => {
            let x = spec_button_x(t.col as int);
            let y = spec_row_y(t.row as int);
            let caption = in_text(x + 2, y + 4, label, x + BUTTON_W - 1);
            if lit {
                painted(
                    painted(v, w, in_box(x, y, BUTTON_W as int, BUTTON_H as int), Ink::Lit),
                    w,
                    caption,
                    Ink::Back,
                )
            } else {
                painted(
                    transport_outline(v, w, t.row as int, t.col as int, Ink::Lit),
                    w,
                    caption,
                    Ink::Lit,
                )
            }
        },
        _ => v,
    }
}

/// Whether `control` can sit on control number `cc`: a knob on a fader or
/// a rotary, a button on a button.
pub open spec fn fits(cc: u8, control: Control) -> bool {
    match (spot_at(cc), control) {
        (Some(Spot::Fader(_)), Control::Knob(_)) => true,
        (Some(Spot::Rotary(_)), Control::Knob(_)) => true,
        (Some(Spot::S(_)), Control::Button(_)) => true,
        (Some(Spot::M(_)), Control::Button(_)) => true,
        (Some(Spot::R(_)), Control::Button(_)) => true,
        (Some(Spot::Transport(_)), Control::Button(_)) => true,
        _ => false,
    }
}

/// The rows of the transport strip are the three select rows.
proof fn lemma_transport_rows(cc: u8)
    ensures
        spot_at(cc) matches Some(Spot::Transport(t)) ==> t.row < 3 && t.col < 5,
{
    reveal_with_fuel(crate::midi::transport_in, 12);
}

impl Canvas {
    /// Draw the silkscreen's group names over the transport strip, each
    /// centred over the buttons it groups.
    pub fn group_labels(&mut self)
        requires
            old(self).wf(),
        ensures
            final(self).wf(),
            final(self).wide() == old(self).wide(),
            final(self).high() == old(self).high(),
            final(self)@ == group_labels(old(self)@, old(self).wide()),
    {
        self.label(Group::Track);
        self.label(Group::Marker);
    }

    fn label(&mut self, g: Group)
        requires
            old(self).wf(),
        ensures
            final(self).wf(),
            final(self).wide() == old(self).wide(),
            final(self).high() == old(self).high(),
            final(self)@ == labelled(old(self)@, old(self).wide(), g),
    {
        let strip = transport();
        let mut span: Option<(u8, u8, u8)> = None;
        let mut i: usize = strip.len();
        assert(transport_table().skip(11) =~= Seq::<TransportButton>::empty());
        while i > 0
            invariant
                strip@ == transport_table(),
                i <= strip@.len(),
                span == group_span(transport_table().skip(i as int), g),
            decreases i,
        {
            i = i - 1;
            let t = strip[i];
            assert(transport_table().skip(i as int).drop_first() =~= transport_table().skip(
                i + 1,
            ));
            assert(transport_table().skip(i as int)[0] == t);
            if t.group == Some(g) {
                span = match span {
                    None => Some((t.col, t.col, t.row)),
                    Some((lo, hi, _)) => Some(
                        (
                            if t.col < lo {
                                t.col
                            } else {
                                lo
                            },
                            if t.col > hi {
                                t.col
                            } else {
                                hi
                            },
                            t.row,
                        ),
                    ),
                };
            }
        }
        assert(transport_table().skip(0) =~= transport_table());
        proof {
            reveal_with_fuel(group_span, 12);
        }
        match span {
            None => {},
            Some((lo, hi, row)) => {
                assert(row < 3 && lo < 5 && hi < 5);
                let name = g.name();
                proof {
                    reveal_strlit("TRACK");
                    reveal_strlit("MARKER");
                }
                assert(name@ == group_name(g));
                self.text_centred(
                    (button_x(lo) + button_x(hi) + BUTTON_W) / 2,
                    row_y(row) - GROUP_LIFT,
                    name,
                    Ink::Dim,
                );
            },
        }
    }
}



/// Whether control `cc` is a fader or a rotary.
pub open spec fn on_a_strip(cc: u8) -> bool {
    spot_at(cc) matches Some(Spot::Fader(_)) || spot_at(cc) matches Some(Spot::Rotary(_))
}

/// Whether control `cc` is a select button or a transport key.
pub open spec fn on_a_button(cc: u8) -> bool {
    ||| spot_at(cc) matches Some(Spot::S(_))
    ||| spot_at(cc) matches Some(Spot::M(_))
    ||| spot_at(cc) matches Some(Spot::R(_))
    ||| spot_at(cc) matches Some(Spot::Transport(_))
}

/// Every knob the map binds sits on a fader or a rotary, and every command
/// on a button.
pub proof fn lemma_every_control_fits()
    ensures
        forall|j: int| 0 <= j < 11 ==> on_a_strip(#[trigger] fader_table()[j].cc),
        forall|j: int| 0 <= j < 29 ==> on_a_button(#[trigger] button_table()[j].cc),
{
    reveal_with_fuel(crate::midi::transport_in, 12);
    assert(on_a_strip(fader_table()[0].cc));
    assert(on_a_strip(fader_table()[1].cc));
    assert(on_a_strip(fader_table()[2].cc));
    assert(on_a_strip(fader_table()[3].cc));
    assert(on_a_strip(fader_table()[4].cc));
    assert(on_a_strip(fader_table()[5].cc));
    assert(on_a_strip(fader_table()[6].cc));
    assert(on_a_strip(fader_table()[7].cc));
    assert(on_a_strip(fader_table()[8].cc));
    assert(on_a_strip(fader_table()[9].cc));
    assert(on_a_strip(fader_table()[10].cc));
    assert(on_a_button(button_table()[0].cc));
    assert(on_a_button(button_table()[1].cc));
    assert(on_a_button(button_table()[2].cc));
    assert(on_a_button(button_table()[3].cc));
    assert(on_a_button(button_table()[4].cc));
    assert(on_a_button(button_table()[5].cc));
    assert(on_a_button(button_table()[6].cc));
    assert(on_a_button(button_table()[7].cc));
    assert(on_a_button(button_table()[8].cc));
    assert(on_a_button(button_table()[9].cc));
    assert(on_a_button(button_table()[10].cc));
    assert(on_a_button(button_table()[11].cc));
    assert(on_a_button(button_table()[12].cc));
    assert(on_a_button(button_table()[13].cc));
    assert(on_a_button(button_table()[14].cc));
    assert(on_a_button(button_table()[15].cc));
    assert(on_a_button(button_table()[16].cc));
    assert(on_a_button(button_table()[17].cc));
    assert(on_a_button(button_table()[18].cc));
    assert(on_a_button(button_table()[19].cc));
    assert(on_a_button(button_table()[20].cc));
    assert(on_a_button(button_table()[21].cc));
    assert(on_a_button(button_table()[22].cc));
    assert(on_a_button(button_table()[23].cc));
    assert(on_a_button(button_table()[24].cc));
    assert(on_a_button(button_table()[25].cc));
    assert(on_a_button(button_table()[26].cc));
    assert(on_a_button(button_table()[27].cc));
    assert(on_a_button(button_table()[28].cc));
}

/// The knobs' names are short.
proof fn lemma_knob_name(knob: Knob)
    ensures
        knob.spec_name().len() <= 11,
{
    reveal_strlit("zoom");
    reveal_strlit("rotation");
    reveal_strlit("delay");
    reveal_strlit("hue");
    reveal_strlit("saturation");
    reveal_strlit("brightness");
    reveal_strlit("contrast");
    reveal_strlit("temperature");
    reveal_strlit("sharpness");
    reveal_strlit("switcher");
    reveal_strlit("period");
}

impl Canvas {
    /// Draw the fader or the rotary on control `cc` as bound to `knob`: lit,
    /// with its caption and its reading under it.
    pub fn place_knob(&mut self, cc: u8, knob: Knob, readout: &Readout)
        requires
            old(self).wf(),
            readout.wf(),
            on_a_strip(cc),
        ensures
            final(self).wf(),
            final(self).wide() == old(self).wide(),
            final(self).high() == old(self).high(),
            final(self)@ == placed_knob(old(self)@, old(self).wide(), cc, knob, *readout),
    {
        let k = knob.index();
        let r = &readout.knobs[k];
        assert(readable(readout.knobs@[k as int]));
        proof {
            lemma_knob_name(knob);
        }
        match spot(cc) {
            Some(Spot::Fader(i)) => {
                let cx = strip_x(i) + STRIP_W / 2;
                self.frame(track_x(i), S_Y, 12, R_Y + SQUARE - S_Y, Ink::Lit);
                self.thumb(i, Ink::Lit, r.thumb);
                self.text_centred(cx, FADER_CAPTION_Y, knob.name(), Ink::Lit);
                self.text_centred(cx, FADER_VALUE_Y, r.value.as_str(), Ink::Lit);
            },
            Some(Spot::Rotary(i)) => {
                let cx = strip_x(i) + STRIP_W / 2;
                self.ring(cx, ROTARY_Y, ROTARY_R, Ink::Lit);
                self.needle(i, Ink::Lit, (r.needle_x, r.needle_y));
                self.text_centred(cx, ROTARY_CAPTION_Y, knob.name(), Ink::Lit);
                self.text_centred(cx, ROTARY_VALUE_Y, r.value.as_str(), Ink::Lit);
            },
            _ => {},
        }
    }

    /// Draw the button on control `cc` as bound to a command captioned
    /// `label`: filled if its lamp is lit, outlined if not, with the caption
    /// beside a select button or inside a transport key.
    pub fn place_button(&mut self, cc: u8, label: &str, readout: &Readout)
        requires
            old(self).wf(),
            on_a_button(cc),
            cc < 128,
        ensures
            final(self).wf(),
            final(self).wide() == old(self).wide(),
            final(self).high() == old(self).high(),
            final(self)@ == placed_button(
                old(self)@,
                old(self).wide(),
                cc,
                label@,
                readout.spec_lit(cc),
            ),
    {
        let lit = readout.lit(cc);
        proof {
            lemma_transport_rows(cc);
        }
        match spot(cc) {
            Some(Spot::S(i)) => self.beside(i, 0, label, lit),
            Some(Spot::M(i)) => self.beside(i, 1, label, lit),
            Some(Spot::R(i)) => self.beside(i, 2, label, lit),
            Some(Spot::Transport(t)) => {
                let x = button_x(t.col);
                let y = row_y(t.row);
                if lit {
                    self.fill(x, y, BUTTON_W, BUTTON_H, Ink::Lit);
                    self.text(x + 2, y + 4, label, x + BUTTON_W - 1, Ink::Back);
                } else {
                    self.transport_button(t.row, t.col, Ink::Lit);
                    self.text(x + 2, y + 4, label, x + BUTTON_W - 1, Ink::Lit);
                }
            },
            _ => {},
        }
    }

    fn beside(&mut self, i: u8, row: u8, label: &str, lit: bool)
        requires
            old(self).wf(),
            row < 3,
        ensures
            final(self).wf(),
            final(self).wide() == old(self).wide(),
            final(self).high() == old(self).high(),
            final(self)@ == beside(old(self)@, old(self).wide(), i as int, row as int, label@, lit),
    {
        let x = strip_x(i);
        let y = row_y(row);
        if lit {
            self.fill(x + 2, y, SQUARE, SQUARE, Ink::Lit);
        } else {
            self.frame(x + 2, y, SQUARE, SQUARE, Ink::Lit);
        }
        self.text(x + SQUARE + 4, y + 3, label, track_x(i) - 1, Ink::Lit);
    }

    /// Draw `control` where control `cc` sits on the surface.
    pub fn place(&mut self, cc: u8, control: &Control, readout: &Readout)
        requires
            old(self).wf(),
            readout.wf(),
            cc < 128,
            fits(cc, *control),
        ensures
            final(self).wf(),
            final(self).wide() == old(self).wide(),
            final(self).high() == old(self).high(),
            final(self)@ == (match *control {
                Control::Knob(knob) => placed_knob(old(self)@, old(self).wide(), cc, knob, *readout),
                Control::Button(label) => placed_button(
                    old(self)@,
                    old(self).wide(),
                    cc,
                    label@,
                    readout.spec_lit(cc),
                ),
            }),
    {
        match control {
            Control::Knob(knob) => self.place_knob(cc, *knob, readout),
            Control::Button(label) => self.place_button(cc, label.as_str(), readout),
        }
    }
}

/// Whether `control` is a button captioned `label`.
pub open spec fn captioned(control: Control, label: Seq<char>) -> bool {
    match control {
        Control::Button(words) => words@ == label,
        Control::Knob(_) => false,
    }
}

/// Every bound control, faders first and then buttons, each with what it is
/// bound to: a fader its knob, a button its command's caption.
pub fn controls() -> (controls: Vec<(u8, Control)>)
    ensures
        controls@.len() == 40,
        forall|j: int|
            0 <= j < 11 ==> #[trigger] controls@[j] == (
                fader_table()[j].cc,
                Control::Knob(fader_table()[j].knob),
            ),
        forall|j: int|
            0 <= j < 29 ==> (#[trigger] controls@[11 + j]).0 == button_table()[j].cc && captioned(
                controls@[11 + j].1,
                button_table()[j].action.spec_caption(),
            ),
{
    let knobs = faders();
    let presses = buttons();
    let mut controls: Vec<(u8, Control)> = Vec::new();
    let mut i: usize = 0;
    while i < knobs.len()
        invariant
            knobs@ == fader_table(),
            i <= 11,
            controls@.len() == i,
            forall|j: int|
                0 <= j < i ==> #[trigger] controls@[j] == (
                    fader_table()[j].cc,
                    Control::Knob(fader_table()[j].knob),
                ),
        decreases 11 - i,
    {
        controls.push((knobs[i].cc, Control::Knob(knobs[i].knob)));
        i = i + 1;
    }
    let mut i: usize = 0;
    while i < presses.len()
        invariant
            presses@ == button_table(),
            i <= 29,
            controls@.len() == 11 + i,
            forall|j: int|
                0 <= j < 11 ==> #[trigger] controls@[j] == (
                    fader_table()[j].cc,
                    Control::Knob(fader_table()[j].knob),
                ),
            forall|j: int|
                0 <= j < i ==> (#[trigger] controls@[11 + j]).0 == button_table()[j].cc && captioned(
                    controls@[11 + j].1,
                    button_table()[j].action.spec_caption(),
                ),
        decreases 29 - i,
    {
        let b = presses[i];
        assert(b.action matches Action::Focus(_, index) ==> index < 5);
        controls.push((b.cc, Control::Button(b.action.caption())));
        i = i + 1;
    }
    controls
}



/// Where a thumb stands on a fader that turns nothing: half its travel,
/// rounded up as a reading's thumb is.
pub const RESTING_THUMB: i32 = 23;

/// The dead indicators of the first `n` strips: a dim thumb at half travel
/// on a fader that turns no knob, and a dim upright needle on a rotary that
/// turns none, so the picture says which controls are spare.
pub open spec fn dead_upto(v: Seq<Ink>, w: int, n: int) -> Seq<Ink>
    decreases n,
{
    if n <= 0 {
        v
    } else {
        let i = n - 1;
        let before = dead_upto(v, w, i);
        let thumbed = if knob_on((FADER_ROW + i) as u8) is None {
            thumb(before, w, i, Ink::Dim, RESTING_THUMB as int)
        } else {
            before
        };
        if knob_on((ROTARY_ROW + i) as u8) is None {
            needle(thumbed, w, i, Ink::Dim, (0i32, (-NEEDLE) as i32))
        } else {
            thumbed
        }
    }
}

/// The chrome of the first `n` strips.
pub open spec fn chromed(v: Seq<Ink>, w: int, n: int) -> Seq<Ink>
    decreases n,
{
    if n <= 0 {
        v
    } else {
        chrome(chromed(v, w, n - 1), w, n - 1)
    }
}

/// The dim outlines of the first `n` keys of the transport strip.
pub open spec fn outlined(v: Seq<Ink>, w: int, n: int) -> Seq<Ink>
    decreases n,
{
    if n <= 0 {
        v
    } else {
        let t = transport_table()[n - 1];
        transport_outline(outlined(v, w, n - 1), w, t.row as int, t.col as int, Ink::Dim)
    }
}

/// The first `n` faders and rotaries of the map, drawn as bound.
pub open spec fn knobs_placed(v: Seq<Ink>, w: int, n: int, readout: Readout) -> Seq<Ink>
    decreases n,
{
    if n <= 0 {
        v
    } else {
        let f = fader_table()[n - 1];
        placed_knob(knobs_placed(v, w, n - 1, readout), w, f.cc, f.knob, readout)
    }
}

/// The first `n` buttons of the map, drawn as bound.
pub open spec fn buttons_placed(v: Seq<Ink>, w: int, n: int, readout: Readout) -> Seq<Ink>
    decreases n,
{
    if n <= 0 {
        v
    } else {
        let b = button_table()[n - 1];
        placed_button(
            buttons_placed(v, w, n - 1, readout),
            w,
            b.cc,
            b.action.spec_caption(),
            readout.spec_lit(b.cc),
        )
    }
}

/// A bare `w` by `h` ground.
pub open spec fn ground(w: int, h: int) -> Seq<Ink> {
    Seq::new((w * h) as nat, |i: int| Ink::Back)
}

/// The whole panel for `readout`, in the order it is drawn: every strip's
/// chrome, the spare controls' indicators, the transport's outlines and the
/// silkscreen's group names, then every bound control over them.
pub open spec fn panel(readout: Readout) -> Seq<Ink> {
    let w = PANEL_W as int;
    let chrome = chromed(ground(w, PANEL_H as int), w, STRIPS as int);
    let dead = dead_upto(chrome, w, STRIPS as int);
    let keys = group_labels(outlined(dead, w, 11), w);
    buttons_placed(knobs_placed(keys, w, 11, readout), w, 29, readout)
}

impl Canvas {
    /// Draw the spare controls' indicators: a dim thumb at half travel on
    /// every fader that turns no knob, and a dim upright needle on every
    /// rotary that turns none.
    pub fn dead_indicators(&mut self)
        requires
            old(self).wf(),
        ensures
            final(self).wf(),
            final(self).wide() == old(self).wide(),
            final(self).high() == old(self).high(),
            final(self)@ == dead_upto(old(self)@, old(self).wide(), STRIPS as int),
    {
        let ghost start = self@;
        let mut i: u8 = 0;
        while i < STRIPS
            invariant
                self.wf(),
                self.wide() == old(self).wide(),
                self.high() == old(self).high(),
                i <= STRIPS,
                self@ == dead_upto(start, old(self).wide(), i as int),
            decreases STRIPS - i,
        {
            if crate::midi::fader_of(FADER_ROW + i).is_none() {
                self.thumb(i, Ink::Dim, RESTING_THUMB);
            }
            if crate::midi::fader_of(ROTARY_ROW + i).is_none() {
                self.needle(i, Ink::Dim, (0, -NEEDLE));
            }
            i = i + 1;
        }
    }
}

/// The overlay's picture of the surface for `readout`.
pub fn rasterize(readout: &Readout) -> (canvas: Canvas)
    requires
        readout.wf(),
    ensures
        canvas.wf(),
        canvas.wide() == PANEL_W,
        canvas.high() == PANEL_H,
        canvas@ == panel(*readout),
{
    let ghost w = PANEL_W as int;
    let mut c = Canvas::new(PANEL_W, PANEL_H);
    let ghost blank = c@;
    assert(blank == ground(w, PANEL_H as int));
    let mut i: u8 = 0;
    while i < STRIPS
        invariant
            c.wf(),
            c.wide() == PANEL_W,
            c.high() == PANEL_H,
            w == PANEL_W as int,
            i <= STRIPS,
            c@ == chromed(blank, w, i as int),
        decreases STRIPS - i,
    {
        c.strip_chrome(i);
        i = i + 1;
    }
    c.dead_indicators();
    let ghost dead = c@;
    let strip = transport();
    let mut k: usize = 0;
    while k < strip.len()
        invariant
            c.wf(),
            c.wide() == PANEL_W,
            c.high() == PANEL_H,
            w == PANEL_W as int,
            strip@ == transport_table(),
            k <= 11,
            c@ == outlined(dead, w, k as int),
        decreases 11 - k,
    {
        let t = strip[k];
        proof {
            reveal_with_fuel(crate::midi::transport_in, 12);
            assert(transport_table()[k as int].row < 3);
        }
        c.transport_button(t.row, t.col, Ink::Dim);
        k = k + 1;
    }
    c.group_labels();
    let ghost keys = c@;
    let all = controls();
    proof {
        lemma_every_control_fits();
    }
    let mut k: usize = 0;
    while k < all.len()
        invariant
            c.wf(),
            c.wide() == PANEL_W,
            c.high() == PANEL_H,
            w == PANEL_W as int,
            readout.wf(),
            all@.len() == 40,
            forall|j: int|
                0 <= j < 11 ==> #[trigger] all@[j] == (
                    fader_table()[j].cc,
                    Control::Knob(fader_table()[j].knob),
                ),
            forall|j: int|
                0 <= j < 29 ==> (#[trigger] all@[11 + j]).0 == button_table()[j].cc && captioned(
                    all@[11 + j].1,
                    button_table()[j].action.spec_caption(),
                ),
            forall|j: int| 0 <= j < 11 ==> on_a_strip(#[trigger] fader_table()[j].cc),
            forall|j: int| 0 <= j < 29 ==> on_a_button(#[trigger] button_table()[j].cc),
            k <= 40,
            c@ == (if k <= 11 {
                knobs_placed(keys, w, k as int, *readout)
            } else {
                buttons_placed(knobs_placed(keys, w, 11, *readout), w, k - 11, *readout)
            }),
        decreases 40 - k,
    {
        let cc = all[k].0;
        proof {
            if k < 11 {
                assert(all@[k as int] == (fader_table()[k as int].cc, Control::Knob(fader_table()[k as int].knob)));
                assert(fader_table()[k as int].cc < 128);
            } else {
                let j = k - 11;
                assert(all@[11 + j].0 == button_table()[j].cc);
                assert(button_table()[j].cc < 128);
                assert(captioned(all@[11 + j].1, button_table()[j].action.spec_caption()));
            }
        }
        let ghost before = c@;
        c.place(cc, &all[k].1, readout);
        proof {
            if k < 11 {
                let f = fader_table()[k as int];
                assert(knobs_placed(keys, w, k + 1, *readout) == placed_knob(
                    knobs_placed(keys, w, k as int, *readout),
                    w,
                    f.cc,
                    f.knob,
                    *readout,
                ));
            } else {
                let base = knobs_placed(keys, w, 11, *readout);
                assert(buttons_placed(base, w, 0, *readout) == base);
                let b = button_table()[k - 11];
                assert(buttons_placed(base, w, k - 10, *readout) == placed_button(
                    buttons_placed(base, w, k - 11, *readout),
                    w,
                    b.cc,
                    b.action.spec_caption(),
                    readout.spec_lit(b.cc),
                ));
            }
        }
        k = k + 1;
    }
    c
}



/// The height of the sources legend: a box for each camera and one for the
/// seed, a gap between each two.
pub const SOURCES_H: i32 = 82;

/// The box of row `row` of the sources legend: its left column, its top
/// row, its width and its height.
pub open spec fn spec_source_box(row: int) -> (int, int, int, int) {
    (0, row * (SOURCE_H + SOURCE_GAP), SOURCE_W as int, SOURCE_H as int)
}

pub fn source_box(row: usize) -> (b: (i32, i32, i32, i32))
    requires
        row * 22 <= i32::MAX,
    ensures
        (b.0 as int, b.1 as int, b.2 as int, b.3 as int) == spec_source_box(row as int),
{
    let step: i32 = SOURCE_H + SOURCE_GAP;
    assert(step == 22);
    assert(row <= 97612893);
    (0, row as i32 * step, SOURCE_W, SOURCE_H)
}

/// What row `row` of the sources legend is called: the cameras by their
/// short name and number, then the seed.
pub open spec fn source_name(row: int) -> Seq<char> {
    if row < spec_count(Node::Camera) {
        Node::Camera.spec_short() + " "@ + decimal((row + 1) as nat)
    } else {
        "seed"@
    }
}

/// The first `n` rows of the sources legend: each source's box outlined,
/// and its name centred in it.
pub open spec fn legend(v: Seq<Ink>, w: int, n: int) -> Seq<Ink>
    decreases n,
{
    if n <= 0 {
        v
    } else {
        let (x, y, bw, bh) = spec_source_box(n - 1);
        let boxed = painted(legend(v, w, n - 1), w, on_frame(x, y, bw, bh), Ink::Lit);
        painted(boxed, w, centred(SOURCE_W / 2, y + 4, source_name(n - 1), w), Ink::Lit)
    }
}

/// The legend of the light's sources, drawn beside the bank: a box for each
/// camera and one for the seed, which the flow arrows start and end on.
pub fn sources() -> (canvas: Canvas)
    ensures
        canvas.wf(),
        canvas.wide() == SOURCE_W,
        canvas.high() == SOURCES_H,
        canvas@ == legend(ground(SOURCE_W as int, SOURCES_H as int), SOURCE_W as int, 4),
{
    let mut c = Canvas::new(SOURCE_W, SOURCES_H);
    let ghost blank = c@;
    let cameras = count(Node::Camera);
    let mut row: usize = 0;
    while row <= cameras
        invariant
            c.wf(),
            c.wide() == SOURCE_W,
            c.high() == SOURCES_H,
            cameras == 3,
            row <= 4,
            c@ == legend(blank, SOURCE_W as int, row as int),
        decreases 4 - row,
    {
        let name: String = if row < cameras {
            let mut name = String::from_str(Node::Camera.short());
            name.append(" ");
            push_decimal(&mut name, row as u64 + 1);
            name
        } else {
            String::from_str("seed")
        };
        proof {
            reveal_strlit(" ");
            reveal_strlit("cam");
            reveal_strlit("seed");
            assert(name@ =~= source_name(row as int));
        }
        let (x, y, w, h) = source_box(row);
        c.frame(x, y, w, h, Ink::Lit);
        c.text_centred(SOURCE_W / 2, y + 4, name.as_str(), Ink::Lit);
        row = row + 1;
    }
    c
}



/// Whether `one` and `other` hold the same texels everywhere but in the
/// columns from `lo` up to `hi`.
pub open spec fn agree_outside(one: Seq<Ink>, other: Seq<Ink>, w: int, lo: int, hi: int) -> bool {
    &&& one.len() == other.len()
    &&& forall|i: int|
        0 <= i < one.len() && (i % w < lo || i % w >= hi) ==> #[trigger] one[i] == other[i]
}

/// Whether `mark` names no texel outside the columns from `lo` up to `hi`.
pub open spec fn within_columns(mark: spec_fn(int, int) -> bool, lo: int, hi: int) -> bool {
    forall|a: int, b: int| #[trigger] mark(a, b) ==> lo <= a < hi
}

/// Painting both in the same way keeps them agreeing.
proof fn lemma_agree_same(
    one: Seq<Ink>,
    other: Seq<Ink>,
    w: int,
    lo: int,
    hi: int,
    mark: spec_fn(int, int) -> bool,
    ink: Ink,
)
    requires
        agree_outside(one, other, w, lo, hi),
    ensures
        agree_outside(painted(one, w, mark, ink), painted(other, w, mark, ink), w, lo, hi),
{
}

/// Painting each with a mark of its own keeps them agreeing, as long as
/// both marks stay inside the columns.
proof fn lemma_agree_inside(
    one: Seq<Ink>,
    other: Seq<Ink>,
    w: int,
    lo: int,
    hi: int,
    mark_one: spec_fn(int, int) -> bool,
    mark_other: spec_fn(int, int) -> bool,
    ink: Ink,
)
    requires
        agree_outside(one, other, w, lo, hi),
        within_columns(mark_one, lo, hi),
        within_columns(mark_other, lo, hi),
    ensures
        agree_outside(painted(one, w, mark_one, ink), painted(other, w, mark_other, ink), w, lo, hi),
{
    assert forall|i: int|
        0 <= i < one.len() && (i % w < lo || i % w >= hi) implies #[trigger] painted(
        one,
        w,
        mark_one,
        ink,
    )[i] == painted(other, w, mark_other, ink)[i] by {
        if mark_one(i % w, i / w) {
            assert(lo <= i % w < hi);
        }
        if mark_other(i % w, i / w) {
            assert(lo <= i % w < hi);
        }
    }
}

/// A step along a line never runs past its end: it is at most as far from
/// the start as the end is, and on the same side.
proof fn lemma_along_between(delta: int, i: int, d: int)
    requires
        0 < d,
        -d <= delta <= d,
        0 <= i <= d,
    ensures
        delta >= 0 ==> 0 <= rounded(delta * i, d) <= delta,
        delta < 0 ==> delta <= rounded(delta * i, d) <= 0,
{
    let n = delta * i;
    if n >= 0 {
        if delta >= 0 {
            assert(2 * n + d < (2 * d) * (delta + 1)) by (nonlinear_arith)
                requires
                    n == delta * i,
                    0 <= delta,
                    0 <= i <= d,
                    0 < d,
            ;
            lemma_multiply_divide_lt(2 * n + d, 2 * d, delta + 1);
        } else {
            assert(n == 0) by (nonlinear_arith)
                requires
                    n == delta * i,
                    n >= 0,
                    delta < 0,
                    0 <= i,
            ;
            assert((2 * n + d) / (2 * d) == 0) by {
                lemma_fundamental_div_mod_converse(d, 2 * d, 0, d);
            }
        }
        lemma_div_pos_is_pos(2 * n + d, 2 * d);
    } else {
        assert(delta < 0) by (nonlinear_arith)
            requires
                n == delta * i,
                n < 0,
                0 <= i,
        ;
        assert(d - 2 * n < (2 * d) * (-delta + 1)) by (nonlinear_arith)
            requires
                n == delta * i,
                delta < 0,
                0 <= i <= d,
                0 < d,
        ;
        lemma_multiply_divide_lt(d - 2 * n, 2 * d, -delta + 1);
        lemma_div_pos_is_pos(d - 2 * n, 2 * d);
    }
}

/// A needle stays inside the box its tip can reach.
proof fn lemma_needle_within(cx: int, cy: int, tx: int, ty: int)
    requires
        -NEEDLE <= tx <= NEEDLE,
        -NEEDLE <= ty <= NEEDLE,
    ensures
        within_columns(on_line(cx, cy, cx + tx, cy + ty), cx - NEEDLE, cx + NEEDLE + 1),
{
    let n = line_steps(cx, cy, cx + tx, cy + ty);
    assert forall|a: int, b: int| #[trigger] on_line(cx, cy, cx + tx, cy + ty)(a, b) implies cx
        - NEEDLE <= a < cx + NEEDLE + 1 by {
        let i = choose|i: int|
            0 <= i < n + 1 && a == #[trigger] along(cx, cx + tx, n, i) && b == along(cy, cy + ty, n, i);
        lemma_along_between(tx, i, n);
    }
}

/// Text centred on `cx` stays inside the columns its whole width would
/// take.
proof fn lemma_centred_within(cx: int, y: int, text: Seq<char>, max_x: int)
    ensures
        within_columns(centred(cx, y, text, max_x), cx - text.len() * 4, cx + text.len() * 4),
{
    let x = cx - text.len() * 4;
    assert forall|a: int, b: int| #[trigger] centred(cx, y, text, max_x)(a, b) implies x <= a < cx
        + text.len() * 4 by {
        let count = fitting(x, text.len() as int, max_x);
        let j = choose|j: int| 0 <= j < count && #[trigger] stamped(x + 8 * j, y, text[j])(a, b);
    }
}



/// The strip whose fader or rotary turns `knob`.
pub open spec fn strip_of(knob: Knob) -> int {
    match knob {
        Knob::Zoom => 0,
        Knob::Rotation => 1,
        Knob::Delay => 2,
        Knob::Hue => 0,
        Knob::Saturation => 1,
        Knob::Brightness => 2,
        Knob::Contrast => 3,
        Knob::Temperature => 4,
        Knob::Sharpness => 5,
        Knob::Period => 6,
        Knob::Switcher => 7,
    }
}

/// Every fader of the map stands on the strip of the knob it turns.
proof fn lemma_on_its_strip(j: int)
    requires
        0 <= j < 11,
    ensures
        spot_at(fader_table()[j].cc) matches Some(Spot::Fader(s)) ==> s == strip_of(
            fader_table()[j].knob,
        ),
        spot_at(fader_table()[j].cc) matches Some(Spot::Rotary(s)) ==> s == strip_of(
            fader_table()[j].knob,
        ),
        spot_at(fader_table()[j].cc) matches Some(Spot::Fader(_)) || spot_at(
            fader_table()[j].cc,
        ) matches Some(Spot::Rotary(_)),
{
}

proof fn lemma_within_wider(mark: spec_fn(int, int) -> bool, lo: int, hi: int, wider_lo: int, wider_hi: int)
    requires
        within_columns(mark, lo, hi),
        wider_lo <= lo,
        hi <= wider_hi,
    ensures
        within_columns(mark, wider_lo, wider_hi),
{
    assert forall|a: int, b: int| #[trigger] mark(a, b) implies wider_lo <= a < wider_hi by {
        assert(lo <= a < hi);
    }
}

/// A control drawn the same way on both keeps them agreeing.
proof fn lemma_knob_agree_same(
    one: Seq<Ink>,
    other: Seq<Ink>,
    w: int,
    lo: int,
    hi: int,
    cc: u8,
    knob: Knob,
    r_one: Readout,
    r_other: Readout,
)
    requires
        agree_outside(one, other, w, lo, hi),
        r_one.reading(knob) == r_other.reading(knob),
    ensures
        agree_outside(
            placed_knob(one, w, cc, knob, r_one),
            placed_knob(other, w, cc, knob, r_other),
            w,
            lo,
            hi,
        ),
{
    let r = r_one.reading(knob);
    match spot_at(cc) {
        Some(Spot::Fader(i)) => {
            let cx = spec_centre_x(i as int);
            let track = on_frame(spec_track_x(i as int), S_Y as int, 12, R_Y + SQUARE - S_Y);
            lemma_agree_same(one, other, w, lo, hi, track, Ink::Lit);
            let (a1, a2) = (painted(one, w, track, Ink::Lit), painted(other, w, track, Ink::Lit));
            let knob_box = in_box(
                spec_track_x(i as int) - 1,
                spec_thumb_y(r.thumb as int),
                14,
                THUMB_H as int,
            );
            lemma_agree_same(a1, a2, w, lo, hi, knob_box, Ink::Lit);
            let (b1, b2) = (painted(a1, w, knob_box, Ink::Lit), painted(a2, w, knob_box, Ink::Lit));
            let name = centred(cx, FADER_CAPTION_Y as int, knob.spec_name(), w);
            lemma_agree_same(b1, b2, w, lo, hi, name, Ink::Lit);
            let (c1, c2) = (painted(b1, w, name, Ink::Lit), painted(b2, w, name, Ink::Lit));
            lemma_agree_same(
                c1,
                c2,
                w,
                lo,
                hi,
                centred(cx, FADER_VALUE_Y as int, r.value@, w),
                Ink::Lit,
            );
        },
        Some(Spot::Rotary(i)) => {
            let cx = spec_centre_x(i as int);
            let ring = on_ring(cx, ROTARY_Y as int, ROTARY_R as int);
            lemma_agree_same(one, other, w, lo, hi, ring, Ink::Lit);
            let (a1, a2) = (painted(one, w, ring, Ink::Lit), painted(other, w, ring, Ink::Lit));
            let line = on_line(
                cx,
                ROTARY_Y as int,
                cx + r.needle_x,
                ROTARY_Y + r.needle_y,
            );
            lemma_agree_same(a1, a2, w, lo, hi, line, Ink::Lit);
            let (b1, b2) = (painted(a1, w, line, Ink::Lit), painted(a2, w, line, Ink::Lit));
            let name = centred(cx, ROTARY_CAPTION_Y as int, knob.spec_name(), w);
            lemma_agree_same(b1, b2, w, lo, hi, name, Ink::Lit);
            let (c1, c2) = (painted(b1, w, name, Ink::Lit), painted(b2, w, name, Ink::Lit));
            lemma_agree_same(
                c1,
                c2,
                w,
                lo,
                hi,
                centred(cx, ROTARY_VALUE_Y as int, r.value@, w),
                Ink::Lit,
            );
        },
        _ => {},
    }
}

/// The control that turns `knob`, drawn off two readings of it, keeps
/// them agreeing outside its own strip.
proof fn lemma_knob_agree_on_its_strip(
    one: Seq<Ink>,
    other: Seq<Ink>,
    w: int,
    cc: u8,
    knob: Knob,
    r_one: Readout,
    r_other: Readout,
)
    requires
        r_one.wf(),
        r_other.wf(),
        r_one.reading(knob).value@.len() <= 10,
        r_other.reading(knob).value@.len() <= 10,
        spot_at(cc) matches Some(Spot::Fader(s)) ==> s == strip_of(knob),
        spot_at(cc) matches Some(Spot::Rotary(s)) ==> s == strip_of(knob),
        agree_outside(
            one,
            other,
            w,
            spec_strip_x(strip_of(knob)),
            spec_strip_x(strip_of(knob)) + STRIP_W,
        ),
    ensures
        agree_outside(
            placed_knob(one, w, cc, knob, r_one),
            placed_knob(other, w, cc, knob, r_other),
            w,
            spec_strip_x(strip_of(knob)),
            spec_strip_x(strip_of(knob)) + STRIP_W,
        ),
{
    let lo = spec_strip_x(strip_of(knob));
    let hi = lo + STRIP_W;
    let (r1, r2) = (r_one.reading(knob), r_other.reading(knob));
    assert(readable(r_one.knobs@[knob.spec_index() as int]));
    assert(readable(r_other.knobs@[knob.spec_index() as int]));
    match spot_at(cc) {
        Some(Spot::Fader(i)) => {
            let cx = spec_centre_x(i as int);
            let track = on_frame(spec_track_x(i as int), S_Y as int, 12, R_Y + SQUARE - S_Y);
            lemma_agree_same(one, other, w, lo, hi, track, Ink::Lit);
            let (a1, a2) = (painted(one, w, track, Ink::Lit), painted(other, w, track, Ink::Lit));
            let box1 = in_box(spec_track_x(i as int) - 1, spec_thumb_y(r1.thumb as int), 14, THUMB_H as int);
            let box2 = in_box(spec_track_x(i as int) - 1, spec_thumb_y(r2.thumb as int), 14, THUMB_H as int);
            lemma_agree_inside(a1, a2, w, lo, hi, box1, box2, Ink::Lit);
            let (b1, b2) = (painted(a1, w, box1, Ink::Lit), painted(a2, w, box2, Ink::Lit));
            let name = centred(cx, FADER_CAPTION_Y as int, knob.spec_name(), w);
            lemma_agree_same(b1, b2, w, lo, hi, name, Ink::Lit);
            let (c1, c2) = (painted(b1, w, name, Ink::Lit), painted(b2, w, name, Ink::Lit));
            let value1 = centred(cx, FADER_VALUE_Y as int, r1.value@, w);
            let value2 = centred(cx, FADER_VALUE_Y as int, r2.value@, w);
            lemma_centred_within(cx, FADER_VALUE_Y as int, r1.value@, w);
            lemma_centred_within(cx, FADER_VALUE_Y as int, r2.value@, w);
            lemma_within_wider(value1, cx - r1.value@.len() * 4, cx + r1.value@.len() * 4, lo, hi);
            lemma_within_wider(value2, cx - r2.value@.len() * 4, cx + r2.value@.len() * 4, lo, hi);
            lemma_agree_inside(c1, c2, w, lo, hi, value1, value2, Ink::Lit);
        },
        Some(Spot::Rotary(i)) => {
            let cx = spec_centre_x(i as int);
            let ring = on_ring(cx, ROTARY_Y as int, ROTARY_R as int);
            lemma_agree_same(one, other, w, lo, hi, ring, Ink::Lit);
            let (a1, a2) = (painted(one, w, ring, Ink::Lit), painted(other, w, ring, Ink::Lit));
            let line1 = on_line(cx, ROTARY_Y as int, cx + r1.needle_x, ROTARY_Y + r1.needle_y);
            let line2 = on_line(cx, ROTARY_Y as int, cx + r2.needle_x, ROTARY_Y + r2.needle_y);
            lemma_needle_within(cx, ROTARY_Y as int, r1.needle_x as int, r1.needle_y as int);
            lemma_needle_within(cx, ROTARY_Y as int, r2.needle_x as int, r2.needle_y as int);
            lemma_within_wider(line1, cx - NEEDLE, cx + NEEDLE + 1, lo, hi);
            lemma_within_wider(line2, cx - NEEDLE, cx + NEEDLE + 1, lo, hi);
            lemma_agree_inside(a1, a2, w, lo, hi, line1, line2, Ink::Lit);
            let (b1, b2) = (painted(a1, w, line1, Ink::Lit), painted(a2, w, line2, Ink::Lit));
            let name = centred(cx, ROTARY_CAPTION_Y as int, knob.spec_name(), w);
            lemma_agree_same(b1, b2, w, lo, hi, name, Ink::Lit);
            let (c1, c2) = (painted(b1, w, name, Ink::Lit), painted(b2, w, name, Ink::Lit));
            let value1 = centred(cx, ROTARY_VALUE_Y as int, r1.value@, w);
            let value2 = centred(cx, ROTARY_VALUE_Y as int, r2.value@, w);
            lemma_centred_within(cx, ROTARY_VALUE_Y as int, r1.value@, w);
            lemma_centred_within(cx, ROTARY_VALUE_Y as int, r2.value@, w);
            lemma_within_wider(value1, cx - r1.value@.len() * 4, cx + r1.value@.len() * 4, lo, hi);
            lemma_within_wider(value2, cx - r2.value@.len() * 4, cx + r2.value@.len() * 4, lo, hi);
            lemma_agree_inside(c1, c2, w, lo, hi, value1, value2, Ink::Lit);
        },
        _ => {},
    }
}

/// A button drawn the same way on both keeps them agreeing.
proof fn lemma_button_agree_same(
    one: Seq<Ink>,
    other: Seq<Ink>,
    w: int,
    lo: int,
    hi: int,
    cc: u8,
    label: Seq<char>,
    lit: bool,
)
    requires
        agree_outside(one, other, w, lo, hi),
    ensures
        agree_outside(
            placed_button(one, w, cc, label, lit),
            placed_button(other, w, cc, label, lit),
            w,
            lo,
            hi,
        ),
{
    match spot_at(cc) {
        Some(Spot::S(i)) => lemma_beside_agree(one, other, w, lo, hi, i as int, 0, label, lit),
        Some(Spot::M(i)) => lemma_beside_agree(one, other, w, lo, hi, i as int, 1, label, lit),
        Some(Spot::R(i)) => lemma_beside_agree(one, other, w, lo, hi, i as int, 2, label, lit),
        Some(Spot::Transport(t)) => {
            let x = spec_button_x(t.col as int);
            let y = spec_row_y(t.row as int);
            let caption = in_text(x + 2, y + 4, label, x + BUTTON_W - 1);
            if lit {
                let key = in_box(x, y, BUTTON_W as int, BUTTON_H as int);
                lemma_agree_same(one, other, w, lo, hi, key, Ink::Lit);
                lemma_agree_same(
                    painted(one, w, key, Ink::Lit),
                    painted(other, w, key, Ink::Lit),
                    w,
                    lo,
                    hi,
                    caption,
                    Ink::Back,
                );
            } else {
                let key = on_frame(x, y, BUTTON_W as int, BUTTON_H as int);
                lemma_agree_same(one, other, w, lo, hi, key, Ink::Lit);
                lemma_agree_same(
                    painted(one, w, key, Ink::Lit),
                    painted(other, w, key, Ink::Lit),
                    w,
                    lo,
                    hi,
                    caption,
                    Ink::Lit,
                );
            }
        },
        _ => {},
    }
}

proof fn lemma_beside_agree(
    one: Seq<Ink>,
    other: Seq<Ink>,
    w: int,
    lo: int,
    hi: int,
    i: int,
    row: int,
    label: Seq<char>,
    lit: bool,
)
    requires
        agree_outside(one, other, w, lo, hi),
    ensures
        agree_outside(beside(one, w, i, row, label, lit), beside(other, w, i, row, label, lit), w, lo, hi),
{
    let x = spec_strip_x(i);
    let y = spec_row_y(row);
    let key = if lit {
        in_box(x + 2, y, SQUARE as int, SQUARE as int)
    } else {
        on_frame(x + 2, y, SQUARE as int, SQUARE as int)
    };
    lemma_agree_same(one, other, w, lo, hi, key, Ink::Lit);
    lemma_agree_same(
        painted(one, w, key, Ink::Lit),
        painted(other, w, key, Ink::Lit),
        w,
        lo,
        hi,
        in_text(x + SQUARE + 4, y + 3, label, spec_track_x(i) - 1),
        Ink::Lit,
    );
}

proof fn lemma_knobs_agree(
    keys: Seq<Ink>,
    w: int,
    n: int,
    one: Readout,
    other: Readout,
    knob: Knob,
)
    requires
        0 <= n <= 11,
        one.wf(),
        other.wf(),
        forall|k: Knob| k != knob ==> #[trigger] one.reading(k) == other.reading(k),
        one.reading(knob).value@.len() <= 10,
        other.reading(knob).value@.len() <= 10,
    ensures
        agree_outside(
            knobs_placed(keys, w, n, one),
            knobs_placed(keys, w, n, other),
            w,
            spec_strip_x(strip_of(knob)),
            spec_strip_x(strip_of(knob)) + STRIP_W,
        ),
    decreases n,
{
    let lo = spec_strip_x(strip_of(knob));
    let hi = lo + STRIP_W;
    if n > 0 {
        lemma_knobs_agree(keys, w, n - 1, one, other, knob);
        let f = fader_table()[n - 1];
        let (v1, v2) = (knobs_placed(keys, w, n - 1, one), knobs_placed(keys, w, n - 1, other));
        if f.knob == knob {
            lemma_on_its_strip(n - 1);
            lemma_knob_agree_on_its_strip(v1, v2, w, f.cc, knob, one, other);
        } else {
            assert(one.reading(f.knob) == other.reading(f.knob));
            lemma_knob_agree_same(v1, v2, w, lo, hi, f.cc, f.knob, one, other);
        }
    }
}

proof fn lemma_buttons_agree(
    one: Seq<Ink>,
    other: Seq<Ink>,
    w: int,
    lo: int,
    hi: int,
    n: int,
    r_one: Readout,
    r_other: Readout,
)
    requires
        0 <= n <= 29,
        agree_outside(one, other, w, lo, hi),
        r_one.lamps == r_other.lamps,
    ensures
        agree_outside(
            buttons_placed(one, w, n, r_one),
            buttons_placed(other, w, n, r_other),
            w,
            lo,
            hi,
        ),
    decreases n,
{
    if n > 0 {
        lemma_buttons_agree(one, other, w, lo, hi, n - 1, r_one, r_other);
        let b = button_table()[n - 1];
        lemma_button_agree_same(
            buttons_placed(one, w, n - 1, r_one),
            buttons_placed(other, w, n - 1, r_other),
            w,
            lo,
            hi,
            b.cc,
            b.action.spec_caption(),
            r_one.spec_lit(b.cc),
        );
    }
}

/// A knob's reading shows only on the strip of the control that turns it:
/// two readouts that differ in nothing but that knob's reading, ten
/// characters or shorter in both, draw the same panel everywhere outside
/// that strip.
pub proof fn lemma_a_reading_moves_only_its_strip(one: Readout, other: Readout, knob: Knob)
    requires
        one.wf(),
        other.wf(),
        one.lamps == other.lamps,
        forall|k: Knob| k != knob ==> #[trigger] one.reading(k) == other.reading(k),
        one.reading(knob).value@.len() <= 10,
        other.reading(knob).value@.len() <= 10,
    ensures
        agree_outside(
            panel(one),
            panel(other),
            PANEL_W as int,
            spec_strip_x(strip_of(knob)),
            spec_strip_x(strip_of(knob)) + STRIP_W,
        ),
{
    let w = PANEL_W as int;
    let lo = spec_strip_x(strip_of(knob));
    let hi = lo + STRIP_W;
    let chrome = chromed(ground(w, PANEL_H as int), w, STRIPS as int);
    let dead = dead_upto(chrome, w, STRIPS as int);
    let keys = group_labels(outlined(dead, w, 11), w);
    lemma_knobs_agree(keys, w, 11, one, other, knob);
    lemma_buttons_agree(
        knobs_placed(keys, w, 11, one),
        knobs_placed(keys, w, 11, other),
        w,
        lo,
        hi,
        29,
        one,
        other,
    );
}

} // verus!

verus! {

/// The key of the transport strip in `row` and `col`: the box its outline
/// stands on, which its lamp fills and its caption is cut from.
pub open spec fn in_key(row: int, col: int) -> spec_fn(int, int) -> bool {
    in_box(spec_button_x(col), spec_row_y(row), BUTTON_W as int, BUTTON_H as int)
}

/// The control number of the transport key in `row` and `col`.
spec fn key_cc(row: u8, col: u8) -> int {
    match (row, col) {
        (0, 0) => 58,
        (0, 1) => 59,
        (1, 0) => 46,
        (1, 2) => 60,
        (1, 3) => 61,
        (1, 4) => 62,
        (2, 0) => 43,
        (2, 1) => 44,
        (2, 2) => 42,
        (2, 3) => 41,
        (2, 4) => 45,
        _ => -1,
    }
}

/// A transport key is named by where it stands.
proof fn lemma_key_of(cc: u8)
    ensures
        spot_at(cc) matches Some(Spot::Transport(t)) ==> t.row < 3 && t.col < 5 && key_cc(t.row, t.col)
            == cc,
{
    reveal_with_fuel(crate::midi::transport_in, 12);
}

/// Control number `k` of the map drawn alone on bare ground: the faders in
/// the map's order, then the buttons.
pub open spec fn drawn_alone(k: int, readout: Readout) -> Seq<Ink> {
    let w = PANEL_W as int;
    let blank = ground(w, PANEL_H as int);
    if k < 11 {
        let f = fader_table()[k];
        placed_knob(blank, w, f.cc, f.knob, readout)
    } else {
        let b = button_table()[k - 11];
        placed_button(blank, w, b.cc, b.action.spec_caption(), readout.spec_lit(b.cc))
    }
}

/// Text inks nothing outside the rows of its line, or left of where it
/// starts, or at or past where it is cut off.
proof fn lemma_text_within(x: int, y: int, text: Seq<char>, max_x: int, a: int, b: int)
    requires
        in_text(x, y, text, max_x)(a, b),
    ensures
        x <= a < max_x,
        y <= b < y + 8,
{
    let count = fitting(x, text.len() as int, max_x);
    let j = choose|j: int| 0 <= j < count && #[trigger] stamped(x + 8 * j, y, text[j])(a, b);
}

/// A knob's control inks nothing but white, and what it does not ink keeps
/// what was there.
proof fn lemma_knob_at(v: Seq<Ink>, w: int, cc: u8, knob: Knob, r: Readout, t: int)
    requires
        0 <= t < v.len(),
    ensures
        placed_knob(v, w, cc, knob, r).len() == v.len(),
        placed_knob(v, w, cc, knob, r)[t] == Ink::Lit || placed_knob(v, w, cc, knob, r)[t]
            == v[t],
{
}

/// What a knob's control inks drawn alone it inks over anything.
proof fn lemma_knob_alone(v: Seq<Ink>, blank: Seq<Ink>, w: int, cc: u8, knob: Knob, r: Readout, t: int)
    requires
        v.len() == blank.len(),
        0 <= t < v.len(),
        blank[t] != Ink::Lit,
        placed_knob(blank, w, cc, knob, r)[t] == Ink::Lit,
    ensures
        placed_knob(v, w, cc, knob, r)[t] == Ink::Lit,
{
}

/// A knob's control, drawn alone, stays right of the transport strip: the
/// strips start past its last column, and nothing of a strip's drawing,
/// its captions included, reaches more than two texels left of it.
proof fn lemma_knob_region(blank: Seq<Ink>, w: int, cc: u8, knob: Knob, r: Readout, t: int)
    requires
        0 < w,
        0 <= t < blank.len(),
        r.wf(),
        r.reading(knob).value@.len() <= 10,
        blank[t] != Ink::Lit,
        placed_knob(blank, w, cc, knob, r)[t] == Ink::Lit,
        on_a_strip(cc),
    ensures
        t % w >= STRIPS_X - 2,
{
    let (a, b) = (t % w, t / w);
    let rd = r.reading(knob);
    assert(readable(r.knobs@[knob.spec_index() as int]));
    lemma_knob_name(knob);
    match spot_at(cc) {
        Some(Spot::Fader(i)) => {
            let cx = spec_centre_x(i as int);
            let name = centred(cx, FADER_CAPTION_Y as int, knob.spec_name(), w);
            let value = centred(cx, FADER_VALUE_Y as int, rd.value@, w);
            lemma_centred_within(cx, FADER_CAPTION_Y as int, knob.spec_name(), w);
            lemma_centred_within(cx, FADER_VALUE_Y as int, rd.value@, w);
            if name(a, b) {
                assert(cx - knob.spec_name().len() * 4 <= a);
            }
            if value(a, b) {
                assert(cx - rd.value@.len() * 4 <= a);
            }
        },
        Some(Spot::Rotary(i)) => {
            let cx = spec_centre_x(i as int);
            let name = centred(cx, ROTARY_CAPTION_Y as int, knob.spec_name(), w);
            let value = centred(cx, ROTARY_VALUE_Y as int, rd.value@, w);
            let line = on_line(cx, ROTARY_Y as int, cx + rd.needle_x, ROTARY_Y + rd.needle_y);
            lemma_centred_within(cx, ROTARY_CAPTION_Y as int, knob.spec_name(), w);
            lemma_centred_within(cx, ROTARY_VALUE_Y as int, rd.value@, w);
            lemma_needle_within(cx, ROTARY_Y as int, rd.needle_x as int, rd.needle_y as int);
            if name(a, b) {
                assert(cx - knob.spec_name().len() * 4 <= a);
            }
            if value(a, b) {
                assert(cx - rd.value@.len() * 4 <= a);
            }
            if line(a, b) {
                assert(cx - NEEDLE <= a);
            }
        },
        _ => {},
    }
}

/// Whether control `cc`, a transport key lit or not as `lit` says, cuts its
/// caption out of its key at texel `t` of a canvas `w` wide: it can there
/// and nowhere else.
pub open spec fn cut_out(cc: u8, lit: bool, w: int, t: int) -> bool {
    match spot_at(cc) {
        Some(Spot::Transport(k)) => lit && in_key(k.row as int, k.col as int)(t % w, t / w),
        _ => false,
    }
}

/// A button inks nothing but white, except the caption cut out of a lit
/// transport key; and what it does not ink keeps what was there.
proof fn lemma_button_keeps(v: Seq<Ink>, w: int, cc: u8, label: Seq<char>, lit: bool, t: int)
    requires
        0 <= t < v.len(),
        v[t] == Ink::Lit,
        !cut_out(cc, lit, w, t),
        0 < w,
    ensures
        placed_button(v, w, cc, label, lit).len() == v.len(),
        placed_button(v, w, cc, label, lit)[t] == Ink::Lit,
{
    match spot_at(cc) {
        Some(Spot::Transport(k)) => {
            let x = spec_button_x(k.col as int);
            let y = spec_row_y(k.row as int);
            if lit {
                let (a, b) = (t % w, t / w);
                if in_text(x + 2, y + 4, label, x + BUTTON_W - 1)(a, b) {
                    lemma_text_within(x + 2, y + 4, label, x + BUTTON_W - 1, a, b);
                    if k.row == 0 {
                    } else if k.row == 1 {
                    } else {
                    }
                }
            }
        },
        _ => {},
    }
}

/// What a button inks drawn alone it inks over anything.
proof fn lemma_button_alone(
    v: Seq<Ink>,
    blank: Seq<Ink>,
    w: int,
    cc: u8,
    label: Seq<char>,
    lit: bool,
    t: int,
)
    requires
        v.len() == blank.len(),
        0 <= t < v.len(),
        blank[t] != Ink::Lit,
        placed_button(blank, w, cc, label, lit)[t] == Ink::Lit,
    ensures
        placed_button(v, w, cc, label, lit)[t] == Ink::Lit,
{
}

/// A button drawn alone inks only its own place: a select button its strip
/// right of the strip's edge, a transport key its own key.
proof fn lemma_button_region(blank: Seq<Ink>, w: int, cc: u8, label: Seq<char>, lit: bool, t: int)
    requires
        0 < w,
        0 <= t < blank.len(),
        blank[t] != Ink::Lit,
        placed_button(blank, w, cc, label, lit)[t] == Ink::Lit,
    ensures
        spot_at(cc) matches Some(Spot::S(i)) ==> t % w >= spec_strip_x(i as int) + 2,
        spot_at(cc) matches Some(Spot::M(i)) ==> t % w >= spec_strip_x(i as int) + 2,
        spot_at(cc) matches Some(Spot::R(i)) ==> t % w >= spec_strip_x(i as int) + 2,
        spot_at(cc) matches Some(Spot::Transport(k)) ==> in_key(k.row as int, k.col as int)(
            t % w,
            t / w,
        ),
{
    let (a, b) = (t % w, t / w);
    lemma_key_of(cc);
    match spot_at(cc) {
        Some(Spot::S(i)) => {
            let x = spec_strip_x(i as int);
            if in_text(x + SQUARE + 4, spec_row_y(0) + 3, label, spec_track_x(i as int) - 1)(a, b) {
                lemma_text_within(x + SQUARE + 4, spec_row_y(0) + 3, label, spec_track_x(i as int) - 1, a, b);
            }
        },
        Some(Spot::M(i)) => {
            let x = spec_strip_x(i as int);
            if in_text(x + SQUARE + 4, spec_row_y(1) + 3, label, spec_track_x(i as int) - 1)(a, b) {
                lemma_text_within(x + SQUARE + 4, spec_row_y(1) + 3, label, spec_track_x(i as int) - 1, a, b);
            }
        },
        Some(Spot::R(i)) => {
            let x = spec_strip_x(i as int);
            if in_text(x + SQUARE + 4, spec_row_y(2) + 3, label, spec_track_x(i as int) - 1)(a, b) {
                lemma_text_within(x + SQUARE + 4, spec_row_y(2) + 3, label, spec_track_x(i as int) - 1, a, b);
            }
        },
        Some(Spot::Transport(k)) => {
            let x = spec_button_x(k.col as int);
            let y = spec_row_y(k.row as int);
            if in_text(x + 2, y + 4, label, x + BUTTON_W - 1)(a, b) {
                lemma_text_within(x + 2, y + 4, label, x + BUTTON_W - 1, a, b);
            }
        },
        _ => {},
    }
}

proof fn lemma_knobs_keep(keys: Seq<Ink>, w: int, m: int, n: int, r: Readout, t: int)
    requires
        0 <= m <= n,
        0 <= t < keys.len(),
        knobs_placed(keys, w, m, r)[t] == Ink::Lit,
    ensures
        knobs_placed(keys, w, n, r).len() == keys.len(),
        knobs_placed(keys, w, n, r)[t] == Ink::Lit,
    decreases n,
{
    lemma_knobs_len(keys, w, n, r);
    if n > m {
        lemma_knobs_keep(keys, w, m, n - 1, r, t);
        let f = fader_table()[n - 1];
        lemma_knob_at(knobs_placed(keys, w, n - 1, r), w, f.cc, f.knob, r, t);
    }
}

proof fn lemma_knobs_len(keys: Seq<Ink>, w: int, n: int, r: Readout)
    ensures
        knobs_placed(keys, w, n, r).len() == keys.len(),
    decreases n,
{
    if n > 0 {
        lemma_knobs_len(keys, w, n - 1, r);
    }
}

proof fn lemma_buttons_len(v: Seq<Ink>, w: int, n: int, r: Readout)
    ensures
        buttons_placed(v, w, n, r).len() == v.len(),
    decreases n,
{
    if n > 0 {
        lemma_buttons_len(v, w, n - 1, r);
    }
}

/// Whether button `j` of the map, with the lamps of `r`, cuts a caption out
/// of a lit key at texel `t` of a canvas `w` wide.
pub open spec fn cuts_at(j: int, r: Readout, w: int, t: int) -> bool {
    let b = button_table()[j];
    cut_out(b.cc, r.spec_lit(b.cc), w, t)
}

proof fn lemma_buttons_keep(v: Seq<Ink>, w: int, m: int, n: int, r: Readout, t: int)
    requires
        0 <= m <= n <= 29,
        0 < w,
        0 <= t < v.len(),
        buttons_placed(v, w, m, r)[t] == Ink::Lit,
        forall|j: int| m <= j < n ==> !#[trigger] cuts_at(j, r, w, t),
    ensures
        buttons_placed(v, w, n, r)[t] == Ink::Lit,
    decreases n,
{
    lemma_buttons_len(v, w, n, r);
    if n > m {
        lemma_buttons_keep(v, w, m, n - 1, r, t);
        lemma_buttons_len(v, w, n - 1, r);
        let b = button_table()[n - 1];
        assert(!cuts_at(n - 1, r, w, t));
        lemma_button_keeps(
            buttons_placed(v, w, n - 1, r),
            w,
            b.cc,
            b.action.spec_caption(),
            r.spec_lit(b.cc),
            t,
        );
    }
}

/// Every control of the map shows on the panel whole: every texel it inks
/// white drawn alone is white on the panel, whatever was drawn before it or
/// after — for a knob, as long as its reading is no longer than ten
/// characters, which is as wide as a strip holds.
pub proof fn lemma_every_control_shows_whole(readout: Readout, k: int, t: int)
    requires
        readout.wf(),
        k < 11 ==> readout.reading(fader_table()[k].knob).value@.len() <= 10,
        0 <= k < 40,
        0 <= t < PANEL_W * PANEL_H,
        drawn_alone(k, readout)[t] == Ink::Lit,
    ensures
        panel(readout)[t] == Ink::Lit,
{
    let w = PANEL_W as int;
    let blank = ground(w, PANEL_H as int);
    let chrome = chromed(blank, w, STRIPS as int);
    let dead = dead_upto(chrome, w, STRIPS as int);
    let keys = group_labels(outlined(dead, w, 11), w);
    lemma_keys_len(w);
    let base = knobs_placed(keys, w, 11, readout);
    lemma_knobs_len(keys, w, 11, readout);
    lemma_every_control_fits();
    lemma_every_control_is_on_the_panel_once();
    if k < 11 {
        let f = fader_table()[k];
        lemma_knobs_len(keys, w, k, readout);
        lemma_knob_alone(knobs_placed(keys, w, k, readout), blank, w, f.cc, f.knob, readout, t);
        lemma_knobs_keep(keys, w, k + 1, 11, readout, t);
        lemma_knob_region(blank, w, f.cc, f.knob, readout, t);
        assert forall|j: int| 0 <= j < 29 implies !#[trigger] cuts_at(j, readout, w, t) by {
            lemma_key_of(button_table()[j].cc);
        }
        lemma_buttons_keep(base, w, 0, 29, readout, t);
    } else {
        let j = k - 11;
        let b = button_table()[j];
        lemma_buttons_len(base, w, j, readout);
        lemma_button_alone(
            buttons_placed(base, w, j, readout),
            blank,
            w,
            b.cc,
            b.action.spec_caption(),
            readout.spec_lit(b.cc),
            t,
        );
        lemma_button_region(blank, w, b.cc, b.action.spec_caption(), readout.spec_lit(b.cc), t);
        lemma_key_of(b.cc);
        assert forall|q: int| j + 1 <= q < 29 implies !#[trigger] cuts_at(q, readout, w, t) by {
            let other = button_table()[q];
            lemma_key_of(other.cc);
            assert(bound_controls()[11 + j] == b.cc);
            assert(bound_controls()[11 + q] == other.cc);
        }
        lemma_buttons_keep(base, w, j + 1, 29, readout, t);
    }
}

proof fn lemma_keys_len(w: int)
    requires
        w == PANEL_W,
    ensures
        group_labels(
            outlined(dead_upto(chromed(ground(w, PANEL_H as int), w, STRIPS as int), w, STRIPS as int), w, 11),
            w,
        ).len() == PANEL_W * PANEL_H,
{
    lemma_chromed_len(ground(w, PANEL_H as int), w, STRIPS as int);
    let chrome = chromed(ground(w, PANEL_H as int), w, STRIPS as int);
    lemma_dead_len(chrome, w, STRIPS as int);
    let dead = dead_upto(chrome, w, STRIPS as int);
    lemma_outlined_len(dead, w, 11);
}

proof fn lemma_chromed_len(v: Seq<Ink>, w: int, n: int)
    ensures
        chromed(v, w, n).len() == v.len(),
    decreases n,
{
    if n > 0 {
        lemma_chromed_len(v, w, n - 1);
    }
}

proof fn lemma_dead_len(v: Seq<Ink>, w: int, n: int)
    ensures
        dead_upto(v, w, n).len() == v.len(),
    decreases n,
{
    if n > 0 {
        lemma_dead_len(v, w, n - 1);
    }
}

proof fn lemma_outlined_len(v: Seq<Ink>, w: int, n: int)
    ensures
        outlined(v, w, n).len() == v.len(),
    decreases n,
{
    if n > 0 {
        lemma_outlined_len(v, w, n - 1);
    }
}

} // verus!

verus! {

/// A lit lamp fills its select button on the panel: every texel of the
/// square of a bound select button whose lamp is lit is white.
pub proof fn lemma_a_lit_lamp_fills_its_button(readout: Readout, j: int, row: int, a: int, b: int)
    requires
        readout.wf(),
        0 <= j < 29,
        readout.spec_lit(button_table()[j].cc),
        row == 0 ==> spot_at(button_table()[j].cc) matches Some(Spot::S(_)),
        row == 1 ==> spot_at(button_table()[j].cc) matches Some(Spot::M(_)),
        row == 2 ==> spot_at(button_table()[j].cc) matches Some(Spot::R(_)),
        0 <= row < 3,
        ({
            let i = match spot_at(button_table()[j].cc) {
                Some(Spot::S(i)) => i,
                Some(Spot::M(i)) => i,
                Some(Spot::R(i)) => i,
                _ => 0,
            };
            in_box(spec_strip_x(i as int) + 2, spec_row_y(row), SQUARE as int, SQUARE as int)(a, b)
        }),
    ensures
        panel(readout)[b * PANEL_W + a] == Ink::Lit,
{
    let w = PANEL_W as int;
    let t = b * w + a;
    let c = button_table()[j].cc;
    let i = match spot_at(c) {
        Some(Spot::S(i)) => i,
        Some(Spot::M(i)) => i,
        Some(Spot::R(i)) => i,
        _ => 0,
    };
    assert(i < 8) by {
        lemma_every_control_fits();
    }
    lemma_cell_of(w, PANEL_H as int, a, b);
    lemma_every_control_shows_whole(readout, 11 + j, t);
}

/// The texel at column `x` of row `y` of a canvas `w` wide and `h` high.
proof fn lemma_cell_of(w: int, h: int, x: int, y: int)
    requires
        0 <= x < w,
        0 <= y < h,
    ensures
        0 <= y * w + x < w * h,
        (y * w + x) % w == x,
        (y * w + x) / w == y,
{
    assert(0 <= y * w + x < w * h) by (nonlinear_arith)
        requires
            0 <= x < w,
            0 <= y < h,
    ;
    lemma_fundamental_div_mod_converse(y * w + x, w, y, x);
}

} // verus!
