//! The MIDI byte stream a control surface sends, decoded as it arrives.
//!
//! A stream, not a parser over a buffer, because a `read` lands wherever it
//! lands: a three-byte message routinely arrives as two reads. Running
//! status — a message with the status byte left off, which is how a surface
//! sends a fader sweep — is the reason this cannot be done a message at a
//! time either.

use vstd::prelude::*;

verus! {

/// The longest system exclusive frame worth keeping. A scene dump is 402
/// bytes and nothing else is asked for, so this is where a frame that has
/// lost its end — a cable pulled mid-message — stops growing.
pub const SYSEX_MAX: usize = 512;

/// One control change, and the whole of the MIDI a control surface sends
/// that this instrument reads. The channel nibble is not kept: every channel
/// is listened to.
#[derive(Clone, Copy, Debug, PartialEq, Eq, Structural)]
pub struct ControlChange {
    pub control: u8,
    pub value: u8,
}

/// One thing off the wire: a knob or a button, or a system exclusive frame,
/// which is how the surface answers a question about itself.
#[derive(Debug)]
pub enum Message {
    Control(ControlChange),
    Sysex(Vec<u8>),
}

/// What a [`Message`] says, as plain values.
pub enum Heard {
    Control(u8, u8),
    Sysex(Seq<u8>),
}

impl View for Message {
    type V = Heard;

    open spec fn view(&self) -> Heard {
        match self {
            Message::Control(cc) => Heard::Control(cc.control, cc.value),
            Message::Sysex(frame) => Heard::Sysex(frame@),
        }
    }
}

/// The decoder's state, as plain values: the status byte in force (0 for
/// none), whether one data byte of a pair is in hand and which, and the
/// system exclusive frame being collected.
pub struct Decoder {
    pub status: u8,
    pub half: bool,
    pub first: u8,
    pub frame: Option<Seq<u8>>,
}

/// A real-time byte: interleaved anywhere, even between a control number and
/// its value or inside a system exclusive frame, and it disturbs neither.
pub open spec fn is_real_time(byte: u8) -> bool {
    byte >= 0xF8
}

/// A data byte: the top bit clear.
pub open spec fn is_data(byte: u8) -> bool {
    byte < 0x80
}

/// What one byte does to the decoder, and the message it completes, if any.
pub open spec fn step(d: Decoder, byte: u8) -> (Decoder, Option<Heard>) {
    if byte >= 0xF8 {
        (d, None)
    } else if byte == 0xF0 {
        (Decoder { status: 0, frame: Some(seq![0xF0u8]), ..d }, None)
    } else if byte == 0xF7 {
        match d.frame {
            Some(f) => (Decoder { status: 0, frame: None, ..d }, Some(Heard::Sysex(f.push(0xF7u8)))),
            None => (Decoder { status: 0, ..d }, None),
        }
    } else if byte >= 0xF1 {
        (Decoder { status: 0, frame: None, ..d }, None)
    } else if byte >= 0x80 {
        (Decoder { status: byte, half: false, frame: None, ..d }, None)
    } else if d.frame is Some {
        let grown = d.frame->0.push(byte);
        if grown.len() > SYSEX_MAX {
            (Decoder { frame: None, ..d }, None)
        } else {
            (Decoder { frame: Some(grown), ..d }, None)
        }
    } else if d.status == 0 {
        (d, None)
    } else if !d.half {
        (Decoder { half: true, first: byte, ..d }, None)
    } else if 0xB0 <= d.status <= 0xBF {
        (Decoder { half: false, ..d }, Some(Heard::Control(d.first, byte)))
    } else {
        (Decoder { half: false, ..d }, None)
    }
}

/// The messages a run of bytes decodes to, from decoder state `d`, and the
/// state it leaves.
pub open spec fn decode(d: Decoder, bytes: Seq<u8>) -> (Decoder, Seq<Heard>)
    decreases bytes.len(),
{
    if bytes.len() == 0 {
        (d, Seq::empty())
    } else {
        let (next, heard) = step(d, bytes[0]);
        let (last, rest) = decode(next, bytes.drop_first());
        match heard {
            Some(h) => (last, seq![h] + rest),
            None => (last, rest),
        }
    }
}

/// A decoder with nothing in force: a surface just plugged in.
pub open spec fn fresh() -> Decoder {
    Decoder { status: 0, half: false, first: 0, frame: None }
}

/// The stream. The status byte in force, or 0 for none; the data byte in
/// hand when `have` is 1; and the system exclusive frame being collected,
/// its leading `F0` and all — `None` between frames, which is nearly always.
#[derive(Debug)]
pub struct Stream {
    status: u8,
    first: u8,
    have: usize,
    sysex: Option<Vec<u8>>,
}

impl View for Stream {
    type V = Decoder;

    closed spec fn view(&self) -> Decoder {
        Decoder {
            status: self.status,
            half: self.have == 1,
            first: self.first,
            frame: match self.sysex {
                Some(f) => Some(f@),
                None => None,
            },
        }
    }
}

impl Stream {
    /// The stream's own bookkeeping: at most one data byte in hand, and a
    /// frame never longer than [`SYSEX_MAX`].
    pub closed spec fn wf(&self) -> bool {
        &&& self.have <= 1
        &&& self.sysex matches Some(f) ==> f@.len() <= SYSEX_MAX
        &&& sound(self@)
    }

    pub fn new() -> (s: Stream)
        ensures
            s.wf(),
            s@ == fresh(),
    {
        Stream { status: 0, first: 0, have: 0, sysex: None }
    }

    /// Feed a read's worth of bytes in, wherever the read happened to land,
    /// and push out every message they completed: each of them
    /// [`well_formed`], whatever the bytes were.
    pub fn feed(&mut self, bytes: &[u8], out: &mut Vec<Message>)
        requires
            old(self).wf(),
        ensures
            final(self).wf(),
            final(self)@ == decode(old(self)@, bytes@).0,
            final(out)@.map_values(|m: Message| m@) == old(out)@.map_values(|m: Message| m@)
                + decode(old(self)@, bytes@).1,
            forall|i: int|
                old(out)@.len() <= i < final(out)@.len() ==> well_formed(#[trigger] final(out)@[i]@),
    {
        let ghost start = self@;
        let ghost before = out@.map_values(|m: Message| m@);
        proof {
            reveal_with_fuel(decode, 1);
            assert(bytes@.take(0) =~= Seq::<u8>::empty());
            assert(before + decode(start, bytes@.take(0)).1 =~= before);
        }
        for i in 0..bytes.len()
            invariant
                self.wf(),
                self@ == decode(start, bytes@.take(i as int)).0,
                out@.map_values(|m: Message| m@) == before + decode(start, bytes@.take(i as int)).1,
                before.len() <= out@.len(),
                forall|j: int| before.len() <= j < out@.len() ==> well_formed(#[trigger] out@[j]@),
        {
            let ghost seen = bytes@.take(i as int);
            self.push(bytes[i], out);
            proof {
                lemma_decode_push(start, seen, bytes@[i as int]);
                assert(bytes@.take(i + 1) =~= seen.push(bytes@[i as int]));
                match step(decode(start, seen).0, bytes@[i as int]).1 {
                    Some(h) => {
                        assert(before + decode(start, seen).1.push(h) =~= (before + decode(
                            start,
                            seen,
                        ).1).push(h));
                    },
                    None => {},
                }
            }
        }
        proof {
            assert(bytes@.take(bytes@.len() as int) =~= bytes@);
        }
    }

    /// Feed one byte in, and push out any message it completed, which is
    /// [`well_formed`].
    pub fn push(&mut self, byte: u8, out: &mut Vec<Message>)
        requires
            old(self).wf(),
        ensures
            final(self).wf(),
            old(out)@.len() <= final(out)@.len(),
            forall|i: int| 0 <= i < old(out)@.len() ==> final(out)@[i] == old(out)@[i],
            forall|i: int|
                old(out)@.len() <= i < final(out)@.len() ==> well_formed(#[trigger] final(out)@[i]@),
            final(self)@ == step(old(self)@, byte).0,
            match step(old(self)@, byte).1 {
                Some(h) => final(out)@.map_values(|m: Message| m@) == old(out)@.map_values(
                    |m: Message| m@,
                ).push(h),
                None => final(out)@ == old(out)@,
            },
    {
        proof {
            lemma_step_sound(self@, byte);
        }
        if byte >= 0xF8 {
            // Real time: it disturbs nothing.
        } else if byte == 0xF0 {
            // No running status survives a system message, so the data bytes
            // of a frame cannot be read as knob moves however this ends.
            self.status = 0;
            let mut frame: Vec<u8> = Vec::new();
            frame.push(0xF0);
            self.sysex = Some(frame);
        } else if byte == 0xF7 {
            self.status = 0;
            match self.sysex.take() {
                Some(mut frame) => {
                    frame.push(0xF7);
                    let ghost before = out@;
                    out.push(Message::Sysex(frame));
                    proof {
                        assert(out@.map_values(|m: Message| m@) =~= before.map_values(
                            |m: Message| m@,
                        ).push(out@.last()@));
                    }
                },
                None => {},
            }
        } else if byte >= 0xF1 {
            // System common, and any channel message: either ends a frame
            // that never got its `F7`, which is what a surface unplugged
            // mid-dump leaves behind.
            self.status = 0;
            self.sysex = None;
        } else if byte >= 0x80 {
            self.status = byte;
            self.have = 0;
            self.sysex = None;
        } else if self.sysex.is_some() {
            let mut frame = self.sysex.take().unwrap();
            frame.push(byte);
            // Longer than anything this asks for: dropped here rather than
            // grown until a frame with no end is the whole of memory.
            if frame.len() > SYSEX_MAX {
                self.sysex = None;
            } else {
                self.sysex = Some(frame);
            }
        } else if self.status == 0 {
            // Data under no status, which nothing decodes.
        } else if self.have == 0 {
            self.first = byte;
            self.have = 1;
        } else {
            // Two, for every channel message this pairs up. Program change
            // and channel pressure carry one, so their data pairs up wrongly
            // here — and cannot be mistaken for a knob move anyway, because a
            // control change only ever arrives under a 0xB0.
            self.have = 0;
            if self.status >= 0xB0 && self.status <= 0xBF {
                let ghost before = out@;
                out.push(Message::Control(ControlChange { control: self.first, value: byte }));
                proof {
                    assert(out@.map_values(|m: Message| m@) =~= before.map_values(
                        |m: Message| m@,
                    ).push(out@.last()@));
                }
            }
        }
    }
}

/// Decoding a run of bytes is decoding its two halves in turn.
pub proof fn lemma_decode_split(d: Decoder, a: Seq<u8>, b: Seq<u8>)
    ensures
        decode(d, a + b).0 == decode(decode(d, a).0, b).0,
        decode(d, a + b).1 == decode(d, a).1 + decode(decode(d, a).0, b).1,
    decreases a.len(),
{
    if a.len() == 0 {
        assert(a + b =~= b);
        assert(decode(d, a).1 + decode(d, b).1 =~= decode(d, b).1);
    } else {
        let (next, heard) = step(d, a[0]);
        assert((a + b).drop_first() =~= a.drop_first() + b);
        assert((a + b)[0] == a[0]);
        lemma_decode_split(next, a.drop_first(), b);
        match heard {
            Some(h) => {
                assert(seq![h] + (decode(next, a.drop_first()).1 + decode(
                    decode(next, a.drop_first()).0,
                    b,
                ).1) =~= (seq![h] + decode(next, a.drop_first()).1) + decode(
                    decode(next, a.drop_first()).0,
                    b,
                ).1);
            },
            None => {},
        }
    }
}

/// One more byte is one more step.
pub proof fn lemma_decode_push(d: Decoder, a: Seq<u8>, byte: u8)
    ensures
        decode(d, a.push(byte)).0 == step(decode(d, a).0, byte).0,
        decode(d, a.push(byte)).1 == match step(decode(d, a).0, byte).1 {
            Some(h) => decode(d, a).1.push(h),
            None => decode(d, a).1,
        },
{
    reveal_with_fuel(decode, 2);
    lemma_decode_split(d, a, seq![byte]);
    assert(a.push(byte) =~= a + seq![byte]);
    let mid = decode(d, a).0;
    assert(seq![byte].drop_first() =~= Seq::<u8>::empty());
    match step(mid, byte).1 {
        Some(h) => {
            assert(decode(d, a).1 + seq![h] =~= decode(d, a).1.push(h));
        },
        None => {
            assert(decode(d, a).1 + Seq::<Heard>::empty() =~= decode(d, a).1);
        },
    }
}

/// A real-time byte landing anywhere in the stream — a clock between a
/// control number and its value, or inside a system exclusive frame —
/// changes nothing the stream decodes to.
pub proof fn lemma_real_time_is_transparent(d: Decoder, before: Seq<u8>, byte: u8, after: Seq<u8>)
    requires
        is_real_time(byte),
    ensures
        decode(d, before + seq![byte] + after) == decode(d, before + after),
{
    lemma_decode_split(d, before, seq![byte] + after);
    lemma_decode_split(d, before, after);
    assert(before + seq![byte] + after =~= before + (seq![byte] + after));
    let mid = decode(d, before).0;
    assert((seq![byte] + after)[0] == byte);
    assert((seq![byte] + after).drop_first() =~= after);
}

/// A control change on any channel, status byte and all, is its control and
/// its value, whatever the stream was in the middle of — and it leaves that
/// status in force for the running status that follows.
pub proof fn lemma_control_change(d: Decoder, channel: u8, control: u8, value: u8)
    requires
        channel < 16,
        is_data(control),
        is_data(value),
    ensures
        decode(d, seq![(0xB0 + channel) as u8, control, value]).1 =~= seq![
            Heard::Control(control, value),
        ],
        decode(d, seq![(0xB0 + channel) as u8, control, value]).0 == (Decoder {
            status: (0xB0 + channel) as u8,
            half: false,
            first: control,
            frame: None,
        }),
{
    reveal_with_fuel(decode, 4);
    let bytes = seq![(0xB0 + channel) as u8, control, value];
    assert(bytes.drop_first() =~= seq![control, value]);
    assert(seq![control, value].drop_first() =~= seq![value]);
    assert(seq![value].drop_first() =~= Seq::<u8>::empty());
}

/// Running status: under a control change already in force, two data bytes
/// are the next control change, with no status byte in front of them. This
/// is how a fader sweep arrives.
pub proof fn lemma_running_status(d: Decoder, control: u8, value: u8)
    requires
        0xB0 <= d.status <= 0xBF,
        !d.half,
        d.frame is None,
        is_data(control),
        is_data(value),
    ensures
        decode(d, seq![control, value]).1 =~= seq![Heard::Control(control, value)],
        decode(d, seq![control, value]).0 == (Decoder { first: control, ..d }),
{
    reveal_with_fuel(decode, 3);
    assert(seq![control, value].drop_first() =~= seq![value]);
    assert(seq![value].drop_first() =~= Seq::<u8>::empty());
}

/// Every byte of `bytes` is a data byte.
pub open spec fn all_data(bytes: Seq<u8>) -> bool {
    forall|i: int| 0 <= i < bytes.len() ==> is_data(#[trigger] bytes[i])
}

/// Inside a frame, data bytes are collected and nothing comes out: a scene
/// dump is not a hundred knob moves.
proof fn lemma_frame_collects(d: Decoder, data: Seq<u8>)
    requires
        d.status == 0,
        d.frame is Some,
        d.frame->0.len() <= SYSEX_MAX,
        all_data(data),
    ensures
        decode(d, data).1.len() == 0,
        decode(d, data).0.status == 0,
        d.frame->0.len() + data.len() <= SYSEX_MAX ==> decode(d, data).0.frame == Some(
            d.frame->0 + data,
        ),
        d.frame->0.len() + data.len() > SYSEX_MAX ==> decode(d, data).0.frame is None,
    decreases data.len(),
{
    if data.len() == 0 {
        assert(d.frame->0 + data =~= d.frame->0);
    } else {
        assert(is_data(data[0]));
        let (next, heard) = step(d, data[0]);
        assert(all_data(data.drop_first())) by {
            assert forall|i: int| 0 <= i < data.drop_first().len() implies is_data(
                #[trigger] data.drop_first()[i],
            ) by {
                assert(data.drop_first()[i] == data[i + 1]);
            }
        }
        if next.frame is Some {
            lemma_frame_collects(next, data.drop_first());
            assert(d.frame->0.push(data[0]) + data.drop_first() =~= d.frame->0 + data);
        } else {
            lemma_dropped_frame_stays_dropped(next, data.drop_first());
        }
    }
}

/// A frame dropped for its length takes the data bytes after it down with it.
proof fn lemma_dropped_frame_stays_dropped(d: Decoder, data: Seq<u8>)
    requires
        d.status == 0,
        d.frame is None,
        all_data(data),
    ensures
        decode(d, data).1.len() == 0,
        decode(d, data).0 == d,
    decreases data.len(),
{
    if data.len() > 0 {
        assert(is_data(data[0]));
        assert(all_data(data.drop_first())) by {
            assert forall|i: int| 0 <= i < data.drop_first().len() implies is_data(
                #[trigger] data.drop_first()[i],
            ) by {
                assert(data.drop_first()[i] == data[i + 1]);
            }
        }
        lemma_dropped_frame_stays_dropped(d, data.drop_first());
    }
}

/// A system exclusive frame comes out whole, as one message and nothing
/// else, and leaves no running status behind it — provided it fits; one
/// that never ends short of [`SYSEX_MAX`] comes out as nothing at all.
pub proof fn lemma_sysex_frame(d: Decoder, data: Seq<u8>)
    requires
        all_data(data),
    ensures
        data.len() + 2 <= SYSEX_MAX ==> decode(d, seq![0xF0u8] + data + seq![0xF7u8]).1 =~= seq![
            Heard::Sysex(seq![0xF0u8] + data + seq![0xF7u8]),
        ],
        data.len() + 1 > SYSEX_MAX ==> decode(
            d,
            seq![0xF0u8] + data + seq![0xF7u8],
        ).1.len() == 0,
        decode(d, seq![0xF0u8] + data + seq![0xF7u8]).0.status == 0,
        decode(d, seq![0xF0u8] + data + seq![0xF7u8]).0.frame is None,
{
    reveal_with_fuel(decode, 2);
    let opened = step(d, 0xF0u8).0;
    assert(decode(d, seq![0xF0u8]).0 == opened) by {
        assert(seq![0xF0u8].drop_first() =~= Seq::<u8>::empty());
    }
    assert(decode(d, seq![0xF0u8]).1 =~= Seq::<Heard>::empty()) by {
        assert(seq![0xF0u8].drop_first() =~= Seq::<u8>::empty());
    }
    lemma_frame_collects(opened, data);
    lemma_decode_split(d, seq![0xF0u8], data);
    lemma_decode_push(d, seq![0xF0u8] + data, 0xF7u8);
    assert((seq![0xF0u8] + data).push(0xF7u8) =~= seq![0xF0u8] + data + seq![0xF7u8]);
    assert(seq![0xF0u8].len() + data.len() == data.len() + 1);
}

/// The status a run of bytes leaves in force for running status: its last
/// status byte that is not real time, or 0 for none.
pub open spec fn last_status(bytes: Seq<u8>) -> u8
    decreases bytes.len(),
{
    if bytes.len() == 0 {
        0
    } else if 0x80 <= bytes.last() <= 0xF7 {
        bytes.last()
    } else {
        last_status(bytes.drop_last())
    }
}

/// The running status a status byte leaves: a channel message's own, or none
/// after a system message.
pub open spec fn running(status: u8) -> u8 {
    if status < 0xF0 {
        status
    } else {
        0
    }
}

/// What a message off the wire can be: a control change of two data bytes,
/// or a system exclusive frame from its `F0` to its `F7`, no longer than
/// [`SYSEX_MAX`] and its end, with only data bytes between.
pub open spec fn well_formed(heard: Heard) -> bool {
    match heard {
        Heard::Control(control, value) => is_data(control) && is_data(value),
        Heard::Sysex(frame) => {
            &&& 2 <= frame.len() <= SYSEX_MAX + 1
            &&& frame[0] == 0xF0
            &&& frame.last() == 0xF7
            &&& forall|i: int| 1 <= i < frame.len() - 1 ==> is_data(#[trigger] frame[i])
        },
    }
}

/// Whether `byte`, in decoder state `d`, completes a control change.
pub open spec fn completes_control(d: Decoder, byte: u8) -> bool {
    step(d, byte).1 matches Some(Heard::Control(_, _))
}

/// A decoder state a stream can be in: a channel status or none, a data byte
/// in hand, and a frame begun by its `F0` holding only data bytes since.
pub open spec fn sound(d: Decoder) -> bool {
    &&& d.status == 0 || 0x80 <= d.status < 0xF0
    &&& is_data(d.first)
    &&& d.frame matches Some(f) ==> {
        &&& 1 <= f.len() <= SYSEX_MAX
        &&& f[0] == 0xF0
        &&& forall|i: int| 1 <= i < f.len() ==> is_data(#[trigger] f[i])
    }
}

proof fn lemma_step_sound(d: Decoder, byte: u8)
    requires
        sound(d),
    ensures
        sound(step(d, byte).0),
        step(d, byte).1 matches Some(h) ==> well_formed(h),
        step(d, byte).1 matches Some(Heard::Control(_, _)) ==> 0xB0 <= d.status <= 0xBF,
        step(d, byte).0.status == if 0x80 <= byte <= 0xF7 {
            running(byte)
        } else {
            d.status
        },
{
    if byte < 0x80 && d.frame is Some {
        let grown = d.frame->0.push(byte);
        assert forall|i: int| 1 <= i < grown.len() implies is_data(#[trigger] grown[i]) by {
            if i < grown.len() - 1 {
                assert(grown[i] == d.frame->0[i]);
            }
        }
    }
    if byte == 0xF7 && d.frame is Some {
        let f = d.frame->0.push(0xF7u8);
        assert forall|i: int| 1 <= i < f.len() - 1 implies is_data(#[trigger] f[i]) by {
            assert(f[i] == d.frame->0[i]);
        }
    }
}

proof fn lemma_decoded_sound(bytes: Seq<u8>)
    ensures
        sound(decode(fresh(), bytes).0),
        decode(fresh(), bytes).0.status == running(last_status(bytes)),
        forall|i: int|
            0 <= i < decode(fresh(), bytes).1.len() ==> well_formed(
                #[trigger] decode(fresh(), bytes).1[i],
            ),
    decreases bytes.len(),
{
    if bytes.len() == 0 {
        reveal_with_fuel(decode, 1);
    } else {
        let a = bytes.drop_last();
        let byte = bytes.last();
        assert(a.push(byte) =~= bytes);
        lemma_decoded_sound(a);
        lemma_decode_push(fresh(), a, byte);
        lemma_step_sound(decode(fresh(), a).0, byte);
    }
}

/// What a stream hands out, from the moment a surface is plugged in and
/// whatever bytes arrive: every control change is two data bytes, completed
/// while the last status byte that is not real time was a control change's
/// (`B0` to `BF`); every system exclusive frame runs from its `F0` to its
/// `F7` with only data bytes between, and is at most [`SYSEX_MAX`] bytes and
/// its end.
pub proof fn lemma_what_a_stream_hands_out(bytes: Seq<u8>)
    ensures
        forall|i: int|
            0 <= i < decode(fresh(), bytes).1.len() ==> well_formed(
                #[trigger] decode(fresh(), bytes).1[i],
            ),
        forall|i: int|
            0 <= i < decode(fresh(), bytes).1.len() ==> (#[trigger] decode(fresh(), bytes).1[i] matches Heard::Control(
                control,
                value,
            ) ==> control < 0x80 && value < 0x80),
        forall|i: int|
            0 <= i < decode(fresh(), bytes).1.len() ==> (#[trigger] decode(fresh(), bytes).1[i] matches Heard::Sysex(
                frame,
            ) ==> {
                &&& 2 <= frame.len() <= SYSEX_MAX + 1
                &&& frame[0] == 0xF0
                &&& frame[frame.len() - 1] == 0xF7
                &&& forall|k: int| 1 <= k < frame.len() - 1 ==> #[trigger] frame[k] < 0x80
            }),
        forall|k: int|
            0 <= k < bytes.len() && #[trigger] completes_control(
                decode(fresh(), bytes.take(k)).0,
                bytes[k],
            ) ==> 0xB0 <= last_status(bytes.take(k)) <= 0xBF,
{
    lemma_decoded_sound(bytes);
    assert forall|i: int| 0 <= i < decode(fresh(), bytes).1.len() implies (#[trigger] decode(
        fresh(),
        bytes,
    ).1[i] matches Heard::Sysex(frame) ==> {
        &&& 2 <= frame.len() <= SYSEX_MAX + 1
        &&& frame[0] == 0xF0
        &&& frame[frame.len() - 1] == 0xF7
        &&& forall|k: int| 1 <= k < frame.len() - 1 ==> #[trigger] frame[k] < 0x80
    }) by {
        assert(well_formed(decode(fresh(), bytes).1[i]));
        if let Heard::Sysex(frame) = decode(fresh(), bytes).1[i] {
            assert forall|k: int| 1 <= k < frame.len() - 1 implies #[trigger] frame[k] < 0x80 by {
                assert(is_data(frame[k]));
            }
        }
    }
    assert forall|k: int|
        0 <= k < bytes.len() && #[trigger] completes_control(
            decode(fresh(), bytes.take(k)).0,
            bytes[k],
        ) implies 0xB0 <= last_status(bytes.take(k)) <= 0xBF by {
        lemma_decoded_sound(bytes.take(k));
        lemma_step_sound(decode(fresh(), bytes.take(k)).0, bytes[k]);
    }
}

} // verus!
