//! The lit half of the control surface, as bytes on the wire.
//!
//! A nanoKONTROL2 leaves the factory with **LED Mode: Internal** — a button
//! lights itself while it is held and ignores the host entirely. So the mode
//! is set here instead, over the same device the surface is read from: ask
//! the surface for the scene it is playing, set the one byte that is the LED
//! mode, hand the scene back. Nothing else in it is touched and nothing is
//! written to the surface's flash, so a performer's own assignments survive
//! it. This module holds every message of that conversation, Korg's seven-bit
//! packing of the scene, and what a change of lamps puts on the wire.

use vstd::prelude::*;

verus! {

/// Korg's system-exclusive manufacturer id.
pub const KORG: u8 = 0x42;

/// A scene, decoded: 339 bytes, which ride the wire as 388.
pub const SCENE_BYTES: usize = 339;

/// The bytes of a scene that are the surface's own rather than one strip's,
/// and what the second of them may say.
pub const GLOBAL_CHANNEL: usize = 0;
pub const LED_MODE: usize = 2;
pub const INTERNAL: u8 = 0;
pub const EXTERNAL: u8 = 1;

/// A control change, which is what a lamp in external mode answers to: the
/// very control number the button transmits, at the button's own On and Off
/// values.
pub const CONTROL: u8 = 0xB0;
pub const LIT: u8 = 127;
pub const DARK: u8 = 0;

/// The top bits of one group of up to seven bytes, least significant first.
pub open spec fn top(group: Seq<u8>) -> u8
    decreases group.len(),
{
    if group.len() == 0 {
        0
    } else {
        top(group.drop_last()) | ((group.last() >> 7u8) << ((group.len() - 1) as u8))
    }
}

/// A group of bytes with their top bits stripped.
pub open spec fn bodies(group: Seq<u8>) -> Seq<u8> {
    Seq::new(group.len(), |i: int| group[i] & 0x7Fu8)
}

/// One group as it rides the wire: its top bits, then its bodies.
pub open spec fn packed_group(group: Seq<u8>) -> Seq<u8> {
    seq![top(group)] + bodies(group)
}

/// Korg's seven-bit packing: each group of seven data bytes goes out as a
/// byte of their top bits, least significant first, and then the seven
/// bodies with those bits stripped. A last group short of seven is packed
/// the same way, one byte longer than it is.
pub open spec fn packed(data: Seq<u8>) -> Seq<u8>
    decreases data.len(),
{
    if data.len() == 0 {
        Seq::empty()
    } else if data.len() <= 7 {
        packed_group(data)
    } else {
        packed_group(data.take(7)) + packed(data.skip(7))
    }
}

/// One wire group back: each body with its top bit put back from the
/// leading byte.
pub open spec fn unpacked_group(wire: Seq<u8>) -> Seq<u8> {
    Seq::new(
        (wire.len() - 1) as nat,
        |i: int| (wire[i + 1] & 0x7Fu8) | (((wire[0] >> (i as u8)) & 1u8) << 7u8),
    )
}

/// The inverse of [`packed`], eight wire bytes at a time.
pub open spec fn unpacked(wire: Seq<u8>) -> Seq<u8>
    decreases wire.len(),
{
    if wire.len() == 0 {
        Seq::empty()
    } else if wire.len() <= 8 {
        unpacked_group(wire)
    } else {
        unpacked_group(wire.take(8)) + unpacked(wire.skip(8))
    }
}

/// How many wire bytes `len` bytes of scene take. Seven bytes ride as
/// eight, and a part group takes one byte more than it has: 339 becomes 388.
pub open spec fn packed_len_of(len: nat) -> nat {
    len + (len + 6) / 7
}

pub fn packed_len(len: usize) -> (wire: usize)
    requires
        len <= usize::MAX / 2,
    ensures
        wire == packed_len_of(len as nat),
{
    len + (len + 6) / 7
}

proof fn lemma_top_bit(t: u8, x: u8, n: u8, i: u8)
    requires
        n < 7,
        t < (1u8 << n),
        x <= 1,
        i < 8,
    ensures
        (t | (x << n)) < (1u8 << ((n + 1) as u8)),
        i < n ==> ((t | (x << n)) >> i) & 1 == (t >> i) & 1,
        i == n ==> ((t | (x << n)) >> i) & 1 == x,
{
    assert((t | (x << n)) < (1u8 << ((n + 1) as u8))) by (bit_vector)
        requires
            n < 7,
            t < (1u8 << n),
            x <= 1,
    ;
    assert(i < n ==> ((t | (x << n)) >> i) & 1 == (t >> i) & 1) by (bit_vector)
        requires
            n < 7,
            t < (1u8 << n),
            x <= 1,
            i < 8,
    ;
    assert(i == n ==> ((t | (x << n)) >> i) & 1 == x) by (bit_vector)
        requires
            n < 7,
            t < (1u8 << n),
            x <= 1,
    ;
}

/// The top byte of a group holds exactly one bit per byte of it.
proof fn lemma_top(group: Seq<u8>)
    requires
        group.len() <= 7,
    ensures
        top(group) < (1u8 << (group.len() as u8)),
        forall|i: int|
            0 <= i < group.len() ==> ((top(group) >> (i as u8)) & 1u8) == #[trigger] group[i]
                >> 7u8,
    decreases group.len(),
{
    if group.len() == 0 {
        assert((1u8 << 0u8) == 1) by (bit_vector);
    } else {
        let rest = group.drop_last();
        lemma_top(rest);
        let x = group.last() >> 7u8;
        let last = group.last();
        assert(x <= 1) by (bit_vector)
            requires
                x == last >> 7u8,
        ;
        let n = (group.len() - 1) as u8;
        assert forall|i: int| 0 <= i < group.len() implies ((top(group) >> (i as u8)) & 1u8)
            == #[trigger] group[i] >> 7u8 by {
            lemma_top_bit(top(rest), x, n, i as u8);
            if i < n {
                assert(group[i] == rest[i]);
            }
        }
        lemma_top_bit(top(rest), x, n, 0);
    }
}

/// Unpacking a packed group gives the group back.
proof fn lemma_group_round_trip(group: Seq<u8>)
    requires
        1 <= group.len() <= 7,
    ensures
        unpacked_group(packed_group(group)) =~= group,
{
    lemma_top(group);
    let wire = packed_group(group);
    assert forall|i: int| 0 <= i < group.len() implies unpacked_group(wire)[i] == group[i] by {
        assert(wire[i + 1] == group[i] & 0x7Fu8);
        assert(wire[0] == top(group));
        assert(unpacked_group(wire)[i] == (wire[i + 1] & 0x7Fu8) | (((wire[0] >> (i as u8))
            & 1u8) << 7u8));
        let b: u8 = group[i];
        let bit: u8 = (top(group) >> (i as u8)) & 1u8;
        assert(bit == b >> 7u8);
        assert(unpacked_group(wire)[i] == ((b & 0x7Fu8) & 0x7Fu8) | (bit << 7u8));
        assert(((b & 0x7Fu8) & 0x7Fu8) | (bit << 7u8) == b) by (bit_vector)
            requires
                bit == b >> 7u8,
        ;
        assert(unpacked_group(wire)[i] == b);
    }
}

/// Packing runs group by group, so a run of whole groups packs on its own.
proof fn lemma_packed_append(a: Seq<u8>, group: Seq<u8>)
    requires
        a.len() % 7 == 0,
        1 <= group.len() <= 7,
    ensures
        packed(a + group) =~= packed(a) + packed_group(group),
    decreases a.len(),
{
    if a.len() == 0 {
        assert(a + group =~= group);
    } else {
        assert((a + group).take(7) =~= a.take(7));
        assert((a + group).skip(7) =~= a.skip(7) + group);
        lemma_packed_append(a.skip(7), group);
        if a.len() == 7 {
            assert(a.take(7) =~= a);
            assert(a.skip(7) =~= Seq::<u8>::empty());
            assert(a.skip(7) + group =~= group);
        }
    }
}

/// Unpacking runs eight wire bytes at a time, so a run of whole groups
/// unpacks on its own.
proof fn lemma_unpacked_append(a: Seq<u8>, group: Seq<u8>)
    requires
        a.len() % 8 == 0,
        1 <= group.len() <= 8,
    ensures
        unpacked(a + group) =~= unpacked(a) + unpacked_group(group),
    decreases a.len(),
{
    if a.len() == 0 {
        assert(a + group =~= group);
    } else {
        assert((a + group).take(8) =~= a.take(8));
        assert((a + group).skip(8) =~= a.skip(8) + group);
        lemma_unpacked_append(a.skip(8), group);
        if a.len() == 8 {
            assert(a.take(8) =~= a);
            assert(a.skip(8) =~= Seq::<u8>::empty());
            assert(a.skip(8) + group =~= group);
        }
    }
}

/// Every packed byte is a data byte, and there are [`packed_len_of`] of them.
pub proof fn lemma_packed_shape(data: Seq<u8>)
    ensures
        packed(data).len() == packed_len_of(data.len()),
        forall|i: int| 0 <= i < packed(data).len() ==> #[trigger] packed(data)[i] < 0x80,
    decreases data.len(),
{
    if data.len() > 0 {
        let group = if data.len() <= 7 {
            data
        } else {
            data.take(7)
        };
        lemma_top(group);
        let n = group.len() as u8;
        let t = top(group);
        assert(t < 0x80) by (bit_vector)
            requires
                n <= 7,
                t < (1u8 << n),
        ;
        assert forall|i: int| 0 <= i < group.len() implies #[trigger] bodies(group)[i] < 0x80 by {
            let b = group[i];
            assert(b & 0x7Fu8 < 0x80) by (bit_vector);
        }
        if data.len() > 7 {
            lemma_packed_shape(data.skip(7));
            let rest = data.skip(7);
            assert(packed(data) == packed_group(group) + packed(rest));
            assert forall|i: int| 0 <= i < packed(data).len() implies #[trigger] packed(data)[i]
                < 0x80 by {
                if i >= packed_group(group).len() {
                    assert(packed(data)[i] == packed(rest)[i - packed_group(group).len()]);
                }
            }
        }
    }
}

/// Korg's packing and its inverse: whatever is packed unpacks to itself.
pub proof fn lemma_unpack_pack(data: Seq<u8>)
    ensures
        unpacked(packed(data)) =~= data,
    decreases data.len(),
{
    if data.len() == 0 {
    } else if data.len() <= 7 {
        lemma_group_round_trip(data);
        let wire = packed_group(data);
        assert(wire.len() <= 8);
    } else {
        let group = data.take(7);
        lemma_group_round_trip(group);
        lemma_unpack_pack(data.skip(7));
        let head = packed_group(group);
        let tail = packed(data.skip(7));
        assert(head.len() == 8);
        lemma_packed_shape(data.skip(7));
        assert((head + tail).take(8) =~= head);
        assert((head + tail).skip(8) =~= tail);
        assert(group + data.skip(7) =~= data);
    }
}

/// The seven-bit packing of `data`.
pub fn pack(data: &[u8]) -> (wire: Vec<u8>)
    requires
        data@.len() <= usize::MAX / 2,
    ensures
        wire@ == packed(data@),
{
    let mut wire: Vec<u8> = Vec::new();
    let mut start: usize = 0;
    while start < data.len()
        invariant
            start <= data@.len(),
            start % 7 == 0 || start == data@.len(),
            data@.len() <= usize::MAX / 2,
            wire@ == packed(data@.take(start as int)),
        decreases data@.len() - start,
    {
        let end = if data.len() - start < 7 {
            data.len()
        } else {
            start + 7
        };
        let ghost group = data@.subrange(start as int, end as int);
        let mut t: u8 = 0;
        let mut j: usize = 0;
        while j < end - start
            invariant
                start < end <= data@.len(),
                end - start <= 7,
                group == data@.subrange(start as int, end as int),
                j <= end - start,
                t == top(group.take(j as int)),
            decreases end - start - j,
        {
            proof {
                assert(group.take(j + 1).drop_last() =~= group.take(j as int));
                assert(group.take(j + 1).last() == data@[start + j]);
            }
            t = t | ((data[start + j] >> 7u8) << (j as u8));
            j = j + 1;
        }
        proof {
            assert(group.take(j as int) =~= group);
        }
        let ghost before = wire@;
        wire.push(t);
        let mut k: usize = 0;
        while k < end - start
            invariant
                start < end <= data@.len(),
                group == data@.subrange(start as int, end as int),
                k <= end - start,
                wire@ == before + seq![top(group)] + bodies(group).take(k as int),
            decreases end - start - k,
        {
            wire.push(data[start + k] & 0x7Fu8);
            proof {
                assert(bodies(group).take(k + 1) =~= bodies(group).take(k as int).push(
                    data@[start + k] & 0x7Fu8,
                ));
            }
            k = k + 1;
        }
        proof {
            assert(bodies(group).take(k as int) =~= bodies(group));
            assert(wire@ =~= before + packed_group(group));
            lemma_packed_append(data@.take(start as int), group);
            assert(data@.take(start as int) + group =~= data@.take(end as int));
            if end < data@.len() {
                assert(end == start + 7);
            }
        }
        start = end;
    }
    proof {
        assert(data@.take(start as int) =~= data@);
    }
    wire
}

/// The inverse of [`pack`]. A trailing group short of its seven bodies is
/// the tail of a scene, which is three bytes long.
pub fn unpack(wire: &[u8]) -> (data: Vec<u8>)
    ensures
        data@ == unpacked(wire@),
{
    let mut data: Vec<u8> = Vec::new();
    let mut start: usize = 0;
    while start < wire.len()
        invariant
            start <= wire@.len(),
            start % 8 == 0 || start == wire@.len(),
            data@ == unpacked(wire@.take(start as int)),
        decreases wire@.len() - start,
    {
        let end = if wire.len() - start < 8 {
            wire.len()
        } else {
            start + 8
        };
        let ghost group = wire@.subrange(start as int, end as int);
        let t = wire[start];
        let ghost before = data@;
        let mut k: usize = 1;
        while k < end - start
            invariant
                start < end <= wire@.len(),
                end - start <= 8,
                group == wire@.subrange(start as int, end as int),
                t == group[0],
                1 <= k <= end - start,
                data@ == before + unpacked_group(group).take(k - 1),
            decreases end - start - k,
        {
            let body = wire[start + k];
            data.push((body & 0x7Fu8) | (((t >> ((k - 1) as u8)) & 1u8) << 7u8));
            proof {
                assert(unpacked_group(group).take(k as int) =~= unpacked_group(group).take(
                    k - 1,
                ).push((body & 0x7Fu8) | (((t >> ((k - 1) as u8)) & 1u8) << 7u8)));
            }
            k = k + 1;
        }
        proof {
            assert(unpacked_group(group).take(k - 1) =~= unpacked_group(group));
            lemma_unpacked_append(wire@.take(start as int), group);
            assert(wire@.take(start as int) + group =~= wire@.take(end as int));
            if end < wire@.len() {
                assert(end == start + 8);
            }
        }
        start = end;
    }
    proof {
        assert(wire@.take(start as int) =~= wire@);
    }
    data
}

/// How long the unpacking of `len` wire bytes is: eight ride as seven.
pub proof fn lemma_unpacked_len(wire: Seq<u8>)
    ensures
        unpacked(wire).len() == wire.len() - (wire.len() + 7) / 8,
    decreases wire.len(),
{
    if wire.len() > 8 {
        lemma_unpacked_len(wire.skip(8));
    }
}

/// The head of a scene message addressed to the surface on `channel`, in
/// either direction. Byte 2's low nibble is where a Korg message carries the
/// channel; the tail `40` is the function, "here is a scene".
pub open spec fn head_of(channel: u8) -> Seq<u8> {
    seq![0xF0u8, KORG, 0x40u8 | channel, 0x00u8, 0x01u8, 0x13u8, 0x00u8, 0x7Fu8, 0x7Fu8, 0x02u8, 0x03u8, 0x05u8, 0x40u8]
}

/// A scene on its way to the surface on `channel`.
pub open spec fn dump_of(channel: u8, scene: Seq<u8>) -> Seq<u8> {
    head_of(channel) + packed(scene) + seq![0xF7u8]
}

/// A dump is its thirteen-byte head, the packed scene and its end: a scene
/// of [`SCENE_BYTES`] rides in 388 bytes, and its dump is 402.
pub proof fn lemma_dump_len(channel: u8, scene: Seq<u8>)
    ensures
        dump_of(channel, scene).len() == 13 + packed_len_of(scene.len()) + 1,
        packed_len_of(SCENE_BYTES as nat) == 388,
        scene.len() == SCENE_BYTES ==> dump_of(channel, scene).len() == 402,
{
    lemma_packed_shape(scene);
}

/// The scene inside a dump from the surface on `channel`: a frame of exactly
/// a scene's length, addressed to that channel and ended, and nothing else.
pub open spec fn scene_of(channel: u8, frame: Seq<u8>) -> Option<Seq<u8>> {
    if frame.len() == 13 + packed_len_of(SCENE_BYTES as nat) + 1 && frame.take(13) == head_of(
        channel,
    ) && frame.last() == 0xF7u8 {
        Some(unpacked(frame.subrange(13, frame.len() - 1)))
    } else {
        None
    }
}

/// A universal device inquiry, addressed to every channel — the one message
/// that can be sent before the surface's global MIDI channel is known.
pub open spec fn inquiry_of() -> Seq<u8> {
    seq![0xF0u8, 0x7Eu8, 0x7Fu8, 0x06u8, 0x01u8, 0xF7u8]
}

/// "Send me the scene you are playing", to the surface on `channel`.
pub open spec fn request_of(channel: u8) -> Seq<u8> {
    seq![0xF0u8, KORG, 0x40u8 | channel, 0x00u8, 0x01u8, 0x13u8, 0x00u8, 0x1Fu8, 0x10u8, 0x00u8, 0xF7u8]
}

/// The surface's global MIDI channel out of a device-inquiry reply, if the
/// reply came from a nanoKONTROL2: `F0 7E 0g 06 02 42 13 01 …`.
pub open spec fn channel_in(frame: Seq<u8>) -> Option<u8> {
    if frame.len() >= 8 && frame[0] == 0xF0 && frame[1] == 0x7E && frame[3] == 0x06 && frame[4]
        == 0x02 && frame[5] == KORG && frame[6] == 0x13 && frame[7] == 0x01 {
        Some(frame[2] & 0x0Fu8)
    } else {
        None
    }
}

/// The surface's answer to a scene it was handed: `true` for the
/// acknowledgement, `false` for the refusal, `None` for anything else.
pub open spec fn ack_in(channel: u8, frame: Seq<u8>) -> Option<bool> {
    if frame.len() == 11 && frame.take(8) == seq![0xF0u8, KORG, 0x40u8 | channel, 0x00u8, 0x01u8, 0x13u8, 0x00u8, 0x5Fu8]
        && frame[9] == 0x00 && frame[10] == 0xF7 {
        if frame[8] == 0x23 {
            Some(true)
        } else if frame[8] == 0x24 {
            Some(false)
        } else {
            None
        }
    } else {
        None
    }
}

fn push_all(out: &mut Vec<u8>, bytes: &[u8])
    ensures
        final(out)@ == old(out)@ + bytes@,
{
    let ghost before = out@;
    for i in 0..bytes.len()
        invariant
            out@ == before + bytes@.take(i as int),
    {
        out.push(bytes[i]);
        proof {
            assert(bytes@.take(i + 1) =~= bytes@.take(i as int).push(bytes@[i as int]));
        }
    }
    proof {
        assert(bytes@.take(bytes@.len() as int) =~= bytes@);
    }
}

/// The device inquiry.
pub fn inquiry() -> (frame: Vec<u8>)
    ensures
        frame@ == inquiry_of(),
{
    let mut frame: Vec<u8> = Vec::new();
    push_all(&mut frame, &[0xF0u8, 0x7E, 0x7F, 0x06, 0x01, 0xF7]);
    proof {
        assert(frame@ =~= inquiry_of());
    }
    frame
}

/// The head of a scene message on `channel`.
pub fn head(channel: u8) -> (bytes: Vec<u8>)
    ensures
        bytes@ == head_of(channel),
{
    let mut bytes: Vec<u8> = Vec::new();
    push_all(
        &mut bytes,
        &[0xF0u8, KORG, 0x40 | channel, 0x00, 0x01, 0x13, 0x00, 0x7F, 0x7F, 0x02, 0x03, 0x05, 0x40],
    );
    proof {
        assert(bytes@ =~= head_of(channel));
    }
    bytes
}

/// The scene dump request, to the surface on `channel`.
pub fn request(channel: u8) -> (bytes: Vec<u8>)
    ensures
        bytes@ == request_of(channel),
{
    let mut bytes: Vec<u8> = Vec::new();
    push_all(&mut bytes, &[0xF0u8, KORG, 0x40 | channel, 0x00, 0x01, 0x13, 0x00, 0x1F, 0x10, 0x00, 0xF7]);
    proof {
        assert(bytes@ =~= request_of(channel));
    }
    bytes
}

/// A scene, on its way back to the surface.
pub fn dump(channel: u8, scene: &[u8]) -> (bytes: Vec<u8>)
    requires
        scene@.len() <= usize::MAX / 4,
    ensures
        bytes@ == dump_of(channel, scene@),
{
    let mut bytes = head(channel);
    let body = pack(scene);
    push_all(&mut bytes, body.as_slice());
    bytes.push(0xF7);
    proof {
        assert(bytes@ =~= dump_of(channel, scene@));
    }
    bytes
}

fn same(a: &[u8], b: &[u8]) -> (equal: bool)
    ensures
        equal == (a@ == b@),
{
    if a.len() != b.len() {
        return false;
    }
    for i in 0..a.len()
        invariant
            a@.len() == b@.len(),
            forall|j: int| 0 <= j < i ==> a@[j] == b@[j],
    {
        if a[i] != b[i] {
            return false;
        }
    }
    proof {
        assert(a@ =~= b@);
    }
    true
}

/// The scene inside a dump from the surface on `channel`, decoded. The
/// length is settled before anything is indexed, so a dump that is not one
/// is refused rather than read at whatever offsets it happens to have.
pub fn scene_in(channel: u8, frame: &[u8]) -> (scene: Option<Vec<u8>>)
    ensures
        match scene {
            Some(s) => scene_of(channel, frame@) == Some(s@),
            None => scene_of(channel, frame@) is None,
        },
        scene matches Some(s) ==> s@.len() == SCENE_BYTES,
{
    let head = head(channel);
    if frame.len() != 13 + packed_len(SCENE_BYTES) + 1 {
        return None;
    }
    let opening = &frame[0..13];
    if !same(opening, head.as_slice()) || frame[frame.len() - 1] != 0xF7 {
        proof {
            assert(frame@.take(13) =~= opening@);
        }
        return None;
    }
    proof {
        assert(frame@.take(13) =~= opening@);
    }
    let body = &frame[13..frame.len() - 1];
    let scene = unpack(body);
    proof {
        lemma_unpacked_len(body@);
    }
    Some(scene)
}

/// The global MIDI channel out of a device-inquiry reply, if it came from a
/// nanoKONTROL2. Masked to a nibble: every message after it is addressed by
/// or-ing it into a status byte, which a wider value would turn into a
/// different message entirely.
pub fn channel_of(frame: &[u8]) -> (channel: Option<u8>)
    ensures
        channel == channel_in(frame@),
        channel matches Some(c) ==> c < 16,
{
    if frame.len() >= 8 && frame[0] == 0xF0 && frame[1] == 0x7E && frame[3] == 0x06 && frame[4]
        == 0x02 && frame[5] == KORG && frame[6] == 0x13 && frame[7] == 0x01 {
        let raw = frame[2];
        let c = raw & 0x0F;
        assert(c < 16) by (bit_vector)
            requires
                c == raw & 0x0Fu8,
        ;
        Some(c)
    } else {
        None
    }
}

/// Whether a frame is the surface's answer to a scene it was handed. The
/// acknowledgement and the refusal differ in one byte, which is why they
/// are read together.
pub fn ack(channel: u8, frame: &[u8]) -> (answer: Option<bool>)
    ensures
        answer == ack_in(channel, frame@),
{
    if frame.len() != 11 {
        return None;
    }
    let mut expected: Vec<u8> = Vec::new();
    push_all(&mut expected, &[0xF0u8, KORG, 0x40 | channel, 0x00, 0x01, 0x13, 0x00, 0x5F]);
    let opening = &frame[0..8];
    proof {
        assert(frame@.take(8) =~= opening@);
        assert(expected@ =~= seq![0xF0u8, KORG, 0x40u8 | channel, 0x00u8, 0x01u8, 0x13u8, 0x00u8, 0x5Fu8]);
    }
    if !same(opening, expected.as_slice()) || frame[9] != 0x00 || frame[10] != 0xF7 {
        return None;
    }
    if frame[8] == 0x23 {
        Some(true)
    } else if frame[8] == 0x24 {
        Some(false)
    } else {
        None
    }
}

/// A scene read back out of the dump that carried it is the scene that
/// went in; and addressed to any other channel, it is another surface's.
pub proof fn lemma_scene_round_trip(channel: u8, other: u8, scene: Seq<u8>)
    requires
        channel < 16,
        other < 16,
        scene.len() == SCENE_BYTES,
    ensures
        scene_of(channel, dump_of(channel, scene)) == Some(scene),
        other != channel ==> scene_of(other, dump_of(channel, scene)) is None,
{
    lemma_packed_shape(scene);
    lemma_unpack_pack(scene);
    let frame = dump_of(channel, scene);
    assert(frame.take(13) =~= head_of(channel));
    assert(frame.subrange(13, frame.len() - 1) =~= packed(scene));
    if other != channel {
        assert(0x40u8 | other != 0x40u8 | channel) by (bit_vector)
            requires
                other < 16,
                channel < 16,
                other != channel,
        ;
        assert(head_of(other)[2] != frame.take(13)[2]);
    }
}

/// Whether the lamp of control number `cc` is in `mask`. A set of lamps is
/// one bit per control number: a `u128` is exactly the 128 numbers a control
/// change can name, so a mask cannot address a lamp that could not exist.
pub open spec fn has_lamp(mask: u128, cc: u8) -> bool {
    (mask >> cc) & 1u128 == 1u128
}

/// The control numbers below `n` that `mask` names, low to high.
pub open spec fn controls_below(mask: u128, n: nat) -> Seq<u8>
    decreases n,
{
    if n == 0 {
        Seq::empty()
    } else if has_lamp(mask, (n - 1) as u8) {
        controls_below(mask, (n - 1) as nat).push((n - 1) as u8)
    } else {
        controls_below(mask, (n - 1) as nat)
    }
}

/// Every control number `mask` names, low to high.
pub open spec fn controls_of(mask: u128) -> Seq<u8> {
    controls_below(mask, 128)
}

/// A control change to each of `ccs` in turn, at `value`, on `channel`.
pub open spec fn messages(channel: u8, ccs: Seq<u8>, value: u8) -> Seq<u8>
    decreases ccs.len(),
{
    if ccs.len() == 0 {
        Seq::empty()
    } else {
        messages(channel, ccs.drop_last(), value) + seq![CONTROL | channel, ccs.last(), value]
    }
}

/// What making the panel show `want` puts on the wire, given that `lit` is
/// what it shows now: the lamps going out, and then the lamps coming on, so
/// a lamp moving from one button to the next never spends even one message
/// with both alight.
pub open spec fn lighting(channel: u8, lit: u128, want: u128) -> Seq<u8> {
    messages(channel, controls_of(lit & !want), DARK) + messages(channel, controls_of(want & !lit), LIT)
}

/// The one lamp of control number `cc`.
pub fn lamp(cc: u8) -> (mask: u128)
    requires
        cc < 128,
    ensures
        mask == 1u128 << cc,
        has_lamp(mask, cc),
        forall|other: u8| other < 128 && other != cc ==> !has_lamp(mask, other),
{
    let mask = 1u128 << cc;
    assert(has_lamp(mask, cc)) by (bit_vector)
        requires
            cc < 128,
            mask == 1u128 << cc,
    ;
    assert forall|other: u8| other < 128 && other != cc implies !has_lamp(mask, other) by {
        assert(!has_lamp(mask, other)) by (bit_vector)
            requires
                cc < 128,
                other < 128,
                other != cc,
                mask == 1u128 << cc,
        ;
    }
    mask
}

/// The control numbers a mask names, low to high.
pub fn controls(mask: u128) -> (ccs: Vec<u8>)
    ensures
        ccs@ == controls_of(mask),
{
    let mut ccs: Vec<u8> = Vec::new();
    let mut cc: u8 = 0;
    while cc < 128
        invariant
            cc <= 128,
            ccs@ == controls_below(mask, cc as nat),
        decreases 128 - cc,
    {
        if (mask >> cc) & 1 == 1 {
            ccs.push(cc);
        }
        cc = cc + 1;
    }
    ccs
}

fn push_messages(out: &mut Vec<u8>, channel: u8, ccs: &Vec<u8>, value: u8)
    ensures
        final(out)@ == old(out)@ + messages(channel, ccs@, value),
{
    let ghost before = out@;
    for i in 0..ccs.len()
        invariant
            out@ == before + messages(channel, ccs@.take(i as int), value),
    {
        out.push(CONTROL | channel);
        out.push(ccs[i]);
        out.push(value);
        proof {
            let done = ccs@.take(i + 1);
            assert(done.drop_last() =~= ccs@.take(i as int));
            assert(done.last() == ccs@[i as int]);
        }
    }
    proof {
        assert(ccs@.take(ccs@.len() as int) =~= ccs@);
    }
}

/// Make the panel show exactly `want`, of the lamps in `buttons`, given that
/// it shows `lit` now: the bytes to write, and what the panel shows after
/// them. Nothing outside `buttons` is ever asked for — they are every
/// control number the map binds to a button — and a panel that already
/// shows what is wanted is written nothing.
pub fn light(channel: u8, buttons: u128, lit: u128, want: u128) -> (change: (Vec<u8>, u128))
    ensures
        change.1 == want & buttons,
        change.0@ == lighting(channel, lit, want & buttons),
{
    let want = want & buttons;
    let offs = controls(lit & !want);
    let ons = controls(want & !lit);
    let mut bytes: Vec<u8> = Vec::new();
    push_messages(&mut bytes, channel, &offs, DARK);
    push_messages(&mut bytes, channel, &ons, LIT);
    (bytes, want)
}

proof fn lemma_no_controls(mask: u128, n: nat)
    requires
        mask == 0,
        n <= 128,
    ensures
        controls_below(mask, n) =~= Seq::<u8>::empty(),
    decreases n,
{
    if n > 0 {
        let cc = (n - 1) as u8;
        assert(!has_lamp(mask, cc)) by (bit_vector)
            requires
                mask == 0,
        ;
        lemma_no_controls(mask, (n - 1) as nat);
    }
}

/// Saying the same panel again puts nothing on the wire: once the panel
/// shows what was asked for, asking for it again writes no byte.
pub proof fn lemma_light_again_is_silent(channel: u8, buttons: u128, want: u128)
    ensures
        lighting(channel, want & buttons, want & buttons) =~= Seq::<u8>::empty(),
{
    let w = want & buttons;
    assert(w & !w == 0) by (bit_vector);
    lemma_no_controls(w & !w, 128);
}

/// Every control number below `n` that `controls_below` names is one the
/// mask holds.
proof fn lemma_controls_in_mask(mask: u128, n: nat)
    requires
        n <= 128,
    ensures
        forall|i: int|
            0 <= i < controls_below(mask, n).len() ==> has_lamp(mask, #[trigger] controls_below(mask, n)[i])
                && controls_below(mask, n)[i] < n,
    decreases n,
{
    if n > 0 {
        lemma_controls_in_mask(mask, (n - 1) as nat);
        let prev = controls_below(mask, (n - 1) as nat);
        let all = controls_below(mask, n);
        assert forall|i: int| 0 <= i < all.len() implies has_lamp(mask, #[trigger] all[i]) && all[i]
            < n by {
            if i < prev.len() {
                assert(all[i] == prev[i]);
            }
        }
    }
}

/// The lamps a change of panel writes are the lamps that were lit or are
/// wanted, and nothing else: so with the panel only ever lit on buttons,
/// a control number that is not a button never reaches the wire.
pub proof fn lemma_light_touches_only(channel: u8, buttons: u128, lit: u128, want: u128, i: int)
    requires
        lit & !buttons == 0,
        0 <= i < controls_of(lit & !(want & buttons)).len() + controls_of((want & buttons) & !lit).len(),
    ensures
        has_lamp(
            buttons,
            (controls_of(lit & !(want & buttons)) + controls_of((want & buttons) & !lit))[i],
        ),
{
    let w = want & buttons;
    let offs = controls_of(lit & !w);
    let ons = controls_of(w & !lit);
    lemma_controls_in_mask(lit & !w, 128);
    lemma_controls_in_mask(w & !lit, 128);
    let cc = (offs + ons)[i];
    if i < offs.len() {
        assert(has_lamp(lit & !w, cc));
        assert(has_lamp(buttons, cc)) by (bit_vector)
            requires
                has_lamp(lit & !w, cc),
                lit & !buttons == 0,
                cc < 128,
        ;
    } else {
        assert(cc == ons[i - offs.len()]);
        assert(has_lamp(w & !lit, cc));
        assert(has_lamp(buttons, cc)) by (bit_vector)
            requires
                has_lamp(w & !lit, cc),
                w == want & buttons,
                cc < 128,
        ;
    }
}

} // verus!
