//! The bank of monitors: how its layers are laid out, what it costs, and
//! how an 8-bit frame is written into its half-float texels.

use vstd::prelude::*;
use crate::text::{decimal, push_decimal};

verus! {

/// One texel of the bank, in bytes: four channels of half float.
pub const TEXEL_BYTES: u64 = 8;

/// The most GPU memory a bank may ask for: 2 GiB. The rig's five monitors
/// two frames deep, plus the seed, are 1.3 GiB of half float at 3840x2160;
/// a card asked for more than it has fails inside the driver rather than
/// at the command line.
pub const MAX_BANK_BYTES: u64 = 2 << 30;

/// The most layers a texture array holds on every WebGPU implementation,
/// since the browser build asks for no more than that.
pub const MAX_LAYERS: usize = 256;

/// `wgpu::TextureFormat::Rgba16Float.block_copy_size(None)`: the bytes one
/// texel of the bank's format takes, asked of the format rather than
/// written down beside it. wgpu's table of formats gives it eight, four
/// channels of half float, and that is all this claims.
#[verifier::external_body]
fn monitor_texel_bytes() -> (bytes: Option<u32>)
    ensures
        bytes == Some(TEXEL_BYTES as u32),
{
    wgpu::TextureFormat::Rgba16Float.block_copy_size(None)
}

/// `wgpu::Limits::default().max_texture_array_layers`: the layers a texture
/// array holds under the limits wgpu guarantees on every backend and on
/// WebGPU. wgpu's defaults give 256, and that is all this claims.
#[verifier::external_body]
fn deepest() -> (layers: u32)
    ensures
        layers == MAX_LAYERS,
{
    wgpu::Limits::default().max_texture_array_layers
}

/// How the bank's layers are laid out: `history` slabs of the monitors as a
/// ring, then the seed's own layer. The one place a layer index comes from.
#[derive(Clone, Copy, Debug, PartialEq, Eq, Structural)]
pub struct Shape {
    pub history: usize,
    pub monitors: usize,
}

/// The longest hold among cameras of these frame dividers: a camera that
/// keeps each frame `divider` passes holds it `divider - 1` past the first.
/// None for no cameras.
pub open spec fn longest_hold(dividers: Seq<u32>) -> nat
    decreases dividers.len(),
{
    if dividers.len() == 0 {
        0
    } else {
        let rest = longest_hold(dividers.drop_last());
        let hold = (dividers.last() - 1) as nat;
        if hold > rest {
            hold
        } else {
            rest
        }
    }
}

/// The slabs of the ring a graph needs: the frame a pass is drawing, the one
/// every camera reads, one more per frame of the units' reach `delay`, and
/// the longest hold on top.
pub open spec fn spec_history(delay: u32, dividers: Seq<u32>) -> int {
    2 + delay + longest_hold(dividers)
}

/// The ring holds every camera's hold: it is the two frames every pass
/// needs, the reach, and the longest hold of any camera — at least each
/// camera's, and exactly one camera's, or none for no cameras.
pub proof fn lemma_the_ring_holds_every_hold(delay: u32, dividers: Seq<u32>)
    requires
        forall|i: int| 0 <= i < dividers.len() ==> dividers[i] >= 1,
    ensures
        forall|i: int|
            0 <= i < dividers.len() ==> spec_history(delay, dividers) >= 2 + delay + dividers[i] - 1,
        dividers.len() == 0 ==> spec_history(delay, dividers) == 2 + delay,
        dividers.len() > 0 ==> exists|i: int|
            0 <= i < dividers.len() && spec_history(delay, dividers) == 2 + delay + dividers[i] - 1,
    decreases dividers.len(),
{
    if dividers.len() > 0 {
        let rest = dividers.drop_last();
        lemma_the_ring_holds_every_hold(delay, rest);
        let last = dividers.len() - 1;
        assert forall|i: int|
            0 <= i < dividers.len() implies spec_history(delay, dividers) >= 2 + delay + dividers[i] - 1 by {
            if i < last {
                assert(dividers[i] == rest[i]);
            }
        }
        if longest_hold(dividers) == (dividers[last] - 1) as nat {
            assert(spec_history(delay, dividers) == 2 + delay + dividers[last] - 1);
        } else {
            let j = choose|j: int|
                0 <= j < rest.len() && spec_history(delay, rest) == 2 + delay + rest[j] - 1;
            assert(dividers[j] == rest[j]);
        }
    }
}

/// The slabs of the ring a graph of reach `delay`, whose cameras keep a frame
/// `dividers` passes each, needs.
pub fn history(delay: u32, dividers: &[u32]) -> (slabs: usize)
    requires
        forall|i: int| 0 <= i < dividers@.len() ==> dividers@[i] >= 1,
        spec_history(delay, dividers@) <= usize::MAX,
    ensures
        slabs == spec_history(delay, dividers@),
        forall|i: int| 0 <= i < dividers@.len() ==> slabs >= 2 + delay + dividers@[i] - 1,
        dividers@.len() == 0 ==> slabs == 2 + delay,
        dividers@.len() > 0 ==> exists|i: int|
            0 <= i < dividers@.len() && slabs == 2 + delay + dividers@[i] - 1,
{
    proof {
        lemma_the_ring_holds_every_hold(delay, dividers@);
    }
    let mut hold: u32 = 0;
    let mut i: usize = 0;
    while i < dividers.len()
        invariant
            i <= dividers@.len(),
            forall|j: int| 0 <= j < dividers@.len() ==> dividers@[j] >= 1,
            hold == longest_hold(dividers@.take(i as int)),
        decreases dividers@.len() - i,
    {
        let d = dividers[i];
        proof {
            assert(dividers@.take(i + 1).drop_last() =~= dividers@.take(i as int));
        }
        if d - 1 > hold {
            hold = d - 1;
        }
        i = i + 1;
    }
    proof {
        assert(dividers@.take(dividers@.len() as int) =~= dividers@);
    }
    2 + delay as usize + hold as usize
}

impl Shape {
    /// The bank of a graph of `monitors` monitors, reach `delay` and frame
    /// `dividers`: as many slabs as [`history`] counts.
    pub fn of(delay: u32, dividers: &[u32], monitors: usize) -> (shape: Shape)
        requires
            forall|i: int| 0 <= i < dividers@.len() ==> dividers@[i] >= 1,
            spec_history(delay, dividers@) <= usize::MAX,
        ensures
            shape.history == spec_history(delay, dividers@),
            shape.monitors == monitors,
    {
        Shape { history: history(delay, dividers), monitors }
    }

    /// Every layer: the whole ring, and the seed.
    pub open spec fn spec_layers(self) -> int {
        self.history * self.monitors + 1
    }

    pub fn layers(self) -> (layers: usize)
        requires
            self.spec_layers() <= usize::MAX,
        ensures
            layers == self.spec_layers(),
    {
        assert(self.history * self.monitors <= usize::MAX) by (nonlinear_arith)
            requires
                self.history * self.monitors + 1 <= usize::MAX,
        ;
        self.history * self.monitors + 1
    }

    /// The layer of monitor `m` in slab `slab`.
    pub fn monitor(self, slab: usize, m: usize) -> (layer: usize)
        requires
            slab < self.history,
            m < self.monitors,
            self.spec_layers() <= usize::MAX,
        ensures
            layer == slab * self.monitors + m,
            layer < self.history * self.monitors,
    {
        assert(slab * self.monitors + m < self.history * self.monitors) by (nonlinear_arith)
            requires
                slab < self.history,
                m < self.monitors,
        ;
        slab * self.monitors + m
    }

    /// The seed: past the whole ring, since it is never delayed.
    pub fn seed(self) -> (layer: usize)
        requires
            self.spec_layers() <= usize::MAX,
        ensures
            layer == self.history * self.monitors,
    {
        self.history * self.monitors
    }

    /// The slab holding the frame `back` passes before the newest, which
    /// sits in slab `newest`: counting back round the ring. The slab after
    /// the newest is the one being written, which no count may reach.
    pub fn back(self, newest: usize, back: u32) -> (slab: usize)
        requires
            newest < self.history,
            back + 2 <= self.history,
            newest + self.history <= usize::MAX,
        ensures
            slab == (newest + self.history - back) % (self.history as int),
            slab < self.history,
    {
        (newest + self.history - back as usize) % self.history
    }
}

/// What the bank costs at monitors of `width` by `height`.
pub open spec fn spec_bank_bytes(shape: Shape, width: u32, height: u32) -> int {
    shape.spec_layers() * width * height * TEXEL_BYTES
}

pub fn bank_bytes(shape: Shape, size: (u32, u32)) -> (bytes: u64)
    requires
        shape.spec_layers() <= usize::MAX,
        spec_bank_bytes(shape, size.0, size.1) <= u64::MAX,
    ensures
        bytes == spec_bank_bytes(shape, size.0, size.1),
{
    let layers = shape.layers() as u64;
    if size.0 == 0 || size.1 == 0 {
        assert(shape.spec_layers() * size.0 * size.1 * TEXEL_BYTES == 0) by (nonlinear_arith)
            requires
                size.0 == 0 || size.1 == 0,
        ;
        return 0;
    }
    proof {
        let a = layers as int;
        let b = size.0 as int;
        let c = size.1 as int;
        assert(a * b <= u64::MAX && a * b * c <= u64::MAX) by (nonlinear_arith)
            requires
                a >= 1,
                b >= 1,
                c >= 1,
                a * b * c * 8 <= u64::MAX,
        ;
    }
    let texel = monitor_texel_bytes().unwrap() as u64;
    layers * size.0 as u64 * size.1 as u64 * texel
}

/// `bytes` in GiB to one decimal place, as `{:.1}` writes the quotient:
/// to the nearest tenth, a tie to the even one.
pub open spec fn gib_tenths(bytes: nat) -> nat {
    let whole = bytes * 10 / 0x4000_0000;
    let rest = bytes * 10 % 0x4000_0000;
    if 2 * rest > 0x4000_0000 || (2 * rest == 0x4000_0000 && whole % 2 == 1) {
        whole + 1
    } else {
        whole
    }
}

/// A number of tenths, written with its one decimal place.
pub open spec fn tenths_text(tenths: nat) -> Seq<char> {
    decimal(tenths / 10) + "."@ + decimal(tenths % 10)
}

/// What the bank is, as a refusal names it: how many layers, of how many
/// frames of how many monitors.
pub open spec fn bank_what(shape: Shape) -> Seq<char> {
    decimal(shape.spec_layers() as nat) + " bank layers ("@ + decimal(shape.history as nat)
        + " frames of "@ + decimal(shape.monitors as nat) + " monitors, and the seed)"@
}

/// Why a bank does not fit, if it does not: too deep for a texture array,
/// or past the cap in bytes — with the figures in the refusal, since the
/// resolution is chosen at the command line and the depth comes from the
/// rig and its reach, and no one of them alone is what went wrong.
pub open spec fn bank_refusal(shape: Shape, width: u32, height: u32) -> Option<Seq<char>> {
    if shape.spec_layers() > MAX_LAYERS {
        Some(bank_what(shape) + " is deeper than the "@ + decimal(MAX_LAYERS as nat)
            + " layers a texture array holds"@)
    } else if spec_bank_bytes(shape, width, height) > MAX_BANK_BYTES {
        Some(bank_what(shape) + " at "@ + decimal(width as nat) + "x"@ + decimal(height as nat)
            + " is "@ + tenths_text(gib_tenths(spec_bank_bytes(shape, width, height) as nat))
            + " GiB of bank, past the "@ + tenths_text(gib_tenths(MAX_BANK_BYTES as nat))
            + " GiB cap"@)
    } else {
        None
    }
}

fn push_tenths(text: &mut String, bytes: u128)
    requires
        bytes <= 0x1_0000_0000_0000_0000_0000,
    ensures
        final(text)@ == old(text)@ + tenths_text(gib_tenths(bytes as nat)),
{
    let whole = bytes / 0x4000_0000 * 10 + bytes % 0x4000_0000 * 10 / 0x4000_0000;
    let rest = bytes % 0x4000_0000 * 10 % 0x4000_0000;
    assert(whole == bytes * 10 / 0x4000_0000 && rest == bytes * 10 % 0x4000_0000) by (nonlinear_arith)
        requires
            whole == bytes / 0x4000_0000 * 10 + bytes % 0x4000_0000 * 10 / 0x4000_0000,
            rest == bytes % 0x4000_0000 * 10 % 0x4000_0000,
    ;
    let tenths = if 2 * rest > 0x4000_0000 || (2 * rest == 0x4000_0000 && whole % 2 == 1) {
        whole + 1
    } else {
        whole
    };
    push_decimal(text, (tenths / 10) as u64);
    text.append(".");
    push_decimal(text, (tenths % 10) as u64);
    proof {
        reveal_strlit(".");
    }
    assert(final(text)@ =~= old(text)@ + tenths_text(gib_tenths(bytes as nat)));
}

fn push_what(text: &mut String, shape: Shape)
    requires
        shape.spec_layers() <= usize::MAX,
    ensures
        final(text)@ == old(text)@ + bank_what(shape),
{
    push_decimal(text, shape.layers() as u64);
    text.append(" bank layers (");
    push_decimal(text, shape.history as u64);
    text.append(" frames of ");
    push_decimal(text, shape.monitors as u64);
    text.append(" monitors, and the seed)");
    assert(final(text)@ =~= old(text)@ + bank_what(shape));
}

/// Whether the bank fits the cap and one texture array, and why not if it
/// does not.
pub fn bank_fits(shape: Shape, size: (u32, u32)) -> (fits: Result<(), String>)
    requires
        shape.spec_layers() <= usize::MAX,
    ensures
        match fits {
            Ok(()) => bank_refusal(shape, size.0, size.1) is None,
            Err(why) => bank_refusal(shape, size.0, size.1) == Some(why@),
        },
{
    let layers = shape.layers();
    let deepest = deepest() as usize;
    if layers > deepest {
        let mut why = String::new();
        push_what(&mut why, shape);
        why.append(" is deeper than the ");
        push_decimal(&mut why, deepest as u64);
        why.append(" layers a texture array holds");
        assert(why@ =~= bank_refusal(shape, size.0, size.1)->0);
        return Err(why);
    }
    assert(spec_bank_bytes(shape, size.0, size.1) <= 256 * 0xFFFF_FFFF * 0xFFFF_FFFF * 8) by (nonlinear_arith)
        requires
            1 <= shape.spec_layers() <= 256,
            0 <= size.0 <= 0xFFFF_FFFF,
            0 <= size.1 <= 0xFFFF_FFFF,
    ;
    assert(layers * size.0 <= 256 * 0xFFFF_FFFF) by (nonlinear_arith)
        requires
            layers <= 256,
            size.0 <= 0xFFFF_FFFF,
    ;
    let wide = layers as u128 * size.0 as u128;
    let area = wide * size.1 as u128;
    assert(area <= 256 * 0xFFFF_FFFF * 0xFFFF_FFFF) by (nonlinear_arith)
        requires
            area == wide * size.1,
            wide <= 256 * 0xFFFF_FFFF,
            size.1 <= 0xFFFF_FFFF,
    ;
    let bytes = area * monitor_texel_bytes().unwrap() as u128;
    assert(bytes == spec_bank_bytes(shape, size.0, size.1));
    if bytes > MAX_BANK_BYTES as u128 {
        let mut why = String::new();
        push_what(&mut why, shape);
        why.append(" at ");
        push_decimal(&mut why, size.0 as u64);
        why.append("x");
        push_decimal(&mut why, size.1 as u64);
        why.append(" is ");
        push_tenths(&mut why, bytes);
        why.append(" GiB of bank, past the ");
        push_tenths(&mut why, MAX_BANK_BYTES as u128);
        why.append(" GiB cap");
        assert(why@ =~= bank_refusal(shape, size.0, size.1)->0);
        return Err(why);
    }
    Ok(())
}

/// The binary exponent of an 8-bit channel `v` as a fraction of 255, as a
/// count of halvings: the `k` with `255 <= v * 2^k < 510`.
pub open spec fn halvings(v: nat) -> nat {
    if v >= 255 {
        0
    } else if v >= 128 {
        1
    } else if v >= 64 {
        2
    } else if v >= 32 {
        3
    } else if v >= 16 {
        4
    } else if v >= 8 {
        5
    } else if v >= 4 {
        6
    } else if v >= 2 {
        7
    } else {
        8
    }
}

/// Two to the `k`, for the halvings a channel can need.
pub open spec fn pow2(k: nat) -> nat {
    if k == 0 {
        1
    } else if k == 1 {
        2
    } else if k == 2 {
        4
    } else if k == 3 {
        8
    } else if k == 4 {
        16
    } else if k == 5 {
        32
    } else if k == 6 {
        64
    } else if k == 7 {
        128
    } else {
        256
    }
}

/// The eleven significant bits of the half float nearest `v / 255`, as a
/// whole number from 1024 to 2048: `v / 255` scaled up by `2^(k + 11)` and
/// rounded to the nearest whole, a tie up.
pub open spec fn significand(v: nat) -> nat {
    (v * pow2(halvings(v)) * 2048 + 255) / 510
}

/// The bits of the IEEE binary16 nearest `v / 255`, for an 8-bit channel
/// `v`: zero for zero, and otherwise the biased exponent and the ten stored
/// bits of the significand — a significand that rounded up to 2048 carries
/// into the exponent, which is what adding the two does.
pub open spec fn half(v: nat) -> nat {
    if v == 0 {
        0
    } else {
        ((14 - halvings(v)) * 1024 + significand(v)) as nat
    }
}

/// The stored value is the channel to within half a step of the half
/// float's own spacing there: `significand / 2^(k + 10)` is within half of
/// `1 / 2^(k + 10)` of `v / 255`, which is what rounding to nearest is —
/// scaled through by `510 * 2^(k + 10)`, the two differ by at most 255. The
/// ends of the scale are exact.
pub proof fn lemma_half_is_nearest(v: nat)
    requires
        1 <= v <= 255,
    ensures
        1024 <= significand(v) <= 2048,
        510 * significand(v) - v * pow2(halvings(v)) * 2048 <= 255,
        v * pow2(halvings(v)) * 2048 - 510 * significand(v) <= 255,
        half(255) == 0x3c00,
        half(v) < 0x10000,
{
    let p = pow2(halvings(v));
    let scaled = v * p;
    assert(255 <= scaled < 510);
    let x = scaled * 2048;
    let q = significand(v);
    assert(q * 510 <= x + 255 < q * 510 + 510);
    assert(1024 <= q <= 2048);
}

/// The half float nearest channel value `v / 255`.
pub fn half_of(v: u8) -> (bits: u16)
    ensures
        bits == half(v as nat),
{
    if v == 0 {
        return 0;
    }
    let (k, scale): (u32, u32) = if v == 255 {
        (0, 1)
    } else if v >= 128 {
        (1, 2)
    } else if v >= 64 {
        (2, 4)
    } else if v >= 32 {
        (3, 8)
    } else if v >= 16 {
        (4, 16)
    } else if v >= 8 {
        (5, 32)
    } else if v >= 4 {
        (6, 64)
    } else if v >= 2 {
        (7, 128)
    } else {
        (8, 256)
    };
    assert(k == halvings(v as nat) && scale == pow2(k as nat));
    proof {
        lemma_half_is_nearest(v as nat);
    }
    let scaled = v as u32 * scale;
    assert(255 <= scaled < 510);
    let q = (scaled * 2048 + 255) / 510;
    ((14 - k) * 1024 + q) as u16
}

/// One 8-bit channel as the bits of the half float the bank stores, for all
/// 256 of them: an input frame is millions of these, and the domain is
/// small enough to be a table rather than arithmetic.
pub fn half_table() -> (table: Vec<u16>)
    ensures
        table@.len() == 256,
        forall|v: int| 0 <= v < 256 ==> #[trigger] table@[v] == half(v as nat),
{
    let mut table: Vec<u16> = Vec::new();
    let mut v: u32 = 0;
    while v < 256
        invariant
            v <= 256,
            table@.len() == v,
            forall|j: int| 0 <= j < v ==> #[trigger] table@[j] == half(j as nat),
        decreases 256 - v,
    {
        table.push(half_of(v as u8));
        v = v + 1;
    }
    table
}

/// A tightly packed RGBA8 frame in the bank's format, refilling `halves`
/// rather than returning a new one: the capacity survives, so an input that
/// hands over a frame every frame allocates on its first only.
pub fn to_half(rgba8: &[u8], halves: &mut Vec<u16>)
    ensures
        final(halves)@.len() == rgba8@.len(),
        forall|i: int| 0 <= i < rgba8@.len() ==> #[trigger] final(halves)@[i] == half(rgba8@[i] as nat),
{
    let table = half_table();
    halves.clear();
    let mut i: usize = 0;
    while i < rgba8.len()
        invariant
            table@.len() == 256,
            forall|v: int| 0 <= v < 256 ==> #[trigger] table@[v] == half(v as nat),
            i <= rgba8@.len(),
            halves@.len() == i,
            forall|j: int| 0 <= j < i ==> #[trigger] halves@[j] == half(rgba8@[j] as nat),
        decreases rgba8@.len() - i,
    {
        halves.push(table[rgba8[i] as usize]);
        i = i + 1;
    }
}

} // verus!
