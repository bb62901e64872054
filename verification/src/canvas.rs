//! A small picture in three inks, drawn a texel at a time: boxes, frames,
//! rings, lines and text in the basic-Latin glyphs of an 8x8 font. Every
//! drawing operation is stated as which texels it puts in its ink, so a
//! picture built of them is the composition of those statements.

use vstd::prelude::*;

use crate::text::chars_of;
use vstd::arithmetic::div_mod::{
    lemma_fundamental_div_mod,
    lemma_fundamental_div_mod_converse,
    lemma_mod_pos_bound,
    lemma_multiply_divide_lt,
    lemma_div_pos_is_pos,
};

verus! {

/// The three inks the panel is drawn in: the translucent ground, a dim line
/// for what is on the device but bound to nothing, and full white for what
/// is bound.
#[derive(Clone, Copy, Debug, PartialEq, Eq, Structural)]
pub enum Ink {
    Back,
    Dim,
    Lit,
}

impl Ink {
    /// The ink as the texture holds it: red, green, blue and alpha.
    pub open spec fn spec_rgba(self) -> Seq<u8> {
        match self {
            Ink::Back => seq![0u8, 0u8, 0u8, 200u8],
            Ink::Dim => seq![255u8, 255u8, 255u8, 70u8],
            Ink::Lit => seq![255u8, 255u8, 255u8, 255u8],
        }
    }

    pub fn rgba(self) -> (rgba: [u8; 4])
        ensures
            rgba@ == self.spec_rgba(),
    {
        let rgba: [u8; 4] = match self {
            Ink::Back => [0, 0, 0, 200],
            Ink::Dim => [255, 255, 255, 70],
            Ink::Lit => [255, 255, 255, 255],
        };
        assert(rgba@ =~= self.spec_rgba());
        rgba
    }
}

/// The texels of a canvas `width` wide with every texel that `marked` names
/// by its column and row put in `ink`, and every other left as it was.
/// Texels are laid out a row at a time, so texel `i` is column `i % width`
/// of row `i / width`.
pub open spec fn painted(
    texels: Seq<Ink>,
    width: int,
    marked: spec_fn(int, int) -> bool,
    ink: Ink,
) -> Seq<Ink> {
    Seq::new(texels.len(), |i: int| if marked(i % width, i / width) { ink } else { texels[i] })
}

/// The one texel at column `x` of row `y`.
pub open spec fn point(x: int, y: int) -> spec_fn(int, int) -> bool {
    |a: int, b: int| a == x && b == y
}

/// The `w` by `h` box whose top left texel is `(x, y)`.
pub open spec fn in_box(x: int, y: int, w: int, h: int) -> spec_fn(int, int) -> bool {
    |a: int, b: int| x <= a < x + w && y <= b < y + h
}

/// The one-texel border of the `w` by `h` box whose top left texel is
/// `(x, y)`.
pub open spec fn on_frame(x: int, y: int, w: int, h: int) -> spec_fn(int, int) -> bool {
    |a: int, b: int|
        (x <= a < x + w && (b == y || b == y + h - 1)) || (y <= b < y + h && (a == x || a == x
            + w - 1))
}

/// Whether the offset `(dx, dy)` from a ring's centre lies within half a
/// texel of the circle of radius `r`: the texels a ring of that radius is
/// drawn with.
pub open spec fn near_circle(dx: int, dy: int, r: int) -> bool {
    &&& 4 * (dx * dx + dy * dy) <= (2 * r + 1) * (2 * r + 1)
    &&& (2 * r - 1 <= 0 || (2 * r - 1) * (2 * r - 1) <= 4 * (dx * dx + dy * dy))
}

/// The ring of radius `r` about `(cx, cy)`.
pub open spec fn on_ring(cx: int, cy: int, r: int) -> spec_fn(int, int) -> bool {
    |a: int, b: int| -r <= a - cx <= r && -r <= b - cy <= r && near_circle(a - cx, b - cy, r)
}

/// `n / d` rounded to the nearest whole number, a half away from zero.
pub open spec fn rounded(n: int, d: int) -> int
    recommends
        0 < d,
{
    if n >= 0 {
        (2 * n + d) / (2 * d)
    } else {
        -((d - 2 * n) / (2 * d))
    }
}

/// How many texels a line from `(fx, fy)` to `(tx, ty)` steps through
/// after its first: one per texel along its longer axis, and at least one.
pub open spec fn line_steps(fx: int, fy: int, tx: int, ty: int) -> int {
    let dx = if tx >= fx { tx - fx } else { fx - tx };
    let dy = if ty >= fy { ty - fy } else { fy - ty };
    if dx >= dy && dx >= 1 {
        dx
    } else if dy >= 1 {
        dy
    } else {
        1
    }
}

/// Step `i` of `steps` along an axis from `from` to `to`.
pub open spec fn along(from: int, to: int, steps: int, i: int) -> int {
    from + rounded((to - from) * i, steps)
}

/// The texels of the steps before `upto` of the line from `(fx, fy)` to
/// `(tx, ty)`.
pub open spec fn line_upto(fx: int, fy: int, tx: int, ty: int, upto: int) -> spec_fn(
    int,
    int,
) -> bool {
    |a: int, b: int|
        exists|i: int|
            0 <= i < upto && a == #[trigger] along(fx, tx, line_steps(fx, fy, tx, ty), i) && b == along(
                fy,
                ty,
                line_steps(fx, fy, tx, ty),
                i,
            )
}

/// The line from `(fx, fy)` to `(tx, ty)`: one texel at each step, both
/// ends included.
pub open spec fn on_line(fx: int, fy: int, tx: int, ty: int) -> spec_fn(int, int) -> bool {
    line_upto(fx, fy, tx, ty, line_steps(fx, fy, tx, ty) + 1)
}

/// The glyphs of `font8x8::legacy::BASIC_LEGACY`: for each of the 128
/// characters of basic Latin, eight rows top to bottom, each a byte whose
/// bit `x` inks the texel `x` places from the left.
pub uninterp spec fn basic_glyph(code: u8) -> Seq<u8>;

/// `font8x8::legacy::BASIC_LEGACY[code]`: the rows of the font's glyph for
/// basic-Latin character `code`. Trusted: that what comes back is the
/// table's entry for `code`, which `basic_glyph` names; the table is data,
/// not stated here.
#[verifier::external_body]
fn glyph(code: u8) -> (rows: [u8; 8])
    requires
        code < 128,
    ensures
        rows@ == basic_glyph(code),
{
    font8x8::legacy::BASIC_LEGACY[code as usize]
}

/// Whether character `c` inks the texel `dx` from the left of row `dy` of
/// its glyph. A character past basic Latin has no glyph, and inks nothing.
pub open spec fn inked(c: char, dx: int, dy: int) -> bool {
    (c as u32) < 128 && basic_glyph((c as u32) as u8)[dy] & (1u8 << (dx as u8)) != 0u8
}

/// The glyph of `c` with its top left texel at `(x, y)`.
pub open spec fn stamped(x: int, y: int, c: char) -> spec_fn(int, int) -> bool {
    |a: int, b: int| 0 <= a - x < 8 && 0 <= b - y < 8 && inked(c, a - x, b - y)
}

/// The glyphs of the first `upto` characters of `chars`, eight texels apart
/// from the one at `(x, y)`.
pub open spec fn text_upto(x: int, y: int, chars: Seq<char>, upto: int) -> spec_fn(
    int,
    int,
) -> bool {
    |a: int, b: int| exists|i: int| 0 <= i < upto && #[trigger] stamped(x + 8 * i, y, chars[i])(a, b)
}

/// How many of `count` characters written from column `x` fit whole left of
/// column `max_x`.
pub open spec fn fitting(x: int, count: int, max_x: int) -> int {
    let room = if max_x - x >= 0 { (max_x - x) / 8 } else { 0 };
    if room < count { room } else { count }
}

/// Text written from `(x, y)` and cut off at `max_x`: the glyphs of as many
/// of its characters as fit whole.
pub open spec fn in_text(x: int, y: int, chars: Seq<char>, max_x: int) -> spec_fn(
    int,
    int,
) -> bool {
    text_upto(x, y, chars, fitting(x, chars.len() as int, max_x))
}

/// The part of a `w` wide box from `(x, y)` scanned so far, a row at a time,
/// down to column `col` of row `row`, keeping the offsets `keep` names.
pub open spec fn scanned(
    x: int,
    y: int,
    w: int,
    keep: spec_fn(int, int) -> bool,
    row: int,
    col: int,
) -> spec_fn(int, int) -> bool {
    |a: int, b: int|
        0 <= a - x < w && 0 <= b - y && (b - y < row || (b - y == row && a - x < col)) && keep(
            a - x,
            b - y,
        )
}

/// One more texel of a scan.
proof fn lemma_scan_step(
    x: int,
    y: int,
    w: int,
    keep: spec_fn(int, int) -> bool,
    row: int,
    col: int,
)
    requires
        0 <= row,
        0 <= col < w,
    ensures
        keep(col, row) ==> scanned(x, y, w, keep, row, col + 1) == either(
            scanned(x, y, w, keep, row, col),
            point(x + col, y + row),
        ),
        !keep(col, row) ==> scanned(x, y, w, keep, row, col + 1) == scanned(
            x,
            y,
            w,
            keep,
            row,
            col,
        ),
{
    if keep(col, row) {
        assert(scanned(x, y, w, keep, row, col + 1) =~= either(
            scanned(x, y, w, keep, row, col),
            point(x + col, y + row),
        ));
    } else {
        assert(scanned(x, y, w, keep, row, col + 1) =~= scanned(x, y, w, keep, row, col));
    }
}

/// A whole row of a scan.
proof fn lemma_scan_row(x: int, y: int, w: int, keep: spec_fn(int, int) -> bool, row: int)
    requires
        0 <= row,
        0 <= w,
    ensures
        scanned(x, y, w, keep, row, w) == scanned(x, y, w, keep, row + 1, 0),
{
    assert(scanned(x, y, w, keep, row, w) =~= scanned(x, y, w, keep, row + 1, 0));
}

/// The texels either of two marks names.
pub open spec fn either(first: spec_fn(int, int) -> bool, then: spec_fn(int, int) -> bool) -> spec_fn(
    int,
    int,
) -> bool {
    |a: int, b: int| first(a, b) || then(a, b)
}

/// Painting twice in one ink is painting the union once.
pub proof fn lemma_paint_twice(
    texels: Seq<Ink>,
    width: int,
    first: spec_fn(int, int) -> bool,
    then: spec_fn(int, int) -> bool,
    ink: Ink,
)
    ensures
        painted(painted(texels, width, first, ink), width, then, ink) == painted(
            texels,
            width,
            either(first, then),
            ink,
        ),
{
    assert(painted(painted(texels, width, first, ink), width, then, ink) =~= painted(
        texels,
        width,
        either(first, then),
        ink,
    ));
}

/// Texel `i` of a canvas `width` wide and `height` high sits at a column
/// and a row inside it, and at no other.
proof fn lemma_cell(width: int, height: int, i: int)
    requires
        0 < width,
        0 <= i < width * height,
    ensures
        0 <= i % width < width,
        0 <= i / width < height,
        i == (i / width) * width + i % width,
{
    lemma_fundamental_div_mod(i, width);
    lemma_mod_pos_bound(i, width);
    lemma_div_pos_is_pos(i, width);
    assert(width * height == height * width) by (nonlinear_arith);
    lemma_multiply_divide_lt(i, width, height);
    assert(width * (i / width) == (i / width) * width) by (nonlinear_arith);
}

/// The texel at column `x` of row `y` is texel `y * width + x`.
proof fn lemma_index(width: int, height: int, x: int, y: int)
    requires
        0 <= x < width,
        0 <= y < height,
    ensures
        0 <= y * width <= y * width + x < width * height,
        (y * width + x) % width == x,
        (y * width + x) / width == y,
{
    assert(0 <= y * width <= y * width + x < width * height) by (nonlinear_arith)
        requires
            0 <= x < width,
            0 <= y < height,
    ;
    lemma_fundamental_div_mod_converse(y * width + x, width, y, x);
}

/// Whether the offset `(dx, dy)` is a texel of the ring of radius `r`.
fn near(dx: i64, dy: i64, r: i64) -> (near: bool)
    requires
        0 <= r <= 32767,
        -r <= dx <= r,
        -r <= dy <= r,
    ensures
        near == near_circle(dx as int, dy as int, r as int),
{
    assert(0 <= dx * dx <= r * r && 0 <= dy * dy <= r * r && r * r <= 32767 * 32767 && (2 * r
        + 1) * (2 * r + 1) <= 65535 * 65535 && (2 * r - 1) * (2 * r - 1) <= 65535 * 65535)
        by (nonlinear_arith)
        requires
            0 <= r <= 32767,
            -r <= dx <= r,
            -r <= dy <= r,
    ;
    let s: i64 = dx * dx + dy * dy;
    let outer: i64 = (2 * r + 1) * (2 * r + 1);
    let inner: i64 = 2 * r - 1;
    4 * s <= outer && (inner <= 0 || inner * inner <= 4 * s)
}

/// Step `i` of `d` along an axis that runs `delta`, rounded to a texel.
fn step_along(delta: i64, i: i64, d: i64) -> (off: i64)
    requires
        0 < d <= 0x2_0000_0000,
        -d <= delta <= d,
        0 <= i <= d,
    ensures
        off == rounded(delta * i, d as int),
        -d <= off <= d,
{
    assert(-(d * d) <= delta * i <= d * d <= 0x4_0000_0000_0000_0000) by (nonlinear_arith)
        requires
            0 < d <= 0x2_0000_0000,
            -d <= delta <= d,
            0 <= i <= d,
    ;
    let n: i128 = delta as i128 * i as i128;
    let d2: i128 = 2 * d as i128;
    if n >= 0 {
        assert(0 <= n <= d * d) by (nonlinear_arith)
            requires
                n == delta * i,
                0 <= n,
                -d <= delta <= d,
                0 <= i <= d,
        ;
        assert(2 * n + d < d2 * (d + 1)) by (nonlinear_arith)
            requires
                0 <= n <= d * d,
                d2 == 2 * d,
                0 < d,
        ;
        proof {
            lemma_multiply_divide_lt(2 * n + d, d2 as int, d + 1);
            lemma_div_pos_is_pos(2 * n + d, d2 as int);
        }
        let q: i128 = (2 * n + d as i128) / d2;
        q as i64
    } else {
        assert(-(d * d) <= n < 0) by (nonlinear_arith)
            requires
                n == delta * i,
                n < 0,
                -d <= delta <= d,
                0 <= i <= d,
        ;
        assert(d - 2 * n < d2 * (d + 1)) by (nonlinear_arith)
            requires
                -(d * d) <= n < 0,
                d2 == 2 * d,
                0 < d,
        ;
        proof {
            lemma_multiply_divide_lt(d - 2 * n, d2 as int, d + 1);
            lemma_div_pos_is_pos(d - 2 * n, d2 as int);
        }
        let q: i128 = (d as i128 - 2 * n) / d2;
        -(q as i64)
    }
}

/// A picture in the panel's three inks, a row at a time.
pub struct Canvas {
    width: i32,
    height: i32,
    texels: Vec<Ink>,
}

impl View for Canvas {
    type V = Seq<Ink>;

    closed spec fn view(&self) -> Seq<Ink> {
        self.texels@
    }
}

impl Canvas {
    pub closed spec fn wide(self) -> int {
        self.width as int
    }

    pub closed spec fn high(self) -> int {
        self.height as int
    }

    /// Every texel there is, and nothing more.
    pub closed spec fn wf(self) -> bool {
        &&& 0 < self.width
        &&& 0 < self.height
        &&& self.width * self.height * 4 <= i32::MAX
        &&& self.texels@.len() == self.width * self.height
    }

    /// What is at column `x` of row `y`.
    pub open spec fn at(self, x: int, y: int) -> Ink {
        self@[y * self.wide() + x]
    }

    /// A `width` by `height` canvas of bare ground.
    pub fn new(width: i32, height: i32) -> (canvas: Canvas)
        requires
            0 < width,
            0 < height,
            width * height * 4 <= i32::MAX,
        ensures
            canvas.wf(),
            canvas.wide() == width,
            canvas.high() == height,
            canvas@ == Seq::new((width * height) as nat, |i: int| Ink::Back),
    {
        let count: usize = width as usize * height as usize;
        let mut texels: Vec<Ink> = Vec::with_capacity(count);
        let mut i: usize = 0;
        while i < count
            invariant
                i <= count,
                texels@ == Seq::new(i as nat, |k: int| Ink::Back),
            decreases count - i,
        {
            texels.push(Ink::Back);
            i = i + 1;
        }
        assert(texels@ =~= Seq::new((width * height) as nat, |i: int| Ink::Back));
        Canvas { width, height, texels }
    }

    pub fn width(&self) -> (width: i32)
        ensures
            width == self.wide(),
    {
        self.width
    }

    pub fn height(&self) -> (height: i32)
        ensures
            height == self.high(),
    {
        self.height
    }

    /// What is at column `x` of row `y`, and `None` off the canvas.
    pub fn texel(&self, x: i32, y: i32) -> (ink: Option<Ink>)
        requires
            self.wf(),
        ensures
            ink == (if 0 <= x < self.wide() && 0 <= y < self.high() {
                Some(self.at(x as int, y as int))
            } else {
                None
            }),
    {
        if x < 0 || y < 0 || x >= self.width || y >= self.height {
            return None;
        }
        proof {
            lemma_index(self.width as int, self.height as int, x as int, y as int);
        }
        let at: usize = y as usize * self.width as usize + x as usize;
        Some(self.texels[at])
    }

    /// The picture as the texture takes it: four bytes a texel, red, green,
    /// blue and alpha, a row at a time.
    pub fn pixels(&self) -> (bytes: Vec<u8>)
        requires
            self.wf(),
        ensures
            bytes@.len() == 4 * self@.len(),
            forall|i: int, k: int|
                0 <= i < self@.len() && 0 <= k < 4 ==> #[trigger] bytes@[4 * i + k]
                    == self@[i].spec_rgba()[k],
    {
        let mut bytes: Vec<u8> = Vec::new();
        let mut i: usize = 0;
        while i < self.texels.len()
            invariant
                self.wf(),
                i <= self@.len(),
                bytes@.len() == 4 * i,
                forall|j: int, k: int|
                    0 <= j < i && 0 <= k < 4 ==> #[trigger] bytes@[4 * j + k]
                        == self@[j].spec_rgba()[k],
            decreases self@.len() - i,
        {
            let rgba = self.texels[i].rgba();
            let ghost before = bytes@;
            bytes.push(rgba[0]);
            bytes.push(rgba[1]);
            bytes.push(rgba[2]);
            bytes.push(rgba[3]);
            assert forall|j: int, k: int| 0 <= j < i + 1 && 0 <= k < 4 implies #[trigger] bytes@[4
                * j + k] == self@[j].spec_rgba()[k] by {
                if j < i {
                    assert(bytes@[4 * j + k] == before[4 * j + k]);
                }
            }
            i = i + 1;
        }
        bytes
    }

    /// Put the texel at column `x` of row `y` in `ink`; nothing, off the
    /// canvas.
    fn put(&mut self, x: i64, y: i64, ink: Ink)
        requires
            old(self).wf(),
        ensures
            final(self).wf(),
            final(self).wide() == old(self).wide(),
            final(self).high() == old(self).high(),
            final(self)@ == painted(old(self)@, old(self).wide(), point(x as int, y as int), ink),
    {
        let ghost w = self.width as int;
        let ghost h = self.height as int;
        if x < 0 || y < 0 || x >= self.width as i64 || y >= self.height as i64 {
            assert forall|i: int| 0 <= i < self@.len() implies #[trigger] painted(
                self@,
                w,
                point(x as int, y as int),
                ink,
            )[i] == self@[i] by {
                lemma_cell(w, h, i);
            }
            assert(self@ =~= painted(self@, w, point(x as int, y as int), ink));
            return;
        }
        proof {
            lemma_index(w, h, x as int, y as int);
        }
        let ghost before = self@;
        let at: usize = y as usize * self.width as usize + x as usize;
        self.texels.set(at, ink);
        assert forall|i: int| 0 <= i < self@.len() implies #[trigger] self@[i] == painted(
            before,
            w,
            point(x as int, y as int),
            ink,
        )[i] by {
            lemma_cell(w, h, i);
            if i % w == x && i / w == y {
                assert(i == at);
            }
        }
        assert(self@ =~= painted(before, w, point(x as int, y as int), ink));
    }

    /// Put the texel at column `x` of row `y` in `ink`; nothing, off the
    /// canvas.
    pub fn set(&mut self, x: i32, y: i32, ink: Ink)
        requires
            old(self).wf(),
        ensures
            final(self).wf(),
            final(self).wide() == old(self).wide(),
            final(self).high() == old(self).high(),
            final(self)@ == painted(old(self)@, old(self).wide(), point(x as int, y as int), ink),
    {
        self.put(x as i64, y as i64, ink);
    }

    /// Put the `w` by `h` box whose top left texel is `(x, y)` in `ink`.
    pub fn fill(&mut self, x: i32, y: i32, w: i32, h: i32, ink: Ink)
        requires
            old(self).wf(),
        ensures
            final(self).wf(),
            final(self).wide() == old(self).wide(),
            final(self).high() == old(self).high(),
            final(self)@ == painted(
                old(self)@,
                old(self).wide(),
                in_box(x as int, y as int, w as int, h as int),
                ink,
            ),
    {
        let ghost start = self@;
        let ghost width = self.wide();
        let mut dy: i32 = 0;
        assert(start =~= painted(start, width, in_box(x as int, y as int, w as int, 0), ink));
        while dy < h
            invariant
                self.wf(),
                self.wide() == width,
                self.high() == old(self).high(),
                0 <= dy,
                dy <= h || dy == 0,
                self@ == painted(start, width, in_box(x as int, y as int, w as int, dy as int), ink),
            decreases h - dy,
        {
            let mut dx: i32 = 0;
            assert(in_box(x as int, y as int, w as int, dy as int) =~= (|a: int, b: int|
                in_box(x as int, y as int, w as int, dy as int)(a, b) || in_box(
                    x as int,
                    y as int + dy as int,
                    0,
                    1,
                )(a, b)));
            while dx < w
                invariant
                    self.wf(),
                    self.wide() == width,
                    self.high() == old(self).high(),
                    0 <= dy < h,
                    0 <= dx,
                    dx <= w || dx == 0,
                    self@ == painted(
                        start,
                        width,
                        |a: int, b: int|
                            in_box(x as int, y as int, w as int, dy as int)(a, b) || in_box(
                                x as int,
                                y as int + dy as int,
                                dx as int,
                                1,
                            )(a, b),
                        ink,
                    ),
                decreases w - dx,
            {
                let ghost before = self@;
                self.put(x as i64 + dx as i64, y as i64 + dy as i64, ink);
                proof {
                    let done = |a: int, b: int|
                        in_box(x as int, y as int, w as int, dy as int)(a, b) || in_box(
                            x as int,
                            y as int + dy as int,
                            dx as int,
                            1,
                        )(a, b);
                    lemma_paint_twice(
                        start,
                        width,
                        done,
                        point(x + dx, y + dy),
                        ink,
                    );
                    assert(either(done, point(x + dx, y + dy)) =~= (|
                        a: int,
                        b: int,
                    |
                        in_box(x as int, y as int, w as int, dy as int)(a, b) || in_box(
                            x as int,
                            y as int + dy as int,
                            dx + 1,
                            1,
                        )(a, b)));
                }
                dx = dx + 1;
            }
            assert((|a: int, b: int|
                in_box(x as int, y as int, w as int, dy as int)(a, b) || in_box(
                    x as int,
                    y as int + dy as int,
                    dx as int,
                    1,
                )(a, b)) =~= in_box(x as int, y as int, w as int, dy + 1));
            dy = dy + 1;
        }
        assert(in_box(x as int, y as int, w as int, dy as int) =~= in_box(
            x as int,
            y as int,
            w as int,
            h as int,
        ));
    }

    /// Put the one-texel border of the `w` by `h` box whose top left texel
    /// is `(x, y)` in `ink`.
    pub fn frame(&mut self, x: i32, y: i32, w: i32, h: i32, ink: Ink)
        requires
            old(self).wf(),
        ensures
            final(self).wf(),
            final(self).wide() == old(self).wide(),
            final(self).high() == old(self).high(),
            final(self)@ == painted(
                old(self)@,
                old(self).wide(),
                on_frame(x as int, y as int, w as int, h as int),
                ink,
            ),
    {
        let ghost start = self@;
        let ghost width = self.wide();
        let ghost (xi, yi, wi, hi) = (x as int, y as int, w as int, h as int);
        let mut dx: i32 = 0;
        assert(start =~= painted(
            start,
            width,
            |a: int, b: int| xi <= a < xi + 0 && (b == yi || b == yi + hi - 1),
            ink,
        ));
        while dx < w
            invariant
                self.wf(),
                self.wide() == width,
                self.high() == old(self).high(),
                xi == x,
                yi == y,
                wi == w,
                hi == h,
                0 <= dx,
                dx <= w || dx == 0,
                self@ == painted(
                    start,
                    width,
                    |a: int, b: int| xi <= a < xi + dx && (b == yi || b == yi + hi - 1),
                    ink,
                ),
            decreases w - dx,
        {
            let ghost done = |a: int, b: int| xi <= a < xi + dx && (b == yi || b == yi + hi - 1);
            self.put(x as i64 + dx as i64, y as i64, ink);
            self.put(x as i64 + dx as i64, y as i64 + h as i64 - 1, ink);
            proof {
                lemma_paint_twice(start, width, done, point(xi + dx, yi), ink);
                lemma_paint_twice(
                    start,
                    width,
                    either(done, point(xi + dx, yi)),
                    point(xi + dx, yi + hi - 1),
                    ink,
                );
                assert(either(either(done, point(xi + dx, yi)), point(xi + dx, yi + hi - 1)) =~= (
                |a: int, b: int|
                    xi <= a < xi + (dx + 1) && (b == yi || b == yi + hi - 1)));
            }
            dx = dx + 1;
        }
        let ghost across = |a: int, b: int| xi <= a < xi + wi && (b == yi || b == yi + hi - 1);
        assert((|a: int, b: int| xi <= a < xi + dx && (b == yi || b == yi + hi - 1)) =~= across);
        let mut dy: i32 = 0;
        assert(across =~= (|a: int, b: int|
            across(a, b) || (yi <= b < yi + 0 && (a == xi || a == xi + wi - 1))));
        while dy < h
            invariant
                self.wf(),
                self.wide() == width,
                self.high() == old(self).high(),
                xi == x,
                yi == y,
                wi == w,
                hi == h,
                across == (|a: int, b: int| xi <= a < xi + wi && (b == yi || b == yi + hi - 1)),
                0 <= dy,
                dy <= h || dy == 0,
                self@ == painted(
                    start,
                    width,
                    |a: int, b: int|
                        across(a, b) || (yi <= b < yi + dy && (a == xi || a == xi + wi - 1)),
                    ink,
                ),
            decreases h - dy,
        {
            let ghost done = |a: int, b: int|
                across(a, b) || (yi <= b < yi + dy && (a == xi || a == xi + wi - 1));
            self.put(x as i64, y as i64 + dy as i64, ink);
            self.put(x as i64 + w as i64 - 1, y as i64 + dy as i64, ink);
            proof {
                lemma_paint_twice(start, width, done, point(xi, yi + dy), ink);
                lemma_paint_twice(
                    start,
                    width,
                    either(done, point(xi, yi + dy)),
                    point(xi + wi - 1, yi + dy),
                    ink,
                );
                assert(either(either(done, point(xi, yi + dy)), point(xi + wi - 1, yi + dy)) =~= (
                |a: int, b: int|
                    across(a, b) || (yi <= b < yi + (dy + 1) && (a == xi || a == xi + wi - 1))));
            }
            dy = dy + 1;
        }
        assert((|a: int, b: int|
            across(a, b) || (yi <= b < yi + dy && (a == xi || a == xi + wi - 1))) =~= on_frame(
            xi,
            yi,
            wi,
            hi,
        ));
    }

    /// Put the ring of radius `r` about `(cx, cy)` in `ink`: the texels whose
    /// centres lie within half a texel of the circle.
    pub fn ring(&mut self, cx: i32, cy: i32, r: i32, ink: Ink)
        requires
            old(self).wf(),
            r <= 32767,
        ensures
            final(self).wf(),
            final(self).wide() == old(self).wide(),
            final(self).high() == old(self).high(),
            final(self)@ == painted(
                old(self)@,
                old(self).wide(),
                on_ring(cx as int, cy as int, r as int),
                ink,
            ),
    {
        let ghost start = self@;
        let ghost width = self.wide();
        if r < 0 {
            assert(painted(start, width, on_ring(cx as int, cy as int, r as int), ink) =~= start);
            return;
        }
        let r64: i64 = r as i64;
        let side: i64 = 2 * r64 + 1;
        let x0: i64 = cx as i64 - r64;
        let y0: i64 = cy as i64 - r64;
        let ghost keep = |dx: int, dy: int| near_circle(dx - r, dy - r, r as int);
        assert(start =~= painted(start, width, scanned(x0 as int, y0 as int, side as int, keep, 0, 0), ink));
        let mut row: i64 = 0;
        while row < side
            invariant
                self.wf(),
                self.wide() == width,
                self.high() == old(self).high(),
                0 <= r64 <= 32767,
                side == 2 * r64 + 1,
                x0 == cx - r64,
                y0 == cy - r64,
                r64 == r,
                keep == (|dx: int, dy: int| near_circle(dx - r, dy - r, r as int)),
                0 <= row <= side,
                self@ == painted(start, width, scanned(x0 as int, y0 as int, side as int, keep, row as int, 0), ink),
            decreases side - row,
        {
            let mut col: i64 = 0;
            while col < side
                invariant
                    self.wf(),
                    self.wide() == width,
                    self.high() == old(self).high(),
                    0 <= r64 <= 32767,
                    side == 2 * r64 + 1,
                    x0 == cx - r64,
                    y0 == cy - r64,
                    r64 == r,
                    keep == (|dx: int, dy: int| near_circle(dx - r, dy - r, r as int)),
                    0 <= row < side,
                    0 <= col <= side,
                    self@ == painted(
                        start,
                        width,
                        scanned(x0 as int, y0 as int, side as int, keep, row as int, col as int),
                        ink,
                    ),
                decreases side - col,
            {
                proof {
                    lemma_scan_step(x0 as int, y0 as int, side as int, keep, row as int, col as int);
                }
                if near(col - r64, row - r64, r64) {
                    self.put(x0 + col, y0 + row, ink);
                    proof {
                        lemma_paint_twice(
                            start,
                            width,
                            scanned(x0 as int, y0 as int, side as int, keep, row as int, col as int),
                            point(x0 + col, y0 + row),
                            ink,
                        );
                    }
                }
                col = col + 1;
            }
            proof {
                lemma_scan_row(x0 as int, y0 as int, side as int, keep, row as int);
            }
            row = row + 1;
        }
        assert(scanned(x0 as int, y0 as int, side as int, keep, side as int, 0) =~= on_ring(
            cx as int,
            cy as int,
            r as int,
        ));
    }

    /// Put the line from `from` to `to` in `ink`: one texel at each step
    /// along its longer axis, both ends included.
    pub fn line(&mut self, from: (i32, i32), to: (i32, i32), ink: Ink)
        requires
            old(self).wf(),
        ensures
            final(self).wf(),
            final(self).wide() == old(self).wide(),
            final(self).high() == old(self).high(),
            final(self)@ == painted(
                old(self)@,
                old(self).wide(),
                on_line(from.0 as int, from.1 as int, to.0 as int, to.1 as int),
                ink,
            ),
    {
        let ghost start = self@;
        let ghost width = self.wide();
        let (fx, fy, tx, ty) = (from.0 as i64, from.1 as i64, to.0 as i64, to.1 as i64);
        let dx: i64 = tx - fx;
        let dy: i64 = ty - fy;
        let adx: i64 = if dx >= 0 { dx } else { -dx };
        let ady: i64 = if dy >= 0 { dy } else { -dy };
        let steps: i64 = if adx >= ady && adx >= 1 {
            adx
        } else if ady >= 1 {
            ady
        } else {
            1
        };
        let ghost n = steps as int;
        assert(n == line_steps(fx as int, fy as int, tx as int, ty as int));
        assert(start =~= painted(start, width, line_upto(fx as int, fy as int, tx as int, ty as int, 0), ink));
        let mut i: i64 = 0;
        while i <= steps
            invariant
                self.wf(),
                self.wide() == width,
                self.high() == old(self).high(),
                n == steps,
                n == line_steps(fx as int, fy as int, tx as int, ty as int),
                1 <= steps <= 0x1_0000_0000,
                -steps <= dx <= steps,
                -steps <= dy <= steps,
                dx == tx - fx,
                dy == ty - fy,
                fx == from.0,
                fy == from.1,
                0 <= i <= steps + 1,
                self@ == painted(start, width, line_upto(fx as int, fy as int, tx as int, ty as int, i as int), ink),
            decreases steps + 1 - i,
        {
            let px: i64 = fx + step_along(dx, i, steps);
            let py: i64 = fy + step_along(dy, i, steps);
            assert(px == along(fx as int, tx as int, n, i as int));
            assert(py == along(fy as int, ty as int, n, i as int));
            self.put(px, py, ink);
            proof {
                let done = line_upto(fx as int, fy as int, tx as int, ty as int, i as int);
                let next = line_upto(fx as int, fy as int, tx as int, ty as int, i + 1);
                lemma_paint_twice(start, width, done, point(px as int, py as int), ink);
                assert forall|a: int, b: int| #[trigger] next(a, b) == (done(a, b) || point(
                    px as int,
                    py as int,
                )(a, b)) by {
                    if next(a, b) {
                        let j = choose|j: int|
                            0 <= j < i + 1 && a == #[trigger] along(fx as int, tx as int, n, j)
                                && b == along(fy as int, ty as int, n, j);
                        if j < i {
                            assert(done(a, b));
                        }
                    }
                }
                assert(next =~= either(done, point(px as int, py as int)));
            }
            i = i + 1;
        }
    }

    /// Put the glyph of `c` with its top left texel at `(x, y)` in `ink`.
    fn stamp(&mut self, x: i64, y: i64, c: char, ink: Ink)
        requires
            old(self).wf(),
            i32::MIN as i64 * 2 <= x <= i32::MAX,
            i32::MIN <= y <= i32::MAX,
        ensures
            final(self).wf(),
            final(self).wide() == old(self).wide(),
            final(self).high() == old(self).high(),
            final(self)@ == painted(old(self)@, old(self).wide(), stamped(x as int, y as int, c), ink),
    {
        let ghost start = self@;
        let ghost width = self.wide();
        let code: u32 = c as u32;
        if code >= 128 {
            assert(painted(start, width, stamped(x as int, y as int, c), ink) =~= start);
            return;
        }
        let rows: [u8; 8] = glyph(code as u8);
        let ghost keep = |dx: int, dy: int| inked(c, dx, dy);
        assert(start =~= painted(start, width, scanned(x as int, y as int, 8, keep, 0, 0), ink));
        let mut dy: u8 = 0;
        while dy < 8
            invariant
                self.wf(),
                self.wide() == width,
                self.high() == old(self).high(),
                i32::MIN as i64 * 2 <= x <= i32::MAX,
                i32::MIN <= y <= i32::MAX,
                code == c as u32,
                code < 128,
                rows@ == basic_glyph(code as u8),
                keep == (|dx: int, dy: int| inked(c, dx, dy)),
                0 <= dy <= 8,
                self@ == painted(start, width, scanned(x as int, y as int, 8, keep, dy as int, 0), ink),
            decreases 8 - dy,
        {
            assert(rows@.len() == 8);
            let row: u8 = rows[dy as usize];
            let mut dx: u8 = 0;
            while dx < 8
                invariant
                    self.wf(),
                    self.wide() == width,
                    self.high() == old(self).high(),
                    i32::MIN as i64 * 2 <= x <= i32::MAX,
                    i32::MIN <= y <= i32::MAX,
                    code == c as u32,
                    code < 128,
                    rows@ == basic_glyph(code as u8),
                    row == rows@[dy as int],
                    keep == (|dx: int, dy: int| inked(c, dx, dy)),
                    0 <= dy < 8,
                    0 <= dx <= 8,
                    self@ == painted(
                        start,
                        width,
                        scanned(x as int, y as int, 8, keep, dy as int, dx as int),
                        ink,
                    ),
                decreases 8 - dx,
            {
                proof {
                    lemma_scan_step(x as int, y as int, 8, keep, dy as int, dx as int);
                    assert(keep(dx as int, dy as int) == (row & (1u8 << dx) != 0u8));
                }
                if row & (1u8 << dx) != 0 {
                    self.put(x + dx as i64, y + dy as i64, ink);
                    proof {
                        lemma_paint_twice(
                            start,
                            width,
                            scanned(x as int, y as int, 8, keep, dy as int, dx as int),
                            point(x + dx, y + dy),
                            ink,
                        );
                    }
                }
                dx = dx + 1;
            }
            proof {
                lemma_scan_row(x as int, y as int, 8, keep, dy as int);
            }
            dy = dy + 1;
        }
        assert(scanned(x as int, y as int, 8, keep, 8, 0) =~= stamped(x as int, y as int, c));
    }

    /// Write `chars` from `(x, y)` in `ink`, a glyph every eight texels, and
    /// stop at the first that would not fit whole left of `max_x`.
    fn write(&mut self, x: i64, y: i64, chars: &Vec<char>, max_x: i64, ink: Ink)
        requires
            old(self).wf(),
            i32::MIN as i64 * 2 <= x <= i32::MAX,
            i32::MIN <= y <= i32::MAX,
            i32::MIN <= max_x <= i32::MAX,
        ensures
            final(self).wf(),
            final(self).wide() == old(self).wide(),
            final(self).high() == old(self).high(),
            final(self)@ == painted(
                old(self)@,
                old(self).wide(),
                in_text(x as int, y as int, chars@, max_x as int),
                ink,
            ),
    {
        let ghost start = self@;
        let ghost width = self.wide();
        let span: i128 = max_x as i128 - x as i128;
        let room: i128 = if span >= 0 { span / 8 } else { 0 };
        let count: usize = if room < chars.len() as i128 { room as usize } else { chars.len() };
        assert(count == fitting(x as int, chars@.len() as int, max_x as int));
        assert(start =~= painted(start, width, text_upto(x as int, y as int, chars@, 0), ink));
        let mut i: usize = 0;
        while i < count
            invariant
                self.wf(),
                self.wide() == width,
                self.high() == old(self).high(),
                i32::MIN as i64 * 2 <= x <= i32::MAX,
                i32::MIN <= y <= i32::MAX,
                i32::MIN <= max_x <= i32::MAX,
                count <= chars@.len(),
                count == 0 || x + 8 * count <= max_x,
                i <= count,
                self@ == painted(start, width, text_upto(x as int, y as int, chars@, i as int), ink),
            decreases count - i,
        {
            let at: i64 = x + 8 * i as i64;
            self.stamp(at, y, chars[i], ink);
            proof {
                let done = text_upto(x as int, y as int, chars@, i as int);
                let next = text_upto(x as int, y as int, chars@, i + 1);
                let glyph = stamped(x + 8 * i, y as int, chars@[i as int]);
                lemma_paint_twice(start, width, done, glyph, ink);
                assert forall|a: int, b: int| #[trigger] next(a, b) == (done(a, b) || glyph(a, b)) by {
                    if next(a, b) {
                        let j = choose|j: int|
                            0 <= j < i + 1 && #[trigger] stamped(x + 8 * j, y as int, chars@[j])(a, b);
                        if j < i {
                            assert(done(a, b));
                        }
                    }
                    if glyph(a, b) {
                        assert(stamped(x + 8 * i, y as int, chars@[i as int])(a, b));
                    }
                }
                assert(next =~= either(done, glyph));
            }
            i = i + 1;
        }
    }

    /// Write `text` from `(x, y)` in `ink`, a glyph every eight texels, and
    /// stop at the first character that would not fit whole left of `max_x`.
    pub fn text(&mut self, x: i32, y: i32, text: &str, max_x: i32, ink: Ink)
        requires
            old(self).wf(),
        ensures
            final(self).wf(),
            final(self).wide() == old(self).wide(),
            final(self).high() == old(self).high(),
            final(self)@ == painted(
                old(self)@,
                old(self).wide(),
                in_text(x as int, y as int, text@, max_x as int),
                ink,
            ),
    {
        let chars = chars_of(text);
        self.write(x as i64, y as i64, &chars, max_x as i64, ink);
    }

    /// Write `text` centred on column `cx`, from row `y` down, in `ink`, cut
    /// off at the canvas's right edge.
    pub fn text_centred(&mut self, cx: i32, y: i32, text: &str, ink: Ink)
        requires
            old(self).wf(),
            text@.len() * 8 <= i32::MAX,
        ensures
            final(self).wf(),
            final(self).wide() == old(self).wide(),
            final(self).high() == old(self).high(),
            final(self)@ == painted(
                old(self)@,
                old(self).wide(),
                in_text(cx - text@.len() * 4, y as int, text@, old(self).wide()),
                ink,
            ),
    {
        let chars = chars_of(text);
        let w: i64 = chars.len() as i64 * 8;
        self.write(cx as i64 - w / 2, y as i64, &chars, self.width as i64, ink);
    }

}

} // verus!
