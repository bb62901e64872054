//! A capture read back off the GPU: the rows a texture-to-buffer copy pads,
//! and the packed frame an encoder takes.

use vstd::prelude::*;
use vstd::arithmetic::div_mod::{lemma_fundamental_div_mod, lemma_fundamental_div_mod_converse};
use vstd::arithmetic::mul::lemma_mul_inequality;

verus! {

/// What a texture-to-buffer copy pads its rows to, in bytes.
pub const ROW_ALIGN: u32 = 256;

/// The bytes a row of a capture `width` texels wide takes in the buffer it
/// is read back to: four a texel, rounded up to [`ROW_ALIGN`].
pub open spec fn spec_row(width: u32) -> int {
    ((4 * width + ROW_ALIGN - 1) / (ROW_ALIGN as int)) * ROW_ALIGN
}

/// The readback's row for a capture `width` wide: a whole number of
/// [`ROW_ALIGN`]s, the fewest that hold four bytes a texel.
pub fn readback_row(width: u32) -> (row: u32)
    requires
        4 * width + ROW_ALIGN - 1 <= u32::MAX,
    ensures
        row == spec_row(width),
        row % ROW_ALIGN == 0,
        4 * width <= row < 4 * width + ROW_ALIGN,
{
    let bytes = width * 4;
    let row = (bytes + (ROW_ALIGN - 1)) / ROW_ALIGN * ROW_ALIGN;
    assert(row % ROW_ALIGN == 0 && bytes <= row < bytes + ROW_ALIGN) by (nonlinear_arith)
        requires
            row == ((bytes + 255) / 256) * 256,
            ROW_ALIGN == 256,
    ;
    row
}

/// The byte of a packed frame at `i`, rows of `packed` bytes, as it stands in
/// a readback of `row`-byte rows.
pub open spec fn source_of(i: int, packed: int, row: int) -> int {
    (i / packed) * row + i % packed
}

/// Row `k` of the rows a readback of `len` bytes is cut into, `step` bytes
/// apart, holds the `packed` bytes a frame takes of it.
proof fn lemma_row_inside(len: int, step: int, packed: int, rows: int, k: int)
    requires
        step > 0,
        0 <= packed <= step,
        len >= 0,
        len % step == 0 || len % step >= packed,
        rows == (len + step - 1) / step,
        0 <= k < rows,
    ensures
        k * step + packed <= len,
{
    let q = len / step;
    let r = len % step;
    lemma_fundamental_div_mod(len, step);
    assert(len == q * step + r) by (nonlinear_arith)
        requires
            len == step * q + r,
    ;
    if r == 0 {
        lemma_fundamental_div_mod_converse(len + step - 1, step, q, step - 1);
        lemma_mul_inequality(k + 1, q, step);
        assert((k + 1) * step == k * step + step) by (nonlinear_arith);
    } else {
        assert(len + step - 1 == (q + 1) * step + (r - 1)) by (nonlinear_arith)
            requires
                len == q * step + r,
        ;
        lemma_fundamental_div_mod_converse(len + step - 1, step, q + 1, r - 1);
        lemma_mul_inequality(k, q, step);
    }
}

/// A readback's rows packed the way a raw frame takes them: the first
/// `4 * width` bytes of every `row`-byte row of `mapped`, the last row among
/// them however short, and the padding after each dropped.
pub fn packed(mapped: &[u8], row: u32, width: u32) -> (frame: Vec<u8>)
    requires
        row > 0,
        4 * width <= row,
        (mapped@.len() as int) % (row as int) == 0 || (mapped@.len() as int) % (row as int) >= 4
            * width,
    ensures
        frame@.len() == (mapped@.len() + row - 1) / (row as int) * (4 * width),
        forall|i: int|
            0 <= i < frame@.len() ==> #[trigger] frame@[i] == mapped@[source_of(
                i,
                4 * width,
                row as int,
            )],
{
    let len = mapped.len();
    let packed: usize = width as usize * 4;
    let step: usize = row as usize;
    let rows: usize = if len % step == 0 {
        len / step
    } else {
        assert(len / step < len) by (nonlinear_arith)
            requires
                len % step != 0,
                step > 0,
        ;
        len / step + 1
    };
    assert(rows == (len + step - 1) / (step as int)) by (nonlinear_arith)
        requires
            len % step == 0 ==> rows == len / step,
            len % step != 0 ==> rows == len / step + 1,
            step > 0,
    ;
    let mut frame: Vec<u8> = Vec::new();
    let mut k: usize = 0;
    while k < rows
        invariant
            len == mapped@.len(),
            packed == 4 * width,
            step == row,
            row > 0,
            packed <= step,
            (len as int) % (step as int) == 0 || (len as int) % (step as int) >= packed,
            rows == (len + step - 1) / (step as int),
            k <= rows,
            frame@.len() == k * packed,
            forall|i: int|
                0 <= i < frame@.len() ==> #[trigger] frame@[i] == mapped@[source_of(
                    i,
                    packed as int,
                    step as int,
                )],
        decreases rows - k,
    {
        proof {
            lemma_row_inside(len as int, step as int, packed as int, rows as int, k as int);
        }
        let start = k * step;
        let mut j: usize = 0;
        while j < packed
            invariant
                len == mapped@.len(),
                start + packed <= len,
                start == k * step,
                packed == 4 * width,
                step == row,
                j <= packed,
                frame@.len() == k * packed + j,
                forall|i: int|
                    0 <= i < frame@.len() ==> #[trigger] frame@[i] == mapped@[source_of(
                        i,
                        packed as int,
                        step as int,
                    )],
            decreases packed - j,
        {
            let ghost at = frame@.len() as int;
            frame.push(mapped[start + j]);
            proof {
                assert(at / (packed as int) == k && at % (packed as int) == j) by (nonlinear_arith)
                    requires
                        at == k * packed + j,
                        j < packed,
                ;
                assert(frame@[at] == mapped@[source_of(at, packed as int, step as int)]);
            }
            j = j + 1;
        }
        assert((k + 1) * packed == k * packed + packed) by (nonlinear_arith);
        k = k + 1;
    }
    frame
}

} // verus!
