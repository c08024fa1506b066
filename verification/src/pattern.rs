//! The procedural pattern painted onto every output.
//!
//! The pattern is a pure function from a position and the output's size to a colour, so it can
//! be exercised without any compositor. [`paint`] lays the pattern out in memory the way a
//! 32-bit ARGB buffer expects it on a little-endian host: blue, green, red, alpha.

use vstd::prelude::*;
use vstd::arithmetic::div_mod::{
    lemma_fundamental_div_mod,
    lemma_fundamental_div_mod_converse,
    lemma_mod_bound,
    lemma_multiply_divide_lt,
};

verus! {

/// Bytes that one pixel occupies.
pub const BYTES_PER_PIXEL: u64 = 4;

/// One pixel as four colour channels.
#[derive(Clone, Copy, Debug, PartialEq, Eq, Structural)]
pub struct Pixel {
    pub r: u8,
    pub g: u8,
    pub b: u8,
    pub a: u8,
}

impl Pixel {
    /// The pixel as one `0xAARRGGBB` word.
    pub open spec fn argb_word(self) -> u32 {
        (self.a as u32) << 24 | (self.r as u32) << 16 | (self.g as u32) << 8 | (self.b as u32)
    }

    /// The pixel as it lies in memory: blue first, alpha last.
    pub open spec fn bgra_bytes(self) -> Seq<u8> {
        seq![self.b, self.g, self.r, self.a]
    }

    /// Packs the channels into one `0xAARRGGBB` word.
    pub fn to_argb(&self) -> (word: u32)
        ensures
            word == self.argb_word(),
    {
        (self.a as u32) << 24 | (self.r as u32) << 16 | (self.g as u32) << 8 | (self.b as u32)
    }

    /// The four bytes of the pixel in memory order.
    pub fn to_bgra(&self) -> (bytes: [u8; 4])
        ensures
            bytes@ == self.bgra_bytes(),
    {
        let bytes: [u8; 4] = [self.b, self.g, self.r, self.a];
        assert(bytes@ =~= self.bgra_bytes());
        bytes
    }
}

/// The memory order of a pixel is the little-endian byte order of its `0xAARRGGBB` word.
pub proof fn lemma_bgra_is_little_endian_argb(p: Pixel)
    ensures
        p.bgra_bytes().len() == 4,
        p.bgra_bytes()[0] == (p.argb_word() & 0xff) as u8,
        p.bgra_bytes()[1] == ((p.argb_word() >> 8) & 0xff) as u8,
        p.bgra_bytes()[2] == ((p.argb_word() >> 16) & 0xff) as u8,
        p.bgra_bytes()[3] == ((p.argb_word() >> 24) & 0xff) as u8,
{
    let a = p.a;
    let r = p.r;
    let g = p.g;
    let b = p.b;
    let w = (a as u32) << 24 | (r as u32) << 16 | (g as u32) << 8 | (b as u32);
    assert(w & 0xff == b as u32) by (bit_vector)
        requires
            w == (a as u32) << 24 | (r as u32) << 16 | (g as u32) << 8 | (b as u32),
    ;
    assert((w >> 8) & 0xff == g as u32) by (bit_vector)
        requires
            w == (a as u32) << 24 | (r as u32) << 16 | (g as u32) << 8 | (b as u32),
    ;
    assert((w >> 16) & 0xff == r as u32) by (bit_vector)
        requires
            w == (a as u32) << 24 | (r as u32) << 16 | (g as u32) << 8 | (b as u32),
    ;
    assert((w >> 24) & 0xff == a as u32) by (bit_vector)
        requires
            w == (a as u32) << 24 | (r as u32) << 16 | (g as u32) << 8 | (b as u32),
    ;
}

/// A linear ramp: `base` at position 0, rising by `span` over `extent` positions, rounded down.
pub open spec fn ramp(pos: int, extent: int, span: int, base: int) -> int {
    base + (pos * span) / extent
}

/// The default pattern, a two-axis gradient: red and blue grow from left to right, green grows
/// from top to bottom, and every pixel is opaque.
pub open spec fn gradient(x: int, y: int, width: int, height: int) -> Pixel {
    Pixel {
        r: ramp(x, width, 40, 10) as u8,
        g: ramp(y, height, 30, 10) as u8,
        b: ramp(x, width, 60, 40) as u8,
        a: 255u8,
    }
}

/// Inside its extent a ramp starts at `base` and stays below `base + span`.
pub proof fn lemma_ramp_bounds(pos: int, extent: int, span: int, base: int)
    requires
        0 <= pos < extent,
        0 < span,
    ensures
        base <= ramp(pos, extent, span, base) < base + span,
{
    assert(0 <= pos * span) by (nonlinear_arith)
        requires
            0 <= pos,
            0 < span,
    ;
    assert(pos * span < extent * span) by (nonlinear_arith)
        requires
            0 <= pos < extent,
            0 < span,
    ;
    lemma_multiply_divide_lt(pos * span, extent, span);
    assert(0 <= (pos * span) / extent) by (nonlinear_arith)
        requires
            0 <= pos * span,
            0 < extent,
    ;
}

/// The colour of the pixel at column `x`, row `y` of a `width` by `height` output.
pub fn pixel_at(x: u32, y: u32, width: u32, height: u32) -> (p: Pixel)
    requires
        x < width,
        y < height,
    ensures
        p == gradient(x as int, y as int, width as int, height as int),
{
    proof {
        lemma_ramp_bounds(x as int, width as int, 40, 10);
        lemma_ramp_bounds(y as int, height as int, 30, 10);
        lemma_ramp_bounds(x as int, width as int, 60, 40);
    }
    let r: u64 = (x as u64) * 40 / (width as u64) + 10;
    let g: u64 = (y as u64) * 30 / (height as u64) + 10;
    let b: u64 = (x as u64) * 60 / (width as u64) + 40;
    Pixel { r: r as u8, g: g as u8, b: b as u8, a: 255 }
}

/// The pattern has no hidden state: whatever two evaluations at one place of one output
/// return, they return the same colour, and it is the gradient's.
pub proof fn lemma_pixel_at_deterministic(
    x: u32,
    y: u32,
    width: u32,
    height: u32,
    first: Pixel,
    second: Pixel,
)
    requires
        x < width,
        y < height,
        call_ensures(pixel_at, (x, y, width, height), first),
        call_ensures(pixel_at, (x, y, width, height), second),
    ensures
        first == second,
        first == gradient(x as int, y as int, width as int, height as int),
{
}

/// Whether byte `i` of a canvas lies inside a pixel of the image that starts at byte `origin`,
/// is `width` by `height` pixels large and keeps its rows `stride` bytes apart. The bytes
/// between the end of a row's pixels and the start of the next row belong to no pixel.
pub open spec fn in_image(i: int, origin: int, width: int, height: int, stride: int) -> bool {
    &&& 0 < width
    &&& 4 * width <= stride
    &&& origin <= i
    &&& (i - origin) / stride < height
    &&& (i - origin) % stride < 4 * width
}

/// The value that the pattern gives to byte `i` of such an image.
pub open spec fn image_byte(i: int, origin: int, width: int, height: int, stride: int) -> u8 {
    let row = (i - origin) / stride;
    let col = (i - origin) % stride;
    gradient(col / 4, row, width, height).bgra_bytes()[col % 4]
}

/// A canvas after the pattern has been painted into it: every byte of the image holds its
/// pattern value and every other byte is as it was.
pub open spec fn painted(before: Seq<u8>, origin: int, width: int, height: int, stride: int) -> Seq<
    u8,
> {
    Seq::new(
        before.len(),
        |i: int|
            if in_image(i, origin, width, height, stride) {
                image_byte(i, origin, width, height, stride)
            } else {
                before[i]
            },
    )
}

/// Whether the pixel that holds byte `i` is among the first `rows` full rows or among the
/// first `cols` pixels of the row after them.
spec fn reached(i: int, origin: int, stride: int, rows: int, cols: int) -> bool {
    let row = (i - origin) / stride;
    let col = (i - origin) % stride;
    row < rows || (row == rows && col / 4 < cols)
}

/// Byte `i` of a canvas while painting is under way.
spec fn half_painted(
    before: Seq<u8>,
    i: int,
    origin: int,
    width: int,
    height: int,
    stride: int,
    rows: int,
    cols: int,
) -> u8 {
    if in_image(i, origin, width, height, stride) && reached(i, origin, stride, rows, cols) {
        image_byte(i, origin, width, height, stride)
    } else {
        before[i]
    }
}

/// The four bytes of pixel (`x`, `y`) are exactly the bytes whose row is `y` and whose column
/// falls into the pixel's slot.
proof fn lemma_pixel_slot(i: int, origin: int, width: int, stride: int, x: int, y: int)
    requires
        0 <= x < width,
        4 * width <= stride,
        0 <= y,
    ensures
        ({
            let at = origin + y * stride + 4 * x;
            let row = (i - origin) / stride;
            let col = (i - origin) % stride;
            &&& (at <= i < at + 4) <==> (row == y && col / 4 == x)
            &&& (at <= i < at + 4) ==> origin <= i && col == 4 * x + (i - at) && col % 4 == i - at
        }),
{
    let at = origin + y * stride + 4 * x;
    let rel = i - origin;
    lemma_fundamental_div_mod(rel, stride);
    lemma_mod_bound(rel, stride);
    assert(0 <= y * stride) by (nonlinear_arith)
        requires
            0 <= y,
            0 < stride,
    ;
    if at <= i < at + 4 {
        lemma_fundamental_div_mod_converse(rel, stride, y, 4 * x + (i - at));
    }
    if rel / stride == y {
        assert(stride * (rel / stride) == y * stride) by (nonlinear_arith)
            requires
                rel / stride == y,
        ;
    }
}

/// Paints the pattern for a `width` by `height` image into `canvas`. The image starts at byte
/// `origin` and its rows lie `stride` bytes apart; each pixel takes four bytes in the order
/// blue, green, red, alpha. Bytes outside the image's pixels are left alone.
pub fn paint(canvas: &mut [u8], origin: usize, width: u32, height: u32, stride: usize)
    requires
        4 * width <= stride,
        origin + stride * height <= old(canvas)@.len(),
    ensures
        final(canvas)@ == painted(
            old(canvas)@,
            origin as int,
            width as int,
            height as int,
            stride as int,
        ),
{
    let ghost before = canvas@;
    let total: usize = canvas.len();
    let mut y: u32 = 0;
    while y < height
        invariant
            y <= height,
            4 * width <= stride,
            origin + stride * height <= total,
            canvas@.len() == total,
            before.len() == total,
            forall|i: int|
                0 <= i < canvas@.len() ==> canvas@[i] == #[trigger] half_painted(
                    before,
                    i,
                    origin as int,
                    width as int,
                    height as int,
                    stride as int,
                    y as int,
                    0,
                ),
        decreases height - y,
    {
        assert(y * stride + stride <= stride * height) by (nonlinear_arith)
            requires
                y < height,
                0 <= stride,
        ;
        assert(0 <= y * stride) by (nonlinear_arith)
            requires
                0 <= y,
                0 <= stride,
        ;
        let row: usize = origin + (y as usize) * stride;
        let mut x: u32 = 0;
        while x < width
            invariant
                x <= width,
                y < height,
                4 * width <= stride,
                row == origin + y * stride,
                row + stride <= total,
                canvas@.len() == total,
                before.len() == total,
                forall|i: int|
                    0 <= i < canvas@.len() ==> canvas@[i] == #[trigger] half_painted(
                        before,
                        i,
                        origin as int,
                        width as int,
                        height as int,
                        stride as int,
                        y as int,
                        x as int,
                    ),
            decreases width - x,
        {
            let p = pixel_at(x, y, width, height);
            let at: usize = row + 4 * (x as usize);
            let ghost earlier = canvas@;
            canvas[at] = p.b;
            canvas[at + 1] = p.g;
            canvas[at + 2] = p.r;
            canvas[at + 3] = p.a;
            proof {
                assert forall|i: int| 0 <= i < canvas@.len() implies canvas@[i] == #[trigger] half_painted(
                    before,
                    i,
                    origin as int,
                    width as int,
                    height as int,
                    stride as int,
                    y as int,
                    x + 1,
                ) by {
                    lemma_pixel_slot(i, origin as int, width as int, stride as int, x as int, y as int);
                    assert(earlier[i] == half_painted(
                        before,
                        i,
                        origin as int,
                        width as int,
                        height as int,
                        stride as int,
                        y as int,
                        x as int,
                    ));
                }
            }
            x += 1;
        }
        proof {
            assert forall|i: int| 0 <= i < canvas@.len() implies canvas@[i] == #[trigger] half_painted(
                before,
                i,
                origin as int,
                width as int,
                height as int,
                stride as int,
                y + 1,
                0,
            ) by {
                if 0 < stride {
                    lemma_mod_bound(i - origin, stride as int);
                }
                assert(canvas@[i] == half_painted(
                    before,
                    i,
                    origin as int,
                    width as int,
                    height as int,
                    stride as int,
                    y as int,
                    width as int,
                ));
            }
        }
        y += 1;
    }
    assert(canvas@ =~= painted(
        before,
        origin as int,
        width as int,
        height as int,
        stride as int,
    )) by {
        assert forall|i: int| 0 <= i < canvas@.len() implies canvas@[i] == painted(
            before,
            origin as int,
            width as int,
            height as int,
            stride as int,
        )[i] by {
            assert(canvas@[i] == half_painted(
                before,
                i,
                origin as int,
                width as int,
                height as int,
                stride as int,
                height as int,
                0,
            ));
        }
    }
}

} // verus!
