//! Drawing into a buffer of pixels of four bytes each: which pixels a
//! rectangle or a bitmap covers, and the filling of a rectangle.

use vstd::prelude::*;
use crate::tile_map::lemma_pair_index_injective;

verus! {

/// A picture in memory: `height` rows of `width` pixels, each pixel
/// `bytes_per_pixel` bytes, each row `pitch` bytes after the one before.
pub struct RenderBuffer {
    pub bytes: Vec<u8>,
    pub width: usize,
    pub height: usize,
    pub pitch: usize,
    pub bytes_per_pixel: usize,
}

/// A picture in memory as the platform hands it over: the bytes, and the
/// sizes as the platform counts them.
pub struct GameOffscreenBuffer {
    pub memory: Vec<u8>,
    pub width: i32,
    pub height: i32,
    pub pitch: i32,
    pub bytes_per_pixel: i32,
}

/// The part of a bitmap that falls into a buffer, and where it falls:
/// `width` by `height` pixels, from `(src_min_x, src_min_y)` of the bitmap
/// on, to `(dst_min_x, dst_min_y)` of the buffer on.
#[derive(Clone, Copy, Debug, PartialEq, Eq, Structural)]
pub struct BlitPlan {
    pub src_min_x: usize,
    pub src_min_y: usize,
    pub dst_min_x: usize,
    pub dst_min_y: usize,
    pub width: usize,
    pub height: usize,
}

/// The larger of two numbers.
pub open spec fn larger(a: int, b: int) -> int {
    if a >= b {
        a
    } else {
        b
    }
}

/// The smaller of two numbers.
pub open spec fn smaller(a: int, b: int) -> int {
    if a <= b {
        a
    } else {
        b
    }
}

/// Byte `b` of the colour `color`, lowest byte first.
pub open spec fn color_byte(color: u32, b: int) -> u8 {
    if b == 0 {
        (color % 0x100) as u8
    } else if b == 1 {
        (color / 0x100 % 0x100) as u8
    } else if b == 2 {
        (color / 0x1_0000 % 0x100) as u8
    } else {
        (color / 0x100_0000 % 0x100) as u8
    }
}

/// The colour with the given red, green and blue parts.
pub open spec fn packed_color(r: u8, g: u8, b: u8) -> u32 {
    (r * 0x1_0000 + g * 0x100 + b) as u32
}

/// The colour with the given red, green and blue parts: red in the third
/// byte, green in the second, blue in the lowest.
pub fn pack_color(r: u8, g: u8, b: u8) -> (color: u32)
    ensures
        color == packed_color(r, g, b),
        color_byte(color, 0) == b,
        color_byte(color, 1) == g,
        color_byte(color, 2) == r,
        color_byte(color, 3) == 0,
{
    proof {
        lemma_color_bytes(b as int, g as int, r as int, 0);
    }
    r as u32 * 0x1_0000 + g as u32 * 0x100 + b as u32
}

impl RenderBuffer {
    /// Pixels are four bytes, a row holds all its pixels, and the bytes
    /// hold all the rows.
    pub open spec fn wf(&self) -> bool {
        &&& self.bytes_per_pixel == 4
        &&& self.pitch >= 4 * self.width
        &&& self.bytes@.len() >= self.pitch * self.height
    }

    /// Where byte `b` of the pixel in column `x` of row `y` lies.
    pub open spec fn byte_index(&self, x: int, y: int, b: int) -> int {
        y * self.pitch + 4 * x + b
    }

    /// The part of the rectangle from `(min_x, min_y)` up to but not
    /// including `(max_x, max_y)` that lies in the buffer.
    pub open spec fn in_rectangle(
        &self,
        min_x: int,
        min_y: int,
        max_x: int,
        max_y: int,
        x: int,
        y: int,
    ) -> bool {
        &&& larger(min_x, 0) <= x < smaller(max_x, self.width as int)
        &&& larger(min_y, 0) <= y < smaller(max_y, self.height as int)
    }

    /// Whether the byte at `index` belongs to a pixel of the rectangle.
    pub open spec fn byte_in_rectangle(
        &self,
        min_x: int,
        min_y: int,
        max_x: int,
        max_y: int,
        index: int,
    ) -> bool {
        exists|x: int, y: int, b: int|
            self.in_rectangle(min_x, min_y, max_x, max_y, x, y) && 0 <= b < 4 && index
                == #[trigger] self.byte_index(x, y, b)
    }

    /// A buffer of `width` by `height` pixels, all bytes 0, with rows
    /// that follow one another without a gap.
    pub fn new(width: usize, height: usize) -> (buffer: RenderBuffer)
        requires
            4 * width <= usize::MAX,
            4 * width * height <= usize::MAX,
        ensures
            buffer.wf(),
            buffer.width == width,
            buffer.height == height,
            buffer.pitch == 4 * width,
            buffer.bytes@.len() == 4 * width * height,
            forall|i: int| 0 <= i < buffer.bytes@.len() ==> #[trigger] buffer.bytes@[i] == 0,
    {
        proof {
            lemma_buffer_size(width as int, height as int);
        }
        let pitch: usize = 4 * width;
        let len: usize = pitch * height;
        let mut bytes: Vec<u8> = Vec::new();
        let mut i: usize = 0;
        while i < len
            invariant
                i <= len,
                bytes@.len() == i,
                forall|j: int| 0 <= j < i ==> #[trigger] bytes@[j] == 0,
            decreases len - i,
        {
            bytes.push(0);
            i += 1;
        }
        RenderBuffer { bytes, width, height, pitch, bytes_per_pixel: 4 }
    }

    /// The buffer over the bytes that the platform hands over.
    pub fn from_offscreen_buffer(buffer: GameOffscreenBuffer) -> (render_buffer: RenderBuffer)
        requires
            0 <= buffer.width,
            0 <= buffer.height,
            0 <= buffer.bytes_per_pixel,
            buffer.pitch >= buffer.width * buffer.bytes_per_pixel,
            buffer.memory@.len() == buffer.pitch * buffer.height,
        ensures
            render_buffer.bytes@ == buffer.memory@,
            render_buffer.width == buffer.width,
            render_buffer.height == buffer.height,
            render_buffer.pitch == buffer.pitch,
            render_buffer.bytes_per_pixel == buffer.bytes_per_pixel,
            buffer.bytes_per_pixel == 4 ==> render_buffer.wf(),
    {
        assert(buffer.width * buffer.bytes_per_pixel >= 0) by (nonlinear_arith)
            requires
                0 <= buffer.width,
                0 <= buffer.bytes_per_pixel,
        ;
        RenderBuffer {
            bytes: buffer.memory,
            width: buffer.width as usize,
            height: buffer.height as usize,
            pitch: buffer.pitch as usize,
            bytes_per_pixel: buffer.bytes_per_pixel as usize,
        }
    }

    /// The colour of the pixel in column `x` of row `y`.
    pub fn pixel(&self, x: usize, y: usize) -> (color: u32)
        requires
            self.wf(),
            x < self.width,
            y < self.height,
        ensures
            color_byte(color, 0) == self.bytes@[self.byte_index(x as int, y as int, 0)],
            color_byte(color, 1) == self.bytes@[self.byte_index(x as int, y as int, 1)],
            color_byte(color, 2) == self.bytes@[self.byte_index(x as int, y as int, 2)],
            color_byte(color, 3) == self.bytes@[self.byte_index(x as int, y as int, 3)],
    {
        proof {
            lemma_pixel_in_buffer(
                x as int,
                y as int,
                self.width as int,
                self.height as int,
                self.pitch as int,
            );
        }
        let len: usize = self.bytes.len();
        let at: usize = y * self.pitch + 4 * x;
        let b0: u32 = self.bytes[at] as u32;
        let b1: u32 = self.bytes[at + 1] as u32;
        let b2: u32 = self.bytes[at + 2] as u32;
        let b3: u32 = self.bytes[at + 3] as u32;
        proof {
            lemma_color_bytes(b0 as int, b1 as int, b2 as int, b3 as int);
        }
        b0 + 0x100 * b1 + 0x1_0000 * b2 + 0x100_0000 * b3
    }
}

/// The colour spelled by four bytes, lowest first, has these bytes.
proof fn lemma_color_bytes(b0: int, b1: int, b2: int, b3: int)
    requires
        0 <= b0 < 0x100,
        0 <= b1 < 0x100,
        0 <= b2 < 0x100,
        0 <= b3 < 0x100,
    ensures
        ({
            let color = (b0 + 0x100 * b1 + 0x1_0000 * b2 + 0x100_0000 * b3) as u32;
            &&& color == b0 + 0x100 * b1 + 0x1_0000 * b2 + 0x100_0000 * b3
            &&& color_byte(color, 0) == b0
            &&& color_byte(color, 1) == b1
            &&& color_byte(color, 2) == b2
            &&& color_byte(color, 3) == b3
        }),
{
    let c = b0 + 0x100 * b1 + 0x1_0000 * b2 + 0x100_0000 * b3;
    vstd::arithmetic::div_mod::lemma_fundamental_div_mod_converse(
        c,
        0x100,
        b1 + 0x100 * b2 + 0x1_0000 * b3,
        b0,
    );
    vstd::arithmetic::div_mod::lemma_fundamental_div_mod_converse(
        b1 + 0x100 * b2 + 0x1_0000 * b3,
        0x100,
        b2 + 0x100 * b3,
        b1,
    );
    vstd::arithmetic::div_mod::lemma_fundamental_div_mod_converse(c, 0x1_0000, b2 + 0x100 * b3, b0 + 0x100 * b1);
    vstd::arithmetic::div_mod::lemma_fundamental_div_mod_converse(b2 + 0x100 * b3, 0x100, b3, b2);
    vstd::arithmetic::div_mod::lemma_fundamental_div_mod_converse(
        c,
        0x100_0000,
        b3,
        b0 + 0x100 * b1 + 0x1_0000 * b2,
    );
    vstd::arithmetic::div_mod::lemma_small_mod(b3 as nat, 0x100);
}

/// A buffer of `4 * width * height` bytes has rows of `4 * width` bytes.
proof fn lemma_buffer_size(width: int, height: int)
    requires
        0 <= width,
        0 <= height,
        4 * width * height <= usize::MAX,
    ensures
        (4 * width) * height == 4 * width * height,
        0 <= (4 * width) * height,
{
    assert((4 * width) * height == 4 * width * height) by (nonlinear_arith);
    assert(0 <= (4 * width) * height) by (nonlinear_arith)
        requires
            0 <= width,
            0 <= height,
    ;
}

/// The four bytes of a pixel of the buffer lie in the bytes of the
/// buffer, in the row of the pixel.
pub proof fn lemma_pixel_in_buffer(x: int, y: int, width: int, height: int, pitch: int)
    requires
        0 <= x < width,
        0 <= y < height,
        4 * width <= pitch,
    ensures
        0 <= y * pitch,
        4 * x + 4 <= pitch,
        y * pitch + 4 * x + 4 <= pitch * height,
{
    assert(0 <= y * pitch) by (nonlinear_arith)
        requires
            0 <= y,
            0 <= pitch,
    ;
    assert(y * pitch + pitch <= pitch * height) by (nonlinear_arith)
        requires
            y + 1 <= height,
            0 <= pitch,
    ;
}

/// Fills the part of the rectangle from `(min_x, min_y)` up to but not
/// including `(max_x, max_y)` that lies in the buffer with `color`. No
/// other byte of the buffer changes.
pub fn draw_rectangle(
    buffer: &mut RenderBuffer,
    min_x: i64,
    min_y: i64,
    max_x: i64,
    max_y: i64,
    color: u32,
)
    requires
        old(buffer).wf(),
    ensures
        final(buffer).wf(),
        final(buffer).width == old(buffer).width,
        final(buffer).height == old(buffer).height,
        final(buffer).pitch == old(buffer).pitch,
        final(buffer).bytes_per_pixel == old(buffer).bytes_per_pixel,
        final(buffer).bytes@.len() == old(buffer).bytes@.len(),
        forall|x: int, y: int, b: int|
            old(buffer).in_rectangle(min_x as int, min_y as int, max_x as int, max_y as int, x, y)
                && 0 <= b < 4 ==> final(buffer).bytes@[#[trigger] old(buffer).byte_index(x, y, b)]
                == color_byte(color, b),
        forall|index: int|
            0 <= index < old(buffer).bytes@.len() && !old(buffer).byte_in_rectangle(
                min_x as int,
                min_y as int,
                max_x as int,
                max_y as int,
                index,
            ) ==> #[trigger] final(buffer).bytes@[index] == old(buffer).bytes@[index],
{
    let ghost before = *buffer;
    let ghost lo_x = min_x as int;
    let ghost lo_y = min_y as int;
    let ghost hi_x = max_x as int;
    let ghost hi_y = max_y as int;
    let first_x: usize = if min_x < 0 {
        0
    } else if min_x as u64 > buffer.width as u64 {
        buffer.width
    } else {
        min_x as usize
    };
    let first_y: usize = if min_y < 0 {
        0
    } else if min_y as u64 > buffer.height as u64 {
        buffer.height
    } else {
        min_y as usize
    };
    let end_x: usize = if max_x < 0 {
        0
    } else if max_x as u64 > buffer.width as u64 {
        buffer.width
    } else {
        max_x as usize
    };
    let end_y: usize = if max_y < 0 {
        0
    } else if max_y as u64 > buffer.height as u64 {
        buffer.height
    } else {
        max_y as usize
    };
    if first_x >= end_x || first_y >= end_y {
        return;
    }
    let c0: u8 = (color % 0x100) as u8;
    let c1: u8 = (color / 0x100 % 0x100) as u8;
    let c2: u8 = (color / 0x1_0000 % 0x100) as u8;
    let c3: u8 = (color / 0x100_0000 % 0x100) as u8;
    let len: usize = buffer.bytes.len();
    let mut y: usize = first_y;
    while y < end_y
        invariant
            first_y <= y <= end_y,
            before.wf(),
            buffer.wf(),
            buffer.width == before.width,
            buffer.height == before.height,
            buffer.pitch == before.pitch,
            buffer.bytes_per_pixel == before.bytes_per_pixel,
            buffer.bytes@.len() == before.bytes@.len(),
            buffer.bytes@.len() == len,
            first_x == larger(lo_x, 0) || first_x >= end_x,
            first_y == larger(lo_y, 0),
            end_x == smaller(hi_x, before.width as int) || end_x == 0,
            end_y == smaller(hi_y, before.height as int),
            first_x < end_x <= before.width,
            end_y <= before.height,
            c0 == color_byte(color, 0),
            c1 == color_byte(color, 1),
            c2 == color_byte(color, 2),
            c3 == color_byte(color, 3),
            forall|px: int, py: int, b: int|
                first_x <= px < end_x && first_y <= py < y && 0 <= b < 4
                    ==> buffer.bytes@[#[trigger] before.byte_index(px, py, b)] == color_byte(color, b),
            forall|index: int|
                0 <= index < len && !before.byte_in_rectangle(lo_x, lo_y, hi_x, hi_y, index)
                    ==> #[trigger] buffer.bytes@[index] == before.bytes@[index],
        decreases end_y - y,
    {
        let mut x: usize = first_x;
        while x < end_x
            invariant
                first_y <= y < end_y,
                first_x <= x <= end_x,
                before.wf(),
                buffer.wf(),
                buffer.width == before.width,
                buffer.height == before.height,
                buffer.pitch == before.pitch,
                buffer.bytes_per_pixel == before.bytes_per_pixel,
                buffer.bytes@.len() == before.bytes@.len(),
                buffer.bytes@.len() == len,
                first_x == larger(lo_x, 0) || first_x >= end_x,
                first_y == larger(lo_y, 0),
                end_x == smaller(hi_x, before.width as int) || end_x == 0,
                end_y == smaller(hi_y, before.height as int),
                first_x < end_x <= before.width,
                end_y <= before.height,
                c0 == color_byte(color, 0),
                c1 == color_byte(color, 1),
                c2 == color_byte(color, 2),
                c3 == color_byte(color, 3),
                forall|px: int, py: int, b: int|
                    first_x <= px < end_x && 0 <= b < 4 && (first_y <= py < y || (py == y && px < x))
                        ==> buffer.bytes@[#[trigger] before.byte_index(px, py, b)] == color_byte(
                        color,
                        b,
                    ),
                forall|index: int|
                    0 <= index < len && !before.byte_in_rectangle(lo_x, lo_y, hi_x, hi_y, index)
                        ==> #[trigger] buffer.bytes@[index] == before.bytes@[index],
            decreases end_x - x,
        {
            proof {
                lemma_pixel_in_buffer(
                    x as int,
                    y as int,
                    before.width as int,
                    before.height as int,
                    before.pitch as int,
                );
            }
            let at: usize = y * buffer.pitch + 4 * x;
            let ghost pre = buffer.bytes@;
            buffer.bytes[at] = c0;
            buffer.bytes[at + 1] = c1;
            buffer.bytes[at + 2] = c2;
            buffer.bytes[at + 3] = c3;
            proof {
                assert(before.in_rectangle(lo_x, lo_y, hi_x, hi_y, x as int, y as int));
                assert(at + 0 == before.byte_index(x as int, y as int, 0));
                assert(at + 1 == before.byte_index(x as int, y as int, 1));
                assert(at + 2 == before.byte_index(x as int, y as int, 2));
                assert(at + 3 == before.byte_index(x as int, y as int, 3));
                assert(before.byte_in_rectangle(lo_x, lo_y, hi_x, hi_y, at + 0));
                assert(before.byte_in_rectangle(lo_x, lo_y, hi_x, hi_y, at + 1));
                assert(before.byte_in_rectangle(lo_x, lo_y, hi_x, hi_y, at + 2));
                assert(before.byte_in_rectangle(lo_x, lo_y, hi_x, hi_y, at + 3));
                assert forall|px: int, py: int, b: int|
                    first_x <= px < end_x && 0 <= b < 4 && (first_y <= py < y || (py == y && px < x
                        + 1)) implies buffer.bytes@[#[trigger] before.byte_index(px, py, b)]
                    == color_byte(color, b) by {
                    let index = before.byte_index(px, py, b);
                    if py == y && px == x {
                    } else {
                        lemma_pixel_in_buffer(
                            px,
                            py,
                            before.width as int,
                            before.height as int,
                            before.pitch as int,
                        );
                        assert(pre[index] == color_byte(color, b));
                        if at <= index < at + 4 {
                            lemma_pair_index_injective(
                                py,
                                4 * px + b,
                                y as int,
                                4 * x + (index - at),
                                before.pitch as int,
                            );
                        }
                    }
                }
            }
            x += 1;
        }
        y += 1;
    }
}

/// A byte of a pixel of the buffer outside a rectangle is no byte of a
/// pixel of the rectangle.
pub proof fn lemma_pixel_outside_rectangle(
    buffer: &RenderBuffer,
    min_x: int,
    min_y: int,
    max_x: int,
    max_y: int,
    x: int,
    y: int,
    b: int,
)
    requires
        buffer.wf(),
        0 <= x < buffer.width,
        0 <= y < buffer.height,
        0 <= b < 4,
        !buffer.in_rectangle(min_x, min_y, max_x, max_y, x, y),
    ensures
        !buffer.byte_in_rectangle(min_x, min_y, max_x, max_y, buffer.byte_index(x, y, b)),
        0 <= buffer.byte_index(x, y, b) < buffer.bytes@.len(),
{
    lemma_pixel_in_buffer(x, y, buffer.width as int, buffer.height as int, buffer.pitch as int);
    assert(buffer.pitch * buffer.height == buffer.height * buffer.pitch) by (nonlinear_arith);
    if buffer.byte_in_rectangle(min_x, min_y, max_x, max_y, buffer.byte_index(x, y, b)) {
        let (x2, y2, b2) = choose|x2: int, y2: int, b2: int|
            buffer.in_rectangle(min_x, min_y, max_x, max_y, x2, y2) && 0 <= b2 < 4
                && buffer.byte_index(x, y, b) == #[trigger] buffer.byte_index(x2, y2, b2);
        lemma_pixel_in_buffer(
            x2,
            y2,
            buffer.width as int,
            buffer.height as int,
            buffer.pitch as int,
        );
        lemma_pair_index_injective(y, 4 * x + b, y2, 4 * x2 + b2, buffer.pitch as int);
    }
}

/// The colour of the pixel in column `x` of row `y` of the gradient that
/// is moved by `x_offset` and `y_offset`: the lowest byte of the moved
/// column as blue, the lowest byte of the moved row as green.
pub open spec fn gradient_color(x: int, y: int, x_offset: i32, y_offset: i32) -> u32 {
    (((y + y_offset) % 0x100) * 0x100 + (x + x_offset) % 0x100) as u32
}

/// The colour of the pixel in column `x` of row `y` of the gradient that
/// is moved by `x_offset` and `y_offset`.
pub fn gradient_pixel(x: usize, y: usize, x_offset: i32, y_offset: i32) -> (color: u32)
    ensures
        color == gradient_color(x as int, y as int, x_offset, y_offset),
{
    let blue: u32 = low_byte(x as i128 + x_offset as i128);
    let green: u32 = low_byte(y as i128 + y_offset as i128);
    green * 0x100 + blue
}

/// The lowest byte of a number: the number in `0 .. 256` that differs
/// from it by a multiple of 256.
fn low_byte(v: i128) -> (byte: u32)
    requires
        -0x1_0000_0000_0000_0000_0000 <= v <= 0x1_0000_0000_0000_0000_0000,
    ensures
        byte == v as int % 0x100,
        byte < 0x100,
{
    let high: u32 = crate::math::wrap_u32(v);
    proof {
        crate::math::lemma_div_mod(v as int, 0x1_0000_0000);
        let q = v as int / 0x1_0000_0000;
        crate::math::lemma_div_mod(high as int, 0x100);
        let h = high as int / 0x100;
        assert(v as int == (q * 0x100_0000 + h) * 0x100 + high as int % 0x100) by (nonlinear_arith)
            requires
                v as int == q * 0x1_0000_0000 + high as int,
                high as int == h * 0x100 + high as int % 0x100,
        ;
        vstd::arithmetic::div_mod::lemma_fundamental_div_mod_converse(
            v as int,
            0x100,
            q * 0x100_0000 + h,
            high as int % 0x100,
        );
    }
    high % 0x100
}

/// Fills the buffer with the gradient that is moved by `x_offset` and
/// `y_offset`. Bytes between the rows stay as they are.
pub fn render_weird_gradient(buffer: &mut RenderBuffer, x_offset: i32, y_offset: i32)
    requires
        old(buffer).wf(),
        old(buffer).width <= i64::MAX,
        old(buffer).height <= i64::MAX,
    ensures
        final(buffer).wf(),
        final(buffer).width == old(buffer).width,
        final(buffer).height == old(buffer).height,
        final(buffer).pitch == old(buffer).pitch,
        final(buffer).bytes_per_pixel == old(buffer).bytes_per_pixel,
        final(buffer).bytes@.len() == old(buffer).bytes@.len(),
        forall|x: int, y: int, b: int|
            0 <= x < old(buffer).width && 0 <= y < old(buffer).height && 0 <= b < 4
                ==> final(buffer).bytes@[#[trigger] old(buffer).byte_index(x, y, b)] == color_byte(
                gradient_color(x, y, x_offset, y_offset),
                b,
            ),
{
    let ghost before = *buffer;
    let mut y: usize = 0;
    while y < buffer.height
        invariant
            y <= buffer.height,
            before.wf(),
            buffer.wf(),
            buffer.width == before.width,
            buffer.height == before.height,
            buffer.pitch == before.pitch,
            buffer.bytes_per_pixel == before.bytes_per_pixel,
            buffer.bytes@.len() == before.bytes@.len(),
            buffer.width <= i64::MAX,
            buffer.height <= i64::MAX,
            forall|px: int, py: int, b: int|
                0 <= px < before.width && 0 <= py < y && 0 <= b < 4
                    ==> buffer.bytes@[#[trigger] before.byte_index(px, py, b)] == color_byte(
                    gradient_color(px, py, x_offset, y_offset),
                    b,
                ),
        decreases buffer.height - y,
    {
        let mut x: usize = 0;
        while x < buffer.width
            invariant
                y < buffer.height,
                x <= buffer.width,
                before.wf(),
                buffer.wf(),
                buffer.width == before.width,
                buffer.height == before.height,
                buffer.pitch == before.pitch,
                buffer.bytes_per_pixel == before.bytes_per_pixel,
                buffer.bytes@.len() == before.bytes@.len(),
                buffer.width <= i64::MAX,
                buffer.height <= i64::MAX,
                forall|px: int, py: int, b: int|
                    0 <= px < before.width && 0 <= b < 4 && (0 <= py < y || (py == y && 0 <= px < x))
                        ==> buffer.bytes@[#[trigger] before.byte_index(px, py, b)] == color_byte(
                        gradient_color(px, py, x_offset, y_offset),
                        b,
                    ),
            decreases buffer.width - x,
        {
            let color: u32 = gradient_pixel(x, y, x_offset, y_offset);
            let ghost pre = *buffer;
            draw_rectangle(buffer, x as i64, y as i64, x as i64 + 1, y as i64 + 1, color);
            proof {
                assert forall|px: int, py: int, b: int|
                    0 <= px < before.width && 0 <= b < 4 && (0 <= py < y || (py == y && 0 <= px < x
                        + 1)) implies buffer.bytes@[#[trigger] before.byte_index(px, py, b)]
                    == color_byte(gradient_color(px, py, x_offset, y_offset), b) by {
                    assert(before.byte_index(px, py, b) == pre.byte_index(px, py, b));
                    if px == x && py == y {
                        assert(pre.in_rectangle(x as int, y as int, x + 1, y + 1, px, py));
                    } else {
                        lemma_pixel_outside_rectangle(&pre, x as int, y as int, x + 1, y + 1, px, py, b);
                    }
                }
            }
            x += 1;
        }
        y += 1;
    }
}

/// Which part of a bitmap of `bitmap_width` by `bitmap_height` pixels,
/// put with its first pixel at `(x, y)` of a buffer of `buffer_width` by
/// `buffer_height` pixels, falls into the buffer: `None` where none of it
/// does.
pub fn clip_bitmap(
    bitmap_width: usize,
    bitmap_height: usize,
    x: i64,
    y: i64,
    buffer_width: usize,
    buffer_height: usize,
) -> (plan: Option<BlitPlan>)
    ensures
        plan.is_some() == (larger(x as int, 0) < smaller(x + bitmap_width, buffer_width as int)
            && larger(y as int, 0) < smaller(y + bitmap_height, buffer_height as int)),
        plan.is_some() ==> {
            &&& plan.unwrap().dst_min_x == larger(x as int, 0)
            &&& plan.unwrap().dst_min_y == larger(y as int, 0)
            &&& plan.unwrap().dst_min_x + plan.unwrap().width == smaller(
                x + bitmap_width,
                buffer_width as int,
            )
            &&& plan.unwrap().dst_min_y + plan.unwrap().height == smaller(
                y + bitmap_height,
                buffer_height as int,
            )
            &&& plan.unwrap().src_min_x == plan.unwrap().dst_min_x - x
            &&& plan.unwrap().src_min_y == plan.unwrap().dst_min_y - y
        },
{
    let left: i128 = if x < 0 {
        0
    } else {
        x as i128
    };
    let bottom: i128 = if y < 0 {
        0
    } else {
        y as i128
    };
    let past_x: i128 = x as i128 + bitmap_width as i128;
    let past_y: i128 = y as i128 + bitmap_height as i128;
    let right: i128 = if past_x > buffer_width as i128 {
        buffer_width as i128
    } else {
        past_x
    };
    let top: i128 = if past_y > buffer_height as i128 {
        buffer_height as i128
    } else {
        past_y
    };
    if left >= right || bottom >= top {
        return None;
    }
    Some(
        BlitPlan {
            src_min_x: (left - x as i128) as usize,
            src_min_y: (bottom - y as i128) as usize,
            dst_min_x: left as usize,
            dst_min_y: bottom as usize,
            width: (right - left) as usize,
            height: (top - bottom) as usize,
        },
    )
}

} // verus!
