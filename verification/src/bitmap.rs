//! Bitmaps: pixels of 32 bits in rows, read from the bytes of a file in
//! the BMP format with bit masks for the colour channels.

use vstd::prelude::*;
use vstd::arithmetic::power2::pow2;
use crate::math::lemma_div_mod;

verus! {

/// Number of bytes of the header that are read.
pub const BITMAP_HEADER_SIZE: usize = 66;

/// Where the header holds the offset of the pixels in the file.
pub const BITMAP_OFFSET_AT: usize = 10;

/// Where the header holds the width of the bitmap.
pub const BITMAP_WIDTH_AT: usize = 18;

/// Where the header holds the height of the bitmap.
pub const BITMAP_HEIGHT_AT: usize = 22;

/// Where the header holds the kind of compression.
pub const BITMAP_COMPRESSION_AT: usize = 30;

/// Where the header holds the bits of a pixel that are its red part.
pub const BITMAP_RED_MASK_AT: usize = 54;

/// Where the header holds the bits of a pixel that are its green part.
pub const BITMAP_GREEN_MASK_AT: usize = 58;

/// Where the header holds the bits of a pixel that are its blue part.
pub const BITMAP_BLUE_MASK_AT: usize = 62;

/// The kind of compression of a file whose pixels are given by bit masks.
pub const BITMAP_COMPRESSION_BITFIELDS: u32 = 3;

/// Whether `bit` is the lowest bit of `value` that is set: `value` is an
/// odd multiple of two to the power `bit`.
pub open spec fn is_lowest_set_bit(value: u32, bit: u32) -> bool {
    &&& bit < 32
    &&& value as int % pow2(bit as nat) as int == 0
    &&& (value as int / pow2(bit as nat) as int) % 2 == 1
}

/// The lowest bit of `value` that is set, for a `value` that is not 0.
pub open spec fn lowest_set_bit_of(value: u32) -> u32 {
    choose|bit: u32| is_lowest_set_bit(value, bit)
}

/// The lowest bit of `value` that is set, or `None` for 0.
pub fn find_least_significant_set_bit(value: u32) -> (bit: Option<u32>)
    ensures
        value == 0 ==> bit.is_none(),
        value != 0 ==> bit == Some(lowest_set_bit_of(value)) && is_lowest_set_bit(
            value,
            bit.unwrap(),
        ),
{
    proof {
        vstd::arithmetic::power2::lemma2_to64();
    }
    let mut i: u32 = 0;
    while i < 32
        invariant
            i <= 32,
            value as int % pow2(i as nat) as int == 0,
        decreases 32 - i,
    {
        proof {
            vstd::bits::lemma_u32_pow2_no_overflow(i as nat);
            vstd::bits::lemma_u32_shl_is_mul(1u32, i);
            vstd::bits::lemma_u32_shr_is_div(value, i);
            assert((value & (1u32 << i) != 0) == ((value >> i) & 1 == 1)) by (bit_vector)
                requires
                    i < 32,
            ;
            let high = value >> i;
            assert(high & 1 == high % 2) by (bit_vector);
            lemma_even_multiple(value as int, pow2(i as nat) as int);
            vstd::arithmetic::power2::lemma_pow2_unfold((i + 1) as nat);
        }
        if value & (1u32 << i) != 0 {
            proof {
                lemma_lowest_set_bit_unique(value, i, lowest_set_bit_of(value));
            }
            return Some(i);
        }
        i += 1;
    }
    proof {
        vstd::arithmetic::power2::lemma2_to64_rest();
        vstd::arithmetic::div_mod::lemma_small_mod(value as nat, pow2(32));
    }
    None
}

/// A number has one lowest set bit only.
pub proof fn lemma_lowest_set_bit_unique(value: u32, a: u32, b: u32)
    requires
        is_lowest_set_bit(value, a),
        is_lowest_set_bit(value, b),
    ensures
        a == b,
{
    if a < b {
        lemma_no_set_bit_below(value, a, b);
    } else if b < a {
        lemma_no_set_bit_below(value, b, a);
    }
}

/// A multiple of two to the power `high` is an even multiple of two to
/// every lower power.
proof fn lemma_no_set_bit_below(value: u32, low: u32, high: u32)
    requires
        low < high < 32,
        value as int % pow2(high as nat) as int == 0,
    ensures
        (value as int / pow2(low as nat) as int) % 2 == 0,
{
    let l = pow2(low as nat) as int;
    let h = pow2(high as nat) as int;
    let rest = pow2((high - low - 1) as nat) as int;
    vstd::arithmetic::power2::lemma_pow2_pos(low as nat);
    vstd::arithmetic::power2::lemma_pow2_pos(high as nat);
    vstd::arithmetic::power2::lemma_pow2_pos((high - low - 1) as nat);
    vstd::arithmetic::power2::lemma_pow2_adds(low as nat, (high - low - 1) as nat);
    vstd::arithmetic::power2::lemma_pow2_adds((high - 1) as nat, 1);
    vstd::arithmetic::power2::lemma2_to64();
    lemma_div_mod(value as int, h);
    let q = value as int / h;
    assert(value as int == (q * rest * 2) * l + 0) by (nonlinear_arith)
        requires
            value as int == q * h,
            h == l * rest * 2,
    ;
    vstd::arithmetic::div_mod::lemma_fundamental_div_mod_converse(value as int, l, q * rest * 2, 0);
    assert((q * rest * 2) == (q * rest) * 2 + 0) by (nonlinear_arith);
    vstd::arithmetic::div_mod::lemma_fundamental_div_mod_converse(q * rest * 2, 2, q * rest, 0);
}

/// A multiple of `d` whose quotient by `d` is even is a multiple of
/// `2 * d`.
proof fn lemma_even_multiple(x: int, d: int)
    requires
        d > 0,
        x % d == 0,
    ensures
        (x / d) % 2 == 0 ==> x % (2 * d) == 0,
{
    lemma_div_mod(x, d);
    let q = x / d;
    if q % 2 == 0 {
        lemma_div_mod(q, 2);
        let h = q / 2;
        assert(x == h * (2 * d) + 0) by (nonlinear_arith)
            requires
                x == q * d,
                q == h * 2,
        ;
        vstd::arithmetic::div_mod::lemma_fundamental_div_mod_converse(x, 2 * d, h, 0);
    }
}

/// The number that the four bytes of `bytes` from `at` on spell, lowest
/// byte first.
pub open spec fn le_u32(bytes: Seq<u8>, at: int) -> u32 {
    (bytes[at] + 0x100 * bytes[at + 1] + 0x1_0000 * bytes[at + 2] + 0x100_0000 * bytes[at + 3]) as u32
}

/// The number that the four bytes of `bytes` from `at` on spell, lowest
/// byte first.
pub fn read_le_u32(bytes: &[u8], at: usize) -> (value: u32)
    requires
        at + 4 <= bytes@.len(),
    ensures
        value == le_u32(bytes@, at as int),
{
    let b0: u32 = bytes[at] as u32;
    let b1: u32 = bytes[at + 1] as u32;
    let b2: u32 = bytes[at + 2] as u32;
    let b3: u32 = bytes[at + 3] as u32;
    b0 + 0x100 * b1 + 0x1_0000 * b2 + 0x100_0000 * b3
}

/// The channels of a pixel as the file has them: for each channel the
/// number of bits by which it stands above the lowest bit of the pixel.
#[derive(Clone, Copy, Debug, PartialEq, Eq, Structural)]
pub struct ChannelShifts {
    pub alpha: u32,
    pub red: u32,
    pub green: u32,
    pub blue: u32,
}

impl ChannelShifts {
    /// Every shift is less than the width of a pixel.
    pub open spec fn wf(self) -> bool {
        self.alpha < 32 && self.red < 32 && self.green < 32 && self.blue < 32
    }

    /// The pixel `value` of the file with its channels in the order that
    /// the renderer wants: alpha in the highest byte, then red, then
    /// green, and blue in the lowest.
    pub open spec fn arranged(self, value: u32) -> u32 {
        ((value >> self.alpha) << 24u32) | ((value >> self.red) << 16u32) | ((value >> self.green)
            << 8u32) | (value >> self.blue)
    }

    /// The pixel `value` of the file with its channels in the order that
    /// the renderer wants.
    pub fn arrange(&self, value: u32) -> (pixel: u32)
        requires
            self.wf(),
        ensures
            pixel == self.arranged(value),
    {
        ((value >> self.alpha) << 24u32) | ((value >> self.red) << 16u32) | ((value >> self.green)
            << 8u32) | (value >> self.blue)
    }
}

/// The bits of a pixel that belong to none of the three colours.
pub open spec fn alpha_mask(bytes: Seq<u8>) -> u32 {
    !(le_u32(bytes, BITMAP_RED_MASK_AT as int) | le_u32(bytes, BITMAP_GREEN_MASK_AT as int) | le_u32(
        bytes,
        BITMAP_BLUE_MASK_AT as int,
    ))
}

/// Whether `bytes` is a file that can be loaded: it has a whole header,
/// its pixels are given by bit masks, every channel has a bit, its width
/// and height are not negative, and it holds all its pixels.
pub open spec fn is_loadable(bytes: Seq<u8>) -> bool {
    &&& bytes.len() >= BITMAP_HEADER_SIZE
    &&& le_u32(bytes, BITMAP_COMPRESSION_AT as int) == BITMAP_COMPRESSION_BITFIELDS
    &&& le_u32(bytes, BITMAP_WIDTH_AT as int) <= i32::MAX
    &&& le_u32(bytes, BITMAP_HEIGHT_AT as int) <= i32::MAX
    &&& le_u32(bytes, BITMAP_RED_MASK_AT as int) != 0
    &&& le_u32(bytes, BITMAP_GREEN_MASK_AT as int) != 0
    &&& le_u32(bytes, BITMAP_BLUE_MASK_AT as int) != 0
    &&& alpha_mask(bytes) != 0
    &&& le_u32(bytes, BITMAP_OFFSET_AT as int) + 4 * le_u32(bytes, BITMAP_WIDTH_AT as int) * le_u32(
        bytes,
        BITMAP_HEIGHT_AT as int,
    ) <= bytes.len()
}

/// A bitmap: `height` rows of `width` pixels each, the lowest row first.
pub struct LoadedBitmap {
    pixels: Vec<u32>,
    width: usize,
    height: usize,
}

impl LoadedBitmap {
    /// The pixels, row after row.
    pub closed spec fn pixel_values(&self) -> Seq<u32> {
        self.pixels@
    }

    /// Number of pixels in a row.
    pub closed spec fn columns(&self) -> int {
        self.width as int
    }

    /// Number of rows.
    pub closed spec fn lines(&self) -> int {
        self.height as int
    }

    /// There are as many pixels as the width and the height say.
    pub open spec fn wf(&self) -> bool {
        self.pixel_values().len() == self.columns() * self.lines()
    }

    /// The bitmap of the given pixels.
    pub fn new(pixels: Vec<u32>, width: usize, height: usize) -> (bitmap: LoadedBitmap)
        requires
            pixels@.len() == width * height,
        ensures
            bitmap.wf(),
            bitmap.pixel_values() == pixels@,
            bitmap.columns() == width,
            bitmap.lines() == height,
    {
        LoadedBitmap { pixels, width, height }
    }

    /// Number of pixels in a row.
    pub fn width(&self) -> (width: usize)
        ensures
            width == self.columns(),
    {
        self.width
    }

    /// Number of rows.
    pub fn height(&self) -> (height: usize)
        ensures
            height == self.lines(),
    {
        self.height
    }

    /// The pixels, row after row.
    pub fn pixels(&self) -> (pixels: &[u32])
        ensures
            pixels@ == self.pixel_values(),
    {
        self.pixels.as_slice()
    }

    /// The rows from the last one stored to the first: for a bitmap
    /// stored lowest row first, from the top of the picture down.
    pub fn rows(&self) -> (rows: Vec<&[u32]>)
        requires
            self.wf(),
            self.columns() > 0,
        ensures
            rows@.len() == self.lines(),
            forall|k: int|
                0 <= k < self.lines() ==> (#[trigger] rows@[k])@ == self.pixel_values().subrange(
                    (self.lines() - 1 - k) * self.columns(),
                    (self.lines() - k) * self.columns(),
                ),
    {
        let mut rows: Vec<&[u32]> = Vec::new();
        let mut k: usize = 0;
        while k < self.height
            invariant
                self.wf(),
                self.columns() > 0,
                k <= self.height,
                rows@.len() == k,
                forall|j: int|
                    0 <= j < k ==> (#[trigger] rows@[j])@ == self.pixel_values().subrange(
                        (self.lines() - 1 - j) * self.columns(),
                        (self.lines() - j) * self.columns(),
                    ),
            decreases self.height - k,
        {
            let row: usize = self.height - 1 - k;
            let len: usize = self.pixels.len();
            proof {
                lemma_row_bounds(row as int, self.columns(), self.lines());
            }
            let from: usize = row * self.width;
            let row_pixels = vstd::slice::slice_subrange(self.pixels.as_slice(), from, from + self.width);
            rows.push(row_pixels);
            k += 1;
        }
        rows
    }
}

/// Row `row` of `lines` rows of `columns` pixels lies within the pixels.
proof fn lemma_row_bounds(row: int, columns: int, lines: int)
    requires
        0 <= row < lines,
        0 <= columns,
    ensures
        0 <= row * columns,
        row * columns + columns == (row + 1) * columns,
        (row + 1) * columns <= lines * columns,
        lines * columns == columns * lines,
{
    assert(lines * columns == columns * lines) by (nonlinear_arith);
    assert(0 <= row * columns) by (nonlinear_arith)
        requires
            0 <= row,
            0 <= columns,
    ;
    assert(row * columns + columns == (row + 1) * columns) by (nonlinear_arith);
    assert((row + 1) * columns <= lines * columns) by (nonlinear_arith)
        requires
            row + 1 <= lines,
            0 <= columns,
    ;
}

/// The shifts of the channels that the masks in the header of a loadable
/// file give: for each channel the lowest bit of its mask.
pub open spec fn channel_shifts(bytes: Seq<u8>) -> ChannelShifts {
    ChannelShifts {
        alpha: lowest_set_bit_of(alpha_mask(bytes)),
        red: lowest_set_bit_of(le_u32(bytes, BITMAP_RED_MASK_AT as int)),
        green: lowest_set_bit_of(le_u32(bytes, BITMAP_GREEN_MASK_AT as int)),
        blue: lowest_set_bit_of(le_u32(bytes, BITMAP_BLUE_MASK_AT as int)),
    }
}

/// Whether `bytes` is a file that `debug_load_bmp` can load.
pub fn is_loadable_bmp(bytes: &[u8]) -> (loadable: bool)
    ensures
        loadable == is_loadable(bytes@),
{
    if bytes.len() < BITMAP_HEADER_SIZE {
        return false;
    }
    let compression: u32 = read_le_u32(bytes, BITMAP_COMPRESSION_AT);
    let width: u32 = read_le_u32(bytes, BITMAP_WIDTH_AT);
    let height: u32 = read_le_u32(bytes, BITMAP_HEIGHT_AT);
    let red_mask: u32 = read_le_u32(bytes, BITMAP_RED_MASK_AT);
    let green_mask: u32 = read_le_u32(bytes, BITMAP_GREEN_MASK_AT);
    let blue_mask: u32 = read_le_u32(bytes, BITMAP_BLUE_MASK_AT);
    let offset: u32 = read_le_u32(bytes, BITMAP_OFFSET_AT);
    let alpha: u32 = !(red_mask | green_mask | blue_mask);
    if compression != BITMAP_COMPRESSION_BITFIELDS || width > 0x7fff_ffff || height > 0x7fff_ffff
        || red_mask == 0 || green_mask == 0 || blue_mask == 0 || alpha == 0 {
        return false;
    }
    assert(0 <= width * height <= 0x7fff_ffff * 0x7fff_ffff) by (nonlinear_arith)
        requires
            0 <= width <= 0x7fff_ffff,
            0 <= height <= 0x7fff_ffff,
    ;
    let needed: u128 = offset as u128 + 4 * (width as u128 * height as u128);
    assert(needed == offset + 4 * width * height) by (nonlinear_arith)
        requires
            needed == offset + 4 * (width * height),
    ;
    needed <= bytes.len() as u128
}

/// Loads a bitmap from the bytes of a file: `None` for a file of no
/// bytes, else the pixels of the file with their channels in the order
/// that the renderer wants.
pub fn debug_load_bmp(bytes: &[u8]) -> (bitmap: Option<LoadedBitmap>)
    requires
        bytes@.len() > 0 ==> is_loadable(bytes@),
    ensures
        bytes@.len() == 0 ==> bitmap.is_none(),
        bytes@.len() > 0 ==> {
            &&& bitmap.is_some()
            &&& bitmap.unwrap().wf()
            &&& bitmap.unwrap().columns() == le_u32(bytes@, BITMAP_WIDTH_AT as int)
            &&& bitmap.unwrap().lines() == le_u32(bytes@, BITMAP_HEIGHT_AT as int)
            &&& channel_shifts(bytes@).wf()
            &&& forall|i: int|
                0 <= i < bitmap.unwrap().pixel_values().len()
                    ==> #[trigger] bitmap.unwrap().pixel_values()[i] == channel_shifts(
                    bytes@,
                ).arranged(le_u32(bytes@, le_u32(bytes@, BITMAP_OFFSET_AT as int) + 4 * i))
        },
{
    if bytes.len() == 0 {
        return None;
    }
    let width: usize = read_le_u32(bytes, BITMAP_WIDTH_AT) as usize;
    let height: usize = read_le_u32(bytes, BITMAP_HEIGHT_AT) as usize;
    let offset: usize = read_le_u32(bytes, BITMAP_OFFSET_AT) as usize;
    let red_mask: u32 = read_le_u32(bytes, BITMAP_RED_MASK_AT);
    let green_mask: u32 = read_le_u32(bytes, BITMAP_GREEN_MASK_AT);
    let blue_mask: u32 = read_le_u32(bytes, BITMAP_BLUE_MASK_AT);
    let alpha_mask: u32 = !(red_mask | green_mask | blue_mask);
    let shifts = ChannelShifts {
        alpha: lowest_set_bit(alpha_mask),
        red: lowest_set_bit(red_mask),
        green: lowest_set_bit(green_mask),
        blue: lowest_set_bit(blue_mask),
    };
    proof {
        lemma_pixel_count(width as int, height as int, offset as int, bytes@.len() as int);
    }
    let len: usize = bytes.len();
    let count: usize = width * height;
    let mut pixels: Vec<u32> = Vec::new();
    let mut i: usize = 0;
    while i < count
        invariant
            i <= count,
            bytes@.len() == len,
            shifts.wf(),
            shifts == channel_shifts(bytes@),
            offset + 4 * count <= bytes@.len(),
            offset == le_u32(bytes@, BITMAP_OFFSET_AT as int),
            pixels@.len() == i,
            forall|j: int|
                0 <= j < i ==> #[trigger] pixels@[j] == shifts.arranged(
                    le_u32(bytes@, offset + 4 * j),
                ),
        decreases count - i,
    {
        let value: u32 = read_le_u32(bytes, offset + 4 * i);
        pixels.push(shifts.arrange(value));
        i += 1;
    }
    Some(LoadedBitmap::new(pixels, width, height))
}

/// The lowest bit that is set of a number that is not 0.
fn lowest_set_bit(value: u32) -> (bit: u32)
    requires
        value != 0,
    ensures
        bit == lowest_set_bit_of(value),
        bit < 32,
{
    match find_least_significant_set_bit(value) {
        Some(bit) => bit,
        None => 0,
    }
}

/// The pixels of a file that holds them all can be counted.
proof fn lemma_pixel_count(width: int, height: int, offset: int, len: int)
    requires
        0 <= width,
        0 <= height,
        0 <= offset,
        offset + 4 * width * height <= len,
    ensures
        0 <= width * height <= len,
        offset + 4 * (width * height) <= len,
{
    assert(0 <= width * height) by (nonlinear_arith)
        requires
            0 <= width,
            0 <= height,
    ;
    assert(4 * width * height == 4 * (width * height)) by (nonlinear_arith);
}

} // verus!
