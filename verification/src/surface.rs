//! The output surface: its size and format, the tile grid over it, the textures that follow
//! its size, and the layout of an image that is read back from it.
use vstd::prelude::*;

verus! {

/// Depth bins of each tile's histogram.
pub const NUM_DEPTH_BINS: u32 = 64;

/// Width and height of a tile in pixels.
pub const TILE_SIZE: u32 = 32;

/// Rows of an image that is read back start at multiples of this many bytes.
pub const ROW_ALIGNMENT: u32 = 256;

/// How a surface is blended with what lies behind the window.
#[derive(Clone, Copy, PartialEq, Eq, Structural, Debug)]
pub enum CompositeAlpha {
    Auto,
    Opaque,
    PreMultiplied,
    PostMultiplied,
    Inherit,
}

/// The larger of a size and one pixel.
pub open spec fn at_least_one(size: u32) -> u32 {
    if size == 0 {
        1
    } else {
        size
    }
}

/// A surface is never empty: an extent of zero becomes one pixel.
pub fn surface_extent(size: u32) -> (extent: u32)
    ensures
        extent == at_least_one(size),
        extent >= 1,
        extent >= size,
        extent == size || size == 0 && extent == 1,
{
    if size == 0 {
        1
    } else {
        size
    }
}

/// Which of the formats that a surface offers is used: the first sRGB format, else the first
/// one. `srgb` tells of each format whether it is sRGB.
pub fn choose_format(srgb: &[bool]) -> (chosen: usize)
    requires
        srgb@.len() > 0,
    ensures
        chosen < srgb@.len(),
        srgb@.contains(true) ==> srgb@[chosen as int] && forall|i: int|
            0 <= i < chosen ==> !srgb@[i],
        !srgb@.contains(true) ==> chosen == 0,
{
    let mut i: usize = 0;
    while i < srgb.len()
        invariant
            i <= srgb@.len(),
            forall|a: int| 0 <= a < i ==> !srgb@[a],
        decreases srgb@.len() - i,
    {
        if srgb[i] {
            return i;
        }
        i = i + 1;
    }
    0
}

/// Whether a mode is among those that a surface offers.
fn offers(modes: &[CompositeAlpha], wanted: CompositeAlpha) -> (found: bool)
    ensures
        found == modes@.contains(wanted),
{
    let mut i: usize = 0;
    while i < modes.len()
        invariant
            i <= modes@.len(),
            forall|a: int| 0 <= a < i ==> modes@[a] != wanted,
        decreases modes@.len() - i,
    {
        if modes[i] == wanted {
            return true;
        }
        i = i + 1;
    }
    false
}

/// Which blending is used: premultiplied, else postmultiplied, else the first one offered.
pub fn choose_alpha_mode(modes: &[CompositeAlpha]) -> (chosen: CompositeAlpha)
    requires
        modes@.len() > 0,
    ensures
        chosen == if modes@.contains(CompositeAlpha::PreMultiplied) {
            CompositeAlpha::PreMultiplied
        } else if modes@.contains(CompositeAlpha::PostMultiplied) {
            CompositeAlpha::PostMultiplied
        } else {
            modes@[0]
        },
{
    if offers(modes, CompositeAlpha::PreMultiplied) {
        CompositeAlpha::PreMultiplied
    } else if offers(modes, CompositeAlpha::PostMultiplied) {
        CompositeAlpha::PostMultiplied
    } else {
        modes[0]
    }
}

/// Parameters of the tiled histogram, as the shaders see them.
#[derive(Clone, Copy, PartialEq, Eq, Structural, Debug)]
pub struct HistogramParams {
    pub tile_count_x: u32,
    pub tile_count_y: u32,
    pub num_bins: u32,
    pub tile_size: u32,
}

/// Whether `tiles` is the least number of tiles that cover `size` pixels.
pub open spec fn covers(tiles: u32, size: u32) -> bool {
    TILE_SIZE * (tiles - 1) < size <= TILE_SIZE * tiles
}

impl HistogramParams {
    /// Whether these are the parameters for a surface of the given size.
    pub open spec fn fits(self, width: u32, height: u32) -> bool {
        &&& covers(self.tile_count_x, width)
        &&& covers(self.tile_count_y, height)
        &&& self.num_bins == NUM_DEPTH_BINS
        &&& self.tile_size == TILE_SIZE
    }

    /// The tile grid over a surface.
    pub fn for_surface(width: u32, height: u32) -> (params: Self)
        requires
            1 <= width <= u32::MAX - 32,
            1 <= height <= u32::MAX - 32,
        ensures
            params.fits(width, height),
    {
        HistogramParams {
            tile_count_x: (width + TILE_SIZE - 1) / TILE_SIZE,
            tile_count_y: (height + TILE_SIZE - 1) / TILE_SIZE,
            num_bins: NUM_DEPTH_BINS,
            tile_size: TILE_SIZE,
        }
    }

    /// The parameters as the words of a uniform buffer.
    pub fn words(&self) -> (words: [u32; 4])
        ensures
            words@ == seq![self.tile_count_x, self.tile_count_y, self.num_bins, self.tile_size],
    {
        [self.tile_count_x, self.tile_count_y, self.num_bins, self.tile_size]
    }

    /// Size in bytes of the histogram buffer: one word for each bin of each tile.
    pub fn histogram_buffer_size(&self) -> (size: u64)
        requires
            self.tile_count_x <= 0x800_0000,
            self.tile_count_y <= 0x800_0000,
        ensures
            size == self.tile_count_x * self.tile_count_y * NUM_DEPTH_BINS * 4,
    {
        proof {
            let x = self.tile_count_x as int;
            let y = self.tile_count_y as int;
            assert(0 <= x * y <= 0x800_0000 * 0x800_0000) by (nonlinear_arith)
                requires
                    0 <= x <= 0x800_0000,
                    0 <= y <= 0x800_0000,
            ;
        }
        (self.tile_count_x as u64) * (self.tile_count_y as u64) * (NUM_DEPTH_BINS as u64) * 4
    }
}

/// The grid for a surface fixes its tile counts: no other count covers the same size.
pub proof fn tile_grid_is_unique(first: HistogramParams, second: HistogramParams, width: u32, height: u32)
    requires
        first.fits(width, height),
        second.fits(width, height),
    ensures
        first == second,
{
}

/// Every pixel of a surface lies in a tile of its grid.
pub proof fn every_pixel_has_a_tile(params: HistogramParams, width: u32, height: u32, x: u32, y: u32)
    requires
        params.fits(width, height),
        x < width,
        y < height,
    ensures
        x / TILE_SIZE < params.tile_count_x,
        y / TILE_SIZE < params.tile_count_y,
{
}

/// How an image is laid out in the buffer that it is read back into.
#[derive(Clone, Copy, PartialEq, Eq, Structural, Debug)]
pub struct ReadbackLayout {
    /// Bytes of pixels in a row.
    pub unpadded_bytes_per_row: u32,
    /// Bytes from the start of one row to the start of the next.
    pub bytes_per_row: u32,
    /// Size of the buffer in bytes.
    pub size: u64,
}

impl ReadbackLayout {
    /// Whether this is the layout of an image of the given size: four bytes a pixel, and rows
    /// padded to the next multiple of the alignment, no further.
    pub open spec fn fits(self, width: u32, height: u32) -> bool {
        &&& self.unpadded_bytes_per_row == 4 * width
        &&& self.bytes_per_row % ROW_ALIGNMENT == 0
        &&& self.unpadded_bytes_per_row <= self.bytes_per_row < self.unpadded_bytes_per_row
            + ROW_ALIGNMENT
        &&& self.size == self.bytes_per_row * height
    }

    /// The layout of an image of the given size.
    pub fn for_image(width: u32, height: u32) -> (layout: Self)
        requires
            4 * width <= u32::MAX - 255,
        ensures
            layout.fits(width, height),
    {
        let unpadded: u32 = width * 4;
        let padded: u32 = (unpadded + (ROW_ALIGNMENT - 1)) / ROW_ALIGNMENT * ROW_ALIGNMENT;
        proof {
            assert(padded * height <= 0xffff_ffff * 0xffff_ffff) by (nonlinear_arith)
                requires
                    0 <= padded <= 0xffff_ffff,
                    0 <= height <= 0xffff_ffff,
            ;
        }
        ReadbackLayout {
            unpadded_bytes_per_row: unpadded,
            bytes_per_row: padded,
            size: padded as u64 * height as u64,
        }
    }
}

/// The pixel at column `x` and row `y` of an image that was read back, as red, green, blue
/// and alpha bytes.
pub open spec fn pixel_at(bytes: Seq<u8>, bytes_per_row: int, bgra: bool, x: int, y: int) -> Seq<
    u8,
> {
    let at = y * bytes_per_row + 4 * x;
    if bgra {
        seq![bytes[at + 2], bytes[at + 1], bytes[at], bytes[at + 3]]
    } else {
        seq![bytes[at], bytes[at + 1], bytes[at + 2], bytes[at + 3]]
    }
}

/// Unpacks an image that was read back: the padding of the rows is dropped and the channels
/// are put in the order red, green, blue, alpha. Pixels come row by row.
pub fn unpack_pixels(bytes: &[u8], layout: &ReadbackLayout, width: u32, height: u32, bgra: bool) -> (pixels: Vec<[u8; 4]>)
    requires
        layout.fits(width, height),
        bytes@.len() == layout.size,
        width * height <= usize::MAX,
    ensures
        pixels@.len() == width * height,
        forall|i: int|
            0 <= i < pixels@.len() ==> (#[trigger] pixels@[i])@ == pixel_at(
                bytes@,
                layout.bytes_per_row as int,
                bgra,
                i % (width as int),
                i / (width as int),
            ),
{
    let w: usize = width as usize;
    let h: usize = height as usize;
    let stride: usize = layout.bytes_per_row as usize;
    let total: usize = bytes.len();
    let mut pixels: Vec<[u8; 4]> = Vec::new();
    let mut y: usize = 0;
    while y < h
        invariant
            w == width,
            h == height,
            stride == layout.bytes_per_row,
            layout.fits(width, height),
            bytes@.len() == layout.size,
            total == bytes@.len(),
            y <= h,
            pixels@.len() == y * w,
            forall|i: int|
                0 <= i < pixels@.len() ==> (#[trigger] pixels@[i])@ == pixel_at(
                    bytes@,
                    stride as int,
                    bgra,
                    i % (w as int),
                    i / (w as int),
                ),
        decreases h - y,
    {
        proof {
            assert((y + 1) * stride <= h * stride && y * stride + stride == (y + 1) * stride
                && 0 <= y * stride)
                by (nonlinear_arith)
                requires
                    y + 1 <= h,
                    0 <= stride,
            ;
            assert(h * stride == stride * h) by (nonlinear_arith);
        }
        let row: usize = y * stride;
        let mut x: usize = 0;
        while x < w
            invariant
                w == width,
                h == height,
                stride == layout.bytes_per_row,
                4 * w <= stride,
                y < h,
                x <= w,
                row == y * stride,
                row + stride <= total,
                total == bytes@.len(),
                pixels@.len() == y * w + x,
                forall|i: int|
                    0 <= i < pixels@.len() ==> (#[trigger] pixels@[i])@ == pixel_at(
                        bytes@,
                        stride as int,
                        bgra,
                        i % (w as int),
                        i / (w as int),
                    ),
            decreases w - x,
        {
            let at: usize = row + 4 * x;
            let pixel: [u8; 4] = if bgra {
                [bytes[at + 2], bytes[at + 1], bytes[at], bytes[at + 3]]
            } else {
                [bytes[at], bytes[at + 1], bytes[at + 2], bytes[at + 3]]
            };
            proof {
                lemma_split_index(y as int, x as int, w as int);
                assert(pixel@ =~= pixel_at(bytes@, stride as int, bgra, x as int, y as int));
            }
            pixels.push(pixel);
            x = x + 1;
        }
        proof {
            assert(y * w + w == (y + 1) * w) by (nonlinear_arith);
        }
        y = y + 1;
    }
    proof {
        assert(h * w == width * height) by (nonlinear_arith)
            requires
                h == height,
                w == width,
        ;
    }
    pixels
}

/// A pixel's place in an image determines its row and column.
proof fn lemma_split_index(y: int, x: int, w: int)
    requires
        0 <= x < w,
    ensures
        (y * w + x) % w == x,
        (y * w + x) / w == y,
{
    vstd::arithmetic::div_mod::lemma_fundamental_div_mod_converse(y * w + x, w, y, x);
}

/// An extent is at least one pixel and never smaller than asked for; only an empty one changes.
pub proof fn extents_are_kept_or_one(size: u32)
    ensures
        at_least_one(size) >= 1,
        at_least_one(size) >= size,
        size > 0 ==> at_least_one(size) == size,
        size == 0 ==> at_least_one(size) == 1,
{
}

/// No tile is empty: the last one of each row and column still holds a pixel. A tile has 32
/// pixels to a side and 64 bins.
pub proof fn no_tile_is_empty(params: HistogramParams, width: u32, height: u32)
    requires
        params.fits(width, height),
        width > 0,
        height > 0,
    ensures
        params.tile_count_x > 0,
        params.tile_count_y > 0,
        32 * (params.tile_count_x - 1) < width,
        32 * (params.tile_count_y - 1) < height,
        params.tile_size == 32,
        params.num_bins == 64,
{
}

/// Rows that are read back hold their pixels, start at multiples of 256 bytes, do not overlap and
/// end where the buffer does.
pub proof fn readback_rows_hold_their_pixels(layout: ReadbackLayout, width: u32, height: u32, x: int, y: int)
    requires
        layout.fits(width, height),
        0 <= x < width,
        0 <= y < height,
    ensures
        layout.bytes_per_row % 256 == 0,
        layout.bytes_per_row < 4 * width + 256,
        layout.unpadded_bytes_per_row == 4 * width,
        4 * x + 4 <= layout.bytes_per_row,
        0 <= y * layout.bytes_per_row + 4 * x,
        y * layout.bytes_per_row + 4 * x + 4 <= layout.size,
        layout.size == height * layout.bytes_per_row,
{
    let stride = layout.bytes_per_row as int;
    let h = height as int;
    assert(y * stride + stride <= h * stride && 0 <= y * stride) by (nonlinear_arith)
        requires
            0 <= y,
            y + 1 <= h,
            0 <= stride,
    ;
    assert(h * stride == stride * h) by (nonlinear_arith);
}

/// A pixel is four bytes of its row. The two channel orders differ in that red and blue are
/// swapped; green and alpha stay.
pub proof fn channel_orders_swap_red_and_blue(bytes: Seq<u8>, bytes_per_row: int, x: int, y: int)
    ensures
        ({
            let plain = pixel_at(bytes, bytes_per_row, false, x, y);
            let swapped = pixel_at(bytes, bytes_per_row, true, x, y);
            &&& plain.len() == 4
            &&& swapped.len() == 4
            &&& forall|c: int|
                0 <= c < 4 ==> #[trigger] plain[c] == bytes[y * bytes_per_row + 4 * x + c]
            &&& swapped[0] == plain[2]
            &&& swapped[1] == plain[1]
            &&& swapped[2] == plain[0]
            &&& swapped[3] == plain[3]
        }),
{
}

/// Layouts are unique: the size of an image fixes how it is read back.
pub proof fn readback_layout_is_unique(
    first: ReadbackLayout,
    second: ReadbackLayout,
    width: u32,
    height: u32,
)
    requires
        first.fits(width, height),
        second.fits(width, height),
    ensures
        first == second,
{
}

} // verus!
