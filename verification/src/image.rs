use vstd::prelude::*;

use crate::colour::RGBColour;

verus! {

/// Number of blocks along each side of the grid that an image is cut into.
pub const BLOCKS_PER_SIDE: usize = 20;

/// Number of blocks in the grid.
pub const BLOCK_COUNT: usize = 400;

/// The value of a packed pixel: blue in the low byte, green above it, red above that.
pub open spec fn packed(r: u8, g: u8, b: u8) -> int {
    r as int * 0x10000 + g as int * 0x100 + b as int
}

/// `value` is the packed form of a colour that `pixel` may return for
/// column `x`, row `y` of the image.
pub open spec fn rendered<F: Fn(usize, usize) -> RGBColour>(pixel: F, x: int, y: int, value: u32) -> bool {
    exists|c: RGBColour|
        #[trigger] call_ensures(pixel, (x as usize, y as usize), c) && value == packed(c.r, c.g, c.b)
}

/// `n` black pixels.
pub open spec fn blank(n: nat) -> Seq<u32> {
    Seq::new(n, |_i: int| 0u32)
}

/// A black image of `width * height` pixels.
pub open spec fn blank_image(width: nat, height: nat) -> ImageView {
    ImageView { width, height, pixels: blank(width * height) }
}

/// Position in a row-major buffer of the pixel at column `x` and row `y`.
pub open spec fn offset(width: nat, x: int, y: int) -> int {
    y * width + x
}

/// What an image holds: its size and its pixels, row by row.
pub struct ImageView {
    pub width: nat,
    pub height: nat,
    pub pixels: Seq<u32>,
}

/// What a block holds: its size, where its top-left corner lies in the
/// image, and its pixels, row by row.
pub struct BlockView {
    pub width: nat,
    pub height: nat,
    pub x: nat,
    pub y: nat,
    pub pixels: Seq<u32>,
}

/// The frame buffer of the window: `width * height` packed pixels, row by row.
pub struct Image {
    width: u16,
    height: u16,
    buffer: Vec<u32>,
}

/// A rectangle of pixels cut out of an [`Image`], rendered on its own and
/// stored back with [`Image::store_block`].
pub struct ImageBlock {
    width: u16,
    height: u16,
    x: u16,
    y: u16,
    pixels: Vec<u32>,
}

impl View for Image {
    type V = ImageView;

    closed spec fn view(&self) -> ImageView {
        ImageView { width: self.width as nat, height: self.height as nat, pixels: self.buffer@ }
    }
}

impl View for ImageBlock {
    type V = BlockView;

    closed spec fn view(&self) -> BlockView {
        BlockView {
            width: self.width as nat,
            height: self.height as nat,
            x: self.x as nat,
            y: self.y as nat,
            pixels: self.pixels@,
        }
    }
}

impl ImageView {
    /// The buffer holds exactly one pixel per position.
    pub open spec fn wf(self) -> bool {
        &&& self.pixels.len() == self.width * self.height
        &&& self.width <= u16::MAX
        &&& self.height <= u16::MAX
    }
}

impl BlockView {
    /// The block holds exactly one pixel per position.
    pub open spec fn wf(self) -> bool {
        &&& self.pixels.len() == self.width * self.height
        &&& self.width <= u16::MAX
        &&& self.height <= u16::MAX
        &&& self.x <= u16::MAX
        &&& self.y <= u16::MAX
    }

    /// The block lies inside an image of the given size.
    pub open spec fn fits(self, width: nat, height: nat) -> bool {
        &&& self.x + self.width <= width
        &&& self.y + self.height <= height
    }

    /// The image pixel at column `px`, row `py` lies inside the block.
    pub open spec fn covers(self, px: int, py: int) -> bool {
        &&& self.x <= px < self.x + self.width
        &&& self.y <= py < self.y + self.height
    }

    /// The block after writing colour `(r, g, b)` at column `x`, row `y`;
    /// unchanged when that position lies outside it.
    pub open spec fn with_pixel(self, x: int, y: int, r: u8, g: u8, b: u8) -> BlockView {
        if 0 <= x < self.width && 0 <= y < self.height {
            BlockView {
                pixels: self.pixels.update(offset(self.width, x, y), packed(r, g, b) as u32),
                ..self
            }
        } else {
            self
        }
    }

    /// The block after writing colour `(r, g, b)` at position `idx`, counted
    /// row by row; unchanged when that position lies past the end.
    pub open spec fn with_pixel_at(self, idx: int, r: u8, g: u8, b: u8) -> BlockView {
        if 0 <= idx < self.width * self.height {
            BlockView { pixels: self.pixels.update(idx, packed(r, g, b) as u32), ..self }
        } else {
            self
        }
    }

    /// Every pixel of the block holds a colour that `pixel` may return for
    /// the image position under it.
    pub open spec fn rendered_by<F: Fn(usize, usize) -> RGBColour>(self, pixel: F) -> bool {
        forall|k: int|
            0 <= k < self.width * self.height ==> rendered(
                pixel,
                self.x + k % (self.width as int),
                self.y + k / (self.width as int),
                #[trigger] self.pixels[k],
            )
    }

    /// The block pixel that lands on image column `px`, row `py`.
    pub open spec fn pixel_at(self, px: int, py: int) -> u32 {
        self.pixels[offset(self.width, px - self.x, py - self.y)]
    }
}

/// Width of every block cut from an image `img_width` pixels wide.
pub open spec fn block_width(img_width: nat) -> nat {
    img_width / BLOCKS_PER_SIDE as nat
}

/// Column of the left edge of block `id`.
pub open spec fn block_x(img_width: nat, id: nat) -> nat {
    (id % BLOCKS_PER_SIDE as nat) * block_width(img_width)
}

/// Row of the top edge of block `id`.
pub open spec fn block_y(img_height: nat, id: nat) -> nat {
    (id / BLOCKS_PER_SIDE as nat) * block_width(img_height)
}

/// Block `id` of the grid, with the pixels that `img` holds under it.
/// Blocks are numbered row by row; each is `1/20` of the image wide and
/// high, rounded down, and what the rounding leaves over on the right and
/// at the bottom belongs to no block.
pub open spec fn block_of(img: ImageView, id: nat) -> BlockView {
    let w = block_width(img.width);
    let h = block_width(img.height);
    let x = block_x(img.width, id);
    let y = block_y(img.height, id);
    BlockView {
        width: w,
        height: h,
        x: x,
        y: y,
        pixels: Seq::new(
            w * h,
            |k: int| img.pixels[offset(img.width, x + k % (w as int), y + k / (w as int))],
        ),
    }
}

/// `img` with the pixels of block `b` copied over the pixels it covers.
pub open spec fn with_block(img: ImageView, b: BlockView) -> ImageView {
    ImageView {
        pixels: Seq::new(
            img.pixels.len(),
            |i: int|
                {
                    let px = i % (img.width as int);
                    let py = i / (img.width as int);
                    if b.covers(px, py) {
                        b.pixel_at(px, py)
                    } else {
                        img.pixels[i]
                    }
                },
        ),
        ..img
    }
}

/// The pixel at column `px`, row `py` is one that a row-by-row copy of `b`
/// has reached before row `row`, column `col` of the block.
spec fn copied(b: BlockView, px: int, py: int, row: int, col: int) -> bool {
    &&& b.covers(px, py)
    &&& (py - b.y < row || (py - b.y == row && px - b.x < col))
}

/// What a row-by-row copy of `b` into `pixels` (an image `width` wide) has
/// made of them once it reached row `row`, column `col` of the block.
spec fn partly_copied(pixels: Seq<u32>, width: int, b: BlockView, row: int, col: int) -> Seq<u32> {
    Seq::new(
        pixels.len(),
        |i: int|
            if copied(b, i % width, i / width, row, col) {
                b.pixel_at(i % width, i / width)
            } else {
                pixels[i]
            },
    )
}

impl Image {
    /// Well-formedness: the buffer holds `width * height` pixels.
    #[verifier::type_invariant]
    pub open spec fn wf(&self) -> bool {
        self@.wf()
    }
}

impl ImageBlock {
    /// Well-formedness: the block holds `width * height` pixels.
    #[verifier::type_invariant]
    pub open spec fn wf(&self) -> bool {
        self@.wf()
    }
}

/// The product of two 16-bit sizes fits in a `usize`.
pub proof fn lemma_area_fits(w: int, h: int)
    requires
        0 <= w <= u16::MAX,
        0 <= h <= u16::MAX,
    ensures
        0 <= w * h <= u16::MAX * u16::MAX,
        w * h <= usize::MAX,
{
    assert(0 <= w * h <= u16::MAX * u16::MAX) by (nonlinear_arith)
        requires
            0 <= w <= u16::MAX,
            0 <= h <= u16::MAX,
    ;
}

/// `y * w + x` lies in `[0, w * h)` when `x < w` and `y < h`.
pub proof fn lemma_offset_in_range(w: int, h: int, x: int, y: int)
    requires
        0 <= x < w,
        0 <= y < h,
    ensures
        0 <= offset(w as nat, x, y) < w * h,
{
    assert(0 <= y * w) by (nonlinear_arith)
        requires
            0 <= y,
            0 <= w,
    ;
    assert(y * w + x < w * h) by (nonlinear_arith)
        requires
            0 <= x < w,
            0 <= y < h,
    ;
}

/// A span that starts at grid cell `cell` and is `total / 20` long ends
/// inside `[0, total]`.
proof fn lemma_cell_span(cell: int, total: int, i: int)
    requires
        0 <= cell < BLOCKS_PER_SIDE,
        0 <= total,
        0 <= i < total / BLOCKS_PER_SIDE as int || i == 0,
    ensures
        0 <= cell * (total / BLOCKS_PER_SIDE as int),
        cell * (total / BLOCKS_PER_SIDE as int) + (total / BLOCKS_PER_SIDE as int) <= total,
        i < total / BLOCKS_PER_SIDE as int ==> cell * (total / BLOCKS_PER_SIDE as int) + i < total,
{
    let n = total / 20;
    assert(20 * n <= total);
    assert(0 <= cell * n && cell * n + n <= 20 * n) by (nonlinear_arith)
        requires
            0 <= cell < 20,
            0 <= n,
    ;
}

/// A row that starts at column `x <= w` of row `y < h` starts at most at `w * h`.
proof fn lemma_row_start(w: int, h: int, x: int, y: int)
    requires
        0 <= x <= w,
        0 <= y < h,
    ensures
        0 <= y * w + x <= w * h,
{
    assert(0 <= y * w + x <= w * h) by (nonlinear_arith)
        requires
            0 <= x <= w,
            0 <= y < h,
    ;
}

/// Position `row * w + col` of a row-major sequence, with `col < w`, is
/// column `col` of row `row`.
proof fn lemma_row_major(w: int, row: int, col: int)
    requires
        0 <= col < w,
        0 <= row,
    ensures
        (row * w + col) % w == col,
        (row * w + col) / w == row,
{
    vstd::arithmetic::div_mod::lemma_fundamental_div_mod_converse(row * w + col, w, row, col);
}

/// A buffer of `n` black pixels.
fn zeroed(n: usize) -> (v: Vec<u32>)
    ensures
        v@ == blank(n as nat),
{
    let mut v: Vec<u32> = Vec::with_capacity(n);
    let mut i: usize = 0;
    while i < n
        invariant
            i <= n,
            v@ == blank(i as nat),
        decreases n - i,
    {
        v.push(0);
        i = i + 1;
        assert(v@ =~= blank(i as nat));
    }
    v
}

impl Image {
    /// A black image of `width * height` pixels.
    pub fn new(width: u16, height: u16) -> (img: Image)
        ensures
            img@ == blank_image(width as nat, height as nat),
    {
        proof {
            lemma_area_fits(width as int, height as int);
        }
        let n: usize = width as usize * height as usize;
        Image { width, height, buffer: zeroed(n) }
    }

    /// Changes the size of the image and blacks out every pixel.
    pub fn resize(&mut self, width: u16, height: u16)
        ensures
            final(self)@ == blank_image(width as nat, height as nat),
    {
        *self = Image::new(width, height);
    }

    /// Cuts block `block_id` out of the image, with a copy of the pixels
    /// under it.
    fn cut_block(&self, block_id: usize) -> (block: ImageBlock)
        requires
            block_id < BLOCK_COUNT,
        ensures
            block@ == block_of(self@, block_id as nat),
    {
        proof {
            use_type_invariant(self);
        }
        let ghost img = self@;
        let img_width: usize = self.width as usize;
        let widths: usize = self.width as usize / BLOCKS_PER_SIDE;
        let heights: usize = self.height as usize / BLOCKS_PER_SIDE;
        let cell_x: usize = block_id % BLOCKS_PER_SIDE;
        let cell_y: usize = block_id / BLOCKS_PER_SIDE;
        proof {
            lemma_cell_span(cell_x as int, self.width as int, 0);
            lemma_cell_span(cell_y as int, self.height as int, 0);
            lemma_area_fits(widths as int, heights as int);
            lemma_area_fits(self.width as int, self.height as int);
        }
        let img_x: usize = cell_x * widths;
        let img_y: usize = cell_y * heights;
        let ghost spec_block = block_of(img, block_id as nat);
        assert(spec_block.x == img_x && spec_block.y == img_y);
        assert(spec_block.width == widths && spec_block.height == heights);
        let mut pixels: Vec<u32> = Vec::new();
        let mut row: usize = 0;
        while row < heights
            invariant
                self.wf(),
                img == self@,
                img_width == img.width,
                img.width * img.height <= usize::MAX,
                widths == img.width / 20,
                heights == img.height / 20,
                img_x == spec_block.x,
                img_y == spec_block.y,
                cell_x < 20,
                cell_y < 20,
                img_x == cell_x * widths,
                img_y == cell_y * heights,
                spec_block == block_of(img, block_id as nat),
                row <= heights,
                pixels@.len() == row * widths,
                forall|k: int| 0 <= k < pixels@.len() ==> pixels@[k] == #[trigger] spec_block.pixels[k],
            decreases heights - row,
        {
            proof {
                lemma_cell_span(cell_y as int, img.height as int, row as int);
                lemma_cell_span(cell_x as int, img.width as int, 0);
                lemma_row_start(img.width as int, img.height as int, img_x as int, (img_y + row) as int);
            }
            let start: usize = (img_y + row) * img_width + img_x;
            let mut col: usize = 0;
            while col < widths
                invariant
                    self.wf(),
                    img == self@,
                    img_width == img.width,
                    img.width * img.height <= usize::MAX,
                    widths == img.width / 20,
                    heights == img.height / 20,
                    cell_x < 20,
                    img_x == cell_x * widths,
                    img_x == spec_block.x,
                    img_y == spec_block.y,
                    img_y + row < img.height,
                    spec_block == block_of(img, block_id as nat),
                    row < heights,
                    col <= widths,
                    start == (img_y + row) * img_width + img_x,
                    pixels@.len() == row * widths + col,
                    forall|k: int| 0 <= k < pixels@.len() ==> pixels@[k] == #[trigger] spec_block.pixels[k],
                decreases widths - col,
            {
                proof {
                    lemma_cell_span(cell_x as int, img.width as int, col as int);
                    lemma_offset_in_range(img.width as int, img.height as int, (img_x + col) as int, (img_y + row) as int);
                    lemma_row_major(widths as int, row as int, col as int);
                    lemma_offset_in_range(widths as int, heights as int, col as int, row as int);
                }
                assert(start + col == offset(img.width, (img_x + col) as int, (img_y + row) as int));
                let value: u32 = self.buffer[start + col];
                let ghost k: int = row * widths + col;
                pixels.push(value);
                assert(pixels@[k] == spec_block.pixels[k]);
                col = col + 1;
            }
            assert(pixels@.len() == (row + 1) * widths) by (nonlinear_arith)
                requires
                    pixels@.len() == row * widths + widths,
            ;
            row = row + 1;
        }
        assert(pixels@.len() == spec_block.pixels.len()) by (nonlinear_arith)
            requires
                pixels@.len() == row * widths,
                row == heights,
                spec_block.pixels.len() == widths * heights,
        ;
        assert(pixels@ =~= spec_block.pixels);
        ImageBlock {
            width: widths as u16,
            height: heights as u16,
            x: img_x as u16,
            y: img_y as u16,
            pixels,
        }
    }

    /// Cuts the image into the 20 by 20 grid of blocks, numbered row by
    /// row, each with a copy of the pixels under it.
    pub fn make_blocks(&self) -> (blocks: Vec<ImageBlock>)
        ensures
            blocks@.len() == BLOCK_COUNT,
            forall|i: int| 0 <= i < BLOCK_COUNT ==> (#[trigger] blocks@[i])@ == block_of(self@, i as nat),
    {
        let mut blocks: Vec<ImageBlock> = Vec::new();
        let mut block_id: usize = 0;
        while block_id < BLOCK_COUNT
            invariant
                block_id <= BLOCK_COUNT,
                blocks@.len() == block_id,
                forall|i: int| 0 <= i < block_id ==> (#[trigger] blocks@[i])@ == block_of(self@, i as nat),
            decreases BLOCK_COUNT - block_id,
        {
            let block = self.cut_block(block_id);
            blocks.push(block);
            block_id = block_id + 1;
        }
        blocks
    }

    /// Copies the pixels of `block` back over the pixels it covers, when it
    /// lies inside the image; a block that sticks out is refused and the
    /// image left as it was. Returns whether the block was stored.
    pub fn store_block(&mut self, block: &ImageBlock) -> (stored: bool)
        ensures
            stored == block@.fits(old(self)@.width, old(self)@.height),
            final(self)@ == (if stored {
                with_block(old(self)@, block@)
            } else {
                old(self)@
            }),
    {
        proof {
            use_type_invariant(&*self);
            use_type_invariant(block);
        }
        let img_width: usize = self.width as usize;
        let bw: usize = block.width as usize;
        let bh: usize = block.height as usize;
        let bx: usize = block.x as usize;
        let by: usize = block.y as usize;
        if bx + bw > img_width || by + bh > self.height as usize {
            return false;
        }
        let ghost old_pixels = self.buffer@;
        let ghost img = self@;
        let ghost b = block@;
        proof {
            lemma_area_fits(self.width as int, self.height as int);
            lemma_area_fits(bw as int, bh as int);
        }
        let mut row: usize = 0;
        while row < bh
            invariant
                self.wf(),
                block.wf(),
                b == block@,
                self.width == img.width,
                self.height == img.height,
                img_width == img.width,
                img.width * img.height <= usize::MAX,
                bw * bh <= usize::MAX,
                bw == b.width,
                bh == b.height,
                bx == b.x,
                by == b.y,
                bx + bw <= img.width,
                by + bh <= img.height,
                row <= bh,
                self.buffer@ == partly_copied(old_pixels, img_width as int, b, row as int, 0),
            decreases bh - row,
        {
            proof {
                lemma_row_start(img.width as int, img.height as int, bx as int, (by + row) as int);
            }
            let start: usize = (by + row) * img_width + bx;
            let mut col: usize = 0;
            while col < bw
                invariant
                    self.wf(),
                    block.wf(),
                    b == block@,
                    self.width == img.width,
                    self.height == img.height,
                    img_width == img.width,
                    img.width * img.height <= usize::MAX,
                    bw * bh <= usize::MAX,
                    bw == b.width,
                    bh == b.height,
                    bx == b.x,
                    by == b.y,
                    bx + bw <= img.width,
                    by + bh <= img.height,
                    row < bh,
                    col <= bw,
                    start == (by + row) * img_width + bx,
                    self.buffer@ == partly_copied(old_pixels, img_width as int, b, row as int, col as int),
                decreases bw - col,
            {
                proof {
                    lemma_offset_in_range(img.width as int, img.height as int, (bx + col) as int, (by + row) as int);
                    lemma_offset_in_range(bw as int, bh as int, col as int, row as int);
                    lemma_row_major(img_width as int, (by + row) as int, col as int + bx as int);
                }
                let t: usize = start + col;
                let value: u32 = block.pixels[row * bw + col];
                let ghost before = self.buffer@;
                self.buffer[t] = value;
                proof {
                    let w = img_width as int;
                    assert forall|i: int| 0 <= i < old_pixels.len() implies #[trigger] self.buffer@[i]
                        == partly_copied(old_pixels, w, b, row as int, col + 1)[i] by {
                        vstd::arithmetic::div_mod::lemma_fundamental_div_mod(i, w);
                        if i != t {
                            assert(before[i] == self.buffer@[i]);
                            if i % w == bx + col && i / w == by + row {
                                assert(i == w * (by + row) + (bx + col));
                                assert(w * (by + row) == (by + row) * w) by (nonlinear_arith);
                                assert(false);
                            }
                        }
                    }
                    assert(self.buffer@ =~= partly_copied(old_pixels, w, b, row as int, col + 1));
                }
                col = col + 1;
            }
            proof {
                assert(self.buffer@ =~= partly_copied(old_pixels, img_width as int, b, row + 1, 0));
            }
            row = row + 1;
        }
        proof {
            assert(self.buffer@ =~= with_block(img, b).pixels);
        }
        true
    }

    /// The pixels, row by row.
    pub fn buffer(&self) -> (pixels: &[u32])
        ensures
            pixels@ == self@.pixels,
    {
        self.buffer.as_slice()
    }

    /// Width in pixels.
    pub fn width(&self) -> (w: u16)
        ensures
            w == self@.width,
    {
        self.width
    }

    /// Height in pixels.
    pub fn height(&self) -> (h: u16)
        ensures
            h == self@.height,
    {
        self.height
    }
}

impl ImageBlock {
    /// Width of the block in pixels.
    pub fn width(&self) -> (w: u16)
        ensures
            w == self@.width,
    {
        self.width
    }

    /// Height of the block in pixels.
    pub fn height(&self) -> (h: u16)
        ensures
            h == self@.height,
    {
        self.height
    }

    /// Column of the image where the block's left edge lies.
    pub fn x(&self) -> (x: u16)
        ensures
            x == self@.x,
    {
        self.x
    }

    /// Row of the image where the block's top edge lies.
    pub fn y(&self) -> (y: u16)
        ensures
            y == self@.y,
    {
        self.y
    }

    /// The block's pixels, row by row.
    pub fn pixels(&self) -> (pixels: &[u32])
        ensures
            pixels@ == self@.pixels,
    {
        self.pixels.as_slice()
    }

    /// Number of pixels in the block.
    pub fn size(&self) -> (n: usize)
        ensures
            n == self@.width * self@.height,
    {
        proof {
            lemma_area_fits(self.width as int, self.height as int);
        }
        self.width as usize * self.height as usize
    }

    /// Writes one pixel at column `x`, row `y` of the block; a position
    /// outside the block is ignored.
    pub fn set_pixel(&mut self, x: u16, y: u16, r: u8, g: u8, b: u8)
        ensures
            final(self)@ == old(self)@.with_pixel(x as int, y as int, r, g, b),
    {
        proof {
            use_type_invariant(&*self);
        }
        if x < self.width && y < self.height {
            proof {
                lemma_offset_in_range(self.width as int, self.height as int, x as int, y as int);
                lemma_area_fits(self.width as int, self.height as int);
            }
            let idx: usize = y as usize * self.width as usize + x as usize;
            let pixel = Self::pack_pixel(r, g, b);
            self.pixels[idx] = pixel;
        }
    }

    /// Writes the pixel at position `idx` of the block, counted row by row;
    /// a position past the end is ignored.
    pub fn set_pixel_idx(&mut self, idx: usize, r: u8, g: u8, b: u8)
        ensures
            final(self)@ == old(self)@.with_pixel_at(idx as int, r, g, b),
    {
        proof {
            use_type_invariant(&*self);
        }
        if idx < self.size() {
            let pixel = Self::pack_pixel(r, g, b);
            self.pixels[idx] = pixel;
        }
    }

    /// Renders every pixel of the block, row by row: the pixel at column
    /// `x`, row `y` of the block gets the colour that `pixel` returns for
    /// the image position under it.
    pub fn render<F: Fn(usize, usize) -> RGBColour>(&mut self, pixel: &F)
        requires
            forall|x: usize, y: usize|
                old(self)@.covers(x as int, y as int) ==> #[trigger] call_requires(*pixel, (x, y)),
        ensures
            final(self)@.width == old(self)@.width,
            final(self)@.height == old(self)@.height,
            final(self)@.x == old(self)@.x,
            final(self)@.y == old(self)@.y,
            final(self)@.rendered_by(*pixel),
    {
        proof {
            use_type_invariant(&*self);
        }
        let ghost b = self@;
        let n: usize = self.size();
        let w: usize = self.width as usize;
        let mut px: usize = 0;
        while px < n
            invariant
                self.wf(),
                self@.width == b.width,
                self@.height == b.height,
                self@.x == b.x,
                self@.y == b.y,
                n == b.width * b.height,
                w == b.width,
                px <= n,
                forall|x: usize, y: usize| b.covers(x as int, y as int) ==> #[trigger] call_requires(*pixel, (x, y)),
                forall|k: int|
                    0 <= k < px ==> rendered(
                        *pixel,
                        b.x + k % (w as int),
                        b.y + k / (w as int),
                        #[trigger] self@.pixels[k],
                    ),
            decreases n - px,
        {
            proof {
                vstd::arithmetic::div_mod::lemma_fundamental_div_mod(px as int, w as int);
                assert(px / w < b.height) by (nonlinear_arith)
                    requires
                        px < w * b.height,
                        w > 0,
                        px == w * (px / w) + px % w,
                        0 <= px % w,
                ;
            }
            let x: usize = px % w;
            let y: usize = px / w;
            let c = pixel(x + self.x as usize, y + self.y as usize);
            let ghost before = self@;
            self.set_pixel(x as u16, y as u16, c.r, c.g, c.b);
            proof {
                assert(offset(w as nat, x as int, y as int) == px) by (nonlinear_arith)
                    requires
                        px == w * y + x,
                ;
                assert forall|k: int| 0 <= k < px + 1 implies rendered(
                    *pixel,
                    b.x + k % (w as int),
                    b.y + k / (w as int),
                    #[trigger] self@.pixels[k],
                ) by {
                    if k < px {
                        assert(self@.pixels[k] == before.pixels[k]);
                    } else {
                        assert(call_ensures(*pixel, ((b.x + x) as usize, (b.y + y) as usize), c));
                    }
                }
            }
            px = px + 1;
        }
    }

    /// Packs three channels into one `0x00RRGGBB` word.
    pub fn pack_pixel(r: u8, g: u8, b: u8) -> (pixel: u32)
        ensures
            pixel == packed(r, g, b),
    {
        let pixel: u32 = 0u32 | b as u32 | (g as u32) << 8u32 | (r as u32) << 16u32;
        assert(0u32 | b as u32 | (g as u32) << 8u32 | (r as u32) << 16u32 == r as int * 0x10000
            + g as int * 0x100 + b as int) by (bit_vector);
        pixel
    }
}

} // verus!
