use vstd::prelude::*;

use crate::colour::RGBColour;
use crate::image::{
    rendered, block_of, block_width, offset, packed, with_block, BlockView, ImageView, BLOCK_COUNT,
    BLOCKS_PER_SIDE, lemma_offset_in_range,
};

verus! {

/// `q * d <= p < q * d + d` puts `p` in slot `q` of width `d`.
proof fn lemma_slot(p: int, d: int, q: int)
    requires
        0 < d,
        q * d <= p < q * d + d,
    ensures
        p / d == q,
        p % d == p - q * d,
{
    vstd::arithmetic::div_mod::lemma_fundamental_div_mod_converse(p, d, q, p - q * d);
}

/// Packing loses nothing: red, green and blue can each be read back from
/// the packed word, which never uses its top byte.
pub proof fn lemma_pack_channels(r: u8, g: u8, b: u8)
    ensures
        0 <= packed(r, g, b) <= 0xff_ffff,
        packed(r, g, b) / 0x10000 == r,
        (packed(r, g, b) / 0x100) % 0x100 == g,
        packed(r, g, b) % 0x100 == b,
{
    let p = packed(r, g, b);
    vstd::arithmetic::div_mod::lemma_fundamental_div_mod_converse(p, 0x10000, r as int, g as int * 0x100 + b as int);
    vstd::arithmetic::div_mod::lemma_fundamental_div_mod_converse(p, 0x100, r as int * 0x100 + g as int, b as int);
    vstd::arithmetic::div_mod::lemma_fundamental_div_mod_converse(r as int * 0x100 + g as int, 0x100, r as int, g as int);
}

/// Two colours that pack to the same word are the same colour.
pub proof fn lemma_pack_injective(r1: u8, g1: u8, b1: u8, r2: u8, g2: u8, b2: u8)
    requires
        packed(r1, g1, b1) == packed(r2, g2, b2),
    ensures
        r1 == r2,
        g1 == g2,
        b1 == b2,
{
    lemma_pack_channels(r1, g1, b1);
    lemma_pack_channels(r2, g2, b2);
}

/// Writing a pixel by column and row is writing it at position
/// `y * width + x`, and writing at a position is writing it at column
/// `idx % width`, row `idx / width`.
pub proof fn lemma_pixel_by_position(blk: BlockView, x: int, y: int, idx: int, r: u8, g: u8, b: u8)
    requires
        0 <= x < blk.width,
        0 <= y < blk.height,
        0 <= idx < blk.width * blk.height,
    ensures
        blk.with_pixel(x, y, r, g, b) == blk.with_pixel_at(offset(blk.width, x, y), r, g, b),
        blk.with_pixel_at(idx, r, g, b) == blk.with_pixel(
            idx % (blk.width as int),
            idx / (blk.width as int),
            r,
            g,
            b,
        ),
{
    let w = blk.width as int;
    lemma_offset_in_range(w, blk.height as int, x, y);
    assert(w > 0);
    vstd::arithmetic::div_mod::lemma_fundamental_div_mod(idx, w);
    let q = idx / w;
    assert(q < blk.height) by (nonlinear_arith)
        requires
            w > 0,
            idx < w * blk.height,
            idx == w * q + idx % w,
            0 <= idx % w < w,
    ;
    assert(q * w + idx % w == idx) by (nonlinear_arith)
        requires
            idx == w * q + idx % w,
    ;
}

/// Every block of the grid lies inside the image, with one pixel per
/// position.
pub proof fn lemma_blocks_fit(img: ImageView, id: nat)
    requires
        img.wf(),
        id < BLOCK_COUNT,
    ensures
        block_of(img, id).wf(),
        block_of(img, id).fits(img.width, img.height),
{
    let w = block_width(img.width) as int;
    let h = block_width(img.height) as int;
    let cx = (id % 20) as int;
    let cy = (id / 20) as int;
    assert(cx * w + w <= img.width && cy * h + h <= img.height && 0 <= cx * w && 0 <= cy * h)
        by (nonlinear_arith)
        requires
            0 <= cx < 20,
            0 <= cy < 20,
            w == img.width / 20,
            h == img.height / 20,
            20 * w <= img.width,
            20 * h <= img.height,
            0 <= w,
            0 <= h,
    ;
}

/// No pixel lies in two different blocks of the grid.
pub proof fn lemma_blocks_disjoint(img: ImageView, id1: nat, id2: nat, px: int, py: int)
    requires
        id1 < BLOCK_COUNT,
        id2 < BLOCK_COUNT,
        id1 != id2,
    ensures
        !(block_of(img, id1).covers(px, py) && block_of(img, id2).covers(px, py)),
{
    let b1 = block_of(img, id1);
    let b2 = block_of(img, id2);
    if b1.covers(px, py) && b2.covers(px, py) {
        let w = block_width(img.width) as int;
        let h = block_width(img.height) as int;
        lemma_slot(px, w, (id1 % 20) as int);
        lemma_slot(px, w, (id2 % 20) as int);
        lemma_slot(py, h, (id1 / 20) as int);
        lemma_slot(py, h, (id2 / 20) as int);
        vstd::arithmetic::div_mod::lemma_fundamental_div_mod(id1 as int, 20);
        vstd::arithmetic::div_mod::lemma_fundamental_div_mod(id2 as int, 20);
    }
}

/// Every pixel within the first `20 * (width / 20)` columns and the first
/// `20 * (height / 20)` rows lies in a block of the grid: the one in grid
/// column `px / (width / 20)` and grid row `py / (height / 20)`.
pub proof fn lemma_blocks_cover(img: ImageView, px: int, py: int)
    requires
        0 <= px < BLOCKS_PER_SIDE * block_width(img.width),
        0 <= py < BLOCKS_PER_SIDE * block_width(img.height),
    ensures
        ({
            let id = (py / block_width(img.height) as int) * BLOCKS_PER_SIDE + px / block_width(
                img.width,
            ) as int;
            &&& 0 <= id < BLOCK_COUNT
            &&& block_of(img, id as nat).covers(px, py)
        }),
{
    let w = block_width(img.width) as int;
    let h = block_width(img.height) as int;
    assert(w > 0 && h > 0);
    vstd::arithmetic::div_mod::lemma_fundamental_div_mod(px, w);
    vstd::arithmetic::div_mod::lemma_fundamental_div_mod(py, h);
    let cx = px / w;
    let cy = py / h;
    assert(0 <= cx < 20 && 0 <= cy < 20) by (nonlinear_arith)
        requires
            px == w * cx + px % w,
            py == h * cy + py % h,
            0 <= px % w < w,
            0 <= py % h < h,
            0 <= px < 20 * w,
            0 <= py < 20 * h,
    ;
    let id = cy * 20 + cx;
    vstd::arithmetic::div_mod::lemma_fundamental_div_mod_converse(id, 20, cy, cx);
    assert(cx * w <= px < cx * w + w && cy * h <= py < cy * h + h) by (nonlinear_arith)
        requires
            px == w * cx + px % w,
            py == h * cy + py % h,
            0 <= px % w < w,
            0 <= py % h < h,
    ;
}

/// Reading back a stored block: where the block lies the image shows the
/// block's pixel, everywhere else what it showed before.
pub proof fn lemma_store_then_read(img: ImageView, b: BlockView, px: int, py: int)
    requires
        img.wf(),
        b.wf(),
        b.fits(img.width, img.height),
        0 <= px < img.width,
        0 <= py < img.height,
    ensures
        with_block(img, b).pixels[offset(img.width, px, py)] == if b.covers(px, py) {
            b.pixel_at(px, py)
        } else {
            img.pixels[offset(img.width, px, py)]
        },
{
    let w = img.width as int;
    lemma_offset_in_range(w, img.height as int, px, py);
    vstd::arithmetic::div_mod::lemma_fundamental_div_mod_converse(py * w + px, w, py, px);
}

/// Storing an untouched block of the grid back leaves the image as it was.
pub proof fn lemma_store_cut_block(img: ImageView, id: nat)
    requires
        img.wf(),
        id < BLOCK_COUNT,
    ensures
        with_block(img, block_of(img, id)) == img,
{
    let b = block_of(img, id);
    lemma_blocks_fit(img, id);
    let w = img.width as int;
    let stored = with_block(img, b);
    assert forall|i: int| 0 <= i < img.pixels.len() implies #[trigger] stored.pixels[i] == img.pixels[i] by {
        assert(w > 0) by (nonlinear_arith)
            requires
                i < w * img.height,
                0 <= i,
        ;
        vstd::arithmetic::div_mod::lemma_fundamental_div_mod(i, w);
        let px = i % w;
        let py = i / w;
        if b.covers(px, py) {
            let bw = b.width as int;
            let k = offset(b.width, px - b.x, py - b.y);
            lemma_offset_in_range(bw, b.height as int, px - b.x, py - b.y);
            vstd::arithmetic::div_mod::lemma_fundamental_div_mod_converse(k, bw, py - b.y, px - b.x);
            assert(py * w + px == i) by (nonlinear_arith)
                requires
                    i == w * py + px,
            ;
        }
    }
    assert(stored.pixels =~= img.pixels);
}

/// Two blocks that share no pixel can be stored in either order.
pub proof fn lemma_store_disjoint_commute(img: ImageView, b1: BlockView, b2: BlockView)
    requires
        forall|px: int, py: int| !(#[trigger] b1.covers(px, py) && #[trigger] b2.covers(px, py)),
    ensures
        with_block(with_block(img, b1), b2) == with_block(with_block(img, b2), b1),
{
    let s12 = with_block(with_block(img, b1), b2);
    let s21 = with_block(with_block(img, b2), b1);
    let w = img.width as int;
    assert forall|i: int| 0 <= i < img.pixels.len() implies #[trigger] s12.pixels[i] == s21.pixels[i] by {
        let px = i % w;
        let py = i / w;
        assert(!(b1.covers(px, py) && b2.covers(px, py)));
    }
    assert(s12.pixels =~= s21.pixels);
}

/// A block rendered by [`crate::image::ImageBlock::render`] and stored
/// back shows, at every image pixel it covers, a colour that the renderer
/// gave for that very pixel.
pub proof fn lemma_store_rendered<F: Fn(usize, usize) -> RGBColour>(
    img: ImageView,
    b: BlockView,
    pixel: F,
    px: int,
    py: int,
)
    requires
        img.wf(),
        b.wf(),
        b.fits(img.width, img.height),
        b.rendered_by(pixel),
        b.covers(px, py),
    ensures
        rendered(pixel, px, py, with_block(img, b).pixels[offset(img.width, px, py)]),
{
    lemma_store_then_read(img, b, px, py);
    let bw = b.width as int;
    let k = offset(b.width, px - b.x, py - b.y);
    lemma_offset_in_range(bw, b.height as int, px - b.x, py - b.y);
    vstd::arithmetic::div_mod::lemma_fundamental_div_mod_converse(k, bw, py - b.y, px - b.x);
    assert(rendered(pixel, b.x + k % bw, b.y + k / bw, b.pixels[k]));
}

/// The image after storing `blocks` one after the other, first to last.
pub open spec fn store_all(img: ImageView, blocks: Seq<BlockView>) -> ImageView
    decreases blocks.len(),
{
    if blocks.len() == 0 {
        img
    } else {
        with_block(store_all(img, blocks.drop_last()), blocks.last())
    }
}

/// Storing rendered blocks, in any order, leaves every image pixel that
/// one of them covers showing a colour the renderer gave for that very
/// pixel, and every other pixel as it was.
pub proof fn lemma_store_all_rendered<F: Fn(usize, usize) -> RGBColour>(
    img: ImageView,
    blocks: Seq<BlockView>,
    pixel: F,
    px: int,
    py: int,
)
    requires
        img.wf(),
        forall|i: int|
            0 <= i < blocks.len() ==> (#[trigger] blocks[i]).wf() && blocks[i].fits(
                img.width,
                img.height,
            ) && blocks[i].rendered_by(pixel),
        0 <= px < img.width,
        0 <= py < img.height,
    ensures
        store_all(img, blocks).wf(),
        store_all(img, blocks).width == img.width,
        store_all(img, blocks).height == img.height,
        (exists|i: int| 0 <= i < blocks.len() && (#[trigger] blocks[i]).covers(px, py)) ==> rendered(
            pixel,
            px,
            py,
            store_all(img, blocks).pixels[offset(img.width, px, py)],
        ),
        !(exists|i: int| 0 <= i < blocks.len() && (#[trigger] blocks[i]).covers(px, py))
            ==> store_all(img, blocks).pixels[offset(img.width, px, py)] == img.pixels[offset(
            img.width,
            px,
            py,
        )],
    decreases blocks.len(),
{
    if blocks.len() > 0 {
        let rest = blocks.drop_last();
        let last = blocks.last();
        assert forall|i: int| 0 <= i < rest.len() implies (#[trigger] rest[i]).wf() && rest[i].fits(
            img.width,
            img.height,
        ) && rest[i].rendered_by(pixel) by {
            assert(rest[i] == blocks[i]);
        }
        lemma_store_all_rendered(img, rest, pixel, px, py);
        let before = store_all(img, rest);
        assert(blocks[blocks.len() - 1] == last);
        lemma_store_then_read(before, last, px, py);
        if last.covers(px, py) {
            lemma_store_rendered(before, last, pixel, px, py);
        } else {
            if exists|i: int| 0 <= i < blocks.len() && (#[trigger] blocks[i]).covers(px, py) {
                let i = choose|i: int| 0 <= i < blocks.len() && (#[trigger] blocks[i]).covers(px, py);
                assert(i < rest.len());
                assert(rest[i] == blocks[i]);
            } else {
                assert forall|i: int| 0 <= i < rest.len() implies !(#[trigger] rest[i]).covers(px, py) by {
                    assert(rest[i] == blocks[i]);
                }
            }
        }
    }
}

/// Writing one pixel of a block of the grid and storing the block back
/// puts that colour at the matching image pixel and leaves every other
/// image pixel as it was.
pub proof fn lemma_block_write_then_store(
    img: ImageView,
    id: nat,
    x: int,
    y: int,
    r: u8,
    g: u8,
    b: u8,
    px: int,
    py: int,
)
    requires
        img.wf(),
        id < BLOCK_COUNT,
        0 <= x < block_of(img, id).width,
        0 <= y < block_of(img, id).height,
        0 <= px < img.width,
        0 <= py < img.height,
    ensures
        ({
            let blk = block_of(img, id);
            let stored = with_block(img, blk.with_pixel(x, y, r, g, b));
            &&& stored.pixels[offset(img.width, blk.x + x, blk.y + y)] == packed(r, g, b)
            &&& (px != blk.x + x || py != blk.y + y) ==> stored.pixels[offset(img.width, px, py)]
                == img.pixels[offset(img.width, px, py)]
        }),
{
    let blk = block_of(img, id);
    let written = blk.with_pixel(x, y, r, g, b);
    let bw = blk.width as int;
    let k0 = offset(blk.width, x, y);
    lemma_blocks_fit(img, id);
    lemma_pack_channels(r, g, b);
    lemma_offset_in_range(bw, blk.height as int, x, y);
    assert(written.wf());
    lemma_store_then_read(img, written, blk.x + x, blk.y + y);
    vstd::arithmetic::div_mod::lemma_fundamental_div_mod_converse(k0, bw, y, x);
    assert(written.pixel_at(blk.x + x, blk.y + y) == packed(r, g, b));
    if px != blk.x + x || py != blk.y + y {
        lemma_store_then_read(img, written, px, py);
        if written.covers(px, py) {
            let k = offset(blk.width, px - blk.x, py - blk.y);
            lemma_offset_in_range(bw, blk.height as int, px - blk.x, py - blk.y);
            vstd::arithmetic::div_mod::lemma_fundamental_div_mod_converse(k, bw, py - blk.y, px - blk.x);
            assert(k != k0);
            assert(written.pixel_at(px, py) == blk.pixel_at(px, py));
            lemma_store_cut_block(img, id);
            lemma_store_then_read(img, blk, px, py);
        }
    }
}

} // verus!
