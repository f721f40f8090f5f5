use vstd::prelude::*;

use crate::colour::{colour_text, decimal, digit, RGBColour};
use crate::image::{blank_image, block_of, rendered, with_block, BlockView, ImageView, BLOCK_COUNT};
use crate::jobs::is_permutation;
use crate::shows;

verus! {

// What the spec functions of the contracts mean, in plain arithmetic on
// their inputs.

/// When `pixel` answers `c` and nothing else at column `x`, row `y`, the
/// only word rendered there is `c` packed: red in bits 16 to 23, green in
/// bits 8 to 15, blue in bits 0 to 7.
pub proof fn lemma_rendered_is_packed_colour<F: Fn(usize, usize) -> RGBColour>(
    pixel: F,
    x: int,
    y: int,
    value: u32,
    c: RGBColour,
)
    requires
        call_ensures(pixel, (x as usize, y as usize), c),
        forall|d: RGBColour| #[trigger] call_ensures(pixel, (x as usize, y as usize), d) ==> d == c,
    ensures
        rendered(pixel, x, y, value) <==> value == c.r as int * 0x10000 + c.g as int * 0x100
            + c.b as int,
{
}

/// In a rendered block, pixel `k` (counted row by row) holds the packed
/// colour that `pixel` answers for the image position under it, column
/// `x + k % width`, row `y + k / width`.
pub proof fn lemma_rendered_block_pixel<F: Fn(usize, usize) -> RGBColour>(
    b: BlockView,
    pixel: F,
    k: int,
    c: RGBColour,
)
    requires
        b.rendered_by(pixel),
        0 <= k < b.width * b.height,
        call_ensures(pixel, ((b.x + k % (b.width as int)) as usize, (b.y + k / (b.width as int)) as usize), c),
        forall|d: RGBColour|
            #[trigger] call_ensures(
                pixel,
                ((b.x + k % (b.width as int)) as usize, (b.y + k / (b.width as int)) as usize),
                d,
            ) ==> d == c,
    ensures
        b.pixels[k] == c.r as int * 0x10000 + c.g as int * 0x100 + c.b as int,
{
    assert(rendered(pixel, b.x + k % (b.width as int), b.y + k / (b.width as int), b.pixels[k]));
}

/// When `pixel` answers `c` and nothing else at column `x`, row `y`, the
/// bytes shown for it from `at` on are exactly red, green and blue of `c`.
pub proof fn lemma_shows_is_channels<F: Fn(usize, usize) -> RGBColour>(
    pixel: F,
    x: int,
    y: int,
    bytes: Seq<u8>,
    at: int,
    c: RGBColour,
)
    requires
        call_ensures(pixel, (x as usize, y as usize), c),
        forall|d: RGBColour| #[trigger] call_ensures(pixel, (x as usize, y as usize), d) ==> d == c,
    ensures
        shows(pixel, x, y, bytes, at) <==> (bytes[at] == c.r && bytes[at + 1] == c.g && bytes[at + 2]
            == c.b),
{
}

/// A black image of `w` by `h` pixels is `w` wide, `h` high and holds
/// `w * h` pixels that are all 0.
pub proof fn lemma_blank_image_is_black(w: nat, h: nat)
    ensures
        blank_image(w, h).width == w,
        blank_image(w, h).height == h,
        blank_image(w, h).pixels.len() == w * h,
        forall|i: int| 0 <= i < w * h ==> #[trigger] blank_image(w, h).pixels[i] == 0,
{
}

/// Block `id` of the grid of a `W` by `H` image is `W / 20` wide and
/// `H / 20` high, its left edge at column `(id % 20) * (W / 20)` and its top
/// edge at row `(id / 20) * (H / 20)`; its pixel at column `i`, row `j` is the
/// image pixel under it.
pub proof fn lemma_grid_block(img: ImageView, id: nat, i: int, j: int)
    requires
        img.wf(),
        id < BLOCK_COUNT,
        0 <= i < img.width / 20,
        0 <= j < img.height / 20,
    ensures
        block_of(img, id).width == img.width / 20,
        block_of(img, id).height == img.height / 20,
        block_of(img, id).x == (id % 20) * (img.width / 20),
        block_of(img, id).y == (id / 20) * (img.height / 20),
        block_of(img, id).pixels.len() == (img.width / 20) * (img.height / 20),
        block_of(img, id).pixels[j * (img.width / 20) as int + i] == img.pixels[((id / 20) * (
        img.height / 20) + j) * img.width + (id % 20) * (img.width / 20) + i],
{
    let w = (img.width / 20) as int;
    let h = (img.height / 20) as int;
    let k = j * w + i;
    crate::image::lemma_offset_in_range(w, h, i, j);
    vstd::arithmetic::div_mod::lemma_fundamental_div_mod_converse(k, w, j, i);
}

/// Storing block `b` into `img`: the image pixel at column `px`, row `py`
/// becomes the block's pixel at column `px - b.x`, row `py - b.y` where
/// the block lies over it, and stays as it was elsewhere. Size and length
/// do not change.
pub proof fn lemma_with_block_pixel(img: ImageView, b: BlockView, px: int, py: int)
    requires
        img.wf(),
        b.wf(),
        b.x + b.width <= img.width,
        b.y + b.height <= img.height,
        0 <= px < img.width,
        0 <= py < img.height,
    ensures
        with_block(img, b).width == img.width,
        with_block(img, b).height == img.height,
        with_block(img, b).pixels.len() == img.pixels.len(),
        with_block(img, b).pixels[py * img.width + px] == if b.x <= px < b.x + b.width && b.y <= py
            < b.y + b.height {
            b.pixels[(py - b.y) * b.width + (px - b.x)]
        } else {
            img.pixels[py * img.width + px]
        },
{
    crate::laws::lemma_store_then_read(img, b, px, py);
}

/// Writing colour `(r, g, b)` at column `x`, row `y` of a block changes
/// only its pixel `y * width + x`, to `r * 2^16 + g * 2^8 + b`; a position
/// outside the block changes nothing.
pub proof fn lemma_with_pixel_exact(blk: BlockView, x: int, y: int, r: u8, g: u8, b: u8, k: int)
    requires
        blk.wf(),
        0 <= k < blk.width * blk.height,
    ensures
        blk.with_pixel(x, y, r, g, b).width == blk.width,
        blk.with_pixel(x, y, r, g, b).height == blk.height,
        blk.with_pixel(x, y, r, g, b).x == blk.x,
        blk.with_pixel(x, y, r, g, b).y == blk.y,
        blk.with_pixel(x, y, r, g, b).pixels.len() == blk.pixels.len(),
        blk.with_pixel(x, y, r, g, b).pixels[k] == if 0 <= x < blk.width && 0 <= y < blk.height && k
            == y * blk.width + x {
            r as int * 0x10000 + g as int * 0x100 + b as int
        } else {
            blk.pixels[k] as int
        },
{
    crate::laws::lemma_pack_channels(r, g, b);
    if 0 <= x < blk.width && 0 <= y < blk.height {
        crate::image::lemma_offset_in_range(blk.width as int, blk.height as int, x, y);
    }
}

/// Writing colour `(r, g, b)` at position `idx` of a block changes only
/// that pixel, to `r * 2^16 + g * 2^8 + b`; a position past the end changes
/// nothing.
pub proof fn lemma_with_pixel_at_exact(blk: BlockView, idx: int, r: u8, g: u8, b: u8, k: int)
    requires
        blk.wf(),
        0 <= k < blk.width * blk.height,
    ensures
        blk.with_pixel_at(idx, r, g, b).width == blk.width,
        blk.with_pixel_at(idx, r, g, b).height == blk.height,
        blk.with_pixel_at(idx, r, g, b).x == blk.x,
        blk.with_pixel_at(idx, r, g, b).y == blk.y,
        blk.with_pixel_at(idx, r, g, b).pixels.len() == blk.pixels.len(),
        blk.with_pixel_at(idx, r, g, b).pixels[k] == if k == idx {
            r as int * 0x10000 + g as int * 0x100 + b as int
        } else {
            blk.pixels[k] as int
        },
{
    crate::laws::lemma_pack_channels(r, g, b);
}

/// The number written by a string of decimal digits, most significant first.
pub open spec fn digits_value(s: Seq<char>) -> int
    decreases s.len(),
{
    if s.len() == 0 {
        0
    } else {
        digits_value(s.drop_last()) * 10 + (s.last() as int - '0' as int)
    }
}

/// `s` is a number in decimal as `u8`'s `Display` writes it: one or more
/// digits, with no leading zero unless the number is zero.
pub open spec fn plain_decimal(s: Seq<char>) -> bool {
    &&& s.len() >= 1
    &&& forall|k: int| 0 <= k < s.len() ==> '0' as int <= #[trigger] s[k] as int <= '9' as int
    &&& s[0] == '0' ==> s.len() == 1
}

proof fn lemma_decimal_reads_back(n: nat)
    ensures
        plain_decimal(decimal(n)),
        digits_value(decimal(n)) == n,
        decimal(n)[0] == '0' ==> n == 0,
    decreases n,
{
    assert(forall|d: nat| d < 10 ==> (#[trigger] digit(d)) as int == '0' as int + d);
    if n >= 10 {
        lemma_decimal_reads_back(n / 10);
        let s = decimal(n);
        assert(s.drop_last() =~= decimal(n / 10));
        assert(s[0] == decimal(n / 10)[0]);
        assert(s.last() == digit(n % 10));
        assert(digit(n % 10) as int == '0' as int + n % 10);
        vstd::arithmetic::div_mod::lemma_fundamental_div_mod(n as int, 10);
        assert(digits_value(s) == digits_value(decimal(n / 10)) * 10 + (n % 10));
    } else {
        let s = decimal(n);
        assert(s.drop_last() =~= Seq::<char>::empty());
        assert(digits_value(s.drop_last()) == 0);
        assert(digit(n) as int == '0' as int + n);
    }
}

/// The text of a colour reads back: it is three plain decimal numbers
/// separated by single spaces, and they are red, green and blue.
pub proof fn lemma_colour_text_reads_back(r: u8, g: u8, b: u8)
    ensures
        exists|i: int, j: int|
            #![trigger colour_text(r, g, b).subrange(0, i), colour_text(r, g, b).subrange(i + 1, j)]
            {
                &&& 0 < i < j < colour_text(r, g, b).len() - 1
                &&& colour_text(r, g, b)[i] == ' '
                &&& colour_text(r, g, b)[j] == ' '
                &&& plain_decimal(colour_text(r, g, b).subrange(0, i))
                &&& plain_decimal(colour_text(r, g, b).subrange(i + 1, j))
                &&& plain_decimal(colour_text(r, g, b).subrange(j + 1, colour_text(r, g, b).len() as int))
                &&& digits_value(colour_text(r, g, b).subrange(0, i)) == r
                &&& digits_value(colour_text(r, g, b).subrange(i + 1, j)) == g
                &&& digits_value(colour_text(r, g, b).subrange(j + 1, colour_text(r, g, b).len() as int))
                    == b
            },
{
    lemma_decimal_reads_back(r as nat);
    lemma_decimal_reads_back(g as nat);
    lemma_decimal_reads_back(b as nat);
    let t = colour_text(r, g, b);
    let dr = decimal(r as nat);
    let dg = decimal(g as nat);
    let db = decimal(b as nat);
    let i = dr.len() as int;
    let j = i + 1 + dg.len();
    assert(t.subrange(0, i) =~= dr);
    assert(t.subrange(i + 1, j) =~= dg);
    assert(t.subrange(j + 1, t.len() as int) =~= db);
    assert(t[i] == ' ');
    assert(t[j] == ' ');
}

/// A permutation of `[0, n)` reaches every index of it: the job queue
/// holds every block of the grid.
pub proof fn lemma_permutation_reaches_all(perm: Seq<int>, n: nat, j: int)
    requires
        is_permutation(perm, n),
        0 <= j < n,
    ensures
        exists|i: int| 0 <= i < n && perm[i] == j,
{
    assert(perm.no_duplicates());
    perm.unique_seq_to_set();
    vstd::set_lib::lemma_int_range(0, n as int);
    let range = vstd::set_lib::set_int_range(0, n as int);
    assert(perm.to_set().subset_of(range)) by {
        assert forall|v: int| perm.to_set().contains(v) implies range.contains(v) by {
            assert(perm.contains(v));
        }
    }
    vstd::set_lib::lemma_subset_equality(perm.to_set(), range);
    assert(range.contains(j));
    assert(perm.to_set().contains(j));
    assert(perm.contains(j));
}

/// A block that is at least one pixel wide and high fits an image exactly
/// when every pixel it covers lies inside the image.
pub proof fn lemma_fits_means_inside(b: BlockView, w: nat, h: nat)
    requires
        b.width > 0,
        b.height > 0,
    ensures
        b.fits(w, h) <==> (forall|px: int, py: int|
            #[trigger] b.covers(px, py) ==> 0 <= px < w && 0 <= py < h),
        forall|px: int, py: int|
            #[trigger] b.covers(px, py) <==> (b.x <= px < b.x + b.width && b.y <= py < b.y + b.height),
{
    if !b.fits(w, h) {
        if b.x + b.width > w {
            assert(b.covers(b.x + b.width - 1, b.y as int));
        } else {
            assert(b.covers(b.x as int, b.y + b.height - 1));
        }
    }
}

} // verus!
