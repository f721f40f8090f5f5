use raytracer::colour::RGBColour;
use raytracer::image::{Image, ImageBlock, BLOCK_COUNT, BLOCKS_PER_SIDE};

/// An image whose pixel at position `i` holds `i + 1`, built by storing
/// painted blocks of the grid.
fn numbered_image(width: u16, height: u16) -> Image {
    let mut image = Image::new(width, height);
    let whole = make_whole_block(&image);
    let mut block = whole;
    for i in 0..block.size() {
        let value = (i + 1) as u32;
        let r = (value >> 16) as u8;
        let g = (value >> 8) as u8;
        let b = value as u8;
        block.set_pixel_idx(i, r, g, b);
    }
    assert!(image.store_block(&block));
    image
}

/// A block covering the whole image: block 0 of the grid of an image
/// twenty times larger, with its buffer of matching size.
fn make_whole_block(image: &Image) -> ImageBlock {
    let big = Image::new(
        image.width() * BLOCKS_PER_SIDE as u16,
        image.height() * BLOCKS_PER_SIDE as u16,
    );
    let mut blocks = big.make_blocks();
    blocks.swap_remove(0)
}

#[test]
fn pack_pixel_places_channels() {
    assert_eq!(ImageBlock::pack_pixel(0x12, 0x34, 0x56), 0x0012_3456);
    assert_eq!(ImageBlock::pack_pixel(255, 0, 0), 0x00ff_0000);
    assert_eq!(ImageBlock::pack_pixel(0, 255, 0), 0x0000_ff00);
    assert_eq!(ImageBlock::pack_pixel(0, 0, 255), 0x0000_00ff);
    assert_eq!(ImageBlock::pack_pixel(0, 0, 0), 0);
}

#[test]
fn pack_pixel_channels_read_back() {
    for &(r, g, b) in &[(1u8, 2u8, 3u8), (255, 255, 255), (0, 128, 7), (200, 0, 99)] {
        let p = ImageBlock::pack_pixel(r, g, b);
        assert!(p <= 0x00ff_ffff);
        assert_eq!(p >> 16, r as u32);
        assert_eq!((p >> 8) & 0xff, g as u32);
        assert_eq!(p & 0xff, b as u32);
    }
}

#[test]
fn new_image_is_black() {
    let image = Image::new(3, 2);
    assert_eq!(image.width(), 3);
    assert_eq!(image.height(), 2);
    assert_eq!(image.buffer(), &[0u32; 6][..]);
    let empty = Image::new(0, 7);
    assert_eq!(empty.buffer().len(), 0);
}

#[test]
fn resize_blacks_out_and_matches_new() {
    let mut image = numbered_image(3, 2);
    assert_eq!(image.buffer(), &[1u32, 2, 3, 4, 5, 6][..]);
    image.resize(4, 5);
    let fresh = Image::new(4, 5);
    assert_eq!(image.width(), 4);
    assert_eq!(image.height(), 5);
    assert_eq!(image.buffer(), fresh.buffer());
    assert_eq!(image.buffer().len(), 20);
    image.resize(1, 1);
    assert_eq!(image.buffer(), &[0u32][..]);
}

#[test]
fn make_blocks_grid_geometry() {
    let image = numbered_image(45, 23);
    let blocks = image.make_blocks();
    assert_eq!(blocks.len(), BLOCK_COUNT);
    for (id, block) in blocks.iter().enumerate() {
        assert_eq!(block.width(), 2);
        assert_eq!(block.height(), 1);
        assert_eq!(block.x() as usize, (id % 20) * 2);
        assert_eq!(block.y() as usize, id / 20);
        assert_eq!(block.size(), 2);
    }
    // Block 21 lies at column 2, row 1: pixels 45 + 2 and 45 + 3, numbered from 1.
    assert_eq!(blocks[21].pixels(), &[48u32, 49][..]);
}

#[test]
fn make_blocks_copies_pixels_row_by_row() {
    let image = numbered_image(40, 40);
    let blocks = image.make_blocks();
    let block = &blocks[20 * 3 + 5];
    assert_eq!((block.x(), block.y(), block.width(), block.height()), (10, 6, 2, 2));
    let row6 = 6 * 40;
    let row7 = 7 * 40;
    assert_eq!(
        block.pixels(),
        &[(row6 + 10 + 1) as u32, (row6 + 11 + 1) as u32, (row7 + 10 + 1) as u32, (row7 + 11 + 1) as u32][..]
    );
}

#[test]
fn make_blocks_of_small_image_are_empty() {
    let image = Image::new(19, 5);
    let blocks = image.make_blocks();
    assert_eq!(blocks.len(), 400);
    for block in &blocks {
        assert_eq!(block.size(), 0);
        assert_eq!(block.pixels().len(), 0);
        assert_eq!((block.x(), block.y()), (0, 0));
    }
}

#[test]
fn blocks_cover_the_grid_once() {
    let image = Image::new(47, 61);
    let blocks = image.make_blocks();
    let (bw, bh) = (47 / 20, 61 / 20);
    for py in 0..61usize {
        for px in 0..47usize {
            let covering: Vec<usize> = (0..400)
                .filter(|&id| {
                    let b = &blocks[id];
                    (b.x() as usize) <= px
                        && px < (b.x() + b.width()) as usize
                        && (b.y() as usize) <= py
                        && py < (b.y() + b.height()) as usize
                })
                .collect();
            if px < 20 * bw && py < 20 * bh {
                assert_eq!(covering, vec![(py / bh) * 20 + px / bw]);
            } else {
                assert!(covering.is_empty());
            }
        }
    }
}

#[test]
fn set_pixel_writes_inside_and_ignores_outside() {
    let image = Image::new(60, 40);
    let mut block = image.make_blocks().swap_remove(0);
    assert_eq!((block.width(), block.height()), (3, 2));
    block.set_pixel(2, 1, 1, 2, 3);
    assert_eq!(block.pixels(), &[0u32, 0, 0, 0, 0, 0x010203][..]);
    block.set_pixel(3, 0, 9, 9, 9);
    block.set_pixel(0, 2, 9, 9, 9);
    assert_eq!(block.pixels(), &[0u32, 0, 0, 0, 0, 0x010203][..]);
}

#[test]
fn set_pixel_idx_agrees_with_set_pixel() {
    let image = Image::new(60, 40);
    let mut by_xy = image.make_blocks().swap_remove(7);
    let mut by_idx = image.make_blocks().swap_remove(7);
    for y in 0..2u16 {
        for x in 0..3u16 {
            let v = (10 * y + x) as u8;
            by_xy.set_pixel(x, y, v, v + 1, v + 2);
            by_idx.set_pixel_idx((y * 3 + x) as usize, v, v + 1, v + 2);
        }
    }
    assert_eq!(by_xy.pixels(), by_idx.pixels());
    assert_eq!(by_idx.pixels()[4], 0x0b0c0d);
    by_idx.set_pixel_idx(6, 1, 1, 1);
    assert_eq!(by_xy.pixels(), by_idx.pixels());
}

#[test]
fn store_block_reads_back() {
    let mut image = numbered_image(40, 20);
    let mut block = image.make_blocks().swap_remove(20 + 3);
    assert_eq!((block.x(), block.y(), block.width(), block.height()), (6, 1, 2, 1));
    block.set_pixel(0, 0, 0, 0, 0xaa);
    block.set_pixel(1, 0, 0, 0, 0xbb);
    assert!(image.store_block(&block));
    let buf = image.buffer();
    assert_eq!(buf[40 + 6], 0xaa);
    assert_eq!(buf[40 + 7], 0xbb);
    for (i, &p) in buf.iter().enumerate() {
        if i != 46 && i != 47 {
            assert_eq!(p, (i + 1) as u32);
        }
    }
}

#[test]
fn store_block_refuses_block_outside() {
    let big = Image::new(200, 200);
    let block = big.make_blocks().swap_remove(399);
    let mut small = numbered_image(40, 40);
    let before = small.buffer().to_vec();
    assert!(!small.store_block(&block));
    assert_eq!(small.buffer(), &before[..]);
}

#[test]
fn store_untouched_blocks_round_trip() {
    let mut image = numbered_image(43, 41);
    let before = image.buffer().to_vec();
    for block in image.make_blocks() {
        assert!(image.store_block(&block));
    }
    assert_eq!(image.buffer(), &before[..]);
}

#[test]
fn store_disjoint_blocks_commutes() {
    let base = numbered_image(40, 40);
    let mut blocks = base.make_blocks();
    let mut b2 = blocks.swap_remove(1);
    let mut b1 = blocks.swap_remove(0);
    for i in 0..b1.size() {
        b1.set_pixel_idx(i, 1, 1, 1);
        b2.set_pixel_idx(i, 2, 2, 2);
    }
    let mut first = numbered_image(40, 40);
    let mut second = numbered_image(40, 40);
    assert!(first.store_block(&b1));
    assert!(first.store_block(&b2));
    assert!(second.store_block(&b2));
    assert!(second.store_block(&b1));
    assert_eq!(first.buffer(), second.buffer());
    assert_eq!(first.buffer()[0], 0x010101);
    assert_eq!(first.buffer()[2], 0x020202);
}

#[test]
fn render_fills_block_from_image_coordinates() {
    let image = Image::new(100, 60);
    let mut block = image.make_blocks().swap_remove(20 * 2 + 4);
    assert_eq!((block.x(), block.y(), block.width(), block.height()), (20, 6, 5, 3));
    block.render(&|x: usize, y: usize| RGBColour::new(x as u8, y as u8, 7));
    for k in 0..15usize {
        let x = 20 + k % 5;
        let y = 6 + k / 5;
        assert_eq!(block.pixels()[k], ImageBlock::pack_pixel(x as u8, y as u8, 7));
    }
}

#[test]
fn rendered_block_stored_shows_its_pixels() {
    let mut image = Image::new(40, 40);
    for mut block in image.make_blocks() {
        block.render(&|x: usize, y: usize| RGBColour::new(x as u8, y as u8, 1));
        assert!(image.store_block(&block));
    }
    let buf = image.buffer();
    for y in 0..40usize {
        for x in 0..40usize {
            assert_eq!(buf[y * 40 + x], ImageBlock::pack_pixel(x as u8, y as u8, 1));
        }
    }
}

#[test]
fn block_write_then_store_changes_one_pixel() {
    let mut image = numbered_image(40, 40);
    let before = image.buffer().to_vec();
    let mut block = image.make_blocks().swap_remove(20 * 4 + 7);
    assert_eq!((block.x(), block.y(), block.width(), block.height()), (14, 8, 2, 2));
    block.set_pixel(1, 1, 0xab, 0xcd, 0xef);
    assert!(image.store_block(&block));
    let target = 9 * 40 + 15;
    for (i, &p) in image.buffer().iter().enumerate() {
        if i == target {
            assert_eq!(p, 0x00ab_cdef);
        } else {
            assert_eq!(p, before[i]);
        }
    }
}
