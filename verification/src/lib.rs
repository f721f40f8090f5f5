pub mod colour;
pub mod events;
pub mod image;
pub mod jobs;
pub mod laws;
pub mod meaning;

use vstd::prelude::*;

use crate::colour::RGBColour;

verus! {

/// Size and sampling settings of a rendered picture.
#[derive(Clone, Copy, Debug)]
pub struct Viewport {
    pub width: usize,
    pub height: usize,
    pub samples: usize,
    pub depth: usize,
}

impl Viewport {
    /// A viewport with the given size, samples per pixel and bounce depth.
    pub fn new(width: usize, height: usize, samples: usize, depth: usize) -> (v: Viewport)
        ensures
            v.width == width,
            v.height == height,
            v.samples == samples,
            v.depth == depth,
    {
        Viewport { width, height, samples, depth }
    }

    /// Number of pixels.
    pub fn area(&self) -> (a: usize)
        requires
            self.width * self.height <= usize::MAX,
        ensures
            a == self.width * self.height,
    {
        self.width * self.height
    }
}

/// `bytes[at]`, `bytes[at + 1]` and `bytes[at + 2]` are the red, green and
/// blue channels of a colour that `pixel` may return for column `x`, row `y`.
pub open spec fn shows<F: Fn(usize, usize) -> RGBColour>(
    pixel: F,
    x: int,
    y: int,
    bytes: Seq<u8>,
    at: int,
) -> bool {
    exists|c: RGBColour|
        #[trigger] call_ensures(pixel, (x as usize, y as usize), c) && bytes[at] == c.r && bytes[at
            + 1] == c.g && bytes[at + 2] == c.b
}

/// The channels of row `n` of the picture, pixel by pixel from the left,
/// three bytes (red, green, blue) per pixel.
pub fn render_line<F: Fn(usize, usize) -> RGBColour>(viewport: &Viewport, n: usize, pixel: &F) -> (bytes: Vec<u8>)
    requires
        viewport.width * 3 <= usize::MAX,
        forall|x: usize| x < viewport.width ==> #[trigger] call_requires(*pixel, (x, n)),
    ensures
        bytes@.len() == viewport.width * 3,
        forall|x: int| 0 <= x < viewport.width ==> #[trigger] shows(*pixel, x, n as int, bytes@, 3 * x),
{
    let width: usize = viewport.width;
    let mut bytes: Vec<u8> = Vec::with_capacity(width * 3);
    let mut x: usize = 0;
    while x < width
        invariant
            width == viewport.width,
            width * 3 <= usize::MAX,
            x <= width,
            bytes@.len() == 3 * x,
            forall|x: usize| x < viewport.width ==> #[trigger] call_requires(*pixel, (x, n)),
            forall|i: int| 0 <= i < x ==> #[trigger] shows(*pixel, i, n as int, bytes@, 3 * i),
        decreases width - x,
    {
        let colour = pixel(x, n);
        let ghost before = bytes@;
        bytes.push(colour.r);
        bytes.push(colour.g);
        bytes.push(colour.b);
        proof {
            assert forall|i: int| 0 <= i < x + 1 implies #[trigger] shows(*pixel, i, n as int, bytes@, 3 * i) by {
                if i < x {
                    assert(shows(*pixel, i, n as int, before, 3 * i));
                    let c = choose|c: RGBColour|
                        #[trigger] call_ensures(*pixel, (i as usize, n), c) && before[3 * i] == c.r
                            && before[3 * i + 1] == c.g && before[3 * i + 2] == c.b;
                    assert(call_ensures(*pixel, (i as usize, n), c));
                } else {
                    assert(call_ensures(*pixel, (i as usize, n), colour));
                }
            }
        }
        x = x + 1;
    }
    bytes
}

/// The channels of the whole picture, three bytes (red, green, blue) per
/// pixel, starting with the bottom row: byte group `i` holds column
/// `i % width` of row `height - 1 - i / width`.
pub fn render_frame<F: Fn(usize, usize) -> RGBColour>(viewport: &Viewport, pixel: &F) -> (bytes: Vec<u8>)
    requires
        viewport.width * viewport.height * 3 <= usize::MAX,
        forall|x: usize, y: usize|
            x < viewport.width && y < viewport.height ==> #[trigger] call_requires(*pixel, (x, y)),
    ensures
        bytes@.len() == viewport.width * viewport.height * 3,
        forall|i: int|
            0 <= i < viewport.width * viewport.height ==> #[trigger] shows(
                *pixel,
                i % (viewport.width as int),
                viewport.height - 1 - i / (viewport.width as int),
                bytes@,
                3 * i,
            ),
{
    let width: usize = viewport.width;
    let height: usize = viewport.height;
    proof {
        assert(width * height <= usize::MAX) by (nonlinear_arith)
            requires
                width * height * 3 <= usize::MAX,
        ;
    }
    let area: usize = viewport.area();
    let mut bytes: Vec<u8> = Vec::with_capacity(area * 3);
    let mut index: usize = 0;
    while index < area
        invariant
            width == viewport.width,
            height == viewport.height,
            area == width * height,
            area * 3 <= usize::MAX,
            index <= area,
            bytes@.len() == 3 * index,
            forall|x: usize, y: usize|
                x < viewport.width && y < viewport.height ==> #[trigger] call_requires(*pixel, (x, y)),
            forall|i: int|
                0 <= i < index ==> #[trigger] shows(
                    *pixel,
                    i % (width as int),
                    height - 1 - i / (width as int),
                    bytes@,
                    3 * i,
                ),
        decreases area - index,
    {
        proof {
            assert(width > 0) by (nonlinear_arith)
                requires
                    index < width * height,
            ;
            vstd::arithmetic::div_mod::lemma_fundamental_div_mod(index as int, width as int);
            assert(index / width < height) by (nonlinear_arith)
                requires
                    index < width * height,
                    width > 0,
                    index == width * (index / width) + index % width,
                    0 <= index % width,
            ;
        }
        let x: usize = index % width;
        let y: usize = height - 1 - index / width;
        let colour = pixel(x, y);
        let ghost before = bytes@;
        bytes.push(colour.r);
        bytes.push(colour.g);
        bytes.push(colour.b);
        proof {
            assert forall|i: int| 0 <= i < index + 1 implies #[trigger] shows(
                *pixel,
                i % (width as int),
                height - 1 - i / (width as int),
                bytes@,
                3 * i,
            ) by {
                let px = i % (width as int);
                let py = height - 1 - i / (width as int);
                if i < index {
                    assert(shows(*pixel, px, py, before, 3 * i));
                    let c = choose|c: RGBColour|
                        #[trigger] call_ensures(*pixel, (px as usize, py as usize), c) && before[3 * i] == c.r
                            && before[3 * i + 1] == c.g && before[3 * i + 2] == c.b;
                    assert(call_ensures(*pixel, (px as usize, py as usize), c));
                } else {
                    assert(call_ensures(*pixel, (px as usize, py as usize), colour));
                }
            }
        }
        index = index + 1;
    }
    bytes
}

} // verus!
