//! Frame buffers: RGB byte rasters that a particle cloud is drawn into, and
//! the sequence of frames that make up an animation.

use vstd::prelude::*;

verus! {

/// Collects the frames of an animation, all of one size.
pub struct FrameGenerator {
    pub frames: Vec<Vec<u8>>,
    pub width: usize,
    pub height: usize,
}

impl FrameGenerator {
    /// An empty sequence of frames of the given size.
    pub fn new(width: usize, height: usize) -> (generator: Self)
        ensures
            generator.frames@.len() == 0,
            generator.width == width,
            generator.height == height,
    {
        FrameGenerator { frames: Vec::new(), width, height }
    }

    /// Appends a frame; the frames before it stay as they are.
    pub fn add_frame(&mut self, pixels: Vec<u8>)
        ensures
            final(self).frames@ == old(self).frames@.push(pixels),
            final(self).width == old(self).width,
            final(self).height == old(self).height,
    {
        self.frames.push(pixels);
    }
}

/// Byte `b` of a black frame with one white pixel at column `pixel_x`, row
/// `pixel_y`; all black if that position is outside the frame.
pub open spec fn pixel_frame_byte(
    width: int,
    height: int,
    pixel_x: int,
    pixel_y: int,
    b: int,
) -> u8 {
    if pixel_x < width && pixel_y < height && b / 3 == pixel_y * width + pixel_x {
        255
    } else {
        0
    }
}

/// A black RGB frame with a single white pixel.
pub fn create_pixel_frame(width: usize, height: usize, pixel_x: usize, pixel_y: usize) -> (pixels:
    Vec<u8>)
    requires
        width * height * 3 <= usize::MAX,
    ensures
        pixels@.len() == width * height * 3,
        forall|b: int|
            0 <= b < pixels@.len() ==> #[trigger] pixels@[b] == pixel_frame_byte(
                width as int,
                height as int,
                pixel_x as int,
                pixel_y as int,
                b,
            ),
{
    let mut pixels: Vec<u8> = filled_frame(width, height, 0, 0, 0);
    if pixel_x < width && pixel_y < height {
        proof {
            lemma_pixel_in_frame(width as int, height as int, pixel_x as int, pixel_y as int);
        }
        let idx: usize = (pixel_y * width + pixel_x) * 3;
        pixels[idx] = 255;
        pixels[idx + 1] = 255;
        pixels[idx + 2] = 255;
    }
    pixels
}

/// The pixel at column `x`, row `y` of a frame lies inside its buffer.
pub proof fn lemma_pixel_in_frame(width: int, height: int, x: int, y: int)
    requires
        0 <= x < width,
        0 <= y < height,
    ensures
        0 <= y * width + x < width * height,
        (y * width + x) * 3 + 3 <= width * height * 3,
{
    assert(0 <= y * width + x < width * height) by (nonlinear_arith)
        requires
            0 <= x < width,
            0 <= y < height,
    ;
    assert((y * width + x) * 3 + 3 <= width * height * 3) by (nonlinear_arith)
        requires
            y * width + x < width * height,
    ;
}

/// Colour channel `channel` of the background that particles are drawn on.
pub open spec fn background(channel: int) -> u8 {
    if channel == 0 {
        20
    } else if channel == 1 {
        50
    } else {
        80
    }
}

/// Some point lies inside the frame, on the pixel with linear index `pixel`.
pub open spec fn covered(points: Seq<(usize, usize)>, width: int, height: int, pixel: int) -> bool {
    exists|k: int|
        0 <= k < points.len() && (#[trigger] points[k]).0 < width && points[k].1 < height
            && points[k].1 * width + points[k].0 == pixel
}

fn filled_frame(width: usize, height: usize, red: u8, green: u8, blue: u8) -> (pixels: Vec<u8>)
    requires
        width * height * 3 <= usize::MAX,
    ensures
        pixels@.len() == width * height * 3,
        forall|b: int|
            0 <= b < pixels@.len() ==> #[trigger] pixels@[b] == if b % 3 == 0 {
                red
            } else if b % 3 == 1 {
                green
            } else {
                blue
            },
{
    assert(width * height <= width * height * 3) by (nonlinear_arith)
        requires
            0 <= width * height,
    ;
    let count: usize = width * height;
    let mut pixels: Vec<u8> = Vec::new();
    let mut p: usize = 0;
    while p < count
        invariant
            p <= count,
            count * 3 <= usize::MAX,
            pixels@.len() == p * 3,
            forall|b: int|
                0 <= b < pixels@.len() ==> #[trigger] pixels@[b] == if b % 3 == 0 {
                    red
                } else if b % 3 == 1 {
                    green
                } else {
                    blue
                },
        decreases count - p,
    {
        pixels.push(red);
        pixels.push(green);
        pixels.push(blue);
        p += 1;
    }
    pixels
}

/// Draws particles as white pixels on the background colour. `points` holds
/// the column and row of each particle; those outside the frame are skipped.
pub fn render_particles(points: &Vec<(usize, usize)>, width: usize, height: usize) -> (pixels:
    Vec<u8>)
    requires
        width * height * 3 <= usize::MAX,
    ensures
        pixels@.len() == width * height * 3,
        forall|b: int|
            0 <= b < pixels@.len() ==> #[trigger] pixels@[b] == if covered(
                points@,
                width as int,
                height as int,
                b / 3,
            ) {
                255u8
            } else {
                background(b % 3)
            },
{
    let mut pixels: Vec<u8> = filled_frame(width, height, 20, 50, 80);
    let mut i: usize = 0;
    while i < points.len()
        invariant
            i <= points@.len(),
            width * height * 3 <= usize::MAX,
            pixels@.len() == width * height * 3,
            forall|b: int|
                0 <= b < pixels@.len() ==> #[trigger] pixels@[b] == if covered(
                    points@.take(i as int),
                    width as int,
                    height as int,
                    b / 3,
                ) {
                    255u8
                } else {
                    background(b % 3)
                },
        decreases points@.len() - i,
    {
        let x: usize = points[i].0;
        let y: usize = points[i].1;
        let ghost before = points@.take(i as int);
        let ghost after = points@.take(i + 1);
        let ghost w = width as int;
        let ghost h = height as int;
        proof {
            assert(after.len() == i + 1);
            assert(after[i as int] == points@[i as int]);
            assert forall|q: int| covered(before, w, h, q) implies covered(after, w, h, q) by {
                let k = choose|k: int|
                    0 <= k < before.len() && (#[trigger] before[k]).0 < w && before[k].1 < h
                        && before[k].1 * w + before[k].0 == q;
                assert(after[k] == before[k]);
            }
            assert forall|q: int| covered(after, w, h, q) implies covered(before, w, h, q) || (x
                < w && y < h && q == y * w + x) by {
                let k = choose|k: int|
                    0 <= k < after.len() && (#[trigger] after[k]).0 < w && after[k].1 < h
                        && after[k].1 * w + after[k].0 == q;
                if k < i {
                    assert(before[k] == after[k]);
                }
            }
        }
        if x < width && y < height {
            proof {
                lemma_pixel_in_frame(w, h, x as int, y as int);
                assert(covered(after, w, h, y * w + x));
            }
            let idx: usize = (y * width + x) * 3;
            pixels[idx] = 255;
            pixels[idx + 1] = 255;
            pixels[idx + 2] = 255;
        }
        i += 1;
    }
    proof {
        assert(points@.take(points@.len() as int) == points@);
    }
    pixels
}

} // verus!
