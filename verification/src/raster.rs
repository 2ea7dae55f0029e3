//! Visiting the pixels of an image in scanline order.

use vstd::prelude::*;

verus! {

/// The position of pixel `(x, y)` in the scanline order of an image
/// `width` pixels wide: rows from the top, each row from the left.
pub open spec fn scanline_index(width: nat, x: nat, y: nat) -> nat {
    y * width + x
}

/// Computes `pixel(x, y)` for every pixel of a `width` by `height` image
/// and lists the results in scanline order: all of row 0 from left to
/// right, then row 1, and so on.
pub fn map_pixels<T, F: Fn(usize, usize) -> T>(width: usize, height: usize, pixel: F) -> (out: Vec<T>)
    requires
        width * height <= usize::MAX,
        forall|x: usize, y: usize| x < width && y < height ==> call_requires(pixel, (x, y)),
    ensures
        out.len() == width * height,
        forall|x: usize, y: usize|
            x < width && y < height ==> call_ensures(
                pixel,
                (x, y),
                #[trigger] out[scanline_index(width as nat, x as nat, y as nat) as int],
            ),
{
    let mut out: Vec<T> = Vec::new();
    let mut y: usize = 0;
    while y < height
        invariant
            y <= height,
            width * height <= usize::MAX,
            out.len() == y * width,
            forall|x: usize, y: usize| x < width && y < height ==> call_requires(pixel, (x, y)),
            forall|px: usize, py: usize|
                px < width && py < y ==> call_ensures(
                    pixel,
                    (px, py),
                    #[trigger] out[scanline_index(width as nat, px as nat, py as nat) as int],
                ),
        decreases height - y,
    {
        assert((y + 1) * width <= width * height) by (nonlinear_arith)
            requires
                y < height,
        ;
        let mut x: usize = 0;
        while x < width
            invariant
                x <= width,
                y < height,
                (y + 1) * width <= width * height,
                width * height <= usize::MAX,
                out.len() == y * width + x,
                forall|x: usize, y: usize| x < width && y < height ==> call_requires(pixel, (x, y)),
                forall|px: usize, py: usize|
                    (px < width && py < y) || (px < x && py == y) ==> call_ensures(
                        pixel,
                        (px, py),
                        #[trigger] out[scanline_index(width as nat, px as nat, py as nat) as int],
                    ),
            decreases width - x,
        {
            let ghost before = out@;
            let v = pixel(x, y);
            out.push(v);
            proof {
                assert forall|px: usize, py: usize|
                    (px < width && py < y) || (px < x + 1 && py == y) implies call_ensures(
                    pixel,
                    (px, py),
                    #[trigger] out[scanline_index(width as nat, px as nat, py as nat) as int],
                ) by {
                    let k = scanline_index(width as nat, px as nat, py as nat) as int;
                    if py < y {
                        assert(py * width + px < y * width) by (nonlinear_arith)
                            requires
                                py < y,
                                px < width,
                        ;
                        assert(out@[k] == before[k]);
                    } else if px < x {
                        assert(out@[k] == before[k]);
                    } else {
                        assert(k == y * width + x);
                    }
                }
            }
            x = x + 1;
        }
        assert(y * width + width == (y + 1) * width) by (nonlinear_arith);
        y = y + 1;
    }
    assert(height * width == width * height) by (nonlinear_arith);
    out
}

/// Scanline order starts at the top-left pixel, steps one to the right
/// within a row, and goes from the last pixel of a row to the first pixel of
/// the next.
pub proof fn lemma_scanline_order(width: nat, x: nat, y: nat)
    requires
        x < width,
    ensures
        scanline_index(width, 0, 0) == 0,
        x + 1 < width ==> scanline_index(width, x + 1, y) == scanline_index(width, x, y) + 1,
        scanline_index(width, 0, y + 1) == scanline_index(width, (width - 1) as nat, y) + 1,
{
    assert((y + 1) * width == y * width + width) by (nonlinear_arith);
}

} // verus!
