//! The pixel buffer of one frame: a dense, row-major array of
//! `width * height` entries.

use vstd::prelude::*;
use vstd::arithmetic::div_mod::lemma_fundamental_div_mod_converse;
use vstd::arithmetic::mul::lemma_mul_inequality;

verus! {

/// Where the pixel in column `x` of row `y` lies in a buffer whose rows are
/// `width` pixels long.
pub open spec fn pixel_offset(width: nat, x: nat, y: nat) -> nat {
    x + y * width
}

/// A pixel of the frame lies inside the buffer.
pub proof fn lemma_pixel_offset_in_frame(width: nat, height: nat, x: nat, y: nat)
    requires
        x < width,
        y < height,
    ensures
        pixel_offset(width, x, y) < width * height,
{
    assert(y * width + width <= height * width) by (nonlinear_arith)
        requires
            y + 1 <= height,
    ;
    assert(height * width == width * height) by (nonlinear_arith);
}

/// The column and the row of a pixel can be read off its place in the
/// buffer, so no two pixels of a frame share one.
pub proof fn lemma_pixel_offset_inverse(width: nat, x: nat, y: nat)
    requires
        x < width,
    ensures
        pixel_offset(width, x, y) % width == x,
        pixel_offset(width, x, y) / width == y,
{
    lemma_fundamental_div_mod_converse(
        pixel_offset(width, x, y) as int,
        width as int,
        y as int,
        x as int,
    );
}

/// Every entry of the buffer belongs to a pixel of the frame.
pub proof fn lemma_pixel_offset_onto(width: nat, height: nat, offset: nat)
    requires
        offset < width * height,
    ensures
        offset % width < width,
        offset / width < height,
        pixel_offset(width, offset % width, offset / width) == offset,
{
    assert(width > 0) by (nonlinear_arith)
        requires
            offset < width * height,
    ;
    let (x, y) = (offset % width, offset / width);
    assert(offset == width * y + x && 0 <= x < width) by (nonlinear_arith)
        requires
            width > 0,
            x == offset % width,
            y == offset / width,
    ;
    assert(y < height && width * y == y * width) by (nonlinear_arith)
        requires
            width * y <= offset,
            offset < width * height,
            width > 0,
    ;
}

/// The place of pixel (`x`, `y`) in the buffer of a `width` by `height`
/// frame.
pub fn pixel_index(width: usize, height: usize, x: usize, y: usize) -> (index: usize)
    requires
        x < width,
        y < height,
        width * height <= usize::MAX,
    ensures
        index == pixel_offset(width as nat, x as nat, y as nat),
        index < width * height,
{
    proof {
        lemma_pixel_offset_in_frame(width as nat, height as nat, x as nat, y as nat);
    }
    x + y * width
}

/// Renders one frame: shades every pixel once, row by row from the top and
/// from left to right within a row, and returns the buffer of what the
/// shader gave, each result at its pixel's place.
pub fn render<T, F: Fn(usize, usize) -> T>(width: usize, height: usize, shade: F) -> (buffer: Vec<T>)
    requires
        width * height <= usize::MAX,
        forall|x: usize, y: usize| x < width && y < height ==> shade.requires((x, y)),
    ensures
        buffer.len() == width * height,
        forall|x: usize, y: usize|
            x < width && y < height ==> shade.ensures(
                (x, y),
                #[trigger] buffer[pixel_offset(width as nat, x as nat, y as nat) as int],
            ),
{
    let mut buffer: Vec<T> = Vec::new();
    let mut y: usize = 0;
    while y < height
        invariant
            y <= height,
            width * height <= usize::MAX,
            buffer.len() == y * width,
            forall|x: usize, y: usize| x < width && y < height ==> shade.requires((x, y)),
            forall|px: usize, py: usize|
                px < width && py < y ==> shade.ensures(
                    (px, py),
                    #[trigger] buffer[pixel_offset(width as nat, px as nat, py as nat) as int],
                ),
        decreases height - y,
    {
        let mut x: usize = 0;
        while x < width
            invariant
                x <= width,
                y < height,
                width * height <= usize::MAX,
                buffer.len() == y * width + x,
                forall|x: usize, y: usize| x < width && y < height ==> shade.requires((x, y)),
                forall|px: usize, py: usize|
                    px < width && (py < y || (py == y && px < x)) ==> shade.ensures(
                        (px, py),
                        #[trigger] buffer[pixel_offset(width as nat, px as nat, py as nat) as int],
                    ),
            decreases width - x,
        {
            let ghost before = buffer@;
            let value = shade(x, y);
            buffer.push(value);
            proof {
                assert forall|px: usize, py: usize|
                    px < width && (py < y || (py == y && px < x + 1)) implies shade.ensures(
                    (px, py),
                    #[trigger] buffer[pixel_offset(width as nat, px as nat, py as nat) as int],
                ) by {
                    let offset = pixel_offset(width as nat, px as nat, py as nat);
                    if py == y && px == x {
                        assert(offset == before.len());
                    } else {
                        if py < y {
                            lemma_pixel_offset_in_frame(
                                width as nat,
                                y as nat,
                                px as nat,
                                py as nat,
                            );
                            assert(width * y == y * width) by (nonlinear_arith);
                        }
                        assert(offset < before.len());
                        assert(buffer[offset as int] == before[offset as int]);
                    }
                }
            }
            x += 1;
        }
        assert((y + 1) * width == y * width + width) by (nonlinear_arith);
        y += 1;
    }
    assert(height * width == width * height) by (nonlinear_arith);
    buffer
}

} // verus!
