//! Pixel-format conversions around the ditherer.
//!
//! The engine upstream receives packed 32-bit color frames and hands the
//! display layer 2-byte native pixels; everything in between is plain
//! arithmetic on buffers and lives here: unpacking, grayscale reduction,
//! the optional 2x downscale, and the expansion of dithered grayscale
//! through a precomputed native-color lookup table.

use vstd::prelude::*;

verus! {

/// The red channel of a packed 0RGB word.
pub open spec fn argb_red(argb: u32) -> u8 {
    ((argb >> 16) & 0xFF) as u8
}

/// The green channel of a packed 0RGB word.
pub open spec fn argb_green(argb: u32) -> u8 {
    ((argb >> 8) & 0xFF) as u8
}

/// The blue channel of a packed 0RGB word.
pub open spec fn argb_blue(argb: u32) -> u8 {
    (argb & 0xFF) as u8
}

/// Unpacks a frame of 32-bit 0RGB words, as the game engine delivers
/// them, into 3 bytes per pixel.
pub fn argb_frame_to_rgb(frame: &Vec<u32>) -> (out: Vec<u8>)
    requires
        3 * frame@.len() <= usize::MAX,
    ensures
        out@.len() == 3 * frame@.len(),
        forall|i: int|
            0 <= i < frame@.len() ==> out@[3 * i] == argb_red(#[trigger] frame@[i]) && out@[3 * i
                + 1] == argb_green(frame@[i]) && out@[3 * i + 2] == argb_blue(frame@[i]),
{
    let n = frame.len();
    let mut out: Vec<u8> = Vec::new();
    let mut i: usize = 0;
    while i < n
        invariant
            i <= n,
            n == frame@.len(),
            3 * frame@.len() <= usize::MAX,
            out@.len() == 3 * i,
            forall|j: int|
                0 <= j < i ==> out@[3 * j] == argb_red(#[trigger] frame@[j]) && out@[3 * j + 1]
                    == argb_green(frame@[j]) && out@[3 * j + 2] == argb_blue(frame@[j]),
        decreases n - i,
    {
        let argb = frame[i];
        out.push(((argb >> 16) & 0xFF) as u8);
        out.push(((argb >> 8) & 0xFF) as u8);
        out.push((argb & 0xFF) as u8);
        i = i + 1;
    }
    out
}

/// The grayscale intensity of an RGB pixel: the plain channel average,
/// with no gamma correction.
pub open spec fn luma_of(r: u8, g: u8, b: u8) -> u8 {
    ((r + g + b) / 3) as u8
}

/// Reduces 3-byte RGB pixels to one grayscale intensity per pixel, the
/// form the ditherer consumes.
pub fn rgb_frame_to_gray(rgb: &Vec<u8>) -> (out: Vec<u8>)
    requires
        rgb@.len() % 3 == 0,
    ensures
        out@.len() == rgb@.len() / 3,
        forall|i: int|
            0 <= i < out@.len() ==> #[trigger] out@[i] == luma_of(
                rgb@[3 * i],
                rgb@[3 * i + 1],
                rgb@[3 * i + 2],
            ),
{
    let n = rgb.len() / 3;
    let mut out: Vec<u8> = Vec::new();
    let mut i: usize = 0;
    while i < n
        invariant
            i <= n,
            n == rgb@.len() / 3,
            rgb@.len() % 3 == 0,
            rgb@.len() <= usize::MAX,
            out@.len() == i,
            forall|j: int|
                0 <= j < i ==> #[trigger] out@[j] == luma_of(
                    rgb@[3 * j],
                    rgb@[3 * j + 1],
                    rgb@[3 * j + 2],
                ),
        decreases n - i,
    {
        let r = rgb[3 * i];
        let g = rgb[3 * i + 1];
        let b = rgb[3 * i + 2];
        out.push(((r as u16 + g as u16 + b as u16) / 3) as u8);
        i = i + 1;
    }
    out
}

/// A pixel that precedes `(x, y)` in row-major order over the halved grid
/// has all three of its output bytes strictly below position
/// `3 * (y * half_width + x)`.
proof fn lemma_downscale_index_lex(xx: int, yy: int, c: int, x: int, y: int, half_width: int)
    requires
        0 <= xx < half_width,
        0 <= yy,
        0 <= c < 3,
        0 <= x,
        (yy < y) || (yy == y && xx < x),
    ensures
        0 <= 3 * (yy * half_width + xx) + c < 3 * (y * half_width + x),
{
    assert(0 <= 3 * (yy * half_width + xx) + c && 3 * (yy * half_width + xx) + c < 3 * (y
        * half_width + x)) by (nonlinear_arith)
        requires
            0 <= xx < half_width,
            0 <= yy,
            0 <= c < 3,
            0 <= x,
            (yy < y) || (yy == y && xx < x),
    ;
}

/// Halves an RGB frame in both dimensions by keeping every second pixel
/// of every second row, the cheap subsampling the renderer applies before
/// dithering an oversized source frame.
pub fn downscale_rgb_half(rgb: &Vec<u8>, width: u32, height: u32) -> (out: Vec<u8>)
    requires
        rgb@.len() == 3 * (width as int * height as int),
    ensures
        out@.len() == 3 * ((width as int / 2) * (height as int / 2)),
        forall|x: int, y: int, c: int|
            0 <= x < width as int / 2 && 0 <= y < height as int / 2 && 0 <= c < 3
                ==> #[trigger] out@[3 * (y * (width as int / 2) + x) + c] == rgb@[3 * (2 * y * width
                + 2 * x) + c],
{
    let half_w = (width / 2) as usize;
    let half_h = (height / 2) as usize;
    let w = width as usize;
    let rgb_len: usize = rgb.len();
    let mut out: Vec<u8> = Vec::new();
    let mut y: usize = 0;
    while y < half_h
        invariant
            y <= half_h,
            half_w == width as int / 2,
            half_h == height as int / 2,
            w == width as int,
            rgb@.len() == 3 * (width as int * height as int),
            rgb@.len() <= usize::MAX,
            out@.len() == 3 * (y as int * half_w as int),
            forall|xx: int, yy: int, c: int|
                0 <= xx < half_w && 0 <= yy < y && 0 <= c < 3 ==> #[trigger] out@[3 * (yy
                    * (width as int / 2) + xx) + c] == rgb@[3 * (2 * yy * width + 2 * xx) + c],
        decreases half_h - y,
    {
        let mut x: usize = 0;
        while x < half_w
            invariant
                x <= half_w,
                y < half_h,
                half_w == width as int / 2,
                half_h == height as int / 2,
                w == width as int,
                rgb@.len() == 3 * (width as int * height as int),
                rgb@.len() <= usize::MAX,
                out@.len() == 3 * (y as int * half_w as int + x as int),
                forall|xx: int, yy: int, c: int|
                    0 <= xx < half_w && 0 <= yy < y && 0 <= c < 3 ==> #[trigger] out@[3 * (yy
                        * (width as int / 2) + xx) + c] == rgb@[3 * (2 * yy * width + 2 * xx) + c],
                forall|xx: int, c: int|
                    0 <= xx < x && 0 <= c < 3 ==> #[trigger] out@[3 * (y as int * (width as int / 2)
                        + xx) + c] == rgb@[3 * (2 * y as int * width + 2 * xx) + c],
            decreases half_w - x,
        {
            proof {
                assert(0 <= 3 * (2 * (y as int) * (width as int) + 2 * (x as int)) && 3 * (2 * (y
                    as int) * (width as int) + 2 * (x as int)) + 2 < 3 * (width as int * height
                    as int) && 3 * (y as int * (width as int / 2) + x as int) + 2 < 3 * ((width
                    as int / 2) * (height as int / 2)) && 3 * ((width as int / 2) * (height as int
                    / 2)) <= 3 * (width as int * height as int) && 2 * (y as int) <= 2 * (y as int)
                    * (width as int) && 2 * (y as int) * (width as int) + 2 * (x as int) <= 3 * (2
                    * (y as int) * (width as int) + 2 * (x as int))) by (nonlinear_arith)
                    requires
                        0 <= x < width as int / 2,
                        0 <= y < height as int / 2,
                ;
            }
            let src = 3 * (2 * y * w + 2 * x);
            let ghost old_out = out@;
            out.push(rgb[src]);
            out.push(rgb[src + 1]);
            out.push(rgb[src + 2]);
            proof {
                assert forall|xx: int, yy: int, c: int|
                    0 <= xx < half_w && 0 <= yy < y && 0 <= c < 3 implies #[trigger] out@[3 * (yy
                    * (width as int / 2) + xx) + c] == old_out[3 * (yy * (width as int / 2) + xx)
                    + c] by {
                    lemma_downscale_index_lex(xx, yy, c, x as int, y as int, width as int / 2);
                }
                assert forall|xx: int, c: int|
                    0 <= xx < x && 0 <= c < 3 implies #[trigger] out@[3 * (y as int * (width as int
                    / 2) + xx) + c] == old_out[3 * (y as int * (width as int / 2) + xx) + c] by {
                    lemma_downscale_index_lex(
                        xx,
                        y as int,
                        c,
                        x as int,
                        y as int,
                        width as int / 2,
                    );
                }
                assert(out@[3 * (y as int * (width as int / 2) + x as int)] == rgb@[3 * (2 * (
                y as int) * width + 2 * (x as int))]);
                assert(out@[3 * (y as int * (width as int / 2) + x as int) + 1] == rgb@[3 * (2 * (
                y as int) * width + 2 * (x as int)) + 1]);
                assert(out@[3 * (y as int * (width as int / 2) + x as int) + 2] == rgb@[3 * (2 * (
                y as int) * width + 2 * (x as int)) + 2]);
            }
            x = x + 1;
        }
        y = y + 1;
        proof {
            assert(3 * ((y - 1) as int * half_w as int + half_w as int) == 3 * (y as int * half_w
                as int)) by (nonlinear_arith);
        }
    }
    proof {
        assert(3 * (half_h as int * half_w as int) == 3 * ((width as int / 2) * (height as int
            / 2))) by (nonlinear_arith)
            requires
                half_w == width as int / 2,
                half_h == height as int / 2,
        ;
    }
    out
}

/// Expands dithered grayscale pixels to the display's 2-byte native
/// encoding through a 256-entry lookup table built once by the caller.
pub fn gray_frame_to_native(gray: &Vec<u8>, lut: &Vec<(u8, u8)>) -> (out: Vec<u8>)
    requires
        lut@.len() == 256,
        2 * gray@.len() <= usize::MAX,
    ensures
        out@.len() == 2 * gray@.len(),
        forall|i: int|
            0 <= i < gray@.len() ==> out@[2 * i] == lut@[#[trigger] gray@[i] as int].0 && out@[2 * i
                + 1] == lut@[gray@[i] as int].1,
{
    let n = gray.len();
    let mut out: Vec<u8> = Vec::new();
    let mut i: usize = 0;
    while i < n
        invariant
            i <= n,
            n == gray@.len(),
            lut@.len() == 256,
            2 * gray@.len() <= usize::MAX,
            out@.len() == 2 * i,
            forall|j: int|
                0 <= j < i ==> out@[2 * j] == lut@[#[trigger] gray@[j] as int].0 && out@[2 * j + 1]
                    == lut@[gray@[j] as int].1,
        decreases n - i,
    {
        let v = gray[i];
        let entry = lut[v as usize];
        out.push(entry.0);
        out.push(entry.1);
        i = i + 1;
    }
    out
}

/// Flat position, in a 2-byte-per-pixel landscape buffer, of the portrait
/// pixel `(x, y)` after a 90-degree rotation: the landscape row is `x`,
/// the landscape column counts down from the top of the portrait frame.
pub open spec fn rotated_index(x: int, y: int, height: int) -> int {
    2 * (x * height + (height - 1 - y))
}

/// Distinct portrait pixels land on distinct landscape positions, inside
/// the buffer.
proof fn lemma_rotated_index_distinct(
    x1: int,
    y1: int,
    x2: int,
    y2: int,
    width: int,
    height: int,
)
    requires
        0 <= x1 < width,
        0 <= y1 < height,
        0 <= x2 < width,
        0 <= y2 < height,
    ensures
        0 <= rotated_index(x1, y1, height),
        rotated_index(x1, y1, height) + 1 < 2 * (width * height),
        (x1 != x2 || y1 != y2) ==> rotated_index(x1, y1, height) != rotated_index(x2, y2, height),
{
    assert(0 <= 2 * (x1 * height + (height - 1 - y1)) && 2 * (x1 * height + (height - 1 - y1)) + 1
        < 2 * (width * height) && ((x1 != x2 || y1 != y2) ==> 2 * (x1 * height + (height - 1 - y1))
        != 2 * (x2 * height + (height - 1 - y2)))) by (nonlinear_arith)
        requires
            0 <= x1 < width,
            0 <= y1 < height,
            0 <= x2 < width,
            0 <= y2 < height,
    ;
}

/// Expands a portrait grayscale frame to native pixels while rotating it
/// 90 degrees into a landscape buffer, for the fullscreen display path.
pub fn gray_frame_to_native_rotated(
    gray: &Vec<u8>,
    width: u32,
    height: u32,
    lut: &Vec<(u8, u8)>,
) -> (out: Vec<u8>)
    requires
        lut@.len() == 256,
        gray@.len() == width as int * height as int,
        2 * (width as int * height as int) <= usize::MAX,
    ensures
        out@.len() == 2 * (width as int * height as int),
        forall|x: int, y: int|
            0 <= x < width && 0 <= y < height ==> #[trigger] out@[rotated_index(
                x,
                y,
                height as int,
            )] == lut@[gray@[y * width as int + x] as int].0 && out@[rotated_index(
                x,
                y,
                height as int,
            ) + 1] == lut@[gray@[y * width as int + x] as int].1,
{
    proof {
        assert(width as int * height as int >= 0 && (width as int * height as int) * 2 == 2
            * (width as int * height as int)) by (nonlinear_arith);
    }
    let total: usize = (width as usize) * (height as usize) * 2;
    let mut out: Vec<u8> = vec![0u8; total];
    let mut y: u32 = 0;
    while y < height
        invariant
            y <= height,
            lut@.len() == 256,
            gray@.len() == width as int * height as int,
            2 * (width as int * height as int) <= usize::MAX,
            out@.len() == 2 * (width as int * height as int),
            forall|xx: int, yy: int|
                0 <= xx < width && 0 <= yy < y ==> #[trigger] out@[rotated_index(
                    xx,
                    yy,
                    height as int,
                )] == lut@[gray@[yy * width as int + xx] as int].0 && out@[rotated_index(
                    xx,
                    yy,
                    height as int,
                ) + 1] == lut@[gray@[yy * width as int + xx] as int].1,
        decreases height - y,
    {
        let mut x: u32 = 0;
        while x < width
            invariant
                y < height,
                x <= width,
                lut@.len() == 256,
                gray@.len() == width as int * height as int,
                2 * (width as int * height as int) <= usize::MAX,
                out@.len() == 2 * (width as int * height as int),
                forall|xx: int, yy: int|
                    0 <= xx < width && 0 <= yy < y ==> #[trigger] out@[rotated_index(
                        xx,
                        yy,
                        height as int,
                    )] == lut@[gray@[yy * width as int + xx] as int].0 && out@[rotated_index(
                        xx,
                        yy,
                        height as int,
                    ) + 1] == lut@[gray@[yy * width as int + xx] as int].1,
                forall|xx: int|
                    0 <= xx < x ==> #[trigger] out@[rotated_index(xx, y as int, height as int)]
                        == lut@[gray@[y as int * width as int + xx] as int].0 && out@[rotated_index(
                        xx,
                        y as int,
                        height as int,
                    ) + 1] == lut@[gray@[y as int * width as int + xx] as int].1,
            decreases width - x,
        {
            proof {
                lemma_rotated_index_distinct(
                    x as int,
                    y as int,
                    x as int,
                    y as int,
                    width as int,
                    height as int,
                );
                assert(0 <= (y as int * width as int + x as int) && (y as int * width as int + x
                    as int) < width as int * height as int && (x as int) * (height as int) + (height
                    as int - 1 - y as int) >= 0) by (nonlinear_arith)
                    requires
                        0 <= x < width,
                        0 <= y < height,
                ;
            }
            let gi: usize = (y as usize) * (width as usize) + (x as usize);
            let v = gray[gi];
            let entry = lut[v as usize];
            let idx: usize = 2 * ((x as usize) * (height as usize) + ((height as usize) - 1 - (
            y as usize)));
            let ghost old_out = out@;
            out.set(idx, entry.0);
            out.set(idx + 1, entry.1);
            proof {
                assert(idx == rotated_index(x as int, y as int, height as int));
                assert forall|xx: int, yy: int|
                    0 <= xx < width && 0 <= yy < y implies #[trigger] out@[rotated_index(
                    xx,
                    yy,
                    height as int,
                )] == old_out[rotated_index(xx, yy, height as int)] && out@[rotated_index(
                    xx,
                    yy,
                    height as int,
                ) + 1] == old_out[rotated_index(xx, yy, height as int) + 1] by {
                    lemma_rotated_index_distinct(
                        xx,
                        yy,
                        x as int,
                        y as int,
                        width as int,
                        height as int,
                    );
                    assert(rotated_index(xx, yy, height as int) % 2 == 0 && rotated_index(
                        x as int,
                        y as int,
                        height as int,
                    ) % 2 == 0);
                }
                assert forall|xx: int|
                    0 <= xx < x implies #[trigger] out@[rotated_index(xx, y as int, height as int)]
                    == old_out[rotated_index(xx, y as int, height as int)] && out@[rotated_index(
                    xx,
                    y as int,
                    height as int,
                ) + 1] == old_out[rotated_index(xx, y as int, height as int) + 1] by {
                    lemma_rotated_index_distinct(
                        xx,
                        y as int,
                        x as int,
                        y as int,
                        width as int,
                        height as int,
                    );
                    assert(rotated_index(xx, y as int, height as int) % 2 == 0 && rotated_index(
                        x as int,
                        y as int,
                        height as int,
                    ) % 2 == 0);
                }
            }
            x = x + 1;
        }
        y = y + 1;
    }
    out
}

} // verus!
