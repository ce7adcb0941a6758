//! The block dither calculator and the cache builder.
//!
//! The calculator is a pure function from one source intensity and one
//! destination block coordinate to a packed 4x4 block pattern.  The
//! builder enumerates every reachable key of a fixed grid and materializes
//! the calculator into a flat table: a total memoization, indexed by
//! [`cache_index`], never an approximation.

use vstd::prelude::*;

use crate::noise::NoiseTexture;
use crate::pattern::bit16;
use crate::pattern::count_bits16;
use crate::pattern::lemma_bit16_set;
use crate::pattern::lemma_bit16_set_other;
use crate::pattern::lemma_bit16_zero;
use crate::pattern::lemma_count_bits16_monotone;

verus! {

/// An intensity scaled by the fixed 3/2 brightening factor and clamped to
/// the 8-bit range, compensating the display's dark reproduction bias.
pub open spec fn brightened(v: u8) -> u8 {
    if 3 * v / 2 > 255 {
        255u8
    } else {
        (3 * v / 2) as u8
    }
}

/// The intensity a calculator with the given policy actually compares
/// against the noise samples.
pub open spec fn effective_intensity(v: u8, brighten: bool) -> u8 {
    if brighten {
        brightened(v)
    } else {
        v
    }
}

/// Applies the fixed brightening transform.
pub fn brighten_intensity(v: u8) -> (r: u8)
    ensures
        r == brightened(v),
{
    let scaled: u16 = v as u16 * 3 / 2;
    if scaled > 255 {
        255
    } else {
        scaled as u8
    }
}

/// A sub-pixel is rendered bright exactly when the (already transformed)
/// source intensity exceeds the threshold sample under it.
pub fn is_bright(noise_value: u8, picture_value: u8) -> (r: bool)
    ensures
        r == (picture_value > noise_value),
{
    picture_value > noise_value
}

/// Bit `i` of the block pattern for effective intensity `v` at block
/// `(x, y)`: the comparison against the wrapped noise sample under
/// sub-pixel `(i % 4, i / 4)` of the block.
pub open spec fn pattern_bit(t: NoiseTexture, v: u8, x: int, y: int, i: int) -> bool {
    v > t.noise_at(4 * x + i % 4, 4 * y + i / 4)
}

/// `p` is the complete block pattern for effective intensity `v` at block
/// `(x, y)`: every one of its 16 bits is the corresponding comparison.
pub open spec fn is_block_pattern(t: NoiseTexture, v: u8, x: int, y: int, p: u16) -> bool {
    forall|i: u16| i < 16 ==> bit16(p, i) == pattern_bit(t, v, x, y, i as int)
}

/// Computes the packed 4x4 pattern for one source intensity at one block
/// coordinate by 16 threshold comparisons.
pub fn calc_dithered_pixels_4x4(
    noise: &NoiseTexture,
    intensity: u8,
    x: u32,
    y: u32,
    brighten: bool,
) -> (r: u16)
    requires
        noise.wf(),
        4 * x + 3 <= u32::MAX,
        4 * y + 3 <= u32::MAX,
    ensures
        is_block_pattern(*noise, effective_intensity(intensity, brighten), x as int, y as int, r),
{
    let v = if brighten {
        brighten_intensity(intensity)
    } else {
        intensity
    };
    let mut res: u16 = 0;
    proof {
        lemma_bit16_zero();
    }
    let mut i: u16 = 0;
    while i < 16
        invariant
            i <= 16,
            noise.wf(),
            4 * x + 3 <= u32::MAX,
            4 * y + 3 <= u32::MAX,
            v == effective_intensity(intensity, brighten),
            forall|j: u16|
                j < i ==> bit16(res, j) == pattern_bit(*noise, v, x as int, y as int, j as int),
            forall|j: u16| i <= j < 16 ==> !bit16(res, j),
        decreases 16 - i,
    {
        let x_offset = i % 4;
        let y_offset = i / 4;
        let sample = noise.sample(x * 4 + x_offset as u32, y * 4 + y_offset as u32);
        proof {
            assert(x_offset as int == (i as int) % 4 && y_offset as int == (i as int) / 4);
            assert((x * 4 + x_offset as u32) as int == 4 * (x as int) + (i as int) % 4);
            assert((y * 4 + y_offset as u32) as int == 4 * (y as int) + (i as int) / 4);
            assert(pattern_bit(*noise, v, x as int, y as int, i as int) == (v > sample));
        }
        let ghost prev = res;
        if is_bright(sample, v) {
            proof {
                lemma_bit16_set(res, i);
            }
            res = res | (1u16 << i);
        }
        proof {
            assert forall|j: u16| j < i + 1 implies bit16(res, j) == pattern_bit(
                *noise,
                v,
                x as int,
                y as int,
                j as int,
            ) by {
                if j < i {
                    if v > sample {
                        lemma_bit16_set_other(prev, i, j);
                    }
                } else {
                    if !(v > sample) {
                        assert(!bit16(prev, i));
                    }
                }
            }
            assert forall|j: u16| i + 1 <= j < 16 implies !bit16(res, j) by {
                if v > sample {
                    lemma_bit16_set_other(prev, i, j);
                }
            }
        }
        i = i + 1;
    }
    res
}

/// Number of entries of a cache for a `width * height` block grid: one
/// per block coordinate and 8-bit intensity.
pub open spec fn cache_len(width: int, height: int) -> int {
    width * height * 256
}

/// Flat position of the key `(x, y, v)`: row-major over blocks, then one
/// entry per intensity.
pub open spec fn cache_index(x: int, y: int, v: int, width: int) -> int {
    (y * width + x) * 256 + v
}

/// Number of entries of a cache for a `width * height` block grid.
pub fn calc_dither_cache_len(width: u32, height: u32) -> (r: usize)
    requires
        cache_len(width as int, height as int) <= usize::MAX,
    ensures
        r == cache_len(width as int, height as int),
{
    proof {
        assert(width as int * height as int >= 0 && width as int * height as int * 256 >= width
            as int * height as int) by (nonlinear_arith);
    }
    (width as usize) * (height as usize) * 256
}

/// Flat position of the key `(x, y, v)` in a cache of the given grid
/// width.
pub fn calc_dither_cache_index(intensity: u8, x: u32, y: u32, width: u32) -> (r: usize)
    requires
        x < width,
        cache_index(x as int, y as int, 255, width as int) <= usize::MAX,
    ensures
        r == cache_index(x as int, y as int, intensity as int, width as int),
{
    proof {
        assert(0 <= y as int * width as int && y as int * width as int <= y as int * width as int
            + x as int && 0 <= (y as int * width as int + x as int) * 256 && (y as int * width
            as int + x as int) * 256 <= (y as int * width as int + x as int) * 256 + 255)
            by (nonlinear_arith);
    }
    ((y as usize) * (width as usize) + (x as usize)) * 256 + (intensity as usize)
}

/// Every in-range key lands inside the table, and distinct keys land on
/// distinct entries: the flat layout loses nothing.
pub proof fn lemma_cache_index_injective(
    x1: int,
    y1: int,
    v1: int,
    x2: int,
    y2: int,
    v2: int,
    width: int,
    height: int,
)
    requires
        0 <= x1 < width,
        0 <= y1 < height,
        0 <= v1 < 256,
        0 <= x2 < width,
        0 <= y2 < height,
        0 <= v2 < 256,
    ensures
        0 <= cache_index(x1, y1, v1, width) < cache_len(width, height),
        0 <= cache_index(x2, y2, v2, width) < cache_len(width, height),
        (x1 != x2 || y1 != y2 || v1 != v2) ==> cache_index(x1, y1, v1, width) != cache_index(
            x2,
            y2,
            v2,
            width,
        ),
{
    assert(0 <= (y1 * width + x1) * 256 + v1 < width * height * 256) by (nonlinear_arith)
        requires
            0 <= x1 < width,
            0 <= y1 < height,
            0 <= v1 < 256,
    ;
    assert(0 <= (y2 * width + x2) * 256 + v2 < width * height * 256) by (nonlinear_arith)
        requires
            0 <= x2 < width,
            0 <= y2 < height,
            0 <= v2 < 256,
    ;
    assert((x1 != x2 || y1 != y2 || v1 != v2) ==> (y1 * width + x1) * 256 + v1 != (y2 * width + x2)
        * 256 + v2) by (nonlinear_arith)
        requires
            0 <= x1 < width,
            0 <= y1 < height,
            0 <= v1 < 256,
            0 <= x2 < width,
            0 <= y2 < height,
            0 <= v2 < 256,
    ;
}

/// A key that precedes `(x, y, v)` in build order (row-major blocks,
/// then intensity) has a strictly smaller flat position.
proof fn lemma_cache_index_lex(xx: int, yy: int, vv: int, x: int, y: int, v: int, width: int)
    requires
        0 <= xx < width,
        0 <= yy,
        0 <= vv < 256,
        0 <= x,
        0 <= v,
        (yy < y) || (yy == y && xx < x) || (yy == y && xx == x && vv < v),
    ensures
        0 <= cache_index(xx, yy, vv, width) < (y * width + x) * 256 + v,
{
    assert(0 <= (yy * width + xx) * 256 + vv && (yy * width + xx) * 256 + vv < (y * width + x) * 256
        + v) by (nonlinear_arith)
        requires
            0 <= xx < width,
            0 <= yy,
            0 <= vv < 256,
            0 <= x,
            0 <= v,
            (yy < y) || (yy == y && xx < x) || (yy == y && xx == x && vv < v),
    ;
}

/// Builds the full cache for a `width * height` block grid: entry
/// `cache_index(x, y, v, width)` is exactly the pattern the calculator
/// yields for `(v, x, y)` under the same policy.
pub fn calc_full_cache(noise: &NoiseTexture, width: u32, height: u32, brighten: bool) -> (r: Vec<
    u16,
>)
    requires
        noise.wf(),
        cache_len(width as int, height as int) <= usize::MAX,
        4 * width <= u32::MAX,
        4 * height <= u32::MAX,
    ensures
        r@.len() == cache_len(width as int, height as int),
        forall|x: int, y: int, v: int|
            0 <= x < width && 0 <= y < height && 0 <= v < 256 ==> is_block_pattern(
                *noise,
                effective_intensity(v as u8, brighten),
                x,
                y,
                #[trigger] r@[cache_index(x, y, v, width as int)],
            ),
{
    let mut cache: Vec<u16> = Vec::new();
    let mut y: u32 = 0;
    while y < height
        invariant
            y <= height,
            noise.wf(),
            cache_len(width as int, height as int) <= usize::MAX,
            4 * width <= u32::MAX,
            4 * height <= u32::MAX,
            cache@.len() == y as int * width as int * 256,
            forall|xx: int, yy: int, vv: int|
                0 <= xx < width && 0 <= yy < y && 0 <= vv < 256 ==> is_block_pattern(
                    *noise,
                    effective_intensity(vv as u8, brighten),
                    xx,
                    yy,
                    #[trigger] cache@[cache_index(xx, yy, vv, width as int)],
                ),
        decreases height - y,
    {
        let mut x: u32 = 0;
        while x < width
            invariant
                y < height,
                x <= width,
                noise.wf(),
                cache_len(width as int, height as int) <= usize::MAX,
                4 * width <= u32::MAX,
                4 * height <= u32::MAX,
                cache@.len() == (y as int * width as int + x as int) * 256,
                forall|xx: int, yy: int, vv: int|
                    0 <= xx < width && 0 <= yy < y && 0 <= vv < 256 ==> is_block_pattern(
                        *noise,
                        effective_intensity(vv as u8, brighten),
                        xx,
                        yy,
                        #[trigger] cache@[cache_index(xx, yy, vv, width as int)],
                    ),
                forall|xx: int, vv: int|
                    0 <= xx < x && 0 <= vv < 256 ==> is_block_pattern(
                        *noise,
                        effective_intensity(vv as u8, brighten),
                        xx,
                        y as int,
                        #[trigger] cache@[cache_index(xx, y as int, vv, width as int)],
                    ),
            decreases width - x,
        {
            let mut v: u16 = 0;
            while v < 256
                invariant
                    y < height,
                    x < width,
                    v <= 256,
                    noise.wf(),
                    cache_len(width as int, height as int) <= usize::MAX,
                    4 * width <= u32::MAX,
                    4 * height <= u32::MAX,
                    cache@.len() == (y as int * width as int + x as int) * 256 + v as int,
                    forall|xx: int, yy: int, vv: int|
                        0 <= xx < width && 0 <= yy < y && 0 <= vv < 256 ==> is_block_pattern(
                            *noise,
                            effective_intensity(vv as u8, brighten),
                            xx,
                            yy,
                            #[trigger] cache@[cache_index(xx, yy, vv, width as int)],
                        ),
                    forall|xx: int, vv: int|
                        0 <= xx < x && 0 <= vv < 256 ==> is_block_pattern(
                            *noise,
                            effective_intensity(vv as u8, brighten),
                            xx,
                            y as int,
                            #[trigger] cache@[cache_index(xx, y as int, vv, width as int)],
                        ),
                    forall|vv: int|
                        0 <= vv < v ==> is_block_pattern(
                            *noise,
                            effective_intensity(vv as u8, brighten),
                            x as int,
                            y as int,
                            #[trigger] cache@[cache_index(x as int, y as int, vv, width as int)],
                        ),
                decreases 256 - v,
            {
                let p = calc_dithered_pixels_4x4(noise, v as u8, x, y, brighten);
                let ghost old_cache = cache@;
                cache.push(p);
                proof {
                    assert forall|xx: int, yy: int, vv: int|
                        0 <= xx < width && 0 <= yy < y && 0 <= vv < 256 implies #[trigger] cache@[cache_index(
                        xx,
                        yy,
                        vv,
                        width as int,
                    )] == old_cache[cache_index(xx, yy, vv, width as int)] by {
                        lemma_cache_index_lex(
                            xx,
                            yy,
                            vv,
                            x as int,
                            y as int,
                            v as int,
                            width as int,
                        );
                    }
                    assert forall|xx: int, vv: int|
                        0 <= xx < x && 0 <= vv < 256 implies #[trigger] cache@[cache_index(
                        xx,
                        y as int,
                        vv,
                        width as int,
                    )] == old_cache[cache_index(xx, y as int, vv, width as int)] by {
                        lemma_cache_index_lex(
                            xx,
                            y as int,
                            vv,
                            x as int,
                            y as int,
                            v as int,
                            width as int,
                        );
                    }
                    assert forall|vv: int|
                        0 <= vv < v implies #[trigger] cache@[cache_index(
                        x as int,
                        y as int,
                        vv,
                        width as int,
                    )] == old_cache[cache_index(x as int, y as int, vv, width as int)] by {
                        lemma_cache_index_lex(
                            x as int,
                            y as int,
                            vv,
                            x as int,
                            y as int,
                            v as int,
                            width as int,
                        );
                    }
                    assert(cache_index(x as int, y as int, v as int, width as int) == old_cache.len());
                    assert(cache@[cache_index(x as int, y as int, v as int, width as int)] == p);
                }
                v = v + 1;
            }
            x = x + 1;
            proof {
                assert((y as int * width as int + (x - 1) as int) * 256 + 256 == (y as int * width
                    as int + x as int) * 256) by (nonlinear_arith);
            }
        }
        y = y + 1;
        proof {
            assert(((y - 1) as int * width as int + width as int) * 256 == y as int * width as int
                * 256) by (nonlinear_arith);
        }
    }
    proof {
        assert(cache@.len() == cache_len(width as int, height as int)) by (nonlinear_arith)
            requires
                cache@.len() == height as int * width as int * 256,
    ;
    }
    cache
}

/// The block-pattern characterization pins every bit, so a cache entry
/// that satisfies it for a key is bit for bit the word a fresh calculator
/// call yields for that key: the cache is a materialized memoization,
/// never an approximation.
pub proof fn lemma_block_pattern_unique(t: NoiseTexture, v: u8, x: int, y: int, p1: u16, p2: u16)
    requires
        is_block_pattern(t, v, x, y, p1),
        is_block_pattern(t, v, x, y, p2),
    ensures
        p1 == p2,
{
    crate::pattern::lemma_bit16_ext(p1, p2);
}

/// A brighter source pixel never switches a sub-pixel off: under one
/// policy, the pattern of the higher intensity keeps every set bit of the
/// pattern of the lower one, so it has at least as many bright sub-pixels.
pub proof fn lemma_pattern_monotone(
    t: NoiseTexture,
    v1: u8,
    v2: u8,
    brighten: bool,
    x: int,
    y: int,
    p1: u16,
    p2: u16,
)
    requires
        v1 <= v2,
        is_block_pattern(t, effective_intensity(v1, brighten), x, y, p1),
        is_block_pattern(t, effective_intensity(v2, brighten), x, y, p2),
    ensures
        forall|i: u16| i < 16 ==> (bit16(p1, i) ==> bit16(p2, i)),
        count_bits16(p1) <= count_bits16(p2),
{
    assert(effective_intensity(v1, brighten) <= effective_intensity(v2, brighten));
    assert(forall|i: u16| i < 16 ==> (bit16(p1, i) ==> bit16(p2, i)));
    lemma_count_bits16_monotone(p1, p2);
}

/// Total number of set bits over the first `k` blocks of the grid in
/// row-major order, at one uniform source intensity `v`, read from a
/// cache laid out by [`cache_index`].
pub open spec fn grid_bit_sum(cache: Seq<u16>, v: int, width: int, k: int) -> nat
    recommends
        width > 0,
    decreases k,
{
    if k <= 0 {
        0
    } else {
        grid_bit_sum(cache, v, width, k - 1) + count_bits16(
            cache[cache_index((k - 1) % width, (k - 1) / width, v, width)],
        )
    }
}

/// Brighter input yields a lighter output in expectation over the grid:
/// in a cache that is faithful to the calculator, raising the uniform
/// source intensity never lowers the total (hence the average) set-bit
/// count over the first `k` blocks — over the whole grid for
/// `k == width * height`.
pub proof fn lemma_grid_bit_sum_monotone(
    t: NoiseTexture,
    cache: Seq<u16>,
    v1: u8,
    v2: u8,
    brighten: bool,
    width: int,
    height: int,
    k: int,
)
    requires
        v1 <= v2,
        width > 0,
        0 <= k <= width * height,
        forall|x: int, y: int, v: int|
            0 <= x < width && 0 <= y < height && 0 <= v < 256 ==> is_block_pattern(
                t,
                effective_intensity(v as u8, brighten),
                x,
                y,
                #[trigger] cache[cache_index(x, y, v, width)],
            ),
    ensures
        grid_bit_sum(cache, v1 as int, width, k) <= grid_bit_sum(cache, v2 as int, width, k),
    decreases k,
{
    if k > 0 {
        lemma_grid_bit_sum_monotone(t, cache, v1, v2, brighten, width, height, k - 1);
        let x = (k - 1) % width;
        let y = (k - 1) / width;
        assert(0 <= x < width && 0 <= y < height) by (nonlinear_arith)
            requires
                width > 0,
                0 <= k - 1,
                k - 1 < width * height,
                x == (k - 1) % width,
                y == (k - 1) / width,
        ;
        let p1 = cache[cache_index(x, y, v1 as int, width)];
        let p2 = cache[cache_index(x, y, v2 as int, width)];
        assert(is_block_pattern(t, effective_intensity(v1, brighten), x, y, p1));
        assert(is_block_pattern(t, effective_intensity(v2, brighten), x, y, p2));
        lemma_pattern_monotone(t, v1, v2, brighten, x, y, p1, p2);
    }
}

} // verus!
