//! The runtime ditherer.
//!
//! Owns the prebuilt cache for a fixed block grid and renders grayscale
//! frames by lookup and bit expansion alone: for each source pixel it
//! fetches the cached pattern for its intensity and block coordinate and
//! distributes the 16 bits over the 4x4 destination region, one 0x00/0xFF
//! byte per bit.  No threshold is ever recomputed here.

use vstd::prelude::*;

use crate::cache_store::u16_from_le_bytes;
use crate::calculator::cache_index;
use crate::calculator::cache_len;
use crate::calculator::lemma_cache_index_injective;
use crate::pattern::bit16;

verus! {

/// Flat position of destination sub-pixel `(dx, dy)` of block `(x, y)` in
/// a row-major output buffer that is `4 * width` pixels wide.
pub open spec fn out_index(x: int, y: int, dx: int, dy: int, width: int) -> int {
    (4 * y + dy) * (4 * width) + 4 * x + dx
}

/// Every destination sub-pixel of an in-range block lands inside the
/// output buffer, and distinct sub-pixels land on distinct positions.
proof fn lemma_out_index_distinct(
    x1: int,
    y1: int,
    dx1: int,
    dy1: int,
    x2: int,
    y2: int,
    dx2: int,
    dy2: int,
    width: int,
    height: int,
)
    requires
        0 <= x1 < width,
        0 <= y1 < height,
        0 <= dx1 < 4,
        0 <= dy1 < 4,
        0 <= x2 < width,
        0 <= y2 < height,
        0 <= dx2 < 4,
        0 <= dy2 < 4,
    ensures
        0 <= out_index(x1, y1, dx1, dy1, width) < 16 * width * height,
        (x1 != x2 || y1 != y2 || dx1 != dx2 || dy1 != dy2) ==> out_index(x1, y1, dx1, dy1, width)
            != out_index(x2, y2, dx2, dy2, width),
{
    assert(0 <= (4 * y1 + dy1) * (4 * width) + 4 * x1 + dx1 < 16 * width * height)
        by (nonlinear_arith)
        requires
            0 <= x1 < width,
            0 <= y1 < height,
            0 <= dx1 < 4,
            0 <= dy1 < 4,
    ;
    assert((x1 != x2 || y1 != y2 || dx1 != dx2 || dy1 != dy2) ==> (4 * y1 + dy1) * (4 * width) + 4
        * x1 + dx1 != (4 * y2 + dy2) * (4 * width) + 4 * x2 + dx2) by (nonlinear_arith)
        requires
            0 <= x1 < width,
            0 <= y1 < height,
            0 <= dx1 < 4,
            0 <= dy1 < 4,
            0 <= x2 < width,
            0 <= y2 < height,
            0 <= dx2 < 4,
            0 <= dy2 < 4,
    ;
}

/// A runtime ditherer for a fixed block grid: each source pixel of a
/// `width * height` frame expands into a 4x4 destination block through
/// the precomputed pattern table.
pub struct CachedDither2XTo4X {
    pub dither_cache: Vec<u16>,
    pub width: u32,
    pub height: u32,
}

impl CachedDither2XTo4X {
    /// The table covers every reachable key of the grid.
    pub open spec fn wf(self) -> bool {
        self.dither_cache@.len() == cache_len(self.width as int, self.height as int)
    }

    /// Number of cache entries for a grid (one per block coordinate and
    /// intensity; matches the builder).
    pub fn calc_dither_cache_len(width: u32, height: u32) -> (r: usize)
        requires
            cache_len(width as int, height as int) <= usize::MAX,
        ensures
            r == cache_len(width as int, height as int),
    {
        crate::calculator::calc_dither_cache_len(width, height)
    }

    /// Builds a ditherer from the raw entry bytes of an artifact (the
    /// little-endian entries, version byte already stripped and checked).
    pub fn new(raw_dither_cache: Vec<u8>, width: u32, height: u32) -> (r: Self)
        requires
            raw_dither_cache@.len() % 2 == 0,
            raw_dither_cache@.len() == 2 * cache_len(width as int, height as int),
        ensures
            r.wf(),
            r.width == width,
            r.height == height,
            forall|i: int|
                0 <= i < r.dither_cache@.len() ==> r.dither_cache@[i] == u16_from_le_bytes(
                    raw_dither_cache@[2 * i],
                    raw_dither_cache@[2 * i + 1],
                ),
    {
        let entries = crate::cache_store::convert_vec_u8_to_vec_u16(raw_dither_cache);
        CachedDither2XTo4X { dither_cache: entries, width, height }
    }

    /// Builds a ditherer from already-reassembled entries: a cache that
    /// was just built, or one that a load validated.
    pub fn from_entries(entries: Vec<u16>, width: u32, height: u32) -> (r: Self)
        requires
            entries@.len() == cache_len(width as int, height as int),
        ensures
            r.wf(),
            r.width == width,
            r.height == height,
            r.dither_cache@ == entries@,
    {
        CachedDither2XTo4X { dither_cache: entries, width, height }
    }

    /// Looks up the precomputed pattern for one source pixel: the cache
    /// entry for its intensity at its block coordinate.
    pub fn get_dithered_pixels_4x4(&self, intensity: u8, x: u32, y: u32) -> (r: u16)
        requires
            self.wf(),
            x < self.width,
            y < self.height,
        ensures
            r == self.dither_cache@[cache_index(
                x as int,
                y as int,
                intensity as int,
                self.width as int,
            )],
    {
        let n = self.dither_cache.len();
        proof {
            lemma_cache_index_injective(
                x as int,
                y as int,
                intensity as int,
                x as int,
                y as int,
                intensity as int,
                self.width as int,
                self.height as int,
            );
            lemma_cache_index_injective(
                x as int,
                y as int,
                255,
                x as int,
                y as int,
                255,
                self.width as int,
                self.height as int,
            );
        }
        let idx = crate::calculator::calc_dither_cache_index(intensity, x, y, self.width);
        self.dither_cache[idx]
    }

    /// Renders one grayscale frame: for every source pixel, the cached
    /// pattern of its intensity and block coordinate is expanded into the
    /// 4x4 destination region at `(x * 4, y * 4)`, writing 0xFF for a set
    /// bit and 0x00 for a clear one.
    pub fn dither_image(&self, gray: &Vec<u8>) -> (out: Vec<u8>)
        requires
            self.wf(),
            gray@.len() == self.width as int * self.height as int,
            16 * self.width as int * self.height as int <= usize::MAX,
        ensures
            out@.len() == 16 * self.width as int * self.height as int,
            forall|x: int, y: int, dx: int, dy: int|
                0 <= x < self.width && 0 <= y < self.height && 0 <= dx < 4 && 0 <= dy < 4
                    ==> #[trigger] out@[out_index(x, y, dx, dy, self.width as int)] == (if bit16(
                    self.dither_cache@[cache_index(
                        x as int,
                        y as int,
                        gray@[y * self.width as int + x] as int,
                        self.width as int,
                    )],
                    (4 * dy + dx) as u16,
                ) {
                    255u8
                } else {
                    0u8
                }),
    {
        let width = self.width;
        let height = self.height;
        proof {
            assert(width as int * height as int >= 0 && width as int * height as int <= 16 * (width
                as int) * (height as int) && (width as int * height as int) * 16 == 16 * (width
                as int) * (height as int)) by (nonlinear_arith);
        }
        let total: usize = (width as usize) * (height as usize) * 16;
        let mut out: Vec<u8> = vec![0u8; total];
        let mut y: u32 = 0;
        while y < height
            invariant
                y <= height,
                self.wf(),
                width == self.width,
                height == self.height,
                gray@.len() == width as int * height as int,
                16 * width as int * height as int <= usize::MAX,
                out@.len() == 16 * width as int * height as int,
                forall|xx: int, yy: int, ddx: int, ddy: int|
                    0 <= xx < width && 0 <= yy < y && 0 <= ddx < 4 && 0 <= ddy < 4
                        ==> #[trigger] out@[out_index(xx, yy, ddx, ddy, width as int)] == (
                    if bit16(
                        self.dither_cache@[cache_index(
                            xx,
                            yy,
                            gray@[yy * width as int + xx] as int,
                            width as int,
                        )],
                        (4 * ddy + ddx) as u16,
                    ) {
                        255u8
                    } else {
                        0u8
                    }),
            decreases height - y,
        {
            let mut x: u32 = 0;
            while x < width
                invariant
                    y < height,
                    x <= width,
                    self.wf(),
                    width == self.width,
                    height == self.height,
                    gray@.len() == width as int * height as int,
                    16 * width as int * height as int <= usize::MAX,
                    out@.len() == 16 * width as int * height as int,
                    forall|xx: int, yy: int, ddx: int, ddy: int|
                        0 <= xx < width && 0 <= yy < y && 0 <= ddx < 4 && 0 <= ddy < 4
                            ==> #[trigger] out@[out_index(xx, yy, ddx, ddy, width as int)] == (
                        if bit16(
                            self.dither_cache@[cache_index(
                                xx,
                                yy,
                                gray@[yy * width as int + xx] as int,
                                width as int,
                            )],
                            (4 * ddy + ddx) as u16,
                        ) {
                            255u8
                        } else {
                            0u8
                        }),
                    forall|xx: int, ddx: int, ddy: int|
                        0 <= xx < x && 0 <= ddx < 4 && 0 <= ddy < 4
                            ==> #[trigger] out@[out_index(xx, y as int, ddx, ddy, width as int)]
                            == (if bit16(
                            self.dither_cache@[cache_index(
                                xx,
                                y as int,
                                gray@[y as int * width as int + xx] as int,
                                width as int,
                            )],
                            (4 * ddy + ddx) as u16,
                        ) {
                            255u8
                        } else {
                            0u8
                        }),
                decreases width - x,
            {
                proof {
                    assert(0 <= (y as int * width as int + x as int) && (y as int * width as int
                        + x as int) < width as int * height as int && width as int * height as int
                        <= 16 * (width as int) * (height as int)) by (nonlinear_arith)
                        requires
                            0 <= x < width,
                            0 <= y < height,
                    ;
                }
                let gi: usize = (y as usize) * (width as usize) + (x as usize);
                let v = gray[gi];
                let res = self.get_dithered_pixels_4x4(v, x, y);
                let mut k: u16 = 0;
                while k < 16
                    invariant
                        k <= 16,
                        y < height,
                        x < width,
                        self.wf(),
                        width == self.width,
                        height == self.height,
                        gray@.len() == width as int * height as int,
                        16 * width as int * height as int <= usize::MAX,
                        out@.len() == 16 * width as int * height as int,
                        v == gray@[y as int * width as int + x as int],
                        res == self.dither_cache@[cache_index(
                            x as int,
                            y as int,
                            v as int,
                            width as int,
                        )],
                        forall|xx: int, yy: int, ddx: int, ddy: int|
                            0 <= xx < width && 0 <= yy < y && 0 <= ddx < 4 && 0 <= ddy < 4
                                ==> #[trigger] out@[out_index(xx, yy, ddx, ddy, width as int)] == (
                            if bit16(
                                self.dither_cache@[cache_index(
                                    xx,
                                    yy,
                                    gray@[yy * width as int + xx] as int,
                                    width as int,
                                )],
                                (4 * ddy + ddx) as u16,
                            ) {
                                255u8
                            } else {
                                0u8
                            }),
                        forall|xx: int, ddx: int, ddy: int|
                            0 <= xx < x && 0 <= ddx < 4 && 0 <= ddy < 4
                                ==> #[trigger] out@[out_index(xx, y as int, ddx, ddy, width as int)]
                                == (if bit16(
                                self.dither_cache@[cache_index(
                                    xx,
                                    y as int,
                                    gray@[y as int * width as int + xx] as int,
                                    width as int,
                                )],
                                (4 * ddy + ddx) as u16,
                            ) {
                                255u8
                            } else {
                                0u8
                            }),
                        forall|kk: u16|
                            kk < k ==> #[trigger] out@[out_index(
                                x as int,
                                y as int,
                                (kk % 4) as int,
                                (kk / 4) as int,
                                width as int,
                            )] == (if bit16(res, kk) {
                                255u8
                            } else {
                                0u8
                            }),
                    decreases 16 - k,
                {
                    let dx = k % 4;
                    let dy = k / 4;
                    proof {
                        lemma_out_index_distinct(
                            x as int,
                            y as int,
                            dx as int,
                            dy as int,
                            x as int,
                            y as int,
                            dx as int,
                            dy as int,
                            width as int,
                            height as int,
                        );
                        assert((4 * (y as int) + dy as int) * (4 * (width as int)) >= 0 && 4 * (y
                            as int) + dy as int <= 16 * width as int * height as int && 4 * (width
                            as int) <= 16 * width as int * height as int) by (nonlinear_arith)
                            requires
                                0 <= y < height,
                                0 <= dy < 4,
                                width >= 1,
                                height >= 1,
                        ;
                    }
                    let oy: usize = 4 * (y as usize) + (dy as usize);
                    let ox: usize = 4 * (x as usize) + (dx as usize);
                    let idx: usize = oy * (4 * (width as usize)) + ox;
                    let bit_set = (res >> k) & 1 == 1;
                    let ghost old_out = out@;
                    out.set(idx, if bit_set { 255u8 } else { 0u8 });
                    proof {
                        assert(idx == out_index(x as int, y as int, dx as int, dy as int, width as int));
                        assert(bit_set == bit16(res, k));
                        assert forall|xx: int, yy: int, ddx: int, ddy: int|
                            0 <= xx < width && 0 <= yy < y && 0 <= ddx < 4 && 0 <= ddy < 4 implies #[trigger] out@[out_index(
                            xx,
                            yy,
                            ddx,
                            ddy,
                            width as int,
                        )] == old_out[out_index(xx, yy, ddx, ddy, width as int)] by {
                            lemma_out_index_distinct(
                                xx,
                                yy,
                                ddx,
                                ddy,
                                x as int,
                                y as int,
                                dx as int,
                                dy as int,
                                width as int,
                                height as int,
                            );
                        }
                        assert forall|xx: int, ddx: int, ddy: int|
                            0 <= xx < x && 0 <= ddx < 4 && 0 <= ddy < 4 implies #[trigger] out@[out_index(
                            xx,
                            y as int,
                            ddx,
                            ddy,
                            width as int,
                        )] == old_out[out_index(xx, y as int, ddx, ddy, width as int)] by {
                            lemma_out_index_distinct(
                                xx,
                                y as int,
                                ddx,
                                ddy,
                                x as int,
                                y as int,
                                dx as int,
                                dy as int,
                                width as int,
                                height as int,
                            );
                        }
                        assert forall|kk: u16| kk < k implies #[trigger] out@[out_index(
                            x as int,
                            y as int,
                            (kk % 4) as int,
                            (kk / 4) as int,
                            width as int,
                        )] == old_out[out_index(
                            x as int,
                            y as int,
                            (kk % 4) as int,
                            (kk / 4) as int,
                            width as int,
                        )] by {
                            assert((kk % 4) as int != dx as int || (kk / 4) as int != dy as int);
                            lemma_out_index_distinct(
                                x as int,
                                y as int,
                                (kk % 4) as int,
                                (kk / 4) as int,
                                x as int,
                                y as int,
                                dx as int,
                                dy as int,
                                width as int,
                                height as int,
                            );
                        }
                    }
                    k = k + 1;
                }
                proof {
                    assert forall|ddx: int, ddy: int|
                        0 <= ddx < 4 && 0 <= ddy < 4 implies #[trigger] out@[out_index(
                        x as int,
                        y as int,
                        ddx,
                        ddy,
                        width as int,
                    )] == (if bit16(
                        self.dither_cache@[cache_index(
                            x as int,
                            y as int,
                            gray@[y as int * width as int + x as int] as int,
                            width as int,
                        )],
                        (4 * ddy + ddx) as u16,
                    ) {
                        255u8
                    } else {
                        0u8
                    }) by {
                        let kk: u16 = (4 * ddy + ddx) as u16;
                        assert((kk % 4) as int == ddx && (kk / 4) as int == ddy);
                        assert(out@[out_index(
                            x as int,
                            y as int,
                            (kk % 4) as int,
                            (kk / 4) as int,
                            width as int,
                        )] == (if bit16(res, kk) {
                            255u8
                        } else {
                            0u8
                        }));
                    }
                }
                x = x + 1;
            }
            y = y + 1;
        }
        out
    }
}

} // verus!
