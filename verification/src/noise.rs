//! The blue-noise threshold texture that all dithering decisions compare
//! against.  The texture is a fixed grid of 8-bit samples; destination
//! coordinates of any size are folded into it by wrapping both axes, so a
//! small texture tiles the whole plane.

use vstd::prelude::*;

verus! {

/// The product of two `u32` values never exceeds `u64::MAX`.
pub proof fn lemma_u32_mul_fits_u64(a: u32, b: u32)
    ensures
        a as int * b as int <= u64::MAX,
{
    assert(a as int * b as int <= u64::MAX) by (nonlinear_arith)
        requires
            a <= u32::MAX,
            b <= u32::MAX,
    ;
}

/// Remainder that folds a coordinate `n` into `[0, m)` when tiling the
/// texture over the destination plane.
pub fn wrap(m: u32, n: u32) -> (r: u32)
    requires
        m > 0,
    ensures
        r == n % m,
{
    n % m
}

/// An immutable grid of 8-bit threshold samples, `width * height` of them
/// in row-major order, shared read-only by every dithering computation.
pub struct NoiseTexture {
    pub width: u32,
    pub height: u32,
    pub samples: Vec<u8>,
}

impl NoiseTexture {
    /// Both dimensions are positive and the sample buffer holds exactly
    /// one value per grid cell.
    pub open spec fn wf(self) -> bool {
        &&& self.width > 0
        &&& self.height > 0
        &&& self.samples@.len() == self.width as int * self.height as int
    }

    /// The threshold at destination coordinate `(x, y)`, with both axes
    /// wrapped into the texture.
    pub open spec fn noise_at(self, x: int, y: int) -> u8
        recommends
            self.wf(),
            0 <= x,
            0 <= y,
    {
        self.samples@[(y % (self.height as int)) * (self.width as int) + x % (self.width as int)]
    }

    /// Builds a texture from raw samples; rejects empty dimensions and a
    /// buffer whose length does not match them.
    pub fn new(width: u32, height: u32, samples: Vec<u8>) -> (r: Option<NoiseTexture>)
        ensures
            r matches Some(t) ==> t.wf() && t.width == width && t.height == height && t.samples@
                == samples@,
            r is None <==> !(width > 0 && height > 0 && samples@.len() == width as int
                * height as int),
    {
        proof {
            lemma_u32_mul_fits_u64(width, height);
        }
        if width > 0 && height > 0 && samples.len() as u64 == width as u64 * height as u64 {
            Some(NoiseTexture { width, height, samples })
        } else {
            None
        }
    }

    /// The wrapped sample at `(x, y)`.
    pub fn sample(&self, x: u32, y: u32) -> (r: u8)
        requires
            self.wf(),
        ensures
            r == self.noise_at(x as int, y as int),
    {
        let wx = wrap(self.width, x);
        let wy = wrap(self.height, y);
        let n = self.samples.len();
        assert((wy as int) * (self.width as int) + (wx as int) < self.width as int
            * self.height as int) by (nonlinear_arith)
            requires
                wx < self.width,
                wy < self.height,
                self.width > 0,
                self.height > 0,
        ;
        self.samples[(wy as usize) * (self.width as usize) + (wx as usize)]
    }

    /// Decodes an encoded image (the noise asset as shipped, e.g. a PNG)
    /// into a texture: exactly when the bytes decode to a grayscale grid
    /// with positive dimensions that fit in memory, the texture holds
    /// those dimensions and the decoded samples.  Anything else yields
    /// `None`, which the caller treats as a fatal startup condition,
    /// since dithering is undefined without the texture.
    pub fn decode(bytes: &[u8]) -> (r: Option<NoiseTexture>)
        ensures
            r matches Some(t) ==> t.wf(),
            r is Some <==> (gray_decode_of(bytes@) matches Some(d) && d.0 > 0 && d.1 > 0 && (
            d.0 as int) * (d.1 as int) <= usize::MAX as int && d.2.len() >= (d.0 as int) * (
            d.1 as int)),
            r matches Some(t) ==> (gray_decode_of(bytes@) matches Some(d) && t.width == d.0
                && t.height == d.1 && t.samples@ == d.2.take((d.0 as int) * (d.1 as int))),
    {
        match decode_gray_image(bytes) {
            Some((width, height, mut samples)) => {
                proof {
                    lemma_u32_mul_fits_u64(width, height);
                }
                if width > 0 && height > 0 && (width as u64) * (height as u64) <= usize::MAX as u64
                    && samples.len() as u64 >= width as u64 * height as u64 {
                    samples.truncate((width as usize) * (height as usize));
                    NoiseTexture::new(width, height, samples)
                } else {
                    None
                }
            },
            None => None,
        }
    }
}

/// What decoding an encoded image to 8-bit grayscale yields — the
/// dimensions and one sample per pixel — or `None` where the bytes are
/// not a decodable image.  Decoding is a function of the bytes alone.
pub uninterp spec fn gray_decode_of(bytes: Seq<u8>) -> Option<(u32, u32, Seq<u8>)>;

/// Relies on image::load_from_memory and DynamicImage::to_luma8: decodes an
/// encoded image into one 8-bit grayscale sample per pixel, failing exactly
/// on undecodable bytes; `gray_decode_of` names its result.  The returned
/// buffer covers the returned dimensions, the length invariant that
/// image::ImageBuffer maintains.
#[verifier::external_body]
fn decode_gray_image(bytes: &[u8]) -> (r: Option<(u32, u32, Vec<u8>)>)
    ensures
        r matches Some(t) ==> gray_decode_of(bytes@) == Some((t.0, t.1, t.2@)),
        r is None ==> gray_decode_of(bytes@) is None,
        r matches Some(t) ==> t.2@.len() >= t.0 as int * t.1 as int,
{
    match image::load_from_memory(bytes) {
        Ok(img) => {
            let gray = img.to_luma8();
            let (width, height) = gray.dimensions();
            Some((width, height, gray.into_raw()))
        },
        Err(_) => None,
    }
}

} // verus!
