use doomarkable::calculator::brighten_intensity;
use doomarkable::calculator::calc_dither_cache_index;
use doomarkable::calculator::calc_dither_cache_len;
use doomarkable::calculator::calc_dithered_pixels_4x4;
use doomarkable::calculator::calc_full_cache;
use doomarkable::calculator::is_bright;
use doomarkable::noise::NoiseTexture;
use doomarkable::noise::wrap;

fn small_noise() -> NoiseTexture {
    NoiseTexture::new(2, 2, vec![10, 200, 50, 150]).unwrap()
}

#[test]
fn wrap_folds_into_range() {
    assert_eq!(wrap(4, 0), 0);
    assert_eq!(wrap(4, 3), 3);
    assert_eq!(wrap(4, 4), 0);
    assert_eq!(wrap(4, 9), 1);
    assert_eq!(wrap(1, 12345), 0);
}

#[test]
fn is_bright_compares_strictly() {
    assert!(is_bright(100, 101));
    assert!(!is_bright(100, 100));
    assert!(!is_bright(100, 99));
    assert!(!is_bright(255, 255));
    assert!(is_bright(0, 1));
}

#[test]
fn brighten_scales_three_halves_and_clamps() {
    assert_eq!(brighten_intensity(0), 0);
    assert_eq!(brighten_intensity(1), 1);
    assert_eq!(brighten_intensity(2), 3);
    assert_eq!(brighten_intensity(100), 150);
    assert_eq!(brighten_intensity(170), 255);
    assert_eq!(brighten_intensity(171), 255);
    assert_eq!(brighten_intensity(200), 255);
    assert_eq!(brighten_intensity(255), 255);
}

#[test]
fn compute_zero_intensity_yields_empty_pattern() {
    let noise = small_noise();
    assert_eq!(calc_dithered_pixels_4x4(&noise, 0, 0, 0, false), 0x0000);
}

#[test]
fn compute_full_intensity_sets_all_bits() {
    // Every wrapped sample of this texture is at most 200, so intensity
    // 255 exceeds all of them and every one of the 16 bits is set.
    let noise = small_noise();
    assert_eq!(calc_dithered_pixels_4x4(&noise, 255, 0, 0, false), 0xFFFF);
}

#[test]
fn compute_mid_intensity_follows_tiled_thresholds() {
    // The 2x2 texture [10, 200, 50, 150] tiles the 4x4 block; intensity
    // 100 exceeds 10 and 50 (the even columns) and not 200 or 150, so
    // exactly the even-column bits of every row are set.
    let noise = small_noise();
    assert_eq!(calc_dithered_pixels_4x4(&noise, 100, 0, 0, false), 0x5555);
}

#[test]
fn compute_bit_order_is_row_major() {
    // Only the sample under sub-pixel (x_offset, y_offset) = (1, 2) is
    // low enough to switch on; that is bit 2 * 4 + 1 = 9.
    let mut samples = vec![255u8; 16];
    samples[2 * 4 + 1] = 0;
    let noise = NoiseTexture::new(4, 4, samples).unwrap();
    assert_eq!(calc_dithered_pixels_4x4(&noise, 1, 0, 0, false), 1 << 9);
}

#[test]
fn compute_wraps_block_coordinates() {
    // Block (3, 5) of a 2x2 texture samples the same wrapped thresholds
    // as block (0, 0): patterns agree for every intensity.
    let noise = small_noise();
    for v in [0u8, 37, 100, 180, 255] {
        assert_eq!(
            calc_dithered_pixels_4x4(&noise, v, 3, 5, false),
            calc_dithered_pixels_4x4(&noise, v, 0, 0, false),
        );
    }
}

#[test]
fn compute_brightened_matches_prescaled_intensity() {
    let noise = small_noise();
    for v in [0u8, 50, 100, 170, 200, 255] {
        assert_eq!(
            calc_dithered_pixels_4x4(&noise, v, 0, 0, true),
            calc_dithered_pixels_4x4(&noise, brighten_intensity(v), 0, 0, false),
        );
    }
}

#[test]
fn cache_len_counts_every_key() {
    assert_eq!(calc_dither_cache_len(320, 240), 320 * 240 * 256);
    assert_eq!(calc_dither_cache_len(1, 1), 256);
}

#[test]
fn index_formula_row_major_layout() {
    assert_eq!(calc_dither_cache_index(0, 0, 0, 320), 0);
    assert_eq!(calc_dither_cache_index(7, 3, 2, 320), (2 * 320 + 3) * 256 + 7);
    assert_eq!(calc_dither_cache_index(255, 319, 239, 320), 320 * 240 * 256 - 1);
}

#[test]
fn index_formula_distinct_triples_stay_distinct() {
    let width = 320u32;
    let height = 240u32;
    let len = calc_dither_cache_len(width, height);
    let triples = [(3u32, 2u32, 7u8), (2, 3, 7), (3, 2, 8), (0, 0, 0), (319, 239, 255)];
    for (i, &(x1, y1, v1)) in triples.iter().enumerate() {
        let idx1 = calc_dither_cache_index(v1, x1, y1, width);
        assert!(idx1 < len);
        for &(x2, y2, v2) in triples.iter().skip(i + 1) {
            let idx2 = calc_dither_cache_index(v2, x2, y2, width);
            assert_ne!(idx1, idx2);
        }
    }
}

#[test]
fn full_cache_matches_fresh_computation() {
    // Cache faithfulness: every entry equals a fresh direct call of the
    // calculator with the same key.
    let noise = small_noise();
    let width = 3u32;
    let height = 2u32;
    for brighten in [false, true] {
        let cache = calc_full_cache(&noise, width, height, brighten);
        assert_eq!(cache.len(), (width * height * 256) as usize);
        for y in 0..height {
            for x in 0..width {
                for v in 0..=255u8 {
                    let idx = calc_dither_cache_index(v, x, y, width);
                    assert_eq!(cache[idx], calc_dithered_pixels_4x4(&noise, v, x, y, brighten));
                }
            }
        }
    }
}

#[test]
fn higher_intensity_never_loses_bits_per_block() {
    let noise = small_noise();
    for x in 0..4u32 {
        for y in 0..3u32 {
            let mut prev = calc_dithered_pixels_4x4(&noise, 0, x, y, false);
            for v in 1..=255u8 {
                let cur = calc_dithered_pixels_4x4(&noise, v, x, y, false);
                // Every set bit survives, so the count never drops.
                assert_eq!(cur & prev, prev);
                assert!(cur.count_ones() >= prev.count_ones());
                prev = cur;
            }
        }
    }
}

#[test]
fn average_bit_count_brightest_at_least_darkest() {
    let noise = small_noise();
    let width = 4u32;
    let height = 3u32;
    let mut total_dark = 0u32;
    let mut total_bright = 0u32;
    for y in 0..height {
        for x in 0..width {
            total_dark += calc_dithered_pixels_4x4(&noise, 0, x, y, false).count_ones();
            total_bright += calc_dithered_pixels_4x4(&noise, 255, x, y, false).count_ones();
        }
    }
    assert!(total_bright >= total_dark);
    assert_eq!(total_dark, 0);
    assert_eq!(total_bright, 16 * width * height);
}
