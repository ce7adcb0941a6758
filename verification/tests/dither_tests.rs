use doomarkable::calculator::calc_dithered_pixels_4x4;
use doomarkable::calculator::calc_full_cache;
use doomarkable::dither::CachedDither2XTo4X;
use doomarkable::noise::NoiseTexture;

fn small_noise() -> NoiseTexture {
    NoiseTexture::new(2, 2, vec![10, 200, 50, 150]).unwrap()
}

#[test]
fn cache_len_method_counts_every_key() {
    assert_eq!(CachedDither2XTo4X::calc_dither_cache_len(320, 240), 320 * 240 * 256);
}

#[test]
fn new_reassembles_little_endian_entries() {
    // A 1x1 grid: 256 entries, two raw bytes each.
    let mut raw = vec![0u8; 512];
    raw[2 * 7] = 0x34;
    raw[2 * 7 + 1] = 0x12;
    let ditherer = CachedDither2XTo4X::new(raw, 1, 1);
    assert_eq!(ditherer.get_dithered_pixels_4x4(7, 0, 0), 0x1234);
    assert_eq!(ditherer.get_dithered_pixels_4x4(8, 0, 0), 0x0000);
}

#[test]
fn lookup_reads_the_built_table() {
    let noise = small_noise();
    let built = calc_full_cache(&noise, 3, 2, false);
    let ditherer = CachedDither2XTo4X::from_entries(built.clone(), 3, 2);
    for y in 0..2u32 {
        for x in 0..3u32 {
            for v in [0u8, 100, 255] {
                let idx = ((y * 3 + x) * 256 + v as u32) as usize;
                assert_eq!(ditherer.get_dithered_pixels_4x4(v, x, y), built[idx]);
            }
        }
    }
}

#[test]
fn dither_expands_bits_row_major() {
    // A single block whose pattern is chosen by the source intensity.
    let pattern: u16 = 0b0011_0000_1111_0011;
    let mut entries = vec![0u16; 256];
    entries[5] = pattern;
    let ditherer = CachedDither2XTo4X::from_entries(entries, 1, 1);
    let out = ditherer.dither_image(&vec![5u8]);
    assert_eq!(out.len(), 16);
    for k in 0..16 {
        let expected = if (pattern >> k) & 1 == 1 { 255 } else { 0 };
        assert_eq!(out[k], expected, "sub-pixel {k}");
    }
}

#[test]
fn dither_places_blocks_on_the_output_grid() {
    // Two blocks side by side: block (0,0) lights only its top-left
    // sub-pixel, block (1,0) only its bottom-right one.
    let mut entries = vec![0u16; 2 * 256];
    entries[7] = 0x0001;
    entries[256 + 9] = 0x8000;
    let ditherer = CachedDither2XTo4X::from_entries(entries, 2, 1);
    let out = ditherer.dither_image(&vec![7u8, 9u8]);
    assert_eq!(out.len(), 32);
    for (i, &byte) in out.iter().enumerate() {
        let expected = if i == 0 || i == 3 * 8 + 4 + 3 { 255 } else { 0 };
        assert_eq!(byte, expected, "output position {i}");
    }
}

#[test]
fn dither_black_frame_is_all_zero() {
    let noise = small_noise();
    let width = 4u32;
    let height = 3u32;
    let built = calc_full_cache(&noise, width, height, false);
    let ditherer = CachedDither2XTo4X::from_entries(built, width, height);
    let frame = vec![0u8; (width * height) as usize];
    let out = ditherer.dither_image(&frame);
    assert_eq!(out.len(), (16 * width * height) as usize);
    assert!(out.iter().all(|&b| b == 0));
}

#[test]
fn dither_white_frame_is_all_set() {
    // Every sample of this texture is below 255, so a uniform white frame
    // switches every sub-pixel on.
    let noise = small_noise();
    let width = 4u32;
    let height = 3u32;
    let built = calc_full_cache(&noise, width, height, false);
    let ditherer = CachedDither2XTo4X::from_entries(built, width, height);
    let frame = vec![255u8; (width * height) as usize];
    let out = ditherer.dither_image(&frame);
    assert_eq!(out.len(), (16 * width * height) as usize);
    assert!(out.iter().all(|&b| b == 255));
}

#[test]
fn dither_matches_direct_computation_per_pixel() {
    let noise = small_noise();
    let width = 3u32;
    let height = 2u32;
    let built = calc_full_cache(&noise, width, height, false);
    let ditherer = CachedDither2XTo4X::from_entries(built, width, height);
    let frame: Vec<u8> = vec![0, 60, 120, 180, 240, 255];
    let out = ditherer.dither_image(&frame);
    for y in 0..height {
        for x in 0..width {
            let v = frame[(y * width + x) as usize];
            let pattern = calc_dithered_pixels_4x4(&noise, v, x, y, false);
            for dy in 0..4u32 {
                for dx in 0..4u32 {
                    let k = dy * 4 + dx;
                    let expected = if (pattern >> k) & 1 == 1 { 255 } else { 0 };
                    let idx = ((4 * y + dy) * (4 * width) + 4 * x + dx) as usize;
                    assert_eq!(out[idx], expected);
                }
            }
        }
    }
}
