use doomarkable::cache_store::convert_vec_u8_to_vec_u16;
use doomarkable::cache_store::load_cache;
use doomarkable::cache_store::parse_cache_artifact;
use doomarkable::cache_store::save_cache;
use doomarkable::cache_store::serialize_cache;
use doomarkable::calculator::calc_full_cache;
use doomarkable::noise::NoiseTexture;

const VERSION: u8 = 1;

fn small_noise() -> NoiseTexture {
    NoiseTexture::new(2, 2, vec![10, 200, 50, 150]).unwrap()
}

#[test]
fn convert_reads_little_endian_pairs() {
    let raw = vec![0x34, 0x12, 0xFF, 0x00, 0x00, 0x80];
    assert_eq!(convert_vec_u8_to_vec_u16(raw), vec![0x1234, 0x00FF, 0x8000]);
    assert_eq!(convert_vec_u8_to_vec_u16(vec![]), Vec::<u16>::new());
}

#[test]
fn serialize_writes_version_then_little_endian_entries() {
    let entries = vec![0x1234u16, 0xABCD, 0x0001];
    let bytes = serialize_cache(7, &entries);
    assert_eq!(bytes, vec![7, 0x34, 0x12, 0xCD, 0xAB, 0x01, 0x00]);
}

#[test]
fn parse_restores_serialized_entries() {
    // One 1x1 grid: 256 entries.
    let entries: Vec<u16> = (0..256u32).map(|i| (i * 17) as u16).collect();
    let bytes = serialize_cache(VERSION, &entries);
    let parsed = parse_cache_artifact(&bytes, VERSION, 1, 1).unwrap();
    assert_eq!(parsed, entries);
}

#[test]
fn parse_rejects_version_mismatch() {
    let entries: Vec<u16> = vec![0; 256];
    let bytes = serialize_cache(VERSION, &entries);
    assert!(parse_cache_artifact(&bytes, VERSION + 1, 1, 1).is_none());
    assert!(parse_cache_artifact(&bytes, 0, 1, 1).is_none());
}

#[test]
fn parse_rejects_wrong_length() {
    let entries: Vec<u16> = vec![0; 256];
    let mut bytes = serialize_cache(VERSION, &entries);
    // Truncated artifact.
    bytes.pop();
    assert!(parse_cache_artifact(&bytes, VERSION, 1, 1).is_none());
    // Oversized artifact.
    let mut bytes = serialize_cache(VERSION, &entries);
    bytes.push(0);
    assert!(parse_cache_artifact(&bytes, VERSION, 1, 1).is_none());
    // Grid mismatch: the same bytes under a 2x1 grid.
    let bytes = serialize_cache(VERSION, &entries);
    assert!(parse_cache_artifact(&bytes, VERSION, 2, 1).is_none());
    // Empty input.
    assert!(parse_cache_artifact(&Vec::new(), VERSION, 1, 1).is_none());
}

#[test]
fn serialize_parse_round_trip_large_grid() {
    let width = 160u32;
    let height = 120u32;
    let n = (width * height * 256) as usize;
    let entries: Vec<u16> = (0..n).map(|i| (i % 65536) as u16).collect();
    let bytes = serialize_cache(VERSION, &entries);
    assert_eq!(bytes.len(), 1 + 2 * n);
    let parsed = parse_cache_artifact(&bytes, VERSION, width, height).unwrap();
    assert_eq!(parsed, entries);
}

#[test]
fn save_load_round_trip_built_cache() {
    // The full pipeline: build, save compressed, load back bit for bit.
    let noise = small_noise();
    let width = 16u32;
    let height = 12u32;
    let built = calc_full_cache(&noise, width, height, false);
    let artifact = save_cache(VERSION, &built).unwrap();
    let loaded = load_cache(&artifact, VERSION, width, height).unwrap();
    assert_eq!(loaded, built);
}

#[test]
fn load_rejects_version_mismatch() {
    let noise = small_noise();
    let built = calc_full_cache(&noise, 4, 3, false);
    let artifact = save_cache(VERSION, &built).unwrap();
    assert!(load_cache(&artifact, VERSION + 1, 4, 3).is_none());
}

#[test]
fn load_rejects_grid_size_mismatch() {
    let noise = small_noise();
    let built = calc_full_cache(&noise, 4, 3, false);
    let artifact = save_cache(VERSION, &built).unwrap();
    assert!(load_cache(&artifact, VERSION, 4, 4).is_none());
    assert!(load_cache(&artifact, VERSION, 2, 3).is_none());
}

#[test]
fn load_rejects_uncompressed_artifact() {
    // The persisted artifact is a compressed stream; raw serialized bytes
    // are not one and must load as "no cache", not as data.
    let entries: Vec<u16> = vec![0xABCD; 256];
    let bytes = serialize_cache(VERSION, &entries);
    assert!(load_cache(&bytes, VERSION, 1, 1).is_none());
}

#[test]
fn load_rejects_garbage() {
    assert!(load_cache(&[], VERSION, 1, 1).is_none());
    assert!(load_cache(&[1, 2, 3, 4, 5], VERSION, 1, 1).is_none());
}

#[test]
fn save_actually_compresses_uniform_cache() {
    // A uniform table must shrink; this fails if the compressor were to
    // hand its input back unchanged.
    let entries: Vec<u16> = vec![0x5555; 64 * 48 * 256];
    let artifact = save_cache(VERSION, &entries).unwrap();
    assert!(artifact.len() < 1 + 2 * entries.len());
}
