//! The versioned cache artifact.
//!
//! A built cache persists as one version byte followed by every entry as
//! two little-endian bytes, in the same row-major order as
//! [`crate::calculator::cache_index`] — no padding, no per-entry
//! metadata.  The artifact may additionally travel inside a compressed
//! stream; decompression happens before the version and length checks.
//! Loading never trusts a partial artifact: any mismatch yields "no
//! cache" and the caller rebuilds.

use vstd::prelude::*;

use crate::calculator::cache_len;

verus! {

/// The low byte of an entry, as serialized first.
pub open spec fn lo_byte(e: u16) -> u8 {
    (e % 256) as u8
}

/// The high byte of an entry, as serialized second.
pub open spec fn hi_byte(e: u16) -> u8 {
    (e / 256) as u8
}

/// The entry encoded by a little-endian byte pair.
pub open spec fn u16_from_le_bytes(lo: u8, hi: u8) -> u16 {
    (lo + 256 * hi) as u16
}

/// The serialized artifact: one version byte, then each entry as two
/// little-endian bytes.
pub open spec fn artifact_bytes(version: u8, entries: Seq<u16>) -> Seq<u8> {
    Seq::new(
        1 + 2 * entries.len(),
        |i: int|
            if i == 0 {
                version
            } else if (i - 1) % 2 == 0 {
                lo_byte(entries[(i - 1) / 2])
            } else {
                hi_byte(entries[(i - 1) / 2])
            },
    )
}

/// What loading an artifact of `n` expected entries yields: the entries,
/// exactly when the version byte matches and the remaining length is
/// exactly `2 * n`; otherwise no cache.
pub open spec fn parse_artifact(bytes: Seq<u8>, expected_version: u8, n: nat) -> Option<Seq<u16>> {
    if bytes.len() == 1 + 2 * n && bytes[0] == expected_version {
        Some(Seq::new(n, |i: int| u16_from_le_bytes(bytes[1 + 2 * i], bytes[2 + 2 * i])))
    } else {
        None
    }
}

/// Reassembles entries from raw little-endian bytes, two per entry.
pub fn convert_vec_u8_to_vec_u16(vec: Vec<u8>) -> (r: Vec<u16>)
    requires
        vec@.len() % 2 == 0,
    ensures
        r@.len() == vec@.len() / 2,
        forall|i: int|
            0 <= i < r@.len() ==> r@[i] == u16_from_le_bytes(vec@[2 * i], vec@[2 * i + 1]),
{
    let mut out: Vec<u16> = Vec::new();
    let n = vec.len() / 2;
    let mut i: usize = 0;
    while i < n
        invariant
            i <= n,
            n == vec@.len() / 2,
            vec@.len() % 2 == 0,
            vec@.len() <= usize::MAX,
            out@.len() == i,
            forall|j: int|
                0 <= j < i ==> out@[j] == u16_from_le_bytes(vec@[2 * j], vec@[2 * j + 1]),
        decreases n - i,
    {
        let lo = vec[2 * i];
        let hi = vec[2 * i + 1];
        out.push(lo as u16 + 256 * hi as u16);
        i = i + 1;
    }
    out
}

/// Serializes a built cache under a version byte.
pub fn serialize_cache(version: u8, entries: &Vec<u16>) -> (r: Vec<u8>)
    requires
        1 + 2 * entries@.len() <= usize::MAX,
    ensures
        r@ == artifact_bytes(version, entries@),
{
    let mut out: Vec<u8> = Vec::new();
    out.push(version);
    let n = entries.len();
    let mut i: usize = 0;
    while i < n
        invariant
            i <= n,
            n == entries@.len(),
            1 + 2 * entries@.len() <= usize::MAX,
            out@.len() == 1 + 2 * i,
            out@[0] == version,
            forall|j: int|
                0 <= j < i ==> out@[1 + 2 * j] == lo_byte(entries@[j]) && out@[2 + 2 * j]
                    == hi_byte(entries@[j]),
        decreases n - i,
    {
        let e = entries[i];
        out.push((e % 256) as u8);
        out.push((e / 256) as u8);
        i = i + 1;
    }
    proof {
        let target = artifact_bytes(version, entries@);
        assert forall|k: int| 0 <= k < out@.len() implies out@[k] == target[k] by {
            if k > 0 {
                let j = (k - 1) / 2;
                if (k - 1) % 2 == 0 {
                    assert(k == 1 + 2 * j);
                } else {
                    assert(k == 2 + 2 * j);
                }
            }
        }
        assert(out@ =~= target);
    }
    out
}

/// Validates and reads back an artifact for a `width * height` grid:
/// yields the entries exactly when the version byte is the expected one
/// and the byte length matches the grid, and otherwise no cache.
pub fn parse_cache_artifact(
    bytes: &Vec<u8>,
    expected_version: u8,
    width: u32,
    height: u32,
) -> (r: Option<Vec<u16>>)
    requires
        1 + 2 * cache_len(width as int, height as int) <= usize::MAX,
    ensures
        r is Some <==> parse_artifact(
            bytes@,
            expected_version,
            cache_len(width as int, height as int) as nat,
        ) is Some,
        r matches Some(e) ==> parse_artifact(
            bytes@,
            expected_version,
            cache_len(width as int, height as int) as nat,
        ) == Some(e@),
{
    proof {
        assert(cache_len(width as int, height as int) >= 0) by (nonlinear_arith);
    }
    let n = crate::calculator::calc_dither_cache_len(width, height);
    if bytes.len() != 1 + 2 * n {
        return None;
    }
    if bytes[0] != expected_version {
        return None;
    }
    let mut out: Vec<u16> = Vec::new();
    let mut i: usize = 0;
    while i < n
        invariant
            i <= n,
            bytes@.len() == 1 + 2 * n,
            bytes@.len() <= usize::MAX,
            out@.len() == i,
            forall|j: int|
                0 <= j < i ==> out@[j] == u16_from_le_bytes(bytes@[1 + 2 * j], bytes@[2 + 2 * j]),
        decreases n - i,
    {
        let lo = bytes[1 + 2 * i];
        let hi = bytes[2 + 2 * i];
        out.push(lo as u16 + 256 * hi as u16);
        i = i + 1;
    }
    proof {
        let parsed = parse_artifact(
            bytes@,
            expected_version,
            cache_len(width as int, height as int) as nat,
        );
        assert(out@ =~= parsed.unwrap());
    }
    Some(out)
}

/// Loading a serialized artifact under the version it was written with
/// restores the cache bit for bit.
pub proof fn lemma_artifact_round_trip(version: u8, entries: Seq<u16>, n: nat)
    requires
        entries.len() == n,
    ensures
        parse_artifact(artifact_bytes(version, entries), version, n) == Some(entries),
{
    let bytes = artifact_bytes(version, entries);
    let parsed = parse_artifact(bytes, version, n);
    assert forall|i: int| 0 <= i < n implies parsed.unwrap()[i] == entries[i] by {
        assert(bytes[1 + 2 * i] == lo_byte(entries[i]));
        assert(bytes[2 + 2 * i] == hi_byte(entries[i]));
        assert(u16_from_le_bytes(lo_byte(entries[i]), hi_byte(entries[i])) == entries[i]);
    }
    assert(parsed.unwrap() =~= entries);
}

/// Loading under any other version yields no cache, never data.
pub proof fn lemma_artifact_version_mismatch(
    saved_version: u8,
    expected_version: u8,
    entries: Seq<u16>,
    n: nat,
)
    requires
        saved_version != expected_version,
    ensures
        parse_artifact(artifact_bytes(saved_version, entries), expected_version, n) is None,
{
    assert(artifact_bytes(saved_version, entries)[0] == saved_version);
}

/// What decompressing a byte stream yields, or `None` where the stream is
/// not a well-formed compressed frame.  Decompression is a function of
/// the bytes alone.
pub uninterp spec fn zstd_decode_of(bytes: Seq<u8>) -> Option<Seq<u8>>;

/// Relies on zstd::stream::decode_all: decompresses a zstd frame, failing
/// exactly on malformed input; `zstd_decode_of` names its result.
#[verifier::external_body]
fn zstd_decompress(bytes: &[u8]) -> (r: Option<Vec<u8>>)
    ensures
        r matches Some(v) ==> zstd_decode_of(bytes@) == Some(v@),
        r is None ==> zstd_decode_of(bytes@) is None,
{
    zstd::stream::decode_all(bytes).ok()
}

/// Relies on zstd::stream::encode_all and the zstd frame format's
/// round-trip guarantee: decoding an encoded stream gives back exactly
/// the bytes that were encoded.
#[verifier::external_body]
fn zstd_compress(bytes: &[u8]) -> (r: Option<Vec<u8>>)
    ensures
        r matches Some(c) ==> zstd_decode_of(c@) == Some(bytes@),
{
    zstd::stream::encode_all(bytes, zstd::DEFAULT_COMPRESSION_LEVEL).ok()
}

/// Serializes a built cache under a version byte and compresses it into
/// the artifact as persisted.  `None` only when the compressor itself
/// reports an error; any produced artifact decompresses back to exactly
/// the serialized cache.
pub fn save_cache(version: u8, entries: &Vec<u16>) -> (r: Option<Vec<u8>>)
    requires
        1 + 2 * entries@.len() <= usize::MAX,
    ensures
        r matches Some(c) ==> zstd_decode_of(c@) == Some(artifact_bytes(version, entries@)),
{
    let serialized = serialize_cache(version, entries);
    zstd_compress(serialized.as_slice())
}

/// Decompresses and validates a persisted artifact for a `width * height`
/// grid: the entries exactly when the stream decompresses and the
/// decompressed artifact carries the expected version and exact length;
/// otherwise no cache.
pub fn load_cache(compressed: &[u8], expected_version: u8, width: u32, height: u32) -> (r: Option<
    Vec<u16>,
>)
    requires
        1 + 2 * cache_len(width as int, height as int) <= usize::MAX,
    ensures
        zstd_decode_of(compressed@) is None ==> r is None,
        zstd_decode_of(compressed@) matches Some(raw) ==> {
            &&& r is Some <==> parse_artifact(
                raw,
                expected_version,
                cache_len(width as int, height as int) as nat,
            ) is Some
            &&& r matches Some(e) ==> parse_artifact(
                raw,
                expected_version,
                cache_len(width as int, height as int) as nat,
            ) == Some(e@)
        },
{
    match zstd_decompress(compressed) {
        Some(raw) => parse_cache_artifact(&raw, expected_version, width, height),
        None => None,
    }
}

} // verus!
