//! The byte format of a stored patch.
//!
//! A patch is stored as its region (16 bytes), its edge length (8 bytes), its
//! position (2 bytes) and its height samples (4 bytes each, row by row), all
//! integers little-endian.

use vstd::prelude::*;
use vstd::bytes::{
    lemma_auto_spec_u128_to_from_le_bytes, lemma_auto_spec_u32_to_from_le_bytes,
    lemma_auto_spec_u64_to_from_le_bytes, spec_u128_from_le_bytes, spec_u128_to_le_bytes,
    spec_u32_from_le_bytes, spec_u32_to_le_bytes, spec_u64_from_le_bytes, spec_u64_to_le_bytes,
    u128_from_le_bytes, u128_to_le_bytes, u32_from_le_bytes, u32_to_le_bytes, u64_from_le_bytes,
    u64_to_le_bytes,
};
use vstd::slice::slice_subrange;
use crate::cache::CacheError;
use crate::data::terrain::{PatchModel, PatchPosition, TerrainPatch};

verus! {

/// Length of what precedes the samples: region, edge length and position.
pub const PATCH_HEADER_BYTES: usize = 26;

/// The samples `heights` as bytes.
pub open spec fn heights_bytes(heights: Seq<u32>) -> Seq<u8>
    decreases heights.len(),
{
    if heights.len() == 0 {
        Seq::empty()
    } else {
        heights_bytes(heights.drop_last()) + spec_u32_to_le_bytes(heights.last())
    }
}

/// The samples that `bytes` hold, four bytes each; a tail of fewer than four
/// bytes is ignored.
pub open spec fn heights_from(bytes: Seq<u8>) -> Seq<u32>
    decreases bytes.len(),
{
    if bytes.len() < 4 {
        Seq::empty()
    } else {
        heights_from(bytes.take(bytes.len() - 4)).push(
            spec_u32_from_le_bytes(bytes.skip(bytes.len() - 4)),
        )
    }
}

/// The stored form of a patch.
pub open spec fn patch_bytes(m: PatchModel) -> Seq<u8> {
    spec_u128_to_le_bytes(m.region) + spec_u64_to_le_bytes(m.size as u64) + seq![
        m.position.x,
        m.position.y,
    ] + heights_bytes(m.heights)
}

/// The patch that `bytes` store, if they store one: the header is complete
/// and the samples that follow are exactly as many as the edge length asks
/// for.
pub open spec fn decoded(bytes: Seq<u8>) -> Option<PatchModel> {
    if bytes.len() < PATCH_HEADER_BYTES {
        None
    } else {
        let size = spec_u64_from_le_bytes(bytes.subrange(16, 24)) as nat;
        if bytes.len() == PATCH_HEADER_BYTES + 4 * (size * size) {
            Some(
                PatchModel {
                    region: spec_u128_from_le_bytes(bytes.subrange(0, 16)),
                    size,
                    position: PatchPosition { x: bytes[24], y: bytes[25] },
                    heights: heights_from(bytes.skip(PATCH_HEADER_BYTES as int)),
                },
            )
        } else {
            None
        }
    }
}

/// Each sample takes four bytes.
pub proof fn lemma_heights_bytes_len(heights: Seq<u32>)
    ensures
        heights_bytes(heights).len() == 4 * heights.len(),
    decreases heights.len(),
{
    lemma_auto_spec_u32_to_from_le_bytes();
    if heights.len() > 0 {
        lemma_heights_bytes_len(heights.drop_last());
    }
}

/// Bytes in groups of four hold a quarter as many samples.
pub proof fn lemma_heights_from_len(bytes: Seq<u8>)
    requires
        bytes.len() % 4 == 0,
    ensures
        heights_from(bytes).len() == bytes.len() / 4,
    decreases bytes.len(),
{
    if bytes.len() >= 4 {
        lemma_heights_from_len(bytes.take(bytes.len() - 4));
    }
}

/// Samples written as bytes read back as the same samples.
pub proof fn lemma_heights_round_trip(heights: Seq<u32>)
    ensures
        heights_from(heights_bytes(heights)) == heights,
    decreases heights.len(),
{
    lemma_auto_spec_u32_to_from_le_bytes();
    if heights.len() > 0 {
        let front = heights_bytes(heights.drop_last());
        let last = spec_u32_to_le_bytes(heights.last());
        let all = heights_bytes(heights);
        lemma_heights_round_trip(heights.drop_last());
        assert(all.take(all.len() - 4) =~= front);
        assert(all.skip(all.len() - 4) =~= last);
        assert(heights.drop_last().push(heights.last()) =~= heights);
    }
}

/// Bytes in groups of four, read as samples and written again, are the same
/// bytes.
pub proof fn lemma_bytes_round_trip(bytes: Seq<u8>)
    requires
        bytes.len() % 4 == 0,
    ensures
        heights_bytes(heights_from(bytes)) == bytes,
    decreases bytes.len(),
{
    lemma_auto_spec_u32_to_from_le_bytes();
    if bytes.len() >= 4 {
        let front = bytes.take(bytes.len() - 4);
        let last = bytes.skip(bytes.len() - 4);
        lemma_bytes_round_trip(front);
        let heights = heights_from(bytes);
        assert(heights.drop_last() =~= heights_from(front));
        assert(front + last =~= bytes);
    } else {
        assert(bytes =~= Seq::<u8>::empty());
    }
}

/// Round trip of the byte format: the stored form of a patch decodes to that
/// patch.
pub proof fn lemma_decode_encode(m: PatchModel)
    requires
        m.wf(),
        m.size <= u64::MAX,
    ensures
        decoded(patch_bytes(m)) == Some(m),
        patch_bytes(m).len() == PATCH_HEADER_BYTES + 4 * (m.size * m.size),
{
    lemma_auto_spec_u128_to_from_le_bytes();
    lemma_auto_spec_u64_to_from_le_bytes();
    lemma_heights_bytes_len(m.heights);
    lemma_heights_round_trip(m.heights);
    let region = spec_u128_to_le_bytes(m.region);
    let size = spec_u64_to_le_bytes(m.size as u64);
    let position = seq![m.position.x, m.position.y];
    let heights = heights_bytes(m.heights);
    let bytes = patch_bytes(m);
    assert(bytes.subrange(0, 16) =~= region);
    assert(bytes.subrange(16, 24) =~= size);
    assert(bytes.skip(PATCH_HEADER_BYTES as int) =~= heights);
    assert(bytes[24] == m.position.x);
    assert(bytes[25] == m.position.y);
}

/// The byte format is canonical: bytes that decode to a patch are the stored
/// form of that patch.
pub proof fn lemma_encode_decode(bytes: Seq<u8>)
    requires
        decoded(bytes).is_some(),
    ensures
        decoded(bytes).unwrap().wf(),
        patch_bytes(decoded(bytes).unwrap()) == bytes,
{
    lemma_auto_spec_u128_to_from_le_bytes();
    lemma_auto_spec_u64_to_from_le_bytes();
    let m = decoded(bytes).unwrap();
    let tail = bytes.skip(PATCH_HEADER_BYTES as int);
    lemma_heights_from_len(tail);
    lemma_bytes_round_trip(tail);
    assert(bytes.subrange(16, 24).len() == 8);
    assert(bytes.subrange(0, 16).len() == 16);
    assert(seq![m.position.x, m.position.y] =~= bytes.subrange(24, 26));
    assert(bytes.subrange(0, 16) + bytes.subrange(16, 24) + bytes.subrange(24, 26) + tail
        =~= bytes);
}

/// The stored form of `patch`.
pub fn encode(patch: &TerrainPatch) -> (bytes: Vec<u8>)
    ensures
        bytes@ == patch_bytes(patch@),
{
    let heights = patch.land_heightmap();
    let mut bytes = u128_to_le_bytes(patch.region());
    let mut size = u64_to_le_bytes(*patch.size() as u64);
    bytes.append(&mut size);
    bytes.push(patch.position().x);
    bytes.push(patch.position().y);
    let ghost header = bytes@;
    assert(header =~= spec_u128_to_le_bytes(patch@.region) + spec_u64_to_le_bytes(
        patch@.size as u64,
    ) + seq![patch@.position.x, patch@.position.y]);
    let mut i: usize = 0;
    assert(heights@.take(0) =~= Seq::<u32>::empty());
    assert(header + heights_bytes(heights@.take(0)) =~= header);
    while i < heights.len()
        invariant
            i <= heights@.len(),
            bytes@ == header + heights_bytes(heights@.take(i as int)),
        decreases heights@.len() - i,
    {
        let mut sample = u32_to_le_bytes(heights[i]);
        proof {
            let grown = heights@.take(i + 1);
            assert(grown.drop_last() =~= heights@.take(i as int));
            assert(grown.last() == heights@[i as int]);
            assert(header + heights_bytes(grown) =~= bytes@ + sample@);
        }
        bytes.append(&mut sample);
        i += 1;
    }
    assert(heights@.take(i as int) =~= heights@);
    bytes
}

/// Reads a patch from its stored form. Bytes that are not the stored form of
/// a patch are a serialization error.
pub fn decode(bytes: &[u8]) -> (patch: Result<TerrainPatch, CacheError>)
    ensures
        match decoded(bytes@) {
            Some(m) => patch matches Ok(p) && p@ == m,
            None => patch == Err::<TerrainPatch, CacheError>(CacheError::Serialization),
        },
{
    let len = bytes.len();
    if len < PATCH_HEADER_BYTES {
        return Err(CacheError::Serialization);
    }
    let region = u128_from_le_bytes(slice_subrange(bytes, 0, 16));
    let size64 = u64_from_le_bytes(slice_subrange(bytes, 16, 24));
    let position = PatchPosition { x: bytes[24], y: bytes[25] };
    let payload = len - PATCH_HEADER_BYTES;
    if payload % 4 != 0 {
        return Err(CacheError::Serialization);
    }
    let cells = payload / 4;
    assert(size64 * size64 <= u128::MAX) by (nonlinear_arith)
        requires
            0 <= size64 <= u64::MAX,
    ;
    let wide: u128 = (size64 as u128) * (size64 as u128);
    if wide != cells as u128 {
        return Err(CacheError::Serialization);
    }
    assert(size64 <= cells) by (nonlinear_arith)
        requires
            size64 * size64 == cells,
            0 <= size64,
    ;
    let size = size64 as usize;
    let mut heights: Vec<u32> = Vec::new();
    let mut i: usize = 0;
    let ghost tail = bytes@.skip(PATCH_HEADER_BYTES as int);
    assert(tail.take(0) =~= Seq::<u8>::empty());
    while i < cells
        invariant
            i <= cells,
            len == bytes@.len(),
            len == PATCH_HEADER_BYTES + 4 * cells,
            tail == bytes@.skip(PATCH_HEADER_BYTES as int),
            heights@ == heights_from(tail.take(4 * i)),
        decreases cells - i,
    {
        let start = PATCH_HEADER_BYTES + 4 * i;
        let sample = u32_from_le_bytes(slice_subrange(bytes, start, start + 4));
        proof {
            let grown = tail.take(4 * (i + 1));
            assert(grown.take(grown.len() - 4) =~= tail.take(4 * i));
            assert(grown.skip(grown.len() - 4) =~= bytes@.subrange(
                start as int,
                start + 4,
            ));
        }
        heights.push(sample);
        i += 1;
    }
    assert(tail.take(4 * cells) =~= tail);
    proof {
        lemma_heights_from_len(tail);
    }
    Ok(TerrainPatch::from_square(region, size, position, heights))
}

} // verus!
