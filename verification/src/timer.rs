//! Timestamps around the passes of a dispatch, and byte ranges of images in
//! buffers.

use crate::config::product;
use crate::dispatch::OUTPUT_PIXEL_BYTES;
use vstd::prelude::*;

verus! {

/// Bytes of a timestamp.
pub const TIMESTAMP_BYTES: u64 = 8;

/// Timestamps for a number of passes: two for each, where there are passes and
/// their timestamps can be counted.
pub open spec fn query_count_spec(pass_count: u32) -> Option<u32> {
    if pass_count == 0 || pass_count * 2 > u32::MAX {
        None
    } else {
        Some((pass_count * 2) as u32)
    }
}

/// Timestamps for a number of passes.
pub fn query_count(pass_count: u32) -> (count: Option<u32>)
    ensures
        count == query_count_spec(pass_count),
{
    if pass_count == 0 {
        return None;
    }
    pass_count.checked_mul(2)
}

/// Bytes of a number of timestamps.
pub fn query_bytes(query_count: u32) -> (bytes: u64)
    ensures
        bytes == query_count * TIMESTAMP_BYTES,
{
    query_count as u64 * TIMESTAMP_BYTES
}

/// The timestamps at the beginning and the end of a pass.
pub fn pass_queries(pass_index: u32) -> (queries: (u32, u32))
    requires
        pass_index * 2 + 1 <= u32::MAX,
    ensures
        queries.0 == pass_index * 2,
        queries.1 == pass_index * 2 + 1,
{
    let first: u32 = pass_index * 2;
    (first, first + 1)
}

/// The timestamps of every pass are within those that are set aside, and no two
/// passes share one.
pub proof fn lemma_passes_have_their_own_queries(pass_count: u32, first: u32, second: u32)
    requires
        query_count_spec(pass_count) is Some,
        first < second < pass_count,
    ensures
        second * 2 + 1 < query_count_spec(pass_count).unwrap(),
        first * 2 + 1 < second * 2,
{
}

/// The ticks of each pass: from its first timestamp to its second, and none
/// where they run backward.  A single timestamp at the end counts for nothing.
pub open spec fn pass_ticks_spec(timestamps: Seq<u64>) -> Seq<u64> {
    Seq::new(
        (timestamps.len() / 2) as nat,
        |i: int|
            if timestamps[2 * i] <= timestamps[2 * i + 1] {
                (timestamps[2 * i + 1] - timestamps[2 * i]) as u64
            } else {
                0
            },
    )
}

/// The ticks of each pass.
pub fn pass_ticks(timestamps: &Vec<u64>) -> (ticks: Vec<u64>)
    ensures
        ticks@ == pass_ticks_spec(timestamps@),
{
    let mut ticks: Vec<u64> = Vec::new();
    let count: usize = timestamps.len() / 2;
    let mut next: usize = 0;
    while next < count
        invariant
            count == timestamps@.len() / 2,
            count * 2 <= usize::MAX,
            next <= count,
            ticks@ == pass_ticks_spec(timestamps@).take(next as int),
        decreases count - next,
    {
        let begin: u64 = timestamps[2 * next];
        let end: u64 = timestamps[2 * next + 1];
        let elapsed: u64 = if begin <= end {
            end - begin
        } else {
            0
        };
        ticks.push(elapsed);
        assert(ticks@ =~= pass_ticks_spec(timestamps@).take(next + 1));
        next += 1;
    }
    assert(ticks@ =~= pass_ticks_spec(timestamps@));
    ticks
}

/// A range of bytes in a buffer.
#[derive(Clone, Copy, Debug, PartialEq, Eq, Structural)]
pub struct ByteRange {
    pub offset: u64,
    pub size: u64,
}

/// The bytes of some rows of an image in a buffer.
pub fn row_bytes(width: u32, y_offset: u32, height: u32) -> (range: ByteRange)
    requires
        width * (y_offset + height) * OUTPUT_PIXEL_BYTES <= u64::MAX,
    ensures
        range.offset == y_offset * width * OUTPUT_PIXEL_BYTES,
        range.size == height * width * OUTPUT_PIXEL_BYTES,
        range.offset + range.size == width * (y_offset + height) * OUTPUT_PIXEL_BYTES,
{
    assert(width * (y_offset + height) * OUTPUT_PIXEL_BYTES == y_offset * width
        * OUTPUT_PIXEL_BYTES + height * width * OUTPUT_PIXEL_BYTES && y_offset * width >= 0 && height
        * width >= 0) by (nonlinear_arith);
    let offset: u64 = product(y_offset, width) * OUTPUT_PIXEL_BYTES;
    let size: u64 = product(height, width) * OUTPUT_PIXEL_BYTES;
    ByteRange { offset, size }
}

/// The bytes of a tile in a buffer for a batch of tiles.
pub fn tile_bytes(tile_index: u32, bytes_per_tile: u64) -> (range: ByteRange)
    requires
        (tile_index + 1) * bytes_per_tile <= u64::MAX,
    ensures
        range.offset == tile_index * bytes_per_tile,
        range.size == bytes_per_tile,
        range.offset + range.size == (tile_index + 1) * bytes_per_tile,
{
    assert((tile_index + 1) * bytes_per_tile == tile_index * bytes_per_tile + bytes_per_tile
        && tile_index * bytes_per_tile >= 0) by (nonlinear_arith);
    ByteRange { offset: tile_index as u64 * bytes_per_tile, size: bytes_per_tile }
}

/// Timestamps come in pairs, one pair for each pass, and a pass takes the ticks from the
/// first of its pair to the second.
pub proof fn lemma_passes_take_their_ticks(pass_count: u32, timestamps: Seq<u64>, pass: int)
    requires
        0 <= 2 * pass,
        2 * pass + 1 < timestamps.len(),
    ensures
        0 < pass_count < 0x8000_0000 ==> query_count_spec(pass_count) == Some(
            (2 * pass_count) as u32,
        ),
        pass_count == 0 || pass_count >= 0x8000_0000 ==> query_count_spec(pass_count) is None,
        pass_ticks_spec(timestamps).len() == timestamps.len() / 2,
        timestamps[2 * pass] <= timestamps[2 * pass + 1] ==> timestamps[2 * pass]
            + pass_ticks_spec(timestamps)[pass] == timestamps[2 * pass + 1],
        timestamps[2 * pass] > timestamps[2 * pass + 1] ==> pass_ticks_spec(timestamps)[pass] == 0,
        TIMESTAMP_BYTES == 8,
{
}

} // verus!
