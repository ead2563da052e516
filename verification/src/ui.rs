//! Fitting texts into the space that there is for them, and putting together what is drawn
//! of a waterfall.

use crate::double::Double;
use vstd::prelude::*;

verus! {

/// How much of a text that is too wide is kept in front of an ellipsis: the longest part
/// that is not wider than `available`, or nothing.
///
/// `widths` holds the width of the first characters of the text, for each number of them
/// from none on.
pub fn elided_length(widths: &Vec<Double>, available: Double) -> (length: usize)
    requires
        widths@.len() > 0,
    ensures
        length < widths@.len(),
        length > 0 ==> !widths@[length as int].is_nan() && !available.is_nan()
            && !available.below(widths@[length as int]),
        forall|k: int|
            length < k < widths@.len() ==> (#[trigger] widths@[k]).is_nan() || available.is_nan()
                || available.below(widths@[k]),
{
    let mut length: usize = widths.len() - 1;
    while length > 0 && !widths[length].le(available)
        invariant
            length < widths@.len(),
            forall|k: int|
                length < k < widths@.len() ==> (#[trigger] widths@[k]).is_nan()
                    || available.is_nan() || available.below(widths@[k]),
        decreases length,
    {
        length = length - 1;
    }
    length
}

/// How many corners the two triangles have that a texture is drawn on.
pub const VERTICES_PER_CHUNK: u32 = 6;

/// Where a texture is drawn: from the start of its last row to the end of its first one.
#[derive(Clone, Copy, Debug)]
pub struct ChunkExtent {
    pub start: Double,
    pub end: Double,
}

/// The corners that belong to a texture.
#[derive(Clone, Copy, Debug, PartialEq, Eq, Structural)]
pub struct DrawCall {
    /// Which of the textures it is.
    pub chunk: usize,
    pub vertices_start: u32,
    pub vertices_end: u32,
}

/// Which textures are drawn: not those that end before they start.
pub open spec fn drawn(chunks: Seq<ChunkExtent>) -> Seq<int>
    decreases chunks.len(),
{
    if chunks.len() == 0 {
        Seq::empty()
    } else if chunks.last().end.below(chunks.last().start) {
        drawn(chunks.drop_last())
    } else {
        drawn(chunks.drop_last()).push(chunks.len() - 1)
    }
}

/// What is to be drawn, texture by texture. The corners of the textures stand one behind
/// the other.
pub fn draw_calls(chunks: &Vec<ChunkExtent>) -> (calls: Vec<DrawCall>)
    requires
        chunks@.len() * VERTICES_PER_CHUNK <= u32::MAX,
    ensures
        calls@.len() == drawn(chunks@).len(),
        forall|k: int|
            0 <= k < calls@.len() ==> #[trigger] calls@[k] == (DrawCall {
                chunk: drawn(chunks@)[k] as usize,
                vertices_start: (k * VERTICES_PER_CHUNK) as u32,
                vertices_end: ((k + 1) * VERTICES_PER_CHUNK) as u32,
            }),
{
    let mut calls: Vec<DrawCall> = Vec::new();
    let mut vertices: u32 = 0;
    let mut i: usize = 0;
    assert(chunks@.take(0) =~= Seq::<ChunkExtent>::empty());
    while i < chunks.len()
        invariant
            i <= chunks@.len(),
            chunks@.len() * VERTICES_PER_CHUNK <= u32::MAX,
            calls@.len() == drawn(chunks@.take(i as int)).len(),
            calls@.len() <= i,
            vertices == calls@.len() * VERTICES_PER_CHUNK,
            forall|k: int|
                0 <= k < calls@.len() ==> #[trigger] calls@[k] == (DrawCall {
                    chunk: drawn(chunks@.take(i as int))[k] as usize,
                    vertices_start: (k * VERTICES_PER_CHUNK) as u32,
                    vertices_end: ((k + 1) * VERTICES_PER_CHUNK) as u32,
                }),
        decreases chunks@.len() - i,
    {
        proof {
            assert(chunks@.take(i as int + 1).drop_last() =~= chunks@.take(i as int));
            assert(chunks@.take(i as int + 1).last() == chunks@[i as int]);
        }
        if !chunks[i].end.lt(chunks[i].start) {
            calls.push(
                DrawCall {
                    chunk: i,
                    vertices_start: vertices,
                    vertices_end: vertices + VERTICES_PER_CHUNK,
                },
            );
            vertices = vertices + VERTICES_PER_CHUNK;
        }
        i = i + 1;
    }
    assert(chunks@.take(i as int) =~= chunks@);
    calls
}

/// A chunk is drawn exactly where it does not end before it starts, and chunks are drawn in
/// order.
pub proof fn chunks_are_drawn_in_order(chunks: Seq<ChunkExtent>, i: int)
    ensures
        drawn(chunks).contains(i) <==> 0 <= i < chunks.len() && !chunks[i].end.below(
            chunks[i].start,
        ),
        forall|a: int, b: int|
            0 <= a < b < drawn(chunks).len() ==> (#[trigger] drawn(chunks)[a]) < (
            #[trigger] drawn(chunks)[b]),
        forall|a: int|
            0 <= a < drawn(chunks).len() ==> 0 <= (#[trigger] drawn(chunks)[a]) < chunks.len(),
    decreases chunks.len(),
{
    if chunks.len() > 0 {
        let rest = chunks.drop_last();
        chunks_are_drawn_in_order(rest, i);
        let before = drawn(rest);
        let after = drawn(chunks);
        assert(chunks.last() == chunks[chunks.len() - 1]);
        assert(forall|k: int| 0 <= k < before.len() ==> after[k] == before[k]);
        if after.contains(i) {
            let k = choose|k: int| 0 <= k < after.len() && after[k] == i;
            if k < before.len() {
                assert(before[k] == i);
                assert(before.contains(i));
            }
        }
        if before.contains(i) {
            let k = choose|k: int| 0 <= k < before.len() && before[k] == i;
            assert(after[k] == i);
        }
        if i == chunks.len() - 1 && !chunks[i].end.below(chunks[i].start) {
            assert(after[after.len() - 1] == i);
        }
    }
}

} // verus!
