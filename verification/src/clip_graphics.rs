//! The waterfall of a clip: rows in textures of a fixed height, one row for each chunk of
//! the clip.

use std::collections::VecDeque;

use crate::document::ClipDescriptor;
use crate::textures::{
    create, create_command, fits_a_buffer, row_commands, write_row, BLANK_TEXTURE, TextureCommand,
};
use vstd::prelude::*;

verus! {

/// How many rows a texture of a clip has.
pub const SEGMENT_HEIGHT: u32 = 256;

/// The number of rows of a segment, for arithmetic on indices.
const ROWS: isize = 256;

/// Which segment a chunk belongs to, counted from the segment of the first chunk.
pub open spec fn segment_of(start: int, index: int) -> int {
    index / SEGMENT_HEIGHT as int - start / SEGMENT_HEIGHT as int
}

/// The row that a chunk has in its segment.
pub open spec fn row_of(index: int) -> int {
    index % SEGMENT_HEIGHT as int
}

/// How many segments reach from the one of the first chunk to the end.
pub open spec fn segments_between(start: int, end: int) -> int {
    (end + SEGMENT_HEIGHT - 1) / SEGMENT_HEIGHT as int - start / SEGMENT_HEIGHT as int
}

/// The waterfall of a clip.
pub struct ClipGraphics {
    pub descriptor: ClipDescriptor,
    pub start_index: isize,
    pub end_index: isize,
    pub fft_size: u32,
    /// Whether rows can still be added.
    pub active: bool,
    pub segments: VecDeque<usize>,
}

/// What the waterfall of a clip holds.
pub struct GraphicsModel {
    pub descriptor: ClipDescriptor,
    pub start: int,
    pub end: int,
    pub fft_size: u32,
    pub active: bool,
    pub segments: Seq<usize>,
}

/// What is drawn of one segment.
#[derive(Clone, Copy, Debug, PartialEq, Eq, Structural)]
pub struct SegmentInfo {
    pub texture: usize,
    pub prev_texture: usize,
    pub next_texture: usize,
    /// The first chunk that is drawn from this segment.
    pub start_index: isize,
    /// One past the last chunk that is drawn from this segment.
    pub end_index: isize,
    /// The row of the first chunk, of [`SEGMENT_HEIGHT`].
    pub start_row: isize,
    /// One past the row of the last chunk.
    pub end_row: isize,
}

impl GraphicsModel {
    /// A waterfall without any rows yet.
    pub open spec fn fresh(descriptor: ClipDescriptor, start: int, fft_size: u32) -> GraphicsModel {
        GraphicsModel {
            descriptor,
            start,
            end: start,
            fft_size,
            active: true,
            segments: Seq::empty(),
        }
    }

    /// Whether there is a segment for every row. One segment more is kept where all the
    /// rows that it had have expired.
    pub open spec fn wf(self) -> bool {
        &&& isize::MIN <= self.start <= self.end <= isize::MAX
        &&& fits_a_buffer(self.fft_size, SEGMENT_HEIGHT)
        &&& self.segments.len() == segments_between(self.start, self.end) || (self.start == self.end
            && self.segments.len() == 0)
    }

    /// The waterfall with a row more. Where it begins a segment, that has the given
    /// texture.
    pub open spec fn with_row(self, texture: usize) -> GraphicsModel {
        GraphicsModel {
            end: self.end + 1,
            segments: if self.begins_segment() {
                self.segments.push(texture)
            } else {
                self.segments
            },
            ..self
        }
    }

    /// Whether the next row begins a new segment.
    pub open spec fn begins_segment(self) -> bool {
        segment_of(self.start, self.end) >= self.segments.len()
    }

    /// What is to be done for the next row.
    pub open spec fn row_commands(self, texture: usize) -> Seq<TextureCommand> {
        if self.begins_segment() {
            seq![create_command(texture, self.fft_size, SEGMENT_HEIGHT)] + row_commands(
                texture,
                row_of(self.end) as nat,
                self.fft_size,
                SEGMENT_HEIGHT,
            )
        } else {
            row_commands(
                self.segments[segment_of(self.start, self.end)],
                row_of(self.end) as nat,
                self.fft_size,
                SEGMENT_HEIGHT,
            )
        }
    }

    /// The waterfall without the rows before `start`.
    pub open spec fn expired(self, start: int) -> GraphicsModel {
        GraphicsModel { start, segments: self.segments.skip(segment_of(self.start, start)), ..self }
    }

    /// The first index of a segment.
    pub open spec fn segment_start(self, segment: int) -> int {
        (self.start / SEGMENT_HEIGHT as int + segment) * SEGMENT_HEIGHT
    }

    /// What is drawn of a segment.
    pub open spec fn segment_info(self, segment: int) -> SegmentInfo {
        let first = self.segment_start(segment);
        let start = if first < self.start {
            self.start
        } else {
            first
        };
        let end = if self.end < first + SEGMENT_HEIGHT {
            self.end
        } else {
            first + SEGMENT_HEIGHT
        };
        SegmentInfo {
            texture: self.segments[segment],
            prev_texture: if segment > 0 {
                self.segments[segment - 1]
            } else {
                BLANK_TEXTURE
            },
            next_texture: if segment + 1 < self.segments.len() {
                self.segments[segment + 1]
            } else {
                BLANK_TEXTURE
            },
            start_index: start as isize,
            end_index: end as isize,
            start_row: (start - first) as isize,
            end_row: (end - first) as isize,
        }
    }
}

/// Where the last segment ends.
proof fn segment_bounds(graphics: GraphicsModel, segment: int)
    requires
        graphics.wf(),
        0 <= segment < graphics.segments.len(),
    ensures
        graphics.segment_start(segment) <= graphics.end,
        graphics.start < graphics.segment_start(segment) + SEGMENT_HEIGHT,
        segment > 0 ==> graphics.start <= graphics.segment_start(segment),
        segment + 1 < graphics.segments.len() ==> graphics.segment_start(segment)
            + SEGMENT_HEIGHT <= graphics.end,
        segment + 1 == graphics.segments.len() ==> graphics.end <= graphics.segment_start(segment)
            + SEGMENT_HEIGHT,
{
}

/// Adding a row keeps one segment for each [`SEGMENT_HEIGHT`] rows.
proof fn row_keeps_wf(graphics: GraphicsModel, texture: usize)
    requires
        graphics.wf(),
        graphics.end < isize::MAX,
    ensures
        graphics.with_row(texture).wf(),
        0 <= segment_of(graphics.start, graphics.end) <= graphics.segments.len(),
        0 <= row_of(graphics.end) < SEGMENT_HEIGHT,
{
}

/// Expiry keeps one segment for each [`SEGMENT_HEIGHT`] rows.
proof fn expiry_keeps_wf(graphics: GraphicsModel, start: int)
    requires
        graphics.wf(),
        graphics.start <= start <= graphics.end,
    ensures
        graphics.expired(start).wf(),
        0 <= segment_of(graphics.start, start) <= graphics.segments.len(),
{
    let graphics_after = graphics.expired(start);
    assert(graphics_after.segments.len() == graphics.segments.len() - segment_of(
        graphics.start,
        start,
    ));
}

impl ClipGraphics {
    pub open spec fn model(&self) -> GraphicsModel {
        GraphicsModel {
            descriptor: self.descriptor,
            start: self.start_index as int,
            end: self.end_index as int,
            fft_size: self.fft_size,
            active: self.active,
            segments: self.segments@,
        }
    }

    /// A waterfall without any rows yet.
    pub fn new(descriptor: ClipDescriptor, start_index: isize, fft_size: u32) -> (graphics: Self)
        requires
            fits_a_buffer(fft_size, SEGMENT_HEIGHT),
        ensures
            graphics.model() == GraphicsModel::fresh(descriptor, start_index as int, fft_size),
            graphics.model().wf(),
    {
        ClipGraphics {
            descriptor,
            start_index,
            end_index: start_index,
            fft_size,
            active: true,
            segments: VecDeque::new(),
        }
    }

    /// Adds a row. Where it begins a segment, that gets the given texture; returns whether
    /// it does.
    pub fn process(&mut self, commands: &mut Vec<TextureCommand>, texture: usize) -> (used: bool)
        requires
            old(self).model().wf(),
            old(self).active,
            old(self).end_index < isize::MAX,
        ensures
            final(self).model() == old(self).model().with_row(texture),
            final(self).model().wf(),
            used == old(self).model().begins_segment(),
            final(commands)@ == old(commands)@ + old(self).model().row_commands(texture),
    {
        let ghost before = self.model();
        proof {
            row_keeps_wf(before, texture);
        }
        let segment_index: isize = self.end_index.checked_div_euclid(ROWS).unwrap()
            - self.start_index.checked_div_euclid(ROWS).unwrap();
        let row_in_segment: isize = self.end_index.checked_rem_euclid(ROWS).unwrap();
        let used: bool = segment_index as usize >= self.segments.len();
        if used {
            create(commands, texture, self.fft_size, SEGMENT_HEIGHT);
            self.segments.push_back(texture);
        }
        let segment: usize = self.segments[segment_index as usize];
        write_row(commands, segment, row_in_segment as u32, self.fft_size, SEGMENT_HEIGHT);
        self.end_index = self.end_index + 1;
        assert(commands@ =~= old(commands)@ + before.row_commands(texture));
        used
    }

    /// Drops the rows before `start_index`.
    pub fn expire(&mut self, start_index: isize)
        requires
            old(self).model().wf(),
            old(self).start_index <= start_index <= old(self).end_index,
        ensures
            final(self).model() == old(self).model().expired(start_index as int),
            final(self).model().wf(),
    {
        let ghost before = self.model();
        proof {
            expiry_keeps_wf(before, start_index as int);
        }
        let segments_to_remove: isize = start_index.checked_div_euclid(ROWS).unwrap()
            - self.start_index.checked_div_euclid(ROWS).unwrap();
        let segments: VecDeque<usize> = self.segments.split_off(segments_to_remove as usize);
        self.segments = segments;
        self.start_index = start_index;
        assert(self.model().segments =~= before.expired(start_index as int).segments);
    }

    /// What is drawn, segment by segment.
    pub fn segment_infos(&self) -> (infos: Vec<SegmentInfo>)
        requires
            self.model().wf(),
            self.end_index <= isize::MAX - SEGMENT_HEIGHT,
        ensures
            infos@ == Seq::new(
                self.model().segments.len(),
                |k: int| self.model().segment_info(k),
            ),
    {
        let mut infos: Vec<SegmentInfo> = Vec::new();
        let ghost graphics = self.model();
        let first_block: isize = self.start_index.checked_div_euclid(ROWS).unwrap();
        let mut k: usize = 0;
        while k < self.segments.len()
            invariant
                k <= self.segments@.len(),
                graphics == self.model(),
                graphics.wf(),
                self.end_index <= isize::MAX - SEGMENT_HEIGHT,
                first_block == self.start_index as int / SEGMENT_HEIGHT as int,
                infos@ == Seq::new(k as nat, |k: int| graphics.segment_info(k)),
            decreases self.segments@.len() - k,
        {
            proof {
                segment_bounds(graphics, k as int);
            }
            let seg_start_index: isize = (first_block + k as isize) * ROWS;
            let seg_end_index: isize = seg_start_index + ROWS;
            let start_index: isize = if seg_start_index < self.start_index {
                self.start_index
            } else {
                seg_start_index
            };
            let end_index: isize = if self.end_index < seg_end_index {
                self.end_index
            } else {
                seg_end_index
            };
            let prev_texture: usize = if k > 0 {
                self.segments[k - 1]
            } else {
                BLANK_TEXTURE
            };
            let next_texture: usize = if k + 1 < self.segments.len() {
                self.segments[k + 1]
            } else {
                BLANK_TEXTURE
            };
            infos.push(
                SegmentInfo {
                    texture: self.segments[k],
                    prev_texture,
                    next_texture,
                    start_index,
                    end_index,
                    start_row: start_index - seg_start_index,
                    end_row: end_index - seg_start_index,
                },
            );
            assert(infos@ =~= Seq::new(k as nat + 1, |k: int| graphics.segment_info(k)));
            k = k + 1;
        }
        infos
    }
}

/// A row stays in the same row of the same texture when rows before it expire.
pub proof fn rows_stay_where_they_are(graphics: GraphicsModel, start: int, index: int)
    requires
        graphics.wf(),
        graphics.start <= start <= index < graphics.end,
    ensures
        0 <= segment_of(start, index) < graphics.expired(start).segments.len(),
        graphics.expired(start).segments[segment_of(start, index)]
            == graphics.segments[segment_of(graphics.start, index)],
{
    expiry_keeps_wf(graphics, start);
}

/// The segments that are drawn follow each other, from the first chunk to the last, and
/// every chunk is drawn from its own row.
pub proof fn segments_cover_the_clip(graphics: GraphicsModel, segment: int)
    requires
        graphics.wf(),
        graphics.start < graphics.end <= isize::MAX - SEGMENT_HEIGHT,
        0 <= segment < graphics.segments.len(),
    ensures
        graphics.segment_info(segment).start_index == if segment == 0 {
            graphics.start
        } else {
            graphics.segment_info(segment - 1).end_index as int
        },
        segment == graphics.segments.len() - 1 ==> graphics.segment_info(segment).end_index
            == graphics.end,
        graphics.segment_info(segment).start_index < graphics.segment_info(segment).end_index,
        forall|index: int|
            graphics.segment_info(segment).start_index <= index < graphics.segment_info(
                segment,
            ).end_index ==> #[trigger] segment_of(graphics.start, index) == segment && row_of(index)
                == graphics.segment_info(segment).start_row + index - graphics.segment_info(
                segment,
            ).start_index,
{
    segment_bounds(graphics, segment);
    if segment > 0 {
        segment_bounds(graphics, segment - 1);
    }
}

/// The rows of a clip stand one below the other in segments of equal height, the first row in
/// the first segment.
pub proof fn rows_stand_below_each_other(start: int, index: int)
    ensures
        segment_of(start, start) == 0,
        0 <= row_of(index) < 256,
        row_of(index) < 255 ==> segment_of(start, index + 1) == segment_of(start, index) && row_of(
            index + 1,
        ) == row_of(index) + 1,
        row_of(index) == 255 ==> segment_of(start, index + 1) == segment_of(start, index) + 1
            && row_of(index + 1) == 0,
        row_of(0) == 0,
        start < index ==> segments_between(start, index) == segment_of(start, index - 1) + 1,
{
}

/// A row is added behind the others, in a new segment where the last one is full or there is
/// none. The textures of the other rows stay.
pub proof fn rows_are_added_at_the_end(graphics: GraphicsModel, texture: usize, index: int)
    requires
        graphics.wf(),
    ensures
        ({
            let after = graphics.with_row(texture);
            &&& after.end == graphics.end + 1
            &&& after.start == graphics.start && after.active == graphics.active
            &&& after.descriptor == graphics.descriptor && after.fft_size == graphics.fft_size
            &&& graphics.begins_segment() <==> row_of(graphics.end) == 0
                || graphics.segments.len() == 0
            &&& graphics.begins_segment() ==> after.segments[segment_of(
                graphics.start,
                graphics.end,
            )] == texture && after.segments.len() == graphics.segments.len() + 1
            &&& !graphics.begins_segment() ==> after.segments == graphics.segments
            &&& 0 <= index < graphics.segments.len() ==> after.segments[index]
                == graphics.segments[index]
            &&& 0 <= segment_of(graphics.start, graphics.end) < after.segments.len()
        }),
{
}

/// What a new clip shows begins where the clip does, and has no rows yet.
pub proof fn new_graphics_have_no_rows(
    descriptor: ClipDescriptor,
    start: int,
    fft_size: u32,
    graphics: GraphicsModel,
    later: int,
)
    ensures
        GraphicsModel::fresh(descriptor, start, fft_size).descriptor == descriptor,
        GraphicsModel::fresh(descriptor, start, fft_size).start == start,
        GraphicsModel::fresh(descriptor, start, fft_size).end == start,
        GraphicsModel::fresh(descriptor, start, fft_size).fft_size == fft_size,
        GraphicsModel::fresh(descriptor, start, fft_size).active,
        GraphicsModel::fresh(descriptor, start, fft_size).segments.len() == 0,
        graphics.expired(later).start == later,
        graphics.expired(later).end == graphics.end,
        graphics.expired(later).active == graphics.active,
        graphics.expired(later).descriptor == graphics.descriptor,
        graphics.expired(later).fft_size == graphics.fft_size,
{
}

/// A segment is drawn with the textures before and behind it, and blank ones at the ends.
pub proof fn segments_have_neighbours(graphics: GraphicsModel, segment: int)
    requires
        0 <= segment < graphics.segments.len(),
    ensures
        graphics.segment_info(segment).texture == graphics.segments[segment],
        graphics.segment_info(0).prev_texture == BLANK_TEXTURE,
        graphics.segment_info(graphics.segments.len() - 1).next_texture == BLANK_TEXTURE,
        segment + 1 < graphics.segments.len() ==> graphics.segment_info(segment).next_texture
            == graphics.segment_info(segment + 1).texture && graphics.segment_info(
            segment + 1,
        ).prev_texture == graphics.segment_info(segment).texture,
{
}

/// A row is written to the texture of its segment, at its place in it. Where it begins a
/// segment, the texture is made before.
pub proof fn rows_are_written_to_their_segment(graphics: GraphicsModel, texture: usize)
    requires
        graphics.wf(),
    ensures
        ({
            let after = graphics.with_row(texture);
            let written = row_commands(
                after.segments[segment_of(graphics.start, graphics.end)],
                row_of(graphics.end) as nat,
                graphics.fft_size,
                SEGMENT_HEIGHT,
            );
            graphics.row_commands(texture) == if graphics.begins_segment() {
                seq![create_command(texture, graphics.fft_size, SEGMENT_HEIGHT)] + written
            } else {
                written
            }
        }),
{
}

} // verus!
