//! Textures that are filled row by row, and what is to be done to fill them.
//!
//! A texture is known here by a number; whoever carries out the commands keeps the
//! texture that belongs to each number.

use crate::mip::{
    complete_after_a_power_of_two, level_count, level_count_is_log2, level_len, level_row,
    levels_complete, levels_fit, mip_level_count, mip_write, mip_writes, shrunk_sizes, MipSize,
    MipWrite,
};
use crate::time::Timestamp;
use vstd::arithmetic::power2::pow2;
use vstd::prelude::*;

verus! {

/// How many rows a texture of a waterfall has.
pub const TEXTURE_HEIGHT: u32 = 1024;

/// The number of the texture that stands for no rows at all.
pub const BLANK_TEXTURE: usize = 0;

/// Something to do to a texture.
#[derive(Clone, Copy, Debug, PartialEq, Eq, Structural)]
pub enum TextureCommand {
    /// Make a texture.
    Create { texture: usize, width: u32, height: u32, mip_level_count: u32 },
    /// Write a row of a mip level.
    Write { texture: usize, write: MipWrite },
    /// Copy the first rows of a mip level to another texture.
    Copy { from: usize, to: usize, mip_level: u32, size: MipSize },
}

/// A texture that is being filled.
#[derive(Clone, Copy, Debug, PartialEq, Eq, Structural)]
pub struct ActiveTexture {
    pub prev_texture: usize,
    pub texture: usize,
    pub current_row: usize,
    pub start_time: Timestamp,
    pub end_time: Timestamp,
    pub width: u32,
}

/// A texture that is filled.
#[derive(Clone, Copy, Debug, PartialEq, Eq, Structural)]
pub struct FinishedTexture {
    pub texture: usize,
    pub prev_texture: usize,
    pub next_texture: usize,
    pub start_time: Timestamp,
    pub end_time: Timestamp,
}

/// The command that makes a texture of a waterfall.
pub open spec fn create_command(texture: usize, width: u32, height: u32) -> TextureCommand {
    TextureCommand::Create {
        texture,
        width,
        height,
        mip_level_count: level_count(height as nat) as u32,
    }
}

/// The commands that write a row, and the rows of further mip levels that it completes.
pub open spec fn row_commands(texture: usize, row: nat, width: u32, height: u32) -> Seq<
    TextureCommand,
> {
    Seq::new(
        levels_complete(row, level_count(height as nat)),
        |k: int|
            TextureCommand::Write { texture, write: mip_write(row, width as nat, k as nat) },
    )
}

/// The commands that copy the first rows of a texture to a smaller one.
pub open spec fn shrink_commands(from: usize, to: usize, width: u32, rows: u32) -> Seq<
    TextureCommand,
> {
    seq![create_command(to, width, rows)] + Seq::new(
        level_count(rows as nat),
        |k: int|
            TextureCommand::Copy {
                from,
                to,
                mip_level: k as u32,
                size: MipSize {
                    width: level_len(width as nat, k as nat) as u32,
                    height: level_row(rows as nat, k as nat) as u32,
                },
            },
    )
}

/// Whether rows of all mip levels of a texture fit into one buffer.
pub open spec fn fits_a_buffer(width: u32, height: u32) -> bool {
    width >= 1 && height >= 1 && 2 * width + level_count(height as nat) <= u32::MAX
}

/// Adds the command that makes a texture.
pub fn create(commands: &mut Vec<TextureCommand>, texture: usize, width: u32, height: u32)
    requires
        height >= 1,
    ensures
        final(commands)@ == old(commands)@.push(create_command(texture, width, height)),
{
    let mip_level_count: u32 = mip_level_count(height);
    commands.push(TextureCommand::Create { texture, width, height, mip_level_count });
}

/// Adds the commands that write a row.
pub fn write_row(
    commands: &mut Vec<TextureCommand>,
    texture: usize,
    row: u32,
    width: u32,
    height: u32,
)
    requires
        fits_a_buffer(width, height),
    ensures
        final(commands)@ == old(commands)@ + row_commands(texture, row as nat, width, height),
{
    let levels: u32 = mip_level_count(height);
    let writes: Vec<MipWrite> = mip_writes(row, width, levels);
    let ghost before = commands@;
    let ghost wanted = row_commands(texture, row as nat, width, height);
    let mut k: usize = 0;
    while k < writes.len()
        invariant
            k <= writes@.len(),
            writes@.len() == wanted.len(),
            forall|k: int|
                0 <= k < writes@.len() ==> #[trigger] writes@[k] == mip_write(
                    row as nat,
                    width as nat,
                    k as nat,
                ),
            wanted == row_commands(texture, row as nat, width, height),
            commands@ == before + wanted.take(k as int),
        decreases writes@.len() - k,
    {
        commands.push(TextureCommand::Write { texture, write: writes[k] });
        assert(wanted.take(k as int + 1) =~= wanted.take(k as int).push(wanted[k as int]));
        k = k + 1;
    }
    assert(wanted.take(k as int) =~= wanted);
}

/// Adds the commands that copy the first rows of a texture to a smaller one.
pub fn shrink(commands: &mut Vec<TextureCommand>, from: usize, to: usize, width: u32, rows: u32)
    requires
        width >= 1,
        rows >= 1,
    ensures
        final(commands)@ == old(commands)@ + shrink_commands(from, to, width, rows),
{
    let ghost before = commands@;
    let ghost wanted = shrink_commands(from, to, width, rows);
    create(commands, to, width, rows);
    let sizes: Vec<MipSize> = shrunk_sizes(width, rows);
    let mip_level_count: u32 = mip_level_count(rows);
    let mut level: u32 = 0;
    assert(commands@ =~= before + wanted.take(1));
    while level < mip_level_count
        invariant
            level <= mip_level_count,
            mip_level_count == level_count(rows as nat),
            sizes@.len() == mip_level_count,
            forall|k: int|
                0 <= k < sizes@.len() ==> #[trigger] sizes@[k] == (MipSize {
                    width: level_len(width as nat, k as nat) as u32,
                    height: level_row(rows as nat, k as nat) as u32,
                }),
            wanted == shrink_commands(from, to, width, rows),
            commands@ == before + wanted.take(level + 1),
        decreases mip_level_count - level,
    {
        commands.push(
            TextureCommand::Copy { from, to, mip_level: level, size: sizes[level as usize] },
        );
        assert(wanted.take(level + 2) =~= wanted.take(level + 1).push(wanted[level + 1]));
        level = level + 1;
    }
    assert(wanted.take(level + 1) =~= wanted);
}

impl ActiveTexture {
    /// Whether the texture can take rows, until it has `height` of them.
    pub open spec fn wf(self, height: u32) -> bool {
        &&& fits_a_buffer(self.width, height)
        &&& self.current_row <= height
    }

    /// A texture without any rows yet.
    pub open spec fn started(
        texture: usize,
        prev_texture: usize,
        start_time: Timestamp,
        width: u32,
    ) -> ActiveTexture {
        ActiveTexture {
            prev_texture,
            texture,
            current_row: 0,
            start_time,
            end_time: start_time,
            width,
        }
    }

    /// The texture that takes the rows after those of this one.
    pub open spec fn followed_by(self, texture: usize) -> ActiveTexture {
        ActiveTexture::started(texture, self.texture, self.end_time, self.width)
    }

    /// The texture with one row more.
    pub open spec fn with_row(self, time: Timestamp) -> ActiveTexture {
        ActiveTexture { current_row: (self.current_row + 1) as usize, end_time: time, ..self }
    }

    /// The texture as it is kept once it takes no more rows.
    pub open spec fn finished(self, texture: usize, next_texture: usize) -> FinishedTexture {
        FinishedTexture {
            texture,
            prev_texture: self.prev_texture,
            next_texture,
            start_time: self.start_time,
            end_time: self.end_time,
        }
    }

    /// A texture without any rows yet, and the command to make it.
    pub fn new(
        commands: &mut Vec<TextureCommand>,
        texture: usize,
        prev_texture: usize,
        start_time: Timestamp,
        width: u32,
        height: u32,
    ) -> (active: ActiveTexture)
        requires
            height >= 1,
        ensures
            active == ActiveTexture::started(texture, prev_texture, start_time, width),
            final(commands)@ == old(commands)@.push(create_command(texture, width, height)),
    {
        create(commands, texture, width, height);
        ActiveTexture {
            prev_texture,
            texture,
            current_row: 0,
            start_time,
            end_time: start_time,
            width,
        }
    }

    /// Adds a row.
    pub fn push_row(&mut self, commands: &mut Vec<TextureCommand>, time: Timestamp, height: u32)
        requires
            old(self).wf(height),
            old(self).current_row < height,
        ensures
            *final(self) == old(self).with_row(time),
            final(self).wf(height),
            final(commands)@ == old(commands)@ + row_commands(
                old(self).texture,
                old(self).current_row as nat,
                old(self).width,
                height,
            ),
    {
        write_row(commands, self.texture, self.current_row as u32, self.width, height);
        self.current_row = self.current_row + 1;
        self.end_time = time;
    }

    /// What is kept of a texture that takes no more rows: nothing where it has none. One
    /// that is not full is copied to a smaller one first, which gets the number `smaller`.
    pub fn finish(
        self,
        commands: &mut Vec<TextureCommand>,
        next_texture: usize,
        smaller: usize,
        height: u32,
    ) -> (finished: Option<FinishedTexture>)
        requires
            self.wf(height),
        ensures
            finished == if self.current_row == 0 {
                None
            } else if self.current_row < height {
                Some(self.finished(smaller, next_texture))
            } else {
                Some(self.finished(self.texture, next_texture))
            },
            final(commands)@ == if 0 < self.current_row < height {
                old(commands)@ + shrink_commands(
                    self.texture,
                    smaller,
                    self.width,
                    self.current_row as u32,
                )
            } else {
                old(commands)@
            },
    {
        if self.current_row == 0 {
            return None;
        }
        let texture: usize = if self.current_row < height as usize {
            shrink(commands, self.texture, smaller, self.width, self.current_row as u32);
            smaller
        } else {
            self.texture
        };
        Some(
            FinishedTexture {
                texture,
                prev_texture: self.prev_texture,
                next_texture,
                start_time: self.start_time,
                end_time: self.end_time,
            },
        )
    }
}

/// A texture starts without rows where the one before it ended. A row adds to it and moves its
/// end on. It is finished with the times that it covers, next to the textures beside it.
pub proof fn textures_follow_each_other(
    active: ActiveTexture,
    texture: usize,
    time: Timestamp,
    smaller: usize,
    width: u32,
)
    requires
        active.current_row < usize::MAX,
    ensures
        ActiveTexture::started(texture, smaller, time, width).texture == texture,
        ActiveTexture::started(texture, smaller, time, width).prev_texture == smaller,
        ActiveTexture::started(texture, smaller, time, width).current_row == 0,
        ActiveTexture::started(texture, smaller, time, width).start_time == time,
        ActiveTexture::started(texture, smaller, time, width).end_time == time,
        ActiveTexture::started(texture, smaller, time, width).width == width,
        active.followed_by(texture).texture == texture,
        active.followed_by(texture).prev_texture == active.texture,
        active.followed_by(texture).start_time == active.end_time,
        active.followed_by(texture).end_time == active.end_time,
        active.followed_by(texture).current_row == 0,
        active.followed_by(texture).width == active.width,
        active.with_row(time).current_row == active.current_row + 1,
        active.with_row(time).end_time == time,
        active.with_row(time).start_time == active.start_time,
        active.with_row(time).texture == active.texture,
        active.with_row(time).prev_texture == active.prev_texture,
        active.with_row(time).width == active.width,
        active.finished(smaller, texture).texture == smaller,
        active.finished(smaller, texture).next_texture == texture,
        active.finished(smaller, texture).prev_texture == active.prev_texture,
        active.finished(smaller, texture).start_time == active.start_time,
        active.finished(smaller, texture).end_time == active.end_time,
{
}

/// A row is written to every level that it completes, from the lowest on, and a level is
/// complete after every so many rows.
pub proof fn rows_complete_levels(texture: usize, row: nat, width: u32, height: u32, level: nat)
    ensures
        ({
            let commands = row_commands(texture, row, width, height);
            &&& level < commands.len() <==> level < level_count(height as nat) && (row + 1) % pow2(
                level,
            ) == 0
            &&& level < commands.len() ==> commands[level as int] == (TextureCommand::Write {
                texture,
                write: mip_write(row, width as nat, level),
            })
            &&& commands.len() >= 1
        }),
{
    complete_after_a_power_of_two(row, level_count(height as nat), level);
    level_count_is_log2(height as nat);
}

/// A texture that is too large is replaced by one with as many rows as were filled, and every
/// level of it is copied.
pub proof fn shrinking_copies_all_levels(from: usize, to: usize, width: u32, rows: u32, level: nat)
    requires
        width >= 1,
        rows >= 1,
        level < level_count(rows as nat),
    ensures
        ({
            let commands = shrink_commands(from, to, width, rows);
            &&& commands.len() == level_count(rows as nat) + 1
            &&& commands[0] matches TextureCommand::Create { texture, width: w, height, .. }
                && texture == to && w == width && height == rows
            &&& commands[level as int + 1] matches TextureCommand::Copy { from: f, to: t, mip_level, size }
                && f == from && t == to && mip_level == level as u32 && size.width == level_len(
                width as nat,
                level,
            ) && size.height == level_row(rows as nat, level)
        }),
{
    levels_fit(width as nat, level);
    level_rows_fall(rows as nat, level);
    assert(shrink_commands(from, to, width, rows)[level as int + 1] == (TextureCommand::Copy {
        from,
        to,
        mip_level: level as u32,
        size: MipSize {
            width: level_len(width as nat, level) as u32,
            height: level_row(rows as nat, level) as u32,
        },
    }));
}

/// A level has no more rows than the lowest one.
proof fn level_rows_fall(rows: nat, level: nat)
    ensures
        level_row(rows, level) <= rows,
    decreases level,
{
    if level > 0 {
        level_rows_fall(rows, (level - 1) as nat);
    }
}

} // verus!
