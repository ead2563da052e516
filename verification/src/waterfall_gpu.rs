//! The waterfalls of the streams that are received, as groups of textures that are
//! dropped once they are old.

use std::collections::BTreeMap;

use crate::active_document::StreamDescriptor;
use crate::maps::{lists, sorted_keys};
use crate::stream_history::{entry, WaterfallDrawInfo};
use crate::textures::{
    create_command, fits_a_buffer, row_commands, ActiveTexture, BLANK_TEXTURE, FinishedTexture,
    TEXTURE_HEIGHT, TextureCommand,
};
use crate::time::Timestamp;
use vstd::prelude::*;

verus! {

/// The textures of one stream.
pub struct TextureGroup {
    pub descriptor: StreamDescriptor,
    pub active_texture: ActiveTexture,
    pub finished_textures: Vec<FinishedTexture>,
    pub min: u32,
    pub max: u32,
}

/// The textures of one stream, as a sequence.
pub struct GroupModel {
    pub descriptor: StreamDescriptor,
    pub active_texture: ActiveTexture,
    pub finished_textures: Seq<FinishedTexture>,
    pub min: u32,
    pub max: u32,
}

/// Whether a texture ended after a time.
pub open spec fn is_recent(texture: FinishedTexture, time: Timestamp) -> bool {
    time.before(texture.end_time)
}

/// The textures that ended after a time.
pub open spec fn recent(textures: Seq<FinishedTexture>, time: Timestamp) -> Seq<FinishedTexture> {
    textures.filter(|texture: FinishedTexture| is_recent(texture, time))
}

impl GroupModel {
    /// A group for a stream of which no row was received yet.
    pub open spec fn started(
        texture: usize,
        descriptor: StreamDescriptor,
        start_time: Timestamp,
        width: u32,
        min: u32,
        max: u32,
    ) -> GroupModel {
        GroupModel {
            descriptor,
            active_texture: ActiveTexture::started(texture, BLANK_TEXTURE, start_time, width),
            finished_textures: Seq::empty(),
            min,
            max,
        }
    }

    /// The group with a new texture in place of the one that is full.
    pub open spec fn swapped(self, texture: usize, width: u32) -> GroupModel {
        let active = self.active_texture;
        GroupModel {
            active_texture: ActiveTexture::started(
                texture,
                active.texture,
                active.end_time,
                width,
            ),
            finished_textures: self.finished_textures.push(
                active.finished(active.texture, texture),
            ),
            ..self
        }
    }

    /// The group with a row more.
    pub open spec fn with_row(
        self,
        texture: usize,
        width: u32,
        time: Timestamp,
        min: u32,
        max: u32,
    ) -> GroupModel {
        let ready = if self.active_texture.current_row < TEXTURE_HEIGHT {
            self
        } else {
            self.swapped(texture, width)
        };
        GroupModel { active_texture: ready.active_texture.with_row(time), min, max, ..ready }
    }

    /// What is to be done for a row.
    pub open spec fn row_commands(self, texture: usize, width: u32) -> Seq<TextureCommand> {
        let active = self.active_texture;
        if active.current_row < TEXTURE_HEIGHT {
            row_commands(active.texture, active.current_row as nat, active.width, TEXTURE_HEIGHT)
        } else {
            seq![create_command(texture, width, TEXTURE_HEIGHT)] + row_commands(
                texture,
                0,
                width,
                TEXTURE_HEIGHT,
            )
        }
    }

    /// What is left of the group once the textures that ended by a time are dropped.
    pub open spec fn pruned(self, time: Timestamp) -> Option<GroupModel> {
        let left = recent(self.finished_textures, time);
        if left.len() > 0 || time.before(self.active_texture.end_time) {
            Some(GroupModel { finished_textures: left, ..self })
        } else {
            None
        }
    }

    /// What is drawn of the finished texture with the given index.
    pub open spec fn finished_info(self, index: int) -> WaterfallDrawInfo<StreamDescriptor> {
        WaterfallDrawInfo {
            descriptor: self.descriptor,
            start_time: self.finished_textures[index].start_time,
            end_time: self.finished_textures[index].end_time,
            texture: self.finished_textures[index].texture,
            prev_texture: self.finished_textures[index].prev_texture,
            next_texture: self.finished_textures[index].next_texture,
            min: self.min,
            max: self.max,
            filled: TEXTURE_HEIGHT,
        }
    }

    /// What is drawn of the texture that is being filled.
    pub open spec fn active_info(self) -> WaterfallDrawInfo<StreamDescriptor> {
        WaterfallDrawInfo {
            descriptor: self.descriptor,
            start_time: self.active_texture.start_time,
            end_time: self.active_texture.end_time,
            texture: self.active_texture.texture,
            prev_texture: self.active_texture.prev_texture,
            next_texture: BLANK_TEXTURE,
            min: self.min,
            max: self.max,
            filled: self.active_texture.current_row as u32,
        }
    }

    /// What is drawn of the group: the finished textures, then the one being filled.
    pub open spec fn infos(self) -> Seq<WaterfallDrawInfo<StreamDescriptor>> {
        Seq::new(self.finished_textures.len(), |k: int| self.finished_info(k)).push(
            self.active_info(),
        )
    }
}

/// What is drawn of several groups.
pub open spec fn all_infos(groups: Map<usize, GroupModel>, ids: Seq<usize>) -> Seq<
    WaterfallDrawInfo<StreamDescriptor>,
>
    decreases ids.len(),
{
    if ids.len() == 0 {
        Seq::empty()
    } else {
        all_infos(groups, ids.drop_last()) + groups[ids.last()].infos()
    }
}

impl TextureGroup {
    pub open spec fn model(self) -> GroupModel {
        GroupModel {
            descriptor: self.descriptor,
            active_texture: self.active_texture,
            finished_textures: self.finished_textures@,
            min: self.min,
            max: self.max,
        }
    }

    /// Adds a row. Where the texture is full, the row goes to a new one, which gets the
    /// number `texture`.
    fn add_row(
        &mut self,
        commands: &mut Vec<TextureCommand>,
        texture: usize,
        width: u32,
        min: u32,
        max: u32,
        end_time: Timestamp,
    )
        requires
            old(self).active_texture.wf(TEXTURE_HEIGHT),
            fits_a_buffer(width, TEXTURE_HEIGHT),
        ensures
            final(self).active_texture.wf(TEXTURE_HEIGHT),
            final(self).model() == old(self).model().with_row(texture, width, end_time, min, max),
            final(commands)@ == old(commands)@ + old(self).model().row_commands(texture, width),
    {
        let ghost before = self.model();
        if self.active_texture.current_row >= TEXTURE_HEIGHT as usize {
            self.swap_active_texture(commands, texture, width);
        }
        self.active_texture.push_row(commands, end_time, TEXTURE_HEIGHT);
        self.min = min;
        self.max = max;
        assert(commands@ =~= old(commands)@ + before.row_commands(texture, width));
    }

    /// Puts a new texture in place of the one that is full.
    fn swap_active_texture(
        &mut self,
        commands: &mut Vec<TextureCommand>,
        texture: usize,
        width: u32,
    )
        ensures
            final(self).model() == old(self).model().swapped(texture, width),
            final(commands)@ == old(commands)@.push(create_command(texture, width, TEXTURE_HEIGHT)),
    {
        let active: ActiveTexture = self.active_texture;
        self.active_texture = ActiveTexture::new(
            commands,
            texture,
            active.texture,
            active.end_time,
            width,
            TEXTURE_HEIGHT,
        );
        self.finished_textures.push(
            FinishedTexture {
                texture: active.texture,
                prev_texture: active.prev_texture,
                next_texture: texture,
                start_time: active.start_time,
                end_time: active.end_time,
            },
        );
    }

    /// Drops the finished textures that ended by a time. Returns whether anything of the
    /// group is still recent.
    fn prune_old_textures(&mut self, time: Timestamp) -> (any_remain: bool)
        ensures
            final(self).model() == (GroupModel {
                finished_textures: recent(old(self).model().finished_textures, time),
                ..old(self).model()
            }),
            any_remain <==> old(self).model().pruned(time) is Some,
    {
        let mut left: Vec<FinishedTexture> = Vec::new();
        let mut i: usize = 0;
        let ghost all = self.finished_textures@;
        proof {
            reveal(Seq::filter);
        }
        while i < self.finished_textures.len()
            invariant
                i <= all.len(),
                all == self.finished_textures@,
                left@ == recent(all.take(i as int), time),
            decreases all.len() - i,
        {
            proof {
                reveal(Seq::filter);
                assert(all.take(i as int + 1).drop_last() =~= all.take(i as int));
                assert(all.take(i as int + 1).last() == all[i as int]);
            }
            if time.lt(self.finished_textures[i].end_time) {
                left.push(self.finished_textures[i]);
            }
            i = i + 1;
        }
        assert(all.take(i as int) =~= all);
        let any_remain: bool = left.len() > 0 || time.lt(self.active_texture.end_time);
        self.finished_textures = left;
        any_remain
    }
}

/// The waterfalls of all streams.
pub struct WaterfallGpu {
    pub texture_groups: BTreeMap<usize, TextureGroup>,
    pub next_texture: usize,
}

/// What groups there are.
pub open spec fn groups_model(groups: Map<usize, TextureGroup>) -> Map<usize, GroupModel> {
    groups.map_values(|group: TextureGroup| group.model())
}

impl WaterfallGpu {
    pub open spec fn groups(&self) -> Map<usize, GroupModel> {
        groups_model(self.texture_groups@)
    }

    /// Whether every texture can take its rows.
    pub open spec fn wf(&self) -> bool {
        &&& BLANK_TEXTURE < self.next_texture
        &&& forall|id: usize| #[trigger]
            self.groups().contains_key(id) ==> {
                &&& self.groups()[id].active_texture.wf(TEXTURE_HEIGHT)
                &&& self.groups()[id].active_texture.texture < self.next_texture
            }
    }

    /// No streams at all.
    pub fn new() -> (gpu: WaterfallGpu)
        ensures
            gpu.wf(),
            gpu.groups() == Map::<usize, GroupModel>::empty(),
            gpu.next_texture == BLANK_TEXTURE + 1,
    {
        let gpu = WaterfallGpu {
            texture_groups: BTreeMap::new(),
            next_texture: BLANK_TEXTURE + 1,
        };
        assert(gpu.groups() =~= Map::empty());
        gpu
    }

    /// Adds a row to the waterfall of a stream, which is started where it is new.
    pub fn add_row(
        &mut self,
        stream_id: usize,
        descriptor: StreamDescriptor,
        start_time: Timestamp,
        time: Timestamp,
        spectrum_len: u32,
        min: u32,
        max: u32,
    ) -> (commands: Vec<TextureCommand>)
        requires
            old(self).wf(),
            old(self).next_texture < usize::MAX,
            fits_a_buffer(spectrum_len, TEXTURE_HEIGHT),
            old(self).groups().contains_key(stream_id) ==> {
                let active = old(self).groups()[stream_id].active_texture;
                active.current_row < TEXTURE_HEIGHT ==> active.width == spectrum_len
            },
        ensures
            final(self).wf(),
            ({
                let texture = old(self).next_texture;
                let known = old(self).groups().contains_key(stream_id);
                let group = if known {
                    old(self).groups()[stream_id]
                } else {
                    GroupModel::started(texture, descriptor, start_time, spectrum_len, min, max)
                };
                let used = !known || group.active_texture.current_row >= TEXTURE_HEIGHT;
                &&& final(self).groups() == old(self).groups().insert(
                    stream_id,
                    group.with_row(texture, spectrum_len, time, min, max),
                )
                &&& final(self).next_texture == if used {
                    texture + 1
                } else {
                    texture as int
                }
                &&& row_was_added(
                    old(self).groups(),
                    old(self).next_texture,
                    stream_id,
                    final(self).groups(),
                    final(self).next_texture,
                )
                &&& commands@ == if known {
                    group.row_commands(texture, spectrum_len)
                } else {
                    seq![create_command(texture, spectrum_len, TEXTURE_HEIGHT)]
                        + group.row_commands(texture, spectrum_len)
                }
            }),
    {
        let ghost before = self.groups();
        let mut commands: Vec<TextureCommand> = Vec::new();
        let texture: usize = self.next_texture;
        assert(before.contains_key(stream_id) <==> self.texture_groups@.contains_key(stream_id));
        let mut group: TextureGroup = match self.texture_groups.remove(&stream_id) {
            Some(group) => {
                if group.active_texture.current_row >= TEXTURE_HEIGHT as usize {
                    self.next_texture = self.next_texture + 1;
                }
                group
            },
            None => {
                self.next_texture = self.next_texture + 1;
                TextureGroup {
                    descriptor,
                    active_texture: ActiveTexture::new(
                        &mut commands,
                        texture,
                        BLANK_TEXTURE,
                        start_time,
                        spectrum_len,
                        TEXTURE_HEIGHT,
                    ),
                    finished_textures: Vec::new(),
                    min,
                    max,
                }
            },
        };
        group.add_row(&mut commands, texture, spectrum_len, min, max, time);
        self.texture_groups.insert(stream_id, group);
        proof {
            assert(self.groups() =~= before.insert(stream_id, group.model()));
            assert forall|id: usize| #[trigger] self.groups().contains_key(id) implies {
                &&& self.groups()[id].active_texture.wf(TEXTURE_HEIGHT)
                &&& self.groups()[id].active_texture.texture < self.next_texture
            } by {
                assert(id != stream_id ==> before.contains_key(id));
            }
        }
        commands
    }

    /// Drops what ended by a time.
    pub fn prune_old_textures(&mut self, time: Timestamp)
        requires
            old(self).wf(),
        ensures
            final(self).wf(),
            final(self).next_texture == old(self).next_texture,
            forall|id: usize| #[trigger]
                entry(final(self).groups(), id) == match entry(old(self).groups(), id) {
                    Some(group) => group.pruned(time),
                    None => None,
                },
    {
        let ghost before = self.groups();
        let ids: Vec<usize> = sorted_keys(&self.texture_groups);
        let mut i: usize = 0;
        assert forall|j: int| 0 <= j < ids@.len() implies before.contains_key(#[trigger] ids@[j]) by {
            assert(ids@.contains(ids@[j]));
        }
        while i < ids.len()
            invariant
                i <= ids@.len(),
                lists(ids@, before.dom()),
                self.wf(),
                self.next_texture == old(self).next_texture,
                self.groups().dom().subset_of(before.dom()),
                forall|j: int|
                    i <= j < ids@.len() ==> self.groups().contains_key(#[trigger] ids@[j])
                        && self.groups()[ids@[j]] == before[ids@[j]],
                forall|j: int|
                    0 <= j < i ==> entry(self.groups(), #[trigger] ids@[j])
                        == before[ids@[j]].pruned(time),
            decreases ids@.len() - i,
        {
            let id: usize = ids[i];
            let ghost groups = self.groups();
            proof {
                assert(ids@[i as int] == id);
                assert(groups.contains_key(id));
                assert(before.contains_key(id));
                assert forall|j: int| 0 <= j < ids@.len() && j != i implies #[trigger] ids@[j]
                    != id by {
                    if j < i {
                        assert(ids@[j] < ids@[i as int]);
                    } else {
                        assert(ids@[i as int] < ids@[j]);
                    }
                }
            }
            let mut group: TextureGroup = self.texture_groups.remove(&id).unwrap();
            if group.prune_old_textures(time) {
                self.texture_groups.insert(id, group);
            }
            proof {
                assert forall|j: int| 0 <= j < i + 1 implies entry(self.groups(), #[trigger] ids@[j])
                    == before[ids@[j]].pruned(time) by {
                    if j < i {
                        assert(entry(self.groups(), ids@[j]) == entry(groups, ids@[j]));
                    }
                }
                assert forall|other: usize| #[trigger] self.groups().contains_key(other) implies {
                    &&& self.groups()[other].active_texture.wf(TEXTURE_HEIGHT)
                    &&& self.groups()[other].active_texture.texture < self.next_texture
                } by {
                    assert(groups.contains_key(other));
                }
            }
            i = i + 1;
        }
        proof {
            assert forall|id: usize| #[trigger] entry(self.groups(), id) == match entry(
                before,
                id,
            ) {
                Some(group) => group.pruned(time),
                None => None,
            } by {
                if before.contains_key(id) {
                    assert(ids@.contains(id));
                    let j = choose|j: int| 0 <= j < ids@.len() && ids@[j] == id;
                    assert(ids@[j] == id);
                }
            }
        }
    }

    /// What is drawn: stream by stream, the finished textures and then the one that is
    /// being filled.
    pub fn draw_list(&self) -> (infos: Vec<WaterfallDrawInfo<StreamDescriptor>>)
        requires
            self.wf(),
        ensures
            exists|ids: Seq<usize>|
                lists(ids, self.groups().dom()) && infos@ == #[trigger] all_infos(
                    self.groups(),
                    ids,
                ),
    {
        let ghost groups = self.groups();
        let ids: Vec<usize> = sorted_keys(&self.texture_groups);
        assert(groups.dom() =~= self.texture_groups@.dom());
        let mut infos: Vec<WaterfallDrawInfo<StreamDescriptor>> = Vec::new();
        let mut n: usize = 0;
        assert(ids@.take(0) =~= Seq::<usize>::empty());
        while n < ids.len()
            invariant
                n <= ids@.len(),
                groups == self.groups(),
                self.wf(),
                lists(ids@, groups.dom()),
                infos@ == all_infos(groups, ids@.take(n as int)),
            decreases ids@.len() - n,
        {
            let ghost id = ids@[n as int];
            proof {
                assert(ids@.contains(id));
                assert(groups.contains_key(id));
                assert(ids@.take(n as int + 1).drop_last() =~= ids@.take(n as int));
            }
            let group: &TextureGroup = self.texture_groups.get(&ids[n]).unwrap();
            let ghost before = infos@;
            let ghost wanted = groups[id].infos();
            let mut k: usize = 0;
            while k < group.finished_textures.len()
                invariant
                    k <= group.finished_textures@.len(),
                    wanted == group.model().infos(),
                    infos@ == before + wanted.take(k as int),
                decreases group.finished_textures@.len() - k,
            {
                let texture_info: &FinishedTexture = &group.finished_textures[k];
                infos.push(
                    WaterfallDrawInfo {
                        descriptor: group.descriptor,
                        start_time: texture_info.start_time,
                        end_time: texture_info.end_time,
                        texture: texture_info.texture,
                        prev_texture: texture_info.prev_texture,
                        next_texture: texture_info.next_texture,
                        min: group.min,
                        max: group.max,
                        filled: TEXTURE_HEIGHT,
                    },
                );
                assert(wanted.take(k as int + 1) =~= wanted.take(k as int).push(wanted[k as int]));
                k = k + 1;
            }
            infos.push(
                WaterfallDrawInfo {
                    descriptor: group.descriptor,
                    start_time: group.active_texture.start_time,
                    end_time: group.active_texture.end_time,
                    texture: group.active_texture.texture,
                    prev_texture: group.active_texture.prev_texture,
                    next_texture: BLANK_TEXTURE,
                    min: group.min,
                    max: group.max,
                    filled: group.active_texture.current_row as u32,
                },
            );
            proof {
                assert(infos@ =~= before + wanted);
                assert(infos@ =~= all_infos(groups, ids@.take(n as int + 1)));
            }
            n = n + 1;
        }
        assert(ids@.take(n as int) =~= ids@);
        infos
    }
}

/// What was recent at a time was so at every earlier one: dropping twice drops what the
/// later time drops.
pub proof fn pruning_twice(textures: Seq<FinishedTexture>, earlier: Timestamp, later: Timestamp)
    requires
        earlier.before(later) || earlier == later,
    ensures
        recent(recent(textures, earlier), later) == recent(textures, later),
    decreases textures.len(),
{
    reveal(Seq::filter);
    if textures.len() > 0 {
        let rest = textures.drop_last();
        pruning_twice(rest, earlier, later);
        if is_recent(textures.last(), earlier) {
            let left = recent(textures, earlier);
            assert(left.drop_last() =~= recent(rest, earlier));
            assert(left.last() == textures.last());
        }
    }
}

/// A row is added to the texture that is being filled, or to a new one behind it where that is
/// full; the full one is then finished with the times that it covers. The levels are those of
/// the last row.
pub proof fn rows_fill_textures(
    group: GroupModel,
    texture: usize,
    width: u32,
    time: Timestamp,
    min: u32,
    max: u32,
)
    requires
        group.active_texture.current_row <= TEXTURE_HEIGHT,
    ensures
        ({
            let after = group.with_row(texture, width, time, min, max);
            let was = group.active_texture;
            let now = after.active_texture;
            &&& after.descriptor == group.descriptor && after.min == min && after.max == max
            &&& now.end_time == time
            &&& was.current_row < TEXTURE_HEIGHT ==> {
                &&& now.texture == was.texture && now.prev_texture == was.prev_texture
                &&& now.current_row == was.current_row + 1
                &&& now.start_time == was.start_time && now.width == was.width
                &&& after.finished_textures == group.finished_textures
            }
            &&& was.current_row == TEXTURE_HEIGHT ==> {
                &&& now.texture == texture && now.prev_texture == was.texture
                &&& now.current_row == 1
                &&& now.start_time == was.end_time && now.width == width
                &&& after.finished_textures.len() == group.finished_textures.len() + 1
                &&& after.finished_textures.drop_last() == group.finished_textures
                &&& after.finished_textures.last().texture == was.texture
                &&& after.finished_textures.last().prev_texture == was.prev_texture
                &&& after.finished_textures.last().next_texture == texture
                &&& after.finished_textures.last().start_time == was.start_time
                &&& after.finished_textures.last().end_time == was.end_time
            }
        }),
{
    let after = group.with_row(texture, width, time, min, max);
    if group.active_texture.current_row == TEXTURE_HEIGHT {
        assert(after.finished_textures.drop_last() =~= group.finished_textures);
    }
}

/// What starts has no rows and nothing before it.
pub proof fn groups_start_empty(
    texture: usize,
    descriptor: StreamDescriptor,
    start_time: Timestamp,
    width: u32,
    min: u32,
    max: u32,
)
    ensures
        ({
            let group = GroupModel::started(texture, descriptor, start_time, width, min, max);
            &&& group.descriptor == descriptor && group.min == min && group.max == max
            &&& group.finished_textures.len() == 0
            &&& group.active_texture.texture == texture
            &&& group.active_texture.prev_texture == BLANK_TEXTURE
            &&& group.active_texture.current_row == 0
            &&& group.active_texture.start_time == start_time
            &&& group.active_texture.width == width
        }),
{
}

/// A texture that ended at a time or before it is dropped, and any other stays. A stream is
/// dropped exactly where nothing of it ended later.
pub proof fn old_textures_are_dropped(group: GroupModel, time: Timestamp, i: int)
    ensures
        group.pruned(time) is None <==> !time.before(group.active_texture.end_time) && forall|k: int|
            0 <= k < group.finished_textures.len() ==> !time.before(
                (#[trigger] group.finished_textures[k]).end_time,
            ),
        group.pruned(time) matches Some(left) ==> {
            &&& left.active_texture == group.active_texture && left.descriptor == group.descriptor
            &&& left.min == group.min && left.max == group.max
            &&& 0 <= i < group.finished_textures.len() && time.before(
                group.finished_textures[i].end_time,
            ) ==> left.finished_textures.contains(group.finished_textures[i])
            &&& 0 <= i < left.finished_textures.len() ==> time.before(
                left.finished_textures[i].end_time,
            )
        },
    decreases group.finished_textures.len(),
{
    let textures = group.finished_textures;
    let keep = |texture: FinishedTexture| is_recent(texture, time);
    let left = recent(textures, time);
    assert(left == textures.filter(keep));
    if 0 <= i < textures.len() && time.before(textures[i].end_time) {
        assert(keep(textures[i]));
        textures.lemma_filter_contains(keep, i);
    }
    if 0 <= i < left.len() {
        textures.lemma_filter_pred(keep, i);
    }
    if left.len() > 0 {
        textures.lemma_filter_pred(keep, 0);
        recent_was_there(textures, time, 0);
        let k = choose|k: int| 0 <= k < textures.len() && textures[k] == left[0];
        assert(time.before(textures[k].end_time));
    } else {
        assert forall|k: int| 0 <= k < textures.len() implies !time.before(
            (#[trigger] textures[k]).end_time,
        ) by {
            if time.before(textures[k].end_time) {
                assert(keep(textures[k]));
                textures.lemma_filter_contains(keep, k);
            }
        }
    }
}

/// What is recent was there.
proof fn recent_was_there(textures: Seq<FinishedTexture>, time: Timestamp, i: int)
    requires
        0 <= i < recent(textures, time).len(),
    ensures
        textures.contains(recent(textures, time)[i]),
    decreases textures.len(),
{
    reveal(Seq::filter);
    if textures.len() > 0 {
        let rest = textures.drop_last();
        if i < recent(rest, time).len() {
            recent_was_there(rest, time, i);
            let k = choose|k: int| 0 <= k < rest.len() && rest[k] == recent(rest, time)[i];
            assert(textures[k] == recent(textures, time)[i]);
        } else {
            assert(textures[textures.len() - 1] == recent(textures, time)[i]);
        }
    }
}

/// What is drawn of a stream is its finished textures, in order, and then the one that is being
/// filled, as far as it is. Each is drawn with its own times and neighbours, and all with the
/// levels of the stream.
pub proof fn textures_are_drawn_as_they_are(group: GroupModel, i: int)
    requires
        group.active_texture.current_row <= TEXTURE_HEIGHT,
    ensures
        ({
            let infos = group.infos();
            &&& infos.len() == group.finished_textures.len() + 1
            &&& 0 <= i < infos.len() ==> infos[i].descriptor == group.descriptor && infos[i].min
                == group.min && infos[i].max == group.max
            &&& 0 <= i < group.finished_textures.len() ==> {
                let texture = group.finished_textures[i];
                &&& infos[i].texture == texture.texture
                &&& infos[i].prev_texture == texture.prev_texture
                &&& infos[i].next_texture == texture.next_texture
                &&& infos[i].start_time == texture.start_time
                &&& infos[i].end_time == texture.end_time
                &&& infos[i].filled == TEXTURE_HEIGHT
            }
            &&& infos.last().texture == group.active_texture.texture
            &&& infos.last().prev_texture == group.active_texture.prev_texture
            &&& infos.last().next_texture == BLANK_TEXTURE
            &&& infos.last().start_time == group.active_texture.start_time
            &&& infos.last().end_time == group.active_texture.end_time
            &&& infos.last().filled == group.active_texture.current_row
        }),
{
}

/// A row is written to the texture that holds it, at the place where it stands there. Where that
/// texture is a new one, it is made before.
pub proof fn rows_are_written_where_they_stand(
    group: GroupModel,
    texture: usize,
    width: u32,
    time: Timestamp,
    min: u32,
    max: u32,
)
    requires
        group.active_texture.current_row <= TEXTURE_HEIGHT,
    ensures
        ({
            let now = group.with_row(texture, width, time, min, max).active_texture;
            let written = row_commands(
                now.texture,
                (now.current_row - 1) as nat,
                now.width,
                TEXTURE_HEIGHT,
            );
            &&& group.active_texture.current_row < TEXTURE_HEIGHT ==> group.row_commands(
                texture,
                width,
            ) == written
            &&& group.active_texture.current_row == TEXTURE_HEIGHT ==> group.row_commands(
                texture,
                width,
            ) == seq![create_command(texture, width, TEXTURE_HEIGHT)] + written
        }),
{
}

/// What is drawn of several streams is what is drawn of each, in order.
pub proof fn streams_are_drawn_one_by_one(
    groups: Map<usize, GroupModel>,
    first: Seq<usize>,
    second: Seq<usize>,
    id: usize,
)
    ensures
        all_infos(groups, first + second) == all_infos(groups, first) + all_infos(groups, second),
        all_infos(groups, seq![id]) == groups[id].infos(),
    decreases second.len(),
{
    let one = seq![id];
    assert(one.drop_last() =~= Seq::<usize>::empty());
    assert(all_infos(groups, one.drop_last()).len() == 0);
    assert(all_infos(groups, one) =~= groups[id].infos());
    if second.len() == 0 {
        assert(first + second =~= first);
        assert(all_infos(groups, first) + all_infos(groups, second) =~= all_infos(groups, first));
    } else {
        streams_are_drawn_one_by_one(groups, first, second.drop_last(), id);
        assert((first + second).drop_last() =~= first + second.drop_last());
        assert(all_infos(groups, first + second) =~= all_infos(groups, first) + all_infos(
            groups,
            second,
        ));
    }
}

/// Whether a row was added to a stream, in a texture with a number that was given out before or in
/// one with the next number.
pub open spec fn row_was_added(
    before: Map<usize, GroupModel>,
    next_before: usize,
    stream_id: usize,
    after: Map<usize, GroupModel>,
    next_after: usize,
) -> bool {
    let begins = !before.contains_key(stream_id)
        || before[stream_id].active_texture.current_row >= TEXTURE_HEIGHT;
    &&& after.contains_key(stream_id)
    &&& after[stream_id].active_texture.texture == if begins {
        next_before
    } else {
        before[stream_id].active_texture.texture
    }
    &&& next_after == if begins {
        next_before + 1
    } else {
        next_before as int
    }
    &&& forall|other: usize|
        other != stream_id ==> #[trigger] entry(after, other) == entry(before, other)
}

/// No texture is given the number of another: a row that begins a texture gives it the next
/// number, and that is then given out. Any other row goes to the texture of its stream, and the
/// other streams stay.
pub proof fn textures_have_numbers_of_their_own(
    before: Map<usize, GroupModel>,
    next_before: usize,
    stream_id: usize,
    after: Map<usize, GroupModel>,
    next_after: usize,
    other: usize,
)
    requires
        row_was_added(before, next_before, stream_id, after, next_after),
        forall|id: usize| #[trigger]
            before.contains_key(id) ==> before[id].active_texture.texture < next_before,
    ensures
        forall|id: usize| #[trigger]
            after.contains_key(id) ==> after[id].active_texture.texture < next_after,
        next_before <= next_after,
        !before.contains_key(stream_id) ==> after[stream_id].active_texture.texture == next_before,
        other != stream_id ==> (after.contains_key(other) <==> before.contains_key(other)),
        other != stream_id && before.contains_key(other) ==> after[other] == before[other],
{
    assert(entry(after, other) == entry(before, other) || other == stream_id);
    assert forall|id: usize| #[trigger] after.contains_key(id) implies after[
        id
    ].active_texture.texture < next_after by {
        if id != stream_id {
            assert(entry(after, id) == entry(before, id));
            assert(before.contains_key(id));
        }
    }
}

} // verus!
