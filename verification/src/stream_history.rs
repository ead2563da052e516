//! The waterfall of each stream that was received, kept as textures.

use std::collections::{BTreeMap, VecDeque};

use crate::maps::{increasing, list_length, lists, sorted_keys};
use crate::search::partition_point;
use crate::textures::{
    create_command, fits_a_buffer, row_commands, shrink_commands, ActiveTexture, BLANK_TEXTURE,
    FinishedTexture, TEXTURE_HEIGHT, TextureCommand,
};
use crate::time::Timestamp;
use vstd::prelude::*;

verus! {

/// The bits of a number that is not a number.
pub const NAN: u32 = 0x7fc0_0000;

/// The levels of a row of a waterfall, as the bits of floating point numbers.
#[derive(Clone, Copy, Debug, PartialEq, Eq, Structural)]
pub struct Levels {
    pub min: u32,
    pub max: u32,
    pub peak: u32,
    pub overload: bool,
}

/// What is known of a row of a waterfall besides its spectrum.
#[derive(Clone, Copy, Debug, PartialEq, Eq, Structural)]
pub struct WaterfallRow {
    pub time: Timestamp,
    pub levels: Levels,
}

/// A stream whose waterfall still grows.
#[derive(Clone, Copy, Debug)]
pub struct ActiveStream<D> {
    pub descriptor: D,
    pub active: ActiveTexture,
    pub levels: Levels,
}

/// The textures of a stream that take no more rows.
pub struct FinishedStream<D> {
    pub descriptor: D,
    pub textures: VecDeque<FinishedTexture>,
    pub min: u32,
    pub max: u32,
}

/// The textures of a stream that take no more rows, as a sequence.
pub struct FinishedModel<D> {
    pub descriptor: D,
    pub textures: Seq<FinishedTexture>,
    pub min: u32,
    pub max: u32,
}

impl<D> FinishedStream<D> {
    pub open spec fn model(self) -> FinishedModel<D> {
        FinishedModel {
            descriptor: self.descriptor,
            textures: self.textures@,
            min: self.min,
            max: self.max,
        }
    }
}

/// What finished textures are kept.
pub open spec fn finished_model<D>(finished: Map<usize, FinishedStream<D>>) -> Map<
    usize,
    FinishedModel<D>,
> {
    finished.map_values(|stream: FinishedStream<D>| stream.model())
}

/// The state of the waterfalls of all streams.
pub struct HistoryModel<D> {
    pub active: Map<usize, ActiveStream<D>>,
    pub finished: Map<usize, FinishedModel<D>>,
    /// The number that the next texture gets.
    pub next: int,
}

impl<D> HistoryModel<D> {
    /// No streams at all.
    pub open spec fn empty() -> HistoryModel<D> {
        HistoryModel { active: Map::empty(), finished: Map::empty(), next: BLANK_TEXTURE + 1 }
    }

    /// A stream was started.
    pub open spec fn started(
        self,
        id: usize,
        descriptor: D,
        start_time: Timestamp,
        spectrum_len: u32,
    ) -> HistoryModel<D> {
        HistoryModel {
            active: self.active.insert(
                id,
                ActiveStream {
                    descriptor,
                    active: ActiveTexture::started(
                        self.next as usize,
                        BLANK_TEXTURE,
                        start_time,
                        spectrum_len,
                    ),
                    levels: Levels { min: NAN, max: NAN, peak: NAN, overload: false },
                },
            ),
            next: self.next + 1,
            ..self
        }
    }

    /// A texture of a stream was finished.
    pub open spec fn with_finished(
        self,
        id: usize,
        descriptor: D,
        min: u32,
        max: u32,
        texture: FinishedTexture,
    ) -> HistoryModel<D> {
        HistoryModel {
            finished: self.finished.insert(
                id,
                if self.finished.contains_key(id) {
                    FinishedModel {
                        textures: self.finished[id].textures.push(texture),
                        min,
                        max,
                        ..self.finished[id]
                    }
                } else {
                    FinishedModel { descriptor, textures: seq![texture], min, max }
                },
            ),
            ..self
        }
    }

    /// A row of a stream was received: it goes to the texture of the stream, or to a new
    /// one that follows it where that is full.
    pub open spec fn after_row(self, id: usize, row: WaterfallRow) -> HistoryModel<D> {
        let stream = self.active[id];
        if stream.active.current_row < TEXTURE_HEIGHT {
            HistoryModel {
                active: self.active.insert(
                    id,
                    ActiveStream {
                        active: stream.active.with_row(row.time),
                        levels: row.levels,
                        ..stream
                    },
                ),
                ..self
            }
        } else {
            let texture = self.next as usize;
            let next = HistoryModel {
                active: self.active.insert(
                    id,
                    ActiveStream {
                        active: stream.active.followed_by(texture).with_row(row.time),
                        levels: row.levels,
                        ..stream
                    },
                ),
                next: self.next + 1,
                ..self
            };
            next.with_finished(
                id,
                stream.descriptor,
                row.levels.min,
                row.levels.max,
                stream.active.finished(stream.active.texture, texture),
            )
        }
    }

    /// What is to be done for a row.
    pub open spec fn row_commands(self, id: usize) -> Seq<TextureCommand> {
        let active = self.active[id].active;
        if active.current_row < TEXTURE_HEIGHT {
            row_commands(active.texture, active.current_row as nat, active.width, TEXTURE_HEIGHT)
        } else {
            seq![create_command(self.next as usize, active.width, TEXTURE_HEIGHT)] + row_commands(
                self.next as usize,
                0,
                active.width,
                TEXTURE_HEIGHT,
            )
        }
    }

    /// Rows of a stream were received, one after the other.
    pub open spec fn after_rows(self, id: usize, rows: Seq<WaterfallRow>) -> HistoryModel<D>
        decreases rows.len(),
    {
        if rows.len() == 0 {
            self
        } else {
            self.after_rows(id, rows.drop_last()).after_row(id, rows.last())
        }
    }

    /// What is to be done for rows, one after the other.
    pub open spec fn rows_commands(self, id: usize, rows: Seq<WaterfallRow>) -> Seq<TextureCommand>
        decreases rows.len(),
    {
        if rows.len() == 0 {
            Seq::empty()
        } else {
            self.rows_commands(id, rows.drop_last()) + self.after_rows(
                id,
                rows.drop_last(),
            ).row_commands(id)
        }
    }

    /// A stream has ended. What rows its texture has are kept.
    pub open spec fn ended(self, id: usize) -> HistoryModel<D> {
        let stream = self.active[id];
        let rest = HistoryModel { active: self.active.remove(id), ..self };
        if stream.active.current_row == 0 {
            rest
        } else if stream.active.current_row < TEXTURE_HEIGHT {
            HistoryModel { next: self.next + 1, ..rest }.with_finished(
                id,
                stream.descriptor,
                stream.levels.min,
                stream.levels.max,
                stream.active.finished(self.next as usize, BLANK_TEXTURE),
            )
        } else {
            rest.with_finished(
                id,
                stream.descriptor,
                stream.levels.min,
                stream.levels.max,
                stream.active.finished(stream.active.texture, BLANK_TEXTURE),
            )
        }
    }

    /// What is to be done where a stream has ended.
    pub open spec fn end_commands(self, id: usize) -> Seq<TextureCommand> {
        let active = self.active[id].active;
        if 0 < active.current_row < TEXTURE_HEIGHT {
            shrink_commands(
                active.texture,
                self.next as usize,
                active.width,
                active.current_row as u32,
            )
        } else {
            Seq::empty()
        }
    }

    /// Several streams have ended, one after the other.
    pub open spec fn all_ended(self, ids: Seq<usize>) -> HistoryModel<D>
        decreases ids.len(),
    {
        if ids.len() == 0 {
            self
        } else {
            self.all_ended(ids.drop_last()).ended(ids.last())
        }
    }

    /// What is to be done where several streams have ended, one after the other.
    pub open spec fn all_end_commands(self, ids: Seq<usize>) -> Seq<TextureCommand>
        decreases ids.len(),
    {
        if ids.len() == 0 {
            Seq::empty()
        } else {
            self.all_end_commands(ids.drop_last()) + self.all_ended(ids.drop_last()).end_commands(
                ids.last(),
            )
        }
    }

    /// Whether every texture can take its rows, and the numbers given out are those
    /// below the next one.
    pub open spec fn wf(self) -> bool {
        &&& BLANK_TEXTURE < self.next <= usize::MAX
        &&& forall|id: usize|
            #[trigger] self.active.contains_key(id) ==> {
                &&& self.active[id].active.wf(TEXTURE_HEIGHT)
                &&& self.active[id].active.texture < self.next
            }
    }
}

/// Ending a stream leaves the others as they are.
proof fn ending_leaves_the_others<D>(before: HistoryModel<D>, ids: Seq<usize>)
    ensures
        before.all_ended(ids).active == before.active.remove_keys(ids.to_set()),
        before.all_ended(ids).next <= before.next + ids.len(),
        before.all_ended(ids).next >= before.next,
    decreases ids.len(),
{
    if ids.len() == 0 {
        assert(before.active.remove_keys(ids.to_set()) =~= before.active);
    } else {
        let rest = ids.drop_last();
        ending_leaves_the_others(before, rest);
        assert(ids =~= rest.push(ids.last()));
        assert forall|k: usize| ids.to_set().contains(k) <==> rest.to_set().contains(k) || k
            == ids.last() by {
            if rest.contains(k) {
                let j = choose|j: int| 0 <= j < rest.len() && rest[j] == k;
                assert(ids[j] == k);
            }
            if ids.contains(k) && k != ids.last() {
                let j = choose|j: int| 0 <= j < ids.len() && ids[j] == k;
                assert(rest[j] == k);
            }
            assert(ids[ids.len() - 1] == ids.last());
        }
        assert(before.all_ended(ids).active =~= before.active.remove_keys(ids.to_set()));
    }
}

/// What is drawn of one texture.
#[derive(Clone, Copy, Debug)]
pub struct WaterfallDrawInfo<D> {
    pub descriptor: D,
    pub start_time: Timestamp,
    pub end_time: Timestamp,
    pub texture: usize,
    pub prev_texture: usize,
    pub next_texture: usize,
    pub min: u32,
    pub max: u32,
    /// How much of the texture holds rows, of [`TEXTURE_HEIGHT`].
    pub filled: u32,
}

/// What is drawn of a texture that is being filled.
pub open spec fn active_info<D>(stream: ActiveStream<D>) -> WaterfallDrawInfo<D> {
    WaterfallDrawInfo {
        descriptor: stream.descriptor,
        start_time: stream.active.start_time,
        end_time: stream.active.end_time,
        texture: stream.active.texture,
        prev_texture: stream.active.prev_texture,
        next_texture: BLANK_TEXTURE,
        min: stream.levels.min,
        max: stream.levels.max,
        filled: stream.active.current_row as u32,
    }
}

/// What is drawn of the textures of several streams that are being filled.
pub open spec fn active_infos<D>(active: Map<usize, ActiveStream<D>>, ids: Seq<usize>) -> Seq<
    WaterfallDrawInfo<D>,
> {
    ids.map_values(|id: usize| active_info(active[id]))
}

/// What is drawn of a texture that is filled.
pub open spec fn finished_info<D>(stream: FinishedModel<D>, index: int) -> WaterfallDrawInfo<D> {
    WaterfallDrawInfo {
        descriptor: stream.descriptor,
        start_time: stream.textures[index].start_time,
        end_time: stream.textures[index].end_time,
        texture: stream.textures[index].texture,
        prev_texture: stream.textures[index].prev_texture,
        next_texture: stream.textures[index].next_texture,
        min: stream.min,
        max: stream.max,
        filled: TEXTURE_HEIGHT,
    }
}

/// What is drawn of the finished textures of a stream.
pub open spec fn finished_infos<D>(stream: FinishedModel<D>) -> Seq<WaterfallDrawInfo<D>> {
    Seq::new(stream.textures.len(), |k: int| finished_info(stream, k))
}

/// What is drawn of the finished textures of several streams.
pub open spec fn all_finished_infos<D>(
    finished: Map<usize, FinishedModel<D>>,
    ids: Seq<usize>,
) -> Seq<WaterfallDrawInfo<D>>
    decreases ids.len(),
{
    if ids.len() == 0 {
        Seq::empty()
    } else {
        all_finished_infos(finished, ids.drop_last()) + finished_infos(finished[ids.last()])
    }
}

/// Whether the textures that ended by a time come before all others.
pub open spec fn old_ones_first(textures: Seq<FinishedTexture>, time: Timestamp) -> bool {
    forall|i: int, j: int|
        0 <= i < j < textures.len() && !time.before((#[trigger] textures[j]).end_time)
            ==> !time.before((#[trigger] textures[i]).end_time)
}

/// Whether `count` textures ended by a time, and those are the first ones. Where the
/// textures are not in that order, which ones are taken as old is left open.
pub open spec fn counts_old(textures: Seq<FinishedTexture>, time: Timestamp, count: int) -> bool {
    &&& 0 <= count <= textures.len()
    &&& old_ones_first(textures, time) ==> forall|k: int|
        0 <= k < textures.len() ==> (k < count <==> !time.before(
            (#[trigger] textures[k]).end_time,
        ))
}

/// How many textures ended by a time.
pub fn count_old(textures: &VecDeque<FinishedTexture>, time: Timestamp) -> (count: usize)
    ensures
        counts_old(textures@, time, count as int),
{
    let is_old = |texture: &FinishedTexture| -> (result: bool)
        ensures
            result == !time.before(texture.end_time),
    {
        !time.lt(texture.end_time)
    };
    partition_point(textures, is_old)
}

/// What a map holds for a key.
pub open spec fn entry<D>(streams: Map<usize, D>, id: usize) -> Option<D> {
    if streams.contains_key(id) {
        Some(streams[id])
    } else {
        None
    }
}

/// Whether the first `count` textures of a stream were dropped because they ended by a
/// time, and the stream with them where it had no others.
pub open spec fn pruned<D>(
    before: FinishedModel<D>,
    after: Option<FinishedModel<D>>,
    time: Timestamp,
    count: int,
) -> bool {
    &&& counts_old(before.textures, time, count)
    &&& after == if count < before.textures.len() {
        Some(FinishedModel { textures: before.textures.skip(count), ..before })
    } else {
        None
    }
}

/// Whether the textures that ended by a time were dropped from all streams.
pub open spec fn all_pruned<D>(
    before: Map<usize, FinishedModel<D>>,
    after: Map<usize, FinishedModel<D>>,
    time: Timestamp,
) -> bool {
    &&& after.dom().subset_of(before.dom())
    &&& forall|id: usize| #[trigger]
        before.contains_key(id) ==> exists|count: int| #[trigger]
            pruned(before[id], entry(after, id), time, count)
}

/// The waterfalls of all streams.
pub struct StreamHistory<D> {
    pub active_streams: BTreeMap<usize, ActiveStream<D>>,
    pub finished_streams: BTreeMap<usize, FinishedStream<D>>,
    pub next_texture: usize,
}

/// Which streams a predicate lets go.
pub open spec fn let_go<D, F: Fn(usize) -> bool>(
    active: Map<usize, ActiveStream<D>>,
    predicate: F,
    closed: Seq<usize>,
) -> bool {
    &&& increasing(closed)
    &&& forall|id: usize| #[trigger]
        closed.contains(id) ==> active.contains_key(id) && call_ensures(predicate, (id,), false)
    &&& forall|id: usize| #[trigger]
        active.contains_key(id) && !closed.contains(id) ==> call_ensures(predicate, (id,), true)
}

impl<D: Copy> StreamHistory<D> {
    pub open spec fn model(&self) -> HistoryModel<D> {
        HistoryModel {
            active: self.active_streams@,
            finished: finished_model(self.finished_streams@),
            next: self.next_texture as int,
        }
    }

    pub open spec fn wf(&self) -> bool {
        self.model().wf()
    }

    /// No streams at all.
    pub fn new() -> (history: StreamHistory<D>)
        ensures
            history.wf(),
            history.model() == HistoryModel::<D>::empty(),
    {
        let history = StreamHistory {
            active_streams: BTreeMap::new(),
            finished_streams: BTreeMap::new(),
            next_texture: BLANK_TEXTURE + 1,
        };
        assert(finished_model(history.finished_streams@) =~= Map::empty());
        history
    }

    /// Starts the waterfall of a stream.
    pub fn start(
        &mut self,
        commands: &mut Vec<TextureCommand>,
        stream_id: usize,
        descriptor: D,
        start_time: Timestamp,
        spectrum_len: u32,
    )
        requires
            old(self).wf(),
            old(self).next_texture < usize::MAX,
            fits_a_buffer(spectrum_len, TEXTURE_HEIGHT),
        ensures
            final(self).wf(),
            final(self).model() == old(self).model().started(
                stream_id,
                descriptor,
                start_time,
                spectrum_len,
            ),
            final(commands)@ == old(commands)@.push(
                create_command(old(self).next_texture, spectrum_len, TEXTURE_HEIGHT),
            ),
    {
        let active = ActiveTexture::new(
            commands,
            self.next_texture,
            BLANK_TEXTURE,
            start_time,
            spectrum_len,
            TEXTURE_HEIGHT,
        );
        self.next_texture = self.next_texture + 1;
        self.active_streams.insert(
            stream_id,
            ActiveStream {
                descriptor,
                active,
                levels: Levels { min: NAN, max: NAN, peak: NAN, overload: false },
            },
        );
        proof {
            assert forall|id: usize| #[trigger] self.model().active.contains_key(id) implies {
                &&& self.model().active[id].active.wf(TEXTURE_HEIGHT)
                &&& self.model().active[id].active.texture < self.model().next
            } by {
                assert(id != stream_id ==> old(self).model().active.contains_key(id));
            }
        }
    }

    /// Adds a row to the waterfall of a stream.
    pub fn push_row(
        &mut self,
        commands: &mut Vec<TextureCommand>,
        stream_id: usize,
        row: WaterfallRow,
    )
        requires
            old(self).wf(),
            old(self).active_streams@.contains_key(stream_id),
            old(self).next_texture < usize::MAX,
        ensures
            final(self).wf(),
            final(self).model() == old(self).model().after_row(stream_id, row),
            final(commands)@ == old(commands)@ + old(self).model().row_commands(stream_id),
    {
        let ghost before = self.model();
        let ghost commands_before = commands@;
        assert(before.active.contains_key(stream_id));
        let stream: ActiveStream<D> = *self.active_streams.get(&stream_id).unwrap();
        let mut active: ActiveTexture = stream.active;
        if active.current_row >= TEXTURE_HEIGHT as usize {
            let texture: usize = self.next_texture;
            self.next_texture = self.next_texture + 1;
            let finished = FinishedTexture {
                texture: active.texture,
                prev_texture: active.prev_texture,
                next_texture: texture,
                start_time: active.start_time,
                end_time: active.end_time,
            };
            active = ActiveTexture::new(
                commands,
                texture,
                active.texture,
                active.end_time,
                active.width,
                TEXTURE_HEIGHT,
            );
            active.push_row(commands, row.time, TEXTURE_HEIGHT);
            self.active_streams.insert(
                stream_id,
                ActiveStream { descriptor: stream.descriptor, active, levels: row.levels },
            );
            self.push_finished_texture(
                stream_id,
                stream.descriptor,
                row.levels.min,
                row.levels.max,
                finished,
            );
            proof {
                assert(commands@ =~= commands_before + before.row_commands(stream_id));
                assert(self.model().active =~= before.after_row(stream_id, row).active);
            }
        } else {
            active.push_row(commands, row.time, TEXTURE_HEIGHT);
            self.active_streams.insert(
                stream_id,
                ActiveStream { descriptor: stream.descriptor, active, levels: row.levels },
            );
        }
    }

    /// Keeps a finished texture.
    fn push_finished_texture(
        &mut self,
        stream_id: usize,
        descriptor: D,
        min: u32,
        max: u32,
        finished_texture: FinishedTexture,
    )
        requires
            old(self).wf(),
        ensures
            final(self).wf(),
            final(self).model() == old(self).model().with_finished(
                stream_id,
                descriptor,
                min,
                max,
                finished_texture,
            ),
            final(self).active_streams == old(self).active_streams,
            final(self).next_texture == old(self).next_texture,
    {
        let ghost before = self.model();
        let mut stream: FinishedStream<D> = match self.finished_streams.remove(&stream_id) {
            Some(stream) => stream,
            None => FinishedStream { descriptor, textures: VecDeque::new(), min: NAN, max: NAN },
        };
        stream.min = min;
        stream.max = max;
        stream.textures.push_back(finished_texture);
        self.finished_streams.insert(stream_id, stream);
        proof {
            let after = before.with_finished(stream_id, descriptor, min, max, finished_texture);
            assert(self.model().finished[stream_id].textures =~= after.finished[stream_id].textures);
            assert(self.model().finished =~= after.finished);
        }
    }

    /// Adds rows to the waterfall of a stream, which is started where it is new.
    pub fn push(
        &mut self,
        stream_id: usize,
        descriptor: D,
        start_time: Timestamp,
        spectrum_len: u32,
        waterfall_rows: &Vec<WaterfallRow>,
    ) -> (commands: Vec<TextureCommand>)
        requires
            old(self).wf(),
            old(self).next_texture + waterfall_rows@.len() < usize::MAX,
            fits_a_buffer(spectrum_len, TEXTURE_HEIGHT),
        ensures
            final(self).wf(),
            ({
                let before = old(self).model();
                let ready = if before.active.contains_key(stream_id) {
                    before
                } else {
                    before.started(stream_id, descriptor, start_time, spectrum_len)
                };
                let first = if before.active.contains_key(stream_id) {
                    Seq::empty()
                } else {
                    seq![
                        create_command(old(self).next_texture, spectrum_len, TEXTURE_HEIGHT),
                    ]
                };
                &&& final(self).model() == ready.after_rows(stream_id, waterfall_rows@)
                &&& commands@ == first + ready.rows_commands(stream_id, waterfall_rows@)
            }),
    {
        let mut commands: Vec<TextureCommand> = Vec::new();
        if !self.active_streams.contains_key(&stream_id) {
            self.start(&mut commands, stream_id, descriptor, start_time, spectrum_len);
        }
        let ghost ready = self.model();
        let ghost first = commands@;
        let mut i: usize = 0;
        assert(waterfall_rows@.take(0) =~= Seq::<WaterfallRow>::empty());
        assert(first + ready.rows_commands(stream_id, waterfall_rows@.take(0)) =~= first);
        while i < waterfall_rows.len()
            invariant
                i <= waterfall_rows@.len(),
                self.wf(),
                self.active_streams@.contains_key(stream_id),
                ready.next + waterfall_rows@.len() <= usize::MAX,
                self.next_texture <= ready.next + i,
                self.model() == ready.after_rows(stream_id, waterfall_rows@.take(i as int)),
                commands@ == first + ready.rows_commands(
                    stream_id,
                    waterfall_rows@.take(i as int),
                ),
            decreases waterfall_rows@.len() - i,
        {
            let ghost less = waterfall_rows@.take(i as int);
            let ghost more = waterfall_rows@.take(i as int + 1);
            self.push_row(&mut commands, stream_id, waterfall_rows[i]);
            proof {
                assert(more.drop_last() =~= less);
                assert(more.last() == waterfall_rows@[i as int]);
                assert(commands@ =~= first + ready.rows_commands(stream_id, more));
            }
            i = i + 1;
        }
        assert(waterfall_rows@.take(i as int) =~= waterfall_rows@);
        commands
    }

    /// Ends the waterfall of a stream.
    pub fn end(&mut self, commands: &mut Vec<TextureCommand>, stream_id: usize)
        requires
            old(self).wf(),
            old(self).active_streams@.contains_key(stream_id),
            old(self).next_texture < usize::MAX,
        ensures
            final(self).wf(),
            final(self).model() == old(self).model().ended(stream_id),
            final(commands)@ == old(commands)@ + old(self).model().end_commands(stream_id),
    {
        let ghost before = self.model();
        assert(before.active.contains_key(stream_id));
        let stream: ActiveStream<D> = self.active_streams.remove(&stream_id).unwrap();
        let smaller: usize = self.next_texture;
        if 0 < stream.active.current_row && stream.active.current_row < TEXTURE_HEIGHT as usize {
            self.next_texture = self.next_texture + 1;
        }
        match stream.active.finish(commands, BLANK_TEXTURE, smaller, TEXTURE_HEIGHT) {
            Some(finished_texture) => {
                self.push_finished_texture(
                    stream_id,
                    stream.descriptor,
                    stream.levels.min,
                    stream.levels.max,
                    finished_texture,
                );
            },
            None => {},
        }
    }

    /// Ends the waterfalls of the streams that the predicate lets go, in order.
    pub fn retain<F: Fn(usize) -> bool>(&mut self, predicate: F) -> (commands: Vec<TextureCommand>)
        requires
            old(self).wf(),
            old(self).next_texture + old(self).active_streams@.len() < usize::MAX,
            forall|id: usize| #[trigger]
                old(self).active_streams@.contains_key(id) ==> call_requires(predicate, (id,)),
        ensures
            final(self).wf(),
            exists|closed: Seq<usize>|
                {
                    &&& let_go(old(self).active_streams@, predicate, closed)
                    &&& final(self).model() == #[trigger] old(self).model().all_ended(closed)
                    &&& commands@ == old(self).model().all_end_commands(closed)
                },
    {
        let ghost before = self.model();
        let ids: Vec<usize> = sorted_keys(&self.active_streams);
        let mut closed: Vec<usize> = Vec::new();
        let mut i: usize = 0;
        proof {
            list_length(ids@, before.active.dom());
        }
        while i < ids.len()
            invariant
                i <= ids@.len(),
                lists(ids@, before.active.dom()),
                before.active == self.active_streams@,
                forall|id: usize| #[trigger]
                    before.active.contains_key(id) ==> call_requires(predicate, (id,)),
                increasing(closed@),
                closed@.len() <= i,
                forall|k: int| 0 <= k < closed@.len() ==> exists|j: int|
                    0 <= j < i && #[trigger] closed@[k] == #[trigger] ids@[j],
                forall|k: int|
                    0 <= k < closed@.len() ==> call_ensures(
                        predicate,
                        (#[trigger] closed@[k],),
                        false,
                    ),
                forall|j: int|
                    0 <= j < i && !closed@.contains(#[trigger] ids@[j]) ==> call_ensures(
                        predicate,
                        (ids@[j],),
                        true,
                    ),
            decreases ids@.len() - i,
        {
            let id: usize = ids[i];
            proof {
                assert(ids@.contains(id));
            }
            let ghost closed_before = closed@;
            if !predicate(id) {
                closed.push(id);
                proof {
                    assert forall|k: int| 0 <= k < closed@.len() implies exists|j: int|
                        0 <= j < i + 1 && #[trigger] closed@[k] == #[trigger] ids@[j] by {
                        if k < closed_before.len() {
                            assert(closed_before[k] == closed@[k]);
                        } else {
                            assert(closed@[k] == ids@[i as int]);
                        }
                    }
                    assert forall|j: int|
                        0 <= j < i + 1 && !closed@.contains(#[trigger] ids@[j]) implies call_ensures(
                        predicate,
                        (ids@[j],),
                        true,
                    ) by {
                        if j < i && closed_before.contains(ids@[j]) {
                            let k = choose|k: int|
                                0 <= k < closed_before.len() && closed_before[k] == ids@[j];
                            assert(closed@[k] == ids@[j]);
                        }
                        if j == i {
                            assert(closed@[closed@.len() - 1] == ids@[j]);
                        }
                    }
                }
            }
            i = i + 1;
        }
        proof {
            assert forall|id: usize| #[trigger] closed@.contains(id) implies before.active.contains_key(
                id,
            ) && call_ensures(predicate, (id,), false) by {
                let k = choose|k: int| 0 <= k < closed@.len() && closed@[k] == id;
                assert(call_ensures(predicate, (closed@[k],), false));
                let j = choose|j: int| 0 <= j < i && closed@[k] == #[trigger] ids@[j];
                assert(ids@.contains(ids@[j]));
            }
            assert forall|id: usize| #[trigger]
                before.active.contains_key(id) && !closed@.contains(id) implies call_ensures(
                predicate,
                (id,),
                true,
            ) by {
                assert(ids@.contains(id));
                let j = choose|j: int| 0 <= j < ids@.len() && ids@[j] == id;
                assert(!closed@.contains(ids@[j]));
            }
        }
        let mut commands: Vec<TextureCommand> = Vec::new();
        let mut k: usize = 0;
        proof {
            assert(closed@.take(0) =~= Seq::<usize>::empty());
        }
        while k < closed.len()
            invariant
                k <= closed@.len(),
                self.wf(),
                increasing(closed@),
                forall|id: usize| #[trigger]
                    closed@.contains(id) ==> before.active.contains_key(id),
                before.next + closed@.len() < usize::MAX,
                self.model() == before.all_ended(closed@.take(k as int)),
                commands@ == before.all_end_commands(closed@.take(k as int)),
            decreases closed@.len() - k,
        {
            let ghost less = closed@.take(k as int);
            let ghost more = closed@.take(k as int + 1);
            proof {
                ending_leaves_the_others(before, less);
                assert(closed@.contains(closed@[k as int]));
                if less.contains(closed@[k as int]) {
                    let j = choose|j: int| 0 <= j < less.len() && less[j] == closed@[k as int];
                    assert(closed@[j] < closed@[k as int]);
                }
                assert(self.active_streams@.contains_key(closed@[k as int]));
                assert(more.drop_last() =~= less);
                assert(more.last() == closed@[k as int]);
            }
            self.end(&mut commands, closed[k]);
            k = k + 1;
        }
        assert(closed@.take(k as int) =~= closed@);
        commands
    }

    /// Drops the finished textures that ended by a time, and the streams of which none
    /// are left.
    pub fn prune_old_data(&mut self, time: Timestamp)
        requires
            old(self).wf(),
        ensures
            final(self).wf(),
            final(self).active_streams@ == old(self).active_streams@,
            final(self).next_texture == old(self).next_texture,
            all_pruned(old(self).model().finished, final(self).model().finished, time),
    {
        let ghost before = self.model();
        let ids: Vec<usize> = sorted_keys(&self.finished_streams);
        let mut i: usize = 0;
        assert forall|j: int| 0 <= j < ids@.len() implies before.finished.contains_key(
            #[trigger] ids@[j],
        ) by {
            assert(ids@.contains(ids@[j]));
        }
        while i < ids.len()
            invariant
                i <= ids@.len(),
                lists(ids@, before.finished.dom()),
                self.model().active == before.active,
                self.model().next == before.next,
                self.active_streams@ == before.active,
                self.model().finished.dom().subset_of(before.finished.dom()),
                forall|j: int|
                    i <= j < ids@.len() ==> self.model().finished.contains_key(#[trigger] ids@[j])
                        && self.model().finished[ids@[j]] == before.finished[ids@[j]],
                forall|j: int|
                    0 <= j < i ==> exists|count: int| #[trigger]
                        pruned(
                            before.finished[#[trigger] ids@[j]],
                            entry(self.model().finished, ids@[j]),
                            time,
                            count,
                        ),
            decreases ids@.len() - i,
        {
            let id: usize = ids[i];
            let ghost streams = self.model().finished;
            proof {
                assert(ids@[i as int] == id);
                assert(streams.contains_key(id));
                assert(before.finished.contains_key(id));
            }
            let mut stream: FinishedStream<D> = self.finished_streams.remove(&id).unwrap();
            let first_index: usize = count_old(&stream.textures, time);
            let textures: VecDeque<FinishedTexture> = stream.textures.split_off(first_index);
            stream.textures = textures;
            let ghost whole = before.finished[id];
            assert(stream.textures@ =~= whole.textures.skip(first_index as int));
            if stream.textures.len() > 0 {
                self.finished_streams.insert(id, stream);
            }
            proof {
                assert(pruned(whole, entry(self.model().finished, id), time, first_index as int));
                assert forall|j: int| 0 <= j < ids@.len() && j != i implies #[trigger] ids@[j]
                    != id by {
                    if j < i {
                        assert(ids@[j] < ids@[i as int]);
                    } else {
                        assert(ids@[i as int] < ids@[j]);
                    }
                }
                assert forall|j: int| 0 <= j < i + 1 implies exists|count: int| #[trigger]
                    pruned(
                        before.finished[#[trigger] ids@[j]],
                        entry(self.model().finished, ids@[j]),
                        time,
                        count,
                    ) by {
                    if j < i {
                        assert(entry(self.model().finished, ids@[j]) == entry(streams, ids@[j]));
                    }
                }
            }
            i = i + 1;
        }
        proof {
            assert forall|id: usize| #[trigger] before.finished.contains_key(
                id,
            ) implies exists|count: int| #[trigger]
                pruned(before.finished[id], entry(self.model().finished, id), time, count) by {
                assert(ids@.contains(id));
                let j = choose|j: int| 0 <= j < ids@.len() && ids@[j] == id;
                assert(ids@[j] == id);
            }
        }
    }

    /// What is drawn: first the textures that are being filled, in the order of their
    /// streams, then those that are filled.
    pub fn draw_list(&self) -> (infos: Vec<WaterfallDrawInfo<D>>)
        requires
            self.wf(),
        ensures
            exists|active_ids: Seq<usize>, finished_ids: Seq<usize>|
                {
                    &&& lists(active_ids, self.model().active.dom())
                    &&& lists(finished_ids, self.model().finished.dom())
                    &&& infos@ == #[trigger] active_infos(
                        self.model().active,
                        active_ids,
                    ) + #[trigger] all_finished_infos(self.model().finished, finished_ids)
                },
    {
        let ghost model = self.model();
        let active_ids: Vec<usize> = sorted_keys(&self.active_streams);
        let finished_ids: Vec<usize> = sorted_keys(&self.finished_streams);
        let mut infos: Vec<WaterfallDrawInfo<D>> = Vec::new();
        let ghost first = active_infos(model.active, active_ids@);
        let mut i: usize = 0;
        while i < active_ids.len()
            invariant
                i <= active_ids@.len(),
                self.wf(),
                model == self.model(),
                lists(active_ids@, model.active.dom()),
                first == active_infos(model.active, active_ids@),
                infos@ == first.take(i as int),
            decreases active_ids@.len() - i,
        {
            proof {
                assert(active_ids@.contains(active_ids@[i as int]));
                assert(model.active.contains_key(active_ids@[i as int]));
            }
            let stream: &ActiveStream<D> = self.active_streams.get(&active_ids[i]).unwrap();
            infos.push(
                WaterfallDrawInfo {
                    descriptor: stream.descriptor,
                    start_time: stream.active.start_time,
                    end_time: stream.active.end_time,
                    texture: stream.active.texture,
                    prev_texture: stream.active.prev_texture,
                    next_texture: BLANK_TEXTURE,
                    min: stream.levels.min,
                    max: stream.levels.max,
                    filled: stream.active.current_row as u32,
                },
            );
            assert(first.take(i as int + 1) =~= first.take(i as int).push(first[i as int]));
            i = i + 1;
        }
        assert(first.take(i as int) =~= first);
        let mut n: usize = 0;
        assert(finished_ids@.take(0) =~= Seq::<usize>::empty());
        while n < finished_ids.len()
            invariant
                n <= finished_ids@.len(),
                model == self.model(),
                lists(finished_ids@, model.finished.dom()),
                infos@ == first + all_finished_infos(
                    model.finished,
                    finished_ids@.take(n as int),
                ),
            decreases finished_ids@.len() - n,
        {
            let ghost id = finished_ids@[n as int];
            proof {
                assert(finished_ids@.contains(id));
                assert(finished_ids@.take(n as int + 1).drop_last() =~= finished_ids@.take(
                    n as int,
                ));
            }
            let stream: &FinishedStream<D> = self.finished_streams.get(&finished_ids[n]).unwrap();
            let ghost before = infos@;
            let ghost wanted = finished_infos(model.finished[id]);
            let mut k: usize = 0;
            while k < stream.textures.len()
                invariant
                    k <= stream.textures@.len(),
                    wanted == finished_infos(stream.model()),
                    infos@ == before + wanted.take(k as int),
                decreases stream.textures@.len() - k,
            {
                let finished_texture: &FinishedTexture = &stream.textures[k];
                infos.push(
                    WaterfallDrawInfo {
                        descriptor: stream.descriptor,
                        start_time: finished_texture.start_time,
                        end_time: finished_texture.end_time,
                        texture: finished_texture.texture,
                        prev_texture: finished_texture.prev_texture,
                        next_texture: finished_texture.next_texture,
                        min: stream.min,
                        max: stream.max,
                        filled: TEXTURE_HEIGHT,
                    },
                );
                assert(wanted.take(k as int + 1) =~= wanted.take(k as int).push(wanted[k as int]));
                k = k + 1;
            }
            proof {
                assert(wanted.take(k as int) =~= wanted);
                assert(infos@ =~= first + all_finished_infos(
                    model.finished,
                    finished_ids@.take(n as int + 1),
                ));
            }
            n = n + 1;
        }
        assert(finished_ids@.take(n as int) =~= finished_ids@);
        infos
    }
}

/// Rows are put into textures in order: what two calls add is what one call adds with
/// the rows of both.
pub proof fn rows_add_up<D>(
    before: HistoryModel<D>,
    id: usize,
    first: Seq<WaterfallRow>,
    second: Seq<WaterfallRow>,
)
    ensures
        before.after_rows(id, first).after_rows(id, second) == before.after_rows(
            id,
            first + second,
        ),
        before.rows_commands(id, first) + before.after_rows(id, first).rows_commands(id, second)
            == before.rows_commands(id, first + second),
    decreases second.len(),
{
    if second.len() == 0 {
        assert(first + second =~= first);
    } else {
        rows_add_up(before, id, first, second.drop_last());
        assert((first + second).drop_last() =~= first + second.drop_last());
        assert((first + second).last() == second.last());
    }
}

/// The finished textures of a stream.
pub open spec fn finished_of<D>(model: HistoryModel<D>, id: usize) -> Seq<FinishedTexture> {
    if model.finished.contains_key(id) {
        model.finished[id].textures
    } else {
        Seq::empty()
    }
}

/// Whether textures follow each other: each one names the ones before and after it, and
/// starts when the one before it ended.
pub open spec fn in_a_row(textures: Seq<FinishedTexture>) -> bool {
    forall|k: int|
        0 <= k < textures.len() - 1 ==> {
            &&& (#[trigger] textures[k]).next_texture == textures[k + 1].texture
            &&& textures[k + 1].prev_texture == textures[k].texture
            &&& textures[k + 1].start_time == textures[k].end_time
        }
}

/// Whether the textures of a stream follow each other, up to the one being filled.
pub open spec fn linked<D>(model: HistoryModel<D>, id: usize) -> bool {
    let active = model.active[id].active;
    let textures = finished_of(model, id);
    &&& in_a_row(textures)
    &&& textures.len() > 0 ==> {
        &&& textures.last().next_texture == active.texture
        &&& active.prev_texture == textures.last().texture
        &&& active.start_time == textures.last().end_time
    }
}

/// Rows that are added to a stream leave its textures linked.
pub proof fn rows_keep_textures_linked<D>(
    before: HistoryModel<D>,
    id: usize,
    rows: Seq<WaterfallRow>,
)
    requires
        before.active.contains_key(id),
        linked(before, id),
    ensures
        before.after_rows(id, rows).active.contains_key(id),
        linked(before.after_rows(id, rows), id),
    decreases rows.len(),
{
    if rows.len() > 0 {
        rows_keep_textures_linked(before, id, rows.drop_last());
        let less = before.after_rows(id, rows.drop_last());
        let more = less.after_row(id, rows.last());
        if less.active[id].active.current_row >= TEXTURE_HEIGHT {
            let kept = finished_of(less, id);
            let textures = finished_of(more, id);
            assert(textures =~= kept.push(textures.last()));
        }
    }
}

/// Numbers of textures are never given twice: whatever rows are added, the textures of
/// the streams have numbers below the next one, which only grows.
pub proof fn texture_numbers_grow<D>(before: HistoryModel<D>, id: usize, row: WaterfallRow)
    requires
        before.wf(),
        before.active.contains_key(id),
        before.next < usize::MAX,
    ensures
        before.after_row(id, row).wf(),
        before.next <= before.after_row(id, row).next,
        before.after_row(id, row).next > before.next ==> before.after_row(
            id,
            row,
        ).active[id].active.texture == before.next,
{
    let after = before.after_row(id, row);
    assert forall|k: usize| #[trigger] after.active.contains_key(k) implies {
        &&& after.active[k].active.wf(TEXTURE_HEIGHT)
        &&& after.active[k].active.texture < after.next
    } by {
        assert(before.active.contains_key(k));
    }
}

/// A stream starts without rows, in a texture of its own. The others stay.
pub proof fn streams_start_empty<D>(
    before: HistoryModel<D>,
    id: usize,
    descriptor: D,
    start_time: Timestamp,
    spectrum_len: u32,
    other: usize,
)
    requires
        before.wf(),
        other != id,
    ensures
        ({
            let after = before.started(id, descriptor, start_time, spectrum_len);
            &&& after.active.contains_key(id)
            &&& after.active[id].descriptor == descriptor
            &&& after.active[id].active.texture == before.next
            &&& after.active[id].active.prev_texture == BLANK_TEXTURE
            &&& after.active[id].active.current_row == 0
            &&& after.active[id].active.start_time == start_time
            &&& after.active[id].active.end_time == start_time
            &&& after.active[id].active.width == spectrum_len
            &&& !after.active[id].levels.overload
            &&& after.next == before.next + 1
            &&& after.finished == before.finished
            &&& after.active.contains_key(other) <==> before.active.contains_key(other)
            &&& before.active.contains_key(other) ==> after.active[other] == before.active[other]
        }),
{
}

/// A row is added to the texture that is being filled, or to a new one behind it where that is
/// full; the full one is then finished. The levels of the stream are those of the row. The other
/// streams stay.
pub proof fn rows_fill_textures<D>(
    before: HistoryModel<D>,
    id: usize,
    row: WaterfallRow,
    other: usize,
)
    requires
        before.wf(),
        before.active.contains_key(id),
        other != id,
    ensures
        ({
            let after = before.after_row(id, row);
            let was = before.active[id].active;
            let now = after.active[id].active;
            &&& after.active.contains_key(id)
            &&& after.active[id].descriptor == before.active[id].descriptor
            &&& after.active[id].levels == row.levels
            &&& now.end_time == row.time
            &&& now.width == was.width
            &&& was.current_row < TEXTURE_HEIGHT ==> {
                &&& now.texture == was.texture && now.prev_texture == was.prev_texture
                &&& now.current_row == was.current_row + 1
                &&& now.start_time == was.start_time
                &&& after.finished == before.finished
                &&& after.next == before.next
            }
            &&& was.current_row == TEXTURE_HEIGHT ==> {
                let textures = finished_of(after, id);
                &&& now.texture == before.next && now.prev_texture == was.texture
                &&& now.current_row == 1
                &&& now.start_time == was.end_time
                &&& after.next == before.next + 1
                &&& after.finished.contains_key(id)
                &&& after.finished[id].min == row.levels.min && after.finished[id].max
                    == row.levels.max
                &&& textures.drop_last() == finished_of(before, id)
                &&& textures.len() == finished_of(before, id).len() + 1
                &&& textures.last().texture == was.texture
                &&& textures.last().prev_texture == was.prev_texture
                &&& textures.last().next_texture == before.next
                &&& textures.last().start_time == was.start_time
                &&& textures.last().end_time == was.end_time
            }
            &&& after.active.contains_key(other) <==> before.active.contains_key(other)
            &&& before.active.contains_key(other) ==> after.active[other] == before.active[other]
            &&& after.finished.contains_key(other) <==> before.finished.contains_key(other)
            &&& before.finished.contains_key(other) ==> after.finished[other]
                == before.finished[other]
        }),
{
    let after = before.after_row(id, row);
    if before.active[id].active.current_row == TEXTURE_HEIGHT {
        assert(finished_of(after, id).drop_last() =~= finished_of(before, id));
    }
}

/// A stream that ends is no longer received. What it has of rows is finished, with the times
/// that they cover, and nothing is where it has none. The other streams stay.
pub proof fn ended_streams_are_finished<D>(before: HistoryModel<D>, id: usize, other: usize)
    requires
        before.wf(),
        before.active.contains_key(id),
        other != id,
    ensures
        ({
            let after = before.ended(id);
            let was = before.active[id].active;
            let textures = finished_of(after, id);
            &&& !after.active.contains_key(id)
            &&& was.current_row == 0 ==> after.finished == before.finished && after.next
                == before.next
            &&& was.current_row > 0 ==> {
                &&& after.finished.contains_key(id)
                &&& textures.drop_last() == finished_of(before, id)
                &&& textures.len() == finished_of(before, id).len() + 1
                &&& textures.last().prev_texture == was.prev_texture
                &&& textures.last().next_texture == BLANK_TEXTURE
                &&& textures.last().start_time == was.start_time
                &&& textures.last().end_time == was.end_time
                &&& after.finished[id].min == before.active[id].levels.min
                &&& after.finished[id].max == before.active[id].levels.max
                &&& !before.finished.contains_key(id) ==> after.finished[id].descriptor
                    == before.active[id].descriptor
            }
            &&& 0 < was.current_row < TEXTURE_HEIGHT ==> textures.last().texture == before.next
                && after.next == before.next + 1
            &&& was.current_row == TEXTURE_HEIGHT ==> textures.last().texture == was.texture
                && after.next == before.next
            &&& after.active.contains_key(other) <==> before.active.contains_key(other)
            &&& before.active.contains_key(other) ==> after.active[other] == before.active[other]
            &&& after.finished.contains_key(other) <==> before.finished.contains_key(other)
            &&& before.finished.contains_key(other) ==> after.finished[other]
                == before.finished[other]
        }),
{
    let after = before.ended(id);
    if before.active[id].active.current_row > 0 {
        assert(finished_of(after, id).drop_last() =~= finished_of(before, id));
    }
}

/// Textures are drawn with their own times and neighbours and with the levels of their stream,
/// as far as they are filled.
pub proof fn textures_are_drawn_as_they_are<D>(
    active: ActiveStream<D>,
    finished: FinishedModel<D>,
    i: int,
)
    requires
        active.active.current_row <= TEXTURE_HEIGHT,
        0 <= i < finished.textures.len(),
    ensures
        active_info(active).descriptor == active.descriptor,
        active_info(active).start_time == active.active.start_time,
        active_info(active).end_time == active.active.end_time,
        active_info(active).texture == active.active.texture,
        active_info(active).prev_texture == active.active.prev_texture,
        active_info(active).next_texture == BLANK_TEXTURE,
        active_info(active).min == active.levels.min,
        active_info(active).max == active.levels.max,
        active_info(active).filled == active.active.current_row,
        finished_infos(finished).len() == finished.textures.len(),
        finished_infos(finished)[i].descriptor == finished.descriptor,
        finished_infos(finished)[i].start_time == finished.textures[i].start_time,
        finished_infos(finished)[i].end_time == finished.textures[i].end_time,
        finished_infos(finished)[i].texture == finished.textures[i].texture,
        finished_infos(finished)[i].prev_texture == finished.textures[i].prev_texture,
        finished_infos(finished)[i].next_texture == finished.textures[i].next_texture,
        finished_infos(finished)[i].min == finished.min,
        finished_infos(finished)[i].max == finished.max,
        finished_infos(finished)[i].filled == TEXTURE_HEIGHT,
{
}

/// Of a stream whose textures are in the order of their times, what is left are those that ended
/// later, and the stream is gone where there is none.
pub proof fn old_textures_are_dropped<D>(
    before: FinishedModel<D>,
    after: Option<FinishedModel<D>>,
    time: Timestamp,
    count: int,
    i: int,
)
    requires
        old_ones_first(before.textures, time),
        pruned(before, after, time, count),
    ensures
        after is None <==> forall|k: int|
            0 <= k < before.textures.len() ==> !time.before(
                (#[trigger] before.textures[k]).end_time,
            ),
        0 <= i < before.textures.len() && time.before(before.textures[i].end_time) ==> after is Some
            && after->0.textures.contains(before.textures[i]),
        after matches Some(left) ==> {
            &&& left.descriptor == before.descriptor && left.min == before.min && left.max
                == before.max
            &&& 0 <= i < left.textures.len() ==> time.before(left.textures[i].end_time)
        },
{
    if count < before.textures.len() {
        assert(time.before(before.textures[count].end_time));
    }
    if 0 <= i < before.textures.len() && time.before(before.textures[i].end_time) {
        assert(i >= count);
        assert(before.textures.skip(count)[i - count] == before.textures[i]);
    }
}

/// A row is written to the texture that holds it, at the place where it stands there. Where that
/// texture is a new one, it is made before.
pub proof fn rows_are_written_where_they_stand<D>(
    before: HistoryModel<D>,
    id: usize,
    row: WaterfallRow,
)
    requires
        before.wf(),
        before.active.contains_key(id),
    ensures
        ({
            let was = before.active[id].active;
            let now = before.after_row(id, row).active[id].active;
            let written = row_commands(
                now.texture,
                (now.current_row - 1) as nat,
                now.width,
                TEXTURE_HEIGHT,
            );
            &&& was.current_row < TEXTURE_HEIGHT ==> before.row_commands(id) == written
            &&& was.current_row == TEXTURE_HEIGHT ==> before.row_commands(id) == seq![
                create_command(now.texture, now.width, TEXTURE_HEIGHT),
            ] + written
        }),
{
}

/// A texture that was not filled when its stream ended is replaced by one that is as high as it
/// was filled, and any other is left as it is.
pub proof fn unfilled_textures_are_shrunk<D>(before: HistoryModel<D>, id: usize)
    requires
        before.wf(),
        before.active.contains_key(id),
    ensures
        ({
            let was = before.active[id].active;
            let commands = before.end_commands(id);
            &&& was.current_row == 0 || was.current_row == TEXTURE_HEIGHT ==> commands.len() == 0
            &&& 0 < was.current_row < TEXTURE_HEIGHT ==> commands == shrink_commands(
                was.texture,
                finished_of(before.ended(id), id).last().texture,
                was.width,
                was.current_row as u32,
            )
        }),
{
}

/// What is drawn of several finished streams is what is drawn of each, in order.
pub proof fn finished_streams_are_drawn_one_by_one<D>(
    finished: Map<usize, FinishedModel<D>>,
    first: Seq<usize>,
    second: Seq<usize>,
    id: usize,
)
    ensures
        all_finished_infos(finished, first + second) == all_finished_infos(finished, first)
            + all_finished_infos(finished, second),
        all_finished_infos(finished, seq![id]) == finished_infos(finished[id]),
    decreases second.len(),
{
    let one = seq![id];
    assert(one.drop_last() =~= Seq::<usize>::empty());
    assert(all_finished_infos(finished, one.drop_last()).len() == 0);
    assert(all_finished_infos(finished, one) =~= finished_infos(finished[id]));
    if second.len() == 0 {
        assert(first + second =~= first);
        assert(all_finished_infos(finished, first) + all_finished_infos(finished, second)
            =~= all_finished_infos(finished, first));
    } else {
        finished_streams_are_drawn_one_by_one(finished, first, second.drop_last(), id);
        assert((first + second).drop_last() =~= first + second.drop_last());
        assert(all_finished_infos(finished, first + second) =~= all_finished_infos(finished, first)
            + all_finished_infos(finished, second));
    }
}

/// Streams that end one after the other are all ended, and the others stay.
pub proof fn all_of_them_are_ended<D>(
    before: HistoryModel<D>,
    first: Seq<usize>,
    second: Seq<usize>,
    other: usize,
)
    ensures
        before.all_ended(first + second) == before.all_ended(first).all_ended(second),
        first.contains(other) ==> !before.all_ended(first).active.contains_key(other),
        !first.contains(other) ==> (before.all_ended(first).active.contains_key(other)
            <==> before.active.contains_key(other)),
    decreases first.len() + second.len(),
{
    if first.len() > 0 {
        let rest = first.drop_last();
        all_of_them_are_ended(before, rest, Seq::empty(), other);
        assert(first.contains(other) <==> rest.contains(other) || first.last() == other) by {
            if first.contains(other) {
                let k = choose|k: int| 0 <= k < first.len() && first[k] == other;
                if k < rest.len() {
                    assert(rest[k] == other);
                }
            }
            if rest.contains(other) {
                let k = choose|k: int| 0 <= k < rest.len() && rest[k] == other;
                assert(first[k] == other);
            }
            assert(first[first.len() - 1] == first.last());
        }
    }
    if second.len() == 0 {
        assert(first + second =~= first);
    } else {
        all_of_them_are_ended(before, first, second.drop_last(), other);
        assert((first + second).drop_last() =~= first + second.drop_last());
    }
}

} // verus!
