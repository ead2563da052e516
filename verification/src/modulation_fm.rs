//! The transmissions that were demodulated on a channel of a stream, by the times at
//! which they were received.

use std::collections::{BTreeMap, VecDeque};

use crate::channel_table::{histories_wf, table_leaves, ChannelKey, ChannelTable, ModulationHistory};
use crate::fm_history::TransmissionId;
use crate::maps::{lists, sorted_keys};
use crate::search::partition_point;
use crate::stream_history::entry;
use crate::text::{decimal, decimal_text, file_name, file_name_text};
use crate::time::{distance, time_between, Timestamp};
use vstd::prelude::*;
use vstd::string::*;

verus! {

/// A piece of a transmission, with the samples and the audio in it by the bits of
/// floating point numbers.
pub struct TimedChunk {
    pub time: Timestamp,
    pub iq_data: Vec<(u32, u32)>,
    pub audio_data: Vec<u32>,
}

/// A piece of a transmission that was demodulated.
pub struct FmDemodulation {
    pub transmission_id: TransmissionId,
    pub chunk: TimedChunk,
}

/// A transmission.
pub struct TimedTransmission {
    pub chunks: VecDeque<TimedChunk>,
}

/// Whether the pieces that were received before a time come before all others.
pub open spec fn older_ones_first(chunks: Seq<TimedChunk>, time: Timestamp) -> bool {
    forall|i: int, j: int|
        0 <= i < j < chunks.len() && (#[trigger] chunks[j]).time.before(time) ==> (
        #[trigger] chunks[i]).time.before(time)
}

/// Whether `count` pieces were received before a time, and those are the first ones. Where
/// the pieces are not in that order, which ones are taken so is left open.
pub open spec fn counts_older(chunks: Seq<TimedChunk>, time: Timestamp, count: int) -> bool {
    &&& 0 <= count <= chunks.len()
    &&& older_ones_first(chunks, time) ==> forall|k: int|
        0 <= k < chunks.len() ==> (k < count <==> (#[trigger] chunks[k]).time.before(time))
}

/// How many pieces were received before a time.
pub fn count_older(chunks: &VecDeque<TimedChunk>, time: Timestamp) -> (count: usize)
    ensures
        counts_older(chunks@, time, count as int),
{
    let is_older = |chunk: &TimedChunk| -> (result: bool)
        ensures
            result == chunk.time.before(time),
    {
        chunk.time.lt(time)
    };
    partition_point(chunks, is_older)
}

/// Whether pieces stand in the order in which they were received.
pub open spec fn in_time_order(chunks: Seq<TimedChunk>) -> bool {
    forall|i: int, j: int|
        0 <= i < j < chunks.len() ==> (#[trigger] chunks[i]).time.instant() <= (
        #[trigger] chunks[j]).time.instant()
}

impl TimedTransmission {
    /// When the first and the last piece were received.
    pub fn time_range(&self) -> (range: (Timestamp, Timestamp))
        requires
            self.chunks@.len() > 0,
        ensures
            range == (self.chunks@.first().time, self.chunks@.last().time),
    {
        (self.chunks[0].time, self.chunks[self.chunks.len() - 1].time)
    }

    /// The piece that was received closest to a time, the first one where several were.
    /// Where the pieces are not in order, which one is taken is left open.
    pub fn find_nearest_chunk(&self, time: Timestamp) -> (index: usize)
        requires
            self.chunks@.len() > 0,
        ensures
            index < self.chunks@.len(),
            in_time_order(self.chunks@) ==> forall|k: int|
                0 <= k < self.chunks@.len() ==> distance(self.chunks@[index as int].time, time)
                    <= distance((#[trigger] self.chunks@[k]).time, time),
            in_time_order(self.chunks@) ==> forall|k: int|
                0 <= k < index ==> distance(self.chunks@[index as int].time, time) < distance(
                    (#[trigger] self.chunks@[k]).time,
                    time,
                ),
    {
        let is_received = |chunk: &TimedChunk| -> (result: bool)
            ensures
                result == (chunk.time.instant() <= time.instant()),
        {
            chunk.time.to_instant() <= time.to_instant()
        };
        let next: usize = partition_point(&self.chunks, is_received);
        if next == 0 {
            return 0;
        }
        let last: Timestamp = self.chunks[next - 1].time;
        if next < self.chunks.len() && time_between(self.chunks[next].time, time) < time_between(
            last,
            time,
        ) {
            return next;
        }
        let is_earlier = |chunk: &TimedChunk| -> (result: bool)
            ensures
                result == (chunk.time.instant() < last.instant()),
        {
            chunk.time.to_instant() < last.to_instant()
        };
        let first: usize = partition_point(&self.chunks, is_earlier);
        if first < next {
            first
        } else {
            next - 1
        }
    }

    /// Drops the pieces that were received before a time. Returns whether any are left.
    pub fn prune_old_data(&mut self, retain_time: Timestamp) -> (any_left: bool)
        ensures
            exists|count: int|
                #![trigger counts_older(old(self).chunks@, retain_time, count)]
                counts_older(old(self).chunks@, retain_time, count) && final(self).chunks@
                    == old(self).chunks@.skip(count),
            any_left == (final(self).chunks@.len() > 0),
    {
        let ghost before = self.chunks@;
        let count: usize = count_older(&self.chunks, retain_time);
        let rest: VecDeque<TimedChunk> = self.chunks.split_off(count);
        assert(rest@ =~= before.skip(count as int));
        self.chunks = rest;
        self.chunks.len() > 0
    }
}

/// What a file is called that the samples of a channel are written to: after the channel,
/// and how many samples a second has.
pub fn export_name(channel: &str, rate: u64) -> (name: String)
    ensures
        name@ == file_name(channel@ + "_"@ + decimal(rate as nat) + "sps.raw"@),
{
    let mut name = channel.to_owned();
    name.append("_");
    name.append(decimal_text(rate).as_str());
    name.append("sps.raw");
    file_name_text(name.as_str())
}

/// The transmissions on a channel.
pub struct FmModulationHistory {
    pub transmissions: BTreeMap<TransmissionId, TimedTransmission>,
}

/// What transmissions there are.
pub open spec fn pieces(transmissions: Map<TransmissionId, TimedTransmission>) -> Map<
    TransmissionId,
    Seq<TimedChunk>,
> {
    transmissions.map_values(|transmission: TimedTransmission| transmission.chunks@)
}

/// Whether the first `count` pieces of a transmission were dropped because they were
/// received before a time, and the transmission with them where it had no others.
pub open spec fn transmission_leaves(
    before: Seq<TimedChunk>,
    after: Option<Seq<TimedChunk>>,
    time: Timestamp,
    count: int,
) -> bool {
    &&& counts_older(before, time, count)
    &&& after == if count < before.len() {
        Some(before.skip(count))
    } else {
        None
    }
}

impl ModulationHistory for FmModulationHistory {
    open spec fn history_wf(&self) -> bool {
        true
    }

    open spec fn leaves(&self, after: &Self, retain_time: Timestamp) -> bool {
        &&& after.model().dom().subset_of(self.model().dom())
        &&& forall|id: TransmissionId| #[trigger]
            self.model().contains_key(id) ==> exists|count: int| #[trigger]
                transmission_leaves(
                    self.model()[id],
                    entry(after.model(), id),
                    retain_time,
                    count,
                )
    }

    open spec fn nothing_left(&self) -> bool {
        self.model().dom() == Set::<TransmissionId>::empty()
    }

    fn prune_old_data(&mut self, retain_time: Timestamp) -> (any_left: bool) {
        let ghost before = self.model();
        let ids: Vec<TransmissionId> = sorted_keys(&self.transmissions);
        assert(before.dom() =~= self.transmissions@.dom());
        assert forall|j: int| 0 <= j < ids@.len() implies before.contains_key(
            #[trigger] ids@[j],
        ) by {
            assert(ids@.contains(ids@[j]));
        }
        let mut left: usize = 0;
        let mut i: usize = 0;
        while i < ids.len()
            invariant
                i <= ids@.len(),
                left <= i,
                lists(ids@, before.dom()),
                self.model().dom().subset_of(before.dom()),
                forall|j: int|
                    i <= j < ids@.len() ==> self.model().contains_key(#[trigger] ids@[j])
                        && self.model()[ids@[j]] == before[ids@[j]],
                forall|j: int|
                    0 <= j < i ==> exists|count: int| #[trigger]
                        transmission_leaves(
                            before[#[trigger] ids@[j]],
                            entry(self.model(), ids@[j]),
                            retain_time,
                            count,
                        ),
                left == 0 ==> forall|j: int|
                    0 <= j < i ==> !self.model().contains_key(#[trigger] ids@[j]),
                left > 0 ==> exists|j: int|
                    0 <= j < i && self.model().contains_key(#[trigger] ids@[j]),
            decreases ids@.len() - i,
        {
            let id: TransmissionId = ids[i];
            let ghost model = self.model();
            proof {
                assert(ids@[i as int] == id);
                assert(model.contains_key(id));
                assert(self.transmissions@.contains_key(id));
                assert forall|j: int| 0 <= j < ids@.len() && j != i implies #[trigger] ids@[j]
                    != id by {
                    if j < i {
                        assert(ids@[j] < ids@[i as int]);
                    } else {
                        assert(ids@[i as int] < ids@[j]);
                    }
                }
            }
            let mut transmission: TimedTransmission = self.transmissions.remove(&id).unwrap();
            let ghost whole = transmission.chunks@;
            let any_left: bool = transmission.prune_old_data(retain_time);
            let ghost rest = transmission.chunks@;
            if any_left {
                self.transmissions.insert(id, transmission);
                left = left + 1;
            }
            proof {
                let after = self.model();
                let count = choose|count: int|
                    #![trigger counts_older(whole, retain_time, count)]
                    counts_older(whole, retain_time, count) && rest == whole.skip(count);
                assert(transmission_leaves(before[id], entry(after, id), retain_time, count));
                assert forall|j: int| 0 <= j < i + 1 implies exists|count: int| #[trigger]
                    transmission_leaves(
                        before[#[trigger] ids@[j]],
                        entry(after, ids@[j]),
                        retain_time,
                        count,
                    ) by {
                    if j < i {
                        assert(entry(after, ids@[j]) == entry(model, ids@[j]));
                    }
                }
                if any_left {
                    assert(after.contains_key(ids@[i as int]));
                } else if left > 0 {
                    let j = choose|j: int| 0 <= j < i && model.contains_key(#[trigger] ids@[j]);
                    assert(after.contains_key(ids@[j]));
                }
                assert(left == 0 ==> forall|j: int|
                    0 <= j < i + 1 ==> !after.contains_key(#[trigger] ids@[j]));
            }
            i = i + 1;
        }
        proof {
            assert forall|id: TransmissionId| #[trigger] before.contains_key(
                id,
            ) implies exists|count: int| #[trigger]
                transmission_leaves(before[id], entry(self.model(), id), retain_time, count) by {
                assert(ids@.contains(id));
                let j = choose|j: int| 0 <= j < ids@.len() && ids@[j] == id;
                assert(ids@[j] == id);
            }
            if left == 0 {
                assert forall|id: TransmissionId| !self.model().contains_key(id) by {
                    if self.model().contains_key(id) {
                        assert(ids@.contains(id));
                        let j = choose|j: int| 0 <= j < ids@.len() && ids@[j] == id;
                        assert(!self.model().contains_key(ids@[j]));
                    }
                }
                assert(self.model().dom() =~= Set::<TransmissionId>::empty());
            } else {
                let j = choose|j: int| 0 <= j < i && self.model().contains_key(#[trigger] ids@[j]);
                assert(self.model().dom().contains(ids@[j]));
            }
        }
        left > 0
    }
}

impl FmModulationHistory {
    pub open spec fn model(&self) -> Map<TransmissionId, Seq<TimedChunk>> {
        pieces(self.transmissions@)
    }

    /// No transmissions.
    pub fn new() -> (history: Self)
        ensures
            history.model() == Map::<TransmissionId, Seq<TimedChunk>>::empty(),
    {
        let history = FmModulationHistory { transmissions: BTreeMap::new() };
        assert(history.model() =~= Map::empty());
        history
    }

    /// Adds a piece to its transmission, which is added too where it is new.
    pub fn add_chunk(&mut self, demodulation: FmDemodulation)
        ensures
            final(self).model() == with_piece(
                old(self).model(),
                demodulation.transmission_id,
                demodulation.chunk,
            ),
    {
        let ghost before = self.model();
        let FmDemodulation { transmission_id, chunk } = demodulation;
        assert(before.contains_key(transmission_id) <==> self.transmissions@.contains_key(
            transmission_id,
        ));
        let mut transmission: TimedTransmission = match self.transmissions.remove(
            &transmission_id,
        ) {
            Some(transmission) => transmission,
            None => TimedTransmission { chunks: VecDeque::new() },
        };
        transmission.chunks.push_back(chunk);
        let ghost after = transmission.chunks@;
        self.transmissions.insert(transmission_id, transmission);
        proof {
            assert(self.model() =~= before.insert(transmission_id, after));
            assert(after =~= with_piece(before, transmission_id, chunk)[transmission_id]);
        }
    }
}

/// The transmissions with a piece more.
pub open spec fn with_piece(
    transmissions: Map<TransmissionId, Seq<TimedChunk>>,
    id: TransmissionId,
    chunk: TimedChunk,
) -> Map<TransmissionId, Seq<TimedChunk>> {
    transmissions.insert(
        id,
        if transmissions.contains_key(id) {
            transmissions[id].push(chunk)
        } else {
            seq![chunk]
        },
    )
}

/// The transmissions with several pieces more, one after the other.
pub open spec fn with_pieces(
    transmissions: Map<TransmissionId, Seq<TimedChunk>>,
    demodulations: Seq<FmDemodulation>,
) -> Map<TransmissionId, Seq<TimedChunk>>
    decreases demodulations.len(),
{
    if demodulations.len() == 0 {
        transmissions
    } else {
        with_piece(
            with_pieces(transmissions, demodulations.drop_last()),
            demodulations.last().transmission_id,
            demodulations.last().chunk,
        )
    }
}

/// The transmissions on all channels.
pub struct History {
    pub channels: ChannelTable<FmModulationHistory>,
}

impl History {
    pub open spec fn wf(&self) -> bool {
        self.channels.wf()
    }

    /// No channels.
    pub fn new() -> (history: Self)
        ensures
            history.wf(),
            history.channels.table() == Map::<ChannelKey, FmModulationHistory>::empty(),
    {
        History { channels: ChannelTable::new() }
    }

    /// Adds what was demodulated on a channel, which is added too where it is new, even
    /// where nothing was.
    pub fn add_chunks(&mut self, key: ChannelKey, demodulations: Vec<FmDemodulation>)
        requires
            old(self).wf(),
        ensures
            final(self).wf(),
            final(self).channels.table().dom() == old(self).channels.table().dom().insert(key),
            forall|other: ChannelKey| #[trigger]
                old(self).channels.table().contains_key(other) && other != key
                    ==> final(self).channels.table()[other] == old(self).channels.table()[other],
            final(self).channels.table()[key].model() == with_pieces(
                if old(self).channels.table().contains_key(key) {
                    old(self).channels.table()[key].model()
                } else {
                    Map::empty()
                },
                demodulations@,
            ),
    {
        let ghost table = self.channels.table();
        let mut history: FmModulationHistory = match self.channels.remove(key) {
            Some(history) => history,
            None => FmModulationHistory::new(),
        };
        let ghost before = history.model();
        let ghost all = demodulations@;
        assert(all.take(0) =~= Seq::empty());
        for demodulation in iter: demodulations
            invariant
                iter.seq() == all,
                history.model() == with_pieces(before, all.take(iter.index() as int)),
        {
            proof {
                let more = all.take(iter.index() as int + 1);
                assert(more.drop_last() =~= all.take(iter.index() as int));
                assert(more.last() == demodulation);
            }
            history.add_chunk(demodulation);
        }
        assert(all.take(all.len() as int) =~= all);
        let ghost after = history;
        self.channels.insert(key, history);
        proof {
            assert(self.channels.table() =~= table.remove(key).insert(key, after));
            assert(self.channels.table().dom() =~= table.dom().insert(key));
        }
    }

    /// Drops what was received before a time, and the channels of which nothing is left.
    pub fn prune(&mut self, retain_time: Timestamp)
        requires
            old(self).wf(),
        ensures
            final(self).wf(),
            table_leaves(old(self).channels.table(), final(self).channels.table(), retain_time),
    {
        assert(histories_wf(self.channels.table()));
        self.channels.prune(retain_time);
    }
}

/// A piece is put behind the others of its transmission, and the other transmissions stay.
pub proof fn pieces_are_put_behind_each_other(
    transmissions: Map<TransmissionId, Seq<TimedChunk>>,
    first: Seq<FmDemodulation>,
    second: Seq<FmDemodulation>,
    piece: FmDemodulation,
    other: TransmissionId,
)
    ensures
        with_pieces(transmissions, seq![piece]).contains_key(piece.transmission_id),
        with_pieces(transmissions, seq![piece])[piece.transmission_id].last() == piece.chunk,
        with_pieces(transmissions, seq![piece])[piece.transmission_id].drop_last()
            == if transmissions.contains_key(piece.transmission_id) {
            transmissions[piece.transmission_id]
        } else {
            Seq::empty()
        },
        other != piece.transmission_id ==> (with_pieces(transmissions, seq![piece]).contains_key(
            other,
        ) <==> transmissions.contains_key(other)) && (transmissions.contains_key(other)
            ==> with_pieces(transmissions, seq![piece])[other] == transmissions[other]),
        with_pieces(transmissions, first + second) == with_pieces(
            with_pieces(transmissions, first),
            second,
        ),
        with_pieces(transmissions, Seq::empty()) == transmissions,
    decreases second.len(),
{
    let one = seq![piece];
    assert(one.drop_last() =~= Seq::<FmDemodulation>::empty());
    assert(with_pieces(transmissions, one.drop_last()) == transmissions);
    let all = with_pieces(transmissions, one)[piece.transmission_id];
    if transmissions.contains_key(piece.transmission_id) {
        assert(all.drop_last() =~= transmissions[piece.transmission_id]);
    } else {
        assert(all.drop_last() =~= Seq::<TimedChunk>::empty());
    }
    if second.len() == 0 {
        assert(first + second =~= first);
    } else {
        pieces_are_put_behind_each_other(transmissions, first, second.drop_last(), piece, other);
        assert((first + second).drop_last() =~= first + second.drop_last());
    }
}

/// Of a transmission whose pieces are in the order of their times, what is left is the pieces
/// that are not older, and nothing is where all are.
pub proof fn older_pieces_are_dropped(
    before: Seq<TimedChunk>,
    after: Option<Seq<TimedChunk>>,
    time: Timestamp,
    count: int,
    i: int,
)
    requires
        older_ones_first(before, time),
        transmission_leaves(before, after, time, count),
    ensures
        after is None <==> forall|k: int|
            0 <= k < before.len() ==> (#[trigger] before[k]).time.before(time),
        0 <= i < before.len() && !before[i].time.before(time) ==> after is Some
            && after->0.contains(before[i]),
        after matches Some(left) ==> forall|k: int|
            0 <= k < left.len() ==> !(#[trigger] left[k]).time.before(time),
        after matches Some(left) ==> before == before.take(before.len() - left.len()) + left,
{
    if count < before.len() {
        assert(!before[count].time.before(time));
        assert(before.take(count) + before.skip(count) =~= before);
    }
    if 0 <= i < before.len() && !before[i].time.before(time) {
        assert(i >= count);
        assert(before.skip(count)[i - count] == before[i]);
    }
}

/// A channel has nothing left exactly where it has no transmissions, and pruning adds none.
pub proof fn channels_keep_their_transmissions(
    before: FmModulationHistory,
    after: FmModulationHistory,
    time: Timestamp,
    id: TransmissionId,
)
    requires
        before.leaves(&after, time),
    ensures
        after.nothing_left() ==> !after.model().contains_key(id),
        after.model().contains_key(id) ==> before.model().contains_key(id)
            && !after.nothing_left(),
        before.model().contains_key(id) && older_ones_first(before.model()[id], time) ==> (
        after.model().contains_key(id) <==> exists|k: int|
            0 <= k < before.model()[id].len() && !(
            #[trigger] before.model()[id][k]).time.before(time)),
{
    assert(after.model().contains_key(id) <==> after.model().dom().contains(id));
    if before.model().contains_key(id) {
        let chunks = before.model()[id];
        let left = entry(after.model(), id);
        let count = choose|count: int| #[trigger] transmission_leaves(chunks, left, time, count);
        assert(transmission_leaves(chunks, left, time, count));
        if count < chunks.len() && older_ones_first(chunks, time) {
            assert(!chunks[count].time.before(time));
        }
    }
}

} // verus!
