//! The transmissions that were received on a channel.

use std::collections::{BTreeMap, VecDeque};
use std::sync::Arc;

use crate::chunked_deque::ChunkedDeque;
use crate::document::ClipId;
use crate::double::Double;
use crate::indexed::{same_or_cloned_is_equality, IndexedSeq};
use crate::maps::{all_are_taken, list_grows, lists, next_is_taken, sorted_keys, taken_are_below};
use crate::search::partition_point;
use crate::stream_history::entry;
use vstd::prelude::*;

verus! {

pub type TransmissionId = usize;

/// A piece of a transmission: the samples that were received and the audio in them, by
/// the bits of floating point numbers.
pub struct FmTransmissionChunk {
    pub iq_data: Arc<Vec<(u32, u32)>>,
    pub audio_data: Arc<Vec<u32>>,
}

impl Clone for FmTransmissionChunk {
    /// Another handle to the same data.
    fn clone(&self) -> (chunk: Self)
        ensures
            chunk == *self,
    {
        FmTransmissionChunk {
            iq_data: self.iq_data.clone(),
            audio_data: self.audio_data.clone(),
        }
    }
}

/// A piece of what was said, and the end of the part of the transmission in which it was.
pub struct TranscriptionChunk {
    pub chunk_idx: isize,
    pub text: String,
}

/// What is known of a transmission from its start on.
pub struct TransmissionStart {
    pub clip_id: ClipId,
    pub clip_name: String,
    pub reference_time: Double,
    pub start_index: isize,
    pub period: Double,
    pub iq_sample_rate: Double,
}

/// What is told of the transmissions on a channel.
pub enum FmMessage {
    Reset,
    StartTransmission { transmission_id: TransmissionId, start: TransmissionStart },
    EndTransmission(TransmissionId),
    PushChunk {
        transmission_id: TransmissionId,
        chunk: FmTransmissionChunk,
        transcription: Option<String>,
    },
}

/// A transmission.
pub struct FmTransmission {
    pub active: bool,
    pub clip_id: ClipId,
    pub clip_name: String,
    pub reference_time: Double,
    pub period: Double,
    pub iq_sample_rate: Double,
    pub chunks: ChunkedDeque<FmTransmissionChunk>,
    pub transcription: VecDeque<TranscriptionChunk>,
}

/// What a transmission holds.
pub struct TransmissionModel {
    pub active: bool,
    pub clip_id: ClipId,
    pub clip_name: String,
    pub reference_time: Double,
    pub period: Double,
    pub iq_sample_rate: Double,
    pub chunks: IndexedSeq<FmTransmissionChunk>,
    pub transcription: Seq<TranscriptionChunk>,
}

/// Whether what was said is in order.
pub open spec fn in_order(transcription: Seq<TranscriptionChunk>) -> bool {
    forall|i: int, j: int|
        0 <= i < j < transcription.len() ==> (#[trigger] transcription[i]).chunk_idx <= (
        #[trigger] transcription[j]).chunk_idx
}

/// What was said from a chunk on.
pub open spec fn said_from(transcription: Seq<TranscriptionChunk>, index: int) -> Seq<
    TranscriptionChunk,
> {
    transcription.filter(|piece: TranscriptionChunk| piece.chunk_idx >= index)
}

/// Whether the first `count` pieces, and no others, end before a chunk.
pub open spec fn counts_said(
    transcription: Seq<TranscriptionChunk>,
    index: int,
    count: int,
) -> bool {
    &&& 0 <= count <= transcription.len()
    &&& forall|k: int|
        0 <= k < transcription.len() ==> (k < count <==> (
        #[trigger] transcription[k]).chunk_idx < index)
}

/// What was said from a chunk on is what follows the pieces that end before it.
proof fn skipping_what_was_said(
    transcription: Seq<TranscriptionChunk>,
    index: int,
    count: int,
)
    requires
        counts_said(transcription, index, count),
    ensures
        transcription.skip(count) == said_from(transcription, index),
    decreases transcription.len(),
{
    reveal(Seq::filter);
    if transcription.len() > 0 {
        let rest = transcription.drop_last();
        if count == transcription.len() {
            assert forall|k: int| 0 <= k < rest.len() implies (k < count - 1 <==> (
            #[trigger] rest[k]).chunk_idx < index) by {
                assert(rest[k] == transcription[k]);
            }
            skipping_what_was_said(rest, index, count - 1);
            assert(transcription[transcription.len() - 1].chunk_idx < index);
            assert(transcription.skip(count) =~= rest.skip(count - 1));
        } else {
            assert forall|k: int| 0 <= k < rest.len() implies (k < count <==> (
            #[trigger] rest[k]).chunk_idx < index) by {
                assert(rest[k] == transcription[k]);
            }
            skipping_what_was_said(rest, index, count);
            assert(transcription[transcription.len() - 1].chunk_idx >= index);
            assert(transcription.skip(count) =~= rest.skip(count).push(transcription.last()));
        }
    } else {
        assert(transcription.skip(count) =~= transcription);
    }
}

/// How many pieces end before a chunk.
pub fn count_said(transcription: &VecDeque<TranscriptionChunk>, index: isize) -> (count: usize)
    requires
        in_order(transcription@),
    ensures
        counts_said(transcription@, index as int, count as int),
{
    let is_before = |piece: &TranscriptionChunk| -> (result: bool)
        ensures
            result == (piece.chunk_idx < index),
    {
        piece.chunk_idx < index
    };
    partition_point(transcription, is_before)
}

/// Which piece of what was said is the one at a chunk: the last that ends before it, or
/// the first one where none does.
pub fn current_piece(transcription: &VecDeque<TranscriptionChunk>, index: isize) -> (current: usize)
    requires
        in_order(transcription@),
    ensures
        exists|count: int|
            #![trigger counts_said(transcription@, index as int, count)]
            counts_said(transcription@, index as int, count) && current == if count > 0 {
                count - 1
            } else {
                0
            },
{
    let count: usize = count_said(transcription, index);
    if count > 0 {
        count - 1
    } else {
        0
    }
}

impl TransmissionModel {
    /// A transmission that has just started.
    pub open spec fn started(start: TransmissionStart) -> TransmissionModel {
        TransmissionModel {
            active: true,
            clip_id: start.clip_id,
            clip_name: start.clip_name,
            reference_time: start.reference_time,
            period: start.period,
            iq_sample_rate: start.iq_sample_rate,
            chunks: IndexedSeq::empty(start.start_index as int),
            transcription: Seq::empty(),
        }
    }

    /// The transmission with a piece more, and perhaps with something that was said.
    pub open spec fn with_chunk(
        self,
        chunk: FmTransmissionChunk,
        said: Option<String>,
    ) -> TransmissionModel {
        TransmissionModel {
            chunks: self.chunks.push_back(chunk),
            transcription: match said {
                Some(text) => self.transcription.push(
                    TranscriptionChunk { chunk_idx: (self.chunks.end() + 1) as isize, text },
                ),
                None => self.transcription,
            },
            ..self
        }
    }

    /// The transmission without what comes before a chunk.
    pub open spec fn pruned(self, cutoff: int) -> TransmissionModel {
        TransmissionModel {
            chunks: self.chunks.remove_front(cutoff),
            transcription: said_from(self.transcription, cutoff),
            ..self
        }
    }
}

impl FmTransmission {
    pub open spec fn model(&self) -> TransmissionModel {
        TransmissionModel {
            active: self.active,
            clip_id: self.clip_id,
            clip_name: self.clip_name,
            reference_time: self.reference_time,
            period: self.period,
            iq_sample_rate: self.iq_sample_rate,
            chunks: self.chunks@,
            transcription: self.transcription@,
        }
    }

    /// Whether what was said is in order and within the transmission.
    pub open spec fn wf(&self) -> bool {
        &&& self.chunks.wf()
        &&& self.chunks.spare_chunks() == 0
        &&& in_order(self.transcription@)
        &&& forall|k: int|
            0 <= k < self.transcription@.len() ==> (#[trigger] self.transcription@[k]).chunk_idx
                <= self.chunks@.end()
    }

    /// A transmission that has just started.
    pub fn new(start: TransmissionStart) -> (transmission: Self)
        ensures
            transmission.wf(),
            transmission.model() == TransmissionModel::started(start),
    {
        let transmission = FmTransmission {
            active: true,
            clip_id: start.clip_id,
            clip_name: start.clip_name,
            reference_time: start.reference_time,
            period: start.period,
            iq_sample_rate: start.iq_sample_rate,
            chunks: ChunkedDeque::starting_at(start.start_index),
            transcription: VecDeque::new(),
        };
        assert(transmission.model().transcription =~= Seq::empty());
        transmission
    }

    /// Appends a piece, and what was said up to its end.
    pub fn push(&mut self, chunk: FmTransmissionChunk, transcription: Option<String>)
        requires
            old(self).wf(),
            old(self).chunks@.end() < isize::MAX,
        ensures
            final(self).wf(),
            final(self).model() == old(self).model().with_chunk(chunk, transcription),
    {
        let ghost before = self.chunks@;
        self.chunks.push_back(chunk);
        proof {
            same_or_cloned_is_equality(before.push_back(chunk), self.chunks@);
        }
        if let Some(text) = transcription {
            let chunk_idx: isize = self.chunks.end_index();
            self.transcription.push_back(TranscriptionChunk { chunk_idx, text });
        }
    }

    /// Removes what comes before a chunk. Returns whether anything is left.
    pub fn prune_old_data(&mut self, cutoff_index: isize) -> (any_left: bool)
        requires
            old(self).wf(),
        ensures
            final(self).wf(),
            final(self).model() == old(self).model().pruned(cutoff_index as int),
            any_left == (final(self).model().chunks.len() > 0),
    {
        let ghost before = self.transcription@;
        self.chunks.remove_front(cutoff_index);
        let count: usize = count_said(&self.transcription, cutoff_index);
        let rest: VecDeque<TranscriptionChunk> = self.transcription.split_off(count);
        proof {
            skipping_what_was_said(before, cutoff_index as int, count as int);
            assert(rest@ =~= before.skip(count as int));
        }
        self.transcription = rest;
        !self.chunks.is_empty()
    }
}

/// The transmissions on a channel.
pub struct FmHistory {
    pub transmissions: BTreeMap<TransmissionId, FmTransmission>,
}

/// What transmissions there are.
pub open spec fn transmissions_model(transmissions: Map<TransmissionId, FmTransmission>) -> Map<
    TransmissionId,
    TransmissionModel,
> {
    transmissions.map_values(|transmission: FmTransmission| transmission.model())
}

/// The transmissions after a message. One that has expired is not heard of again.
pub open spec fn after_message(
    transmissions: Map<TransmissionId, TransmissionModel>,
    message: FmMessage,
) -> Map<TransmissionId, TransmissionModel> {
    match message {
        FmMessage::Reset => Map::empty(),
        FmMessage::StartTransmission { transmission_id, start } => transmissions.insert(
            transmission_id,
            TransmissionModel::started(start),
        ),
        FmMessage::EndTransmission(id) => if transmissions.contains_key(id) {
            transmissions.insert(id, TransmissionModel { active: false, ..transmissions[id] })
        } else {
            transmissions
        },
        FmMessage::PushChunk { transmission_id, chunk, transcription } => if transmissions.contains_key(
            transmission_id,
        ) {
            transmissions.insert(
                transmission_id,
                transmissions[transmission_id].with_chunk(chunk, transcription),
            )
        } else {
            transmissions
        },
    }
}

impl FmHistory {
    pub open spec fn model(&self) -> Map<TransmissionId, TransmissionModel> {
        transmissions_model(self.transmissions@)
    }

    pub open spec fn wf(&self) -> bool {
        forall|id: TransmissionId| #[trigger]
            self.transmissions@.contains_key(id) ==> self.transmissions@[id].wf()
    }

    /// No transmissions.
    pub fn new() -> (history: Self)
        ensures
            history.wf(),
            history.model() == Map::<TransmissionId, TransmissionModel>::empty(),
    {
        let history = FmHistory { transmissions: BTreeMap::new() };
        assert(history.model() =~= Map::empty());
        history
    }

    /// Takes up what is told of a transmission.
    pub fn update(&mut self, message: FmMessage)
        requires
            old(self).wf(),
            match message {
                FmMessage::StartTransmission { transmission_id, start } => !old(self).model().contains_key(transmission_id),
                FmMessage::PushChunk { transmission_id, chunk, transcription } => old(self).model().contains_key(transmission_id) ==> old(self).model()[transmission_id].chunks.end() < isize::MAX,
                _ => true,
            },
        ensures
            final(self).wf(),
            final(self).model() == after_message(old(self).model(), message),
    {
        let ghost before = self.model();
        let ghost whole = self.transmissions@;
        match message {
            FmMessage::Reset => {
                self.transmissions.clear();
                assert(self.model() =~= Map::empty());
            },
            FmMessage::StartTransmission { transmission_id, start } => {
                let transmission = FmTransmission::new(start);
                let ghost model = transmission.model();
                self.transmissions.insert(transmission_id, transmission);
                assert(self.model() =~= before.insert(transmission_id, model));
            },
            FmMessage::EndTransmission(id) => {
                assert(whole.contains_key(id) <==> before.contains_key(id));
                if let Some(mut transmission) = self.transmissions.remove(&id) {
                    transmission.active = false;
                    let ghost model = transmission.model();
                    self.transmissions.insert(id, transmission);
                    assert(self.model() =~= before.insert(id, model));
                } else {
                    assert(self.model() =~= before);
                }
            },
            FmMessage::PushChunk { transmission_id, chunk, transcription } => {
                assert(whole.contains_key(transmission_id) <==> before.contains_key(
                    transmission_id,
                ));
                if let Some(mut transmission) = self.transmissions.remove(&transmission_id) {
                    transmission.push(chunk, transcription);
                    let ghost model = transmission.model();
                    self.transmissions.insert(transmission_id, transmission);
                    assert(self.model() =~= before.insert(transmission_id, model));
                } else {
                    assert(self.model() =~= before);
                }
            },
        }
    }

    /// Removes from each transmission what comes before the chunk that `cutoffs` has for
    /// it, and the transmissions of which nothing is left.
    pub fn expire(&mut self, cutoffs: &BTreeMap<TransmissionId, isize>)
        requires
            old(self).wf(),
            forall|id: TransmissionId| #[trigger]
                old(self).model().contains_key(id) ==> cutoffs@.contains_key(id),
        ensures
            final(self).wf(),
            forall|id: TransmissionId| #[trigger]
                entry(final(self).model(), id) == match entry(old(self).model(), id) {
                    Some(transmission) => {
                        let left = transmission.pruned(cutoffs@[id] as int);
                        if left.chunks.len() > 0 {
                            Some(left)
                        } else {
                            None
                        }
                    },
                    None => None,
                },
    {
        let ghost before = self.model();
        let ids: Vec<TransmissionId> = sorted_keys(&self.transmissions);
        let ghost whole = self.transmissions@;
        assert(whole.dom() =~= before.dom());
        let mut i: usize = 0;
        assert forall|j: int| 0 <= j < ids@.len() implies before.contains_key(#[trigger] ids@[j]) by {
            assert(ids@.contains(ids@[j]));
        }
        while i < ids.len()
            invariant
                i <= ids@.len(),
                lists(ids@, before.dom()),
                self.wf(),
                forall|id: TransmissionId| #[trigger]
                    before.contains_key(id) ==> cutoffs@.contains_key(id),
                self.model().dom().subset_of(before.dom()),
                forall|j: int|
                    i <= j < ids@.len() ==> self.model().contains_key(#[trigger] ids@[j])
                        && self.model()[ids@[j]] == before[ids@[j]],
                forall|j: int|
                    0 <= j < i ==> entry(self.model(), #[trigger] ids@[j]) == {
                        let left = before[ids@[j]].pruned(cutoffs@[ids@[j]] as int);
                        if left.chunks.len() > 0 {
                            Some(left)
                        } else {
                            None
                        }
                    },
            decreases ids@.len() - i,
        {
            let id: TransmissionId = ids[i];
            let ghost model_before = self.model();
            let ghost held = self.transmissions@;
            proof {
                assert(ids@[i as int] == id);
                assert(model_before.contains_key(id));
                assert(held.contains_key(id));
                assert(before.contains_key(id));
                assert forall|j: int| 0 <= j < ids@.len() && j != i implies #[trigger] ids@[j]
                    != id by {
                    if j < i {
                        assert(ids@[j] < ids@[i as int]);
                    } else {
                        assert(ids@[i as int] < ids@[j]);
                    }
                }
            }
            let cutoff: isize = *cutoffs.get(&id).unwrap();
            let mut transmission: FmTransmission = self.transmissions.remove(&id).unwrap();
            if transmission.prune_old_data(cutoff) {
                self.transmissions.insert(id, transmission);
            }
            proof {
                assert forall|j: int| 0 <= j < i + 1 implies entry(self.model(), #[trigger] ids@[j])
                    == {
                    let left = before[ids@[j]].pruned(cutoffs@[ids@[j]] as int);
                    if left.chunks.len() > 0 {
                        Some(left)
                    } else {
                        None
                    }
                } by {
                    if j < i {
                        assert(entry(self.model(), ids@[j]) == entry(model_before, ids@[j]));
                    }
                }
            }
            i = i + 1;
        }
        proof {
            assert forall|id: TransmissionId| #[trigger] entry(self.model(), id) == match entry(
                before,
                id,
            ) {
                Some(transmission) => {
                    let left = transmission.pruned(cutoffs@[id] as int);
                    if left.chunks.len() > 0 {
                        Some(left)
                    } else {
                        None
                    }
                },
                None => None,
            } by {
                if before.contains_key(id) {
                    assert(ids@.contains(id));
                    let j = choose|j: int| 0 <= j < ids@.len() && ids@[j] == id;
                    assert(ids@[j] == id);
                }
            }
        }
    }

    /// What the processor is called.
    pub fn name(&self) -> (name: &'static str)
        ensures
            name@ == "FM Demodulator"@,
    {
        "FM Demodulator"
    }

    /// Whether there are any transmissions.
    pub fn has_data(&self) -> (has_data: bool)
        ensures
            has_data <==> self.model().dom() != Set::<TransmissionId>::empty(),
    {
        let ids: Vec<TransmissionId> = sorted_keys(&self.transmissions);
        proof {
            assert(self.model().dom() =~= self.transmissions@.dom());
            if ids@.len() > 0 {
                assert(ids@.contains(ids@[0]));
                assert(self.model().dom().contains(ids@[0]));
            } else {
                assert forall|id: TransmissionId| !self.model().dom().contains(id) by {
                    assert(!ids@.contains(id));
                }
                assert(self.model().dom() =~= Set::<TransmissionId>::empty());
            }
        }
        ids.len() > 0
    }

    /// The transmissions that there is something of, in the order of their numbers: those
    /// of one clip, or all of them.
    pub fn shown(&self, clip: Option<ClipId>) -> (ids: Vec<TransmissionId>)
        requires
            self.wf(),
        ensures
            lists(ids@, shown_transmissions(self.model(), clip)),
    {
        let all: Vec<TransmissionId> = sorted_keys(&self.transmissions);
        let mut ids: Vec<TransmissionId> = Vec::new();
        let ghost model = self.model();
        let ghost chosen = shown_transmissions(model, clip);
        proof {
            assert(model.dom() =~= self.transmissions@.dom());
            all_are_taken(all@, model.dom());
            assert(all@.take(0).to_set().intersect(chosen) =~= Set::<usize>::empty());
            assert(lists(ids@, Set::<usize>::empty()));
        }
        let mut i: usize = 0;
        while i < all.len()
            invariant
                i <= all@.len(),
                self.wf(),
                model == self.model(),
                chosen == shown_transmissions(model, clip),
                lists(all@, model.dom()),
                lists(ids@, all@.take(i as int).to_set().intersect(chosen)),
            decreases all@.len() - i,
        {
            let id: TransmissionId = all[i];
            let ghost before = all@.take(i as int).to_set();
            proof {
                next_is_taken(all@, i as int);
                assert(all@.contains(id));
                assert(model.contains_key(id));
                assert(self.transmissions@.contains_key(id));
            }
            let transmission = self.transmissions.get(&id).unwrap();
            let of_clip: bool = match clip {
                Some(clip_id) => transmission.clip_id == clip_id,
                None => true,
            };
            if !transmission.chunks.is_empty() && of_clip {
                proof {
                    assert forall|m: usize| #[trigger]
                        before.intersect(chosen).contains(m) implies m < id by {
                        taken_are_below(all@, i as int, m);
                    }
                    list_grows(ids@, before.intersect(chosen), id);
                    assert(before.insert(id).intersect(chosen) =~= before.intersect(chosen).insert(
                        id,
                    ));
                }
                ids.push(id);
            } else {
                assert(before.insert(id).intersect(chosen) =~= before.intersect(chosen));
            }
            i = i + 1;
        }
        proof {
            all_are_taken(all@, model.dom());
            assert(model.dom().intersect(chosen) =~= chosen);
        }
        ids
    }
}

/// The transmissions that there is something of: those of one clip, or all of them.
pub open spec fn shown_transmissions(
    transmissions: Map<TransmissionId, TransmissionModel>,
    clip: Option<ClipId>,
) -> Set<TransmissionId> {
    Set::new(
        |id: TransmissionId|
            {
                &&& transmissions.contains_key(id)
                &&& transmissions[id].chunks.len() > 0
                &&& clip is Some ==> transmissions[id].clip_id == clip->0
            },
    )
}

/// Transmissions are numbered in the order in which they start, so that one that starts
/// is never taken for another one: where all have numbers below `next`, the one that is
/// given `next` is new, and all then have numbers below the one after it.
pub proof fn started_transmissions_are_new(
    transmissions: Map<TransmissionId, TransmissionModel>,
    next: TransmissionId,
    start: TransmissionStart,
)
    requires
        forall|id: TransmissionId| #[trigger] transmissions.contains_key(id) ==> id < next,
    ensures
        !transmissions.contains_key(next),
        forall|id: TransmissionId| #[trigger]
            after_message(
                transmissions,
                FmMessage::StartTransmission { transmission_id: next, start },
            ).contains_key(id) ==> id < next + 1,
{
}

/// What was received before a chunk is gone after expiry, and what was received from it
/// on is still there, under the same number.
pub proof fn expiry_keeps_what_is_newer(
    transmission: TransmissionModel,
    cutoff: int,
    index: int,
)
    requires
        transmission.chunks.has(index),
    ensures
        index >= cutoff ==> transmission.pruned(cutoff).chunks.has(index) && transmission.pruned(
            cutoff,
        ).chunks.at(index) == transmission.chunks.at(index),
        index < cutoff ==> !transmission.pruned(cutoff).chunks.has(index),
{
}

/// What a message does to the history: a reset leaves no transmissions; a transmission that
/// starts is active, has nothing in it yet and is what it was told to be; one that ends is no
/// longer active and is otherwise as it was; and a piece is appended to its transmission. What is
/// told of one transmission does not touch the others, and one that is not known stays so unless
/// it starts.
pub proof fn messages_are_about_one_transmission(
    transmissions: Map<TransmissionId, TransmissionModel>,
    message: FmMessage,
    other: TransmissionId,
)
    ensures
        ({
            let after = after_message(transmissions, message);
            match message {
                FmMessage::Reset => !after.contains_key(other),
                FmMessage::StartTransmission { transmission_id, start } => {
                    &&& after.contains_key(transmission_id)
                    &&& after[transmission_id].active
                    &&& after[transmission_id].clip_id == start.clip_id
                    &&& after[transmission_id].clip_name == start.clip_name
                    &&& after[transmission_id].reference_time == start.reference_time
                    &&& after[transmission_id].period == start.period
                    &&& after[transmission_id].iq_sample_rate == start.iq_sample_rate
                    &&& after[transmission_id].chunks.start == start.start_index
                    &&& after[transmission_id].chunks.len() == 0
                    &&& after[transmission_id].transcription.len() == 0
                    &&& other != transmission_id ==> entry(after, other) == entry(
                        transmissions,
                        other,
                    )
                },
                FmMessage::EndTransmission(id) => {
                    &&& after.dom() == transmissions.dom()
                    &&& transmissions.contains_key(id) ==> {
                        &&& !after[id].active
                        &&& after[id].chunks == transmissions[id].chunks
                        &&& after[id].transcription == transmissions[id].transcription
                        &&& same_description(after[id], transmissions[id])
                    }
                    &&& other != id ==> entry(after, other) == entry(transmissions, other)
                },
                FmMessage::PushChunk { transmission_id, chunk, transcription } => {
                    &&& after.dom() == transmissions.dom()
                    &&& transmissions.contains_key(transmission_id) ==> {
                        let old_one = transmissions[transmission_id];
                        let new_one = after[transmission_id];
                        &&& new_one.active == old_one.active
                        &&& same_description(new_one, old_one)
                        &&& new_one.chunks.start == old_one.chunks.start
                        &&& new_one.chunks.items == old_one.chunks.items.push(chunk)
                        &&& transcription is None ==> new_one.transcription == old_one.transcription
                        &&& transcription matches Some(text) ==> {
                            &&& new_one.transcription.len() == old_one.transcription.len() + 1
                            &&& new_one.transcription.drop_last() == old_one.transcription
                            &&& new_one.transcription.last().text == text
                            &&& isize::MIN <= new_one.chunks.end() <= isize::MAX
                                ==> new_one.transcription.last().chunk_idx == new_one.chunks.end()
                        }
                    }
                    &&& other != transmission_id ==> entry(after, other) == entry(
                        transmissions,
                        other,
                    )
                },
            }
        }),
{
    let after = after_message(transmissions, message);
    match message {
        FmMessage::EndTransmission(_) => {
            assert(after.dom() =~= transmissions.dom());
        },
        FmMessage::PushChunk { transmission_id, chunk, transcription } => {
            assert(after.dom() =~= transmissions.dom());
            if transmissions.contains_key(transmission_id) && transcription is Some {
                assert(after[transmission_id].transcription.drop_last()
                    =~= transmissions[transmission_id].transcription);
            }
        },
        _ => {},
    }
}

/// Whether what is known of two transmissions apart from what is in them is the same.
pub open spec fn same_description(a: TransmissionModel, b: TransmissionModel) -> bool {
    &&& a.clip_id == b.clip_id
    &&& a.clip_name == b.clip_name
    &&& a.reference_time == b.reference_time
    &&& a.period == b.period
    &&& a.iq_sample_rate == b.iq_sample_rate
}

/// What was said before a chunk is forgotten with it, and what was said from it on is kept, in
/// order. What else is known of the transmission does not change.
pub proof fn expiry_keeps_what_was_said_since(transmission: TransmissionModel, cutoff: int, k: int)
    ensures
        ({
            let after = transmission.pruned(cutoff);
            &&& after.active == transmission.active
            &&& same_description(after, transmission)
            &&& after.chunks.has(k) <==> transmission.chunks.has(k) && k >= cutoff
            &&& after.chunks.has(k) ==> after.chunks.at(k) == transmission.chunks.at(k)
            &&& 0 <= k < after.transcription.len() ==> after.transcription[k].chunk_idx >= cutoff
                && transmission.transcription.contains(after.transcription[k])
            &&& 0 <= k < transmission.transcription.len()
                && transmission.transcription[k].chunk_idx >= cutoff
                ==> after.transcription.contains(transmission.transcription[k])
            &&& in_order(transmission.transcription) ==> in_order(after.transcription)
        }),
{
    let said = transmission.transcription;
    said_from_holds(said, cutoff);
    let after = transmission.pruned(cutoff).transcription;
    if 0 <= k < after.len() {
        assert(after.contains(after[k]));
    }
    if 0 <= k < said.len() {
        assert(said.contains(said[k]));
    }
}

/// What is kept of what was said.
proof fn said_from_holds(said: Seq<TranscriptionChunk>, cutoff: int)
    ensures
        forall|piece: TranscriptionChunk| #[trigger]
            said_from(said, cutoff).contains(piece) <==> said.contains(piece) && piece.chunk_idx
                >= cutoff,
        in_order(said) ==> in_order(said_from(said, cutoff)),
    decreases said.len(),
{
    reveal(Seq::filter);
    if said.len() > 0 {
        let rest = said.drop_last();
        said_from_holds(rest, cutoff);
        let kept_rest = said_from(rest, cutoff);
        let kept = said_from(said, cutoff);
        assert forall|piece: TranscriptionChunk| #[trigger] kept.contains(piece) <==> said.contains(
            piece,
        ) && piece.chunk_idx >= cutoff by {
            if said.contains(piece) {
                let i = choose|i: int| 0 <= i < said.len() && said[i] == piece;
                if i < rest.len() {
                    assert(rest[i] == piece);
                    assert(rest.contains(piece));
                    if piece.chunk_idx >= cutoff {
                        assert(kept_rest.contains(piece));
                        let j = choose|j: int| 0 <= j < kept_rest.len() && kept_rest[j] == piece;
                        assert(kept[j] == piece);
                    }
                } else if piece.chunk_idx >= cutoff {
                    assert(kept[kept.len() - 1] == piece);
                }
            }
            if kept.contains(piece) {
                let i = choose|i: int| 0 <= i < kept.len() && kept[i] == piece;
                if i < kept_rest.len() {
                    assert(kept_rest[i] == piece);
                    assert(kept_rest.contains(piece));
                    let j = choose|j: int| 0 <= j < rest.len() && rest[j] == piece;
                    assert(said[j] == piece);
                } else {
                    assert(said[said.len() - 1] == piece);
                }
            }
        }
        if in_order(said) {
            assert(in_order(rest)) by {
                assert forall|i: int, j: int| 0 <= i < j < rest.len() implies (
                #[trigger] rest[i]).chunk_idx <= (#[trigger] rest[j]).chunk_idx by {
                    assert(said[i].chunk_idx <= said[j].chunk_idx);
                }
            }
            assert forall|i: int, j: int| 0 <= i < j < kept.len() implies (
            #[trigger] kept[i]).chunk_idx <= (#[trigger] kept[j]).chunk_idx by {
                assert(kept_rest[i] == kept[i]);
                if j < kept_rest.len() {
                    assert(kept_rest[j] == kept[j]);
                } else {
                    assert(kept_rest.contains(kept_rest[i]));
                    let a = choose|a: int| 0 <= a < rest.len() && rest[a] == kept_rest[i];
                    assert(said[a].chunk_idx <= said[said.len() - 1].chunk_idx);
                }
            }
        }
    }
}

/// The transmissions that are shown are those that hold something and are of the clip, where one
/// is asked for.
pub proof fn what_is_shown(
    transmissions: Map<TransmissionId, TransmissionModel>,
    clip: ClipId,
    id: TransmissionId,
)
    ensures
        shown_transmissions(transmissions, None).contains(id) <==> transmissions.contains_key(id)
            && transmissions[id].chunks.items.len() > 0,
        shown_transmissions(transmissions, Some(clip)).contains(id) <==> shown_transmissions(
            transmissions,
            None,
        ).contains(id) && transmissions[id].clip_id == clip,
{
}

} // verus!
