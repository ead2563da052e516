use std::collections::{BTreeMap, BTreeSet};
use std::sync::Arc;

use vstd::prelude::*;

use crate::chunked_deque::ChunkedDeque;
use crate::document::{
    clip_name, clip_name_text, clip_names_are_numbered, clip_number, parse_clip_number, Chunk, Clip,
    ClipDescriptor, ClipId, ClipModel, DescriptorModel, Document, RecordingId, StreamId,
};
use crate::double::Double;
use crate::id_factory::IdFactory;
use crate::indexed::{same_or_cloned_is_equality, IndexedSeq};
use crate::maps::{
    all_are_taken, common_keys, lists, next_is_taken, sorted_keys, sorted_members, taken_are_below,
};
use crate::shared::make_mut;
use crate::time::Timestamp;

verus! {

/// How a stream is received.
#[derive(Clone, Copy, Debug)]
pub struct StreamDescriptor {
    pub frequency: Double,
    pub sample_rate: Double,
    pub chunk_size: usize,
}

/// A piece of a stream that was received.
pub struct ReceivedChunk {
    pub stream_id: StreamId,
    /// When a clip that begins with this piece starts.
    pub clip_start_time: Double,
    pub chunk: Chunk,
}

/// What was received since the last time.
pub struct ReceivedChunks {
    pub chunks: Vec<ReceivedChunk>,
    pub active_streams: Vec<(StreamId, StreamDescriptor)>,
}

/// The first entry for a stream in a list of streams.
pub open spec fn stream_entry(streams: Seq<(StreamId, StreamDescriptor)>, id: StreamId) -> Option<
    StreamDescriptor,
>
    decreases streams.len(),
{
    if streams.len() == 0 {
        None
    } else if streams.first().0 == id {
        Some(streams.first().1)
    } else {
        stream_entry(streams.drop_first(), id)
    }
}

/// The first entry for a stream in a list of streams.
fn find_stream(streams: &Vec<(StreamId, StreamDescriptor)>, id: StreamId) -> (entry: Option<
    StreamDescriptor,
>)
    ensures
        entry == stream_entry(streams@, id),
{
    let mut i: usize = 0;
    assert(streams@.skip(0) =~= streams@);
    while i < streams.len()
        invariant
            i <= streams@.len(),
            stream_entry(streams@, id) == stream_entry(streams@.skip(i as int), id),
        decreases streams.len() - i,
    {
        if streams[i].0 == id {
            return Some(streams[i].1);
        }
        assert(streams@.skip(i as int).drop_first() =~= streams@.skip(i + 1));
        i = i + 1;
    }
    None
}

/// What recording changes: the clips, which clip each stream is recorded to, and the
/// identifier and the number that the next clip gets.
pub struct RecordingState {
    pub clips: Map<ClipId, ClipModel>,
    pub stream_to_clip: Map<StreamId, ClipId>,
    pub next_clip: nat,
    pub next_number: nat,
}

/// Recording with a clip for the stream of a piece. Where there is none, a new one is
/// made, which starts with that piece.
pub open spec fn with_clip_for(
    state: RecordingState,
    piece: ReceivedChunk,
    streams: Seq<(StreamId, StreamDescriptor)>,
) -> RecordingState {
    if state.stream_to_clip.contains_key(piece.stream_id) {
        state
    } else {
        let entry = stream_entry(streams, piece.stream_id)->0;
        let clip_id = state.next_clip as ClipId;
        RecordingState {
            clips: state.clips.insert(
                clip_id,
                ClipModel {
                    descriptor: DescriptorModel {
                        name: clip_name(state.next_number),
                        frequency: entry.frequency,
                        sample_rate: entry.sample_rate,
                        reference_time: piece.clip_start_time,
                        chunk_size: entry.chunk_size,
                    },
                    chunks: IndexedSeq::empty(0),
                },
            ),
            stream_to_clip: state.stream_to_clip.insert(piece.stream_id, clip_id),
            next_clip: state.next_clip + 1,
            next_number: state.next_number + 1,
        }
    }
}

/// Recording with one more piece, appended to the clip of its stream.
pub open spec fn with_piece(
    state: RecordingState,
    piece: ReceivedChunk,
    streams: Seq<(StreamId, StreamDescriptor)>,
) -> RecordingState {
    let ready = with_clip_for(state, piece, streams);
    let clip_id = ready.stream_to_clip[piece.stream_id];
    let clip = ready.clips[clip_id];
    RecordingState {
        clips: ready.clips.insert(
            clip_id,
            ClipModel { descriptor: clip.descriptor, chunks: clip.chunks.push_back(piece.chunk) },
        ),
        ..ready
    }
}

/// Recording with more pieces, in the order in which they arrived.
pub open spec fn with_pieces(
    state: RecordingState,
    pieces: Seq<ReceivedChunk>,
    streams: Seq<(StreamId, StreamDescriptor)>,
) -> RecordingState
    decreases pieces.len(),
{
    if pieces.len() == 0 {
        state
    } else {
        with_piece(
            with_pieces(state, pieces.drop_last(), streams),
            pieces.last(),
            streams,
        )
    }
}

/// The clips of the streams that go on.
fn keep_streams(
    stream_to_clip: &BTreeMap<StreamId, ClipId>,
    streams: &Vec<(StreamId, StreamDescriptor)>,
) -> (kept: BTreeMap<StreamId, ClipId>)
    ensures
        kept@ == stream_to_clip@.restrict(
            Set::new(|stream: StreamId| stream_entry(streams@, stream) is Some),
        ),
{
    let ids = sorted_keys(stream_to_clip);
    let mut kept: BTreeMap<StreamId, ClipId> = BTreeMap::new();
    let ghost going = Set::new(|stream: StreamId| stream_entry(streams@, stream) is Some);
    proof {
        all_are_taken(ids@, stream_to_clip@.dom());
        assert(kept@ =~= stream_to_clip@.restrict(ids@.take(0).to_set().intersect(going)));
    }
    for i in 0..ids.len()
        invariant
            lists(ids@, stream_to_clip@.dom()),
            going == Set::new(|stream: StreamId| stream_entry(streams@, stream) is Some),
            kept@ == stream_to_clip@.restrict(ids@.take(i as int).to_set().intersect(going)),
    {
        let stream: StreamId = ids[i];
        let ghost before = ids@.take(i as int).to_set();
        proof {
            next_is_taken(ids@, i as int);
            assert(ids@.contains(stream));
        }
        let clip: ClipId = *stream_to_clip.get(&stream).unwrap();
        if find_stream(streams, stream).is_some() {
            kept.insert(stream, clip);
        }
        assert(kept@ =~= stream_to_clip@.restrict(before.insert(stream).intersect(going)));
    }
    proof {
        all_are_taken(ids@, stream_to_clip@.dom());
        assert(kept@ =~= stream_to_clip@.restrict(going));
    }
    kept
}

struct RecordingInfo {
    wall_clock_start_time: Timestamp,
    document_start_time: Double,
    stream_to_clip: BTreeMap<StreamId, ClipId>,
}

/// The number in the name of a clip, if the clip has a name that clips are given.
pub open spec fn number_of(clips: Map<ClipId, ClipModel>, id: ClipId) -> Option<nat> {
    clip_number(clips[id].descriptor.name)
}

/// Clips without what lies before the first chunk to keep, where there is one, and
/// without those that are empty then and not active.
pub open spec fn expired(
    clips: Map<ClipId, ClipModel>,
    cuts: Map<ClipId, isize>,
    active: Set<ClipId>,
) -> Map<ClipId, ClipModel> {
    let cut = |id: ClipId|
        if cuts.contains_key(id) {
            clips[id].chunks.remove_front(cuts[id] as int)
        } else {
            clips[id].chunks
        };
    Map::new(
        |id: ClipId|
            clips.contains_key(id) && (!cuts.contains_key(id) || active.contains(id) || cut(id).len()
                > 0),
        |id: ClipId| ClipModel { descriptor: clips[id].descriptor, chunks: cut(id) },
    )
}

/// Whether a clip is recorded to by a stream of some of the recordings.
spec fn recorded_by(
    recordings: Map<RecordingId, RecordingInfo>,
    some: Set<RecordingId>,
    clip: ClipId,
) -> bool {
    exists|id: RecordingId, stream: StreamId|
        some.contains(id) && #[trigger] recordings[id].stream_to_clip@.contains_key(stream)
            && recordings[id].stream_to_clip@[stream] == clip
}

/// A document together with what is being recorded to it.
pub struct ActiveDocument {
    document: Document,
    active_clips: BTreeSet<ClipId>,
    clip_id_factory: IdFactory,
    recording_id_factory: IdFactory,
    recordings: BTreeMap<RecordingId, RecordingInfo>,
    clip_name_counter: usize,
}

impl ActiveDocument {
    pub closed spec fn doc(&self) -> Document {
        self.document
    }

    /// The clips that were being recorded to at the last update.
    pub closed spec fn active(&self) -> Set<ClipId> {
        self.active_clips@
    }

    /// The recordings that have not ended.
    pub closed spec fn recording_ids(&self) -> Set<RecordingId> {
        self.recordings@.dom()
    }

    /// The clip that each stream of a recording is recorded to.
    pub closed spec fn stream_to_clip(&self, recording: RecordingId) -> Map<StreamId, ClipId> {
        self.recordings@[recording].stream_to_clip@
    }

    /// The wall clock time and the document time at which a recording started.
    pub closed spec fn started(&self, recording: RecordingId) -> (Timestamp, Double) {
        (
            self.recordings@[recording].wall_clock_start_time,
            self.recordings@[recording].document_start_time,
        )
    }

    /// The identifier that the next clip gets.
    pub closed spec fn next_clip(&self) -> nat {
        self.clip_id_factory.next_id()
    }

    /// The identifier that the next recording gets.
    pub closed spec fn next_recording(&self) -> nat {
        self.recording_id_factory.next_id()
    }

    /// The number that the next clip gets.
    pub closed spec fn next_number(&self) -> nat {
        self.clip_name_counter as nat
    }

    /// Identifiers that were given out are not given out again, and the streams of a
    /// recording have clips of their own.
    pub open spec fn wf(&self) -> bool {
        &&& self.doc().wf()
        &&& forall|id: ClipId|
            #[trigger] self.doc().clips@.contains_key(id) ==> id < self.next_clip()
        &&& forall|id: RecordingId|
            #[trigger] self.recording_ids().contains(id) ==> id < self.next_recording()
        &&& forall|id: RecordingId, stream: StreamId|
            self.recording_ids().contains(id) && #[trigger] self.stream_to_clip(id).contains_key(
                stream,
            ) ==> self.stream_to_clip(id)[stream] < self.next_clip()
        &&& forall|id: RecordingId|
            self.recording_ids().contains(id) ==> #[trigger] clips_apart(self.stream_to_clip(id))
    }

    /// Every clip that a stream of the recording is recorded to is in the document.
    pub open spec fn covers(&self, recording: RecordingId) -> bool {
        forall|stream: StreamId|
            #[trigger] self.stream_to_clip(recording).contains_key(stream)
                ==> self.doc().clips@.contains_key(self.stream_to_clip(recording)[stream])
    }

    /// As [`ActiveDocument::covers`], for the streams that go on.
    pub open spec fn still_covers(
        &self,
        recording: RecordingId,
        streams: Seq<(StreamId, StreamDescriptor)>,
    ) -> bool {
        forall|stream: StreamId|
            #[trigger] self.stream_to_clip(recording).contains_key(stream) && stream_entry(
                streams,
                stream,
            ) is Some ==> self.doc().clips@.contains_key(self.stream_to_clip(recording)[stream])
    }

    /// Whether what was received can be appended: where a piece of it goes on in a clip, the
    /// clip is in the document, and its chunks can be numbered.
    pub open spec fn has_room(&self, recording: RecordingId, received: ReceivedChunks) -> bool {
        forall|i: int|
            #![trigger received.chunks@[i]]
            0 <= i < received.chunks@.len() && self.stream_to_clip(recording).contains_key(
                received.chunks@[i].stream_id,
            ) ==> {
                let clip = self.stream_to_clip(recording)[received.chunks@[i].stream_id];
                &&& self.doc().clips@.contains_key(clip)
                &&& self.doc().clips@[clip].chunks@.end() + received.chunks@.len() <= isize::MAX
            }
    }

    /// What recording to one of the recordings changes, for the streams that go on.
    pub open spec fn continued(
        &self,
        recording: RecordingId,
        streams: Seq<(StreamId, StreamDescriptor)>,
    ) -> RecordingState {
        RecordingState {
            stream_to_clip: self.stream_to_clip(recording).restrict(
                Set::new(|stream: StreamId| stream_entry(streams, stream) is Some),
            ),
            ..self.recording_state(recording)
        }
    }

    /// What recording to one of the recordings changes.
    pub open spec fn recording_state(&self, recording: RecordingId) -> RecordingState {
        RecordingState {
            clips: self.doc()@,
            stream_to_clip: self.stream_to_clip(recording),
            next_clip: self.next_clip(),
            next_number: self.next_number(),
        }
    }

    pub fn new() -> (active: ActiveDocument)
        ensures
            active.wf(),
            active.doc().clips@ == Map::<ClipId, Arc<Clip>>::empty(),
            active.active() == Set::<ClipId>::empty(),
            active.recording_ids() == Set::<RecordingId>::empty(),
            active.next_clip() == 0,
            active.next_recording() == 0,
            active.next_number() == 1,
    {
        ActiveDocument {
            document: Document::new(),
            active_clips: BTreeSet::new(),
            clip_id_factory: IdFactory::default(),
            recording_id_factory: IdFactory::default(),
            recordings: BTreeMap::new(),
            clip_name_counter: 1,
        }
    }

    pub fn document(&self) -> (document: &Document)
        ensures
            *document == self.doc(),
    {
        &self.document
    }

    /// The clips that were being recorded to at the last update.
    pub fn active_clips(&self) -> (clips: &BTreeSet<ClipId>)
        ensures
            clips@ == self.active(),
    {
        &self.active_clips
    }

    /// Starts a recording. It lasts until it is left out of those that are handed to
    /// [`ActiveDocument::update`].
    pub fn record(&mut self, wall_clock_start_time: Timestamp, document_start_time: Double) -> (id:
        RecordingId)
        requires
            old(self).wf(),
            old(self).next_recording() < usize::MAX,
        ensures
            final(self).wf(),
            id == old(self).next_recording(),
            !old(self).recording_ids().contains(id),
            final(self).recording_ids() == old(self).recording_ids().insert(id),
            final(self).stream_to_clip(id) == Map::<StreamId, ClipId>::empty(),
            final(self).started(id) == (wall_clock_start_time, document_start_time),
            forall|other: RecordingId|
                other != id ==> #[trigger] final(self).stream_to_clip(other) == old(self).stream_to_clip(other) && final(self).started(other) == old(self).started(other),
            final(self).doc().clips@ == old(self).doc().clips@,
            final(self).active() == old(self).active(),
            final(self).next_clip() == old(self).next_clip(),
            final(self).next_recording() == old(self).next_recording() + 1,
            final(self).next_number() == old(self).next_number(),
    {
        let id: RecordingId = self.recording_id_factory.create();
        self.recordings.insert(
            id,
            RecordingInfo {
                wall_clock_start_time,
                document_start_time,
                stream_to_clip: BTreeMap::new(),
            },
        );
        proof {
            assert(self.recording_ids() =~= old(self).recording_ids().insert(id));
            assert forall|r: RecordingId| self.recording_ids().contains(r) implies #[trigger]
                clips_apart(self.stream_to_clip(r)) by {
                if r != id {
                    assert(clips_apart(old(self).stream_to_clip(r)));
                }
            }
            assert forall|r: RecordingId, stream: StreamId|
                self.recording_ids().contains(r) && #[trigger] self.stream_to_clip(r).contains_key(
                    stream,
                ) implies self.stream_to_clip(r)[stream] < self.next_clip() by {
                assert(old(self).stream_to_clip(r).contains_key(stream));
            }
        }
        id
    }

    /// The wall clock time and the document time at which a recording started.
    pub fn recording_start(&self, id: RecordingId) -> (start: Option<(Timestamp, Double)>)
        ensures
            start == if self.recording_ids().contains(id) {
                Some(self.started(id))
            } else {
                None
            },
    {
        match self.recordings.get(&id) {
            Some(recording) => Some(
                (recording.wall_clock_start_time, recording.document_start_time),
            ),
            None => None,
        }
    }

    /// Whether what was received can be appended to the clips of a recording.
    pub fn can_append(&self, id: RecordingId, received: &ReceivedChunks) -> (result: bool)
        requires
            self.wf(),
            self.recording_ids().contains(id),
        ensures
            result == self.has_room(id, *received),
    {
        let stream_to_clip = &self.recordings.get(&id).unwrap().stream_to_clip;
        let count: usize = received.chunks.len();
        for i in 0..count
            invariant
                self.wf(),
                stream_to_clip@ == self.stream_to_clip(id),
                count == received.chunks@.len(),
                forall|k: int|
                    #![trigger received.chunks@[k]]
                    0 <= k < i && stream_to_clip@.contains_key(received.chunks@[k].stream_id) ==> {
                        let clip = stream_to_clip@[received.chunks@[k].stream_id];
                        &&& self.doc().clips@.contains_key(clip)
                        &&& self.doc().clips@[clip].chunks@.end() + count <= isize::MAX
                    },
        {
            let ghost piece = received.chunks@[i as int];
            if let Some(clip_id) = stream_to_clip.get(&received.chunks[i].stream_id) {
                match self.document.clips.get(clip_id) {
                    Some(clip) => {
                        let end: isize = clip.chunks.end_index();
                        if end as i128 + count as i128 > isize::MAX as i128 {
                            return false;
                        }
                    },
                    None => {
                        return false;
                    },
                }
            }
        }
        true
    }

    /// Appends what was received to the clips of a recording. A stream that is recorded
    /// for the first time, or again after it had stopped, gets a clip of its own.
    pub fn update_recording(&mut self, id: RecordingId, result: ReceivedChunks)
        requires
            old(self).wf(),
            old(self).recording_ids().contains(id),
            old(self).has_room(id, result),
            forall|i: int|
                0 <= i < result.chunks@.len() ==> stream_entry(
                    result.active_streams@,
                    (#[trigger] result.chunks@[i]).stream_id,
                ) is Some,
            result.chunks@.len() <= isize::MAX,
            old(self).next_clip() + result.chunks@.len() <= usize::MAX,
            old(self).next_number() + result.chunks@.len() <= usize::MAX,
        ensures
            final(self).wf(),
            old(self).still_covers(id, result.active_streams@) ==> final(self).covers(id),
            final(self).recording_state(id) == with_pieces(
                old(self).continued(id, result.active_streams@),
                result.chunks@,
                result.active_streams@,
            ),
            final(self).recording_ids() == old(self).recording_ids(),
            final(self).started(id) == old(self).started(id),
            forall|other: RecordingId|
                other != id ==> #[trigger] final(self).stream_to_clip(other) == old(self).stream_to_clip(other) && final(self).started(other) == old(self).started(other),
            final(self).active() == old(self).active(),
            final(self).next_recording() == old(self).next_recording(),
            was_recorded(*old(self), id, result, *final(self)),
    {
        let mut recording = self.recordings.remove(&id).unwrap();
        recording.stream_to_clip = keep_streams(&recording.stream_to_clip, &result.active_streams);
        let streams = result.active_streams;
        let ghost start = old(self).continued(id, streams@);
        let ghost pieces = result.chunks@;
        let ghost others = self.recordings@;
        proof {
            assert(RecordingState {
                clips: self.document@,
                stream_to_clip: recording.stream_to_clip@,
                next_clip: self.clip_id_factory.next_id(),
                next_number: self.clip_name_counter as nat,
            } == start);
            assert(pieces.take(0) =~= Seq::empty());
            assert(pieces.skip(0) =~= pieces);
            assert(clips_apart(old(self).stream_to_clip(id)));
            assert forall|stream: StreamId| #[trigger]
                recording.stream_to_clip@.contains_key(stream) implies old(self).stream_to_clip(
                id,
            ).contains_key(stream) by {}
        }
        for piece in iter: result.chunks
            invariant
                iter.seq() == pieces,
                forall|i: int|
                    0 <= i < pieces.len() ==> stream_entry(
                        streams@,
                        (#[trigger] pieces[i]).stream_id,
                    ) is Some,
                self.ready(recording.stream_to_clip@, pieces.skip(iter.index() as int)),
                old(self).still_covers(id, streams@) ==> self.document.covers_streams(
                    recording.stream_to_clip@,
                ),
                self.state_with(recording.stream_to_clip@) == with_pieces(
                    start,
                    pieces.take(iter.index() as int),
                    streams@,
                ),
                self.clip_id_factory.next_id() >= old(self).clip_id_factory.next_id(),
                self.recordings@ == others,
                self.active_clips@ == old(self).active_clips@,
                self.recording_id_factory == old(self).recording_id_factory,
                recording.wall_clock_start_time == old(self).recordings@[id].wall_clock_start_time,
                recording.document_start_time == old(self).recordings@[id].document_start_time,
        {
            proof {
                let i = iter.index() as int;
                assert(pieces.take(i + 1).drop_last() =~= pieces.take(i));
                assert(pieces.skip(i).drop_first() =~= pieces.skip(i + 1));
            }
            self.record_piece(
                &mut recording.stream_to_clip,
                piece,
                &streams,
                Ghost(pieces.skip(iter.index() as int)),
            );
        }
        self.recordings.insert(id, recording);
        proof {
            assert(pieces.take(pieces.len() as int) =~= pieces);
            assert(self.recording_ids() =~= old(self).recording_ids());
            assert forall|r: RecordingId| self.recording_ids().contains(r) implies #[trigger]
                clips_apart(self.stream_to_clip(r)) by {
                if r != id {
                    assert(clips_apart(old(self).stream_to_clip(r)));
                }
            }
            assert forall|r: RecordingId, stream: StreamId|
                self.recording_ids().contains(r) && #[trigger] self.stream_to_clip(r).contains_key(
                    stream,
                ) implies self.stream_to_clip(r)[stream] < self.next_clip() by {
                if r != id {
                    assert(old(self).stream_to_clip(r).contains_key(stream));
                }
            }
        }
    }

    /// What recording changes, with the given clips for the streams.
    spec fn state_with(&self, stream_to_clip: Map<StreamId, ClipId>) -> RecordingState {
        RecordingState {
            clips: self.document@,
            stream_to_clip,
            next_clip: self.clip_id_factory.next_id(),
            next_number: self.clip_name_counter as nat,
        }
    }

    /// Whether some pieces can be recorded to the given clips.
    spec fn ready(
        &self,
        stream_to_clip: Map<StreamId, ClipId>,
        pieces: Seq<ReceivedChunk>,
    ) -> bool {
        &&& self.document.wf()
        &&& forall|clip: ClipId|
            #[trigger] self.document.clips@.contains_key(clip) ==> clip
                < self.clip_id_factory.next_id()
        &&& forall|stream: StreamId|
            #[trigger] stream_to_clip.contains_key(stream) ==> stream_to_clip[stream]
                < self.clip_id_factory.next_id()
        &&& clips_apart(stream_to_clip)
        &&& forall|i: int|
            #![trigger pieces[i]]
            0 <= i < pieces.len() && stream_to_clip.contains_key(pieces[i].stream_id) ==> {
                let clip = stream_to_clip[pieces[i].stream_id];
                &&& self.document.clips@.contains_key(clip)
                &&& self.document.clips@[clip].chunks@.end() + pieces.len() <= isize::MAX
            }
        &&& self.clip_id_factory.next_id() + pieces.len() <= usize::MAX
        &&& self.clip_name_counter + pieces.len() <= usize::MAX
        &&& pieces.len() <= isize::MAX
    }

    /// Appends a piece to the clip of its stream, which is made if there is none. The piece is
    /// the first of those that are still to be recorded.
    fn record_piece(
        &mut self,
        stream_to_clip: &mut BTreeMap<StreamId, ClipId>,
        piece: ReceivedChunk,
        streams: &Vec<(StreamId, StreamDescriptor)>,
        Ghost(pieces): Ghost<Seq<ReceivedChunk>>,
    )
        requires
            pieces.len() > 0,
            pieces.first() == piece,
            old(self).ready(old(stream_to_clip)@, pieces),
            stream_entry(streams@, piece.stream_id) is Some,
        ensures
            final(self).ready(final(stream_to_clip)@, pieces.drop_first()),
            old(self).document.covers_streams(old(stream_to_clip)@)
                ==> final(self).document.covers_streams(final(stream_to_clip)@),
            final(self).state_with(final(stream_to_clip)@) == with_piece(
                old(self).state_with(old(stream_to_clip)@),
                piece,
                streams@,
            ),
            final(self).clip_id_factory.next_id() >= old(self).clip_id_factory.next_id(),
            final(self).recordings@ == old(self).recordings@,
            final(self).active_clips@ == old(self).active_clips@,
            final(self).recording_id_factory == old(self).recording_id_factory,
    {
        let ghost before = self.state_with(stream_to_clip@);
        assert(pieces[0] == piece);
        let ghost ready = with_clip_for(before, piece, streams@);
        if !stream_to_clip.contains_key(&piece.stream_id) {
            let entry = find_stream(streams, piece.stream_id).unwrap();
            let clip_id: ClipId = self.clip_id_factory.create();
            let name = clip_name_text(self.clip_name_counter);
            self.clip_name_counter = self.clip_name_counter + 1;
            let clip = Clip {
                descriptor: ClipDescriptor {
                    name,
                    frequency: entry.frequency,
                    sample_rate: entry.sample_rate,
                    reference_time: piece.clip_start_time,
                    chunk_size: entry.chunk_size,
                },
                chunks: ChunkedDeque::new(),
            };
            let ghost model = clip@;
            self.document.clips.insert(clip_id, Arc::new(clip));
            stream_to_clip.insert(piece.stream_id, clip_id);
            assert(self.document@ =~= before.clips.insert(clip_id, model));
        }
        assert(self.state_with(stream_to_clip@) == ready);
        let clip_id: ClipId = *stream_to_clip.get(&piece.stream_id).unwrap();
        let mut shared = self.document.clips.remove(&clip_id).unwrap();
        let clip = make_mut(&mut shared);
        let ghost unchanged = clip@;
        clip.chunks.push_back(piece.chunk);
        let ghost changed = clip@;
        proof {
            same_or_cloned_is_equality(unchanged.chunks.push_back(piece.chunk), changed.chunks);
        }
        self.document.clips.insert(clip_id, shared);
        proof {
            assert(self.document@ =~= ready.clips.insert(clip_id, changed));
            let rest = pieces.drop_first();
            assert forall|i: int|
                #![trigger rest[i]]
                0 <= i < rest.len() && stream_to_clip@.contains_key(rest[i].stream_id) implies {
                let clip = stream_to_clip@[rest[i].stream_id];
                &&& self.document.clips@.contains_key(clip)
                &&& self.document.clips@[clip].chunks@.end() + rest.len() <= isize::MAX
            } by {
                assert(rest[i] == pieces[i + 1]);
            }
        }
    }

    /// Whether a clip is recorded to by a stream of one of the recordings.
    pub open spec fn is_recorded_to(&self, clip: ClipId) -> bool {
        exists|id: RecordingId, stream: StreamId|
            self.recording_ids().contains(id) && #[trigger] self.stream_to_clip(id).contains_key(
                stream,
            ) && self.stream_to_clip(id)[stream] == clip
    }

    /// Ends the recordings that are not among those in `live`. The clips that the others
    /// are recorded to are the active ones.
    pub fn update(&mut self, live: &BTreeSet<RecordingId>)
        requires
            old(self).wf(),
        ensures
            final(self).wf(),
            final(self).recording_ids() == old(self).recording_ids().intersect(live@),
            forall|id: RecordingId|
                final(self).recording_ids().contains(id) ==> #[trigger] final(self).stream_to_clip(id)
                    == old(self).stream_to_clip(id) && final(self).started(id) == old(self).started(id),
            forall|clip: ClipId|
                #[trigger] final(self).active().contains(clip) <==> final(self).is_recorded_to(clip),
            forall|id: RecordingId|
                final(self).recording_ids().contains(id) ==> #[trigger] final(self).holds_active(id),
            recordings_were_updated(*old(self), live@, *final(self)),
            final(self).doc().clips@ == old(self).doc().clips@,
            final(self).next_clip() == old(self).next_clip(),
            final(self).next_recording() == old(self).next_recording(),
            final(self).next_number() == old(self).next_number(),
    {
        self.active_clips.clear();
        let ids = sorted_keys(&self.recordings);
        proof {
            all_are_taken(ids@, self.recordings@.dom());
        }
        for i in 0..ids.len()
            invariant
                lists(ids@, old(self).recordings@.dom()),
                self.recordings@ == old(self).recordings@.remove_keys(
                    ids@.take(i as int).to_set().difference(live@),
                ),
                self.document == old(self).document,
                self.clip_id_factory == old(self).clip_id_factory,
                self.recording_id_factory == old(self).recording_id_factory,
                self.clip_name_counter == old(self).clip_name_counter,
                forall|clip: ClipId|
                    #[trigger] self.active_clips@.contains(clip) <==> recorded_by(
                        old(self).recordings@,
                        ids@.take(i as int).to_set().intersect(live@),
                        clip,
                    ),
        {
            let id: RecordingId = ids[i];
            let ghost before = ids@.take(i as int).to_set();
            let ghost active = self.active_clips@;
            proof {
                next_is_taken(ids@, i as int);
                assert(ids@.contains(id));
                if before.contains(id) {
                    taken_are_below(ids@, i as int, id);
                }
            }
            if live.contains(&id) {
                assert(before.insert(id).difference(live@) =~= before.difference(live@));
                assert(before.insert(id).intersect(live@) =~= before.intersect(live@).insert(id));
                let recording = self.recordings.get(&id).unwrap();
                let streams = sorted_keys(&recording.stream_to_clip);
                let ghost clips = recording.stream_to_clip@;
                for k in 0..streams.len()
                    invariant
                        lists(streams@, clips.dom()),
                        recording.stream_to_clip@ == clips,
                        self.recordings@ == old(self).recordings@.remove_keys(
                            before.difference(live@),
                        ),
                        self.document == old(self).document,
                        self.clip_id_factory == old(self).clip_id_factory,
                        self.recording_id_factory == old(self).recording_id_factory,
                        self.clip_name_counter == old(self).clip_name_counter,
                        forall|clip: ClipId|
                            #[trigger] self.active_clips@.contains(clip) <==> active.contains(clip)
                                || exists|j: int| 0 <= j < k && clips[#[trigger] streams@[j]] == clip,
                {
                    let stream: StreamId = streams[k];
                    assert(streams@.contains(stream));
                    let clip: ClipId = *recording.stream_to_clip.get(&stream).unwrap();
                    let ghost earlier = self.active_clips@;
                    self.active_clips.insert(clip);
                    proof {
                        assert forall|c: ClipId| #[trigger]
                            self.active_clips@.contains(c) implies active.contains(c) || exists|
                            j: int,
                        |
                            0 <= j < k + 1 && clips[#[trigger] streams@[j]] == c by {
                            if c == clip {
                                assert(clips[streams@[k as int]] == c);
                            } else {
                                assert(earlier.contains(c));
                            }
                        }
                        assert forall|c: ClipId|
                            active.contains(c) || exists|j: int|
                                0 <= j < k + 1 && clips[#[trigger] streams@[j]] == c implies #[trigger] self.active_clips@.contains(
                            c,
                        ) by {
                            if !active.contains(c) {
                                let j = choose|j: int|
                                    0 <= j < k + 1 && clips[#[trigger] streams@[j]] == c;
                                if j < k {
                                    assert(earlier.contains(c));
                                }
                            } else {
                                assert(earlier.contains(c));
                            }
                        }
                    }
                }
                proof {
                    assert forall|clip: ClipId| #[trigger]
                        self.active_clips@.contains(clip) <==> recorded_by(
                        old(self).recordings@,
                        before.intersect(live@).insert(id),
                        clip,
                    ) by {
                        let all = old(self).recordings@;
                        let some = before.intersect(live@);
                        if exists|j: int|
                            0 <= j < streams@.len() && clips[#[trigger] streams@[j]] == clip {
                            let j = choose|j: int|
                                0 <= j < streams@.len() && clips[#[trigger] streams@[j]] == clip;
                            assert(streams@.contains(streams@[j]));
                            assert(all[id].stream_to_clip@.contains_key(streams@[j]));
                        }
                        if active.contains(clip) {
                            assert(recorded_by(all, some, clip));
                            let (r, stream) = choose|r: RecordingId, stream: StreamId|
                                some.contains(r)
                                    && #[trigger] all[r].stream_to_clip@.contains_key(stream)
                                    && all[r].stream_to_clip@[stream] == clip;
                            assert(some.insert(id).contains(r));
                        }
                        if recorded_by(all, some.insert(id), clip) {
                            let (r, stream) = choose|r: RecordingId, stream: StreamId|
                                some.insert(id).contains(r)
                                    && #[trigger] all[r].stream_to_clip@.contains_key(stream)
                                    && all[r].stream_to_clip@[stream] == clip;
                            if r == id {
                                assert(streams@.contains(stream));
                                let j = choose|j: int| 0 <= j < streams@.len() && streams@[j] == stream;
                                assert(clips[streams@[j]] == clip);
                            } else {
                                assert(recorded_by(all, some, clip));
                            }
                        }
                    }
                }
            } else {
                self.recordings.remove(&id);
                assert(before.insert(id).difference(live@) =~= before.difference(live@).insert(id));
                assert(before.insert(id).intersect(live@) =~= before.intersect(live@));
                assert(self.recordings@ =~= old(self).recordings@.remove_keys(
                    before.difference(live@).insert(id),
                ));
            }
        }
        proof {
            all_are_taken(ids@, old(self).recordings@.dom());
            let all = old(self).recordings@;
            assert(self.recording_ids() =~= old(self).recording_ids().intersect(live@));
            assert forall|clip: ClipId| #[trigger]
                self.active().contains(clip) <==> self.is_recorded_to(clip) by {
                let some = all.dom().intersect(live@);
                if recorded_by(all, some, clip) {
                    let (r, stream) = choose|r: RecordingId, stream: StreamId|
                        some.contains(r) && #[trigger] all[r].stream_to_clip@.contains_key(stream)
                            && all[r].stream_to_clip@[stream] == clip;
                    assert(self.stream_to_clip(r).contains_key(stream));
                }
                if self.is_recorded_to(clip) {
                    let (r, stream) = choose|r: RecordingId, stream: StreamId|
                        self.recording_ids().contains(r)
                            && #[trigger] self.stream_to_clip(r).contains_key(stream)
                            && self.stream_to_clip(r)[stream] == clip;
                    assert(all[r].stream_to_clip@.contains_key(stream));
                    assert(some.contains(r));
                }
            }
            assert forall|r: RecordingId, stream: StreamId|
                self.recording_ids().contains(r) && #[trigger] self.stream_to_clip(r).contains_key(
                    stream,
                ) implies self.stream_to_clip(r)[stream] < self.next_clip() by {
                assert(old(self).stream_to_clip(r).contains_key(stream));
            }
            assert forall|r: RecordingId| self.recording_ids().contains(r) implies #[trigger]
                clips_apart(self.stream_to_clip(r)) by {
                assert(clips_apart(old(self).stream_to_clip(r)));
            }
            assert forall|r: RecordingId| self.recording_ids().contains(r) implies #[trigger]
                self.holds_active(r) by {
                assert forall|stream: StreamId| #[trigger]
                    self.stream_to_clip(r).contains_key(stream) implies self.active().contains(
                    self.stream_to_clip(r)[stream],
                ) by {
                    assert(self.is_recorded_to(self.stream_to_clip(r)[stream]));
                }
            }
        }
    }

    /// Whether every clip that a recording is recorded to is active. After an update
    /// this holds of every recording.
    pub open spec fn holds_active(&self, recording: RecordingId) -> bool {
        forall|stream: StreamId|
            #[trigger] self.stream_to_clip(recording).contains_key(stream)
                ==> self.active().contains(self.stream_to_clip(recording)[stream])
    }

    /// Whether nothing but the clips of the document has changed.
    pub open spec fn same_but_for_clips(&self, other: &ActiveDocument) -> bool {
        &&& self.active() == other.active()
        &&& self.recording_ids() == other.recording_ids()
        &&& forall|id: RecordingId|
            #[trigger] self.stream_to_clip(id) == other.stream_to_clip(id) && self.started(id)
                == other.started(id)
        &&& self.next_clip() == other.next_clip()
        &&& self.next_recording() == other.next_recording()
        &&& self.next_number() == other.next_number()
    }

    /// Recordings and clips that are recorded to keep their identifiers below the next one.
    proof fn recordings_still_bounded(&self, before: &ActiveDocument)
        requires
            before.wf(),
            self.same_but_for_clips(before),
        ensures
            forall|id: RecordingId|
                #[trigger] self.recording_ids().contains(id) ==> id < self.next_recording(),
            forall|id: RecordingId, stream: StreamId|
                self.recording_ids().contains(id) && #[trigger] self.stream_to_clip(
                    id,
                ).contains_key(stream) ==> self.stream_to_clip(id)[stream] < self.next_clip(),
            forall|id: RecordingId|
                self.recording_ids().contains(id) ==> #[trigger] clips_apart(self.stream_to_clip(id)),
    {
        assert forall|id: RecordingId| self.recording_ids().contains(id) implies #[trigger]
            clips_apart(self.stream_to_clip(id)) by {
            assert(self.stream_to_clip(id) == before.stream_to_clip(id));
            assert(clips_apart(before.stream_to_clip(id)));
        }
        assert forall|id: RecordingId| #[trigger]
            self.recording_ids().contains(id) implies id < self.next_recording() by {
            assert(before.recording_ids().contains(id));
        }
        assert forall|id: RecordingId, stream: StreamId|
            self.recording_ids().contains(id) && #[trigger] self.stream_to_clip(id).contains_key(
                stream,
            ) implies self.stream_to_clip(id)[stream] < self.next_clip() by {
            assert(before.stream_to_clip(id).contains_key(stream));
        }
    }

    /// Forgets what was recorded before some point in time. For each clip of which
    /// something lies before it, `cuts` holds the first chunk to keep. Of a clip of which
    /// nothing is left, only an active one is kept.
    pub fn expire(&mut self, cuts: &BTreeMap<ClipId, isize>)
        requires
            old(self).wf(),
        ensures
            final(self).wf(),
            final(self).doc()@ == expired(old(self).doc()@, cuts@, old(self).active()),
            final(self).same_but_for_clips(old(self)),
            forall|id: RecordingId|
                #[trigger] old(self).covers(id) && old(self).holds_active(id) ==> final(self).covers(id),
    {
        let ids = common_keys(&self.document.clips, cuts);
        let ghost common = self.document.clips@.dom().intersect(cuts@.dom());
        proof {
            all_are_taken(ids@, common);
            assert(self.document@ =~= expired(
                self.document@,
                cuts@.restrict(ids@.take(0).to_set()),
                self.active_clips@,
            ));
        }
        for i in 0..ids.len()
            invariant
                lists(ids@, common),
                common == old(self).document.clips@.dom().intersect(cuts@.dom()),
                self.document.wf(),
                forall|id: ClipId|
                    #[trigger] self.document.clips@.contains_key(id) ==> old(self).document.clips@.contains_key(id),
                self.document@ == expired(
                    old(self).document@,
                    cuts@.restrict(ids@.take(i as int).to_set()),
                    self.active_clips@,
                ),
                self.active_clips == old(self).active_clips,
                self.clip_id_factory == old(self).clip_id_factory,
                self.recording_id_factory == old(self).recording_id_factory,
                self.recordings == old(self).recordings,
                self.clip_name_counter == old(self).clip_name_counter,
        {
            let id: ClipId = ids[i];
            let ghost before = ids@.take(i as int).to_set();
            let ghost earlier = self.document@;
            proof {
                next_is_taken(ids@, i as int);
                assert(ids@.contains(id));
                if before.contains(id) {
                    taken_are_below(ids@, i as int, id);
                }
                assert(earlier.contains_key(id));
                assert(earlier[id] == old(self).document@[id]);
            }
            let cut: isize = *cuts.get(&id).unwrap();
            let mut shared = self.document.clips.remove(&id).unwrap();
            let clip = make_mut(&mut shared);
            let ghost unchanged = clip@;
            clip.chunks.remove_front(cut);
            let keep: bool = !clip.chunks.is_empty() || self.active_clips.contains(&id);
            let ghost changed = clip@;
            if keep {
                self.document.clips.insert(id, shared);
                assert(self.document@ =~= earlier.insert(id, changed));
            } else {
                assert(self.document@ =~= earlier.remove(id));
            }
            assert(self.document@ =~= expired(
                old(self).document@,
                cuts@.restrict(before.insert(id)),
                self.active_clips@,
            ));
        }
        proof {
            all_are_taken(ids@, common);
            assert(self.document@ =~= expired(old(self).document@, cuts@, self.active_clips@));
            assert forall|id: RecordingId| #[trigger]
                old(self).covers(id) && old(self).holds_active(id) implies self.covers(id) by {
                assert forall|stream: StreamId| #[trigger]
                    self.stream_to_clip(id).contains_key(
                        stream,
                    ) implies self.doc().clips@.contains_key(self.stream_to_clip(id)[stream]) by {
                    assert(old(self).stream_to_clip(id).contains_key(stream));
                    let clip = self.stream_to_clip(id)[stream];
                    assert(old(self).document@.contains_key(clip));
                    assert(self.document@.contains_key(clip));
                }
            }
            assert forall|id: ClipId| #[trigger]
                self.doc().clips@.contains_key(id) implies id < self.next_clip() by {
                assert(old(self).doc().clips@.contains_key(id));
            }
            self.recordings_still_bounded(old(self));
        }
    }

    /// Deletes the selected clips. Active ones are not deleted and stay selected.
    pub fn delete_selection(&mut self, selection: &mut BTreeSet<ClipId>)
        requires
            old(self).wf(),
        ensures
            final(self).wf(),
            final(self).doc().clips@ == old(self).doc().clips@.remove_keys(
                old(selection)@.difference(old(self).active()),
            ),
            final(selection)@ == old(selection)@.intersect(old(self).active()),
            final(self).same_but_for_clips(old(self)),
            selection_was_deleted(*old(self), old(selection)@, *final(self), final(selection)@),
            forall|id: RecordingId|
                #[trigger] old(self).covers(id) && old(self).holds_active(id) ==> final(self).covers(id),
    {
        let ids = sorted_members(selection);
        let ghost selected = selection@;
        proof {
            all_are_taken(ids@, selected);
            assert(self.document.clips@ =~= self.document.clips@.remove_keys(Set::empty()));
            assert(Set::<ClipId>::empty().difference(self.active_clips@) =~= Set::empty());
            assert(selected =~= selected.difference(Set::<ClipId>::empty()));
        }
        for i in 0..ids.len()
            invariant
                lists(ids@, selected),
                self.document.clips@ == old(self).document.clips@.remove_keys(
                    ids@.take(i as int).to_set().difference(self.active_clips@),
                ),
                selection@ == selected.difference(
                    ids@.take(i as int).to_set().difference(self.active_clips@),
                ),
                self.active_clips == old(self).active_clips,
                self.clip_id_factory == old(self).clip_id_factory,
                self.recording_id_factory == old(self).recording_id_factory,
                self.recordings == old(self).recordings,
                self.clip_name_counter == old(self).clip_name_counter,
        {
            let id: ClipId = ids[i];
            let ghost before = ids@.take(i as int).to_set();
            proof {
                next_is_taken(ids@, i as int);
            }
            if self.active_clips.contains(&id) {
                assert(before.insert(id).difference(self.active_clips@) =~= before.difference(
                    self.active_clips@,
                ));
            } else {
                self.document.clips.remove(&id);
                selection.remove(&id);
                assert(before.insert(id).difference(self.active_clips@) =~= before.difference(
                    self.active_clips@,
                ).insert(id));
                assert(self.document.clips@ =~= old(self).document.clips@.remove_keys(
                    before.insert(id).difference(self.active_clips@),
                ));
                assert(selection@ =~= selected.difference(
                    before.insert(id).difference(self.active_clips@),
                ));
            }
        }
        proof {
            all_are_taken(ids@, selected);
            assert(selection@ =~= selected.intersect(self.active_clips@));
            assert forall|id: RecordingId| #[trigger]
                old(self).covers(id) && old(self).holds_active(id) implies self.covers(id) by {
                assert forall|stream: StreamId| #[trigger]
                    self.stream_to_clip(id).contains_key(
                        stream,
                    ) implies self.doc().clips@.contains_key(self.stream_to_clip(id)[stream]) by {
                    assert(old(self).stream_to_clip(id).contains_key(stream));
                }
            }
            assert forall|id: ClipId| #[trigger] self.doc().clips@.contains_key(id) implies {
                &&& id < self.next_clip()
                &&& self.doc().clips@[id].wf()
            } by {
                assert(old(self).doc().clips@.contains_key(id));
            }
            self.recordings_still_bounded(old(self));
        }
    }

    /// The state in which a loaded document is taken up: new clips get identifiers and
    /// numbers above those of the clips that are there.
    pub fn from_document(document: Document) -> (active: ActiveDocument)
        requires
            document.wf(),
            forall|id: ClipId| #[trigger] document.clips@.contains_key(id) ==> id < usize::MAX,
            forall|id: ClipId| #[trigger]
                document.clips@.contains_key(id) ==> number_of(document@, id) != Some(
                    usize::MAX as nat,
                ),
        ensures
            active.wf(),
            active.doc() == document,
            active.active() == Set::<ClipId>::empty(),
            active.recording_ids() == Set::<RecordingId>::empty(),
            active.next_recording() == 0,
            1 <= active.next_clip() <= usize::MAX,
            active.next_clip() == 1 || document.clips@.contains_key(
                (active.next_clip() - 1) as ClipId,
            ),
            forall|id: ClipId| #[trigger]
                document.clips@.contains_key(id) ==> match number_of(document@, id) {
                    Some(number) => number < active.next_number(),
                    None => true,
                },
            active.next_number() == 1 || exists|id: ClipId| #[trigger]
                document.clips@.contains_key(id) && number_of(document@, id) == Some(
                    (active.next_number() - 1) as nat,
                ),
    {
        let ids = sorted_keys(&document.clips);
        let max_clip_id: ClipId = if ids.len() > 0 {
            ids[ids.len() - 1]
        } else {
            0
        };
        proof {
            assert forall|id: ClipId| #[trigger]
                document.clips@.contains_key(id) implies id <= max_clip_id by {
                assert(ids@.contains(id));
            }
            if ids@.len() > 0 {
                assert(ids@.contains(max_clip_id));
            }
        }
        let mut clip_id_factory = IdFactory::default();
        let mut created: usize = 0;
        while created <= max_clip_id
            invariant
                max_clip_id < usize::MAX,
                created <= max_clip_id + 1,
                clip_id_factory.next_id() == created,
            decreases max_clip_id + 1 - created,
        {
            clip_id_factory.create();
            created = created + 1;
        }
        let mut max_clip_number: usize = 0;
        for i in 0..ids.len()
            invariant
                lists(ids@, document.clips@.dom()),
                max_clip_number < usize::MAX,
                forall|id: ClipId| #[trigger]
                    document.clips@.contains_key(id) ==> number_of(document@, id) != Some(
                        usize::MAX as nat,
                    ),
                forall|k: int|
                    0 <= k < i ==> match number_of(document@, #[trigger] ids@[k]) {
                        Some(number) => number <= max_clip_number,
                        None => true,
                    },
                max_clip_number == 0 || exists|id: ClipId| #[trigger]
                    document.clips@.contains_key(id) && number_of(document@, id) == Some(
                        max_clip_number as nat,
                    ),
        {
            let id: ClipId = ids[i];
            assert(ids@.contains(id));
            let clip = document.clips.get(&id).unwrap();
            let number = parse_clip_number(clip.descriptor.name.as_str());
            if let Some(n) = number {
                assert(number_of(document@, id) == Some(n as nat));
                if n > max_clip_number {
                    max_clip_number = n;
                }
            }
        }
        let active = ActiveDocument {
            document,
            active_clips: BTreeSet::new(),
            clip_id_factory,
            recording_id_factory: IdFactory::default(),
            recordings: BTreeMap::new(),
            clip_name_counter: max_clip_number + 1,
        };
        proof {
            assert forall|id: ClipId| #[trigger] document.clips@.contains_key(id) implies match number_of(
                document@,
                id,
            ) {
                Some(number) => number < active.next_number(),
                None => true,
            } by {
                assert(ids@.contains(id));
                let k = choose|k: int| 0 <= k < ids@.len() && ids@[k] == id;
                assert(ids@[k] == id);
            }
        }
        active
    }

    /// Changes what is known of a clip.
    pub fn set_descriptor(&mut self, id: ClipId, descriptor: ClipDescriptor)
        requires
            old(self).wf(),
            old(self).doc().clips@.contains_key(id),
        ensures
            final(self).wf(),
            final(self).doc()@ == old(self).doc()@.insert(
                id,
                ClipModel { descriptor: descriptor@, chunks: old(self).doc()@[id].chunks },
            ),
            final(self).same_but_for_clips(old(self)),
            was_described(old(self).doc()@, id, descriptor@, final(self).doc()@),
    {
        let mut shared = self.document.clips.remove(&id).unwrap();
        let clip = make_mut(&mut shared);
        clip.descriptor = descriptor;
        let ghost changed = clip@;
        self.document.clips.insert(id, shared);
        proof {
            assert(self.document@ =~= old(self).document@.insert(id, changed));
            assert forall|other: ClipId| #[trigger] self.doc().clips@.contains_key(other) implies {
                &&& other < self.next_clip()
                &&& self.doc().clips@[other].wf()
            } by {
                assert(old(self).doc().clips@.contains_key(other));
            }
            self.recordings_still_bounded(old(self));
        }
    }
}

/// A clip that is recorded after a document was loaded gets a name that none of its
/// clips has.
pub proof fn new_names_are_new(clips: Map<ClipId, ClipModel>, id: ClipId, next_number: nat)
    requires
        clips.contains_key(id),
        next_number <= usize::MAX,
        number_of(clips, id) matches Some(number) ==> number < next_number,
    ensures
        clip_name(next_number) != clips[id].descriptor.name,
{
    clip_names_are_numbered(next_number);
}

/// The pieces of a stream among those that were received, in order.
pub open spec fn pieces_of(pieces: Seq<ReceivedChunk>, stream: StreamId) -> Seq<Chunk>
    decreases pieces.len(),
{
    if pieces.len() == 0 {
        Seq::empty()
    } else {
        let before = pieces_of(pieces.drop_last(), stream);
        if pieces.last().stream_id == stream {
            before.push(pieces.last().chunk)
        } else {
            before
        }
    }
}

/// The chunks that are recorded of a stream so far.
pub open spec fn recorded_of(state: RecordingState, stream: StreamId) -> Seq<Chunk> {
    if state.stream_to_clip.contains_key(stream) {
        state.clips[state.stream_to_clip[stream]].chunks.items
    } else {
        Seq::empty()
    }
}

/// Whether no two streams are recorded to the same clip.
pub open spec fn clips_apart(stream_to_clip: Map<StreamId, ClipId>) -> bool {
    forall|a: StreamId, b: StreamId|
        #![trigger stream_to_clip[a], stream_to_clip[b]]
        stream_to_clip.contains_key(a) && stream_to_clip.contains_key(b) && stream_to_clip[a]
            == stream_to_clip[b] ==> a == b
}

/// Whether every stream is recorded to a clip of its own, and the next clip will have
/// an identifier of its own.
pub open spec fn streams_apart(state: RecordingState) -> bool {
    &&& forall|clip: ClipId| #[trigger] state.clips.contains_key(clip) ==> clip < state.next_clip
    &&& forall|stream: StreamId| #[trigger]
        state.stream_to_clip.contains_key(stream) ==> state.clips.contains_key(
            state.stream_to_clip[stream],
        )
    &&& clips_apart(state.stream_to_clip)
}

/// Recording appends every piece to the clip of its stream, in the order in which the
/// pieces arrived, and leaves the clips alone that no stream is recorded to.
pub proof fn recording_appends_in_order(
    state: RecordingState,
    pieces: Seq<ReceivedChunk>,
    streams: Seq<(StreamId, StreamDescriptor)>,
    stream: StreamId,
    clip: ClipId,
)
    requires
        streams_apart(state),
        state.next_clip + pieces.len() <= usize::MAX,
    ensures
        ({
            let after = with_pieces(state, pieces, streams);
            &&& streams_apart(after)
            &&& after.next_clip <= state.next_clip + pieces.len()
            &&& recorded_of(after, stream) == recorded_of(state, stream) + pieces_of(pieces, stream)
            &&& state.clips.contains_key(clip) ==> after.clips.contains_key(clip)
                && after.clips[clip].descriptor == state.clips[clip].descriptor
            &&& state.clips.contains_key(clip) && !state.stream_to_clip.contains_value(clip)
                ==> after.clips[clip] == state.clips[clip] && !after.stream_to_clip.contains_value(clip)
        }),
    decreases pieces.len(),
{
    if pieces.len() == 0 {
        assert(recorded_of(state, stream) + pieces_of(pieces, stream) =~= recorded_of(
            state,
            stream,
        ));
    } else {
        let earlier = pieces.drop_last();
        let piece = pieces.last();
        recording_appends_in_order(state, earlier, streams, stream, clip);
        let before = with_pieces(state, earlier, streams);
        let ready = with_clip_for(before, piece, streams);
        let after = with_piece(before, piece, streams);
        let target = ready.stream_to_clip[piece.stream_id];
        assert(after == with_pieces(state, pieces, streams));
        assert(after.stream_to_clip == ready.stream_to_clip);
        assert(ready.clips.contains_key(target));
        assert(streams_apart(ready)) by {
            if !before.stream_to_clip.contains_key(piece.stream_id) {
                assert forall|s: StreamId| #[trigger]
                    ready.stream_to_clip.contains_key(s) implies ready.clips.contains_key(
                    ready.stream_to_clip[s],
                ) by {
                    if s != piece.stream_id {
                        assert(before.stream_to_clip.contains_key(s));
                    }
                }
                assert forall|a: StreamId, b: StreamId|
                    #![trigger ready.stream_to_clip[a], ready.stream_to_clip[b]]
                    ready.stream_to_clip.contains_key(a) && ready.stream_to_clip.contains_key(b)
                        && ready.stream_to_clip[a] == ready.stream_to_clip[b] implies a == b by {
                    if a != piece.stream_id {
                        assert(before.stream_to_clip.contains_key(a));
                        assert(before.clips.contains_key(before.stream_to_clip[a]));
                    }
                    if b != piece.stream_id {
                        assert(before.stream_to_clip.contains_key(b));
                        assert(before.clips.contains_key(before.stream_to_clip[b]));
                    }
                }
            }
        }
        assert(recorded_of(ready, stream) == recorded_of(before, stream)) by {
            if !before.stream_to_clip.contains_key(piece.stream_id) {
                if stream == piece.stream_id {
                    assert(recorded_of(ready, stream) =~= Seq::<Chunk>::empty());
                } else if before.stream_to_clip.contains_key(stream) {
                    assert(before.clips.contains_key(before.stream_to_clip[stream]));
                }
            }
        }
        if stream == piece.stream_id {
            assert(recorded_of(after, stream) =~= recorded_of(before, stream).push(piece.chunk));
            assert(recorded_of(after, stream) =~= recorded_of(state, stream) + pieces_of(
                pieces,
                stream,
            ));
        } else if after.stream_to_clip.contains_key(stream) {
            assert(after.stream_to_clip[stream] != target);
            assert(recorded_of(after, stream) == recorded_of(ready, stream));
        }
        if state.clips.contains_key(clip) {
            assert(before.clips.contains_key(clip));
            if !state.stream_to_clip.contains_value(clip) {
                assert(!before.stream_to_clip.contains_value(clip));
                if before.stream_to_clip.contains_key(piece.stream_id) {
                    assert(before.stream_to_clip[piece.stream_id] == target);
                    assert(before.stream_to_clip.contains_value(target));
                }
                assert(target != clip);
                if after.stream_to_clip.contains_value(clip) {
                    let s = choose|s: StreamId| #[trigger]
                        after.stream_to_clip.contains_key(s) && after.stream_to_clip[s] == clip;
                    assert(before.stream_to_clip.contains_key(s) && before.stream_to_clip[s] == clip);
                    assert(false);
                }
            }
        }
    }
}

/// What is found for a stream is the first entry with its identifier, and something is found
/// exactly where there is one.
pub proof fn the_first_entry_is_found(
    streams: Seq<(StreamId, StreamDescriptor)>,
    id: StreamId,
    k: int,
)
    ensures
        0 <= k < streams.len() && streams[k].0 == id && (forall|j: int|
            0 <= j < k ==> (#[trigger] streams[j]).0 != id) ==> stream_entry(streams, id) == Some(
            streams[k].1,
        ),
        stream_entry(streams, id) is Some <==> exists|j: int|
            0 <= j < streams.len() && (#[trigger] streams[j]).0 == id,
    decreases streams.len(),
{
    if streams.len() > 0 {
        let rest = streams.drop_first();
        the_first_entry_is_found(rest, id, k - 1);
        if streams.first().0 == id {
            assert(streams[0].0 == id);
        } else {
            assert(forall|j: int| 0 <= j < rest.len() ==> #[trigger] rest[j] == streams[j + 1]);
            if exists|j: int| 0 <= j < streams.len() && (#[trigger] streams[j]).0 == id {
                let j = choose|j: int| 0 <= j < streams.len() && (#[trigger] streams[j]).0 == id;
                assert(rest[j - 1].0 == id);
            }
            if exists|j: int| 0 <= j < rest.len() && (#[trigger] rest[j]).0 == id {
                let j = choose|j: int| 0 <= j < rest.len() && (#[trigger] rest[j]).0 == id;
                assert(streams[j + 1].0 == id);
            }
            if 0 < k < streams.len() {
                assert(rest[k - 1] == streams[k]);
            }
        }
    }
}

/// Whether every identifier that was given out is below the next one, and no two streams are
/// recorded to the same clip.
spec fn given_out(state: RecordingState) -> bool {
    &&& forall|clip: ClipId| #[trigger] state.clips.contains_key(clip) ==> clip < state.next_clip
    &&& forall|stream: StreamId| #[trigger]
        state.stream_to_clip.contains_key(stream) ==> state.stream_to_clip[stream]
            < state.next_clip
    &&& clips_apart(state.stream_to_clip)
}

/// Where the first piece of a stream is.
pub open spec fn is_first_piece(pieces: Seq<ReceivedChunk>, stream: StreamId, i: int) -> bool {
    &&& 0 <= i < pieces.len()
    &&& pieces[i].stream_id == stream
    &&& forall|j: int| 0 <= j < i ==> (#[trigger] pieces[j]).stream_id != stream
}

/// What recording some pieces makes of the clips.
proof fn recording_makes_and_fills_clips(
    state: RecordingState,
    pieces: Seq<ReceivedChunk>,
    streams: Seq<(StreamId, StreamDescriptor)>,
    stream: StreamId,
    clip: ClipId,
)
    requires
        given_out(state),
        state.next_clip + pieces.len() <= usize::MAX,
    ensures
        ({
            let after = with_pieces(state, pieces, streams);
            let target = after.stream_to_clip[stream];
            &&& given_out(after)
            &&& state.next_clip <= after.next_clip <= state.next_clip + pieces.len()
            &&& after.next_number - state.next_number == after.next_clip - state.next_clip
            &&& after.stream_to_clip.contains_key(stream) <==> {
                ||| state.stream_to_clip.contains_key(stream)
                ||| exists|i: int| 0 <= i < pieces.len() && (#[trigger] pieces[i]).stream_id == stream
            }
            &&& state.stream_to_clip.contains_key(stream) ==> target == state.stream_to_clip[stream]
            &&& after.stream_to_clip.contains_key(stream) && !state.stream_to_clip.contains_key(
                stream,
            ) ==> {
                let entry = stream_entry(streams, stream)->0;
                &&& state.next_clip <= target
                &&& after.clips.contains_key(target)
                &&& after.clips[target].descriptor.frequency == entry.frequency
                &&& after.clips[target].descriptor.sample_rate == entry.sample_rate
                &&& after.clips[target].descriptor.chunk_size == entry.chunk_size
                &&& after.clips[target].descriptor.name == clip_name(
                    (state.next_number + target - state.next_clip) as nat,
                )
                &&& exists|i: int| #[trigger]
                    is_first_piece(pieces, stream, i)
                        && after.clips[target].descriptor.reference_time == pieces[i].clip_start_time
                &&& after.clips[target].chunks.start == 0
                &&& after.clips[target].chunks.items == pieces_of(pieces, stream)
            }
            &&& state.stream_to_clip.contains_key(stream) && state.clips.contains_key(target) ==> {
                &&& after.clips.contains_key(target)
                &&& after.clips[target].chunks.start == state.clips[target].chunks.start
                &&& after.clips[target].chunks.items == state.clips[target].chunks.items
                    + pieces_of(pieces, stream)
            }
            &&& state.clips.contains_key(clip) ==> {
                &&& after.clips.contains_key(clip)
                &&& after.clips[clip].descriptor == state.clips[clip].descriptor
                &&& (forall|s: StreamId| #[trigger]
                    state.stream_to_clip.contains_key(s) ==> state.stream_to_clip[s] != clip)
                    ==> after.clips[clip] == state.clips[clip] && forall|s: StreamId| #[trigger]
                    after.stream_to_clip.contains_key(s) ==> after.stream_to_clip[s] != clip
            }
        }),
    decreases pieces.len(),
{
    if pieces.len() == 0 {
        if state.stream_to_clip.contains_key(stream) {
            let target = state.stream_to_clip[stream];
            assert(state.clips[target].chunks.items + pieces_of(pieces, stream)
                =~= state.clips[target].chunks.items);
        }
    } else {
        let earlier = pieces.drop_last();
        let piece = pieces.last();
        recording_makes_and_fills_clips(state, earlier, streams, stream, clip);
        recording_makes_and_fills_clips(state, earlier, streams, piece.stream_id, clip);
        let before = with_pieces(state, earlier, streams);
        let ready = with_clip_for(before, piece, streams);
        let after = with_piece(before, piece, streams);
        let filled = ready.stream_to_clip[piece.stream_id];
        let target = after.stream_to_clip[stream];
        assert(after == with_pieces(state, pieces, streams));
        assert(forall|i: int| 0 <= i < earlier.len() ==> #[trigger] earlier[i] == pieces[i]);
        assert(pieces[pieces.len() - 1] == piece);
        assert(given_out(after)) by {
            assert(clips_apart(after.stream_to_clip)) by {
                assert forall|a: StreamId, b: StreamId|
                    #![trigger after.stream_to_clip[a], after.stream_to_clip[b]]
                    after.stream_to_clip.contains_key(a) && after.stream_to_clip.contains_key(b)
                        && after.stream_to_clip[a] == after.stream_to_clip[b] implies a == b by {
                    if a != piece.stream_id {
                        assert(before.stream_to_clip.contains_key(a));
                    }
                    if b != piece.stream_id {
                        assert(before.stream_to_clip.contains_key(b));
                    }
                }
            }
            assert forall|s: StreamId| #[trigger]
                after.stream_to_clip.contains_key(s) implies after.stream_to_clip[s]
                < after.next_clip by {
                if s != piece.stream_id {
                    assert(before.stream_to_clip.contains_key(s));
                }
            }
        }
        if exists|i: int| 0 <= i < earlier.len() && (#[trigger] earlier[i]).stream_id == stream {
            let i = choose|i: int| 0 <= i < earlier.len() && (#[trigger] earlier[i]).stream_id == stream;
            assert(pieces[i].stream_id == stream);
        }
        if exists|i: int| 0 <= i < pieces.len() && (#[trigger] pieces[i]).stream_id == stream {
            let i = choose|i: int| 0 <= i < pieces.len() && (#[trigger] pieces[i]).stream_id == stream;
            if i < earlier.len() {
                assert(earlier[i].stream_id == stream);
            }
        }
        if after.stream_to_clip.contains_key(stream) && stream != piece.stream_id {
            assert(before.stream_to_clip.contains_key(stream));
            assert(after.stream_to_clip[stream] != after.stream_to_clip[piece.stream_id]);
            assert(target != filled);
        }
        if after.stream_to_clip.contains_key(stream) && !state.stream_to_clip.contains_key(stream) {
            if before.stream_to_clip.contains_key(stream) {
                let i = choose|i: int| #[trigger]
                    is_first_piece(earlier, stream, i)
                        && before.clips[target].descriptor.reference_time == earlier[i].clip_start_time;
                assert(is_first_piece(pieces, stream, i)) by {
                    assert forall|j: int| 0 <= j < i implies (#[trigger] pieces[j]).stream_id
                        != stream by {
                        assert(earlier[j].stream_id != stream);
                    }
                }
            } else {
                assert(is_first_piece(pieces, stream, pieces.len() - 1)) by {
                    assert forall|j: int| 0 <= j < earlier.len() implies (
                    #[trigger] pieces[j]).stream_id != stream by {
                        assert(earlier[j].stream_id != stream);
                    }
                }
                no_pieces_of_others(earlier, stream);
            }
            assert(after.clips[target].chunks.items =~= pieces_of(pieces, stream));
        }
        if state.stream_to_clip.contains_key(stream) && state.clips.contains_key(target) {
            assert(after.clips[target].chunks.items =~= state.clips[target].chunks.items
                + pieces_of(pieces, stream));
        }
        if state.clips.contains_key(clip) {
            assert(before.clips.contains_key(clip));
            if forall|s: StreamId| #[trigger]
                state.stream_to_clip.contains_key(s) ==> state.stream_to_clip[s] != clip {
                assert(filled != clip);
            }
        }
    }
}

/// There are no pieces of a stream where all are of others.
proof fn no_pieces_of_others(pieces: Seq<ReceivedChunk>, stream: StreamId)
    requires
        forall|j: int| 0 <= j < pieces.len() ==> (#[trigger] pieces[j]).stream_id != stream,
    ensures
        pieces_of(pieces, stream).len() == 0,
    decreases pieces.len(),
{
    if pieces.len() > 0 {
        assert(pieces[pieces.len() - 1].stream_id != stream);
        no_pieces_of_others(pieces.drop_last(), stream);
    }
}

/// Whether what was received was appended to the clips of a recording.
pub open spec fn was_recorded(
    before: ActiveDocument,
    id: RecordingId,
    received: ReceivedChunks,
    after: ActiveDocument,
) -> bool {
    &&& after.recording_state(id) == with_pieces(
        before.continued(id, received.active_streams@),
        received.chunks@,
        received.active_streams@,
    )
    &&& after.recording_ids() == before.recording_ids()
    &&& after.started(id) == before.started(id)
    &&& forall|other: RecordingId|
        other != id ==> #[trigger] after.stream_to_clip(other) == before.stream_to_clip(other)
            && after.started(other) == before.started(other)
    &&& after.active() == before.active()
    &&& after.next_recording() == before.next_recording()
}

/// A clip that is made for a stream has the frequency, the sample rate and the chunk size of the
/// first entry for the stream among the active ones, and the time of the first piece of the
/// stream. It is a new clip with a number of its own, and holds the pieces of the stream, in the
/// order in which they were received and numbered from zero, and nothing else.
pub proof fn clips_are_made_for_new_streams(
    before: ActiveDocument,
    id: RecordingId,
    received: ReceivedChunks,
    after: ActiveDocument,
    stream: StreamId,
    k: int,
    first: int,
)
    requires
        before.wf(),
        before.recording_ids().contains(id),
        before.next_clip() + received.chunks@.len() <= usize::MAX,
        was_recorded(before, id, received, after),
        !before.stream_to_clip(id).contains_key(stream),
        0 <= k < received.active_streams@.len(),
        received.active_streams@[k].0 == stream,
        forall|j: int| 0 <= j < k ==> (#[trigger] received.active_streams@[j]).0 != stream,
        is_first_piece(received.chunks@, stream, first),
    ensures
        after.stream_to_clip(id).contains_key(stream),
        ({
            let clip_id = after.stream_to_clip(id)[stream];
            let clip = after.doc().clips@[clip_id];
            let entry = received.active_streams@[k].1;
            &&& !before.doc().clips@.contains_key(clip_id)
            &&& before.next_clip() <= clip_id < after.next_clip()
            &&& after.doc().clips@.contains_key(clip_id)
            &&& clip.descriptor.frequency == entry.frequency
            &&& clip.descriptor.sample_rate == entry.sample_rate
            &&& clip.descriptor.chunk_size == entry.chunk_size
            &&& clip.descriptor.reference_time == received.chunks@[first].clip_start_time
            &&& clip.descriptor.name@ == "Clip "@ + crate::text::decimal(
                (before.next_number() + clip_id - before.next_clip()) as nat,
            )
            &&& clip.chunks@.start == 0
            &&& clip.chunks@.items == pieces_of(received.chunks@, stream)
            &&& forall|other: StreamId|
                other != stream && #[trigger] after.stream_to_clip(id).contains_key(other)
                    ==> after.stream_to_clip(id)[other] != clip_id
        }),
        after.next_number() - before.next_number() == after.next_clip() - before.next_clip(),
{
    let streams = received.active_streams@;
    let pieces = received.chunks@;
    let start = before.continued(id, streams);
    assert(clips_apart(before.stream_to_clip(id)));
    assert(forall|s: StreamId| #[trigger]
        start.stream_to_clip.contains_key(s) ==> before.stream_to_clip(id).contains_key(s));
    assert forall|clip: ClipId| #[trigger] start.clips.contains_key(clip) implies clip
        < start.next_clip by {
        assert(before.doc().clips@.contains_key(clip));
    }
    assert(pieces[first].stream_id == stream);
    recording_makes_and_fills_clips(start, pieces, streams, stream, 0);
    the_first_entry_is_found(streams, stream, k);
    let target = after.stream_to_clip(id)[stream];
    let i = choose|i: int| #[trigger]
        is_first_piece(pieces, stream, i)
            && after.doc()@[target].descriptor.reference_time == pieces[i].clip_start_time;
    assert(i == first) by {
        if i < first {
            assert(pieces[i].stream_id != stream);
        } else if first < i {
            assert(pieces[first].stream_id != stream);
        }
    }
    assert forall|other: StreamId|
        other != stream && #[trigger] after.stream_to_clip(id).contains_key(
            other,
        ) implies after.stream_to_clip(id)[other] != target by {
        assert(clips_apart(after.recording_state(id).stream_to_clip));
    }
    assert(after.doc()@.contains_key(target));
    assert(after.doc().clips@.contains_key(target));
}

/// A stream that goes on is recorded to the clip that it was recorded to, and its pieces are
/// appended there, in the order in which they were received. A stream that does not go on is
/// forgotten. Clips that no stream of the recording goes on in stay as they are, and what is
/// known of a clip does not change.
pub proof fn streams_go_on_in_their_clips(
    before: ActiveDocument,
    id: RecordingId,
    received: ReceivedChunks,
    after: ActiveDocument,
    stream: StreamId,
    clip: ClipId,
)
    requires
        before.wf(),
        before.recording_ids().contains(id),
        before.next_clip() + received.chunks@.len() <= usize::MAX,
        was_recorded(before, id, received, after),
    ensures
        ({
            let goes_on = before.stream_to_clip(id).contains_key(stream) && exists|j: int|
                0 <= j < received.active_streams@.len() && (
                #[trigger] received.active_streams@[j]).0 == stream;
            let target = before.stream_to_clip(id)[stream];
            &&& goes_on ==> after.stream_to_clip(id).contains_key(stream)
                && after.stream_to_clip(id)[stream] == target
            &&& goes_on && before.doc().clips@.contains_key(target) ==> {
                &&& after.doc().clips@.contains_key(target)
                &&& after.doc().clips@[target].chunks@.start
                    == before.doc().clips@[target].chunks@.start
                &&& after.doc().clips@[target].chunks@.items
                    == before.doc().clips@[target].chunks@.items + pieces_of(
                    received.chunks@,
                    stream,
                )
            }
            &&& after.stream_to_clip(id).contains_key(stream) <==> goes_on || exists|i: int|
                0 <= i < received.chunks@.len() && (#[trigger] received.chunks@[i]).stream_id
                    == stream
        }),
        before.doc().clips@.contains_key(clip) ==> {
            &&& after.doc().clips@.contains_key(clip)
            &&& after.doc()@[clip].descriptor == before.doc()@[clip].descriptor
            &&& (forall|s: StreamId| #[trigger]
                before.stream_to_clip(id).contains_key(s) ==> before.stream_to_clip(id)[s] != clip)
                ==> after.doc()@[clip] == before.doc()@[clip]
        },
        forall|other: RecordingId|
            other != id ==> #[trigger] after.stream_to_clip(other) == before.stream_to_clip(other),
{
    let streams = received.active_streams@;
    let pieces = received.chunks@;
    let start = before.continued(id, streams);
    assert(clips_apart(before.stream_to_clip(id)));
    assert(forall|s: StreamId| #[trigger]
        start.stream_to_clip.contains_key(s) ==> before.stream_to_clip(id).contains_key(s));
    assert forall|c: ClipId| #[trigger] start.clips.contains_key(c) implies c < start.next_clip by {
        assert(before.doc().clips@.contains_key(c));
    }
    recording_makes_and_fills_clips(start, pieces, streams, stream, clip);
    the_first_entry_is_found(streams, stream, 0);
    assert(forall|c: ClipId| #[trigger]
        after.doc().clips@.contains_key(c) <==> after.doc()@.contains_key(c));
    if before.doc().clips@.contains_key(clip) {
        assert(start.clips.contains_key(clip));
    }
}

/// What was recorded before the first chunk to keep is gone, and what was recorded from it on is
/// still there, under the same numbers. A clip of which something is to be forgotten stays only
/// where something is left of it or it is active, and all other clips stay as they are.
pub proof fn expiry_forgets_what_is_old(
    clips: Map<ClipId, ClipModel>,
    cuts: Map<ClipId, isize>,
    active: Set<ClipId>,
    id: ClipId,
    index: int,
)
    ensures
        ({
            let after = expired(clips, cuts, active);
            &&& after.contains_key(id) ==> clips.contains_key(id) && after[id].descriptor
                == clips[id].descriptor
            &&& clips.contains_key(id) && !cuts.contains_key(id) ==> after.contains_key(id)
                && after[id] == clips[id]
            &&& clips.contains_key(id) && cuts.contains_key(id) ==> {
                &&& after.contains_key(id) <==> active.contains(id) || (clips[id].chunks.end()
                    > cuts[id] && clips[id].chunks.len() > 0)
                &&& after.contains_key(id) ==> {
                    &&& after[id].chunks.has(index) <==> clips[id].chunks.has(index) && index
                        >= cuts[id]
                    &&& after[id].chunks.has(index) ==> after[id].chunks.at(index)
                        == clips[id].chunks.at(index)
                }
            }
        }),
{
}

/// Whether the clips of a selection were deleted, but for those that are recorded to.
pub open spec fn selection_was_deleted(
    before: ActiveDocument,
    selection: Set<ClipId>,
    after: ActiveDocument,
    left: Set<ClipId>,
) -> bool {
    &&& after.doc().clips@ == before.doc().clips@.remove_keys(
        selection.difference(before.active()),
    )
    &&& left == selection.intersect(before.active())
    &&& after.same_but_for_clips(&before)
}

/// A clip is deleted exactly where it is selected and not recorded to. Any other stays as it is,
/// and what stays of the selection are the clips that are recorded to.
pub proof fn selected_clips_are_deleted(
    before: ActiveDocument,
    selection: Set<ClipId>,
    after: ActiveDocument,
    left: Set<ClipId>,
    id: ClipId,
)
    requires
        selection_was_deleted(before, selection, after, left),
    ensures
        after.doc().clips@.contains_key(id) <==> before.doc().clips@.contains_key(id) && (
        !selection.contains(id) || before.active().contains(id)),
        after.doc().clips@.contains_key(id) ==> after.doc().clips@[id] == before.doc().clips@[id],
        left.contains(id) <==> selection.contains(id) && before.active().contains(id),
        after.active() == before.active(),
        after.recording_ids() == before.recording_ids(),
        after.next_clip() == before.next_clip(),
        after.next_recording() == before.next_recording(),
        after.next_number() == before.next_number(),
{
}

/// Whether a clip was given another description.
pub open spec fn was_described(
    before: Map<ClipId, ClipModel>,
    id: ClipId,
    descriptor: DescriptorModel,
    after: Map<ClipId, ClipModel>,
) -> bool {
    after == before.insert(id, ClipModel { descriptor, chunks: before[id].chunks })
}

/// A clip that is given another description keeps its chunks, and the other clips stay.
pub proof fn descriptions_leave_the_chunks(
    before: Map<ClipId, ClipModel>,
    id: ClipId,
    descriptor: DescriptorModel,
    after: Map<ClipId, ClipModel>,
    other: ClipId,
)
    requires
        before.contains_key(id),
        was_described(before, id, descriptor, after),
    ensures
        after.contains_key(id) && after[id].descriptor == descriptor,
        after[id].chunks == before[id].chunks,
        after.contains_key(other) <==> before.contains_key(other),
        before.contains_key(other) && other != id ==> after[other] == before[other],
{
}

/// Whether recordings that have ended were forgotten, and the clips that are recorded to found.
pub open spec fn recordings_were_updated(
    before: ActiveDocument,
    live: Set<RecordingId>,
    after: ActiveDocument,
) -> bool {
    &&& after.recording_ids() == before.recording_ids().intersect(live)
    &&& forall|id: RecordingId|
        after.recording_ids().contains(id) ==> #[trigger] after.stream_to_clip(id)
            == before.stream_to_clip(id) && after.started(id) == before.started(id)
    &&& forall|clip: ClipId|
        #[trigger] after.active().contains(clip) <==> after.is_recorded_to(clip)
    &&& after.doc().clips@ == before.doc().clips@
}

/// A recording that is still wanted goes on with its streams and its clips, which are active then.
/// A recording that is not is forgotten, and a clip that no recording records to is not active.
pub proof fn clips_are_active_while_they_are_recorded_to(
    before: ActiveDocument,
    live: Set<RecordingId>,
    after: ActiveDocument,
    id: RecordingId,
    stream: StreamId,
    clip: ClipId,
)
    requires
        recordings_were_updated(before, live, after),
    ensures
        after.recording_ids().contains(id) <==> before.recording_ids().contains(id)
            && live.contains(id),
        before.recording_ids().contains(id) && live.contains(id) && before.stream_to_clip(
            id,
        ).contains_key(stream) ==> after.stream_to_clip(id).contains_key(stream)
            && after.stream_to_clip(id)[stream] == before.stream_to_clip(id)[stream]
            && after.active().contains(before.stream_to_clip(id)[stream]),
        (forall|r: RecordingId, s: StreamId|
            before.recording_ids().contains(r) && live.contains(r)
                && #[trigger] before.stream_to_clip(r).contains_key(s) ==> before.stream_to_clip(
                r,
            )[s] != clip) ==> !after.active().contains(clip),
        after.doc().clips@ == before.doc().clips@,
{
    if before.recording_ids().contains(id) && live.contains(id) && before.stream_to_clip(
        id,
    ).contains_key(stream) {
        assert(after.recording_ids().contains(id));
        assert(after.stream_to_clip(id) == before.stream_to_clip(id));
        assert(after.is_recorded_to(before.stream_to_clip(id)[stream]));
    }
    if after.active().contains(clip) {
        assert(after.is_recorded_to(clip));
        let (r, s) = choose|r: RecordingId, s: StreamId|
            after.recording_ids().contains(r) && #[trigger] after.stream_to_clip(r).contains_key(s)
                && after.stream_to_clip(r)[s] == clip;
        assert(after.recording_ids().contains(r));
        assert(after.stream_to_clip(r) == before.stream_to_clip(r));
        assert(before.stream_to_clip(r).contains_key(s));
    }
}

} // verus!
