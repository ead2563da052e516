use std::collections::{BTreeMap, BTreeSet};
use std::sync::Arc;

use vstd::prelude::*;

use crate::active_document::{stream_entry, StreamDescriptor};
use crate::analysis::ProcessorId;
use crate::document::StreamId;
use crate::indexed::IndexedSeq;
use crate::maps::{
    all_are_taken, keys_where, keys_with, list_grows, lists, next_is_taken, reversed,
    taken_are_below,
};
use crate::raw_history::{
    messages_keep_copies_equal, shared, spans_expired, spans_extended, spans_within,
    tells_what_came, ChunkRun, HistoryMessage, ReceiveStreamChunk, StreamHistory, StreamSpans,
};
use crate::seqdeque::SeqDeque;

verus! {

/// A copy of a history, and how far it has been processed.
pub struct HistoryWorker {
    chunks: SeqDeque<Arc<ReceiveStreamChunk>>,
    streams: BTreeMap<StreamId, StreamHistory>,
    preprocessors: BTreeSet<StreamId>,
    next_seq_num: usize,
    processors: BTreeMap<ProcessorId, usize>,
    position: usize,
}

/// A chunk to process, and by whom.
pub struct HistoryStep {
    pub seq_num: usize,
    pub chunk: Arc<ReceiveStreamChunk>,
    /// The streams that end before the chunk.
    pub ended: Vec<StreamId>,
    /// The streams that start with the chunk.
    pub started: Vec<StreamId>,
    /// The processors that have not got this far.
    pub processors: Vec<ProcessorId>,
}

/// The streams that end before the chunk numbered `seq_num`.
pub open spec fn ending_at(spans: StreamSpans, seq_num: usize) -> Set<StreamId> {
    keys_with(spans, |id: StreamId, span: StreamHistory| span.end == seq_num)
}

/// The streams that start with the chunk numbered `seq_num`.
pub open spec fn starting_at(spans: StreamSpans, seq_num: usize) -> Set<StreamId> {
    keys_with(spans, |id: StreamId, span: StreamHistory| span.start == seq_num)
}

/// The streams that are open once the chunk numbered `seq_num` comes.
pub open spec fn open_at(open: Set<StreamId>, spans: StreamSpans, seq_num: usize) -> Set<StreamId> {
    open.difference(ending_at(spans, seq_num)).union(starting_at(spans, seq_num))
}

/// The next chunk of each processor once the history starts at `start`. Processors that
/// have not got that far go on from there.
pub open spec fn brought_to(processors: Map<ProcessorId, usize>, start: usize) -> Map<
    ProcessorId,
    usize,
> {
    processors.map_values(
        |next: usize|
            if next < start {
                start
            } else {
                next
            },
    )
}

/// The next chunk of each processor once some are gone and others have joined, which
/// start at the beginning.
pub open spec fn joined(
    processors: Map<ProcessorId, usize>,
    removed: Seq<ProcessorId>,
    new: Seq<ProcessorId>,
    start: usize,
) -> Map<ProcessorId, usize> {
    Map::new(
        |id: ProcessorId|
            new.to_set().contains(id) || (processors.contains_key(id) && !removed.to_set().contains(id)),
        |id: ProcessorId|
            if new.to_set().contains(id) {
                start
            } else {
                processors[id]
            },
    )
}

/// Whether some processor has not got as far as the history has been preprocessed.
pub open spec fn some_behind(processors: Map<ProcessorId, usize>, next: usize) -> bool {
    exists|id: ProcessorId| #[trigger] processors.contains_key(id) && processors[id] < next
}

spec fn is_below(a: usize, b: usize) -> bool {
    a < b
}

/// Whether a chunk comes before another.
fn below(a: usize, b: usize) -> (result: bool)
    ensures
        result == is_below(a, b),
{
    a < b
}

impl HistoryWorker {
    pub closed spec fn chunks(&self) -> ChunkRun {
        self.chunks@
    }

    pub closed spec fn spans(&self) -> StreamSpans {
        self.streams@
    }

    /// The streams that are being preprocessed.
    pub closed spec fn open(&self) -> Set<StreamId> {
        self.preprocessors@
    }

    /// The first chunk that has not been preprocessed.
    pub closed spec fn next(&self) -> usize {
        self.next_seq_num
    }

    /// The next chunk of each processor.
    pub closed spec fn places(&self) -> Map<ProcessorId, usize> {
        self.processors@
    }

    /// The chunk that comes next.
    pub closed spec fn at(&self) -> usize {
        self.position
    }

    pub open spec fn wf(&self) -> bool {
        &&& self.chunks().end() <= usize::MAX
        &&& self.chunks().start <= self.at() <= self.chunks().end()
        &&& self.next() <= self.chunks().end()
    }

    /// Whether the streams that end with the next chunk are open, and so is the one that
    /// the chunk belongs to.
    pub open spec fn ready(&self) -> bool {
        self.chunks().has(self.at() as int) ==> {
            &&& ending_at(self.spans(), self.at()).subset_of(self.open())
            &&& open_at(self.open(), self.spans(), self.at()).contains(
                self.chunks().at(self.at() as int).stream_id,
            )
        }
    }

    pub fn new() -> (worker: Self)
        ensures
            worker.wf(),
            worker.chunks() == IndexedSeq::<Arc<ReceiveStreamChunk>>::empty(0),
            worker.spans() == StreamSpans::empty(),
            worker.open() == Set::<StreamId>::empty(),
            worker.places() == Map::<ProcessorId, usize>::empty(),
            worker.next() == 0,
            worker.at() == 0,
    {
        HistoryWorker {
            chunks: SeqDeque::new(),
            streams: BTreeMap::new(),
            preprocessors: BTreeSet::new(),
            next_seq_num: 0,
            processors: BTreeMap::new(),
            position: 0,
        }
    }

    /// Takes up a change to the history, and returns the processors that have to be reset:
    /// those that have lost chunks which they had not got to.
    ///
    /// Where some processor has not got as far as the history has been preprocessed,
    /// everything is preprocessed again from the start of the history.
    pub fn apply(&mut self, message: HistoryMessage) -> (reset: Vec<ProcessorId>)
        requires
            old(self).wf(),
            old(self).chunks().end() + message.new_chunks@.len() <= usize::MAX,
            old(self).chunks().start <= message.chunks_start <= old(self).chunks().end()
                + message.new_chunks@.len(),
            message.removed_processors@.no_duplicates(),
            forall|i: int|
                0 <= i < message.removed_processors@.len() ==> old(self).places().contains_key(
                    #[trigger] message.removed_processors@[i],
                ),
            message.new_processors@.no_duplicates(),
            forall|i: int|
                0 <= i < message.new_processors@.len() ==> !old(self).places().contains_key(
                    #[trigger] message.new_processors@[i],
                ) || message.removed_processors@.contains(message.new_processors@[i]),
        ensures
            final(self).wf(),
            final(self).chunks() == (IndexedSeq {
                start: old(self).chunks().start,
                items: old(self).chunks().items + message.new_chunks@,
            }).remove_front(message.chunks_start as int),
            took_in(old(self).chunks(), message, final(self).chunks()),
            final(self).chunks().start == message.chunks_start,
            final(self).spans() == message.streams@,
            final(self).places() == brought_to(
                joined(
                    old(self).places(),
                    message.removed_processors@,
                    message.new_processors@,
                    message.chunks_start,
                ),
                message.chunks_start,
            ),
            lists(
                reset@,
                keys_with(
                    joined(
                        old(self).places(),
                        message.removed_processors@,
                        message.new_processors@,
                        message.chunks_start,
                    ),
                    |id: ProcessorId, next: usize| next < message.chunks_start,
                ),
            ),
            final(self).next() == if old(self).next() < message.chunks_start {
                message.chunks_start
            } else {
                old(self).next()
            },
            final(self).at() == if some_behind(final(self).places(), final(self).next()) {
                message.chunks_start
            } else {
                final(self).next()
            },
            final(self).open() == if old(self).next() < message.chunks_start || some_behind(
                final(self).places(),
                final(self).next(),
            ) {
                Set::<StreamId>::empty()
            } else {
                old(self).open()
            },
            went_back(*old(self), message.chunks_start, *final(self)),
    {
        let HistoryMessage {
            removed_processors,
            new_processors,
            new_chunks,
            chunks_start,
            streams,
        } = message;
        let ghost arrived = new_chunks@;
        let ghost places = self.processors@;
        for chunk in iter: new_chunks
            invariant
                iter.seq() == arrived,
                self.chunks@.start == old(self).chunks@.start,
                self.chunks@.items == old(self).chunks@.items + arrived.take(iter.index() as int),
                old(self).chunks@.end() + arrived.len() <= usize::MAX,
                self.preprocessors == old(self).preprocessors,
                self.next_seq_num == old(self).next_seq_num,
                self.processors == old(self).processors,
        {
            self.chunks.push_back(chunk);
            assert(self.chunks@.items =~= old(self).chunks@.items + arrived.take(
                iter.index() + 1,
            ));
        }
        assert(arrived.take(arrived.len() as int) =~= arrived);
        self.chunks.remove_front(chunks_start);
        self.streams = streams;
        let ghost stayed = places.remove_keys(removed_processors@.to_set());
        proof {
            assert(removed_processors@.take(0).to_set() =~= Set::<ProcessorId>::empty());
            assert(places =~= places.remove_keys(Set::<ProcessorId>::empty()));
        }
        for i in 0..removed_processors.len()
            invariant
                self.processors@ == places.remove_keys(
                    removed_processors@.take(i as int).to_set(),
                ),
                self.chunks@.start == chunks_start,
                self.chunks@ == (IndexedSeq {
                    start: old(self).chunks().start,
                    items: old(self).chunks().items + arrived,
                }).remove_front(chunks_start as int),
                self.streams@ == message.streams@,
                self.preprocessors == old(self).preprocessors,
                self.next_seq_num == old(self).next_seq_num,
        {
            proof {
                next_is_taken(removed_processors@, i as int);
            }
            self.processors.remove(&removed_processors[i]);
            assert(self.processors@ =~= places.remove_keys(
                removed_processors@.take(i + 1).to_set(),
            ));
        }
        proof {
            assert(removed_processors@.take(removed_processors@.len() as int)
                =~= removed_processors@);
            assert(new_processors@.take(0).to_set() =~= Set::<ProcessorId>::empty());
            assert(stayed =~= joined(
                places,
                removed_processors@,
                new_processors@.take(0),
                chunks_start,
            ));
        }
        for i in 0..new_processors.len()
            invariant
                self.processors@ == joined(
                    places,
                    removed_processors@,
                    new_processors@.take(i as int),
                    chunks_start,
                ),
                self.chunks@.start == chunks_start,
                self.chunks@ == (IndexedSeq {
                    start: old(self).chunks().start,
                    items: old(self).chunks().items + arrived,
                }).remove_front(chunks_start as int),
                self.streams@ == message.streams@,
                self.preprocessors == old(self).preprocessors,
                self.next_seq_num == old(self).next_seq_num,
        {
            proof {
                next_is_taken(new_processors@, i as int);
            }
            self.processors.insert(new_processors[i], chunks_start);
            assert(self.processors@ =~= joined(
                places,
                removed_processors@,
                new_processors@.take(i + 1),
                chunks_start,
            ));
        }
        proof {
            assert(new_processors@.take(new_processors@.len() as int) =~= new_processors@);
        }
        let ghost all = self.processors@;
        if self.next_seq_num < chunks_start {
            self.preprocessors.clear();
            self.next_seq_num = chunks_start;
        }
        let lost_chunks = |id: ProcessorId, next: &usize| -> (result: bool)
            ensures
                result == is_below(*next, chunks_start),
            { below(*next, chunks_start) };
        let reset = keys_where(
            &self.processors,
            lost_chunks,
            Ghost(|id: ProcessorId, next: usize| next < chunks_start),
        );
        self.bring_to(&reset, chunks_start);
        let next: usize = self.next_seq_num;
        let is_behind = |id: ProcessorId, place: &usize| -> (result: bool)
            ensures
                result == is_below(*place, next),
            { below(*place, next) };
        let late = keys_where(
            &self.processors,
            is_behind,
            Ghost(|id: ProcessorId, place: usize| place < next),
        );
        proof {
            let chosen = keys_with(self.processors@, |id: ProcessorId, place: usize| place < next);
            if late@.len() > 0 {
                assert(late@.contains(late@[0]));
                assert(self.processors@.contains_key(late@[0]));
            }
            if some_behind(self.processors@, next) {
                let id = choose|id: ProcessorId| #[trigger]
                    self.processors@.contains_key(id) && self.processors@[id] < next;
                assert(chosen.contains(id));
                assert(late@.contains(id));
            }
        }
        if late.len() > 0 {
            self.preprocessors.clear();
            self.position = chunks_start;
        } else {
            self.position = next;
        }
        reset
    }

    /// Brings some processors to the start of the history.
    fn bring_to(&mut self, reset: &Vec<ProcessorId>, start: usize)
        requires
            lists(
                reset@,
                keys_with(old(self).processors@, |id: ProcessorId, next: usize| next < start),
            ),
        ensures
            final(self).processors@ == brought_to(old(self).processors@, start),
            final(self).chunks == old(self).chunks,
            final(self).streams == old(self).streams,
            final(self).preprocessors == old(self).preprocessors,
            final(self).next_seq_num == old(self).next_seq_num,
            final(self).position == old(self).position,
    {
        let ghost all = self.processors@;
        let ghost late = keys_with(all, |id: ProcessorId, next: usize| next < start);
        proof {
            all_are_taken(reset@, late);
        }
        for i in 0..reset.len()
            invariant
                lists(reset@, late),
                late == keys_with(all, |id: ProcessorId, next: usize| next < start),
                self.processors@.dom() == all.dom(),
                forall|id: ProcessorId| #[trigger]
                    self.processors@.contains_key(id) ==> self.processors@[id] == if reset@.take(
                        i as int,
                    ).to_set().contains(id) {
                        start
                    } else {
                        all[id]
                    },
                self.chunks == old(self).chunks,
                self.streams == old(self).streams,
                self.preprocessors == old(self).preprocessors,
                self.next_seq_num == old(self).next_seq_num,
                self.position == old(self).position,
        {
            let id: ProcessorId = reset[i];
            proof {
                next_is_taken(reset@, i as int);
                assert(reset@.contains(id));
                assert(late.contains(id));
            }
            self.processors.insert(id, start);
            assert(self.processors@.dom() =~= all.dom());
        }
        proof {
            all_are_taken(reset@, late);
            assert(self.processors@ =~= brought_to(all, start));
        }
    }

    /// Goes on to the next chunk, and says what is to be done: first the streams end that
    /// end before it, then those start that start with it, and then the processors that
    /// have not got this far process it. There is none where all chunks have been
    /// processed.
    pub fn step(&mut self) -> (step: Option<HistoryStep>)
        requires
            old(self).wf(),
            old(self).ready(),
        ensures
            final(self).wf(),
            final(self).chunks() == old(self).chunks(),
            final(self).spans() == old(self).spans(),
            match step {
                None => {
                    &&& !old(self).chunks().has(old(self).at() as int)
                    &&& *final(self) == *old(self)
                },
                Some(step) => {
                    &&& old(self).chunks().has(old(self).at() as int)
                    &&& step.seq_num == old(self).at()
                    &&& step.chunk == old(self).chunks().at(old(self).at() as int)
                    &&& lists(step.ended@.reverse(), ending_at(old(self).spans(), old(self).at()))
                    &&& lists(
                        step.started@.reverse(),
                        starting_at(old(self).spans(), old(self).at()).difference(
                            old(self).open().difference(
                                ending_at(old(self).spans(), old(self).at()),
                            ),
                        ),
                    )
                    &&& lists(
                        step.processors@,
                        keys_with(
                            old(self).places(),
                            |id: ProcessorId, next: usize| next <= old(self).at(),
                        ),
                    )
                    &&& final(self).open() == open_at(
                        old(self).open(),
                        old(self).spans(),
                        old(self).at(),
                    )
                    &&& final(self).open().contains(step.chunk.stream_id)
                    &&& final(self).places() == brought_to(
                        old(self).places(),
                        (old(self).at() + 1) as usize,
                    )
                    &&& handed_out(
                        old(self).places(),
                        old(self).at(),
                        step.processors@,
                        final(self).places(),
                    )
                    &&& final(self).next() == old(self).at() + 1
                    &&& final(self).at() == old(self).at() + 1
                },
            },
    {
        if self.position >= self.chunks.end_index() {
            return None;
        }
        let seq_num: usize = self.position;
        let chunk = self.chunks.get(seq_num).unwrap().clone();
        let ends_here = |id: StreamId, span: &StreamHistory| -> (result: bool)
            ensures
                result == (span.end == seq_num),
            { span.end == seq_num };
        let ended_up = keys_where(
            &self.streams,
            ends_here,
            Ghost(|id: StreamId, span: StreamHistory| span.end == seq_num),
        );
        let ghost ended_set = ending_at(self.streams@, seq_num);
        let ghost open = self.preprocessors@;
        proof {
            all_are_taken(ended_up@, ended_set);
            assert(open =~= open.difference(Set::<StreamId>::empty()));
        }
        for i in 0..ended_up.len()
            invariant
                lists(ended_up@, ended_set),
                self.preprocessors@ == open.difference(ended_up@.take(i as int).to_set()),
                self.chunks == old(self).chunks,
                self.streams == old(self).streams,
                self.next_seq_num == old(self).next_seq_num,
                self.processors == old(self).processors,
                self.position == old(self).position,
        {
            proof {
                next_is_taken(ended_up@, i as int);
            }
            self.preprocessors.remove(&ended_up[i]);
            assert(self.preprocessors@ =~= open.difference(ended_up@.take(i + 1).to_set()));
        }
        let ghost still_open = self.preprocessors@;
        proof {
            all_are_taken(ended_up@, ended_set);
        }
        let starts_here = |id: StreamId, span: &StreamHistory| -> (result: bool)
            ensures
                result == (span.start == seq_num),
            { span.start == seq_num };
        let starting = keys_where(
            &self.streams,
            starts_here,
            Ghost(|id: StreamId, span: StreamHistory| span.start == seq_num),
        );
        let ghost starting_set = starting_at(self.streams@, seq_num);
        let mut started_up: Vec<StreamId> = Vec::new();
        proof {
            all_are_taken(starting@, starting_set);
            assert(starting@.take(0).to_set().difference(still_open) =~= Set::<StreamId>::empty());
            assert(lists(started_up@, Set::<StreamId>::empty()));
            assert(still_open =~= still_open.union(Set::<StreamId>::empty()));
        }
        for i in 0..starting.len()
            invariant
                lists(starting@, starting_set),
                self.preprocessors@ == still_open.union(starting@.take(i as int).to_set()),
                lists(started_up@, starting@.take(i as int).to_set().difference(still_open)),
                self.chunks == old(self).chunks,
                self.streams == old(self).streams,
                self.next_seq_num == old(self).next_seq_num,
                self.processors == old(self).processors,
                self.position == old(self).position,
        {
            let id: StreamId = starting[i];
            let ghost before = starting@.take(i as int).to_set();
            proof {
                next_is_taken(starting@, i as int);
                if before.contains(id) {
                    taken_are_below(starting@, i as int, id);
                }
            }
            if !self.preprocessors.contains(&id) {
                self.preprocessors.insert(id);
                proof {
                    assert forall|m: StreamId| #[trigger]
                        before.difference(still_open).contains(m) implies m < id by {
                        taken_are_below(starting@, i as int, m);
                    }
                    list_grows(started_up@, before.difference(still_open), id);
                    assert(before.insert(id).difference(still_open) =~= before.difference(
                        still_open,
                    ).insert(id));
                }
                started_up.push(id);
            } else {
                assert(before.insert(id).difference(still_open) =~= before.difference(still_open));
            }
            assert(self.preprocessors@ =~= still_open.union(before.insert(id)));
        }
        proof {
            all_are_taken(starting@, starting_set);
            assert(self.preprocessors@ =~= open_at(open, self.streams@, seq_num));
        }
        let next: usize = seq_num + 1;
        let has_work = |id: ProcessorId, place: &usize| -> (result: bool)
            ensures
                result == is_below(*place, next),
            { below(*place, next) };
        let processors = keys_where(
            &self.processors,
            has_work,
            Ghost(|id: ProcessorId, place: usize| place < next),
        );
        proof {
            assert(keys_with(self.processors@, |id: ProcessorId, place: usize| place < next)
                =~= keys_with(self.processors@, |id: ProcessorId, place: usize| place <= seq_num));
        }
        self.bring_to(&processors, next);
        self.next_seq_num = next;
        self.position = next;
        let ended = reversed(&ended_up);
        let started = reversed(&started_up);
        proof {
            assert(ended@.reverse() =~= ended_up@);
            assert(started@.reverse() =~= started_up@);
        }
        Some(HistoryStep { seq_num, chunk, ended, started, processors })
    }
}

/// Whether every stream whose span has begun before the chunk numbered `seq_num`, and has
/// not ended before the one in front of it, is open.
pub open spec fn begun_are_open(open: Set<StreamId>, spans: StreamSpans, seq_num: int) -> bool {
    forall|id: StreamId| #[trigger]
        spans.contains_key(id) && spans[id].start < seq_num <= spans[id].end ==> open.contains(id)
}

/// Whether every chunk belongs to a stream whose span it lies in.
pub open spec fn chunks_within_spans(chunks: ChunkRun, spans: StreamSpans) -> bool {
    forall|i: int|
        chunks.has(i) ==> {
            let id = (#[trigger] chunks.at(i)).stream_id;
            spans.contains_key(id) && spans[id].start <= i < spans[id].end
        }
}

/// What is received lies in the spans of its streams, where they are among those that
/// are active.
pub proof fn spans_cover_what_is_received(
    chunks: ChunkRun,
    spans: StreamSpans,
    arrived: Seq<ReceiveStreamChunk>,
    active: Seq<(StreamId, StreamDescriptor)>,
)
    requires
        spans_within(spans, chunks),
        chunks_within_spans(chunks, spans),
        arrived.len() > 0,
        0 <= chunks.start,
        chunks.end() + arrived.len() <= usize::MAX,
        forall|i: int|
            0 <= i < arrived.len() ==> stream_entry(active, (#[trigger] arrived[i]).stream_id) is Some,
    ensures
        chunks_within_spans(
            IndexedSeq { start: chunks.start, items: chunks.items + shared(arrived) },
            spans_extended(
                spans,
                active,
                chunks.end() as usize,
                (chunks.end() + arrived.len()) as usize,
            ),
        ),
{
    let grown = IndexedSeq { start: chunks.start, items: chunks.items + shared(arrived) };
    let extended = spans_extended(
        spans,
        active,
        chunks.end() as usize,
        (chunks.end() + arrived.len()) as usize,
    );
    assert forall|i: int| grown.has(i) implies {
        let id = (#[trigger] grown.at(i)).stream_id;
        extended.contains_key(id) && extended[id].start <= i < extended[id].end
    } by {
        let id = grown.at(i).stream_id;
        if chunks.has(i) {
            assert(grown.at(i) == chunks.at(i));
            assert(spans.contains_key(id));
        } else {
            let k = i - chunks.end();
            assert(grown.at(i) == Arc::new(arrived[k]));
            assert(arrived[k].stream_id == id);
            if spans.contains_key(id) {
                assert(spans[id].end <= chunks.end());
            }
        }
    }
}

/// What is left of a history lies in the spans that are left of its streams.
pub proof fn spans_cover_what_is_left(chunks: ChunkRun, spans: StreamSpans, start: int)
    requires
        spans_within(spans, chunks),
        chunks_within_spans(chunks, spans),
        0 <= chunks.start <= start <= chunks.end() <= usize::MAX,
    ensures
        chunks_within_spans(chunks.remove_front(start), spans_expired(spans, start)),
{
    let left = chunks.remove_front(start);
    let expired = spans_expired(spans, start);
    assert forall|i: int| left.has(i) implies {
        let id = (#[trigger] left.at(i)).stream_id;
        expired.contains_key(id) && expired[id].start <= i < expired[id].end
    } by {
        assert(left.at(i) == chunks.at(i));
        assert(spans.contains_key(chunks.at(i).stream_id));
    }
}

/// Where the streams whose spans have begun are open, the next chunk can be processed,
/// and the same holds after it. At the start of a history, where no span has begun, it
/// holds of any streams. So no stream is closed that is not open, and no chunk comes of a
/// stream that is not.
pub proof fn open_streams_stay_open(
    chunks: ChunkRun,
    spans: StreamSpans,
    open: Set<StreamId>,
    seq_num: usize,
)
    requires
        spans_within(spans, chunks),
        chunks_within_spans(chunks, spans),
        chunks.has(seq_num as int),
        seq_num < usize::MAX,
        begun_are_open(open, spans, seq_num as int) || seq_num == chunks.start,
    ensures
        ending_at(spans, seq_num).subset_of(open),
        open_at(open, spans, seq_num).contains(chunks.at(seq_num as int).stream_id),
        begun_are_open(open_at(open, spans, seq_num), spans, seq_num + 1),
{
    assert forall|id: StreamId| ending_at(spans, seq_num).contains(id) implies open.contains(id) by {
        assert(spans.contains_key(id));
    }
    let after = open_at(open, spans, seq_num);
    assert forall|id: StreamId| #[trigger] spans.contains_key(id) && spans[id].start < seq_num + 1
        <= spans[id].end implies after.contains(id) by {
        if spans[id].start == seq_num {
            assert(starting_at(spans, seq_num).contains(id));
        } else {
            assert(!ending_at(spans, seq_num).contains(id));
        }
    }
    let id = chunks.at(seq_num as int).stream_id;
    assert(spans.contains_key(id));
}

/// A processor that is behind a chunk is brought to it, and any other stays where it is.
pub proof fn processors_are_brought_forward(
    processors: Map<ProcessorId, usize>,
    start: usize,
    id: ProcessorId,
)
    ensures
        brought_to(processors, start).contains_key(id) <==> processors.contains_key(id),
        processors.contains_key(id) && processors[id] < start ==> brought_to(processors, start)[id]
            == start,
        processors.contains_key(id) && processors[id] >= start ==> brought_to(processors, start)[id]
            == processors[id],
{
}

/// A processor that is removed is gone, one that is new begins at the first chunk, and any other
/// stays where it is.
pub proof fn processors_join_and_leave(
    processors: Map<ProcessorId, usize>,
    removed: Seq<ProcessorId>,
    new: Seq<ProcessorId>,
    start: usize,
    id: ProcessorId,
)
    ensures
        ({
            let after = joined(processors, removed, new, start);
            &&& new.contains(id) ==> after.contains_key(id) && after[id] == start
            &&& removed.contains(id) && !new.contains(id) ==> !after.contains_key(id)
            &&& !removed.contains(id) && !new.contains(id) ==> (after.contains_key(id)
                <==> processors.contains_key(id))
            &&& !removed.contains(id) && !new.contains(id) && processors.contains_key(id)
                ==> after[id] == processors[id]
        }),
{
    assert(new.to_set().contains(id) <==> new.contains(id));
    assert(removed.to_set().contains(id) <==> removed.contains(id));
}

/// At a chunk the streams that end there are closed and those that start there are opened. Any
/// other stays as it was.
pub proof fn streams_open_and_close(
    open: Set<StreamId>,
    spans: StreamSpans,
    seq_num: usize,
    id: StreamId,
)
    ensures
        spans.contains_key(id) && spans[id].start == seq_num ==> open_at(
            open,
            spans,
            seq_num,
        ).contains(id),
        spans.contains_key(id) && spans[id].end == seq_num && spans[id].start != seq_num ==> !open_at(
            open,
            spans,
            seq_num,
        ).contains(id),
        !spans.contains_key(id) || (spans[id].start != seq_num && spans[id].end != seq_num) ==> (
        open_at(open, spans, seq_num).contains(id) <==> open.contains(id)),
{
}

/// Whether the chunks of a worker were brought in line with a message.
pub open spec fn took_in(before: ChunkRun, message: HistoryMessage, after: ChunkRun) -> bool {
    after == (IndexedSeq {
        start: before.start,
        items: before.items + message.new_chunks@,
    }).remove_front(message.chunks_start as int)
}

/// A worker that has the chunks of the history up to what was told has all of them once it has
/// taken in the next message.
pub proof fn messages_bring_the_worker_up_to_date(
    before: ChunkRun,
    history: ChunkRun,
    spans: StreamSpans,
    message: HistoryMessage,
    after: ChunkRun,
)
    requires
        before.start <= history.start <= before.end() <= history.end(),
        forall|i: int| before.has(i) && history.has(i) ==> #[trigger] before.at(i) == history.at(i),
        tells_what_came(history, spans, before.end(), message),
        took_in(before, message, after),
    ensures
        after == history,
        message.streams@ == spans,
{
    messages_keep_copies_equal(before, history);
}

/// Whether a chunk was handed to the processors that have not had it.
pub open spec fn handed_out(
    before: Map<ProcessorId, usize>,
    seq_num: usize,
    processors: Seq<ProcessorId>,
    after: Map<ProcessorId, usize>,
) -> bool {
    &&& lists(
        processors,
        keys_with(before, |id: ProcessorId, next: usize| next <= seq_num),
    )
    &&& after == brought_to(before, (seq_num + 1) as usize)
}

/// A processor gets a chunk exactly where it has not had it, and then waits for a later one. No
/// processor gets a chunk twice, and none goes back.
pub proof fn processors_get_each_chunk_once(
    before: Map<ProcessorId, usize>,
    seq_num: usize,
    processors: Seq<ProcessorId>,
    after: Map<ProcessorId, usize>,
    id: ProcessorId,
)
    requires
        handed_out(before, seq_num, processors, after),
        seq_num < usize::MAX,
    ensures
        processors.contains(id) <==> before.contains_key(id) && before[id] <= seq_num,
        after.contains_key(id) <==> before.contains_key(id),
        processors.contains(id) ==> after[id] == seq_num + 1,
        before.contains_key(id) && !processors.contains(id) ==> after[id] == before[id],
        before.contains_key(id) ==> after[id] > seq_num && after[id] >= before[id],
{
}

/// Whether a worker goes on from where it was, or from the first chunk where it has to.
pub open spec fn went_back(before: HistoryWorker, start: usize, after: HistoryWorker) -> bool {
    &&& after.next() == if before.next() < start {
        start
    } else {
        before.next()
    }
    &&& after.at() == if some_behind(after.places(), after.next()) {
        start
    } else {
        after.next()
    }
    &&& after.open() == if before.next() < start || some_behind(after.places(), after.next()) {
        Set::<StreamId>::empty()
    } else {
        before.open()
    }
}

/// A worker goes on with the chunk that was to come next where every processor has had the ones
/// before it and it is still there. It goes through the chunks again from the first one where some
/// processor has not had them all, and no stream is open then.
pub proof fn workers_go_back_for_processors_that_are_behind(
    before: HistoryWorker,
    start: usize,
    after: HistoryWorker,
    id: ProcessorId,
)
    requires
        went_back(before, start, after),
    ensures
        after.next() >= start && after.next() >= before.next(),
        after.next() == start || after.next() == before.next(),
        after.places().contains_key(id) && after.places()[id] < after.next() ==> after.at() == start
            && after.open() == Set::<StreamId>::empty(),
        (forall|other: ProcessorId| #[trigger]
            after.places().contains_key(other) ==> after.places()[other] >= after.next())
            ==> after.at() == after.next() && (before.next() >= start ==> after.open()
            == before.open()) && (before.next() < start ==> after.open()
            == Set::<StreamId>::empty()),
{
}

} // verus!
