use std::collections::BTreeMap;
use std::sync::Arc;

use vstd::prelude::*;

use crate::active_document::{stream_entry, StreamDescriptor};
use crate::analysis::ProcessorId;
use crate::document::{RawIqSamples, StreamId};
use crate::indexed::IndexedSeq;
use crate::maps::{all_are_taken, keys_without, lists, next_is_taken, sorted_keys, taken_are_below};
use crate::search::splits_at;
use crate::seqdeque::{IndexBound, SeqDeque};
use crate::time::Timestamp;

verus! {

/// A piece of a stream, as it was received.
pub struct ReceiveStreamChunk {
    pub stream_id: StreamId,
    pub time: Timestamp,
    pub chunk: RawIqSamples,
}

/// What was received since the last time.
pub struct HardwareResult {
    pub chunks: Vec<ReceiveStreamChunk>,
    pub active_streams: Vec<(StreamId, StreamDescriptor)>,
}

/// During which chunks a stream was active: from the first one numbered `start` up to
/// the one numbered `end`.
#[derive(Clone, Copy, Debug)]
pub struct StreamHistory {
    pub descriptor: StreamDescriptor,
    pub start: usize,
    pub end: usize,
}

/// The chunks of a history, each with its number.
pub type ChunkRun = IndexedSeq<Arc<ReceiveStreamChunk>>;

/// The spans of streams.
pub type StreamSpans = Map<StreamId, StreamHistory>;

/// A change to the history, and to the processors that work on it.
pub struct HistoryMessage {
    pub removed_processors: Vec<ProcessorId>,
    pub new_processors: Vec<ProcessorId>,
    pub new_chunks: Vec<Arc<ReceiveStreamChunk>>,
    pub chunks_start: usize,
    pub streams: BTreeMap<StreamId, StreamHistory>,
}

/// What has been received, and the processors that work on it.
pub struct RawHistory<P> {
    streams: BTreeMap<StreamId, StreamHistory>,
    chunks: SeqDeque<Arc<ReceiveStreamChunk>>,
    processors: BTreeMap<ProcessorId, P>,
    last_processor_history_start: usize,
    last_processor_history_end: usize,
}

/// Chunks that are shared.
pub open spec fn shared(chunks: Seq<ReceiveStreamChunk>) -> Seq<Arc<ReceiveStreamChunk>> {
    chunks.map_values(|chunk: ReceiveStreamChunk| Arc::new(chunk))
}

/// The spans of streams once chunks up to `end` have arrived: the streams that are
/// active go on up to there, and those among them that are new began at `start`.
pub open spec fn spans_extended(
    spans: StreamSpans,
    active: Seq<(StreamId, StreamDescriptor)>,
    start: usize,
    end: usize,
) -> StreamSpans {
    Map::new(
        |id: StreamId| spans.contains_key(id) || stream_entry(active, id) is Some,
        |id: StreamId|
            if spans.contains_key(id) {
                if stream_entry(active, id) is Some {
                    StreamHistory { end, ..spans[id] }
                } else {
                    spans[id]
                }
            } else {
                StreamHistory { descriptor: stream_entry(active, id)->0, start, end }
            },
    )
}

/// The spans of streams once the chunks before `start` are gone: those that ended before
/// are left out, and none starts earlier.
pub open spec fn spans_expired(spans: StreamSpans, start: int) -> StreamSpans {
    Map::new(
        |id: StreamId| spans.contains_key(id) && start < spans[id].end,
        |id: StreamId|
            if start > spans[id].start {
                StreamHistory { start: start as usize, ..spans[id] }
            } else {
                spans[id]
            },
    )
}

/// Whether spans lie within the chunks of a history, and none is empty.
pub open spec fn spans_within(spans: StreamSpans, chunks: ChunkRun) -> bool {
    forall|id: StreamId| #[trigger]
        spans.contains_key(id) ==> chunks.start <= spans[id].start < spans[id].end <= chunks.end()
}

/// Whether the chunks before some point in time are the first `count` ones.
pub open spec fn older_are_first(
    chunks: Seq<Arc<ReceiveStreamChunk>>,
    time: Timestamp,
    count: int,
) -> bool {
    &&& 0 <= count <= chunks.len()
    &&& forall|i: int| 0 <= i < count ==> (#[trigger] chunks[i]).time.before(time)
    &&& forall|i: int| count <= i < chunks.len() ==> !(#[trigger] chunks[i]).time.before(time)
}

impl<P> RawHistory<P> {
    pub closed spec fn chunks(&self) -> ChunkRun {
        self.chunks@
    }

    pub closed spec fn spans(&self) -> StreamSpans {
        self.streams@
    }

    /// The processors, and what each of them was made from.
    pub closed spec fn made_from(&self) -> Map<ProcessorId, P> {
        self.processors@
    }

    /// The numbers of the chunks that were there at the last message.
    pub closed spec fn reported(&self) -> (int, int) {
        (self.last_processor_history_start as int, self.last_processor_history_end as int)
    }

    pub open spec fn wf(&self) -> bool {
        &&& self.chunks().end() <= usize::MAX
        &&& spans_within(self.spans(), self.chunks())
        &&& self.reported().0 <= self.reported().1 <= self.chunks().end()
        &&& self.reported().0 <= self.chunks().start
    }

    pub fn new() -> (history: Self)
        ensures
            history.wf(),
            history.chunks() == IndexedSeq::<Arc<ReceiveStreamChunk>>::empty(0),
            history.spans() == StreamSpans::empty(),
            history.made_from() == Map::<ProcessorId, P>::empty(),
            history.reported() == (0int, 0int),
    {
        RawHistory {
            streams: BTreeMap::new(),
            chunks: SeqDeque::new(),
            processors: BTreeMap::new(),
            last_processor_history_start: 0,
            last_processor_history_end: 0,
        }
    }

    /// Takes up what was received. Where there is nothing, the streams that are active do
    /// not count, so that no span is empty.
    pub fn update(&mut self, result: HardwareResult)
        requires
            old(self).wf(),
            old(self).chunks().end() + result.chunks@.len() <= usize::MAX,
        ensures
            final(self).wf(),
            final(self).chunks().start == old(self).chunks().start,
            final(self).chunks().items == old(self).chunks().items + shared(result.chunks@),
            final(self).spans() == if result.chunks@.len() == 0 {
                old(self).spans()
            } else {
                spans_extended(
                    old(self).spans(),
                    result.active_streams@,
                    old(self).chunks().end() as usize,
                    (old(self).chunks().end() + result.chunks@.len()) as usize,
                )
            },
            final(self).made_from() == old(self).made_from(),
            final(self).reported() == old(self).reported(),
    {
        if result.chunks.len() == 0 {
            return;
        }
        let start: usize = self.chunks.end_index();
        let ghost arrived = result.chunks@;
        for chunk in iter: result.chunks
            invariant
                iter.seq() == arrived,
                self.chunks@.start == old(self).chunks@.start,
                self.chunks@.items == old(self).chunks@.items + shared(
                    arrived.take(iter.index() as int),
                ),
                old(self).chunks@.end() + arrived.len() <= usize::MAX,
                self.streams == old(self).streams,
                self.processors == old(self).processors,
                self.last_processor_history_start == old(self).last_processor_history_start,
                self.last_processor_history_end == old(self).last_processor_history_end,
        {
            self.chunks.push_back(Arc::new(chunk));
            proof {
                let i = iter.index() as int;
                assert(shared(arrived.take(i + 1)) =~= shared(arrived.take(i)).push(
                    Arc::new(arrived[i]),
                ));
                assert(self.chunks@.items =~= old(self).chunks@.items + shared(
                    arrived.take(i + 1),
                ));
            }
        }
        assert(arrived.take(arrived.len() as int) =~= arrived);
        let end: usize = self.chunks.end_index();
        let ghost active = result.active_streams@;
        let ghost spans = old(self).streams@;
        proof {
            assert(active.take(0) =~= Seq::empty());
            assert(self.streams@ =~= spans_extended(spans, active.take(0), start, end));
        }
        for i in 0..result.active_streams.len()
            invariant
                active == result.active_streams@,
                spans == old(self).streams@,
                self.chunks@.start == old(self).chunks@.start,
                self.chunks@.items == old(self).chunks@.items + shared(arrived),
                self.streams@ == spans_extended(spans, active.take(i as int), start, end),
                self.processors == old(self).processors,
                self.last_processor_history_start == old(self).last_processor_history_start,
                self.last_processor_history_end == old(self).last_processor_history_end,
        {
            let (id, descriptor) = result.active_streams[i];
            proof {
                entries_grow(active, i as int);
            }
            let span = match self.streams.get(&id) {
                Some(span) => StreamHistory { descriptor: span.descriptor, start: span.start, end },
                None => StreamHistory { descriptor, start, end },
            };
            self.streams.insert(id, span);
            assert(self.streams@ =~= spans_extended(spans, active.take(i + 1), start, end));
        }
        proof {
            assert(active.take(active.len() as int) =~= active);
            assert forall|id: StreamId| #[trigger] self.spans().contains_key(id) implies {
                &&& self.chunks().start <= self.spans()[id].start
                &&& self.spans()[id].start < self.spans()[id].end
                &&& self.spans()[id].end <= self.chunks().end()
            } by {
                if spans.contains_key(id) {
                    assert(old(self).spans().contains_key(id));
                }
            }
        }
    }

    /// Forgets the chunks that were received before some point in time, and shortens or
    /// drops the spans of the streams with them. Chunks are received in the order of
    /// their times, and so those to forget come first.
    pub fn expire(&mut self, retain_time: Timestamp)
        requires
            old(self).wf(),
        ensures
            final(self).wf(),
            old(self).chunks().start <= final(self).chunks().start <= old(self).chunks().end(),
            forall|count: int|
                #[trigger] older_are_first(old(self).chunks().items, retain_time, count) ==> final(self).chunks().start
                    == old(self).chunks().start + count,
            final(self).chunks() == old(self).chunks().remove_front(final(self).chunks().start),
            final(self).spans() == spans_expired(old(self).spans(), final(self).chunks().start),
            final(self).made_from() == old(self).made_from(),
            final(self).reported() == old(self).reported(),
    {
        let older = |chunk: &Arc<ReceiveStreamChunk>| -> (result: bool)
            ensures
                result == chunk.time.before(retain_time),
            { chunk.time.lt(retain_time) };
        let new_start: usize = self.chunks.partition_point(older);
        proof {
            assert forall|count: int| #[trigger]
                older_are_first(self.chunks@.items, retain_time, count) implies new_start
                == self.chunks@.start + count by {
                assert(splits_at(self.chunks@.items, older, count));
            }
        }
        self.chunks.remove_front(new_start);
        let ids = sorted_keys(&self.streams);
        let ghost spans = self.streams@;
        proof {
            all_are_taken(ids@, spans.dom());
        }
        for i in 0..ids.len()
            invariant
                lists(ids@, spans.dom()),
                spans == old(self).streams@,
                new_start == self.chunks@.start,
                self.chunks@ == old(self).chunks@.remove_front(new_start as int),
                self.processors == old(self).processors,
                self.last_processor_history_start == old(self).last_processor_history_start,
                self.last_processor_history_end == old(self).last_processor_history_end,
                forall|id: StreamId| #[trigger]
                    self.streams@.contains_key(id) <==> spans.contains_key(id) && (!ids@.take(
                        i as int,
                    ).to_set().contains(id) || spans_expired(spans, new_start as int).contains_key(
                        id,
                    )),
                forall|id: StreamId| #[trigger]
                    self.streams@.contains_key(id) ==> self.streams@[id] == if ids@.take(
                        i as int,
                    ).to_set().contains(id) {
                        spans_expired(spans, new_start as int)[id]
                    } else {
                        spans[id]
                    },
        {
            let id: StreamId = ids[i];
            proof {
                next_is_taken(ids@, i as int);
                assert(ids@.contains(id));
                if ids@.take(i as int).to_set().contains(id) {
                    taken_are_below(ids@, i as int, id);
                }
                assert(self.streams@.contains_key(id));
            }
            let span = *self.streams.get(&id).unwrap();
            if new_start >= span.end {
                self.streams.remove(&id);
            } else if new_start > span.start {
                self.streams.insert(
                    id,
                    StreamHistory { descriptor: span.descriptor, start: new_start, end: span.end },
                );
            }
        }
        proof {
            all_are_taken(ids@, spans.dom());
            assert(self.streams@ =~= spans_expired(spans, new_start as int));
            assert forall|id: StreamId| #[trigger] self.spans().contains_key(id) implies {
                &&& self.chunks().start <= self.spans()[id].start
                &&& self.spans()[id].start < self.spans()[id].end
                &&& self.spans()[id].end <= self.chunks().end()
            } by {
                assert(old(self).spans().contains_key(id));
            }
        }
    }

    /// Brings the processors in line with those that are wanted, and says what has changed
    /// since the last message, if anything has. What a processor was made from cannot be
    /// changed: `parameters` is set back to it.
    pub fn process(&mut self, parameters: &mut BTreeMap<ProcessorId, P>) -> (message: Option<
        HistoryMessage,
    >)
        where
            P: Clone,
        requires
            old(self).wf(),
            old(self).chunks().start <= old(self).reported().1,
        ensures
            final(self).wf(),
            final(self).chunks() == old(self).chunks(),
            final(self).spans() == old(self).spans(),
            final(self).made_from().dom() == old(parameters)@.dom(),
            forall|id: ProcessorId| #[trigger]
                final(self).made_from().contains_key(id) ==> if old(self).made_from().contains_key(id) {
                    final(self).made_from()[id] == old(self).made_from()[id]
                } else {
                    cloned(old(parameters)@[id], final(self).made_from()[id])
                },
            final(parameters)@.dom() == old(parameters)@.dom(),
            forall|id: ProcessorId| #[trigger]
                final(parameters)@.contains_key(id) ==> cloned(
                    final(self).made_from()[id],
                    final(parameters)@[id],
                ),
            final(self).reported() == (final(self).chunks().start, final(self).chunks().end()),
            message is None <==> old(self).made_from().dom() == old(parameters)@.dom() && old(self).reported() == (old(self).chunks().start, old(self).chunks().end()),
            message matches Some(message) ==> {
                &&& lists(
                    message.removed_processors@,
                    old(self).made_from().dom().difference(old(parameters)@.dom()),
                )
                &&& lists(
                    message.new_processors@,
                    old(parameters)@.dom().difference(old(self).made_from().dom()),
                )
                &&& message.new_chunks@ == old(self).chunks().items.skip(
                    old(self).reported().1 - old(self).chunks().start,
                )
                &&& message.chunks_start == old(self).chunks().start
                &&& message.streams@ == old(self).spans()
            },
            message matches Some(message) ==> tells_what_came(
                old(self).chunks(),
                old(self).spans(),
                old(self).reported().1,
                message,
            ),
            message matches Some(message) ==> tells_processors(
                old(self).made_from().dom(),
                old(parameters)@.dom(),
                message,
            ),
    {
        let removed_processors = keys_without(&self.processors, parameters);
        let new_processors = keys_without(parameters, &self.processors);
        let ghost before = self.processors@;
        let ghost wanted = parameters@;
        let ghost gone = before.dom().difference(wanted.dom());
        let ghost missing = wanted.dom().difference(before.dom());
        proof {
            all_are_taken(removed_processors@, gone);
            all_are_taken(new_processors@, missing);
            assert(before =~= before.remove_keys(Set::<ProcessorId>::empty()));
        }
        for i in 0..removed_processors.len()
            invariant
                lists(removed_processors@, gone),
                self.processors@ == before.remove_keys(
                    removed_processors@.take(i as int).to_set(),
                ),
                self.streams == old(self).streams,
                self.chunks == old(self).chunks,
                self.last_processor_history_start == old(self).last_processor_history_start,
                self.last_processor_history_end == old(self).last_processor_history_end,
        {
            proof {
                next_is_taken(removed_processors@, i as int);
            }
            self.processors.remove(&removed_processors[i]);
            assert(self.processors@ =~= before.remove_keys(
                removed_processors@.take(i + 1).to_set(),
            ));
        }
        let ghost kept = self.processors@;
        proof {
            all_are_taken(removed_processors@, gone);
            assert(kept.dom() =~= before.dom().intersect(wanted.dom()));
            assert(kept.dom() =~= kept.dom().union(Set::<ProcessorId>::empty()));
        }
        for i in 0..new_processors.len()
            invariant
                lists(new_processors@, missing),
                missing == wanted.dom().difference(before.dom()),
                parameters@ == wanted,
                kept.dom() == before.dom().intersect(wanted.dom()),
                self.processors@.dom() == kept.dom().union(
                    new_processors@.take(i as int).to_set(),
                ),
                forall|id: ProcessorId| #[trigger]
                    self.processors@.contains_key(id) ==> if kept.contains_key(id) {
                        self.processors@[id] == kept[id]
                    } else {
                        cloned(wanted[id], self.processors@[id])
                    },
                self.streams == old(self).streams,
                self.chunks == old(self).chunks,
                self.last_processor_history_start == old(self).last_processor_history_start,
                self.last_processor_history_end == old(self).last_processor_history_end,
        {
            let id: ProcessorId = new_processors[i];
            proof {
                next_is_taken(new_processors@, i as int);
                assert(new_processors@.contains(id));
            }
            let p = parameters.get(&id).unwrap().clone();
            self.processors.insert(id, p);
            assert(self.processors@.dom() =~= kept.dom().union(
                new_processors@.take(i + 1).to_set(),
            ));
        }
        proof {
            all_are_taken(new_processors@, missing);
            assert(self.processors@.dom() =~= wanted.dom());
        }
        let ids = sorted_keys(&self.processors);
        let ghost made = self.processors@;
        for i in 0..ids.len()
            invariant
                lists(ids@, made.dom()),
                made == self.processors@,
                made.dom() == wanted.dom(),
                parameters@.dom() == wanted.dom(),
                forall|k: int|
                    0 <= k < i ==> cloned(made[#[trigger] ids@[k]], parameters@[ids@[k]]),
        {
            let id: ProcessorId = ids[i];
            assert(ids@.contains(id));
            let p = self.processors.get(&id).unwrap().clone();
            parameters.insert(id, p);
            proof {
                assert(parameters@.dom() =~= wanted.dom());
                assert forall|k: int| 0 <= k < i + 1 implies cloned(
                    made[#[trigger] ids@[k]],
                    parameters@[ids@[k]],
                ) by {
                    if k < i {
                        assert(ids@[k] < ids@[i as int]);
                    }
                }
            }
        }
        proof {
            assert forall|id: ProcessorId| #[trigger] parameters@.contains_key(id) implies cloned(
                made[id],
                parameters@[id],
            ) by {
                assert(ids@.contains(id));
                let k = choose|k: int| 0 <= k < ids@.len() && ids@[k] == id;
                assert(ids@[k] == id);
            }
            assert((gone =~= Set::empty() && missing =~= Set::empty()) <==> before.dom()
                =~= wanted.dom());
            no_members(removed_processors@, gone);
            no_members(new_processors@, missing);
        }
        let chunks_start: usize = self.chunks.start_index();
        let history_end: usize = self.chunks.end_index();
        if removed_processors.len() == 0 && new_processors.len() == 0 && chunks_start
            == self.last_processor_history_start && history_end == self.last_processor_history_end {
            return None;
        }
        let entries = self.chunks.range(
            IndexBound::Included(self.last_processor_history_end),
            IndexBound::Unbounded,
        );
        let mut new_chunks: Vec<Arc<ReceiveStreamChunk>> = Vec::new();
        let ghost unreported = self.chunks@.items.skip(
            self.last_processor_history_end - self.chunks@.start,
        );
        for i in 0..entries.len()
            invariant
                entries@.len() == unreported.len(),
                forall|k: int| 0 <= k < entries@.len() ==> *(#[trigger] entries@[k]) == unreported[k],
                new_chunks@ == unreported.take(i as int),
        {
            new_chunks.push(entries[i].clone());
            assert(new_chunks@ =~= unreported.take(i + 1));
        }
        assert(unreported.take(unreported.len() as int) =~= unreported);
        self.last_processor_history_start = chunks_start;
        self.last_processor_history_end = history_end;
        Some(
            HistoryMessage {
                removed_processors,
                new_processors,
                new_chunks,
                chunks_start,
                streams: self.streams.clone(),
            },
        )
    }
}

/// A list is empty just where the set that it lists is.
proof fn no_members(s: Seq<usize>, set: Set<usize>)
    requires
        lists(s, set),
    ensures
        s.len() == 0 <==> set =~= Set::empty(),
{
    if s.len() > 0 {
        assert(s.contains(s[0]));
    } else {
        assert forall|k: usize| !set.contains(k) by {
            assert(!s.contains(k));
        }
    }
}

/// A copy of a history that is kept up to date by the messages about it is the history.
pub proof fn messages_keep_copies_equal(reported: ChunkRun, history: ChunkRun)
    requires
        reported.start <= history.start <= reported.end() <= history.end(),
        forall|i: int| reported.has(i) && history.has(i) ==> #[trigger] reported.at(i) == history.at(i),
    ensures
        (IndexedSeq {
            start: reported.start,
            items: reported.items + history.items.skip(reported.end() - history.start),
        }).remove_front(history.start) == history,
{
    let grown = IndexedSeq {
        start: reported.start,
        items: reported.items + history.items.skip(reported.end() - history.start),
    };
    let copy = grown.remove_front(history.start);
    assert forall|k: int| 0 <= k < history.items.len() implies copy.items[k] == history.items[k] by {
        let i = history.start + k;
        assert(history.at(i) == history.items[k]);
        if reported.has(i) {
            assert(reported.at(i) == history.at(i));
        }
    }
    assert(copy.items =~= history.items);
}

/// The first `count + 1` entries hold what the first `count` hold, and the next one
/// where it is the first for its stream.
proof fn entries_grow(streams: Seq<(StreamId, StreamDescriptor)>, count: int)
    requires
        0 <= count < streams.len(),
    ensures
        forall|id: StreamId| #[trigger]
            stream_entry(streams.take(count + 1), id) == if stream_entry(streams.take(count), id)
                is Some {
                stream_entry(streams.take(count), id)
            } else if streams[count].0 == id {
                Some(streams[count].1)
            } else {
                None
            },
    decreases streams.len(),
{
    assert forall|id: StreamId| #[trigger] stream_entry(streams.take(count + 1), id) == if stream_entry(
        streams.take(count),
        id,
    ) is Some {
        stream_entry(streams.take(count), id)
    } else if streams[count].0 == id {
        Some(streams[count].1)
    } else {
        None
    } by {
        let more = streams.take(count + 1);
        let less = streams.take(count);
        if count == 0 {
            assert(more.drop_first() =~= Seq::empty());
            assert(stream_entry(more.drop_first(), id) is None);
        } else {
            let rest = streams.drop_first();
            entries_grow(rest, count - 1);
            assert(more.drop_first() =~= rest.take(count));
            assert(less.drop_first() =~= rest.take(count - 1));
            assert(stream_entry(rest.take(count - 1 + 1), id) == stream_entry(rest.take(count), id));
        }
    }
}

/// A stream that was there keeps its description and its beginning. Its end is moved on exactly
/// where it is still received. A stream that is new begins where what was received does.
pub proof fn streams_grow_while_they_are_received(
    spans: StreamSpans,
    active: Seq<(StreamId, StreamDescriptor)>,
    start: usize,
    end: usize,
    id: StreamId,
)
    ensures
        ({
            let after = spans_extended(spans, active, start, end);
            &&& spans.contains_key(id) ==> {
                &&& after.contains_key(id)
                &&& after[id].descriptor == spans[id].descriptor
                &&& after[id].start == spans[id].start
                &&& stream_entry(active, id) is Some ==> after[id].end == end
                &&& stream_entry(active, id) is None ==> after[id].end == spans[id].end
            }
            &&& !spans.contains_key(id) && stream_entry(active, id) is Some ==> {
                &&& after.contains_key(id)
                &&& Some(after[id].descriptor) == stream_entry(active, id)
                &&& after[id].start == start
                &&& after[id].end == end
            }
            &&& !spans.contains_key(id) && stream_entry(active, id) is None ==> !after.contains_key(
                id,
            )
        }),
{
}

/// A stream is forgotten exactly where nothing of it is left. Of any other the part from the
/// first chunk that is left on stays.
pub proof fn streams_are_cut_where_chunks_are_dropped(spans: StreamSpans, start: usize, id: StreamId)
    ensures
        ({
            let after = spans_expired(spans, start as int);
            &&& after.contains_key(id) <==> spans.contains_key(id) && spans[id].end > start
            &&& after.contains_key(id) ==> {
                &&& after[id].end == spans[id].end
                &&& after[id].descriptor == spans[id].descriptor
                &&& after[id].start >= start && after[id].start >= spans[id].start
                &&& after[id].start == start || after[id].start == spans[id].start
            }
        }),
{
}

/// Whether a message tells everything that has come since what was last told.
pub open spec fn tells_what_came(
    chunks: ChunkRun,
    spans: StreamSpans,
    told_until: int,
    message: HistoryMessage,
) -> bool {
    &&& message.new_chunks@ == chunks.items.skip(told_until - chunks.start)
    &&& message.chunks_start == chunks.start
    &&& message.streams@ == spans
}

/// Whether a message tells which processors came and which went.
pub open spec fn tells_processors(
    before: Set<ProcessorId>,
    after: Set<ProcessorId>,
    message: HistoryMessage,
) -> bool {
    &&& lists(message.removed_processors@, before.difference(after))
    &&& lists(message.new_processors@, after.difference(before))
}

/// The processors that a message tells of lead from those that there were to those that there
/// are.
pub proof fn told_processors_add_up(
    before: Set<ProcessorId>,
    after: Set<ProcessorId>,
    message: HistoryMessage,
    id: ProcessorId,
)
    requires
        tells_processors(before, after, message),
    ensures
        after.contains(id) <==> message.new_processors@.contains(id) || (before.contains(id)
            && !message.removed_processors@.contains(id)),
        message.removed_processors@.contains(id) ==> before.contains(id) && !after.contains(id),
        message.new_processors@.contains(id) ==> !before.contains(id) && after.contains(id),
{
}

} // verus!
