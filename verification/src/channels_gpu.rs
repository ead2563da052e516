//! The samples that were received on each channel.

use crate::channel_table::{histories_wf, table_leaves, ChannelKey, ChannelTable, ModulationHistory};
use crate::time::Timestamp;
use vstd::prelude::*;

verus! {

/// Samples that were received on a channel, by the bits of floating point numbers.
pub struct IqChunk {
    pub time: Timestamp,
    pub data: Vec<(u32, u32)>,
}

/// The samples that were received on a channel, and up to when that was.
pub struct ChannelHistory {
    pub end_time: Timestamp,
    pub chunks: Vec<IqChunk>,
}

/// The latest of a time and those of some samples.
pub open spec fn latest(end_time: Timestamp, chunks: Seq<IqChunk>) -> Timestamp
    decreases chunks.len(),
{
    if chunks.len() == 0 {
        end_time
    } else {
        let before = latest(end_time, chunks.drop_last());
        if chunks.last().time.before(before) {
            before
        } else {
            chunks.last().time
        }
    }
}

/// The samples that were not received before a time.
pub open spec fn received_since(chunks: Seq<IqChunk>, time: Timestamp) -> Seq<IqChunk> {
    chunks.filter(|chunk: IqChunk| !chunk.time.before(time))
}

impl ModulationHistory for ChannelHistory {
    open spec fn history_wf(&self) -> bool {
        true
    }

    open spec fn leaves(&self, after: &Self, retain_time: Timestamp) -> bool {
        &&& after.chunks@ == received_since(self.chunks@, retain_time)
        &&& after.end_time == self.end_time
    }

    open spec fn nothing_left(&self) -> bool {
        self.chunks@.len() == 0
    }

    fn prune_old_data(&mut self, retain_time: Timestamp) -> (any_left: bool) {
        let ghost all = self.chunks@;
        let mut rest: Vec<IqChunk> = Vec::new();
        std::mem::swap(&mut rest, &mut self.chunks);
        let mut kept: Vec<IqChunk> = Vec::new();
        let mut count: usize = rest.len();
        // Walks from the last one to the first, so that none has to be moved up.
        proof {
            reveal(Seq::filter);
            assert(all.skip(all.len() as int) =~= Seq::<IqChunk>::empty());
        }
        while count > 0
            invariant
                count == rest@.len(),
                count <= all.len(),
                rest@ == all.take(count as int),
                kept@ == received_since(all.skip(count as int), retain_time).reverse(),
            decreases count,
        {
            let chunk: IqChunk = rest.pop().unwrap();
            count = count - 1;
            proof {
                let less = all.skip(count as int + 1);
                let more = all.skip(count as int);
                assert(more =~= seq![all[count as int]] + less);
                filter_of_first(
                    all[count as int],
                    less,
                    |chunk: IqChunk| !chunk.time.before(retain_time),
                );
            }
            if !chunk.time.lt(retain_time) {
                kept.push(chunk);
            }
            assert(kept@ =~= received_since(all.skip(count as int), retain_time).reverse());
        }
        let ghost backwards = kept@;
        let mut chunks: Vec<IqChunk> = Vec::new();
        let ghost wanted = received_since(all, retain_time);
        proof {
            assert(all.skip(0) =~= all);
            assert(backwards =~= wanted.reverse());
        }
        while kept.len() > 0
            invariant
                wanted.len() == kept@.len() + chunks@.len(),
                kept@ == wanted.reverse().take(kept@.len() as int),
                chunks@ == wanted.take(chunks@.len() as int),
            decreases kept@.len(),
        {
            let ghost n = chunks@.len() as int;
            let chunk: IqChunk = kept.pop().unwrap();
            assert(chunk == wanted[n]);
            chunks.push(chunk);
            assert(chunks@ =~= wanted.take(n + 1));
        }
        assert(chunks@ =~= wanted);
        self.chunks = chunks;
        self.chunks.len() > 0
    }
}

/// A filter looks at the first item by itself.
proof fn filter_of_first<T>(first: T, rest: Seq<T>, keep: spec_fn(T) -> bool)
    ensures
        (seq![first] + rest).filter(keep) == if keep(first) {
            seq![first] + rest.filter(keep)
        } else {
            rest.filter(keep)
        },
    decreases rest.len(),
{
    reveal(Seq::filter);
    let whole = seq![first] + rest;
    if rest.len() == 0 {
        assert(whole.drop_last() =~= Seq::<T>::empty());
        assert(whole.last() == first);
        assert(Seq::<T>::empty().filter(keep) =~= Seq::<T>::empty());
        assert(rest =~= Seq::<T>::empty());
        assert(whole.filter(keep) =~= if keep(first) {
            seq![first] + rest.filter(keep)
        } else {
            rest.filter(keep)
        });
    } else {
        filter_of_first(first, rest.drop_last(), keep);
        assert(whole.drop_last() =~= seq![first] + rest.drop_last());
        assert(whole.last() == rest.last());
        assert(whole.filter(keep) =~= if keep(first) {
            seq![first] + rest.filter(keep)
        } else {
            rest.filter(keep)
        });
    }
}

impl ChannelHistory {
    /// Nothing was received yet.
    pub fn new(start_time: Timestamp) -> (history: Self)
        ensures
            history.end_time == start_time,
            history.chunks@ == Seq::<IqChunk>::empty(),
    {
        ChannelHistory { end_time: start_time, chunks: Vec::new() }
    }

    /// Adds samples.
    pub fn add_chunk(&mut self, chunk: IqChunk)
        ensures
            final(self).chunks@ == old(self).chunks@.push(chunk),
            final(self).end_time == latest(old(self).end_time, seq![chunk]),
    {
        proof {
            reveal_with_fuel(latest, 2);
            assert(seq![chunk].drop_last() =~= Seq::<IqChunk>::empty());
        }
        self.end_time = self.end_time.max(chunk.time);
        self.chunks.push(chunk);
    }
}

/// The samples that were received on all channels.
pub struct ChannelsGpu {
    pub channels: ChannelTable<ChannelHistory>,
}

impl ChannelsGpu {
    pub open spec fn wf(&self) -> bool {
        self.channels.wf()
    }

    /// No channels.
    pub fn new() -> (channels: Self)
        ensures
            channels.wf(),
            channels.channels.table() == Map::<ChannelKey, ChannelHistory>::empty(),
    {
        ChannelsGpu { channels: ChannelTable::new() }
    }

    /// Adds samples that were received on a channel, which is added too where it is new.
    pub fn add_chunks(&mut self, key: ChannelKey, start_time: Timestamp, chunks: Vec<IqChunk>)
        requires
            old(self).wf(),
        ensures
            final(self).wf(),
            final(self).channels.table().dom() == old(self).channels.table().dom().insert(key),
            forall|other: ChannelKey| #[trigger]
                old(self).channels.table().contains_key(other) && other != key ==> final(self).channels.table()[other] == old(self).channels.table()[other],
            ({
                let known = old(self).channels.table().contains_key(key);
                let before = old(self).channels.table()[key];
                let after = final(self).channels.table()[key];
                &&& after.chunks@ == if known {
                    before.chunks@ + chunks@
                } else {
                    chunks@
                }
                &&& after.end_time == latest(
                    if known {
                        before.end_time
                    } else {
                        start_time
                    },
                    chunks@,
                )
            }),
    {
        let ghost table = self.channels.table();
        let mut history: ChannelHistory = match self.channels.remove(key) {
            Some(history) => history,
            None => ChannelHistory::new(start_time),
        };
        let ghost before = history.chunks@;
        let ghost end_before = history.end_time;
        let ghost all = chunks@;
        let total: usize = chunks.len();
        let mut backwards: Vec<IqChunk> = Vec::new();
        let mut rest: Vec<IqChunk> = chunks;
        while rest.len() > 0
            invariant
                all.len() == rest@.len() + backwards@.len(),
                rest@ == all.take(rest@.len() as int),
                backwards@ == all.skip(rest@.len() as int).reverse(),
            decreases rest@.len(),
        {
            let chunk: IqChunk = rest.pop().unwrap();
            backwards.push(chunk);
            assert(backwards@ =~= all.skip(rest@.len() as int).reverse());
        }
        assert(all.skip(0) =~= all);
        assert(all.take(0) =~= Seq::<IqChunk>::empty());
        assert(before + all.take(0) =~= before);
        let ghost reversed = backwards@;
        let mut done: usize = 0;
        while backwards.len() > 0
            invariant
                all.len() == total,
                all.len() == backwards@.len() + done,
                backwards@ == all.reverse().take(backwards@.len() as int),
                history.chunks@ == before + all.take(done as int),
                history.end_time == latest(end_before, all.take(done as int)),
            decreases backwards@.len(),
        {
            let ghost n = done as int;
            let chunk: IqChunk = backwards.pop().unwrap();
            proof {
                assert(chunk == all[n]);
                assert(all.take(n + 1).drop_last() =~= all.take(n));
                assert(all.take(n + 1).last() == chunk);
                reveal_with_fuel(latest, 2);
                assert(seq![chunk].drop_last() =~= Seq::<IqChunk>::empty());
            }
            history.add_chunk(chunk);
            assert(history.chunks@ =~= before + all.take(n + 1));
            done = done + 1;
        }
        assert(all.take(done as int) =~= all);
        let ghost after = history;
        self.channels.insert(key, history);
        proof {
            assert(self.channels.table() =~= table.remove(key).insert(key, after));
            assert(self.channels.table().dom() =~= table.dom().insert(key));
        }
    }

    /// Drops the samples that were received before a time, and the channels of which none
    /// are left.
    pub fn prune(&mut self, retain_time: Timestamp)
        requires
            old(self).wf(),
        ensures
            final(self).wf(),
            table_leaves(old(self).channels.table(), final(self).channels.table(), retain_time),
    {
        assert(histories_wf(self.channels.table()));
        self.channels.prune(retain_time);
    }
}

/// What was last received is never before what was known, and is one of the times that there
/// are.
pub proof fn the_latest_time_is_kept(end_time: Timestamp, chunks: Seq<IqChunk>, i: int)
    ensures
        !latest(end_time, chunks).before(end_time),
        0 <= i < chunks.len() ==> !latest(end_time, chunks).before(chunks[i].time),
        latest(end_time, chunks) == end_time || exists|k: int|
            0 <= k < chunks.len() && latest(end_time, chunks) == (#[trigger] chunks[k]).time,
    decreases chunks.len(),
{
    if chunks.len() > 0 {
        let rest = chunks.drop_last();
        the_latest_time_is_kept(end_time, rest, i);
        assert(chunks.last() == chunks[chunks.len() - 1]);
        if latest(end_time, rest) != end_time {
            let k = choose|k: int|
                0 <= k < rest.len() && latest(end_time, rest) == (#[trigger] rest[k]).time;
            assert(chunks[k] == rest[k]);
        }
    }
}

/// What is kept since a time is what was received then or later, in order.
pub proof fn what_is_kept_was_received_since(chunks: Seq<IqChunk>, time: Timestamp, i: int)
    ensures
        0 <= i < chunks.len() && !chunks[i].time.before(time) ==> received_since(
            chunks,
            time,
        ).contains(chunks[i]),
        0 <= i < received_since(chunks, time).len() ==> !received_since(
            chunks,
            time,
        )[i].time.before(time),
        chunks.len() > 0 && chunks.last().time.before(time) ==> received_since(chunks, time)
            == received_since(chunks.drop_last(), time),
        chunks.len() > 0 && !chunks.last().time.before(time) ==> received_since(chunks, time)
            == received_since(chunks.drop_last(), time).push(chunks.last()),
{
    reveal(Seq::filter);
    let keep = |chunk: IqChunk| !chunk.time.before(time);
    if 0 <= i < chunks.len() && !chunks[i].time.before(time) {
        assert(keep(chunks[i]));
        chunks.lemma_filter_contains(keep, i);
    }
    if 0 <= i < received_since(chunks, time).len() {
        chunks.lemma_filter_pred(keep, i);
    }
}

/// What is left of a channel are the chunks that were not received before a time, and the time at
/// which something was last received. A channel without chunks has nothing left.
pub proof fn channels_keep_what_is_not_old(
    before: ChannelHistory,
    after: ChannelHistory,
    time: Timestamp,
    i: int,
)
    requires
        before.leaves(&after, time),
    ensures
        after.end_time == before.end_time,
        0 <= i < before.chunks@.len() && !before.chunks@[i].time.before(time)
            ==> after.chunks@.contains(before.chunks@[i]),
        0 <= i < after.chunks@.len() ==> !after.chunks@[i].time.before(time),
        after.nothing_left() <==> after.chunks@.len() == 0,
{
    what_is_kept_was_received_since(before.chunks@, time, i);
}

} // verus!
