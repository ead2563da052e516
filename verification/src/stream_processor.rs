//! Processing the streams that are received: which streams there are, which channels lie
//! within each one, and what comes out for each channel.

use std::collections::{BTreeMap, BTreeSet};

use crate::channel_table::ChannelId;
use crate::document::StreamId;
use crate::double::Double;
use crate::fm_channel::{dc_bin, ChannelBins, PhaseCorrection};
use crate::id_factory::IdFactory;
use crate::maps::{lists, sorted_members};
use crate::time::Timestamp;
use vstd::prelude::*;

verus! {

/// A channel of a stream.
#[derive(Clone, Copy, Debug, PartialEq, Eq, Structural)]
pub struct StreamChannel {
    pub id: ChannelId,
    pub bins: ChannelBins,
    /// Whether the number of the bin in the middle is odd.
    pub odd_bin: bool,
}

/// A channel that may lie within a stream: the bin in its middle, how many bins it takes
/// up, and how many empty ones are put on each side of it.
#[derive(Clone, Copy, Debug, PartialEq, Eq, Structural)]
pub struct StreamCandidate {
    pub center_bin: usize,
    pub signal_bin_count: usize,
    pub margin_bin_count: usize,
}

impl StreamCandidate {
    /// Whether the numbers of bins can be added up.
    pub open spec fn wf(self) -> bool {
        &&& self.signal_bin_count >= 1
        &&& self.signal_bin_count + 2 * self.margin_bin_count < usize::MAX
        &&& self.center_bin + self.signal_bin_count <= usize::MAX
    }

    /// The first bin of the channel.
    pub open spec fn left_bin(self) -> int {
        self.center_bin - (dc_bin(self.signal_bin_count + 2 * self.margin_bin_count)
            - self.margin_bin_count)
    }

    /// Whether the channel lies within a spectrum.
    pub open spec fn lies_within(self, fft_size: usize) -> bool {
        0 <= self.left_bin() && self.left_bin() + self.signal_bin_count <= fft_size
    }

    /// The channel.
    pub open spec fn channel(self, fft_size: usize, id: ChannelId) -> StreamChannel {
        StreamChannel {
            id,
            bins: ChannelBins {
                fft_size,
                left_bin: self.left_bin() as usize,
                right_bin: (self.left_bin() + self.signal_bin_count) as usize,
                margin_bin_count: self.margin_bin_count,
            },
            odd_bin: self.center_bin % 2 == 1,
        }
    }
}

/// The channels that lie within a spectrum, numbered one after the other.
pub open spec fn channels_within(candidates: Seq<StreamCandidate>, fft_size: usize) -> Seq<
    StreamChannel,
>
    decreases candidates.len(),
{
    if candidates.len() == 0 {
        Seq::empty()
    } else {
        let before = channels_within(candidates.drop_last(), fft_size);
        if candidates.last().lies_within(fft_size) {
            before.push(candidates.last().channel(fft_size, before.len() as usize))
        } else {
            before
        }
    }
}

/// What comes out for a channel: the spectra from which it is recovered, and which of them
/// are turned around first.
pub struct ChannelSpectra<T> {
    pub id: ChannelId,
    pub spectra: Vec<T>,
    pub turned: Vec<bool>,
}

/// Processes a stream, chunk by chunk.
pub struct StreamChunkProcessor {
    pub fft_size: usize,
    pub chunk_size: usize,
    /// Whether the first spectrum of the next chunk counts as an odd one.
    pub counter: bool,
    pub channels: Vec<StreamChannel>,
}

impl StreamChunkProcessor {
    /// Every channel lies within the stream, and a chunk is made of whole spectra.
    pub open spec fn wf(&self) -> bool {
        &&& self.fft_size > 0
        &&& forall|k: int|
            0 <= k < self.channels@.len() ==> (#[trigger] self.channels@[k]).bins.wf()
                && self.channels@[k].bins.fft_size == self.fft_size && self.channels@[k].id == k
    }

    /// A processor for a stream whose chunks are made of `fft_count` spectra each.
    pub fn new(fft_size: usize, fft_count: usize, candidates: &Vec<StreamCandidate>) -> (processor:
        Self)
        requires
            fft_size > 0,
            fft_size * fft_count <= usize::MAX,
            forall|k: int| 0 <= k < candidates@.len() ==> (#[trigger] candidates@[k]).wf(),
        ensures
            processor.wf(),
            processor.fft_size == fft_size,
            processor.chunk_size == fft_size * fft_count,
            !processor.counter,
            processor.channels@ == channels_within(candidates@, fft_size),
    {
        let mut channels: Vec<StreamChannel> = Vec::new();
        let mut id_factory = IdFactory::default();
        let total: usize = candidates.len();
        let mut i: usize = 0;
        assert(candidates@.take(0) =~= Seq::<StreamCandidate>::empty());
        while i < total
            invariant
                i <= total,
                total == candidates@.len(),
                forall|k: int| 0 <= k < candidates@.len() ==> (#[trigger] candidates@[k]).wf(),
                channels@ == channels_within(candidates@.take(i as int), fft_size),
                channels@.len() <= i,
                id_factory.next_id() == channels@.len(),
                forall|k: int|
                    0 <= k < channels@.len() ==> (#[trigger] channels@[k]).bins.wf()
                        && channels@[k].bins.fft_size == fft_size && channels@[k].id == k,
            decreases total - i,
        {
            let candidate: StreamCandidate = candidates[i];
            proof {
                assert(candidates@[i as int].wf());
                assert(candidates@.take(i as int + 1).drop_last() =~= candidates@.take(i as int));
                assert(candidates@.take(i as int + 1).last() == candidate);
            }
            match ChannelBins::new(
                fft_size,
                candidate.center_bin,
                candidate.signal_bin_count,
                candidate.margin_bin_count,
            ) {
                Some(bins) => {
                    let id: ChannelId = id_factory.create();
                    channels.push(
                        StreamChannel { id, bins, odd_bin: candidate.center_bin % 2 == 1 },
                    );
                },
                None => {},
            }
            i = i + 1;
        }
        assert(candidates@.take(i as int) =~= candidates@);
        StreamChunkProcessor {
            fft_size,
            chunk_size: fft_size * fft_count,
            counter: false,
            channels,
        }
    }

    /// Picks all channels out of the spectra of a chunk. The count of spectra that goes on to
    /// the next chunk moves by how many fit into a chunk side by side.
    pub fn gather<T: Copy>(&mut self, spectra: &Vec<T>, zero: T) -> (gathered: Vec<
        ChannelSpectra<T>,
    >)
        requires
            old(self).wf(),
        ensures
            final(self).wf(),
            final(self).fft_size == old(self).fft_size,
            final(self).chunk_size == old(self).chunk_size,
            final(self).channels@ == old(self).channels@,
            gathered@.len() == old(self).channels@.len(),
            ({
                let fft_count = spectra@.len() as int / old(self).fft_size as int;
                &&& final(self).counter == (old(self).counter != (old(self).chunk_size as int
                    / old(self).fft_size as int % 2 == 1))
                &&& turned_on(
                    old(self).counter,
                    old(self).chunk_size as int / old(self).fft_size as int,
                    final(self).counter,
                )
                &&& forall|k: int|
                    0 <= k < gathered@.len() ==> {
                        let one = #[trigger] gathered@[k];
                        let channel = old(self).channels@[k];
                        &&& one.id == channel.id
                        &&& one.spectra@ == channel.bins.all_gathered(spectra@, zero)
                        &&& one.turned@ == Seq::new(
                            fft_count as nat,
                            |n: int|
                                (PhaseCorrection {
                                    odd_bin: channel.odd_bin,
                                    counter: old(self).counter,
                                }).turns(n as nat),
                        )
                    }
            }),
    {
        let fft_count: usize = spectra.len() / self.fft_size;
        let counter: bool = self.counter;
        let mut gathered: Vec<ChannelSpectra<T>> = Vec::new();
        let mut i: usize = 0;
        while i < self.channels.len()
            invariant
                i <= self.channels@.len(),
                self.wf(),
                *self == *old(self),
                gathered@.len() == i,
                forall|k: int|
                    0 <= k < i ==> {
                        let one = #[trigger] gathered@[k];
                        let channel = self.channels@[k];
                        &&& one.id == channel.id
                        &&& one.spectra@ == channel.bins.all_gathered(spectra@, zero)
                        &&& one.turned@ == Seq::new(
                            fft_count as nat,
                            |n: int|
                                (PhaseCorrection { odd_bin: channel.odd_bin, counter }).turns(
                                    n as nat,
                                ),
                        )
                    },
            decreases self.channels@.len() - i,
        {
            let channel: StreamChannel = self.channels[i];
            assert(self.channels@[i as int] == channel);
            let mut phase = PhaseCorrection { odd_bin: channel.odd_bin, counter };
            let turned: Vec<bool> = phase.next_signs(fft_count);
            gathered.push(
                ChannelSpectra {
                    id: channel.id,
                    spectra: channel.bins.gather(spectra, zero),
                    turned,
                },
            );
            i = i + 1;
        }
        if self.chunk_size / self.fft_size % 2 == 1 {
            self.counter = !self.counter;
        }
        gathered
    }
}

/// What was received on some channels, one piece after the other.
pub struct ChannelResults<R> {
    pub channels: BTreeMap<ChannelId, Vec<R>>,
}

/// What was received on some channels.
pub open spec fn results_model<R>(channels: Map<ChannelId, Vec<R>>) -> Map<ChannelId, Seq<R>> {
    channels.map_values(|results: Vec<R>| results@)
}

impl<R> ChannelResults<R> {
    pub open spec fn model(&self) -> Map<ChannelId, Seq<R>> {
        results_model(self.channels@)
    }

    /// Nothing was received.
    pub fn new() -> (results: Self)
        ensures
            results.model() == Map::<ChannelId, Seq<R>>::empty(),
    {
        let results = ChannelResults { channels: BTreeMap::new() };
        assert(results.model() =~= Map::empty());
        results
    }

    /// Something was received on a channel.
    pub fn push(&mut self, id: ChannelId, result: R)
        ensures
            final(self).model() == old(self).model().insert(
                id,
                if old(self).model().contains_key(id) {
                    old(self).model()[id].push(result)
                } else {
                    seq![result]
                },
            ),
    {
        let ghost before = self.model();
        assert(before.contains_key(id) <==> self.channels@.contains_key(id));
        let mut results: Vec<R> = match self.channels.remove(&id) {
            Some(results) => results,
            None => Vec::new(),
        };
        results.push(result);
        let ghost after = results@;
        self.channels.insert(id, results);
        proof {
            assert(self.model() =~= before.insert(id, after));
            assert(after =~= if before.contains_key(id) {
                before[id].push(result)
            } else {
                seq![result]
            });
        }
    }
}

/// Which streams are processed.
pub struct Processor {
    pub streams: BTreeSet<StreamId>,
}

/// The streams that are not processed any more, and those that now are.
pub struct StreamsUpdate {
    pub removed: Vec<StreamId>,
    pub added: Vec<StreamId>,
}

impl Processor {
    /// No streams.
    pub fn new() -> (processor: Self)
        ensures
            processor.streams@ == Set::<StreamId>::empty(),
    {
        Processor { streams: BTreeSet::new() }
    }

    /// Takes up which streams are received.
    pub fn update(&mut self, received: &BTreeSet<StreamId>) -> (update: StreamsUpdate)
        ensures
            final(self).streams@ == received@,
            lists(update.removed@, old(self).streams@.difference(received@)),
            lists(update.added@, received@.difference(old(self).streams@)),
    {
        let removed: Vec<StreamId> = members_without(&self.streams, received);
        let added: Vec<StreamId> = members_without(received, &self.streams);
        let all: Vec<StreamId> = sorted_members(received);
        let mut streams: BTreeSet<StreamId> = BTreeSet::new();
        let mut i: usize = 0;
        while i < all.len()
            invariant
                i <= all@.len(),
                streams@ == all@.take(i as int).to_set(),
            decreases all@.len() - i,
        {
            proof {
                crate::maps::next_is_taken(all@, i as int);
            }
            streams.insert(all[i]);
            i = i + 1;
        }
        proof {
            crate::maps::all_are_taken(all@, received@);
        }
        self.streams = streams;
        StreamsUpdate { removed, added }
    }
}

/// The members of a set that are not in another one, in order.
fn members_without(set: &BTreeSet<usize>, other: &BTreeSet<usize>) -> (members: Vec<usize>)
    ensures
        lists(members@, set@.difference(other@)),
{
    let all: Vec<usize> = sorted_members(set);
    let mut members: Vec<usize> = Vec::new();
    let mut i: usize = 0;
    proof {
        crate::maps::all_are_taken(all@, set@);
        assert(all@.take(0).to_set().difference(other@) =~= Set::<usize>::empty());
        assert(lists(members@, Set::<usize>::empty()));
    }
    while i < all.len()
        invariant
            i <= all@.len(),
            lists(all@, set@),
            lists(members@, all@.take(i as int).to_set().difference(other@)),
        decreases all@.len() - i,
    {
        let id: usize = all[i];
        let ghost before = all@.take(i as int).to_set();
        proof {
            crate::maps::next_is_taken(all@, i as int);
        }
        if other.contains(&id) {
            assert(before.insert(id).difference(other@) =~= before.difference(other@));
        } else {
            proof {
                assert forall|m: usize| #[trigger]
                    before.difference(other@).contains(m) implies m < id by {
                    crate::maps::taken_are_below(all@, i as int, m);
                }
                crate::maps::list_grows(members@, before.difference(other@), id);
                assert(before.insert(id).difference(other@) =~= before.difference(other@).insert(
                    id,
                ));
            }
            members.push(id);
        }
        i = i + 1;
    }
    proof {
        crate::maps::all_are_taken(all@, set@);
    }
    members
}

/// Whether a stream is too loud. Once it was, it is taken to be for a while.
#[derive(Clone, Copy, Debug)]
pub struct Overload {
    pub overload_time: Timestamp,
    pub overload: bool,
}

impl Overload {
    /// Takes up the loudness of a chunk. `limit` is the loudest that can be told apart, and
    /// `over` says whether a while has passed since the stream was too loud.
    pub fn update(&mut self, peak: Double, limit: Double, time: Timestamp, over: bool)
        ensures
            *final(self) == if !limit.is_nan() && !peak.is_nan() && !peak.below(limit) {
                Overload { overload_time: time, overload: true }
            } else if over {
                Overload { overload: false, ..*old(self) }
            } else {
                *old(self)
            },
            overload_noted(*old(self), peak, limit, time, over, *final(self)),
    {
        if limit.le(peak) {
            self.overload_time = time;
            self.overload = true;
        } else if over {
            self.overload = false;
        }
    }
}

/// A channel is made for every candidate that lies within the spectrum, in order, and channels
/// are numbered from zero on.
pub proof fn channels_are_numbered(candidates: Seq<StreamCandidate>, fft_size: usize, k: int)
    requires
        candidates.len() <= usize::MAX,
    ensures
        0 <= k < channels_within(candidates, fft_size).len() ==> channels_within(
            candidates,
            fft_size,
        )[k].id == k,
        candidates.len() > 0 && candidates.last().lies_within(fft_size) ==> channels_within(
            candidates,
            fft_size,
        ).len() == channels_within(candidates.drop_last(), fft_size).len() + 1,
        candidates.len() > 0 && !candidates.last().lies_within(fft_size) ==> channels_within(
            candidates,
            fft_size,
        ) == channels_within(candidates.drop_last(), fft_size),
        channels_within(candidates, fft_size).len() <= candidates.len(),
    decreases candidates.len(),
{
    if candidates.len() > 0 {
        channels_are_numbered(candidates.drop_last(), fft_size, k);
    }
}

/// A channel that lies within the spectrum has as many bins as its signal, and those lie around
/// its middle so that the bin of frequency zero of the wider channel is that middle.
pub proof fn channels_lie_around_their_middle(
    candidate: StreamCandidate,
    fft_size: usize,
    id: ChannelId,
)
    requires
        candidate.wf(),
        candidate.lies_within(fft_size),
    ensures
        ({
            let channel = candidate.channel(fft_size, id);
            &&& channel.id == id
            &&& channel.bins.wf()
            &&& channel.bins.fft_size == fft_size
            &&& channel.bins.right_bin - channel.bins.left_bin == candidate.signal_bin_count
            &&& channel.bins.margin_bin_count == candidate.margin_bin_count
            &&& channel.bins.left_bin - candidate.margin_bin_count + (candidate.signal_bin_count
                + 2 * candidate.margin_bin_count + 1) / 2 == candidate.center_bin
            &&& channel.odd_bin <==> candidate.center_bin % 2 == 1
        }),
{
}

/// Where a bin of the signal of a candidate stands in the spectrum: the middle of the wider
/// channel at the middle.
pub open spec fn bin_at(candidate: StreamCandidate, bin: int) -> int {
    candidate.center_bin + candidate.margin_bin_count + bin - (candidate.signal_bin_count + 2
        * candidate.margin_bin_count + 1) / 2
}

/// A candidate lies within a spectrum exactly where all bins of its signal do, the first and the
/// last one among them.
pub proof fn candidates_lie_within_where_their_bins_do(candidate: StreamCandidate, fft_size: usize)
    requires
        candidate.wf(),
    ensures
        candidate.lies_within(fft_size) <==> forall|bin: int|
            0 <= bin < candidate.signal_bin_count ==> 0 <= #[trigger] bin_at(candidate, bin)
                < fft_size,
{
    if forall|bin: int|
        0 <= bin < candidate.signal_bin_count ==> 0 <= #[trigger] bin_at(candidate, bin)
            < fft_size {
        assert(0 <= bin_at(candidate, 0));
        assert(bin_at(candidate, candidate.signal_bin_count - 1) < fft_size);
    }
}

/// Whether an overload was taken note of.
pub open spec fn overload_noted(
    before: Overload,
    peak: Double,
    limit: Double,
    time: Timestamp,
    over: bool,
    after: Overload,
) -> bool {
    after == if !limit.is_nan() && !peak.is_nan() && !peak.below(limit) {
        Overload { overload_time: time, overload: true }
    } else if over {
        Overload { overload: false, ..before }
    } else {
        before
    }
}

/// A peak that reaches the limit is an overload, at its time. An overload lasts until a peak below
/// the limit comes after its time is over, and the time at which it was last seen stays.
pub proof fn overloads_last_for_a_time(
    before: Overload,
    peak: Double,
    limit: Double,
    time: Timestamp,
    over: bool,
    after: Overload,
)
    requires
        overload_noted(before, peak, limit, time, over, after),
    ensures
        limit.below(peak) || limit.same(peak) ==> after.overload && after.overload_time == time,
        peak.below(limit) ==> after.overload_time == before.overload_time,
        peak.below(limit) && !over ==> after.overload == before.overload,
        peak.below(limit) && over ==> !after.overload,
        peak.is_nan() || limit.is_nan() ==> after.overload_time == before.overload_time && (
        after.overload <==> before.overload && !over),
{
}

/// Whether it was counted on by some spectra, as far as it matters: whether their number is odd.
pub open spec fn turned_on(before: bool, count: int, after: bool) -> bool {
    after == (before != (count % 2 == 1))
}

/// Spectra of a channel are turned alternately, over the borders of chunks too: the first one of
/// the next chunk is turned exactly where the one after the last one of this chunk would be.
pub proof fn turning_goes_on_in_the_next_chunk(
    odd_bin: bool,
    before: bool,
    count: nat,
    after: bool,
    n: nat,
)
    requires
        turned_on(before, count as int, after),
    ensures
        (PhaseCorrection { odd_bin, counter: after }).turns(n) == (PhaseCorrection {
            odd_bin,
            counter: before,
        }).turns(count + n),
{
}

} // verus!
