//! The channels that are picked out of a stream.

use vstd::multiset::Multiset;
use vstd::prelude::*;

use crate::fm_channel::{dc_bin, ChannelBins, PhaseCorrection};
use crate::stream_processor::turned_on;

verus! {

/// A channel, by the bins that it is made of.
#[derive(Clone, Copy, Debug, PartialEq, Eq, Structural)]
pub struct Channel {
    pub bins: ChannelBins,
    /// Whether the number of the bin in the middle is odd.
    pub odd_bin: bool,
}

/// Channels, each one under a key of its own.
#[verifier::external_body]
pub struct ChannelSlots {
    channels: slotmap::SlotMap<slotmap::DefaultKey, Channel>,
}

/// The channels that are held.
pub uninterp spec fn held(slots: ChannelSlots) -> Multiset<Channel>;

/// [`slotmap::SlotMap::with_key`]: a map without entries.
#[verifier::external_body]
fn no_slots() -> (slots: ChannelSlots)
    ensures
        held(slots) == Multiset::<Channel>::empty(),
{
    ChannelSlots { channels: slotmap::SlotMap::with_key() }
}

/// [`slotmap::SlotMap::insert`]: adds an entry, and leaves the others as they are. The key
/// that it hands out is not looked at. It panics where the map is full, which it is with
/// `u32::MAX - 1` entries.
#[verifier::external_body]
fn add_slot(slots: &mut ChannelSlots, channel: Channel)
    requires
        held(*old(slots)).len() < u32::MAX - 1,
    ensures
        held(*final(slots)) == held(*old(slots)).insert(channel),
{
    slots.channels.insert(channel);
}

/// [`slotmap::SlotMap::values`]: all entries, each one once, in an order that is left open.
#[verifier::external_body]
fn all_slots(slots: &ChannelSlots) -> (all: Vec<Channel>)
    ensures
        all@.to_multiset() == held(*slots),
{
    slots.channels.values().copied().collect()
}

/// A channel that may lie within a stream: the bin in its middle, and how many bins it
/// takes up.
#[derive(Clone, Copy, Debug, PartialEq, Eq, Structural)]
pub struct ChannelCandidate {
    pub center_bin: usize,
    pub width_bins: usize,
}

impl ChannelCandidate {
    /// Whether the numbers of bins can be added up.
    pub open spec fn wf(self) -> bool {
        1 <= self.width_bins < usize::MAX && self.center_bin + self.width_bins <= usize::MAX
    }

    /// The first bin of the channel.
    pub open spec fn left_bin(self) -> int {
        self.center_bin - dc_bin(self.width_bins as int)
    }

    /// Whether the channel lies within a spectrum.
    pub open spec fn lies_within(self, fft_size: usize) -> bool {
        0 <= self.left_bin() && self.left_bin() + self.width_bins <= fft_size
    }

    /// The channel.
    pub open spec fn channel(self, fft_size: usize) -> Channel {
        Channel {
            bins: ChannelBins {
                fft_size,
                left_bin: self.left_bin() as usize,
                right_bin: (self.left_bin() + self.width_bins) as usize,
                margin_bin_count: 0,
            },
            odd_bin: self.center_bin % 2 == 1,
        }
    }
}

/// The channels that lie within a spectrum.
pub open spec fn channels_within(candidates: Seq<ChannelCandidate>, fft_size: usize) -> Multiset<
    Channel,
>
    decreases candidates.len(),
{
    if candidates.len() == 0 {
        Multiset::empty()
    } else {
        let before = channels_within(candidates.drop_last(), fft_size);
        if candidates.last().lies_within(fft_size) {
            before.insert(candidates.last().channel(fft_size))
        } else {
            before
        }
    }
}

/// A channel of a stream, the spectra from which it is recovered, and which of them are
/// turned around first.
pub struct GatheredChannel<T> {
    pub channel: Channel,
    pub spectra: Vec<T>,
    pub turned: Vec<bool>,
}

/// The channels in what was gathered.
pub open spec fn gathered_channels<T>(gathered: Seq<GatheredChannel<T>>) -> Seq<Channel> {
    gathered.map_values(|one: GatheredChannel<T>| one.channel)
}

/// Picks the channels out of a stream.
pub struct Waterfall {
    fft_size: usize,
    counter: bool,
    channels: ChannelSlots,
}

impl Waterfall {
    /// The size of the spectra.
    pub closed spec fn size(&self) -> usize {
        self.fft_size
    }

    /// Whether an odd number of spectra came before.
    pub closed spec fn odd_count(&self) -> bool {
        self.counter
    }

    /// The channels.
    pub closed spec fn channels(&self) -> Multiset<Channel> {
        held(self.channels)
    }

    /// Every channel lies within the stream.
    pub open spec fn wf(&self) -> bool {
        &&& self.size() > 0
        &&& forall|channel: Channel| #[trigger]
            self.channels().contains(channel) ==> channel.bins.wf() && channel.bins.fft_size
                == self.size()
    }

    /// Picks those of the channels that lie within a stream.
    pub fn new(fft_size: usize, candidates: &Vec<ChannelCandidate>) -> (waterfall: Self)
        requires
            fft_size > 0,
            candidates@.len() < u32::MAX - 1,
            forall|k: int| 0 <= k < candidates@.len() ==> (#[trigger] candidates@[k]).wf(),
        ensures
            waterfall.wf(),
            waterfall.size() == fft_size,
            !waterfall.odd_count(),
            waterfall.channels() == channels_within(candidates@, fft_size),
    {
        let mut channels: ChannelSlots = no_slots();
        let mut i: usize = 0;
        assert(candidates@.take(0) =~= Seq::<ChannelCandidate>::empty());
        while i < candidates.len()
            invariant
                i <= candidates@.len(),
                candidates@.len() < u32::MAX - 1,
                forall|k: int| 0 <= k < candidates@.len() ==> (#[trigger] candidates@[k]).wf(),
                held(channels) == channels_within(candidates@.take(i as int), fft_size),
                held(channels).len() <= i,
                forall|channel: Channel| #[trigger]
                    held(channels).contains(channel) ==> channel.bins.wf()
                        && channel.bins.fft_size == fft_size,
            decreases candidates@.len() - i,
        {
            let candidate: ChannelCandidate = candidates[i];
            proof {
                assert(candidates@[i as int].wf());
                assert(candidates@.take(i as int + 1).drop_last() =~= candidates@.take(i as int));
                assert(candidates@.take(i as int + 1).last() == candidate);
            }
            match ChannelBins::new(fft_size, candidate.center_bin, candidate.width_bins, 0) {
                Some(bins) => {
                    let channel = Channel { bins, odd_bin: candidate.center_bin % 2 == 1 };
                    let ghost before = held(channels);
                    assert(channel == candidate.channel(fft_size));
                    add_slot(&mut channels, channel);
                    assert forall|other: Channel| #[trigger] held(channels).contains(
                        other,
                    ) implies other.bins.wf() && other.bins.fft_size == fft_size by {
                        assert(other != channel ==> before.contains(other));
                    }
                },
                None => {},
            }
            i = i + 1;
        }
        assert(candidates@.take(i as int) =~= candidates@);
        Waterfall { fft_size, counter: false, channels }
    }

    /// Picks all channels out of spectra that follow each other.
    pub fn gather<T: Copy>(&mut self, spectra: &Vec<T>, zero: T) -> (gathered: Vec<
        GatheredChannel<T>,
    >)
        requires
            old(self).wf(),
        ensures
            final(self).wf(),
            final(self).size() == old(self).size(),
            final(self).channels() == old(self).channels(),
            gathered_channels(gathered@).to_multiset() == old(self).channels(),
            ({
                let fft_count = spectra@.len() as int / old(self).size() as int;
                &&& final(self).odd_count() == (old(self).odd_count() != (fft_count % 2 == 1))
                &&& turned_on(old(self).odd_count(), fft_count, final(self).odd_count())
                &&& forall|k: int|
                    0 <= k < gathered@.len() ==> {
                        let one = #[trigger] gathered@[k];
                        &&& one.spectra@ == one.channel.bins.all_gathered(spectra@, zero)
                        &&& one.turned@ == Seq::new(
                            fft_count as nat,
                            |n: int|
                                (PhaseCorrection {
                                    odd_bin: one.channel.odd_bin,
                                    counter: old(self).odd_count(),
                                }).turns(n as nat),
                        )
                    }
            }),
    {
        let channels: Vec<Channel> = all_slots(&self.channels);
        let fft_count: usize = spectra.len() / self.fft_size;
        let counter: bool = self.counter;
        let mut gathered: Vec<GatheredChannel<T>> = Vec::new();
        let mut i: usize = 0;
        while i < channels.len()
            invariant
                i <= channels@.len(),
                self.wf(),
                channels@.to_multiset() == self.channels(),
                gathered@.len() == i,
                forall|k: int|
                    0 <= k < i ==> {
                        let one = #[trigger] gathered@[k];
                        &&& one.channel == channels@[k]
                        &&& one.spectra@ == one.channel.bins.all_gathered(spectra@, zero)
                        &&& one.turned@ == Seq::new(
                            fft_count as nat,
                            |n: int|
                                (PhaseCorrection {
                                    odd_bin: one.channel.odd_bin,
                                    counter,
                                }).turns(n as nat),
                        )
                    },
            decreases channels@.len() - i,
        {
            let channel: Channel = channels[i];
            proof {
                broadcast use vstd::seq_lib::group_to_multiset_ensures;

                assert(channels@.contains(channel));
                assert(self.channels().contains(channel));
            }
            let mut phase = PhaseCorrection { odd_bin: channel.odd_bin, counter };
            let turned: Vec<bool> = phase.next_signs(fft_count);
            gathered.push(
                GatheredChannel { channel, spectra: channel.bins.gather(spectra, zero), turned },
            );
            i = i + 1;
        }
        assert(gathered_channels(gathered@) =~= channels@);
        if fft_count % 2 == 1 {
            self.counter = !self.counter;
        }
        gathered
    }
}

/// A channel is made for every candidate that lies within the spectrum.
pub proof fn channels_are_made_of_candidates(
    first: Seq<ChannelCandidate>,
    second: Seq<ChannelCandidate>,
    candidate: ChannelCandidate,
    fft_size: usize,
)
    ensures
        channels_within(first + second, fft_size) == channels_within(first, fft_size).add(
            channels_within(second, fft_size),
        ),
        candidate.lies_within(fft_size) ==> channels_within(seq![candidate], fft_size)
            == Multiset::singleton(candidate.channel(fft_size)),
        !candidate.lies_within(fft_size) ==> channels_within(seq![candidate], fft_size)
            == Multiset::<Channel>::empty(),
    decreases second.len(),
{
    broadcast use vstd::multiset::group_multiset_axioms;

    let one = seq![candidate];
    assert(one.drop_last() =~= Seq::<ChannelCandidate>::empty());
    assert(channels_within(one.drop_last(), fft_size) =~= Multiset::<Channel>::empty());
    if candidate.lies_within(fft_size) {
        assert(channels_within(one, fft_size) =~= Multiset::singleton(
            candidate.channel(fft_size),
        ));
    }
    if second.len() == 0 {
        assert(first + second =~= first);
        assert(channels_within(first, fft_size).add(channels_within(second, fft_size))
            =~= channels_within(first, fft_size));
    } else {
        channels_are_made_of_candidates(first, second.drop_last(), candidate, fft_size);
        assert((first + second).drop_last() =~= first + second.drop_last());
        assert(channels_within(first + second, fft_size) =~= channels_within(first, fft_size).add(
            channels_within(second, fft_size),
        ));
    }
}

/// A channel that lies within the spectrum has as many bins as it is wide, and its bin of
/// frequency zero is its middle.
pub proof fn channels_lie_around_their_middle(candidate: ChannelCandidate, fft_size: usize)
    requires
        candidate.wf(),
        candidate.lies_within(fft_size),
    ensures
        ({
            let channel = candidate.channel(fft_size);
            &&& channel.bins.wf()
            &&& channel.bins.fft_size == fft_size
            &&& channel.bins.right_bin - channel.bins.left_bin == candidate.width_bins
            &&& channel.bins.margin_bin_count == 0
            &&& channel.bins.left_bin + (candidate.width_bins + 1) / 2 == candidate.center_bin
            &&& channel.odd_bin <==> candidate.center_bin % 2 == 1
        }),
{
}

/// A candidate lies within a spectrum exactly where all of its bins do, the first and the last one
/// among them.
pub proof fn candidates_lie_within_where_their_bins_do(
    candidate: ChannelCandidate,
    fft_size: usize,
)
    requires
        candidate.wf(),
    ensures
        candidate.lies_within(fft_size) <==> forall|bin: int|
            0 <= bin < candidate.width_bins ==> 0 <= #[trigger] bin_at(candidate, bin) < fft_size,
{
    if forall|bin: int|
        0 <= bin < candidate.width_bins ==> 0 <= #[trigger] bin_at(candidate, bin) < fft_size {
        assert(0 <= bin_at(candidate, 0));
        assert(bin_at(candidate, candidate.width_bins - 1) < fft_size);
    }
}

/// Where a bin of a candidate stands in the spectrum: the middle one at the middle.
pub open spec fn bin_at(candidate: ChannelCandidate, bin: int) -> int {
    candidate.center_bin + bin - (candidate.width_bins + 1) / 2
}

} // verus!
