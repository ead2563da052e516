//! Looking for transmissions on a channel, in all clips that the channel lies in.

use std::collections::BTreeMap;

use crate::document::ClipId;
use crate::double::Double;
use crate::fm_channel::{dc_bin, ChannelBins, PhaseCorrection, Squelch, SquelchOutcome};
use crate::fm_history::{after_message, FmMessage, TransmissionModel, TransmissionStart};
use crate::id_factory::IdFactory;
use vstd::prelude::*;

verus! {

/// What is needed to look for transmissions in a clip.
pub struct ClipSetup {
    pub clip_id: ClipId,
    pub clip_name: String,
    pub fft_size: usize,
    /// The bin that the channel is centered on.
    pub center_bin: usize,
    /// How many bins the channel takes up.
    pub signal_bin_count: usize,
    pub margin_bin_count: usize,
    pub squelch_low: Double,
    pub squelch_high: Double,
    pub reference_time: Double,
    pub period: Double,
    pub iq_sample_rate: Double,
}

impl ClipSetup {
    /// Whether the numbers of bins can be added up.
    pub open spec fn wf(&self) -> bool {
        &&& self.signal_bin_count >= 1
        &&& self.signal_bin_count + 2 * self.margin_bin_count < usize::MAX
        &&& self.center_bin + self.signal_bin_count <= usize::MAX
    }

    /// The first bin of the channel.
    pub open spec fn left_bin(&self) -> int {
        self.center_bin - (dc_bin(self.signal_bin_count + 2 * self.margin_bin_count)
            - self.margin_bin_count)
    }

    /// Whether the channel lies within the clip.
    pub open spec fn in_clip(&self) -> bool {
        0 <= self.left_bin() && self.left_bin() + self.signal_bin_count <= self.fft_size
    }

    /// A processor for the clip.
    pub open spec fn processor(&self) -> ClipProcessor {
        ClipProcessor {
            clip_id: self.clip_id,
            clip_name: self.clip_name,
            bins: ChannelBins {
                fft_size: self.fft_size,
                left_bin: self.left_bin() as usize,
                right_bin: (self.left_bin() + self.signal_bin_count) as usize,
                margin_bin_count: self.margin_bin_count,
            },
            phase: PhaseCorrection { odd_bin: self.center_bin % 2 == 1, counter: false },
            squelch: Squelch {
                low: self.squelch_low,
                high: self.squelch_high,
                active_transmission: None,
            },
            reference_time: self.reference_time,
            period: self.period,
            iq_sample_rate: self.iq_sample_rate,
        }
    }
}

/// Looks for transmissions in a clip.
pub struct ClipProcessor {
    pub clip_id: ClipId,
    pub clip_name: String,
    pub bins: ChannelBins,
    pub phase: PhaseCorrection,
    pub squelch: Squelch,
    pub reference_time: Double,
    pub period: Double,
    pub iq_sample_rate: Double,
}

/// Spectra from which a channel is recovered, and which of them are turned around first.
pub struct PickedChannel<T> {
    pub spectra: Vec<T>,
    pub turned: Vec<bool>,
}

impl ClipProcessor {
    /// A processor for a clip, if the channel lies within it.
    pub fn new(setup: ClipSetup) -> (processor: Option<ClipProcessor>)
        requires
            setup.wf(),
        ensures
            processor == if setup.in_clip() {
                Some(setup.processor())
            } else {
                None
            },
            processor is Some ==> processor->0.bins.wf(),
    {
        match ChannelBins::new(
            setup.fft_size,
            setup.center_bin,
            setup.signal_bin_count,
            setup.margin_bin_count,
        ) {
            Some(bins) => Some(
                ClipProcessor {
                    clip_id: setup.clip_id,
                    clip_name: setup.clip_name,
                    bins,
                    phase: PhaseCorrection::new(setup.center_bin),
                    squelch: Squelch {
                        low: setup.squelch_low,
                        high: setup.squelch_high,
                        active_transmission: None,
                    },
                    reference_time: setup.reference_time,
                    period: setup.period,
                    iq_sample_rate: setup.iq_sample_rate,
                },
            ),
            None => None,
        }
    }

    /// What is told of a transmission that starts at a chunk of the clip.
    pub open spec fn start(&self, index: isize) -> TransmissionStart {
        TransmissionStart {
            clip_id: self.clip_id,
            clip_name: self.clip_name,
            reference_time: self.reference_time,
            start_index: index,
            period: self.period,
            iq_sample_rate: self.iq_sample_rate,
        }
    }

    /// What is told of an outcome at a chunk of the clip.
    pub open spec fn message(&self, outcome: SquelchOutcome, index: isize) -> Option<FmMessage> {
        match outcome {
            SquelchOutcome::Started(transmission_id) => Some(
                FmMessage::StartTransmission { transmission_id, start: self.start(index) },
            ),
            SquelchOutcome::Ended(id) => Some(FmMessage::EndTransmission(id)),
            SquelchOutcome::Silent => None,
            SquelchOutcome::Continued(id) => None,
        }
    }
}

/// What the energy on a channel in a piece of a clip means.
pub struct Decision {
    pub outcome: SquelchOutcome,
    pub message: Option<FmMessage>,
}

/// Looks for transmissions on a channel.
pub struct FmProcessor {
    pub clips: BTreeMap<ClipId, ClipProcessor>,
    pub transmission_id_factory: IdFactory,
}

/// Whether all clips have been set up, and the transmissions that last have different
/// numbers, all of them given out before `next`.
pub open spec fn clips_wf(clips: Map<ClipId, ClipProcessor>, next: nat) -> bool {
    &&& forall|id: ClipId| #[trigger]
        clips.contains_key(id) ==> {
            &&& clips[id].bins.wf()
            &&& clips[id].clip_id == id
            &&& clips[id].squelch.active_transmission is Some
                ==> clips[id].squelch.active_transmission->0 < next
        }
    &&& forall|a: ClipId, b: ClipId| #[trigger]
        clips.contains_key(a) && #[trigger] clips.contains_key(b) && a != b
            && clips[a].squelch.active_transmission is Some
            && clips[b].squelch.active_transmission is Some
            ==> clips[a].squelch.active_transmission != clips[b].squelch.active_transmission
}

impl FmProcessor {
    pub open spec fn wf(&self) -> bool {
        clips_wf(self.clips@, self.transmission_id_factory.next_id())
    }

    /// A processor without clips.
    pub fn new() -> (processor: Self)
        ensures
            processor.wf(),
            processor.clips@ == Map::<ClipId, ClipProcessor>::empty(),
            processor.transmission_id_factory.next_id() == 0,
    {
        FmProcessor {
            clips: BTreeMap::new(),
            transmission_id_factory: IdFactory::default(),
        }
    }

    /// Forgets all clips. Numbers of transmissions are not given out again.
    pub fn reset(&mut self) -> (message: FmMessage)
        requires
            old(self).wf(),
        ensures
            final(self).wf(),
            final(self).clips@ == Map::<ClipId, ClipProcessor>::empty(),
            final(self).transmission_id_factory == old(self).transmission_id_factory,
            message == FmMessage::Reset,
    {
        self.clips.clear();
        FmMessage::Reset
    }

    /// Starts to look for transmissions in a clip, if the channel lies within it.
    pub fn start_clip(&mut self, setup: ClipSetup)
        requires
            old(self).wf(),
            setup.wf(),
            !old(self).clips@.contains_key(setup.clip_id),
        ensures
            final(self).wf(),
            final(self).clips@ == if setup.in_clip() {
                old(self).clips@.insert(setup.clip_id, setup.processor())
            } else {
                old(self).clips@
            },
            final(self).transmission_id_factory == old(self).transmission_id_factory,
    {
        let clip_id: ClipId = setup.clip_id;
        if let Some(processor) = ClipProcessor::new(setup) {
            self.clips.insert(clip_id, processor);
        }
    }

    /// Picks the channel out of the spectra of a piece of a clip, if transmissions are
    /// looked for in that clip.
    pub fn pick<T: Copy>(&mut self, clip_id: ClipId, data: &Vec<T>, zero: T) -> (picked: Option<
        PickedChannel<T>,
    >)
        requires
            old(self).wf(),
        ensures
            final(self).wf(),
            final(self).transmission_id_factory == old(self).transmission_id_factory,
            picked is Some <==> old(self).clips@.contains_key(clip_id),
            picked is None ==> final(self).clips@ == old(self).clips@,
            picked is Some ==> {
                let processor = old(self).clips@[clip_id];
                let fft_count = data@.len() as int / processor.bins.fft_size as int;
                &&& picked->0.spectra@ == processor.bins.all_gathered(data@, zero)
                &&& picked->0.turned@ == Seq::new(
                    fft_count as nat,
                    |k: int| processor.phase.turns(k as nat),
                )
                &&& final(self).clips@ == old(self).clips@.insert(
                    clip_id,
                    ClipProcessor {
                        phase: PhaseCorrection {
                            counter: processor.phase.counter != (fft_count % 2 == 1),
                            ..processor.phase
                        },
                        ..processor
                    },
                )
            },
    {
        let ghost before = self.clips@;
        match self.clips.remove(&clip_id) {
            Some(mut processor) => {
                let spectra: Vec<T> = processor.bins.gather(data, zero);
                let fft_count: usize = data.len() / processor.bins.fft_size;
                let turned: Vec<bool> = processor.phase.next_signs(fft_count);
                let ghost changed = processor;
                self.clips.insert(clip_id, processor);
                assert(self.clips@ =~= before.insert(clip_id, changed));
                Some(PickedChannel { spectra, turned })
            },
            None => {
                assert(self.clips@ =~= before);
                None
            },
        }
    }

    /// Takes up the energy on the channel in a piece of a clip, and decides whether that
    /// is part of a transmission.
    pub fn decide(&mut self, clip_id: ClipId, index: isize, energy: Double) -> (decision: Option<
        Decision,
    >)
        requires
            old(self).wf(),
            old(self).transmission_id_factory.next_id() < usize::MAX,
        ensures
            final(self).wf(),
            decision is Some <==> old(self).clips@.contains_key(clip_id),
            decision is None ==> {
                &&& final(self).clips@ == old(self).clips@
                &&& final(self).transmission_id_factory == old(self).transmission_id_factory
            },
            decision is Some ==> {
                let processor = old(self).clips@[clip_id];
                let next = old(self).transmission_id_factory.next_id();
                let outcome = processor.squelch.outcome(energy, next as usize);
                &&& decision->0.outcome == outcome
                &&& decision->0.message == processor.message(outcome, index)
                &&& final(self).clips@ == old(self).clips@.insert(
                    clip_id,
                    ClipProcessor {
                        squelch: Squelch {
                            active_transmission: Squelch::lasting(outcome),
                            ..processor.squelch
                        },
                        ..processor
                    },
                )
                &&& final(self).transmission_id_factory.next_id() == if outcome is Started {
                    next + 1
                } else {
                    next
                }
            },
            decided(*old(self), clip_id, index, energy, *final(self), decision),
    {
        let ghost before = self.clips@;
        match self.clips.remove(&clip_id) {
            Some(mut processor) => {
                let outcome: SquelchOutcome = processor.squelch.update(
                    energy,
                    &mut self.transmission_id_factory,
                );
                let message: Option<FmMessage> = match outcome {
                    SquelchOutcome::Started(transmission_id) => Some(
                        FmMessage::StartTransmission {
                            transmission_id,
                            start: TransmissionStart {
                                clip_id: processor.clip_id,
                                clip_name: processor.clip_name.clone(),
                                reference_time: processor.reference_time,
                                start_index: index,
                                period: processor.period,
                                iq_sample_rate: processor.iq_sample_rate,
                            },
                        },
                    ),
                    SquelchOutcome::Ended(id) => Some(FmMessage::EndTransmission(id)),
                    SquelchOutcome::Silent => None,
                    SquelchOutcome::Continued(_) => None,
                };
                let ghost changed = processor;
                self.clips.insert(clip_id, processor);
                assert(self.clips@ =~= before.insert(clip_id, changed));
                Some(Decision { outcome, message })
            },
            None => {
                assert(self.clips@ =~= before);
                None
            },
        }
    }

    /// Ends a clip, and with it the transmission in it.
    pub fn end_clip(&mut self, clip_id: ClipId) -> (message: Option<FmMessage>)
        requires
            old(self).wf(),
        ensures
            final(self).wf(),
            final(self).clips@ == old(self).clips@.remove(clip_id),
            final(self).transmission_id_factory == old(self).transmission_id_factory,
            message == if old(self).clips@.contains_key(clip_id) && old(self).clips@[clip_id].squelch.active_transmission is Some {
                Some(
                    FmMessage::EndTransmission(
                        old(self).clips@[clip_id].squelch.active_transmission->0,
                    ),
                )
            } else {
                None
            },
            clip_ended(*old(self), clip_id, *final(self), message),
    {
        match self.clips.remove(&clip_id) {
            Some(mut processor) => match processor.squelch.end_transmission() {
                Some(id) => Some(FmMessage::EndTransmission(id)),
                None => None,
            },
            None => None,
        }
    }
}

/// Whether a processor took up the energy on its channel in a piece of a clip.
pub open spec fn decided(
    before: FmProcessor,
    clip_id: ClipId,
    index: isize,
    energy: Double,
    after: FmProcessor,
    decision: Option<Decision>,
) -> bool {
    &&& decision is Some <==> before.clips@.contains_key(clip_id)
    &&& decision is None ==> after.clips@ == before.clips@ && after.transmission_id_factory
        == before.transmission_id_factory
    &&& decision is Some ==> {
        let processor = before.clips@[clip_id];
        let next = before.transmission_id_factory.next_id();
        let outcome = processor.squelch.outcome(energy, next as usize);
        &&& decision->0.outcome == outcome
        &&& decision->0.message == processor.message(outcome, index)
        &&& after.clips@ == before.clips@.insert(
            clip_id,
            ClipProcessor {
                squelch: Squelch {
                    active_transmission: Squelch::lasting(outcome),
                    ..processor.squelch
                },
                ..processor
            },
        )
        &&& after.transmission_id_factory.next_id() == if outcome is Started {
            next + 1
        } else {
            next
        }
    }
}

/// Whether a clip was ended, and whether that is told.
pub open spec fn clip_ended(
    before: FmProcessor,
    clip_id: ClipId,
    after: FmProcessor,
    message: Option<FmMessage>,
) -> bool {
    &&& after.clips@ == before.clips@.remove(clip_id)
    &&& after.transmission_id_factory == before.transmission_id_factory
    &&& message == if before.clips@.contains_key(clip_id)
        && before.clips@[clip_id].squelch.active_transmission is Some {
        Some(FmMessage::EndTransmission(before.clips@[clip_id].squelch.active_transmission->0))
    } else {
        None
    }
}

/// Whether a transmission lasts in some clip.
pub open spec fn lasts(processor: FmProcessor, id: usize) -> bool {
    exists|clip: ClipId| #[trigger]
        processor.clips@.contains_key(clip)
            && processor.clips@[clip].squelch.active_transmission == Some(id)
}

/// The transmissions after a message, if there is one.
pub open spec fn after_told(
    transmissions: Map<usize, TransmissionModel>,
    message: Option<FmMessage>,
) -> Map<usize, TransmissionModel> {
    match message {
        Some(message) => after_message(transmissions, message),
        None => transmissions,
    }
}

/// Whether a history is in step with a processor: the transmissions that are marked active are
/// those that last, and all of them were given their numbers by the processor.
pub open spec fn in_step(
    processor: FmProcessor,
    transmissions: Map<usize, TransmissionModel>,
) -> bool {
    forall|id: usize| #[trigger]
        transmissions.contains_key(id) ==> id < processor.transmission_id_factory.next_id() && (
        transmissions[id].active <==> lasts(processor, id))
}

/// A transmission that no longer lasts after a decision is told to have ended, and one that has
/// not lasted before is told to have started: in that clip, at that chunk, and with what is known
/// of the clip. Nothing else is told, and other clips stay as they are.
pub proof fn starts_and_ends_are_told(
    before: FmProcessor,
    clip_id: ClipId,
    index: isize,
    energy: Double,
    after: FmProcessor,
    decision: Option<Decision>,
    id: usize,
)
    requires
        before.clips@.contains_key(clip_id),
        before.transmission_id_factory.next_id() < usize::MAX,
        before.wf(),
        decided(before, clip_id, index, energy, after, decision),
    ensures
        decision is Some,
        after.clips@.contains_key(clip_id),
        ({
            let was = before.clips@[clip_id].squelch.active_transmission;
            let is = after.clips@[clip_id].squelch.active_transmission;
            let clip = before.clips@[clip_id];
            let message = decision->0.message;
            &&& was == Some(id) && is != Some(id) ==> message == Some(FmMessage::EndTransmission(id))
                && decision->0.outcome == SquelchOutcome::Ended(id)
            &&& was != Some(id) && is == Some(id) ==> {
                &&& id == before.transmission_id_factory.next_id()
                &&& decision->0.outcome == SquelchOutcome::Started(id)
                &&& message matches Some(FmMessage::StartTransmission { transmission_id, start })
                    && {
                    &&& transmission_id == id
                    &&& start.clip_id == clip_id
                    &&& start.clip_name == clip.clip_name
                    &&& start.start_index == index
                    &&& start.reference_time == clip.reference_time
                    &&& start.period == clip.period
                    &&& start.iq_sample_rate == clip.iq_sample_rate
                }
            }
            &&& was == is ==> message is None
            &&& was == is && was == Some(id) ==> decision->0.outcome == SquelchOutcome::Continued(id)
            &&& was is None && is is None ==> decision->0.outcome is Silent
            &&& was is Some ==> (is == was <==> !energy.below(clip.squelch.low)) && (is is None
                <==> energy.below(clip.squelch.low))
            &&& was is None ==> (is is Some <==> clip.squelch.high.below(energy))
        }),
        forall|other: ClipId| #[trigger]
            before.clips@.contains_key(other) && other != clip_id ==> after.clips@.contains_key(
                other,
            ) && after.clips@[other] == before.clips@[other],
        after.clips@[clip_id].squelch.low == before.clips@[clip_id].squelch.low,
        after.clips@[clip_id].squelch.high == before.clips@[clip_id].squelch.high,
        after.clips@[clip_id].bins == before.clips@[clip_id].bins,
        after.clips@[clip_id].phase == before.clips@[clip_id].phase,
{
}

/// A history that is told of every decision shows the transmissions as active that last, and no
/// others.
pub proof fn decisions_keep_the_history_in_step(
    before: FmProcessor,
    clip_id: ClipId,
    index: isize,
    energy: Double,
    after: FmProcessor,
    decision: Option<Decision>,
    transmissions: Map<usize, TransmissionModel>,
)
    requires
        before.wf(),
        before.transmission_id_factory.next_id() < usize::MAX,
        decided(before, clip_id, index, energy, after, decision),
        in_step(before, transmissions),
    ensures
        in_step(
            after,
            after_told(
                transmissions,
                if decision is Some {
                    decision->0.message
                } else {
                    None
                },
            ),
        ),
{
    let message = if decision is Some {
        decision->0.message
    } else {
        None
    };
    let told = after_told(transmissions, message);
    let next = before.transmission_id_factory.next_id();
    assert forall|id: usize| #[trigger] told.contains_key(id) implies id
        < after.transmission_id_factory.next_id() && (told[id].active <==> lasts(after, id)) by {
        if decision is Some {
            let outcome = decision->0.outcome;
            if transmissions.contains_key(id) && id != next {
                if lasts(before, id) {
                    let clip = choose|clip: ClipId| #[trigger]
                        before.clips@.contains_key(clip)
                            && before.clips@[clip].squelch.active_transmission == Some(id);
                    assert(after.clips@.contains_key(clip));
                    if clip != clip_id {
                        assert(lasts(after, id));
                    } else {
                        assert forall|other: ClipId| #[trigger]
                            after.clips@.contains_key(other) && other
                                != clip_id implies after.clips@[other].squelch.active_transmission
                            != Some(id) by {
                            assert(before.clips@.contains_key(other));
                        }
                    }
                }
                if lasts(after, id) {
                    let clip = choose|clip: ClipId| #[trigger]
                        after.clips@.contains_key(clip)
                            && after.clips@[clip].squelch.active_transmission == Some(id);
                    assert(before.clips@.contains_key(clip));
                    assert(lasts(before, id));
                }
            } else {
                assert(outcome is Started);
                assert(after.clips@.contains_key(clip_id));
                assert(lasts(after, id));
            }
        } else {
            assert(lasts(before, id) <==> lasts(after, id)) by {
                assert(before.clips@ == after.clips@);
            }
        }
    }
}

/// Where a clip ends, so does the transmission in it, and that is told. A history that is told of
/// it stays in step. Other clips stay as they are.
pub proof fn ending_a_clip_ends_its_transmission(
    before: FmProcessor,
    clip_id: ClipId,
    after: FmProcessor,
    message: Option<FmMessage>,
    transmissions: Map<usize, TransmissionModel>,
    id: usize,
)
    requires
        before.wf(),
        clip_ended(before, clip_id, after, message),
        in_step(before, transmissions),
    ensures
        !after.clips@.contains_key(clip_id),
        before.clips@.contains_key(clip_id) && before.clips@[clip_id].squelch.active_transmission
            == Some(id) ==> message == Some(FmMessage::EndTransmission(id)) && !lasts(after, id),
        !before.clips@.contains_key(clip_id)
            || before.clips@[clip_id].squelch.active_transmission is None ==> message is None,
        forall|other: ClipId| #[trigger]
            before.clips@.contains_key(other) && other != clip_id ==> after.clips@.contains_key(
                other,
            ) && after.clips@[other] == before.clips@[other],
        in_step(after, after_told(transmissions, message)),
{
    let told = after_told(transmissions, message);
    if before.clips@.contains_key(clip_id) && before.clips@[clip_id].squelch.active_transmission
        == Some(id) {
        assert forall|other: ClipId| #[trigger]
            after.clips@.contains_key(other) implies after.clips@[other].squelch.active_transmission
            != Some(id) by {
            assert(before.clips@.contains_key(other));
        }
    }
    assert forall|t: usize| #[trigger] told.contains_key(t) implies t
        < after.transmission_id_factory.next_id() && (told[t].active <==> lasts(after, t)) by {
        assert(transmissions.contains_key(t));
        if lasts(before, t) {
            let clip = choose|clip: ClipId| #[trigger]
                before.clips@.contains_key(clip)
                    && before.clips@[clip].squelch.active_transmission == Some(t);
            if clip != clip_id {
                assert(after.clips@.contains_key(clip));
                assert(lasts(after, t));
                if message is Some {
                    assert(before.clips@.contains_key(clip_id));
                }
            } else {
                assert forall|other: ClipId| #[trigger]
                    after.clips@.contains_key(
                        other,
                    ) implies after.clips@[other].squelch.active_transmission != Some(t) by {
                    assert(before.clips@.contains_key(other));
                }
            }
        }
        if lasts(after, t) {
            let clip = choose|clip: ClipId| #[trigger]
                after.clips@.contains_key(clip)
                    && after.clips@[clip].squelch.active_transmission == Some(t);
            assert(before.clips@.contains_key(clip));
            assert(lasts(before, t));
        }
    }
}

/// A clip is set up as it was asked for: no transmission lasts in it, the thresholds are those
/// that were asked for, and the channel takes up as many bins as were asked for, around the bin
/// that it is centered on.
pub proof fn clips_are_set_up_as_asked(setup: ClipSetup)
    requires
        setup.wf(),
        setup.in_clip(),
    ensures
        ({
            let made = setup.processor();
            let half = (setup.signal_bin_count + 2 * setup.margin_bin_count + 1) / 2;
            &&& made.clip_id == setup.clip_id && made.clip_name == setup.clip_name
            &&& made.squelch.active_transmission is None
            &&& made.squelch.low == setup.squelch_low && made.squelch.high == setup.squelch_high
            &&& made.reference_time == setup.reference_time
            &&& made.period == setup.period
            &&& made.iq_sample_rate == setup.iq_sample_rate
            &&& made.bins.fft_size == setup.fft_size
            &&& made.bins.margin_bin_count == setup.margin_bin_count
            &&& made.bins.right_bin - made.bins.left_bin == setup.signal_bin_count
            &&& made.bins.right_bin <= setup.fft_size
            &&& setup.center_bin - made.bins.left_bin == half - setup.margin_bin_count
            &&& made.phase.odd_bin <==> setup.center_bin % 2 == 1
            &&& !made.phase.counter
        }),
{
}

/// A channel lies within a clip exactly where the bins that it takes up are bins of the clip.
pub proof fn channels_lie_within_clips(setup: ClipSetup)
    requires
        setup.wf(),
    ensures
        setup.in_clip() <==> {
            let half = (setup.signal_bin_count + 2 * setup.margin_bin_count + 1) / 2;
            let first = setup.center_bin + setup.margin_bin_count - half;
            0 <= first && first + setup.signal_bin_count <= setup.fft_size
        },
{
}

} // verus!
