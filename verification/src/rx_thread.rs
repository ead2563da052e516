use vstd::prelude::*;

use crate::double::Double;
use crate::hardware::HardwareDeviceRxStreamControlMessage;

verus! {

/// A setting of a device that takes effect at once.
pub enum DeviceSetting {
    Frequency(Double),
    Bandwidth(Double),
    /// The gain with this position among those of the receiver, and its value.
    Gain(usize, Double),
}

/// How reception goes on.
#[derive(Clone, Copy, PartialEq, Eq, Debug, Structural)]
pub enum Reception {
    /// As it is.
    Continue,
    /// As another stream, since the settings have changed.
    NewStream,
    /// After the device has been opened again.
    Reopen,
    /// Not at all.
    Stop,
}

/// A message that is not acted on, because one before it ended reception.
pub open spec fn acted_on(messages: Seq<HardwareDeviceRxStreamControlMessage>) -> Seq<
    HardwareDeviceRxStreamControlMessage,
>
    decreases messages.len(),
{
    if messages.len() == 0 || messages.first() is Shutdown {
        Seq::empty()
    } else {
        seq![messages.first()] + acted_on(messages.drop_first())
    }
}

/// The settings that messages bring about at once, in order.
pub open spec fn settings_of(messages: Seq<HardwareDeviceRxStreamControlMessage>) -> Seq<
    DeviceSetting,
>
    decreases messages.len(),
{
    if messages.len() == 0 {
        Seq::empty()
    } else {
        let before = settings_of(messages.drop_last());
        match messages.last() {
            HardwareDeviceRxStreamControlMessage::SetFrequency(value) => before.push(
                DeviceSetting::Frequency(value),
            ),
            HardwareDeviceRxStreamControlMessage::SetBandwidth(value) => before.push(
                DeviceSetting::Bandwidth(value),
            ),
            HardwareDeviceRxStreamControlMessage::SetGain(gain, value) => before.push(
                DeviceSetting::Gain(gain, value),
            ),
            _ => before,
        }
    }
}

/// The last sample rate in some messages.
pub open spec fn sample_rate_of(
    messages: Seq<HardwareDeviceRxStreamControlMessage>,
    before: Double,
) -> Double
    decreases messages.len(),
{
    if messages.len() == 0 {
        before
    } else {
        match messages.last() {
            HardwareDeviceRxStreamControlMessage::SetSampleRate(value) => value,
            _ => sample_rate_of(messages.drop_last(), before),
        }
    }
}

/// The last frequency in some messages.
pub open spec fn frequency_of(
    messages: Seq<HardwareDeviceRxStreamControlMessage>,
    before: Double,
) -> Double
    decreases messages.len(),
{
    if messages.len() == 0 {
        before
    } else {
        match messages.last() {
            HardwareDeviceRxStreamControlMessage::SetFrequency(value) => value,
            _ => frequency_of(messages.drop_last(), before),
        }
    }
}

/// The last bandwidth in some messages.
pub open spec fn bandwidth_of(
    messages: Seq<HardwareDeviceRxStreamControlMessage>,
    before: Double,
) -> Double
    decreases messages.len(),
{
    if messages.len() == 0 {
        before
    } else {
        match messages.last() {
            HardwareDeviceRxStreamControlMessage::SetBandwidth(value) => value,
            _ => bandwidth_of(messages.drop_last(), before),
        }
    }
}

/// How reception goes on after some messages, none of which ends it.
pub open spec fn reception_after(messages: Seq<HardwareDeviceRxStreamControlMessage>) -> Reception {
    if exists|i: int| 0 <= i < messages.len() && #[trigger] messages[i] is SetSampleRate {
        Reception::Reopen
    } else if messages.len() > 0 {
        Reception::NewStream
    } else {
        Reception::Continue
    }
}

/// What receives a stream: the settings, and how much of a chunk has arrived.
pub struct RxThread {
    pub sample_rate: Double,
    pub frequency: Double,
    pub bandwidth: Double,
    pub buffer_size: usize,
    pub buffer_ix: usize,
}

impl RxThread {
    pub fn new(sample_rate: Double, frequency: Double, bandwidth: Double) -> (thread: Self)
        ensures
            thread == (RxThread {
                sample_rate,
                frequency,
                bandwidth,
                buffer_size: 0,
                buffer_ix: 0,
            }),
    {
        RxThread { sample_rate, frequency, bandwidth, buffer_size: 0, buffer_ix: 0 }
    }

    /// Starts another stream, with chunks of the given size.
    pub fn start_stream(&mut self, buffer_size: usize)
        ensures
            *final(self) == (RxThread { buffer_size, buffer_ix: 0, ..*old(self) }),
    {
        self.buffer_size = buffer_size;
        self.buffer_ix = 0;
    }

    /// Acts on messages, up to one that ends reception. Returns what has to be set at the
    /// device, and how reception goes on.
    pub fn control(&mut self, messages: &Vec<HardwareDeviceRxStreamControlMessage>) -> (outcome: (
        Vec<DeviceSetting>,
        Reception,
    ))
        ensures
            outcome.0@ == settings_of(acted_on(messages@)),
            outcome.1 == if acted_on(messages@).len() < messages@.len() {
                Reception::Stop
            } else {
                reception_after(messages@)
            },
            *final(self) == (RxThread {
                sample_rate: sample_rate_of(acted_on(messages@), old(self).sample_rate),
                frequency: frequency_of(acted_on(messages@), old(self).frequency),
                bandwidth: bandwidth_of(acted_on(messages@), old(self).bandwidth),
                ..*old(self)
            }),
            controlled(*old(self), messages@, *final(self), outcome.0@, outcome.1),
    {
        let mut settings: Vec<DeviceSetting> = Vec::new();
        let mut reopen: bool = false;
        let mut i: usize = 0;
        let ghost all = messages@;
        proof {
            assert(all.take(0) =~= Seq::empty());
            assert(all.skip(0) =~= all);
            assert(all.take(0) + acted_on(all.skip(0)) =~= acted_on(all));
        }
        while i < messages.len()
            invariant
                all == messages@,
                i <= all.len(),
                acted_on(all) == all.take(i as int) + acted_on(all.skip(i as int)),
                forall|k: int| 0 <= k < i ==> !(#[trigger] all[k] is Shutdown),
                reopen == exists|k: int| 0 <= k < i && #[trigger] all[k] is SetSampleRate,
                settings@ == settings_of(all.take(i as int)),
                *self == (RxThread {
                    sample_rate: sample_rate_of(all.take(i as int), old(self).sample_rate),
                    frequency: frequency_of(all.take(i as int), old(self).frequency),
                    bandwidth: bandwidth_of(all.take(i as int), old(self).bandwidth),
                    ..*old(self)
                }),
            decreases messages.len() - i,
        {
            proof {
                let rest = all.skip(i as int);
                assert(all.take(i + 1).drop_last() =~= all.take(i as int));
                assert(all.take(i + 1).last() == all[i as int]);
                assert(rest.drop_first() =~= all.skip(i + 1));
                assert(rest.first() == all[i as int]);
                if !(all[i as int] is Shutdown) {
                    assert(acted_on(rest) =~= seq![all[i as int]] + acted_on(all.skip(i + 1)));
                    assert(acted_on(all) =~= all.take(i + 1) + acted_on(all.skip(i + 1)));
                } else {
                    assert(acted_on(all) =~= all.take(i as int));
                }
            }
            match &messages[i] {
                HardwareDeviceRxStreamControlMessage::SetSampleRate(value) => {
                    self.sample_rate = *value;
                    reopen = true;
                    assert(all[i as int] is SetSampleRate);
                },
                HardwareDeviceRxStreamControlMessage::SetFrequency(value) => {
                    self.frequency = *value;
                    settings.push(DeviceSetting::Frequency(*value));
                },
                HardwareDeviceRxStreamControlMessage::SetBandwidth(value) => {
                    self.bandwidth = *value;
                    settings.push(DeviceSetting::Bandwidth(*value));
                },
                HardwareDeviceRxStreamControlMessage::SetGain(gain, value) => {
                    settings.push(DeviceSetting::Gain(*gain, *value));
                },
                HardwareDeviceRxStreamControlMessage::Shutdown => {
                    return (settings, Reception::Stop);
                },
            }
            i = i + 1;
        }
        proof {
            assert(all.take(all.len() as int) =~= all);
            assert(acted_on(all) =~= all);
        }
        let reception = if reopen {
            Reception::Reopen
        } else if messages.len() > 0 {
            Reception::NewStream
        } else {
            Reception::Continue
        };
        (settings, reception)
    }

    /// Takes note of samples that have arrived. Returns whether a chunk is complete.
    pub fn received(&mut self, len: usize) -> (complete: bool)
        requires
            old(self).buffer_ix + len <= usize::MAX,
        ensures
            complete == (old(self).buffer_ix + len >= old(self).buffer_size),
            *final(self) == (RxThread {
                buffer_ix: if complete {
                    0
                } else {
                    (old(self).buffer_ix + len) as usize
                },
                ..*old(self)
            }),
            was_received(*old(self), len, *final(self), complete),
    {
        self.buffer_ix = self.buffer_ix + len;
        if self.buffer_ix >= self.buffer_size {
            self.buffer_ix = 0;
            true
        } else {
            false
        }
    }
}

/// Nothing that is received goes past the end of a chunk, as long as no more is read than
/// there is room for.
pub proof fn chunks_do_not_overflow(before: RxThread, after: RxThread, len: usize)
    requires
        before.buffer_size > 0,
        before.buffer_ix < before.buffer_size,
        len <= before.buffer_size - before.buffer_ix,
        after == (RxThread {
            buffer_ix: if before.buffer_ix + len >= before.buffer_size {
                0
            } else {
                (before.buffer_ix + len) as usize
            },
            ..before
        }),
    ensures
        after.buffer_ix < after.buffer_size,
        before.buffer_ix + len >= before.buffer_size ==> before.buffer_ix + len
            == before.buffer_size,
{
}

/// Messages are acted on up to the one that says to stop, and all are where none does.
pub proof fn messages_are_acted_on_until_the_stop(
    messages: Seq<HardwareDeviceRxStreamControlMessage>,
    k: int,
)
    ensures
        0 <= k < messages.len() && messages[k] is Shutdown && (forall|j: int|
            0 <= j < k ==> !(#[trigger] messages[j] is Shutdown)) ==> acted_on(messages)
            == messages.take(k),
        (forall|j: int| 0 <= j < messages.len() ==> !(#[trigger] messages[j] is Shutdown))
            ==> acted_on(messages) == messages,
    decreases messages.len(),
{
    if messages.len() > 0 {
        let rest = messages.drop_first();
        messages_are_acted_on_until_the_stop(rest, k - 1);
        assert(forall|j: int| 0 <= j < rest.len() ==> #[trigger] rest[j] == messages[j + 1]);
        if messages.first() is Shutdown {
            assert(messages[0] is Shutdown);
            if k == 0 {
                assert(messages.take(0) =~= Seq::empty());
            }
        } else {
            if 0 < k < messages.len() {
                assert(seq![messages.first()] + rest.take(k - 1) =~= messages.take(k));
            }
            assert(seq![messages.first()] + rest =~= messages);
        }
    }
}

/// Each message about a frequency, a bandwidth or a gain makes one setting of the device, in
/// order, and no other message makes any.
pub proof fn settings_follow_the_messages(
    first: Seq<HardwareDeviceRxStreamControlMessage>,
    second: Seq<HardwareDeviceRxStreamControlMessage>,
    gain: usize,
    value: Double,
)
    ensures
        settings_of(first + second) == settings_of(first) + settings_of(second),
        settings_of(seq![HardwareDeviceRxStreamControlMessage::SetFrequency(value)]) == seq![
            DeviceSetting::Frequency(value),
        ],
        settings_of(seq![HardwareDeviceRxStreamControlMessage::SetBandwidth(value)]) == seq![
            DeviceSetting::Bandwidth(value),
        ],
        settings_of(seq![HardwareDeviceRxStreamControlMessage::SetGain(gain, value)]) == seq![
            DeviceSetting::Gain(gain, value),
        ],
        settings_of(seq![HardwareDeviceRxStreamControlMessage::SetSampleRate(value)]).len() == 0,
        settings_of(seq![HardwareDeviceRxStreamControlMessage::Shutdown]).len() == 0,
    decreases second.len(),
{
    reveal_with_fuel(settings_of, 3);
    if second.len() == 0 {
        assert(first + second =~= first);
        assert(settings_of(first) + settings_of(second) =~= settings_of(first));
    } else {
        settings_follow_the_messages(first, second.drop_last(), gain, value);
        assert((first + second).drop_last() =~= first + second.drop_last());
        assert((first + second).last() == second.last());
        assert(settings_of(first + second) =~= settings_of(first) + settings_of(second));
    }
    let one = seq![HardwareDeviceRxStreamControlMessage::SetFrequency(value)];
    assert(one.drop_last() =~= Seq::empty());
    assert(settings_of(one) =~= seq![DeviceSetting::Frequency(value)]);
    let one = seq![HardwareDeviceRxStreamControlMessage::SetBandwidth(value)];
    assert(one.drop_last() =~= Seq::empty());
    assert(settings_of(one) =~= seq![DeviceSetting::Bandwidth(value)]);
    let one = seq![HardwareDeviceRxStreamControlMessage::SetGain(gain, value)];
    assert(one.drop_last() =~= Seq::empty());
    assert(settings_of(one) =~= seq![DeviceSetting::Gain(gain, value)]);
    let one = seq![HardwareDeviceRxStreamControlMessage::SetSampleRate(value)];
    assert(one.drop_last() =~= Seq::empty());
    let one = seq![HardwareDeviceRxStreamControlMessage::Shutdown];
    assert(one.drop_last() =~= Seq::empty());
}

/// A setting is what the last message about it says, or what it was where there is none.
pub proof fn the_last_message_counts(
    messages: Seq<HardwareDeviceRxStreamControlMessage>,
    before: Double,
    k: int,
)
    ensures
        (forall|j: int| 0 <= j < messages.len() ==> !(#[trigger] messages[j] is SetSampleRate))
            ==> sample_rate_of(messages, before) == before,
        (forall|j: int| 0 <= j < messages.len() ==> !(#[trigger] messages[j] is SetFrequency))
            ==> frequency_of(messages, before) == before,
        (forall|j: int| 0 <= j < messages.len() ==> !(#[trigger] messages[j] is SetBandwidth))
            ==> bandwidth_of(messages, before) == before,
        0 <= k < messages.len() && messages[k] is SetSampleRate && (forall|j: int|
            k < j < messages.len() ==> !(#[trigger] messages[j] is SetSampleRate))
            ==> sample_rate_of(messages, before) == messages[k]->SetSampleRate_0,
        0 <= k < messages.len() && messages[k] is SetFrequency && (forall|j: int|
            k < j < messages.len() ==> !(#[trigger] messages[j] is SetFrequency)) ==> frequency_of(
            messages,
            before,
        ) == messages[k]->SetFrequency_0,
        0 <= k < messages.len() && messages[k] is SetBandwidth && (forall|j: int|
            k < j < messages.len() ==> !(#[trigger] messages[j] is SetBandwidth)) ==> bandwidth_of(
            messages,
            before,
        ) == messages[k]->SetBandwidth_0,
    decreases messages.len(),
{
    if messages.len() > 0 {
        let rest = messages.drop_last();
        assert(messages.last() == messages[messages.len() - 1]);
        assert(forall|j: int| 0 <= j < rest.len() ==> #[trigger] rest[j] == messages[j]);
        the_last_message_counts(rest, before, k);
    }
}

/// Without a message, receiving goes on. Any message begins a new stream, and one about the
/// sample rate opens the device anew.
pub proof fn messages_begin_new_streams(messages: Seq<HardwareDeviceRxStreamControlMessage>, k: int)
    ensures
        reception_after(messages) is Continue <==> messages.len() == 0,
        0 <= k < messages.len() && messages[k] is SetSampleRate ==> reception_after(messages)
            is Reopen,
        messages.len() > 0 && (forall|j: int|
            0 <= j < messages.len() ==> !(#[trigger] messages[j] is SetSampleRate))
            ==> reception_after(messages) is NewStream,
        !(reception_after(messages) is Stop),
{
}

/// Whether what is received is as the messages ask, with the settings to make and how to go on.
pub open spec fn controlled(
    before: RxThread,
    messages: Seq<HardwareDeviceRxStreamControlMessage>,
    after: RxThread,
    settings: Seq<DeviceSetting>,
    reception: Reception,
) -> bool {
    &&& settings == settings_of(acted_on(messages))
    &&& reception == if acted_on(messages).len() < messages.len() {
        Reception::Stop
    } else {
        reception_after(messages)
    }
    &&& after == (RxThread {
        sample_rate: sample_rate_of(acted_on(messages), before.sample_rate),
        frequency: frequency_of(acted_on(messages), before.frequency),
        bandwidth: bandwidth_of(acted_on(messages), before.bandwidth),
        ..before
    })
}

/// Reception stops exactly where a message says so. It goes on as it was exactly where there is
/// none, and the device is opened anew where the sample rate changes before any stop. The last
/// frequency, bandwidth and sample rate that were asked for before the stop are then set, and
/// the chunk that is being filled stays as it is.
pub proof fn reception_follows_the_messages(
    before: RxThread,
    messages: Seq<HardwareDeviceRxStreamControlMessage>,
    after: RxThread,
    settings: Seq<DeviceSetting>,
    reception: Reception,
    k: int,
)
    requires
        controlled(before, messages, after, settings, reception),
    ensures
        reception is Stop <==> exists|j: int|
            0 <= j < messages.len() && #[trigger] messages[j] is Shutdown,
        reception is Continue <==> messages.len() == 0,
        0 <= k < messages.len() && messages[k] is SetSampleRate ==> reception is Reopen
            || reception is Stop,
        reception is Reopen ==> exists|j: int|
            0 <= j < messages.len() && #[trigger] messages[j] is SetSampleRate,
        after.buffer_size == before.buffer_size && after.buffer_ix == before.buffer_ix,
        messages.len() == 0 ==> after == before && settings.len() == 0,
        !(reception is Stop) && 0 <= k < messages.len() && messages[k] is SetFrequency && (forall|
            j: int,
        |
            k < j < messages.len() ==> !(#[trigger] messages[j] is SetFrequency))
            ==> after.frequency == messages[k]->SetFrequency_0,
        !(reception is Stop) && 0 <= k < messages.len() && messages[k] is SetBandwidth && (forall|
            j: int,
        |
            k < j < messages.len() ==> !(#[trigger] messages[j] is SetBandwidth))
            ==> after.bandwidth == messages[k]->SetBandwidth_0,
        !(reception is Stop) && 0 <= k < messages.len() && messages[k] is SetSampleRate && (forall|
            j: int,
        |
            k < j < messages.len() ==> !(#[trigger] messages[j] is SetSampleRate))
            ==> after.sample_rate == messages[k]->SetSampleRate_0,
        !(reception is Stop) && (forall|j: int|
            0 <= j < messages.len() ==> !(#[trigger] messages[j] is SetFrequency))
            ==> after.frequency == before.frequency,
        !(reception is Stop) && (forall|j: int|
            0 <= j < messages.len() ==> !(#[trigger] messages[j] is SetBandwidth))
            ==> after.bandwidth == before.bandwidth,
        !(reception is Stop) && (forall|j: int|
            0 <= j < messages.len() ==> !(#[trigger] messages[j] is SetSampleRate))
            ==> after.sample_rate == before.sample_rate,
{
    messages_begin_new_streams(messages, k);
    the_stop_ends_what_is_acted_on(messages);
    messages_are_acted_on_until_the_stop(messages, 0);
    if !(reception is Stop) {
        the_last_message_counts(messages, before.sample_rate, k);
        the_last_message_counts(messages, before.frequency, k);
        the_last_message_counts(messages, before.bandwidth, k);
    }
}

/// Fewer messages than there are are acted on exactly where one says to stop.
proof fn the_stop_ends_what_is_acted_on(messages: Seq<HardwareDeviceRxStreamControlMessage>)
    ensures
        acted_on(messages).len() <= messages.len(),
        acted_on(messages).len() < messages.len() <==> exists|j: int|
            0 <= j < messages.len() && #[trigger] messages[j] is Shutdown,
    decreases messages.len(),
{
    if messages.len() > 0 {
        let rest = messages.drop_first();
        the_stop_ends_what_is_acted_on(rest);
        if messages.first() is Shutdown {
            assert(messages[0] is Shutdown);
        } else {
            if exists|j: int| 0 <= j < messages.len() && #[trigger] messages[j] is Shutdown {
                let j = choose|j: int| 0 <= j < messages.len() && #[trigger] messages[j] is Shutdown;
                assert(rest[j - 1] is Shutdown);
            }
            if exists|j: int| 0 <= j < rest.len() && #[trigger] rest[j] is Shutdown {
                let j = choose|j: int| 0 <= j < rest.len() && #[trigger] rest[j] is Shutdown;
                assert(messages[j + 1] is Shutdown);
            }
        }
    }
}

/// Whether samples were taken into the chunk that is being filled.
pub open spec fn was_received(before: RxThread, len: usize, after: RxThread, complete: bool) -> bool {
    &&& complete == (before.buffer_ix + len >= before.buffer_size)
    &&& after == (RxThread {
        buffer_ix: if complete {
            0
        } else {
            (before.buffer_ix + len) as usize
        },
        ..before
    })
}

/// A chunk is complete exactly when as many samples as it holds have come, and the next one then
/// begins. No sample is counted twice, and none is left out.
pub proof fn chunks_are_filled(before: RxThread, len: usize, after: RxThread, complete: bool)
    requires
        before.buffer_ix < before.buffer_size,
        len <= before.buffer_size - before.buffer_ix,
        was_received(before, len, after, complete),
    ensures
        complete <==> len == before.buffer_size - before.buffer_ix,
        before.buffer_ix + len == after.buffer_ix + if complete {
            before.buffer_size as int
        } else {
            0
        },
        after.buffer_ix < after.buffer_size,
        after.buffer_size == before.buffer_size,
        after.sample_rate == before.sample_rate,
        after.frequency == before.frequency,
        after.bandwidth == before.bandwidth,
{
}

} // verus!
