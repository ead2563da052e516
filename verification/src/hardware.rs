
use vstd::prelude::*;

use crate::double::Double;
use crate::rx_channel::{choose_value, chosen_value};

verus! {

/// Whether something is in use, and with what. Before it is out of use, it is shut down.
pub enum HardwareState<T> {
    Inactive,
    Active(T),
    ShuttingDown(T),
}

impl<T> HardwareState<T> {
    /// Goes from active to shutting down.
    pub fn shutdown(&mut self)
        requires
            *old(self) is Active,
        ensures
            *final(self) == HardwareState::ShuttingDown((*old(self))->Active_0),
    {
        let mut state = HardwareState::Inactive;
        std::mem::swap(self, &mut state);
        if let HardwareState::Active(value) = state {
            *self = HardwareState::ShuttingDown(value);
        }
    }

    /// Goes from shutting down to inactive.
    pub fn deactivate(&mut self) -> (value: T)
        requires
            *old(self) is ShuttingDown,
        ensures
            value == (*old(self))->ShuttingDown_0,
            *final(self) == HardwareState::<T>::Inactive,
    {
        let mut state = HardwareState::Inactive;
        std::mem::swap(self, &mut state);
        match state {
            HardwareState::ShuttingDown(value) => value,
            HardwareState::Active(value) => value,
            HardwareState::Inactive => vstd::pervasive::unreached(),
        }
    }

    pub fn as_ref(&self) -> (state: HardwareState<&T>)
        ensures
            state == match *self {
                HardwareState::Inactive => HardwareState::Inactive,
                HardwareState::Active(value) => HardwareState::Active(&value),
                HardwareState::ShuttingDown(value) => HardwareState::ShuttingDown(&value),
            },
    {
        match self {
            HardwareState::Inactive => HardwareState::Inactive,
            HardwareState::Active(value) => HardwareState::Active(value),
            HardwareState::ShuttingDown(value) => HardwareState::ShuttingDown(value),
        }
    }

    pub fn as_mut(&mut self) -> (state: HardwareState<&mut T>)
        ensures
            match (*old(self), state) {
                (HardwareState::Inactive, HardwareState::Inactive) => *final(self)
                    == HardwareState::<T>::Inactive,
                (HardwareState::Active(before), HardwareState::Active(value)) => *value == before
                    && *final(self) == HardwareState::Active(*final(value)),
                (
                    HardwareState::ShuttingDown(before),
                    HardwareState::ShuttingDown(value),
                ) => *value == before && *final(self) == HardwareState::ShuttingDown(*final(value)),
                (_, _) => false,
            },
    {
        match self {
            HardwareState::Inactive => HardwareState::Inactive,
            HardwareState::Active(value) => HardwareState::Active(value),
            HardwareState::ShuttingDown(value) => HardwareState::ShuttingDown(value),
        }
    }

    /// What it is in use with, if it is.
    pub fn active(self) -> (value: Option<T>)
        ensures
            value == match self {
                HardwareState::Active(value) => Some(value),
                _ => None,
            },
    {
        if let HardwareState::Active(value) = self {
            Some(value)
        } else {
            None
        }
    }
}

/// A gain of a receiver, as it is set, and what it can be set to.
pub struct HardwareGain {
    pub name: String,
    pub value: Double,
    pub min: Double,
    pub max: Double,
}

/// A gain of a receiver, as it is wanted, and what it can be set to.
pub struct GainParams {
    pub name: String,
    pub value: Double,
    pub min: Double,
    pub max: Double,
}

/// How a stream is wanted to be received. What is not given is left as it is.
pub struct HardwareDeviceRxStreamParams {
    pub active: bool,
    pub sample_rate: Option<Double>,
    pub frequency: Option<Double>,
    pub bandwidth: Option<Double>,
    pub gains: Vec<GainParams>,
    pub limits: StreamLimits,
}

/// What the settings of a stream can be.
#[derive(Clone, Copy, Debug)]
pub struct StreamLimits {
    pub sample_rate_min: Double,
    pub sample_rate_max: Double,
    pub frequency_min: Double,
    pub frequency_max: Double,
    pub bandwidth_min: Double,
    pub bandwidth_max: Double,
}

/// What a stream that is received is told.
pub enum HardwareDeviceRxStreamControlMessage {
    SetSampleRate(Double),
    SetFrequency(Double),
    SetBandwidth(Double),
    /// The gain with this position among those of the receiver, and its value.
    SetGain(usize, Double),
    Shutdown,
}

/// What has to be done for a stream before its settings are taken up.
pub enum RxTransition<A> {
    Nothing,
    /// Reception has to be started. What receives is then handed to
    /// [`HardwareDeviceRxStream::activate`].
    Start,
    /// What receives has to be told to shut down.
    Shutdown,
    /// What received has ended by itself.
    Failed(A),
    /// What received has been shut down.
    Ended(A),
}

/// The settings that are possible and come closest to those that are wanted.
pub struct SnappedParams {
    pub sample_rate: Double,
    pub frequency: Double,
    pub bandwidth: Double,
    /// For each gain of the receiver.
    pub gains: Vec<Double>,
}

/// A stream of a device. `A` is what receives it while it is active.
pub struct HardwareDeviceRxStream<A> {
    pub active: HardwareState<A>,
    pub limits: StreamLimits,
    pub sample_rate: Double,
    pub frequency: Double,
    pub bandwidth: Double,
    pub gains: Vec<HardwareGain>,
}

/// The first wanted gain with a name.
pub open spec fn wanted_gain(gains: Seq<GainParams>, name: Seq<char>) -> Option<Double>
    decreases gains.len(),
{
    if gains.len() == 0 {
        None
    } else if gains.first().name@ == name {
        Some(gains.first().value)
    } else {
        wanted_gain(gains.drop_first(), name)
    }
}

/// The first wanted gain with a name.
fn find_gain(gains: &Vec<GainParams>, name: &String) -> (value: Option<Double>)
    ensures
        value == wanted_gain(gains@, name@),
{
    let mut i: usize = 0;
    assert(gains@.skip(0) =~= gains@);
    while i < gains.len()
        invariant
            i <= gains@.len(),
            wanted_gain(gains@, name@) == wanted_gain(gains@.skip(i as int), name@),
        decreases gains.len() - i,
    {
        if gains[i].name == *name {
            return Some(gains[i].value);
        }
        assert(gains@.skip(i as int).drop_first() =~= gains@.skip(i + 1));
        i = i + 1;
    }
    None
}

/// The value that a gain gets: the wanted one, or the closest possible one, or, where
/// none is wanted, the one that it has.
pub open spec fn gain_value(gain: HardwareGain, wanted: Option<Double>, snapped: Double) -> Double {
    match wanted {
        Some(value) => chosen_value(gain.value, value, snapped),
        None => gain.value,
    }
}

/// The value that a setting gets: the wanted one, or the closest possible one, or, where
/// none is wanted, the one that it has.
pub open spec fn setting_value(set: Double, wanted: Option<Double>, snapped: Double) -> Double {
    chosen_value(
        set,
        match wanted {
            Some(value) => value,
            None => set,
        },
        snapped,
    )
}

/// What a setting is after it was taken up: the new value, unless it is the same number.
pub open spec fn after_setting(set: Double, value: Double) -> Double {
    if value.same(set) {
        set
    } else {
        value
    }
}

fn take_up_setting(set: Double, wanted: Option<Double>, snapped: Double) -> (value: Double)
    ensures
        value == setting_value(set, wanted, snapped),
{
    choose_value(
        set,
        match wanted {
            Some(value) => value,
            None => set,
        },
        snapped,
    )
}

/// The messages about gains whose values change, for the first `count` gains.
pub open spec fn gain_messages(
    gains: Seq<HardwareGain>,
    wanted: Seq<GainParams>,
    snapped: Seq<Double>,
    count: int,
) -> Seq<HardwareDeviceRxStreamControlMessage>
    decreases count,
{
    if count <= 0 {
        Seq::empty()
    } else {
        let i = count - 1;
        let value = gain_value(gains[i], wanted_gain(wanted, gains[i].name@), snapped[i]);
        let before = gain_messages(gains, wanted, snapped, i);
        if wanted_gain(wanted, gains[i].name@) is Some && !value.same(gains[i].value) {
            before.push(HardwareDeviceRxStreamControlMessage::SetGain(i as usize, value))
        } else {
            before
        }
    }
}

/// A message, where a value changes.
pub open spec fn message_if(
    changed: bool,
    message: HardwareDeviceRxStreamControlMessage,
) -> Seq<HardwareDeviceRxStreamControlMessage> {
    if changed {
        seq![message]
    } else {
        Seq::empty()
    }
}

impl<A> HardwareDeviceRxStream<A> {
    /// A stream that is not active, with the settings that the device has.
    pub fn new(
        limits: StreamLimits,
        sample_rate: Double,
        frequency: Double,
        bandwidth: Double,
        gains: Vec<HardwareGain>,
    ) -> (stream: Self)
        ensures
            stream == (HardwareDeviceRxStream {
                active: HardwareState::<A>::Inactive,
                limits,
                sample_rate,
                frequency,
                bandwidth,
                gains,
            }),
    {
        HardwareDeviceRxStream {
            active: HardwareState::Inactive,
            limits,
            sample_rate,
            frequency,
            bandwidth,
            gains,
        }
    }

    /// Starts, shuts down or ends reception. A stream is received while it is wanted and
    /// the hardware runs. `finished` says whether what receives it has ended.
    pub fn transition(&mut self, active: bool, run: bool, finished: bool) -> (transition: RxTransition<
        A,
    >)
        ensures
            match old(self).active {
                HardwareState::Inactive => {
                    &&& final(self).active == HardwareState::<A>::Inactive
                    &&& transition == if active && run {
                        RxTransition::<A>::Start
                    } else {
                        RxTransition::<A>::Nothing
                    }
                },
                HardwareState::Active(receiver) => if !(active && run) {
                    &&& final(self).active == HardwareState::ShuttingDown(receiver)
                    &&& transition == RxTransition::<A>::Shutdown
                } else if finished {
                    &&& final(self).active == HardwareState::<A>::Inactive
                    &&& transition == RxTransition::Failed(receiver)
                } else {
                    &&& final(self).active == old(self).active
                    &&& transition == RxTransition::<A>::Nothing
                },
                HardwareState::ShuttingDown(receiver) => if finished {
                    &&& final(self).active == HardwareState::<A>::Inactive
                    &&& transition == RxTransition::Ended(receiver)
                } else {
                    &&& final(self).active == old(self).active
                    &&& transition == RxTransition::<A>::Nothing
                },
            },
            final(self).limits == old(self).limits,
            final(self).sample_rate == old(self).sample_rate,
            final(self).frequency == old(self).frequency,
            final(self).bandwidth == old(self).bandwidth,
            final(self).gains == old(self).gains,
            stream_moved(
                old(self).active,
                active,
                run,
                finished,
                final(self).active,
                transition,
            ),
    {
        let should_be_active: bool = active && run;
        match &self.active {
            HardwareState::Inactive => {
                if should_be_active {
                    RxTransition::Start
                } else {
                    RxTransition::Nothing
                }
            },
            HardwareState::Active(_) => {
                if !should_be_active {
                    self.active.shutdown();
                    RxTransition::Shutdown
                } else if finished {
                    self.active.shutdown();
                    RxTransition::Failed(self.active.deactivate())
                } else {
                    RxTransition::Nothing
                }
            },
            HardwareState::ShuttingDown(_) => {
                if finished {
                    RxTransition::Ended(self.active.deactivate())
                } else {
                    RxTransition::Nothing
                }
            },
        }
    }

    /// Hands over what receives the stream.
    pub fn activate(&mut self, receiver: A)
        requires
            old(self).active is Inactive,
        ensures
            *final(self) == (HardwareDeviceRxStream {
                active: HardwareState::Active(receiver),
                ..*old(self)
            }),
    {
        self.active = HardwareState::Active(receiver);
    }

    /// The gains that are wanted of those that the receiver has.
    pub fn wanted_gains(&self, params: &HardwareDeviceRxStreamParams) -> (wanted: Vec<Option<Double>>)
        ensures
            wanted@.len() == self.gains@.len(),
            forall|i: int|
                0 <= i < wanted@.len() ==> #[trigger] wanted@[i] == wanted_gain(
                    params.gains@,
                    self.gains@[i].name@,
                ),
    {
        let mut wanted: Vec<Option<Double>> = Vec::new();
        for i in 0..self.gains.len()
            invariant
                wanted@.len() == i,
                forall|k: int|
                    0 <= k < i ==> #[trigger] wanted@[k] == wanted_gain(
                        params.gains@,
                        self.gains@[k].name@,
                    ),
        {
            wanted.push(find_gain(&params.gains, &self.gains[i].name));
        }
        wanted
    }

    /// Takes up the settings that are wanted, brings `params` in line with what is set, and
    /// returns what the receiver has to be told. Only an active one is told anything.
    pub fn take_up(
        &mut self,
        params: &mut HardwareDeviceRxStreamParams,
        run: bool,
        snapped: &SnappedParams,
    ) -> (messages: Vec<HardwareDeviceRxStreamControlMessage>)
        requires
            snapped.gains@.len() == old(self).gains@.len(),
        ensures
            ({
                let sample_rate = setting_value(
                    old(self).sample_rate,
                    old(params).sample_rate,
                    snapped.sample_rate,
                );
                let frequency = setting_value(
                    old(self).frequency,
                    old(params).frequency,
                    snapped.frequency,
                );
                let bandwidth = setting_value(
                    old(self).bandwidth,
                    old(params).bandwidth,
                    snapped.bandwidth,
                );
                &&& final(params).sample_rate == Some(sample_rate)
                &&& final(params).frequency == Some(frequency)
                &&& final(params).bandwidth == Some(bandwidth)
                &&& final(self).sample_rate == after_setting(old(self).sample_rate, sample_rate)
                &&& final(self).frequency == after_setting(old(self).frequency, frequency)
                &&& final(self).bandwidth == after_setting(old(self).bandwidth, bandwidth)
                &&& messages@ == if old(self).active is Active {
                    message_if(
                        !sample_rate.same(old(self).sample_rate),
                        HardwareDeviceRxStreamControlMessage::SetSampleRate(sample_rate),
                    ) + message_if(
                        !frequency.same(old(self).frequency),
                        HardwareDeviceRxStreamControlMessage::SetFrequency(frequency),
                    ) + message_if(
                        !bandwidth.same(old(self).bandwidth),
                        HardwareDeviceRxStreamControlMessage::SetBandwidth(bandwidth),
                    ) + gain_messages(
                        old(self).gains@,
                        old(params).gains@,
                        snapped.gains@,
                        old(self).gains@.len() as int,
                    )
                } else {
                    Seq::empty()
                }
            }),
            final(params).active == (old(params).active && !(run && old(self).active is ShuttingDown)),
            final(params).limits == old(self).limits,
            final(params).gains@.len() == old(self).gains@.len(),
            forall|i: int|
                0 <= i < final(params).gains@.len() ==> {
                    let gain = old(self).gains@[i];
                    let now = #[trigger] final(params).gains@[i];
                    &&& now.name@ == gain.name@
                    &&& now.value == gain_value(
                        gain,
                        wanted_gain(old(params).gains@, gain.name@),
                        snapped.gains@[i],
                    )
                    &&& now.min == gain.min
                    &&& now.max == gain.max
                },
            final(self).gains@.len() == old(self).gains@.len(),
            forall|i: int|
                0 <= i < final(self).gains@.len() ==> {
                    let gain = old(self).gains@[i];
                    let now = #[trigger] final(self).gains@[i];
                    &&& now.name@ == gain.name@
                    &&& now.value == after_setting(gain.value, final(params).gains@[i].value)
                    &&& now.min == gain.min
                    &&& now.max == gain.max
                },
            final(self).active == old(self).active,
            final(self).limits == old(self).limits,
            took_up_settings(
                *old(self),
                *old(params),
                *snapped,
                *final(self),
                *final(params),
                messages@,
            ),
    {
        let is_active: bool = matches!(self.active, HardwareState::Active(_));
        let shutting_down: bool = matches!(self.active, HardwareState::ShuttingDown(_));
        let mut messages: Vec<HardwareDeviceRxStreamControlMessage> = Vec::new();
        params.limits = self.limits;
        if shutting_down && run {
            // Reception cannot be started again before it has ended.
            params.active = false;
        }
        let sample_rate = take_up_setting(self.sample_rate, params.sample_rate, snapped.sample_rate);
        let frequency = take_up_setting(self.frequency, params.frequency, snapped.frequency);
        let bandwidth = take_up_setting(self.bandwidth, params.bandwidth, snapped.bandwidth);
        params.sample_rate = Some(sample_rate);
        params.frequency = Some(frequency);
        params.bandwidth = Some(bandwidth);
        let ghost nothing: Seq<HardwareDeviceRxStreamControlMessage> = Seq::empty();
        if !sample_rate.eq(self.sample_rate) {
            self.sample_rate = sample_rate;
            if is_active {
                messages.push(HardwareDeviceRxStreamControlMessage::SetSampleRate(sample_rate));
            }
        }
        if !frequency.eq(self.frequency) {
            self.frequency = frequency;
            if is_active {
                messages.push(HardwareDeviceRxStreamControlMessage::SetFrequency(frequency));
            }
        }
        if !bandwidth.eq(self.bandwidth) {
            self.bandwidth = bandwidth;
            if is_active {
                messages.push(HardwareDeviceRxStreamControlMessage::SetBandwidth(bandwidth));
            }
        }
        let ghost first = messages@;
        proof {
            let expected = message_if(
                !sample_rate.same(old(self).sample_rate),
                HardwareDeviceRxStreamControlMessage::SetSampleRate(sample_rate),
            ) + message_if(
                !frequency.same(old(self).frequency),
                HardwareDeviceRxStreamControlMessage::SetFrequency(frequency),
            ) + message_if(
                !bandwidth.same(old(self).bandwidth),
                HardwareDeviceRxStreamControlMessage::SetBandwidth(bandwidth),
            );
            if is_active {
                assert(first =~= expected);
            } else {
                assert(first =~= nothing);
            }
        }
        let ghost before = self.gains@;
        let ghost wanted = params.gains@;
        let mut gains: Vec<HardwareGain> = Vec::new();
        let mut gain_params: Vec<GainParams> = Vec::new();
        for i in 0..self.gains.len()
            invariant
                self.gains@ == before,
                params.gains@ == wanted,
                snapped.gains@.len() == before.len(),
                gains@.len() == i,
                gain_params@.len() == i,
                messages@ == if is_active {
                    first + gain_messages(before, wanted, snapped.gains@, i as int)
                } else {
                    first
                },
                forall|k: int|
                    0 <= k < i ==> {
                        let gain = before[k];
                        let now = #[trigger] gain_params@[k];
                        &&& now.name@ == gain.name@
                        &&& now.value == gain_value(
                            gain,
                            wanted_gain(wanted, gain.name@),
                            snapped.gains@[k],
                        )
                        &&& now.min == gain.min
                        &&& now.max == gain.max
                    },
                forall|k: int|
                    0 <= k < i ==> {
                        let gain = before[k];
                        let now = #[trigger] gains@[k];
                        &&& now.name@ == gain.name@
                        &&& now.value == after_setting(gain.value, gain_params@[k].value)
                        &&& now.min == gain.min
                        &&& now.max == gain.max
                    },
        {
            let gain = &self.gains[i];
            let mut set: Double = gain.value;
            let value: Double = match find_gain(&params.gains, &gain.name) {
                Some(wanted_value) => {
                    let value = choose_value(gain.value, wanted_value, snapped.gains[i]);
                    if !value.eq(gain.value) {
                        set = value;
                        if is_active {
                            messages.push(HardwareDeviceRxStreamControlMessage::SetGain(i, value));
                        }
                    }
                    value
                },
                None => gain.value,
            };
            gain_params.push(
                GainParams { name: gain.name.clone(), value, min: gain.min, max: gain.max },
            );
            gains.push(
                HardwareGain { name: gain.name.clone(), value: set, min: gain.min, max: gain.max },
            );
            proof {
                if is_active {
                    assert(messages@ =~= first + gain_messages(
                        before,
                        wanted,
                        snapped.gains@,
                        i + 1,
                    ));
                }
            }
        }
        self.gains = gains;
        params.gains = gain_params;
        messages
    }
}

/// How a stream is wanted to be sent.
#[derive(Clone, Copy, Debug)]
pub struct HardwareDeviceTxStreamParams {
    pub active: bool,
    pub sample_rate: Double,
    pub frequency: Double,
    pub bandwidth: Double,
}

/// Zero.
pub const ZERO_BITS: u64 = 0;

impl Default for HardwareDeviceTxStreamParams {
    fn default() -> (params: Self)
        ensures
            unused(params),
    {
        let zero = Double::from_bits(ZERO_BITS);
        HardwareDeviceTxStreamParams {
            active: false,
            sample_rate: zero,
            frequency: zero,
            bandwidth: zero,
        }
    }
}

/// Whether a stream is wanted to be received, with nothing else said.
pub open spec fn unspecified(params: HardwareDeviceRxStreamParams) -> bool {
    &&& params.active
    &&& params.sample_rate is None
    &&& params.frequency is None
    &&& params.bandwidth is None
    &&& params.gains@.len() == 0
    &&& no_limits(params.limits)
}

/// Whether all limits are zero.
pub open spec fn no_limits(limits: StreamLimits) -> bool {
    &&& limits.sample_rate_min@ == ZERO_BITS
    &&& limits.sample_rate_max@ == ZERO_BITS
    &&& limits.frequency_min@ == ZERO_BITS
    &&& limits.frequency_max@ == ZERO_BITS
    &&& limits.bandwidth_min@ == ZERO_BITS
    &&& limits.bandwidth_max@ == ZERO_BITS
}

/// Whether a stream is not wanted to be sent, and all its settings are zero.
pub open spec fn unused(params: HardwareDeviceTxStreamParams) -> bool {
    &&& !params.active
    &&& params.sample_rate@ == ZERO_BITS
    &&& params.frequency@ == ZERO_BITS
    &&& params.bandwidth@ == ZERO_BITS
}

impl Default for HardwareDeviceRxStreamParams {
    fn default() -> (params: Self)
        ensures
            unspecified(params),
    {
        let zero = Double::from_bits(ZERO_BITS);
        HardwareDeviceRxStreamParams {
            active: true,
            sample_rate: None,
            frequency: None,
            bandwidth: None,
            gains: Vec::new(),
            limits: StreamLimits {
                sample_rate_min: zero,
                sample_rate_max: zero,
                frequency_min: zero,
                frequency_max: zero,
                bandwidth_min: zero,
                bandwidth_max: zero,
            },
        }
    }
}

/// How a device is wanted to be used.
pub struct HardwareDeviceParams {
    pub active: bool,
    pub rx_streams: Vec<HardwareDeviceRxStreamParams>,
    pub tx_streams: Vec<HardwareDeviceTxStreamParams>,
}

impl Default for HardwareDeviceParams {
    fn default() -> (params: Self)
        ensures
            params.active,
            params.rx_streams@.len() == 0,
            params.tx_streams@.len() == 0,
    {
        HardwareDeviceParams { active: true, rx_streams: Vec::new(), tx_streams: Vec::new() }
    }
}

/// What has to be done for a device before its settings are taken up.
#[derive(Clone, Copy, PartialEq, Eq, Debug, Structural)]
pub enum DeviceTransition {
    Nothing,
    /// The device has to be opened. What it has is then handed to
    /// [`HardwareDevice::opened`].
    Open,
    /// The device can be closed.
    Close,
}

/// How many streams a device has.
#[derive(Clone, Copy, PartialEq, Eq, Debug, Structural)]
pub struct ActiveHardwareDevice {
    pub rx_streams: usize,
    pub tx_streams: usize,
}

/// A device, and its streams while it is in use.
pub struct HardwareDevice {
    pub active: HardwareState<ActiveHardwareDevice>,
}

impl HardwareDevice {
    pub fn new() -> (device: Self)
        ensures
            device.active is Inactive,
    {
        HardwareDevice { active: HardwareState::Inactive }
    }

    /// Opens, shuts down or closes the device. It is closed once all its streams have
    /// ended.
    pub fn transition(&mut self, active: bool, streams_ended: bool) -> (transition: DeviceTransition)
        ensures
            match old(self).active {
                HardwareState::Inactive => {
                    &&& *final(self) == *old(self)
                    &&& transition == if active {
                        DeviceTransition::Open
                    } else {
                        DeviceTransition::Nothing
                    }
                },
                HardwareState::Active(streams) => {
                    &&& transition == DeviceTransition::Nothing
                    &&& final(self).active == if active {
                        HardwareState::Active(streams)
                    } else {
                        HardwareState::ShuttingDown(streams)
                    }
                },
                HardwareState::ShuttingDown(streams) => if streams_ended {
                    &&& transition == DeviceTransition::Close
                    &&& final(self).active == HardwareState::<ActiveHardwareDevice>::Inactive
                } else {
                    &&& transition == DeviceTransition::Nothing
                    &&& *final(self) == *old(self)
                },
            },
            device_moved(
                old(self).active,
                active,
                streams_ended,
                final(self).active,
                transition,
            ),
    {
        match &self.active {
            HardwareState::Inactive => {
                if active {
                    DeviceTransition::Open
                } else {
                    DeviceTransition::Nothing
                }
            },
            HardwareState::Active(_) => {
                if !active {
                    self.active.shutdown();
                }
                DeviceTransition::Nothing
            },
            HardwareState::ShuttingDown(_) => {
                if streams_ended {
                    self.active.deactivate();
                    DeviceTransition::Close
                } else {
                    DeviceTransition::Nothing
                }
            },
        }
    }

    /// Hands over what a device has that was opened.
    pub fn opened(&mut self, streams: ActiveHardwareDevice)
        requires
            old(self).active is Inactive,
        ensures
            final(self).active == HardwareState::Active(streams),
    {
        self.active = HardwareState::Active(streams);
    }

    /// Brings `params` in line with the streams that the device has. Where there are too
    /// few, some are added, and where there are too many, the last ones are dropped. While
    /// the device is shutting down, nothing is wanted to be active.
    pub fn sync_params(&self, params: &mut HardwareDeviceParams)
        ensures
            match self.active {
                HardwareState::Inactive => {
                    &&& final(params).active == old(params).active
                    &&& final(params).rx_streams@.len() == 0
                    &&& final(params).tx_streams@.len() == 0
                },
                HardwareState::Active(streams) => {
                    &&& final(params).active == old(params).active
                    &&& final(params).rx_streams@.len() == streams.rx_streams
                    &&& final(params).tx_streams@.len() == streams.tx_streams
                    &&& forall|i: int|
                        0 <= i < streams.rx_streams ==> if i < old(params).rx_streams@.len() {
                            #[trigger] final(params).rx_streams@[i] == old(params).rx_streams@[i]
                        } else {
                            unspecified(final(params).rx_streams@[i])
                        }
                    &&& forall|i: int|
                        0 <= i < streams.tx_streams ==> if i < old(params).tx_streams@.len() {
                            #[trigger] final(params).tx_streams@[i] == old(params).tx_streams@[i]
                        } else {
                            unused(final(params).tx_streams@[i])
                        }
                },
                HardwareState::ShuttingDown(streams) => {
                    &&& !final(params).active
                    &&& final(params).rx_streams@.len() == streams.rx_streams
                    &&& final(params).tx_streams@.len() == streams.tx_streams
                    &&& forall|i: int|
                        0 <= i < streams.rx_streams ==> {
                            let now = #[trigger] final(params).rx_streams@[i];
                            &&& !now.active
                            &&& if i < old(params).rx_streams@.len() {
                                now == (HardwareDeviceRxStreamParams {
                                    active: false,
                                    ..old(params).rx_streams@[i]
                                })
                            } else {
                                unspecified(HardwareDeviceRxStreamParams { active: true, ..now })
                            }
                        }
                    &&& forall|i: int|
                        0 <= i < streams.tx_streams ==> {
                            let now = #[trigger] final(params).tx_streams@[i];
                            if i < old(params).tx_streams@.len() {
                                now == (HardwareDeviceTxStreamParams {
                                    active: false,
                                    ..old(params).tx_streams@[i]
                                })
                            } else {
                                unused(now)
                            }
                        }
                },
            },
    {
        match &self.active {
            HardwareState::Inactive => {
                params.rx_streams.clear();
                params.tx_streams.clear();
            },
            HardwareState::Active(streams) => {
                resize_params(params, streams);
            },
            HardwareState::ShuttingDown(streams) => {
                resize_params(params, streams);
                params.active = false;
                let ghost resized = *params;
                let mut i: usize = 0;
                while i < params.rx_streams.len()
                    invariant
                        i <= params.rx_streams@.len(),
                        params.rx_streams@.len() == resized.rx_streams@.len(),
                        params.tx_streams == resized.tx_streams,
                        !params.active,
                        forall|k: int|
                            0 <= k < params.rx_streams@.len() ==> #[trigger] params.rx_streams@[k]
                                == if k < i {
                                (HardwareDeviceRxStreamParams {
                                    active: false,
                                    ..resized.rx_streams@[k]
                                })
                            } else {
                                resized.rx_streams@[k]
                            },
                    decreases params.rx_streams.len() - i,
                {
                    params.rx_streams[i].active = false;
                    i = i + 1;
                }
                let mut k: usize = 0;
                let ghost received = params.rx_streams;
                while k < params.tx_streams.len()
                    invariant
                        k <= params.tx_streams@.len(),
                        params.tx_streams@.len() == resized.tx_streams@.len(),
                        params.rx_streams == received,
                        !params.active,
                        forall|j: int|
                            0 <= j < params.tx_streams@.len() ==> #[trigger] params.tx_streams@[j]
                                == if j < k {
                                (HardwareDeviceTxStreamParams {
                                    active: false,
                                    ..resized.tx_streams@[j]
                                })
                            } else {
                                resized.tx_streams@[j]
                            },
                    decreases params.tx_streams.len() - k,
                {
                    params.tx_streams[k].active = false;
                    k = k + 1;
                }
            },
        }
    }
}

/// Brings the numbers of streams in line with those that a device has.
fn resize_params(params: &mut HardwareDeviceParams, streams: &ActiveHardwareDevice)
    ensures
        final(params).active == old(params).active,
        final(params).rx_streams@.len() == streams.rx_streams,
        final(params).tx_streams@.len() == streams.tx_streams,
        forall|i: int|
            0 <= i < streams.rx_streams ==> if i < old(params).rx_streams@.len() {
                #[trigger] final(params).rx_streams@[i] == old(params).rx_streams@[i]
            } else {
                unspecified(final(params).rx_streams@[i])
            },
        forall|i: int|
            0 <= i < streams.tx_streams ==> if i < old(params).tx_streams@.len() {
                #[trigger] final(params).tx_streams@[i] == old(params).tx_streams@[i]
            } else {
                unused(final(params).tx_streams@[i])
            },
{
    params.rx_streams.truncate(streams.rx_streams);
    params.tx_streams.truncate(streams.tx_streams);
    while params.rx_streams.len() < streams.rx_streams
        invariant
            params.active == old(params).active,
            params.rx_streams@.len() <= streams.rx_streams,
            params.tx_streams@.len() <= streams.tx_streams,
            params.rx_streams@.len() >= old(params).rx_streams@.len() || params.rx_streams@.len()
                == streams.rx_streams,
            params.tx_streams@.len() == old(params).tx_streams@.len() || params.tx_streams@.len()
                == streams.tx_streams,
            params.tx_streams@.len() <= old(params).tx_streams@.len(),
            forall|i: int|
                0 <= i < params.rx_streams@.len() ==> if i < old(params).rx_streams@.len() {
                    #[trigger] params.rx_streams@[i] == old(params).rx_streams@[i]
                } else {
                    unspecified(params.rx_streams@[i])
                },
            forall|i: int|
                0 <= i < params.tx_streams@.len() && i < old(params).tx_streams@.len()
                    ==> #[trigger] params.tx_streams@[i] == old(params).tx_streams@[i],
        decreases streams.rx_streams - params.rx_streams.len(),
    {
        params.rx_streams.push(HardwareDeviceRxStreamParams::default());
    }
    let ghost received = params.rx_streams;
    while params.tx_streams.len() < streams.tx_streams
        invariant
            params.active == old(params).active,
            params.rx_streams == received,
            params.tx_streams@.len() <= streams.tx_streams,
            params.tx_streams@.len() >= old(params).tx_streams@.len() || params.tx_streams@.len()
                == streams.tx_streams,
            forall|i: int|
                0 <= i < params.tx_streams@.len() ==> if i < old(params).tx_streams@.len() {
                    #[trigger] params.tx_streams@[i] == old(params).tx_streams@[i]
                } else {
                    unused(params.tx_streams@[i])
                },
        decreases streams.tx_streams - params.tx_streams.len(),
    {
        params.tx_streams.push(HardwareDeviceTxStreamParams::default());
    }
}

/// What is wanted of a gain is what the first entry with its name asks for. Something is wanted
/// exactly where there is one.
pub proof fn the_first_gain_of_a_name_is_wanted(gains: Seq<GainParams>, name: Seq<char>, k: int)
    ensures
        0 <= k < gains.len() && gains[k].name@ == name && (forall|j: int|
            0 <= j < k ==> (#[trigger] gains[j]).name@ != name) ==> wanted_gain(gains, name) == Some(
            gains[k].value,
        ),
        wanted_gain(gains, name) is Some <==> exists|j: int|
            0 <= j < gains.len() && (#[trigger] gains[j]).name@ == name,
    decreases gains.len(),
{
    if gains.len() > 0 {
        let rest = gains.drop_first();
        the_first_gain_of_a_name_is_wanted(rest, name, k - 1);
        assert(forall|j: int| 0 <= j < rest.len() ==> #[trigger] rest[j] == gains[j + 1]);
        if gains.first().name@ == name {
            assert(gains[0].name@ == name);
        } else {
            if exists|j: int| 0 <= j < gains.len() && (#[trigger] gains[j]).name@ == name {
                let j = choose|j: int| 0 <= j < gains.len() && (#[trigger] gains[j]).name@ == name;
                assert(rest[j - 1].name@ == name);
            }
            if exists|j: int| 0 <= j < rest.len() && (#[trigger] rest[j]).name@ == name {
                let j = choose|j: int| 0 <= j < rest.len() && (#[trigger] rest[j]).name@ == name;
                assert(gains[j + 1].name@ == name);
            }
            if 0 < k < gains.len() {
                assert(rest[k - 1] == gains[k]);
            }
        }
    }
}

/// A setting that is asked for and is not the one that is set becomes the closest one that the
/// device has. Where nothing is asked for, or what is set already, nothing changes.
pub proof fn settings_follow_what_is_asked(
    set: Double,
    asked: Double,
    snapped: Double,
    gain: HardwareGain,
)
    ensures
        !asked.same(set) ==> setting_value(set, Some(asked), snapped) == snapped,
        asked.same(set) ==> setting_value(set, Some(asked), snapped) == asked,
        !set.is_nan() ==> setting_value(set, None, snapped) == set,
        !asked.same(gain.value) ==> gain_value(gain, Some(asked), snapped) == snapped,
        asked.same(gain.value) ==> gain_value(gain, Some(asked), snapped) == asked,
        gain_value(gain, None, snapped) == gain.value,
        after_setting(set, asked).same(asked) || after_setting(set, asked) == asked,
        asked.same(set) ==> after_setting(set, asked) == set,
{
}

/// A gain is told of exactly where something is asked for it that changes it, once, with the
/// value that it then has, and the gains are told of in order.
pub proof fn changed_gains_are_told(
    gains: Seq<HardwareGain>,
    wanted: Seq<GainParams>,
    snapped: Seq<Double>,
    count: int,
    i: usize,
    value: Double,
)
    requires
        0 <= count <= gains.len(),
        gains.len() <= usize::MAX,
    ensures
        ({
            let messages = gain_messages(gains, wanted, snapped, count);
            &&& messages.contains(HardwareDeviceRxStreamControlMessage::SetGain(i, value)) <==> {
                &&& i < count
                &&& wanted_gain(wanted, gains[i as int].name@) is Some
                &&& value == gain_value(
                    gains[i as int],
                    wanted_gain(wanted, gains[i as int].name@),
                    snapped[i as int],
                )
                &&& !value.same(gains[i as int].value)
            }
            &&& forall|k: int|
                0 <= k < messages.len() ==> (#[trigger] messages[k]) is SetGain
                    && messages[k]->SetGain_0 < count
            &&& forall|j: int, k: int|
                0 <= j < k < messages.len() ==> (#[trigger] messages[j])->SetGain_0 < (
                #[trigger] messages[k])->SetGain_0
        }),
    decreases count,
{
    if count > 0 {
        let n = count - 1;
        changed_gains_are_told(gains, wanted, snapped, n, i, value);
        let before = gain_messages(gains, wanted, snapped, n);
        let messages = gain_messages(gains, wanted, snapped, count);
        let message = HardwareDeviceRxStreamControlMessage::SetGain(i, value);
        assert(forall|k: int| 0 <= k < before.len() ==> #[trigger] messages[k] == before[k]);
        if messages.contains(message) {
            let k = choose|k: int| 0 <= k < messages.len() && messages[k] == message;
            if k < before.len() {
                assert(before.contains(before[k]));
            }
        }
        if before.contains(message) {
            let k = choose|k: int| 0 <= k < before.len() && before[k] == message;
            assert(messages[k] == message);
        }
        if messages.len() > before.len() {
            assert(messages[messages.len() - 1] == messages.last());
            if i == n && messages.last() == message {
                assert(messages.contains(message));
            }
        }
    }
}

/// Whether a stream took up what is wanted of it, and what its receiver is told then.
pub open spec fn took_up_settings<A>(
    before: HardwareDeviceRxStream<A>,
    asked: HardwareDeviceRxStreamParams,
    snapped: SnappedParams,
    after: HardwareDeviceRxStream<A>,
    shown: HardwareDeviceRxStreamParams,
    messages: Seq<HardwareDeviceRxStreamControlMessage>,
) -> bool {
    let sample_rate = setting_value(before.sample_rate, asked.sample_rate, snapped.sample_rate);
    let frequency = setting_value(before.frequency, asked.frequency, snapped.frequency);
    let bandwidth = setting_value(before.bandwidth, asked.bandwidth, snapped.bandwidth);
    &&& shown.sample_rate == Some(sample_rate)
    &&& shown.frequency == Some(frequency)
    &&& shown.bandwidth == Some(bandwidth)
    &&& after.sample_rate == after_setting(before.sample_rate, sample_rate)
    &&& after.frequency == after_setting(before.frequency, frequency)
    &&& after.bandwidth == after_setting(before.bandwidth, bandwidth)
    &&& messages == if before.active is Active {
        message_if(
            !sample_rate.same(before.sample_rate),
            HardwareDeviceRxStreamControlMessage::SetSampleRate(sample_rate),
        ) + message_if(
            !frequency.same(before.frequency),
            HardwareDeviceRxStreamControlMessage::SetFrequency(frequency),
        ) + message_if(
            !bandwidth.same(before.bandwidth),
            HardwareDeviceRxStreamControlMessage::SetBandwidth(bandwidth),
        ) + gain_messages(before.gains@, asked.gains@, snapped.gains@, before.gains@.len() as int)
    } else {
        Seq::empty()
    }
}

/// A receiver is told of every setting that changes, with the value that it has then, and of
/// nothing else; where there is none nothing is told. What is shown is what is set.
pub proof fn receivers_are_told_what_changes<A>(
    before: HardwareDeviceRxStream<A>,
    asked: HardwareDeviceRxStreamParams,
    snapped: SnappedParams,
    after: HardwareDeviceRxStream<A>,
    shown: HardwareDeviceRxStreamParams,
    messages: Seq<HardwareDeviceRxStreamControlMessage>,
    value: Double,
)
    requires
        before.gains@.len() <= usize::MAX,
        took_up_settings(before, asked, snapped, after, shown, messages),
    ensures
        !(before.active is Active) ==> messages.len() == 0,
        before.active is Active ==> {
            &&& messages.contains(HardwareDeviceRxStreamControlMessage::SetSampleRate(value)) <==> (
            shown.sample_rate == Some(value) && !value.same(before.sample_rate))
            &&& messages.contains(HardwareDeviceRxStreamControlMessage::SetFrequency(value)) <==> (
            shown.frequency == Some(value) && !value.same(before.frequency))
            &&& messages.contains(HardwareDeviceRxStreamControlMessage::SetBandwidth(value)) <==> (
            shown.bandwidth == Some(value) && !value.same(before.bandwidth))
            &&& forall|i: usize, v: Double| #[trigger]
                messages.contains(HardwareDeviceRxStreamControlMessage::SetGain(i, v)) <==> (i
                    < before.gains@.len() && wanted_gain(
                    asked.gains@,
                    before.gains@[i as int].name@,
                ) is Some && v == gain_value(
                    before.gains@[i as int],
                    wanted_gain(asked.gains@, before.gains@[i as int].name@),
                    snapped.gains@[i as int],
                ) && !v.same(before.gains@[i as int].value))
            &&& !messages.contains(HardwareDeviceRxStreamControlMessage::Shutdown)
        },
        shown.sample_rate is Some && (shown.sample_rate->0 == after.sample_rate
            || shown.sample_rate->0.same(after.sample_rate)),
        shown.frequency is Some && (shown.frequency->0 == after.frequency
            || shown.frequency->0.same(after.frequency)),
        shown.bandwidth is Some && (shown.bandwidth->0 == after.bandwidth
            || shown.bandwidth->0.same(after.bandwidth)),
        asked.frequency matches Some(wanted) ==> shown.frequency == Some(
            if wanted.same(before.frequency) {
                wanted
            } else {
                snapped.frequency
            },
        ),
        asked.sample_rate matches Some(wanted) ==> shown.sample_rate == Some(
            if wanted.same(before.sample_rate) {
                wanted
            } else {
                snapped.sample_rate
            },
        ),
        asked.bandwidth matches Some(wanted) ==> shown.bandwidth == Some(
            if wanted.same(before.bandwidth) {
                wanted
            } else {
                snapped.bandwidth
            },
        ),
{
    let sample_rate = shown.sample_rate->0;
    let frequency = shown.frequency->0;
    let bandwidth = shown.bandwidth->0;
    let a = message_if(
        !sample_rate.same(before.sample_rate),
        HardwareDeviceRxStreamControlMessage::SetSampleRate(sample_rate),
    );
    let b = message_if(
        !frequency.same(before.frequency),
        HardwareDeviceRxStreamControlMessage::SetFrequency(frequency),
    );
    let c = message_if(
        !bandwidth.same(before.bandwidth),
        HardwareDeviceRxStreamControlMessage::SetBandwidth(bandwidth),
    );
    let count = before.gains@.len() as int;
    let d = gain_messages(before.gains@, asked.gains@, snapped.gains@, count);
    if before.active is Active {
        assert forall|m: HardwareDeviceRxStreamControlMessage| #[trigger]
            messages.contains(m) <==> a.contains(m) || b.contains(m) || c.contains(m) || d.contains(
            m,
        ) by {
            one_of_four(a, b, c, d, m);
        }
        assert forall|m: HardwareDeviceRxStreamControlMessage| #[trigger] a.contains(m) <==> (
        a.len() > 0 && m == HardwareDeviceRxStreamControlMessage::SetSampleRate(sample_rate)) by {
            if a.len() > 0 {
                assert(a[0] == HardwareDeviceRxStreamControlMessage::SetSampleRate(sample_rate));
            }
        }
        assert forall|m: HardwareDeviceRxStreamControlMessage| #[trigger] b.contains(m) <==> (
        b.len() > 0 && m == HardwareDeviceRxStreamControlMessage::SetFrequency(frequency)) by {
            if b.len() > 0 {
                assert(b[0] == HardwareDeviceRxStreamControlMessage::SetFrequency(frequency));
            }
        }
        assert forall|m: HardwareDeviceRxStreamControlMessage| #[trigger] c.contains(m) <==> (
        c.len() > 0 && m == HardwareDeviceRxStreamControlMessage::SetBandwidth(bandwidth)) by {
            if c.len() > 0 {
                assert(c[0] == HardwareDeviceRxStreamControlMessage::SetBandwidth(bandwidth));
            }
        }
        changed_gains_are_told(before.gains@, asked.gains@, snapped.gains@, count, 0, value);
        assert forall|m: HardwareDeviceRxStreamControlMessage| #[trigger]
            d.contains(m) implies m is SetGain by {
            let k = choose|k: int| 0 <= k < d.len() && d[k] == m;
            assert(d[k] is SetGain);
        }
        assert forall|i: usize, v: Double| #[trigger]
            messages.contains(HardwareDeviceRxStreamControlMessage::SetGain(i, v)) <==> (i
                < before.gains@.len() && wanted_gain(asked.gains@, before.gains@[i as int].name@)
                is Some && v == gain_value(
                before.gains@[i as int],
                wanted_gain(asked.gains@, before.gains@[i as int].name@),
                snapped.gains@[i as int],
            ) && !v.same(before.gains@[i as int].value)) by {
            changed_gains_are_told(before.gains@, asked.gains@, snapped.gains@, count, i, v);
        }
    }
}

/// What four lists hold, one behind the other.
proof fn one_of_four<M>(a: Seq<M>, b: Seq<M>, c: Seq<M>, d: Seq<M>, m: M)
    ensures
        (a + b + c + d).contains(m) <==> a.contains(m) || b.contains(m) || c.contains(m)
            || d.contains(m),
{
    let all = a + b + c + d;
    if all.contains(m) {
        let k = choose|k: int| 0 <= k < all.len() && all[k] == m;
        if k < a.len() {
            assert(a[k] == m);
        } else if k < a.len() + b.len() {
            assert(b[k - a.len()] == m);
        } else if k < a.len() + b.len() + c.len() {
            assert(c[k - a.len() - b.len()] == m);
        } else {
            assert(d[k - a.len() - b.len() - c.len()] == m);
        }
    }
    if a.contains(m) {
        let k = choose|k: int| 0 <= k < a.len() && a[k] == m;
        assert(all[k] == m);
    }
    if b.contains(m) {
        let k = choose|k: int| 0 <= k < b.len() && b[k] == m;
        assert(all[a.len() + k] == m);
    }
    if c.contains(m) {
        let k = choose|k: int| 0 <= k < c.len() && c[k] == m;
        assert(all[a.len() + b.len() + k] == m);
    }
    if d.contains(m) {
        let k = choose|k: int| 0 <= k < d.len() && d[k] == m;
        assert(all[a.len() + b.len() + c.len() + k] == m);
    }
}

/// Whether a stream went over to another state, and what is to be done then.
pub open spec fn stream_moved<A>(
    before: HardwareState<A>,
    active: bool,
    run: bool,
    finished: bool,
    after: HardwareState<A>,
    transition: RxTransition<A>,
) -> bool {
    match before {
        HardwareState::Inactive => {
            &&& after == HardwareState::<A>::Inactive
            &&& transition == if active && run {
                RxTransition::<A>::Start
            } else {
                RxTransition::<A>::Nothing
            }
        },
        HardwareState::Active(receiver) => if !(active && run) {
            &&& after == HardwareState::ShuttingDown(receiver)
            &&& transition == RxTransition::<A>::Shutdown
        } else if finished {
            &&& after == HardwareState::<A>::Inactive
            &&& transition == RxTransition::Failed(receiver)
        } else {
            &&& after == before
            &&& transition == RxTransition::<A>::Nothing
        },
        HardwareState::ShuttingDown(receiver) => if finished {
            &&& after == HardwareState::<A>::Inactive
            &&& transition == RxTransition::Ended(receiver)
        } else {
            &&& after == before
            &&& transition == RxTransition::<A>::Nothing
        },
    }
}

/// A receiver is never lost: it stays with the stream until it has finished, and is handed out
/// then. One is started only where it is asked for and there is none. One that is asked for goes
/// on; one that is not is shut down, once, and is not taken up again until it has finished.
pub proof fn receivers_are_not_lost<A>(
    before: HardwareState<A>,
    active: bool,
    run: bool,
    finished: bool,
    after: HardwareState<A>,
    transition: RxTransition<A>,
    receiver: A,
)
    requires
        stream_moved(before, active, run, finished, after, transition),
    ensures
        transition is Start <==> before is Inactive && active && run,
        transition is Shutdown <==> before is Active && after is ShuttingDown,
        before is Active ==> (after is Active <==> active && run && !finished),
        before is Active ==> (after is ShuttingDown <==> !active || !run),
        before is ShuttingDown ==> (after is ShuttingDown <==> !finished) && (after is Inactive
            <==> finished),
        before is Inactive ==> after is Inactive,
        before == HardwareState::Active(receiver) || before == HardwareState::ShuttingDown(
            receiver,
        ) ==> {
            ||| after == HardwareState::Active(receiver) && transition is Nothing
            ||| after == HardwareState::ShuttingDown(receiver)
            ||| after is Inactive && transition == RxTransition::Failed(receiver)
                && before is Active
            ||| after is Inactive && transition == RxTransition::Ended(receiver)
                && before is ShuttingDown
        },
        transition is Failed ==> before is Active && finished && active && run,
        transition is Ended ==> before is ShuttingDown && finished,
{
}

/// Whether a device went over to another state, and what is to be done then.
pub open spec fn device_moved(
    before: HardwareState<ActiveHardwareDevice>,
    active: bool,
    streams_ended: bool,
    after: HardwareState<ActiveHardwareDevice>,
    transition: DeviceTransition,
) -> bool {
    match before {
        HardwareState::Inactive => {
            &&& after == before
            &&& transition == if active {
                DeviceTransition::Open
            } else {
                DeviceTransition::Nothing
            }
        },
        HardwareState::Active(streams) => {
            &&& transition == DeviceTransition::Nothing
            &&& after == if active {
                HardwareState::Active(streams)
            } else {
                HardwareState::ShuttingDown(streams)
            }
        },
        HardwareState::ShuttingDown(streams) => if streams_ended {
            &&& transition == DeviceTransition::Close
            &&& after == HardwareState::<ActiveHardwareDevice>::Inactive
        } else {
            &&& transition == DeviceTransition::Nothing
            &&& after == before
        },
    }
}

/// A device is opened only where it is asked for and not open, is shut down where it is no longer
/// asked for, and is closed only after that, once all of its streams have ended.
pub proof fn devices_are_closed_after_their_streams(
    before: HardwareState<ActiveHardwareDevice>,
    active: bool,
    streams_ended: bool,
    after: HardwareState<ActiveHardwareDevice>,
    transition: DeviceTransition,
)
    requires
        device_moved(before, active, streams_ended, after, transition),
    ensures
        transition is Open <==> before is Inactive && active,
        transition is Close <==> before is ShuttingDown && streams_ended,
        transition is Close <==> !(before is Inactive) && after is Inactive,
        before is Active ==> (after is Active <==> active) && (after is ShuttingDown <==> !active),
        before is ShuttingDown && !streams_ended ==> after == before,
        before is Inactive ==> after is Inactive,
        before is Active && after is Active ==> after == before,
        before is Active && after is ShuttingDown ==> after->ShuttingDown_0 == before->Active_0,
{
}

/// Of a stream of which nothing was said only that it is to be received is known. One that is not
/// used has nothing set.
pub proof fn nothing_is_asked_at_first(
    rx: HardwareDeviceRxStreamParams,
    tx: HardwareDeviceTxStreamParams,
)
    requires
        unspecified(rx),
        unused(tx),
    ensures
        rx.active,
        rx.sample_rate is None && rx.frequency is None && rx.bandwidth is None,
        rx.gains@.len() == 0,
        rx.limits.sample_rate_min@ == 0 && rx.limits.sample_rate_max@ == 0,
        rx.limits.frequency_min@ == 0 && rx.limits.frequency_max@ == 0,
        rx.limits.bandwidth_min@ == 0 && rx.limits.bandwidth_max@ == 0,
        !tx.active,
        tx.sample_rate@ == 0 && tx.frequency@ == 0 && tx.bandwidth@ == 0,
{
}

} // verus!
