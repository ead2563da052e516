use vstd::prelude::*;

use crate::double::Double;

verus! {

/// How a channel of a device receives.
#[derive(Clone, Copy, Debug)]
pub struct HardwareDeviceRxChannelParameters {
    pub active: bool,
    pub sample_rate: Double,
    pub frequency: Double,
    pub bandwidth: Double,
}

impl HardwareDeviceRxChannelParameters {
    /// Whether two settings are the same. A setting that is not a number differs from any
    /// other.
    pub open spec fn same(self, other: HardwareDeviceRxChannelParameters) -> bool {
        &&& self.active == other.active
        &&& self.sample_rate.same(other.sample_rate)
        &&& self.frequency.same(other.frequency)
        &&& self.bandwidth.same(other.bandwidth)
    }

    /// Whether two settings are the same.
    pub fn eq(self, other: HardwareDeviceRxChannelParameters) -> (result: bool)
        ensures
            result == self.same(other),
    {
        self.active == other.active && self.sample_rate.eq(other.sample_rate) && self.frequency.eq(
            other.frequency,
        ) && self.bandwidth.eq(other.bandwidth)
    }
}

/// The values that a device can be set to which come closest to those that are wanted.
#[derive(Clone, Copy, Debug)]
pub struct SnappedSettings {
    pub sample_rate: Double,
    pub frequency: Double,
    pub bandwidth: Double,
}

/// The value to set: the one that is wanted where it is set already, and otherwise the
/// closest possible one.
pub open spec fn chosen_value(set: Double, wanted: Double, snapped: Double) -> Double {
    if set.same(wanted) {
        wanted
    } else {
        snapped
    }
}

/// The value to set.
pub fn choose_value(set: Double, wanted: Double, snapped: Double) -> (value: Double)
    ensures
        value == chosen_value(set, wanted, snapped),
{
    if set.eq(wanted) {
        wanted
    } else {
        snapped
    }
}

/// What has to be done for a channel.
pub struct PollActions<A> {
    /// A receiver that has ended.
    pub ended: Option<A>,
    /// How to receive from now on, where a receiver has to be started. It is then handed
    /// to [`HardwareDeviceRxChannel::attach`].
    pub start: Option<HardwareDeviceRxChannelParameters>,
    /// What the receiver has to be told, after it has been started.
    pub send: Option<HardwareDeviceRxChannelParameters>,
}

/// A channel of a device. `A` is what receives from it while it is active.
pub struct HardwareDeviceRxChannel<A> {
    active: Option<A>,
    last_parameters: HardwareDeviceRxChannelParameters,
}

impl<A> HardwareDeviceRxChannel<A> {
    pub closed spec fn receiver(&self) -> Option<A> {
        self.active
    }

    /// The settings at the last poll.
    pub closed spec fn last(&self) -> HardwareDeviceRxChannelParameters {
        self.last_parameters
    }

    /// A channel that is not active, with the settings that the device has.
    pub fn new(sample_rate: Double, frequency: Double, bandwidth: Double) -> (channel: Self)
        ensures
            channel.receiver() is None,
            channel.last() == (HardwareDeviceRxChannelParameters {
                active: false,
                sample_rate,
                frequency,
                bandwidth,
            }),
    {
        HardwareDeviceRxChannel {
            active: None,
            last_parameters: HardwareDeviceRxChannelParameters {
                active: false,
                sample_rate,
                frequency,
                bandwidth,
            },
        }
    }

    /// Takes up new settings. Values that have changed are brought to the closest possible
    /// ones. While a receiver is shutting down no other can be started, and `parameters`
    /// is set back to inactive.
    pub fn poll(
        &mut self,
        parameters: &mut HardwareDeviceRxChannelParameters,
        snapped: SnappedSettings,
        finished: bool,
    ) -> (actions: PollActions<A>)
        ensures
            ({
                let wanted = (HardwareDeviceRxChannelParameters {
                    active: old(parameters).active,
                    sample_rate: chosen_value(
                        old(self).last().sample_rate,
                        old(parameters).sample_rate,
                        snapped.sample_rate,
                    ),
                    frequency: chosen_value(
                        old(self).last().frequency,
                        old(parameters).frequency,
                        snapped.frequency,
                    ),
                    bandwidth: chosen_value(
                        old(self).last().bandwidth,
                        old(parameters).bandwidth,
                        snapped.bandwidth,
                    ),
                });
                let present = old(self).receiver() is Some && !finished;
                let switched_on = old(parameters).active && !old(self).last().active;
                let starts = switched_on && !present;
                &&& *final(parameters) == (HardwareDeviceRxChannelParameters {
                    active: wanted.active && !(switched_on && present),
                    ..wanted
                })
                &&& actions.ended == if finished {
                    old(self).receiver()
                } else {
                    None
                }
                &&& final(self).receiver() == if finished {
                    None
                } else {
                    old(self).receiver()
                }
                &&& actions.start == if starts {
                    Some(wanted)
                } else {
                    None
                }
                &&& actions.send == if (present || starts) && !(if starts {
                    wanted
                } else {
                    old(self).last()
                }).same(*final(parameters)) {
                    Some(*final(parameters))
                } else {
                    None
                }
                &&& starts || !old(self).last().same(*final(parameters)) ==> final(self).last()
                    == *final(parameters)
                &&& !starts && old(self).last().same(*final(parameters)) ==> final(self).last()
                    == old(self).last()
            }),
            polled(
                *old(self),
                *old(parameters),
                snapped,
                finished,
                *final(self),
                *final(parameters),
                actions,
            ),
    {
        let ended = if finished {
            self.active.take()
        } else {
            None
        };
        let last = self.last_parameters;
        parameters.sample_rate = choose_value(
            last.sample_rate,
            parameters.sample_rate,
            snapped.sample_rate,
        );
        parameters.frequency = choose_value(
            last.frequency,
            parameters.frequency,
            snapped.frequency,
        );
        parameters.bandwidth = choose_value(
            last.bandwidth,
            parameters.bandwidth,
            snapped.bandwidth,
        );
        let present: bool = self.active.is_some();
        let mut start: Option<HardwareDeviceRxChannelParameters> = None;
        if parameters.active && !last.active {
            if present {
                // The receiver has not ended yet.
                parameters.active = false;
            } else {
                start = Some(*parameters);
                self.last_parameters = *parameters;
            }
        }
        let mut send: Option<HardwareDeviceRxChannelParameters> = None;
        if !self.last_parameters.eq(*parameters) {
            if present || start.is_some() {
                send = Some(*parameters);
            }
            self.last_parameters = *parameters;
        }
        PollActions { ended, start, send }
    }

    /// Hands over a receiver that was started.
    pub fn attach(&mut self, receiver: A)
        ensures
            final(self).receiver() == Some(receiver),
            final(self).last() == old(self).last(),
    {
        self.active = Some(receiver);
    }
}

/// Whether a channel was polled, and what is to be done then.
pub open spec fn polled<A>(
    before: HardwareDeviceRxChannel<A>,
    asked: HardwareDeviceRxChannelParameters,
    snapped: SnappedSettings,
    finished: bool,
    after: HardwareDeviceRxChannel<A>,
    shown: HardwareDeviceRxChannelParameters,
    actions: PollActions<A>,
) -> bool {
    let wanted = (HardwareDeviceRxChannelParameters {
        active: asked.active,
        sample_rate: chosen_value(before.last().sample_rate, asked.sample_rate, snapped.sample_rate),
        frequency: chosen_value(before.last().frequency, asked.frequency, snapped.frequency),
        bandwidth: chosen_value(before.last().bandwidth, asked.bandwidth, snapped.bandwidth),
    });
    let present = before.receiver() is Some && !finished;
    let switched_on = asked.active && !before.last().active;
    let starts = switched_on && !present;
    &&& shown == (HardwareDeviceRxChannelParameters {
        active: wanted.active && !(switched_on && present),
        ..wanted
    })
    &&& actions.ended == if finished {
        before.receiver()
    } else {
        None
    }
    &&& after.receiver() == if finished {
        None
    } else {
        before.receiver()
    }
    &&& actions.start == if starts {
        Some(wanted)
    } else {
        None
    }
    &&& actions.send == if (present || starts) && !(if starts {
        wanted
    } else {
        before.last()
    }).same(shown) {
        Some(shown)
    } else {
        None
    }
    &&& starts || !before.last().same(shown) ==> after.last() == shown
    &&& !starts && before.last().same(shown) ==> after.last() == before.last()
}

/// A channel has one receiver at a time. It stays until it has finished, and is handed out then.
/// One is started only where the channel is switched on and there is none; while there is still
/// one, the channel cannot be switched on. What is shown is what the receiver is started with, or
/// told where it changes, and is held against what is asked for the next time.
pub proof fn channels_have_one_receiver<A>(
    before: HardwareDeviceRxChannel<A>,
    asked: HardwareDeviceRxChannelParameters,
    snapped: SnappedSettings,
    finished: bool,
    after: HardwareDeviceRxChannel<A>,
    shown: HardwareDeviceRxChannelParameters,
    actions: PollActions<A>,
)
    requires
        polled(before, asked, snapped, finished, after, shown, actions),
    ensures
        !finished ==> after.receiver() == before.receiver() && actions.ended is None,
        finished ==> after.receiver() is None && actions.ended == before.receiver(),
        actions.start is Some ==> after.receiver() is None && asked.active && !before.last().active,
        actions.start is Some <==> shown.active && !before.last().active,
        actions.start matches Some(started) ==> started == shown,
        shown.active ==> asked.active,
        asked.active && !shown.active <==> asked.active && !before.last().active
            && before.receiver() is Some && !finished,
        actions.send matches Some(sent) ==> sent == shown,
        before.receiver() is Some && !finished ==> (actions.send is Some <==> !before.last().same(
            shown,
        )),
        before.receiver() is None && actions.start is None ==> actions.send is None,
        after.last() == shown || after.last().same(shown),
        shown.sample_rate == if asked.sample_rate.same(before.last().sample_rate) {
            asked.sample_rate
        } else {
            snapped.sample_rate
        },
        shown.frequency == if asked.frequency.same(before.last().frequency) {
            asked.frequency
        } else {
            snapped.frequency
        },
        shown.bandwidth == if asked.bandwidth.same(before.last().bandwidth) {
            asked.bandwidth
        } else {
            snapped.bandwidth
        },
{
}

/// Settings are the same where each of them is.
pub proof fn equal_settings_agree_in_everything(
    a: HardwareDeviceRxChannelParameters,
    b: HardwareDeviceRxChannelParameters,
)
    ensures
        a.same(b) ==> a.active == b.active && a.sample_rate.same(b.sample_rate)
            && a.frequency.same(b.frequency) && a.bandwidth.same(b.bandwidth),
        !a.same(b) ==> a.active != b.active || !a.sample_rate.same(b.sample_rate)
            || !a.frequency.same(b.frequency) || !a.bandwidth.same(b.bandwidth),
        a.same(b) == b.same(a),
{
}

} // verus!
