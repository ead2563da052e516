use std::collections::BTreeSet;

use sdr::device_table::{
    closest_range, compute_range_min_max, Hardware, NamedDeviceParams, SettingRange,
};
use sdr::double::Double;
use sdr::hardware::{
    ActiveHardwareDevice, DeviceTransition, GainParams, HardwareDevice, HardwareDeviceParams,
    HardwareDeviceRxStream, HardwareDeviceRxStreamControlMessage, HardwareDeviceRxStreamParams,
    HardwareGain, HardwareState, RxTransition, SnappedParams, StreamLimits,
};
use sdr::rx_channel::{
    choose_value, HardwareDeviceRxChannel, HardwareDeviceRxChannelParameters, SnappedSettings,
};
use sdr::rx_thread::{DeviceSetting, Reception, RxThread};

fn double(value: f64) -> Double {
    Double::from_bits(value.to_bits())
}

fn value(number: Double) -> f64 {
    f64::from_bits(number.to_bits())
}

fn limits() -> StreamLimits {
    StreamLimits {
        sample_rate_min: double(1.),
        sample_rate_max: double(2.),
        frequency_min: double(3.),
        frequency_max: double(4.),
        bandwidth_min: double(5.),
        bandwidth_max: double(6.),
    }
}

fn stream() -> HardwareDeviceRxStream<&'static str> {
    HardwareDeviceRxStream::new(
        limits(),
        double(10.),
        double(20.),
        double(30.),
        vec![
            HardwareGain {
                name: "LNA".to_string(),
                value: double(1.),
                min: double(0.),
                max: double(9.),
            },
            HardwareGain {
                name: "VGA".to_string(),
                value: double(2.),
                min: double(0.),
                max: double(9.),
            },
        ],
    )
}

fn snapped() -> SnappedParams {
    SnappedParams {
        sample_rate: double(11.),
        frequency: double(21.),
        bandwidth: double(31.),
        gains: vec![double(3.), double(4.)],
    }
}

#[test]
fn states_follow_each_other() {
    let mut state = HardwareState::Active(7);
    assert!(matches!(state.as_ref(), HardwareState::Active(7)));
    if let HardwareState::Active(inner) = state.as_mut() {
        *inner = 8;
    }
    state.shutdown();
    assert!(matches!(state.as_ref(), HardwareState::ShuttingDown(8)));
    assert_eq!(state.deactivate(), 8);
    assert!(matches!(state, HardwareState::Inactive));
    assert_eq!(HardwareState::Active(3).active(), Some(3));
    assert_eq!(HardwareState::ShuttingDown(3).active(), None);
}

#[test]
fn a_stream_is_started_and_shut_down() {
    let mut stream = stream();
    assert!(matches!(stream.transition(true, false, false), RxTransition::Nothing));
    assert!(matches!(stream.transition(true, true, false), RxTransition::Start));
    stream.activate("thread");
    assert!(matches!(stream.transition(true, true, false), RxTransition::Nothing));
    assert!(matches!(stream.transition(false, true, false), RxTransition::Shutdown));
    assert!(matches!(stream.transition(true, true, false), RxTransition::Nothing));
    assert!(matches!(stream.transition(true, true, true), RxTransition::Ended("thread")));
    stream.activate("other");
    assert!(matches!(stream.transition(true, true, true), RxTransition::Failed("other")));
    assert!(matches!(stream.active, HardwareState::Inactive));
}

#[test]
fn settings_are_taken_up() {
    let mut stream = stream();
    stream.activate("thread");
    let mut params = HardwareDeviceRxStreamParams {
        frequency: Some(double(22.)),
        bandwidth: Some(double(30.)),
        gains: vec![GainParams {
            name: "VGA".to_string(),
            value: double(5.),
            min: double(0.),
            max: double(0.),
        }],
        ..HardwareDeviceRxStreamParams::default()
    };
    let wanted = stream.wanted_gains(&params);
    assert!(wanted[0].is_none());
    assert_eq!(value(wanted[1].unwrap()), 5.);
    let messages = stream.take_up(&mut params, true, &snapped());
    assert_eq!(messages.len(), 2);
    assert!(matches!(
        messages[0],
        HardwareDeviceRxStreamControlMessage::SetFrequency(frequency) if value(frequency) == 21.
    ));
    assert!(matches!(
        messages[1],
        HardwareDeviceRxStreamControlMessage::SetGain(1, gain) if value(gain) == 4.
    ));
    assert_eq!(value(params.sample_rate.unwrap()), 10.);
    assert_eq!(value(params.frequency.unwrap()), 21.);
    assert_eq!(value(params.bandwidth.unwrap()), 30.);
    assert_eq!(params.gains.len(), 2);
    assert_eq!(params.gains[0].name, "LNA");
    assert_eq!(value(params.gains[0].value), 1.);
    assert_eq!(value(params.gains[1].value), 4.);
    assert_eq!(value(params.limits.bandwidth_max), 6.);
    assert_eq!(value(stream.frequency), 21.);
    assert!(stream.take_up(&mut params, true, &snapped()).is_empty());
}

#[test]
fn a_stream_that_shuts_down_cannot_be_switched_on() {
    let mut stream = stream();
    stream.activate("thread");
    stream.transition(false, true, false);
    let mut params = HardwareDeviceRxStreamParams::default();
    assert!(stream.take_up(&mut params, true, &snapped()).is_empty());
    assert!(!params.active);
}

#[test]
fn a_device_is_opened_and_closed() {
    let mut device = HardwareDevice::new();
    let mut params = HardwareDeviceParams::default();
    assert!(matches!(device.transition(true, true), DeviceTransition::Open));
    device.opened(ActiveHardwareDevice {
        rx_streams: 2,
        tx_streams: 1,
    });
    device.sync_params(&mut params);
    assert_eq!(params.rx_streams.len(), 2);
    assert!(params.rx_streams[1].active);
    assert!(params.rx_streams[1].sample_rate.is_none());
    assert_eq!(params.tx_streams.len(), 1);
    assert!(!params.tx_streams[0].active);
    params.rx_streams[0].frequency = Some(double(5.));
    assert!(matches!(device.transition(false, false), DeviceTransition::Nothing));
    assert!(matches!(device.active, HardwareState::ShuttingDown(_)));
    device.sync_params(&mut params);
    assert!(!params.active);
    assert!(!params.rx_streams[0].active);
    assert_eq!(value(params.rx_streams[0].frequency.unwrap()), 5.);
    assert!(matches!(device.transition(true, false), DeviceTransition::Nothing));
    assert!(matches!(device.transition(true, true), DeviceTransition::Close));
    device.sync_params(&mut params);
    assert!(params.rx_streams.is_empty());
    assert!(params.tx_streams.is_empty());
}

#[test]
fn a_channel_is_polled() {
    let mut channel: HardwareDeviceRxChannel<&'static str> =
        HardwareDeviceRxChannel::new(double(1.), double(2.), double(3.));
    let near = SnappedSettings {
        sample_rate: double(1.),
        frequency: double(8.),
        bandwidth: double(3.),
    };
    let mut parameters = HardwareDeviceRxChannelParameters {
        active: true,
        sample_rate: double(1.),
        frequency: double(7.),
        bandwidth: double(3.),
    };
    let actions = channel.poll(&mut parameters, near, false);
    assert_eq!(value(parameters.frequency), 8.);
    assert_eq!(value(actions.start.unwrap().frequency), 8.);
    assert!(actions.send.is_none());
    channel.attach("thread");
    parameters.active = false;
    let actions = channel.poll(&mut parameters, near, false);
    assert!(!actions.send.unwrap().active);
    parameters.active = true;
    let actions = channel.poll(&mut parameters, near, false);
    assert!(actions.start.is_none());
    assert!(!parameters.active);
    let actions = channel.poll(&mut parameters, near, true);
    assert_eq!(actions.ended, Some("thread"));
    parameters.active = true;
    let actions = channel.poll(&mut parameters, near, false);
    assert!(actions.start.is_some());
    assert_eq!(value(choose_value(double(1.), double(1.), double(2.))), 1.);
    assert_eq!(value(choose_value(double(0.), double(1.), double(2.))), 2.);
    assert!(!parameters.eq(HardwareDeviceRxChannelParameters {
        frequency: double(f64::NAN),
        ..parameters
    }));
}

#[test]
fn messages_control_reception() {
    let mut thread = RxThread::new(double(1.), double(2.), double(3.));
    thread.start_stream(10);
    assert!(!thread.received(4));
    let (settings, reception) = thread.control(&vec![]);
    assert!(settings.is_empty());
    assert_eq!(reception, Reception::Continue);
    let (settings, reception) = thread.control(&vec![
        HardwareDeviceRxStreamControlMessage::SetFrequency(double(5.)),
        HardwareDeviceRxStreamControlMessage::SetGain(1, double(6.)),
        HardwareDeviceRxStreamControlMessage::SetBandwidth(double(7.)),
    ]);
    assert_eq!(settings.len(), 3);
    assert!(matches!(settings[0], DeviceSetting::Frequency(f) if value(f) == 5.));
    assert!(matches!(settings[1], DeviceSetting::Gain(1, g) if value(g) == 6.));
    assert!(matches!(settings[2], DeviceSetting::Bandwidth(b) if value(b) == 7.));
    assert_eq!(reception, Reception::NewStream);
    assert_eq!(value(thread.frequency), 5.);
    let (settings, reception) = thread.control(&vec![
        HardwareDeviceRxStreamControlMessage::SetSampleRate(double(9.)),
    ]);
    assert!(settings.is_empty());
    assert_eq!(reception, Reception::Reopen);
    assert_eq!(value(thread.sample_rate), 9.);
    let (settings, reception) = thread.control(&vec![
        HardwareDeviceRxStreamControlMessage::SetFrequency(double(1.)),
        HardwareDeviceRxStreamControlMessage::Shutdown,
        HardwareDeviceRxStreamControlMessage::SetFrequency(double(2.)),
    ]);
    assert_eq!(settings.len(), 1);
    assert_eq!(reception, Reception::Stop);
}

#[test]
fn chunks_are_complete_once_they_are_full() {
    let mut thread = RxThread::new(double(1.), double(2.), double(3.));
    thread.start_stream(10);
    assert!(!thread.received(4));
    assert!(!thread.received(5));
    assert!(thread.received(1));
    assert!(!thread.received(3));
}

#[test]
fn devices_in_use_stay() {
    let mut hardware = Hardware::new();
    hardware.enumerate(&vec!["a".to_string(), "b".to_string(), "a".to_string()]);
    assert_eq!(hardware.devices.len(), 2);
    assert!(hardware.all_inactive());
    hardware.devices[1].device.opened(ActiveHardwareDevice {
        rx_streams: 0,
        tx_streams: 0,
    });
    assert!(!hardware.all_inactive());
    hardware.enumerate(&vec!["c".to_string()]);
    assert!(hardware.has_device(&"b".to_string()));
    assert!(hardware.has_device(&"c".to_string()));
    assert!(!hardware.has_device(&"a".to_string()));
    let mut params = vec![
        NamedDeviceParams {
            id: "a".to_string(),
            params: HardwareDeviceParams::default(),
        },
        NamedDeviceParams {
            id: "c".to_string(),
            params: HardwareDeviceParams {
                active: false,
                ..HardwareDeviceParams::default()
            },
        },
    ];
    hardware.sync_params(&mut params);
    assert_eq!(params.len(), 2);
    assert_eq!(params[0].id, "c");
    assert!(!params[0].params.active);
    assert_eq!(params[1].id, "b");
    assert!(params[1].params.active);
}

#[test]
fn streams_stay_open_while_they_live() {
    let mut hardware = Hardware::new();
    assert_eq!(hardware.open_streams(&BTreeSet::from([1, 2]), &vec![2, 1, 2]), vec![1, 2]);
    assert_eq!(hardware.open_streams(&BTreeSet::from([2]), &vec![]), vec![2]);
    assert_eq!(hardware.open_streams(&BTreeSet::from([]), &vec![3]), vec![3]);
}

#[test]
fn ranges_of_settings() {
    let ranges = vec![
        SettingRange {
            minimum: double(5.),
            maximum: double(9.),
        },
        SettingRange {
            minimum: double(-2.),
            maximum: double(1.),
        },
    ];
    let (min, max) = compute_range_min_max(&ranges).unwrap();
    assert_eq!((value(min), value(max)), (-2., 9.));
    assert!(compute_range_min_max(&vec![]).is_none());
    assert_eq!(closest_range(&vec![double(3.), double(1.), double(1.)]), 1);
}
