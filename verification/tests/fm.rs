use std::collections::BTreeMap;
use std::sync::Arc;

use sdr::double::Double;
use sdr::fm_channel::{keep_low_bins, ChannelBins, PhaseCorrection, Squelch, SquelchOutcome};
use sdr::fm_history::{
    current_piece, FmHistory, FmMessage, FmTransmissionChunk, TransmissionStart,
};
use sdr::fm_processor::{ClipSetup, FmProcessor};
use sdr::fm_ui::{
    closest_chunk, plot_stride, AudioRange, FmUi, PlayState, TransmissionBounds,
};
use sdr::id_factory::IdFactory;

fn double(value: f64) -> Double {
    Double::from_bits(value.to_bits())
}

fn value(number: Double) -> f64 {
    f64::from_bits(number.to_bits())
}

fn start(index: isize) -> TransmissionStart {
    TransmissionStart {
        clip_id: 3,
        clip_name: "Clip 1".to_string(),
        reference_time: double(0.),
        start_index: index,
        period: double(0.5),
        iq_sample_rate: double(1000.),
    }
}

fn chunk(sample: u32) -> FmTransmissionChunk {
    FmTransmissionChunk {
        iq_data: Arc::new(vec![(sample, sample)]),
        audio_data: Arc::new(vec![sample]),
    }
}

fn setup(clip_id: usize, center_bin: usize) -> ClipSetup {
    ClipSetup {
        clip_id,
        clip_name: "Clip".to_string(),
        fft_size: 8,
        center_bin,
        signal_bin_count: 2,
        margin_bin_count: 1,
        squelch_low: double(1.),
        squelch_high: double(2.),
        reference_time: double(10.),
        period: double(0.25),
        iq_sample_rate: double(500.),
    }
}

#[test]
fn channels_outside_of_the_spectrum_are_skipped() {
    assert!(ChannelBins::new(8, 0, 2, 1).is_none());
    let bins = ChannelBins::new(8, 1, 2, 1).unwrap();
    assert_eq!((bins.left_bin, bins.right_bin), (0, 2));
    assert_eq!(bins.ifft_size(), 4);
    assert!(ChannelBins::new(8, 7, 2, 1).is_some());
    assert!(ChannelBins::new(8, 8, 2, 1).is_none());
}

#[test]
fn channels_are_picked_with_a_margin() {
    let bins = ChannelBins::new(4, 2, 2, 1).unwrap();
    let data: Vec<i32> = vec![1, 2, 3, 4, 5, 6, 7, 8, 9];
    assert_eq!(bins.gather(&data, 0), vec![0, 2, 3, 0, 0, 6, 7, 0]);
}

#[test]
fn low_bins_are_kept() {
    let spectra = vec![1, 2, 3, 4, 5, 6];
    assert_eq!(keep_low_bins(&spectra, 3, 4, 2, 0), vec![1, 2, 0, 0, 4, 5, 0, 0]);
    assert_eq!(keep_low_bins(&spectra, 3, 2, 2, 0), vec![1, 2, 4, 5]);
}

#[test]
fn every_other_spectrum_is_turned_around() {
    let mut even = PhaseCorrection::new(4);
    assert_eq!(even.next_signs(3), vec![false, false, false]);
    let mut odd = PhaseCorrection::new(5);
    assert_eq!(odd.next_signs(3), vec![false, true, false]);
    assert_eq!(odd.next_signs(2), vec![true, false]);
}

#[test]
fn squelch_opens_and_closes() {
    let mut ids = IdFactory::default();
    let mut squelch = Squelch {
        low: double(1.),
        high: double(2.),
        active_transmission: None,
    };
    assert_eq!(squelch.update(double(1.5), &mut ids), SquelchOutcome::Silent);
    assert_eq!(squelch.update(double(2.), &mut ids), SquelchOutcome::Silent);
    assert_eq!(squelch.update(double(2.5), &mut ids), SquelchOutcome::Started(0));
    assert_eq!(squelch.update(double(1.5), &mut ids), SquelchOutcome::Continued(0));
    assert_eq!(squelch.update(double(1.), &mut ids), SquelchOutcome::Continued(0));
    assert_eq!(squelch.update(double(f64::NAN), &mut ids), SquelchOutcome::Continued(0));
    assert_eq!(squelch.update(double(0.5), &mut ids), SquelchOutcome::Ended(0));
    assert_eq!(squelch.update(double(3.), &mut ids), SquelchOutcome::Started(1));
    assert_eq!(squelch.end_transmission(), Some(1));
    assert_eq!(squelch.end_transmission(), None);
}

#[test]
fn processor_tells_of_transmissions() {
    let mut processor = FmProcessor::new();
    let mut history = FmHistory::new();
    processor.start_clip(setup(3, 4));
    processor.start_clip(setup(4, 0));
    assert!(processor.clips.contains_key(&3));
    assert!(!processor.clips.contains_key(&4));
    let picked = processor.pick(3, &(0..16).collect::<Vec<i32>>(), -1).unwrap();
    assert_eq!(picked.spectra, vec![-1, 3, 4, -1, -1, 11, 12, -1]);
    assert_eq!(picked.turned, vec![false, false]);
    assert!(processor.pick(4, &vec![1], 0).is_none());
    let silent = processor.decide(3, 7, double(0.)).unwrap();
    assert_eq!(silent.outcome, SquelchOutcome::Silent);
    assert!(silent.message.is_none());
    let started = processor.decide(3, 8, double(5.)).unwrap();
    assert_eq!(started.outcome, SquelchOutcome::Started(0));
    history.update(started.message.unwrap());
    assert_eq!(history.transmissions[&0].chunks.start_index(), 8);
    assert_eq!(history.transmissions[&0].clip_id, 3);
    assert_eq!(value(history.transmissions[&0].period), 0.25);
    assert!(processor.decide(4, 8, double(5.)).is_none());
    history.update(processor.end_clip(3).unwrap());
    assert!(!history.transmissions[&0].active);
    assert!(processor.end_clip(3).is_none());
    assert!(matches!(processor.reset(), FmMessage::Reset));
}

#[test]
fn chunks_and_transcriptions_are_kept() {
    let mut history = FmHistory::new();
    assert!(!history.has_data());
    assert_eq!(history.name(), "FM Demodulator");
    history.update(FmMessage::StartTransmission {
        transmission_id: 0,
        start: start(10),
    });
    assert!(history.has_data());
    assert!(history.shown(None).is_empty());
    for k in 0..4u32 {
        let transcription = if k % 2 == 1 {
            Some(format!("word {}", k))
        } else {
            None
        };
        history.update(FmMessage::PushChunk {
            transmission_id: 0,
            chunk: chunk(k),
            transcription,
        });
    }
    history.update(FmMessage::PushChunk {
        transmission_id: 9,
        chunk: chunk(0),
        transcription: None,
    });
    let transmission = &history.transmissions[&0];
    assert_eq!(transmission.chunks.end_index(), 14);
    assert_eq!(transmission.transcription.len(), 2);
    assert_eq!(transmission.transcription[0].chunk_idx, 12);
    assert_eq!(transmission.transcription[1].chunk_idx, 14);
    assert_eq!(current_piece(&transmission.transcription, 11), 0);
    assert_eq!(current_piece(&transmission.transcription, 13), 0);
    assert_eq!(current_piece(&transmission.transcription, 15), 1);
    assert_eq!(history.shown(Some(3)), vec![0]);
    assert!(history.shown(Some(4)).is_empty());
}

#[test]
fn transmissions_expire() {
    let mut history = FmHistory::new();
    for id in 0..2usize {
        history.update(FmMessage::StartTransmission {
            transmission_id: id,
            start: start(0),
        });
        for k in 0..3u32 {
            history.update(FmMessage::PushChunk {
                transmission_id: id,
                chunk: chunk(k),
                transcription: Some("x".to_string()),
            });
        }
    }
    history.expire(&BTreeMap::from([(0, 2), (1, 3)]));
    assert_eq!(history.transmissions.len(), 1);
    let transmission = &history.transmissions[&0];
    assert_eq!(transmission.chunks.start_index(), 2);
    assert_eq!(*transmission.chunks.get(2).unwrap().audio_data, vec![2]);
    assert_eq!(transmission.transcription.len(), 2);
    assert_eq!(transmission.transcription[0].chunk_idx, 2);
    history.update(FmMessage::EndTransmission(1));
    assert_eq!(history.transmissions.len(), 1);
    history.update(FmMessage::Reset);
    assert!(!history.has_data());
}

#[test]
fn pressing_a_transmission_plays_it_until_released() {
    let mut ui = FmUi::new();
    ui.inspect_and_play(4, double(1.));
    let inspector = ui.inspector_state.unwrap();
    assert_eq!(inspector.transmission_id, 4);
    assert!(!ui.controls_enabled());
    let bounds = TransmissionBounds {
        start_time: double(0.),
        end_time: double(10.),
        next_start_time: None,
    };
    assert!(ui.advance(double(1.5), Some(bounds)));
    assert_eq!(value(ui.inspector_state.unwrap().time), 1.5);
    ui.release();
    let inspector = ui.inspector_state.unwrap();
    assert_eq!(value(inspector.time), 1.);
    assert!(matches!(inspector.play_state, PlayState::Paused));
    assert!(!ui.advance(double(2.), Some(bounds)));
    assert_eq!(value(ui.inspector_state.unwrap().time), 1.);
    assert!(!ui.advance(double(2.), None));
    assert!(ui.inspector_state.is_none());
}

#[test]
fn playing_goes_on_with_the_next_transmission() {
    let mut ui = FmUi::new();
    ui.inspect_and_play(4, double(1.));
    ui.release();
    ui.toggle_play();
    let mut bounds = TransmissionBounds {
        start_time: double(0.),
        end_time: double(2.),
        next_start_time: Some(double(5.)),
    };
    assert_eq!(
        ui.feed(true, 3, 10, 8),
        Some(AudioRange { start: 3, end: 8 })
    );
    assert!(ui.advance(double(2.5), Some(bounds)));
    let inspector = ui.inspector_state.unwrap();
    assert_eq!(inspector.transmission_id, 5);
    assert_eq!(value(inspector.time), 5.);
    assert!(ui.player.is_none());
    bounds.next_start_time = None;
    assert!(!ui.advance(double(7.), Some(bounds)));
    assert_eq!(value(ui.inspector_state.unwrap().time), 2.);
    ui.toggle_play();
    assert!(!ui.advance(double(1.), Some(bounds)));
    ui.seek(double(-1.));
    ui.advance(double(-1.), Some(bounds));
    assert_eq!(value(ui.inspector_state.unwrap().time), 0.);
}

#[test]
fn transmissions_can_be_skipped() {
    let mut ui = FmUi::new();
    ui.inspect_and_play(1, double(1.));
    ui.release();
    let mut bounds = TransmissionBounds {
        start_time: double(0.),
        end_time: double(2.),
        next_start_time: Some(double(5.)),
    };
    ui.next(bounds);
    assert_eq!(ui.inspector_state.unwrap().transmission_id, 2);
    bounds.next_start_time = None;
    ui.next(bounds);
    assert_eq!(ui.inspector_state.unwrap().transmission_id, 2);
    assert_eq!(value(ui.inspector_state.unwrap().time), 2.);
    ui.previous(Some(double(7.)));
    assert_eq!(ui.inspector_state.unwrap().transmission_id, 1);
    ui.previous(None);
    assert_eq!(ui.inspector_state.unwrap().transmission_id, 1);
    ui.previous(Some(double(8.)));
    ui.previous(Some(double(9.)));
    assert_eq!(ui.inspector_state.unwrap().transmission_id, 0);
    assert_eq!(value(ui.inspector_state.unwrap().time), 8.);
    ui.close();
    assert!(ui.inspector_state.is_none());
}

#[test]
fn audio_is_handed_over_once() {
    let mut ui = FmUi::new();
    assert_eq!(ui.feed(true, 2, 5, 9), Some(AudioRange { start: 2, end: 5 }));
    assert_eq!(ui.feed(true, 3, 5, 9), None);
    assert_eq!(ui.feed(true, 3, 12, 9), Some(AudioRange { start: 5, end: 9 }));
    assert_eq!(ui.feed(false, 3, 12, 9), None);
    assert!(ui.player.is_none());
}

#[test]
fn chunks_and_strides() {
    assert_eq!(closest_chunk(-4, 0, 3), 0);
    assert_eq!(closest_chunk(1, 0, 3), 1);
    assert_eq!(closest_chunk(3, 0, 3), 2);
    assert_eq!(plot_stride(100), 1);
    assert_eq!(plot_stride(101), 1);
    assert_eq!(plot_stride(250), 2);
}
