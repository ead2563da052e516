use std::collections::{BTreeMap, BTreeSet};

use sdr::double::Double;
use sdr::preprocessor::{fft_size, StreamPreprocessor};
use sdr::processor::{
    FmProcessorParameters, SpecificProcessorParameters, DEFAULT_BANDWIDTH_BITS,
    DEFAULT_FREQUENCY_BITS, DEFAULT_HYSTERESIS_BITS, DEFAULT_SQUELCH_BITS,
};
use sdr::processor_graphics::{
    add_processor, decide_shown, find, next_processor_id, retain_instances, ProcessorEntry,
    ProcessorGraphics,
};
use sdr::stream_processor::{
    ChannelResults, Overload, Processor, StreamCandidate, StreamChunkProcessor,
};
use sdr::time::Timestamp;
use sdr::waterfall::{ChannelCandidate, Waterfall};

fn double(value: f64) -> Double {
    Double::from_bits(value.to_bits())
}

fn entry(enabled: bool, has_data: bool, show_setup: bool) -> ProcessorEntry {
    ProcessorEntry {
        enabled,
        has_data,
        show_setup,
    }
}

#[test]
fn sizes_of_spectra() {
    assert_eq!(fft_size(1000), 1024);
    assert_eq!(fft_size(1024), 1024);
    assert_eq!(fft_size(1), 1);
}

#[test]
fn samples_come_out_in_overlapping_windows() {
    let mut preprocessor = StreamPreprocessor::new(4);
    assert!(preprocessor.process(vec![1, 2, 3]).is_empty());
    assert_eq!(preprocessor.process(vec![4, 5]), vec![0, 0, 1, 2, 1, 2, 3, 4]);
    assert_eq!(
        preprocessor.process(vec![6, 7, 8, 9]),
        vec![3, 4, 5, 6, 5, 6, 7, 8]
    );
}

#[test]
fn pieces_do_not_matter_to_windows() {
    let samples: Vec<i32> = (1..30).collect();
    let mut whole = StreamPreprocessor::new(6);
    let all = whole.process(samples.clone());
    let mut pieces = StreamPreprocessor::new(6);
    let mut windows = vec![];
    for piece in samples.chunks(5) {
        windows.extend(pieces.process(piece.to_vec()));
    }
    assert_eq!(all, windows);
}

#[test]
fn only_channels_within_the_stream_are_gathered() {
    let candidates = vec![
        ChannelCandidate {
            center_bin: 1,
            width_bins: 2,
        },
        ChannelCandidate {
            center_bin: 0,
            width_bins: 2,
        },
        ChannelCandidate {
            center_bin: 2,
            width_bins: 2,
        },
    ];
    let mut waterfall = Waterfall::new(4, &candidates);
    let mut gathered = waterfall.gather(&vec![1, 2, 3, 4], 0);
    gathered.sort_by_key(|one| one.channel.bins.left_bin);
    assert_eq!(gathered.len(), 2);
    assert_eq!(gathered[0].spectra, vec![1, 2]);
    assert_eq!(gathered[0].turned, vec![false]);
    assert!(gathered[0].channel.odd_bin);
    assert_eq!(gathered[1].spectra, vec![2, 3]);
    let mut again = waterfall.gather(&vec![1, 2, 3, 4], 0);
    again.sort_by_key(|one| one.channel.bins.left_bin);
    assert_eq!(again[0].turned, vec![true]);
    assert_eq!(again[1].turned, vec![false]);
}

#[test]
fn no_channels_are_gathered_where_there_are_none() {
    let mut waterfall = Waterfall::new(4, &vec![]);
    assert!(waterfall.gather(&vec![1, 2, 3, 4], 0).is_empty());
}

#[test]
fn equal_channels_are_gathered_each() {
    let candidate = ChannelCandidate {
        center_bin: 1,
        width_bins: 2,
    };
    let mut waterfall = Waterfall::new(4, &vec![candidate, candidate]);
    assert_eq!(waterfall.gather(&vec![1, 2, 3, 4], 0).len(), 2);
}

#[test]
fn channels_of_a_stream_are_numbered() {
    let mut processor = StreamChunkProcessor::new(
        4,
        3,
        &vec![
            StreamCandidate {
                center_bin: 0,
                signal_bin_count: 2,
                margin_bin_count: 1,
            },
            StreamCandidate {
                center_bin: 2,
                signal_bin_count: 2,
                margin_bin_count: 1,
            },
        ],
    );
    assert_eq!(processor.chunk_size, 12);
    let gathered = processor.gather(&vec![1, 2, 3, 4], 0);
    assert_eq!(gathered.len(), 1);
    assert_eq!(gathered[0].id, 0);
    assert_eq!(gathered[0].spectra, vec![0, 2, 3, 0]);
    assert!(processor.counter);
    let mut even = StreamChunkProcessor::new(4, 2, &vec![]);
    even.gather(&vec![1, 2, 3, 4], 0);
    assert!(!even.counter);
}

#[test]
fn results_are_kept_by_channel() {
    let mut results = ChannelResults::new();
    results.push(1, 'a');
    results.push(2, 'b');
    results.push(1, 'c');
    assert_eq!(
        results.channels,
        BTreeMap::from([(1, vec!['a', 'c']), (2, vec!['b'])])
    );
}

#[test]
fn streams_come_and_go() {
    let mut processor = Processor::new();
    assert_eq!(processor.update(&BTreeSet::from([1, 2])).added, vec![1, 2]);
    let update = processor.update(&BTreeSet::from([2, 3]));
    assert_eq!(update.removed, vec![1]);
    assert_eq!(update.added, vec![3]);
}

#[test]
fn overload_stays_for_a_while() {
    let start = Timestamp { secs: 0, nanos: 0 };
    let now = Timestamp { secs: 5, nanos: 0 };
    let mut overload = Overload {
        overload_time: start,
        overload: false,
    };
    overload.update(double(0.5), double(1.), now, false);
    assert!(!overload.overload);
    overload.update(double(1.), double(1.), now, false);
    assert!(overload.overload);
    assert_eq!(overload.overload_time, now);
    overload.update(double(0.5), double(1.), start, false);
    assert!(overload.overload);
    overload.update(double(f64::NAN), double(1.), start, true);
    assert!(!overload.overload);
    assert_eq!(overload.overload_time, now);
}

#[test]
fn processors_start_out_alike() {
    assert_eq!(DEFAULT_FREQUENCY_BITS, 100e6f64.to_bits());
    assert_eq!(DEFAULT_BANDWIDTH_BITS, 200e3f64.to_bits());
    assert_eq!(DEFAULT_SQUELCH_BITS, (-100f64).to_bits());
    assert_eq!(DEFAULT_HYSTERESIS_BITS, 3f64.to_bits());
    let types = SpecificProcessorParameters::available_types();
    assert_eq!(types.len(), 1);
    assert_eq!(types[0].0, "FM Demodulator");
    assert_eq!(types[0].1.kind_name(), "FM Demodulator");
    assert!(types[0].1 == SpecificProcessorParameters::Fm(FmProcessorParameters::default()));
    let other = FmProcessorParameters {
        squelch_db: double(-50.),
        ..FmProcessorParameters::default()
    };
    assert!(types[0].1 != SpecificProcessorParameters::Fm(other));
}

#[test]
fn added_processors_are_named_and_numbered() {
    let mut processors = BTreeMap::new();
    let fm = || SpecificProcessorParameters::Fm(FmProcessorParameters::default());
    assert_eq!(next_processor_id(&processors), Some(1));
    let first = add_processor(&mut processors, fm());
    let second = add_processor(&mut processors, fm());
    assert_eq!((first, second), (1, 2));
    assert_eq!(processors[&1].name, "FM Demodulator 1");
    assert_eq!(processors[&2].name, "FM Demodulator 2");
    assert!(processors[&2].enabled);
    processors.remove(&1);
    assert_eq!(add_processor(&mut processors, fm()), 3);
    assert_eq!(processors[&3].name, "FM Demodulator 2");
    let last = processors.remove(&3).unwrap();
    processors.insert(usize::MAX, last);
    assert_eq!(next_processor_id(&processors), None);
}

#[test]
fn processors_are_searched_whatever_the_size_of_letters() {
    let mut graphics = ProcessorGraphics::new();
    assert!(graphics.shows("Weather", entry(false, false, false)));
    graphics.search_text = "WEATH".to_string();
    assert!(graphics.shows("Noaa weather", entry(false, false, false)));
    assert!(!graphics.shows("Marine", entry(true, true, false)));
    assert!(graphics.shows("Marine", entry(false, false, true)));
    graphics.search_text = "\u{c9}T".to_string();
    assert!(graphics.shows("\u{e9}t\u{e9}", entry(false, false, false)));
    assert_eq!(find("abc", ""), None);
    assert_eq!(find("abc", "bc"), Some(true));
    assert_eq!(find("abc", "B"), Some(false));
}

#[test]
fn processors_are_filtered() {
    let mut graphics = ProcessorGraphics::new();
    graphics.set_filter_enabled(true);
    assert!(graphics.shows("a", entry(true, false, false)));
    assert!(!graphics.shows("a", entry(false, true, false)));
    graphics.set_filter_has_data(true);
    assert!(!graphics.filter_enabled);
    assert!(graphics.shows("a", entry(false, true, false)));
    assert!(!graphics.shows("a", entry(true, false, false)));
    graphics.set_filter_enabled(true);
    assert!(!graphics.filter_has_data);
    graphics.set_filter_enabled(false);
    assert!(!graphics.filter_enabled);
    assert!(decide_shown(Some(true), true, true, entry(false, false, false)));
    assert!(!decide_shown(None, true, true, entry(true, false, false)));
}

#[test]
fn only_active_instances_are_kept() {
    assert_eq!(
        retain_instances(&BTreeSet::from([1, 2, 3]), &BTreeSet::from([2, 3, 4])),
        vec![2, 3]
    );
}
