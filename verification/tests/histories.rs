use std::collections::BTreeMap;

use sdr::active_document::StreamDescriptor;
use sdr::document::RawIqSamples;
use sdr::double::Double;
use sdr::history_worker::HistoryWorker;
use sdr::raw_history::{HardwareResult, RawHistory, ReceiveStreamChunk};
use sdr::time::Timestamp;

fn at(secs: i64) -> Timestamp {
    Timestamp { secs, nanos: 0 }
}

fn descriptor() -> StreamDescriptor {
    StreamDescriptor {
        frequency: Double::from_bits(1.0e8f64.to_bits()),
        sample_rate: Double::from_bits(2.0e6f64.to_bits()),
        chunk_size: 1,
    }
}

fn received(chunks: &[(usize, i64)], streams: &[usize]) -> HardwareResult {
    HardwareResult {
        chunks: chunks
            .iter()
            .map(|(stream_id, secs)| ReceiveStreamChunk {
                stream_id: *stream_id,
                time: at(*secs),
                chunk: RawIqSamples::CS8(vec![(1, 1)]),
            })
            .collect(),
        active_streams: streams.iter().map(|id| (*id, descriptor())).collect(),
    }
}

fn processors(ids: &[usize]) -> BTreeMap<usize, &'static str> {
    ids.iter().map(|id| (*id, "fm")).collect()
}

#[test]
fn messages_tell_what_is_new() {
    let mut history: RawHistory<&'static str> = RawHistory::new();
    assert!(history.process(&mut processors(&[])).is_none());
    history.update(received(&[(1, 0), (2, 1), (1, 2)], &[1, 2]));
    let message = history.process(&mut processors(&[5])).unwrap();
    assert_eq!(message.new_processors, vec![5]);
    assert!(message.removed_processors.is_empty());
    assert_eq!(message.new_chunks.len(), 3);
    assert_eq!(message.chunks_start, 0);
    assert_eq!((message.streams[&1].start, message.streams[&1].end), (0, 3));
    assert!(history.process(&mut processors(&[5])).is_none());
    history.update(received(&[(2, 3)], &[2]));
    history.expire(at(2));
    let message = history.process(&mut processors(&[6])).unwrap();
    assert_eq!(message.removed_processors, vec![5]);
    assert_eq!(message.new_processors, vec![6]);
    assert_eq!(message.new_chunks.len(), 1);
    assert_eq!(message.new_chunks[0].time, at(3));
    assert_eq!(message.chunks_start, 2);
    assert_eq!((message.streams[&1].start, message.streams[&1].end), (2, 3));
    assert_eq!((message.streams[&2].start, message.streams[&2].end), (2, 4));
}

#[test]
fn streams_that_are_over_expire() {
    let mut history: RawHistory<&'static str> = RawHistory::new();
    history.update(received(&[(1, 0)], &[1]));
    history.update(received(&[(2, 1)], &[2]));
    history.process(&mut processors(&[]));
    history.expire(at(1));
    let message = history.process(&mut processors(&[])).unwrap();
    assert_eq!(message.chunks_start, 1);
    assert!(!message.streams.contains_key(&1));
    assert!(message.streams.contains_key(&2));
}

#[test]
fn nothing_received_changes_nothing() {
    let mut history: RawHistory<&'static str> = RawHistory::new();
    history.update(received(&[], &[1]));
    assert!(history.process(&mut processors(&[])).is_none());
}

#[test]
fn the_parameters_of_a_processor_stay() {
    let mut history: RawHistory<&'static str> = RawHistory::new();
    history.process(&mut BTreeMap::from([(1, "old")]));
    let mut parameters = BTreeMap::from([(1, "new")]);
    assert!(history.process(&mut parameters).is_none());
    assert_eq!(parameters[&1], "old");
}

#[test]
fn a_worker_walks_the_history() {
    let mut history: RawHistory<&'static str> = RawHistory::new();
    let mut worker = HistoryWorker::new();
    history.update(received(&[(1, 0), (2, 1)], &[1, 2]));
    history.update(received(&[(2, 2)], &[2]));
    let message = history.process(&mut processors(&[5])).unwrap();
    assert!(worker.apply(message).is_empty());
    let step = worker.step().unwrap();
    assert_eq!(step.seq_num, 0);
    assert_eq!(step.chunk.stream_id, 1);
    assert_eq!(step.started, vec![2, 1]);
    assert!(step.ended.is_empty());
    assert_eq!(step.processors, vec![5]);
    let step = worker.step().unwrap();
    assert_eq!(step.seq_num, 1);
    assert!(step.started.is_empty());
    let step = worker.step().unwrap();
    assert_eq!(step.seq_num, 2);
    assert_eq!(step.ended, vec![1]);
    assert!(worker.step().is_none());
}

#[test]
fn a_new_processor_starts_at_the_front() {
    let mut history: RawHistory<&'static str> = RawHistory::new();
    let mut worker = HistoryWorker::new();
    history.update(received(&[(1, 0), (1, 1)], &[1]));
    worker.apply(history.process(&mut processors(&[5])).unwrap());
    while worker.step().is_some() {}
    history.update(received(&[(1, 2)], &[1]));
    worker.apply(history.process(&mut processors(&[5, 6])).unwrap());
    let step = worker.step().unwrap();
    assert_eq!(step.seq_num, 0);
    assert_eq!(step.processors, vec![6]);
    worker.step().unwrap();
    let step = worker.step().unwrap();
    assert_eq!(step.seq_num, 2);
    assert_eq!(step.processors, vec![5, 6]);
}

#[test]
fn a_processor_that_missed_something_is_reset() {
    let mut history: RawHistory<&'static str> = RawHistory::new();
    let mut worker = HistoryWorker::new();
    history.update(received(&[(1, 0), (1, 1), (1, 2)], &[1]));
    worker.apply(history.process(&mut processors(&[5])).unwrap());
    worker.step().unwrap();
    history.expire(at(2));
    let reset = worker.apply(history.process(&mut processors(&[5])).unwrap());
    assert_eq!(reset, vec![5]);
    assert_eq!(worker.step().unwrap().seq_num, 2);
}
