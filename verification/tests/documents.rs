use std::collections::{BTreeMap, BTreeSet};
use std::sync::Arc;

use sdr::active_document::{ActiveDocument, ReceivedChunk, ReceivedChunks, StreamDescriptor};
use sdr::analysis::{Analysis, ClipCursor, Cursor, Event, ProcessorParameters};
use sdr::chunked_deque::ChunkedDeque;
use sdr::document::{
    clip_name_text, parse_clip_number, validate_magic, Chunk, Clip, ClipDescriptor, Document,
    RawIqSamples, MAGIC_NUMBER,
};
use sdr::double::Double;
use sdr::processing::{clip_changes, DocumentUpdate, ProcessingState};
use sdr::processor::{FmProcessorParameters, SpecificProcessorParameters};
use sdr::time::Timestamp;

fn double(value: f64) -> Double {
    Double::from_bits(value.to_bits())
}

fn value(number: Double) -> f64 {
    f64::from_bits(number.to_bits())
}

fn at(secs: i64) -> Timestamp {
    Timestamp { secs, nanos: 0 }
}

fn stream(frequency: f64) -> StreamDescriptor {
    StreamDescriptor {
        frequency: double(frequency),
        sample_rate: double(1e6),
        chunk_size: 2,
    }
}

fn chunk(sample: i8) -> Chunk {
    Chunk::new(RawIqSamples::CS8(vec![(sample, sample), (0, 0)]))
}

fn piece(stream_id: usize, time: f64, sample: i8) -> ReceivedChunk {
    ReceivedChunk {
        stream_id,
        clip_start_time: double(time),
        chunk: chunk(sample),
    }
}

fn clip(name: &str, start: isize, len: usize) -> Clip {
    Clip {
        descriptor: ClipDescriptor {
            name: name.to_string(),
            frequency: double(1e8),
            sample_rate: double(1e6),
            reference_time: double(0.),
            chunk_size: 2,
        },
        chunks: ChunkedDeque::from_elements(start, (0..len).map(|_| chunk(1)).collect()),
    }
}

fn document(clips: Vec<(usize, Clip)>) -> Document {
    Document {
        clips: clips
            .into_iter()
            .map(|(id, clip)| (id, Arc::new(clip)))
            .collect(),
    }
}

fn times(entries: &[(usize, f64)]) -> BTreeMap<usize, Double> {
    entries
        .iter()
        .map(|(id, time)| (*id, double(*time)))
        .collect()
}

fn ids(entries: &[usize]) -> BTreeSet<usize> {
    entries.iter().copied().collect()
}

fn fm(enabled: bool, frequency: f64) -> ProcessorParameters<SpecificProcessorParameters> {
    ProcessorParameters {
        name: "FM".to_string(),
        enabled,
        specific_parameters: SpecificProcessorParameters::Fm(FmProcessorParameters {
            frequency: double(frequency),
            ..FmProcessorParameters::default()
        }),
    }
}

#[test]
fn files_start_with_a_magic_number() {
    assert!(validate_magic(MAGIC_NUMBER).is_ok());
    let other = [0x53, 0x44, 0x52, 0x00, 0x02];
    assert_eq!(validate_magic(other).unwrap_err().found, other);
    assert!(validate_magic([0; 5]).is_err());
}

#[test]
fn names_of_clips() {
    assert_eq!(clip_name_text(17), "Clip 17");
    assert_eq!(parse_clip_number("Clip 17"), Some(17));
    assert_eq!(parse_clip_number("Clip +17"), Some(17));
    assert_eq!(parse_clip_number("Clip 17b"), None);
    assert_eq!(parse_clip_number("Clip"), None);
    assert_eq!(parse_clip_number("clip 17"), None);
}

#[test]
fn samples_are_counted() {
    assert_eq!(RawIqSamples::CS8(vec![(1, 2), (3, 4)]).len(), 2);
    let chunk = chunk(5);
    assert_eq!(chunk.as_ref().len(), 2);
    assert!(chunk == chunk.clone());
    assert!(chunk != self::chunk(5));
}

#[test]
fn documents_are_compared() {
    let old = document(vec![
        (1, clip("a", 0, 2)),
        (2, clip("b", 0, 2)),
        (3, clip("c", 0, 2)),
    ]);
    let mut new = old.clone();
    new.clips.remove(&1);
    Arc::make_mut(new.clips.get_mut(&2).unwrap())
        .chunks
        .push_back(chunk(3));
    new.clips.insert(9, Arc::new(clip("d", 0, 1)));
    let removed: Vec<usize> = old.removed_clips(&new).iter().map(|entry| entry.0).collect();
    let added: Vec<usize> = old.added_clips(&new).iter().map(|entry| entry.0).collect();
    let modified: Vec<usize> = old
        .modified_clips(&new)
        .iter()
        .map(|entry| entry.0)
        .collect();
    assert_eq!(removed, vec![1]);
    assert_eq!(added, vec![9]);
    assert_eq!(modified, vec![2]);
    let changes = clip_changes(&old, &new);
    assert_eq!(changes.len(), 1);
    assert_eq!(changes[0].clip_id, 2);
    assert!(changes[0].continues);
    Arc::make_mut(new.clips.get_mut(&2).unwrap()).chunks = clip("b", 0, 3).chunks;
    assert!(!clip_changes(&old, &new)[0].continues);
}

#[test]
fn times_of_documents() {
    let document = document(vec![(1, clip("a", 0, 1)), (2, clip("b", 0, 1))]);
    let some = times(&[(1, 4.), (2, -3.)]);
    assert_eq!(value(document.earliest_time(&some).unwrap()), -3.);
    assert_eq!(value(document.latest_time(&some).unwrap()), 4.);
    assert!(Document::new().earliest_time(&some).is_none());
    assert!(Document::new().latest_time(&some).is_none());
}

#[test]
fn recording_makes_clips() {
    let mut active = ActiveDocument::new();
    let id = active.record(at(5), double(2.));
    let (started, place) = active.recording_start(id).unwrap();
    assert_eq!(started, at(5));
    assert_eq!(value(place), 2.);
    assert!(active.recording_start(id + 1).is_none());
    let streams = vec![(7, stream(1e8)), (8, stream(2e8))];
    active.update_recording(
        id,
        ReceivedChunks {
            chunks: vec![piece(8, 2., 1), piece(7, 2.5, 2), piece(8, 3., 3)],
            active_streams: streams.clone(),
        },
    );
    assert!(active.active_clips().is_empty());
    active.update(&ids(&[id]));
    let clips = &active.document().clips;
    assert_eq!(clips.len(), 2);
    assert_eq!(clips[&0].descriptor.name, "Clip 1");
    assert_eq!(value(clips[&0].descriptor.frequency), 2e8);
    assert_eq!(value(clips[&0].descriptor.reference_time), 2.);
    assert_eq!(clips[&0].chunks.end_index(), 2);
    assert_eq!(clips[&1].descriptor.name, "Clip 2");
    assert_eq!(clips[&1].chunks.end_index(), 1);
    assert_eq!(*active.active_clips(), ids(&[0, 1]));
    active.update_recording(
        id,
        ReceivedChunks {
            chunks: vec![piece(8, 9., 4)],
            active_streams: vec![streams[1]],
        },
    );
    active.update(&ids(&[id]));
    assert_eq!(active.document().clips[&0].chunks.end_index(), 3);
    assert_eq!(*active.active_clips(), ids(&[0]));
    active.update(&ids(&[]));
    assert!(active.active_clips().is_empty());
    assert!(active.recording_start(id).is_none());
}

#[test]
fn only_clips_that_are_not_active_are_deleted() {
    let mut active = ActiveDocument::new();
    let id = active.record(at(0), double(0.));
    active.update_recording(
        id,
        ReceivedChunks {
            chunks: vec![piece(1, 0., 1)],
            active_streams: vec![(1, stream(1e8))],
        },
    );
    active.update(&ids(&[]));
    let id = active.record(at(1), double(1.));
    active.update_recording(
        id,
        ReceivedChunks {
            chunks: vec![piece(2, 1., 1)],
            active_streams: vec![(2, stream(1e8))],
        },
    );
    active.update(&ids(&[id]));
    let mut selection = ids(&[0, 1, 5]);
    active.delete_selection(&mut selection);
    assert_eq!(selection, ids(&[1]));
    assert_eq!(active.document().clips.len(), 1);
    assert!(active.document().clips.contains_key(&1));
}

#[test]
fn pieces_need_the_clip_that_they_go_on_in() {
    let mut active = ActiveDocument::new();
    let id = active.record(at(0), double(0.));
    let received = |chunks| ReceivedChunks {
        chunks,
        active_streams: vec![(1, stream(1e8)), (2, stream(2e8))],
    };
    assert!(active.can_append(id, &received(vec![piece(1, 0., 1)])));
    active.update_recording(id, received(vec![piece(1, 0., 1)]));
    assert!(active.can_append(id, &received(vec![piece(1, 0., 1)])));
    active.delete_selection(&mut ids(&[0]));
    assert!(!active.can_append(id, &received(vec![piece(2, 1., 1), piece(1, 1., 1)])));
    assert!(active.can_append(id, &received(vec![piece(2, 1., 1)])));
    active.update_recording(id, received(vec![piece(2, 1., 1)]));
    assert_eq!(active.document().clips.len(), 1);
    assert_eq!(active.document().clips[&1].chunks.end_index(), 1);
}

#[test]
fn old_chunks_expire() {
    let mut active = ActiveDocument::from_document(document(vec![
        (3, clip("Clip 4", 0, 5)),
        (4, clip("other", 0, 5)),
        (5, clip("Clip 9", 0, 5)),
    ]));
    active.expire(&BTreeMap::from([(3, 2), (4, 5)]));
    let clips = &active.document().clips;
    assert_eq!(clips[&3].chunks.start_index(), 2);
    assert!(!clips.contains_key(&4));
    assert_eq!(clips[&5].chunks.start_index(), 0);
}

#[test]
fn names_go_on_in_a_loaded_document() {
    let mut active = ActiveDocument::from_document(document(vec![
        (3, clip("Clip 4", 0, 1)),
        (1, clip("Clip x", 0, 1)),
    ]));
    let id = active.record(at(0), double(0.));
    active.update_recording(
        id,
        ReceivedChunks {
            chunks: vec![piece(1, 0., 1)],
            active_streams: vec![(1, stream(1e8))],
        },
    );
    assert_eq!(active.document().clips[&4].descriptor.name, "Clip 5");
    let descriptor = ClipDescriptor {
        name: "Renamed".to_string(),
        ..active.document().clips[&3].descriptor.clone()
    };
    active.set_descriptor(3, descriptor);
    assert_eq!(active.document().clips[&3].descriptor.name, "Renamed");
    assert_eq!(active.document().clips[&3].chunks.end_index(), 1);
}

#[test]
fn cursors_are_ordered() {
    let places = [
        ClipCursor::Before,
        ClipCursor::Index(-1),
        ClipCursor::Index(2),
        ClipCursor::After,
    ];
    for (i, a) in places.iter().enumerate() {
        for (k, b) in places.iter().enumerate() {
            assert_eq!(a.lt(*b), i < k);
        }
    }
}

#[test]
fn the_earliest_clip_comes_first() {
    let document = document(vec![(1, clip("a", 0, 1)), (2, clip("b", -1, 1))]);
    let mut cursor = Cursor::start_of_document(&document);
    assert!(cursor.find(7).is_none());
    assert_eq!(cursor.find(1), Some(ClipCursor::Before));
    let at_two = times(&[(1, 5.), (2, 4.)]);
    assert_eq!(value(cursor.time(&at_two).unwrap()), 4.);
    assert_eq!(cursor.advance(&at_two, &document, &ids(&[])), Some(Event::ClipStart(2)));
    assert_eq!(cursor.get(2), ClipCursor::Index(-1));
    assert_eq!(cursor.advance(&at_two, &document, &ids(&[])), Some(Event::Chunk(2, -1)));
    let equal = times(&[(1, 5.), (2, 5.)]);
    assert_eq!(cursor.advance(&equal, &document, &ids(&[])), Some(Event::ClipStart(1)));
    let late = times(&[(1, 6.), (2, 5.)]);
    assert_eq!(cursor.advance(&late, &document, &ids(&[2])), None);
    assert_eq!(cursor.chunk_offsets(&document), vec![(1, 0), (2, 1)]);
    assert_eq!(cursor.advance(&late, &document, &ids(&[])), Some(Event::ClipEnd(2)));
    assert_eq!(cursor.advance(&late, &document, &ids(&[])), Some(Event::Chunk(1, 0)));
    assert_eq!(cursor.advance(&late, &document, &ids(&[])), Some(Event::ClipEnd(1)));
    assert_eq!(cursor.advance(&late, &document, &ids(&[])), None);
    let start = Cursor::start_of_document(&document);
    assert!(start.is_before(&cursor));
    assert!(!cursor.is_before(&start));
    cursor.remove_clip(1);
    cursor.add_clip(3);
    cursor.set(2, ClipCursor::Index(4));
    assert!(cursor.find(1).is_none());
    assert_eq!(cursor.get(3), ClipCursor::Before);
    assert_eq!(cursor.get(2), ClipCursor::Index(4));
    assert!(Cursor::new_empty().time(&late).is_none());
}

#[test]
fn processors_follow_their_parameters() {
    let mut analysis: Analysis<SpecificProcessorParameters> = Analysis::new();
    let first = BTreeMap::from([(1, fm(true, 1e8)), (2, fm(false, 1e8)), (3, fm(true, 1e8))]);
    let changes = analysis.process(&first);
    assert_eq!(changes.started, vec![(1, 0), (3, 1)]);
    assert!(changes.dropped.is_empty());
    assert!(changes.replaced.is_empty());
    let second = BTreeMap::from([(1, fm(true, 2e8)), (2, fm(true, 1e8)), (3, fm(false, 1e8))]);
    let changes = analysis.process(&second);
    assert_eq!(changes.dropped, vec![(3, 1)]);
    assert_eq!(changes.started, vec![(2, 2)]);
    assert_eq!(changes.replaced, vec![(1, 0, 3)]);
    assert_eq!(analysis.instance(1), Some(3));
    assert_eq!(analysis.instance(3), None);
    let changes = analysis.process(&second);
    assert!(changes.dropped.is_empty());
    assert!(changes.started.is_empty());
    assert!(changes.replaced.is_empty());
}

#[test]
fn parameters_that_are_no_number_start_processors_anew() {
    let mut analysis: Analysis<SpecificProcessorParameters> = Analysis::new();
    let parameters = BTreeMap::from([(1, fm(true, f64::NAN))]);
    let changes = analysis.process(&parameters);
    assert_eq!(changes.started, vec![(1, 0)]);
    assert_eq!(changes.replaced, vec![(1, 0, 1)]);
    let changes = analysis.process(&parameters);
    assert!(changes.started.is_empty());
    assert_eq!(changes.replaced, vec![(1, 1, 2)]);
}

fn take_up(
    state: &mut ProcessingState,
    document: &Document,
    new_processors: Vec<usize>,
    active: &[usize],
    cursor_times: &[(usize, f64)],
    start_times: &[(usize, f64)],
) -> bool {
    let changes = clip_changes(state.document(), document);
    state.process(
        DocumentUpdate {
            removed_processors: vec![],
            new_processors,
            document: document.clone(),
            active_clips: ids(active),
        },
        &changes,
        &times(cursor_times),
        &times(start_times),
    )
}

#[test]
fn events_reach_the_processors_that_have_not_got_that_far() {
    let mut state = ProcessingState::new();
    let first = document(vec![(1, clip("a", 0, 1))]);
    assert!(!take_up(&mut state, &first, vec![10], &[1], &[], &[(1, 0.)]));
    let step = state.next_event(&times(&[(1, 0.)])).unwrap();
    assert_eq!(step.event, Event::ClipStart(1));
    assert_eq!(step.processors, vec![10]);
    let step = state.next_event(&times(&[(1, 0.)])).unwrap();
    assert_eq!(step.event, Event::Chunk(1, 0));
    assert!(step.preprocessed);
    assert!(state.next_event(&times(&[(1, 1.)])).is_none());
    assert!(!take_up(&mut state, &first, vec![11], &[1], &[(1, 1.)], &[(1, 0.)]));
    let step = state.next_event(&times(&[(1, 0.)])).unwrap();
    assert_eq!(step.event, Event::ClipStart(1));
    assert_eq!(step.processors, vec![11]);
    assert_eq!(state.cursor().find(1), Some(ClipCursor::Index(0)));
}

#[test]
fn a_clip_that_is_continued_is_continued() {
    let mut state = ProcessingState::new();
    let first = document(vec![(1, clip("a", 0, 1))]);
    take_up(&mut state, &first, vec![10], &[1], &[], &[(1, 0.)]);
    while state.next_event(&times(&[(1, 0.)])).is_some() {}
    let mut second = first.clone();
    Arc::make_mut(second.clips.get_mut(&1).unwrap())
        .chunks
        .push_back(chunk(7));
    assert!(!take_up(&mut state, &second, vec![], &[], &[(1, 1.)], &[(1, 0.)]));
    let step = state.next_event(&times(&[(1, 1.)])).unwrap();
    assert_eq!(step.event, Event::Chunk(1, 1));
    assert_eq!(step.processors, vec![10]);
    assert_eq!(state.next_event(&times(&[(1, 2.)])).unwrap().event, Event::ClipEnd(1));
    let mut third = second.clone();
    Arc::make_mut(third.clips.get_mut(&1).unwrap())
        .descriptor
        .frequency = double(5.);
    assert!(take_up(&mut state, &third, vec![], &[], &[(1, 2.)], &[(1, 0.)]));
    assert_eq!(state.cursor().find(1), Some(ClipCursor::Before));
}

#[test]
fn what_is_added_before_the_cursor_starts_everything_anew() {
    let mut state = ProcessingState::new();
    let first = document(vec![(1, clip("a", 0, 2))]);
    take_up(&mut state, &first, vec![10], &[], &[], &[(1, 0.)]);
    state.next_event(&times(&[(1, 0.)]));
    state.next_event(&times(&[(1, 0.)]));
    let mut second = first.clone();
    second.clips.insert(2, Arc::new(clip("b", 0, 1)));
    assert!(!take_up(&mut state, &second, vec![], &[], &[(1, 1.)], &[(1, 0.), (2, 1.)]));
    let mut third = second.clone();
    third.clips.insert(3, Arc::new(clip("c", 0, 1)));
    assert!(take_up(
        &mut state,
        &third,
        vec![],
        &[],
        &[(1, 1.), (2, 1.)],
        &[(1, 0.), (2, 1.), (3, 0.5)]
    ));
    let mut fourth = third.clone();
    fourth.clips.remove(&1);
    assert!(!take_up(
        &mut state,
        &fourth,
        vec![],
        &[],
        &[(2, 1.), (3, 0.5)],
        &[(2, 1.), (3, 0.5)]
    ));
}

#[test]
fn expiry_starts_anew_only_where_something_is_missed() {
    let mut state = ProcessingState::new();
    let first = document(vec![(1, clip("a", 0, 4))]);
    take_up(&mut state, &first, vec![10], &[1], &[], &[(1, 0.)]);
    for _ in 0..3 {
        state.next_event(&times(&[(1, 0.)]));
    }
    assert_eq!(state.cursor().find(1), Some(ClipCursor::Index(2)));
    let mut second = first.clone();
    Arc::make_mut(second.clips.get_mut(&1).unwrap())
        .chunks
        .remove_front(2);
    let changes = clip_changes(state.document(), &second);
    assert!(!state.process_expiry(second.clone(), &changes));
    assert_eq!(state.cursor().find(1), Some(ClipCursor::Index(2)));
    let mut third = second.clone();
    Arc::make_mut(third.clips.get_mut(&1).unwrap())
        .chunks
        .remove_front(3);
    let changes = clip_changes(state.document(), &third);
    assert!(state.process_expiry(third, &changes));
    assert_eq!(state.cursor().find(1), Some(ClipCursor::Before));
}
