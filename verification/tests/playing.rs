use std::collections::BTreeSet;

use sdr::active_document::ActiveDocument;
use sdr::asr_provider::{join_said, reply, transcript, AsrError, AsrWorker};
use sdr::audio::{
    AudioBuffer, AudioError, AudioFill, AudioProgress, AudioResponse, FeedResult,
};
use sdr::document::{Chunk, RawIqSamples};
use sdr::double::Double;
use sdr::playback::{Autosave, PendingLoopAction, Playback, PlaybackAction};
use sdr::time::Timestamp;

fn double(value: f64) -> Double {
    Double::from_bits(value.to_bits())
}

fn at(secs: i64) -> Timestamp {
    Timestamp { secs, nanos: 0 }
}

fn document_with_a_clip() -> ActiveDocument {
    let mut document = ActiveDocument::new();
    let id = document.record(at(0), double(0.));
    document.update_recording(
        id,
        sdr::active_document::ReceivedChunks {
            chunks: vec![sdr::active_document::ReceivedChunk {
                stream_id: 1,
                clip_start_time: double(0.),
                chunk: Chunk::new(RawIqSamples::CS8(vec![(1, 1)])),
            }],
            active_streams: vec![(
                1,
                sdr::active_document::StreamDescriptor {
                    frequency: double(1e8),
                    sample_rate: double(1e6),
                    chunk_size: 1,
                },
            )],
        },
    );
    document
}

fn action(playback: &Playback) -> Option<PlaybackAction> {
    playback.playback_state.map(|state| state.action)
}

fn piece(seq_num: usize, data: &[u32]) -> AudioBuffer {
    let mut buffer = AudioBuffer::new(data.len());
    buffer.seq_num = seq_num;
    buffer.data.extend_from_slice(data);
    buffer
}

#[test]
fn buttons_play_and_record() {
    let mut document = ActiveDocument::new();
    let mut playback = Playback::new();
    assert!(!playback.is_playing());
    playback.toggle_play(&document);
    assert_eq!(action(&playback), Some(PlaybackAction::Play));
    assert!(playback.is_playing());
    playback.toggle_record(&mut document, at(3), double(1.));
    assert_eq!(action(&playback), Some(PlaybackAction::PlayAndRecord(0)));
    assert_eq!(playback.recording(), Some(0));
    assert_eq!(playback.live_recordings(), BTreeSet::from([0]));
    assert!(document.recording_start(0).is_some());
    playback.toggle_play(&document);
    assert_eq!(action(&playback), Some(PlaybackAction::Record(0)));
    assert!(!playback.is_playing());
    playback.toggle_play(&document);
    assert_eq!(action(&playback), Some(PlaybackAction::PlayAndRecord(0)));
    playback.toggle_record(&mut document, at(4), double(2.));
    assert_eq!(action(&playback), Some(PlaybackAction::Play));
    playback.toggle_record(&mut document, at(5), double(3.));
    assert_eq!(action(&playback), Some(PlaybackAction::PlayAndRecord(1)));
    playback.stop();
    assert_eq!(action(&playback), None);
    assert!(playback.live_recordings().is_empty());
    playback.toggle_record(&mut document, at(6), double(4.));
    assert_eq!(action(&playback), Some(PlaybackAction::Record(2)));
    playback.toggle_record(&mut document, at(7), double(5.));
    assert_eq!(action(&playback), None);
}

#[test]
fn a_loop_asks_before_it_clears_the_document() {
    let mut document = document_with_a_clip();
    let mut playback = Playback::new();
    playback.toggle_loop();
    playback.toggle_record(&mut document, at(3), double(1.));
    assert_eq!(action(&playback), None);
    assert_eq!(playback.loop_confirmation_pending, Some(PendingLoopAction::Record));
    playback.decline();
    assert_eq!(playback.loop_confirmation_pending, None);
    assert_eq!(document.document().clips.len(), 1);
    playback.toggle_play(&document);
    assert_eq!(playback.loop_confirmation_pending, Some(PendingLoopAction::Play));
    playback.confirm(&mut document, at(9), double(0.));
    assert!(document.document().clips.is_empty());
    assert_eq!(action(&playback), Some(PlaybackAction::Play));
    assert!(playback.is_looped());
    playback.toggle_loop();
    assert!(playback.is_looped());
    playback.toggle_play(&document);
    assert!(!playback.loop_enabled);
}

#[test]
fn a_confirmed_recording_starts_now() {
    let mut document = document_with_a_clip();
    let mut playback = Playback::new();
    playback.confirm(&mut document, at(1), double(0.));
    assert_eq!(document.document().clips.len(), 1);
    playback.toggle_loop();
    playback.toggle_record(&mut document, at(3), double(1.));
    playback.confirm(&mut document, at(9), double(0.));
    assert_eq!(action(&playback), Some(PlaybackAction::Record(0)));
    assert_eq!(document.recording_start(0).unwrap().0, at(9));
}

#[test]
fn processors_are_saved_now_and_then() {
    let mut autosave = Autosave {
        last_save_check: at(100),
    };
    assert!(!autosave.is_due(at(109)));
    assert!(!autosave.is_due(Timestamp {
        secs: 109,
        nanos: 999_999_999
    }));
    assert!(autosave.is_due(at(110)));
    assert!(!autosave.is_due(at(111)));
    assert!(!autosave.is_due(at(0)));
}

#[test]
fn pieces_are_played_one_after_the_other() {
    let mut fill = AudioFill::new();
    let nothing = fill.fill(2);
    assert_eq!(nothing.out, vec![0, 0]);
    assert!(nothing.responses.is_empty());
    fill.push(piece(7, &[1, 2, 3]));
    fill.push(piece(8, &[4]));
    let first = fill.fill(2);
    assert_eq!(first.out, vec![1, 2]);
    assert_eq!(first.responses, vec![AudioResponse::Played(7)]);
    let second = fill.fill(4);
    assert_eq!(second.out, vec![3, 4, 0, 0]);
    assert_eq!(
        second.responses,
        vec![AudioResponse::Played(8), AudioResponse::Underrun]
    );
    assert!(fill.fill(1).responses.is_empty());
    assert_eq!(0f32.to_bits(), 0);
}

#[test]
fn progress_is_told() {
    let mut progress = AudioProgress {
        last_played_seq_num: None,
    };
    assert_eq!(
        progress.update(&vec![AudioResponse::Underrun]),
        FeedResult {
            last_played_seq_num: None,
            underrun: true
        }
    );
    assert_eq!(
        progress.update(&vec![AudioResponse::Played(3), AudioResponse::Played(4)]),
        FeedResult {
            last_played_seq_num: Some(4),
            underrun: false
        }
    );
    assert_eq!(
        progress.update(&vec![]),
        FeedResult {
            last_played_seq_num: Some(4),
            underrun: false
        }
    );
    assert_ne!(AudioError::Overrun, AudioError::Underrun);
}

#[test]
fn streams_of_speech_are_cleaned_up() {
    let mut worker = AsrWorker::new();
    assert_eq!(worker.create_stream(), 0);
    assert_eq!(worker.create_stream(), 1);
    assert_eq!(worker.clean_up(&BTreeSet::from([1])), vec![0]);
    assert!(worker.clean_up(&BTreeSet::from([1])).is_empty());
    assert_eq!(worker.create_stream(), 2);
}

#[test]
fn a_recognizer_that_does_not_answer_has_crashed() {
    assert!(matches!(reply::<i32>(None), Err(AsrError::Crashed)));
    assert!(matches!(reply(Some(3)), Ok(3)));
}

#[test]
fn what_is_said_is_joined() {
    assert_eq!(transcript(String::new()), None);
    assert_eq!(transcript("hi".to_string()), Some("hi".to_string()));
    assert_eq!(join_said(&vec![None, None]), None);
    assert_eq!(
        join_said(&vec![Some("over ".to_string()), None, Some("and out".to_string())]),
        Some("over and out".to_string())
    );
}
