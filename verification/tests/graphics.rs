use std::collections::{BTreeMap, BTreeSet};
use std::sync::Arc;

use sdr::canvas::{drag, gridline_index, DragEvent, DragState, Modifiers};
use sdr::chunked_deque::ChunkedDeque;
use sdr::clip_graphics::ClipGraphics;
use sdr::document::{Chunk, Clip, ClipDescriptor, Document, RawIqSamples};
use sdr::document_graphics::{ClipWork, DocumentGraphics};
use sdr::double::Double;
use sdr::processing::clip_changes;
use sdr::textures::TextureCommand;
use sdr::ui::{draw_calls, elided_length, ChunkExtent, DrawCall};

fn double(value: f64) -> Double {
    Double::from_bits(value.to_bits())
}

fn descriptor(sample_rate: f64) -> ClipDescriptor {
    ClipDescriptor {
        name: "Clip 1".to_string(),
        frequency: double(1e8),
        sample_rate: double(sample_rate),
        reference_time: double(0.),
        chunk_size: 4,
    }
}

fn chunk() -> Chunk {
    Chunk::new(RawIqSamples::CS8(vec![(1, 2)]))
}

fn clip(start: isize, len: usize) -> Clip {
    Clip {
        descriptor: descriptor(1e6),
        chunks: ChunkedDeque::from_elements(start, (0..len).map(|_| chunk()).collect()),
    }
}

fn document(clips: Vec<(usize, Clip)>) -> Document {
    Document {
        clips: clips
            .into_iter()
            .map(|(id, clip)| (id, Arc::new(clip)))
            .collect(),
    }
}

fn sizes(ids: &[usize]) -> BTreeMap<usize, u32> {
    ids.iter().map(|id| (*id, 8)).collect()
}

fn show(graphics: &mut DocumentGraphics, document: &Document, active: &[usize]) -> Vec<usize> {
    let changes = clip_changes(&graphics.prev_document, document);
    let ids: Vec<usize> = document.clips.keys().copied().collect();
    let update = graphics.process(document, &changes, &sizes(&ids));
    for work in update.work {
        for _ in work.start_index..work.end_index {
            graphics.push_row(work.clip_id);
        }
    }
    graphics.finish_inactive(&active.iter().copied().collect::<BTreeSet<usize>>());
    update.reset
}

#[test]
fn rows_go_to_segments() {
    let mut graphics = ClipGraphics::new(descriptor(1e6), -2, 8);
    let mut commands = vec![];
    assert!(graphics.process(&mut commands, 5));
    assert!(!graphics.process(&mut commands, 6));
    assert!(graphics.process(&mut commands, 6));
    assert_eq!(graphics.segments, vec![5, 6]);
    let rows: Vec<(usize, u32)> = commands
        .iter()
        .filter_map(|command| match command {
            TextureCommand::Write { texture, write } if write.mip_level == 0 => {
                Some((*texture, write.row))
            }
            _ => None,
        })
        .collect();
    assert_eq!(rows, vec![(5, 254), (5, 255), (6, 0)]);
    let infos = graphics.segment_infos();
    assert_eq!(infos.len(), 2);
    assert_eq!((infos[0].start_index, infos[0].end_index), (-2, 0));
    assert_eq!((infos[0].start_row, infos[0].end_row), (254, 256));
    assert_eq!((infos[1].start_index, infos[1].end_index), (0, 1));
    assert_eq!((infos[1].start_row, infos[1].end_row), (0, 1));
    assert_eq!(infos[0].next_texture, 6);
    assert_eq!(infos[1].prev_texture, 5);
    assert_eq!(infos[1].next_texture, 0);
}

#[test]
fn expiry_drops_whole_segments() {
    let mut graphics = ClipGraphics::new(descriptor(1e6), 0, 8);
    let mut commands = vec![];
    for k in 0..600 {
        graphics.process(&mut commands, k);
    }
    assert_eq!(graphics.segments, vec![0, 256, 512]);
    graphics.expire(300);
    assert_eq!(graphics.segments, vec![256, 512]);
    assert_eq!(graphics.start_index, 300);
    graphics.expire(600);
    assert_eq!(graphics.segments, vec![512]);
    assert!(!graphics.process(&mut commands, 9));
}

#[test]
fn new_clips_are_shown_on_top() {
    let mut graphics = DocumentGraphics::new();
    let first = document(vec![(1, clip(0, 3)), (2, clip(5, 1))]);
    assert_eq!(show(&mut graphics, &first, &[1]), vec![1, 2]);
    assert_eq!(graphics.draw_order, vec![1, 2]);
    assert_eq!(graphics.clips[&1].end_index, 3);
    assert_eq!(graphics.clips[&2].end_index, 6);
    assert!(graphics.clips[&1].active);
    assert!(!graphics.clips[&2].active);
    graphics.bring_to_top(1);
    assert_eq!(graphics.draw_order, vec![2, 1]);
    graphics.bring_to_top(9);
    assert_eq!(graphics.draw_order, vec![2, 1]);
}

#[test]
fn a_continued_clip_is_continued() {
    let mut graphics = DocumentGraphics::new();
    let first = document(vec![(1, clip(0, 3))]);
    show(&mut graphics, &first, &[1]);
    let mut second = first.clone();
    Arc::make_mut(second.clips.get_mut(&1).unwrap())
        .chunks
        .push_back(chunk());
    let changes = clip_changes(&graphics.prev_document, &second);
    let update = graphics.process(&second, &changes, &sizes(&[1]));
    assert!(update.reset.is_empty());
    assert_eq!(
        update.work,
        vec![ClipWork {
            clip_id: 1,
            start_index: 3,
            end_index: 4
        }]
    );
}

#[test]
fn a_finished_clip_that_goes_on_begins_anew() {
    let mut graphics = DocumentGraphics::new();
    let first = document(vec![(1, clip(0, 3))]);
    show(&mut graphics, &first, &[]);
    let mut second = first.clone();
    Arc::make_mut(second.clips.get_mut(&1).unwrap())
        .chunks
        .push_back(chunk());
    assert_eq!(show(&mut graphics, &second, &[1]), vec![1]);
    assert_eq!(graphics.clips[&1].end_index, 4);
}

#[test]
fn another_sample_rate_begins_anew() {
    let mut graphics = DocumentGraphics::new();
    let first = document(vec![(1, clip(0, 3))]);
    show(&mut graphics, &first, &[1]);
    let mut second = first.clone();
    Arc::make_mut(second.clips.get_mut(&1).unwrap()).descriptor = descriptor(2e6);
    assert_eq!(show(&mut graphics, &second, &[1]), vec![1]);
}

#[test]
fn another_name_changes_only_the_name() {
    let mut graphics = DocumentGraphics::new();
    let first = document(vec![(1, clip(0, 3))]);
    show(&mut graphics, &first, &[1]);
    let mut second = first.clone();
    Arc::make_mut(second.clips.get_mut(&1).unwrap())
        .descriptor
        .name = "Other".to_string();
    assert!(show(&mut graphics, &second, &[1]).is_empty());
    assert_eq!(graphics.clips[&1].descriptor.name, "Other");
}

#[test]
fn removed_clips_are_forgotten() {
    let mut graphics = DocumentGraphics::new();
    let first = document(vec![(1, clip(0, 3)), (2, clip(0, 3))]);
    show(&mut graphics, &first, &[]);
    graphics.hover(1);
    graphics.hover(2);
    let mut second = first.clone();
    second.clips.remove(&1);
    show(&mut graphics, &second, &[]);
    assert_eq!(graphics.draw_order, vec![2]);
    assert_eq!(graphics.hovered, BTreeSet::from([2]));
    assert!(!graphics.clips.contains_key(&1));
}

#[test]
fn expired_chunks_leave_the_graphics() {
    let mut graphics = DocumentGraphics::new();
    let first = document(vec![(1, clip(0, 300)), (2, clip(0, 3))]);
    show(&mut graphics, &first, &[1]);
    let mut second = first.clone();
    second.clips.remove(&2);
    Arc::make_mut(second.clips.get_mut(&1).unwrap())
        .chunks
        .remove_front(260);
    graphics.process_expiry(&second);
    assert_eq!(graphics.clips[&1].start_index, 260);
    assert_eq!(graphics.clips[&1].segments.len(), 1);
    assert_eq!(graphics.draw_order, vec![1]);
}

#[test]
fn clicks_select() {
    let plain = Modifiers {
        shift: false,
        command: false,
    };
    let shift = Modifiers {
        shift: true,
        command: false,
    };
    let command = Modifiers {
        shift: false,
        command: true,
    };
    let mut graphics = DocumentGraphics::new();
    let first = document(vec![(1, clip(0, 1)), (2, clip(0, 1)), (3, clip(0, 1))]);
    show(&mut graphics, &first, &[]);
    graphics.click(1, plain);
    graphics.click(2, shift);
    assert_eq!(graphics.selected, BTreeSet::from([1, 2]));
    graphics.click(2, command);
    assert_eq!(graphics.selected, BTreeSet::from([1]));
    graphics.click(2, command);
    assert_eq!(graphics.selected, BTreeSet::from([1, 2]));
    graphics.click(3, plain);
    assert_eq!(graphics.selected, BTreeSet::from([3]));
    assert_eq!(graphics.draw_order, vec![1, 2, 3]);
    graphics.click_background(shift);
    assert_eq!(graphics.selected, BTreeSet::from([3]));
    graphics.click_background(plain);
    assert!(graphics.selected.is_empty());
}

#[test]
fn hovered_clips_are_drawn_last() {
    let mut graphics = DocumentGraphics::new();
    let first = document(vec![(1, clip(0, 1)), (2, clip(0, 1)), (3, clip(0, 1))]);
    show(&mut graphics, &first, &[]);
    graphics.hover(1);
    assert_eq!(graphics.take_draw_order(), vec![2, 3, 1]);
    assert_eq!(graphics.take_draw_order(), vec![1, 2, 3]);
}

#[test]
fn dragging() {
    let mut state: Option<DragState> = None;
    assert!(drag(&mut state, 1, DragEvent::Started(double(1.)), false).is_none());
    assert!(state.is_none());
    drag(&mut state, 1, DragEvent::Started(double(1.)), true);
    drag(&mut state, 2, DragEvent::Moved(double(9.)), true);
    assert_eq!(state.unwrap().proposed.to_bits(), 1f64.to_bits());
    drag(&mut state, 1, DragEvent::Moved(double(4.)), true);
    assert!(drag(&mut state, 2, DragEvent::Stopped, true).is_none());
    let put = drag(&mut state, 1, DragEvent::Stopped, true);
    assert_eq!(put.unwrap().to_bits(), 4f64.to_bits());
    assert!(state.is_none());
}

#[test]
fn gridlines() {
    let available: Vec<Double> = [1., 5., 10.].iter().map(|value| double(*value)).collect();
    assert_eq!(gridline_index(&available, double(0.5)), 0);
    assert_eq!(gridline_index(&available, double(5.)), 1);
    assert_eq!(gridline_index(&available, double(6.)), 2);
    assert_eq!(gridline_index(&available, double(100.)), 2);
}

#[test]
fn texts_are_shortened() {
    let widths: Vec<Double> = [0., 10., 20., 30.].iter().map(|w| double(*w)).collect();
    assert_eq!(elided_length(&widths, double(25.)), 2);
    assert_eq!(elided_length(&widths, double(30.)), 3);
    assert_eq!(elided_length(&widths, double(5.)), 0);
}

#[test]
fn textures_that_end_before_they_start_are_not_drawn() {
    let chunks = vec![
        ChunkExtent {
            start: double(0.),
            end: double(1.),
        },
        ChunkExtent {
            start: double(2.),
            end: double(1.),
        },
        ChunkExtent {
            start: double(1.),
            end: double(1.),
        },
    ];
    assert_eq!(
        draw_calls(&chunks),
        vec![
            DrawCall {
                chunk: 0,
                vertices_start: 0,
                vertices_end: 6
            },
            DrawCall {
                chunk: 2,
                vertices_start: 6,
                vertices_end: 12
            },
        ]
    );
}
