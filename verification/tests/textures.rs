use sdr::mip::{mip_level_count, mip_writes, next_power_of_two, shrunk_sizes, MipSize, MipWrite};
use sdr::stream_history::{Levels, StreamHistory, WaterfallRow};
use sdr::textures::{TextureCommand, TEXTURE_HEIGHT};
use sdr::time::Timestamp;
use sdr::waterfall_gpu::WaterfallGpu;
use sdr::waterfall_history::{WaterfallHistory, WaterfallMessage, WaterfallProcessor};

fn at(secs: i64) -> Timestamp {
    Timestamp { secs, nanos: 0 }
}

fn row(secs: i64) -> WaterfallRow {
    WaterfallRow {
        time: at(secs),
        levels: Levels {
            min: 1,
            max: 2,
            peak: 3,
            overload: false,
        },
    }
}

fn descriptor() -> sdr::active_document::StreamDescriptor {
    sdr::active_document::StreamDescriptor {
        frequency: sdr::double::Double::from_bits(1.0e8f64.to_bits()),
        sample_rate: sdr::double::Double::from_bits(2.0e6f64.to_bits()),
        chunk_size: 256,
    }
}

#[test]
fn an_even_row_completes_one_level() {
    assert_eq!(
        mip_writes(4, 16, 10),
        vec![MipWrite {
            mip_level: 0,
            row: 4,
            offset: 0,
            len: 16,
            next_len: 8
        }]
    );
}

#[test]
fn the_last_row_of_four_completes_three_levels() {
    let writes = mip_writes(3, 5, 10);
    assert_eq!(writes.len(), 3);
    assert_eq!(writes[1].row, 1);
    assert_eq!(writes[1].offset, 5);
    assert_eq!(writes[1].len, 2);
    assert_eq!(writes[2].row, 0);
    assert_eq!(writes[2].offset, 7);
    assert_eq!(writes[2].len, 1);
    assert_eq!(writes[2].next_len, 1);
}

#[test]
fn rows_of_all_levels_fit_the_buffer() {
    for len in 1..40u32 {
        for row in 0..256u32 {
            for write in mip_writes(row, len, 8) {
                assert!(write.offset + (write.len + write.next_len) as usize <= (2 * len + 8) as usize);
            }
        }
    }
}

#[test]
fn level_counts() {
    assert_eq!(mip_level_count(1), 1);
    assert_eq!(mip_level_count(2), 1);
    assert_eq!(mip_level_count(3), 1);
    assert_eq!(mip_level_count(4), 2);
    assert_eq!(mip_level_count(256), 8);
    assert_eq!(mip_level_count(1024), 10);
    assert_eq!(mip_level_count(u32::MAX), 31);
}

#[test]
fn sizes_of_a_shrunk_texture() {
    assert_eq!(
        shrunk_sizes(3, 5),
        vec![
            MipSize { width: 3, height: 5 },
            MipSize { width: 1, height: 2 }
        ]
    );
}

#[test]
fn powers_of_two() {
    assert_eq!(next_power_of_two(0), 1);
    assert_eq!(next_power_of_two(1), 1);
    assert_eq!(next_power_of_two(800), 1024);
    assert_eq!(next_power_of_two(1024), 1024);
}

#[test]
fn a_full_texture_is_followed_by_another() {
    let mut history = StreamHistory::new();
    let rows: Vec<WaterfallRow> = (0..TEXTURE_HEIGHT as i64 + 1).map(row).collect();
    let commands = history.push(7, descriptor(), at(-1), 64, &rows);
    let created: Vec<usize> = commands
        .iter()
        .filter_map(|command| match command {
            TextureCommand::Create { texture, .. } => Some(*texture),
            _ => None,
        })
        .collect();
    assert_eq!(created, vec![1, 2]);
    let list = history.draw_list();
    assert_eq!(list.len(), 2);
    assert_eq!(list[0].texture, 2);
    assert_eq!(list[0].prev_texture, 1);
    assert_eq!(list[0].next_texture, 0);
    assert_eq!(list[0].filled, 1);
    assert_eq!(list[0].start_time, at(TEXTURE_HEIGHT as i64 - 1));
    assert_eq!(list[1].texture, 1);
    assert_eq!(list[1].prev_texture, 0);
    assert_eq!(list[1].next_texture, 2);
    assert_eq!(list[1].filled, TEXTURE_HEIGHT);
}

#[test]
fn rows_can_arrive_in_pieces() {
    let rows: Vec<WaterfallRow> = (0..10).map(row).collect();
    let mut whole = StreamHistory::new();
    let all = whole.push(7, descriptor(), at(0), 8, &rows);
    let mut pieces = StreamHistory::new();
    let mut commands = pieces.push(7, descriptor(), at(0), 8, &rows[..4].to_vec());
    commands.extend(pieces.push(7, descriptor(), at(0), 8, &rows[4..].to_vec()));
    assert_eq!(all, commands);
}

#[test]
fn an_ended_stream_keeps_its_rows_in_a_smaller_texture() {
    let mut history = StreamHistory::new();
    history.push(3, descriptor(), at(0), 8, &vec![row(1), row(2), row(3)]);
    history.push(4, descriptor(), at(0), 8, &vec![]);
    let commands = history.retain(|_id: usize| false);
    assert_eq!(
        commands,
        vec![
            TextureCommand::Create {
                texture: 3,
                width: 8,
                height: 3,
                mip_level_count: 1
            },
            TextureCommand::Copy {
                from: 1,
                to: 3,
                mip_level: 0,
                size: MipSize { width: 8, height: 3 }
            },
        ]
    );
    assert!(history.active_streams.is_empty());
    assert!(!history.finished_streams.contains_key(&4));
    assert_eq!(history.finished_streams[&3].textures[0].texture, 3);
    history.prune_old_data(at(2));
    assert_eq!(history.finished_streams.len(), 1);
    history.prune_old_data(at(3));
    assert!(history.finished_streams.is_empty());
}

#[test]
fn only_streams_that_are_let_go_end() {
    let mut history = StreamHistory::new();
    history.push(3, descriptor(), at(0), 8, &vec![row(1)]);
    history.push(4, descriptor(), at(0), 8, &vec![row(1)]);
    history.retain(|id: usize| id == 4);
    assert!(history.active_streams.contains_key(&4));
    assert!(history.finished_streams.contains_key(&3));
}

#[test]
fn waterfall_processor_and_history_agree() {
    let mut processor = WaterfallProcessor::new();
    let mut history = WaterfallHistory::new();
    let start = processor.start_stream(5, 16, at(0));
    assert_eq!(
        start,
        WaterfallMessage::StartStream {
            stream_id: 5,
            spectrum_len: 16,
            start_time: at(0)
        }
    );
    assert_eq!(history.update(start).len(), 1);
    let row = processor.process_chunk(5, at(1), 10, 20);
    assert_eq!(history.update(row).len(), 1);
    assert_eq!(history.history.active_streams[&5].levels.min, 10);
    let end = processor.end_stream(5);
    assert_eq!(history.update(end).len(), 2);
    assert_eq!(history.history.finished_streams[&5].max, 20);
    let reset = processor.reset();
    assert!(history.update(reset).is_empty());
    assert!(history.history.finished_streams.is_empty());
}

#[test]
fn groups_are_dropped_once_they_are_old() {
    let mut gpu = WaterfallGpu::new();
    for k in 0..TEXTURE_HEIGHT as i64 + 1 {
        gpu.add_row(1, descriptor(), at(0), at(k), 4, 0, 1);
    }
    let list = gpu.draw_list();
    assert_eq!(list.len(), 2);
    assert_eq!(list[0].texture, 1);
    assert_eq!(list[0].next_texture, 2);
    assert_eq!(list[1].texture, 2);
    assert_eq!(list[1].filled, 1);
    gpu.prune_old_textures(at(TEXTURE_HEIGHT as i64 - 1));
    assert_eq!(gpu.draw_list().len(), 1);
    gpu.prune_old_textures(at(TEXTURE_HEIGHT as i64));
    assert!(gpu.draw_list().is_empty());
}

#[test]
fn a_row_creates_the_texture_it_goes_to() {
    let mut gpu = WaterfallGpu::new();
    let commands = gpu.add_row(1, descriptor(), at(0), at(1), 4, 0, 1);
    assert_eq!(commands.len(), 2);
    assert_eq!(
        commands[0],
        TextureCommand::Create {
            texture: 1,
            width: 4,
            height: 1024,
            mip_level_count: 10
        }
    );
    assert_eq!(gpu.add_row(1, descriptor(), at(0), at(2), 4, 0, 1).len(), 2);
}
