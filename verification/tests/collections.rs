use std::sync::Arc;

use sdr::by_ptr::ByPtr;
use sdr::channel_table::{ChannelKey, ChannelTable, ModulationHistory};
use sdr::channels_gpu::{ChannelHistory, ChannelsGpu, IqChunk};
use sdr::chunked_deque::ChunkedDeque;
use sdr::dsp::owner::Owner;
use sdr::id_factory::IdFactory;
use sdr::modulation_fm::{export_name, FmDemodulation, History, TimedChunk, TimedTransmission};
use sdr::seqdeque::{IndexBound, SeqDeque};
use sdr::time::Timestamp;

fn at(secs: i64) -> Timestamp {
    Timestamp { secs, nanos: 0 }
}

fn key(stream_id: usize, channel_id: usize) -> ChannelKey {
    ChannelKey {
        stream_id,
        channel_id,
    }
}

fn iq(secs: i64) -> IqChunk {
    IqChunk {
        time: at(secs),
        data: vec![(secs as u32, 0)],
    }
}

fn piece(transmission_id: usize, secs: i64) -> FmDemodulation {
    FmDemodulation {
        transmission_id,
        chunk: TimedChunk {
            time: at(secs),
            iq_data: vec![],
            audio_data: vec![secs as u32],
        },
    }
}

#[test]
fn identifiers_are_new() {
    let mut ids = IdFactory::default();
    assert_eq!(ids.create(), 0);
    assert_eq!(ids.create(), 1);
    assert_eq!(ids.create(), 2);
}

#[test]
fn handles_are_told_apart_by_where_they_are() {
    let a: ByPtr<Vec<i32>> = ByPtr::from(vec![1, 2]);
    let b: ByPtr<Vec<i32>> = ByPtr::from(vec![1, 2]);
    let shared = Arc::new(vec![3]);
    let c: ByPtr<Vec<i32>> = ByPtr::from(shared.clone());
    let d: ByPtr<Vec<i32>> = ByPtr::from(shared);
    assert!(a == a.clone());
    assert!(a != b);
    assert!(c == d);
    assert_eq!(*a, *b);
    assert_eq!(c.len(), 1);
}

#[test]
fn an_owner_lends_a_copy() {
    let mut owner = Owner::new();
    let data = vec![1, 2, 3];
    let own = owner.process(&data);
    own[0] = 9;
    assert_eq!(own.to_vec(), vec![9, 2, 3]);
    assert_eq!(data, vec![1, 2, 3]);
    assert_eq!(owner.process(&data[1..]).to_vec(), vec![2, 3]);
}

#[test]
fn numbers_of_items_stay() {
    let mut deque = SeqDeque::new();
    assert!(deque.is_empty());
    assert!(deque.front().is_none());
    assert!(deque.back().is_none());
    for k in 0..5 {
        deque.push_back(k * 10);
    }
    deque.remove_front(2);
    assert_eq!((deque.start_index(), deque.end_index()), (2, 5));
    assert_eq!(deque.get(1), None);
    assert_eq!(deque.get(2), Some(&20));
    assert_eq!(deque.get(5), None);
    assert_eq!(deque.front(), Some(&20));
    assert_eq!(deque.back(), Some(&40));
    assert_eq!(deque.iter(), vec![&20, &30, &40]);
    assert_eq!(
        deque.range(IndexBound::Included(3), IndexBound::Unbounded),
        vec![&30, &40]
    );
    assert_eq!(
        deque.range(IndexBound::Excluded(2), IndexBound::Included(3)),
        vec![&30]
    );
    assert_eq!(
        deque.range(IndexBound::Unbounded, IndexBound::Excluded(4)),
        vec![&20, &30]
    );
    assert_eq!(deque.partition_point(|value| *value < 30), 3);
    assert_eq!(deque.partition_point(|_value| false), 2);
}

#[test]
fn items_can_be_changed() {
    let mut deque = SeqDeque::new();
    deque.push_back(1);
    deque.push_back(2);
    deque.remove_front(1);
    *deque.get_mut(1).unwrap() = 7;
    assert_eq!(deque.get(1), Some(&7));
    assert!(deque.get_mut(0).is_none());
    assert!(deque.get_mut(2).is_none());
}

#[test]
fn the_other_copy_of_a_deque_stays_as_it_is() {
    let mut deque = ChunkedDeque::from_elements(0, (0..10).collect::<Vec<i32>>());
    let copy = deque.clone();
    deque.push_back(10);
    deque.push_front(-1);
    assert_eq!((copy.start_index(), copy.end_index()), (0, 10));
    assert_eq!(copy.get(10), None);
    assert_eq!((deque.start_index(), deque.end_index()), (-1, 11));
    assert_eq!(deque.get(10), Some(&10));
    assert_eq!(deque.get(-1), Some(&-1));
}

#[test]
fn a_deque_is_described() {
    let mut deque = ChunkedDeque::from_elements(-2, vec!['a', 'b', 'c']);
    deque.push_back('d');
    assert_eq!(deque.describe(), "ChunkedDeque(-2..2, 2 chunks)");
}

#[test]
fn entries_are_in_order() {
    let mut table: ChannelTable<&'static str> = ChannelTable::new();
    table.insert(key(2, 0), "c");
    table.insert(key(1, 5), "b");
    table.insert(key(1, 3), "a");
    assert_eq!(table.len(), 3);
    assert_eq!(table.at(0).value, "a");
    assert_eq!(table.at(1).value, "b");
    assert_eq!(table.at(2).value, "c");
    assert_eq!(table.keys(), vec![key(1, 3), key(1, 5), key(2, 0)]);
    assert_eq!(table.remove(key(1, 5)), Some("b"));
    assert_eq!(table.remove(key(1, 5)), None);
    assert_eq!(table.len(), 2);
    assert!(key(1, 9).lt(key(2, 0)));
    assert!(!key(1, 9).lt(key(1, 9)));
}

#[test]
fn channels_keep_what_is_new() {
    let mut channels = ChannelsGpu::new();
    channels.add_chunks(key(1, 0), at(0), vec![iq(1), iq(2)]);
    channels.add_chunks(key(1, 0), at(7), vec![iq(3)]);
    channels.add_chunks(key(1, 1), at(0), vec![iq(1)]);
    assert_eq!(channels.channels.at(0).value.end_time, at(3));
    channels.prune(at(2));
    assert_eq!(channels.channels.len(), 1);
    let history = &channels.channels.at(0).value;
    assert_eq!(history.chunks.len(), 2);
    assert_eq!(history.chunks[0].time, at(2));
}

#[test]
fn a_channel_that_is_pruned_says_whether_anything_is_left() {
    let mut history = ChannelHistory::new(at(0));
    history.add_chunk(iq(4));
    assert!(history.prune_old_data(at(4)));
    assert!(!history.prune_old_data(at(5)));
}

#[test]
fn transmissions_keep_what_is_new() {
    let mut history = History::new();
    history.add_chunks(key(1, 0), vec![piece(1, 1), piece(1, 2)]);
    history.add_chunks(key(1, 0), vec![piece(2, 5)]);
    history.add_chunks(key(3, 0), vec![piece(3, 1)]);
    {
        let first = &history.channels.at(0).value.transmissions[&1];
        assert_eq!(first.time_range(), (at(1), at(2)));
        assert_eq!(first.find_nearest_chunk(at(0)), 0);
        assert_eq!(first.find_nearest_chunk(at(2)), 1);
        assert_eq!(first.find_nearest_chunk(at(9)), 1);
    }
    history.prune(at(1));
    assert_eq!(history.channels.len(), 2);
    history.prune(at(2));
    assert_eq!(history.channels.len(), 1);
    let left = &history.channels.at(0).value;
    assert_eq!(left.transmissions[&1].chunks.len(), 1);
    assert_eq!(left.transmissions[&2].chunks.len(), 1);
    history.prune(at(3));
    assert!(!history.channels.at(0).value.transmissions.contains_key(&1));
}

#[test]
fn a_channel_is_added_without_pieces() {
    let mut history = History::new();
    history.add_chunks(key(2, 1), vec![]);
    assert_eq!(history.channels.keys(), vec![key(2, 1)]);
    assert!(history.channels.at(0).value.transmissions.is_empty());
}

#[test]
fn the_nearest_piece_is_found() {
    let pieces = |times: &[i64]| TimedTransmission {
        chunks: times.iter().map(|secs| piece(0, *secs).chunk).collect(),
    };
    let two = pieces(&[0, 10]);
    assert_eq!(two.find_nearest_chunk(at(1)), 0);
    assert_eq!(two.find_nearest_chunk(at(9)), 1);
    assert_eq!(two.find_nearest_chunk(at(5)), 0);
    assert_eq!(two.find_nearest_chunk(at(-3)), 0);
    assert_eq!(two.find_nearest_chunk(at(30)), 1);
    let nearly = Timestamp {
        secs: 5,
        nanos: 1,
    };
    assert_eq!(two.find_nearest_chunk(nearly), 1);
    let same = pieces(&[1, 4, 4, 4, 9, 9]);
    assert_eq!(same.find_nearest_chunk(at(4)), 1);
    assert_eq!(same.find_nearest_chunk(at(5)), 1);
    assert_eq!(same.find_nearest_chunk(at(8)), 4);
}

#[test]
fn files_are_named_after_channels() {
    assert_eq!(
        export_name("Air band 1/2", 48_000),
        "Air_band_1_2_48000sps.raw"
    );
    assert_eq!(export_name("fm", 0), "fm_0sps.raw");
}

#[test]
fn a_chunk_stays_behind_in_an_emptied_queue() {
    let mut deque = ChunkedDeque::new();
    deque.push_back('a');
    deque.push_back('b');
    assert_eq!(deque.pop_front(), Some('a'));
    assert_eq!(deque.pop_front(), Some('b'));
    assert_eq!(deque.chunk_count(), 1);
    assert_eq!(deque.describe(), "ChunkedDeque(2..2, 1 chunks)");
    deque.push_front('c');
    assert_eq!(deque.get(1), Some(&'c'));
    assert_eq!(deque.chunk_count(), 2);
    assert_eq!(deque.pop_back(), Some('c'));
    assert_eq!(deque.pop_back(), None);
    assert_eq!(deque.chunk_count(), 2);
}

#[test]
fn what_is_appended_behind_a_spare_chunk_is_not_found() {
    let mut deque = ChunkedDeque::new();
    deque.push_back('a');
    assert_eq!(deque.pop_front(), Some('a'));
    deque.push_back('b');
    assert_eq!((deque.start_index(), deque.end_index()), (1, 2));
    assert_eq!(deque.len(), 1);
    assert_eq!(deque.chunk_count(), 2);
    assert!(deque.iter().collect().is_empty());
    deque.remove_front(2);
    assert_eq!(deque.chunk_count(), 0);
    deque.push_back('c');
    assert_eq!(deque.get(2), Some(&'c'));
    assert_eq!(deque.chunk_count(), 1);
}

#[test]
fn no_chunk_stays_behind_at_a_border() {
    let mut deque = ChunkedDeque::new();
    deque.push_back('a');
    assert_eq!(deque.pop_back(), Some('a'));
    assert_eq!(deque.chunk_count(), 0);
    deque.push_back('b');
    assert_eq!(deque.get(0), Some(&'b'));
    let mut deque = ChunkedDeque::starting_at(255);
    deque.push_back('c');
    assert_eq!(deque.pop_front(), Some('c'));
    assert_eq!(deque.chunk_count(), 0);
}

#[test]
fn elements_give_back_a_queue() {
    let mut deque = ChunkedDeque::starting_at(-50);
    for i in 0..600 {
        deque.push_back(i);
    }
    deque.remove_front(300);
    let elements: Vec<i32> = deque.iter().collect().into_iter().copied().collect();
    assert_eq!(elements.len(), 250);
    let loaded = ChunkedDeque::from_elements(deque.start_index(), elements);
    assert_eq!(loaded.start_index(), 300);
    assert_eq!(loaded.end_index(), 550);
    for i in 300..550 {
        assert_eq!(loaded.get(i), deque.get(i));
    }
    assert_eq!(loaded.get(299), None);
    assert_eq!(loaded.get(550), None);
}

#[test]
fn other_items_do_not_continue_a_queue() {
    let older = ChunkedDeque::from_elements(0, (0..300).collect::<Vec<i32>>());
    let mut newer = older.clone();
    newer.push_back(300);
    newer.remove_front(10);
    assert!(newer.is_continuation_of(&older));
    assert!(!older.is_continuation_of(&newer));
    let copied = ChunkedDeque::from_elements(10, (10..301).collect::<Vec<i32>>());
    assert!(copied.is_continuation_of(&older));
    let mut other: Vec<i32> = (10..301).collect();
    other[5] = 0;
    let other = ChunkedDeque::from_elements(10, other);
    assert!(!other.is_continuation_of(&older));
}
