//! A table with an entry for each channel of each stream.

use crate::document::StreamId;
use crate::time::Timestamp;
use vstd::prelude::*;

verus! {

pub type ChannelId = usize;

/// A channel of a stream.
#[derive(Clone, Copy, Debug, PartialEq, Eq, Structural)]
pub struct ChannelKey {
    pub stream_id: StreamId,
    pub channel_id: ChannelId,
}

impl ChannelKey {
    /// Whether this channel comes before another one: first by the streams, then by the
    /// channels of one stream.
    pub open spec fn before(self, other: ChannelKey) -> bool {
        self.stream_id < other.stream_id || (self.stream_id == other.stream_id && self.channel_id
            < other.channel_id)
    }

    /// Whether this channel comes before another one.
    pub fn lt(self, other: ChannelKey) -> (result: bool)
        ensures
            result == self.before(other),
    {
        self.stream_id < other.stream_id || (self.stream_id == other.stream_id && self.channel_id
            < other.channel_id)
    }
}

/// An entry of a table.
pub struct ChannelEntry<H> {
    pub key: ChannelKey,
    pub value: H,
}

/// A table with at most one entry for each channel, in the order of the channels.
pub struct ChannelTable<H> {
    entries: Vec<ChannelEntry<H>>,
}

/// Whether entries are in order.
pub open spec fn ordered<H>(entries: Seq<ChannelEntry<H>>) -> bool {
    forall|i: int, j: int|
        0 <= i < j < entries.len() ==> (#[trigger] entries[i]).key.before(
            (#[trigger] entries[j]).key,
        )
}

/// Whether there is an entry for a channel.
pub open spec fn has_key<H>(entries: Seq<ChannelEntry<H>>, key: ChannelKey) -> bool {
    exists|i: int| 0 <= i < entries.len() && (#[trigger] entries[i]).key == key
}

/// The entry for a channel.
pub open spec fn value_of<H>(entries: Seq<ChannelEntry<H>>, key: ChannelKey) -> H {
    entries[choose|i: int| 0 <= i < entries.len() && (#[trigger] entries[i]).key == key].value
}

/// What a table holds.
pub open spec fn table_of<H>(entries: Seq<ChannelEntry<H>>) -> Map<ChannelKey, H> {
    Map::new(|key: ChannelKey| has_key(entries, key), |key: ChannelKey| value_of(entries, key))
}

/// There is only one entry for a channel.
proof fn only_entry<H>(entries: Seq<ChannelEntry<H>>, i: int)
    requires
        ordered(entries),
        0 <= i < entries.len(),
    ensures
        has_key(entries, entries[i].key),
        value_of(entries, entries[i].key) == entries[i].value,
{
    let key = entries[i].key;
    let j = choose|j: int| 0 <= j < entries.len() && (#[trigger] entries[j]).key == key;
    assert(entries[j].key == key);
    if i < j {
        assert(entries[i].key.before(entries[j].key));
    } else if j < i {
        assert(entries[j].key.before(entries[i].key));
    }
}

impl<H> ChannelTable<H> {
    pub closed spec fn entries(&self) -> Seq<ChannelEntry<H>> {
        self.entries@
    }

    pub open spec fn wf(&self) -> bool {
        ordered(self.entries())
    }

    pub open spec fn table(&self) -> Map<ChannelKey, H> {
        table_of(self.entries())
    }

    /// An empty table.
    pub fn new() -> (table: Self)
        ensures
            table.wf(),
            table.table() == Map::<ChannelKey, H>::empty(),
    {
        let table = ChannelTable { entries: Vec::new() };
        assert(table.table() =~= Map::empty());
        table
    }

    /// How many entries there are.
    pub fn len(&self) -> (len: usize)
        ensures
            len == self.entries().len(),
    {
        self.entries.len()
    }

    /// The entry at a place in the order.
    pub fn at(&self, index: usize) -> (entry: &ChannelEntry<H>)
        requires
            index < self.entries().len(),
        ensures
            *entry == self.entries()[index as int],
    {
        &self.entries[index]
    }

    /// How many entries come before a channel.
    fn position(&self, key: ChannelKey) -> (position: usize)
        requires
            self.wf(),
        ensures
            position <= self.entries().len(),
            forall|i: int|
                0 <= i < position ==> (#[trigger] self.entries()[i]).key.before(key),
            forall|i: int|
                position <= i < self.entries().len() ==> !(
                #[trigger] self.entries()[i]).key.before(key),
    {
        let mut low: usize = 0;
        let mut high: usize = self.entries.len();
        while low < high
            invariant
                low <= high <= self.entries@.len(),
                ordered(self.entries@),
                forall|i: int| 0 <= i < low ==> (#[trigger] self.entries@[i]).key.before(key),
                forall|i: int|
                    high <= i < self.entries@.len() ==> !(#[trigger] self.entries@[i]).key.before(
                        key,
                    ),
            decreases high - low,
        {
            let middle: usize = low + (high - low) / 2;
            if self.entries[middle].key.lt(key) {
                low = middle + 1;
            } else {
                high = middle;
            }
        }
        low
    }

    /// Takes out the entry for a channel, if there is one.
    pub fn remove(&mut self, key: ChannelKey) -> (value: Option<H>)
        requires
            old(self).wf(),
        ensures
            final(self).wf(),
            final(self).table() == old(self).table().remove(key),
            value == if old(self).table().contains_key(key) {
                Some(old(self).table()[key])
            } else {
                None
            },
    {
        let ghost before = self.entries@;
        let position: usize = self.position(key);
        if position < self.entries.len() && self.entries[position].key == key {
            proof {
                only_entry(before, position as int);
            }
            let entry: ChannelEntry<H> = self.entries.remove(position);
            proof {
                let after = self.entries@;
                assert(after =~= before.remove(position as int));
                assert forall|i: int, j: int| 0 <= i < j < after.len() implies (
                #[trigger] after[i]).key.before((#[trigger] after[j]).key) by {
                    let oi = if i < position {
                        i
                    } else {
                        i + 1
                    };
                    let oj = if j < position {
                        j
                    } else {
                        j + 1
                    };
                    assert(before[oi].key.before(before[oj].key));
                }
                assert forall|other: ChannelKey| other != key implies (has_key(after, other)
                    <==> has_key(before, other)) && (has_key(before, other) ==> value_of(
                    after,
                    other,
                ) == value_of(before, other)) by {
                    if has_key(before, other) {
                        let i = choose|i: int|
                            0 <= i < before.len() && (#[trigger] before[i]).key == other;
                        let k = if i < position {
                            i
                        } else {
                            i - 1
                        };
                        assert(after[k] == before[i]);
                        only_entry(before, i);
                        only_entry(after, k);
                    }
                    if has_key(after, other) {
                        let k = choose|k: int|
                            0 <= k < after.len() && (#[trigger] after[k]).key == other;
                        let i = if k < position {
                            k
                        } else {
                            k + 1
                        };
                        assert(before[i] == after[k]);
                    }
                }
                assert(!has_key(after, key)) by {
                    if has_key(after, key) {
                        let k = choose|k: int|
                            0 <= k < after.len() && (#[trigger] after[k]).key == key;
                        let i = if k < position {
                            k
                        } else {
                            k + 1
                        };
                        assert(before[i] == after[k]);
                        if i < position {
                            assert(before[i].key.before(before[position as int].key));
                        } else {
                            assert(before[position as int].key.before(before[i].key));
                        }
                    }
                }
                assert(self.table() =~= table_of(before).remove(key));
            }
            Some(entry.value)
        } else {
            proof {
                if has_key(before, key) {
                    let i = choose|i: int| 0 <= i < before.len() && (#[trigger] before[i]).key
                        == key;
                    assert(!before[i].key.before(key));
                    assert(i >= position);
                    if i > position {
                        assert(before[position as int].key.before(before[i].key));
                    }
                }
                assert(self.table() =~= table_of(before).remove(key));
            }
            None
        }
    }

    /// Adds an entry for a channel that has none.
    pub fn insert(&mut self, key: ChannelKey, value: H)
        requires
            old(self).wf(),
            !old(self).table().contains_key(key),
        ensures
            final(self).wf(),
            final(self).table() == old(self).table().insert(key, value),
    {
        let ghost before = self.entries@;
        let position: usize = self.position(key);
        let entry = ChannelEntry { key, value };
        self.entries.insert(position, entry);
        proof {
            let after = self.entries@;
            assert(after =~= before.insert(position as int, entry));
            assert forall|i: int| position <= i < before.len() implies key.before(
                (#[trigger] before[i]).key,
            ) by {
                assert(!before[i].key.before(key));
                if before[i].key == key {
                    assert(has_key(before, key));
                }
            }
            assert forall|i: int, j: int| 0 <= i < j < after.len() implies (
            #[trigger] after[i]).key.before((#[trigger] after[j]).key) by {
                if i != position && j != position {
                    let oi = if i < position {
                        i
                    } else {
                        i - 1
                    };
                    let oj = if j < position {
                        j
                    } else {
                        j - 1
                    };
                    assert(before[oi].key.before(before[oj].key));
                } else if i == position {
                    assert(key.before(before[j - 1].key));
                } else {
                    assert(before[i].key.before(key));
                }
            }
            only_entry(after, position as int);
            assert forall|other: ChannelKey| other != key implies (has_key(after, other)
                <==> has_key(before, other)) && (has_key(before, other) ==> value_of(after, other)
                == value_of(before, other)) by {
                if has_key(before, other) {
                    let i = choose|i: int| 0 <= i < before.len() && (#[trigger] before[i]).key
                        == other;
                    let k = if i < position {
                        i
                    } else {
                        i + 1
                    };
                    assert(after[k] == before[i]);
                    only_entry(before, i);
                    only_entry(after, k);
                }
                if has_key(after, other) {
                    let k = choose|k: int| 0 <= k < after.len() && (#[trigger] after[k]).key
                        == other;
                    let i = if k < position {
                        k
                    } else {
                        k - 1
                    };
                    assert(before[i] == after[k]);
                }
            }
            assert(self.table() =~= table_of(before).insert(key, value));
        }
    }
}

/// What is kept of a channel, of which old parts can be dropped.
pub trait ModulationHistory: Sized {
    spec fn history_wf(&self) -> bool;

    /// Whether `after` is what is left of this once everything before a time is dropped.
    spec fn leaves(&self, after: &Self, retain_time: Timestamp) -> bool;

    /// Whether there is nothing left.
    spec fn nothing_left(&self) -> bool;

    /// Drops what is older than a time, and returns whether anything is left.
    fn prune_old_data(&mut self, retain_time: Timestamp) -> (any_left: bool)
        requires
            old(self).history_wf(),
        ensures
            final(self).history_wf(),
            old(self).leaves(final(self), retain_time),
            any_left == !final(self).nothing_left(),
    ;
}

/// Whether every entry of a table is as it should be.
pub open spec fn histories_wf<H: ModulationHistory>(table: Map<ChannelKey, H>) -> bool {
    forall|key: ChannelKey| #[trigger] table.contains_key(key) ==> table[key].history_wf()
}

/// Whether `after` is what is left of a table once everything before a time is dropped,
/// and with it the entries of which nothing is left.
pub open spec fn table_leaves<H: ModulationHistory>(
    before: Map<ChannelKey, H>,
    after: Map<ChannelKey, H>,
    retain_time: Timestamp,
) -> bool {
    &&& after.dom().subset_of(before.dom())
    &&& forall|key: ChannelKey| #[trigger]
        before.contains_key(key) ==> exists|left: H|
            {
                &&& #[trigger] before[key].leaves(&left, retain_time)
                &&& after.contains_key(key) <==> !left.nothing_left()
                &&& after.contains_key(key) ==> after[key] == left
            }
}

impl<H> ChannelTable<H> {
    /// The channels that there are entries for, in order.
    pub fn keys(&self) -> (keys: Vec<ChannelKey>)
        requires
            self.wf(),
        ensures
            keys@.no_duplicates(),
            forall|i: int, j: int|
                0 <= i < j < keys@.len() ==> (#[trigger] keys@[i]).before(#[trigger] keys@[j]),
            forall|key: ChannelKey| #[trigger]
                keys@.contains(key) <==> self.table().contains_key(key),
    {
        let mut keys: Vec<ChannelKey> = Vec::new();
        let ghost entries = self.entries@;
        let mut i: usize = 0;
        while i < self.entries.len()
            invariant
                i <= entries.len(),
                entries == self.entries@,
                keys@.len() == i,
                forall|k: int| 0 <= k < i ==> #[trigger] keys@[k] == entries[k].key,
            decreases entries.len() - i,
        {
            keys.push(self.entries[i].key);
            i = i + 1;
        }
        proof {
            assert forall|key: ChannelKey| #[trigger] keys@.contains(key) <==> has_key(
                entries,
                key,
            ) by {
                if has_key(entries, key) {
                    let k = choose|k: int| 0 <= k < entries.len() && (#[trigger] entries[k]).key
                        == key;
                    assert(keys@[k] == key);
                }
                if keys@.contains(key) {
                    let k = choose|k: int| 0 <= k < keys@.len() && keys@[k] == key;
                    assert(entries[k].key == key);
                }
            }
            assert forall|a: int, b: int|
                0 <= a < keys@.len() && 0 <= b < keys@.len() && a != b implies keys@[a]
                != keys@[b] by {
                if a < b {
                    assert(entries[a].key.before(entries[b].key));
                } else {
                    assert(entries[b].key.before(entries[a].key));
                }
            }
        }
        keys
    }

    /// Drops what is older than a time, and the entries of which nothing is left.
    pub fn prune(&mut self, retain_time: Timestamp)
        where
            H: ModulationHistory,
        requires
            old(self).wf(),
            histories_wf(old(self).table()),
        ensures
            final(self).wf(),
            histories_wf(final(self).table()),
            table_leaves(old(self).table(), final(self).table(), retain_time),
    {
        let ghost before = self.table();
        let keys: Vec<ChannelKey> = self.keys();
        let mut i: usize = 0;
        assert forall|j: int| 0 <= j < keys@.len() implies before.contains_key(
            #[trigger] keys@[j],
        ) by {
            assert(keys@.contains(keys@[j]));
        }
        while i < keys.len()
            invariant
                i <= keys@.len(),
                keys@.no_duplicates(),
                self.wf(),
                histories_wf(self.table()),
                self.table().dom().subset_of(before.dom()),
                forall|j: int|
                    i <= j < keys@.len() ==> self.table().contains_key(#[trigger] keys@[j])
                        && self.table()[keys@[j]] == before[keys@[j]],
                forall|j: int|
                    0 <= j < i ==> entry_leaves(
                        before[#[trigger] keys@[j]],
                        self.table(),
                        keys@[j],
                        retain_time,
                    ),
            decreases keys@.len() - i,
        {
            let key: ChannelKey = keys[i];
            let ghost table = self.table();
            proof {
                assert(keys@[i as int] == key);
                assert(table.contains_key(key));
            }
            let mut value: H = self.remove(key).unwrap();
            let ghost removed = self.table();
            let any_left: bool = value.prune_old_data(retain_time);
            let ghost left = value;
            if any_left {
                self.insert(key, value);
            }
            proof {
                let after = self.table();
                assert(before[key].leaves(&left, retain_time));
                assert(entry_leaves(before[key], after, key, retain_time));
                assert forall|j: int| 0 <= j < i + 1 implies entry_leaves(
                    before[#[trigger] keys@[j]],
                    after,
                    keys@[j],
                    retain_time,
                ) by {
                    if j < i {
                        assert(keys@[j] != key);
                        assert(entry_leaves(before[keys@[j]], table, keys@[j], retain_time));
                        assert(after.contains_key(keys@[j]) <==> table.contains_key(keys@[j]));
                    }
                }
                assert forall|j: int| i + 1 <= j < keys@.len() implies after.contains_key(
                    #[trigger] keys@[j],
                ) && after[keys@[j]] == before[keys@[j]] by {
                    assert(keys@[j] != key);
                }
                assert forall|other: ChannelKey| #[trigger] after.contains_key(
                    other,
                ) implies after[other].history_wf() by {
                    assert(table.contains_key(other));
                }
            }
            i = i + 1;
        }
        proof {
            assert forall|key: ChannelKey| #[trigger] before.contains_key(
                key,
            ) implies exists|left: H|
                {
                    &&& #[trigger] before[key].leaves(&left, retain_time)
                    &&& self.table().contains_key(key) <==> !left.nothing_left()
                    &&& self.table().contains_key(key) ==> self.table()[key] == left
                } by {
                assert(keys@.contains(key));
                let j = choose|j: int| 0 <= j < keys@.len() && keys@[j] == key;
                assert(entry_leaves(before[keys@[j]], self.table(), keys@[j], retain_time));
            }
        }
    }
}

/// Whether what a table has for a channel is what is left of an entry.
pub open spec fn entry_leaves<H: ModulationHistory>(
    before: H,
    after: Map<ChannelKey, H>,
    key: ChannelKey,
    retain_time: Timestamp,
) -> bool {
    exists|left: H|
        {
            &&& #[trigger] before.leaves(&left, retain_time)
            &&& after.contains_key(key) <==> !left.nothing_left()
            &&& after.contains_key(key) ==> after[key] == left
        }
}

/// Channels are ordered by their streams, and those of one stream by their own numbers.
pub proof fn channels_are_ordered(a: ChannelKey, b: ChannelKey)
    ensures
        a.stream_id < b.stream_id ==> a.before(b),
        a.stream_id == b.stream_id ==> (a.before(b) <==> a.channel_id < b.channel_id),
        a.before(b) ==> !b.before(a),
        a.before(b) || b.before(a) || a == b,
{
}

/// A channel of which nothing is left is forgotten, and any other keeps what is left of it.
pub proof fn channels_without_anything_are_forgotten<H: ModulationHistory>(
    before: Map<ChannelKey, H>,
    after: Map<ChannelKey, H>,
    time: Timestamp,
    key: ChannelKey,
)
    requires
        table_leaves(before, after, time),
    ensures
        after.contains_key(key) ==> before.contains_key(key) && before[key].leaves(
            &after[key],
            time,
        ) && !after[key].nothing_left(),
        before.contains_key(key) && !after.contains_key(key) ==> exists|left: H| #[trigger]
            before[key].leaves(&left, time) && left.nothing_left(),
{
    assert(after.contains_key(key) ==> before.dom().contains(key)) by {
        if after.contains_key(key) {
            assert(after.dom().contains(key));
        }
    }
    if before.contains_key(key) {
        assert(entry_leaves(before[key], after, key, time));
    }
}

} // verus!
