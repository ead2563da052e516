use std::collections::BTreeSet;

use vstd::prelude::*;

use crate::document::StreamId;
use crate::double::{Double, INFINITY_BITS, SIGN_BIT};
use crate::hardware::{HardwareDevice, HardwareDeviceParams, HardwareState};
use crate::maps::{lists, next_is_taken, sorted_members};

verus! {

/// A device, under the name by which it was found.
pub struct NamedDevice {
    pub id: String,
    pub device: HardwareDevice,
}

/// How a device is wanted to be used.
pub struct NamedDeviceParams {
    pub id: String,
    pub params: HardwareDeviceParams,
}

/// The devices that were found, and the streams that are received from them.
pub struct Hardware {
    pub devices: Vec<NamedDevice>,
    pub open_streams: BTreeSet<StreamId>,
}

/// The names of devices.
pub open spec fn device_names(devices: Seq<NamedDevice>) -> Seq<Seq<char>> {
    devices.map_values(|entry: NamedDevice| entry.id@)
}

/// The names of the devices that settings are for.
pub open spec fn param_names(params: Seq<NamedDeviceParams>) -> Seq<Seq<char>> {
    params.map_values(|entry: NamedDeviceParams| entry.id@)
}

/// Names, with those appended of a list that are not among them.
pub open spec fn with_new_names(names: Seq<Seq<char>>, found: Seq<Seq<char>>) -> Seq<Seq<char>>
    decreases found.len(),
{
    if found.len() == 0 {
        names
    } else {
        let before = with_new_names(names, found.drop_last());
        if before.contains(found.last()) {
            before
        } else {
            before.push(found.last())
        }
    }
}

/// The texts of some strings.
pub open spec fn texts(strings: Seq<String>) -> Seq<Seq<char>> {
    strings.map_values(|s: String| s@)
}

/// The devices that are in use.
pub open spec fn in_use(devices: Seq<NamedDevice>) -> Seq<NamedDevice> {
    devices.filter(|entry: NamedDevice| entry.device.active is Active)
}

impl Hardware {
    /// No two devices have the same name.
    pub open spec fn wf(&self) -> bool {
        device_names(self.devices@).no_duplicates()
    }

    pub fn new() -> (hardware: Self)
        ensures
            hardware.wf(),
            hardware.devices@.len() == 0,
            hardware.open_streams@ == Set::<StreamId>::empty(),
    {
        Hardware { devices: Vec::new(), open_streams: BTreeSet::new() }
    }

    /// Whether there is a device with a name.
    pub fn has_device(&self, id: &String) -> (result: bool)
        ensures
            result == device_names(self.devices@).contains(id@),
    {
        let ghost names = device_names(self.devices@);
        let mut i: usize = 0;
        while i < self.devices.len()
            invariant
                names == device_names(self.devices@),
                i <= self.devices@.len(),
                forall|k: int| 0 <= k < i ==> names[k] != id@,
            decreases self.devices.len() - i,
        {
            if self.devices[i].id == *id {
                assert(names[i as int] == id@);
                return true;
            }
            i = i + 1;
        }
        false
    }

    /// Takes up the devices that were found. Those that are not in use are looked for
    /// again, and those that are in use stay.
    pub fn enumerate(&mut self, found: &Vec<String>)
        requires
            old(self).wf(),
        ensures
            final(self).wf(),
            device_names(final(self).devices@) == with_new_names(
                device_names(in_use(old(self).devices@)),
                texts(found@),
            ),
            final(self).devices@.take(in_use(old(self).devices@).len() as int) == in_use(
                old(self).devices@,
            ),
            forall|i: int|
                in_use(old(self).devices@).len() <= i < final(self).devices@.len() ==> (
                #[trigger] final(self).devices@[i]).device.active is Inactive,
            final(self).open_streams == old(self).open_streams,
            enumerated(old(self).devices@, texts(found@), final(self).devices@),
    {
        let ghost all = self.devices@;
        let mut devices: Vec<NamedDevice> = Vec::new();
        std::mem::swap(&mut devices, &mut self.devices);
        let mut kept: Vec<NamedDevice> = Vec::new();
        let ghost is_active = |entry: NamedDevice| entry.device.active is Active;
        proof {
            reveal(Seq::filter);
            assert(all.take(0).filter(is_active) =~= Seq::<NamedDevice>::empty());
        }
        for entry in iter: devices
            invariant
                iter.seq() == all,
                is_active == (|entry: NamedDevice| entry.device.active is Active),
                kept@ == all.take(iter.index() as int).filter(is_active),
        {
            proof {
                let i = iter.index() as int;
                reveal(Seq::filter);
                assert(all.take(i + 1).drop_last() =~= all.take(i));
                assert(all.take(i + 1).last() == all[i]);
            }
            if let HardwareState::Active(_) = &entry.device.active {
                kept.push(entry);
            }
        }
        let ghost staying = kept@;
        proof {
            assert(all.take(all.len() as int) =~= all);
            assert(staying == in_use(all));
            filter_keeps_names_apart(all);
        }
        self.devices = kept;
        let ghost names = texts(found@);
        let ghost first = device_names(staying);
        proof {
            assert(names.take(0) =~= Seq::empty());
            assert(self.devices@.take(staying.len() as int) =~= staying);
        }
        for i in 0..found.len()
            invariant
                names == texts(found@),
                first == device_names(staying),
                self.open_streams == old(self).open_streams,
                device_names(self.devices@) == with_new_names(first, names.take(i as int)),
                device_names(self.devices@).no_duplicates(),
                self.devices@.len() >= staying.len(),
                self.devices@.take(staying.len() as int) == staying,
                forall|k: int|
                    staying.len() <= k < self.devices@.len() ==> (
                    #[trigger] self.devices@[k]).device.active is Inactive,
        {
            let id = &found[i];
            let ghost before = device_names(self.devices@);
            proof {
                assert(names.take(i + 1).drop_last() =~= names.take(i as int));
                assert(names.take(i + 1).last() == id@);
            }
            if !self.has_device(id) {
                self.devices.push(NamedDevice { id: id.clone(), device: HardwareDevice::new() });
                proof {
                    assert(device_names(self.devices@) =~= before.push(id@));
                    assert(self.devices@.take(staying.len() as int) =~= staying);
                    assert forall|a: int, b: int|
                        0 <= a < b < before.push(id@).len() implies before.push(id@)[a]
                        != before.push(id@)[b] by {
                        if b == before.len() {
                            assert(before.contains(before[a]));
                        }
                    }
                }
            }
        }
        assert(names.take(names.len() as int) =~= names);
    }

    /// Brings settings in line with the devices that there are. Those for other devices are
    /// dropped, and devices without any get the ones that devices have to begin with.
    pub fn sync_params(&self, params: &mut Vec<NamedDeviceParams>)
        requires
            self.wf(),
        ensures
            ({
                let names = device_names(self.devices@);
                let kept = old(params)@.filter(|entry: NamedDeviceParams| names.contains(entry.id@));
                let missing = names.filter(
                    |name: Seq<char>| !param_names(kept).contains(name),
                );
                &&& final(params)@.len() == kept.len() + missing.len()
                &&& final(params)@.take(kept.len() as int) == kept
                &&& forall|i: int|
                    0 <= i < missing.len() ==> {
                        let entry = #[trigger] final(params)@[kept.len() + i];
                        &&& entry.id@ == missing[i]
                        &&& entry.params.active
                        &&& entry.params.rx_streams@.len() == 0
                        &&& entry.params.tx_streams@.len() == 0
                    }
            }),
            params_follow(device_names(self.devices@), old(params)@, final(params)@),
    {
        let ghost names = device_names(self.devices@);
        let ghost present = |entry: NamedDeviceParams| names.contains(entry.id@);
        let ghost all = params@;
        let mut entries: Vec<NamedDeviceParams> = Vec::new();
        std::mem::swap(&mut entries, params);
        proof {
            reveal(Seq::filter);
            assert(all.take(0).filter(present) =~= Seq::<NamedDeviceParams>::empty());
        }
        for entry in iter: entries
            invariant
                iter.seq() == all,
                names == device_names(self.devices@),
                present == (|entry: NamedDeviceParams| names.contains(entry.id@)),
                params@ == all.take(iter.index() as int).filter(present),
        {
            proof {
                let i = iter.index() as int;
                reveal(Seq::filter);
                assert(all.take(i + 1).drop_last() =~= all.take(i));
                assert(all.take(i + 1).last() == all[i]);
            }
            if self.has_device(&entry.id) {
                params.push(entry);
            }
        }
        let ghost kept = params@;
        let ghost lacks = |name: Seq<char>| !param_names(kept).contains(name);
        let count: usize = params.len();
        proof {
            assert(all.take(all.len() as int) =~= all);
            assert(names.take(0).filter(lacks) =~= Seq::<Seq<char>>::empty());
            assert(params@.take(kept.len() as int) =~= kept);
        }
        for i in 0..self.devices.len()
            invariant
                names == device_names(self.devices@),
                lacks == (|name: Seq<char>| !param_names(kept).contains(name)),
                count == kept.len(),
                params@.len() == kept.len() + names.take(i as int).filter(lacks).len(),
                params@.take(kept.len() as int) == kept,
                forall|k: int|
                    0 <= k < names.take(i as int).filter(lacks).len() ==> {
                        let entry = #[trigger] params@[kept.len() + k];
                        &&& entry.id@ == names.take(i as int).filter(lacks)[k]
                        &&& entry.params.active
                        &&& entry.params.rx_streams@.len() == 0
                        &&& entry.params.tx_streams@.len() == 0
                    },
        {
            let id = &self.devices[i].id;
            proof {
                reveal(Seq::filter);
                assert(names.take(i + 1).drop_last() =~= names.take(i as int));
                assert(names.take(i + 1).last() == id@);
            }
            let ghost before = params@;
            if !names_hold(params, count, id) {
                params.push(
                    NamedDeviceParams { id: id.clone(), params: HardwareDeviceParams::default() },
                );
                assert(params@.take(kept.len() as int) =~= kept);
            }
            proof {
                assert forall|k: int| 0 <= k < names.take(i + 1).filter(lacks).len() implies {
                    let entry = #[trigger] params@[kept.len() + k];
                    &&& entry.id@ == names.take(i + 1).filter(lacks)[k]
                    &&& entry.params.active
                    &&& entry.params.rx_streams@.len() == 0
                    &&& entry.params.tx_streams@.len() == 0
                } by {
                    if k < names.take(i as int).filter(lacks).len() {
                        assert(params@[kept.len() + k] == before[kept.len() + k]);
                    }
                }
            }
        }
        assert(names.take(names.len() as int) =~= names);
    }

    /// Takes note of which streams are still received, and of those that chunks have come
    /// of, and returns the streams that are open.
    pub fn open_streams(&mut self, live: &BTreeSet<StreamId>, chunks: &Vec<StreamId>) -> (open: Vec<
        StreamId,
    >)
        ensures
            final(self).open_streams@ == old(self).open_streams@.intersect(live@).union(
                chunks@.to_set(),
            ),
            lists(open@, final(self).open_streams@),
            final(self).devices == old(self).devices,
    {
        let ids = sorted_members(&self.open_streams);
        let ghost before = self.open_streams@;
        let mut open: BTreeSet<StreamId> = BTreeSet::new();
        for i in 0..ids.len()
            invariant
                lists(ids@, before),
                forall|id: StreamId| #[trigger]
                    open@.contains(id) <==> live@.contains(id) && exists|k: int|
                        0 <= k < i && ids@[k] == id,
        {
            let ghost earlier = open@;
            if live.contains(&ids[i]) {
                open.insert(ids[i]);
            }
            proof {
                assert forall|id: StreamId| #[trigger]
                    open@.contains(id) <==> live@.contains(id) && exists|k: int|
                    0 <= k < i + 1 && ids@[k] == id by {
                    if earlier.contains(id) {
                        let k = choose|k: int| 0 <= k < i && ids@[k] == id;
                        assert(ids@[k] == id);
                    }
                    if id == ids@[i as int] && live@.contains(id) {
                        assert(ids@[i as int] == id);
                    }
                    if live@.contains(id) && exists|k: int| 0 <= k < i + 1 && ids@[k] == id {
                        let k = choose|k: int| 0 <= k < i + 1 && ids@[k] == id;
                        if k < i {
                            assert(earlier.contains(id));
                        }
                    }
                }
            }
        }
        proof {
            assert forall|id: StreamId| open@.contains(id) <==> before.intersect(live@).contains(
                id,
            ) by {
                if before.contains(id) {
                    assert(ids@.contains(id));
                }
                if exists|k: int| 0 <= k < ids@.len() && ids@[k] == id {
                    assert(ids@.contains(id));
                }
            }
            assert(open@ =~= before.intersect(live@));
            assert(chunks@.take(0).to_set() =~= Set::<StreamId>::empty());
            assert(open@ =~= before.intersect(live@).union(chunks@.take(0).to_set()));
        }
        for i in 0..chunks.len()
            invariant
                open@ == before.intersect(live@).union(chunks@.take(i as int).to_set()),
        {
            proof {
                next_is_taken(chunks@, i as int);
            }
            open.insert(chunks[i]);
            assert(open@ =~= before.intersect(live@).union(chunks@.take(i + 1).to_set()));
        }
        assert(chunks@.take(chunks@.len() as int) =~= chunks@);
        self.open_streams = open;
        sorted_members(&self.open_streams)
    }

    /// Whether no device is in use or being shut down.
    pub fn all_inactive(&self) -> (result: bool)
        ensures
            result == forall|i: int|
                0 <= i < self.devices@.len() ==> (#[trigger] self.devices@[i]).device.active
                    is Inactive,
    {
        for i in 0..self.devices.len()
            invariant
                forall|k: int|
                    0 <= k < i ==> (#[trigger] self.devices@[k]).device.active is Inactive,
        {
            match &self.devices[i].device.active {
                HardwareState::Inactive => {},
                _ => {
                    assert(!(self.devices@[i as int].device.active is Inactive));
                    return false;
                },
            }
        }
        true
    }
}

/// Whether one of the first `count` settings is for a device.
fn names_hold(params: &Vec<NamedDeviceParams>, count: usize, id: &String) -> (result: bool)
    requires
        count <= params@.len(),
    ensures
        result == param_names(params@.take(count as int)).contains(id@),
{
    let ghost names = param_names(params@.take(count as int));
    let mut i: usize = 0;
    while i < count
        invariant
            names == param_names(params@.take(count as int)),
            count <= params@.len(),
            i <= count,
            forall|k: int| 0 <= k < i ==> names[k] != id@,
        decreases count - i,
    {
        if params[i].id == *id {
            assert(names[i as int] == id@);
            return true;
        }
        i = i + 1;
    }
    false
}

/// Devices that are in use have names of their own where all devices have.
proof fn filter_keeps_names_apart(devices: Seq<NamedDevice>)
    requires
        device_names(devices).no_duplicates(),
    ensures
        device_names(in_use(devices)).no_duplicates(),
        forall|name: Seq<char>| #[trigger]
            device_names(in_use(devices)).contains(name) ==> device_names(devices).contains(name),
    decreases devices.len(),
{
    reveal(Seq::filter);
    if devices.len() > 0 {
        let before = devices.drop_last();
        let names = device_names(devices);
        assert(device_names(before) =~= names.drop_last());
        filter_keeps_names_apart(before);
        let kept = device_names(in_use(before));
        let last = devices.last();
        assert(names[names.len() - 1] == last.id@);
        assert(!device_names(before).contains(last.id@)) by {
            if device_names(before).contains(last.id@) {
                let k = choose|k: int|
                    0 <= k < device_names(before).len() && device_names(before)[k] == last.id@;
                assert(names[k] == last.id@);
            }
        }
        if last.device.active is Active {
            assert(in_use(devices) == in_use(before).push(last));
            assert(device_names(in_use(devices)) =~= kept.push(last.id@));
            assert forall|a: int, b: int|
                0 <= a < b < kept.push(last.id@).len() implies kept.push(last.id@)[a] != kept.push(
                last.id@,
            )[b] by {
                if b == kept.len() {
                    assert(kept.contains(kept[a]));
                }
            }
        } else {
            assert(in_use(devices) == in_use(before));
        }
        assert forall|name: Seq<char>| #[trigger] device_names(in_use(devices)).contains(
            name,
        ) implies names.contains(name) by {
            if name != last.id@ {
                let j = choose|j: int|
                    0 <= j < device_names(in_use(devices)).len() && device_names(
                        in_use(devices),
                    )[j] == name;
                assert(kept[j] == name);
                assert(kept.contains(name));
                let k = choose|k: int|
                    0 <= k < device_names(before).len() && device_names(before)[k] == name;
                assert(names[k] == name);
            }
        }
    }
}

/// What a setting can be set to: from the first number to the second one.
#[derive(Clone, Copy, Debug)]
pub struct SettingRange {
    pub minimum: Double,
    pub maximum: Double,
}

/// The smallest and the largest value in some ranges. What is not a number does not
/// count.
pub fn compute_range_min_max(ranges: &Vec<SettingRange>) -> (limits: Option<(Double, Double)>)
    ensures
        limits is None <==> ranges@.len() == 0,
        limits matches Some((min, max)) ==> {
            &&& !min.is_nan() && !max.is_nan()
            &&& forall|i: int|
                0 <= i < ranges@.len() ==> !(#[trigger] ranges@[i]).minimum.below(min)
                    && !max.below(ranges@[i].maximum)
            &&& min@ == INFINITY_BITS || exists|i: int|
                0 <= i < ranges@.len() && (#[trigger] ranges@[i]).minimum == min
            &&& max@ == SIGN_BIT + INFINITY_BITS || exists|i: int|
                0 <= i < ranges@.len() && (#[trigger] ranges@[i]).maximum == max
        },
{
    if ranges.len() == 0 {
        return None;
    }
    let mut min = Double::from_bits(INFINITY_BITS);
    let mut max = Double::from_bits(SIGN_BIT + INFINITY_BITS);
    for i in 0..ranges.len()
        invariant
            !min.is_nan(),
            !max.is_nan(),
            forall|k: int|
                0 <= k < i ==> !(#[trigger] ranges@[k]).minimum.below(min) && !max.below(
                    ranges@[k].maximum,
                ),
            min@ == INFINITY_BITS || exists|k: int|
                0 <= k < i && (#[trigger] ranges@[k]).minimum == min,
            max@ == SIGN_BIT + INFINITY_BITS || exists|k: int|
                0 <= k < i && (#[trigger] ranges@[k]).maximum == max,
    {
        let range = ranges[i];
        if range.minimum.lt(min) {
            min = range.minimum;
            assert(ranges@[i as int].minimum == min);
        }
        if max.lt(range.maximum) {
            max = range.maximum;
            assert(ranges@[i as int].maximum == max);
        }
    }
    Some((min, max))
}

/// The first of the ranges that are closest to a value, given how far each one is from
/// it.
pub fn closest_range(distances: &Vec<Double>) -> (closest: usize)
    requires
        distances@.len() > 0,
        distances@.len() == 1 || forall|i: int|
            0 <= i < distances@.len() ==> !(#[trigger] distances@[i]).is_nan(),
    ensures
        closest < distances@.len(),
        forall|i: int|
            0 <= i < distances@.len() ==> !(#[trigger] distances@[i]).below(
                distances@[closest as int],
            ),
        forall|i: int|
            0 <= i < closest ==> distances@[closest as int].below(#[trigger] distances@[i]),
{
    let mut closest: usize = 0;
    for i in 1..distances.len()
        invariant
            distances@.len() == 1 || forall|k: int|
                0 <= k < distances@.len() ==> !(#[trigger] distances@[k]).is_nan(),
            closest < i <= distances@.len(),
            forall|k: int|
                0 <= k < i ==> !(#[trigger] distances@[k]).below(distances@[closest as int]),
            forall|k: int|
                0 <= k < closest ==> distances@[closest as int].below(#[trigger] distances@[k]),
    {
        if distances[i].lt(distances[closest]) {
            closest = i;
        }
    }
    closest
}

/// What is found is added behind what is there, once each and in the order in which it was
/// found.
pub proof fn found_devices_are_added_once(
    names: Seq<Seq<char>>,
    first: Seq<Seq<char>>,
    second: Seq<Seq<char>>,
    name: Seq<char>,
)
    ensures
        with_new_names(names, first).len() >= names.len(),
        with_new_names(names, first).take(names.len() as int) == names,
        with_new_names(names, first).contains(name) <==> names.contains(name) || first.contains(
            name,
        ),
        names.no_duplicates() ==> with_new_names(names, first).no_duplicates(),
        with_new_names(names, first + second) == with_new_names(
            with_new_names(names, first),
            second,
        ),
    decreases first.len() + second.len(),
{
    let after = with_new_names(names, first);
    if first.len() > 0 {
        let rest = first.drop_last();
        found_devices_are_added_once(names, rest, Seq::empty(), name);
        let before = with_new_names(names, rest);
        assert(after.take(names.len() as int) =~= before.take(names.len() as int));
        assert(first.contains(name) <==> rest.contains(name) || first.last() == name) by {
            if first.contains(name) {
                let k = choose|k: int| 0 <= k < first.len() && first[k] == name;
                if k < rest.len() {
                    assert(rest[k] == name);
                }
            }
            if rest.contains(name) {
                let k = choose|k: int| 0 <= k < rest.len() && rest[k] == name;
                assert(first[k] == name);
            }
            assert(first[first.len() - 1] == first.last());
        }
        if !before.contains(first.last()) {
            assert(after.contains(name) <==> before.contains(name) || first.last() == name) by {
                if after.contains(name) {
                    let k = choose|k: int| 0 <= k < after.len() && after[k] == name;
                    if k < before.len() {
                        assert(before[k] == name);
                    }
                }
                if before.contains(name) {
                    let k = choose|k: int| 0 <= k < before.len() && before[k] == name;
                    assert(after[k] == name);
                }
                assert(after[after.len() - 1] == first.last());
            }
        }
    } else {
        assert(names.take(names.len() as int) =~= names);
    }
    if second.len() > 0 {
        found_devices_are_added_once(names, first, second.drop_last(), name);
        assert((first + second).drop_last() =~= first + second.drop_last());
    } else {
        assert(first + second =~= first);
    }
}

/// Whether the table holds the devices that are in use and those that were found.
pub open spec fn enumerated(
    before: Seq<NamedDevice>,
    found: Seq<Seq<char>>,
    after: Seq<NamedDevice>,
) -> bool {
    &&& device_names(after) == with_new_names(device_names(in_use(before)), found)
    &&& after.take(in_use(before).len() as int) == in_use(before)
    &&& forall|i: int|
        in_use(before).len() <= i < after.len() ==> (#[trigger] after[i]).device.active is Inactive
}

/// A device that is in use stays as it is, whether or not it was found. Any other is there
/// exactly where it was found, and is not in use.
pub proof fn devices_in_use_stay(
    before: Seq<NamedDevice>,
    found: Seq<Seq<char>>,
    after: Seq<NamedDevice>,
    i: int,
)
    requires
        enumerated(before, found, after),
    ensures
        0 <= i < before.len() && before[i].device.active is Active ==> after.contains(before[i]),
        0 <= i < found.len() ==> exists|k: int|
            0 <= k < after.len() && (#[trigger] after[k]).id@ == found[i],
        0 <= i < after.len() ==> after[i].device.active is Inactive || (
        after[i].device.active is Active && before.contains(after[i])),
        0 <= i < after.len() && !(after[i].device.active is Active) ==> found.contains(
            after[i].id@,
        ),
{
    let is_active = |entry: NamedDevice| entry.device.active is Active;
    let kept = in_use(before);
    assert(kept == before.filter(is_active));
    let names = device_names(kept);
    if 0 <= i < before.len() && before[i].device.active is Active {
        assert(is_active(before[i]));
        before.lemma_filter_contains(is_active, i);
        let k = choose|k: int| 0 <= k < kept.len() && kept[k] == before[i];
        assert(after.len() >= kept.len()) by {
            found_devices_are_added_once(names, found, Seq::empty(), Seq::empty());
        }
        assert(after.take(kept.len() as int)[k] == after[k]);
    }
    if 0 <= i < found.len() {
        found_devices_are_added_once(names, found, Seq::empty(), found[i]);
        assert(found.contains(found[i]));
        let k = choose|k: int|
            0 <= k < device_names(after).len() && device_names(after)[k] == found[i];
        assert(after[k].id@ == found[i]);
    }
    if 0 <= i < after.len() {
        found_devices_are_added_once(names, found, Seq::empty(), after[i].id@);
        assert(after.take(kept.len() as int) == kept);
        if i < kept.len() {
            assert(after[i] == kept[i]);
            before.lemma_filter_pred(is_active, i);
            filtered_was_there(before, is_active, i);
        } else {
            names_behind_were_found(names, found, i);
            assert(device_names(after)[i] == after[i].id@);
        }
    }
}

/// What stands behind the names that were there was found.
proof fn names_behind_were_found(names: Seq<Seq<char>>, found: Seq<Seq<char>>, i: int)
    requires
        names.len() <= i < with_new_names(names, found).len(),
    ensures
        found.contains(with_new_names(names, found)[i]),
    decreases found.len(),
{
    if found.len() > 0 {
        let rest = found.drop_last();
        let before = with_new_names(names, rest);
        if i < before.len() {
            names_behind_were_found(names, rest, i);
            let k = choose|k: int| 0 <= k < rest.len() && rest[k] == before[i];
            assert(found[k] == before[i]);
        } else {
            assert(found[found.len() - 1] == found.last());
        }
    }
}

/// Whether what is wanted of devices was brought in line with the devices that there are.
pub open spec fn params_follow(
    names: Seq<Seq<char>>,
    before: Seq<NamedDeviceParams>,
    after: Seq<NamedDeviceParams>,
) -> bool {
    let kept = before.filter(|entry: NamedDeviceParams| names.contains(entry.id@));
    let missing = names.filter(|name: Seq<char>| !param_names(kept).contains(name));
    &&& after.len() == kept.len() + missing.len()
    &&& after.take(kept.len() as int) == kept
    &&& forall|i: int|
        0 <= i < missing.len() ==> {
            let entry = #[trigger] after[kept.len() + i];
            &&& entry.id@ == missing[i]
            &&& entry.params.active
            &&& entry.params.rx_streams@.len() == 0
            &&& entry.params.tx_streams@.len() == 0
        }
}

/// What is wanted of a device that there is stays as it was. For a device of which nothing was
/// said there is then an entry that is active and has no streams, and what was wanted of a
/// device that there is no more is gone.
pub proof fn wanted_devices_follow(
    names: Seq<Seq<char>>,
    before: Seq<NamedDeviceParams>,
    after: Seq<NamedDeviceParams>,
    i: int,
)
    requires
        params_follow(names, before, after),
    ensures
        0 <= i < before.len() && names.contains(before[i].id@) ==> after.contains(before[i]),
        0 <= i < names.len() ==> exists|k: int|
            0 <= k < after.len() && (#[trigger] after[k]).id@ == names[i],
        0 <= i < after.len() ==> names.contains(after[i].id@),
        0 <= i < after.len() ==> before.contains(after[i]) || (after[i].params.active
            && after[i].params.rx_streams@.len() == 0 && after[i].params.tx_streams@.len() == 0),
{
    let there = |entry: NamedDeviceParams| names.contains(entry.id@);
    let kept = before.filter(there);
    let is_missing = |name: Seq<char>| !param_names(kept).contains(name);
    let missing = names.filter(is_missing);
    assert(after.take(kept.len() as int) == kept);
    assert(forall|k: int| 0 <= k < kept.len() ==> after.take(kept.len() as int)[k] == after[k]);
    if 0 <= i < before.len() && names.contains(before[i].id@) {
        assert(there(before[i]));
        before.lemma_filter_contains(there, i);
        let k = choose|k: int| 0 <= k < kept.len() && kept[k] == before[i];
        assert(after[k] == before[i]);
    }
    if 0 <= i < names.len() {
        if param_names(kept).contains(names[i]) {
            let k = choose|k: int|
                0 <= k < param_names(kept).len() && param_names(kept)[k] == names[i];
            assert(after[k].id@ == names[i]);
        } else {
            assert(is_missing(names[i]));
            names.lemma_filter_contains(is_missing, i);
            let k = choose|k: int| 0 <= k < missing.len() && missing[k] == names[i];
            assert(after[kept.len() + k].id@ == names[i]);
        }
    }
    if 0 <= i < after.len() {
        if i < kept.len() {
            assert(after[i] == kept[i]);
            before.lemma_filter_pred(there, i);
            filtered_was_there(before, there, i);
        } else {
            let k = i - kept.len();
            assert(after[kept.len() + k].id@ == missing[k]);
            filtered_was_there(names, is_missing, k);
        }
    }
}

/// What a filter lets through was there.
proof fn filtered_was_there<T>(items: Seq<T>, pass: spec_fn(T) -> bool, i: int)
    requires
        0 <= i < items.filter(pass).len(),
    ensures
        items.contains(items.filter(pass)[i]),
    decreases items.len(),
{
    reveal(Seq::filter);
    if items.len() > 0 {
        let rest = items.drop_last();
        if i < rest.filter(pass).len() {
            filtered_was_there(rest, pass, i);
            let k = choose|k: int| 0 <= k < rest.len() && rest[k] == rest.filter(pass)[i];
            assert(items[k] == items.filter(pass)[i]);
        } else {
            assert(items[items.len() - 1] == items.filter(pass)[i]);
        }
    }
}

} // verus!
