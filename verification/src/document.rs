use std::collections::BTreeMap;
use std::sync::Arc;

use vstd::prelude::*;
use vstd::string::*;

use crate::chunked_deque::ChunkedDeque;
use crate::double::{
    first_smallest, largest, last_largest, smallest, smallest_and_largest_bound_the_others, Double,
};
use crate::indexed::IndexedSeq;
use crate::maps::{common_keys, increasing, keys_without, lists, sorted_keys};
use crate::shared::ptr_eq;
use crate::text::{
    decimal, decimal_text, digits_value, has_prefix, is_digit, numbers_are_written_in_decimal,
    only_numbers_are_read, parse_from, parsed, parsing_undoes_writing, starts_with,
};

verus! {

pub type ClipId = usize;

pub type RecordingId = usize;

pub type StreamId = usize;

/// Samples as they are received: pairs of an in-phase and a quadrature part. Those of
/// single precision are carried by their bits.
#[derive(Debug)]
pub enum RawIqSamples {
    CS8(Vec<(i8, i8)>),
    CF32(Vec<(u32, u32)>),
}

impl RawIqSamples {
    /// The number of samples.
    pub open spec fn count(&self) -> nat {
        match self {
            RawIqSamples::CS8(samples) => samples@.len(),
            RawIqSamples::CF32(samples) => samples@.len(),
        }
    }

    /// The number of samples.
    pub fn len(&self) -> (len: usize)
        ensures
            len == self.count(),
    {
        match self {
            RawIqSamples::CS8(samples) => samples.len(),
            RawIqSamples::CF32(samples) => samples.len(),
        }
    }
}

/// A piece of a recording. Pieces are told apart by where they are, not by what
/// samples they hold.
pub struct Chunk {
    samples: Arc<RawIqSamples>,
}

impl View for Chunk {
    type V = RawIqSamples;

    closed spec fn view(&self) -> RawIqSamples {
        *self.samples
    }
}

impl Chunk {
    pub fn new(value: RawIqSamples) -> (chunk: Self)
        ensures
            chunk@ == value,
    {
        Chunk { samples: Arc::new(value) }
    }

    pub fn as_ref(&self) -> (samples: &RawIqSamples)
        ensures
            *samples == self@,
    {
        &self.samples
    }
}

impl Clone for Chunk {
    /// Another handle to the same samples.
    fn clone(&self) -> (chunk: Self)
        ensures
            chunk == *self,
    {
        Chunk { samples: self.samples.clone() }
    }
}

impl Chunk {
    /// Whether comparing where the samples of the two are can give `same`.
    pub closed spec fn compares(&self, other: &Self, same: bool) -> bool {
        call_ensures(ptr_eq::<RawIqSamples>, (&self.samples, &other.samples), same)
    }
}

impl PartialEq for Chunk {
    /// Whether the two are handles to the same samples.
    fn eq(&self, other: &Self) -> (same: bool)
        ensures
            self.compares(other, same),
            same ==> *self == *other,
    {
        ptr_eq(&self.samples, &other.samples)
    }
}

impl vstd::std_specs::cmp::PartialEqSpecImpl for Chunk {
    open spec fn obeys_eq_spec() -> bool {
        false
    }

    open spec fn eq_spec(&self, other: &Self) -> bool {
        *self == *other
    }
}

/// What is known of a clip beside its chunks.
#[derive(Debug)]
pub struct ClipDescriptor {
    pub name: String,
    pub frequency: Double,
    pub sample_rate: Double,
    pub reference_time: Double,
    pub chunk_size: usize,
}

/// What a clip descriptor says.
pub struct DescriptorModel {
    pub name: Seq<char>,
    pub frequency: Double,
    pub sample_rate: Double,
    pub reference_time: Double,
    pub chunk_size: usize,
}

impl View for ClipDescriptor {
    type V = DescriptorModel;

    open spec fn view(&self) -> DescriptorModel {
        DescriptorModel {
            name: self.name@,
            frequency: self.frequency,
            sample_rate: self.sample_rate,
            reference_time: self.reference_time,
            chunk_size: self.chunk_size,
        }
    }
}

impl Clone for ClipDescriptor {
    fn clone(&self) -> (descriptor: Self)
        ensures
            descriptor == *self,
    {
        ClipDescriptor {
            name: self.name.clone(),
            frequency: self.frequency,
            sample_rate: self.sample_rate,
            reference_time: self.reference_time,
            chunk_size: self.chunk_size,
        }
    }
}

/// A recording of one stream.
pub struct Clip {
    pub descriptor: ClipDescriptor,
    pub chunks: ChunkedDeque<Chunk>,
}

/// What a clip holds.
pub struct ClipModel {
    pub descriptor: DescriptorModel,
    pub chunks: IndexedSeq<Chunk>,
}

impl View for Clip {
    type V = ClipModel;

    open spec fn view(&self) -> ClipModel {
        ClipModel { descriptor: self.descriptor@, chunks: self.chunks@ }
    }
}

impl Clip {
    /// The chunks are in order.
    pub open spec fn wf(&self) -> bool {
        self.chunks.wf() && self.chunks.spare_chunks() == 0
    }
}

impl Clone for Clip {
    fn clone(&self) -> (clip: Self)
        ensures
            clip@ == self@,
            self.wf() ==> clip.wf(),
    {
        Clip { descriptor: self.descriptor.clone(), chunks: self.chunks.clone() }
    }
}

/// The clips that are saved and loaded together.
pub struct Document {
    pub clips: BTreeMap<ClipId, Arc<Clip>>,
}

impl View for Document {
    type V = Map<ClipId, ClipModel>;

    open spec fn view(&self) -> Map<ClipId, ClipModel> {
        self.clips@.map_values(|clip: Arc<Clip>| (*clip)@)
    }
}

impl Clone for Document {
    /// A document with the same clips, which the two share.
    fn clone(&self) -> (document: Self)
        ensures
            document.clips@ == self.clips@,
    {
        Document { clips: self.clips.clone() }
    }
}

impl Default for Document {
    fn default() -> (document: Self)
        ensures
            document.wf(),
            document.clips@ == Map::<ClipId, Arc<Clip>>::empty(),
    {
        Document::new()
    }
}

/// Whether comparing where two clips are can give `same`.
pub closed spec fn clips_compare(old: Arc<Clip>, new: Arc<Clip>, same: bool) -> bool {
    call_ensures(ptr_eq::<Clip>, (&old, &new), same)
}

/// The identifiers in a list of clips.
pub open spec fn clip_ids(clips: Seq<(ClipId, &Arc<Clip>)>) -> Seq<ClipId> {
    clips.map_values(|entry: (ClipId, &Arc<Clip>)| entry.0)
}

impl Document {
    pub open spec fn wf(&self) -> bool {
        forall|id: ClipId| #[trigger] self.clips@.contains_key(id) ==> self.clips@[id].wf()
    }

    /// Whether the clips of some streams are in the document.
    pub open spec fn covers_streams(&self, stream_to_clip: Map<StreamId, ClipId>) -> bool {
        forall|stream: StreamId| #[trigger]
            stream_to_clip.contains_key(stream) ==> self.clips@.contains_key(stream_to_clip[stream])
    }

    pub fn new() -> (document: Self)
        ensures
            document.wf(),
            document.clips@ == Map::<ClipId, Arc<Clip>>::empty(),
    {
        Document { clips: BTreeMap::new() }
    }

    /// The clips with the given identifiers.
    fn clips_of<'a>(&'a self, ids: &Vec<ClipId>) -> (clips: Vec<(ClipId, &'a Arc<Clip>)>)
        requires
            forall|i: int| 0 <= i < ids@.len() ==> self.clips@.contains_key(#[trigger] ids@[i]),
        ensures
            clip_ids(clips@) == ids@,
            forall|i: int| 0 <= i < clips@.len() ==> *(#[trigger] clips@[i]).1 == self.clips@[ids@[i]],
    {
        let mut clips: Vec<(ClipId, &'a Arc<Clip>)> = Vec::new();
        for i in 0..ids.len()
            invariant
                forall|i: int| 0 <= i < ids@.len() ==> self.clips@.contains_key(#[trigger] ids@[i]),
                clip_ids(clips@) == ids@.take(i as int),
                clips@.len() == i,
                forall|i: int|
                    0 <= i < clips@.len() ==> *(#[trigger] clips@[i]).1 == self.clips@[ids@[i]],
        {
            let id: ClipId = ids[i];
            clips.push((id, self.clips.get(&id).unwrap()));
            assert(clip_ids(clips@) =~= ids@.take(i + 1));
        }
        assert(ids@.take(ids@.len() as int) =~= ids@);
        clips
    }

    /// The clips that are not in `new`, in the order of their identifiers.
    pub fn removed_clips<'a>(&'a self, new: &'a Document) -> (removed: Vec<(ClipId, &'a Arc<Clip>)>)
        ensures
            lists(clip_ids(removed@), self.clips@.dom().difference(new.clips@.dom())),
            forall|i: int|
                0 <= i < removed@.len() ==> *(#[trigger] removed@[i]).1 == self.clips@[clip_ids(
                    removed@,
                )[i]],
    {
        let ids = keys_without(&self.clips, &new.clips);
        assert forall|i: int| 0 <= i < ids@.len() implies self.clips@.contains_key(
            #[trigger] ids@[i],
        ) by {
            assert(ids@.contains(ids@[i]));
        }
        self.clips_of(&ids)
    }

    /// The clips of `new` that are not in this document, in the order of their
    /// identifiers.
    pub fn added_clips<'a>(&'a self, new: &'a Document) -> (added: Vec<(ClipId, &'a Arc<Clip>)>)
        ensures
            lists(clip_ids(added@), new.clips@.dom().difference(self.clips@.dom())),
            forall|i: int|
                0 <= i < added@.len() ==> *(#[trigger] added@[i]).1 == new.clips@[clip_ids(
                    added@,
                )[i]],
    {
        new.removed_clips(self)
    }

    /// The clips that are in both documents, as they are in this one and in `new`, in the
    /// order of their identifiers. Clips that the two documents share are left out, and
    /// so every clip that differs is listed. A clip that was copied is not shared, though
    /// it holds the same.
    pub fn modified_clips<'a>(&'a self, new: &'a Document) -> (modified: Vec<
        (ClipId, &'a Arc<Clip>, &'a Arc<Clip>),
    >)
        ensures
            increasing(modified_ids(modified@)),
            forall|i: int|
                0 <= i < modified@.len() ==> {
                    let (id, old_clip, new_clip) = #[trigger] modified@[i];
                    &&& self.clips@.contains_key(id) && *old_clip == self.clips@[id]
                    &&& new.clips@.contains_key(id) && *new_clip == new.clips@[id]
                    &&& clips_compare(*old_clip, *new_clip, false)
                },
            forall|id: ClipId|
                self.clips@.contains_key(id) && new.clips@.contains_key(id)
                    && !#[trigger] modified_ids(modified@).contains(id) ==> clips_compare(
                    self.clips@[id],
                    new.clips@[id],
                    true,
                ),
            forall|id: ClipId|
                self.clips@.contains_key(id) && new.clips@.contains_key(id) && self.clips@[id]
                    != new.clips@[id] ==> #[trigger] modified_ids(modified@).contains(id),
    {
        let ids = common_keys(&self.clips, &new.clips);
        let mut modified: Vec<(ClipId, &'a Arc<Clip>, &'a Arc<Clip>)> = Vec::new();
        for i in 0..ids.len()
            invariant
                lists(ids@, self.clips@.dom().intersect(new.clips@.dom())),
                increasing(modified_ids(modified@)),
                forall|k: int|
                    0 <= k < modified@.len() ==> {
                        let (id, old_clip, new_clip) = #[trigger] modified@[k];
                        &&& self.clips@.contains_key(id) && *old_clip == self.clips@[id]
                        &&& new.clips@.contains_key(id) && *new_clip == new.clips@[id]
                        &&& clips_compare(*old_clip, *new_clip, false)
                        &&& i < ids@.len() ==> id < ids@[i as int]
                    },
                forall|k: int|
                    0 <= k < i && !modified_ids(modified@).contains(#[trigger] ids@[k])
                        ==> clips_compare(self.clips@[ids@[k]], new.clips@[ids@[k]], true),
                forall|k: int|
                    0 <= k < i && self.clips@[ids@[k]] != new.clips@[#[trigger] ids@[k]]
                        ==> modified_ids(modified@).contains(ids@[k]),
        {
            let id: ClipId = ids[i];
            assert(ids@.contains(id));
            let old_clip = self.clips.get(&id).unwrap();
            let new_clip = new.clips.get(&id).unwrap();
            let ghost before = modified_ids(modified@);
            if !ptr_eq(old_clip, new_clip) {
                modified.push((id, old_clip, new_clip));
                proof {
                    assert(modified_ids(modified@) =~= before.push(id));
                    assert forall|k: int| 0 <= k < before.len() implies before[k] < id by {
                        assert(modified@[k].0 == before[k]);
                    }
                    assert(modified_ids(modified@)[before.len() as int] == id);
                    assert forall|other: ClipId| before.contains(other) implies #[trigger]
                        modified_ids(modified@).contains(other) by {
                        let j = choose|j: int| 0 <= j < before.len() && before[j] == other;
                        assert(modified_ids(modified@)[j] == other);
                    }
                }
            }
        }
        proof {
            assert forall|id: ClipId|
                self.clips@.contains_key(id) && new.clips@.contains_key(id) && self.clips@[id]
                    != new.clips@[id] implies #[trigger] modified_ids(modified@).contains(id) by {
                assert(ids@.contains(id));
            }
            assert forall|id: ClipId|
                self.clips@.contains_key(id) && new.clips@.contains_key(id)
                    && !#[trigger] modified_ids(modified@).contains(id) implies clips_compare(
                self.clips@[id],
                new.clips@[id],
                true,
            ) by {
                assert(ids@.contains(id));
            }
        }
        modified
    }
}

/// The times of clips, in the order of their identifiers.
pub open spec fn times_of(ids: Seq<ClipId>, times: Map<ClipId, Double>) -> Seq<Double> {
    ids.map_values(|id: ClipId| times[id])
}

/// Whether every clip of a document has a time.
pub open spec fn all_have_times(document: Document, times: Map<ClipId, Double>) -> bool {
    forall|id: ClipId| #[trigger] document.clips@.contains_key(id) ==> times.contains_key(id)
}

impl Document {
    /// The times of all clips, in the order of their identifiers.
    fn ordered_times(&self, times: &BTreeMap<ClipId, Double>) -> (ordered: Vec<Double>)
        requires
            all_have_times(*self, times@),
        ensures
            exists|ids: Seq<ClipId>|
                lists(ids, self.clips@.dom()) && ordered@ == #[trigger] times_of(ids, times@),
    {
        let ids = sorted_keys(&self.clips);
        let mut ordered: Vec<Double> = Vec::new();
        for i in 0..ids.len()
            invariant
                lists(ids@, self.clips@.dom()),
                all_have_times(*self, times@),
                ordered@ == times_of(ids@, times@).take(i as int),
        {
            let id: ClipId = ids[i];
            proof {
                assert(ids@.contains(id));
                assert(self.clips@.contains_key(id));
                let all = times_of(ids@, times@);
                assert(all.take(i + 1) =~= all.take(i as int).push(all[i as int]));
            }
            ordered.push(*times.get(&id).unwrap());
        }
        assert(times_of(ids@, times@).take(ids@.len() as int) =~= times_of(ids@, times@));
        ordered
    }

    /// The earliest time at which a clip starts, where `start_times` holds that of each
    /// clip.
    pub fn earliest_time(&self, start_times: &BTreeMap<ClipId, Double>) -> (time: Option<Double>)
        requires
            all_have_times(*self, start_times@),
        ensures
            exists|ids: Seq<ClipId>|
                {
                    &&& lists(ids, self.clips@.dom())
                    &&& time == if ids.len() > 0 {
                        Some(first_smallest(#[trigger] times_of(ids, start_times@)))
                    } else {
                        None
                    }
                },
            is_earliest(*self, start_times@, time),
    {
        smallest(&self.ordered_times(start_times))
    }

    /// The latest time at which a clip ends, where `end_times` holds that of each clip.
    pub fn latest_time(&self, end_times: &BTreeMap<ClipId, Double>) -> (time: Option<Double>)
        requires
            all_have_times(*self, end_times@),
        ensures
            exists|ids: Seq<ClipId>|
                {
                    &&& lists(ids, self.clips@.dom())
                    &&& time == if ids.len() > 0 {
                        Some(last_largest(#[trigger] times_of(ids, end_times@)))
                    } else {
                        None
                    }
                },
            is_latest(*self, end_times@, time),
    {
        largest(&self.ordered_times(end_times))
    }
}

/// The identifiers in a list of modified clips.
pub open spec fn modified_ids(clips: Seq<(ClipId, &Arc<Clip>, &Arc<Clip>)>) -> Seq<ClipId> {
    clips.map_values(|entry: (ClipId, &Arc<Clip>, &Arc<Clip>)| entry.0)
}

/// The start of a saved document, by which its format is known.
pub const MAGIC_NUMBER: [u8; 5] = [0x53, 0x44, 0x52, 0x00, 0x01];

/// What stands at the start of a file that is not a saved document.
#[derive(Clone, Copy, Debug)]
pub struct WrongMagic {
    pub found: [u8; 5],
}

/// Whether a file that starts like this holds a saved document.
pub fn validate_magic(magic: [u8; 5]) -> (result: Result<(), WrongMagic>)
    ensures
        result is Ok <==> magic@ == MAGIC_NUMBER@,
        result matches Err(e) ==> e.found == magic,
{
    let mut i: usize = 0;
    while i < 5
        invariant
            i <= 5,
            forall|k: int| 0 <= k < i ==> magic@[k] == MAGIC_NUMBER@[k],
        decreases 5 - i,
    {
        if magic[i] != MAGIC_NUMBER[i] {
            return Err(WrongMagic { found: magic });
        }
        i = i + 1;
    }
    assert(magic@ =~= MAGIC_NUMBER@);
    Ok(())
}

/// The prefix of the names that clips are given.
pub open spec fn clip_name(number: nat) -> Seq<char> {
    "Clip "@ + decimal(number)
}

/// The number in the name of a clip, if it is a name that clips are given.
pub open spec fn clip_number(name: Seq<char>) -> Option<nat> {
    if starts_with(name, "Clip "@) {
        parsed(name.skip("Clip "@.len() as int), usize::MAX as nat)
    } else {
        None
    }
}

/// The name of the clip with the given number.
pub fn clip_name_text(number: usize) -> (name: String)
    ensures
        name@ == clip_name(number as nat),
{
    let mut name = "Clip ".to_owned();
    name.append(decimal_text(number as u64).as_str());
    name
}

/// The number in the name of a clip, if it is a name that clips are given.
pub fn parse_clip_number(name: &str) -> (number: Option<usize>)
    ensures
        match number {
            Some(n) => clip_number(name@) == Some(n as nat),
            None => clip_number(name@) is None,
        },
{
    if has_prefix(name, "Clip ") {
        proof {
            reveal_strlit("Clip ");
        }
        parse_from(name, 5)
    } else {
        None
    }
}

/// The number of a clip can be told from the name that the clip was given.
pub proof fn clip_names_are_numbered(number: nat)
    requires
        number <= usize::MAX,
    ensures
        clip_number(clip_name(number)) == Some(number),
{
    let prefix = "Clip "@;
    let name = clip_name(number);
    assert(name.take(prefix.len() as int) =~= prefix);
    assert(name.skip(prefix.len() as int) =~= decimal(number));
    parsing_undoes_writing(number, usize::MAX as nat);
}

/// Whether a time is the earliest of those of the clips.
pub open spec fn is_earliest(
    document: Document,
    times: Map<ClipId, Double>,
    time: Option<Double>,
) -> bool {
    exists|ids: Seq<ClipId>|
        {
            let ordered = #[trigger] times_of(ids, times);
            &&& lists(ids, document.clips@.dom())
            &&& time == if ordered.len() > 0 {
                Some(first_smallest(ordered))
            } else {
                None
            }
        }
}

/// Whether a time is the latest of those of the clips.
pub open spec fn is_latest(
    document: Document,
    times: Map<ClipId, Double>,
    time: Option<Double>,
) -> bool {
    exists|ids: Seq<ClipId>|
        {
            let ordered = #[trigger] times_of(ids, times);
            &&& lists(ids, document.clips@.dom())
            &&& time == if ordered.len() > 0 {
                Some(last_largest(ordered))
            } else {
                None
            }
        }
}

/// No clip has an earlier time than the earliest one, and none a later one than the latest. Each
/// of them is the time of some clip. There is none exactly where there are no clips.
pub proof fn earliest_and_latest_bound_the_clips(
    document: Document,
    times: Map<ClipId, Double>,
    earliest: Option<Double>,
    latest: Option<Double>,
    id: ClipId,
)
    requires
        is_earliest(document, times, earliest),
        is_latest(document, times, latest),
        forall|other: ClipId| #[trigger]
            document.clips@.contains_key(other) ==> !times[other].is_nan(),
    ensures
        document.clips@.contains_key(id) ==> earliest is Some && latest is Some
            && !times[id].below(earliest->0) && !latest->0.below(times[id]),
        earliest is Some ==> exists|other: ClipId| #[trigger]
            document.clips@.contains_key(other) && times[other] == earliest->0,
        latest is Some ==> exists|other: ClipId| #[trigger]
            document.clips@.contains_key(other) && times[other] == latest->0,
{
    let early = choose|ids: Seq<ClipId>|
        {
            let ordered = #[trigger] times_of(ids, times);
            &&& lists(ids, document.clips@.dom())
            &&& earliest == if ordered.len() > 0 {
                Some(first_smallest(ordered))
            } else {
                None
            }
        };
    let late = choose|ids: Seq<ClipId>|
        {
            let ordered = #[trigger] times_of(ids, times);
            &&& lists(ids, document.clips@.dom())
            &&& latest == if ordered.len() > 0 {
                Some(last_largest(ordered))
            } else {
                None
            }
        };
    assert forall|k: int| 0 <= k < early.len() implies !(#[trigger] times_of(
        early,
        times,
    )[k]).is_nan() && document.clips@.contains_key(early[k]) by {
        assert(early.contains(early[k]));
        assert(document.clips@.contains_key(early[k]));
    }
    assert forall|k: int| 0 <= k < late.len() implies !(#[trigger] times_of(
        late,
        times,
    )[k]).is_nan() && document.clips@.contains_key(late[k]) by {
        assert(late.contains(late[k]));
        assert(document.clips@.contains_key(late[k]));
    }
    if early.len() > 0 {
        smallest_and_largest_bound_the_others(times_of(early, times), 0);
        let k = choose|k: int|
            0 <= k < times_of(early, times).len() && times_of(early, times)[k] == first_smallest(
                times_of(early, times),
            );
        assert(document.clips@.contains_key(early[k]));
    }
    if late.len() > 0 {
        smallest_and_largest_bound_the_others(times_of(late, times), 0);
        let k = choose|k: int|
            0 <= k < times_of(late, times).len() && times_of(late, times)[k] == last_largest(
                times_of(late, times),
            );
        assert(document.clips@.contains_key(late[k]));
    }
    if document.clips@.contains_key(id) {
        assert(early.contains(id) && late.contains(id));
        let a = choose|a: int| 0 <= a < early.len() && early[a] == id;
        let b = choose|b: int| 0 <= b < late.len() && late[b] == id;
        assert(times_of(early, times)[a] == times[id]);
        assert(times_of(late, times)[b] == times[id]);
        smallest_and_largest_bound_the_others(times_of(early, times), a);
        smallest_and_largest_bound_the_others(times_of(late, times), b);
    }
}

/// The name of a clip is the word and its number. A name without the word has no number, and
/// neither has one in which something else than a number follows.
pub proof fn only_names_of_clips_have_numbers(name: Seq<char>, number: nat, i: int)
    ensures
        clip_name(number).len() > 5,
        clip_name(number).take(5) == seq!['C', 'l', 'i', 'p', ' '],
        digits_value(clip_name(number).skip(5)) == number,
        name.len() < 5 || name.take(5) != seq!['C', 'l', 'i', 'p', ' '] ==> clip_number(name) is None,
        5 < i < name.len() && !is_digit(name[i]) ==> clip_number(name) is None,
{
    reveal_strlit("Clip ");
    let word = "Clip "@;
    assert(word =~= seq!['C', 'l', 'i', 'p', ' ']);
    numbers_are_written_in_decimal(number);
    assert(clip_name(number).take(5) =~= word);
    assert(clip_name(number).skip(5) =~= decimal(number));
    if 5 < i < name.len() && !is_digit(name[i]) {
        only_numbers_are_read(name.skip(5), usize::MAX as nat, i - 5);
    }
}

} // verus!
