use std::collections::{BTreeMap, BTreeSet};

use vstd::prelude::*;
use vstd::std_specs::cmp::PartialEqSpec;

use crate::document::{Clip, ClipId, Document};
use crate::double::Double;
use crate::id_factory::IdFactory;
use crate::indexed::clones_exactly;
use crate::maps::{
    all_are_taken, increasing, list_grows, list_length, lists, next_is_taken, sorted_keys,
    taken_are_below,
};

verus! {

pub type ProcessorId = usize;

pub type ProcessorInstanceId = usize;

/// How far a clip has been processed.
#[derive(Clone, Copy, PartialEq, Eq, Debug, Structural)]
pub enum ClipCursor {
    /// The clip has not been started.
    Before,
    /// The chunk with this number is the next one.
    Index(isize),
    /// The clip has been ended.
    After,
}

impl ClipCursor {
    /// Whether this is less far than another.
    pub open spec fn precedes(self, other: ClipCursor) -> bool {
        match (self, other) {
            (ClipCursor::Before, ClipCursor::Before) => false,
            (ClipCursor::Before, _) => true,
            (ClipCursor::Index(a), ClipCursor::Index(b)) => a < b,
            (ClipCursor::Index(_), ClipCursor::After) => true,
            (_, _) => false,
        }
    }

    /// Whether this is less far than another.
    pub fn lt(self, other: ClipCursor) -> (result: bool)
        ensures
            result == self.precedes(other),
    {
        match (self, other) {
            (ClipCursor::Before, ClipCursor::Before) => false,
            (ClipCursor::Before, _) => true,
            (ClipCursor::Index(a), ClipCursor::Index(b)) => a < b,
            (ClipCursor::Index(_), ClipCursor::After) => true,
            (_, _) => false,
        }
    }
}

/// What comes next in a document.
#[derive(Clone, Copy, PartialEq, Eq, Debug, Structural)]
pub enum Event {
    ClipStart(ClipId),
    ClipEnd(ClipId),
    /// A clip and the number of a chunk of it.
    Chunk(ClipId, isize),
}

/// How far each clip of a document has been processed.
pub struct Cursor {
    cursors: BTreeMap<ClipId, ClipCursor>,
}

/// Where each clip of a document has been processed up to.
pub type CursorModel = Map<ClipId, ClipCursor>;

/// The start of some clips.
pub open spec fn at_start(clips: Set<ClipId>) -> CursorModel {
    Map::new(|id: ClipId| clips.contains(id), |id: ClipId| ClipCursor::Before)
}

/// Whether some cursor is less far than another one in some clip.
pub open spec fn is_behind(a: CursorModel, b: CursorModel) -> bool {
    exists|id: ClipId| #[trigger] a.contains_key(id) && a[id].precedes(b[id])
}

/// Whether a clip comes first among some clips: none is earlier, and of those that are
/// just as early it has the smallest identifier.
pub open spec fn comes_first(clips: Set<ClipId>, times: Map<ClipId, Double>, id: ClipId) -> bool {
    &&& clips.contains(id)
    &&& forall|other: ClipId| #[trigger]
        clips.contains(other) ==> !times[other].below(times[id]) && (other < id
            ==> times[id].below(times[other]))
}

/// The clip that comes first among some clips.
pub open spec fn first_clip(clips: Set<ClipId>, times: Map<ClipId, Double>) -> ClipId {
    choose|id: ClipId| comes_first(clips, times, id)
}

/// Whether the times of some clips can be held against each other: they are numbers,
/// unless there is only one.
pub open spec fn comparable(clips: Set<ClipId>, times: Map<ClipId, Double>) -> bool {
    &&& forall|id: ClipId| #[trigger] clips.contains(id) ==> times.contains_key(id)
    &&& forall|id: ClipId, other: ClipId|
        #[trigger] clips.contains(id) && #[trigger] clips.contains(other) && id != other
            ==> !times[id].is_nan()
}

/// The clips that have not been ended.
pub open spec fn unfinished(cursor: CursorModel) -> Set<ClipId> {
    Set::new(|id: ClipId| cursor.contains_key(id) && cursor[id] != ClipCursor::After)
}

/// What comes next, and where it leads: the unfinished clip that comes first is started,
/// goes on by a chunk or, where no chunk is left, ends. A clip that is still active does
/// not end, and nothing is processed beyond it.
pub open spec fn next_step(
    cursor: CursorModel,
    times: Map<ClipId, Double>,
    document: Document,
    active: Set<ClipId>,
) -> (Option<Event>, CursorModel) {
    let clips = unfinished(cursor);
    if forall|id: ClipId| !clips.contains(id) {
        (None, cursor)
    } else {
        let id = first_clip(clips, times);
        let chunks = document.clips@[id].chunks@;
        match cursor[id] {
            ClipCursor::Before => (
                Some(Event::ClipStart(id)),
                cursor.insert(id, ClipCursor::Index(chunks.start as isize)),
            ),
            ClipCursor::Index(index) => if index < chunks.end() {
                (
                    Some(Event::Chunk(id, index)),
                    cursor.insert(id, ClipCursor::Index((index + 1) as isize)),
                )
            } else if active.contains(id) {
                (None, cursor)
            } else {
                (Some(Event::ClipEnd(id)), cursor.insert(id, ClipCursor::After))
            },
            ClipCursor::After => (None, cursor),
        }
    }
}

/// Only one clip comes first.
proof fn only_one_comes_first(clips: Set<ClipId>, times: Map<ClipId, Double>, id: ClipId)
    requires
        comparable(clips, times),
        comes_first(clips, times, id),
    ensures
        first_clip(clips, times) == id,
{
    let other = first_clip(clips, times);
    assert(comes_first(clips, times, other));
    if other < id {
        assert(times[id].below(times[other]));
    } else if id < other {
        assert(times[other].below(times[id]));
    }
}

impl View for Cursor {
    type V = CursorModel;

    closed spec fn view(&self) -> CursorModel {
        self.cursors@
    }
}

impl Clone for Cursor {
    fn clone(&self) -> (cursor: Self)
        ensures
            cursor@ == self@,
    {
        Cursor { cursors: self.cursors.clone() }
    }
}

impl Cursor {
    pub fn new_empty() -> (cursor: Self)
        ensures
            cursor@ == CursorModel::empty(),
    {
        Cursor { cursors: BTreeMap::new() }
    }

    /// The start of a document.
    pub fn start_of_document(document: &Document) -> (cursor: Self)
        ensures
            cursor@ == at_start(document.clips@.dom()),
    {
        let ids = sorted_keys(&document.clips);
        let mut cursors: BTreeMap<ClipId, ClipCursor> = BTreeMap::new();
        proof {
            all_are_taken(ids@, document.clips@.dom());
            assert(cursors@ =~= at_start(ids@.take(0).to_set()));
        }
        for i in 0..ids.len()
            invariant
                cursors@ == at_start(ids@.take(i as int).to_set()),
        {
            proof {
                next_is_taken(ids@, i as int);
            }
            cursors.insert(ids[i], ClipCursor::Before);
            assert(cursors@ =~= at_start(ids@.take(i + 1).to_set()));
        }
        proof {
            all_are_taken(ids@, document.clips@.dom());
        }
        Cursor { cursors }
    }

    /// How far a clip has been processed.
    pub fn get(&self, clip_id: ClipId) -> (cursor: ClipCursor)
        requires
            self@.contains_key(clip_id),
        ensures
            cursor == self@[clip_id],
    {
        *self.cursors.get(&clip_id).unwrap()
    }

    /// How far a clip has been processed, if it is one of the document.
    pub fn find(&self, clip_id: ClipId) -> (cursor: Option<ClipCursor>)
        ensures
            cursor == if self@.contains_key(clip_id) {
                Some(self@[clip_id])
            } else {
                None
            },
    {
        match self.cursors.get(&clip_id) {
            Some(cursor) => Some(*cursor),
            None => None,
        }
    }

    pub fn set(&mut self, clip_id: ClipId, cursor: ClipCursor)
        ensures
            final(self)@ == old(self)@.insert(clip_id, cursor),
    {
        self.cursors.insert(clip_id, cursor);
    }

    pub fn add_clip(&mut self, clip_id: ClipId)
        ensures
            final(self)@ == old(self)@.insert(clip_id, ClipCursor::Before),
    {
        self.cursors.insert(clip_id, ClipCursor::Before);
    }

    pub fn remove_clip(&mut self, clip_id: ClipId)
        ensures
            final(self)@ == old(self)@.remove(clip_id),
    {
        self.cursors.remove(&clip_id);
    }

    /// For each clip, in the order of the identifiers, how many chunks of it come before
    /// the cursor. From this and what is known of the clip the time of the cursor in that
    /// clip follows.
    pub fn chunk_offsets(&self, document: &Document) -> (offsets: Vec<(ClipId, isize)>)
        requires
            document.wf(),
            forall|id: ClipId| #[trigger]
                self@.contains_key(id) ==> document.clips@.contains_key(id) && isize::MIN
                    <= chunk_offset(self@[id], *document.clips@[id]) <= isize::MAX,
        ensures
            lists(offset_ids(offsets@), self@.dom()),
            forall|i: int|
                0 <= i < offsets@.len() ==> (#[trigger] offsets@[i]).1 == chunk_offset(
                    self@[offsets@[i].0],
                    *document.clips@[offsets@[i].0],
                ),
    {
        let ids = sorted_keys(&self.cursors);
        let mut offsets: Vec<(ClipId, isize)> = Vec::new();
        for i in 0..ids.len()
            invariant
                lists(ids@, self@.dom()),
                document.wf(),
                forall|id: ClipId| #[trigger]
                    self@.contains_key(id) ==> document.clips@.contains_key(id) && isize::MIN
                        <= chunk_offset(self@[id], *document.clips@[id]) <= isize::MAX,
                offset_ids(offsets@) == ids@.take(i as int),
                forall|k: int|
                    0 <= k < offsets@.len() ==> (#[trigger] offsets@[k]).1 == chunk_offset(
                        self@[offsets@[k].0],
                        *document.clips@[offsets@[k].0],
                    ),
        {
            let id: ClipId = ids[i];
            assert(ids@.contains(id));
            assert(self@.contains_key(id));
            let clip = document.clips.get(&id).unwrap();
            let start: isize = clip.chunks.start_index();
            let offset: isize = match self.get(id) {
                ClipCursor::Before => 0,
                ClipCursor::Index(index) => index - start,
                ClipCursor::After => clip.chunks.end_index() - start,
            };
            let ghost before = offset_ids(offsets@);
            offsets.push((id, offset));
            assert(offset_ids(offsets@) =~= before.push(id));
            assert(offset_ids(offsets@) =~= ids@.take(i + 1));
        }
        assert(ids@.take(ids@.len() as int) =~= ids@);
        offsets
    }

    /// The time of the cursor: that of the clip that comes first. There is none where
    /// there is no clip.
    pub fn time(&self, times: &BTreeMap<ClipId, Double>) -> (time: Option<Double>)
        requires
            comparable(self@.dom(), times@),
        ensures
            time == cursor_time(self@.dom(), times@),
    {
        let ids = sorted_keys(&self.cursors);
        proof {
            all_are_taken(ids@, self@.dom());
            assert(ids@.take(ids@.len() as int) =~= ids@);
        }
        match earliest(&ids, times) {
            Some(id) => {
                proof {
                    only_one_comes_first(self@.dom(), times@, id);
                }
                Some(*times.get(&id).unwrap())
            },
            None => {
                assert forall|id: ClipId| !self@.dom().contains(id) by {
                    assert(!ids@.contains(id));
                }
                None
            },
        }
    }

    /// Whether this cursor is less far than another one in some clip.
    pub fn is_before(&self, other: &Cursor) -> (result: bool)
        requires
            self@.dom() == other@.dom(),
        ensures
            result == is_behind(self@, other@),
    {
        let ids = sorted_keys(&self.cursors);
        for i in 0..ids.len()
            invariant
                lists(ids@, self@.dom()),
                self@.dom() == other@.dom(),
                forall|k: int|
                    0 <= k < i ==> !self@[ids@[k]].precedes(#[trigger] other@[ids@[k]]),
        {
            let id: ClipId = ids[i];
            assert(ids@.contains(id));
            assert(self@.contains_key(id));
            assert(other@.dom().contains(id));
            if self.get(id).lt(other.get(id)) {
                return true;
            }
        }
        assert forall|id: ClipId| #[trigger] self@.contains_key(id) implies !self@[id].precedes(
            other@[id],
        ) by {
            assert(ids@.contains(id));
            let k = choose|k: int| 0 <= k < ids@.len() && ids@[k] == id;
            assert(!self@[ids@[k]].precedes(other@[ids@[k]]));
        }
        false
    }

    /// Goes on to what comes next, and says what that is. `times` holds the time of the
    /// cursor in each clip.
    pub fn advance(
        &mut self,
        times: &BTreeMap<ClipId, Double>,
        document: &Document,
        active_clips: &BTreeSet<ClipId>,
    ) -> (event: Option<Event>)
        requires
            document.wf(),
            old(self)@.dom().subset_of(document.clips@.dom()),
            comparable(old(self)@.dom(), times@),
        ensures
            (event, final(self)@) == next_step(old(self)@, times@, *document, active_clips@),
    {
        let all = sorted_keys(&self.cursors);
        let mut ids: Vec<ClipId> = Vec::new();
        let ghost clips = unfinished(self@);
        proof {
            all_are_taken(all@, self@.dom());
            assert(all@.take(0).to_set().intersect(clips) =~= Set::<ClipId>::empty());
            assert(lists(ids@, Set::<ClipId>::empty()));
        }
        for i in 0..all.len()
            invariant
                self@ == old(self)@,
                clips == unfinished(self@),
                lists(all@, self@.dom()),
                lists(ids@, all@.take(i as int).to_set().intersect(clips)),
        {
            let id: ClipId = all[i];
            let ghost before = all@.take(i as int).to_set();
            proof {
                assert(all@.contains(id));
                next_is_taken(all@, i as int);
            }
            if self.get(id) != ClipCursor::After {
                proof {
                    assert forall|m: ClipId| #[trigger]
                        before.intersect(clips).contains(m) implies m < id by {
                        taken_are_below(all@, i as int, m);
                    }
                    list_grows(ids@, before.intersect(clips), id);
                    assert(before.insert(id).intersect(clips) =~= before.intersect(clips).insert(id));
                }
                ids.push(id);
            } else {
                assert(before.insert(id).intersect(clips) =~= before.intersect(clips));
            }
        }
        proof {
            all_are_taken(all@, self@.dom());
            assert(self@.dom().intersect(clips) =~= clips);
            all_are_taken(ids@, clips);
            assert(ids@.take(ids@.len() as int) =~= ids@);
        }
        match earliest(&ids, times) {
            None => {
                assert forall|id: ClipId| !clips.contains(id) by {
                    assert(!ids@.contains(id));
                }
                None
            },
            Some(id) => {
                proof {
                    only_one_comes_first(clips, times@, id);
                    assert(self@.dom().contains(id));
                    assert(document.clips@.contains_key(id));
                }
                let clip = document.clips.get(&id).unwrap();
                match self.get(id) {
                    ClipCursor::Before => {
                        let start: isize = clip.chunks.start_index();
                        self.cursors.insert(id, ClipCursor::Index(start));
                        Some(Event::ClipStart(id))
                    },
                    ClipCursor::Index(index) => {
                        if index < clip.chunks.end_index() {
                            self.cursors.insert(id, ClipCursor::Index(index + 1));
                            Some(Event::Chunk(id, index))
                        } else if active_clips.contains(&id) {
                            // What comes after a clip that goes on has to wait.
                            None
                        } else {
                            self.cursors.insert(id, ClipCursor::After);
                            Some(Event::ClipEnd(id))
                        }
                    },
                    ClipCursor::After => None,
                }
            },
        }
    }
}

/// A clip comes first among some clips, where there are any, and a step is about one of
/// the clips that the cursor spans.
pub proof fn step_is_about_a_clip(
    cursor: CursorModel,
    times: Map<ClipId, Double>,
    document: Document,
    active: Set<ClipId>,
)
    requires
        cursor.dom().finite(),
        comparable(cursor.dom(), times),
    ensures
        next_step(cursor, times, document, active).0 matches Some(event) ==> {
            let id = match event {
                Event::ClipStart(id) => id,
                Event::ClipEnd(id) => id,
                Event::Chunk(id, _) => id,
            };
            &&& cursor.contains_key(id)
            &&& cursor[id] != ClipCursor::After
            &&& comes_first(unfinished(cursor), times, id)
        },
{
    let clips = unfinished(cursor);
    assert(clips.subset_of(cursor.dom()));
    vstd::set_lib::lemma_set_subset_finite(cursor.dom(), clips);
    if exists|id: ClipId| clips.contains(id) {
        some_clip_comes_first(clips, times);
    }
}

/// Among finitely many clips one comes first.
proof fn some_clip_comes_first(clips: Set<ClipId>, times: Map<ClipId, Double>)
    requires
        clips.finite(),
        comparable(clips, times),
        exists|id: ClipId| clips.contains(id),
    ensures
        comes_first(clips, times, first_clip(clips, times)),
    decreases clips.len(),
{
    let one = choose|id: ClipId| clips.contains(id);
    let rest = clips.remove(one);
    if exists|id: ClipId| rest.contains(id) {
        some_clip_comes_first(rest, times);
        let other = first_clip(rest, times);
        assert(comes_first(rest, times, other));
        if times[one].below(times[other]) || (!times[other].below(times[one]) && one < other) {
            assert(comes_first(clips, times, one));
        } else {
            assert(comes_first(clips, times, other));
        }
    } else {
        assert(comes_first(clips, times, one));
    }
}

/// Of some clips, the one that comes first.
fn earliest(ids: &Vec<ClipId>, times: &BTreeMap<ClipId, Double>) -> (first: Option<ClipId>)
    requires
        increasing(ids@),
        comparable(ids@.to_set(), times@),
    ensures
        match first {
            Some(id) => comes_first(ids@.to_set(), times@, id),
            None => ids@.len() == 0,
        },
{
    if ids.len() == 0 {
        return None;
    }
    let mut best: ClipId = ids[0];
    assert(ids@.to_set().contains(ids@[0]));
    for i in 1..ids.len()
        invariant
            increasing(ids@),
            comparable(ids@.to_set(), times@),
            ids@.len() > 0,
            ids@.to_set().contains(best),
            exists|k: int| 0 <= k < i && ids@[k] == best,
            forall|k: int|
                0 <= k < i ==> !times@[ids@[k]].below(times@[best]) && (#[trigger] ids@[k] < best
                    ==> times@[best].below(times@[ids@[k]])),
    {
        let id: ClipId = ids[i];
        proof {
            assert(ids@.to_set().contains(ids@[i as int]));
            assert forall|k: int| 0 <= k <= i implies !times@[#[trigger] ids@[k]].is_nan() by {
                let other = if k == 0 {
                    1int
                } else {
                    0
                };
                assert(ids@.to_set().contains(ids@[k]));
                assert(ids@.to_set().contains(ids@[other]));
                assert(ids@[k] != ids@[other]);
            }
        }
        if times.get(&id).unwrap().lt(*times.get(&best).unwrap()) {
            proof {
                assert forall|k: int| 0 <= k < i + 1 implies !times@[ids@[k]].below(times@[id]) && (
                #[trigger] ids@[k] < id ==> times@[id].below(times@[ids@[k]])) by {
                    assert(ids@.to_set().contains(ids@[k]));
                }
            }
            best = id;
        }
    }
    proof {
        assert forall|other: ClipId| #[trigger] ids@.to_set().contains(other) implies !times@[other].below(
            times@[best],
        ) && (other < best ==> times@[best].below(times@[other])) by {
            let k = choose|k: int| 0 <= k < ids@.len() && ids@[k] == other;
            assert(ids@[k] == other);
        }
    }
    Some(best)
}

/// The time of a cursor that spans some clips.
pub open spec fn cursor_time(clips: Set<ClipId>, times: Map<ClipId, Double>) -> Option<Double> {
    if forall|id: ClipId| !clips.contains(id) {
        None
    } else {
        Some(times[first_clip(clips, times)])
    }
}

/// The time of a cursor is that of one of its clips, and none of its clips is earlier.
pub proof fn cursor_time_is_the_earliest(clips: Set<ClipId>, times: Map<ClipId, Double>)
    requires
        clips.finite(),
        comparable(clips, times),
    ensures
        cursor_time(clips, times) is None <==> forall|id: ClipId| !clips.contains(id),
        cursor_time(clips, times) is Some ==> {
            &&& clips.contains(first_clip(clips, times))
            &&& cursor_time(clips, times) == Some(times[first_clip(clips, times)])
            &&& forall|id: ClipId| #[trigger]
                clips.contains(id) ==> !times[id].below(cursor_time(clips, times)->0)
        },
{
    if exists|id: ClipId| clips.contains(id) {
        some_clip_comes_first(clips, times);
    }
}

/// How many chunks of a clip come before a cursor.
pub open spec fn chunk_offset(cursor: ClipCursor, clip: Clip) -> int {
    match cursor {
        ClipCursor::Before => 0,
        ClipCursor::Index(index) => index - clip.chunks@.start,
        ClipCursor::After => clip.chunks@.len() as int,
    }
}

/// The clips in a list of offsets.
pub open spec fn offset_ids(offsets: Seq<(ClipId, isize)>) -> Seq<ClipId> {
    offsets.map_values(|entry: (ClipId, isize)| entry.0)
}

/// How many steps a clip takes to be processed from some point on.
pub open spec fn steps_left(cursor: ClipCursor, clip: Clip) -> int {
    match cursor {
        ClipCursor::Before => clip.chunks@.len() as int + 2,
        ClipCursor::Index(index) => if index < clip.chunks@.end() {
            clip.chunks@.end() - index + 1
        } else {
            1
        },
        ClipCursor::After => 0,
    }
}

/// Every step takes one clip forward, by one step, and leaves the others where they are.
/// So no step is taken twice, and they come to an end.
pub proof fn steps_go_forward(
    cursor: CursorModel,
    times: Map<ClipId, Double>,
    document: Document,
    active: Set<ClipId>,
)
    requires
        document.wf(),
        cursor.dom().finite(),
        cursor.dom().subset_of(document.clips@.dom()),
        comparable(cursor.dom(), times),
    ensures
        ({
            let (event, after) = next_step(cursor, times, document, active);
            &&& after.dom() == cursor.dom()
            &&& event is None ==> after == cursor
            &&& event is Some ==> {
                &&& is_behind(cursor, after)
                &&& !is_behind(after, cursor)
            }
            &&& event matches Some(event) ==> {
                let id = match event {
                    Event::ClipStart(id) => id,
                    Event::ClipEnd(id) => id,
                    Event::Chunk(id, _) => id,
                };
                &&& cursor.contains_key(id)
                &&& cursor[id].precedes(after[id])
                &&& steps_left(after[id], *document.clips@[id]) == steps_left(
                    cursor[id],
                    *document.clips@[id],
                ) - 1
                &&& forall|other: ClipId| other != id ==> #[trigger] after[other] == cursor[other]
            }
        }),
{
    let (event, after) = next_step(cursor, times, document, active);
    step_is_about_a_clip(cursor, times, document, active);
    if event is Some {
        let id = match event->0 {
            Event::ClipStart(id) => id,
            Event::ClipEnd(id) => id,
            Event::Chunk(id, _) => id,
        };
        assert(cursor.contains_key(id));
        assert(document.clips@.contains_key(id));
        document.clips@[id].chunks.start_is_isize();
        assert(after.dom() =~= cursor.dom());
        assert(cursor[id].precedes(after[id]));
    }
}

/// Nothing is left to do only where every clip has been ended, or where the unfinished
/// clip that comes first is active and has no chunk left. A clip that is active is never
/// ended.
pub proof fn nothing_is_left_out(
    cursor: CursorModel,
    times: Map<ClipId, Double>,
    document: Document,
    active: Set<ClipId>,
)
    requires
        cursor.dom().finite(),
        comparable(cursor.dom(), times),
    ensures
        ({
            let (event, after) = next_step(cursor, times, document, active);
            &&& event is None ==> {
                ||| forall|id: ClipId| #[trigger] cursor.contains_key(id) ==> cursor[id]
                    == ClipCursor::After
                ||| exists|id: ClipId|
                    {
                        &&& #[trigger] comes_first(unfinished(cursor), times, id)
                        &&& active.contains(id)
                        &&& cursor[id] matches ClipCursor::Index(index) && index
                            >= document.clips@[id].chunks@.end()
                    }
            }
            &&& event matches Some(Event::ClipEnd(id)) ==> !active.contains(id)
        }),
{
    let clips = unfinished(cursor);
    assert(clips.subset_of(cursor.dom()));
    vstd::set_lib::lemma_set_subset_finite(cursor.dom(), clips);
    if exists|id: ClipId| clips.contains(id) {
        some_clip_comes_first(clips, times);
        let id = first_clip(clips, times);
        assert(comes_first(clips, times, id));
    } else {
        assert forall|id: ClipId| #[trigger] cursor.contains_key(id) implies cursor[id]
            == ClipCursor::After by {
            assert(!clips.contains(id));
        }
    }
}

/// What a processor is made from.
pub struct ProcessorParameters<P> {
    pub name: String,
    pub enabled: bool,
    pub specific_parameters: P,
}

/// The processors that run, and what each one was made from.
pub struct Analysis<P> {
    instance_id_factory: IdFactory,
    processors: BTreeMap<ProcessorId, MainThreadProcessorState<P>>,
}

/// A processor that runs, and what it was made from.
pub struct MainThreadProcessorState<P> {
    instance_id: ProcessorInstanceId,
    last_parameters: P,
}

/// The processors that were ended, those that were started, and those that were replaced
/// because they are to be made from something else now.
pub struct ProcessorChanges {
    pub dropped: Vec<(ProcessorId, ProcessorInstanceId)>,
    pub started: Vec<(ProcessorId, ProcessorInstanceId)>,
    /// With the instance that was ended, and the one that was started.
    pub replaced: Vec<(ProcessorId, ProcessorInstanceId, ProcessorInstanceId)>,
}

/// The processors in a list of instances.
pub open spec fn instance_ids(list: Seq<(ProcessorId, ProcessorInstanceId)>) -> Seq<ProcessorId> {
    list.map_values(|entry: (ProcessorId, ProcessorInstanceId)| entry.0)
}

/// The processors in a list of those that were replaced.
pub open spec fn replaced_ids(
    list: Seq<(ProcessorId, ProcessorInstanceId, ProcessorInstanceId)>,
) -> Seq<ProcessorId> {
    list.map_values(|entry: (ProcessorId, ProcessorInstanceId, ProcessorInstanceId)| entry.0)
}

/// Whether it is known when parameters compare equal, and a clone of them is the same.
pub open spec fn well_behaved<P: Clone + PartialEq>() -> bool {
    &&& P::obeys_eq_spec()
    &&& clones_exactly::<P>()
}

/// Whether a processor is to run.
pub open spec fn wanted<P>(
    parameters: Map<ProcessorId, ProcessorParameters<P>>,
    id: ProcessorId,
) -> bool {
    parameters.contains_key(id) && parameters[id].enabled
}

impl<P> Analysis<P> {
    /// The instance of each processor that runs.
    pub closed spec fn instances(&self) -> Map<ProcessorId, ProcessorInstanceId> {
        self.processors@.map_values(|state: MainThreadProcessorState<P>| state.instance_id)
    }

    /// What each processor that runs was made from.
    pub closed spec fn made_from(&self, id: ProcessorId) -> P {
        self.processors@[id].last_parameters
    }

    /// The next instance.
    pub closed spec fn next_instance(&self) -> nat {
        self.instance_id_factory.next_id()
    }

    /// Whether a processor goes on as it is.
    pub open spec fn goes_on(
        &self,
        parameters: Map<ProcessorId, ProcessorParameters<P>>,
        id: ProcessorId,
    ) -> bool
        where
            P: PartialEq,
    {
        &&& self.instances().contains_key(id)
        &&& wanted(parameters, id)
        &&& parameters[id].specific_parameters.eq_spec(&self.made_from(id))
    }

    /// Whether a processor is replaced: it was made from something that does not compare
    /// equal. One that was just started is made from what it is to be made from, which
    /// need not compare equal to itself.
    pub open spec fn is_replaced(
        &self,
        parameters: Map<ProcessorId, ProcessorParameters<P>>,
        id: ProcessorId,
    ) -> bool
        where
            P: PartialEq,
    {
        &&& wanted(parameters, id)
        &&& if self.instances().contains_key(id) {
            !self.goes_on(parameters, id)
        } else {
            !parameters[id].specific_parameters.eq_spec(&parameters[id].specific_parameters)
        }
    }

    /// Every instance was given out, and only once.
    pub open spec fn wf(&self) -> bool {
        &&& forall|id: ProcessorId| #[trigger]
            self.instances().contains_key(id) ==> self.instances()[id] < self.next_instance()
        &&& forall|a: ProcessorId, b: ProcessorId|
            #![trigger self.instances()[a], self.instances()[b]]
            self.instances().contains_key(a) && self.instances().contains_key(b)
                && self.instances()[a] == self.instances()[b] ==> a == b
    }

    pub fn new() -> (analysis: Self)
        ensures
            analysis.wf(),
            analysis.instances() == Map::<ProcessorId, ProcessorInstanceId>::empty(),
            analysis.next_instance() == 0,
    {
        let analysis = Analysis {
            instance_id_factory: IdFactory::default(),
            processors: BTreeMap::new(),
        };
        assert(analysis.instances() =~= Map::empty());
        analysis
    }

    /// The instance of a processor, if it runs.
    pub fn instance(&self, id: ProcessorId) -> (instance: Option<ProcessorInstanceId>)
        ensures
            instance == if self.instances().contains_key(id) {
                Some(self.instances()[id])
            } else {
                None
            },
    {
        match self.processors.get(&id) {
            Some(state) => Some(state.instance_id),
            None => None,
        }
    }

    /// Ends the processors that are not to run.
    fn drop_unwanted(&mut self, parameters: &BTreeMap<ProcessorId, ProcessorParameters<P>>) -> (dropped:
        Vec<(ProcessorId, ProcessorInstanceId)>)
        ensures
            final(self).instance_id_factory == old(self).instance_id_factory,
            final(self).processors@ == old(self).processors@.remove_keys(
                old(self).processors@.dom().difference(wanted_set(parameters@)),
            ),
            lists(
                instance_ids(dropped@),
                old(self).processors@.dom().difference(wanted_set(parameters@)),
            ),
            forall|k: int|
                0 <= k < dropped@.len() ==> (#[trigger] dropped@[k]).1 == old(self).processors@[dropped@[k].0].instance_id,
    {
        let ids = sorted_keys(&self.processors);
        let mut dropped: Vec<(ProcessorId, ProcessorInstanceId)> = Vec::new();
        let ghost keep = wanted_set(parameters@);
        let ghost all = self.processors@;
        proof {
            all_are_taken(ids@, all.dom());
            assert(ids@.take(0).to_set().difference(keep) =~= Set::<ProcessorId>::empty());
            assert(all =~= all.remove_keys(Set::<ProcessorId>::empty()));
            assert(instance_ids(dropped@) =~= Seq::<ProcessorId>::empty());
            assert(lists(instance_ids(dropped@), Set::<ProcessorId>::empty()));
        }
        for i in 0..ids.len()
            invariant
                lists(ids@, all.dom()),
                all == old(self).processors@,
                keep == wanted_set(parameters@),
                self.instance_id_factory == old(self).instance_id_factory,
                self.processors@ == all.remove_keys(
                    ids@.take(i as int).to_set().difference(keep),
                ),
                lists(instance_ids(dropped@), ids@.take(i as int).to_set().difference(keep)),
                forall|k: int|
                    0 <= k < dropped@.len() ==> (#[trigger] dropped@[k]).1
                        == all[dropped@[k].0].instance_id,
        {
            let id: ProcessorId = ids[i];
            let ghost before = ids@.take(i as int).to_set();
            proof {
                next_is_taken(ids@, i as int);
                assert(ids@.contains(id));
                if before.contains(id) {
                    taken_are_below(ids@, i as int, id);
                }
            }
            let is_wanted: bool = match parameters.get(&id) {
                Some(p) => p.enabled,
                None => false,
            };
            if is_wanted {
                assert(before.insert(id).difference(keep) =~= before.difference(keep));
            } else {
                let ghost listed = instance_ids(dropped@);
                let state = self.processors.remove(&id).unwrap();
                dropped.push((id, state.instance_id));
                proof {
                    assert(before.insert(id).difference(keep) =~= before.difference(keep).insert(id));
                    assert(self.processors@ =~= all.remove_keys(
                        before.insert(id).difference(keep),
                    ));
                    assert forall|m: ProcessorId| #[trigger]
                        before.difference(keep).contains(m) implies m < id by {
                        taken_are_below(ids@, i as int, m);
                    }
                    list_grows(listed, before.difference(keep), id);
                    assert(instance_ids(dropped@) =~= listed.push(id));
                }
            }
        }
        proof {
            all_are_taken(ids@, all.dom());
        }
        dropped
    }

    /// Starts the processors that are to run and do not.
    fn start_missing(&mut self, parameters: &BTreeMap<ProcessorId, ProcessorParameters<P>>) -> (started:
        Vec<(ProcessorId, ProcessorInstanceId)>)
        where
            P: Clone,
        requires
            old(self).next_instance() + parameters@.dom().len() <= usize::MAX,
        ensures
            final(self).processors@.dom() == old(self).processors@.dom().union(
                wanted_set(parameters@),
            ),
            forall|id: ProcessorId| #[trigger]
                old(self).processors@.contains_key(id) ==> final(self).processors@[id] == old(self).processors@[id],
            lists(
                instance_ids(started@),
                wanted_set(parameters@).difference(old(self).processors@.dom()),
            ),
            forall|k: int|
                0 <= k < started@.len() ==> {
                    let (id, instance) = #[trigger] started@[k];
                    &&& instance == old(self).next_instance() + k
                    &&& final(self).processors@[id].instance_id == instance
                    &&& cloned(
                        parameters@[id].specific_parameters,
                        final(self).processors@[id].last_parameters,
                    )
                },
            final(self).next_instance() == old(self).next_instance() + started@.len(),
            started@.len() <= parameters@.dom().len(),
    {
        let ids = sorted_keys(parameters);
        let mut started: Vec<(ProcessorId, ProcessorInstanceId)> = Vec::new();
        let ghost all = self.processors@;
        let ghost missing = wanted_set(parameters@).difference(all.dom());
        proof {
            list_length(ids@, parameters@.dom());
            all_are_taken(ids@, parameters@.dom());
            assert(ids@.take(0).to_set().intersect(missing) =~= Set::<ProcessorId>::empty());
            assert(instance_ids(started@) =~= Seq::<ProcessorId>::empty());
            assert(lists(instance_ids(started@), Set::<ProcessorId>::empty()));
            assert(all.dom() =~= all.dom().union(Set::<ProcessorId>::empty()));
        }
        for i in 0..ids.len()
            invariant
                lists(ids@, parameters@.dom()),
                ids@.len() == parameters@.dom().len(),
                old(self).next_instance() + parameters@.dom().len() <= usize::MAX,
                all == old(self).processors@,
                missing == wanted_set(parameters@).difference(all.dom()),
                self.processors@.dom() == all.dom().union(
                    ids@.take(i as int).to_set().intersect(missing),
                ),
                forall|id: ProcessorId| #[trigger]
                    all.contains_key(id) ==> self.processors@[id] == all[id],
                lists(instance_ids(started@), ids@.take(i as int).to_set().intersect(missing)),
                started@.len() <= i,
                self.next_instance() == old(self).next_instance() + started@.len(),
                forall|k: int|
                    0 <= k < started@.len() ==> {
                        let (id, instance) = #[trigger] started@[k];
                        &&& instance == old(self).next_instance() + k
                        &&& instance_ids(started@).contains(id)
                        &&& self.processors@[id].instance_id == instance
                        &&& cloned(
                            parameters@[id].specific_parameters,
                            self.processors@[id].last_parameters,
                        )
                    },
        {
            let id: ProcessorId = ids[i];
            let ghost before = ids@.take(i as int).to_set();
            let ghost earlier = self.processors@;
            proof {
                next_is_taken(ids@, i as int);
                assert(ids@.contains(id));
                if before.contains(id) {
                    taken_are_below(ids@, i as int, id);
                }
            }
            let p = parameters.get(&id).unwrap();
            if p.enabled && !self.processors.contains_key(&id) {
                let ghost listed = instance_ids(started@);
                let ghost entries = started@;
                let instance_id: ProcessorInstanceId = self.instance_id_factory.create();
                let last_parameters = p.specific_parameters.clone();
                self.processors.insert(
                    id,
                    MainThreadProcessorState { instance_id, last_parameters },
                );
                started.push((id, instance_id));
                proof {
                    assert(before.insert(id).intersect(missing) =~= before.intersect(
                        missing,
                    ).insert(id));
                    assert(self.processors@.dom() =~= all.dom().union(
                        before.insert(id).intersect(missing),
                    ));
                    assert forall|m: ProcessorId| #[trigger]
                        before.intersect(missing).contains(m) implies m < id by {
                        taken_are_below(ids@, i as int, m);
                    }
                    list_grows(listed, before.intersect(missing), id);
                    assert(instance_ids(started@) =~= listed.push(id));
                    assert forall|k: int| 0 <= k < started@.len() implies {
                        let (pid, instance) = #[trigger] started@[k];
                        &&& instance == old(self).next_instance() + k
                        &&& instance_ids(started@).contains(pid)
                        &&& self.processors@[pid].instance_id == instance
                        &&& cloned(
                            parameters@[pid].specific_parameters,
                            self.processors@[pid].last_parameters,
                        )
                    } by {
                        assert(instance_ids(started@)[k] == started@[k].0);
                        if k < entries.len() {
                            assert(started@[k] == entries[k]);
                            assert(listed.contains(entries[k].0));
                            assert(before.intersect(missing).contains(entries[k].0));
                        }
                    }
                }
            } else {
                assert(before.insert(id).intersect(missing) =~= before.intersect(missing));
            }
        }
        proof {
            all_are_taken(ids@, parameters@.dom());
            assert(parameters@.dom().intersect(missing) =~= missing);
            assert(self.processors@.dom() =~= all.dom().union(wanted_set(parameters@)));
        }
        started
    }

    /// Replaces the processors that are to be made from something else now.
    fn replace_changed(&mut self, parameters: &BTreeMap<ProcessorId, ProcessorParameters<P>>) -> (replaced:
        Vec<(ProcessorId, ProcessorInstanceId, ProcessorInstanceId)>)
        where
            P: Clone + PartialEq,
        requires
            old(self).processors@.dom() == wanted_set(parameters@),
            old(self).next_instance() + parameters@.dom().len() <= usize::MAX,
        ensures
            final(self).processors@.dom() == old(self).processors@.dom(),
            increasing(replaced_ids(replaced@)),
            forall|k: int|
                0 <= k < replaced@.len() ==> {
                    let (id, ended, started) = #[trigger] replaced@[k];
                    &&& old(self).processors@.contains_key(id)
                    &&& ended == old(self).processors@[id].instance_id
                    &&& started == old(self).next_instance() + k
                    &&& final(self).processors@[id].instance_id == started
                },
            forall|id: ProcessorId|
                old(self).processors@.contains_key(id) && !#[trigger] replaced_ids(
                    replaced@,
                ).contains(id) ==> final(self).processors@[id].instance_id == old(self).processors@[id].instance_id,
            well_behaved::<P>() ==> forall|id: ProcessorId| #[trigger]
                old(self).processors@.contains_key(id) ==> {
                    &&& replaced_ids(replaced@).contains(id)
                        <==> !parameters@[id].specific_parameters.eq_spec(
                        &old(self).processors@[id].last_parameters,
                    )
                    &&& final(self).processors@[id].last_parameters
                        == parameters@[id].specific_parameters
                },
            final(self).next_instance() == old(self).next_instance() + replaced@.len(),
    {
        let ids = sorted_keys(&self.processors);
        let mut replaced: Vec<(ProcessorId, ProcessorInstanceId, ProcessorInstanceId)> = Vec::new();
        let ghost all = self.processors@;
        proof {
            list_length(ids@, all.dom());
            assert(all.dom().subset_of(parameters@.dom()));
            vstd::set_lib::lemma_len_subset(all.dom(), parameters@.dom());
            assert(replaced_ids(replaced@) =~= Seq::<ProcessorId>::empty());
        }
        for i in 0..ids.len()
            invariant
                lists(ids@, all.dom()),
                ids@.len() <= parameters@.dom().len(),
                old(self).next_instance() + parameters@.dom().len() <= usize::MAX,
                all == old(self).processors@,
                all.dom() == wanted_set(parameters@),
                self.processors@.dom() == all.dom(),
                increasing(replaced_ids(replaced@)),
                replaced@.len() <= i,
                self.next_instance() == old(self).next_instance() + replaced@.len(),
                forall|k: int|
                    0 <= k < replaced@.len() ==> {
                        let (id, ended, started) = #[trigger] replaced@[k];
                        &&& all.contains_key(id)
                        &&& ended == all[id].instance_id
                        &&& started == old(self).next_instance() + k
                        &&& self.processors@[id].instance_id == started
                        &&& exists|j: int| 0 <= j < i && ids@[j] == id
                    },
                forall|id: ProcessorId|
                    all.contains_key(id) && !#[trigger] replaced_ids(replaced@).contains(id)
                        ==> self.processors@[id].instance_id == all[id].instance_id,
                forall|j: int|
                    i <= j < ids@.len() ==> self.processors@[#[trigger] ids@[j]] == all[ids@[j]],
                well_behaved::<P>() ==> forall|j: int|
                    0 <= j < i ==> {
                        let id = #[trigger] ids@[j];
                        &&& replaced_ids(replaced@).contains(id)
                            <==> !parameters@[id].specific_parameters.eq_spec(
                            &all[id].last_parameters,
                        )
                        &&& self.processors@[id].last_parameters
                            == parameters@[id].specific_parameters
                    },
        {
            let id: ProcessorId = ids[i];
            let ghost listed = replaced_ids(replaced@);
            let ghost entries = replaced@;
            let ghost earlier = self.processors@;
            proof {
                assert(ids@.contains(id));
                assert(all.dom().contains(id));
                assert(wanted(parameters@, id));
                assert(earlier[ids@[i as int]] == all[id]);
                assert forall|k: int| 0 <= k < entries.len() implies entries[k].0 < id by {
                    let j = choose|j: int| 0 <= j < i && ids@[j] == entries[k].0;
                    assert(ids@[j] < ids@[i as int]);
                }
                assert(!listed.contains(id)) by {
                    if listed.contains(id) {
                        let k = choose|k: int| 0 <= k < listed.len() && listed[k] == id;
                        assert(entries[k].0 == id);
                    }
                }
            }
            let p = parameters.get(&id).unwrap();
            let state = self.processors.remove(&id).unwrap();
            let ended: ProcessorInstanceId = state.instance_id;
            if p.specific_parameters != state.last_parameters {
                let instance_id: ProcessorInstanceId = self.instance_id_factory.create();
                let last_parameters = p.specific_parameters.clone();
                self.processors.insert(
                    id,
                    MainThreadProcessorState { instance_id, last_parameters },
                );
                replaced.push((id, ended, instance_id));
                proof {
                    assert(replaced_ids(replaced@) =~= listed.push(id));
                    assert(replaced_ids(replaced@)[listed.len() as int] == id);
                    assert forall|other: ProcessorId| other != id implies (#[trigger] replaced_ids(
                        replaced@,
                    ).contains(other) <==> listed.contains(other)) by {
                        if listed.contains(other) {
                            let k = choose|k: int| 0 <= k < listed.len() && listed[k] == other;
                            assert(replaced_ids(replaced@)[k] == other);
                        }
                        if replaced_ids(replaced@).contains(other) {
                            let k = choose|k: int|
                                0 <= k < replaced_ids(replaced@).len() && replaced_ids(
                                    replaced@,
                                )[k] == other;
                            assert(listed[k] == other);
                        }
                    }
                }
            } else {
                let last_parameters = p.specific_parameters.clone();
                self.processors.insert(
                    id,
                    MainThreadProcessorState { instance_id: ended, last_parameters },
                );
            }
            proof {
                assert(self.processors@.dom() =~= all.dom());
                assert forall|k: int| 0 <= k < replaced@.len() implies {
                    let (pid, old_instance, new_instance) = #[trigger] replaced@[k];
                    &&& all.contains_key(pid)
                    &&& old_instance == all[pid].instance_id
                    &&& new_instance == old(self).next_instance() + k
                    &&& self.processors@[pid].instance_id == new_instance
                    &&& exists|j: int| 0 <= j < i + 1 && ids@[j] == pid
                } by {
                    if k < entries.len() {
                        assert(replaced@[k] == entries[k]);
                        let j = choose|j: int| 0 <= j < i && ids@[j] == entries[k].0;
                        assert(ids@[j] == replaced@[k].0);
                    } else {
                        assert(ids@[i as int] == replaced@[k].0);
                    }
                }
                assert forall|j: int| i + 1 <= j < ids@.len() implies self.processors@[#[trigger] ids@[j]]
                    == all[ids@[j]] by {
                    assert(ids@[i as int] < ids@[j]);
                    assert(earlier[ids@[j]] == all[ids@[j]]);
                }
                if well_behaved::<P>() {
                    assert(cloned(
                        p.specific_parameters,
                        self.processors@[id].last_parameters,
                    ));
                    assert forall|j: int| 0 <= j < i + 1 implies {
                        let pid = #[trigger] ids@[j];
                        &&& replaced_ids(replaced@).contains(pid)
                            <==> !parameters@[pid].specific_parameters.eq_spec(
                            &all[pid].last_parameters,
                        )
                        &&& self.processors@[pid].last_parameters
                            == parameters@[pid].specific_parameters
                    } by {
                        if j < i {
                            assert(ids@[j] < ids@[i as int]);
                            assert(earlier[ids@[j]] == self.processors@[ids@[j]]);
                        }
                    }
                }
            }
        }
        proof {
            if well_behaved::<P>() {
                assert forall|id: ProcessorId| #[trigger] all.contains_key(id) implies {
                    &&& replaced_ids(replaced@).contains(id)
                        <==> !parameters@[id].specific_parameters.eq_spec(
                            &all[id].last_parameters,
                        )
                    &&& self.processors@[id].last_parameters == parameters@[id].specific_parameters
                } by {
                    assert(ids@.contains(id));
                    let j = choose|j: int| 0 <= j < ids@.len() && ids@[j] == id;
                    assert(ids@[j] == id);
                }
            }
        }
        replaced
    }

    /// Brings the processors that run in line with those that are to run: ends those that
    /// are not to run any more, starts those that are missing, and replaces those that are
    /// to be made from something else. A new name alone changes nothing.
    pub fn process(&mut self, parameters: &BTreeMap<ProcessorId, ProcessorParameters<P>>) -> (changes:
        ProcessorChanges)
        where
            P: Clone + PartialEq,
        requires
            old(self).wf(),
            old(self).next_instance() + 2 * parameters@.dom().len() <= usize::MAX,
        ensures
            final(self).wf(),
            final(self).instances().dom() == wanted_set(parameters@),
            lists(
                instance_ids(changes.dropped@),
                old(self).instances().dom().difference(wanted_set(parameters@)),
            ),
            forall|k: int|
                0 <= k < changes.dropped@.len() ==> (#[trigger] changes.dropped@[k]).1 == old(self).instances()[changes.dropped@[k].0],
            lists(
                instance_ids(changes.started@),
                wanted_set(parameters@).difference(old(self).instances().dom()),
            ),
            forall|k: int|
                0 <= k < changes.started@.len() ==> (#[trigger] changes.started@[k]).1 == old(self).next_instance() + k,
            forall|k: int|
                0 <= k < changes.replaced@.len() ==> (#[trigger] changes.replaced@[k]).2 == old(self).next_instance() + changes.started@.len() + k && final(self).instances()[changes.replaced@[k].0] == changes.replaced@[k].2,
            final(self).next_instance() == old(self).next_instance() + changes.started@.len()
                + changes.replaced@.len(),
            well_behaved::<P>() ==> {
                &&& lists(
                    replaced_ids(changes.replaced@),
                    Set::new(|id: ProcessorId| old(self).is_replaced(parameters@, id)),
                )
                &&& forall|k: int|
                    0 <= k < changes.replaced@.len() && old(self).instances().contains_key(
                        (#[trigger] changes.replaced@[k]).0,
                    ) ==> changes.replaced@[k].1 == old(self).instances()[changes.replaced@[k].0]
                &&& forall|k: int|
                    0 <= k < changes.started@.len() && !old(self).is_replaced(
                        parameters@,
                        (#[trigger] changes.started@[k]).0,
                    ) ==> final(self).instances()[changes.started@[k].0] == changes.started@[k].1
                &&& forall|id: ProcessorId| #[trigger]
                    old(self).goes_on(parameters@, id) ==> final(self).instances()[id] == old(self).instances()[id]
                &&& forall|id: ProcessorId|
                    wanted(parameters@, id) ==> #[trigger] final(self).made_from(id)
                        == parameters@[id].specific_parameters
            },
            followed(*old(self), parameters@, *final(self), changes),
    {
        let ghost before = self.processors@;
        let dropped = self.drop_unwanted(parameters);
        let ghost kept = self.processors@;
        let started = self.start_missing(parameters);
        let ghost complete = self.processors@;
        proof {
            assert(wanted_set(parameters@).difference(kept.dom()) =~= wanted_set(
                parameters@,
            ).difference(before.dom()));
            assert(complete.dom() =~= wanted_set(parameters@));
        }
        let replaced = self.replace_changed(parameters);
        proof {
            assert(self.instances().dom() =~= wanted_set(parameters@));
            assert(old(self).instances().dom() =~= before.dom());
            let fresh = instance_ids(started@);
            let redone = replaced_ids(replaced@);
            // Where an instance comes from.
            assert forall|id: ProcessorId| #[trigger] self.instances().contains_key(id) implies {
                ||| redone.contains(id) && exists|k: int|
                    0 <= k < replaced@.len() && (#[trigger] replaced@[k]).0 == id
                        && self.instances()[id] == replaced@[k].2
                ||| !redone.contains(id) && fresh.contains(id) && exists|k: int|
                    0 <= k < started@.len() && (#[trigger] started@[k]).0 == id
                        && self.instances()[id] == started@[k].1
                ||| !redone.contains(id) && !fresh.contains(id) && before.contains_key(id)
                    && self.instances()[id] == old(self).instances()[id]
            } by {
                assert(complete.contains_key(id));
                if redone.contains(id) {
                    let k = choose|k: int| 0 <= k < redone.len() && redone[k] == id;
                    assert(replaced@[k].0 == id);
                } else if fresh.contains(id) {
                    let k = choose|k: int| 0 <= k < fresh.len() && fresh[k] == id;
                    assert(started@[k].0 == id);
                } else {
                    assert(!wanted_set(parameters@).difference(kept.dom()).contains(id));
                    assert(kept.contains_key(id));
                }
            }
            assert forall|a: ProcessorId, b: ProcessorId|
                #![trigger self.instances()[a], self.instances()[b]]
                self.instances().contains_key(a) && self.instances().contains_key(b)
                    && self.instances()[a] == self.instances()[b] implies a == b by {
                if before.contains_key(a) {
                    assert(old(self).instances().contains_key(a));
                }
                if before.contains_key(b) {
                    assert(old(self).instances().contains_key(b));
                }
            }
            assert forall|id: ProcessorId| #[trigger] self.instances().contains_key(id) implies self.instances()[id]
                < self.next_instance() by {
                if before.contains_key(id) {
                    assert(old(self).instances().contains_key(id));
                }
            }
            assert forall|k: int| 0 <= k < dropped@.len() implies (#[trigger] dropped@[k]).1 == old(self).instances()[dropped@[k].0] by {
                assert(instance_ids(dropped@)[k] == dropped@[k].0);
                assert(instance_ids(dropped@).contains(dropped@[k].0));
            }
            assert forall|k: int| 0 <= k < replaced@.len() implies self.instances()[(
            #[trigger] replaced@[k]).0] == replaced@[k].2 by {
                assert(complete.contains_key(replaced@[k].0));
                assert(self.processors@.contains_key(replaced@[k].0));
            }
            if well_behaved::<P>() {
                let expected = Set::new(|id: ProcessorId| old(self).is_replaced(parameters@, id));
                // What each processor is made from before any are replaced.
                assert forall|id: ProcessorId| #[trigger] complete.contains_key(
                    id,
                ) implies complete[id].last_parameters == if before.contains_key(id) {
                    before[id].last_parameters
                } else {
                    parameters@[id].specific_parameters
                } by {
                    assert(wanted_set(parameters@).contains(id));
                    if before.contains_key(id) {
                        assert(kept.contains_key(id));
                    } else {
                        assert(wanted_set(parameters@).difference(kept.dom()).contains(id));
                        assert(fresh.contains(id));
                        let k = choose|k: int| 0 <= k < fresh.len() && fresh[k] == id;
                        assert(started@[k].0 == id);
                        assert(cloned(
                            parameters@[id].specific_parameters,
                            complete[id].last_parameters,
                        ));
                    }
                }
                assert forall|id: ProcessorId| #[trigger] redone.contains(id) <==> expected.contains(
                    id,
                ) by {
                    if redone.contains(id) {
                        let k = choose|k: int| 0 <= k < redone.len() && redone[k] == id;
                        assert(replaced@[k].0 == id);
                    }
                    if redone.contains(id) || expected.contains(id) {
                        assert(wanted_set(parameters@).contains(id));
                        assert(complete.contains_key(id));
                    }
                }
                assert forall|k: int|
                    0 <= k < replaced@.len() && old(self).instances().contains_key(
                        (#[trigger] replaced@[k]).0,
                    ) implies replaced@[k].1 == old(self).instances()[replaced@[k].0] by {
                    let id = replaced@[k].0;
                    assert(complete.contains_key(id));
                    assert(wanted_set(parameters@).contains(id));
                    assert(kept.contains_key(id));
                }
                assert forall|k: int|
                    0 <= k < started@.len() && !old(self).is_replaced(
                        parameters@,
                        (#[trigger] started@[k]).0,
                    ) implies self.instances()[started@[k].0] == started@[k].1 by {
                    let id = started@[k].0;
                    assert(fresh[k] == id);
                    assert(fresh.contains(id));
                    assert(complete.contains_key(id));
                    assert(!expected.contains(id));
                    assert(!redone.contains(id));
                    assert(self.processors@.contains_key(id));
                }
                assert forall|id: ProcessorId| #[trigger] old(self).goes_on(
                    parameters@,
                    id,
                ) implies self.instances()[id] == old(self).instances()[id] by {
                    assert(!expected.contains(id));
                    assert(!redone.contains(id));
                    assert(kept.contains_key(id));
                    assert(complete.contains_key(id));
                    assert(self.processors@.contains_key(id));
                }
                assert forall|id: ProcessorId| wanted(parameters@, id) implies #[trigger] self.made_from(
                    id,
                ) == parameters@[id].specific_parameters by {
                    assert(complete.dom().contains(id));
                    assert(complete.contains_key(id));
                }
            }
        }
        ProcessorChanges { dropped, started, replaced }
    }
}

/// The processors that are to run.
pub open spec fn wanted_set<P>(parameters: Map<ProcessorId, ProcessorParameters<P>>) -> Set<
    ProcessorId,
> {
    Set::new(|id: ProcessorId| wanted(parameters, id))
}

/// A clip that has not been started is less far than one that has, one that has not been ended
/// is less far than one that has, and of two that have been started and not ended the one whose
/// next chunk has the smaller number is less far.
pub proof fn cursors_are_ordered(a: ClipCursor, b: ClipCursor, c: ClipCursor)
    ensures
        a is Before && !(b is Before) ==> a.precedes(b),
        !(a is After) && b is After ==> a.precedes(b),
        a is Index && b is Index ==> (a.precedes(b) <==> a->Index_0 < b->Index_0),
        !a.precedes(a),
        a.precedes(b) ==> !b.precedes(a),
        a.precedes(b) && b.precedes(c) ==> a.precedes(c),
        a.precedes(b) || b.precedes(a) || a == b,
{
}

/// A cursor is behind another one exactly where some clip was started, gone on with or ended
/// in the other one and not in it. No cursor is behind itself.
pub proof fn being_behind(a: CursorModel, b: CursorModel)
    requires
        a.dom() == b.dom(),
    ensures
        is_behind(a, b) <==> exists|id: ClipId| #[trigger]
            a.contains_key(id) && match (a[id], b[id]) {
                (ClipCursor::Before, ClipCursor::Index(_)) => true,
                (ClipCursor::Before, ClipCursor::After) => true,
                (ClipCursor::Index(_), ClipCursor::After) => true,
                (ClipCursor::Index(i), ClipCursor::Index(j)) => i < j,
                _ => false,
            },
        !is_behind(a, a),
{
}

/// A step is about the earliest clip that was not ended, the one with the smallest identifier
/// where several are as early. It starts the clip where it was not started, and the next chunk
/// is the first one then; it goes on by the chunk that was to come next; and it ends the clip
/// only where all of its chunks have been gone through and it is not active.
pub proof fn steps_follow_time(
    cursor: CursorModel,
    times: Map<ClipId, Double>,
    document: Document,
    active: Set<ClipId>,
)
    requires
        document.wf(),
        cursor.dom().finite(),
        cursor.dom().subset_of(document.clips@.dom()),
        comparable(cursor.dom(), times),
    ensures
        ({
            let (event, after) = next_step(cursor, times, document, active);
            &&& event matches Some(Event::ClipStart(id)) ==> {
                &&& cursor.contains_key(id) && cursor[id] is Before
                &&& after[id] is Index && after[id]->Index_0 == document.clips@[id].chunks@.start
            }
            &&& event matches Some(Event::Chunk(id, index)) ==> {
                &&& cursor.contains_key(id) && cursor[id] == ClipCursor::Index(index)
                &&& index < document.clips@[id].chunks@.end()
                &&& after[id] is Index && after[id]->Index_0 == index + 1
            }
            &&& event matches Some(Event::ClipEnd(id)) ==> {
                &&& cursor.contains_key(id) && cursor[id] is Index
                &&& cursor[id]->Index_0 >= document.clips@[id].chunks@.end()
                &&& !active.contains(id)
                &&& after[id] is After
            }
            &&& forall|id: ClipId, other: ClipId|
                #![trigger cursor[id], cursor[other]]
                cursor.contains_key(id) && after[id] != cursor[id] && cursor.contains_key(other)
                    && !(cursor[other] is After) ==> {
                    &&& !times[other].below(times[id])
                    &&& other < id ==> times[id].below(times[other])
                }
            &&& event is None ==> after == cursor
            &&& event is None ==> forall|id: ClipId| #[trigger]
                cursor.contains_key(id) && !(cursor[id] is After) ==> exists|waiting: ClipId|
                    #![trigger active.contains(waiting)]
                    {
                        &&& active.contains(waiting)
                        &&& cursor.contains_key(waiting)
                        &&& cursor[waiting] matches ClipCursor::Index(index) && index
                            >= document.clips@[waiting].chunks@.end()
                        &&& !times[id].below(times[waiting])
                    }
        }),
{
    let (event, after) = next_step(cursor, times, document, active);
    let clips = unfinished(cursor);
    assert(clips.subset_of(cursor.dom()));
    vstd::set_lib::lemma_set_subset_finite(cursor.dom(), clips);
    step_is_about_a_clip(cursor, times, document, active);
    if exists|id: ClipId| clips.contains(id) {
        some_clip_comes_first(clips, times);
        let first = first_clip(clips, times);
        assert(comes_first(clips, times, first));
        assert(clips.contains(first));
        assert(document.clips@.dom().contains(first));
        assert(document.clips@.contains_key(first));
        document.clips@[first].chunks.start_is_isize();
        assert forall|id: ClipId, other: ClipId|
            #![trigger cursor[id], cursor[other]]
            cursor.contains_key(id) && after[id] != cursor[id] && cursor.contains_key(other) && !(
            cursor[other] is After) implies {
            &&& !times[other].below(times[id])
            &&& other < id ==> times[id].below(times[other])
        } by {
            assert(id == first);
            assert(clips.contains(other));
        }
        if event is None {
            assert forall|id: ClipId| #[trigger]
                cursor.contains_key(id) && !(cursor[id] is After) implies exists|waiting: ClipId|
                #![trigger active.contains(waiting)]
                {
                    &&& active.contains(waiting)
                    &&& cursor.contains_key(waiting)
                    &&& cursor[waiting] matches ClipCursor::Index(index) && index
                        >= document.clips@[waiting].chunks@.end()
                    &&& !times[id].below(times[waiting])
                } by {
                assert(clips.contains(id));
                assert(active.contains(first));
            }
        }
    } else {
        assert forall|id: ClipId| #[trigger] cursor.contains_key(id) implies cursor[id] is After by {
            assert(!clips.contains(id));
        }
    }
}

/// How many chunks come before a cursor: none before a clip is started, all after it was ended,
/// and between that as many as the next one is away from the first.
pub proof fn chunks_before_a_cursor(clip: Clip, index: isize)
    ensures
        chunk_offset(ClipCursor::Before, clip) == 0,
        chunk_offset(ClipCursor::Index(index), clip) + clip.chunks@.start == index,
        chunk_offset(ClipCursor::After, clip) + clip.chunks@.start == clip.chunks@.end(),
{
}

/// Whether the processors that run were brought in line with parameters.
pub open spec fn followed<P: Clone + PartialEq>(
    before: Analysis<P>,
    parameters: Map<ProcessorId, ProcessorParameters<P>>,
    after: Analysis<P>,
    changes: ProcessorChanges,
) -> bool {
    &&& after.instances().dom() == wanted_set(parameters)
    &&& lists(
        instance_ids(changes.dropped@),
        before.instances().dom().difference(wanted_set(parameters)),
    )
    &&& lists(
        instance_ids(changes.started@),
        wanted_set(parameters).difference(before.instances().dom()),
    )
    &&& well_behaved::<P>() ==> {
        &&& lists(
            replaced_ids(changes.replaced@),
            Set::new(|id: ProcessorId| before.is_replaced(parameters, id)),
        )
        &&& forall|id: ProcessorId| #[trigger]
            before.goes_on(parameters, id) ==> after.instances()[id] == before.instances()[id]
        &&& forall|id: ProcessorId|
            wanted(parameters, id) ==> #[trigger] after.made_from(id)
                == parameters[id].specific_parameters
    }
}

/// A processor runs exactly where there are parameters for it and it is enabled. One that ran and
/// is not to run is dropped, and one that did not run and is to is started. One that ran and is
/// to run is replaced where its parameters have changed, and otherwise goes on as it is.
pub proof fn processors_follow_their_parameters<P: Clone + PartialEq>(
    before: Analysis<P>,
    parameters: Map<ProcessorId, ProcessorParameters<P>>,
    after: Analysis<P>,
    changes: ProcessorChanges,
    id: ProcessorId,
)
    requires
        followed(before, parameters, after, changes),
    ensures
        ({
            let ran = before.instances().contains_key(id);
            let is_to_run = parameters.contains_key(id) && parameters[id].enabled;
            let same = parameters[id].specific_parameters.eq_spec(&before.made_from(id));
            &&& after.instances().contains_key(id) <==> is_to_run
            &&& instance_ids(changes.dropped@).contains(id) <==> ran && !is_to_run
            &&& instance_ids(changes.started@).contains(id) <==> !ran && is_to_run
            &&& well_behaved::<P>() && is_to_run ==> after.made_from(id)
                == parameters[id].specific_parameters
            &&& well_behaved::<P>() && ran && is_to_run && same ==> after.instances()[id]
                == before.instances()[id] && !replaced_ids(changes.replaced@).contains(id)
            &&& well_behaved::<P>() && ran && is_to_run && !same ==> replaced_ids(
                changes.replaced@,
            ).contains(id)
            &&& well_behaved::<P>() && !is_to_run ==> !replaced_ids(changes.replaced@).contains(id)
            &&& well_behaved::<P>() && !ran && parameters[id].specific_parameters.eq_spec(
                &parameters[id].specific_parameters,
            ) ==> !replaced_ids(changes.replaced@).contains(id)
        }),
{
    assert(after.instances().contains_key(id) <==> after.instances().dom().contains(id));
    assert(before.instances().contains_key(id) <==> before.instances().dom().contains(id));
    assert(wanted_set(parameters).contains(id) <==> wanted(parameters, id));
    if well_behaved::<P>() {
        let redone = Set::new(|other: ProcessorId| before.is_replaced(parameters, other));
        assert(lists(replaced_ids(changes.replaced@), redone));
        assert(redone.contains(id) <==> before.is_replaced(parameters, id));
        assert(replaced_ids(changes.replaced@).contains(id) <==> redone.contains(id));
        if before.goes_on(parameters, id) {
            assert(after.instances()[id] == before.instances()[id]);
        }
        if wanted(parameters, id) {
            assert(after.made_from(id) == parameters[id].specific_parameters);
        }
    }
}

} // verus!
