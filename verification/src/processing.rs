use std::collections::{BTreeMap, BTreeSet};
use std::sync::Arc;

use vstd::prelude::*;

use crate::analysis::{
    at_start, comparable, cursor_time, is_behind, next_step, step_is_about_a_clip, ClipCursor,
    Cursor, CursorModel, Event, ProcessorInstanceId,
};
use crate::chunked_deque::ChunkedDeque;
use crate::document::{clips_compare, modified_ids, Chunk, Clip, ClipId, Document};
use crate::double::Double;
use crate::indexed::{extends, keeps, may_differ, IndexedSeq};
use crate::maps::{
    all_are_taken, increasing, keys_without, list_grows, lists, next_is_taken, sorted_keys,
    taken_are_below,
};

verus! {

/// A clip that is in two versions of a document.
#[derive(Clone, Copy, Debug)]
pub struct ClipChange {
    pub clip_id: ClipId,
    /// Whether its chunks in the newer version continue those in the older one.
    pub continues: bool,
}

/// The clips in a list of changes.
pub open spec fn change_ids(changes: Seq<ClipChange>) -> Seq<ClipId> {
    changes.map_values(|change: ClipChange| change.clip_id)
}

/// Whether every change is to a clip that is in both versions of a document.
pub open spec fn changes_between(changes: Seq<ClipChange>, old: Document, new: Document) -> bool {
    forall|i: int|
        0 <= i < changes.len() ==> old.clips@.contains_key((#[trigger] changes[i]).clip_id)
            && new.clips@.contains_key(changes[i].clip_id)
}

/// Whether chunks do not continue older ones: they do not extend them, or where the two
/// overlap there are chunks that can be told apart.
pub open spec fn not_continued(newer: IndexedSeq<Chunk>, older: IndexedSeq<Chunk>) -> bool {
    ||| !extends(newer, older)
    ||| exists|k: int|
        newer.start <= k < older.end() && may_differ(#[trigger] newer.at(k), older.at(k))
}

/// The clips that may have changed from one version of a document to another: all that
/// the two do not share.
///
/// Clips and chunks are told apart by where they are stored. A clip or a chunk that was
/// copied counts as another one, though it holds the same.
pub fn clip_changes(old: &Document, new: &Document) -> (changes: Vec<ClipChange>)
    requires
        old.wf(),
        new.wf(),
    ensures
        increasing(change_ids(changes@)),
        changes_between(changes@, *old, *new),
        forall|i: int|
            0 <= i < changes@.len() && (#[trigger] changes@[i]).continues ==> keeps(
                new.clips@[changes@[i].clip_id].chunks@,
                old.clips@[changes@[i].clip_id].chunks@,
            ),
        forall|i: int|
            0 <= i < changes@.len() && !(#[trigger] changes@[i]).continues ==> not_continued(
                new.clips@[changes@[i].clip_id].chunks@,
                old.clips@[changes@[i].clip_id].chunks@,
            ),
        forall|i: int|
            0 <= i < changes@.len() ==> clips_compare(
                old.clips@[(#[trigger] changes@[i]).clip_id],
                new.clips@[changes@[i].clip_id],
                false,
            ),
        forall|id: ClipId|
            old.clips@.contains_key(id) && new.clips@.contains_key(id)
                && !#[trigger] change_ids(changes@).contains(id) ==> clips_compare(
                old.clips@[id],
                new.clips@[id],
                true,
            ),
        forall|id: ClipId|
            old.clips@.contains_key(id) && new.clips@.contains_key(id) && old.clips@[id]
                != new.clips@[id] ==> #[trigger] change_ids(changes@).contains(id),
{
    let modified = old.modified_clips(new);
    let mut changes: Vec<ClipChange> = Vec::new();
    for i in 0..modified.len()
        invariant
            old.wf(),
            new.wf(),
            forall|k: int|
                0 <= k < modified@.len() ==> {
                    let (id, old_clip, new_clip) = #[trigger] modified@[k];
                    &&& old.clips@.contains_key(id) && *old_clip == old.clips@[id]
                    &&& new.clips@.contains_key(id) && *new_clip == new.clips@[id]
                    &&& clips_compare(*old_clip, *new_clip, false)
                },
            changes@.len() == i,
            forall|k: int|
                0 <= k < i ==> (#[trigger] changes@[k]).clip_id == modified@[k].0
                    && old.clips@.contains_key(changes@[k].clip_id)
                    && new.clips@.contains_key(changes@[k].clip_id) && clips_compare(
                    old.clips@[changes@[k].clip_id],
                    new.clips@[changes@[k].clip_id],
                    false,
                ),
            forall|k: int|
                0 <= k < i && !(#[trigger] changes@[k]).continues ==> not_continued(
                    new.clips@[changes@[k].clip_id].chunks@,
                    old.clips@[changes@[k].clip_id].chunks@,
                ),
            forall|k: int|
                0 <= k < i && (#[trigger] changes@[k]).continues ==> keeps(
                    new.clips@[changes@[k].clip_id].chunks@,
                    old.clips@[changes@[k].clip_id].chunks@,
                ),
    {
        let (clip_id, old_clip, new_clip) = modified[i];
        assert(modified@[i as int].0 == clip_id);
        let continues: bool = new_clip.chunks.is_continuation_of(&old_clip.chunks);
        changes.push(ClipChange { clip_id, continues });
    }
    assert(change_ids(changes@) =~= modified_ids(modified@));
    changes
}

/// Whether what is known of a clip beside its name and its chunks differs.
pub open spec fn descriptor_changed(old: Clip, new: Clip) -> bool {
    ||| !new.descriptor.frequency.same(old.descriptor.frequency)
    ||| !new.descriptor.sample_rate.same(old.descriptor.sample_rate)
    ||| !new.descriptor.reference_time.same(old.descriptor.reference_time)
    ||| new.descriptor.chunk_size != old.descriptor.chunk_size
}

/// Whether a change to a clip makes what was processed before `time` invalid: the clip
/// has been started or now starts before that time, and it is not merely continued. A
/// clip that has been ended may not even be continued.
pub open spec fn change_invalidates(
    old: Clip,
    new: Clip,
    cursor: ClipCursor,
    time: Double,
    start: Double,
    continues: bool,
) -> bool {
    &&& cursor != ClipCursor::Before || start.below(time)
    &&& {
        ||| descriptor_changed(old, new)
        ||| !continues
        ||| cursor == ClipCursor::After && new.chunks@.end() > old.chunks@.end()
    }
}

/// The clips of a cursor that decide what time it is at when the document is changed:
/// those that stay and those that have been started.
pub open spec fn deciding_clips(cursor: CursorModel, new: Document) -> Set<ClipId> {
    Set::new(
        |id: ClipId|
            cursor.contains_key(id) && (new.clips@.contains_key(id) || cursor[id]
                != ClipCursor::Before),
    )
}

/// Whether everything has to be processed again, from the start, when a document is
/// changed. This is so when a clip is removed that has been started, when a change
/// invalidates what was processed, or when a clip is added that starts before the time
/// of the cursor.
pub open spec fn update_restarts(
    cursor: CursorModel,
    old: Document,
    new: Document,
    changes: Seq<ClipChange>,
    cursor_times: Map<ClipId, Double>,
    start_times: Map<ClipId, Double>,
) -> bool {
    let time = cursor_time(deciding_clips(cursor, new), cursor_times);
    ||| exists|id: ClipId| #[trigger]
        old.clips@.contains_key(id) && !new.clips@.contains_key(id) && cursor[id]
            != ClipCursor::Before
    ||| time is Some && exists|i: int|
        0 <= i < changes.len() && {
            let id = (#[trigger] changes[i]).clip_id;
            change_invalidates(
                *old.clips@[id],
                *new.clips@[id],
                cursor[id],
                time->0,
                start_times[id],
                changes[i].continues,
            )
        }
    ||| time is Some && exists|id: ClipId| #[trigger]
        new.clips@.contains_key(id) && !old.clips@.contains_key(id) && start_times[id].below(time->0)
}

/// Whether at most one clip is added that does not start before the time of the cursor,
/// and none with a larger identifier beside it.
pub open spec fn adds_one_at_a_time(
    cursor: CursorModel,
    old: Document,
    new: Document,
    cursor_times: Map<ClipId, Double>,
    start_times: Map<ClipId, Double>,
) -> bool {
    let time = cursor_time(deciding_clips(cursor, new), cursor_times);
    forall|id: ClipId, later: ClipId|
        #[trigger] new.clips@.contains_key(id) && !old.clips@.contains_key(id)
            && #[trigger] new.clips@.contains_key(later) && !old.clips@.contains_key(later) && id
            < later ==> time is Some && start_times[id].below(time->0)
}

/// A cursor for a changed document: clips that were removed are left out, and clips
/// that were added have not been started.
pub open spec fn adapted(cursor: CursorModel, clips: Set<ClipId>) -> CursorModel {
    Map::new(
        |id: ClipId| clips.contains(id),
        |id: ClipId|
            if cursor.contains_key(id) {
                cursor[id]
            } else {
                ClipCursor::Before
            },
    )
}

/// Whether everything has to be processed again, from the start, when something of a
/// document has expired. This is so when something is gone that has not been processed.
pub open spec fn expiry_restarts(
    cursor: CursorModel,
    old: Document,
    new: Document,
    changes: Seq<ClipChange>,
) -> bool {
    ||| exists|id: ClipId| #[trigger]
        old.clips@.contains_key(id) && !new.clips@.contains_key(id) && cursor[id]
            != ClipCursor::After
    ||| exists|i: int|
        0 <= i < changes.len() && {
            let id = (#[trigger] changes[i]).clip_id;
            match cursor[id] {
                ClipCursor::Before => true,
                ClipCursor::Index(index) => index < new.clips@[id].chunks@.start,
                ClipCursor::After => false,
            }
        }
}

/// A cursor for a changed document.
fn adapt(cursor: &Cursor, document: &Document) -> (result: Cursor)
    ensures
        result@ == adapted(cursor@, document.clips@.dom()),
{
    let mut result = Cursor::start_of_document(document);
    let ids = sorted_keys(&document.clips);
    proof {
        all_are_taken(ids@, document.clips@.dom());
        assert(result@ =~= adapted(
            cursor@.restrict(ids@.take(0).to_set()),
            document.clips@.dom(),
        ));
    }
    for i in 0..ids.len()
        invariant
            lists(ids@, document.clips@.dom()),
            result@ == adapted(
                cursor@.restrict(ids@.take(i as int).to_set()),
                document.clips@.dom(),
            ),
    {
        let id: ClipId = ids[i];
        proof {
            next_is_taken(ids@, i as int);
            assert(ids@.contains(id));
        }
        if let Some(place) = cursor.find(id) {
            result.set(id, place);
        }
        assert(result@ =~= adapted(
            cursor@.restrict(ids@.take(i + 1).to_set()),
            document.clips@.dom(),
        ));
    }
    proof {
        all_are_taken(ids@, document.clips@.dom());
        assert(result@ =~= adapted(cursor@, document.clips@.dom()));
    }
    result
}

/// A new version of a document, and the processors that come and go with it.
pub struct DocumentUpdate {
    pub removed_processors: Vec<ProcessorInstanceId>,
    pub new_processors: Vec<ProcessorInstanceId>,
    pub document: Document,
    pub active_clips: BTreeSet<ClipId>,
}

/// Something to process, and by whom.
pub struct Step {
    pub event: Event,
    /// Whether the samples of the clip are being preprocessed. Chunks of a clip that is
    /// not are passed over.
    pub preprocessed: bool,
    /// The processors that have not got this far.
    pub processors: Vec<ProcessorInstanceId>,
}

/// How far a document has been processed, and how far by each processor.
pub struct ProcessingState {
    document: Document,
    active_clips: BTreeSet<ClipId>,
    cursor: Cursor,
    processors: BTreeMap<ProcessorInstanceId, Cursor>,
    preprocessors: BTreeSet<ClipId>,
}

/// The clip that an event is about.
pub open spec fn event_clip(event: Event) -> ClipId {
    match event {
        Event::ClipStart(id) => id,
        Event::ClipEnd(id) => id,
        Event::Chunk(id, _) => id,
    }
}

/// The clips whose samples are being preprocessed after an event.
pub open spec fn preprocessing_after(clips: Set<ClipId>, event: Event) -> Set<ClipId> {
    match event {
        Event::ClipStart(id) => clips.insert(id),
        Event::ClipEnd(id) => clips.remove(id),
        Event::Chunk(_, _) => clips,
    }
}

/// Processors without some of them.
pub open spec fn without<V>(
    processors: Map<ProcessorInstanceId, V>,
    removed: Seq<ProcessorInstanceId>,
) -> Map<ProcessorInstanceId, V> {
    processors.remove_keys(removed.to_set())
}

impl ProcessingState {
    pub closed spec fn doc(&self) -> Document {
        self.document
    }

    pub closed spec fn active(&self) -> Set<ClipId> {
        self.active_clips@
    }

    /// How far the document has been processed.
    pub closed spec fn place(&self) -> CursorModel {
        self.cursor@
    }

    /// How far each processor has got.
    pub closed spec fn places(&self) -> Map<ProcessorInstanceId, CursorModel> {
        self.processors@.map_values(|cursor: Cursor| cursor@)
    }

    /// The clips whose samples are being preprocessed.
    pub closed spec fn preprocessing(&self) -> Set<ClipId> {
        self.preprocessors@
    }

    /// All cursors span the clips of the document, and no others.
    pub open spec fn wf(&self) -> bool {
        &&& self.doc().wf()
        &&& self.place().dom() == self.doc().clips@.dom()
        &&& forall|id: ProcessorInstanceId| #[trigger]
            self.places().contains_key(id) ==> self.places()[id].dom() == self.doc().clips@.dom()
    }

    /// No clip has lost chunks that come next.
    pub open spec fn in_range(&self) -> bool {
        forall|id: ClipId| #[trigger]
            self.place().contains_key(id) ==> match self.place()[id] {
                ClipCursor::Index(index) => self.doc().clips@[id].chunks@.start <= index,
                _ => true,
            }
    }

    pub fn new() -> (state: Self)
        ensures
            state.wf(),
            state.in_range(),
            state.doc().clips@.dom() == Set::<ClipId>::empty(),
            state.active() == Set::<ClipId>::empty(),
            state.places() == Map::<ProcessorInstanceId, CursorModel>::empty(),
            state.preprocessing() == Set::<ClipId>::empty(),
    {
        let state = ProcessingState {
            document: Document::new(),
            active_clips: BTreeSet::new(),
            cursor: Cursor::new_empty(),
            processors: BTreeMap::new(),
            preprocessors: BTreeSet::new(),
        };
        proof {
            assert(state.places() =~= Map::empty());
            assert(state.place().dom() =~= state.doc().clips@.dom());
        }
        state
    }

    pub fn document(&self) -> (document: &Document)
        ensures
            *document == self.doc(),
    {
        &self.document
    }

    /// How far the document has been processed.
    pub fn cursor(&self) -> (cursor: &Cursor)
        ensures
            cursor@ == self.place(),
    {
        &self.cursor
    }

    /// Brings the cursors of the processors to a new version of the document: to its
    /// start, or to where they were.
    fn move_processors(&mut self, document: &Document, restart: bool)
        ensures
            final(self).document == old(self).document,
            final(self).active_clips == old(self).active_clips,
            final(self).cursor == old(self).cursor,
            final(self).preprocessors == old(self).preprocessors,
            final(self).places() == moved(old(self).places(), document.clips@.dom(), restart),
    {
        let ids = sorted_keys(&self.processors);
        proof {
            all_are_taken(ids@, self.processors@.dom());
        }
        for i in 0..ids.len()
            invariant
                lists(ids@, old(self).processors@.dom()),
                self.document == old(self).document,
                self.active_clips == old(self).active_clips,
                self.cursor == old(self).cursor,
                self.preprocessors == old(self).preprocessors,
                self.processors@.dom() == old(self).processors@.dom(),
                forall|id: ProcessorInstanceId| #[trigger]
                    self.processors@.contains_key(id) ==> self.processors@[id]@ == if ids@.take(
                        i as int,
                    ).to_set().contains(id) {
                        moved_cursor(old(self).processors@[id]@, document.clips@.dom(), restart)
                    } else {
                        old(self).processors@[id]@
                    },
        {
            let id: ProcessorInstanceId = ids[i];
            proof {
                next_is_taken(ids@, i as int);
                assert(ids@.contains(id));
                if ids@.take(i as int).to_set().contains(id) {
                    taken_are_below(ids@, i as int, id);
                }
            }
            let cursor = if restart {
                Cursor::start_of_document(document)
            } else {
                adapt(self.processors.get(&id).unwrap(), document)
            };
            self.processors.insert(id, cursor);
            assert(self.processors@.dom() =~= old(self).processors@.dom());
        }
        proof {
            all_are_taken(ids@, old(self).processors@.dom());
            assert forall|id: ProcessorInstanceId| #[trigger]
                self.places().contains_key(id) implies self.places()[id] == moved(
                old(self).places(),
                document.clips@.dom(),
                restart,
            )[id] by {
                assert(self.processors@.contains_key(id));
            }
            assert(self.places() =~= moved(old(self).places(), document.clips@.dom(), restart));
        }
    }

    /// Takes up a new version of the document, and says whether everything has to be
    /// processed again. If so, the processors that stay have to be reset.
    ///
    /// `cursor_times` holds the time of the cursor in each clip, and `start_times` the
    /// time at which each clip of the new version starts.
    pub fn process(
        &mut self,
        update: DocumentUpdate,
        changes: &Vec<ClipChange>,
        cursor_times: &BTreeMap<ClipId, Double>,
        start_times: &BTreeMap<ClipId, Double>,
    ) -> (restarted: bool)
        requires
            old(self).wf(),
            update.document.wf(),
            changes_between(changes@, old(self).doc(), update.document),
            comparable(deciding_clips(old(self).place(), update.document), cursor_times@),
            forall|id: ClipId| #[trigger]
                update.document.clips@.contains_key(id) ==> start_times@.contains_key(id),
            adds_one_at_a_time(
                old(self).place(),
                old(self).doc(),
                update.document,
                cursor_times@,
                start_times@,
            ),
        ensures
            final(self).wf(),
            restarted == update_restarts(
                old(self).place(),
                old(self).doc(),
                update.document,
                changes@,
                cursor_times@,
                start_times@,
            ),
            final(self).doc() == update.document,
            final(self).active() == update.active_clips@,
            final(self).place() == if update.new_processors@.len() > 0 {
                at_start(update.document.clips@.dom())
            } else {
                moved_cursor(old(self).place(), update.document.clips@.dom(), restarted)
            },
            final(self).places() == with_started(
                moved(
                    without(old(self).places(), update.removed_processors@),
                    update.document.clips@.dom(),
                    restarted,
                ),
                update.new_processors@,
                update.document.clips@.dom(),
            ),
            final(self).preprocessing() == old(self).preprocessing(),
            took_up(
                *old(self),
                update,
                changes@,
                cursor_times@,
                start_times@,
                *final(self),
                restarted,
            ),
    {
        let DocumentUpdate { removed_processors, new_processors, document, active_clips } = update;
        let ghost clips = document.clips@.dom();
        self.remove_processors(&removed_processors);
        let restarted = self.must_restart(&document, changes, cursor_times, start_times);
        self.move_processors(&document, restarted);
        let ghost stayed = self.places();
        self.cursor = if restarted || new_processors.len() > 0 {
            Cursor::start_of_document(&document)
        } else {
            adapt(&self.cursor, &document)
        };
        let ghost place = self.cursor@;
        proof {
            assert(new_processors@.take(0).to_set() =~= Set::<ProcessorInstanceId>::empty());
            assert(with_started(stayed, new_processors@.take(0), clips) =~= stayed);
        }
        for i in 0..new_processors.len()
            invariant
                clips == document.clips@.dom(),
                self.document == old(self).document,
                self.preprocessors == old(self).preprocessors,
                self.cursor@ == place,
                new_processors@.len() > 0 ==> place == at_start(clips),
                self.places() == with_started(stayed, new_processors@.take(i as int), clips),
        {
            let id: ProcessorInstanceId = new_processors[i];
            let ghost before = self.places();
            proof {
                next_is_taken(new_processors@, i as int);
            }
            self.processors.insert(id, self.cursor.clone());
            proof {
                assert(self.places() =~= before.insert(id, at_start(clips)));
                assert(self.places() =~= with_started(stayed, new_processors@.take(i + 1), clips));
            }
        }
        proof {
            assert(new_processors@.take(new_processors@.len() as int) =~= new_processors@);
        }
        self.document = document;
        self.active_clips = active_clips;
        proof {
            assert(self.place().dom() =~= self.doc().clips@.dom());
            assert forall|id: ProcessorInstanceId| #[trigger]
                self.places().contains_key(id) implies self.places()[id].dom()
                == self.doc().clips@.dom() by {
                assert(self.places()[id].dom() =~= clips);
            }
        }
        restarted
    }

    /// Takes up a version of the document of which something has expired, and says
    /// whether everything has to be processed again. If so, the processors have to be
    /// reset. No clip may have been added.
    pub fn process_expiry(&mut self, document: Document, changes: &Vec<ClipChange>) -> (restarted:
        bool)
        requires
            old(self).wf(),
            document.wf(),
            changes_between(changes@, old(self).doc(), document),
            document.clips@.dom().subset_of(old(self).doc().clips@.dom()),
        ensures
            final(self).wf(),
            restarted == expiry_restarts(old(self).place(), old(self).doc(), document, changes@),
            final(self).doc() == document,
            final(self).active() == old(self).active(),
            final(self).place() == moved_cursor(
                old(self).place(),
                document.clips@.dom(),
                restarted,
            ),
            final(self).places() == moved(old(self).places(), document.clips@.dom(), restarted),
            final(self).preprocessing() == old(self).preprocessing(),
            old(self).in_range() && lists_all_changes(changes@, old(self).doc(), document)
                ==> final(self).in_range(),
            took_up_expiry(*old(self), document, changes@, *final(self), restarted),
    {
        let ghost place = self.cursor@;
        let ghost before = self.document;
        let mut restarted: bool = false;
        let removed = keys_without(&self.document.clips, &document.clips);
        for i in 0..removed.len()
            invariant
                place == self.cursor@,
                place.dom() == self.document.clips@.dom(),
                lists(removed@, self.document.clips@.dom().difference(document.clips@.dom())),
                restarted == exists|k: int|
                    0 <= k < i && place[#[trigger] removed@[k]] != ClipCursor::After,
        {
            let id: ClipId = removed[i];
            assert(removed@.contains(id));
            assert(place.dom().contains(id));
            if self.cursor.get(id) != ClipCursor::After {
                restarted = true;
                assert(place[removed@[i as int]] != ClipCursor::After);
            }
        }
        let ghost gone = restarted;
        proof {
            if gone {
                let k = choose|k: int|
                    0 <= k < removed@.len() && place[#[trigger] removed@[k]] != ClipCursor::After;
                assert(removed@.contains(removed@[k]));
                assert(before.clips@.contains_key(removed@[k]));
            }
            assert forall|id: ClipId| #[trigger]
                before.clips@.contains_key(id) && !document.clips@.contains_key(id) && place[id]
                    != ClipCursor::After implies gone by {
                assert(removed@.contains(id));
                let k = choose|k: int| 0 <= k < removed@.len() && removed@[k] == id;
                assert(place[removed@[k]] != ClipCursor::After);
            }
        }
        for i in 0..changes.len()
            invariant
                place == self.cursor@,
                place.dom() == self.document.clips@.dom(),
                document.wf(),
                changes_between(changes@, self.document, document),
                restarted == (gone || exists|k: int|
                    0 <= k < i && lost_ahead(place, document, #[trigger] changes@[k])),
        {
            let change: ClipChange = changes[i];
            let id: ClipId = change.clip_id;
            assert(changes@[i as int] == change);
            assert(place.dom().contains(id));
            let lost: bool = match self.cursor.get(id) {
                ClipCursor::Before => true,
                ClipCursor::Index(index) => {
                    index < document.clips.get(&id).unwrap().chunks.start_index()
                },
                ClipCursor::After => false,
            };
            assert(lost == lost_ahead(place, document, changes@[i as int]));
            if lost {
                restarted = true;
            }
        }
        self.move_processors(&document, restarted);
        self.cursor = if restarted {
            Cursor::start_of_document(&document)
        } else {
            adapt(&self.cursor, &document)
        };
        self.document = document;
        proof {
            assert(restarted == (gone || exists|k: int|
                0 <= k < changes@.len() && lost_ahead(place, document, #[trigger] changes@[k])));
            assert(self.place().dom() =~= self.doc().clips@.dom());
            assert forall|id: ProcessorInstanceId| #[trigger]
                self.places().contains_key(id) implies self.places()[id].dom()
                == self.doc().clips@.dom() by {
                assert(self.places()[id].dom() =~= document.clips@.dom());
            }
            if old(self).in_range() && lists_all_changes(changes@, before, document) {
                assert forall|id: ClipId| #[trigger]
                    self.place().contains_key(id) implies match self.place()[id] {
                    ClipCursor::Index(index) => self.doc().clips@[id].chunks@.start <= index,
                    _ => true,
                } by {
                    assert(old(self).place().contains_key(id));
                    if change_ids(changes@).contains(id) {
                        let k = choose|k: int|
                            0 <= k < changes@.len() && change_ids(changes@)[k] == id;
                        assert(changes@[k].clip_id == id);
                        assert(lost_ahead(place, document, changes@[k]) ==> restarted);
                    }
                }
            }
        }
        restarted
    }

    /// Goes on to what comes next, and says what that is and which processors have not
    /// got that far. They have then. `times` holds the time of the cursor in each clip.
    pub fn next_event(&mut self, times: &BTreeMap<ClipId, Double>) -> (step: Option<Step>)
        requires
            old(self).wf(),
            old(self).in_range(),
            comparable(old(self).place().dom(), times@),
        ensures
            final(self).wf(),
            final(self).in_range(),
            final(self).doc() == old(self).doc(),
            final(self).active() == old(self).active(),
            final(self).place() == next_step(
                old(self).place(),
                times@,
                old(self).doc(),
                old(self).active(),
            ).1,
            match step {
                None => {
                    &&& next_step(old(self).place(), times@, old(self).doc(), old(self).active()).0
                        is None
                    &&& final(self).places() == old(self).places()
                    &&& final(self).preprocessing() == old(self).preprocessing()
                },
                Some(step) => {
                    &&& next_step(old(self).place(), times@, old(self).doc(), old(self).active()).0
                        == Some(step.event)
                    &&& final(self).preprocessing() == preprocessing_after(
                        old(self).preprocessing(),
                        step.event,
                    )
                    &&& step.preprocessed == match step.event {
                        Event::Chunk(id, _) => old(self).preprocessing().contains(id),
                        _ => true,
                    }
                    &&& step.event matches Event::Chunk(id, index) ==> {
                        &&& final(self).doc().clips@.contains_key(id)
                        &&& final(self).doc().clips@[id].chunks@.has(index as int)
                    }
                    &&& lists(
                        step.processors@,
                        Set::new(
                            |id: ProcessorInstanceId|
                                step.preprocessed && behind(old(self).places(), final(self).place(), id),
                        ),
                    )
                    &&& final(self).places() == caught_up(
                        old(self).places(),
                        final(self).place(),
                        step.preprocessed,
                    )
                },
            },
            stepped(*old(self), times@, *final(self), step),
    {
        let ghost before = self.cursor@;
        match self.cursor.advance(times, &self.document, &self.active_clips) {
            None => {
                proof {
                    step_is_about_a_clip(before, times@, self.document, self.active_clips@);
                    assert(self.cursor@ == before);
                    assert(self.places() == old(self).places());
                    assert(self.wf());
                }
                None
            },
            Some(event) => {
                proof {
                    self.step_stays_in_range(before, times@, event);
                    assert(self.places() == old(self).places());
                    assert forall|id: ProcessorInstanceId| #[trigger]
                        self.places().contains_key(id) implies self.places()[id].dom()
                        == self.document.clips@.dom() by {
                        assert(old(self).places().contains_key(id));
                    }
                }
                let preprocessed: bool = match event {
                    Event::ClipStart(id) => {
                        self.preprocessors.insert(id);
                        true
                    },
                    Event::ClipEnd(id) => {
                        self.preprocessors.remove(&id);
                        true
                    },
                    Event::Chunk(id, _) => self.preprocessors.contains(&id),
                };
                let processors = if preprocessed {
                    self.catch_up()
                } else {
                    Vec::new()
                };
                proof {
                    if !preprocessed {
                        assert(self.places() =~= caught_up(
                            old(self).places(),
                            self.place(),
                            preprocessed,
                        ));
                    }
                    assert forall|id: ProcessorInstanceId| #[trigger]
                        self.places().contains_key(id) implies self.places()[id].dom()
                        == self.doc().clips@.dom() by {
                        assert(old(self).places().contains_key(id));
                    }
                }
                Some(Step { event, preprocessed, processors })
            },
        }
    }

    /// Brings the processors that are behind to where the document has been processed.
    fn catch_up(&mut self) -> (processors: Vec<ProcessorInstanceId>)
        requires
            old(self).cursor@.dom() == old(self).document.clips@.dom(),
            forall|id: ProcessorInstanceId| #[trigger]
                old(self).places().contains_key(id) ==> old(self).places()[id].dom() == old(self).document.clips@.dom(),
        ensures
            final(self).document == old(self).document,
            final(self).active_clips == old(self).active_clips,
            final(self).cursor == old(self).cursor,
            final(self).preprocessors == old(self).preprocessors,
            lists(
                processors@,
                Set::new(
                    |id: ProcessorInstanceId|
                        behind(old(self).places(), old(self).cursor@, id),
                ),
            ),
            final(self).places() == caught_up(old(self).places(), old(self).cursor@, true),
    {
        let ids = sorted_keys(&self.processors);
        let mut processors: Vec<ProcessorInstanceId> = Vec::new();
        let ghost late = Set::new(
            |id: ProcessorInstanceId| behind(old(self).places(), old(self).cursor@, id),
        );
        let ghost place = self.cursor@;
        proof {
            all_are_taken(ids@, self.processors@.dom());
            assert(ids@.take(0).to_set().intersect(late) =~= Set::<ProcessorInstanceId>::empty());
            assert(lists(processors@, Set::<ProcessorInstanceId>::empty()));
            assert(self.places() =~= caught_up_among(
                self.places(),
                place,
                ids@.take(0).to_set(),
            ));
        }
        for i in 0..ids.len()
            invariant
                lists(ids@, old(self).processors@.dom()),
                self.document == old(self).document,
                self.active_clips == old(self).active_clips,
                self.cursor == old(self).cursor,
                self.preprocessors == old(self).preprocessors,
                place == self.cursor@,
                place.dom() == self.document.clips@.dom(),
                forall|id: ProcessorInstanceId| #[trigger]
                    old(self).places().contains_key(id) ==> old(self).places()[id].dom() == old(self).document.clips@.dom(),
                late == Set::new(
                    |id: ProcessorInstanceId| behind(old(self).places(), old(self).cursor@, id),
                ),
                lists(processors@, ids@.take(i as int).to_set().intersect(late)),
                self.places() == caught_up_among(
                    old(self).places(),
                    place,
                    ids@.take(i as int).to_set(),
                ),
        {
            let id: ProcessorInstanceId = ids[i];
            let ghost before = ids@.take(i as int).to_set();
            let ghost earlier = self.places();
            proof {
                next_is_taken(ids@, i as int);
                assert(ids@.contains(id));
                if before.contains(id) {
                    taken_are_below(ids@, i as int, id);
                }
                assert(old(self).places().contains_key(id));
                assert(self.places().contains_key(id));
                assert(self.places()[id] == old(self).places()[id]);
            }
            if self.processors.get(&id).unwrap().is_before(&self.cursor) {
                proof {
                    assert forall|m: ProcessorInstanceId| #[trigger]
                        before.intersect(late).contains(m) implies m < id by {
                        taken_are_below(ids@, i as int, m);
                    }
                    list_grows(processors@, before.intersect(late), id);
                    assert(before.insert(id).intersect(late) =~= before.intersect(late).insert(id));
                }
                processors.push(id);
                self.processors.insert(id, self.cursor.clone());
                assert(self.places() =~= earlier.insert(id, place));
            } else {
                assert(before.insert(id).intersect(late) =~= before.intersect(late));
            }
            assert(self.places() =~= caught_up_among(old(self).places(), place, before.insert(id)));
        }
        proof {
            all_are_taken(ids@, old(self).processors@.dom());
            assert(old(self).processors@.dom().intersect(late) =~= late);
            assert(self.places() =~= caught_up(old(self).places(), place, true));
        }
        processors
    }

    /// A step goes to a chunk that is there, and leaves the cursor at such a chunk.
    proof fn step_stays_in_range(
        &self,
        before: CursorModel,
        times: Map<ClipId, Double>,
        event: Event,
    )
        requires
            self.document.wf(),
            before.dom() == self.document.clips@.dom(),
            comparable(before.dom(), times),
            forall|id: ClipId| #[trigger]
                before.contains_key(id) ==> match before[id] {
                    ClipCursor::Index(index) => self.document.clips@[id].chunks@.start <= index,
                    _ => true,
                },
            (Some(event), self.cursor@) == next_step(
                before,
                times,
                self.document,
                self.active_clips@,
            ),
        ensures
            self.in_range(),
            self.cursor@.dom() == self.document.clips@.dom(),
            event matches Event::Chunk(id, index) ==> {
                &&& self.document.clips@.contains_key(id)
                &&& self.document.clips@[id].chunks@.has(index as int)
            },
    {
        let id = event_clip(event);
        step_is_about_a_clip(before, times, self.document, self.active_clips@);
        assert(self.document.clips@.contains_key(id));
        assert(self.document.clips@[id].wf());
        let chunks = self.document.clips@[id].chunks;
        ChunkedDeque::start_is_isize(&chunks);
        assert(self.cursor@.dom() =~= before.dom());
        assert forall|other: ClipId| #[trigger] self.place().contains_key(other) implies match self.place()[other] {
            ClipCursor::Index(index) => self.doc().clips@[other].chunks@.start <= index,
            _ => true,
        } by {
            assert(before.contains_key(other));
        }
    }

    /// Drops the processors that are gone.
    fn remove_processors(&mut self, removed: &Vec<ProcessorInstanceId>)
        ensures
            final(self).document == old(self).document,
            final(self).active_clips == old(self).active_clips,
            final(self).cursor == old(self).cursor,
            final(self).preprocessors == old(self).preprocessors,
            final(self).places() == without(old(self).places(), removed@),
    {
        proof {
            assert(removed@.take(0).to_set() =~= Set::<ProcessorInstanceId>::empty());
            assert(self.places() =~= without(self.places(), removed@.take(0)));
        }
        for i in 0..removed.len()
            invariant
                self.document == old(self).document,
                self.active_clips == old(self).active_clips,
                self.cursor == old(self).cursor,
                self.preprocessors == old(self).preprocessors,
                self.places() == without(old(self).places(), removed@.take(i as int)),
        {
            let ghost before = self.places();
            proof {
                next_is_taken(removed@, i as int);
            }
            self.processors.remove(&removed[i]);
            proof {
                assert(self.places() =~= before.remove(removed@[i as int]));
                assert(self.places() =~= without(old(self).places(), removed@.take(i + 1)));
            }
        }
        assert(removed@.take(removed@.len() as int) =~= removed@);
    }

    /// Whether everything has to be processed again when the document is changed.
    fn must_restart(
        &self,
        document: &Document,
        changes: &Vec<ClipChange>,
        cursor_times: &BTreeMap<ClipId, Double>,
        start_times: &BTreeMap<ClipId, Double>,
    ) -> (restart: bool)
        requires
            self.document.wf(),
            self.cursor@.dom() == self.document.clips@.dom(),
            document.wf(),
            changes_between(changes@, self.document, *document),
            comparable(deciding_clips(self.cursor@, *document), cursor_times@),
            forall|id: ClipId| #[trigger]
                document.clips@.contains_key(id) ==> start_times@.contains_key(id),
        ensures
            restart == update_restarts(
                self.cursor@,
                self.document,
                *document,
                changes@,
                cursor_times@,
                start_times@,
            ),
    {
        // Clips that are gone.
        let removed = keys_without(&self.document.clips, &document.clips);
        let mut deciding = self.cursor.clone();
        let mut restart: bool = false;
        let ghost place = self.cursor@;
        proof {
            assert(place.remove_keys(Set::empty()) =~= place);
            assert(removed@.take(0).to_set() =~= Set::<ClipId>::empty());
            assert(unstarted(place, removed@.take(0).to_set()) =~= Set::<ClipId>::empty());
        }
        for i in 0..removed.len()
            invariant
                place == self.cursor@,
                place.dom() == self.document.clips@.dom(),
                lists(removed@, self.document.clips@.dom().difference(document.clips@.dom())),
                deciding@ == place.remove_keys(
                    unstarted(place, removed@.take(i as int).to_set()),
                ),
                restart == exists|k: int|
                    0 <= k < i && place[#[trigger] removed@[k]] != ClipCursor::Before,
        {
            let id: ClipId = removed[i];
            let ghost before = removed@.take(i as int).to_set();
            proof {
                next_is_taken(removed@, i as int);
                assert(removed@.contains(id));
                assert(place.dom().contains(id));
            }
            if self.cursor.get(id) != ClipCursor::Before {
                restart = true;
                assert(unstarted(place, before.insert(id)) =~= unstarted(place, before));
                assert(place[removed@[i as int]] != ClipCursor::Before);
            } else {
                deciding.remove_clip(id);
                assert(unstarted(place, before.insert(id)) =~= unstarted(place, before).insert(id));
                assert(deciding@ =~= place.remove_keys(unstarted(place, before.insert(id))));
            }
        }
        proof {
            all_are_taken(
                removed@,
                self.document.clips@.dom().difference(document.clips@.dom()),
            );
            assert(deciding@.dom() =~= deciding_clips(place, *document));
            if exists|id: ClipId| #[trigger]
                self.document.clips@.contains_key(id) && !document.clips@.contains_key(id)
                    && place[id] != ClipCursor::Before {
                let id = choose|id: ClipId| #[trigger]
                    self.document.clips@.contains_key(id) && !document.clips@.contains_key(id)
                        && place[id] != ClipCursor::Before;
                assert(removed@.contains(id));
                let k = choose|k: int| 0 <= k < removed@.len() && removed@[k] == id;
                assert(place[removed@[k]] != ClipCursor::Before);
            }
            if restart {
                let k = choose|k: int|
                    0 <= k < removed@.len() && place[#[trigger] removed@[k]] != ClipCursor::Before;
                assert(removed@.contains(removed@[k]));
                assert(self.document.clips@.contains_key(removed@[k]));
            }
        }
        let ghost gone = restart;
        let time = deciding.time(cursor_times);
        if let Some(t) = time {
            // Clips that are changed.
            for i in 0..changes.len()
                invariant
                    place == self.cursor@,
                    place.dom() == self.document.clips@.dom(),
                    self.document.wf(),
                    document.wf(),
                    changes_between(changes@, self.document, *document),
                    forall|id: ClipId| #[trigger]
                        document.clips@.contains_key(id) ==> start_times@.contains_key(id),
                    restart == (gone || exists|k: int|
                        0 <= k < i && self.invalidated(
                            *document,
                            #[trigger] changes@[k],
                            t,
                            start_times@,
                        )),
            {
                let change: ClipChange = changes[i];
                let id: ClipId = change.clip_id;
                assert(changes@[i as int] == change);
                assert(place.dom().contains(id));
                let cursor = self.cursor.get(id);
                let old_clip = self.document.clips.get(&id).unwrap();
                let new_clip = document.clips.get(&id).unwrap();
                let start: Double = *start_times.get(&id).unwrap();
                let affects_history: bool = cursor != ClipCursor::Before || start.lt(t);
                let changed: bool = !new_clip.descriptor.frequency.eq(old_clip.descriptor.frequency)
                    || !new_clip.descriptor.sample_rate.eq(old_clip.descriptor.sample_rate)
                    || !new_clip.descriptor.reference_time.eq(old_clip.descriptor.reference_time)
                    || new_clip.descriptor.chunk_size != old_clip.descriptor.chunk_size;
                if affects_history && (changed || !change.continues || (cursor == ClipCursor::After
                    && new_clip.chunks.end_index() > old_clip.chunks.end_index())) {
                    restart = true;
                    assert(self.invalidated(*document, changes@[i as int], t, start_times@));
                } else {
                    assert(!self.invalidated(*document, changes@[i as int], t, start_times@));
                }
            }
            let ghost changed = restart;
            // Clips that are new.
            let added = keys_without(&document.clips, &self.document.clips);
            for i in 0..added.len()
                invariant
                    lists(added@, document.clips@.dom().difference(self.document.clips@.dom())),
                    forall|id: ClipId| #[trigger]
                        document.clips@.contains_key(id) ==> start_times@.contains_key(id),
                    restart == (changed || exists|k: int|
                        0 <= k < i && start_times@[#[trigger] added@[k]].below(t)),
            {
                let id: ClipId = added[i];
                assert(added@.contains(id));
                assert(document.clips@.contains_key(id));
                if start_times.get(&id).unwrap().lt(t) {
                    restart = true;
                    assert(start_times@[added@[i as int]].below(t));
                }
            }
            proof {
                if exists|k: int| 0 <= k < added@.len() && start_times@[#[trigger] added@[k]].below(t) {
                    let k = choose|k: int|
                        0 <= k < added@.len() && start_times@[#[trigger] added@[k]].below(t);
                    assert(added@.contains(added@[k]));
                    assert(document.clips@.contains_key(added@[k]));
                }
                if exists|id: ClipId| #[trigger]
                    document.clips@.contains_key(id) && !self.document.clips@.contains_key(id)
                        && start_times@[id].below(t) {
                    let id = choose|id: ClipId| #[trigger]
                        document.clips@.contains_key(id) && !self.document.clips@.contains_key(id)
                            && start_times@[id].below(t);
                    assert(added@.contains(id));
                    let k = choose|k: int| 0 <= k < added@.len() && added@[k] == id;
                    assert(start_times@[added@[k]].below(t));
                }
                assert(time == cursor_time(deciding_clips(place, *document), cursor_times@));
                assert(changed == (gone || exists|k: int|
                    0 <= k < changes@.len() && self.invalidated(
                        *document,
                        #[trigger] changes@[k],
                        t,
                        start_times@,
                    )));
            }
        }
        restart
    }

    /// Whether a change makes what was processed before `time` invalid.
    spec fn invalidated(
        &self,
        document: Document,
        change: ClipChange,
        time: Double,
        start_times: Map<ClipId, Double>,
    ) -> bool {
        let id = change.clip_id;
        change_invalidates(
            *self.document.clips@[id],
            *document.clips@[id],
            self.cursor@[id],
            time,
            start_times[id],
            change.continues,
        )
    }
}

/// Of some clips, those that have not been started.
spec fn unstarted(cursor: CursorModel, clips: Set<ClipId>) -> Set<ClipId> {
    clips.filter(|id: ClipId| cursor[id] == ClipCursor::Before)
}

/// The cursors of processors with those of new ones, which are at the start.
pub open spec fn with_started(
    places: Map<ProcessorInstanceId, CursorModel>,
    new: Seq<ProcessorInstanceId>,
    clips: Set<ClipId>,
) -> Map<ProcessorInstanceId, CursorModel> {
    Map::new(
        |id: ProcessorInstanceId| places.contains_key(id) || new.to_set().contains(id),
        |id: ProcessorInstanceId|
            if new.to_set().contains(id) {
                at_start(clips)
            } else {
                places[id]
            },
    )
}

/// Whether chunks that come next are gone from a clip that was changed.
spec fn lost_ahead(cursor: CursorModel, new: Document, change: ClipChange) -> bool {
    match cursor[change.clip_id] {
        ClipCursor::Before => true,
        ClipCursor::Index(index) => index < new.clips@[change.clip_id].chunks@.start,
        ClipCursor::After => false,
    }
}

/// Whether a list of changes holds every clip that differs.
pub open spec fn lists_all_changes(
    changes: Seq<ClipChange>,
    old: Document,
    new: Document,
) -> bool {
    forall|id: ClipId|
        old.clips@.contains_key(id) && new.clips@.contains_key(id) && old.clips@[id]
            != new.clips@[id] ==> #[trigger] change_ids(changes).contains(id)
}

/// Whether a processor has not got as far as the document has been processed.
pub open spec fn behind(
    places: Map<ProcessorInstanceId, CursorModel>,
    place: CursorModel,
    id: ProcessorInstanceId,
) -> bool {
    places.contains_key(id) && is_behind(places[id], place)
}

/// The cursors of processors once those that were behind have caught up.
pub open spec fn caught_up(
    places: Map<ProcessorInstanceId, CursorModel>,
    place: CursorModel,
    catching_up: bool,
) -> Map<ProcessorInstanceId, CursorModel> {
    places.map_values(
        |cursor: CursorModel|
            if catching_up && is_behind(cursor, place) {
                place
            } else {
                cursor
            },
    )
}

/// As [`caught_up`], for some of the processors.
spec fn caught_up_among(
    places: Map<ProcessorInstanceId, CursorModel>,
    place: CursorModel,
    some: Set<ProcessorInstanceId>,
) -> Map<ProcessorInstanceId, CursorModel> {
    Map::new(
        |id: ProcessorInstanceId| places.contains_key(id),
        |id: ProcessorInstanceId|
            if some.contains(id) && is_behind(places[id], place) {
                place
            } else {
                places[id]
            },
    )
}

/// A cursor for a new version of a document.
pub open spec fn moved_cursor(
    cursor: CursorModel,
    clips: Set<ClipId>,
    restart: bool,
) -> CursorModel {
    if restart {
        at_start(clips)
    } else {
        adapted(cursor, clips)
    }
}

/// The cursors of processors for a new version of a document.
pub open spec fn moved(
    places: Map<ProcessorInstanceId, CursorModel>,
    clips: Set<ClipId>,
    restart: bool,
) -> Map<ProcessorInstanceId, CursorModel> {
    places.map_values(|cursor: CursorModel| moved_cursor(cursor, clips, restart))
}

/// Whether a state took up a new version of a document, and whether everything has to be
/// processed again for it.
pub open spec fn took_up(
    before: ProcessingState,
    update: DocumentUpdate,
    changes: Seq<ClipChange>,
    cursor_times: Map<ClipId, Double>,
    start_times: Map<ClipId, Double>,
    after: ProcessingState,
    restarted: bool,
) -> bool {
    let clips = update.document.clips@.dom();
    &&& restarted == update_restarts(
        before.place(),
        before.doc(),
        update.document,
        changes,
        cursor_times,
        start_times,
    )
    &&& after.doc() == update.document
    &&& after.active() == update.active_clips@
    &&& after.place() == if update.new_processors@.len() > 0 {
        at_start(clips)
    } else {
        moved_cursor(before.place(), clips, restarted)
    }
    &&& after.places() == with_started(
        moved(without(before.places(), update.removed_processors@), clips, restarted),
        update.new_processors@,
        clips,
    )
    &&& after.preprocessing() == before.preprocessing()
}

/// Whether a state took up a version of a document of which something has expired, and
/// whether everything has to be processed again for it.
pub open spec fn took_up_expiry(
    before: ProcessingState,
    document: Document,
    changes: Seq<ClipChange>,
    after: ProcessingState,
    restarted: bool,
) -> bool {
    let clips = document.clips@.dom();
    &&& restarted == expiry_restarts(before.place(), before.doc(), document, changes)
    &&& after.doc() == document
    &&& after.active() == before.active()
    &&& after.place() == moved_cursor(before.place(), clips, restarted)
    &&& after.places() == moved(before.places(), clips, restarted)
    &&& after.preprocessing() == before.preprocessing()
}

/// Whether no clip of a state has been started, by anyone.
pub open spec fn nothing_is_started(state: ProcessingState) -> bool {
    &&& forall|id: ClipId| #[trigger]
        state.place().contains_key(id) ==> state.place()[id] is Before
    &&& forall|processor: ProcessorInstanceId, id: ClipId|
        state.places().contains_key(processor) && #[trigger] state.places()[processor].contains_key(
            id,
        ) ==> state.places()[processor][id] is Before
}

/// Where a clip that was started is deleted, everything is processed again, and nothing is
/// left of how far anyone had got.
pub proof fn deleting_a_started_clip_starts_over(
    before: ProcessingState,
    update: DocumentUpdate,
    changes: Seq<ClipChange>,
    cursor_times: Map<ClipId, Double>,
    start_times: Map<ClipId, Double>,
    after: ProcessingState,
    restarted: bool,
    deleted: ClipId,
)
    requires
        took_up(before, update, changes, cursor_times, start_times, after, restarted),
        before.doc().clips@.contains_key(deleted),
        !update.document.clips@.contains_key(deleted),
        !(before.place()[deleted] is Before),
    ensures
        restarted,
        nothing_is_started(after),
        after.place().dom() == update.document.clips@.dom(),
{
    assert(after.place().dom() =~= update.document.clips@.dom());
}

/// Where a clip that was started is changed in what it is, or does not go on from what it
/// was, or goes on after it was ended, everything is processed again.
pub proof fn changing_a_started_clip_starts_over(
    before: ProcessingState,
    update: DocumentUpdate,
    changes: Seq<ClipChange>,
    cursor_times: Map<ClipId, Double>,
    start_times: Map<ClipId, Double>,
    after: ProcessingState,
    restarted: bool,
    i: int,
)
    requires
        before.wf(),
        changes_between(changes, before.doc(), update.document),
        took_up(before, update, changes, cursor_times, start_times, after, restarted),
        0 <= i < changes.len(),
        !(before.place()[changes[i].clip_id] is Before),
        ({
            let old_clip = before.doc().clips@[changes[i].clip_id];
            let new_clip = update.document.clips@[changes[i].clip_id];
            ||| !changes[i].continues
            ||| !new_clip.descriptor.frequency.same(old_clip.descriptor.frequency)
            ||| !new_clip.descriptor.sample_rate.same(old_clip.descriptor.sample_rate)
            ||| !new_clip.descriptor.reference_time.same(old_clip.descriptor.reference_time)
            ||| new_clip.descriptor.chunk_size != old_clip.descriptor.chunk_size
            ||| before.place()[changes[i].clip_id] is After && new_clip.chunks@.end()
                > old_clip.chunks@.end()
        }),
    ensures
        restarted,
        nothing_is_started(after),
{
    let id = changes[i].clip_id;
    assert(before.doc().clips@.contains_key(id));
    assert(before.place().dom().contains(id));
    assert(deciding_clips(before.place(), update.document).contains(id));
}

/// Where a clip comes to start before everything that was processed, everything is processed
/// again: a clip that is added, or one that was not started and is no longer what it was.
pub proof fn a_clip_that_comes_earlier_starts_over(
    before: ProcessingState,
    update: DocumentUpdate,
    changes: Seq<ClipChange>,
    cursor_times: Map<ClipId, Double>,
    start_times: Map<ClipId, Double>,
    after: ProcessingState,
    restarted: bool,
    earlier: ClipId,
    later: ClipId,
)
    requires
        before.wf(),
        changes_between(changes, before.doc(), update.document),
        comparable(deciding_clips(before.place(), update.document), cursor_times),
        took_up(before, update, changes, cursor_times, start_times, after, restarted),
        update.document.clips@.contains_key(earlier),
        ({
            ||| !before.doc().clips@.contains_key(earlier)
            ||| exists|i: int|
                0 <= i < changes.len() && (#[trigger] changes[i]).clip_id == earlier
                    && !changes[i].continues
        }),
        before.doc().clips@.contains_key(later),
        update.document.clips@.contains_key(later),
        forall|id: ClipId| #[trigger]
            before.doc().clips@.contains_key(id) ==> start_times[earlier].below(cursor_times[id]),
    ensures
        restarted,
        nothing_is_started(after),
{
    let clips = deciding_clips(before.place(), update.document);
    assert(before.place().dom().contains(later));
    assert(clips.contains(later));
    assert(clips.subset_of(before.place().dom()));
    vstd::set_lib::lemma_set_subset_finite(before.doc().clips@.dom(), clips);
    crate::analysis::cursor_time_is_the_earliest(clips, cursor_times);
    let first = crate::analysis::first_clip(clips, cursor_times);
    assert(before.place().dom().contains(first));
    assert(before.doc().clips@.contains_key(first));
    if before.doc().clips@.contains_key(earlier) {
        let i = choose|i: int|
            0 <= i < changes.len() && (#[trigger] changes[i]).clip_id == earlier
                && !changes[i].continues;
        assert(changes[i].clip_id == earlier);
    }
}

/// Nothing is processed again without a reason. Where only clips that were not started are
/// deleted, where clips are changed only by going on, or change before they are started and
/// start no earlier than some clip has been processed to, and where clips are added that start
/// no earlier either, every cursor stays where it was. Added clips are not started.
pub proof fn otherwise_everything_goes_on(
    before: ProcessingState,
    update: DocumentUpdate,
    changes: Seq<ClipChange>,
    cursor_times: Map<ClipId, Double>,
    start_times: Map<ClipId, Double>,
    after: ProcessingState,
    restarted: bool,
    reached: ClipId,
)
    requires
        before.wf(),
        changes_between(changes, before.doc(), update.document),
        comparable(deciding_clips(before.place(), update.document), cursor_times),
        took_up(before, update, changes, cursor_times, start_times, after, restarted),
        before.doc().clips@.contains_key(reached) && update.document.clips@.contains_key(reached),
        forall|id: ClipId| #[trigger]
            before.doc().clips@.contains_key(id) && !update.document.clips@.contains_key(id)
                ==> before.place()[id] is Before,
        forall|i: int|
            0 <= i < changes.len() ==> {
                let id = (#[trigger] changes[i]).clip_id;
                let old_clip = before.doc().clips@[id];
                let new_clip = update.document.clips@[id];
                ||| before.place()[id] is Before && !start_times[id].below(cursor_times[reached])
                    && !start_times[id].is_nan()
                ||| {
                    &&& changes[i].continues
                    &&& new_clip.descriptor.frequency.same(old_clip.descriptor.frequency)
                    &&& new_clip.descriptor.sample_rate.same(old_clip.descriptor.sample_rate)
                    &&& new_clip.descriptor.reference_time.same(old_clip.descriptor.reference_time)
                    &&& new_clip.descriptor.chunk_size == old_clip.descriptor.chunk_size
                    &&& before.place()[id] is After ==> new_clip.chunks@.end()
                        <= old_clip.chunks@.end()
                }
            },
        forall|id: ClipId| #[trigger]
            update.document.clips@.contains_key(id) && !before.doc().clips@.contains_key(id)
                ==> !start_times[id].below(cursor_times[reached]) && !start_times[id].is_nan(),
    ensures
        !restarted,
        update.new_processors@.len() == 0 ==> forall|id: ClipId| #[trigger]
            update.document.clips@.contains_key(id) ==> after.place().contains_key(id)
                && if before.doc().clips@.contains_key(id) {
                after.place()[id] == before.place()[id]
            } else {
                after.place()[id] is Before
            },
        forall|processor: ProcessorInstanceId, id: ClipId|
            #![trigger after.places()[processor][id]]
            before.places().contains_key(processor) && !update.removed_processors@.contains(
                processor,
            ) && !update.new_processors@.contains(processor)
                && update.document.clips@.contains_key(id) ==> {
                &&& after.places().contains_key(processor)
                &&& if before.doc().clips@.contains_key(id) {
                    after.places()[processor][id] == before.places()[processor][id]
                } else {
                    after.places()[processor][id] is Before
                }
            },
{
    let clips = deciding_clips(before.place(), update.document);
    assert(before.place().dom().contains(reached));
    assert(clips.contains(reached));
    assert(clips.subset_of(before.place().dom()));
    vstd::set_lib::lemma_set_subset_finite(before.doc().clips@.dom(), clips);
    crate::analysis::cursor_time_is_the_earliest(clips, cursor_times);
    let time = cursor_time(clips, cursor_times)->0;
    assert forall|start: Double| !start.below(cursor_times[reached]) && !start.is_nan() implies !(
    #[trigger] start.below(time)) by {
        let first = crate::analysis::first_clip(clips, cursor_times);
        if first != reached {
            assert(clips.contains(first) && clips.contains(reached));
        }
    }
    assert forall|id: ClipId| #[trigger] update.document.clips@.contains_key(id) implies (
    before.doc().clips@.contains_key(id) <==> before.place().contains_key(id)) by {
        assert(before.doc().clips@.dom().contains(id) <==> before.place().dom().contains(id));
    }
    assert forall|processor: ProcessorInstanceId, id: ClipId|
        #![trigger after.places()[processor][id]]
        before.places().contains_key(processor) && !update.removed_processors@.contains(processor)
            && !update.new_processors@.contains(processor) && update.document.clips@.contains_key(id)
         implies {
        &&& after.places().contains_key(processor)
        &&& if before.doc().clips@.contains_key(id) {
            after.places()[processor][id] == before.places()[processor][id]
        } else {
            after.places()[processor][id] is Before
        }
    } by {
        assert(before.doc().clips@.dom().contains(id) <==> before.places()[processor].dom().contains(id));
        assert(without(before.places(), update.removed_processors@).contains_key(processor));
    }
}

/// The processors after an update are those that were there and were not removed, and the new
/// ones. The new ones have started no clip; where there are any, everything is gone through
/// again from the start, for their sake.
pub proof fn processors_come_and_go(
    before: ProcessingState,
    update: DocumentUpdate,
    changes: Seq<ClipChange>,
    cursor_times: Map<ClipId, Double>,
    start_times: Map<ClipId, Double>,
    after: ProcessingState,
    restarted: bool,
)
    requires
        took_up(before, update, changes, cursor_times, start_times, after, restarted),
    ensures
        forall|id: ProcessorInstanceId| #[trigger]
            after.places().contains_key(id) <==> update.new_processors@.contains(id) || (
            before.places().contains_key(id) && !update.removed_processors@.contains(id)),
        forall|id: ProcessorInstanceId, clip: ClipId|
            update.new_processors@.contains(id) && update.document.clips@.contains_key(clip)
                ==> #[trigger] after.places()[id].contains_key(clip)
                && after.places()[id][clip] is Before,
        update.new_processors@.len() > 0 ==> forall|clip: ClipId| #[trigger]
            update.document.clips@.contains_key(clip) ==> after.place().contains_key(clip)
                && after.place()[clip] is Before,
        after.doc() == update.document,
        after.active() == update.active_clips@,
{
    assert forall|id: ProcessorInstanceId| update.removed_processors@.to_set().contains(id)
        == update.removed_processors@.contains(id) by {}
    assert forall|id: ProcessorInstanceId| update.new_processors@.to_set().contains(id)
        == update.new_processors@.contains(id) by {}
}

/// Where only what was processed has expired, nothing is processed again, and every cursor
/// stays where it was: every clip that is gone was ended, and of every clip that has changed
/// the chunk that comes next is still there, or none was to come.
pub proof fn expiry_of_what_was_processed_goes_unnoticed(
    before: ProcessingState,
    document: Document,
    changes: Seq<ClipChange>,
    after: ProcessingState,
    restarted: bool,
)
    requires
        before.wf(),
        document.clips@.dom().subset_of(before.doc().clips@.dom()),
        took_up_expiry(before, document, changes, after, restarted),
        forall|id: ClipId| #[trigger]
            before.doc().clips@.contains_key(id) && !document.clips@.contains_key(id)
                ==> before.place()[id] is After,
        forall|i: int|
            0 <= i < changes.len() ==> {
                ||| before.place()[(#[trigger] changes[i]).clip_id] is After
                ||| exists|next: isize|
                    before.place()[changes[i].clip_id] == ClipCursor::Index(next)
                        && #[trigger] is_at_or_after(next, document.clips@[changes[i].clip_id])
            },
    ensures
        !restarted,
        forall|id: ClipId| #[trigger]
            document.clips@.contains_key(id) ==> after.place().contains_key(id)
                && after.place()[id] == before.place()[id],
        forall|processor: ProcessorInstanceId, id: ClipId|
            #![trigger after.places()[processor][id]]
            before.places().contains_key(processor) && document.clips@.contains_key(id)
                ==> after.places().contains_key(processor) && after.places()[processor][id]
                == before.places()[processor][id],
        after.doc() == document,
{
    assert forall|id: ClipId| #[trigger] document.clips@.contains_key(id) implies before.place().contains_key(
        id,
    ) by {
        assert(document.clips@.dom().contains(id));
        assert(before.doc().clips@.dom().contains(id));
    }
    assert forall|processor: ProcessorInstanceId, id: ClipId|
        #![trigger after.places()[processor][id]]
        before.places().contains_key(processor) && document.clips@.contains_key(id) implies {
        &&& after.places().contains_key(processor)
        &&& after.places()[processor][id] == before.places()[processor][id]
    } by {
        assert(document.clips@.dom().contains(id));
        assert(before.doc().clips@.dom().contains(id));
        assert(before.places()[processor].dom().contains(id));
    }
}

/// Whether a chunk is not numbered below the first one of a clip.
pub open spec fn is_at_or_after(next: isize, clip: Arc<Clip>) -> bool {
    clip.chunks@.start <= next
}

/// Where something has expired that was still to be processed, everything is processed again:
/// where a clip is gone that was not ended, where a clip has changed that was not started, or
/// where the chunk that comes next is gone.
pub proof fn expiry_of_what_comes_next_starts_over(
    before: ProcessingState,
    document: Document,
    changes: Seq<ClipChange>,
    after: ProcessingState,
    restarted: bool,
    id: ClipId,
)
    requires
        before.wf(),
        changes_between(changes, before.doc(), document),
        took_up_expiry(before, document, changes, after, restarted),
        before.doc().clips@.contains_key(id),
        !(before.place()[id] is After),
        ({
            ||| !document.clips@.contains_key(id)
            ||| change_ids(changes).contains(id) && (before.place()[id] matches ClipCursor::Index(
                next,
            ) ==> next < document.clips@[id].chunks@.start)
        }),
    ensures
        restarted,
        nothing_is_started(after),
        after.place().dom() == document.clips@.dom(),
{
    assert(after.place().dom() =~= document.clips@.dom());
    if document.clips@.contains_key(id) {
        let i = choose|i: int| 0 <= i < changes.len() && change_ids(changes)[i] == id;
        assert(changes[i].clip_id == id);
    }
}

/// Whether a state went on to what comes next, and whether that is what is said of it.
pub open spec fn stepped(
    before: ProcessingState,
    times: Map<ClipId, Double>,
    after: ProcessingState,
    step: Option<Step>,
) -> bool {
    let (event, place) = next_step(before.place(), times, before.doc(), before.active());
    &&& after.doc() == before.doc()
    &&& after.active() == before.active()
    &&& after.place() == place
    &&& match step {
        None => {
            &&& event is None
            &&& after.places() == before.places()
            &&& after.preprocessing() == before.preprocessing()
        },
        Some(step) => {
            &&& event == Some(step.event)
            &&& after.preprocessing() == preprocessing_after(before.preprocessing(), step.event)
            &&& step.preprocessed == match step.event {
                Event::Chunk(id, _) => before.preprocessing().contains(id),
                _ => true,
            }
            &&& lists(
                step.processors@,
                Set::new(
                    |id: ProcessorInstanceId|
                        step.preprocessed && behind(before.places(), after.place(), id),
                ),
            )
            &&& after.places() == caught_up(before.places(), after.place(), step.preprocessed)
        },
    }
}

/// A step is for the processors that are behind in some clip, and they are where the document
/// has been processed to then. The others stay where they are. The samples of a clip are
/// preprocessed from its start to its end; chunks of a clip that was not started so are passed
/// over, and nobody gets any further by them.
pub proof fn processors_that_are_behind_catch_up(
    before: ProcessingState,
    times: Map<ClipId, Double>,
    after: ProcessingState,
    step: Step,
)
    requires
        before.wf(),
        after.place().dom() == before.place().dom(),
        stepped(before, times, after, Some(step)),
    ensures
        forall|id: ProcessorInstanceId| #[trigger]
            step.processors@.contains(id) <==> step.preprocessed && before.places().contains_key(id)
                && exists|clip: ClipId| #[trigger]
                before.doc().clips@.contains_key(clip) && before.places()[id][clip].precedes(
                    after.place()[clip],
                ),
        forall|id: ProcessorInstanceId| #[trigger]
            before.places().contains_key(id) ==> after.places().contains_key(id)
                && after.places()[id] == if step.processors@.contains(id) {
                after.place()
            } else {
                before.places()[id]
            },
        forall|id: ProcessorInstanceId| #[trigger]
            after.places().contains_key(id) ==> before.places().contains_key(id),
        step.event matches Event::ClipStart(id) ==> step.preprocessed && forall|clip: ClipId|
            #[trigger] after.preprocessing().contains(clip) <==> clip == id
                || before.preprocessing().contains(clip),
        step.event matches Event::ClipEnd(id) ==> step.preprocessed && forall|clip: ClipId|
            #[trigger] after.preprocessing().contains(clip) <==> clip != id
                && before.preprocessing().contains(clip),
        step.event matches Event::Chunk(id, _) ==> {
            &&& step.preprocessed == before.preprocessing().contains(id)
            &&& after.preprocessing() == before.preprocessing()
        },
{
    assert forall|id: ProcessorInstanceId| #[trigger]
        step.processors@.contains(id) <==> step.preprocessed && before.places().contains_key(id)
            && exists|clip: ClipId| #[trigger]
            before.doc().clips@.contains_key(clip) && before.places()[id][clip].precedes(
                after.place()[clip],
            ) by {
        if before.places().contains_key(id) {
            assert(before.places()[id].dom() == before.doc().clips@.dom());
            if is_behind(before.places()[id], after.place()) {
                let clip = choose|clip: ClipId| #[trigger]
                    before.places()[id].contains_key(clip) && before.places()[id][clip].precedes(
                        after.place()[clip],
                    );
                assert(before.doc().clips@.dom().contains(clip));
                assert(before.doc().clips@.contains_key(clip));
            }
            if exists|clip: ClipId| #[trigger]
                before.doc().clips@.contains_key(clip) && before.places()[id][clip].precedes(
                    after.place()[clip],
                ) {
                let clip = choose|clip: ClipId| #[trigger]
                    before.doc().clips@.contains_key(clip) && before.places()[id][clip].precedes(
                        after.place()[clip],
                    );
                assert(before.doc().clips@.dom().contains(clip));
                assert(before.places()[id].contains_key(clip));
            }
        }
    }
}

/// What is taken up of a document is the document, and the clips that are active where those are
/// told. Going on changes neither. Which clips are being preprocessed changes only by going on.
pub proof fn the_document_is_taken_up(
    before: ProcessingState,
    update: DocumentUpdate,
    changes: Seq<ClipChange>,
    cursor_times: Map<ClipId, Double>,
    start_times: Map<ClipId, Double>,
    document: Document,
    updated: ProcessingState,
    expired: ProcessingState,
    after: ProcessingState,
    restarted: bool,
    expiry_restarted: bool,
    step: Option<Step>,
)
    requires
        took_up(before, update, changes, cursor_times, start_times, updated, restarted),
        took_up_expiry(before, document, changes, expired, expiry_restarted),
        stepped(before, start_times, after, step),
    ensures
        updated.doc() == update.document,
        updated.active() == update.active_clips@,
        updated.preprocessing() == before.preprocessing(),
        expired.doc() == document,
        expired.active() == before.active(),
        expired.preprocessing() == before.preprocessing(),
        after.doc() == before.doc(),
        after.active() == before.active(),
        step is None ==> after.places() == before.places() && after.preprocessing()
            == before.preprocessing(),
        step matches Some(step) ==> match step.event {
            Event::ClipStart(id) => after.preprocessing() == before.preprocessing().insert(id),
            Event::Chunk(id, _) => after.preprocessing() == before.preprocessing(),
            Event::ClipEnd(id) => after.preprocessing() == before.preprocessing().remove(id),
        },
{
}

/// Chunks that begin before others, behind them or end before them do not continue them. Those that
/// do none of this continue them but for chunks in both that can be told apart.
pub proof fn what_is_not_continued(newer: IndexedSeq<Chunk>, older: IndexedSeq<Chunk>, k: int)
    ensures
        newer.start < older.start ==> not_continued(newer, older),
        newer.start >= older.end() ==> not_continued(newer, older),
        newer.end() < older.end() ==> not_continued(newer, older),
        newer.has(k) && older.has(k) && may_differ(newer.at(k), older.at(k)) ==> not_continued(
            newer,
            older,
        ),
        newer.start >= older.start && newer.start < older.end() && newer.end() >= older.end()
            && not_continued(newer, older) ==> exists|i: int|
            newer.has(i) && older.has(i) && may_differ(#[trigger] newer.at(i), older.at(i)),
{
    if newer.start >= older.start && newer.start < older.end() && newer.end() >= older.end()
        && not_continued(newer, older) {
        let i = choose|i: int|
            newer.start <= i < older.end() && may_differ(#[trigger] newer.at(i), older.at(i));
        assert(newer.has(i) && older.has(i));
    }
}

/// What is known of a clip has changed where its frequency, its sample rate, its reference time or
/// its chunk size has. Its name does not matter.
pub proof fn names_do_not_matter(old: Clip, new: Clip)
    ensures
        !new.descriptor.frequency.same(old.descriptor.frequency) ==> descriptor_changed(old, new),
        !new.descriptor.sample_rate.same(old.descriptor.sample_rate) ==> descriptor_changed(
            old,
            new,
        ),
        !new.descriptor.reference_time.same(old.descriptor.reference_time) ==> descriptor_changed(
            old,
            new,
        ),
        new.descriptor.chunk_size != old.descriptor.chunk_size ==> descriptor_changed(old, new),
        new.descriptor.frequency.same(old.descriptor.frequency) && new.descriptor.sample_rate.same(
            old.descriptor.sample_rate,
        ) && new.descriptor.reference_time.same(old.descriptor.reference_time)
            && new.descriptor.chunk_size == old.descriptor.chunk_size ==> !descriptor_changed(
            old,
            new,
        ),
{
}

} // verus!
