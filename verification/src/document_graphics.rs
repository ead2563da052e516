//! The waterfalls of all clips of a document, and which of the clips are selected.

use std::collections::{BTreeMap, BTreeSet};

use crate::canvas::filtered_in_order;
use crate::clip_graphics::{ClipGraphics, GraphicsModel, SEGMENT_HEIGHT};
use crate::document::{Clip, ClipId, Document};
use crate::indexed::extends;
use crate::maps::{all_are_taken, increasing, keys_without, lists, next_is_taken, sorted_keys};
use crate::processing::{change_ids, changes_between, ClipChange};
use crate::textures::{fits_a_buffer, BLANK_TEXTURE, TextureCommand};
use vstd::prelude::*;

verus! {

/// Chunks of a clip that its waterfall does not show yet.
#[derive(Clone, Copy, Debug, PartialEq, Eq, Structural)]
pub struct ClipWork {
    pub clip_id: ClipId,
    pub start_index: isize,
    pub end_index: isize,
}

/// What follows from a new version of the document.
pub struct GraphicsUpdate {
    /// The clips whose waterfalls begin anew.
    pub reset: Vec<ClipId>,
    pub work: Vec<ClipWork>,
}

/// The change to a clip, if it is among the changes.
pub open spec fn change_of(changes: Seq<ClipChange>, id: ClipId) -> Option<ClipChange> {
    if change_ids(changes).contains(id) {
        Some(changes[change_ids(changes).index_of(id)])
    } else {
        None
    }
}

/// Whether `changes` holds all clips that differ between two versions of a document, and
/// says of none that it was continued where it was not.
pub open spec fn all_changes(changes: Seq<ClipChange>, old: Document, new: Document) -> bool {
    &&& increasing(change_ids(changes))
    &&& changes_between(changes, old, new)
    &&& forall|i: int|
        0 <= i < changes.len() && (#[trigger] changes[i]).continues ==> extends(
            new.clips@[changes[i].clip_id].chunks@,
            old.clips@[changes[i].clip_id].chunks@,
        )
    &&& forall|id: ClipId|
        old.clips@.contains_key(id) && new.clips@.contains_key(id) && old.clips@[id]
            != new.clips@[id] ==> #[trigger] change_ids(changes).contains(id)
}

/// Whether the waterfall of a clip has to begin anew: its rows would be other ones, or
/// rows follow after the last one was taken to be there.
pub open spec fn begins_anew(
    graphics: GraphicsModel,
    old: Clip,
    new: Clip,
    continues: bool,
) -> bool {
    ||| !new.descriptor.sample_rate.same(old.descriptor.sample_rate)
    ||| new.descriptor.chunk_size != old.descriptor.chunk_size
    ||| !continues
    ||| !graphics.active && new.chunks@.end() > graphics.end
}

/// A waterfall of a clip without any rows yet.
pub open spec fn fresh_graphics(clip: Clip, fft_size: u32) -> GraphicsModel {
    GraphicsModel::fresh(clip.descriptor, clip.chunks@.start, fft_size)
}

/// The waterfall of a clip of the new version of a document, before rows are added.
pub open spec fn updated_graphics(
    graphics: Map<ClipId, GraphicsModel>,
    old: Document,
    new: Document,
    changes: Seq<ClipChange>,
    fft_sizes: Map<ClipId, u32>,
    id: ClipId,
) -> GraphicsModel {
    if !old.clips@.contains_key(id) {
        fresh_graphics(*new.clips@[id], fft_sizes[id])
    } else {
        match change_of(changes, id) {
            Some(change) => if begins_anew(
                graphics[id],
                *old.clips@[id],
                *new.clips@[id],
                change.continues,
            ) {
                fresh_graphics(*new.clips@[id], fft_sizes[id])
            } else {
                GraphicsModel { descriptor: new.clips@[id].descriptor, ..graphics[id] }
            },
            None => graphics[id],
        }
    }
}

/// The numbers that are in a set, in the order that they had.
pub open spec fn those_in(order: Seq<ClipId>, ids: Set<ClipId>) -> Seq<ClipId> {
    order.filter(|id: ClipId| ids.contains(id))
}

/// What is left of a list without repetitions.
proof fn those_in_is_in_order(order: Seq<ClipId>, ids: Set<ClipId>)
    requires
        order.no_duplicates(),
    ensures
        those_in(order, ids).no_duplicates(),
        forall|id: ClipId| #[trigger]
            those_in(order, ids).contains(id) <==> order.contains(id) && ids.contains(id),
    decreases order.len(),
{
    reveal(Seq::filter);
    if order.len() > 0 {
        let rest = order.drop_last();
        those_in_is_in_order(rest, ids);
        let less = those_in(rest, ids);
        let more = those_in(order, ids);
        assert(order =~= rest.push(order.last()));
        assert forall|id: ClipId| order.contains(id) <==> rest.contains(id) || id
            == order.last() by {
            if rest.contains(id) {
                let j = choose|j: int| 0 <= j < rest.len() && rest[j] == id;
                assert(order[j] == id);
            }
            if order.contains(id) && id != order.last() {
                let j = choose|j: int| 0 <= j < order.len() && order[j] == id;
                assert(rest[j] == id);
            }
            assert(order[order.len() - 1] == order.last());
        }
        if rest.contains(order.last()) {
            let j = choose|j: int| 0 <= j < rest.len() && rest[j] == order.last();
            assert(order[j] == order[order.len() - 1]);
        }
        if ids.contains(order.last()) {
            assert(more =~= less.push(order.last()));
            assert(!less.contains(order.last()));
            assert forall|j: int, k: int|
                0 <= j < more.len() && 0 <= k < more.len() && j != k implies more[j] != more[k] by {
                if j < less.len() {
                    assert(more[j] == less[j]);
                    assert(less.contains(less[j]));
                }
                if k < less.len() {
                    assert(more[k] == less[k]);
                    assert(less.contains(less[k]));
                }
            }
            assert forall|id: ClipId| #[trigger] more.contains(id) <==> less.contains(id) || id
                == order.last() by {
                if less.contains(id) {
                    let j = choose|j: int| 0 <= j < less.len() && less[j] == id;
                    assert(more[j] == id);
                }
                assert(more[more.len() - 1] == order.last());
            }
        }
    }
}

/// The change to a clip among one change more.
proof fn next_change(changes: Seq<ClipChange>, count: int, id: ClipId)
    requires
        increasing(change_ids(changes)),
        0 <= count < changes.len(),
    ensures
        change_of(changes.take(count + 1), id) == if changes[count].clip_id == id {
            Some(changes[count])
        } else {
            change_of(changes.take(count), id)
        },
        changes[count].clip_id == id ==> change_of(changes.take(count), id) is None,
{
    let more = changes.take(count + 1);
    let less = changes.take(count);
    let more_ids = change_ids(more);
    let less_ids = change_ids(less);
    let all = change_ids(changes);
    assert(forall|k: int| 0 <= k < more.len() ==> more_ids[k] == #[trigger] all[k]);
    assert(forall|k: int| 0 <= k < less.len() ==> less_ids[k] == #[trigger] all[k]);
    if changes[count].clip_id == id {
        assert(more_ids[count] == id);
        let j = more_ids.index_of(id);
        assert(more_ids[j] == all[j]);
        assert(all[count] == id);
        if less_ids.contains(id) {
            let k = choose|k: int| 0 <= k < less_ids.len() && less_ids[k] == id;
            assert(all[k] < all[count]);
        }
    } else {
        if less_ids.contains(id) {
            let k = less_ids.index_of(id);
            assert(less_ids[k] == all[k]);
            assert(more_ids[k] == all[k]);
            assert(more_ids.contains(id));
            let j = more_ids.index_of(id);
            assert(more_ids[j] == all[j]);
            if j < k {
                assert(all[j] < all[k]);
            } else if k < j {
                assert(all[k] < all[j]);
            }
        } else if more_ids.contains(id) {
            let j = choose|j: int| 0 <= j < more_ids.len() && more_ids[j] == id;
            assert(all[j] == id);
            if j < count {
                assert(less_ids[j] == id);
            }
        }
    }
}

/// The waterfalls of all clips.
pub struct DocumentGraphics {
    pub clips: BTreeMap<ClipId, ClipGraphics>,
    pub prev_document: Document,
    pub selected: BTreeSet<ClipId>,
    pub hovered: BTreeSet<ClipId>,
    /// The clips from the bottom to the top.
    pub draw_order: Vec<ClipId>,
    pub next_texture: usize,
}

/// What the waterfalls of all clips hold.
pub open spec fn graphics_model(clips: Map<ClipId, ClipGraphics>) -> Map<ClipId, GraphicsModel> {
    clips.map_values(|graphics: ClipGraphics| graphics.model())
}

/// Whether a number can be the size of the rows of every clip.
pub open spec fn sizes_fit(document: Document, fft_sizes: Map<ClipId, u32>) -> bool {
    forall|id: ClipId| #[trigger]
        document.clips@.contains_key(id) ==> fft_sizes.contains_key(id) && fits_a_buffer(
            fft_sizes[id],
            SEGMENT_HEIGHT,
        )
}

impl DocumentGraphics {
    pub open spec fn graphics(&self) -> Map<ClipId, GraphicsModel> {
        graphics_model(self.clips@)
    }

    /// Whether every clip of the document has a waterfall and its place in the order.
    pub open spec fn wf(&self) -> bool {
        &&& self.prev_document.wf()
        &&& self.graphics().dom() == self.prev_document.clips@.dom()
        &&& forall|id: ClipId| #[trigger] self.graphics().contains_key(id) ==> self.graphics()[id].wf()
        &&& self.draw_order@.no_duplicates()
        &&& forall|id: ClipId| #[trigger]
            self.draw_order@.contains(id) <==> self.prev_document.clips@.contains_key(id)
        &&& BLANK_TEXTURE < self.next_texture
    }

    /// Whether the waterfalls show all chunks that there are.
    pub open spec fn caught_up(&self) -> bool {
        forall|id: ClipId| #[trigger]
            self.graphics().contains_key(id) ==> self.graphics()[id].end
                == self.prev_document.clips@[id].chunks@.end()
    }

    /// The waterfalls of a document without clips.
    pub fn new() -> (graphics: Self)
        ensures
            graphics.wf(),
            graphics.caught_up(),
            graphics.graphics() == Map::<ClipId, GraphicsModel>::empty(),
            graphics.prev_document.clips@ == Map::<ClipId, std::sync::Arc<Clip>>::empty(),
            graphics.selected@ == Set::<ClipId>::empty(),
            graphics.hovered@ == Set::<ClipId>::empty(),
            graphics.draw_order@ == Seq::<ClipId>::empty(),
            graphics.next_texture == BLANK_TEXTURE + 1,
    {
        let graphics = DocumentGraphics {
            clips: BTreeMap::new(),
            prev_document: Document::new(),
            selected: BTreeSet::new(),
            hovered: BTreeSet::new(),
            draw_order: Vec::new(),
            next_texture: BLANK_TEXTURE + 1,
        };
        assert(graphics.graphics() =~= Map::empty());
        graphics
    }

    /// Forgets the clips that are no longer in a document.
    fn remove_clips(&mut self, document: &Document)
        requires
            old(self).wf(),
        ensures
            final(self).graphics() == old(self).graphics().restrict(document.clips@.dom()),
            final(self).hovered@ == old(self).hovered@.difference(
                old(self).prev_document.clips@.dom().difference(document.clips@.dom()),
            ),
            final(self).draw_order@ == those_in(old(self).draw_order@, document.clips@.dom()),
            final(self).prev_document == old(self).prev_document,
            final(self).selected == old(self).selected,
            final(self).next_texture == old(self).next_texture,
    {
        let ghost before = self.graphics();
        let ghost hovered = self.hovered@;
        let removed: Vec<ClipId> = keys_without(&self.prev_document.clips, &document.clips);
        let ghost gone = self.prev_document.clips@.dom().difference(document.clips@.dom());
        proof {
            all_are_taken(removed@, gone);
            assert(before.remove_keys(removed@.take(0).to_set()) =~= before);
            assert(hovered.difference(removed@.take(0).to_set()) =~= hovered);
        }
        let mut i: usize = 0;
        while i < removed.len()
            invariant
                i <= removed@.len(),
                self.graphics() == before.remove_keys(removed@.take(i as int).to_set()),
                self.hovered@ == hovered.difference(removed@.take(i as int).to_set()),
                self.prev_document == old(self).prev_document,
                self.selected == old(self).selected,
                self.next_texture == old(self).next_texture,
                self.draw_order == old(self).draw_order,
            decreases removed@.len() - i,
        {
            proof {
                next_is_taken(removed@, i as int);
            }
            let clip_id: ClipId = removed[i];
            let ghost graphics_before = self.graphics();
            self.clips.remove(&clip_id);
            self.hovered.remove(&clip_id);
            i = i + 1;
            proof {
                assert(self.graphics() =~= graphics_before.remove(clip_id));
                assert(self.graphics() =~= before.remove_keys(removed@.take(i as int).to_set()));
                assert(self.hovered@ =~= hovered.difference(removed@.take(i as int).to_set()));
            }
        }
        proof {
            assert(before.remove_keys(gone) =~= before.restrict(document.clips@.dom()));
        }
        let ghost order = self.draw_order@;
        let mut kept: Vec<ClipId> = Vec::new();
        let mut k: usize = 0;
        proof {
            reveal(Seq::filter);
        }
        while k < self.draw_order.len()
            invariant
                k <= order.len(),
                order == self.draw_order@,
                kept@ == those_in(order.take(k as int), document.clips@.dom()),
            decreases order.len() - k,
        {
            proof {
                reveal(Seq::filter);
                assert(order.take(k as int + 1).drop_last() =~= order.take(k as int));
                assert(order.take(k as int + 1).last() == order[k as int]);
            }
            let clip_id: ClipId = self.draw_order[k];
            if document.clips.contains_key(&clip_id) {
                kept.push(clip_id);
            }
            k = k + 1;
        }
        assert(order.take(k as int) =~= order);
        self.draw_order = kept;
    }

    /// Takes up the changes to clips that stay.
    fn change_clips(
        &mut self,
        document: &Document,
        changes: &Vec<ClipChange>,
        fft_sizes: &BTreeMap<ClipId, u32>,
    ) -> (reset: Vec<ClipId>)
        requires
            document.wf(),
            old(self).prev_document.wf(),
            sizes_fit(*document, fft_sizes@),
            all_changes(changes@, old(self).prev_document, *document),
            old(self).graphics().dom() == old(self).prev_document.clips@.dom().intersect(
                document.clips@.dom(),
            ),
        ensures
            final(self).graphics().dom() == old(self).graphics().dom(),
            forall|id: ClipId| #[trigger]
                final(self).graphics().contains_key(id) ==> final(self).graphics()[id]
                    == updated_graphics(
                    old(self).graphics(),
                    old(self).prev_document,
                    *document,
                    changes@,
                    fft_sizes@,
                    id,
                ),
            forall|id: ClipId| #[trigger]
                reset@.contains(id) <==> change_of(changes@, id) is Some && begins_anew(
                    old(self).graphics()[id],
                    *old(self).prev_document.clips@[id],
                    *document.clips@[id],
                    change_of(changes@, id)->0.continues,
                ),
            final(self).hovered == old(self).hovered,
            final(self).draw_order == old(self).draw_order,
            final(self).prev_document == old(self).prev_document,
            final(self).selected == old(self).selected,
            final(self).next_texture == old(self).next_texture,
    {
        let ghost before = self.graphics();
        let ghost prev = self.prev_document;
        let mut reset: Vec<ClipId> = Vec::new();
        let mut i: usize = 0;
        assert(change_ids(changes@.take(0)) =~= Seq::<ClipId>::empty());
        while i < changes.len()
            invariant
                i <= changes@.len(),
                document.wf(),
                prev.wf(),
                prev == self.prev_document,
                sizes_fit(*document, fft_sizes@),
                all_changes(changes@, prev, *document),
                before.dom() == prev.clips@.dom().intersect(document.clips@.dom()),
                self.graphics().dom() == before.dom(),
                forall|id: ClipId| #[trigger]
                    self.graphics().contains_key(id) ==> self.graphics()[id] == updated_graphics(
                        before,
                        prev,
                        *document,
                        changes@.take(i as int),
                        fft_sizes@,
                        id,
                    ),
                forall|id: ClipId| #[trigger]
                    reset@.contains(id) <==> change_of(changes@.take(i as int), id) is Some
                        && begins_anew(
                        before[id],
                        *prev.clips@[id],
                        *document.clips@[id],
                        change_of(changes@.take(i as int), id)->0.continues,
                    ),
                self.hovered == old(self).hovered,
                self.draw_order == old(self).draw_order,
                self.prev_document == old(self).prev_document,
                self.selected == old(self).selected,
                self.next_texture == old(self).next_texture,
            decreases changes@.len() - i,
        {
            let ClipChange { clip_id, continues } = changes[i];
            let ghost less = changes@.take(i as int);
            let ghost more = changes@.take(i as int + 1);
            let ghost graphics_before = self.graphics();
            let ghost reset_before = reset@;
            proof {
                assert(changes@[i as int].clip_id == clip_id);
                assert(prev.clips@.contains_key(clip_id) && document.clips@.contains_key(clip_id));
                assert(before.contains_key(clip_id));
                assert(graphics_before.contains_key(clip_id));
                next_change(changes@, i as int, clip_id);
            }
            let prev_clip = self.prev_document.clips.get(&clip_id).unwrap();
            let new_clip = document.clips.get(&clip_id).unwrap();
            let mut clip_graphics: ClipGraphics = self.clips.remove(&clip_id).unwrap();
            if !new_clip.descriptor.sample_rate.eq(prev_clip.descriptor.sample_rate)
                || new_clip.descriptor.chunk_size != prev_clip.descriptor.chunk_size || !continues
                || (!clip_graphics.active && new_clip.chunks.end_index()
                > clip_graphics.end_index) {
                let fft_size: u32 = *fft_sizes.get(&clip_id).unwrap();
                clip_graphics = ClipGraphics::new(
                    new_clip.descriptor.clone(),
                    new_clip.chunks.start_index(),
                    fft_size,
                );
                reset.push(clip_id);
            } else {
                clip_graphics.descriptor = new_clip.descriptor.clone();
            }
            let ghost graphics = clip_graphics.model();
            self.clips.insert(clip_id, clip_graphics);
            proof {
                assert(self.graphics() =~= graphics_before.insert(clip_id, graphics));
                assert forall|id: ClipId| #[trigger]
                    self.graphics().contains_key(id) implies self.graphics()[id]
                    == updated_graphics(before, prev, *document, more, fft_sizes@, id) by {
                    next_change(changes@, i as int, id);
                    assert(graphics_before.contains_key(id));
                }
                assert forall|id: ClipId| #[trigger] reset@.contains(id) <==> change_of(
                    more,
                    id,
                ) is Some && begins_anew(
                    before[id],
                    *prev.clips@[id],
                    *document.clips@[id],
                    change_of(more, id)->0.continues,
                ) by {
                    next_change(changes@, i as int, id);
                    if reset_before.contains(id) {
                        let k = choose|k: int| 0 <= k < reset_before.len() && reset_before[k] == id;
                        assert(reset@[k] == id);
                    }
                    if reset@.len() > reset_before.len() {
                        assert(reset@[reset@.len() - 1] == clip_id);
                        assert(reset@ =~= reset_before.push(clip_id));
                    }
                }
            }
            i = i + 1;
        }
        assert(changes@.take(i as int) =~= changes@);
        reset
    }

    /// Adds waterfalls for new clips.
    fn add_clips(
        &mut self,
        document: &Document,
        fft_sizes: &BTreeMap<ClipId, u32>,
    ) -> (added: Vec<ClipId>)
        requires
            document.wf(),
            sizes_fit(*document, fft_sizes@),
            old(self).graphics().dom() == old(self).prev_document.clips@.dom().intersect(
                document.clips@.dom(),
            ),
        ensures
            lists(
                added@,
                document.clips@.dom().difference(old(self).prev_document.clips@.dom()),
            ),
            final(self).graphics().dom() == document.clips@.dom(),
            forall|id: ClipId| #[trigger]
                final(self).graphics().contains_key(id) ==> final(self).graphics()[id] == if old(self).prev_document.clips@.contains_key(id) {
                    old(self).graphics()[id]
                } else {
                    fresh_graphics(*document.clips@[id], fft_sizes@[id])
                },
            final(self).draw_order@ == old(self).draw_order@ + added@,
            final(self).hovered == old(self).hovered,
            final(self).prev_document == old(self).prev_document,
            final(self).selected == old(self).selected,
            final(self).next_texture == old(self).next_texture,
    {
        let ghost before = self.graphics();
        let ghost prev = self.prev_document;
        let ghost order = self.draw_order@;
        let added: Vec<ClipId> = keys_without(&document.clips, &self.prev_document.clips);
        let ghost new_ids = document.clips@.dom().difference(prev.clips@.dom());
        let mut i: usize = 0;
        proof {
            all_are_taken(added@, new_ids);
            assert(before.dom().union(added@.take(0).to_set()) =~= before.dom());
            assert(order + added@.take(0) =~= order);
        }
        while i < added.len()
            invariant
                i <= added@.len(),
                document.wf(),
                sizes_fit(*document, fft_sizes@),
                lists(added@, new_ids),
                new_ids == document.clips@.dom().difference(prev.clips@.dom()),
                before.dom() == prev.clips@.dom().intersect(document.clips@.dom()),
                self.graphics().dom() == before.dom().union(added@.take(i as int).to_set()),
                forall|id: ClipId| #[trigger]
                    self.graphics().contains_key(id) ==> self.graphics()[id]
                        == if prev.clips@.contains_key(id) {
                        before[id]
                    } else {
                        fresh_graphics(*document.clips@[id], fft_sizes@[id])
                    },
                self.draw_order@ == order + added@.take(i as int),
                self.hovered == old(self).hovered,
                self.prev_document == old(self).prev_document,
                self.selected == old(self).selected,
                self.next_texture == old(self).next_texture,
            decreases added@.len() - i,
        {
            let clip_id: ClipId = added[i];
            let ghost graphics_before = self.graphics();
            proof {
                next_is_taken(added@, i as int);
                assert(added@.contains(clip_id));
                assert(document.clips@.contains_key(clip_id));
            }
            let new_clip = document.clips.get(&clip_id).unwrap();
            let fft_size: u32 = *fft_sizes.get(&clip_id).unwrap();
            let clip_graphics = ClipGraphics::new(
                new_clip.descriptor.clone(),
                new_clip.chunks.start_index(),
                fft_size,
            );
            let ghost graphics = clip_graphics.model();
            self.clips.insert(clip_id, clip_graphics);
            self.draw_order.push(clip_id);
            i = i + 1;
            proof {
                assert(self.graphics() =~= graphics_before.insert(clip_id, graphics));
                assert(self.graphics().dom() =~= before.dom().union(
                    added@.take(i as int).to_set(),
                ));
                assert(added@.take(i as int) =~= added@.take(i as int - 1).push(clip_id));
                assert(self.draw_order@ =~= order + added@.take(i as int));
            }
        }
        proof {
            assert(added@.take(i as int) =~= added@);
            assert(self.graphics().dom() =~= document.clips@.dom());
        }
        added
    }

    /// Takes up a new version of the document. Says which waterfalls begin anew, and
    /// which rows have to be added.
    pub fn process(
        &mut self,
        document: &Document,
        changes: &Vec<ClipChange>,
        fft_sizes: &BTreeMap<ClipId, u32>,
    ) -> (update: GraphicsUpdate)
        requires
            old(self).wf(),
            old(self).caught_up(),
            document.wf(),
            sizes_fit(*document, fft_sizes@),
            all_changes(changes@, old(self).prev_document, *document),
        ensures
            final(self).wf(),
            final(self).prev_document.clips@ == document.clips@,
            forall|id: ClipId| #[trigger]
                document.clips@.contains_key(id) ==> final(self).graphics()[id]
                    == updated_graphics(
                    old(self).graphics(),
                    old(self).prev_document,
                    *document,
                    changes@,
                    fft_sizes@,
                    id,
                ),
            ({
                let kept = those_in(old(self).draw_order@, document.clips@.dom());
                &&& final(self).draw_order@.take(kept.len() as int) == kept
                &&& lists(
                    final(self).draw_order@.skip(kept.len() as int),
                    document.clips@.dom().difference(old(self).prev_document.clips@.dom()),
                )
            }),
            final(self).hovered@ == old(self).hovered@.difference(
                old(self).prev_document.clips@.dom().difference(document.clips@.dom()),
            ),
            final(self).selected == old(self).selected,
            final(self).next_texture == old(self).next_texture,
            forall|id: ClipId| #[trigger]
                update.reset@.contains(id) <==> document.clips@.contains_key(id) && (!old(self).prev_document.clips@.contains_key(id) || (change_of(changes@, id) is Some
                    && begins_anew(
                    old(self).graphics()[id],
                    *old(self).prev_document.clips@[id],
                    *document.clips@[id],
                    change_of(changes@, id)->0.continues,
                ))),
            is_all_work(update.work@, final(self).graphics(), *document),
            forall|k: int|
                0 <= k < update.work@.len() ==> final(self).graphics()[(
                #[trigger] update.work@[k]).clip_id].active,
            forall|id: ClipId| #[trigger]
                final(self).graphics().contains_key(id) ==> final(self).graphics()[id].end
                    <= document.clips@[id].chunks@.end(),
    {
        let ghost before = *self;
        self.remove_clips(document);
        let ghost kept_graphics = self.graphics();
        let ghost kept = self.draw_order@;
        assert(kept_graphics.dom() =~= before.prev_document.clips@.dom().intersect(
            document.clips@.dom(),
        ));
        let mut reset: Vec<ClipId> = self.change_clips(document, changes, fft_sizes);
        let ghost reset_before = reset@;
        let ghost changed_graphics = self.graphics();
        let mut added: Vec<ClipId> = self.add_clips(document, fft_sizes);
        let ghost added_ids = added@;
        reset.append(&mut added);
        self.prev_document = document.clone();
        proof {
            assert forall|id: ClipId| #[trigger] document.clips@.contains_key(
                id,
            ) implies self.graphics()[id] == updated_graphics(
                before.graphics(),
                before.prev_document,
                *document,
                changes@,
                fft_sizes@,
                id,
            ) by {
                assert(self.graphics().contains_key(id));
                if before.prev_document.clips@.contains_key(id) {
                    assert(changed_graphics.contains_key(id));
                    assert(kept_graphics[id] == before.graphics()[id]);
                }
            }
            those_in_is_in_order(before.draw_order@, document.clips@.dom());
            assert(self.draw_order@.take(kept.len() as int) =~= kept);
            assert(self.draw_order@.skip(kept.len() as int) =~= added_ids);
            assert forall|id: ClipId| #[trigger] self.draw_order@.contains(id)
                <==> document.clips@.contains_key(id) by {
                if self.draw_order@.contains(id) {
                    let k = choose|k: int|
                        0 <= k < self.draw_order@.len() && self.draw_order@[k] == id;
                    if k < kept.len() {
                        assert(kept[k] == id);
                        assert(kept.contains(id));
                    } else {
                        assert(added_ids[k - kept.len()] == id);
                        assert(added_ids.contains(id));
                    }
                }
                if document.clips@.contains_key(id) {
                    if before.prev_document.clips@.contains_key(id) {
                        assert(before.draw_order@.contains(id));
                        assert(kept.contains(id));
                        let k = choose|k: int| 0 <= k < kept.len() && kept[k] == id;
                        assert(self.draw_order@[k] == id);
                    } else {
                        assert(added_ids.contains(id));
                        let k = choose|k: int| 0 <= k < added_ids.len() && added_ids[k] == id;
                        assert(self.draw_order@[kept.len() + k] == id);
                    }
                }
            }
            assert forall|j: int, k: int|
                0 <= j < self.draw_order@.len() && 0 <= k < self.draw_order@.len() && j
                    != k implies self.draw_order@[j] != self.draw_order@[k] by {
                let len = kept.len() as int;
                if j >= len {
                    assert(self.draw_order@[j] == added_ids[j - len]);
                    assert(added_ids.contains(added_ids[j - len]));
                } else {
                    assert(self.draw_order@[j] == kept[j]);
                    assert(kept.contains(kept[j]));
                }
                if k >= len {
                    assert(self.draw_order@[k] == added_ids[k - len]);
                    assert(added_ids.contains(added_ids[k - len]));
                } else {
                    assert(self.draw_order@[k] == kept[k]);
                    assert(kept.contains(kept[k]));
                }
            }
            assert forall|id: ClipId| #[trigger] self.graphics().contains_key(
                id,
            ) implies self.graphics()[id].wf() && self.graphics()[id].end
                <= document.clips@[id].chunks@.end() && (self.graphics()[id].end
                < document.clips@[id].chunks@.end() ==> self.graphics()[id].active) by {
                assert(document.clips@.contains_key(id));
                assert(document.clips@[id].wf());
                document.clips@[id].chunks.start_is_isize();
                if before.prev_document.clips@.contains_key(id) {
                    assert(before.graphics().contains_key(id));
                    match change_of(changes@, id) {
                        Some(change) => {
                            let k = change_ids(changes@).index_of(id);
                            assert(changes@[k] == change);
                            assert(change_ids(changes@)[k] == id);
                        },
                        None => {
                            assert(!change_ids(changes@).contains(id));
                        },
                    }
                }
            }
            assert forall|id: ClipId| #[trigger] reset@.contains(id) <==> reset_before.contains(id)
                || added_ids.contains(id) by {
                assert(reset@ =~= reset_before + added_ids);
                if reset_before.contains(id) {
                    let k = choose|k: int| 0 <= k < reset_before.len() && reset_before[k] == id;
                    assert(reset@[k] == id);
                }
                if added_ids.contains(id) {
                    let k = choose|k: int| 0 <= k < added_ids.len() && added_ids[k] == id;
                    assert(reset@[reset_before.len() + k] == id);
                }
                if reset@.contains(id) {
                    let k = choose|k: int| 0 <= k < reset@.len() && reset@[k] == id;
                    if k < reset_before.len() {
                        assert(reset_before[k] == id);
                    } else {
                        assert(added_ids[k - reset_before.len()] == id);
                    }
                }
            }
            assert forall|id: ClipId| change_of(changes@, id) is Some implies {
                &&& document.clips@.contains_key(id)
                &&& before.prev_document.clips@.contains_key(id)
                &&& kept_graphics[id] == before.graphics()[id]
            } by {
                let k = change_ids(changes@).index_of(id);
                assert(change_ids(changes@)[k] == id);
                assert(changes@[k].clip_id == id);
                assert(before.graphics().contains_key(id));
            }
        }
        let work: Vec<ClipWork> = self.gather_work(document);
        GraphicsUpdate { reset, work }
    }

    /// The rows that have to be added.
    fn gather_work(&self, document: &Document) -> (work: Vec<ClipWork>)
        requires
            document.wf(),
            self.graphics().dom() == document.clips@.dom(),
        ensures
            is_all_work(work@, self.graphics(), *document),
    {
        let ids: Vec<ClipId> = sorted_keys(&self.clips);
        let ghost graphics = self.graphics();
        let mut work: Vec<ClipWork> = Vec::new();
        let mut i: usize = 0;
        assert(self.clips@.dom() =~= graphics.dom());
        while i < ids.len()
            invariant
                i <= ids@.len(),
                document.wf(),
                graphics == self.graphics(),
                graphics.dom() == document.clips@.dom(),
                lists(ids@, graphics.dom()),
                forall|k: int|
                    0 <= k < work@.len() ==> {
                        let item = #[trigger] work@[k];
                        &&& graphics.contains_key(item.clip_id)
                        &&& item.start_index == graphics[item.clip_id].end
                        &&& item.end_index == document.clips@[item.clip_id].chunks@.end()
                        &&& item.start_index < item.end_index
                        &&& i < ids@.len() ==> item.clip_id < ids@[i as int]
                    },
                increasing(work_ids(work@)),
                forall|j: int|
                    0 <= j < i && graphics[#[trigger] ids@[j]].end
                        < document.clips@[ids@[j]].chunks@.end() ==> work_ids(work@).contains(
                        ids@[j],
                    ),
            decreases ids@.len() - i,
        {
            let clip_id: ClipId = ids[i];
            proof {
                assert(ids@.contains(clip_id));
                assert(graphics.contains_key(clip_id));
                assert(document.clips@.contains_key(clip_id));
            }
            let ghost before = work_ids(work@);
            let clip_graphics = self.clips.get(&clip_id).unwrap();
            let new_clip = document.clips.get(&clip_id).unwrap();
            let end_index: isize = new_clip.chunks.end_index();
            if clip_graphics.end_index < end_index {
                work.push(
                    ClipWork { clip_id, start_index: clip_graphics.end_index, end_index },
                );
                proof {
                    assert(work_ids(work@) =~= before.push(clip_id));
                    assert forall|k: int| 0 <= k < before.len() implies before[k] < clip_id by {
                        assert(work@[k].clip_id == before[k]);
                    }
                    assert(work_ids(work@)[before.len() as int] == clip_id);
                    assert forall|other: ClipId| before.contains(other) implies #[trigger] work_ids(
                        work@,
                    ).contains(other) by {
                        let j = choose|j: int| 0 <= j < before.len() && before[j] == other;
                        assert(work_ids(work@)[j] == other);
                    }
                }
            }
            i = i + 1;
        }
        proof {
            assert forall|id: ClipId|
                graphics.contains_key(id) && graphics[id].end
                    < document.clips@[id].chunks@.end() implies #[trigger] work_ids(
                work@,
            ).contains(id) by {
                assert(ids@.contains(id));
                let j = choose|j: int| 0 <= j < ids@.len() && ids@[j] == id;
                assert(graphics[ids@[j]].end < document.clips@[ids@[j]].chunks@.end());
            }
        }
        work
    }

    /// Adds a row to the waterfall of a clip.
    pub fn push_row(&mut self, clip_id: ClipId) -> (commands: Vec<TextureCommand>)
        requires
            old(self).wf(),
            old(self).graphics().contains_key(clip_id),
            old(self).graphics()[clip_id].active,
            old(self).graphics()[clip_id].end < isize::MAX,
            old(self).next_texture < usize::MAX,
        ensures
            final(self).wf(),
            final(self).graphics() == old(self).graphics().insert(
                clip_id,
                old(self).graphics()[clip_id].with_row(old(self).next_texture),
            ),
            final(self).next_texture == if old(self).graphics()[clip_id].begins_segment() {
                old(self).next_texture + 1
            } else {
                old(self).next_texture as int
            },
            final(self).prev_document == old(self).prev_document,
            final(self).selected == old(self).selected,
            final(self).hovered == old(self).hovered,
            final(self).draw_order == old(self).draw_order,
            commands@ == old(self).graphics()[clip_id].row_commands(old(self).next_texture),
    {
        let ghost before = self.graphics();
        let mut commands: Vec<TextureCommand> = Vec::new();
        let mut clip_graphics: ClipGraphics = self.clips.remove(&clip_id).unwrap();
        if clip_graphics.process(&mut commands, self.next_texture) {
            self.next_texture = self.next_texture + 1;
        }
        let ghost after = clip_graphics.model();
        self.clips.insert(clip_id, clip_graphics);
        proof {
            assert(commands@ =~= before[clip_id].row_commands(old(self).next_texture));
            assert(self.graphics() =~= before.insert(clip_id, after));
            assert(self.graphics().dom() =~= before.dom());
            assert forall|id: ClipId| #[trigger] self.graphics().contains_key(
                id,
            ) implies self.graphics()[id].wf() by {
                assert(before.contains_key(id));
            }
        }
        commands
    }

    /// Marks the waterfalls of the clips that are no longer recorded as complete.
    pub fn finish_inactive(&mut self, active_clips: &BTreeSet<ClipId>)
        requires
            old(self).wf(),
        ensures
            final(self).wf(),
            final(self).graphics().dom() == old(self).graphics().dom(),
            forall|id: ClipId| #[trigger]
                final(self).graphics().contains_key(id) ==> final(self).graphics()[id] == (
                GraphicsModel {
                    active: old(self).graphics()[id].active && active_clips@.contains(id),
                    ..old(self).graphics()[id]
                }),
            was_finished(old(self).graphics(), active_clips@, final(self).graphics()),
            final(self).prev_document == old(self).prev_document,
            final(self).selected == old(self).selected,
            final(self).hovered == old(self).hovered,
            final(self).draw_order == old(self).draw_order,
            final(self).next_texture == old(self).next_texture,
    {
        let ghost before = self.graphics();
        let ids: Vec<ClipId> = sorted_keys(&self.clips);
        assert(self.clips@.dom() =~= before.dom());
        let mut i: usize = 0;
        while i < ids.len()
            invariant
                i <= ids@.len(),
                lists(ids@, before.dom()),
                self.graphics().dom() == before.dom(),
                forall|k: int|
                    i <= k < ids@.len() ==> self.graphics()[#[trigger] ids@[k]] == before[ids@[k]],
                forall|k: int|
                    0 <= k < i ==> self.graphics()[#[trigger] ids@[k]] == (GraphicsModel {
                        active: before[ids@[k]].active && active_clips@.contains(ids@[k]),
                        ..before[ids@[k]]
                    }),
                self.prev_document == old(self).prev_document,
                self.selected == old(self).selected,
                self.hovered == old(self).hovered,
                self.draw_order == old(self).draw_order,
                self.next_texture == old(self).next_texture,
            decreases ids@.len() - i,
        {
            let clip_id: ClipId = ids[i];
            let ghost graphics_before = self.graphics();
            proof {
                assert(ids@[i as int] == clip_id);
                assert(ids@.contains(clip_id));
                assert(graphics_before.contains_key(clip_id));
                assert forall|k: int| 0 <= k < ids@.len() && k != i implies #[trigger] ids@[k]
                    != clip_id by {
                    if k < i {
                        assert(ids@[k] < ids@[i as int]);
                    } else {
                        assert(ids@[i as int] < ids@[k]);
                    }
                }
            }
            let mut clip_graphics: ClipGraphics = self.clips.remove(&clip_id).unwrap();
            if clip_graphics.active && !active_clips.contains(&clip_id) {
                clip_graphics.active = false;
            }
            let ghost after = clip_graphics.model();
            self.clips.insert(clip_id, clip_graphics);
            assert(self.graphics() =~= graphics_before.insert(clip_id, after));
            i = i + 1;
        }
        proof {
            assert forall|id: ClipId| #[trigger] self.graphics().contains_key(
                id,
            ) implies self.graphics()[id] == (GraphicsModel {
                active: before[id].active && active_clips@.contains(id),
                ..before[id]
            }) && self.graphics()[id].wf() by {
                assert(ids@.contains(id));
                let k = choose|k: int| 0 <= k < ids@.len() && ids@[k] == id;
                assert(ids@[k] == id);
                assert(before.contains_key(id));
            }
        }
    }

    /// Puts a clip on top of all others.
    pub fn bring_to_top(&mut self, clip_id: ClipId)
        requires
            old(self).wf(),
        ensures
            final(self).wf(),
            final(self).draw_order@ == if old(self).draw_order@.contains(clip_id) {
                old(self).draw_order@.remove(old(self).draw_order@.index_of(clip_id)).push(clip_id)
            } else {
                old(self).draw_order@
            },
            brought_to_top(old(self).draw_order@, clip_id, final(self).draw_order@),
            final(self).clips == old(self).clips,
            final(self).prev_document == old(self).prev_document,
            final(self).selected == old(self).selected,
            final(self).hovered == old(self).hovered,
            final(self).next_texture == old(self).next_texture,
    {
        let ghost order = self.draw_order@;
        let mut pos: usize = 0;
        while pos < self.draw_order.len()
            invariant
                pos <= order.len(),
                order == self.draw_order@,
                order.no_duplicates(),
                old(self).wf(),
                *old(self) == *self,
                forall|k: int| 0 <= k < pos ==> order[k] != clip_id,
            decreases order.len() - pos,
        {
            if self.draw_order[pos] == clip_id {
                proof {
                    assert(order[pos as int] == clip_id);
                    assert(order.contains(clip_id));
                    assert(order.index_of(clip_id) == pos);
                }
                self.draw_order.remove(pos);
                self.draw_order.push(clip_id);
                proof {
                    let after = self.draw_order@;
                    assert(after =~= order.remove(pos as int).push(clip_id));
                    assert forall|id: ClipId| #[trigger] after.contains(id) <==> order.contains(
                        id,
                    ) by {
                        if order.contains(id) {
                            let k = choose|k: int| 0 <= k < order.len() && order[k] == id;
                            if k < pos {
                                assert(after[k] == id);
                            } else if k > pos {
                                assert(after[k - 1] == id);
                            } else {
                                assert(after[after.len() - 1] == id);
                            }
                        }
                        if after.contains(id) {
                            let k = choose|k: int| 0 <= k < after.len() && after[k] == id;
                            if k < pos {
                                assert(order[k] == id);
                            } else if k < after.len() - 1 {
                                assert(order[k + 1] == id);
                            }
                        }
                    }
                }
                return;
            }
            pos = pos + 1;
        }
    }

    /// Takes up a version of the document of which only something at the start of clips,
    /// or whole clips, has expired since the last one.
    pub fn process_expiry(&mut self, document: &Document)
        requires
            old(self).wf(),
            document.wf(),
            document.clips@.dom().subset_of(old(self).prev_document.clips@.dom()),
            forall|id: ClipId| #[trigger]
                document.clips@.contains_key(id) ==> old(self).graphics()[id].start
                    <= document.clips@[id].chunks@.start <= old(self).graphics()[id].end,
        ensures
            final(self).wf(),
            final(self).prev_document.clips@ == document.clips@,
            final(self).graphics().dom() == document.clips@.dom(),
            forall|id: ClipId| #[trigger]
                document.clips@.contains_key(id) ==> final(self).graphics()[id] == old(self).graphics()[id].expired(document.clips@[id].chunks@.start),
            final(self).draw_order@ == those_in(old(self).draw_order@, document.clips@.dom()),
            final(self).hovered@ == old(self).hovered@.difference(
                old(self).prev_document.clips@.dom().difference(document.clips@.dom()),
            ),
            final(self).selected == old(self).selected,
            final(self).next_texture == old(self).next_texture,
    {
        let ghost whole = *self;
        self.remove_clips(document);
        let ghost before = self.graphics();
        assert(before.dom() =~= document.clips@.dom());
        let ids: Vec<ClipId> = sorted_keys(&self.clips);
        assert(self.clips@.dom() =~= before.dom());
        let mut i: usize = 0;
        while i < ids.len()
            invariant
                i <= ids@.len(),
                lists(ids@, before.dom()),
                document.wf(),
                before.dom() == document.clips@.dom(),
                self.graphics().dom() == before.dom(),
                forall|id: ClipId| #[trigger]
                    document.clips@.contains_key(id) ==> before[id].start
                        <= document.clips@[id].chunks@.start <= before[id].end && before[id].wf(),
                forall|k: int|
                    i <= k < ids@.len() ==> self.graphics()[#[trigger] ids@[k]] == before[ids@[k]],
                forall|k: int|
                    0 <= k < i ==> self.graphics()[#[trigger] ids@[k]]
                        == before[ids@[k]].expired(document.clips@[ids@[k]].chunks@.start)
                        && self.graphics()[ids@[k]].wf(),
                self.prev_document == whole.prev_document,
                self.selected == whole.selected,
                self.hovered@ == whole.hovered@.difference(
                    whole.prev_document.clips@.dom().difference(document.clips@.dom()),
                ),
                self.draw_order@ == those_in(whole.draw_order@, document.clips@.dom()),
                self.next_texture == whole.next_texture,
            decreases ids@.len() - i,
        {
            let clip_id: ClipId = ids[i];
            let ghost graphics_before = self.graphics();
            proof {
                assert(ids@[i as int] == clip_id);
                assert(ids@.contains(clip_id));
                assert(graphics_before.contains_key(clip_id));
                assert(document.clips@.contains_key(clip_id));
                assert forall|k: int| 0 <= k < ids@.len() && k != i implies #[trigger] ids@[k]
                    != clip_id by {
                    if k < i {
                        assert(ids@[k] < ids@[i as int]);
                    } else {
                        assert(ids@[i as int] < ids@[k]);
                    }
                }
            }
            let new_start: isize = document.clips.get(&clip_id).unwrap().chunks.start_index();
            let mut clip_graphics: ClipGraphics = self.clips.remove(&clip_id).unwrap();
            clip_graphics.expire(new_start);
            let ghost after = clip_graphics.model();
            self.clips.insert(clip_id, clip_graphics);
            assert(self.graphics() =~= graphics_before.insert(clip_id, after));
            assert(self.graphics().dom() =~= before.dom());
            i = i + 1;
        }
        self.prev_document = document.clone();
        proof {
            those_in_is_in_order(whole.draw_order@, document.clips@.dom());
            assert forall|id: ClipId| #[trigger] document.clips@.contains_key(
                id,
            ) implies self.graphics()[id] == whole.graphics()[id].expired(
                document.clips@[id].chunks@.start,
            ) && self.graphics()[id].wf() by {
                assert(ids@.contains(id));
                let k = choose|k: int| 0 <= k < ids@.len() && ids@[k] == id;
                assert(ids@[k] == id);
            }
        }
    }
}

/// The clips in a list of work.
pub open spec fn work_ids(work: Seq<ClipWork>) -> Seq<ClipId> {
    work.map_values(|item: ClipWork| item.clip_id)
}

/// Whether `work` holds, for every clip whose waterfall is behind, the chunks that are
/// missing, in the order of the clips.
pub open spec fn is_all_work(
    work: Seq<ClipWork>,
    graphics: Map<ClipId, GraphicsModel>,
    document: Document,
) -> bool {
    &&& increasing(work_ids(work))
    &&& forall|k: int|
        0 <= k < work.len() ==> {
            let item = #[trigger] work[k];
            &&& graphics.contains_key(item.clip_id)
            &&& item.start_index == graphics[item.clip_id].end
            &&& item.end_index == document.clips@[item.clip_id].chunks@.end()
            &&& item.start_index < item.end_index
        }
    &&& forall|id: ClipId|
        graphics.contains_key(id) && graphics[id].end < document.clips@[id].chunks@.end()
            ==> #[trigger] work_ids(work).contains(id)
}

/// Once the missing rows are added, every waterfall shows all chunks of its clip.
pub proof fn work_catches_up(
    before: Map<ClipId, GraphicsModel>,
    after: Map<ClipId, GraphicsModel>,
    work: Seq<ClipWork>,
    document: Document,
    id: ClipId,
)
    requires
        is_all_work(work, before, document),
        before.contains_key(id),
        before[id].end <= document.clips@[id].chunks@.end(),
        forall|k: int|
            0 <= k < work.len() ==> after[(#[trigger] work[k]).clip_id].end
                == before[work[k].clip_id].end + (work[k].end_index - work[k].start_index),
        !work_ids(work).contains(id) ==> after[id] == before[id],
    ensures
        after[id].end == document.clips@[id].chunks@.end(),
{
    if work_ids(work).contains(id) {
        let k = choose|k: int| 0 <= k < work_ids(work).len() && work_ids(work)[k] == id;
        assert(work[k].clip_id == id);
    }
}

/// A change is found by the clip that it is about, and there is none for any other clip.
pub proof fn changes_are_found(changes: Seq<ClipChange>, id: ClipId, k: int)
    requires
        increasing(change_ids(changes)),
    ensures
        0 <= k < changes.len() && changes[k].clip_id == id ==> change_of(changes, id) == Some(
            changes[k],
        ),
        (forall|j: int| 0 <= j < changes.len() ==> (#[trigger] changes[j]).clip_id != id)
            ==> change_of(changes, id) is None,
        change_of(changes, id) is Some ==> change_of(changes, id)->0.clip_id == id,
{
    let ids = change_ids(changes);
    if ids.contains(id) {
        let j = ids.index_of(id);
        assert(0 <= j < ids.len() && ids[j] == id);
        assert(changes[j].clip_id == id);
        if 0 <= k < changes.len() && changes[k].clip_id == id {
            assert(ids[k] == id);
            if j < k {
                assert(ids[j] < ids[k]);
            } else if k < j {
                assert(ids[k] < ids[j]);
            }
        }
    } else if 0 <= k < changes.len() {
        assert(ids[k] == changes[k].clip_id);
        assert(ids.contains(ids[k]));
    }
}

/// A new clip is drawn from its beginning. So is one that changed in its sample rate or its chunk
/// size, one whose chunks were replaced, and one that grew after its last row was drawn. Any
/// other clip that changed keeps its rows and takes up its new description, and a clip that did
/// not change stays as it is.
pub proof fn changed_clips_are_drawn_again(
    graphics: Map<ClipId, GraphicsModel>,
    old: Document,
    new: Document,
    changes: Seq<ClipChange>,
    fft_sizes: Map<ClipId, u32>,
    id: ClipId,
    continues: bool,
)
    requires
        new.clips@.contains_key(id),
    ensures
        ({
            let after = updated_graphics(graphics, old, new, changes, fft_sizes, id);
            let was = *old.clips@[id];
            let now = *new.clips@[id];
            let from_its_beginning = {
                &&& after.start == now.chunks@.start && after.end == now.chunks@.start
                &&& after.segments.len() == 0
                &&& after.active
                &&& after.descriptor == now.descriptor
                &&& after.fft_size == fft_sizes[id]
            };
            let changed = old.clips@.contains_key(id) && (change_of(changes, id) matches Some(change)
                && change.continues == continues);
            &&& !old.clips@.contains_key(id) ==> from_its_beginning
            &&& old.clips@.contains_key(id) && change_of(changes, id) is None ==> after
                == graphics[id]
            &&& changed && !now.descriptor.sample_rate.same(was.descriptor.sample_rate)
                ==> from_its_beginning
            &&& changed && now.descriptor.chunk_size != was.descriptor.chunk_size
                ==> from_its_beginning
            &&& changed && !continues ==> from_its_beginning
            &&& changed && !graphics[id].active && now.chunks@.end() > graphics[id].end
                ==> from_its_beginning
            &&& changed && continues && now.descriptor.sample_rate.same(was.descriptor.sample_rate)
                && now.descriptor.chunk_size == was.descriptor.chunk_size && (graphics[id].active
                || now.chunks@.end() <= graphics[id].end) ==> {
                &&& after.descriptor == now.descriptor
                &&& after.start == graphics[id].start && after.end == graphics[id].end
                &&& after.segments == graphics[id].segments
                &&& after.active == graphics[id].active
                &&& after.fft_size == graphics[id].fft_size
            }
        }),
{
}

/// Clips that are left keep the order in which they are drawn.
pub proof fn clips_that_are_left_keep_their_order(order: Seq<ClipId>, ids: Set<ClipId>, id: ClipId)
    requires
        order.no_duplicates(),
    ensures
        those_in(order, ids).no_duplicates(),
        those_in(order, ids).contains(id) <==> order.contains(id) && ids.contains(id),
        forall|a: int, b: int|
            0 <= a < b < those_in(order, ids).len() ==> order.index_of(
                #[trigger] those_in(order, ids)[a],
            ) < order.index_of(#[trigger] those_in(order, ids)[b]),
{
    those_in_is_in_order(order, ids);
    filtered_in_order(order, |clip: ClipId| ids.contains(clip));
}

/// Whether a clip was brought to the top, and the others kept their order.
pub open spec fn brought_to_top(before: Seq<ClipId>, id: ClipId, after: Seq<ClipId>) -> bool {
    after == if before.contains(id) {
        before.remove(before.index_of(id)).push(id)
    } else {
        before
    }
}

/// A clip that is brought to the top is drawn last. The others are drawn in the order in which
/// they were, and no clip is lost or drawn twice.
pub proof fn the_top_is_drawn_last(before: Seq<ClipId>, id: ClipId, after: Seq<ClipId>, other: ClipId)
    requires
        before.no_duplicates(),
        brought_to_top(before, id, after),
    ensures
        before.contains(id) ==> after.last() == id,
        !before.contains(id) ==> after == before,
        after.len() == before.len(),
        after.no_duplicates(),
        after.contains(other) <==> before.contains(other),
        forall|a: int, b: int|
            0 <= a < b < after.len() && (#[trigger] after[b]) != id ==> before.index_of(
                #[trigger] after[a],
            ) < before.index_of(after[b]),
{
    if before.contains(id) {
        let at = before.index_of(id);
        assert(0 <= at < before.len() && before[at] == id);
        assert(forall|k: int| 0 <= k < at ==> after[k] == before[k]);
        assert(forall|k: int| at <= k < after.len() - 1 ==> after[k] == before[k + 1]);
        if before.contains(other) {
            let k = choose|k: int| 0 <= k < before.len() && before[k] == other;
            if k < at {
                assert(after[k] == other);
            } else if k > at {
                assert(after[k - 1] == other);
            } else {
                assert(after[after.len() - 1] == other);
            }
        }
        if after.contains(other) {
            let k = choose|k: int| 0 <= k < after.len() && after[k] == other;
            if k < at {
                assert(before[k] == other);
            } else if k < after.len() - 1 {
                assert(before[k + 1] == other);
            }
        }
    }
    assert forall|a: int, b: int|
        0 <= a < b < after.len() && (#[trigger] after[b]) != id implies before.index_of(
        #[trigger] after[a],
    ) < before.index_of(after[b]) by {
        let at = if before.contains(id) {
            before.index_of(id)
        } else {
            before.len() as int
        };
        let p = if a < at {
            a
        } else {
            a + 1
        };
        let q = if b < at {
            b
        } else {
            b + 1
        };
        assert(before[p] == after[a]);
        assert(before[q] == after[b]);
        assert(before.contains(after[a]) && before.contains(after[b]));
        let i = before.index_of(after[a]);
        let j = before.index_of(after[b]);
        assert(before[i] == after[a] && 0 <= i < before.len());
        assert(before[j] == after[b] && 0 <= j < before.len());
        assert(i == p && j == q);
    }
}

/// Whether what is drawn of clips that are not recorded to was finished.
pub open spec fn was_finished(
    before: Map<ClipId, GraphicsModel>,
    active: Set<ClipId>,
    after: Map<ClipId, GraphicsModel>,
) -> bool {
    &&& after.dom() == before.dom()
    &&& forall|id: ClipId| #[trigger]
        after.contains_key(id) ==> after[id] == (GraphicsModel {
            active: before[id].active && active.contains(id),
            ..before[id]
        })
}

/// What is drawn of a clip is finished once the clip is not recorded to, and stays finished. Its
/// rows stay.
pub proof fn clips_are_finished_once(
    before: Map<ClipId, GraphicsModel>,
    active: Set<ClipId>,
    after: Map<ClipId, GraphicsModel>,
    id: ClipId,
)
    requires
        was_finished(before, active, after),
    ensures
        after.contains_key(id) <==> before.contains_key(id),
        before.contains_key(id) && !active.contains(id) ==> !after[id].active,
        before.contains_key(id) && active.contains(id) ==> after[id].active == before[id].active,
        before.contains_key(id) ==> after[id].start == before[id].start && after[id].end
            == before[id].end && after[id].segments == before[id].segments && after[id].descriptor
            == before[id].descriptor && after[id].fft_size == before[id].fft_size,
{
    assert(after.contains_key(id) <==> after.dom().contains(id));
    assert(before.contains_key(id) <==> before.dom().contains(id));
}

} // verus!
