//! What is done on the canvas that the clips are drawn on: selecting clips, moving them,
//! and choosing the lines of the grid.

use std::collections::BTreeSet;

use crate::document::ClipId;
use crate::document_graphics::DocumentGraphics;
use crate::double::Double;
use vstd::prelude::*;

verus! {

/// The keys that are held down during a click.
#[derive(Clone, Copy, Debug, PartialEq, Eq, Structural)]
pub struct Modifiers {
    pub shift: bool,
    /// The control key, or the command key where there is one.
    pub command: bool,
}

/// What is selected after a click on a clip: it is added with the shift key, added or
/// removed with the control key, and else it is the only one.
pub open spec fn selection_after_click(
    selected: Set<ClipId>,
    clip_id: ClipId,
    modifiers: Modifiers,
) -> Set<ClipId> {
    if modifiers.shift {
        selected.insert(clip_id)
    } else if modifiers.command {
        if selected.contains(clip_id) {
            selected.remove(clip_id)
        } else {
            selected.insert(clip_id)
        }
    } else {
        set![clip_id]
    }
}

/// The clips in the order in which they are drawn: those that are not hovered over, and
/// then, on top of them, those that are.
pub open spec fn hovered_last(order: Seq<ClipId>, hovered: Set<ClipId>) -> Seq<ClipId> {
    order.filter(|id: ClipId| !hovered.contains(id)) + order.filter(
        |id: ClipId| hovered.contains(id),
    )
}

impl DocumentGraphics {
    /// A clip was clicked: it is brought to the top, and the selection changes.
    pub fn click(&mut self, clip_id: ClipId, modifiers: Modifiers)
        requires
            old(self).wf(),
        ensures
            final(self).wf(),
            final(self).selected@ == selection_after_click(
                old(self).selected@,
                clip_id,
                modifiers,
            ),
            final(self).draw_order@ == if old(self).draw_order@.contains(clip_id) {
                old(self).draw_order@.remove(old(self).draw_order@.index_of(clip_id)).push(clip_id)
            } else {
                old(self).draw_order@
            },
            final(self).clips == old(self).clips,
            final(self).prev_document == old(self).prev_document,
            final(self).hovered == old(self).hovered,
            final(self).next_texture == old(self).next_texture,
    {
        self.bring_to_top(clip_id);
        if modifiers.shift {
            self.selected.insert(clip_id);
        } else if modifiers.command {
            if self.selected.contains(&clip_id) {
                self.selected.remove(&clip_id);
            } else {
                self.selected.insert(clip_id);
            }
        } else {
            self.selected.clear();
            self.selected.insert(clip_id);
        }
        assert(self.selected@ =~= selection_after_click(old(self).selected@, clip_id, modifiers));
    }

    /// The background was clicked: nothing is selected any more, unless a key is held
    /// down.
    pub fn click_background(&mut self, modifiers: Modifiers)
        requires
            old(self).wf(),
        ensures
            final(self).wf(),
            final(self).selected@ == if modifiers.shift || modifiers.command {
                old(self).selected@
            } else {
                Set::<ClipId>::empty()
            },
            background_clicked(old(self).selected@, modifiers, final(self).selected@),
            final(self).clips == old(self).clips,
            final(self).prev_document == old(self).prev_document,
            final(self).hovered == old(self).hovered,
            final(self).draw_order == old(self).draw_order,
            final(self).next_texture == old(self).next_texture,
    {
        if !modifiers.shift && !modifiers.command {
            self.selected.clear();
        }
    }

    /// The clips in the order in which they are drawn. What is hovered over is then found
    /// out anew.
    pub fn take_draw_order(&mut self) -> (order: Vec<ClipId>)
        requires
            old(self).wf(),
        ensures
            final(self).wf(),
            order@ == hovered_last(old(self).draw_order@, old(self).hovered@),
            final(self).hovered@ == Set::<ClipId>::empty(),
            final(self).clips == old(self).clips,
            final(self).prev_document == old(self).prev_document,
            final(self).selected == old(self).selected,
            final(self).draw_order == old(self).draw_order,
            final(self).next_texture == old(self).next_texture,
    {
        let mut order: Vec<ClipId> = select(&self.draw_order, &self.hovered, false);
        let mut top: Vec<ClipId> = select(&self.draw_order, &self.hovered, true);
        order.append(&mut top);
        self.hovered.clear();
        order
    }

    /// A clip is hovered over.
    pub fn hover(&mut self, clip_id: ClipId)
        requires
            old(self).wf(),
        ensures
            final(self).wf(),
            final(self).hovered@ == old(self).hovered@.insert(clip_id),
            final(self).clips == old(self).clips,
            final(self).prev_document == old(self).prev_document,
            final(self).selected == old(self).selected,
            final(self).draw_order == old(self).draw_order,
            final(self).next_texture == old(self).next_texture,
    {
        self.hovered.insert(clip_id);
    }
}

/// The clips that are, or are not, hovered over.
fn select(order: &Vec<ClipId>, hovered: &BTreeSet<ClipId>, wanted: bool) -> (chosen: Vec<ClipId>)
    ensures
        wanted ==> chosen@ == order@.filter(|id: ClipId| hovered@.contains(id)),
        !wanted ==> chosen@ == order@.filter(|id: ClipId| !hovered@.contains(id)),
{
    let mut chosen: Vec<ClipId> = Vec::new();
    let ghost is_wanted = |id: ClipId| hovered@.contains(id) == wanted;
    let mut i: usize = 0;
    proof {
        reveal(Seq::filter);
    }
    while i < order.len()
        invariant
            i <= order@.len(),
            is_wanted == (|id: ClipId| hovered@.contains(id) == wanted),
            chosen@ == order@.take(i as int).filter(is_wanted),
        decreases order@.len() - i,
    {
        proof {
            reveal(Seq::filter);
            assert(order@.take(i as int + 1).drop_last() =~= order@.take(i as int));
            assert(order@.take(i as int + 1).last() == order@[i as int]);
        }
        let id: ClipId = order[i];
        if hovered.contains(&id) == wanted {
            chosen.push(id);
        }
        i = i + 1;
    }
    proof {
        assert(order@.take(i as int) =~= order@);
        assert(wanted ==> is_wanted =~= (|id: ClipId| hovered@.contains(id)));
        assert(!wanted ==> is_wanted =~= (|id: ClipId| !hovered@.contains(id)));
    }
    chosen
}

/// Clicking a clip twice with the control key held down leaves the selection as it was.
pub proof fn toggling_twice_changes_nothing(selected: Set<ClipId>, clip_id: ClipId)
    ensures
        ({
            let toggle = Modifiers { shift: false, command: true };
            selection_after_click(
                selection_after_click(selected, clip_id, toggle),
                clip_id,
                toggle,
            ) == selected
        }),
{
    let toggle = Modifiers { shift: false, command: true };
    assert(selection_after_click(selection_after_click(selected, clip_id, toggle), clip_id, toggle)
        =~= selected);
}

/// Every clip is drawn once.
pub proof fn all_clips_are_drawn(order: Seq<ClipId>, hovered: Set<ClipId>)
    ensures
        hovered_last(order, hovered).to_multiset() == order.to_multiset(),
    decreases order.len(),
{
    broadcast use vstd::seq_lib::group_to_multiset_ensures;

    reveal(Seq::filter);
    let below = |id: ClipId| !hovered.contains(id);
    let above = |id: ClipId| hovered.contains(id);
    if order.len() > 0 {
        let rest = order.drop_last();
        let last = order.last();
        all_clips_are_drawn(rest, hovered);
        assert(order =~= rest.push(last));
        vstd::seq_lib::lemma_multiset_commutative(rest.filter(below), rest.filter(above));
        vstd::seq_lib::lemma_multiset_commutative(order.filter(below), order.filter(above));
        if hovered.contains(last) {
            assert(order.filter(above) == rest.filter(above).push(last));
            assert(order.filter(below) == rest.filter(below));
        } else {
            assert(order.filter(below) == rest.filter(below).push(last));
            assert(order.filter(above) == rest.filter(above));
        }
        assert(hovered_last(order, hovered).to_multiset() =~= order.to_multiset());
    } else {
        assert(hovered_last(order, hovered) =~= order);
    }
}

/// A clip that is moved, or a stream whose frequency is changed, by dragging it: what is
/// dragged, and where it would go.
#[derive(Clone, Copy, Debug)]
pub struct DragState {
    pub target: usize,
    pub proposed: Double,
}

/// What is done to what is dragged.
#[derive(Clone, Copy, Debug)]
pub enum DragEvent {
    /// Dragging has started, from where it is.
    Started(Double),
    /// It was dragged to another place.
    Moved(Double),
    Stopped,
}

/// The drag after an event at `target`, and where that is put.
pub open spec fn dragged(
    drag: Option<DragState>,
    target: usize,
    event: DragEvent,
    enabled: bool,
) -> (Option<DragState>, Option<Double>) {
    match event {
        DragEvent::Started(from) => if enabled {
            (Some(DragState { target, proposed: from }), None)
        } else {
            (drag, None)
        },
        DragEvent::Moved(to) => if drag is Some && drag->0.target == target {
            (Some(DragState { target, proposed: to }), None)
        } else {
            (drag, None)
        },
        DragEvent::Stopped => if drag is Some && drag->0.target == target {
            (None, Some(drag->0.proposed))
        } else {
            (drag, None)
        },
    }
}

/// Takes up an event at `target`. Dragging cannot be started while it is not enabled.
/// Returns where what was dragged is put, once dragging has stopped.
pub fn drag(
    state: &mut Option<DragState>,
    target: usize,
    event: DragEvent,
    enabled: bool,
) -> (put: Option<Double>)
    ensures
        (*final(state), put) == dragged(*old(state), target, event, enabled),
{
    let here: Option<DragState> = match *state {
        Some(held) => if held.target == target {
            Some(held)
        } else {
            None
        },
        None => None,
    };
    match event {
        DragEvent::Started(from) => {
            if enabled {
                *state = Some(DragState { target, proposed: from });
            }
            None
        },
        DragEvent::Moved(to) => {
            if here.is_some() {
                *state = Some(DragState { target, proposed: to });
            }
            None
        },
        DragEvent::Stopped => match here {
            Some(held) => {
                *state = None;
                Some(held.proposed)
            },
            None => None,
        },
    }
}

/// Whether the numbers grow from each one to the next.
pub open spec fn growing(numbers: Seq<Double>) -> bool {
    forall|i: int, j: int|
        0 <= i < j < numbers.len() ==> (#[trigger] numbers[i]).below(#[trigger] numbers[j])
}

/// The distance of the lines of the grid: the first that is available and not below
/// `target`, or the last one where all are.
pub fn gridline_index(available: &Vec<Double>, target: Double) -> (index: usize)
    requires
        available@.len() > 0,
        growing(available@),
    ensures
        index < available@.len(),
        forall|k: int| 0 <= k < index ==> (#[trigger] available@[k]).below(target),
        index < available@.len() - 1 ==> !available@[index as int].below(target),
{
    let mut index: usize = 0;
    while index < available.len() - 1 && available[index].lt(target)
        invariant
            index < available@.len(),
            forall|k: int| 0 <= k < index ==> (#[trigger] available@[k]).below(target),
        decreases available@.len() - index,
    {
        index = index + 1;
    }
    index
}

/// A click selects the clip, unless it is selected already and the control key alone is held
/// down. Without a key all other clips are no longer selected; with one they stay as they were.
pub proof fn clicks_select_clips(
    selected: Set<ClipId>,
    clip_id: ClipId,
    modifiers: Modifiers,
    other: ClipId,
)
    requires
        other != clip_id,
    ensures
        ({
            let after = selection_after_click(selected, clip_id, modifiers);
            &&& after.contains(clip_id) <==> !(selected.contains(clip_id) && modifiers.command
                && !modifiers.shift)
            &&& after.contains(other) <==> selected.contains(other) && (modifiers.shift
                || modifiers.command)
        }),
{
}

/// A clip that is hovered over is drawn after all those that are not.
pub proof fn hovered_clips_are_on_top(order: Seq<ClipId>, hovered: Set<ClipId>, i: int, j: int)
    requires
        0 <= i < j < hovered_last(order, hovered).len(),
    ensures
        hovered.contains(hovered_last(order, hovered)[i]) ==> hovered.contains(
            hovered_last(order, hovered)[j],
        ),
        order.no_duplicates() && hovered.contains(hovered_last(order, hovered)[i])
            == hovered.contains(hovered_last(order, hovered)[j]) ==> order.index_of(
            hovered_last(order, hovered)[i],
        ) < order.index_of(hovered_last(order, hovered)[j]),
{
    let below = |id: ClipId| !hovered.contains(id);
    let above = |id: ClipId| hovered.contains(id);
    let drawn = hovered_last(order, hovered);
    let count = order.filter(below).len();
    filtered_in_order(order, below);
    filtered_in_order(order, above);
    if i < count {
        assert(drawn[i] == order.filter(below)[i]);
    } else {
        assert(drawn[i] == order.filter(above)[i - count]);
    }
    if j < count {
        assert(drawn[j] == order.filter(below)[j]);
    } else {
        assert(drawn[j] == order.filter(above)[j - count]);
    }
}

/// What passes stands in the order in which it stood.
pub proof fn filtered_in_order(order: Seq<ClipId>, pass: spec_fn(ClipId) -> bool)
    ensures
        forall|k: int| 0 <= k < order.filter(pass).len() ==> pass(#[trigger] order.filter(pass)[k])
            && order.contains(order.filter(pass)[k]),
        order.no_duplicates() ==> forall|a: int, b: int|
            0 <= a < b < order.filter(pass).len() ==> order.index_of(
                #[trigger] order.filter(pass)[a],
            ) < order.index_of(#[trigger] order.filter(pass)[b]),
    decreases order.len(),
{
    reveal(Seq::filter);
    if order.len() > 0 {
        let rest = order.drop_last();
        filtered_in_order(rest, pass);
        let before = rest.filter(pass);
        let after = order.filter(pass);
        assert(order.last() == order[order.len() - 1]);
        assert forall|k: int| 0 <= k < after.len() implies pass(#[trigger] after[k])
            && order.contains(after[k]) by {
            if k < before.len() {
                assert(after[k] == before[k]);
                assert(rest.contains(before[k]));
                let m = choose|m: int| 0 <= m < rest.len() && rest[m] == before[k];
                assert(order[m] == after[k]);
            } else {
                assert(after[k] == order[order.len() - 1]);
            }
        }
        if order.no_duplicates() {
            assert(rest.no_duplicates());
            assert forall|a: int, b: int| 0 <= a < b < after.len() implies order.index_of(
                #[trigger] after[a],
            ) < order.index_of(#[trigger] after[b]) by {
                assert(after[a] == before[a]);
                assert(rest.contains(before[a]));
                let m = rest.index_of(before[a]);
                assert(rest[m] == before[a] && 0 <= m < rest.len());
                assert(order[m] == after[a]);
                assert(order.contains(after[a]));
                let n = order.index_of(after[a]);
                assert(order[n] == after[a] && 0 <= n < order.len());
                assert(n == m);
                if b < before.len() {
                    assert(after[b] == before[b]);
                    assert(rest.contains(before[b]));
                    let p = rest.index_of(before[b]);
                    assert(rest[p] == before[b] && 0 <= p < rest.len());
                    assert(order[p] == after[b]);
                    assert(order.contains(after[b]));
                    let q = order.index_of(after[b]);
                    assert(order[q] == after[b] && 0 <= q < order.len());
                    assert(p == q);
                } else {
                    let q = order.index_of(after[b]);
                    assert(order.contains(after[b])) by {
                        assert(order[order.len() - 1] == after[b]);
                    }
                    assert(order[q] == after[b] && 0 <= q < order.len());
                    assert(q == order.len() - 1);
                }
            }
        }
    }
}

/// What is dragged is put where it was dragged to last, and only when dragging it stops. Nothing
/// is dragged before dragging has started, and only one thing at a time is: events at something
/// else change nothing, but for a new start.
pub proof fn dragging_puts_things_where_they_were_dragged(
    drag: Option<DragState>,
    target: usize,
    other: usize,
    from: Double,
    to: Double,
    enabled: bool,
)
    requires
        other != target,
    ensures
        ({
            let started = dragged(drag, target, DragEvent::Started(from), true).0;
            let moved = dragged(started, target, DragEvent::Moved(to), enabled);
            &&& dragged(started, target, DragEvent::Stopped, enabled) == (
                None::<DragState>,
                Some(from),
            )
            &&& moved.1 is None
            &&& dragged(moved.0, target, DragEvent::Stopped, enabled) == (
                None::<DragState>,
                Some(to),
            )
            &&& dragged(moved.0, other, DragEvent::Stopped, enabled) == (
                moved.0,
                None::<Double>,
            )
            &&& dragged(moved.0, other, DragEvent::Moved(from), enabled) == (
                moved.0,
                None::<Double>,
            )
        }),
        dragged(drag, target, DragEvent::Started(from), enabled).1 is None,
        dragged(drag, target, DragEvent::Started(from), false).0 == drag,
        dragged(None, target, DragEvent::Moved(to), enabled) == (
            None::<DragState>,
            None::<Double>,
        ),
        dragged(None, target, DragEvent::Stopped, enabled) == (None::<DragState>, None::<Double>),
{
}

/// Whether a click beside the clips was taken up by the selection.
pub open spec fn background_clicked(
    before: Set<ClipId>,
    modifiers: Modifiers,
    after: Set<ClipId>,
) -> bool {
    after == if modifiers.shift || modifiers.command {
        before
    } else {
        Set::<ClipId>::empty()
    }
}

/// A click beside the clips selects none of them, but leaves the selection as it is while it is
/// being added to.
pub proof fn clicks_beside_clips_select_none(
    before: Set<ClipId>,
    modifiers: Modifiers,
    after: Set<ClipId>,
    id: ClipId,
)
    requires
        background_clicked(before, modifiers, after),
    ensures
        !modifiers.shift && !modifiers.command ==> !after.contains(id),
        modifiers.shift || modifiers.command ==> (after.contains(id) <==> before.contains(id)),
{
}

} // verus!
