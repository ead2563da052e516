//! Keeping the streams of a speech recognizer, and what it says.

use std::collections::BTreeSet;

use crate::id_factory::IdFactory;
use crate::maps::{
    all_are_taken, increasing, list_grows, lists, next_is_taken, sorted_members, taken_are_below,
};
use vstd::prelude::*;
use vstd::string::*;

verus! {

#[derive(Clone, Copy, Debug, PartialEq, Eq, Structural)]
pub enum AsrError {
    /// The speech recognizer does not run any more.
    Crashed,
}

/// The streams of a speech recognizer.
pub struct AsrWorker {
    streams: BTreeSet<usize>,
    id_factory: IdFactory,
}

impl AsrWorker {
    /// The streams that are kept.
    pub closed spec fn streams(&self) -> Set<usize> {
        self.streams@
    }

    /// The next stream.
    pub closed spec fn next_stream(&self) -> nat {
        self.id_factory.next_id()
    }

    /// Every stream has a number that was given out.
    pub open spec fn wf(&self) -> bool {
        forall|id: usize| #[trigger] self.streams().contains(id) ==> id < self.next_stream()
    }

    /// No streams.
    pub fn new() -> (worker: Self)
        ensures
            worker.wf(),
            worker.streams() == Set::<usize>::empty(),
            worker.next_stream() == 0,
    {
        AsrWorker { streams: BTreeSet::new(), id_factory: IdFactory::default() }
    }

    /// Forgets the streams that nobody uses any more. Returns those.
    pub fn clean_up(&mut self, used: &BTreeSet<usize>) -> (dropped: Vec<usize>)
        requires
            old(self).wf(),
        ensures
            final(self).wf(),
            final(self).streams() == old(self).streams().intersect(used@),
            final(self).next_stream() == old(self).next_stream(),
            lists(dropped@, old(self).streams().difference(used@)),
            were_cleaned_up(old(self).streams(), used@, final(self).streams(), dropped@),
    {
        let ids: Vec<usize> = sorted_members(&self.streams);
        let mut kept: BTreeSet<usize> = BTreeSet::new();
        let mut dropped: Vec<usize> = Vec::new();
        let mut i: usize = 0;
        proof {
            all_are_taken(ids@, self.streams@);
        }
        while i < ids.len()
            invariant
                i <= ids@.len(),
                increasing(ids@),
                kept@ == ids@.take(i as int).to_set().intersect(used@),
                lists(dropped@, ids@.take(i as int).to_set().difference(used@)),
            decreases ids@.len() - i,
        {
            let id: usize = ids[i];
            let ghost less = ids@.take(i as int).to_set();
            let ghost more = ids@.take(i as int + 1).to_set();
            proof {
                next_is_taken(ids@, i as int);
            }
            if used.contains(&id) {
                kept.insert(id);
                assert(more.difference(used@) =~= less.difference(used@));
            } else {
                proof {
                    assert forall|k: usize| #[trigger]
                        less.difference(used@).contains(k) implies k < id by {
                        taken_are_below(ids@, i as int, k);
                    }
                    list_grows(dropped@, less.difference(used@), id);
                    assert(more.difference(used@) =~= less.difference(used@).insert(id));
                    assert(more.intersect(used@) =~= less.intersect(used@));
                }
                dropped.push(id);
            }
            assert(kept@ =~= more.intersect(used@));
            i = i + 1;
        }
        self.streams = kept;
        assert forall|id: usize| #[trigger] self.streams().contains(id) implies id
            < self.next_stream() by {
            assert(old(self).streams().contains(id));
        }
        dropped
    }

    /// Starts a stream.
    pub fn create_stream(&mut self) -> (id: usize)
        requires
            old(self).wf(),
            old(self).next_stream() < usize::MAX,
        ensures
            final(self).wf(),
            id == old(self).next_stream(),
            !old(self).streams().contains(id),
            final(self).streams() == old(self).streams().insert(id),
            final(self).next_stream() == old(self).next_stream() + 1,
            was_created(*old(self), id, *final(self)),
    {
        let id: usize = self.id_factory.create();
        self.streams.insert(id);
        assert forall|other: usize| #[trigger] self.streams().contains(other) implies other
            < self.next_stream() by {
            assert(other != id ==> old(self).streams().contains(other));
        }
        id
    }
}

/// What was said, if anything was.
pub fn transcript(text: String) -> (said: Option<String>)
    ensures
        said == if text@.len() == 0 {
            None
        } else {
            Some(text)
        },
{
    if text.as_str().unicode_len() == 0 {
        None
    } else {
        Some(text)
    }
}

/// What the speech recognizer replied, or that it does not run any more.
pub fn reply<T>(received: Option<T>) -> (result: Result<T, AsrError>)
    ensures
        result == match received {
            Some(value) => Ok::<T, AsrError>(value),
            None => Err(AsrError::Crashed),
        },
{
    match received {
        Some(value) => Ok(value),
        None => Err(AsrError::Crashed),
    }
}

/// Everything that was said, one after the other.
pub open spec fn all_said(pieces: Seq<Option<String>>) -> Seq<char>
    decreases pieces.len(),
{
    if pieces.len() == 0 {
        Seq::empty()
    } else {
        match pieces.last() {
            Some(text) => all_said(pieces.drop_last()) + text@,
            None => all_said(pieces.drop_last()),
        }
    }
}

/// Everything that was said, one after the other, if anything was.
pub fn join_said(pieces: &Vec<Option<String>>) -> (said: Option<String>)
    ensures
        said is Some <==> exists|k: int| 0 <= k < pieces@.len() && #[trigger] pieces@[k] is Some,
        said is Some ==> said->0@ == all_said(pieces@),
{
    let mut said: Option<String> = None;
    let mut i: usize = 0;
    assert(pieces@.take(0) =~= Seq::<Option<String>>::empty());
    while i < pieces.len()
        invariant
            i <= pieces@.len(),
            said is Some <==> exists|k: int| 0 <= k < i && #[trigger] pieces@[k] is Some,
            said is Some ==> said->0@ == all_said(pieces@.take(i as int)),
            said is None ==> all_said(pieces@.take(i as int)) == Seq::<char>::empty(),
        decreases pieces@.len() - i,
    {
        proof {
            assert(pieces@.take(i as int + 1).drop_last() =~= pieces@.take(i as int));
            assert(pieces@.take(i as int + 1).last() == pieces@[i as int]);
        }
        if let Some(text) = &pieces[i] {
            let mut joined: String = match said {
                Some(before) => before,
                None => {
                    proof {
                        reveal_strlit("");
                    }
                    "".to_owned()
                },
            };
            let ghost before = joined@;
            joined.append(text.as_str());
            proof {
                reveal_strlit("");
                assert(joined@ =~= all_said(pieces@.take(i as int)) + text@);
                assert(pieces@[i as int] is Some);
            }
            said = Some(joined);
        }
        i = i + 1;
    }
    assert(pieces@.take(i as int) =~= pieces@);
    said
}

/// What was said is put together in order, and a piece in which nothing was said adds nothing.
pub proof fn what_was_said_is_put_together(
    first: Seq<Option<String>>,
    second: Seq<Option<String>>,
    piece: Option<String>,
)
    ensures
        all_said(first + second) == all_said(first) + all_said(second),
        all_said(seq![piece]) == match piece {
            Some(text) => text@,
            None => Seq::<char>::empty(),
        },
    decreases second.len(),
{
    let one = seq![piece];
    assert(one.drop_last() =~= Seq::<Option<String>>::empty());
    assert(all_said(one.drop_last()) =~= Seq::<char>::empty());
    assert(all_said(one) =~= match piece {
        Some(text) => text@,
        None => Seq::<char>::empty(),
    });
    if second.len() == 0 {
        assert(first + second =~= first);
        assert(all_said(first) + all_said(second) =~= all_said(first));
    } else {
        what_was_said_is_put_together(first, second.drop_last(), piece);
        assert((first + second).drop_last() =~= first + second.drop_last());
        assert(all_said(first + second) =~= all_said(first) + all_said(second));
    }
}

/// Whether the streams that are no longer used were dropped.
pub open spec fn were_cleaned_up(
    before: Set<usize>,
    used: Set<usize>,
    after: Set<usize>,
    dropped: Seq<usize>,
) -> bool {
    &&& after == before.intersect(used)
    &&& lists(dropped, before.difference(used))
}

/// Whether a stream was created.
pub open spec fn was_created(before: AsrWorker, id: usize, after: AsrWorker) -> bool {
    &&& id == before.next_stream()
    &&& after.streams() == before.streams().insert(id)
    &&& after.next_stream() == before.next_stream() + 1
}

/// A stream is dropped exactly where it is no longer used, and any other stays.
pub proof fn unused_streams_are_dropped(
    before: Set<usize>,
    used: Set<usize>,
    after: Set<usize>,
    dropped: Seq<usize>,
    id: usize,
)
    requires
        were_cleaned_up(before, used, after, dropped),
    ensures
        after.contains(id) <==> before.contains(id) && used.contains(id),
        dropped.contains(id) <==> before.contains(id) && !used.contains(id),
        before.contains(id) <==> after.contains(id) || dropped.contains(id),
        !(after.contains(id) && dropped.contains(id)),
{
}

/// A stream that is created is a new one, and those that there are stay. A later one is not given
/// its number.
pub proof fn streams_are_not_mistaken(
    before: AsrWorker,
    id: usize,
    between: AsrWorker,
    later_id: usize,
    after: AsrWorker,
    other: usize,
)
    requires
        before.wf(),
        was_created(before, id, between),
        was_created(between, later_id, after),
    ensures
        !before.streams().contains(id),
        between.streams().contains(id),
        other != id ==> (between.streams().contains(other) <==> before.streams().contains(other)),
        id != later_id,
        after.streams().contains(id) && after.streams().contains(later_id),
{
}

} // verus!
