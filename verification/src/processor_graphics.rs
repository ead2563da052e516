//! The list of processors: adding to it, and what is shown of it.

use std::collections::{BTreeMap, BTreeSet};

use crate::analysis::{ProcessorId, ProcessorInstanceId, ProcessorParameters};
use crate::maps::{all_are_taken, list_grows, lists, next_is_taken, sorted_keys, taken_are_below};
use crate::processor::{kind_names, SpecificProcessorParameters};
use crate::text::{
    contains_text, decimal, decimal_text, holds_text, parsed, parsing_undoes_writing, starts_with,
    what_texts_hold,
};
use vstd::prelude::*;
use vstd::string::*;

verus! {

/// A text in small letters, as [`str::to_lowercase`] writes it.
pub uninterp spec fn lowercase(text: Seq<char>) -> Seq<char>;

/// [`str::to_lowercase`]: the text in small letters. What the small letter of a letter is,
/// the Unicode tables of the standard library say; here it is only named.
#[verifier::external_body]
fn to_lowercase(text: &str) -> (small: String)
    ensures
        small@ == lowercase(text@),
{
    text.to_lowercase()
}

/// What is shown of the list of processors.
pub struct ProcessorGraphics {
    pub search_text: String,
    pub filter_enabled: bool,
    pub filter_has_data: bool,
}

/// What is known of one processor in the list.
#[derive(Clone, Copy, Debug, PartialEq, Eq, Structural)]
pub struct ProcessorEntry {
    pub enabled: bool,
    pub has_data: bool,
    /// Whether it is being set up.
    pub show_setup: bool,
}

/// Whether a processor is shown. One that is being set up always is. Where something is
/// searched for, those are that are called so; else those that the filters let through.
pub open spec fn is_shown(
    found: Option<bool>,
    filter_enabled: bool,
    filter_has_data: bool,
    entry: ProcessorEntry,
) -> bool {
    entry.show_setup || match found {
        Some(found) => found,
        None => (filter_enabled ==> entry.enabled) && (filter_has_data ==> entry.has_data),
    }
}

/// Whether a processor is shown, where it is known whether it is called what is searched
/// for, if anything is.
pub fn decide_shown(
    found: Option<bool>,
    filter_enabled: bool,
    filter_has_data: bool,
    entry: ProcessorEntry,
) -> (shown: bool)
    ensures
        shown == is_shown(found, filter_enabled, filter_has_data, entry),
{
    if entry.show_setup {
        return true;
    }
    match found {
        Some(found) => found,
        None => !(filter_enabled && !entry.enabled) && !(filter_has_data && !entry.has_data),
    }
}

/// Whether a name holds what is searched for, both written in small letters already.
/// Nothing is searched for where that is empty.
pub open spec fn found(small_name: Seq<char>, small_search: Seq<char>) -> Option<bool> {
    if small_search.len() == 0 {
        None
    } else {
        Some(holds_text(small_name, small_search))
    }
}

/// Whether a name holds what is searched for.
pub fn find(small_name: &str, small_search: &str) -> (result: Option<bool>)
    ensures
        result == found(small_name@, small_search@),
{
    if small_search.unicode_len() == 0 {
        None
    } else {
        Some(contains_text(small_name, small_search))
    }
}

impl ProcessorGraphics {
    /// All processors are shown.
    pub fn new() -> (graphics: Self)
        ensures
            graphics.search_text@ == Seq::<char>::empty(),
            !graphics.filter_enabled,
            !graphics.filter_has_data,
    {
        proof {
            reveal_strlit("");
            assert(""@ =~= Seq::<char>::empty());
        }
        ProcessorGraphics {
            search_text: "".to_owned(),
            filter_enabled: false,
            filter_has_data: false,
        }
    }

    /// Whether a processor is shown.
    pub fn shows(&self, name: &str, entry: ProcessorEntry) -> (shown: bool)
        ensures
            shown == is_shown(
                found(lowercase(name@), lowercase(self.search_text@)),
                self.filter_enabled,
                self.filter_has_data,
                entry,
            ),
    {
        let small_search = to_lowercase(self.search_text.as_str());
        let small_name = to_lowercase(name);
        decide_shown(
            find(small_name.as_str(), small_search.as_str()),
            self.filter_enabled,
            self.filter_has_data,
            entry,
        )
    }

    /// The filter for enabled processors was switched. Switching it on switches the other
    /// one off.
    pub fn set_filter_enabled(&mut self, on: bool)
        ensures
            final(self).filter_enabled == on,
            final(self).filter_has_data == (old(self).filter_has_data && !on),
            final(self).search_text == old(self).search_text,
            filter_was_set(
                old(self).filter_enabled,
                old(self).filter_has_data,
                on,
                final(self).filter_enabled,
                final(self).filter_has_data,
            ),
    {
        if on {
            self.filter_has_data = false;
        }
        self.filter_enabled = on;
    }

    /// The filter for processors that have data was switched. Switching it on switches the
    /// other one off.
    pub fn set_filter_has_data(&mut self, on: bool)
        ensures
            final(self).filter_has_data == on,
            final(self).filter_enabled == (old(self).filter_enabled && !on),
            final(self).search_text == old(self).search_text,
            filter_was_set(
                old(self).filter_has_data,
                old(self).filter_enabled,
                on,
                final(self).filter_has_data,
                final(self).filter_enabled,
            ),
    {
        if on {
            self.filter_enabled = false;
        }
        self.filter_has_data = on;
    }
}

pub type Parameters = ProcessorParameters<SpecificProcessorParameters>;

/// The number of a processor that is added: one more than the largest, or one.
pub open spec fn is_next_id(ids: Set<ProcessorId>, next: int) -> bool {
    &&& forall|id: ProcessorId| #[trigger] ids.contains(id) ==> id < next
    &&& ids == Set::<ProcessorId>::empty() ==> next == 1
    &&& ids != Set::<ProcessorId>::empty() ==> exists|id: ProcessorId| #[trigger]
        ids.contains(id) && next == id + 1
}

/// The processors of a kind.
pub open spec fn of_kind(processors: Map<ProcessorId, Parameters>, kind: int) -> Set<ProcessorId> {
    Set::new(
        |id: ProcessorId|
            processors.contains_key(id) && processors[id].specific_parameters.kind() == kind,
    )
}

/// What processor number `count + 1` of a kind is called.
pub open spec fn processor_name(kind_name: Seq<char>, count: nat) -> Seq<char> {
    kind_name + seq![' '] + decimal(count + 1)
}

/// How many processors of a kind there are.
fn count_of_kind(
    processors: &BTreeMap<ProcessorId, Parameters>,
    specific_parameters: &SpecificProcessorParameters,
) -> (count: usize)
    ensures
        count == of_kind(processors@, specific_parameters.kind()).len(),
        count <= processors@.dom().len(),
{
    let ids: Vec<ProcessorId> = sorted_keys(processors);
    let ghost kind = specific_parameters.kind();
    let ghost chosen = of_kind(processors@, kind);
    let mut count: usize = 0;
    let mut i: usize = 0;
    proof {
        all_are_taken(ids@, processors@.dom());
        crate::maps::list_length(ids@, processors@.dom());
        assert(ids@.take(0).to_set().intersect(chosen) =~= Set::<ProcessorId>::empty());
    }
    while i < ids.len()
        invariant
            i <= ids@.len(),
            lists(ids@, processors@.dom()),
            kind == specific_parameters.kind(),
            chosen == of_kind(processors@, kind),
            count <= i,
            ids@.take(i as int).to_set().intersect(chosen).finite(),
            count == ids@.take(i as int).to_set().intersect(chosen).len(),
        decreases ids@.len() - i,
    {
        let id: ProcessorId = ids[i];
        let ghost before = ids@.take(i as int).to_set();
        proof {
            next_is_taken(ids@, i as int);
            assert(ids@.contains(id));
            assert(processors@.contains_key(id));
            if before.contains(id) {
                taken_are_below(ids@, i as int, id);
            }
        }
        let same: bool = same_kind(
            &processors.get(&id).unwrap().specific_parameters,
            specific_parameters,
        );
        if same {
            assert(before.insert(id).intersect(chosen) =~= before.intersect(chosen).insert(id));
            count = count + 1;
        } else {
            assert(before.insert(id).intersect(chosen) =~= before.intersect(chosen));
        }
        i = i + 1;
    }
    proof {
        all_are_taken(ids@, processors@.dom());
        assert(processors@.dom().intersect(chosen) =~= chosen);
    }
    count
}

/// Whether two processors are of the same kind.
fn same_kind(a: &SpecificProcessorParameters, b: &SpecificProcessorParameters) -> (same: bool)
    ensures
        same == (a.kind() == b.kind()),
{
    match (a, b) {
        (SpecificProcessorParameters::Fm(_), SpecificProcessorParameters::Fm(_)) => true,
    }
}

/// The number that a processor gets which is added.
pub fn next_processor_id(processors: &BTreeMap<ProcessorId, Parameters>) -> (next: Option<
    ProcessorId,
>)
    ensures
        next is Some ==> is_next_id(processors@.dom(), next->0 as int),
        next is None <==> processors@.contains_key(usize::MAX),
{
    let ids: Vec<ProcessorId> = sorted_keys(processors);
    if ids.len() == 0 {
        proof {
            assert forall|id: ProcessorId| !processors@.contains_key(id) by {
                assert(!ids@.contains(id));
            }
            assert(processors@.dom() =~= Set::<ProcessorId>::empty());
        }
        return Some(1);
    }
    let largest: ProcessorId = ids[ids.len() - 1];
    proof {
        assert(ids@.contains(largest));
        assert forall|id: ProcessorId| #[trigger] processors@.contains_key(id) implies id
            <= largest by {
            assert(ids@.contains(id));
            let j = choose|j: int| 0 <= j < ids@.len() && ids@[j] == id;
            if j < ids@.len() - 1 {
                assert(ids@[j] < ids@[ids@.len() - 1]);
            }
        }
        assert(processors@.dom().contains(largest));
    }
    if largest == usize::MAX {
        None
    } else {
        Some(largest + 1)
    }
}

/// Adds a processor, with a name by which it can be told from the others of its kind.
/// Returns its number.
pub fn add_processor(
    processors: &mut BTreeMap<ProcessorId, Parameters>,
    specific_parameters: SpecificProcessorParameters,
) -> (id: ProcessorId)
    requires
        !old(processors)@.contains_key(usize::MAX),
        old(processors)@.dom().len() < usize::MAX,
    ensures
        is_next_id(old(processors)@.dom(), id as int),
        final(processors)@.dom() == old(processors)@.dom().insert(id),
        forall|other: ProcessorId| #[trigger]
            old(processors)@.contains_key(other) ==> final(processors)@[other] == old(processors)@[other],
        final(processors)@[id].enabled,
        final(processors)@[id].specific_parameters == specific_parameters,
        final(processors)@[id].name@ == processor_name(
            kind_names()[specific_parameters.kind()],
            of_kind(old(processors)@, specific_parameters.kind()).len(),
        ),
{
    let id: ProcessorId = next_processor_id(processors).unwrap();
    let count: usize = count_of_kind(processors, &specific_parameters);
    let mut name = specific_parameters.kind_name().to_owned();
    proof {
        reveal_strlit(" ");
        assert(" "@ =~= seq![' ']);
    }
    name.append(" ");
    let number = decimal_text(count as u64 + 1);
    name.append(number.as_str());
    processors.insert(id, ProcessorParameters { name, enabled: true, specific_parameters });
    id
}

/// A processor that is added gets a number that none has.
pub proof fn added_processors_are_new(ids: Set<ProcessorId>, next: ProcessorId)
    requires
        is_next_id(ids, next as int),
    ensures
        !ids.contains(next),
        next >= 1,
{
}

/// The instances for which something is still shown.
pub fn retain_instances(
    shown: &BTreeSet<ProcessorInstanceId>,
    active: &BTreeSet<ProcessorInstanceId>,
) -> (kept: Vec<ProcessorInstanceId>)
    ensures
        lists(kept@, shown@.intersect(active@)),
{
    let all: Vec<ProcessorInstanceId> = crate::maps::sorted_members(shown);
    let mut kept: Vec<ProcessorInstanceId> = Vec::new();
    let mut i: usize = 0;
    proof {
        all_are_taken(all@, shown@);
        assert(all@.take(0).to_set().intersect(active@) =~= Set::<usize>::empty());
        assert(lists(kept@, Set::<usize>::empty()));
    }
    while i < all.len()
        invariant
            i <= all@.len(),
            lists(all@, shown@),
            lists(kept@, all@.take(i as int).to_set().intersect(active@)),
        decreases all@.len() - i,
    {
        let id: ProcessorInstanceId = all[i];
        let ghost before = all@.take(i as int).to_set();
        proof {
            next_is_taken(all@, i as int);
        }
        if active.contains(&id) {
            proof {
                assert forall|m: usize| #[trigger]
                    before.intersect(active@).contains(m) implies m < id by {
                    taken_are_below(all@, i as int, m);
                }
                list_grows(kept@, before.intersect(active@), id);
                assert(before.insert(id).intersect(active@) =~= before.intersect(active@).insert(
                    id,
                ));
            }
            kept.push(id);
        } else {
            assert(before.insert(id).intersect(active@) =~= before.intersect(active@));
        }
        i = i + 1;
    }
    proof {
        all_are_taken(all@, shown@);
    }
    kept
}

/// A processor that is being set up is always shown. Otherwise a search decides, and where there
/// is none the filters do: without any all are shown, and each hides those that it is not about.
pub proof fn what_is_searched_for_is_shown(
    found: Option<bool>,
    filter_enabled: bool,
    filter_has_data: bool,
    entry: ProcessorEntry,
)
    ensures
        entry.show_setup ==> is_shown(found, filter_enabled, filter_has_data, entry),
        found == Some(true) ==> is_shown(found, filter_enabled, filter_has_data, entry),
        found == Some(false) && !entry.show_setup ==> !is_shown(
            found,
            filter_enabled,
            filter_has_data,
            entry,
        ),
        is_shown(None, false, false, entry),
        entry.enabled && entry.has_data ==> is_shown(None, filter_enabled, filter_has_data, entry),
        !entry.show_setup && !entry.enabled ==> !is_shown(None, true, filter_has_data, entry),
        !entry.show_setup && !entry.has_data ==> !is_shown(None, filter_enabled, true, entry),
        entry.enabled ==> is_shown(None, true, false, entry),
        entry.has_data ==> is_shown(None, false, true, entry),
{
}

/// Nothing is searched for with an empty text. Any other is found in a name exactly where it
/// stands somewhere in it.
pub proof fn names_are_searched(front: Seq<char>, search: Seq<char>, back: Seq<char>)
    ensures
        found(front, Seq::empty()) is None,
        search.len() > 0 ==> found(front + search + back, search) == Some(true),
        search.len() > 0 ==> found(front, search) is Some,
        search.len() > 0 && found(front, search) == Some(true) ==> exists|at: int|
            0 <= at && at + search.len() <= front.len() && front == #[trigger] front.take(at)
                + search + front.skip(at + search.len()),
{
    what_texts_hold(front, search, front, back);
}

/// The next processor is one behind the last one, and the first one where there is none.
pub proof fn the_next_processor_follows_the_last(
    ids: Set<ProcessorId>,
    last: ProcessorId,
    next: int,
)
    requires
        is_next_id(ids, next),
    ensures
        ids == Set::<ProcessorId>::empty() ==> next == 1,
        ids.contains(last) && (forall|id: ProcessorId| #[trigger] ids.contains(id) ==> id <= last)
            ==> next == last + 1,
        ids.contains(last) ==> last < next,
{
    if ids.contains(last) {
        assert(ids != Set::<ProcessorId>::empty());
    }
}

/// A processor is called after its kind and a number that is one more than there are of that
/// kind.
pub proof fn processors_are_numbered(kind_name: Seq<char>, count: nat)
    requires
        count < usize::MAX,
    ensures
        starts_with(processor_name(kind_name, count), kind_name),
        processor_name(kind_name, count)[kind_name.len() as int] == ' ',
        parsed(
            processor_name(kind_name, count).skip(kind_name.len() as int + 1),
            usize::MAX as nat,
        ) == Some((count + 1) as nat),
{
    let name = processor_name(kind_name, count);
    assert(name.take(kind_name.len() as int) =~= kind_name);
    assert(name.skip(kind_name.len() as int + 1) =~= decimal(count + 1));
    parsing_undoes_writing(count + 1, usize::MAX as nat);
}

/// The processors of a kind are those whose parameters are of it.
pub proof fn processors_of_a_kind(
    processors: Map<ProcessorId, Parameters>,
    id: ProcessorId,
    kind: int,
)
    ensures
        of_kind(processors, kind).contains(id) ==> processors.contains_key(id)
            && processors[id].specific_parameters.kind() == kind,
        processors.contains_key(id) ==> of_kind(
            processors,
            processors[id].specific_parameters.kind(),
        ).contains(id),
        of_kind(processors.remove(id), kind) == of_kind(processors, kind).remove(id),
{
    assert(of_kind(processors.remove(id), kind) =~= of_kind(processors, kind).remove(id));
}

/// Whether a filter was switched, and what became of the other one.
pub open spec fn filter_was_set(
    before: bool,
    other_before: bool,
    on: bool,
    after: bool,
    other_after: bool,
) -> bool {
    &&& after == on
    &&& other_after == (other_before && !on)
}

/// At most one filter is on: the one that is switched on switches the other one off. Switching one
/// off leaves the other one as it is.
pub proof fn at_most_one_filter_is_on(
    before: bool,
    other_before: bool,
    on: bool,
    after: bool,
    other_after: bool,
)
    requires
        filter_was_set(before, other_before, on, after, other_after),
    ensures
        after <==> on,
        !(after && other_after),
        !on ==> other_after == other_before,
        on ==> !other_after,
{
}

} // verus!
