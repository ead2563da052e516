use vstd::prelude::*;
use vstd::std_specs::cmp::PartialEqSpec;

verus! {

/// A run of items that are numbered consecutively from `start`.
///
/// An item keeps its number for as long as it is in the run: items that join or
/// leave at either end do not renumber the others.
#[verifier::ext_equal]
pub struct IndexedSeq<T> {
    pub start: int,
    pub items: Seq<T>,
}

impl<T> IndexedSeq<T> {
    /// The run without items whose next item will be numbered `start`.
    pub open spec fn empty(start: int) -> Self {
        IndexedSeq { start, items: Seq::empty() }
    }

    /// One past the number of the last item.
    pub open spec fn end(self) -> int {
        self.start + self.items.len()
    }

    pub open spec fn len(self) -> nat {
        self.items.len()
    }

    /// Whether an item numbered `index` is in the run.
    pub open spec fn has(self, index: int) -> bool {
        self.start <= index < self.end()
    }

    /// The item numbered `index`.
    pub open spec fn at(self, index: int) -> T
        recommends
            self.has(index),
    {
        self.items[index - self.start]
    }

    pub open spec fn push_back(self, value: T) -> Self {
        IndexedSeq { start: self.start, items: self.items.push(value) }
    }

    pub open spec fn push_front(self, value: T) -> Self {
        IndexedSeq { start: self.start - 1, items: seq![value] + self.items }
    }

    pub open spec fn pop_back(self) -> Self
        recommends
            self.len() > 0,
    {
        IndexedSeq { start: self.start, items: self.items.drop_last() }
    }

    pub open spec fn pop_front(self) -> Self
        recommends
            self.len() > 0,
    {
        IndexedSeq { start: self.start + 1, items: self.items.drop_first() }
    }

    /// The run without the items numbered below `index`.
    pub open spec fn remove_front(self, index: int) -> Self {
        if index <= self.start {
            self
        } else if index >= self.end() {
            IndexedSeq::empty(index)
        } else {
            IndexedSeq { start: index, items: self.items.skip(index - self.start) }
        }
    }
}

/// Whether `b` holds the items of `a` under the same numbers, each one kept as it
/// is or replaced by a clone of itself.
pub open spec fn same_or_cloned<T: Clone>(a: IndexedSeq<T>, b: IndexedSeq<T>) -> bool {
    &&& a.start == b.start
    &&& a.items.len() == b.items.len()
    &&& forall|i: int| 0 <= i < a.items.len() ==> #[trigger] cloned(a.items[i], b.items[i])
}

/// Whether a clone of a `T` is always equal to the value it was made from.
pub open spec fn clones_exactly<T: Clone>() -> bool {
    forall|a: T, b: T| #[trigger] cloned(a, b) ==> a == b
}

/// The number of its first item and its items are all that there is to a run: a run that is
/// made from those of another one is that other one.
pub proof fn elements_give_back_the_run<T>(saved: IndexedSeq<T>, loaded: IndexedSeq<T>)
    requires
        loaded == (IndexedSeq { start: saved.start, items: saved.items }),
    ensures
        loaded == saved,
        forall|i: int| saved.has(i) <==> #[trigger] loaded.has(i),
        forall|i: int| saved.has(i) ==> #[trigger] loaded.at(i) == saved.at(i),
{
}

/// Where clones are exact, a run whose items were kept or cloned is unchanged.
pub proof fn same_or_cloned_is_equality<T: Clone>(a: IndexedSeq<T>, b: IndexedSeq<T>)
    requires
        clones_exactly::<T>(),
        same_or_cloned(a, b),
    ensures
        a == b,
{
    assert forall|i: int| 0 <= i < a.items.len() implies a.items[i] == b.items[i] by {
        assert(cloned(a.items[i], b.items[i]));
    }
    assert(a.items =~= b.items);
}

/// Whether `newer` overlaps `older`, reaches back no further than `older` and does
/// not end before it.
pub open spec fn extends<T>(newer: IndexedSeq<T>, older: IndexedSeq<T>) -> bool {
    &&& older.start <= newer.start
    &&& newer.start < older.end()
    &&& older.end() <= newer.end()
}

/// Whether `newer` extends `older` and their items are equal, by `==`, where they
/// overlap.
pub open spec fn continues<T: PartialEq>(newer: IndexedSeq<T>, older: IndexedSeq<T>) -> bool {
    &&& extends(newer, older)
    &&& forall|i: int|
        newer.start <= i < older.end() ==> (#[trigger] newer.at(i)).eq_spec(&older.at(i))
}

/// Whether `newer` extends `older` and holds the same items where they overlap.
pub open spec fn keeps<T>(newer: IndexedSeq<T>, older: IndexedSeq<T>) -> bool {
    &&& extends(newer, older)
    &&& forall|i: int| newer.start <= i < older.end() ==> #[trigger] newer.at(i) == older.at(i)
}

/// Whether two values are the same or `==` can say that they are equal.
pub open spec fn may_be_equal<T: PartialEq>(a: T, b: T) -> bool {
    a == b || call_ensures(T::eq, (&a, &b), true)
}

/// Whether `==` can say that two values are not equal.
pub open spec fn may_differ<T: PartialEq>(a: T, b: T) -> bool {
    call_ensures(T::eq, (&a, &b), false)
}

/// Whether every value of `T` is equal to itself, by `==`.
pub open spec fn eq_is_reflexive<T: PartialEq>() -> bool {
    forall|a: T| #[trigger] a.eq_spec(&a)
}

/// A run that is not empty continues itself.
pub proof fn continues_itself<T: PartialEq>(run: IndexedSeq<T>)
    requires
        eq_is_reflexive::<T>(),
        run.len() > 0,
    ensures
        continues(run, run),
{
}

/// A run continues what it was before items were added at its end and removed from
/// its front, as long as something is left of what it was.
pub proof fn growth_and_expiry_continue<T: PartialEq>(
    run: IndexedSeq<T>,
    added: Seq<T>,
    index: int,
)
    requires
        eq_is_reflexive::<T>(),
        run.len() > 0,
        index < run.end(),
    ensures
        continues(
            (IndexedSeq { start: run.start, items: run.items + added }).remove_front(index),
            run,
        ),
{
    let grown = IndexedSeq { start: run.start, items: run.items + added };
    let newer = grown.remove_front(index);
    remove_front_keeps_numbers(grown, index);
    assert forall|i: int| newer.start <= i < run.end() implies (#[trigger] newer.at(i)).eq_spec(
        &run.at(i),
    ) by {
        assert(newer.has(i));
        assert(newer.at(i) == grown.at(i));
    }
}

/// Continuation carries over from run to run for as long as the newest overlaps the
/// oldest.
pub proof fn continuation_is_transitive<T: PartialEq>(
    newest: IndexedSeq<T>,
    middle: IndexedSeq<T>,
    oldest: IndexedSeq<T>,
)
    requires
        forall|a: T, b: T, c: T|
            #[trigger] a.eq_spec(&b) && #[trigger] b.eq_spec(&c) ==> a.eq_spec(&c),
        continues(newest, middle),
        continues(middle, oldest),
        newest.start < oldest.end(),
    ensures
        continues(newest, oldest),
{
    assert forall|i: int| newest.start <= i < oldest.end() implies (#[trigger] newest.at(
        i,
    )).eq_spec(&oldest.at(i)) by {
        assert(newest.at(i).eq_spec(&middle.at(i)));
        assert(middle.at(i).eq_spec(&oldest.at(i)));
    }
}

/// Removing items from the front leaves every other item under its own number.
pub proof fn remove_front_keeps_numbers<T>(run: IndexedSeq<T>, index: int)
    ensures
        forall|i: int|
            run.remove_front(index).has(i) <==> run.has(i) && index <= i,
        forall|i: int|
            #[trigger] run.remove_front(index).has(i) ==> run.remove_front(index).at(i) == run.at(i),
        run.remove_front(index).end() == if index > run.end() { index } else { run.end() },
{
}

/// Removing below one number and then below another is removing below the larger.
pub proof fn remove_front_composes<T>(run: IndexedSeq<T>, first: int, second: int)
    ensures
        run.remove_front(first).remove_front(second) == run.remove_front(
            if first > second { first } else { second },
        ),
{
    let once = run.remove_front(if first > second { first } else { second });
    let twice = run.remove_front(first).remove_front(second);
    assert(once.items =~= twice.items);
}

/// Taking from an end gives back what was last put there.
pub proof fn pop_undoes_push<T>(run: IndexedSeq<T>, value: T)
    ensures
        run.push_back(value).items.last() == value,
        run.push_back(value).pop_back() == run,
        run.push_front(value).items.first() == value,
        run.push_front(value).pop_front() == run,
{
    assert(run.push_back(value).pop_back().items =~= run.items);
    assert(run.push_front(value).pop_front().items =~= run.items);
}

/// Items are numbered from the start on, without gaps. What is put behind them gets the number after
/// the last one and what is put before them the number before the first one, and the other items
/// keep theirs.
pub proof fn items_keep_their_numbers<T>(run: IndexedSeq<T>, value: T, i: int)
    ensures
        run.end() - run.start == run.items.len(),
        run.len() == run.items.len(),
        run.has(i) <==> run.start <= i && i < run.start + run.items.len(),
        0 <= i < run.items.len() ==> run.at(run.start + i) == run.items[i],
        IndexedSeq::<T>::empty(i).start == i && IndexedSeq::<T>::empty(i).items.len() == 0,
        run.push_back(value).start == run.start && run.push_back(value).end() == run.end() + 1,
        run.push_back(value).at(run.end()) == value,
        run.has(i) ==> run.push_back(value).has(i) && run.push_back(value).at(i) == run.at(i),
        run.push_front(value).start == run.start - 1 && run.push_front(value).end() == run.end(),
        run.push_front(value).at(run.start - 1) == value,
        run.has(i) ==> run.push_front(value).has(i) && run.push_front(value).at(i) == run.at(i),
        run.len() > 0 ==> run.pop_back().start == run.start && run.pop_back().end() == run.end()
            - 1,
        run.len() > 0 ==> run.pop_front().start == run.start + 1 && run.pop_front().end()
            == run.end(),
        run.pop_back().has(i) && run.len() > 0 ==> run.has(i) && run.pop_back().at(i) == run.at(i),
        run.pop_front().has(i) && run.len() > 0 ==> run.has(i) && run.pop_front().at(i) == run.at(
            i,
        ),
{
}

/// Items go on from others where nothing was put before those, something of those is left and
/// nothing is missing at their end. Where they go on, an item that is in both is the same.
pub proof fn items_go_on_from_others<T>(newer: IndexedSeq<T>, older: IndexedSeq<T>, i: int)
    ensures
        extends(newer, older) ==> newer.start >= older.start && newer.start < older.end()
            && newer.end() >= older.end(),
        newer.start < older.start ==> !extends(newer, older),
        newer.start >= older.end() ==> !extends(newer, older),
        newer.end() < older.end() ==> !extends(newer, older),
        newer.start >= older.start && newer.start < older.end() && newer.end() >= older.end()
            ==> extends(newer, older),
        keeps(newer, older) && newer.has(i) && older.has(i) ==> newer.at(i) == older.at(i),
        keeps(newer, older) ==> extends(newer, older),
{
}

} // verus!
