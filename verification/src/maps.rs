use std::collections::{BTreeMap, BTreeSet};

use vstd::laws_cmp::obeys_cmp;
use vstd::prelude::*;
use vstd::std_specs::cmp::OrdSpec;
use vstd::std_specs::iter::IteratorSpec;

verus! {

/// Whether the numbers grow from each one to the next.
pub open spec fn increasing(s: Seq<usize>) -> bool {
    forall|i: int, j: int| 0 <= i < j < s.len() ==> #[trigger] s[i] < #[trigger] s[j]
}

/// Whether `s` lists the members of `set`, each one once, in increasing order.
pub open spec fn lists(s: Seq<usize>, set: Set<usize>) -> bool {
    &&& increasing(s)
    &&& forall|k: usize| #[trigger] s.contains(k) <==> set.contains(k)
}

/// What a walk over an ordered collection says of the order of what is walked over.
proof fn listed_in_order(seq: Seq<&usize>, set: Set<usize>)
    requires
        vstd::std_specs::btree::increasing_seq(seq),
        seq.unref().to_set() == set,
    ensures
        lists(seq.unref(), set),
{
    broadcast use vstd::laws_cmp::group_laws_cmp;
    broadcast use vstd::std_specs::btree::group_btree_axioms;

    let s = seq.unref();
    assert(obeys_cmp::<&usize>());
    assert forall|i: int, j: int| 0 <= i < j < s.len() implies #[trigger] s[i] < #[trigger] s[j] by {
        assert(OrdSpec::cmp_spec(&seq[i], &seq[j]) is Less);
    }
    assert forall|k: usize| #[trigger] s.contains(k) <==> set.contains(k) by {
        assert(s.to_set().contains(k) <==> s.contains(k));
    }
}

/// The keys of a map, in increasing order.
pub fn sorted_keys<V>(map: &BTreeMap<usize, V>) -> (keys: Vec<usize>)
    ensures
        lists(keys@, map@.dom()),
{
    let mut keys: Vec<usize> = Vec::new();
    for key in iter: map.keys()
        invariant
            keys@ == iter.seq().unref().take(iter.index() as int),
            iter.seq() == map.keys().remaining(),
    {
        keys.push(*key);
    }
    proof {
        let seq = map.keys().remaining();
        assert(keys@ =~= seq.unref());
        listed_in_order(seq, map@.dom());
    }
    keys
}

/// The members of a set, in increasing order.
pub fn sorted_members(set: &BTreeSet<usize>) -> (members: Vec<usize>)
    ensures
        lists(members@, set@),
{
    let mut members: Vec<usize> = Vec::new();
    for key in iter: set.iter()
        invariant
            members@ == iter.seq().unref().take(iter.index() as int),
            iter.seq() == set.iter().remaining(),
    {
        members.push(*key);
    }
    proof {
        let seq = set.iter().remaining();
        assert(members@ =~= seq.unref());
        listed_in_order(seq, set@);
    }
    members
}

/// The first `count + 1` items are the first `count` and the next one.
pub proof fn next_is_taken(s: Seq<usize>, count: int)
    requires
        0 <= count < s.len(),
    ensures
        s.take(count + 1).to_set() == s.take(count).to_set().insert(s[count]),
{
    let more = s.take(count + 1);
    let less = s.take(count);
    assert forall|k: usize| more.contains(k) <==> less.contains(k) || k == s[count] by {
        if more.contains(k) {
            let j = choose|j: int| 0 <= j < more.len() && more[j] == k;
            if j < count {
                assert(less[j] == k);
            }
        }
        if less.contains(k) {
            let j = choose|j: int| 0 <= j < less.len() && less[j] == k;
            assert(more[j] == k);
        }
        assert(more[count] == s[count]);
    }
    assert(more.to_set() =~= less.to_set().insert(s[count]));
}

/// All items together are what a list lists.
pub proof fn all_are_taken(s: Seq<usize>, set: Set<usize>)
    requires
        lists(s, set),
    ensures
        s.take(s.len() as int).to_set() == set,
        s.take(0).to_set() == Set::<usize>::empty(),
{
    assert(s.take(s.len() as int) =~= s);
    assert forall|k: usize| s.to_set().contains(k) <==> set.contains(k) by {
        assert(s.contains(k) <==> set.contains(k));
    }
    assert(s.to_set() =~= set);
    assert(s.take(0).to_set() =~= Set::<usize>::empty());
}

/// A list is as long as the set that it lists has members.
pub proof fn list_length(s: Seq<usize>, set: Set<usize>)
    requires
        lists(s, set),
    ensures
        s.len() == set.len(),
        set.finite(),
{
    assert(s.no_duplicates());
    s.unique_seq_to_set();
    all_are_taken(s, set);
    assert(s.take(s.len() as int) =~= s);
    vstd::seq_lib::seq_to_set_is_finite(s);
}

/// What is listed so far is below what is listed next.
pub proof fn taken_are_below(s: Seq<usize>, count: int, k: usize)
    requires
        increasing(s),
        0 <= count < s.len(),
        s.take(count).to_set().contains(k),
    ensures
        k < s[count],
{
    let less = s.take(count);
    let j = choose|j: int| 0 <= j < less.len() && less[j] == k;
    assert(s[j] == k);
}

/// Appending a larger number to a list.
pub proof fn list_grows(s: Seq<usize>, set: Set<usize>, k: usize)
    requires
        lists(s, set),
        forall|m: usize| #[trigger] set.contains(m) ==> m < k,
    ensures
        lists(s.push(k), set.insert(k)),
{
    let more = s.push(k);
    assert forall|i: int, j: int| 0 <= i < j < more.len() implies #[trigger] more[i]
        < #[trigger] more[j] by {
        if j == s.len() {
            assert(s.contains(s[i]));
        }
    }
    assert forall|m: usize| #[trigger] more.contains(m) <==> set.insert(k).contains(m) by {
        if more.contains(m) {
            let j = choose|j: int| 0 <= j < more.len() && more[j] == m;
            if j < s.len() {
                assert(s[j] == m);
                assert(s.contains(m));
            }
        }
        if set.contains(m) {
            assert(s.contains(m));
            let j = choose|j: int| 0 <= j < s.len() && s[j] == m;
            assert(more[j] == m);
        }
        assert(more[s.len() as int] == k);
    }
}

/// The keys of one map that are, or are not, keys of another one.
fn selected_keys<V, W>(map: &BTreeMap<usize, V>, other: &BTreeMap<usize, W>, common: bool) -> (keys:
    Vec<usize>)
    ensures
        common ==> lists(keys@, map@.dom().intersect(other@.dom())),
        !common ==> lists(keys@, map@.dom().difference(other@.dom())),
{
    let all = sorted_keys(map);
    let mut keys: Vec<usize> = Vec::new();
    let ghost chosen = if common {
        other@.dom()
    } else {
        other@.dom().complement()
    };
    proof {
        all_are_taken(all@, map@.dom());
        assert(all@.take(0).to_set().intersect(chosen) =~= Set::<usize>::empty());
        assert(lists(keys@, Set::<usize>::empty()));
    }
    for i in 0..all.len()
        invariant
            lists(all@, map@.dom()),
            chosen == if common {
                other@.dom()
            } else {
                other@.dom().complement()
            },
            lists(keys@, all@.take(i as int).to_set().intersect(chosen)),
    {
        let key: usize = all[i];
        let ghost before = all@.take(i as int).to_set();
        proof {
            next_is_taken(all@, i as int);
        }
        if other.contains_key(&key) == common {
            proof {
                assert forall|m: usize| #[trigger]
                    before.intersect(chosen).contains(m) implies m < key by {
                    taken_are_below(all@, i as int, m);
                }
                list_grows(keys@, before.intersect(chosen), key);
                assert(before.insert(key).intersect(chosen) =~= before.intersect(chosen).insert(key));
            }
            keys.push(key);
        } else {
            assert(before.insert(key).intersect(chosen) =~= before.intersect(chosen));
        }
    }
    proof {
        all_are_taken(all@, map@.dom());
        assert(!common ==> map@.dom().intersect(chosen) =~= map@.dom().difference(other@.dom()));
    }
    keys
}

/// The keys of the entries of which `f` holds, in increasing order. It holds just of
/// those of which `p` does.
pub(crate) fn keys_where<V, F: Fn(usize, &V) -> bool>(
    map: &BTreeMap<usize, V>,
    f: F,
    Ghost(p): Ghost<spec_fn(usize, V) -> bool>,
) -> (keys: Vec<usize>)
    requires
        forall|k: usize, v: &V| #[trigger] call_requires(f, (k, v)),
        forall|k: usize, v: &V, b: bool| #[trigger] call_ensures(f, (k, v), b) ==> b == p(k, *v),
    ensures
        lists(keys@, keys_with(map@, p)),
{
    let all = sorted_keys(map);
    let mut keys: Vec<usize> = Vec::new();
    let ghost chosen = keys_with(map@, p);
    proof {
        all_are_taken(all@, map@.dom());
        assert(all@.take(0).to_set().intersect(chosen) =~= Set::<usize>::empty());
        assert(lists(keys@, Set::<usize>::empty()));
    }
    for i in 0..all.len()
        invariant
            forall|k: usize, v: &V| #[trigger] call_requires(f, (k, v)),
            forall|k: usize, v: &V, b: bool| #[trigger] call_ensures(f, (k, v), b) ==> b == p(k, *v),
            lists(all@, map@.dom()),
            chosen == keys_with(map@, p),
            lists(keys@, all@.take(i as int).to_set().intersect(chosen)),
    {
        let key: usize = all[i];
        let ghost before = all@.take(i as int).to_set();
        proof {
            next_is_taken(all@, i as int);
            assert(all@.contains(key));
        }
        if f(key, map.get(&key).unwrap()) {
            proof {
                assert forall|m: usize| #[trigger]
                    before.intersect(chosen).contains(m) implies m < key by {
                    taken_are_below(all@, i as int, m);
                }
                list_grows(keys@, before.intersect(chosen), key);
                assert(before.insert(key).intersect(chosen) =~= before.intersect(chosen).insert(key));
            }
            keys.push(key);
        } else {
            assert(before.insert(key).intersect(chosen) =~= before.intersect(chosen));
        }
    }
    proof {
        all_are_taken(all@, map@.dom());
        assert(map@.dom().intersect(chosen) =~= chosen);
    }
    keys
}

/// The keys of the entries of which `p` holds.
pub open spec fn keys_with<V>(map: Map<usize, V>, p: spec_fn(usize, V) -> bool) -> Set<usize> {
    Set::new(|k: usize| map.contains_key(k) && p(k, map[k]))
}

/// The same numbers, the other way round.
pub fn reversed(s: &Vec<usize>) -> (result: Vec<usize>)
    ensures
        result@ == s@.reverse(),
{
    let mut result: Vec<usize> = Vec::new();
    let mut i: usize = s.len();
    while i > 0
        invariant
            i <= s@.len(),
            result@ == s@.reverse().take(s@.len() - i),
        decreases i,
    {
        i = i - 1;
        result.push(s[i]);
        assert(result@ =~= s@.reverse().take(s@.len() - i));
    }
    assert(result@ =~= s@.reverse());
    result
}

/// The keys of one map that are not keys of another one, in increasing order.
pub fn keys_without<V, W>(map: &BTreeMap<usize, V>, other: &BTreeMap<usize, W>) -> (keys: Vec<usize>)
    ensures
        lists(keys@, map@.dom().difference(other@.dom())),
{
    selected_keys(map, other, false)
}

/// The keys that two maps have in common, in increasing order.
pub fn common_keys<V, W>(map: &BTreeMap<usize, V>, other: &BTreeMap<usize, W>) -> (keys: Vec<usize>)
    ensures
        lists(keys@, map@.dom().intersect(other@.dom())),
{
    selected_keys(map, other, true)
}

/// There is one way to list numbers: those that there are, each once and the smaller ones first.
pub proof fn lists_are_unique(a: Seq<usize>, b: Seq<usize>, set: Set<usize>, k: usize)
    requires
        lists(a, set),
        lists(b, set),
    ensures
        a == b,
        a.no_duplicates(),
        a.contains(k) <==> set.contains(k),
    decreases a.len(),
{
    assert(a.no_duplicates()) by {
        assert forall|i: int, j: int|
            0 <= i < a.len() && 0 <= j < a.len() && i != j implies a[i] != a[j] by {
            if i < j {
                assert(a[i] < a[j]);
            } else {
                assert(a[j] < a[i]);
            }
        }
    }
    list_length(a, set);
    list_length(b, set);
    if a.len() > 0 {
        let last = a[a.len() - 1];
        let top = b[b.len() - 1];
        assert(a.contains(last) && b.contains(top));
        assert(set.contains(last) && set.contains(top));
        assert(b.contains(last) && a.contains(top));
        let i = choose|i: int| 0 <= i < b.len() && b[i] == last;
        let j = choose|j: int| 0 <= j < a.len() && a[j] == top;
        assert(last <= top) by {
            if i < b.len() - 1 {
                assert(b[i] < b[b.len() - 1]);
            }
        }
        assert(top <= last) by {
            if j < a.len() - 1 {
                assert(a[j] < a[a.len() - 1]);
            }
        }
        let less_a = a.drop_last();
        let less_b = b.drop_last();
        let less = set.remove(last);
        without_the_last(a, set);
        without_the_last(b, set);
        lists_are_unique(less_a, less_b, less, k);
        assert(a =~= less_a.push(last));
        assert(b =~= less_b.push(top));
    } else {
        assert(b.len() == 0);
        assert(a =~= b);
    }
}

/// Without its last number a list is one of the others.
proof fn without_the_last(s: Seq<usize>, set: Set<usize>)
    requires
        lists(s, set),
        s.len() > 0,
    ensures
        lists(s.drop_last(), set.remove(s.last())),
{
    let less = s.drop_last();
    assert forall|k: usize| #[trigger] less.contains(k) <==> set.remove(s.last()).contains(k) by {
        if less.contains(k) {
            let i = choose|i: int| 0 <= i < less.len() && less[i] == k;
            assert(s[i] == k);
            assert(s[i] < s[s.len() - 1]);
            assert(s.contains(k));
        }
        if set.contains(k) && k != s.last() {
            assert(s.contains(k));
            let i = choose|i: int| 0 <= i < s.len() && s[i] == k;
            assert(less[i] == k);
        }
    }
    assert forall|i: int, j: int| 0 <= i < j < less.len() implies #[trigger] less[i]
        < #[trigger] less[j] by {
        assert(s[i] < s[j]);
    }
}

} // verus!
