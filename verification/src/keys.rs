//! Sets of strings that remember the order in which their members came, and the
//! key comparison at the heart of a multi-store reconciliation.
use vstd::prelude::*;
use vstd::hash_set::StringHashSet;
use crate::text::{key_part, key_prefix};

verus! {

/// A set of strings, each held once, in the order they were first added.
pub struct KeySet {
    keys: Vec<String>,
    index: StringHashSet,
}

impl KeySet {
    #[verifier::type_invariant]
    spec fn well_formed(&self) -> bool {
        &&& self.index@ == self.keys.deep_view().to_set()
        &&& self.keys.deep_view().no_duplicates()
    }

    /// The members in the order they were first added.
    pub closed spec fn ordered(&self) -> Seq<Seq<char>> {
        self.keys.deep_view()
    }
}

impl View for KeySet {
    type V = Set<Seq<char>>;

    open spec fn view(&self) -> Set<Seq<char>> {
        self.ordered().to_set()
    }
}

impl KeySet {
    /// The empty set.
    pub fn new() -> (r: KeySet)
        ensures
            r.ordered() == Seq::<Seq<char>>::empty(),
            r@ == Set::<Seq<char>>::empty(),
    {
        let keys: Vec<String> = Vec::new();
        let index = StringHashSet::new();
        assert(keys.deep_view() =~= Seq::<Seq<char>>::empty());
        assert(keys.deep_view().to_set() =~= Set::<Seq<char>>::empty());
        KeySet { keys, index }
    }

    /// Whether `k` is a member.
    pub fn contains(&self, k: &str) -> (b: bool)
        ensures
            b == self@.contains(k@),
    {
        proof {
            use_type_invariant(self);
        }
        self.index.contains(k)
    }

    /// Adds `k` unless it is already a member; says whether it was added.
    pub fn insert(&mut self, k: String) -> (added: bool)
        ensures
            added == !old(self)@.contains(k@),
            final(self)@ == old(self)@.insert(k@),
            final(self).ordered() == if added {
                old(self).ordered().push(k@)
            } else {
                old(self).ordered()
            },
    {
        proof {
            use_type_invariant(&*self);
        }
        if self.index.contains(k.as_str()) {
            assert(self@.insert(k@) =~= self@);
            return false;
        }
        let ghost before = self.keys.deep_view();
        let mut current = KeySet::new();
        std::mem::swap(&mut current, self);
        let KeySet { mut keys, mut index } = current;
        index.insert(k.clone());
        keys.push(k);
        proof {
            assert(keys.deep_view() =~= before.push(k@));
            before.lemma_push_to_set_commute(k@);
            assert forall|i: int, j: int|
                0 <= i < keys.deep_view().len() && 0 <= j < keys.deep_view().len() && i != j
                implies keys.deep_view()[i] != keys.deep_view()[j] by {
                if i < before.len() && j < before.len() {
                } else if i == before.len() {
                    assert(before.contains(before[j]));
                } else {
                    assert(before.contains(before[i]));
                }
            }
        }
        *self = KeySet { keys, index };
        true
    }

    /// The number of members, each held once.
    pub fn len(&self) -> (n: usize)
        ensures
            n == self.ordered().len(),
            n == self@.len(),
            self.ordered().no_duplicates(),
    {
        proof {
            use_type_invariant(self);
            self.ordered().unique_seq_to_set();
        }
        self.keys.len()
    }

    /// The member at position `i` in the order of arrival.
    pub fn get(&self, i: usize) -> (r: &String)
        requires
            i < self.ordered().len(),
        ensures
            r@ == self.ordered()[i as int],
    {
        &self.keys[i]
    }

    /// The members, in the order of arrival, each once.
    pub fn to_vec(&self) -> (r: Vec<String>)
        ensures
            r.deep_view() == self.ordered(),
            self.ordered().no_duplicates(),
    {
        proof {
            use_type_invariant(self);
        }
        crate::text::copy_strings(&self.keys)
    }

    /// The set of the given strings, kept in the order of their first occurrence.
    pub fn from_values(values: Vec<String>) -> (r: KeySet)
        ensures
            r@ == values.deep_view().to_set(),
            r.ordered() == first_occurrences(values.deep_view()),
            r.ordered().no_duplicates(),
    {
        let ghost all = values.deep_view();
        let mut r = KeySet::new();
        assert(all.take(0) =~= Seq::<Seq<char>>::empty());
        for v in it: values
            invariant
                it.seq() == values@,
                all == values.deep_view(),
                r@ == all.take(it.index()).to_set(),
                r.ordered() == first_occurrences(all.take(it.index())),
        {
            let ghost i = it.index();
            assert(v@ == all[i]);
            assert(all.take(i + 1).drop_last() =~= all.take(i));
            r.insert(v);
            assert(all.take(i + 1) =~= all.take(i).push(all[i]));
            proof {
                all.take(i).lemma_push_to_set_commute(all[i]);
            }
        }
        assert(all.take(all.len() as int) =~= all);
        proof {
            use_type_invariant(&r);
        }
        r
    }
}

/// The strings of `s` without repeats, each where it first occurs.
pub open spec fn first_occurrences(s: Seq<Seq<char>>) -> Seq<Seq<char>>
    decreases s.len(),
{
    if s.len() == 0 {
        Seq::empty()
    } else {
        let before = first_occurrences(s.drop_last());
        if s.drop_last().contains(s.last()) {
            before
        } else {
            before.push(s.last())
        }
    }
}

/// The keys of the `key__checksum` entries that only one side holds: an entry
/// whose key and checksum both sides hold does not count.
pub open spec fn diff_key_set(left: Set<Seq<char>>, right: Set<Seq<char>>) -> Set<Seq<char>> {
    left.difference(right).union(right.difference(left)).map(|s: Seq<char>| key_part(s))
}

/// The keys of the first `n` entries of `s` that `other` lacks.
spec fn keys_missing_from(s: Seq<Seq<char>>, n: int, other: Set<Seq<char>>) -> Set<Seq<char>> {
    Set::new(|p: Seq<char>| exists|j: int| 0 <= j < n && !other.contains(s[j]) && key_part(s[j]) == p)
}

/// Adds to `acc` the key of every entry of `from` that `other` lacks.
fn add_missing_keys(acc: &mut KeySet, from: &KeySet, other: &KeySet)
    ensures
        final(acc)@ == old(acc)@.union(keys_missing_from(from.ordered(), from.ordered().len() as int, other@)),
{
    let n = from.len();
    let ghost start = acc@;
    let ghost s = from.ordered();
    assert(keys_missing_from(s, 0, other@) =~= Set::<Seq<char>>::empty());
    assert(start.union(Set::<Seq<char>>::empty()) =~= start);
    for i in 0..n
        invariant
            n == s.len(),
            s == from.ordered(),
            acc@ == start.union(keys_missing_from(s, i as int, other@)),
    {
        let k = from.get(i);
        if !other.contains(k.as_str()) {
            let p = key_prefix(k.as_str());
            acc.insert(p);
            assert(keys_missing_from(s, i + 1, other@) =~= keys_missing_from(s, i as int, other@).insert(key_part(s[i as int])));
        } else {
            assert(keys_missing_from(s, i + 1, other@) =~= keys_missing_from(s, i as int, other@));
        }
    }
}

/// The keys whose `key__checksum` entries differ between the two sides.
pub fn diff_keys(left: &KeySet, right: &KeySet) -> (r: KeySet)
    ensures
        r@ == diff_key_set(left@, right@),
{
    let mut r = KeySet::new();
    add_missing_keys(&mut r, left, right);
    add_missing_keys(&mut r, right, left);
    let ghost a = keys_missing_from(left.ordered(), left.ordered().len() as int, right@);
    let ghost b = keys_missing_from(right.ordered(), right.ordered().len() as int, left@);
    assert forall|p: Seq<char>| #[trigger] r@.contains(p) == diff_key_set(left@, right@).contains(p) by {
        if a.contains(p) {
            let j = choose|j: int| 0 <= j < left.ordered().len() && !right@.contains(left.ordered()[j]) && key_part(left.ordered()[j]) == p;
            assert(left@.contains(left.ordered()[j]));
            assert(left@.difference(right@).union(right@.difference(left@)).contains(left.ordered()[j]));
        }
        if b.contains(p) {
            let j = choose|j: int| 0 <= j < right.ordered().len() && !left@.contains(right.ordered()[j]) && key_part(right.ordered()[j]) == p;
            assert(right@.contains(right.ordered()[j]));
            assert(left@.difference(right@).union(right@.difference(left@)).contains(right.ordered()[j]));
        }
        if diff_key_set(left@, right@).contains(p) {
            let s = choose|s: Seq<char>| left@.difference(right@).union(right@.difference(left@)).contains(s) && p == key_part(s);
            if left@.contains(s) && !right@.contains(s) {
                let j = choose|j: int| 0 <= j < left.ordered().len() && left.ordered()[j] == s;
                assert(a.contains(p));
            } else {
                let j = choose|j: int| 0 <= j < right.ordered().len() && right.ordered()[j] == s;
                assert(b.contains(p));
            }
        }
    }
    assert(r@ =~= diff_key_set(left@, right@));
    r
}

/// Which side is called left does not matter: the keys that differ between `left`
/// and `right` are those that differ between `right` and `left`.
pub proof fn diff_keys_symmetric(left: Set<Seq<char>>, right: Set<Seq<char>>)
    ensures
        diff_key_set(left, right) == diff_key_set(right, left),
{
    assert(left.difference(right).union(right.difference(left)) =~= right.difference(left).union(
        left.difference(right),
    ));
}

/// A side compared with an identical side differs in no key.
pub proof fn identical_sides_differ_nowhere(entries: Set<Seq<char>>)
    ensures
        diff_key_set(entries, entries) == Set::<Seq<char>>::empty(),
{
    assert(entries.difference(entries).union(entries.difference(entries)) =~= Set::<Seq<char>>::empty());
    assert(diff_key_set(entries, entries) =~= Set::<Seq<char>>::empty());
}

/// Every differing key is the key of an entry that one side holds and the other lacks.
pub proof fn diff_keys_come_from_unmatched_entries(left: Set<Seq<char>>, right: Set<Seq<char>>, k: Seq<char>)
    requires
        diff_key_set(left, right).contains(k),
    ensures
        exists|e: Seq<char>| (left.contains(e) != right.contains(e)) && key_part(e) == k,
{
    let e = choose|e: Seq<char>| left.difference(right).union(right.difference(left)).contains(e) && k == key_part(e);
    assert(left.contains(e) != right.contains(e));
}

} // verus!
