//! Small maps and sets over identifiers.
//!
//! The collections over keys and hashes hold a handful of entries (peers of a topic, authors of a
//! topic, parked operations), so they are kept as plain vectors. What is looked up by a number is in
//! the hash maps and sets of the standard library.

use crate::types::{AuthorLog, OperationHash, Topic, VerifyingKey};
use std::collections::{HashMap, HashSet};
use vstd::prelude::*;

verus! {

/// Identifiers which can be compared with each other.
pub trait Ident: Copy {
    /// Whether both are the same identifier.
    fn same(&self, other: &Self) -> (same: bool)
        ensures
            same == (*self == *other),
    ;
}

impl Ident for VerifyingKey {
    fn same(&self, other: &Self) -> (same: bool) {
        *self == *other
    }
}

impl Ident for OperationHash {
    fn same(&self, other: &Self) -> (same: bool) {
        *self == *other
    }
}

impl Ident for Topic {
    fn same(&self, other: &Self) -> (same: bool) {
        *self == *other
    }
}

impl Ident for AuthorLog {
    fn same(&self, other: &Self) -> (same: bool) {
        *self == *other
    }
}

/// Whether some pair of `pairs` stands under `key`.
pub open spec fn pairs_hold<K, V>(pairs: Seq<(K, V)>, key: K) -> bool {
    exists|i: int| 0 <= i < pairs.len() && (#[trigger] pairs[i]).0 == key
}

/// Index of the pair which stands under `key`.
pub open spec fn index_of<K, V>(pairs: Seq<(K, V)>, key: K) -> int {
    choose|i: int| 0 <= i < pairs.len() && (#[trigger] pairs[i]).0 == key
}

/// Whether no key occurs twice in `pairs`.
pub open spec fn pairs_distinct<K, V>(pairs: Seq<(K, V)>) -> bool {
    forall|i: int, j: int|
        0 <= i < j < pairs.len() ==> (#[trigger] pairs[i]).0 != (#[trigger] pairs[j]).0
}

/// The map which `pairs` list.
pub open spec fn map_of<K, V>(pairs: Seq<(K, V)>) -> Map<K, V> {
    Map::new(|key: K| pairs_hold(pairs, key), |key: K| pairs[index_of(pairs, key)].1)
}

/// A map from identifiers to values.
#[derive(Debug)]
pub struct VecMap<K, V> {
    pairs: Vec<(K, V)>,
}

impl<K: Ident, V> VecMap<K, V> {
    pub closed spec fn view(&self) -> Map<K, V> {
        map_of(self.pairs@)
    }

    /// The key-value pairs of the map, in the order in which the map lists them.
    pub closed spec fn listed(&self) -> Seq<(K, V)> {
        self.pairs@
    }

    /// No key occurs twice.
    pub closed spec fn wf(&self) -> bool {
        pairs_distinct(self.pairs@)
    }

    /// The listed pairs are the map's entries, each of them once.
    pub proof fn lemma_listed(&self)
        requires
            self.wf(),
        ensures
            self@ == map_of(self.listed()),
            pairs_distinct(self.listed()),
            forall|i: int|
                0 <= i < self.listed().len() ==> self@.contains_key((#[trigger] self.listed()[i]).0)
                    && self@[self.listed()[i].0] == self.listed()[i].1,
    {
        assert forall|i: int| 0 <= i < self.pairs@.len() implies self@.contains_key(
            (#[trigger] self.pairs@[i]).0,
        ) && self@[self.pairs@[i].0] == self.pairs@[i].1 by {
            lemma_index_unique(self.pairs@, i);
        }
    }

    pub fn new() -> (map: Self)
        ensures
            map.wf(),
            map@ == Map::<K, V>::empty(),
    {
        let map = VecMap { pairs: Vec::new() };
        assert(map@ =~= Map::<K, V>::empty());
        map
    }

    /// Number of entries.
    pub fn len(&self) -> (len: usize)
        ensures
            len == self.listed().len(),
    {
        self.pairs.len()
    }

    /// The entry at an index of the list.
    pub fn at(&self, index: usize) -> (pair: (&K, &V))
        requires
            index < self.listed().len(),
        ensures
            *pair.0 == self.listed()[index as int].0,
            *pair.1 == self.listed()[index as int].1,
    {
        (&self.pairs[index].0, &self.pairs[index].1)
    }

    /// Looks for a key.
    fn find(&self, key: &K) -> (index: Option<usize>)
        requires
            self.wf(),
        ensures
            match index {
                Some(index) => {
                    &&& index < self.pairs@.len()
                    &&& self.pairs@[index as int].0 == *key
                    &&& self@.contains_key(*key)
                    &&& self@[*key] == self.pairs@[index as int].1
                },
                None => !self@.contains_key(*key) && !pairs_hold(self.pairs@, *key),
            },
    {
        let mut index: usize = 0;
        while index < self.pairs.len()
            invariant
                index <= self.pairs@.len(),
                self.wf(),
                forall|i: int| 0 <= i < index ==> (#[trigger] self.pairs@[i]).0 != *key,
            decreases self.pairs@.len() - index,
        {
            if self.pairs[index].0.same(key) {
                proof {
                    lemma_index_unique(self.pairs@, index as int);
                }
                return Some(index);
            }
            index = index + 1;
        }
        None
    }

    pub fn get(&self, key: &K) -> (value: Option<&V>)
        requires
            self.wf(),
        ensures
            match value {
                Some(value) => self@.contains_key(*key) && *value == self@[*key],
                None => !self@.contains_key(*key),
            },
    {
        match self.find(key) {
            Some(index) => Some(&self.pairs[index].1),
            None => None,
        }
    }

    pub fn contains_key(&self, key: &K) -> (contained: bool)
        requires
            self.wf(),
        ensures
            contained == self@.contains_key(*key),
    {
        self.find(key).is_some()
    }

    /// Sets the value of a key.
    pub fn insert(&mut self, key: K, value: V)
        requires
            old(self).wf(),
        ensures
            final(self).wf(),
            final(self)@ == old(self)@.insert(key, value),
    {
        match self.find(&key) {
            Some(index) => {
                self.pairs.set(index, (key, value));
            },
            None => {
                self.pairs.push((key, value));
            },
        }
        proof {
            lemma_map_of(old(self).pairs@);
            lemma_map_of(self.pairs@);
            if !pairs_hold(old(self).pairs@, key) {
                assert(self.pairs@.last() == (key, value));
            }
            lemma_map_insert(old(self).pairs@, self.pairs@, key, value);
        }
    }

    /// Takes the entry of a key out of the map.
    pub fn remove(&mut self, key: &K) -> (value: Option<V>)
        requires
            old(self).wf(),
        ensures
            final(self).wf(),
            final(self)@ == old(self)@.remove(*key),
            match value {
                Some(value) => old(self)@.contains_key(*key) && value == old(self)@[*key],
                None => !old(self)@.contains_key(*key),
            },
    {
        match self.find(key) {
            Some(index) => {
                let (_, value) = self.pairs.remove(index);
                proof {
                    lemma_map_of(old(self).pairs@);
                    lemma_map_of(self.pairs@);
                    lemma_map_remove(old(self).pairs@, index as int);
                }
                Some(value)
            },
            None => {
                assert(old(self)@.remove(*key) =~= old(self)@);
                None
            },
        }
    }

    pub fn clear(&mut self)
        ensures
            final(self).wf(),
            final(self)@ == Map::<K, V>::empty(),
    {
        self.pairs.clear();
        assert(self@ =~= Map::<K, V>::empty());
    }
}

/// The keys of a map which have this value.
pub open spec fn keys_of<K, V>(map: Map<K, V>, value: V) -> Set<K> {
    Set::new(|key: K| map.contains_key(key) && map[key] == value)
}

/// A set of identifiers.
#[derive(Debug)]
pub struct VecSet<K> {
    members: VecMap<K, ()>,
}

impl<K: Ident> VecSet<K> {
    pub closed spec fn view(&self) -> Set<K> {
        self.members@.dom()
    }

    /// No member occurs twice.
    pub closed spec fn wf(&self) -> bool {
        self.members.wf()
    }

    pub fn new() -> (set: Self)
        ensures
            set.wf(),
            set@ == Set::<K>::empty(),
    {
        let set = VecSet { members: VecMap::new() };
        assert(set@ =~= Set::<K>::empty());
        set
    }

    pub fn contains(&self, key: &K) -> (contained: bool)
        requires
            self.wf(),
        ensures
            contained == self@.contains(*key),
    {
        self.members.contains_key(key)
    }

    /// Adds a member. Returns whether it is new.
    pub fn insert(&mut self, key: K) -> (new: bool)
        requires
            old(self).wf(),
        ensures
            final(self).wf(),
            final(self)@ == old(self)@.insert(key),
            new == !old(self)@.contains(key),
    {
        let known = self.members.contains_key(&key);
        self.members.insert(key, ());
        assert(self@ =~= old(self)@.insert(key));
        !known
    }

    /// Removes a member. Returns whether it was there.
    pub fn remove(&mut self, key: &K) -> (known: bool)
        requires
            old(self).wf(),
        ensures
            final(self).wf(),
            final(self)@ == old(self)@.remove(*key),
            known == old(self)@.contains(*key),
    {
        let removed = self.members.remove(key);
        assert(self@ =~= old(self)@.remove(*key));
        removed.is_some()
    }

    /// The members, each of them once.
    pub fn to_vec(&self) -> (members: Vec<K>)
        requires
            self.wf(),
        ensures
            members@.no_duplicates(),
            members@.to_set() == self@,
    {
        let mut members: Vec<K> = Vec::new();
        let mut index: usize = 0;
        let ghost listed = self.members.listed();
        proof {
            self.members.lemma_listed();
        }
        while index < self.members.len()
            invariant
                index <= listed.len(),
                listed == self.members.listed(),
                pairs_distinct(listed),
                members@.len() == index,
                forall|i: int| 0 <= i < index ==> #[trigger] members@[i] == listed[i].0,
            decreases listed.len() - index,
        {
            members.push(*self.members.at(index).0);
            index = index + 1;
        }
        assert forall|key: K| self@.contains(key) implies members@.contains(key) by {
            let i = index_of(listed, key);
            assert(members@[i] == key);
        }
        assert forall|key: K| members@.contains(key) implies self@.contains(key) by {
            let i = choose|i: int| 0 <= i < members@.len() && members@[i] == key;
            assert(listed[i].0 == key);
        }
        assert forall|i: int, j: int| 0 <= i < members@.len() && 0 <= j < members@.len() && i
            != j implies members@[i] != members@[j] by {
            assert(listed[i].0 != listed[j].0);
        }
        assert(members@.to_set() =~= self@);
        members
    }

    pub fn clear(&mut self)
        ensures
            final(self).wf(),
            final(self)@ == Set::<K>::empty(),
    {
        self.members.clear();
        assert(self@ =~= Set::<K>::empty());
    }
}

/// A map from numbers to values.
#[derive(Debug)]
pub struct NumberMap<V> {
    map: HashMap<u64, V>,
}

impl<V> NumberMap<V> {
    pub closed spec fn view(&self) -> Map<u64, V> {
        self.map@
    }

    pub fn new() -> (map: Self)
        ensures
            map@ == Map::<u64, V>::empty(),
    {
        NumberMap { map: HashMap::new() }
    }

    pub fn get(&self, key: u64) -> (value: Option<&V>)
        ensures
            match value {
                Some(value) => self@.contains_key(key) && *value == self@[key],
                None => !self@.contains_key(key),
            },
    {
        broadcast use vstd::std_specs::hash::group_hash_axioms;

        self.map.get(&key)
    }

    /// Sets the value of a key.
    pub fn insert(&mut self, key: u64, value: V)
        ensures
            final(self)@ == old(self)@.insert(key, value),
    {
        broadcast use vstd::std_specs::hash::group_hash_axioms;

        self.map.insert(key, value);
    }

    /// Takes the entry of a key out of the map.
    pub fn remove(&mut self, key: u64) -> (value: Option<V>)
        ensures
            final(self)@ == old(self)@.remove(key),
            match value {
                Some(value) => old(self)@.contains_key(key) && value == old(self)@[key],
                None => !old(self)@.contains_key(key),
            },
    {
        broadcast use vstd::std_specs::hash::group_hash_axioms;

        let value = self.map.remove(&key);
        assert(self@ =~= old(self)@.remove(key));
        value
    }
}

impl<V: Ident> NumberMap<V> {
    /// The keys which have this value, each of them once and in no particular order.
    pub fn keys_with(&self, value: &V) -> (keys: Vec<u64>)
        ensures
            keys@.no_duplicates(),
            keys@.to_set() == keys_of(self@, *value),
    {
        broadcast use vstd::std_specs::hash::group_hash_axioms;

        let mut keys: Vec<u64> = Vec::new();
        for key in iter: self.map.keys()
            invariant
                iter.seq().no_duplicates(),
                iter.seq().unref().to_set() == self@.dom(),
                keys@.no_duplicates(),
                forall|k: u64| #[trigger]
                    keys@.contains(k) <==> keys_of(self@, *value).contains(k) && exists|i: int|
                        0 <= i < iter.index() && *(#[trigger] iter.seq()[i]) == k,
        {
            let ghost before = keys@;
            let ghost index = iter.index();
            assert(*iter.seq()[index] == *key);
            assert(!before.contains(*key)) by {
                if before.contains(*key) {
                    let i = choose|i: int| 0 <= i < index && *(#[trigger] iter.seq()[i]) == *key;
                    assert(iter.seq()[i] == iter.seq()[index]);
                }
            }
            if let Some(found) = self.get(*key) {
                if found.same(value) {
                    keys.push(*key);
                }
            }
            assert forall|k: u64| #[trigger] keys@.contains(k) <==> before.contains(k) || (k == *key
                && keys_of(self@, *value).contains(k)) by {
                if before.contains(k) {
                    let i = choose|i: int| 0 <= i < before.len() && before[i] == k;
                    assert(keys@[i] == k);
                }
                if k == *key && keys_of(self@, *value).contains(k) {
                    assert(keys@.last() == k);
                }
            }
            assert forall|k: u64| #[trigger] keys@.contains(k) <==> keys_of(self@, *value).contains(
                k,
            ) && exists|i: int| 0 <= i < index + 1 && *(#[trigger] iter.seq()[i]) == k by {
                if before.contains(k) {
                    let i = choose|i: int| 0 <= i < index && *(#[trigger] iter.seq()[i]) == k;
                    assert(*iter.seq()[i] == k);
                }
            }
        }
        keys
    }
}

/// A set of numbers.
#[derive(Debug)]
pub struct NumberSet {
    set: HashSet<u64>,
}

impl NumberSet {
    pub closed spec fn view(&self) -> Set<u64> {
        self.set@
    }

    pub fn new() -> (set: Self)
        ensures
            set@ == Set::<u64>::empty(),
    {
        NumberSet { set: HashSet::new() }
    }

    pub fn contains(&self, key: u64) -> (contained: bool)
        ensures
            contained == self@.contains(key),
    {
        broadcast use vstd::std_specs::hash::group_hash_axioms;

        self.set.contains(&key)
    }

    pub fn insert(&mut self, key: u64)
        ensures
            final(self)@ == old(self)@.insert(key),
    {
        broadcast use vstd::std_specs::hash::group_hash_axioms;

        self.set.insert(key);
        assert(self@ =~= old(self)@.insert(key));
    }

    pub fn remove(&mut self, key: u64)
        ensures
            final(self)@ == old(self)@.remove(key),
    {
        broadcast use vstd::std_specs::hash::group_hash_axioms;

        self.set.remove(&key);
        assert(self@ =~= old(self)@.remove(key));
    }

    pub fn clear(&mut self)
        ensures
            final(self)@ == Set::<u64>::empty(),
    {
        self.set.clear();
    }
}

proof fn lemma_index_unique<K, V>(pairs: Seq<(K, V)>, index: int)
    requires
        pairs_distinct(pairs),
        0 <= index < pairs.len(),
    ensures
        pairs_hold(pairs, pairs[index].0),
        index_of(pairs, pairs[index].0) == index,
{
    let other = index_of(pairs, pairs[index].0);
    assert(pairs[other].0 == pairs[index].0);
}

/// Every listed pair is an entry of the map, and the other way round.
proof fn lemma_map_of<K, V>(pairs: Seq<(K, V)>)
    ensures
        pairs_distinct(pairs) ==> forall|i: int|
            0 <= i < pairs.len() ==> map_of(pairs).contains_key((#[trigger] pairs[i]).0)
                && map_of(pairs)[pairs[i].0] == pairs[i].1,
        forall|key: K|
            map_of(pairs).contains_key(key) ==> 0 <= index_of(pairs, key) < pairs.len()
                && #[trigger] pairs[index_of(pairs, key)].0 == key,
{
    if pairs_distinct(pairs) {
        assert forall|i: int| 0 <= i < pairs.len() implies map_of(pairs).contains_key(
            (#[trigger] pairs[i]).0,
        ) && map_of(pairs)[pairs[i].0] == pairs[i].1 by {
            lemma_index_unique(pairs, i);
        }
    }
}

proof fn lemma_map_insert<K, V>(before: Seq<(K, V)>, after: Seq<(K, V)>, key: K, value: V)
    requires
        pairs_distinct(before),
        if pairs_hold(before, key) {
            after == before.update(index_of(before, key), (key, value))
        } else {
            after == before.push((key, value))
        },
    ensures
        pairs_distinct(after),
        map_of(after) == map_of(before).insert(key, value),
{
    if pairs_hold(before, key) {
        let at = index_of(before, key);
        assert(before[at].0 == key);
    }
    assert(pairs_distinct(after));
    lemma_map_of(before);
    lemma_map_of(after);
    let inserted = map_of(before).insert(key, value);
    assert forall|k: K| #[trigger] map_of(after).contains_key(k) <==> inserted.contains_key(k) by {
        if map_of(after).contains_key(k) {
            let i = index_of(after, k);
            assert(after[i].0 == k);
            if k != key {
                assert(before[i].0 == k);
            }
        }
        if inserted.contains_key(k) {
            if k == key {
                let at = if pairs_hold(before, key) {
                    index_of(before, key)
                } else {
                    before.len() as int
                };
                assert(after[at].0 == k);
            } else {
                let i = index_of(before, k);
                assert(after[i].0 == k);
            }
        }
    }
    assert forall|k: K| #[trigger] map_of(after).contains_key(k) implies map_of(after)[k]
        == inserted[k] by {
        let i = index_of(after, k);
        assert(after[i].0 == k);
        if k != key {
            assert(before[i].0 == k);
            lemma_index_unique(before, i);
        }
    }
    assert(map_of(after) =~= inserted);
}

proof fn lemma_map_remove<K, V>(before: Seq<(K, V)>, at: int)
    requires
        pairs_distinct(before),
        0 <= at < before.len(),
    ensures
        pairs_distinct(before.remove(at)),
        map_of(before.remove(at)) == map_of(before).remove(before[at].0),
{
    let after = before.remove(at);
    let key = before[at].0;
    let removed = map_of(before).remove(key);
    assert(pairs_distinct(after));
    assert forall|k: K| #[trigger] map_of(after).contains_key(k) <==> removed.contains_key(k) by {
        if map_of(after).contains_key(k) {
            let i = index_of(after, k);
            assert(after[i].0 == k);
            let j = if i < at { i } else { i + 1 };
            assert(before[j].0 == k);
        }
        if removed.contains_key(k) {
            let j = index_of(before, k);
            assert(before[j].0 == k);
            let i = if j < at { j } else { j - 1 };
            assert(after[i].0 == k);
        }
    }
    assert forall|k: K| #[trigger] map_of(after).contains_key(k) implies map_of(after)[k]
        == removed[k] by {
        let i = index_of(after, k);
        assert(after[i].0 == k);
        let j = if i < at { i } else { i + 1 };
        assert(before[j] == after[i]);
        lemma_index_unique(before, j);
    }
    assert(map_of(after) =~= removed);
}

/// A map holds what was set last under a key, until it is removed, and every other key is left alone.
pub proof fn law_map_holds_what_was_set<K: Ident, V>(
    setting: &mut VecMap<K, V>,
    removing: &mut VecMap<K, V>,
    key: K,
    value: V,
    found: Option<&V>,
    removed: Option<V>,
    gone: Option<&V>,
)
    requires
        call_ensures(VecMap::<K, V>::insert, (setting, key, value), ()),
        call_ensures(VecMap::<K, V>::get, (final(setting), &key), found),
        *old(removing) == *final(setting),
        call_ensures(VecMap::<K, V>::remove, (removing, &key), removed),
        call_ensures(VecMap::<K, V>::get, (final(removing), &key), gone),
    ensures
        found == Some(&value),
        removed == Some(value),
        gone is None,
        forall|other: K|
            other != key ==> (#[trigger] final(removing)@.contains_key(other) <==> old(setting)@.contains_key(other)) && final(removing)@[other] == old(setting)@[other],
{
}

/// A set holds what was added until it is removed, tells whether it is new or was there, and leaves
/// every other member alone.
pub proof fn law_set_holds_what_was_added<K: Ident>(
    adding: &mut VecSet<K>,
    removing: &mut VecSet<K>,
    key: K,
    new: bool,
    contained: bool,
    known: bool,
    gone: bool,
)
    requires
        call_ensures(VecSet::<K>::insert, (adding, key), new),
        call_ensures(VecSet::<K>::contains, (final(adding), &key), contained),
        *old(removing) == *final(adding),
        call_ensures(VecSet::<K>::remove, (removing, &key), known),
        call_ensures(VecSet::<K>::contains, (final(removing), &key), gone),
    ensures
        new <==> !old(adding)@.contains(key),
        contained,
        known,
        !gone,
        forall|other: K|
            other != key ==> (#[trigger] final(removing)@.contains(other) <==> old(adding)@.contains(other)),
{
}

/// What a set lists are its members, each of them once.
pub proof fn law_set_lists_its_members<K: Ident>(set: &VecSet<K>, members: Vec<K>, key: K)
    requires
        call_ensures(VecSet::<K>::to_vec, (set,), members),
    ensures
        members@.no_duplicates(),
        members@.contains(key) <==> set@.contains(key),
{
    assert(members@.to_set().contains(key) <==> members@.contains(key));
}

/// A map knows the keys it has a value for.
pub proof fn law_map_knows_its_keys<K: Ident, V>(
    map: &VecMap<K, V>,
    key: &K,
    contained: bool,
    value: Option<&V>,
)
    requires
        call_ensures(VecMap::<K, V>::contains_key, (map, key), contained),
        call_ensures(VecMap::<K, V>::get, (map, key), value),
    ensures
        contained <==> value is Some,
{
}

/// A map of numbers holds what was set last under a key, until it is removed, and every other key is
/// left alone.
pub proof fn law_number_map_holds_what_was_set<V>(
    setting: &mut NumberMap<V>,
    removing: &mut NumberMap<V>,
    key: u64,
    value: V,
    found: Option<&V>,
    removed: Option<V>,
    gone: Option<&V>,
)
    requires
        call_ensures(NumberMap::<V>::insert, (setting, key, value), ()),
        call_ensures(NumberMap::<V>::get, (final(setting), key), found),
        *old(removing) == *final(setting),
        call_ensures(NumberMap::<V>::remove, (removing, key), removed),
        call_ensures(NumberMap::<V>::get, (final(removing), key), gone),
    ensures
        found == Some(&value),
        removed == Some(value),
        gone is None,
        forall|other: u64|
            other != key ==> (#[trigger] final(removing)@.contains_key(other)
                <==> old(setting)@.contains_key(other)) && final(removing)@[other]
                == old(setting)@[other],
{
}

/// The keys which are listed for a value are exactly those which were set to it, each of them once.
pub proof fn law_keys_are_listed_by_value<V: Ident>(
    map: &NumberMap<V>,
    value: &V,
    keys: Vec<u64>,
    key: u64,
    found: Option<&V>,
)
    requires
        call_ensures(NumberMap::<V>::keys_with, (map, value), keys),
        call_ensures(NumberMap::<V>::get, (map, key), found),
    ensures
        keys@.no_duplicates(),
        keys@.contains(key) <==> found == Some(value),
{
    assert(keys@.to_set().contains(key) <==> keys@.contains(key));
}

/// A set of numbers holds what was added until it is removed, and leaves every other member alone.
pub proof fn law_number_set_holds_what_was_added(
    adding: &mut NumberSet,
    removing: &mut NumberSet,
    key: u64,
    contained: bool,
    gone: bool,
)
    requires
        call_ensures(NumberSet::insert, (adding, key), ()),
        call_ensures(NumberSet::contains, (final(adding), key), contained),
        *old(removing) == *final(adding),
        call_ensures(NumberSet::remove, (removing, key), ()),
        call_ensures(NumberSet::contains, (final(removing), key), gone),
    ensures
        contained,
        !gone,
        forall|other: u64|
            other != key ==> (#[trigger] final(removing)@.contains(other)
                <==> old(adding)@.contains(other)),
{
}

} // verus!
