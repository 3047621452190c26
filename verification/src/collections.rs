//! Small keyed collections whose keys are compared through their views.

use vstd::prelude::*;

verus! {

/// A value that can be compared with another of its kind at run time, the
/// comparison agreeing with equality of views.
pub trait Identity: View + Sized {
    fn same(&self, other: &Self) -> (equal: bool)
        ensures
            equal == (self@ == other@),
    ;
}

/// A finite map kept as a list of entries in which no key occurs twice.
#[derive(Debug)]
pub struct KeyedList<K: Identity, V> {
    entries: Vec<(K, V)>,
}

impl<K: Identity, V> KeyedList<K, V> {
    /// No key occurs twice.
    #[verifier::type_invariant]
    spec fn distinct(self) -> bool {
        forall|i: int, j: int|
            0 <= i < j < self.entries@.len() ==> self.entries@[i].0@ != self.entries@[j].0@
    }

    /// Whether the entry at `i` carries `key`.
    spec fn holds_at(self, key: K::V, i: int) -> bool {
        0 <= i < self.entries@.len() && self.entries@[i].0@ == key
    }

    /// The map that the list stands for.
    pub closed spec fn view(self) -> Map<K::V, V> {
        Map::new(
            |key: K::V| exists|i: int| self.holds_at(key, i),
            |key: K::V| self.entries@[choose|i: int| self.holds_at(key, i)].1,
        )
    }

    /// The keys in the order in which they were first bound.
    pub closed spec fn keys(self) -> Seq<K::V> {
        Seq::new(self.entries@.len(), |i: int| self.entries@[i].0@)
    }

    pub fn new() -> (list: Self)
        ensures
            list@ == Map::<K::V, V>::empty(),
            list.keys() == Seq::<K::V>::empty(),
    {
        let list = KeyedList { entries: Vec::new() };
        assert(list@ =~= Map::<K::V, V>::empty());
        assert(list.keys() =~= Seq::<K::V>::empty());
        list
    }

    /// Where `key` stands in the list, if it does.
    #[verifier::loop_isolation(false)]
    fn find(&self, key: &K) -> (found: Option<usize>)
        ensures
            found is Some <==> self@.dom().contains(key@),
            found matches Some(i) ==> self.holds_at(key@, i as int) && self@[key@]
                == self.entries@[i as int].1,
            found is None ==> forall|j: int| !self.holds_at(key@, j),
    {
        proof {
            use_type_invariant(self);
        }
        let mut i: usize = 0;
        while i < self.entries.len()
            invariant
                i <= self.entries@.len(),
                forall|j: int| 0 <= j < i ==> !self.holds_at(key@, j),
            decreases self.entries@.len() - i,
        {
            if self.entries[i].0.same(key) {
                assert(self.holds_at(key@, i as int));
                return Some(i);
            }
            i += 1;
        }
        None
    }

    pub fn contains_key(&self, key: &K) -> (present: bool)
        ensures
            present == self@.dom().contains(key@),
    {
        self.find(key).is_some()
    }

    pub fn get(&self, key: &K) -> (value: Option<&V>)
        ensures
            value is Some <==> self@.dom().contains(key@),
            value matches Some(v) ==> *v == self@[key@],
    {
        match self.find(key) {
            Some(i) => Some(&self.entries[i].1),
            None => None,
        }
    }

    /// The keys of the first `upto` entries.
    spec fn keys_upto(self, upto: int) -> Set<K::V> {
        Set::new(|key: K::V| exists|i: int| i < upto && self.holds_at(key, i))
    }

    proof fn lemma_keys_upto(self, upto: int)
        requires
            self.distinct(),
            0 <= upto <= self.entries@.len(),
        ensures
            self.keys_upto(upto).finite(),
            self.keys_upto(upto).len() == upto,
        decreases upto,
    {
        if upto == 0 {
            assert(self.keys_upto(0) =~= Set::<K::V>::empty());
        } else {
            self.lemma_keys_upto(upto - 1);
            let last = self.entries@[upto - 1].0@;
            assert(self.holds_at(last, upto - 1));
            assert(!self.keys_upto(upto - 1).contains(last)) by {
                if self.keys_upto(upto - 1).contains(last) {
                    let i = choose|i: int| i < upto - 1 && self.holds_at(last, i);
                    assert(self.entries@[i].0@ != self.entries@[upto - 1].0@);
                }
            }
            assert(self.keys_upto(upto) =~= self.keys_upto(upto - 1).insert(last)) by {
                assert forall|key: K::V| #[trigger]
                    self.keys_upto(upto).contains(key) implies self.keys_upto(upto - 1).insert(
                    last,
                ).contains(key) by {
                    let i = choose|i: int| i < upto && self.holds_at(key, i);
                    if i < upto - 1 {
                        assert(self.keys_upto(upto - 1).contains(key));
                    }
                }
                assert forall|key: K::V| #[trigger]
                    self.keys_upto(upto - 1).insert(last).contains(
                        key,
                    ) implies self.keys_upto(upto).contains(key) by {
                    if key != last {
                        let i = choose|i: int| i < upto - 1 && self.holds_at(key, i);
                        assert(i < upto && self.holds_at(key, i));
                    }
                }
            }
        }
    }

    /// The number of keys that are bound. The keys in their order are
    /// exactly the bound keys, each once.
    pub fn len(&self) -> (count: usize)
        ensures
            self@.dom().finite(),
            count == self@.dom().len(),
            count == self.keys().len(),
            self.keys().no_duplicates(),
            forall|key: K::V| self.keys().contains(key) <==> self@.dom().contains(key),
    {
        self.size()
    }

    fn size(&self) -> (count: usize)
        ensures
            self@.dom().finite(),
            count == self@.dom().len(),
            count == self.entries@.len(),
            count == self.keys().len(),
            self.keys().no_duplicates(),
            forall|key: K::V| self.keys().contains(key) <==> self@.dom().contains(key),
    {
        proof {
            use_type_invariant(self);
            assert forall|key: K::V| self.keys().contains(key) <==> self@.dom().contains(key) by {
                if self.keys().contains(key) {
                    let i = choose|i: int| 0 <= i < self.keys().len() && self.keys()[i] == key;
                    assert(self.holds_at(key, i));
                }
                if self@.dom().contains(key) {
                    let i = choose|i: int| self.holds_at(key, i);
                    assert(self.keys()[i] == key);
                }
            }
            self.lemma_keys_upto(self.entries@.len() as int);
            assert(self@.dom() =~= self.keys_upto(self.entries@.len() as int)) by {
                assert forall|key: K::V| #[trigger]
                    self@.dom().contains(key) implies self.keys_upto(
                    self.entries@.len() as int,
                ).contains(key) by {
                    let i = choose|i: int| self.holds_at(key, i);
                    assert(i < self.entries@.len() && self.holds_at(key, i));
                }
            }
        }
        self.entries.len()
    }

    /// The entry at `index` in the order in which the keys were first
    /// bound, if there are that many.
    pub fn entry(&self, index: usize) -> (entry: Option<(&K, &V)>)
        ensures
            self@.dom().finite(),
            entry is Some <==> index < self.keys().len(),
            entry matches Some((key, value)) ==> key@ == self.keys()[index as int]
                && self@.dom().contains(key@) && self@[key@] == *value,
    {
        let count = self.size();
        if index < count {
            proof {
                use_type_invariant(self);
                let key = self.entries@[index as int].0@;
                assert(self.holds_at(key, index as int));
                let chosen = choose|i: int| self.holds_at(key, i);
                assert(chosen == index);
            }
            Some((&self.entries[index].0, &self.entries[index].1))
        } else {
            None
        }
    }

    /// Binds `key` to `value`, replacing what it was bound to before. A key
    /// that was not bound comes last in the order of the keys.
    pub fn insert(&mut self, key: K, value: V)
        ensures
            final(self)@ == old(self)@.insert(key@, value),
            final(self).keys() == if old(self)@.dom().contains(key@) {
                old(self).keys()
            } else {
                old(self).keys().push(key@)
            },
    {
        proof {
            use_type_invariant(&*self);
        }
        let found = self.find(&key);
        let ghost before = *self;
        let mut taken = KeyedList { entries: Vec::new() };
        core::mem::swap(self, &mut taken);
        let mut entries = taken.entries;
        assert(entries@ == before.entries@);
        match found {
            Some(i) => {
                assert(before.holds_at(key@, i as int));
                entries.set(i, (key, value));
            },
            None => {
                assert forall|j: int| 0 <= j < before.entries@.len() implies before.entries@[j].0@
                    != key@ by {
                    assert(!before.holds_at(key@, j));
                }
                entries.push((key, value));
            },
        }
        assert forall|j: int| 0 <= j < before.entries@.len() implies #[trigger] entries@[j].0@
            == before.entries@[j].0@ by {}
        *self = KeyedList { entries };
        assert(self.keys() =~= if found is Some {
            before.keys()
        } else {
            before.keys().push(key@)
        });
        assert forall|k: K::V, j: int|
            self.holds_at(k, j) == (before.holds_at(k, j) || (found is None && j
                == before.entries@.len() && k == key@)) by {}
        assert(self@ =~= before@.insert(key@, value)) by {
            assert forall|k: K::V| #[trigger] self@.dom().contains(k) == before@.insert(key@, value).dom().contains(k) by {
                if before@.dom().contains(k) {
                    let j = choose|j: int| before.holds_at(k, j);
                    assert(self.holds_at(k, j));
                }
                if self@.dom().contains(k) && k != key@ {
                    let j = choose|j: int| self.holds_at(k, j);
                    assert(before.holds_at(k, j));
                }
                if k == key@ {
                    let j = if found is Some { found->0 as int } else { before.entries@.len() as int };
                    assert(self.holds_at(k, j));
                }
            }
            assert forall|k: K::V| self@.dom().contains(k) implies #[trigger] self@[k] == before@.insert(key@, value)[k] by {
                let j = choose|j: int| self.holds_at(k, j);
                if k != key@ {
                    assert(before.holds_at(k, j));
                    let j0 = choose|j: int| before.holds_at(k, j);
                    assert(j0 == j);
                }
            }
        }
    }
}

/// The items of `items` in the opposite order.
pub fn reversed<T>(items: Vec<T>) -> (turned: Vec<T>)
    ensures
        turned@ == items@.reverse(),
{
    let mut items = items;
    let ghost given = items@;
    let mut turned: Vec<T> = Vec::new();
    loop
        invariant
            items@.len() + turned@.len() == given.len(),
            forall|j: int| 0 <= j < items@.len() ==> items@[j] == given[j],
            forall|j: int|
                0 <= j < turned@.len() ==> turned@[j] == given[given.len() - 1 - j],
        ensures
            turned@.len() == given.len(),
            forall|j: int|
                0 <= j < turned@.len() ==> turned@[j] == given[given.len() - 1 - j],
        decreases items@.len(),
    {
        match items.pop() {
            Some(item) => {
                turned.push(item);
            },
            None => {
                break ;
            },
        }
    }
    assert(turned@ =~= given.reverse());
    turned
}

} // verus!
