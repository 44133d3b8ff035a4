//! An ordered map from names to values.

use crate::text;
use vstd::prelude::*;
use vstd::string::*;

verus! {

/// A map keyed by text that lists its entries in the order of their names.
#[derive(Debug)]
pub struct NameMap<V> {
    entries: Vec<(String, V)>,
}

impl<V> View for NameMap<V> {
    type V = Map<Seq<char>, V>;

    open spec fn view(&self) -> Map<Seq<char>, V> {
        Map::new(|n: Seq<char>| self.has(n), |n: Seq<char>| self.at(n))
    }
}

impl<V> NameMap<V> {
    /// The names, in order.
    pub closed spec fn names(self) -> Seq<Seq<char>> {
        self.entries@.map_values(|e: (String, V)| e.0@)
    }

    /// The values, in the order of their names.
    pub closed spec fn values(self) -> Seq<V> {
        self.entries@.map_values(|e: (String, V)| e.1)
    }

    /// Whether the names ascend, so that none occurs twice.
    pub open spec fn wf(self) -> bool {
        &&& self.names().len() == self.values().len()
        &&& forall|i: int, j: int|
            #![trigger self.names()[i], self.names()[j]]
            0 <= i < j < self.names().len() ==> text::before(self.names()[i], self.names()[j])
    }

    /// Whether the map holds a value for `name`.
    pub open spec fn has(self, name: Seq<char>) -> bool {
        self.names().contains(name)
    }

    /// The value that the map holds for `name`.
    pub open spec fn at(self, name: Seq<char>) -> V {
        self.values()[self.names().index_of(name)]
    }

    /// A name stands at one position only.
    pub(crate) proof fn lemma_position(self, i: int)
        requires
            self.wf(),
            0 <= i < self.names().len(),
        ensures
            self.has(self.names()[i]),
            self.names().index_of(self.names()[i]) == i,
            self@.contains_key(self.names()[i]),
            self@[self.names()[i]] == self.values()[i],
    {
        let n = self.names()[i];
        let j = self.names().index_of(n);
        assert(self.names()[j] == n);
        text::law_before_is_total(n, n);
    }

    /// Changing the value at a position changes the map there alone.
    pub(crate) proof fn lemma_updated(self, was: NameMap<V>, i: int, value: V)
        requires
            was.wf(),
            0 <= i < was.names().len(),
            self.names() == was.names(),
            self.values() == was.values().update(i, value),
        ensures
            self.wf(),
            self@ == was@.insert(was.names()[i], value),
    {
        was.lemma_position(i);
        assert forall|n: Seq<char>| self.has(n) && n != was.names()[i] implies self.at(n) == was.at(
            n,
        ) by {
            let j = was.names().index_of(n);
            assert(was.names()[j] == n);
        }
        assert(self@ =~= was@.insert(was.names()[i], value));
    }

    /// Inserting a new name changes the map there alone.
    proof fn lemma_inserted(self, was: NameMap<V>, i: int, name: Seq<char>, value: V)
        requires
            was.wf(),
            self.wf(),
            !was.has(name),
            0 <= i <= was.names().len(),
            self.names() == was.names().insert(i, name),
            self.values() == was.values().insert(i, value),
        ensures
            self@ == was@.insert(name, value),
    {
        assert(self.names()[i] == name);
        self.lemma_position(i);
        assert forall|n: Seq<char>| self.has(n) && n != name implies was.has(n) && self.at(n)
            == was.at(n) by {
            let j = self.names().index_of(n);
            assert(self.names()[j] == n);
            let k = if j < i {
                j
            } else {
                j - 1
            };
            assert(was.names()[k] == n);
            was.lemma_position(k);
        }
        assert forall|n: Seq<char>| was.has(n) implies self.has(n) by {
            let k = was.names().index_of(n);
            assert(was.names()[k] == n);
            let j = if k < i {
                k
            } else {
                k + 1
            };
            assert(self.names()[j] == n);
        }
        assert(self@ =~= was@.insert(name, value));
    }

    /// An empty map.
    pub fn new() -> (r: NameMap<V>)
        ensures
            r.wf(),
            r.names() == Seq::<Seq<char>>::empty(),
            r.values() == Seq::<V>::empty(),
            r@ == Map::<Seq<char>, V>::empty(),
    {
        let r = NameMap { entries: Vec::new() };
        assert(r.names() =~= Seq::<Seq<char>>::empty());
        assert(r.values() =~= Seq::<V>::empty());
        assert(r@ =~= Map::<Seq<char>, V>::empty());
        r
    }

    /// How many names there are.
    pub fn len(&self) -> (r: usize)
        ensures
            r == self.names().len(),
            r == self.values().len(),
    {
        self.entries.len()
    }

    /// Where `name` stands among the names, if it is one of them.
    pub fn find(&self, name: &str) -> (r: Option<usize>)
        requires
            self.wf(),
        ensures
            r is Some <==> self.has(name@),
            r matches Some(i) ==> i < self.names().len() && self.names()[i as int] == name@ && i
                == self.names().index_of(name@) && self.at(name@) == self.values()[i as int],
    {
        let mut i: usize = 0;
        while i < self.entries.len()
            invariant
                i <= self.entries@.len(),
                self.wf(),
                forall|k: int| 0 <= k < i ==> #[trigger] self.names()[k] != name@,
            decreases self.entries.len() - i,
        {
            assert(self.names()[i as int] == self.entries@[i as int].0@);
            if text::same(self.entries[i].0.as_str(), name) {
                proof {
                    let j = self.names().index_of(name@);
                    assert(self.names()[j] == name@);
                    if j != i {
                        text::law_before_is_total(name@, name@);
                    }
                }
                return Some(i);
            }
            i = i + 1;
        }
        None
    }

    /// Puts a value under a name, in place of the one that was there.
    pub fn insert(&mut self, name: String, value: V)
        requires
            old(self).wf(),
        ensures
            final(self).wf(),
            final(self)@ == old(self)@.insert(name@, value),
            old(self).has(name@) ==> {
                &&& final(self).names() == old(self).names()
                &&& final(self).values() == old(self).values().update(
                    old(self).names().index_of(name@),
                    value,
                )
            },
            !old(self).has(name@) ==> exists|i: int|
                {
                    &&& 0 <= i <= old(self).names().len()
                    &&& #[trigger] final(self).names().index(i) == name@
                    &&& final(self).names() == old(self).names().insert(i, name@)
                    &&& final(self).values() == old(self).values().insert(i, value)
                },
    {
        let mut i: usize = 0;
        while i < self.entries.len() && text::comes_before(
            self.entries[i].0.as_str(),
            name.as_str(),
        )
            invariant
                i <= self.entries@.len(),
                self.wf(),
                *self == *old(self),
                forall|k: int| 0 <= k < i ==> text::before(#[trigger] self.names()[k], name@),
            decreases self.entries.len() - i,
        {
            assert(self.names()[i as int] == self.entries@[i as int].0@);
            i = i + 1;
        }
        let ghost was = *self;
        if i < self.entries.len() && text::same(self.entries[i].0.as_str(), name.as_str()) {
            assert(was.names()[i as int] == name@);
            proof {
                let j = was.names().index_of(name@);
                assert(was.names()[j] == name@);
                text::law_before_is_total(name@, name@);
            }
            self.entries[i].1 = value;
            assert(self.names() =~= was.names());
            assert(self.values() =~= was.values().update(i as int, value));
            proof {
                self.lemma_updated(was, i as int, value);
            }
        } else {
            proof {
                assert forall|k: int| i <= k < was.names().len() implies text::before(
                    name@,
                    #[trigger] was.names()[k],
                ) by {
                    text::law_before_is_total(name@, was.names()[i as int]);
                    assert(was.names()[i as int] == was.entries@[i as int].0@);
                    if k > i {
                        text::law_before_is_transitive(
                            name@,
                            was.names()[i as int],
                            was.names()[k],
                        );
                    }
                }
                if was.has(name@) {
                    text::law_before_is_total(name@, name@);
                }
            }
            self.entries.insert(i, (name, value));
            assert(self.names() =~= was.names().insert(i as int, name@));
            assert(self.values() =~= was.values().insert(i as int, value));
            assert(self.names().index(i as int) == name@);
            assert forall|a: int, b: int|
                #![trigger self.names()[a], self.names()[b]]
                0 <= a < b < self.names().len() implies text::before(
                self.names()[a],
                self.names()[b],
            ) by {
                let x = if a < i {
                    a
                } else {
                    a - 1
                };
                let y = if b < i {
                    b
                } else {
                    b - 1
                };
                if a != i && b != i {
                    assert(self.names()[a] == was.names()[x]);
                    assert(self.names()[b] == was.names()[y]);
                } else if a == i {
                    assert(self.names()[b] == was.names()[y]);
                } else {
                    assert(self.names()[a] == was.names()[x]);
                }
            }
            proof {
                self.lemma_inserted(was, i as int, self.names()[i as int], self.values()[i as int]);
            }
        }
    }

    /// The value at a position.
    pub fn value(&self, i: usize) -> (r: &V)
        requires
            i < self.values().len(),
        ensures
            *r == self.values()[i as int],
    {
        &self.entries[i].1
    }

    /// The value at a position, to be changed in place.
    pub fn value_mut(&mut self, i: usize) -> (r: &mut V)
        requires
            i < old(self).values().len(),
        ensures
            *r == old(self).values()[i as int],
            final(self).values() == old(self).values().update(i as int, *final(r)),
            final(self).names() == old(self).names(),
    {
        &mut self.entries[i].1
    }
}

/// The names listed are the keys of the map, each once and in order.
pub proof fn law_names_are_the_keys<V>(map: NameMap<V>)
    requires
        map.wf(),
    ensures
        map.names().no_duplicates(),
        map.names().to_set() == map@.dom(),
        forall|i: int| 0 <= i < map.names().len() ==> #[trigger] map.values()[i] == map@[map.names()[i]],
{
    assert forall|i: int, j: int|
        0 <= i < map.names().len() && 0 <= j < map.names().len() && i != j implies map.names()[i]
        != map.names()[j] by {
        map.lemma_position(i);
        map.lemma_position(j);
    }
    assert forall|i: int| 0 <= i < map.names().len() implies #[trigger] map.values()[i]
        == map@[map.names()[i]] by {
        map.lemma_position(i);
    }
    assert(map.names().to_set() =~= map@.dom());
}

} // verus!
