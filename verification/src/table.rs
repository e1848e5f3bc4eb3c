//! The turtle's tables. Tables keyed by line numbers are std hash maps.
//! Tables keyed by names are lists of entries that keep each name at most
//! once: for a hash map keyed by strings, nothing is known of what `get`
//! returns after `insert`, while over a list it is proved.
use vstd::prelude::*;
use crate::text::str_eq;
use crate::constant::Func;
use std::collections::HashMap;

verus! {

broadcast use vstd::std_specs::hash::group_hash_axioms;

/// The map that a list of (key, value) entries denotes; a later entry for a
/// key overrides an earlier one.
pub open spec fn assoc_map<K, V>(l: Seq<(K, V)>) -> Map<K, V>
    decreases l.len(),
{
    if l.len() == 0 {
        Map::empty()
    } else {
        assoc_map(l.drop_last()).insert(l.last().0, l.last().1)
    }
}

/// No key occurs twice.
pub open spec fn distinct_keys<K, V>(l: Seq<(K, V)>) -> bool {
    forall|i: int, j: int| 0 <= i < j < l.len() ==> l[i].0 != l[j].0
}

pub proof fn lemma_assoc_dom<K, V>(l: Seq<(K, V)>, k: K)
    ensures
        assoc_map(l).contains_key(k) <==> exists|i: int| 0 <= i < l.len() && l[i].0 == k,
    decreases l.len(),
{
    if l.len() > 0 {
        lemma_assoc_dom(l.drop_last(), k);
        if assoc_map(l).contains_key(k) {
            if k == l.last().0 {
                assert(l[l.len() - 1].0 == k);
            } else {
                let i = choose|i: int| 0 <= i < l.len() - 1 && l.drop_last()[i].0 == k;
                assert(l[i].0 == k);
            }
        }
        if exists|i: int| 0 <= i < l.len() && l[i].0 == k {
            let i = choose|i: int| 0 <= i < l.len() && l[i].0 == k;
            if i < l.len() - 1 {
                assert(l.drop_last()[i].0 == k);
            }
        }
    }
}

pub proof fn lemma_assoc_value<K, V>(l: Seq<(K, V)>, i: int)
    requires
        distinct_keys(l),
        0 <= i < l.len(),
    ensures
        assoc_map(l).contains_key(l[i].0),
        assoc_map(l)[l[i].0] == l[i].1,
    decreases l.len(),
{
    if i < l.len() - 1 {
        assert(l.drop_last()[i] == l[i]);
        lemma_assoc_value(l.drop_last(), i);
        assert(l[i].0 != l[l.len() - 1].0);
    }
}

pub proof fn lemma_assoc_update<K, V>(l: Seq<(K, V)>, i: int, v: V)
    requires
        distinct_keys(l),
        0 <= i < l.len(),
    ensures
        assoc_map(l.update(i, (l[i].0, v))) == assoc_map(l).insert(l[i].0, v),
        distinct_keys(l.update(i, (l[i].0, v))),
    decreases l.len(),
{
    let l2 = l.update(i, (l[i].0, v));
    if i == l.len() - 1 {
        assert(l2.drop_last() =~= l.drop_last());
        assert(assoc_map(l2) =~= assoc_map(l).insert(l[i].0, v));
    } else {
        assert(l2.drop_last() =~= l.drop_last().update(i, (l[i].0, v)));
        lemma_assoc_update(l.drop_last(), i, v);
        assert(l[i].0 != l[l.len() - 1].0);
        assert(assoc_map(l2) =~= assoc_map(l).insert(l[i].0, v));
    }
}

/// A table keyed by line numbers.
pub struct LineTable<V> {
    map: HashMap<usize, V>,
}

impl<V> LineTable<V> {
    pub closed spec fn view(&self) -> Map<usize, V> {
        self.map@
    }

    pub closed spec fn wf(&self) -> bool {
        true
    }

    pub fn new() -> (t: Self)
        ensures
            t.wf(),
            t.view() == Map::<usize, V>::empty(),
    {
        LineTable { map: HashMap::new() }
    }

    /// Sets the value of key `k`, replacing any earlier one.
    pub fn insert(&mut self, k: usize, v: V)
        requires
            old(self).wf(),
        ensures
            final(self).wf(),
            final(self).view() == old(self).view().insert(k, v),
    {
        self.map.insert(k, v);
    }

    /// The value of key `k`, if it has one.
    pub fn get(&self, k: usize) -> (r: Option<&V>)
        requires
            self.wf(),
        ensures
            r == (if self.view().contains_key(k) {
                Some(&self.view()[k])
            } else {
                None
            }),
    {
        self.map.get(&k)
    }
}

impl LineTable<usize> {
    /// A key whose value is `v`, if there is one. Where several keys hold
    /// `v`, which of them comes back is left open.
    pub fn key_with_value(&self, v: usize) -> (r: Option<usize>)
        requires
            self.wf(),
        ensures
            r matches Some(k) ==> self.view().contains_key(k) && self.view()[k] == v,
            r is None ==> forall|k: usize| #[trigger]
                self.view().contains_key(k) ==> self.view()[k] != v,
    {
        let ghost m = self.map@;
        for pair in it: self.map.iter()
            invariant
                m == self.map@,
                forall|j: int| 0 <= j < it.index() ==> *it.seq()[j].1 != v,
        {
            if *pair.1 == v {
                return Some(*pair.0);
            }
        }
        None
    }
}

/// The entries of a name table, with each name taken by its characters.
pub open spec fn name_entries<V>(l: Seq<(String, V)>) -> Seq<(Seq<char>, V)> {
    Seq::new(l.len(), |i: int| (l[i].0@, l[i].1))
}

/// A table keyed by names.
pub struct NameTable<V> {
    entries: Vec<(String, V)>,
}

impl<V> NameTable<V> {
    pub closed spec fn view(&self) -> Map<Seq<char>, V> {
        assoc_map(name_entries(self.entries@))
    }

    pub closed spec fn wf(&self) -> bool {
        distinct_keys(name_entries(self.entries@))
    }

    pub fn new() -> (t: Self)
        ensures
            t.wf(),
            t.view() == Map::<Seq<char>, V>::empty(),
    {
        NameTable { entries: Vec::new() }
    }

    fn index_of(&self, k: &str) -> (r: Option<usize>)
        ensures
            r matches Some(i) ==> i < self.entries@.len() && self.entries@[i as int].0@ == k@,
            r is None ==> forall|j: int|
                0 <= j < self.entries@.len() ==> self.entries@[j].0@ != k@,
    {
        let mut i: usize = 0;
        while i < self.entries.len()
            invariant
                i <= self.entries@.len(),
                forall|j: int| 0 <= j < i ==> self.entries@[j].0@ != k@,
            decreases self.entries@.len() - i,
        {
            if str_eq(self.entries[i].0.as_str(), k) {
                return Some(i);
            }
            i = i + 1;
        }
        None
    }

    /// Sets the value of name `k`, replacing any earlier one.
    pub fn insert(&mut self, k: &str, v: V)
        requires
            old(self).wf(),
        ensures
            final(self).wf(),
            final(self).view() == old(self).view().insert(k@, v),
    {
        let ghost l = name_entries(self.entries@);
        match self.index_of(k) {
            Some(i) => {
                proof {
                    lemma_assoc_update(l, i as int, v);
                }
                let key = String::from_str(k);
                self.entries.set(i, (key, v));
                proof {
                    assert(name_entries(self.entries@) =~= l.update(i as int, (l[i as int].0, v)));
                }
            },
            None => {
                let key = String::from_str(k);
                self.entries.push((key, v));
                proof {
                    let ne = name_entries(self.entries@);
                    assert(ne.drop_last() =~= l);
                    assert forall|a: int, b: int| 0 <= a < b < ne.len() implies ne[a].0
                        != ne[b].0 by {
                        if b < ne.len() - 1 {
                            assert(ne[a] == l[a] && ne[b] == l[b]);
                        } else {
                            assert(ne[a].0 == old(self).entries@[a].0@);
                        }
                    }
                }
            },
        }
    }

    /// The value of name `k`, if it has one.
    pub fn get(&self, k: &str) -> (r: Option<&V>)
        requires
            self.wf(),
        ensures
            r == (if self.view().contains_key(k@) {
                Some(&self.view()[k@])
            } else {
                None
            }),
    {
        let ghost l = name_entries(self.entries@);
        proof {
            lemma_assoc_dom(l, k@);
        }
        match self.index_of(k) {
            Some(i) => {
                proof {
                    lemma_assoc_value(l, i as int);
                }
                Some(&self.entries[i].1)
            },
            None => None,
        }
    }
}

impl NameTable<Func> {
    /// Whether some procedure in the table has its `END` on line `line`.
    pub fn has_end_line(&self, line: usize) -> (r: bool)
        requires
            self.wf(),
        ensures
            r == exists|n: Seq<char>| #[trigger]
                self.view().contains_key(n) && self.view()[n].end == line,
    {
        let ghost l = name_entries(self.entries@);
        let mut i: usize = 0;
        while i < self.entries.len()
            invariant
                self.wf(),
                l == name_entries(self.entries@),
                i <= self.entries@.len(),
                forall|j: int| 0 <= j < i ==> self.entries@[j].1.end != line,
            decreases self.entries@.len() - i,
        {
            if self.entries[i].1.end == line {
                proof {
                    lemma_assoc_value(l, i as int);
                    assert(l[i as int].1 == self.entries@[i as int].1);
                    assert(self.view().contains_key(l[i as int].0) && self.view()[l[i as int].0].end
                        == line);
                }
                return true;
            }
            i = i + 1;
        }
        proof {
            assert forall|n: Seq<char>| #[trigger] self.view().contains_key(n) implies self.view()[n].end
                != line by {
                lemma_assoc_dom(l, n);
                let j = choose|j: int| 0 <= j < l.len() && l[j].0 == n;
                lemma_assoc_value(l, j);
            }
        }
        false
    }
}

} // verus!
