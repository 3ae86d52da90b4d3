//! A table of values by name.

use vstd::prelude::*;
use vstd::string::*;
use crate::text;

verus! {

/// Values, each under a name of its own.
pub struct Table<V> {
    pub entries: Vec<(String, V)>,
}

/// No name occurs twice.
pub open spec fn distinct<V>(entries: Seq<(String, V)>) -> bool {
    forall|i: int, j: int|
        0 <= i < j < entries.len() ==> (#[trigger] entries[i]).0@ != (#[trigger] entries[j]).0@
}

/// The values by their names.
pub open spec fn by_name<V>(entries: Seq<(String, V)>) -> Map<Seq<char>, V>
    decreases entries.len(),
{
    if entries.len() == 0 {
        Map::empty()
    } else {
        by_name(entries.drop_last()).insert(entries.last().0@, entries.last().1)
    }
}

pub proof fn lemma_present<V>(entries: Seq<(String, V)>, i: int)
    requires
        distinct(entries),
        0 <= i < entries.len(),
    ensures
        by_name(entries).contains_key(entries[i].0@),
        by_name(entries)[entries[i].0@] == entries[i].1,
    decreases entries.len(),
{
    if i < entries.len() - 1 {
        assert(entries[i].0@ != entries[entries.len() - 1].0@);
        lemma_present(entries.drop_last(), i);
    }
}

pub proof fn lemma_found<V>(entries: Seq<(String, V)>, key: Seq<char>) -> (i: int)
    requires
        by_name(entries).contains_key(key),
    ensures
        0 <= i < entries.len(),
        entries[i].0@ == key,
    decreases entries.len(),
{
    if entries.last().0@ == key {
        entries.len() - 1
    } else {
        lemma_found(entries.drop_last(), key)
    }
}

impl<V> View for Table<V> {
    type V = Map<Seq<char>, V>;

    open spec fn view(&self) -> Map<Seq<char>, V> {
        by_name(self.entries@)
    }
}

impl<V> Table<V> {
    pub open spec fn wf(&self) -> bool {
        distinct(self.entries@)
    }

    pub fn new() -> (r: Table<V>)
        ensures
            r.wf(),
            r@ == Map::<Seq<char>, V>::empty(),
            r.entries@.len() == 0,
    {
        Table { entries: Vec::new() }
    }

    /// The position of a name.
    pub fn position(&self, key: &str) -> (r: Option<usize>)
        requires
            self.wf(),
        ensures
            match r {
                Some(i) => i < self.entries@.len() && self.entries@[i as int].0@ == key@
                    && self@.contains_key(key@) && self@[key@] == self.entries@[i as int].1,
                None => !self@.contains_key(key@),
            },
    {
        let mut i: usize = 0;
        while i < self.entries.len()
            invariant
                i <= self.entries@.len(),
                self.wf(),
                forall|k: int| 0 <= k < i ==> (#[trigger] self.entries@[k]).0@ != key@,
            decreases self.entries@.len() - i,
        {
            if text::equal(self.entries[i].0.as_str(), key) {
                proof {
                    lemma_present(self.entries@, i as int);
                }
                return Some(i);
            }
            i += 1;
        }
        proof {
            if self@.contains_key(key@) {
                let k = lemma_found(self.entries@, key@);
                assert(self.entries@[k].0@ == key@);
            }
        }
        None
    }

    pub fn get(&self, key: &str) -> (r: Option<&V>)
        requires
            self.wf(),
        ensures
            match r {
                Some(value) => self@.contains_key(key@) && self@[key@] == *value,
                None => !self@.contains_key(key@),
            },
    {
        match self.position(key) {
            Some(i) => Some(&self.entries[i].1),
            None => None,
        }
    }

    /// Puts a value under a name, in place of the one that was there; says whether there was one.
    pub fn insert(&mut self, key: String, value: V) -> (r: bool)
        requires
            old(self).wf(),
        ensures
            final(self).wf(),
            r == old(self)@.contains_key(key@),
            final(self)@ == old(self)@.insert(key@, value),
    {
        let ghost before = self.entries@;
        let ghost k = key@;
        match self.position(key.as_str()) {
            Some(i) => {
                self.entries.set(i, (key, value));
                proof {
                    let after = self.entries@;
                    assert forall|a: int, b: int| 0 <= a < b < after.len() implies (
                    #[trigger] after[a]).0@ != (#[trigger] after[b]).0@ by {
                        assert(before[a].0@ != before[b].0@);
                        assert(after[a].0@ == before[a].0@);
                        assert(after[b].0@ == before[b].0@);
                    }
                    lemma_same_elsewhere(before, after, i as int);
                }
                true
            },
            None => {
                proof {
                    assert forall|a: int| 0 <= a < before.len() implies (#[trigger] before[a]).0@
                        != k by {
                        lemma_present(before, a);
                    }
                }
                self.entries.push((key, value));
                assert(self.entries@.drop_last() =~= before);
                false
            },
        }
    }

    /// Takes the value under a name out of the table.
    pub fn remove(&mut self, key: &str) -> (r: Option<V>)
        requires
            old(self).wf(),
        ensures
            final(self).wf(),
            final(self)@ == old(self)@.remove(key@),
            match r {
                Some(value) => old(self)@.contains_key(key@) && old(self)@[key@] == value,
                None => !old(self)@.contains_key(key@),
            },
    {
        let ghost before = self.entries@;
        match self.position(key) {
            Some(i) => {
                let (_, value) = self.entries.remove(i);
                proof {
                    let after = self.entries@;
                    assert(after =~= before.remove(i as int));
                    assert forall|a: int, b: int| 0 <= a < b < after.len() implies (
                    #[trigger] after[a]).0@ != (#[trigger] after[b]).0@ by {
                        let x = if a < i {
                            a
                        } else {
                            a + 1
                        };
                        let y = if b < i {
                            b
                        } else {
                            b + 1
                        };
                        assert(after[a] == before[x]);
                        assert(after[b] == before[y]);
                    }
                    lemma_without(before, after, i as int);
                }
                Some(value)
            },
            None => {
                proof {
                    assert(self@.remove(key@) =~= self@);
                }
                None
            },
        }
    }
}

proof fn lemma_same_elsewhere<V>(before: Seq<(String, V)>, after: Seq<(String, V)>, at: int)
    requires
        distinct(before),
        distinct(after),
        before.len() == after.len(),
        0 <= at < before.len(),
        before[at].0@ == after[at].0@,
        forall|i: int| 0 <= i < before.len() && i != at ==> before[i] == after[i],
    ensures
        by_name(after) == by_name(before).insert(before[at].0@, after[at].1),
{
    let m = by_name(before).insert(before[at].0@, after[at].1);
    assert forall|k: Seq<char>| by_name(after).contains_key(k) <==> m.contains_key(k) by {
        if by_name(after).contains_key(k) {
            let i = lemma_found(after, k);
            lemma_present(before, i);
        }
        if m.contains_key(k) {
            if k == before[at].0@ {
                lemma_present(after, at);
            } else {
                let i = lemma_found(before, k);
                lemma_present(after, i);
            }
        }
    }
    assert forall|k: Seq<char>| by_name(after).contains_key(k) implies #[trigger] by_name(after)[k]
        == m[k] by {
        let i = lemma_found(after, k);
        lemma_present(after, i);
        if i != at {
            assert(before[i] == after[i]);
            lemma_present(before, i);
            if i < at {
                assert(before[i].0@ != before[at].0@);
            } else {
                assert(before[at].0@ != before[i].0@);
            }
        }
    }
    assert(by_name(after) =~= m);
}

proof fn lemma_without<V>(before: Seq<(String, V)>, after: Seq<(String, V)>, at: int)
    requires
        distinct(before),
        distinct(after),
        0 <= at < before.len(),
        after == before.remove(at),
    ensures
        by_name(after) == by_name(before).remove(before[at].0@),
{
    let m = by_name(before).remove(before[at].0@);
    assert forall|k: Seq<char>| by_name(after).contains_key(k) <==> m.contains_key(k) by {
        if by_name(after).contains_key(k) {
            let i = lemma_found(after, k);
            let j = if i < at {
                i
            } else {
                i + 1
            };
            assert(after[i] == before[j]);
            lemma_present(before, j);
            if j < at {
                assert(before[j].0@ != before[at].0@);
            } else {
                assert(before[at].0@ != before[j].0@);
            }
        }
        if m.contains_key(k) {
            let j = lemma_found(before, k);
            let i = if j < at {
                j
            } else {
                j - 1
            };
            assert(after[i] == before[j]);
            lemma_present(after, i);
        }
    }
    assert forall|k: Seq<char>| by_name(after).contains_key(k) implies #[trigger] by_name(after)[k]
        == m[k] by {
        let i = lemma_found(after, k);
        let j = if i < at {
            i
        } else {
            i + 1
        };
        assert(after[i] == before[j]);
        lemma_present(after, i);
        lemma_present(before, j);
    }
    assert(by_name(after) =~= m);
}

} // verus!
