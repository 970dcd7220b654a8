//! A small table from text keys to values, keys kept unique.

use vstd::prelude::*;

use crate::text::str_eq;

verus! {

/// The value stored under `key` (the last entry with that key).
pub open spec fn table_lookup<V>(es: Seq<(String, V)>, key: Seq<char>) -> Option<V>
    decreases es.len(),
{
    if es.len() == 0 {
        None
    } else if es.last().0@ == key {
        Some(es.last().1)
    } else {
        table_lookup(es.drop_last(), key)
    }
}

/// No two entries share a key.
pub open spec fn keys_unique<V>(es: Seq<(String, V)>) -> bool {
    forall|i: int, j: int| 0 <= i < j < es.len() ==> (#[trigger] es[i]).0@ != (#[trigger] es[j]).0@
}

proof fn lemma_lookup_iff<V>(es: Seq<(String, V)>, key: Seq<char>)
    requires
        keys_unique(es),
    ensures
        table_lookup(es, key) is None <==> forall|i: int| 0 <= i < es.len() ==> (#[trigger] es[i]).0@ != key,
        forall|i: int| 0 <= i < es.len() && (#[trigger] es[i]).0@ == key ==> table_lookup(es, key) == Some(es[i].1),
    decreases es.len(),
{
    if es.len() > 0 {
        let d = es.drop_last();
        let n = es.len() - 1;
        assert forall|i: int, j: int| 0 <= i < j < d.len() implies (#[trigger] d[i]).0@ != (
        #[trigger] d[j]).0@ by {
            assert(d[i] == es[i] && d[j] == es[j]);
        }
        lemma_lookup_iff(d, key);
        if es[n].0@ == key {
            assert forall|i: int| 0 <= i < es.len() && (#[trigger] es[i]).0@ == key implies i == n by {
                if i < n {
                    assert(es[i].0@ != es[n].0@);
                }
            }
        } else {
            assert forall|i: int| 0 <= i < es.len() && (#[trigger] es[i]).0@ == key implies table_lookup(
                es,
                key,
            ) == Some(es[i].1) by {
                assert(i < n);
                assert(d[i] == es[i]);
            }
            if table_lookup(es, key) is None {
                assert forall|i: int| 0 <= i < es.len() implies (#[trigger] es[i]).0@ != key by {
                    if i < n {
                        assert(d[i] == es[i]);
                    }
                }
            } else {
                let i = choose|i: int| 0 <= i < d.len() && (#[trigger] d[i]).0@ == key;
                assert(es[i] == d[i]);
            }
        }
    }
}

/// A table from text keys to values.
pub struct KeyedTable<V> {
    entries: Vec<(String, V)>,
}

impl<V> KeyedTable<V> {
    /// The value stored under `key`.
    pub closed spec fn lookup(&self, key: Seq<char>) -> Option<V> {
        table_lookup(self.entries@, key)
    }

    /// Keys are unique.
    pub closed spec fn wf(&self) -> bool {
        keys_unique(self.entries@)
    }

    pub fn new() -> (r: KeyedTable<V>)
        ensures
            r.wf(),
            forall|k: Seq<char>| #[trigger] r.lookup(k) is None,
    {
        KeyedTable { entries: Vec::new() }
    }

    fn position(&self, key: &str) -> (r: Option<usize>)
        requires
            self.wf(),
        ensures
            match r {
                Some(i) => i < self.entries@.len() && self.entries@[i as int].0@ == key@,
                None => self.lookup(key@) is None,
            },
    {
        let mut i: usize = 0;
        while i < self.entries.len()
            invariant
                i <= self.entries@.len(),
                forall|k: int| 0 <= k < i ==> (#[trigger] self.entries@[k]).0@ != key@,
            decreases self.entries.len() - i,
        {
            if str_eq(self.entries[i].0.as_str(), key) {
                return Some(i);
            }
            i = i + 1;
        }
        proof {
            lemma_lookup_iff(self.entries@, key@);
        }
        None
    }

    /// The value stored under `key`.
    pub fn get(&self, key: &str) -> (r: Option<&V>)
        requires
            self.wf(),
        ensures
            match r {
                Some(v) => self.lookup(key@) == Some(*v),
                None => self.lookup(key@) is None,
            },
    {
        match self.position(key) {
            Some(i) => {
                proof {
                    lemma_lookup_iff(self.entries@, key@);
                }
                Some(&self.entries[i].1)
            },
            None => None,
        }
    }

    /// Removes the entry of `key`, if any; returns its value.
    pub fn remove(&mut self, key: &str) -> (r: Option<V>)
        requires
            old(self).wf(),
        ensures
            final(self).wf(),
            r == old(self).lookup(key@),
            final(self).lookup(key@) is None,
            forall|k: Seq<char>| k != key@ ==> #[trigger] final(self).lookup(k) == old(self).lookup(k),
    {
        match self.position(key) {
            None => None,
            Some(i) => {
                let ghost before = self.entries@;
                proof {
                    lemma_lookup_iff(before, key@);
                }
                let (_, v) = self.entries.remove(i);
                let ghost after = self.entries@;
                assert forall|a: int, b: int| 0 <= a < b < after.len() implies (#[trigger] after[a]).0@
                    != (#[trigger] after[b]).0@ by {
                    let a0 = if a < i { a } else { a + 1 };
                    let b0 = if b < i { b } else { b + 1 };
                    assert(after[a] == before[a0] && after[b] == before[b0]);
                }
                proof {
                    lemma_lookup_iff(after, key@);
                    assert forall|m: int| 0 <= m < after.len() implies (#[trigger] after[m]).0@ != key@ by {
                        let m0 = if m < i { m } else { m + 1 };
                        assert(after[m] == before[m0]);
                    }
                    assert forall|k: Seq<char>| k != key@ implies #[trigger] table_lookup(after, k)
                        == table_lookup(before, k) by {
                        lemma_lookup_iff(after, k);
                        lemma_lookup_iff(before, k);
                        if table_lookup(before, k) is Some {
                            let m0 = choose|m0: int| 0 <= m0 < before.len() && (#[trigger] before[m0]).0@ == k;
                            let m = if m0 < i { m0 } else { m0 - 1 };
                            assert(after[m] == before[m0]);
                        } else if table_lookup(after, k) is Some {
                            let m = choose|m: int| 0 <= m < after.len() && (#[trigger] after[m]).0@ == k;
                            let m0 = if m < i { m } else { m + 1 };
                            assert(after[m] == before[m0]);
                        }
                    }
                }
                Some(v)
            },
        }
    }

    /// Stores `value` under `key`, replacing any earlier value.
    pub fn insert(&mut self, key: &str, value: V)
        requires
            old(self).wf(),
        ensures
            final(self).wf(),
            final(self).lookup(key@) == Some(value),
            forall|k: Seq<char>| k != key@ ==> #[trigger] final(self).lookup(k) == old(self).lookup(k),
    {
        let _ = self.remove(key);
        let ghost mid = *self;
        let ghost before = self.entries@;
        proof {
            lemma_lookup_iff(before, key@);
        }
        self.entries.push((String::from_str(key), value));
        let ghost after = self.entries@;
        assert forall|a: int, b: int| 0 <= a < b < after.len() implies (#[trigger] after[a]).0@
            != (#[trigger] after[b]).0@ by {
            assert(after[a] == before[a]);
            if b < before.len() {
                assert(after[b] == before[b]);
            }
        }
        assert(after.drop_last() =~= before);
        assert forall|k: Seq<char>| k != key@ implies #[trigger] self.lookup(k) == old(self).lookup(
            k,
        ) by {
            assert(table_lookup(after, k) == table_lookup(before, k));
            assert(mid.lookup(k) == old(self).lookup(k));
        }
    }
}

} // verus!
