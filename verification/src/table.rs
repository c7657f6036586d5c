//! A table from keys to values, in which no key occurs twice.

use vstd::prelude::*;

verus! {

/// A key of a [`Table`]: what can be compared and copied by its view.
pub trait Key: View + Sized {
    /// Whether the two keys are the same.
    fn same(&self, other: &Self) -> (r: bool)
        ensures
            r == (self@ == other@),
    ;

    /// A second copy of the key.
    fn duplicate(&self) -> (r: Self)
        ensures
            r@ == self@,
    ;
}

impl Key for String {
    fn same(&self, other: &String) -> (r: bool) {
        *self == *other
    }

    fn duplicate(&self) -> (r: String) {
        self.clone()
    }
}

impl Key for [u8; 32] {
    fn same(&self, other: &[u8; 32]) -> (r: bool) {
        let mut i: usize = 0;
        while i < 32
            invariant
                i <= 32,
                forall|j: int| 0 <= j < i ==> self@[j] == other@[j],
            decreases 32 - i,
        {
            if self[i] != other[i] {
                assert(self@[i as int] != other@[i as int]);
                return false;
            }
            i = i + 1;
        }
        assert(self@ =~= other@);
        true
    }

    fn duplicate(&self) -> (r: [u8; 32]) {
        *self
    }
}

/// A table from keys to values.
#[verifier::reject_recursive_types(K)]
#[verifier::reject_recursive_types(V)]
pub struct Table<K: Key, V> {
    entries: Vec<(K, V)>,
}

/// Whether `k` is the key of one of the entries.
spec fn holds_key<K: Key, V>(entries: Seq<(K, V)>, k: K::V) -> bool {
    exists|i: int| 0 <= i < entries.len() && (#[trigger] entries[i]).0@ == k
}

/// The place of the entry of `k`.
spec fn place<K: Key, V>(entries: Seq<(K, V)>, k: K::V) -> int {
    choose|i: int| 0 <= i < entries.len() && (#[trigger] entries[i]).0@ == k
}

/// What the entries map keys to.
spec fn mapping<K: Key, V>(entries: Seq<(K, V)>) -> Map<K::V, V> {
    Map::new(|k: K::V| holds_key(entries, k), |k: K::V| entries[place(entries, k)].1)
}

/// No key occurs twice.
spec fn distinct<K: Key, V>(entries: Seq<(K, V)>) -> bool {
    forall|i: int, j: int|
        0 <= i < j < entries.len() ==> (#[trigger] entries[i]).0@ != (#[trigger] entries[j]).0@
}

proof fn lemma_mapping_at<K: Key, V>(entries: Seq<(K, V)>, i: int)
    requires
        distinct(entries),
        0 <= i < entries.len(),
    ensures
        mapping(entries).contains_key(entries[i].0@),
        mapping(entries)[entries[i].0@] == entries[i].1,
{
    let k = entries[i].0@;
    assert(holds_key(entries, k));
    let p = place(entries, k);
    assert(p == i) by {
        if p < i {
            assert(entries[p].0@ != entries[i].0@);
        } else if i < p {
            assert(entries[i].0@ != entries[p].0@);
        }
    }
}

impl<K: Key, V> View for Table<K, V> {
    type V = Map<K::V, V>;

    closed spec fn view(&self) -> Map<K::V, V> {
        mapping(self.entries@)
    }
}

impl<K: Key, V> Table<K, V> {
    #[verifier::type_invariant]
    spec fn wf(self) -> bool {
        distinct(self.entries@)
    }

    /// The table without entries.
    pub fn new() -> (r: Self)
        ensures
            r@ == Map::<K::V, V>::empty(),
    {
        let r = Table { entries: Vec::new() };
        assert(r@ =~= Map::<K::V, V>::empty());
        r
    }

    /// The place of the entry of `k`.
    fn position(&self, k: &K) -> (r: Option<usize>)
        ensures
            match r {
                Some(i) => i < self.entries@.len() && self.entries@[i as int].0@ == k@,
                None => !self@.contains_key(k@),
            },
    {
        let mut i: usize = 0;
        while i < self.entries.len()
            invariant
                i <= self.entries@.len(),
                forall|j: int| 0 <= j < i ==> (#[trigger] self.entries@[j]).0@ != k@,
            decreases self.entries@.len() - i,
        {
            if self.entries[i].0.same(k) {
                return Some(i);
            }
            i = i + 1;
        }
        None
    }

    /// Whether the table has an entry of `k`.
    pub fn contains(&self, k: &K) -> (r: bool)
        ensures
            r == self@.contains_key(k@),
    {
        proof {
            use_type_invariant(self);
        }
        match self.position(k) {
            Some(i) => {
                proof {
                    lemma_mapping_at(self.entries@, i as int);
                }
                true
            },
            None => false,
        }
    }

    /// The value of `k`.
    pub fn get(&self, k: &K) -> (r: Option<&V>)
        ensures
            match r {
                Some(v) => self@.contains_key(k@) && *v == self@[k@],
                None => !self@.contains_key(k@),
            },
    {
        proof {
            use_type_invariant(self);
        }
        match self.position(k) {
            Some(i) => {
                proof {
                    lemma_mapping_at(self.entries@, i as int);
                }
                Some(&self.entries[i].1)
            },
            None => None,
        }
    }

    /// Takes the entry of `k` out and returns its value.
    pub fn remove(&mut self, k: &K) -> (r: Option<V>)
        ensures
            final(self)@ == old(self)@.remove(k@),
            match r {
                Some(v) => old(self)@.contains_key(k@) && v == old(self)@[k@],
                None => !old(self)@.contains_key(k@),
            },
    {
        proof {
            use_type_invariant(&*self);
        }
        match self.position(k) {
            None => {
                assert(self@.remove(k@) =~= self@);
                None
            },
            Some(i) => {
                let mut entries: Vec<(K, V)> = Vec::new();
                std::mem::swap(&mut entries, &mut self.entries);
                let ghost before = entries@;
                let (_, v) = entries.remove(i);
                proof {
                    lemma_removed(before, i as int);
                    lemma_mapping_at(before, i as int);
                }
                self.entries = entries;
                Some(v)
            },
        }
    }

    /// Gives `k` the value `v`, in place of the value that it may have had.
    pub fn insert(&mut self, k: K, v: V) -> (r: Option<V>)
        ensures
            final(self)@ == old(self)@.insert(k@, v),
            match r {
                Some(w) => old(self)@.contains_key(k@) && w == old(self)@[k@],
                None => !old(self)@.contains_key(k@),
            },
    {
        let r = self.remove(&k);
        proof {
            use_type_invariant(&*self);
        }
        let mut entries: Vec<(K, V)> = Vec::new();
        std::mem::swap(&mut entries, &mut self.entries);
        let ghost before = entries@;
        proof {
            assert(!mapping(before).contains_key(k@));
            lemma_pushed(before, k, v);
        }
        entries.push((k, v));
        self.entries = entries;
        assert(self@ =~= old(self)@.insert(k@, v));
        r
    }

    /// The keys of the table, each of them once.
    pub fn keys(&self) -> (r: Vec<K>)
        ensures
            forall|i: int, j: int|
                0 <= i < j < r@.len() ==> (#[trigger] r@[i])@ != (#[trigger] r@[j])@,
            forall|i: int| 0 <= i < r@.len() ==> self@.contains_key((#[trigger] r@[i])@),
            forall|k: K::V| #[trigger]
                self@.contains_key(k) ==> exists|i: int|
                    0 <= i < r@.len() && (#[trigger] r@[i])@ == k,
    {
        proof {
            use_type_invariant(self);
        }
        let mut r: Vec<K> = Vec::new();
        let mut i: usize = 0;
        while i < self.entries.len()
            invariant
                i <= self.entries@.len(),
                r@.len() == i,
                forall|j: int| 0 <= j < i ==> (#[trigger] r@[j])@ == self.entries@[j].0@,
            decreases self.entries@.len() - i,
        {
            r.push(self.entries[i].0.duplicate());
            i = i + 1;
        }
        proof {
            assert forall|i: int| 0 <= i < r@.len() implies self@.contains_key(
                (#[trigger] r@[i])@,
            ) by {
                lemma_mapping_at(self.entries@, i);
            }
            assert forall|k: K::V| #[trigger] self@.contains_key(k) implies exists|i: int|
                0 <= i < r@.len() && (#[trigger] r@[i])@ == k by {
                let p = place(self.entries@, k);
                assert(holds_key(self.entries@, k));
                assert(r@[p]@ == self.entries@[p].0@);
            }
        }
        r
    }
}

/// Taking an entry out takes its key out, and keeps keys distinct.
proof fn lemma_removed<K: Key, V>(entries: Seq<(K, V)>, i: int)
    requires
        distinct(entries),
        0 <= i < entries.len(),
    ensures
        distinct(entries.remove(i)),
        mapping(entries.remove(i)) == mapping(entries).remove(entries[i].0@),
{
    let after = entries.remove(i);
    let k0 = entries[i].0@;
    assert(distinct(after));
    assert forall|k: K::V| holds_key(after, k) <==> holds_key(entries, k) && k != k0 by {
        if holds_key(after, k) {
            let p = place(after, k);
            let q = if p < i { p } else { p + 1 };
            assert(entries[q] == after[p]);
        }
        if holds_key(entries, k) && k != k0 {
            let q = place(entries, k);
            let p = if q < i { q } else { q - 1 };
            assert(after[p] == entries[q]);
        }
    }
    assert forall|k: K::V| holds_key(after, k) implies mapping(after)[k] == mapping(entries)[k] by {
        let p = place(after, k);
        let q = if p < i { p } else { p + 1 };
        assert(entries[q] == after[p]);
        lemma_mapping_at(after, p);
        lemma_mapping_at(entries, q);
    }
    assert(mapping(after) =~= mapping(entries).remove(k0));
}

/// An entry with a new key adds that key, and keeps keys distinct.
proof fn lemma_pushed<K: Key, V>(entries: Seq<(K, V)>, k0: K, v0: V)
    requires
        distinct(entries),
        !mapping(entries).contains_key(k0@),
    ensures
        distinct(entries.push((k0, v0))),
        mapping(entries.push((k0, v0))) == mapping(entries).insert(k0@, v0),
{
    let after = entries.push((k0, v0));
    let n = entries.len() as int;
    assert(!holds_key(entries, k0@));
    assert forall|i: int| 0 <= i < n implies (#[trigger] entries[i]).0@ != k0@ by {
        if entries[i].0@ == k0@ {
            assert(holds_key(entries, k0@));
        }
    }
    assert(distinct(after)) by {
        assert forall|i: int, j: int| 0 <= i < j < after.len() implies (#[trigger] after[i]).0@ != (
        #[trigger] after[j]).0@ by {
            assert(after[i] == entries[i]);
            if j < n {
                assert(after[j] == entries[j]);
            }
        }
    }
    lemma_mapping_at(after, n);
    assert forall|k: K::V| holds_key(after, k) <==> holds_key(entries, k) || k == k0@ by {
        if holds_key(after, k) {
            let p = place(after, k);
            if p < n {
                assert(entries[p] == after[p]);
            }
        }
        if holds_key(entries, k) {
            let p = place(entries, k);
            assert(after[p] == entries[p]);
        }
        if k == k0@ {
            assert(after[n].0@ == k);
        }
    }
    assert forall|k: K::V| holds_key(entries, k) implies mapping(after)[k] == mapping(entries)[k] by {
        let p = place(entries, k);
        assert(after[p] == entries[p]);
        lemma_mapping_at(after, p);
        lemma_mapping_at(entries, p);
    }
    assert(mapping(after) =~= mapping(entries).insert(k0@, v0));
}

} // verus!
