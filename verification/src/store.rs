//! A map from text keys to values, kept as a vector of entries whose keys are
//! pairwise distinct. It stands where a `HashMap<String, V>` would: its model
//! is a `Map<Seq<char>, V>`, and its storage order is an enumeration of the
//! keys without repetition.

use vstd::prelude::*;

verus! {

/// No two entries share a key.
pub open spec fn keys_distinct<V>(s: Seq<(String, V)>) -> bool {
    forall|i: int, j: int|
        0 <= i < s.len() && 0 <= j < s.len() && i != j ==> #[trigger] s[i].0@ != #[trigger] s[j].0@
}

/// Some key of the entries equals `k`.
pub open spec fn has_key<V>(s: Seq<(String, V)>, k: Seq<char>) -> bool {
    exists|i: int| 0 <= i < s.len() && #[trigger] s[i].0@ == k
}

/// The map that a sequence of entries stands for.
pub open spec fn entries_map<V>(s: Seq<(String, V)>) -> Map<Seq<char>, V> {
    Map::new(
        |k: Seq<char>| has_key(s, k),
        |k: Seq<char>| s[choose|i: int| 0 <= i < s.len() && #[trigger] s[i].0@ == k].1,
    )
}

/// An entry is what the map holds under its key.
pub proof fn lemma_entry_in_map<V>(s: Seq<(String, V)>, i: int)
    requires
        keys_distinct(s),
        0 <= i < s.len(),
    ensures
        entries_map(s).contains_key(s[i].0@),
        entries_map(s)[s[i].0@] == s[i].1,
{
    let k = s[i].0@;
    assert(has_key(s, k));
    let j = choose|j: int| 0 <= j < s.len() && #[trigger] s[j].0@ == k;
    assert(s[j].0@ == k);
    assert(j == i);
}

/// Appending an entry with a fresh key inserts it into the map.
pub proof fn lemma_push<V>(s: Seq<(String, V)>, k: String, v: V)
    requires
        keys_distinct(s),
        !has_key(s, k@),
    ensures
        keys_distinct(s.push((k, v))),
        entries_map(s.push((k, v))) == entries_map(s).insert(k@, v),
{
    let t = s.push((k, v));
    assert forall|i: int, j: int|
        0 <= i < t.len() && 0 <= j < t.len() && i != j implies #[trigger] t[i].0@ != #[trigger] t[j].0@ by {
        if i < s.len() && j < s.len() {
            assert(t[i] == s[i] && t[j] == s[j]);
        } else if i < s.len() {
            assert(t[i] == s[i]);
        } else {
            assert(t[j] == s[j]);
        }
    }
    let m = entries_map(s).insert(k@, v);
    assert forall|key: Seq<char>| #[trigger] entries_map(t).contains_key(key) <==> m.contains_key(key) by {
        if has_key(t, key) {
            let i = choose|i: int| 0 <= i < t.len() && #[trigger] t[i].0@ == key;
            if i < s.len() {
                assert(t[i] == s[i]);
                assert(has_key(s, key));
            }
        }
        if has_key(s, key) {
            let i = choose|i: int| 0 <= i < s.len() && #[trigger] s[i].0@ == key;
            assert(t[i] == s[i]);
            assert(has_key(t, key));
        }
        if key == k@ {
            assert(t[s.len() as int].0@ == key);
            assert(has_key(t, key));
        }
    }
    assert forall|key: Seq<char>| #[trigger] m.contains_key(key) implies entries_map(t)[key] == m[key] by {
        if key == k@ {
            lemma_entry_in_map(t, s.len() as int);
        } else {
            let i = choose|i: int| 0 <= i < s.len() && #[trigger] s[i].0@ == key;
            lemma_entry_in_map(s, i);
            assert(t[i] == s[i]);
            lemma_entry_in_map(t, i);
        }
    }
    assert(entries_map(t) =~= m);
}

/// Replacing the entry at `i` by one with the same key stores the new value
/// under that key.
pub proof fn lemma_replace<V>(s: Seq<(String, V)>, i: int, k: String, v: V)
    requires
        keys_distinct(s),
        0 <= i < s.len(),
        s[i].0@ == k@,
    ensures
        keys_distinct(s.update(i, (k, v))),
        entries_map(s.update(i, (k, v))) == entries_map(s).insert(k@, v),
{
    let t = s.update(i, (k, v));
    assert forall|a: int, b: int|
        0 <= a < t.len() && 0 <= b < t.len() && a != b implies #[trigger] t[a].0@ != #[trigger] t[b].0@ by {
        assert(t[a].0@ == s[a].0@);
        assert(t[b].0@ == s[b].0@);
    }
    let m = entries_map(s).insert(k@, v);
    assert forall|key: Seq<char>| #[trigger] entries_map(t).contains_key(key) <==> m.contains_key(key) by {
        if has_key(t, key) {
            let a = choose|a: int| 0 <= a < t.len() && #[trigger] t[a].0@ == key;
            assert(s[a].0@ == key);
            assert(has_key(s, key));
        }
        if has_key(s, key) {
            let a = choose|a: int| 0 <= a < s.len() && #[trigger] s[a].0@ == key;
            assert(t[a].0@ == key);
            assert(has_key(t, key));
        }
        if key == k@ {
            assert(t[i].0@ == key);
            assert(has_key(t, key));
        }
    }
    assert forall|key: Seq<char>| #[trigger] m.contains_key(key) implies entries_map(t)[key] == m[key] by {
        if key == k@ {
            lemma_entry_in_map(t, i);
        } else {
            let a = choose|a: int| 0 <= a < s.len() && #[trigger] s[a].0@ == key;
            lemma_entry_in_map(s, a);
            assert(t[a] == s[a]);
            lemma_entry_in_map(t, a);
        }
    }
    assert(entries_map(t) =~= m);
}

/// Dropping the entry at `i` removes its key from the map.
pub proof fn lemma_drop<V>(s: Seq<(String, V)>, i: int)
    requires
        keys_distinct(s),
        0 <= i < s.len(),
    ensures
        keys_distinct(s.remove(i)),
        entries_map(s.remove(i)) == entries_map(s).remove(s[i].0@),
{
    let t = s.remove(i);
    let gone = s[i].0@;
    assert forall|a: int, b: int|
        0 <= a < t.len() && 0 <= b < t.len() && a != b implies #[trigger] t[a].0@ != #[trigger] t[b].0@ by {
        let a2 = if a < i { a } else { a + 1 };
        let b2 = if b < i { b } else { b + 1 };
        assert(t[a] == s[a2]);
        assert(t[b] == s[b2]);
    }
    let m = entries_map(s).remove(gone);
    assert forall|key: Seq<char>| #[trigger] entries_map(t).contains_key(key) <==> m.contains_key(key) by {
        if has_key(t, key) {
            let a = choose|a: int| 0 <= a < t.len() && #[trigger] t[a].0@ == key;
            let a2 = if a < i { a } else { a + 1 };
            assert(t[a] == s[a2]);
            assert(has_key(s, key));
            assert(a2 != i);
        }
        if has_key(s, key) && key != gone {
            let a = choose|a: int| 0 <= a < s.len() && #[trigger] s[a].0@ == key;
            assert(a != i);
            let a1 = if a < i { a } else { a - 1 };
            assert(t[a1] == s[a]);
            assert(has_key(t, key));
        }
    }
    assert forall|key: Seq<char>| #[trigger] m.contains_key(key) implies entries_map(t)[key] == m[key] by {
        let a = choose|a: int| 0 <= a < s.len() && #[trigger] s[a].0@ == key;
        lemma_entry_in_map(s, a);
        assert(a != i);
        let a1 = if a < i { a } else { a - 1 };
        assert(t[a1] == s[a]);
        lemma_entry_in_map(t, a1);
    }
    assert(entries_map(t) =~= m);
}

/// The value under `k`, if any.
pub open spec fn lookup<V>(m: Map<Seq<char>, V>, k: Seq<char>) -> Option<V> {
    if m.contains_key(k) {
        Some(m[k])
    } else {
        None
    }
}

/// Text-keyed map with distinct keys.
#[derive(Debug, Clone)]
pub struct StringMap<V> {
    entries: Vec<(String, V)>,
}

impl<V> View for StringMap<V> {
    type V = Map<Seq<char>, V>;

    closed spec fn view(&self) -> Map<Seq<char>, V> {
        entries_map(self.entries@)
    }
}

impl<V> StringMap<V> {
    /// The keys in storage order.
    pub closed spec fn key_seq(&self) -> Seq<Seq<char>> {
        Seq::new(self.entries@.len(), |i: int| self.entries@[i].0@)
    }

    /// Well-formedness: the keys are pairwise distinct.
    pub closed spec fn wf(&self) -> bool {
        keys_distinct(self.entries@)
    }

    /// The storage order enumerates the keys of the map, each once.
    pub proof fn lemma_key_seq(&self)
        requires
            self.wf(),
        ensures
            self.key_seq().no_duplicates(),
            forall|k: Seq<char>| #[trigger] self@.contains_key(k) <==> self.key_seq().contains(k),
    {
        let s = self.entries@;
        let ks = self.key_seq();
        assert forall|k: Seq<char>| #[trigger] self@.contains_key(k) <==> ks.contains(k) by {
            if has_key(s, k) {
                let i = choose|i: int| 0 <= i < s.len() && #[trigger] s[i].0@ == k;
                assert(ks[i] == k);
            }
            if ks.contains(k) {
                let i = choose|i: int| 0 <= i < ks.len() && ks[i] == k;
                assert(s[i].0@ == k);
            }
        }
        assert forall|i: int, j: int| 0 <= i < ks.len() && 0 <= j < ks.len() && i != j implies ks[i] != ks[j] by {
            assert(s[i].0@ != s[j].0@);
        }
    }

    /// An empty map.
    pub fn new() -> (r: Self)
        ensures
            r.wf(),
            r@ == Map::<Seq<char>, V>::empty(),
            r.key_seq().len() == 0,
    {
        let r = StringMap { entries: Vec::new() };
        assert(r@ =~= Map::<Seq<char>, V>::empty());
        r
    }

    /// The number of entries.
    pub fn len(&self) -> (r: usize)
        ensures
            r == self.key_seq().len(),
    {
        self.entries.len()
    }

    /// Where the entry with key `k` is stored, if there is one.
    fn position(&self, k: &String) -> (r: Option<usize>)
        ensures
            match r {
                Some(i) => i < self.entries@.len() && self.entries@[i as int].0@ == k@,
                None => !has_key(self.entries@, k@),
            },
    {
        let mut i: usize = 0;
        while i < self.entries.len()
            invariant
                i <= self.entries@.len(),
                forall|j: int| 0 <= j < i ==> #[trigger] self.entries@[j].0@ != k@,
            decreases self.entries@.len() - i,
        {
            if self.entries[i].0 == *k {
                return Some(i);
            }
            i += 1;
        }
        None
    }

    /// Whether the map holds key `k`.
    pub fn contains_key(&self, k: &str) -> (r: bool)
        ensures
            r == self@.contains_key(k@),
    {
        let key = k.to_owned();
        match self.position(&key) {
            Some(_) => true,
            None => false,
        }
    }

    /// The value stored under `k`, if any.
    pub fn get(&self, k: &str) -> (r: Option<&V>)
        requires
            self.wf(),
        ensures
            match r {
                Some(v) => self@.contains_key(k@) && *v == self@[k@],
                None => !self@.contains_key(k@),
            },
    {
        let key = k.to_owned();
        match self.position(&key) {
            Some(i) => {
                proof {
                    lemma_entry_in_map(self.entries@, i as int);
                }
                Some(&self.entries[i].1)
            },
            None => None,
        }
    }

    /// Stores `v` under `k`, replacing what was stored there.
    pub fn insert(&mut self, k: String, v: V)
        requires
            old(self).wf(),
        ensures
            final(self).wf(),
            final(self)@ == old(self)@.insert(k@, v),
    {
        let ghost s = self.entries@;
        let ghost kv = (k, v);
        match self.position(&k) {
            Some(i) => {
                proof {
                    lemma_replace(s, i as int, kv.0, kv.1);
                }
                self.entries.set(i, (k, v));
            },
            None => {
                proof {
                    lemma_push(s, kv.0, kv.1);
                }
                self.entries.push((k, v));
            },
        }
    }

    /// Removes the entry under `k` and returns its value, if there was one.
    pub fn remove(&mut self, k: &str) -> (r: Option<V>)
        requires
            old(self).wf(),
        ensures
            final(self).wf(),
            final(self)@ == old(self)@.remove(k@),
            r == (if old(self)@.contains_key(k@) {
                Some(old(self)@[k@])
            } else {
                None
            }),
    {
        let ghost s = self.entries@;
        let key = k.to_owned();
        match self.position(&key) {
            Some(i) => {
                proof {
                    lemma_drop(s, i as int);
                    lemma_entry_in_map(s, i as int);
                }
                let (_, v) = self.entries.remove(i);
                Some(v)
            },
            None => {
                assert(self@.remove(k@) =~= self@);
                None
            },
        }
    }

    /// The keys in storage order.
    pub fn keys(&self) -> (r: Vec<&String>)
        ensures
            r@.len() == self.key_seq().len(),
            forall|i: int| 0 <= i < r@.len() ==> #[trigger] r@[i]@ == self.key_seq()[i],
    {
        let mut r: Vec<&String> = Vec::new();
        let mut i: usize = 0;
        while i < self.entries.len()
            invariant
                i <= self.entries@.len(),
                r@.len() == i,
                forall|j: int| 0 <= j < i ==> #[trigger] r@[j]@ == self.key_seq()[j],
            decreases self.entries@.len() - i,
        {
            r.push(&self.entries[i].0);
            i += 1;
        }
        r
    }

    /// The values in storage order.
    pub fn values(&self) -> (r: Vec<&V>)
        requires
            self.wf(),
        ensures
            r@.len() == self.key_seq().len(),
            forall|i: int| 0 <= i < r@.len() ==> *r@[i] == self@[#[trigger] self.key_seq()[i]],
    {
        let mut r: Vec<&V> = Vec::new();
        let mut i: usize = 0;
        while i < self.entries.len()
            invariant
                self.wf(),
                i <= self.entries@.len(),
                r@.len() == i,
                forall|j: int| 0 <= j < i ==> *r@[j] == self@[#[trigger] self.key_seq()[j]],
            decreases self.entries@.len() - i,
        {
            proof {
                lemma_entry_in_map(self.entries@, i as int);
            }
            r.push(&self.entries[i].1);
            i += 1;
        }
        r
    }
}

} // verus!
