//! A map keyed by strings, kept as a list of entries in insertion order.
//!
//! The engine keeps its registries (assets, binds, saved values, windows)
//! by string key; this is the one container they share.

use vstd::prelude::*;

verus! {

broadcast use vstd::string::to_string_from_display_ensures_for_str;

/// A string-keyed map; no key occurs twice.
pub struct StrMap<V> {
    entries: Vec<(String, V)>,
}

/// The map that a list of entries with distinct keys stands for.
pub open spec fn entries_map<V>(s: Seq<(String, V)>) -> Map<Seq<char>, V> {
    Map::new(
        |k: Seq<char>| exists|i: int| 0 <= i < s.len() && #[trigger] s[i].0@ == k,
        |k: Seq<char>| s[choose|i: int| 0 <= i < s.len() && #[trigger] s[i].0@ == k].1,
    )
}

/// No two entries share a key.
pub open spec fn keys_distinct<V>(s: Seq<(String, V)>) -> bool {
    forall|i: int, j: int|
        0 <= i < s.len() && 0 <= j < s.len() && i != j ==> #[trigger] s[i].0@ != #[trigger] s[j].0@
}

/// The entry at `i` is what the map holds for its key.
pub proof fn lemma_entries_map_at<V>(s: Seq<(String, V)>, i: int)
    requires
        keys_distinct(s),
        0 <= i < s.len(),
    ensures
        entries_map(s).contains_key(s[i].0@),
        entries_map(s)[s[i].0@] == s[i].1,
{
    let k = s[i].0@;
    assert(s[i].0@ == k);
    let j = choose|j: int| 0 <= j < s.len() && #[trigger] s[j].0@ == k;
    assert(j == i);
}

/// Pushing an entry with a fresh key inserts it into the map.
pub proof fn lemma_entries_map_push<V>(s: Seq<(String, V)>, k: String, v: V)
    requires
        keys_distinct(s),
        !entries_map(s).contains_key(k@),
    ensures
        keys_distinct(s.push((k, v))),
        entries_map(s.push((k, v))) =~= entries_map(s).insert(k@, v),
{
    let t = s.push((k, v));
    assert forall|i: int, j: int|
        0 <= i < t.len() && 0 <= j < t.len() && i != j implies #[trigger] t[i].0@ != #[trigger] t[j].0@ by {
        if i < s.len() && j < s.len() {
            assert(t[i] == s[i] && t[j] == s[j]);
        } else if i < s.len() {
            assert(s[i].0@ == t[i].0@);
        } else if j < s.len() {
            assert(s[j].0@ == t[j].0@);
        }
    }
    assert forall|key: Seq<char>| #[trigger] entries_map(t).contains_key(key) <==> entries_map(s).insert(k@, v).contains_key(key) by {
        if entries_map(s).contains_key(key) {
            let i = choose|i: int| 0 <= i < s.len() && #[trigger] s[i].0@ == key;
            assert(t[i] == s[i]);
        }
        if entries_map(t).contains_key(key) && key != k@ {
            let i = choose|i: int| 0 <= i < t.len() && #[trigger] t[i].0@ == key;
            assert(i < s.len());
            assert(s[i] == t[i]);
        }
        if key == k@ {
            assert(t[s.len() as int].0@ == key);
        }
    }
    assert forall|key: Seq<char>| #[trigger] entries_map(t).contains_key(key) implies entries_map(t)[key] == entries_map(s).insert(k@, v)[key] by {
        let i = choose|i: int| 0 <= i < t.len() && #[trigger] t[i].0@ == key;
        lemma_entries_map_at(t, i);
        if i < s.len() {
            assert(t[i] == s[i]);
            lemma_entries_map_at(s, i);
        }
    }
}

/// Replacing the value of the entry at `i` updates the map at its key.
pub proof fn lemma_entries_map_update<V>(s: Seq<(String, V)>, i: int, k: String, v: V)
    requires
        keys_distinct(s),
        0 <= i < s.len(),
        s[i].0@ == k@,
    ensures
        keys_distinct(s.update(i, (k, v))),
        entries_map(s.update(i, (k, v))) =~= entries_map(s).insert(k@, v),
{
    let t = s.update(i, (k, v));
    assert forall|a: int, b: int|
        0 <= a < t.len() && 0 <= b < t.len() && a != b implies #[trigger] t[a].0@ != #[trigger] t[b].0@ by {
        assert(t[a].0@ == s[a].0@);
        assert(t[b].0@ == s[b].0@);
    }
    assert forall|key: Seq<char>| #[trigger] entries_map(t).contains_key(key) <==> entries_map(s).insert(k@, v).contains_key(key) by {
        if entries_map(s).contains_key(key) {
            let j = choose|j: int| 0 <= j < s.len() && #[trigger] s[j].0@ == key;
            assert(t[j].0@ == key);
        }
        if entries_map(t).contains_key(key) {
            let j = choose|j: int| 0 <= j < t.len() && #[trigger] t[j].0@ == key;
            assert(s[j].0@ == key);
        }
        if key == k@ {
            assert(t[i].0@ == key);
        }
    }
    assert forall|key: Seq<char>| #[trigger] entries_map(t).contains_key(key) implies entries_map(t)[key] == entries_map(s).insert(k@, v)[key] by {
        let j = choose|j: int| 0 <= j < t.len() && #[trigger] t[j].0@ == key;
        lemma_entries_map_at(t, j);
        if j != i {
            assert(t[j] == s[j]);
            lemma_entries_map_at(s, j);
        }
    }
}

/// Removing the entry at `i` removes its key from the map.
pub proof fn lemma_entries_map_remove<V>(s: Seq<(String, V)>, i: int)
    requires
        keys_distinct(s),
        0 <= i < s.len(),
    ensures
        keys_distinct(s.remove(i)),
        entries_map(s.remove(i)) =~= entries_map(s).remove(s[i].0@),
{
    let t = s.remove(i);
    let k = s[i].0@;
    assert forall|a: int| 0 <= a < t.len() implies #[trigger] t[a] == (if a < i { s[a] } else { s[a + 1] }) by {}
    assert forall|a: int, b: int|
        0 <= a < t.len() && 0 <= b < t.len() && a != b implies #[trigger] t[a].0@ != #[trigger] t[b].0@ by {
        let sa = if a < i { a } else { a + 1 };
        let sb = if b < i { b } else { b + 1 };
        assert(t[a] == s[sa]);
        assert(t[b] == s[sb]);
    }
    assert forall|key: Seq<char>| #[trigger] entries_map(t).contains_key(key) <==> entries_map(s).remove(k).contains_key(key) by {
        if entries_map(t).contains_key(key) {
            let a = choose|a: int| 0 <= a < t.len() && #[trigger] t[a].0@ == key;
            let sa = if a < i { a } else { a + 1 };
            assert(t[a] == s[sa]);
            assert(s[sa].0@ == key);
            assert(sa != i);
        }
        if entries_map(s).remove(k).contains_key(key) {
            let j = choose|j: int| 0 <= j < s.len() && #[trigger] s[j].0@ == key;
            assert(j != i);
            let a = if j < i { j } else { j - 1 };
            assert(t[a] == s[j]);
            assert(t[a].0@ == key);
        }
    }
    assert forall|key: Seq<char>| #[trigger] entries_map(t).contains_key(key) implies entries_map(t)[key] == entries_map(s).remove(k)[key] by {
        let a = choose|a: int| 0 <= a < t.len() && #[trigger] t[a].0@ == key;
        let sa = if a < i { a } else { a + 1 };
        assert(t[a] == s[sa]);
        lemma_entries_map_at(t, a);
        lemma_entries_map_at(s, sa);
    }
}

impl<V> View for StrMap<V> {
    type V = Map<Seq<char>, V>;

    closed spec fn view(&self) -> Map<Seq<char>, V> {
        entries_map(self.entries@)
    }
}

impl<V> StrMap<V> {
    /// The map's entries in insertion order.
    pub closed spec fn entries(&self) -> Seq<(String, V)> {
        self.entries@
    }

    /// The map's well-formedness: no key occurs twice.
    pub closed spec fn wf(&self) -> bool {
        keys_distinct(self.entries@)
    }

    /// An empty map.
    pub fn new() -> (r: Self)
        ensures
            r.wf(),
            r@ == Map::<Seq<char>, V>::empty(),
            r.entries().len() == 0,
    {
        let r = StrMap { entries: Vec::new() };
        assert(r@ =~= Map::<Seq<char>, V>::empty());
        r
    }

    /// The number of entries.
    pub fn len(&self) -> (r: usize)
        requires
            self.wf(),
        ensures
            r == self.entries().len(),
            r == self@.dom().len(),
    {
        proof {
            self.lemma_dom_len();
        }
        self.entries.len()
    }

    /// The domain's size is the number of entries.
    pub proof fn lemma_dom_len(&self)
        requires
            self.wf(),
        ensures
            self@.dom().finite(),
            self@.dom().len() == self.entries().len(),
        decreases self.entries().len(),
    {
        let s = self.entries();
        let keys = s.map_values(|e: (String, V)| e.0@);
        assert(self@.dom() =~= keys.to_set()) by {
            assert forall|k: Seq<char>| self@.dom().contains(k) implies keys.to_set().contains(k) by {
                let i = choose|i: int| 0 <= i < s.len() && #[trigger] s[i].0@ == k;
                assert(keys[i] == k);
            }
            assert forall|k: Seq<char>| keys.to_set().contains(k) implies self@.dom().contains(k) by {
                let i = choose|i: int| 0 <= i < keys.len() && keys[i] == k;
                assert(s[i].0@ == k);
            }
        }
        assert(keys.no_duplicates()) by {
            assert forall|i: int, j: int| 0 <= i < keys.len() && 0 <= j < keys.len() && i != j implies keys[i] != keys[j] by {
                assert(s[i].0@ != s[j].0@);
            }
        }
        keys.unique_seq_to_set();
    }

    /// The key of every entry is stored, with the entry's value.
    pub proof fn lemma_entry_in_map(&self, i: int)
        requires
            self.wf(),
            0 <= i < self.entries().len(),
        ensures
            self@.contains_key(self.entries()[i].0@),
            self@[self.entries()[i].0@] == self.entries()[i].1,
    {
        lemma_entries_map_at(self.entries@, i);
    }

    /// A stored key stands at some entry, which holds its value.
    pub proof fn lemma_key_at(&self, k: Seq<char>)
        requires
            self.wf(),
            self@.contains_key(k),
        ensures
            exists|j: int|
                0 <= j < self.entries().len() && (#[trigger] self.entries()[j]).0@ == k
                    && self@[k] == self.entries()[j].1,
    {
        let j = choose|j: int| 0 <= j < self.entries@.len() && #[trigger] self.entries@[j].0@ == k;
        lemma_entries_map_at(self.entries@, j);
        assert(0 <= j < self.entries().len() && self.entries()[j].0@ == k && self@[k]
            == self.entries()[j].1);
    }

    /// Where `key` is stored, if it is.
    pub fn find(&self, key: &str) -> (r: Option<usize>)
        requires
            self.wf(),
        ensures
            match r {
                Some(i) => i < self.entries().len() && self.entries()[i as int].0@ == key@,
                None => !self@.contains_key(key@),
            },
            r is Some <==> self@.contains_key(key@),
    {
        let key_string = key.to_string();
        let mut i: usize = 0;
        while i < self.entries.len()
            invariant
                self.wf(),
                i <= self.entries@.len(),
                key_string@ == key@,
                forall|j: int| 0 <= j < i ==> #[trigger] self.entries@[j].0@ != key@,
            decreases self.entries@.len() - i,
        {
            if self.entries[i].0 == key_string {
                proof {
                    lemma_entries_map_at(self.entries@, i as int);
                }
                return Some(i);
            }
            i = i + 1;
        }
        proof {
            if self@.contains_key(key@) {
                let j = choose|j: int| 0 <= j < self.entries@.len() && #[trigger] self.entries@[j].0@ == key@;
                assert(self.entries@[j].0@ != key@);
            }
        }
        None
    }

    /// Whether `key` is stored.
    pub fn contains_key(&self, key: &str) -> (r: bool)
        requires
            self.wf(),
        ensures
            r == self@.contains_key(key@),
    {
        self.find(key).is_some()
    }

    /// The value stored under `key`.
    pub fn get(&self, key: &str) -> (r: Option<&V>)
        requires
            self.wf(),
        ensures
            match r {
                Some(v) => self@.contains_key(key@) && *v == self@[key@],
                None => !self@.contains_key(key@),
            },
    {
        match self.find(key) {
            Some(i) => {
                proof {
                    lemma_entries_map_at(self.entries@, i as int);
                }
                Some(&self.entries[i].1)
            },
            None => None,
        }
    }

    /// The value stored under `key`, to be changed in place.
    pub fn get_mut(&mut self, key: &str) -> (r: Option<&mut V>)
        requires
            old(self).wf(),
        ensures
            final(self).wf(),
            match r {
                Some(v) => {
                    &&& old(self)@.contains_key(key@)
                    &&& *v == old(self)@[key@]
                    &&& final(self)@ == old(self)@.insert(key@, *final(v))
                },
                None => !old(self)@.contains_key(key@) && final(self)@ == old(self)@,
            },
    {
        match self.find(key) {
            Some(i) => {
                proof {
                    lemma_entries_map_at(self.entries@, i as int);
                }
                let ghost old_entries = self.entries@;
                let entry = &mut self.entries[i];
                assert(entry.0@ == key@);
                proof {
                    lemma_entries_map_update(old_entries, i as int, entry.0, final(entry).1);
                }
                Some(&mut entry.1)
            },
            None => None,
        }
    }

    /// The key and value of the entry at `i`.
    pub fn entry_at(&self, i: usize) -> (r: (&String, &V))
        requires
            self.wf(),
            i < self.entries().len(),
        ensures
            *r.0 == self.entries()[i as int].0,
            *r.1 == self.entries()[i as int].1,
            self@.contains_key(r.0@),
            self@[r.0@] == *r.1,
    {
        proof {
            lemma_entries_map_at(self.entries@, i as int);
        }
        (&self.entries[i].0, &self.entries[i].1)
    }

    /// Stores `value` under `key`, replacing what was there.
    pub fn insert(&mut self, key: String, value: V)
        requires
            old(self).wf(),
        ensures
            final(self).wf(),
            final(self)@ == old(self)@.insert(key@, value),
    {
        match self.find(key.as_str()) {
            Some(i) => {
                proof {
                    lemma_entries_map_update(self.entries@, i as int, key, value);
                }
                self.entries.set(i, (key, value));
            },
            None => {
                proof {
                    lemma_entries_map_push(self.entries@, key, value);
                }
                self.entries.push((key, value));
            },
        }
    }

    /// Stores `value` under `key` if the key is not stored yet; gives the
    /// value back otherwise.
    pub fn insert_new(&mut self, key: String, value: V) -> (r: Result<(), V>)
        requires
            old(self).wf(),
        ensures
            final(self).wf(),
            old(self)@.contains_key(key@) ==> final(self)@ == old(self)@ && r == Err::<(), V>(value),
            !old(self)@.contains_key(key@) ==> final(self)@ == old(self)@.insert(key@, value) && r
                is Ok,
    {
        if self.contains_key(key.as_str()) {
            Err(value)
        } else {
            proof {
                lemma_entries_map_push(self.entries@, key, value);
            }
            self.entries.push((key, value));
            Ok(())
        }
    }

    /// Stores every entry of `other`, replacing what was stored under its
    /// key.
    pub fn merge(&mut self, other: StrMap<V>)
        requires
            old(self).wf(),
            other.wf(),
        ensures
            final(self).wf(),
            final(self)@ == old(self)@.union_prefer_right(other@),
    {
        let ghost e = other.entries@;
        let ghost start = self@;
        let mut rest = other.entries;
        while rest.len() > 0
            invariant
                self.wf(),
                keys_distinct(e),
                rest@.len() <= e.len(),
                rest@ == e.take(rest@.len() as int),
                forall|k: Seq<char>|
                    #[trigger] self@.contains_key(k) <==> (start.contains_key(k) || exists|j: int|
                        rest@.len() <= j < e.len() && (#[trigger] e[j]).0@ == k),
                forall|j: int|
                    rest@.len() <= j < e.len() ==> self@.contains_key((#[trigger] e[j]).0@)
                        && self@[e[j].0@] == e[j].1,
                forall|k: Seq<char>|
                    start.contains_key(k) && !(exists|j: int|
                        rest@.len() <= j < e.len() && (#[trigger] e[j]).0@ == k) ==> #[trigger] self@[k]
                        == start[k],
            decreases rest@.len(),
        {
            let ghost n = rest@.len() as int;
            let ghost before = self@;
            let entry = rest.pop();
            match entry {
                Some((k, v)) => {
                    assert(e[n - 1] == (k, v));
                    self.insert(k, v);
                    assert(rest@ =~= e.take(n - 1));
                    proof {
                        assert forall|j: int| n - 1 <= j < e.len() implies self@.contains_key(
                            (#[trigger] e[j]).0@,
                        ) && self@[e[j].0@] == e[j].1 by {
                            if j != n - 1 {
                                assert(e[j].0@ != e[n - 1].0@);
                            }
                        }
                        assert forall|key: Seq<char>| #[trigger] self@.contains_key(key) <==> (
                        start.contains_key(key) || exists|j: int|
                            n - 1 <= j < e.len() && (#[trigger] e[j]).0@ == key) by {
                            if key == k@ {
                                assert(e[n - 1].0@ == key);
                            }
                            if before.contains_key(key) && !start.contains_key(key) {
                                let j = choose|j: int| n <= j < e.len() && (#[trigger] e[j]).0@ == key;
                                assert(e[j].0@ == key);
                            }
                        }
                        assert forall|key: Seq<char>|
                            start.contains_key(key) && !(exists|j: int|
                                n - 1 <= j < e.len() && (#[trigger] e[j]).0@ == key) implies #[trigger] self@[key]
                            == start[key] by {
                            assert(e[n - 1].0@ != key);
                            assert(!(exists|j: int| n <= j < e.len() && (#[trigger] e[j]).0@ == key)) by {
                                if exists|j: int| n <= j < e.len() && (#[trigger] e[j]).0@ == key {
                                    let j = choose|j: int| n <= j < e.len() && (#[trigger] e[j]).0@ == key;
                                    assert(n - 1 <= j < e.len() && e[j].0@ == key);
                                }
                            }
                        }
                    }
                },
                None => {},
            }
        }
        proof {
            let m = start.union_prefer_right(entries_map(e));
            assert forall|key: Seq<char>| #[trigger] self@.contains_key(key) <==> m.contains_key(key) by {
                if entries_map(e).contains_key(key) {
                    let j = choose|j: int| 0 <= j < e.len() && #[trigger] e[j].0@ == key;
                    assert(e[j].0@ == key);
                }
                if exists|j: int| 0 <= j < e.len() && (#[trigger] e[j]).0@ == key {
                    let j = choose|j: int| 0 <= j < e.len() && (#[trigger] e[j]).0@ == key;
                    lemma_entries_map_at(e, j);
                }
            }
            assert forall|key: Seq<char>| #[trigger] self@.contains_key(key) implies self@[key] == m[key] by {
                if exists|j: int| 0 <= j < e.len() && (#[trigger] e[j]).0@ == key {
                    let j = choose|j: int| 0 <= j < e.len() && (#[trigger] e[j]).0@ == key;
                    lemma_entries_map_at(e, j);
                } else {
                    if entries_map(e).contains_key(key) {
                        let j = choose|j: int| 0 <= j < e.len() && #[trigger] e[j].0@ == key;
                        assert(e[j].0@ == key);
                    }
                }
            }
            assert(self@ =~= m);
        }
    }

    /// Removes `key` and gives back its value.
    pub fn remove(&mut self, key: &str) -> (r: Option<V>)
        requires
            old(self).wf(),
        ensures
            final(self).wf(),
            final(self)@ == old(self)@.remove(key@),
            match r {
                Some(v) => old(self)@.contains_key(key@) && v == old(self)@[key@],
                None => !old(self)@.contains_key(key@),
            },
    {
        match self.find(key) {
            Some(i) => {
                proof {
                    lemma_entries_map_at(self.entries@, i as int);
                    lemma_entries_map_remove(self.entries@, i as int);
                }
                let (_, v) = self.entries.remove(i);
                Some(v)
            },
            None => {
                assert(self@.remove(key@) =~= self@);
                None
            },
        }
    }
}

/// What was stored under a key is what is read back under it, other keys
/// keep their values, and a removed key is read as absent.
pub proof fn lemma_write_then_read<V>(m: Map<Seq<char>, V>, k: Seq<char>, v: V, other: Seq<char>)
    ensures
        m.insert(k, v).contains_key(k) && m.insert(k, v)[k] == v,
        other != k ==> (m.insert(k, v).contains_key(other) == m.contains_key(other)),
        other != k && m.contains_key(other) ==> m.insert(k, v)[other] == m[other],
        !m.remove(k).contains_key(k),
{
}

} // verus!
