use vstd::prelude::*;

verus! {

/// Keys of a sequence of entries are pairwise distinct.
pub open spec fn unique_keys<V>(s: Seq<(String, V)>) -> bool {
    forall|a: int, b: int|
        #![trigger s[a], s[b]]
        0 <= a < s.len() && 0 <= b < s.len() && s[a].0@ == s[b].0@ ==> a == b
}

/// Some entry of `s` carries the key `k`.
pub open spec fn has_key<V>(s: Seq<(String, V)>, k: Seq<char>) -> bool {
    exists|i: int| 0 <= i < s.len() && s[i].0@ == k
}

/// The map that a sequence of entries with distinct keys stands for.
pub open spec fn entries_map<V>(s: Seq<(String, V)>) -> Map<Seq<char>, V> {
    Map::new(
        |k: Seq<char>| has_key(s, k),
        |k: Seq<char>| s[choose|i: int| 0 <= i < s.len() && s[i].0@ == k].1,
    )
}

proof fn lemma_lookup<V>(s: Seq<(String, V)>, i: int)
    requires
        unique_keys(s),
        0 <= i < s.len(),
    ensures
        entries_map(s).contains_key(s[i].0@),
        entries_map(s)[s[i].0@] == s[i].1,
{
    let k = s[i].0@;
    assert(s[i].0@ == k);
    assert(has_key(s, k));
    let c = choose|j: int| 0 <= j < s.len() && s[j].0@ == k;
    assert(s[c].0@ == s[i].0@);
    assert(c == i);
}

proof fn lemma_update<V>(s: Seq<(String, V)>, i: int, e: (String, V))
    requires
        unique_keys(s),
        0 <= i < s.len(),
        e.0@ == s[i].0@,
    ensures
        unique_keys(s.update(i, e)),
        entries_map(s.update(i, e)) =~= entries_map(s).insert(e.0@, e.1),
{
    let t = s.update(i, e);
    assert forall|a: int, b: int|
        0 <= a < t.len() && 0 <= b < t.len() && t[a].0@ == t[b].0@ implies a == b by {
        assert(t[a].0@ == s[a].0@);
        assert(t[b].0@ == s[b].0@);
    }
    let m = entries_map(s).insert(e.0@, e.1);
    assert forall|k: Seq<char>| #[trigger] has_key(t, k) <==> m.contains_key(k) by {
        if has_key(t, k) {
            let j = choose|j: int| 0 <= j < t.len() && t[j].0@ == k;
            assert(s[j].0@ == k);
        }
        if m.contains_key(k) && k != e.0@ {
            let j = choose|j: int| 0 <= j < s.len() && s[j].0@ == k;
            assert(t[j].0@ == k);
        }
        if k == e.0@ {
            assert(t[i].0@ == k);
        }
    }
    assert forall|k: Seq<char>| has_key(t, k) implies entries_map(t)[k] == m[k] by {
        let j = choose|j: int| 0 <= j < t.len() && t[j].0@ == k;
        lemma_lookup(t, j);
        if j != i {
            lemma_lookup(s, j);
        }
    }
}

proof fn lemma_push<V>(s: Seq<(String, V)>, e: (String, V))
    requires
        unique_keys(s),
        !has_key(s, e.0@),
    ensures
        unique_keys(s.push(e)),
        entries_map(s.push(e)) =~= entries_map(s).insert(e.0@, e.1),
{
    let t = s.push(e);
    assert forall|a: int, b: int|
        0 <= a < t.len() && 0 <= b < t.len() && t[a].0@ == t[b].0@ implies a == b by {
        if a < s.len() {
            assert(t[a] == s[a]);
        }
        if b < s.len() {
            assert(t[b] == s[b]);
        }
    }
    let m = entries_map(s).insert(e.0@, e.1);
    assert forall|k: Seq<char>| #[trigger] has_key(t, k) <==> m.contains_key(k) by {
        if has_key(t, k) {
            let j = choose|j: int| 0 <= j < t.len() && t[j].0@ == k;
            if j < s.len() {
                assert(s[j].0@ == k);
            }
        }
        if m.contains_key(k) && k != e.0@ {
            let j = choose|j: int| 0 <= j < s.len() && s[j].0@ == k;
            assert(t[j].0@ == k);
        }
        if k == e.0@ {
            assert(t[s.len() as int].0@ == k);
        }
    }
    assert forall|k: Seq<char>| has_key(t, k) implies entries_map(t)[k] == m[k] by {
        let j = choose|j: int| 0 <= j < t.len() && t[j].0@ == k;
        lemma_lookup(t, j);
        if j < s.len() {
            assert(t[j] == s[j]);
            lemma_lookup(s, j);
        }
    }
}

proof fn lemma_remove<V>(s: Seq<(String, V)>, i: int)
    requires
        unique_keys(s),
        0 <= i < s.len(),
    ensures
        unique_keys(s.remove(i)),
        entries_map(s.remove(i)) =~= entries_map(s).remove(s[i].0@),
{
    let t = s.remove(i);
    let gone = s[i].0@;
    assert forall|a: int| 0 <= a < t.len() implies #[trigger] t[a] == s[if a < i { a } else { a + 1 }] by {}
    assert forall|a: int, b: int|
        0 <= a < t.len() && 0 <= b < t.len() && t[a].0@ == t[b].0@ implies a == b by {
        let sa = if a < i { a } else { a + 1 };
        let sb = if b < i { b } else { b + 1 };
        assert(t[a] == s[sa]);
        assert(t[b] == s[sb]);
    }
    let m = entries_map(s).remove(gone);
    assert forall|k: Seq<char>| #[trigger] has_key(t, k) <==> m.contains_key(k) by {
        if has_key(t, k) {
            let j = choose|j: int| 0 <= j < t.len() && t[j].0@ == k;
            let sj = if j < i { j } else { j + 1 };
            assert(t[j] == s[sj]);
            assert(s[sj].0@ == k);
            assert(sj != i);
        }
        if m.contains_key(k) {
            let j = choose|j: int| 0 <= j < s.len() && s[j].0@ == k;
            assert(j != i);
            let tj = if j < i { j } else { j - 1 };
            assert(t[tj] == s[j]);
            assert(t[tj].0@ == k);
        }
    }
    assert forall|k: Seq<char>| has_key(t, k) implies entries_map(t)[k] == m[k] by {
        let j = choose|j: int| 0 <= j < t.len() && t[j].0@ == k;
        let sj = if j < i { j } else { j + 1 };
        assert(t[j] == s[sj]);
        lemma_lookup(t, j);
        lemma_lookup(s, sj);
    }
}

/// A collection of values keyed by name, with each name present at most once.
pub struct KeyedStore<V> {
    entries: Vec<(String, V)>,
}

impl<V> View for KeyedStore<V> {
    type V = Map<Seq<char>, V>;

    closed spec fn view(&self) -> Map<Seq<char>, V> {
        entries_map(self.entries@)
    }
}

impl<V> KeyedStore<V> {
    /// No name occurs twice.
    pub closed spec fn well_formed(&self) -> bool {
        unique_keys(self.entries@)
    }

    pub fn new() -> (r: Self)
        ensures
            r.well_formed(),
            r@ == Map::<Seq<char>, V>::empty(),
    {
        let r = KeyedStore { entries: Vec::new() };
        assert(r@ =~= Map::<Seq<char>, V>::empty());
        r
    }

    /// A store holding `entries`, or `None` when two of them share a key.
    pub fn from_entries(entries: Vec<(String, V)>) -> (r: Option<Self>)
        ensures
            match r {
                Some(st) => st.well_formed() && st@ == entries_map(entries@),
                None => !unique_keys(entries@),
            },
    {
        let mut i: usize = 0;
        while i < entries.len()
            invariant
                i <= entries@.len(),
                forall|a: int, b: int|
                    #![trigger entries@[a], entries@[b]]
                    0 <= a < b < i ==> entries@[a].0@ != entries@[b].0@,
            decreases entries@.len() - i,
        {
            let mut j: usize = 0;
            while j < i
                invariant
                    j <= i < entries@.len(),
                    forall|a: int| 0 <= a < j ==> #[trigger] entries@[a].0@ != entries@[i as int].0@,
                decreases i - j,
            {
                if entries[j].0 == entries[i].0 {
                    assert(entries@[j as int].0@ == entries@[i as int].0@);
                    return None;
                }
                j = j + 1;
            }
            i = i + 1;
        }
        assert forall|a: int, b: int|
            0 <= a < entries@.len() && 0 <= b < entries@.len() && entries@[a].0@ == entries@[b].0@ implies a
            == b by {
            if a < b {
                assert(entries@[a].0@ != entries@[b].0@);
            } else if b < a {
                assert(entries@[b].0@ != entries@[a].0@);
            }
        }
        Some(KeyedStore { entries })
    }

    /// The stored entries, each key once.
    pub fn into_entries(self) -> (r: Vec<(String, V)>)
        requires
            self.well_formed(),
        ensures
            unique_keys(r@),
            entries_map(r@) == self@,
    {
        self.entries
    }

    fn position(&self, key: &String) -> (r: Option<usize>)
        requires
            self.well_formed(),
        ensures
            match r {
                Some(i) => i < self.entries@.len() && self.entries@[i as int].0@ == key@,
                None => !has_key(self.entries@, key@),
            },
    {
        let mut i: usize = 0;
        while i < self.entries.len()
            invariant
                i <= self.entries@.len(),
                forall|j: int| 0 <= j < i ==> self.entries@[j].0@ != key@,
            decreases self.entries@.len() - i,
        {
            if self.entries[i].0 == *key {
                return Some(i);
            }
            i = i + 1;
        }
        None
    }

    /// Whether a value is stored under `key`.
    pub fn contains_key(&self, key: &String) -> (r: bool)
        requires
            self.well_formed(),
        ensures
            r == self@.contains_key(key@),
    {
        self.position(key).is_some()
    }

    /// The value stored under `key`, if any.
    pub fn get(&self, key: &String) -> (r: Option<&V>)
        requires
            self.well_formed(),
        ensures
            match r {
                Some(v) => self@.contains_key(key@) && *v == self@[key@],
                None => !self@.contains_key(key@),
            },
    {
        match self.position(key) {
            Some(i) => {
                proof {
                    lemma_lookup(self.entries@, i as int);
                }
                Some(&self.entries[i].1)
            },
            None => None,
        }
    }

    /// Stores `value` under `key`, replacing what was there.
    pub fn insert(&mut self, key: String, value: V)
        requires
            old(self).well_formed(),
        ensures
            final(self).well_formed(),
            final(self)@ == old(self)@.insert(key@, value),
    {
        match self.position(&key) {
            Some(i) => {
                proof {
                    lemma_update(self.entries@, i as int, (key, value));
                }
                let _replaced = self.entries.remove(i);
                self.entries.insert(i, (key, value));
                assert(self.entries@ =~= old(self).entries@.update(i as int, (key, value)));
            },
            None => {
                proof {
                    lemma_push(self.entries@, (key, value));
                }
                self.entries.push((key, value));
            },
        }
    }

    /// Removes what is stored under `key`; nothing happens when there is none.
    pub fn remove(&mut self, key: &String)
        requires
            old(self).well_formed(),
        ensures
            final(self).well_formed(),
            final(self)@ == old(self)@.remove(key@),
    {
        match self.position(key) {
            Some(i) => {
                proof {
                    lemma_remove(self.entries@, i as int);
                }
                let _removed = self.entries.remove(i);
            },
            None => {
                assert(self@ =~= old(self)@.remove(key@));
            },
        }
    }
}

} // verus!
