//! A table keyed by strings, used where the symbol and type tables need a
//! map from names to values. A later insertion under a key replaces the
//! value of an earlier one.
use vstd::prelude::*;

verus! {

/// The map that a sequence of insertions builds: the last insertion under a
/// key wins.
pub open spec fn insertions_map<V>(entries: Seq<(String, V)>) -> Map<Seq<char>, V>
    decreases entries.len(),
{
    if entries.len() == 0 {
        Map::empty()
    } else {
        insertions_map(entries.drop_last()).insert(entries.last().0@, entries.last().1)
    }
}

/// Index of the last insertion under `key`, or -1.
pub open spec fn last_insertion<V>(entries: Seq<(String, V)>, key: Seq<char>) -> int
    decreases entries.len(),
{
    if entries.len() == 0 {
        -1
    } else if entries.last().0@ == key {
        entries.len() - 1
    } else {
        last_insertion(entries.drop_last(), key)
    }
}

proof fn lemma_insertions_map<V>(entries: Seq<(String, V)>, key: Seq<char>)
    ensures
        -1 <= last_insertion(entries, key) < entries.len(),
        insertions_map(entries).contains_key(key) <==> last_insertion(entries, key) >= 0,
        last_insertion(entries, key) >= 0 ==> {
            &&& entries[last_insertion(entries, key)].0@ == key
            &&& insertions_map(entries)[key] == entries[last_insertion(entries, key)].1
        },
    decreases entries.len(),
{
    if entries.len() > 0 {
        lemma_insertions_map(entries.drop_last(), key);
    }
}

/// A key has a value exactly when some insertion was made under it.
proof fn lemma_insertions_dom<V>(entries: Seq<(String, V)>, key: Seq<char>)
    ensures
        insertions_map(entries).contains_key(key) <==> exists|e: int| 0 <= e < entries.len() && #[trigger] entries[e].0@ == key,
    decreases entries.len(),
{
    if entries.len() > 0 {
        lemma_insertions_dom(entries.drop_last(), key);
        if insertions_map(entries.drop_last()).contains_key(key) {
            let e = choose|e: int| 0 <= e < entries.drop_last().len() && #[trigger] entries.drop_last()[e].0@ == key;
            assert(entries[e].0@ == key);
        }
        if exists|e: int| 0 <= e < entries.len() && #[trigger] entries[e].0@ == key {
            let e = choose|e: int| 0 <= e < entries.len() && #[trigger] entries[e].0@ == key;
            if e < entries.len() - 1 {
                assert(entries.drop_last()[e].0@ == key);
            }
        }
    }
}

/// Some of the first `j` insertions is under `k`.
spec fn inserted_before<V>(entries: Seq<(String, V)>, j: int, k: Seq<char>) -> bool {
    exists|e: int| 0 <= e < j && #[trigger] entries[e].0@ == k
}

/// Some string of `r` has the text `k`.
spec fn listed(r: Seq<String>, k: Seq<char>) -> bool {
    exists|i: int| 0 <= i < r.len() && #[trigger] r[i]@ == k
}

/// A map from strings to values.
pub struct Table<V> {
    entries: Vec<(String, V)>,
}

impl<V> View for Table<V> {
    type V = Map<Seq<char>, V>;

    closed spec fn view(&self) -> Map<Seq<char>, V> {
        insertions_map(self.entries@)
    }
}

impl<V> Table<V> {
    /// An empty table.
    pub fn new() -> (t: Table<V>)
        ensures
            t@ == Map::<Seq<char>, V>::empty(),
    {
        Table { entries: Vec::new() }
    }

    /// Sets the value of `key`.
    pub fn insert(&mut self, key: String, value: V)
        ensures
            final(self)@ == old(self)@.insert(key@, value),
    {
        self.entries.push((key, value));
        assert(self.entries@.drop_last() =~= old(self).entries@);
    }

    fn find(&self, key: &str) -> (r: Option<usize>)
        ensures
            r is Some <==> self@.contains_key(key@),
            r matches Some(j) ==> j < self.entries@.len() && self@[key@] == self.entries@[j as int].1,
    {
        proof {
            lemma_insertions_map(self.entries@, key@);
        }
        let k = key.to_string();
        let mut j: usize = self.entries.len();
        assert(self.entries@.subrange(0, j as int) =~= self.entries@);
        while j > 0
            invariant
                j <= self.entries@.len(),
                k@ == key@,
                last_insertion(self.entries@, key@) == last_insertion(self.entries@.subrange(0, j as int), key@),
                -1 <= last_insertion(self.entries@, key@) < self.entries@.len(),
                self@.contains_key(key@) <==> last_insertion(self.entries@, key@) >= 0,
                last_insertion(self.entries@, key@) >= 0 ==> self@[key@] == self.entries@[last_insertion(self.entries@, key@)].1,
            decreases j,
        {
            assert(self.entries@.subrange(0, j as int).drop_last() =~= self.entries@.subrange(0, j - 1));
            if self.entries[j - 1].0 == k {
                return Some(j - 1);
            }
            j = j - 1;
        }
        None
    }

    /// The value of `key`, if it has one.
    pub fn get(&self, key: &str) -> (r: Option<&V>)
        ensures
            r is Some <==> self@.contains_key(key@),
            r matches Some(v) ==> *v == self@[key@],
    {
        match self.find(key) {
            Some(j) => Some(&self.entries[j].1),
            None => None,
        }
    }

    /// Whether `key` has a value.
    pub fn contains_key(&self, key: &str) -> (r: bool)
        ensures
            r == self@.contains_key(key@),
    {
        self.find(key).is_some()
    }

    /// The keys, each once, in the order of their first insertion.
    pub fn keys(&self) -> (r: Vec<String>)
        ensures
            forall|i: int, j: int| 0 <= i < j < r@.len() ==> r@[i]@ != r@[j]@,
            forall|k: Seq<char>| self@.contains_key(k) <==> exists|i: int| 0 <= i < r@.len() && #[trigger] r@[i]@ == k,
    {
        let mut r: Vec<String> = Vec::new();
        let mut j: usize = 0;
        while j < self.entries.len()
            invariant
                j <= self.entries@.len(),
                forall|a: int, b: int| 0 <= a < b < r@.len() ==> r@[a]@ != r@[b]@,
                forall|k: Seq<char>|
                    #![trigger inserted_before(self.entries@, j as int, k)]
                    #![trigger listed(r@, k)]
                    inserted_before(self.entries@, j as int, k) <==> listed(r@, k),
            decreases self.entries@.len() - j,
        {
            let key = &self.entries[j].0;
            let mut seen = false;
            let mut i: usize = 0;
            while i < r.len()
                invariant
                    i <= r@.len(),
                    seen <==> exists|a: int| 0 <= a < i && #[trigger] r@[a]@ == key@,
                decreases r@.len() - i,
            {
                if r[i] == *key {
                    seen = true;
                }
                i = i + 1;
            }
            let ghost before = r@;
            if !seen {
                r.push(key.clone());
                assert forall|k: Seq<char>| #[trigger] inserted_before(self.entries@, j + 1, k) <==> listed(r@, k) by {
                    if inserted_before(self.entries@, j + 1, k) {
                        let e = choose|e: int| 0 <= e < j + 1 && #[trigger] self.entries@[e].0@ == k;
                        if e < j {
                            assert(inserted_before(self.entries@, j as int, k));
                            assert(listed(before, k));
                            let a = choose|a: int| 0 <= a < before.len() && #[trigger] before[a]@ == k;
                            assert(r@[a]@ == k);
                        } else {
                            assert(r@[before.len() as int]@ == k);
                        }
                    }
                    if listed(r@, k) {
                        let a = choose|a: int| 0 <= a < r@.len() && #[trigger] r@[a]@ == k;
                        if a < before.len() {
                            assert(before[a]@ == k);
                            assert(listed(before, k));
                            assert(inserted_before(self.entries@, j as int, k));
                            let e = choose|e: int| 0 <= e < j && #[trigger] self.entries@[e].0@ == k;
                            assert(self.entries@[e].0@ == k);
                        } else {
                            assert(self.entries@[j as int].0@ == k);
                        }
                    }
                }
            } else {
                assert forall|k: Seq<char>| #[trigger] inserted_before(self.entries@, j + 1, k) <==> listed(r@, k) by {
                    if inserted_before(self.entries@, j + 1, k) {
                        let e = choose|e: int| 0 <= e < j + 1 && #[trigger] self.entries@[e].0@ == k;
                        if e == j {
                            let a = choose|a: int| 0 <= a < r@.len() && #[trigger] r@[a]@ == key@;
                            assert(r@[a]@ == k);
                        } else {
                            assert(inserted_before(self.entries@, j as int, k));
                        }
                    }
                    if listed(r@, k) {
                        assert(inserted_before(self.entries@, j as int, k));
                        let e = choose|e: int| 0 <= e < j && #[trigger] self.entries@[e].0@ == k;
                        assert(self.entries@[e].0@ == k);
                    }
                }
            }
            j = j + 1;
        }
        proof {
            assert forall|k: Seq<char>| self@.contains_key(k) <==> exists|i: int| 0 <= i < r@.len() && #[trigger] r@[i]@ == k by {
                lemma_insertions_dom(self.entries@, k);
                assert(inserted_before(self.entries@, self.entries@.len() as int, k) <==> listed(r@, k));
            }
        }
        r
    }

    /// Removes every key.
    pub fn clear(&mut self)
        ensures
            final(self)@ == Map::<Seq<char>, V>::empty(),
    {
        self.entries.clear();
    }
}

} // verus!
