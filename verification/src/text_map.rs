//! Collections keyed by text: a map and a set that hold each key once.
use crate::text::texts;
use vstd::prelude::*;

verus! {

/// The keys of `entries`, in order.
pub open spec fn entry_keys<V>(entries: Seq<(String, V)>) -> Seq<Seq<char>> {
    entries.map_values(|e: (String, V)| e.0@)
}

/// The entries as a map from key to value.
pub open spec fn entry_map<V>(entries: Seq<(String, V)>) -> Map<Seq<char>, V> {
    entry_keys(entries).to_set().mk_map(
        |k: Seq<char>| entries[entry_keys(entries).index_of(k)].1,
    )
}

/// A map of strings as a map of texts.
pub open spec fn text_values(map: Map<Seq<char>, String>) -> Map<Seq<char>, Seq<char>> {
    map.map_values(|s: String| s@)
}

/// `map` with the `entries`, each a pair of key and value; of equal keys the
/// last counts.
pub open spec fn with_entries(
    map: Map<Seq<char>, Seq<char>>,
    entries: Seq<(String, String)>,
) -> Map<Seq<char>, Seq<char>>
    decreases entries.len(),
{
    if entries.len() == 0 {
        map
    } else {
        with_entries(map, entries.drop_last()).insert(entries.last().0@, entries.last().1@)
    }
}

/// A map from text to values of type `V`.
///
/// The entries stand in some order, which [`TextMap::entries`] shows; the
/// meaning of the map does not depend on it.
#[derive(Debug)]
pub struct TextMap<V> {
    entries: Vec<(String, V)>,
}

impl<V> View for TextMap<V> {
    type V = Map<Seq<char>, V>;

    closed spec fn view(&self) -> Map<Seq<char>, V> {
        entry_map(self.entries@)
    }
}

/// What the entry at `i` says of the map.
pub proof fn lemma_entry<V>(entries: Seq<(String, V)>, i: int)
    requires
        0 <= i < entries.len(),
        entry_keys(entries).no_duplicates(),
    ensures
        entry_map(entries).contains_key(entries[i].0@),
        entry_map(entries)[entries[i].0@] == entries[i].1,
{
    let keys = entry_keys(entries);
    let key = entries[i].0@;
    assert(keys[i] == key);
    assert(keys.contains(key));
    let j = keys.index_of(key);
    assert(0 <= j < keys.len() && keys[j] == key);
    assert(i == j);
}

/// A key of the map stands in some entry.
proof fn lemma_key<V>(entries: Seq<(String, V)>, key: Seq<char>) -> (i: int)
    requires
        entry_map(entries).contains_key(key),
    ensures
        0 <= i < entries.len(),
        entries[i].0@ == key,
{
    let keys = entry_keys(entries);
    assert(keys.contains(key));
    let i = keys.index_of(key);
    assert(keys[i] == key);
    i
}

/// Adding an entry with a new key adds it to the map.
proof fn lemma_push<V>(entries: Seq<(String, V)>, e: (String, V))
    requires
        entry_keys(entries).no_duplicates(),
        !entry_map(entries).contains_key(e.0@),
    ensures
        entry_keys(entries.push(e)).no_duplicates(),
        entry_map(entries.push(e)) == entry_map(entries).insert(e.0@, e.1),
{
    let after = entries.push(e);
    let keys = entry_keys(entries);
    let new_keys = entry_keys(after);
    assert(new_keys =~= keys.push(e.0@));
    assert(!keys.contains(e.0@));
    assert forall|i: int, j: int|
        0 <= i < new_keys.len() && 0 <= j < new_keys.len() && i != j implies new_keys[i]
        != new_keys[j] by {
        if i == keys.len() {
            assert(keys.contains(keys[j]));
        } else if j == keys.len() {
            assert(keys.contains(keys[i]));
        }
    }
    let target = entry_map(entries).insert(e.0@, e.1);
    assert forall|k: Seq<char>| entry_map(after).contains_key(k) == target.contains_key(k) by {
        if entry_map(after).contains_key(k) {
            let i = lemma_key(after, k);
            if i < entries.len() {
                lemma_entry(entries, i);
            }
        }
        if target.contains_key(k) {
            if k == e.0@ {
                lemma_entry(after, entries.len() as int);
            } else {
                let i = lemma_key(entries, k);
                assert(after[i] == entries[i]);
                lemma_entry(after, i);
            }
        }
    }
    assert forall|k: Seq<char>| entry_map(after).contains_key(k) implies entry_map(after)[k]
        == target[k] by {
        let i = lemma_key(after, k);
        lemma_entry(after, i);
        if i < entries.len() {
            lemma_entry(entries, i);
        }
    }
    assert(entry_map(after) =~= target);
}

/// Dropping the entry at `i` and moving the last one into its place removes
/// the key.
proof fn lemma_swap_remove<V>(entries: Seq<(String, V)>, i: int)
    requires
        entry_keys(entries).no_duplicates(),
        0 <= i < entries.len(),
    ensures
        entry_keys(entries.update(i, entries.last()).drop_last()).no_duplicates(),
        entry_map(entries.update(i, entries.last()).drop_last()) == entry_map(entries).remove(
            entries[i].0@,
        ),
{
    let after = entries.update(i, entries.last()).drop_last();
    let n = after.len() as int;
    let keys = entry_keys(entries);
    let new_keys = entry_keys(after);
    assert(forall|j: int| 0 <= j < n ==> new_keys[j] == (if j == i {
        keys[n]
    } else {
        keys[j]
    }));
    assert(new_keys.no_duplicates());
    let target = entry_map(entries).remove(entries[i].0@);
    assert forall|k: Seq<char>| entry_map(after).contains_key(k) == target.contains_key(k) by {
        if entry_map(after).contains_key(k) {
            let j = lemma_key(after, k);
            let old_j = if j == i {
                n
            } else {
                j
            };
            lemma_entry(entries, old_j);
            assert(keys[old_j] != keys[i]);
        }
        if target.contains_key(k) {
            let j = lemma_key(entries, k);
            assert(j != i);
            let new_j = if j == n {
                i
            } else {
                j
            };
            assert(after[new_j] == entries[j]);
            lemma_entry(after, new_j);
        }
    }
    assert forall|k: Seq<char>| entry_map(after).contains_key(k) implies entry_map(after)[k]
        == target[k] by {
        let j = lemma_key(after, k);
        lemma_entry(after, j);
        let old_j = if j == i {
            n
        } else {
            j
        };
        lemma_entry(entries, old_j);
        assert(keys[old_j] != keys[i]);
        assert(after[j] == entries[old_j]);
    }
    assert(entry_map(after) =~= target);
}

impl<V> TextMap<V> {
    #[verifier::type_invariant]
    spec fn keys_are_distinct(self) -> bool {
        entry_keys(self.entries@).no_duplicates()
    }

    /// The entries in the order in which they stand.
    pub closed spec fn listed(self) -> Seq<(String, V)> {
        self.entries@
    }

    /// An empty map.
    pub fn new() -> (map: Self)
        ensures
            map@ == Map::<Seq<char>, V>::empty(),
            map.listed() == Seq::<(String, V)>::empty(),
    {
        let entries: Vec<(String, V)> = Vec::new();
        assert(entry_keys(entries@) =~= Seq::empty());
        assert(entry_map(entries@) =~= Map::empty());
        TextMap { entries }
    }

    /// The number of keys.
    pub fn len(&self) -> (n: usize)
        ensures
            n == self@.dom().len(),
            n == self.listed().len(),
    {
        proof {
            use_type_invariant(self);
            entry_keys(self.entries@).unique_seq_to_set();
            assert(entry_map(self.entries@).dom() =~= entry_keys(self.entries@).to_set());
        }
        self.entries.len()
    }

    /// The entries, each key once.
    pub fn entries(&self) -> (entries: &Vec<(String, V)>)
        ensures
            entries@ == self.listed(),
            entry_keys(entries@).no_duplicates(),
            entry_map(entries@) == self@,
    {
        proof {
            use_type_invariant(self);
        }
        &self.entries
    }

    /// The entries, each key once.
    pub fn into_entries(self) -> (entries: Vec<(String, V)>)
        ensures
            entries@ == self.listed(),
            entry_keys(entries@).no_duplicates(),
            entry_map(entries@) == self@,
    {
        proof {
            use_type_invariant(&self);
        }
        self.entries
    }

    fn position(&self, key: &String) -> (index: Option<usize>)
        ensures
            match index {
                Some(i) => i < self.entries@.len() && self.entries@[i as int].0@ == key@,
                None => !self@.contains_key(key@),
            },
    {
        let n: usize = self.entries.len();
        let mut i: usize = 0;
        while i < n
            invariant
                i <= n == self.entries@.len(),
                forall|j: int| 0 <= j < i ==> (#[trigger] self.entries@[j]).0@ != key@,
            decreases n - i,
        {
            if self.entries[i].0 == *key {
                return Some(i);
            }
            i = i + 1;
        }
        proof {
            if self@.contains_key(key@) {
                let j = lemma_key(self.entries@, key@);
            }
        }
        None
    }

    /// The value at `key`.
    pub fn get(&self, key: &String) -> (value: Option<&V>)
        ensures
            match value {
                Some(v) => self@.contains_key(key@) && *v == self@[key@],
                None => !self@.contains_key(key@),
            },
    {
        proof {
            use_type_invariant(self);
        }
        match self.position(key) {
            Some(i) => {
                proof {
                    lemma_entry(self.entries@, i as int);
                }
                Some(&self.entries[i].1)
            },
            None => None,
        }
    }

    /// Takes the value at `key` out of the map.
    pub fn remove(&mut self, key: &String) -> (value: Option<V>)
        ensures
            final(self)@ == old(self)@.remove(key@),
            match value {
                Some(v) => old(self)@.contains_key(key@) && v == old(self)@[key@],
                None => !old(self)@.contains_key(key@),
            },
    {
        proof {
            use_type_invariant(&*self);
        }
        match self.position(key) {
            Some(i) => {
                let mut entries: Vec<(String, V)> = Vec::new();
                assert(entry_keys(entries@) =~= Seq::empty());
                std::mem::swap(&mut entries, &mut self.entries);
                proof {
                    lemma_entry(entries@, i as int);
                    lemma_swap_remove(entries@, i as int);
                }
                let entry = entries.swap_remove(i);
                self.entries = entries;
                Some(entry.1)
            },
            None => {
                assert(self@.remove(key@) =~= self@);
                None
            },
        }
    }

    /// Puts `value` at `key`, in place of what the map held there.
    pub fn insert(&mut self, key: String, value: V)
        ensures
            final(self)@ == old(self)@.insert(key@, value),
            !old(self)@.contains_key(key@) ==> final(self).listed() == old(self).listed().push(
                (key, value),
            ),
    {
        if self.get(&key).is_some() {
            let _ = self.remove(&key);
        }
        let ghost before = self@;
        assert(before.insert(key@, value) =~= old(self)@.insert(key@, value));
        proof {
            use_type_invariant(&*self);
            lemma_push(self.entries@, (key, value));
        }
        let mut entries: Vec<(String, V)> = Vec::new();
        assert(entry_keys(entries@) =~= Seq::empty());
        std::mem::swap(&mut entries, &mut self.entries);
        entries.push((key, value));
        self.entries = entries;
    }
}

/// What the order of the entries says of the map.
pub proof fn lemma_listed<V>(map: TextMap<V>)
    ensures
        map@ == entry_map(map.listed()),
{
}

/// A set of texts.
#[derive(Debug)]
pub struct TextSet {
    items: Vec<String>,
}

impl View for TextSet {
    type V = Set<Seq<char>>;

    closed spec fn view(&self) -> Set<Seq<char>> {
        texts(self.items@).to_set()
    }
}

impl TextSet {
    #[verifier::type_invariant]
    spec fn items_are_distinct(self) -> bool {
        texts(self.items@).no_duplicates()
    }

    /// An empty set.
    pub fn new() -> (set: Self)
        ensures
            set@ == Set::<Seq<char>>::empty(),
    {
        let items: Vec<String> = Vec::new();
        assert(texts(items@) =~= Seq::empty());
        assert(texts(items@).to_set() =~= Set::empty());
        TextSet { items }
    }

    /// The number of members.
    pub fn len(&self) -> (n: usize)
        ensures
            n == self@.len(),
    {
        proof {
            use_type_invariant(self);
            texts(self.items@).unique_seq_to_set();
        }
        self.items.len()
    }

    /// The members, each once.
    pub fn items(&self) -> (items: &Vec<String>)
        ensures
            texts(items@).no_duplicates(),
            texts(items@).to_set() == self@,
    {
        proof {
            use_type_invariant(self);
        }
        &self.items
    }

    /// Whether `text` is a member.
    pub fn contains(&self, text: &String) -> (b: bool)
        ensures
            b == self@.contains(text@),
    {
        let n: usize = self.items.len();
        let mut i: usize = 0;
        while i < n
            invariant
                i <= n == self.items@.len(),
                forall|j: int| 0 <= j < i ==> (#[trigger] self.items@[j])@ != text@,
            decreases n - i,
        {
            if self.items[i] == *text {
                assert(texts(self.items@)[i as int] == text@);
                return true;
            }
            i = i + 1;
        }
        proof {
            if texts(self.items@).contains(text@) {
                let j = texts(self.items@).index_of(text@);
                assert(texts(self.items@)[j] == self.items@[j]@);
            }
        }
        false
    }

    /// Adds `text`.
    pub fn insert(&mut self, text: String)
        ensures
            final(self)@ == old(self)@.insert(text@),
    {
        if self.contains(&text) {
            assert(self@.insert(text@) =~= self@);
            return ;
        }
        let mut items: Vec<String> = Vec::new();
        assert(texts(items@) =~= Seq::empty());
        proof {
            use_type_invariant(&*self);
        }
        std::mem::swap(&mut items, &mut self.items);
        let ghost before = texts(items@);
        items.push(text);
        proof {
            let after = texts(items@);
            assert(after =~= before.push(text@));
            assert(!before.contains(text@));
            assert forall|i: int, j: int|
                0 <= i < after.len() && 0 <= j < after.len() && i != j implies after[i]
                != after[j] by {
                if i == before.len() {
                    assert(before.contains(before[j]));
                } else if j == before.len() {
                    assert(before.contains(before[i]));
                }
            }
            assert(after.to_set() =~= before.to_set().insert(text@)) by {
                assert(after[before.len() as int] == text@);
                assert forall|t: Seq<char>| before.contains(t) implies after.contains(t) by {
                    let j = before.index_of(t);
                    assert(after[j] == t);
                }
            }
        }
        self.items = items;
    }
}

} // verus!
