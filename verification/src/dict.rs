use vstd::prelude::*;
use vstd::utf8::*;

verus! {

/// Whether two string slices hold the same text.
pub fn same_text(a: &str, b: &str) -> (r: bool)
    ensures
        r == (a@ == b@),
{
    let x = a.as_bytes();
    let y = b.as_bytes();
    proof {
        encode_utf8_decode_utf8(a@);
        encode_utf8_decode_utf8(b@);
    }
    if x.len() != y.len() {
        return false;
    }
    let mut i: usize = 0;
    while i < x.len()
        invariant
            x@ == encode_utf8(a@),
            y@ == encode_utf8(b@),
            x.len() == y.len(),
            i <= x.len(),
            forall|j: int| 0 <= j < i ==> x@[j] == y@[j],
        decreases x.len() - i,
    {
        if x[i] != y[i] {
            return false;
        }
        i += 1;
    }
    assert(x@ =~= y@);
    true
}

/// Whether some entry of `s` is filed under `key`.
pub open spec fn has_key<V>(s: Seq<(Seq<char>, V)>, key: Seq<char>) -> bool {
    exists|i: int| 0 <= i < s.len() && (#[trigger] s[i]).0 == key
}

/// No two entries of `s` are filed under the same key.
pub open spec fn keys_distinct<V>(s: Seq<(Seq<char>, V)>) -> bool {
    forall|i: int, j: int| 0 <= i < j < s.len() ==> (#[trigger] s[i]).0 != (#[trigger] s[j]).0
}

/// The map that a list of entries stands for: every key bound to the value
/// of its entry (of its last entry, should a key occur more than once).
pub open spec fn entries_map<V>(s: Seq<(Seq<char>, V)>) -> Map<Seq<char>, V>
    decreases s.len(),
{
    if s.len() == 0 {
        Map::empty()
    } else {
        entries_map(s.drop_last()).insert(s.last().0, s.last().1)
    }
}

/// The keys of `entries_map(s)` are the keys of the entries of `s`, and the map is finite.
pub proof fn lemma_entries_map_keys<V>(s: Seq<(Seq<char>, V)>)
    ensures
        entries_map(s).dom().finite(),
        forall|k: Seq<char>| #[trigger] entries_map(s).contains_key(k) <==> has_key(s, k),
    decreases s.len(),
{
    if s.len() > 0 {
        let t = s.drop_last();
        lemma_entries_map_keys(t);
        assert forall|k: Seq<char>| #[trigger] entries_map(s).contains_key(k) <==> has_key(
            s,
            k,
        ) by {
            if has_key(s, k) {
                let i = choose|i: int| 0 <= i < s.len() && (#[trigger] s[i]).0 == k;
                if i < s.len() - 1 {
                    assert(t[i].0 == k);
                    assert(has_key(t, k));
                }
            }
            if entries_map(s).contains_key(k) {
                if k == s.last().0 {
                    assert(s[s.len() - 1].0 == k);
                } else {
                    assert(has_key(t, k));
                    let i = choose|i: int| 0 <= i < t.len() && (#[trigger] t[i]).0 == k;
                    assert(s[i].0 == k);
                }
            }
        }
    }
}

/// Where the keys are distinct, each entry's key is bound to that entry's value,
/// and the map has as many keys as the list has entries.
pub proof fn lemma_entries_map_values<V>(s: Seq<(Seq<char>, V)>)
    requires
        keys_distinct(s),
    ensures
        forall|i: int| 0 <= i < s.len() ==> entries_map(s)[(#[trigger] s[i]).0] == s[i].1,
        entries_map(s).len() == s.len(),
    decreases s.len(),
{
    if s.len() > 0 {
        let t = s.drop_last();
        assert(keys_distinct(t)) by {
            assert forall|i: int, j: int| 0 <= i < j < t.len() implies (#[trigger] t[i]).0 != (
            #[trigger] t[j]).0 by {
                assert(s[i].0 != s[j].0);
            }
        }
        lemma_entries_map_values(t);
        lemma_entries_map_keys(t);
        assert(!has_key(t, s.last().0)) by {
            if has_key(t, s.last().0) {
                let i = choose|i: int| 0 <= i < t.len() && (#[trigger] t[i]).0 == s.last().0;
                assert(s[i].0 != s[s.len() - 1].0);
            }
        }
        assert forall|i: int| 0 <= i < s.len() implies entries_map(s)[(#[trigger] s[i]).0]
            == s[i].1 by {
            if i < s.len() - 1 {
                assert(t[i] == s[i]);
                assert(s[i].0 != s[s.len() - 1].0);
            }
        }
    }
}

/// A finite map from text keys to values, kept as a list of entries in which
/// no key occurs twice.
#[derive(Debug)]
pub struct Dict<V> {
    entries: Vec<(String, V)>,
}

/// A list of entries with each key as a character sequence.
pub open spec fn keyed<V>(entries: Seq<(String, V)>) -> Seq<(Seq<char>, V)> {
    Seq::new(entries.len(), |i: int| (entries[i].0@, entries[i].1))
}

impl<V> View for Dict<V> {
    type V = Map<Seq<char>, V>;

    open spec fn view(&self) -> Map<Seq<char>, V> {
        entries_map(self.items())
    }
}

impl<V> Dict<V> {
    /// No key occurs twice among the entries.
    #[verifier::type_invariant]
    spec fn distinct(self) -> bool {
        keys_distinct(keyed(self.entries@))
    }

    /// The entries in the order in which they are held.
    pub closed spec fn items(&self) -> Seq<(Seq<char>, V)> {
        keyed(self.entries@)
    }

    /// The empty map.
    pub fn new() -> (r: Self)
        ensures
            r@ == Map::<Seq<char>, V>::empty(),
            r.items().len() == 0,
    {
        Dict { entries: Vec::new() }
    }

    /// The number of keys. No key occurs twice among the entries.
    pub fn len(&self) -> (r: usize)
        ensures
            r == self.items().len(),
            r == self@.len(),
            self@.dom().finite(),
            keys_distinct(self.items()),
    {
        proof {
            use_type_invariant(self);
            lemma_entries_map_keys(self.items());
            lemma_entries_map_values(self.items());
        }
        self.entries.len()
    }

    /// The key of the entry at position `i`.
    pub fn key_at(&self, i: usize) -> (r: &String)
        requires
            i < self.items().len(),
        ensures
            r@ == self.items()[i as int].0,
            self@.contains_key(r@),
    {
        proof {
            lemma_entries_map_keys(self.items());
            assert(has_key(self.items(), self.items()[i as int].0));
        }
        &self.entries[i].0
    }

    /// The value of the entry at position `i`.
    pub fn value_at(&self, i: usize) -> (r: &V)
        requires
            i < self.items().len(),
        ensures
            *r == self.items()[i as int].1,
            *r == self@[self.items()[i as int].0],
    {
        proof {
            use_type_invariant(self);
            lemma_entries_map_values(self.items());
        }
        &self.entries[i].1
    }

    /// The position of the entry filed under `key`, if there is one.
    fn position(&self, key: &str) -> (r: Option<usize>)
        ensures
            match r {
                Some(i) => i < self.items().len() && self.items()[i as int].0 == key@,
                None => !has_key(self.items(), key@),
            },
    {
        let mut i: usize = 0;
        while i < self.entries.len()
            invariant
                i <= self.entries@.len(),
                forall|j: int| 0 <= j < i ==> (#[trigger] self.items()[j]).0 != key@,
            decreases self.entries@.len() - i,
        {
            if same_text(self.entries[i].0.as_str(), key) {
                return Some(i);
            }
            i += 1;
        }
        None
    }

    /// Whether `key` is bound.
    pub fn contains_key(&self, key: &str) -> (r: bool)
        ensures
            r == self@.contains_key(key@),
    {
        proof {
            lemma_entries_map_keys(self.items());
        }
        self.position(key).is_some()
    }

    /// The value bound to `key`, if there is one.
    pub fn get(&self, key: &str) -> (r: Option<&V>)
        ensures
            match r {
                Some(v) => self@.contains_key(key@) && *v == self@[key@],
                None => !self@.contains_key(key@),
            },
    {
        proof {
            use_type_invariant(self);
            lemma_entries_map_keys(self.items());
            lemma_entries_map_values(self.items());
        }
        match self.position(key) {
            Some(i) => {
                assert(has_key(self.items(), self.items()[i as int].0));
                Some(&self.entries[i].1)
            },
            None => None,
        }
    }

    /// Binds `key` to `value`, in place of what it was bound to before.
    pub fn insert(&mut self, key: String, value: V)
        ensures
            final(self)@ == old(self)@.insert(key@, value),
    {
        proof {
            use_type_invariant(&*self);
        }
        let found = self.position(key.as_str());
        let ghost before = self.items();
        let ghost k = key@;
        let mut entries = Vec::new();
        std::mem::swap(&mut entries, &mut self.entries);
        if let Some(i) = found {
            entries.remove(i);
        }
        entries.push((key, value));
        proof {
            let after = keyed(entries@);
            match found {
                Some(i) => {
                    assert(after.drop_last() =~= before.remove(i as int));
                },
                None => {
                    assert(after.drop_last() =~= before);
                },
            }
            lemma_insert_entry(before, after, k, value);
        }
        self.entries = entries;
    }

    /// Unbinds `key` and returns what it was bound to, if anything.
    pub fn remove(&mut self, key: &str) -> (r: Option<V>)
        ensures
            final(self)@ == old(self)@.remove(key@),
            match r {
                Some(v) => old(self)@.contains_key(key@) && v == old(self)@[key@],
                None => !old(self)@.contains_key(key@),
            },
    {
        proof {
            use_type_invariant(&*self);
            lemma_entries_map_keys(self.items());
            lemma_entries_map_values(self.items());
        }
        let ghost before = self.items();
        match self.position(key) {
            Some(i) => {
                let mut entries = Vec::new();
                std::mem::swap(&mut entries, &mut self.entries);
                let entry = entries.remove(i);
                proof {
                    lemma_remove_entry(before, i as int);
                    assert(keyed(entries@) =~= before.remove(i as int));
                }
                self.entries = entries;
                Some(entry.1)
            },
            None => {
                assert(old(self)@.remove(key@) =~= old(self)@);
                None
            },
        }
    }

    /// Unbinds every key.
    pub fn clear(&mut self)
        ensures
            final(self)@ == Map::<Seq<char>, V>::empty(),
            final(self).items().len() == 0,
    {
        self.entries = Vec::new();
    }
}

/// Taking the entry at `i` out of a list with distinct keys takes its key out of the map
/// and keeps the keys distinct.
pub proof fn lemma_remove_entry<V>(s: Seq<(Seq<char>, V)>, i: int)
    requires
        keys_distinct(s),
        0 <= i < s.len(),
    ensures
        keys_distinct(s.remove(i)),
        entries_map(s.remove(i)) == entries_map(s).remove(s[i].0),
        !has_key(s.remove(i), s[i].0),
{
    let t = s.remove(i);
    assert forall|a: int, b: int| 0 <= a < b < t.len() implies (#[trigger] t[a]).0 != (
    #[trigger] t[b]).0 by {
        let a2 = if a < i { a } else { a + 1 };
        let b2 = if b < i { b } else { b + 1 };
        assert(t[a] == s[a2]);
        assert(t[b] == s[b2]);
        assert(s[a2].0 != s[b2].0);
    }
    assert(!has_key(t, s[i].0)) by {
        if has_key(t, s[i].0) {
            let a = choose|a: int| 0 <= a < t.len() && (#[trigger] t[a]).0 == s[i].0;
            let a2 = if a < i { a } else { a + 1 };
            assert(t[a] == s[a2]);
            if a2 < i {
                assert(s[a2].0 != s[i].0);
            } else {
                assert(s[i].0 != s[a2].0);
            }
        }
    }
    lemma_entries_map_keys(s);
    lemma_entries_map_keys(t);
    lemma_entries_map_values(s);
    lemma_entries_map_values(t);
    let m = entries_map(s).remove(s[i].0);
    assert forall|k: Seq<char>| entries_map(t).contains_key(k) <==> m.contains_key(k) by {
        if has_key(t, k) {
            let a = choose|a: int| 0 <= a < t.len() && (#[trigger] t[a]).0 == k;
            let a2 = if a < i { a } else { a + 1 };
            assert(t[a] == s[a2]);
            assert(has_key(s, k));
        }
        if m.contains_key(k) {
            assert(has_key(s, k));
            let a = choose|a: int| 0 <= a < s.len() && (#[trigger] s[a]).0 == k;
            let a2 = if a < i { a } else { a - 1 };
            assert(t[a2] == s[a]);
            assert(has_key(t, k));
        }
    }
    assert forall|k: Seq<char>| entries_map(t).contains_key(k) implies entries_map(t)[k]
        == m[k] by {
        let a = choose|a: int| 0 <= a < t.len() && (#[trigger] t[a]).0 == k;
        let a2 = if a < i { a } else { a + 1 };
        assert(t[a] == s[a2]);
        assert(entries_map(t)[t[a].0] == t[a].1);
        assert(entries_map(s)[s[a2].0] == s[a2].1);
    }
    assert(entries_map(t) =~= m);
}

/// Putting an entry for `key` at the end of a list, after taking out the entry that the
/// list had for it, binds the key in the map and keeps the keys distinct.
pub proof fn lemma_insert_entry<V>(
    before: Seq<(Seq<char>, V)>,
    after: Seq<(Seq<char>, V)>,
    key: Seq<char>,
    value: V,
)
    requires
        keys_distinct(before),
        after.len() > 0,
        after.last().0 == key,
        after.last().1 == value,
        ({
            ||| (!has_key(before, key) && after.drop_last() == before)
            ||| exists|i: int|
                0 <= i < before.len() && (#[trigger] before[i]).0 == key && after.drop_last()
                    == before.remove(i)
        }),
    ensures
        keys_distinct(after),
        entries_map(after) == entries_map(before).insert(key, value),
{
    let t = after.drop_last();
    if !has_key(before, key) && t == before {
        assert(entries_map(t).insert(key, value) == entries_map(before).insert(key, value));
    } else {
        let i = choose|i: int|
            0 <= i < before.len() && (#[trigger] before[i]).0 == key && after.drop_last()
                == before.remove(i);
        lemma_remove_entry(before, i);
        assert(entries_map(before).remove(key).insert(key, value) =~= entries_map(before).insert(
            key,
            value,
        ));
    }
    assert(keys_distinct(t));
    assert(!has_key(t, key));
    assert forall|a: int, b: int| 0 <= a < b < after.len() implies (#[trigger] after[a]).0 != (
    #[trigger] after[b]).0 by {
        assert(after[a] == t[a]);
        if b < after.len() - 1 {
            assert(after[b] == t[b]);
        } else {
            assert(t[a].0 != key);
        }
    }
}

} // verus!
