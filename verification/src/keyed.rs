//! Maps kept as lists of entries with distinct keys.
use vstd::prelude::*;

use crate::text::chars_eq;

verus! {

/// A key of a table: compared by its view.
pub trait TableKey: View + Sized {
    fn same_key(&self, other: &Self) -> (r: bool)
        ensures
            r == (self@ == other@),
    ;
}

impl TableKey for String {
    fn same_key(&self, other: &Self) -> (r: bool) {
        chars_eq(self.as_str(), other.as_str())
    }
}

impl TableKey for i64 {
    fn same_key(&self, other: &Self) -> (r: bool) {
        *self == *other
    }
}

/// The keys of `entries`, in order.
pub open spec fn key_seq<K: View, V>(entries: Seq<(K, V)>) -> Seq<K::V> {
    entries.map_values(|e: (K, V)| e.0@)
}

/// No key occurs twice in `entries`.
pub open spec fn unique_keys<K: View, V>(entries: Seq<(K, V)>) -> bool {
    forall|i: int, j: int| 0 <= i < j < entries.len() ==> entries[i].0@ != entries[j].0@
}

/// The map that `entries` stand for.
pub open spec fn entries_map<K: View, V>(entries: Seq<(K, V)>) -> Map<K::V, V> {
    Map::new(
        |k: K::V| key_seq(entries).contains(k),
        |k: K::V| entries[key_seq(entries).index_of(k)].1,
    )
}

proof fn lemma_entries_map_at<K: View, V>(entries: Seq<(K, V)>, i: int)
    requires
        unique_keys(entries),
        0 <= i < entries.len(),
    ensures
        entries_map(entries).contains_key(entries[i].0@),
        entries_map(entries)[entries[i].0@] == entries[i].1,
{
    let keys = key_seq(entries);
    assert(keys[i] == entries[i].0@);
    let p = keys.index_of(entries[i].0@);
    assert(keys[p] == entries[i].0@);
    if p != i {
        assert(entries[p].0@ == keys[p]);
    }
}

/// The entry at `i` is in the map its entries stand for.
pub proof fn lemma_entry_in_map<K: View, V>(entries: Seq<(K, V)>, i: int)
    requires
        unique_keys(entries),
        0 <= i < entries.len(),
    ensures
        entries_map(entries).contains_key(entries[i].0@),
        entries_map(entries)[entries[i].0@] == entries[i].1,
{
    lemma_entries_map_at(entries, i);
}

/// A key of the map is the key of an entry, which holds its value.
pub proof fn lemma_map_key_position<K: View, V>(entries: Seq<(K, V)>, k: K::V) -> (p: int)
    requires
        unique_keys(entries),
        entries_map(entries).contains_key(k),
    ensures
        0 <= p < entries.len(),
        entries[p].0@ == k,
        entries_map(entries)[k] == entries[p].1,
{
    let p = lemma_key_at(entries, k);
    lemma_entries_map_at(entries, p);
    p
}

/// The keys of the entries are the keys of the map.
pub proof fn lemma_entries_keys<K: View, V>(entries: Seq<(K, V)>)
    requires
        unique_keys(entries),
    ensures
        forall|i: int| 0 <= i < entries.len() ==> entries_map(entries).contains_key(#[trigger] entries[i].0@),
        forall|k: K::V| #[trigger] entries_map(entries).contains_key(k) ==> exists|i: int|
            0 <= i < entries.len() && entries[i].0@ == k,
{
    assert forall|i: int| 0 <= i < entries.len() implies entries_map(entries).contains_key(
        #[trigger] entries[i].0@,
    ) by {
        lemma_entries_map_at(entries, i);
    }
    assert forall|k: K::V| #[trigger] entries_map(entries).contains_key(k) implies exists|i: int|
        0 <= i < entries.len() && entries[i].0@ == k by {
        let p = lemma_key_at(entries, k);
    }
}

proof fn lemma_key_at<K: View, V>(entries: Seq<(K, V)>, k: K::V) -> (p: int)
    requires
        key_seq(entries).contains(k),
    ensures
        0 <= p < entries.len(),
        entries[p].0@ == k,
{
    let p = choose|p: int| 0 <= p < key_seq(entries).len() && key_seq(entries)[p] == k;
    assert(key_seq(entries)[p] == entries[p].0@);
    p
}

proof fn lemma_map_set<K: View, V>(entries: Seq<(K, V)>, i: int, e: (K, V))
    requires
        unique_keys(entries),
        0 <= i < entries.len(),
        entries[i].0@ == e.0@,
    ensures
        unique_keys(entries.update(i, e)),
        entries_map(entries.update(i, e)) == entries_map(entries).insert(e.0@, e.1),
{
    let new = entries.update(i, e);
    assert forall|a: int, b: int| 0 <= a < b < new.len() implies new[a].0@ != new[b].0@ by {
        assert(new[a].0@ == entries[a].0@);
        assert(new[b].0@ == entries[b].0@);
    }
    let m1 = entries_map(new);
    let m2 = entries_map(entries).insert(e.0@, e.1);
    assert forall|x: K::V| #[trigger] m1.contains_key(x) implies m2.contains_key(x) && m1[x] == m2[x] by {
        let p = lemma_key_at(new, x);
        lemma_entries_map_at(new, p);
        if p != i {
            assert(entries[p] == new[p]);
            lemma_entries_map_at(entries, p);
        }
    }
    assert forall|x: K::V| #[trigger] m2.contains_key(x) implies m1.contains_key(x) by {
        if x == e.0@ {
            lemma_entries_map_at(new, i);
        } else {
            let p = lemma_key_at(entries, x);
            assert(new[p] == entries[p]);
            lemma_entries_map_at(new, p);
        }
    }
    assert(m1 =~= m2);
}

proof fn lemma_map_push<K: View, V>(entries: Seq<(K, V)>, e: (K, V))
    requires
        unique_keys(entries),
        !key_seq(entries).contains(e.0@),
    ensures
        unique_keys(entries.push(e)),
        entries_map(entries.push(e)) == entries_map(entries).insert(e.0@, e.1),
{
    let new = entries.push(e);
    let n = entries.len() as int;
    assert forall|a: int, b: int| 0 <= a < b < new.len() implies new[a].0@ != new[b].0@ by {
        assert(new[a] == entries[a]);
        if b == n {
            assert(key_seq(entries)[a] == entries[a].0@);
        } else {
            assert(new[b] == entries[b]);
        }
    }
    let m1 = entries_map(new);
    let m2 = entries_map(entries).insert(e.0@, e.1);
    assert forall|x: K::V| #[trigger] m1.contains_key(x) implies m2.contains_key(x) && m1[x] == m2[x] by {
        let p = lemma_key_at(new, x);
        lemma_entries_map_at(new, p);
        if p != n {
            assert(entries[p] == new[p]);
            lemma_entries_map_at(entries, p);
        }
    }
    assert forall|x: K::V| #[trigger] m2.contains_key(x) implies m1.contains_key(x) by {
        if x == e.0@ {
            lemma_entries_map_at(new, n);
        } else {
            let p = lemma_key_at(entries, x);
            assert(new[p] == entries[p]);
            lemma_entries_map_at(new, p);
        }
    }
    assert(m1 =~= m2);
}

proof fn lemma_map_remove<K: View, V>(entries: Seq<(K, V)>, i: int)
    requires
        unique_keys(entries),
        0 <= i < entries.len(),
    ensures
        unique_keys(entries.remove(i)),
        entries_map(entries.remove(i)) == entries_map(entries).remove(entries[i].0@),
{
    let new = entries.remove(i);
    let k = entries[i].0@;
    assert forall|a: int, b: int| 0 <= a < b < new.len() implies new[a].0@ != new[b].0@ by {
        let a0 = if a < i {
            a
        } else {
            a + 1
        };
        let b0 = if b < i {
            b
        } else {
            b + 1
        };
        assert(new[a] == entries[a0]);
        assert(new[b] == entries[b0]);
    }
    let m1 = entries_map(new);
    let m2 = entries_map(entries).remove(k);
    assert forall|x: K::V| #[trigger] m1.contains_key(x) implies m2.contains_key(x) && m1[x] == m2[x] by {
        let p = lemma_key_at(new, x);
        lemma_entries_map_at(new, p);
        let p0 = if p < i {
            p
        } else {
            p + 1
        };
        assert(new[p] == entries[p0]);
        lemma_entries_map_at(entries, p0);
    }
    assert forall|x: K::V| #[trigger] m2.contains_key(x) implies m1.contains_key(x) by {
        let p = lemma_key_at(entries, x);
        assert(p != i);
        let q = if p < i {
            p
        } else {
            p - 1
        };
        assert(new[q] == entries[p]);
        lemma_entries_map_at(new, q);
    }
    assert(m1 =~= m2);
}

/// Values by text key, each key at most once.
pub struct KeyedList<K: View, V> {
    entries: Vec<(K, V)>,
}

impl<K: View, V> View for KeyedList<K, V> {
    type V = Map<K::V, V>;

    closed spec fn view(&self) -> Map<K::V, V> {
        entries_map(self.entries@)
    }
}

impl<K: View, V> KeyedList<K, V> {
    #[verifier::type_invariant]
    closed spec fn keys_distinct(self) -> bool {
        unique_keys(self.entries@)
    }
}

impl<K: TableKey, V> KeyedList<K, V> {
    /// The entries in the order they were first inserted.
    pub closed spec fn entry_seq(self) -> Seq<(K, V)> {
        self.entries@
    }

    /// An empty map.
    pub fn new() -> (r: Self)
        ensures
            r@ == Map::<K::V, V>::empty(),
            r.entry_seq().len() == 0,
    {
        let r = KeyedList { entries: Vec::new() };
        assert(r@ =~= Map::<K::V, V>::empty());
        r
    }

    fn position(&self, key: &K) -> (r: Option<usize>)
        ensures
            match r {
                Some(i) => i < self.entries@.len() && self.entries@[i as int].0@ == key@,
                None => !key_seq(self.entries@).contains(key@),
            },
    {
        let mut i: usize = 0;
        while i < self.entries.len()
            invariant
                i <= self.entries@.len(),
                forall|j: int| 0 <= j < i ==> self.entries@[j].0@ != key@,
            decreases self.entries@.len() - i,
        {
            if self.entries[i].0.same_key(key) {
                return Some(i);
            }
            i = i + 1;
        }
        assert forall|j: int| 0 <= j < self.entries@.len() implies #[trigger] key_seq(
            self.entries@,
        )[j] != key@ by {}
        None
    }

    /// Whether `key` has a value.
    pub fn contains_key(&self, key: &K) -> (r: bool)
        ensures
            r == self@.contains_key(key@),
    {
        match self.position(key) {
            Some(i) => {
                proof {
                    use_type_invariant(self);
                    lemma_entries_map_at(self.entries@, i as int);
                }
                true
            },
            None => false,
        }
    }

    /// The value of `key`.
    pub fn get(&self, key: &K) -> (r: Option<&V>)
        ensures
            match r {
                Some(v) => self@.contains_key(key@) && *v == self@[key@],
                None => !self@.contains_key(key@),
            },
    {
        match self.position(key) {
            Some(i) => {
                proof {
                    use_type_invariant(self);
                    lemma_entries_map_at(self.entries@, i as int);
                }
                Some(&self.entries[i].1)
            },
            None => None,
        }
    }

    /// Sets the value of `key`.
    pub fn insert(&mut self, key: K, value: V)
        ensures
            final(self)@ == old(self)@.insert(key@, value),
            final(self).entry_seq().len() == old(self).entry_seq().len() + if old(self)@.contains_key(
                key@,
            ) {
                0int
            } else {
                1int
            },
    {
        proof {
            use_type_invariant(&*self);
        }
        let pos = self.position(&key);
        let mut entries: Vec<(K, V)> = Vec::new();
        std::mem::swap(&mut entries, &mut self.entries);
        match pos {
            Some(i) => {
                proof {
                    lemma_map_set(entries@, i as int, (key, value));
                    lemma_entries_map_at(entries@, i as int);
                }
                entries.set(i, (key, value));
            },
            None => {
                proof {
                    lemma_map_push(entries@, (key, value));
                    if entries_map(entries@).contains_key(key@) {
                        let p = lemma_key_at(entries@, key@);
                        assert(key_seq(entries@)[p] == key@);
                    }
                }
                entries.push((key, value));
            },
        }
        self.entries = entries;
    }

    /// Removes `key`, handing back its value.
    pub fn remove(&mut self, key: &K) -> (r: Option<V>)
        ensures
            final(self)@ == old(self)@.remove(key@),
            final(self).entry_seq().len() == old(self).entry_seq().len() - if old(self)@.contains_key(
                key@,
            ) {
                1int
            } else {
                0int
            },
            match r {
                Some(v) => old(self)@.contains_key(key@) && v == old(self)@[key@],
                None => !old(self)@.contains_key(key@),
            },
    {
        proof {
            use_type_invariant(&*self);
        }
        match self.position(key) {
            Some(i) => {
                let mut entries: Vec<(K, V)> = Vec::new();
        std::mem::swap(&mut entries, &mut self.entries);
                proof {
                    lemma_entries_map_at(entries@, i as int);
                    lemma_map_remove(entries@, i as int);
                }
                let (_, v) = entries.remove(i);
                self.entries = entries;
                Some(v)
            },
            None => {
                proof {
                    assert(self@ =~= self@.remove(key@));
                    if entries_map(self.entries@).contains_key(key@) {
                        let p = lemma_key_at(self.entries@, key@);
                        assert(key_seq(self.entries@)[p] == key@);
                    }
                }
                None
            },
        }
    }

    /// Removes every entry.
    pub fn clear(&mut self)
        ensures
            final(self)@ == Map::<K::V, V>::empty(),
            final(self).entry_seq().len() == 0,
    {
        self.entries = Vec::new();
        assert(self@ =~= Map::<K::V, V>::empty());
    }

    /// The number of entries.
    pub fn len(&self) -> (r: usize)
        ensures
            r == self.entry_seq().len(),
    {
        self.entries.len()
    }

    /// The entries, in the order their keys were first inserted.
    pub fn entries(&self) -> (r: &Vec<(K, V)>)
        ensures
            r@ == self.entry_seq(),
            unique_keys(r@),
            self@ == entries_map(r@),
    {
        proof {
            use_type_invariant(self);
        }
        &self.entries
    }
}

/// The texts of a map's values.
pub open spec fn text_values(m: Map<Seq<char>, String>) -> Map<Seq<char>, Seq<char>> {
    Map::new(|k: Seq<char>| m.contains_key(k), |k: Seq<char>| m[k]@)
}

/// The map that pairs of texts stand for when a later pair overrides an
/// earlier one with the same key.
pub open spec fn pairs_map(pairs: Seq<(String, String)>) -> Map<Seq<char>, Seq<char>>
    decreases pairs.len(),
{
    if pairs.len() == 0 {
        Map::empty()
    } else {
        pairs_map(pairs.drop_last()).insert(pairs.last().0@, pairs.last().1@)
    }
}

/// Entries with distinct keys stand for the same texts whether read as a map
/// of entries or as pairs where a later one overrides an earlier one.
pub proof fn lemma_unique_pairs_map(entries: Seq<(String, String)>)
    requires
        unique_keys(entries),
    ensures
        pairs_map(entries) == text_values(entries_map(entries)),
    decreases entries.len(),
{
    if entries.len() == 0 {
        assert(text_values(entries_map(entries)) =~= Map::<Seq<char>, Seq<char>>::empty());
    } else {
        let d = entries.drop_last();
        let n = entries.len() - 1;
        let last = entries.last();
        assert(unique_keys(d));
        lemma_unique_pairs_map(d);
        lemma_entries_keys(entries);
        lemma_entries_keys(d);
        lemma_entry_in_map(entries, n);
        assert forall|k: Seq<char>| #[trigger] text_values(entries_map(entries)).contains_key(k)
            <==> text_values(entries_map(d)).insert(last.0@, last.1@).contains_key(k) by {
            if entries_map(entries).contains_key(k) {
                let i = choose|i: int| 0 <= i < entries.len() && entries[i].0@ == k;
                if i < n {
                    assert(d[i] == entries[i]);
                    assert(entries_map(d).contains_key(d[i].0@));
                }
            }
            if entries_map(d).contains_key(k) {
                let i = choose|i: int| 0 <= i < d.len() && d[i].0@ == k;
                assert(entries[i] == d[i]);
                assert(entries_map(entries).contains_key(entries[i].0@));
            }
        }
        assert forall|k: Seq<char>| #[trigger] text_values(entries_map(entries)).contains_key(k)
            implies text_values(entries_map(entries))[k] == text_values(entries_map(d)).insert(
            last.0@,
            last.1@,
        )[k] by {
            if k != last.0@ {
                assert(text_values(entries_map(d).insert(last.0@, last.1)).contains_key(k));
                let p = lemma_map_key_position(d, k);
                assert(entries[p] == d[p]);
                lemma_entry_in_map(entries, p);
            }
        }
        assert(text_values(entries_map(entries)) =~= text_values(entries_map(d)).insert(
            last.0@,
            last.1@,
        ));
    }
}

/// Texts by text key, each key at most once.
pub struct TextMap {
    inner: KeyedList<String, String>,
}

impl View for TextMap {
    type V = Map<Seq<char>, Seq<char>>;

    closed spec fn view(&self) -> Map<Seq<char>, Seq<char>> {
        text_values(self.inner@)
    }
}

impl TextMap {
    /// An empty map.
    pub fn new() -> (r: Self)
        ensures
            r@ == Map::<Seq<char>, Seq<char>>::empty(),
    {
        let r = TextMap { inner: KeyedList::new() };
        assert(r@ =~= Map::<Seq<char>, Seq<char>>::empty());
        r
    }

    /// The value of `key`.
    pub fn get(&self, key: &str) -> (r: Option<&str>)
        ensures
            match r {
                Some(v) => self@.contains_key(key@) && v@ == self@[key@],
                None => !self@.contains_key(key@),
            },
    {
        let k = key.to_owned();
        match self.inner.get(&k) {
            Some(v) => Some(v.as_str()),
            None => None,
        }
    }

    /// Sets the value of `key`.
    pub fn insert(&mut self, key: &str, value: &str)
        ensures
            final(self)@ == old(self)@.insert(key@, value@),
    {
        let ghost before = self.inner@;
        let v = value.to_owned();
        self.inner.insert(key.to_owned(), v);
        assert(text_values(before.insert(key@, v)) =~= text_values(before).insert(key@, value@));
    }

    /// Removes every entry.
    pub fn clear(&mut self)
        ensures
            final(self)@ == Map::<Seq<char>, Seq<char>>::empty(),
    {
        self.inner.clear();
        assert(self@ =~= Map::<Seq<char>, Seq<char>>::empty());
    }

    /// The entries, in the order their keys were first inserted.
    pub fn entries(&self) -> (r: &Vec<(String, String)>)
        ensures
            unique_keys(r@),
            text_values(entries_map(r@)) == self@,
    {
        self.inner.entries()
    }

    /// Only finitely many keys have a value.
    pub proof fn lemma_finite(&self)
        ensures
            self@.dom().finite(),
    {
        let e = self.inner.entries@;
        assert(self@.dom() =~= key_seq(e).to_set());
        vstd::seq_lib::seq_to_set_is_finite(key_seq(e));
    }

    /// A map with the same texts.
    pub fn copy(&self) -> (r: Self)
        ensures
            r@ == self@,
    {
        let entries = self.entries();
        proof {
            lemma_unique_pairs_map(entries@);
        }
        TextMap::from_pairs(entries)
    }

    /// The map of `pairs`, a later pair overriding an earlier one with the
    /// same key.
    pub fn from_pairs(pairs: &Vec<(String, String)>) -> (r: Self)
        ensures
            r@ == pairs_map(pairs@),
    {
        let mut r = TextMap::new();
        let mut i: usize = 0;
        while i < pairs.len()
            invariant
                i <= pairs@.len(),
                r@ == pairs_map(pairs@.take(i as int)),
            decreases pairs@.len() - i,
        {
            assert(pairs@.take(i + 1).drop_last() =~= pairs@.take(i as int));
            r.insert(pairs[i].0.as_str(), pairs[i].1.as_str());
            i = i + 1;
        }
        assert(pairs@.take(pairs@.len() as int) =~= pairs@);
        r
    }
}

} // verus!
