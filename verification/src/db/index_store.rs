//! The lookup index of the library database: novel ids by normalized table
//! of contents URL and by normalized title.
use vstd::prelude::*;

use crate::db::novel_record::NovelRecord;
use crate::keyed::{entries_map, key_seq, unique_keys, KeyedList};
use crate::hashing::{hex_text, sha256, sha256_hex};
use crate::text::{chars_eq, lowercase, to_lowercase, trim, trim_seq};
use vstd::string::*;
use vstd::utf8::encode_utf8;

verus! {

/// What an index entry of one novel remembers: its table of contents URL
/// and its title.
pub struct MetaEntry {
    pub toc_url: Option<String>,
    pub title: Option<String>,
}

/// The texts of an entry.
pub type MetaText = (Option<Seq<char>>, Option<Seq<char>>);

pub open spec fn opt_text_of(o: Option<String>) -> Option<Seq<char>> {
    match o {
        Some(s) => Some(s@),
        None => None,
    }
}

pub open spec fn meta_text(e: MetaEntry) -> MetaText {
    (opt_text_of(e.toc_url), opt_text_of(e.title))
}

/// The two indexes and the entries: ids by normalized URL, ids by
/// normalized title, and each id's entry.
pub type Tables = (Map<Seq<char>, Seq<i64>>, Map<Seq<char>, Seq<i64>>, Map<i64, MetaText>);

/// The id lists of an index.
pub open spec fn ids_map(m: Map<Seq<char>, Vec<i64>>) -> Map<Seq<char>, Seq<i64>> {
    Map::new(|k: Seq<char>| m.contains_key(k), |k: Seq<char>| m[k]@)
}

/// The texts of the entries.
pub open spec fn meta_map(m: Map<i64, MetaEntry>) -> Map<i64, MetaText> {
    Map::new(|k: i64| m.contains_key(k), |k: i64| meta_text(m[k]))
}

/// The key a URL or title is indexed under: trimmed and lower-cased, none
/// for a blank one.
pub open spec fn norm_text(s: Seq<char>) -> Option<Seq<char>> {
    let t = trim_seq(s);
    if t.len() == 0 {
        None
    } else {
        Some(lowercase(t))
    }
}

pub open spec fn opt_norm(o: Option<Seq<char>>) -> Option<Seq<char>> {
    match o {
        Some(s) => norm_text(s),
        None => None,
    }
}

/// The ids listed under `key`.
pub open spec fn ids_of(index: Map<Seq<char>, Seq<i64>>, key: Seq<char>) -> Seq<i64> {
    if index.contains_key(key) {
        index[key]
    } else {
        Seq::empty()
    }
}

/// `index` with `id` listed under `key` (at the end, when not there yet).
pub open spec fn add_id(index: Map<Seq<char>, Seq<i64>>, key: Seq<char>, id: i64) -> Map<
    Seq<char>,
    Seq<i64>,
> {
    let l = ids_of(index, key);
    index.insert(
        key,
        if l.contains(id) {
            l
        } else {
            l.push(id)
        },
    )
}

/// `s` without `id`.
pub open spec fn without_id(s: Seq<i64>, id: i64) -> Seq<i64>
    decreases s.len(),
{
    if s.len() == 0 {
        s
    } else if s.last() == id {
        without_id(s.drop_last(), id)
    } else {
        without_id(s.drop_last(), id).push(s.last())
    }
}

/// `index` with `id` no longer listed under `key`; a key left with no id
/// goes.
pub open spec fn remove_id(index: Map<Seq<char>, Seq<i64>>, key: Seq<char>, id: i64) -> Map<
    Seq<char>,
    Seq<i64>,
> {
    if index.contains_key(key) {
        let l = without_id(index[key], id);
        if l.len() == 0 {
            index.remove(key)
        } else {
            index.insert(key, l)
        }
    } else {
        index
    }
}

pub open spec fn index_with(index: Map<Seq<char>, Seq<i64>>, key: Option<Seq<char>>, id: i64) -> Map<
    Seq<char>,
    Seq<i64>,
> {
    match key {
        Some(k) => add_id(index, k, id),
        None => index,
    }
}

pub open spec fn index_without(index: Map<Seq<char>, Seq<i64>>, key: Option<Seq<char>>, id: i64) -> Map<
    Seq<char>,
    Seq<i64>,
> {
    match key {
        Some(k) => remove_id(index, k, id),
        None => index,
    }
}

/// The tables without novel `id`.
pub open spec fn tables_remove(t: Tables, id: i64) -> Tables {
    if t.2.contains_key(id) {
        let m = t.2[id];
        (index_without(t.0, opt_norm(m.0), id), index_without(t.1, opt_norm(m.1), id), t.2.remove(id))
    } else {
        t
    }
}

/// The tables with novel `id` entered under `toc_url` and `title`.
pub open spec fn tables_store(
    t: Tables,
    id: i64,
    toc_url: Option<Seq<char>>,
    title: Option<Seq<char>>,
) -> Tables {
    (
        index_with(t.0, opt_norm(toc_url), id),
        index_with(t.1, opt_norm(title), id),
        t.2.insert(id, (toc_url, title)),
    )
}

/// Normalizes a table of contents URL for the index.
pub fn normalize_url(url: &str) -> (r: Option<String>)
    ensures
        match r {
            Some(s) => norm_text(url@) == Some(s@),
            None => norm_text(url@) is None,
        },
{
    let trimmed = trim(url);
    if trimmed.as_str().unicode_len() == 0 {
        return None;
    }
    Some(to_lowercase(trimmed.as_str()))
}

/// Normalizes a title for the index.
pub fn normalize_title(title: &str) -> (r: Option<String>)
    ensures
        match r {
            Some(s) => norm_text(title@) == Some(s@),
            None => norm_text(title@) is None,
        },
{
    let trimmed = trim(title);
    if trimmed.as_str().unicode_len() == 0 {
        return None;
    }
    Some(to_lowercase(trimmed.as_str()))
}

fn vec_has_id(v: &Vec<i64>, id: i64) -> (r: bool)
    ensures
        r == v@.contains(id),
{
    let mut i: usize = 0;
    while i < v.len()
        invariant
            i <= v@.len(),
            forall|j: int| 0 <= j < i ==> v@[j] != id,
        decreases v@.len() - i,
    {
        if v[i] == id {
            return true;
        }
        i = i + 1;
    }
    false
}

fn ids_without(v: &Vec<i64>, id: i64) -> (r: Vec<i64>)
    ensures
        r@ == without_id(v@, id),
{
    let mut kept: Vec<i64> = Vec::new();
    let mut i: usize = 0;
    while i < v.len()
        invariant
            i <= v@.len(),
            kept@ == without_id(v@.take(i as int), id),
        decreases v@.len() - i,
    {
        assert(v@.take(i + 1).drop_last() =~= v@.take(i as int));
        if v[i] != id {
            kept.push(v[i]);
        }
        i = i + 1;
    }
    assert(v@.take(v@.len() as int) =~= v@);
    kept
}

proof fn lemma_ids_map_insert(m: Map<Seq<char>, Vec<i64>>, k: Seq<char>, v: Vec<i64>)
    ensures
        ids_map(m.insert(k, v)) == ids_map(m).insert(k, v@),
{
    assert(ids_map(m.insert(k, v)) =~= ids_map(m).insert(k, v@));
}

proof fn lemma_ids_map_remove(m: Map<Seq<char>, Vec<i64>>, k: Seq<char>)
    ensures
        ids_map(m.remove(k)) == ids_map(m).remove(k),
{
    assert(ids_map(m.remove(k)) =~= ids_map(m).remove(k));
}

proof fn lemma_meta_map_insert(m: Map<i64, MetaEntry>, k: i64, v: MetaEntry)
    ensures
        meta_map(m.insert(k, v)) == meta_map(m).insert(k, meta_text(v)),
{
    assert(meta_map(m.insert(k, v)) =~= meta_map(m).insert(k, meta_text(v)));
}

proof fn lemma_meta_map_remove(m: Map<i64, MetaEntry>, k: i64)
    ensures
        meta_map(m.remove(k)) == meta_map(m).remove(k),
{
    assert(meta_map(m.remove(k)) =~= meta_map(m).remove(k));
}

/// Lists `id` under `key` (at the end, when not there yet).
fn add_to_index(index: &mut KeyedList<String, Vec<i64>>, key: String, id: i64)
    ensures
        ids_map(final(index)@) == add_id(ids_map(old(index)@), key@, id),
{
    let ghost before = index@;
    let mut ids = match index.remove(&key) {
        Some(v) => v,
        None => Vec::new(),
    };
    assert(ids@ == ids_of(ids_map(before), key@));
    if !vec_has_id(&ids, id) {
        ids.push(id);
    }
    let ghost after_ids = ids;
    index.insert(key, ids);
    proof {
        lemma_ids_map_remove(before, key@);
        lemma_ids_map_insert(before.remove(key@), key@, after_ids);
        assert(ids_map(before).remove(key@).insert(key@, after_ids@) =~= ids_map(before).insert(
            key@,
            after_ids@,
        ));
    }
}

/// Stops listing `id` under `key`; a key left with no id goes.
fn remove_from_index(index: &mut KeyedList<String, Vec<i64>>, key: &String, id: i64)
    ensures
        ids_map(final(index)@) == remove_id(ids_map(old(index)@), key@, id),
{
    let ghost before = index@;
    match index.remove(key) {
        Some(ids) => {
            let kept = ids_without(&ids, id);
            proof {
                lemma_ids_map_remove(before, key@);
            }
            if kept.len() > 0 {
                let ghost kept_ids = kept;
                index.insert(key.clone(), kept);
                proof {
                    lemma_ids_map_insert(before.remove(key@), key@, kept_ids);
                    assert(ids_map(before).remove(key@).insert(key@, kept_ids@) =~= ids_map(
                        before,
                    ).insert(key@, kept_ids@));
                }
            }
        },
        None => {},
    }
}

/// The index as it is written: a fingerprint of the database it was built
/// from, the two indexes and the entries.
pub struct IndexStoreData {
    pub fingerprint: Option<String>,
    pub by_toc_url: KeyedList<String, Vec<i64>>,
    pub by_title: KeyedList<String, Vec<i64>>,
    pub meta: KeyedList<i64, MetaEntry>,
}

impl IndexStoreData {
    /// The indexes and entries.
    pub open spec fn tables(self) -> Tables {
        (ids_map(self.by_toc_url@), ids_map(self.by_title@), meta_map(self.meta@))
    }
}

/// No index and no entry.
pub open spec fn empty_tables() -> Tables {
    (Map::empty(), Map::empty(), Map::empty())
}

impl Default for IndexStoreData {
    fn default() -> (r: Self)
        ensures
            r.tables() == empty_tables(),
            r.fingerprint is None,
    {
        let r = IndexStoreData {
            fingerprint: None,
            by_toc_url: KeyedList::new(),
            by_title: KeyedList::new(),
            meta: KeyedList::new(),
        };
        assert(r.tables().0 =~= Map::<Seq<char>, Seq<i64>>::empty());
        assert(r.tables().1 =~= Map::<Seq<char>, Seq<i64>>::empty());
        assert(r.tables().2 =~= Map::<i64, MetaText>::empty());
        r
    }
}

/// The first id of a list.
pub open spec fn first_id(s: Seq<i64>) -> Option<i64> {
    if s.len() > 0 {
        Some(s[0])
    } else {
        None
    }
}

/// The id found for a URL or title in `index`: the first listed under its
/// normalized key.
pub open spec fn lookup_id(index: Map<Seq<char>, Seq<i64>>, text: Seq<char>) -> Option<i64> {
    match norm_text(text) {
        Some(k) => first_id(ids_of(index, k)),
        None => None,
    }
}

pub open spec fn opt_str_text(o: Option<&str>) -> Option<Seq<char>> {
    match o {
        Some(s) => Some(s@),
        None => None,
    }
}

/// The index of the library database, with whether it needs writing.
pub struct IndexStore {
    data: IndexStoreData,
    dirty: bool,
}

impl IndexStore {
    pub closed spec fn tables(self) -> Tables {
        self.data.tables()
    }

    pub closed spec fn fingerprint_text(self) -> Option<Seq<char>> {
        opt_text_of(self.data.fingerprint)
    }

    pub closed spec fn pending_write(self) -> bool {
        self.dirty
    }

    /// An empty index.
    pub fn new() -> (r: Self)
        ensures
            r.tables() == empty_tables(),
            r.fingerprint_text() is None,
            !r.pending_write(),
    {
        IndexStore { data: IndexStoreData::default(), dirty: false }
    }

    /// An index read back from where it was written.
    pub fn from_data(data: IndexStoreData) -> (r: Self)
        ensures
            r.tables() == data.tables(),
            r.fingerprint_text() == opt_text_of(data.fingerprint),
            !r.pending_write(),
    {
        IndexStore { data, dirty: false }
    }

    /// The index as it is written.
    pub fn data(&self) -> (r: &IndexStoreData)
        ensures
            r.tables() == self.tables(),
            opt_text_of(r.fingerprint) == self.fingerprint_text(),
    {
        &self.data
    }

    pub fn is_dirty(&self) -> (r: bool)
        ensures
            r == self.pending_write(),
    {
        self.dirty
    }

    /// Notes that the index was written.
    pub fn mark_written(&mut self)
        ensures
            !final(self).pending_write(),
            final(self).tables() == old(self).tables(),
            final(self).fingerprint_text() == old(self).fingerprint_text(),
    {
        self.dirty = false;
    }

    /// The novel filed under a table of contents URL.
    pub fn lookup_by_toc_url(&self, toc_url: &str) -> (r: Option<i64>)
        ensures
            r == lookup_id(self.tables().0, toc_url@),
    {
        let normalized = match normalize_url(toc_url) {
            Some(n) => n,
            None => {
                return None;
            },
        };
        match self.data.by_toc_url.get(&normalized) {
            Some(ids) => if ids.len() > 0 {
                Some(ids[0])
            } else {
                None
            },
            None => None,
        }
    }

    /// The novel filed under a title.
    pub fn lookup_by_title(&self, title: &str) -> (r: Option<i64>)
        ensures
            r == lookup_id(self.tables().1, title@),
    {
        let normalized = match normalize_title(title) {
            Some(n) => n,
            None => {
                return None;
            },
        };
        match self.data.by_title.get(&normalized) {
            Some(ids) => if ids.len() > 0 {
                Some(ids[0])
            } else {
                None
            },
            None => None,
        }
    }

    fn remove(&mut self, id: i64)
        ensures
            final(self).tables() == tables_remove(old(self).tables(), id),
            final(self).fingerprint_text() == old(self).fingerprint_text(),
            final(self).pending_write() == old(self).pending_write(),
    {
        let ghost before = self.data.meta@;
        if let Some(meta) = self.data.meta.remove(&id) {
            proof {
                lemma_meta_map_remove(before, id);
            }
            if let Some(url) = meta.toc_url {
                if let Some(norm) = normalize_url(url.as_str()) {
                    remove_from_index(&mut self.data.by_toc_url, &norm, id);
                }
            }
            if let Some(title) = meta.title {
                if let Some(norm) = normalize_title(title.as_str()) {
                    remove_from_index(&mut self.data.by_title, &norm, id);
                }
            }
        }
    }

    fn store(&mut self, id: i64, toc_url: Option<String>, title: Option<String>)
        ensures
            final(self).tables() == tables_store(
                old(self).tables(),
                id,
                opt_text_of(toc_url),
                opt_text_of(title),
            ),
            final(self).fingerprint_text() == old(self).fingerprint_text(),
            final(self).pending_write() == old(self).pending_write(),
    {
        if let Some(url) = &toc_url {
            if let Some(norm) = normalize_url(url.as_str()) {
                add_to_index(&mut self.data.by_toc_url, norm, id);
            }
        }
        if let Some(t) = &title {
            if let Some(norm) = normalize_title(t.as_str()) {
                add_to_index(&mut self.data.by_title, norm, id);
            }
        }
        let ghost before = self.data.meta@;
        let meta = MetaEntry { toc_url, title };
        let ghost m = meta;
        self.data.meta.insert(id, meta);
        proof {
            lemma_meta_map_insert(before, id, m);
        }
    }

    /// Files novel `id` under `toc_url` and `title`, in place of what it
    /// was filed under before.
    pub fn upsert(&mut self, id: i64, toc_url: Option<&str>, title: Option<&str>)
        ensures
            final(self).tables() == tables_store(
                tables_remove(old(self).tables(), id),
                id,
                opt_str_text(toc_url),
                opt_str_text(title),
            ),
            final(self).fingerprint_text() == old(self).fingerprint_text(),
            final(self).pending_write(),
    {
        self.remove(id);
        let url = match toc_url {
            Some(u) => Some(u.to_owned()),
            None => None,
        };
        let t = match title {
            Some(x) => Some(x.to_owned()),
            None => None,
        };
        self.store(id, url, t);
        self.dirty = true;
    }

    /// Forgets novel `id`.
    pub fn delete(&mut self, id: i64)
        ensures
            final(self).tables() == tables_remove(old(self).tables(), id),
            final(self).fingerprint_text() == old(self).fingerprint_text(),
            final(self).pending_write(),
    {
        self.remove(id);
        self.dirty = true;
    }
}

/// The first `n` little-endian bytes of `v`.
pub open spec fn le_bytes(v: nat, n: nat) -> Seq<u8>
    decreases n,
{
    if n == 0 {
        Seq::empty()
    } else {
        seq![(v % 256) as u8] + le_bytes(v / 256, (n - 1) as nat)
    }
}

/// `i64::to_le_bytes`: the two's complement bytes, least significant first.
pub open spec fn i64_le_bytes(x: i64) -> Seq<u8> {
    le_bytes((x as u64) as nat, 8)
}

/// Whole seconds since the epoch of an instant in nanoseconds, rounded
/// down (what `DateTime::timestamp` gives).
pub open spec fn timestamp_secs(t: i128) -> i64 {
    (t / 1_000_000_000) as i64
}

/// What the fingerprint reads of one record: its id, its table of contents
/// URL, its title and the second of its last update.
pub open spec fn record_fingerprint_bytes(r: NovelRecord) -> Seq<u8> {
    i64_le_bytes(r.id) + encode_utf8(r.toc_url@) + encode_utf8(r.title@) + i64_le_bytes(
        timestamp_secs(r.last_update),
    )
}

/// What the fingerprint reads of the records, in `order`.
pub open spec fn fingerprint_bytes(order: Seq<i64>, db: Map<i64, NovelRecord>) -> Seq<u8>
    decreases order.len(),
{
    if order.len() == 0 {
        Seq::empty()
    } else {
        fingerprint_bytes(order.drop_last(), db) + record_fingerprint_bytes(db[order.last()])
    }
}

/// The index built from the records, entered in `order`.
pub open spec fn rebuilt(order: Seq<i64>, db: Map<i64, NovelRecord>) -> Tables
    decreases order.len(),
{
    if order.len() == 0 {
        empty_tables()
    } else {
        let r = db[order.last()];
        tables_store(rebuilt(order.drop_last(), db), order.last(), Some(r.toc_url@), Some(r.title@))
    }
}

/// `order` lists the ids of `db` in increasing order.
pub open spec fn in_id_order(order: Seq<i64>, db: Map<i64, NovelRecord>) -> bool {
    &&& forall|i: int, j: int| 0 <= i < j < order.len() ==> order[i] < order[j]
    &&& forall|x: i64| #[trigger] order.contains(x) <==> db.contains_key(x)
}

fn push_bytes(out: &mut Vec<u8>, bytes: &[u8])
    ensures
        final(out)@ == old(out)@ + bytes@,
{
    let ghost start = out@;
    let mut i: usize = 0;
    while i < bytes.len()
        invariant
            i <= bytes@.len(),
            out@ == start + bytes@.take(i as int),
        decreases bytes@.len() - i,
    {
        out.push(bytes[i]);
        i = i + 1;
        assert(out@ =~= start + bytes@.take(i as int));
    }
    assert(bytes@.take(bytes@.len() as int) =~= bytes@);
}

fn push_i64_le(out: &mut Vec<u8>, x: i64)
    ensures
        final(out)@ == old(out)@ + i64_le_bytes(x),
{
    let ghost start = out@;
    let mut v: u64 = x as u64;
    let mut k: usize = 0;
    assert(start + le_bytes(v as nat, 8) =~= start + i64_le_bytes(x));
    while k < 8
        invariant
            k <= 8,
            out@ + le_bytes(v as nat, (8 - k) as nat) == start + i64_le_bytes(x),
        decreases 8 - k,
    {
        let ghost before = out@;
        let ghost n = (8 - k) as nat;
        out.push((v % 256) as u8);
        assert(out@ + le_bytes((v / 256) as nat, (n - 1) as nat) =~= before + le_bytes(v as nat, n));
        v = v / 256;
        k = k + 1;
    }
    assert(out@ + le_bytes(v as nat, 0) =~= out@);
}

fn timestamp_of(t: i128) -> (r: i64)
    ensures
        r == timestamp_secs(t),
{
    match t.checked_div_euclid(1_000_000_000) {
        Some(q) => q as i64,
        None => 0,
    }
}

/// The number of ids in `v` above `floor` (all of them with no floor).
pub open spec fn count_above(v: Seq<i64>, floor: Option<i64>) -> nat
    decreases v.len(),
{
    if v.len() == 0 {
        0
    } else {
        count_above(v.drop_last(), floor) + if floor matches Some(f) && v.last() <= f {
            0nat
        } else {
            1nat
        }
    }
}

proof fn lemma_count_above_drops(v: Seq<i64>, a: Option<i64>, b: i64)
    requires
        v.contains(b),
        a matches Some(x) ==> x < b,
    ensures
        count_above(v, Some(b)) < count_above(v, a),
    decreases v.len(),
{
    let w = v.drop_last();
    if v.last() == b {
        if w.contains(b) {
            lemma_count_above_drops(w, a, b);
        } else {
            lemma_count_above_mono(w, a, b);
        }
    } else {
        let j = choose|j: int| 0 <= j < v.len() && v[j] == b;
        assert(w[j] == b);
        lemma_count_above_drops(w, a, b);
    }
}

proof fn lemma_count_above_mono(v: Seq<i64>, a: Option<i64>, b: i64)
    requires
        a matches Some(x) ==> x < b,
    ensures
        count_above(v, Some(b)) <= count_above(v, a),
    decreases v.len(),
{
    if v.len() > 0 {
        lemma_count_above_mono(v.drop_last(), a, b);
    }
}

/// The keys of `entries` in increasing order.
fn ids_in_order<V>(entries: &Vec<(i64, V)>) -> (r: Vec<i64>)
    ensures
        forall|i: int, j: int| 0 <= i < j < r@.len() ==> r@[i] < r@[j],
        forall|x: i64|
            #[trigger] r@.contains(x) <==> exists|k: int| 0 <= k < entries@.len() && entries@[k].0 == x,
{
    let ghost keys = entries@.map_values(|e: (i64, V)| e.0);
    let mut out: Vec<i64> = Vec::new();
    let mut last: Option<i64> = None;
    loop
        invariant
            keys == entries@.map_values(|e: (i64, V)| e.0),
            forall|i: int, j: int| 0 <= i < j < out@.len() ==> out@[i] < out@[j],
            forall|i: int| 0 <= i < out@.len() ==> keys.contains(#[trigger] out@[i]),
            match last {
                Some(l) => out@.len() > 0 && out@.last() == l,
                None => out@.len() == 0,
            },
            forall|x: i64| #[trigger] keys.contains(x) && (last is Some && x <= last->0) ==> out@.contains(x),
        decreases count_above(keys, last),
    {
        let mut best: Option<i64> = None;
        let mut i: usize = 0;
        while i < entries.len()
            invariant
                keys == entries@.map_values(|e: (i64, V)| e.0),
                i <= entries@.len(),
                match best {
                    Some(b) => keys.contains(b) && (last is Some ==> last->0 < b) && forall|j: int|
                        0 <= j < i && (last is Some ==> last->0 < #[trigger] keys[j]) ==> b <= keys[j],
                    None => forall|j: int| 0 <= j < i ==> (last is Some && #[trigger] keys[j] <= last->0),
                },
            decreases entries@.len() - i,
        {
            let x = entries[i].0;
            assert(keys[i as int] == x);
            let above = match last {
                Some(l) => x > l,
                None => true,
            };
            if above {
                match best {
                    Some(b) => {
                        if x < b {
                            best = Some(x);
                        }
                    },
                    None => {
                        best = Some(x);
                    },
                }
            }
            i = i + 1;
        }
        match best {
            Some(b) => {
                proof {
                    lemma_count_above_drops(keys, last, b);
                    assert forall|x: i64| #[trigger] keys.contains(x) && x <= b implies out@.push(b).contains(x) by {
                        if x == b {
                            assert(out@.push(b)[out@.len() as int] == b);
                        } else {
                            let j = choose|j: int| 0 <= j < keys.len() && keys[j] == x;
                            if last is Some && x <= last->0 {
                                let p = choose|p: int| 0 <= p < out@.len() && out@[p] == x;
                                assert(out@.push(b)[p] == x);
                            }
                        }
                    }
                }
                out.push(b);
                last = Some(b);
            },
            None => {
                proof {
                    assert forall|x: i64| #[trigger] out@.contains(x) <==> exists|k: int|
                        0 <= k < entries@.len() && entries@[k].0 == x by {
                        if out@.contains(x) {
                            let p = choose|p: int| 0 <= p < out@.len() && out@[p] == x;
                            assert(keys.contains(out@[p]));
                            let k = choose|k: int| 0 <= k < keys.len() && keys[k] == x;
                            assert(entries@[k].0 == x);
                        }
                        if exists|k: int| 0 <= k < entries@.len() && entries@[k].0 == x {
                            let k = choose|k: int| 0 <= k < entries@.len() && entries@[k].0 == x;
                            assert(keys[k] == x);
                            assert(keys.contains(x));
                            assert(last is Some && keys[k] <= last->0);
                            assert(out@.contains(x));
                        }
                    }
                }
                return out;
            },
        }
    }
}

fn compute_fingerprint(database: &KeyedList<i64, NovelRecord>, order: &Vec<i64>) -> (r: String)
    requires
        forall|i: int| 0 <= i < order@.len() ==> database@.contains_key(#[trigger] order@[i]),
    ensures
        r@ == hex_text(sha256(fingerprint_bytes(order@, database@))),
{
    let mut bytes: Vec<u8> = Vec::new();
    let mut i: usize = 0;
    while i < order.len()
        invariant
            i <= order@.len(),
            forall|j: int| 0 <= j < order@.len() ==> database@.contains_key(#[trigger] order@[j]),
            bytes@ == fingerprint_bytes(order@.take(i as int), database@),
        decreases order@.len() - i,
    {
        assert(order@.take(i + 1).drop_last() =~= order@.take(i as int));
        let id = order[i];
        assert(database@.contains_key(order@[i as int]));
        match database.get(&id) {
            Some(record) => {
                let ghost before = bytes@;
                push_i64_le(&mut bytes, record.id);
                push_bytes(&mut bytes, record.toc_url.as_str().as_bytes());
                push_bytes(&mut bytes, record.title.as_str().as_bytes());
                push_i64_le(&mut bytes, timestamp_of(record.last_update));
                assert(bytes@ =~= before + record_fingerprint_bytes(*record));
            },
            None => {},
        }
        i = i + 1;
    }
    assert(order@.take(order@.len() as int) =~= order@);
    sha256_hex(bytes.as_slice())
}

/// What reconciling `before` with the database `db` gives: with the ids of
/// `db` in increasing order, the store is kept where its fingerprint is
/// that of `db`, else rebuilt from `db` and given its fingerprint.
pub open spec fn reconciled(before: IndexStore, after: IndexStore, db: Map<i64, NovelRecord>) -> bool {
    exists|order: Seq<i64>|
        #[trigger] in_id_order(order, db) && {
            let fp = hex_text(sha256(fingerprint_bytes(order, db)));
            if before.fingerprint_text() == Some(fp) {
                &&& after.tables() == before.tables()
                &&& after.fingerprint_text() == before.fingerprint_text()
                &&& after.pending_write() == before.pending_write()
            } else {
                &&& after.tables() == rebuilt(order, db)
                &&& after.fingerprint_text() == Some(fp)
                &&& after.pending_write()
            }
        }
}

impl IndexStore {
    /// Rebuilds the index from the database, unless the database's
    /// fingerprint shows it is the one the index was built from.
    pub fn reconcile(&mut self, database: &KeyedList<i64, NovelRecord>)
        ensures
            reconciled(*old(self), *final(self), database@),
    {
        let entries = database.entries();
        let order = ids_in_order(entries);
        proof {
            assert forall|x: i64| #[trigger] order@.contains(x) <==> database@.contains_key(x) by {
                if order@.contains(x) {
                    let k = choose|k: int| 0 <= k < entries@.len() && entries@[k].0 == x;
                    assert(key_seq(entries@)[k] == x);
                }
                if database@.contains_key(x) {
                    let k = choose|k: int| 0 <= k < key_seq(entries@).len() && key_seq(entries@)[k] == x;
                    assert(entries@[k].0 == x);
                }
            }
            assert forall|i: int| 0 <= i < order@.len() implies database@.contains_key(
                #[trigger] order@[i],
            ) by {
                assert(order@.contains(order@[i]));
            }
            assert(in_id_order(order@, database@));
        }
        let fp = compute_fingerprint(database, &order);
        let same = match &self.data.fingerprint {
            Some(f) => chars_eq(f.as_str(), fp.as_str()),
            None => false,
        };
        if same {
            return;
        }
        self.data.fingerprint = Some(fp);
        self.data.by_toc_url.clear();
        self.data.by_title.clear();
        self.data.meta.clear();
        assert(self.tables() =~= empty_tables()) by {
            assert(ids_map(self.data.by_toc_url@) =~= Map::<Seq<char>, Seq<i64>>::empty());
            assert(ids_map(self.data.by_title@) =~= Map::<Seq<char>, Seq<i64>>::empty());
            assert(meta_map(self.data.meta@) =~= Map::<i64, MetaText>::empty());
        }
        let mut i: usize = 0;
        while i < order.len()
            invariant
                i <= order@.len(),
                forall|j: int| 0 <= j < order@.len() ==> database@.contains_key(#[trigger] order@[j]),
                self.tables() == rebuilt(order@.take(i as int), database@),
                self.fingerprint_text() == Some(fp@),
            decreases order@.len() - i,
        {
            assert(order@.take(i + 1).drop_last() =~= order@.take(i as int));
            let id = order[i];
            assert(database@.contains_key(order@[i as int]));
            match database.get(&id) {
                Some(record) => {
                    self.store(id, Some(record.toc_url.clone()), Some(record.title.clone()));
                },
                None => {},
            }
            i = i + 1;
        }
        assert(order@.take(order@.len() as int) =~= order@);
        self.dirty = true;
    }
}

/// The key an entry is indexed under, by URL (`by_url`) or by title.
pub open spec fn field_key(m: MetaText, by_url: bool) -> Option<Seq<char>> {
    opt_norm(
        if by_url {
            m.0
        } else {
            m.1
        },
    )
}

/// `index` lists, under each key, distinct ids (at least one) whose entries
/// are indexed under that key, and lists every entry under its key.
pub open spec fn index_agrees(
    index: Map<Seq<char>, Seq<i64>>,
    meta: Map<i64, MetaText>,
    by_url: bool,
) -> bool {
    &&& forall|k: Seq<char>| #[trigger]
        index.contains_key(k) ==> index[k].len() > 0 && index[k].no_duplicates() && forall|i: int|
            0 <= i < index[k].len() ==> meta.contains_key(#[trigger] index[k][i]) && field_key(
                meta[index[k][i]],
                by_url,
            ) == Some(k)
    &&& forall|id: i64| #[trigger]
        meta.contains_key(id) && field_key(meta[id], by_url) is Some ==> index.contains_key(
            field_key(meta[id], by_url)->0,
        ) && index[field_key(meta[id], by_url)->0].contains(id)
}

/// Both indexes agree with the entries.
pub open spec fn consistent(t: Tables) -> bool {
    index_agrees(t.0, t.2, true) && index_agrees(t.1, t.2, false)
}

proof fn lemma_without_id(s: Seq<i64>, id: i64)
    ensures
        forall|x: i64| #[trigger] without_id(s, id).contains(x) <==> (s.contains(x) && x != id),
        s.no_duplicates() ==> without_id(s, id).no_duplicates(),
    decreases s.len(),
{
    if s.len() > 0 {
        let w = s.drop_last();
        lemma_without_id(w, id);
        assert forall|x: i64| #[trigger] s.contains(x) <==> (w.contains(x) || x == s.last()) by {
            if s.contains(x) {
                let j = choose|j: int| 0 <= j < s.len() && s[j] == x;
                if j < s.len() - 1 {
                    assert(w[j] == x);
                }
            }
            if w.contains(x) {
                let j = choose|j: int| 0 <= j < w.len() && w[j] == x;
                assert(s[j] == x);
            }
            if x == s.last() {
                assert(s[s.len() - 1] == x);
            }
        }
        if s.last() != id {
            let r = without_id(w, id);
            assert forall|x: i64| #[trigger] r.push(s.last()).contains(x) <==> (r.contains(x) || x
                == s.last()) by {
                if r.push(s.last()).contains(x) {
                    let j = choose|j: int| 0 <= j < r.len() + 1 && r.push(s.last())[j] == x;
                    if j < r.len() {
                        assert(r[j] == x);
                    }
                }
                if r.contains(x) {
                    let j = choose|j: int| 0 <= j < r.len() && r[j] == x;
                    assert(r.push(s.last())[j] == x);
                }
                if x == s.last() {
                    assert(r.push(s.last())[r.len() as int] == x);
                }
            }
            if s.no_duplicates() {
                assert(w.no_duplicates()) by {
                    assert forall|i: int, j: int| 0 <= i < w.len() && 0 <= j < w.len() && i != j implies w[i] != w[j] by {
                        assert(w[i] == s[i] && w[j] == s[j]);
                    }
                }
                assert(!w.contains(s.last())) by {
                    if w.contains(s.last()) {
                        let j = choose|j: int| 0 <= j < w.len() && w[j] == s.last();
                        assert(s[j] == s[s.len() - 1]);
                    }
                }
                assert(!r.contains(s.last()));
                assert forall|i: int, j: int|
                    0 <= i < r.len() + 1 && 0 <= j < r.len() + 1 && i != j implies r.push(
                    s.last(),
                )[i] != r.push(s.last())[j] by {
                    if i < r.len() && j < r.len() {
                    } else if i < r.len() {
                        assert(r.contains(r[i]));
                    } else {
                        assert(r.contains(r[j]));
                    }
                }
            }
        } else {
            if s.no_duplicates() {
                assert(w.no_duplicates()) by {
                    assert forall|i: int, j: int| 0 <= i < w.len() && 0 <= j < w.len() && i != j implies w[i] != w[j] by {
                        assert(w[i] == s[i] && w[j] == s[j]);
                    }
                }
            }
        }
    }
}

proof fn lemma_agrees_after_remove(
    index: Map<Seq<char>, Seq<i64>>,
    meta: Map<i64, MetaText>,
    by_url: bool,
    id: i64,
)
    requires
        index_agrees(index, meta, by_url),
        meta.contains_key(id),
    ensures
        index_agrees(index_without(index, field_key(meta[id], by_url), id), meta.remove(id), by_url),
{
    let k0 = field_key(meta[id], by_url);
    let ni = index_without(index, k0, id);
    let nm = meta.remove(id);
    assert forall|k: Seq<char>| #[trigger] ni.contains_key(k) implies ni[k].len() > 0
        && ni[k].no_duplicates() && forall|i: int|
        0 <= i < ni[k].len() ==> nm.contains_key(#[trigger] ni[k][i]) && field_key(
            nm[ni[k][i]],
            by_url,
        ) == Some(k) by {
        assert(index.contains_key(k));
        if k0 == Some(k) {
            lemma_without_id(index[k], id);
            assert forall|i: int| 0 <= i < ni[k].len() implies nm.contains_key(#[trigger] ni[k][i])
                && field_key(nm[ni[k][i]], by_url) == Some(k) by {
                let x = ni[k][i];
                assert(ni[k].contains(x));
                let j = choose|j: int| 0 <= j < index[k].len() && index[k][j] == x;
                assert(index[k][j] == x);
            }
        } else {
            assert(ni[k] == index[k]);
            assert forall|i: int| 0 <= i < ni[k].len() implies nm.contains_key(#[trigger] ni[k][i])
                && field_key(nm[ni[k][i]], by_url) == Some(k) by {
                let x = index[k][i];
                assert(meta.contains_key(x));
                if x == id {
                    assert(field_key(meta[id], by_url) == Some(k));
                }
            }
        }
    }
    assert forall|id2: i64| #[trigger]
        nm.contains_key(id2) && field_key(nm[id2], by_url) is Some implies ni.contains_key(
        field_key(nm[id2], by_url)->0,
    ) && ni[field_key(nm[id2], by_url)->0].contains(id2) by {
        let k = field_key(nm[id2], by_url)->0;
        assert(meta.contains_key(id2) && meta[id2] == nm[id2]);
        assert(index.contains_key(k) && index[k].contains(id2));
        if k0 == Some(k) {
            lemma_without_id(index[k], id);
            assert(without_id(index[k], id).contains(id2));
            assert(without_id(index[k], id).len() > 0);
        }
    }
}

proof fn lemma_agrees_after_store(
    index: Map<Seq<char>, Seq<i64>>,
    meta: Map<i64, MetaText>,
    by_url: bool,
    id: i64,
    m: MetaText,
)
    requires
        index_agrees(index, meta, by_url),
        !meta.contains_key(id),
    ensures
        index_agrees(index_with(index, field_key(m, by_url), id), meta.insert(id, m), by_url),
{
    let k0 = field_key(m, by_url);
    let ni = index_with(index, k0, id);
    let nm = meta.insert(id, m);
    if k0 is Some {
        let l = ids_of(index, k0->0);
        assert(!l.contains(id)) by {
            if l.contains(id) {
                let j = choose|j: int| 0 <= j < l.len() && l[j] == id;
                assert(index.contains_key(k0->0));
                assert(meta.contains_key(index[k0->0][j]));
            }
        }
        assert(ni[k0->0] == l.push(id));
    }
    assert forall|k: Seq<char>| #[trigger] ni.contains_key(k) implies ni[k].len() > 0
        && ni[k].no_duplicates() && forall|i: int|
        0 <= i < ni[k].len() ==> nm.contains_key(#[trigger] ni[k][i]) && field_key(
            nm[ni[k][i]],
            by_url,
        ) == Some(k) by {
        if k0 == Some(k) {
            let l = ids_of(index, k);
            assert forall|i: int, j: int|
                0 <= i < l.len() + 1 && 0 <= j < l.len() + 1 && i != j implies l.push(id)[i]
                != l.push(id)[j] by {
                if i < l.len() && j < l.len() {
                    assert(index.contains_key(k));
                } else if i < l.len() {
                    assert(l.contains(l[i]));
                } else {
                    assert(l.contains(l[j]));
                }
            }
            assert forall|i: int| 0 <= i < ni[k].len() implies nm.contains_key(#[trigger] ni[k][i])
                && field_key(nm[ni[k][i]], by_url) == Some(k) by {
                if i < l.len() {
                    assert(index.contains_key(k));
                    assert(ni[k][i] == index[k][i]);
                    assert(meta.contains_key(index[k][i]));
                    assert(index[k][i] != id);
                }
            }
        } else {
            assert(index.contains_key(k) && ni[k] == index[k]);
            assert forall|i: int| 0 <= i < ni[k].len() implies nm.contains_key(#[trigger] ni[k][i])
                && field_key(nm[ni[k][i]], by_url) == Some(k) by {
                assert(meta.contains_key(index[k][i]));
                assert(index[k][i] != id);
            }
        }
    }
    assert forall|id2: i64| #[trigger]
        nm.contains_key(id2) && field_key(nm[id2], by_url) is Some implies ni.contains_key(
        field_key(nm[id2], by_url)->0,
    ) && ni[field_key(nm[id2], by_url)->0].contains(id2) by {
        let k = field_key(nm[id2], by_url)->0;
        if id2 == id {
            let l = ids_of(index, k);
            assert(l.push(id)[l.len() as int] == id);
        } else {
            assert(meta.contains_key(id2) && meta[id2] == nm[id2]);
            assert(index.contains_key(k) && index[k].contains(id2));
            if k0 == Some(k) {
                let j = choose|j: int| 0 <= j < index[k].len() && index[k][j] == id2;
                assert(index[k].push(id)[j] == id2);
            }
        }
    }
}

/// Forgetting a novel keeps the indexes in agreement with the entries.
pub proof fn lemma_remove_keeps_consistent(t: Tables, id: i64)
    requires
        consistent(t),
    ensures
        consistent(tables_remove(t, id)),
        !tables_remove(t, id).2.contains_key(id),
{
    if t.2.contains_key(id) {
        lemma_agrees_after_remove(t.0, t.2, true, id);
        lemma_agrees_after_remove(t.1, t.2, false, id);
    }
}

/// Entering a novel that is not entered yet keeps the indexes in agreement
/// with the entries.
pub proof fn lemma_store_keeps_consistent(
    t: Tables,
    id: i64,
    toc_url: Option<Seq<char>>,
    title: Option<Seq<char>>,
)
    requires
        consistent(t),
        !t.2.contains_key(id),
    ensures
        consistent(tables_store(t, id, toc_url, title)),
{
    lemma_agrees_after_store(t.0, t.2, true, id, (toc_url, title));
    lemma_agrees_after_store(t.1, t.2, false, id, (toc_url, title));
}

/// `upsert` and `delete` keep an index that agrees with its entries in
/// agreement; afterwards a deleted novel is listed nowhere, and an upserted
/// one is listed under its normalized URL and title.
pub proof fn lemma_upsert_delete_keep_consistent(
    t: Tables,
    id: i64,
    toc_url: Option<Seq<char>>,
    title: Option<Seq<char>>,
)
    requires
        consistent(t),
    ensures
        consistent(tables_remove(t, id)),
        forall|k: Seq<char>| #[trigger]
            tables_remove(t, id).0.contains_key(k) ==> !tables_remove(t, id).0[k].contains(id),
        forall|k: Seq<char>| #[trigger]
            tables_remove(t, id).1.contains_key(k) ==> !tables_remove(t, id).1[k].contains(id),
        consistent(tables_store(tables_remove(t, id), id, toc_url, title)),
        opt_norm(toc_url) matches Some(k) ==> tables_store(
            tables_remove(t, id),
            id,
            toc_url,
            title,
        ).0[k].contains(id),
        opt_norm(title) matches Some(k) ==> tables_store(
            tables_remove(t, id),
            id,
            toc_url,
            title,
        ).1[k].contains(id),
{
    lemma_remove_keeps_consistent(t, id);
    let r = tables_remove(t, id);
    assert forall|k: Seq<char>| #[trigger] r.0.contains_key(k) implies !r.0[k].contains(id) by {
        if r.0[k].contains(id) {
            let j = choose|j: int| 0 <= j < r.0[k].len() && r.0[k][j] == id;
            assert(r.2.contains_key(r.0[k][j]));
        }
    }
    assert forall|k: Seq<char>| #[trigger] r.1.contains_key(k) implies !r.1[k].contains(id) by {
        if r.1[k].contains(id) {
            let j = choose|j: int| 0 <= j < r.1[k].len() && r.1[k][j] == id;
            assert(r.2.contains_key(r.1[k][j]));
        }
    }
    lemma_store_keeps_consistent(r, id, toc_url, title);
    let s = tables_store(r, id, toc_url, title);
    assert(s.2.contains_key(id) && s.2[id] == (toc_url, title));
    if opt_norm(toc_url) is Some {
        assert(field_key(s.2[id], true) is Some);
    }
    if opt_norm(title) is Some {
        assert(field_key(s.2[id], false) is Some);
    }
}

proof fn lemma_rebuilt_entries(order: Seq<i64>, db: Map<i64, NovelRecord>)
    ensures
        forall|x: i64| #[trigger] rebuilt(order, db).2.contains_key(x) ==> order.contains(x),
    decreases order.len(),
{
    if order.len() > 0 {
        let w = order.drop_last();
        lemma_rebuilt_entries(w, db);
        assert forall|x: i64| #[trigger] rebuilt(order, db).2.contains_key(x) implies order.contains(x) by {
            if x == order.last() {
                assert(order[order.len() - 1] == x);
            } else {
                assert(rebuilt(w, db).2.contains_key(x));
                let j = choose|j: int| 0 <= j < w.len() && w[j] == x;
                assert(order[j] == x);
            }
        }
    }
}

/// An index rebuilt from a database, in increasing id order, agrees with
/// its entries.
pub proof fn lemma_rebuilt_consistent(order: Seq<i64>, db: Map<i64, NovelRecord>)
    requires
        forall|i: int, j: int| 0 <= i < j < order.len() ==> order[i] < order[j],
    ensures
        consistent(rebuilt(order, db)),
    decreases order.len(),
{
    if order.len() == 0 {
        assert(consistent(empty_tables()));
    } else {
        let w = order.drop_last();
        lemma_rebuilt_consistent(w, db);
        lemma_rebuilt_entries(w, db);
        assert(!rebuilt(w, db).2.contains_key(order.last())) by {
            if rebuilt(w, db).2.contains_key(order.last()) {
                let j = choose|j: int| 0 <= j < w.len() && w[j] == order.last();
                assert(order[j] < order[order.len() - 1]);
            }
        }
        let r = db[order.last()];
        lemma_store_keeps_consistent(rebuilt(w, db), order.last(), Some(r.toc_url@), Some(r.title@));
    }
}

/// The URL (`toc`) or the title of a record, as the index files it.
pub open spec fn indexed_text(r: NovelRecord, toc: bool) -> Seq<char> {
    if toc {
        r.toc_url@
    } else {
        r.title@
    }
}

/// The URL index (`toc`) or the title index of `t`.
pub open spec fn index_of_tables(t: Tables, toc: bool) -> Map<Seq<char>, Seq<i64>> {
    if toc {
        t.0
    } else {
        t.1
    }
}

proof fn lemma_rebuilt_ids(order: Seq<i64>, db: Map<i64, NovelRecord>, k: Seq<char>, toc: bool, i: int)
    requires
        forall|a: int, b: int| 0 <= a < b < order.len() ==> order[a] < order[b],
        0 <= i <= order.len(),
    ensures
        ({
            let s = ids_of(index_of_tables(rebuilt(order.take(i), db), toc), k);
            &&& forall|a: int, b: int| 0 <= a < b < s.len() ==> #[trigger] s[a] < #[trigger] s[b]
            &&& forall|a: int|
                0 <= a < s.len() ==> exists|j: int|
                    0 <= j < i && #[trigger] order[j] == #[trigger] s[a] && norm_text(
                        indexed_text(db[order[j]], toc),
                    ) == Some(k)
            &&& forall|j: int|
                0 <= j < i && norm_text(indexed_text(db[order[j]], toc)) == Some(k) ==> s.contains(
                    order[j],
                )
        }),
    decreases i,
{
    if i > 0 {
        lemma_rebuilt_ids(order, db, k, toc, i - 1);
        let pre = order.take(i - 1);
        assert(order.take(i).drop_last() =~= pre);
        assert(order.take(i).last() == order[i - 1]);
        let x = order[i - 1];
        let prev = ids_of(index_of_tables(rebuilt(pre, db), toc), k);
        let s = ids_of(index_of_tables(rebuilt(order.take(i), db), toc), k);
        assert forall|a: int| 0 <= a < prev.len() implies prev[a] < x by {
            let j = choose|j: int|
                0 <= j < i - 1 && order[j] == prev[a] && norm_text(indexed_text(db[order[j]], toc))
                    == Some(k);
        }
        if norm_text(indexed_text(db[x], toc)) == Some(k) {
            assert(!prev.contains(x));
            assert(s =~= prev.push(x));
            assert forall|a: int| 0 <= a < s.len() implies exists|j: int|
                0 <= j < i && #[trigger] order[j] == #[trigger] s[a] && norm_text(
                    indexed_text(db[order[j]], toc),
                ) == Some(k) by {
                if a == prev.len() {
                    assert(order[i - 1] == s[a]);
                } else {
                    assert(s[a] == prev[a]);
                }
            }
            assert forall|j: int|
                0 <= j < i && norm_text(indexed_text(db[order[j]], toc)) == Some(k) implies s.contains(
                order[j],
            ) by {
                if j == i - 1 {
                    assert(s[prev.len() as int] == x);
                } else {
                    let a = choose|a: int| 0 <= a < prev.len() && prev[a] == order[j];
                    assert(s[a] == prev[a]);
                }
            }
        } else {
            assert(s =~= prev);
        }
    }
}

/// Rebuilding the index from the novels of `db` in id order files every URL
/// (`toc`) or title so that looking it up gives the least id of the novels
/// that have it, once normalized, and nothing when none has it.
pub proof fn lemma_rebuilt_lookup(order: Seq<i64>, db: Map<i64, NovelRecord>, u: Seq<char>, toc: bool)
    requires
        in_id_order(order, db),
    ensures
        match lookup_id(index_of_tables(rebuilt(order, db), toc), u) {
            Some(x) => {
                &&& db.contains_key(x)
                &&& norm_text(u) is Some
                &&& norm_text(indexed_text(db[x], toc)) == norm_text(u)
                &&& forall|y: i64|
                    db.contains_key(y) && norm_text(indexed_text(db[y], toc)) == norm_text(u) ==> x <= y
            },
            None => forall|y: i64|
                db.contains_key(y) ==> norm_text(indexed_text(db[y], toc)) != norm_text(u)
                    || norm_text(u) is None,
        },
{
    if let Some(k) = norm_text(u) {
        let n = order.len() as int;
        lemma_rebuilt_ids(order, db, k, toc, n);
        assert(order.take(n) =~= order);
        let s = ids_of(index_of_tables(rebuilt(order, db), toc), k);
        if s.len() > 0 {
            let j0 = choose|j: int|
                0 <= j < n && order[j] == s[0] && norm_text(indexed_text(db[order[j]], toc)) == Some(k);
            assert(order.contains(s[0]));
            assert forall|y: i64|
                db.contains_key(y) && norm_text(indexed_text(db[y], toc)) == norm_text(u) implies s[0] <= y by {
                assert(order.contains(y));
                let j = choose|j: int| 0 <= j < order.len() && order[j] == y;
                assert(s.contains(order[j]));
                let a = choose|a: int| 0 <= a < s.len() && s[a] == order[j];
                if a > 0 {
                    assert(s[0] < s[a]);
                }
            }
        } else {
            assert forall|y: i64| db.contains_key(y) implies norm_text(indexed_text(db[y], toc)) != norm_text(u) by {
                if norm_text(indexed_text(db[y], toc)) == norm_text(u) {
                    assert(order.contains(y));
                    let j = choose|j: int| 0 <= j < order.len() && order[j] == y;
                    assert(s.contains(order[j]));
                }
            }
        }
    }
}

proof fn lemma_only_id_after_store(
    index: Map<Seq<char>, Seq<i64>>,
    old_key: Option<Seq<char>>,
    k: Seq<char>,
    id: i64,
)
    requires
        forall|x: i64| #[trigger] ids_of(index, k).contains(x) ==> x == id,
    ensures
        first_id(ids_of(add_id(index_without(index, old_key, id), k, id), k)) == Some(id),
{
    let removed = index_without(index, old_key, id);
    assert forall|x: i64| #[trigger] ids_of(removed, k).contains(x) implies x == id by {
        match old_key {
            Some(ok) => {
                if ok == k && index.contains_key(k) {
                    lemma_without_id(index[k], id);
                    assert(ids_of(index, k).contains(x));
                } else {
                    assert(ids_of(removed, k) == ids_of(index, k));
                    assert(ids_of(index, k).contains(x));
                }
            },
            None => {
                assert(removed == index);
                assert(ids_of(index, k).contains(x));
            },
        }
    }
    let l = ids_of(removed, k);
    let l2 = ids_of(add_id(removed, k, id), k);
    if l.contains(id) {
        assert(l2 == l);
        assert(l.contains(l[0]));
    } else {
        assert(l2 == l.push(id));
        if l.len() > 0 {
            assert(l.contains(l[0]));
        }
    }
}

/// Filing novel `id` under a URL and a title that no other novel is filed
/// under makes looking each of them up give `id`.
pub proof fn lemma_upsert_finds(t: Tables, id: i64, url: Seq<char>, title: Seq<char>)
    requires
        norm_text(url) is Some,
        norm_text(title) is Some,
        forall|x: i64| #[trigger] ids_of(t.0, norm_text(url)->0).contains(x) ==> x == id,
        forall|x: i64| #[trigger] ids_of(t.1, norm_text(title)->0).contains(x) ==> x == id,
    ensures
        lookup_id(tables_store(tables_remove(t, id), id, Some(url), Some(title)).0, url) == Some(id),
        lookup_id(tables_store(tables_remove(t, id), id, Some(url), Some(title)).1, title) == Some(
            id,
        ),
{
    let old_toc = if t.2.contains_key(id) {
        opt_norm(t.2[id].0)
    } else {
        None
    };
    let old_title = if t.2.contains_key(id) {
        opt_norm(t.2[id].1)
    } else {
        None
    };
    lemma_only_id_after_store(t.0, old_toc, norm_text(url)->0, id);
    lemma_only_id_after_store(t.1, old_title, norm_text(title)->0, id);
    if !t.2.contains_key(id) {
        assert(index_without(t.0, None, id) == t.0);
        assert(index_without(t.1, None, id) == t.1);
    }
}

proof fn lemma_without_keeps_first(s: Seq<i64>, id: i64)
    requires
        s.len() > 0,
        s[0] != id,
    ensures
        without_id(s, id).len() > 0,
        without_id(s, id)[0] == s[0],
    decreases s.len(),
{
    if s.len() > 1 {
        let w = s.drop_last();
        assert(w[0] == s[0]);
        lemma_without_keeps_first(w, id);
    } else {
        assert(s.last() == s[0]);
        assert(without_id(s.drop_last(), id).len() == 0);
        assert(without_id(s, id) == without_id(s.drop_last(), id).push(s[0]));
    }
}

proof fn lemma_remove_id_lookup(index: Map<Seq<char>, Seq<i64>>, key: Option<Seq<char>>, id: i64, text: Seq<char>)
    requires
        lookup_id(index, text) != Some(id),
    ensures
        lookup_id(index_without(index, key, id), text) == lookup_id(index, text),
{
    match (key, norm_text(text)) {
        (Some(k), Some(n)) => {
            if k == n && index.contains_key(k) {
                let l = index[k];
                if l.len() > 0 {
                    lemma_without_keeps_first(l, id);
                } else {
                    lemma_without_id(l, id);
                    if without_id(l, id).len() > 0 {
                        assert(without_id(l, id).contains(without_id(l, id)[0]));
                    }
                }
            } else if index.contains_key(k) {
                assert(ids_of(index_without(index, key, id), n) == ids_of(index, n));
            }
        },
        _ => {},
    }
}

/// Deleting novel `id` leaves every lookup that did not give `id` as it
/// was; where each index agrees with the entries, no lookup gives `id`
/// afterwards.
pub proof fn lemma_delete_lookup(t: Tables, id: i64, text: Seq<char>)
    ensures
        lookup_id(t.0, text) != Some(id) ==> lookup_id(tables_remove(t, id).0, text) == lookup_id(
            t.0,
            text,
        ),
        lookup_id(t.1, text) != Some(id) ==> lookup_id(tables_remove(t, id).1, text) == lookup_id(
            t.1,
            text,
        ),
        consistent(t) ==> lookup_id(tables_remove(t, id).0, text) != Some(id) && lookup_id(
            tables_remove(t, id).1,
            text,
        ) != Some(id),
{
    if t.2.contains_key(id) {
        let m = t.2[id];
        if lookup_id(t.0, text) != Some(id) {
            lemma_remove_id_lookup(t.0, opt_norm(m.0), id, text);
        }
        if lookup_id(t.1, text) != Some(id) {
            lemma_remove_id_lookup(t.1, opt_norm(m.1), id, text);
        }
    }
    if consistent(t) {
        lemma_upsert_delete_keep_consistent(t, id, None, None);
        let r = tables_remove(t, id);
        if let Some(n) = norm_text(text) {
            if r.0.contains_key(n) {
                assert(!r.0[n].contains(id));
                if r.0[n].len() > 0 {
                    assert(r.0[n].contains(r.0[n][0]));
                }
            }
            if r.1.contains_key(n) {
                assert(!r.1[n].contains(id));
                if r.1[n].len() > 0 {
                    assert(r.1[n].contains(r.1[n][0]));
                }
            }
        }
    }
}

proof fn lemma_id_order_unique(a: Seq<i64>, b: Seq<i64>, db: Map<i64, NovelRecord>)
    requires
        in_id_order(a, db),
        in_id_order(b, db),
    ensures
        a == b,
    decreases a.len() + b.len(),
{
    if a.len() == 0 {
        if b.len() > 0 {
            assert(b.contains(b[0]));
            assert(db.contains_key(b[0]));
            assert(a.contains(b[0]));
        }
        assert(a =~= b);
    } else if b.len() == 0 {
        assert(a.contains(a[0]));
        assert(db.contains_key(a[0]));
        assert(b.contains(a[0]));
    } else {
        let x = a.last();
        let y = b.last();
        assert(a.contains(x));
        assert(b.contains(y));
        assert(db.contains_key(x) && db.contains_key(y));
        assert(a.contains(y) && b.contains(x));
        let i = choose|i: int| 0 <= i < a.len() && a[i] == y;
        let j = choose|j: int| 0 <= j < b.len() && b[j] == x;
        if i < a.len() - 1 {
            assert(a[i] < a[a.len() - 1]);
        }
        if j < b.len() - 1 {
            assert(b[j] < b[b.len() - 1]);
        }
        assert(y <= x);
        assert(x <= y);
        let db2 = db.remove(x);
        let a2 = a.drop_last();
        let b2 = b.drop_last();
        assert forall|z: i64| #[trigger] a2.contains(z) <==> db2.contains_key(z) by {
            if a2.contains(z) {
                let k = choose|k: int| 0 <= k < a2.len() && a2[k] == z;
                assert(a[k] == z);
                assert(a.contains(z));
            }
            if db2.contains_key(z) {
                assert(a.contains(z));
                let k = choose|k: int| 0 <= k < a.len() && a[k] == z;
                assert(k != a.len() - 1);
                assert(a2[k] == z);
            }
        }
        assert forall|z: i64| #[trigger] b2.contains(z) <==> db2.contains_key(z) by {
            if b2.contains(z) {
                let k = choose|k: int| 0 <= k < b2.len() && b2[k] == z;
                assert(b[k] == z);
                assert(b.contains(z));
            }
            if db2.contains_key(z) {
                assert(b.contains(z));
                let k = choose|k: int| 0 <= k < b.len() && b[k] == z;
                assert(k != b.len() - 1);
                assert(b2[k] == z);
            }
        }
        lemma_id_order_unique(a2, b2, db2);
        assert(a =~= a2.push(x));
        assert(b =~= b2.push(y));
    }
}

/// Reconciling a store a second time with the same database changes
/// nothing it files: the first time leaves it with that database's
/// fingerprint.
pub proof fn lemma_reconcile_settles(
    s0: IndexStore,
    s1: IndexStore,
    s2: IndexStore,
    db: Map<i64, NovelRecord>,
)
    requires
        reconciled(s0, s1, db),
        reconciled(s1, s2, db),
    ensures
        s2.tables() == s1.tables(),
        s2.fingerprint_text() == s1.fingerprint_text(),
{
    let o1 = choose|order: Seq<i64>|
        #[trigger] in_id_order(order, db) && {
            let fp = hex_text(sha256(fingerprint_bytes(order, db)));
            if s0.fingerprint_text() == Some(fp) {
                &&& s1.tables() == s0.tables()
                &&& s1.fingerprint_text() == s0.fingerprint_text()
                &&& s1.pending_write() == s0.pending_write()
            } else {
                &&& s1.tables() == rebuilt(order, db)
                &&& s1.fingerprint_text() == Some(fp)
                &&& s1.pending_write()
            }
        };
    let o2 = choose|order: Seq<i64>|
        #[trigger] in_id_order(order, db) && {
            let fp = hex_text(sha256(fingerprint_bytes(order, db)));
            if s1.fingerprint_text() == Some(fp) {
                &&& s2.tables() == s1.tables()
                &&& s2.fingerprint_text() == s1.fingerprint_text()
                &&& s2.pending_write() == s1.pending_write()
            } else {
                &&& s2.tables() == rebuilt(order, db)
                &&& s2.fingerprint_text() == Some(fp)
                &&& s2.pending_write()
            }
        };
    lemma_id_order_unique(o1, o2, db);
}

/// Where each index agrees with the entries, upserting novel `id` leaves it
/// found under no URL or title but the ones it is filed under now.
pub proof fn lemma_upsert_drops_old_keys(
    t: Tables,
    id: i64,
    toc_url: Option<Seq<char>>,
    title: Option<Seq<char>>,
    text: Seq<char>,
)
    requires
        consistent(t),
    ensures
        norm_text(text) != opt_norm(toc_url) ==> lookup_id(
            tables_store(tables_remove(t, id), id, toc_url, title).0,
            text,
        ) != Some(id),
        norm_text(text) != opt_norm(title) ==> lookup_id(
            tables_store(tables_remove(t, id), id, toc_url, title).1,
            text,
        ) != Some(id),
{
    lemma_upsert_delete_keep_consistent(t, id, toc_url, title);
    let r = tables_remove(t, id);
    let s = tables_store(r, id, toc_url, title);
    if let Some(n) = norm_text(text) {
        if Some(n) != opt_norm(toc_url) {
            assert(ids_of(s.0, n) == ids_of(r.0, n));
            if r.0.contains_key(n) && r.0[n].len() > 0 {
                assert(r.0[n].contains(r.0[n][0]));
            }
        }
        if Some(n) != opt_norm(title) {
            assert(ids_of(s.1, n) == ids_of(r.1, n));
            if r.1.contains_key(n) && r.1[n].len() > 0 {
                assert(r.1[n].contains(r.1[n][0]));
            }
        }
    }
}

} // verus!

