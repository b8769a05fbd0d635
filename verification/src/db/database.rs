//! The library database held in memory: the novels by id, the next id to
//! hand out, and the lookup index. Reading and writing it are left to the
//! caller.
use std::cmp::Ordering;
use vstd::prelude::*;

use crate::db::index_store::{
    fingerprint_bytes, in_id_order, lookup_id, opt_str_text, rebuilt, tables_remove, tables_store, IndexStore,
};
use crate::hashing::{hex_text, sha256};
use crate::db::novel_record::{wide, widen_i64, NovelRecord};
use crate::db::sort::{
    compare_records_by_key, flipped, int_compare, int_order, lemma_record_order_flip,
    lemma_record_order_trans, record_order,
};
use crate::keyed::KeyedList;
use crate::text::{chars_eq, lowercase, to_lowercase};

verus! {

/// The novels by id, the next id to hand out, and the lookup index.
pub struct Database {
    data: KeyedList<i64, NovelRecord>,
    next_id: i64,
    index: IndexStore,
}

impl View for Database {
    type V = Map<i64, NovelRecord>;

    closed spec fn view(&self) -> Map<i64, NovelRecord> {
        self.data@
    }
}

impl Database {
    /// Each novel is filed under its own id, and every id is below the next
    /// one to hand out (unless that reached the largest id).
    #[verifier::type_invariant]
    closed spec fn filed(self) -> bool {
        forall|id: i64| #[trigger]
            self.data@.contains_key(id) ==> self.data@[id].id == id && (id < self.next_id
                || self.next_id == i64::MAX)
    }

    /// The next id to hand out.
    pub closed spec fn next(self) -> i64 {
        self.next_id
    }

    /// The lookup index's tables.
    pub closed spec fn index_tables(self) -> crate::db::index_store::Tables {
        self.index.tables()
    }

    /// The fingerprint of the database the index was built from.
    pub closed spec fn index_fingerprint(self) -> Option<Seq<char>> {
        self.index.fingerprint_text()
    }

    /// Whether the lookup index changed since it was last written.
    pub closed spec fn index_pending(self) -> bool {
        self.index.pending_write()
    }

    /// An empty database: no novels, ids from 0.
    pub fn new() -> (r: Self)
        ensures
            r@ == Map::<i64, NovelRecord>::empty(),
            r.next() == 0,
    {
        let r = Database { data: KeyedList::new(), next_id: 0, index: IndexStore::new() };
        r
    }

    /// The novel `id`.
    pub fn get(&self, id: i64) -> (r: Option<&NovelRecord>)
        ensures
            match r {
                Some(rec) => self@.contains_key(id) && *rec == self@[id],
                None => !self@.contains_key(id),
            },
    {
        self.data.get(&id)
    }

    /// Files `record` under its id (replacing the novel filed there) and in
    /// the index; the next id stays above it.
    pub fn insert(&mut self, record: NovelRecord)
        ensures
            final(self)@ == old(self)@.insert(record.id, record),
            final(self).next() == if record.id == i64::MAX {
                i64::MAX
            } else if old(self).next() > record.id + 1 {
                old(self).next()
            } else {
                (record.id + 1) as i64
            },
            final(self).index_tables() == tables_store(
                tables_remove(old(self).index_tables(), record.id),
                record.id,
                Some(record.toc_url@),
                Some(record.title@),
            ),
    {
        proof {
            use_type_invariant(&*self);
        }
        let id = record.id;
        let bumped: i64 = if id == i64::MAX {
            i64::MAX
        } else {
            id + 1
        };
        let next = if self.next_id > bumped {
            self.next_id
        } else {
            bumped
        };
        let mut index = IndexStore::new();
        std::mem::swap(&mut index, &mut self.index);
        index.upsert(id, Some(record.toc_url.as_str()), Some(record.title.as_str()));
        let mut data = KeyedList::new();
        std::mem::swap(&mut data, &mut self.data);
        data.insert(id, record);
        *self = Database { data, next_id: next, index };
    }

    /// Takes the novel `id` out of the database and the index.
    pub fn remove(&mut self, id: i64) -> (r: Option<NovelRecord>)
        ensures
            final(self)@ == old(self)@.remove(id),
            final(self).next() == old(self).next(),
            match r {
                Some(rec) => old(self)@.contains_key(id) && rec == old(self)@[id]
                    && final(self).index_tables() == tables_remove(old(self).index_tables(), id),
                None => !old(self)@.contains_key(id)
                    && final(self).index_tables() == old(self).index_tables(),
            },
    {
        proof {
            use_type_invariant(&*self);
        }
        let mut data = KeyedList::new();
        std::mem::swap(&mut data, &mut self.data);
        let removed = data.remove(&id);
        let mut index = IndexStore::new();
        std::mem::swap(&mut index, &mut self.index);
        if removed.is_some() {
            index.delete(id);
        }
        *self = Database { data, next_id: self.next_id, index };
        removed
    }

    /// The ids of the novels, each once.
    pub fn ids(&self) -> (r: Vec<i64>)
        ensures
            forall|i: int| 0 <= i < r@.len() ==> self@.contains_key(#[trigger] r@[i]),
            forall|id: i64| self@.contains_key(id) ==> #[trigger] r@.contains(id),
            r@.no_duplicates(),
    {
        let entries = self.data.entries();
        let mut ids: Vec<i64> = Vec::new();
        let mut i: usize = 0;
        while i < entries.len()
            invariant
                i <= entries@.len(),
                crate::keyed::unique_keys(entries@),
                self@ == crate::keyed::entries_map(entries@),
                ids@ == entries@.take(i as int).map_values(|e: (i64, NovelRecord)| e.0),
            decreases entries@.len() - i,
        {
            ids.push(entries[i].0);
            i = i + 1;
            assert(ids@ =~= entries@.take(i as int).map_values(|e: (i64, NovelRecord)| e.0));
        }
        proof {
            assert(entries@.take(entries@.len() as int) =~= entries@);
            crate::keyed::lemma_entries_keys(entries@);
            assert forall|i: int| 0 <= i < ids@.len() implies self@.contains_key(#[trigger] ids@[i]) by {
                assert(ids@[i] == entries@[i].0);
                crate::keyed::lemma_entry_in_map(entries@, i);
                assert(entries@[i].0@ == entries@[i].0);
            }
            assert forall|id: i64| self@.contains_key(id) implies #[trigger] ids@.contains(id) by {
                let j = crate::keyed::lemma_map_key_position(entries@, id);
                assert(ids@[j] == id);
            }
            assert forall|i: int, j: int| 0 <= i < ids@.len() && 0 <= j < ids@.len() && i != j implies ids@[i]
                != ids@[j] by {
                assert(ids@[i] == entries@[i].0 && ids@[j] == entries@[j].0);
            }
        }
        ids
    }

    /// The novels by id.
    pub fn all_records(&self) -> (r: &KeyedList<i64, NovelRecord>)
        ensures
            r@ == self@,
            forall|id: i64| #[trigger] r@.contains_key(id) ==> r@[id].id == id,
    {
        proof {
            use_type_invariant(self);
        }
        &self.data
    }

    /// Whether the novel `id` exists.
    pub fn novel_exists(&self, id: i64) -> (r: bool)
        ensures
            r == self@.contains_key(id),
    {
        self.data.contains_key(&id)
    }

    /// The novel the index files under a table of contents URL.
    pub fn get_by_toc_url(&self, toc_url: &str) -> (r: Option<&NovelRecord>)
        ensures
            match lookup_id(self.index_tables().0, toc_url@) {
                Some(id) => match r {
                    Some(rec) => self@.contains_key(id) && *rec == self@[id],
                    None => !self@.contains_key(id),
                },
                None => r is None,
            },
    {
        match self.index.lookup_by_toc_url(toc_url) {
            Some(id) => self.data.get(&id),
            None => None,
        }
    }

    /// The novel the index files under a title.
    pub fn get_by_title(&self, title: &str) -> (r: Option<&NovelRecord>)
        ensures
            match lookup_id(self.index_tables().1, title@) {
                Some(id) => match r {
                    Some(rec) => self@.contains_key(id) && *rec == self@[id],
                    None => !self@.contains_key(id),
                },
                None => r is None,
            },
    {
        match self.index.lookup_by_title(title) {
            Some(id) => self.data.get(&id),
            None => None,
        }
    }

    /// The novel with `title`: the one the index files under it, else the
    /// first novel whose title is the same once lower-cased.
    pub fn find_by_title(&self, title: &str) -> (r: Option<&NovelRecord>)
        ensures
            match lookup_id(self.index_tables().1, title@) {
                Some(id) => match r {
                    Some(rec) => self@.contains_key(id) && *rec == self@[id],
                    None => !self@.contains_key(id),
                },
                None => match r {
                    Some(rec) => self@.contains_key(rec.id) && *rec == self@[rec.id] && lowercase(
                        rec.title@,
                    ) == lowercase(title@),
                    None => forall|id: i64|
                        self@.contains_key(id) ==> lowercase(#[trigger] self@[id].title@) != lowercase(
                            title@,
                        ),
                },
            },
    {
        proof {
            use_type_invariant(self);
        }
        if let Some(id) = self.index.lookup_by_title(title) {
            return self.data.get(&id);
        }
        let lower = to_lowercase(title);
        let entries = self.data.entries();
        let mut i: usize = 0;
        while i < entries.len()
            invariant
                i <= entries@.len(),
                crate::keyed::unique_keys(entries@),
                self@ == crate::keyed::entries_map(entries@),
                lower@ == lowercase(title@),
                lookup_id(self.index_tables().1, title@) is None,
                forall|id: i64| #[trigger] self@.contains_key(id) ==> self@[id].id == id,
                forall|j: int| 0 <= j < i ==> lowercase((#[trigger] entries@[j]).1.title@) != lower@,
            decreases entries@.len() - i,
        {
            let candidate = to_lowercase(entries[i].1.title.as_str());
            if chars_eq(candidate.as_str(), lower.as_str()) {
                proof {
                    crate::keyed::lemma_entry_in_map(entries@, i as int);
                }
                return Some(&entries[i].1);
            }
            i = i + 1;
        }
        proof {
            assert forall|id: i64| self@.contains_key(id) implies lowercase(
                #[trigger] self@[id].title@,
            ) != lowercase(title@) by {
                let j = crate::keyed::lemma_map_key_position(entries@, id);
                assert(lowercase(entries@[j].1.title@) != lower@);
            }
        }
        None
    }

    /// The lookup index.
    pub fn index(&self) -> (r: &IndexStore)
        ensures
            r.tables() == self.index_tables(),
            r.fingerprint_text() == self.index_fingerprint(),
            r.pending_write() == self.index_pending(),
    {
        &self.index
    }

    /// Uses `index` (as read back from its file) as the lookup index.
    pub fn set_index(&mut self, index: IndexStore)
        ensures
            final(self)@ == old(self)@,
            final(self).next() == old(self).next(),
            final(self).index_tables() == index.tables(),
            final(self).index_fingerprint() == index.fingerprint_text(),
    {
        proof {
            use_type_invariant(&*self);
        }
        let mut data = KeyedList::new();
        std::mem::swap(&mut data, &mut self.data);
        *self = Database { data, next_id: self.next_id, index };
    }

    /// Marks the lookup index as written.
    pub fn mark_index_written(&mut self)
        ensures
            !final(self).index_pending(),
            final(self)@ == old(self)@,
            final(self).next() == old(self).next(),
            final(self).index_tables() == old(self).index_tables(),
            final(self).index_fingerprint() == old(self).index_fingerprint(),
    {
        proof {
            use_type_invariant(&*self);
        }
        let mut index = IndexStore::new();
        std::mem::swap(&mut index, &mut self.index);
        index.mark_written();
        let mut data = KeyedList::new();
        std::mem::swap(&mut data, &mut self.data);
        *self = Database { data, next_id: self.next_id, index };
    }

    /// The next id, without handing it out.
    pub fn create_new_id(&self) -> (r: i64)
        ensures
            r == self.next(),
    {
        self.next_id
    }

    /// Hands out the next id: no novel has it (unless ids ran out).
    pub fn allocate_id(&mut self) -> (r: i64)
        ensures
            r == old(self).next(),
            final(self)@ == old(self)@,
            final(self).next() == if r == i64::MAX {
                i64::MAX
            } else {
                (r + 1) as i64
            },
            r < i64::MAX ==> !old(self)@.contains_key(r),
            final(self).index_tables() == old(self).index_tables(),
    {
        proof {
            use_type_invariant(&*self);
        }
        let id = self.next_id;
        if id < i64::MAX {
            self.next_id = id + 1;
        }
        id
    }
}

/// `r` filed under `id`.
pub open spec fn with_id(r: NovelRecord, id: i64) -> NovelRecord {
    NovelRecord { id, ..r }
}

/// The novels of a loaded listing, each filed under its key (an earlier
/// entry wins over a later one with the same key).
pub open spec fn loaded_map(loaded: Seq<(i64, NovelRecord)>) -> Map<i64, NovelRecord>
    decreases loaded.len(),
{
    if loaded.len() == 0 {
        Map::empty()
    } else {
        loaded_map(loaded.drop_first()).insert(loaded[0].0, with_id(loaded[0].1, loaded[0].0))
    }
}

/// The largest key of a loaded listing.
pub open spec fn max_key(loaded: Seq<(i64, NovelRecord)>) -> Option<i64>
    decreases loaded.len(),
{
    if loaded.len() == 0 {
        None
    } else {
        match max_key(loaded.drop_first()) {
            Some(m) => if m > loaded[0].0 {
                Some(m)
            } else {
                Some(loaded[0].0)
            },
            None => Some(loaded[0].0),
        }
    }
}

/// The next id once `loaded` is in: above every id, and never lower than
/// before.
pub open spec fn next_after(next: i64, loaded: Seq<(i64, NovelRecord)>) -> i64 {
    match max_key(loaded) {
        Some(m) => {
            let bumped = if m == i64::MAX {
                i64::MAX
            } else {
                (m + 1) as i64
            };
            if next > bumped {
                next
            } else {
                bumped
            }
        },
        None => next,
    }
}

proof fn lemma_max_key_bounds(loaded: Seq<(i64, NovelRecord)>)
    ensures
        forall|k: i64| #[trigger] loaded_map(loaded).contains_key(k) ==> (max_key(loaded) matches Some(m) && k <= m),
        max_key(loaded) is None <==> loaded.len() == 0,
    decreases loaded.len(),
{
    if loaded.len() > 0 {
        lemma_max_key_bounds(loaded.drop_first());
        assert forall|k: i64| #[trigger] loaded_map(loaded).contains_key(k) implies (max_key(
            loaded,
        ) matches Some(m) && k <= m) by {
            if k != loaded[0].0 {
                assert(loaded_map(loaded.drop_first()).contains_key(k));
            }
        }
    }
}

impl Database {
    /// Replaces the novels with a loaded listing (each filed under its key,
    /// its id set to it), keeps the next id above them all, and brings the
    /// index up to date with them.
    pub fn refresh_from(&mut self, loaded: Vec<(i64, NovelRecord)>)
        ensures
            final(self)@ == loaded_map(loaded@),
            final(self).next() == next_after(old(self).next(), loaded@),
            exists|order: Seq<i64>|
                #[trigger] in_id_order(order, final(self)@) && {
                    let fp = hex_text(sha256(fingerprint_bytes(order, final(self)@)));
                    if old(self).index_fingerprint() == Some(fp) {
                        final(self).index_tables() == old(self).index_tables()
                    } else {
                        final(self).index_tables() == rebuilt(order, final(self)@)
                    }
                },
    {
        proof {
            use_type_invariant(&*self);
        }
        let ghost all = loaded@;
        let mut rest = loaded;
        let mut data: KeyedList<i64, NovelRecord> = KeyedList::new();
        let mut top: Option<i64> = None;
        assert(all.subrange(all.len() as int, all.len() as int) =~= Seq::<(i64, NovelRecord)>::empty());
        while rest.len() > 0
            invariant
                rest@.len() <= all.len(),
                rest@ == all.subrange(0, rest@.len() as int),
                data@ == loaded_map(all.subrange(rest@.len() as int, all.len() as int)),
                top == max_key(all.subrange(rest@.len() as int, all.len() as int)),
            decreases rest@.len(),
        {
            let ghost n = rest@.len();
            let (id, mut record) = rest.pop().unwrap();
            record.id = id;
            data.insert(id, record);
            top = match top {
                Some(m) => if m > id {
                    Some(m)
                } else {
                    Some(id)
                },
                None => Some(id),
            };
            proof {
                let tail = all.subrange(n - 1, all.len() as int);
                assert(tail.drop_first() =~= all.subrange(n as int, all.len() as int));
                assert(tail[0] == all[n - 1]);
            }
        }
        assert(all.subrange(0, all.len() as int) =~= all);
        proof {
            lemma_max_key_bounds(all);
        }
        let next = match top {
            Some(m) => {
                let bumped: i64 = if m == i64::MAX {
                    i64::MAX
                } else {
                    m + 1
                };
                if self.next_id > bumped {
                    self.next_id
                } else {
                    bumped
                }
            },
            None => self.next_id,
        };
        let ghost old_fp = self.index.fingerprint_text();
        let ghost old_tables = self.index.tables();
        let mut index = IndexStore::new();
        std::mem::swap(&mut index, &mut self.index);
        assert(index.fingerprint_text() == old_fp && index.tables() == old_tables);
        index.reconcile(&data);
        proof {
            lemma_loaded_map_filed(all);
        }
        let ghost order = choose|order: Seq<i64>|
                #[trigger] in_id_order(order, data@) && {
                    let fp = hex_text(sha256(fingerprint_bytes(order, data@)));
                    if old_fp == Some(fp) {
                        index.tables() == old_tables
                    } else {
                        index.tables() == rebuilt(order, data@)
                    }
                };
        assert(in_id_order(order, data@));
        *self = Database { data, next_id: next, index };
        assert(self@ == data@);
        assert(in_id_order(order, self@));
        assert({
            let fp = hex_text(sha256(fingerprint_bytes(order, self@)));
            if old(self).index_fingerprint() == Some(fp) {
                self.index_tables() == old(self).index_tables()
            } else {
                self.index_tables() == rebuilt(order, self@)
            }
        });
    }
}

proof fn lemma_loaded_map_filed(loaded: Seq<(i64, NovelRecord)>)
    ensures
        forall|k: i64| #[trigger] loaded_map(loaded).contains_key(k) ==> loaded_map(loaded)[k].id == k,
    decreases loaded.len(),
{
    if loaded.len() > 0 {
        lemma_loaded_map_filed(loaded.drop_first());
    }
}

/// The order of a listing: by the key, then by id; the other way round when
/// `reverse`.
pub open spec fn listing_order(a: NovelRecord, b: NovelRecord, key: Seq<char>, reverse: bool) -> Ordering {
    let o = match record_order(a, b, key) {
        Ordering::Equal => int_order(wide(a.id), wide(b.id)),
        other => other,
    };
    if reverse {
        flipped(o)
    } else {
        o
    }
}

proof fn lemma_listing_order_flip(a: NovelRecord, b: NovelRecord, key: Seq<char>, reverse: bool)
    ensures
        listing_order(b, a, key, reverse) == flipped(listing_order(a, b, key, reverse)),
{
    lemma_record_order_flip(a, b, key);
}

fn listing_compare(a: &NovelRecord, b: &NovelRecord, key: &str, reverse: bool) -> (o: Ordering)
    ensures
        o == listing_order(*a, *b, key@, reverse),
{
    let by_key = compare_records_by_key(a, b, key);
    let o = match by_key {
        Ordering::Equal => int_compare(widen_i64(a.id), widen_i64(b.id)),
        other => other,
    };
    if reverse {
        match o {
            Ordering::Less => Ordering::Greater,
            Ordering::Greater => Ordering::Less,
            Ordering::Equal => Ordering::Equal,
        }
    } else {
        o
    }
}

/// Whether `a` comes after `b` in the listing order.
pub open spec fn after_in_listing(a: NovelRecord, b: NovelRecord, key: Seq<char>, reverse: bool) -> bool {
    listing_order(a, b, key, reverse) is Greater
}

proof fn lemma_after_flip(a: NovelRecord, b: NovelRecord, key: Seq<char>, reverse: bool)
    ensures
        after_in_listing(a, b, key, reverse) ==> !after_in_listing(b, a, key, reverse),
{
    lemma_listing_order_flip(a, b, key, reverse);
}

fn comes_after(a: &NovelRecord, b: &NovelRecord, key: &str, reverse: bool) -> (r: bool)
    ensures
        r == after_in_listing(*a, *b, key@, reverse),
{
    let o = listing_compare(a, b, key, reverse);
    match o {
        Ordering::Greater => true,
        _ => false,
    }
}

/// Each record of `listing` comes no later than the next in the listing
/// order.
pub open spec fn listed_in_order(listing: Seq<&NovelRecord>, key: Seq<char>, reverse: bool) -> bool {
    forall|i: int|
        0 <= i < listing.len() - 1 ==> !after_in_listing(*listing[i], *#[trigger] listing[i + 1], key, reverse)
}

/// What [`Database::sort_by`] lists: every novel of `db` once, in the
/// listing order of `key` (reversed when `reverse`).
pub open spec fn lists_by(db: Database, l: Seq<&NovelRecord>, key: Seq<char>, reverse: bool) -> bool {
    &&& listed_in_order(l, key, reverse)
    &&& forall|i: int|
        0 <= i < l.len() ==> db@.contains_key((#[trigger] l[i]).id) && *l[i] == db@[l[i].id]
    &&& forall|id: i64| #[trigger]
        db@.contains_key(id) ==> exists|i: int| 0 <= i < l.len() && l[i].id == id
    &&& forall|i: int, j: int| 0 <= i < j < l.len() ==> (#[trigger] l[i]).id != (#[trigger] l[j]).id
}

proof fn lemma_listing_trans(a: NovelRecord, b: NovelRecord, c: NovelRecord, key: Seq<char>)
    requires
        !after_in_listing(a, b, key, false),
        !after_in_listing(b, c, key, false),
    ensures
        !after_in_listing(a, c, key, false),
{
    lemma_record_order_trans(a, b, c, key);
    lemma_record_order_flip(a, b, key);
    lemma_record_order_flip(b, c, key);
    lemma_record_order_flip(a, c, key);
}

/// The reversed listing order is the plain one read the other way.
proof fn lemma_reversed_listing(a: NovelRecord, b: NovelRecord, key: Seq<char>)
    ensures
        after_in_listing(a, b, key, true) == after_in_listing(b, a, key, false),
{
    lemma_listing_order_flip(a, b, key, false);
}

/// Two novels that come no later than each other have the same id.
proof fn lemma_listing_strict(a: NovelRecord, b: NovelRecord, key: Seq<char>)
    requires
        !after_in_listing(a, b, key, false),
        !after_in_listing(b, a, key, false),
    ensures
        a.id == b.id,
{
    lemma_listing_order_flip(a, b, key, false);
}

/// In an ordered listing, each novel comes no later than any after it.
proof fn lemma_listing_sorted(l: Seq<&NovelRecord>, key: Seq<char>, reverse: bool, i: int, j: int)
    requires
        listed_in_order(l, key, reverse),
        0 <= i <= j < l.len(),
    ensures
        !after_in_listing(*l[i], *l[j], key, reverse),
    decreases j - i,
{
    if i == j {
        lemma_listing_order_flip(*l[i], *l[i], key, reverse);
    } else {
        lemma_listing_sorted(l, key, reverse, i, j - 1);
        assert(l[j] == l[(j - 1) + 1]);
        assert(!after_in_listing(*l[j - 1], *l[j], key, reverse));
        if reverse {
            lemma_reversed_listing(*l[i], *l[j - 1], key);
            lemma_reversed_listing(*l[j - 1], *l[j], key);
            lemma_reversed_listing(*l[i], *l[j], key);
            lemma_listing_trans(*l[j], *l[j - 1], *l[i], key);
        } else {
            lemma_listing_trans(*l[i], *l[j - 1], *l[j], key);
        }
    }
}

proof fn lemma_listing_tail(l: Seq<&NovelRecord>, key: Seq<char>, reverse: bool, from: int, to: int)
    requires
        listed_in_order(l, key, reverse),
        0 <= from <= to <= l.len(),
    ensures
        listed_in_order(l.subrange(from, to), key, reverse),
{
    let s = l.subrange(from, to);
    assert forall|i: int| 0 <= i < s.len() - 1 implies !after_in_listing(
        *s[i],
        *#[trigger] s[i + 1],
        key,
        reverse,
    ) by {
        assert(s[i] == l[from + i]);
        assert(s[i + 1] == l[(from + i) + 1]);
    }
}

/// Some novel of `l` has `id`.
spec fn has_id(l: Seq<&NovelRecord>, id: i64) -> bool {
    exists|j: int| 0 <= j < l.len() && (#[trigger] l[j]).id == id
}

/// No id occurs twice in `l`.
spec fn distinct_ids(l: Seq<&NovelRecord>) -> bool {
    forall|i: int, j: int| 0 <= i < j < l.len() ==> (#[trigger] l[i]).id != (#[trigger] l[j]).id
}

/// `a` and `b` hold novels of the same ids, one record per id.
spec fn same_novels(a: Seq<&NovelRecord>, b: Seq<&NovelRecord>) -> bool {
    &&& forall|i: int| 0 <= i < a.len() ==> has_id(b, (#[trigger] a[i]).id)
    &&& forall|j: int| 0 <= j < b.len() ==> has_id(a, (#[trigger] b[j]).id)
    &&& forall|i: int, j: int|
        0 <= i < a.len() && 0 <= j < b.len() && (#[trigger] a[i]).id == (#[trigger] b[j]).id ==> *a[i]
            == *b[j]
}

/// Dropping the first of `a` and the last of `b`, when they are the same
/// novel, keeps the two holding the same novels.
proof fn lemma_drop_ends(a: Seq<&NovelRecord>, b: Seq<&NovelRecord>)
    requires
        a.len() > 0,
        b.len() > 0,
        distinct_ids(a),
        distinct_ids(b),
        same_novels(a, b),
        a[0].id == b[b.len() - 1].id,
    ensures
        distinct_ids(a.subrange(1, a.len() as int)),
        distinct_ids(b.subrange(0, b.len() - 1)),
        same_novels(a.subrange(1, a.len() as int), b.subrange(0, b.len() - 1)),
{
    let a2 = a.subrange(1, a.len() as int);
    let b2 = b.subrange(0, b.len() - 1);
    let last = b.len() - 1;
    assert forall|i: int| 0 <= i < a2.len() implies has_id(b2, (#[trigger] a2[i]).id) by {
        assert(a2[i] == a[i + 1]);
        assert(has_id(b, a[i + 1].id));
        let j = choose|j: int| 0 <= j < b.len() && (#[trigger] b[j]).id == a[i + 1].id;
        assert(a[0].id != a[i + 1].id);
        assert(b2[j] == b[j]);
    }
    assert forall|j: int| 0 <= j < b2.len() implies has_id(a2, (#[trigger] b2[j]).id) by {
        assert(b2[j] == b[j]);
        assert(has_id(a, b[j].id));
        let i = choose|i: int| 0 <= i < a.len() && (#[trigger] a[i]).id == b[j].id;
        assert(b[j].id != b[last].id);
        assert(a2[i - 1] == a[i]);
    }
    assert forall|i: int, j: int| 0 <= i < a2.len() && 0 <= j < b2.len() && (#[trigger] a2[i]).id
        == (#[trigger] b2[j]).id implies *a2[i] == *b2[j] by {
        assert(a2[i] == a[i + 1]);
        assert(b2[j] == b[j]);
    }
    assert forall|i: int, j: int| 0 <= i < j < a2.len() implies (#[trigger] a2[i]).id != (
    #[trigger] a2[j]).id by {
        assert(a2[i] == a[i + 1]);
        assert(a2[j] == a[j + 1]);
    }
    assert forall|i: int, j: int| 0 <= i < j < b2.len() implies (#[trigger] b2[i]).id != (
    #[trigger] b2[j]).id by {
        assert(b2[i] == b[i]);
        assert(b2[j] == b[j]);
    }
}

/// An ordered listing and a reverse-ordered one of the same novels (each
/// once, one record per id) are each other read backwards.
proof fn lemma_opposite_listings(a: Seq<&NovelRecord>, b: Seq<&NovelRecord>, key: Seq<char>)
    requires
        listed_in_order(a, key, false),
        listed_in_order(b, key, true),
        distinct_ids(a),
        distinct_ids(b),
        same_novels(a, b),
    ensures
        b == a.reverse(),
    decreases a.len(),
{
    if a.len() == 0 {
        if b.len() > 0 {
            assert(has_id(a, b[0].id));
        }
        assert(b =~= a.reverse());
    } else {
        let n = a.len();
        assert(has_id(b, a[0].id));
        let m = choose|j: int| 0 <= j < b.len() && (#[trigger] b[j]).id == a[0].id;
        let last = b.len() - 1;
        assert(has_id(a, b[last].id));
        let k = choose|i: int| 0 <= i < a.len() && (#[trigger] a[i]).id == b[last].id;
        lemma_listing_sorted(a, key, false, 0, k);
        assert(*a[k] == *b[last]);
        lemma_listing_sorted(b, key, true, m, last);
        lemma_reversed_listing(*b[m], *b[last], key);
        assert(*a[0] == *b[m]);
        lemma_listing_strict(*a[0], *b[last], key);
        assert(a[0] == b[last]);
        lemma_drop_ends(a, b);
        let a2 = a.subrange(1, n as int);
        let b2 = b.subrange(0, last);
        lemma_listing_tail(a, key, false, 1, n as int);
        lemma_listing_tail(b, key, true, 0, last);
        lemma_opposite_listings(a2, b2, key);
        lemma_reverse_assembled(a, b);
    }
}

proof fn lemma_reverse_assembled(a: Seq<&NovelRecord>, b: Seq<&NovelRecord>)
    requires
        a.len() > 0,
        b.len() > 0,
        a[0] == b[b.len() - 1],
        b.subrange(0, b.len() - 1) == a.subrange(1, a.len() as int).reverse(),
    ensures
        b == a.reverse(),
{
    let a2 = a.subrange(1, a.len() as int);
    let b2 = b.subrange(0, b.len() - 1);
    assert(b2.len() == a2.len());
    assert forall|t: int| 0 <= t < b.len() implies b[t] == a.reverse()[t] by {
        if t < b.len() - 1 {
            assert(b[t] == b2[t]);
            assert(a2[a2.len() - 1 - t] == a[a.len() - 1 - t]);
        }
    }
    assert(b =~= a.reverse());
}

/// Sorting the other way round lists the same novels in the opposite
/// order: a listing of `db` by `key` with `reverse`, read backwards, is
/// the listing by `key` without it.
pub proof fn lemma_sort_by_reverse(
    db: Database,
    plain: Seq<&NovelRecord>,
    reversed: Seq<&NovelRecord>,
    key: Seq<char>,
)
    requires
        lists_by(db, plain, key, false),
        lists_by(db, reversed, key, true),
    ensures
        reversed == plain.reverse(),
{
    assert forall|i: int| 0 <= i < plain.len() implies has_id(reversed, (#[trigger] plain[i]).id) by {
        assert(db@.contains_key(plain[i].id));
    }
    assert forall|j: int| 0 <= j < reversed.len() implies has_id(plain, (#[trigger] reversed[j]).id) by {
        assert(db@.contains_key(reversed[j].id));
    }
    lemma_opposite_listings(plain, reversed, key);
}

/// `listing` holds, each once, the novels of ids `ids`.
pub open spec fn covers(listing: Seq<&NovelRecord>, ids: Seq<i64>) -> bool {
    &&& forall|k: int| 0 <= k < listing.len() ==> #[trigger] ids.contains(listing[k].id)
    &&& forall|m: int| #![trigger ids[m]] 0 <= m < ids.len() ==> exists|k: int| 0 <= k < listing.len() && (#[trigger] listing[k]).id == ids[m]
    &&& forall|k1: int, k2: int| 0 <= k1 < k2 < listing.len() ==> (#[trigger] listing[k1]).id != (#[trigger] listing[k2]).id
}

proof fn lemma_listing_insert(before: Seq<&NovelRecord>, j: int, x: &NovelRecord, key: Seq<char>, reverse: bool)
    requires
        listed_in_order(before, key, reverse),
        0 <= j <= before.len(),
        forall|k: int| 0 <= k < j ==> !after_in_listing(*#[trigger] before[k], *x, key, reverse),
        j < before.len() ==> !after_in_listing(*x, *before[j], key, reverse),
    ensures
        listed_in_order(before.insert(j, x), key, reverse),
{
    let after = before.insert(j, x);
    assert forall|k: int| 0 <= k < after.len() - 1 implies !after_in_listing(
        *after[k],
        *#[trigger] after[k + 1],
        key,
        reverse,
    ) by {
        if k < j - 1 {
            assert(after[k] == before[k] && after[k + 1] == before[k + 1]);
        } else if k == j - 1 {
            assert(after[k] == before[k] && after[k + 1] == x);
            assert(!after_in_listing(*before[k], *x, key, reverse));
        } else if k == j {
            assert(after[k] == x && after[k + 1] == before[j]);
        } else {
            assert(after[k] == before[k - 1] && after[k + 1] == before[k]);
            assert(before[k] == before[(k - 1) + 1]);
        }
    }
}

proof fn lemma_covers_insert(before: Seq<&NovelRecord>, j: int, x: &NovelRecord, ids: Seq<i64>)
    requires
        covers(before, ids),
        !ids.contains(x.id),
        0 <= j <= before.len(),
    ensures
        covers(before.insert(j, x), ids.push(x.id)),
{
    let after = before.insert(j, x);
    let more = ids.push(x.id);
    assert forall|k: int| 0 <= k < after.len() implies #[trigger] more.contains(after[k].id) by {
        if k < j {
            assert(after[k] == before[k]);
            assert(ids.contains(before[k].id));
            let m = choose|m: int| 0 <= m < ids.len() && ids[m] == before[k].id;
            assert(more[m] == ids[m]);
        } else if k == j {
            assert(more[ids.len() as int] == x.id);
        } else {
            assert(after[k] == before[k - 1]);
            assert(ids.contains(before[k - 1].id));
            let m = choose|m: int| 0 <= m < ids.len() && ids[m] == before[k - 1].id;
            assert(more[m] == ids[m]);
        }
    }
    assert forall|m: int| #![trigger more[m]] 0 <= m < more.len() implies exists|k: int| 0 <= k < after.len() && (#[trigger] after[k]).id == more[m] by {
        if m < ids.len() {
            let k0 = choose|k0: int| 0 <= k0 < before.len() && before[k0].id == ids[m];
            if k0 < j {
                assert(after[k0] == before[k0]);
            } else {
                assert(after[k0 + 1] == before[k0]);
            }
        } else {
            assert(after[j] == x);
        }
    }
    assert forall|k1: int, k2: int| 0 <= k1 < k2 < after.len() implies (#[trigger] after[k1]).id != (#[trigger] after[k2]).id by {
        if k1 != j && k2 != j {
            let a = if k1 < j { k1 } else { k1 - 1 };
            let b = if k2 < j { k2 } else { k2 - 1 };
            assert(after[k1] == before[a] && after[k2] == before[b]);
        } else if k1 == j {
            let b = k2 - 1;
            assert(after[k2] == before[b]);
            assert(ids.contains(before[b].id));
        } else {
            assert(after[k1] == before[k1]);
            assert(ids.contains(before[k1].id));
        }
    }
}

/// Inserts `x` after the records that do not come after it.
fn insert_in_listing<'a>(out: &mut Vec<&'a NovelRecord>, x: &'a NovelRecord, key: &str, reverse: bool)
    requires
        listed_in_order(old(out)@, key@, reverse),
    ensures
        listed_in_order(final(out)@, key@, reverse),
        exists|j: int| 0 <= j <= old(out)@.len() && final(out)@ == old(out)@.insert(j, x),
{
    let mut j: usize = 0;
    while j < out.len() && !comes_after(out[j], x, key, reverse)
        invariant
            j <= out@.len(),
            forall|k: int| 0 <= k < j ==> !after_in_listing(*#[trigger] out@[k], *x, key@, reverse),
        decreases out@.len() - j,
    {
        j = j + 1;
    }
    proof {
        if j < out@.len() {
            lemma_after_flip(*out@[j as int], *x, key@, reverse);
        }
        lemma_listing_insert(out@, j as int, x, key@, reverse);
    }
    let ghost before = out@;
    out.insert(j, x);
    assert(out@ == before.insert(j as int, x));
}

impl Database {
    /// The novels in the listing order of `key` (ids breaking ties), or the
    /// other way round when `reverse`: each novel once.
    pub fn sort_by(&self, key: &str, reverse: bool) -> (r: Vec<&NovelRecord>)
        ensures
            lists_by(*self, r@, key@, reverse),
            listed_in_order(r@, key@, reverse),
            forall|i: int| 0 <= i < r@.len() ==> self@.contains_key((#[trigger] r@[i]).id) && *r@[i] == self@[r@[i].id],
            forall|id: i64| #[trigger] self@.contains_key(id) ==> exists|i: int| 0 <= i < r@.len() && r@[i].id == id,
            forall|i: int, j: int| 0 <= i < j < r@.len() ==> (#[trigger] r@[i]).id != (#[trigger] r@[j]).id,
    {
        proof {
            use_type_invariant(self);
        }
        let entries = self.data.entries();
        let ghost keys = entries@.map_values(|e: (i64, NovelRecord)| e.0);
        let mut out: Vec<&NovelRecord> = Vec::new();
        let mut i: usize = 0;
        assert(covers(out@, keys.take(0)));
        while i < entries.len()
            invariant
                i <= entries@.len(),
                keys == entries@.map_values(|e: (i64, NovelRecord)| e.0),
                crate::keyed::unique_keys(entries@),
                self@ == crate::keyed::entries_map(entries@),
                forall|id: i64| #[trigger] self@.contains_key(id) ==> self@[id].id == id,
                listed_in_order(out@, key@, reverse),
                covers(out@, keys.take(i as int)),
                forall|k: int| 0 <= k < out@.len() ==> self@.contains_key((#[trigger] out@[k]).id) && *out@[k] == self@[out@[k].id],
            decreases entries@.len() - i,
        {
            let x = &entries[i].1;
            proof {
                crate::keyed::lemma_entry_in_map(entries@, i as int);
                assert(entries@[i as int].0@ == entries@[i as int].0);
                assert(keys.take(i + 1) =~= keys.take(i as int).push(x.id));
                if keys.take(i as int).contains(x.id) {
                    let m = choose|m: int| 0 <= m < i && keys.take(i as int)[m] == x.id;
                    assert(entries@[m].0@ == entries@[m].0);
                }
                lemma_covers_insert(out@, 0, x, keys.take(i as int));
            }
            let ghost before = out@;
            insert_in_listing(&mut out, x, key, reverse);
            proof {
                let j = choose|j: int| 0 <= j <= before.len() && out@ == before.insert(j, x);
                lemma_covers_insert(before, j, x, keys.take(i as int));
                assert forall|k: int| 0 <= k < out@.len() implies self@.contains_key((#[trigger] out@[k]).id)
                    && *out@[k] == self@[out@[k].id] by {
                    if k < j {
                        assert(out@[k] == before[k]);
                    } else if k > j {
                        assert(out@[k] == before[k - 1]);
                    }
                }
            }
            i = i + 1;
        }
        proof {
            assert(keys.take(entries@.len() as int) =~= keys);
            assert forall|id: i64| #[trigger] self@.contains_key(id) implies exists|k: int|
                0 <= k < out@.len() && out@[k].id == id by {
                let jj = crate::keyed::lemma_map_key_position(entries@, id);
                assert(entries@[jj].0@ == entries@[jj].0);
                assert(keys[jj] == id);
            }
        }
        out
    }
}

/// How many of `tags` are `t`.
pub open spec fn tag_hits(tags: Seq<String>, t: Seq<char>) -> nat
    decreases tags.len(),
{
    if tags.len() == 0 {
        0
    } else {
        tag_hits(tags.drop_last(), t) + if tags.last()@ == t {
            1nat
        } else {
            0nat
        }
    }
}

/// The ids of the novels of `entries` tagged `t`, in order, an id once for
/// each time its novel carries the tag.
pub open spec fn tagged_ids(entries: Seq<(i64, NovelRecord)>, t: Seq<char>) -> Seq<i64>
    decreases entries.len(),
{
    if entries.len() == 0 {
        Seq::empty()
    } else {
        tagged_ids(entries.drop_last(), t) + Seq::new(
            tag_hits(entries.last().1.tags@, t),
            |n: int| entries.last().0,
        )
    }
}

impl Database {
    /// The novels in the order they were filed.
    pub closed spec fn filing(self) -> Seq<(i64, NovelRecord)> {
        self.data.entry_seq()
    }

    /// For each tag, the ids of the novels that carry it (see
    /// [`tagged_ids`]).
    pub fn tag_index(&self) -> (r: KeyedList<String, Vec<i64>>)
        ensures
            forall|t: Seq<char>| #[trigger] r@.contains_key(t) <==> tagged_ids(self.filing(), t).len() > 0,
            forall|t: Seq<char>| #[trigger] r@.contains_key(t) ==> r@[t]@ == tagged_ids(self.filing(), t),
    {
        let entries = self.data.entries();
        let mut index: KeyedList<String, Vec<i64>> = KeyedList::new();
        let mut i: usize = 0;
        while i < entries.len()
            invariant
                i <= entries@.len(),
                entries@ == self.filing(),
                forall|t: Seq<char>| #[trigger] index@.contains_key(t) <==> tagged_ids(entries@.take(i as int), t).len() > 0,
                forall|t: Seq<char>| #[trigger] index@.contains_key(t) ==> index@[t]@ == tagged_ids(entries@.take(i as int), t),
            decreases entries@.len() - i,
        {
            let id = entries[i].0;
            let tags = &entries[i].1.tags;
            let ghost done = entries@.take(i as int);
            let mut k: usize = 0;
            while k < tags.len()
                invariant
                    k <= tags@.len(),
                    i < entries@.len(),
                    id == entries@[i as int].0,
                    *tags == entries@[i as int].1.tags,
                    done == entries@.take(i as int),
                    forall|t: Seq<char>| #[trigger] index@.contains_key(t) <==> tagged_ids(done, t).len()
                        + tag_hits(tags@.take(k as int), t) > 0,
                    forall|t: Seq<char>| #[trigger] index@.contains_key(t) ==> index@[t]@ == tagged_ids(done, t)
                        + Seq::new(tag_hits(tags@.take(k as int), t), |n: int| id),
                decreases tags@.len() - k,
            {
                let tag = tags[k].clone();
                let ghost tv = tag@;
                let ghost before = index@;
                proof {
                    assert(tags@.take(k + 1).drop_last() =~= tags@.take(k as int));
                    assert(tags@.take(k + 1).last() == tags@[k as int]);
                }
                match index.remove(&tag) {
                    Some(mut ids) => {
                        ids.push(id);
                        index.insert(tag, ids);
                    },
                    None => {
                        let mut ids: Vec<i64> = Vec::new();
                        ids.push(id);
                        index.insert(tag, ids);
                    },
                }
                proof {
                    assert forall|t: Seq<char>| #[trigger] index@.contains_key(t) ==> index@[t]@ == tagged_ids(
                        done,
                        t,
                    ) + Seq::new(tag_hits(tags@.take(k + 1), t), |n: int| id) by {
                        if t == tv {
                            if before.contains_key(t) {
                                assert(index@[t]@ =~= tagged_ids(done, t) + Seq::new(
                                    tag_hits(tags@.take(k + 1), t),
                                    |n: int| id,
                                ));
                            } else {
                                assert(tagged_ids(done, t).len() == 0);
                                assert(index@[t]@ =~= tagged_ids(done, t) + Seq::new(
                                    tag_hits(tags@.take(k + 1), t),
                                    |n: int| id,
                                ));
                            }
                        } else {
                            assert(Seq::new(tag_hits(tags@.take(k + 1), t), |n: int| id) =~= Seq::new(
                                tag_hits(tags@.take(k as int), t),
                                |n: int| id,
                            ));
                        }
                    }
                }
                k = k + 1;
            }
            proof {
                assert(tags@.take(tags@.len() as int) =~= tags@);
                assert(entries@.take(i + 1).drop_last() =~= done);
                assert(entries@.take(i + 1).last() == entries@[i as int]);
            }
            i = i + 1;
        }
        assert(entries@.take(entries@.len() as int) =~= entries@);
        index
    }
}

} // verus!
