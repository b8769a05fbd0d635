//! The library's inventory files: which directory each lives in, and the
//! cache of their contents that the library keeps in memory.
use vstd::prelude::*;
use crate::keyed::KeyedList;
use crate::text::{chars_eq, string_views};

verus! {

/// Where an inventory file lives: the library's own `.narou` directory, or
/// the user's `.narousetting` directory.
#[derive(Debug, Clone, Copy, PartialEq, Eq)]
pub enum InventoryScope {
    Local,
    Global,
}

/// The largest inventory file read, in bytes.
pub const MAX_YAML_SIZE_BYTES: u64 = 33554432;

/// The most files the cache holds.
pub const CACHE_MAX_SIZE: usize = 200;

/// How many files the cache keeps once it evicts.
pub const CACHE_TARGET_SIZE: usize = 160;

/// The files the cache never evicts.
pub open spec fn protected_names() -> Seq<Seq<char>> {
    seq!["local_setting"@, "database"@, "global_setting"@, "latest_convert"@, "database_index"@]
}

pub open spec fn is_protected(name: Seq<char>) -> bool {
    protected_names().contains(name)
}

/// Whether the cache never evicts `name`.
pub fn is_protected_name(name: &str) -> (r: bool)
    ensures
        r == is_protected(name@),
{
    let names = ["local_setting", "database", "global_setting", "latest_convert", "database_index"];
    let mut i: usize = 0;
    while i < 5
        invariant
            i <= 5,
            names@.map_values(|n: &str| n@) == protected_names(),
            forall|j: int| 0 <= j < i ==> protected_names()[j] != name@,
        decreases 5 - i,
    {
        if chars_eq(names[i], name) {
            assert(protected_names()[i as int] == name@);
            return true;
        }
        i = i + 1;
    }
    false
}

/// The number of names at the front of `names` that are never evicted.
pub open spec fn protected_run(names: Seq<Seq<char>>) -> nat
    decreases names.len(),
{
    if names.len() > 0 && is_protected(names[0]) {
        1 + protected_run(names.drop_first())
    } else {
        0
    }
}

proof fn lemma_run_after_rotation(names: Seq<Seq<char>>)
    requires
        exists|i: int| 0 <= i < names.len() && !is_protected(#[trigger] names[i]),
        names.len() > 0,
        is_protected(names[0]),
    ensures
        protected_run(names.drop_first().push(names[0])) < protected_run(names),
{
    let i = choose|i: int| 0 <= i < names.len() && !is_protected(#[trigger] names[i]);
    assert(i > 0);
    assert(names.drop_first()[i - 1] == names[i]);
    lemma_run_append(names.drop_first(), names[0]);
}

proof fn lemma_run_append(names: Seq<Seq<char>>, x: Seq<char>)
    requires
        exists|i: int| 0 <= i < names.len() && !is_protected(#[trigger] names[i]),
    ensures
        protected_run(names.push(x)) == protected_run(names),
    decreases names.len(),
{
    if is_protected(names[0]) {
        let i = choose|i: int| 0 <= i < names.len() && !is_protected(#[trigger] names[i]);
        assert(names.drop_first()[i - 1] == names[i]);
        assert(names.push(x).drop_first() =~= names.drop_first().push(x));
        lemma_run_append(names.drop_first(), x);
    }
}

/// More distinct names than protected ones hold an evictable one.
proof fn lemma_some_evictable(names: Seq<Seq<char>>)
    requires
        names.no_duplicates(),
        names.len() > 5,
    ensures
        exists|i: int| 0 <= i < names.len() && !is_protected(#[trigger] names[i]),
{
    if forall|i: int| 0 <= i < names.len() ==> is_protected(#[trigger] names[i]) {
        names.unique_seq_to_set();
        protected_names().lemma_cardinality_of_set();
        assert forall|x: Seq<char>| names.to_set().contains(x) implies protected_names().to_set().contains(x) by {
            let i = choose|i: int| 0 <= i < names.len() && names[i] == x;
            assert(is_protected(names[i]));
        }
        vstd::set_lib::lemma_len_subset(names.to_set(), protected_names().to_set());
    }
}

/// The contents of recently read inventory files, by name, with the order
/// in which they were last used.
pub struct InventoryCache {
    entries: KeyedList<String, String>,
    access_order: Vec<String>,
}

impl View for InventoryCache {
    type V = Map<Seq<char>, String>;

    closed spec fn view(&self) -> Map<Seq<char>, String> {
        self.entries@
    }
}

impl InventoryCache {
    /// Each cached name is in the use order once, the use order holds only
    /// cached names, and the cache holds at most [`CACHE_MAX_SIZE`] files.
    #[verifier::type_invariant]
    closed spec fn ordered(self) -> bool {
        &&& string_views(self.access_order@).no_duplicates()
        &&& forall|k: Seq<char>| #[trigger] self.entries@.contains_key(k) <==> string_views(self.access_order@).contains(k)
        &&& self.entries.entry_seq().len() == self.access_order@.len()
        &&& self.access_order@.len() <= CACHE_MAX_SIZE
    }

    /// The cached names, least recently used first.
    pub closed spec fn use_order(self) -> Seq<Seq<char>> {
        string_views(self.access_order@)
    }

    /// An empty cache.
    pub fn new() -> (r: Self)
        ensures
            r@ == Map::<Seq<char>, String>::empty(),
    {
        let r = InventoryCache { entries: KeyedList::new(), access_order: Vec::new() };
        assert(string_views(r.access_order@) =~= Seq::<Seq<char>>::empty());
        r
    }

    /// The number of cached files.
    pub fn len(&self) -> (r: usize)
        ensures
            r == self.use_order().len(),
            r <= CACHE_MAX_SIZE,
    {
        proof {
            use_type_invariant(self);
        }
        self.access_order.len()
    }
}

/// `names` without `x`.
pub open spec fn without(names: Seq<Seq<char>>, x: Seq<char>) -> Seq<Seq<char>>
    decreases names.len(),
{
    if names.len() == 0 {
        names
    } else {
        without(names.drop_last(), x) + if names.last() == x {
            Seq::<Seq<char>>::empty()
        } else {
            seq![names.last()]
        }
    }
}

proof fn lemma_without(names: Seq<Seq<char>>, x: Seq<char>)
    requires
        names.no_duplicates(),
    ensures
        without(names, x).no_duplicates(),
        forall|k: Seq<char>| #[trigger] without(names, x).contains(k) <==> names.contains(k) && k != x,
        without(names, x).len() == if names.contains(x) {
            names.len() - 1
        } else {
            names.len() as int
        },
    decreases names.len(),
{
    if names.len() > 0 {
        let rest = names.drop_last();
        assert forall|i: int, j: int| 0 <= i < j < rest.len() implies rest[i] != rest[j] by {
            assert(rest[i] == names[i] && rest[j] == names[j]);
        }
        lemma_without(rest, x);
        assert forall|k: Seq<char>| names.contains(k) <==> rest.contains(k) || names.last() == k by {
            if names.contains(k) {
                let i = choose|i: int| 0 <= i < names.len() && names[i] == k;
                if i < names.len() - 1 {
                    assert(rest[i] == k);
                }
            }
            if rest.contains(k) {
                let i = choose|i: int| 0 <= i < rest.len() && rest[i] == k;
                assert(names[i] == k);
            }
        }
        assert(!rest.contains(names.last())) by {
            if rest.contains(names.last()) {
                let i = choose|i: int| 0 <= i < rest.len() && rest[i] == names.last();
                assert(names[i] == names[names.len() - 1]);
            }
        }
        let w = without(rest, x);
        if names.last() != x {
            assert forall|k: Seq<char>| #[trigger] w.push(names.last()).contains(k) <==> w.contains(k)
                || k == names.last() by {
                if w.push(names.last()).contains(k) {
                    let i = choose|i: int| 0 <= i < w.len() + 1 && w.push(names.last())[i] == k;
                    if i < w.len() {
                        assert(w[i] == k);
                    }
                }
                if w.contains(k) {
                    let i = choose|i: int| 0 <= i < w.len() && w[i] == k;
                    assert(w.push(names.last())[i] == k);
                }
                if k == names.last() {
                    assert(w.push(names.last())[w.len() as int] == k);
                }
            }
            assert(w + seq![names.last()] =~= w.push(names.last()));
            assert forall|i: int, j: int| 0 <= i < j < w.len() + 1 implies w.push(names.last())[i]
                != w.push(names.last())[j] by {
                if j == w.len() {
                    assert(w.contains(w[i]));
                }
            }
        } else {
            assert(w + Seq::<Seq<char>>::empty() =~= w);
        }
    }
}

/// The use order with `name` moved to the end.
fn move_to_end(order: Vec<String>, name: &str) -> (r: Vec<String>)
    requires
        string_views(order@).no_duplicates(),
        string_views(order@).contains(name@),
    ensures
        string_views(r@) == without(string_views(order@), name@).push(name@),
        string_views(r@).no_duplicates(),
        r@.len() == order@.len(),
        forall|k: Seq<char>| #[trigger] string_views(r@).contains(k) <==> string_views(order@).contains(k),
{
    let ghost all = string_views(order@);
    let mut out: Vec<String> = Vec::new();
    let mut i: usize = 0;
    while i < order.len()
        invariant
            i <= order@.len(),
            all == string_views(order@),
            string_views(out@) == without(all.take(i as int), name@),
        decreases order@.len() - i,
    {
        let ghost before = string_views(out@);
        assert(all.take(i + 1).drop_last() =~= all.take(i as int));
        assert(all.take(i + 1).last() == order@[i as int]@);
        if !chars_eq(order[i].as_str(), name) {
            out.push(order[i].clone());
            assert(string_views(out@) =~= before + seq![order@[i as int]@]);
        } else {
            assert(string_views(out@) =~= before + Seq::<Seq<char>>::empty());
        }
        i = i + 1;
    }
    assert(all.take(all.len() as int) =~= all);
    proof {
        lemma_without(all, name@);
    }
    let ghost w = string_views(out@);
    out.push(name.to_owned());
    proof {
        assert(string_views(out@) =~= w.push(name@));
        assert forall|k: Seq<char>| #[trigger] string_views(out@).contains(k) <==> all.contains(k) by {
            if string_views(out@).contains(k) {
                let j = choose|j: int| 0 <= j < string_views(out@).len() && string_views(out@)[j] == k;
                if j < w.len() {
                    assert(w[j] == k);
                    assert(w.contains(k));
                }
            }
            if all.contains(k) {
                if k == name@ {
                    assert(string_views(out@)[w.len() as int] == k);
                } else {
                    assert(w.contains(k));
                    let j = choose|j: int| 0 <= j < w.len() && w[j] == k;
                    assert(string_views(out@)[j] == k);
                }
            }
        }
        assert forall|a: int, b: int| 0 <= a < b < string_views(out@).len() implies string_views(out@)[a]
            != string_views(out@)[b] by {
            if b == w.len() {
                assert(w.contains(w[a]));
            } else {
                assert(string_views(out@)[a] == w[a] && string_views(out@)[b] == w[b]);
            }
        }
    }
    out
}

impl InventoryCache {
    /// Marks `name` as the most recently used, when it is cached.
    pub fn touch(&mut self, name: &str)
        ensures
            final(self)@ == old(self)@,
            old(self)@.contains_key(name@) ==> final(self).use_order() == without(old(self).use_order(), name@).push(name@),
            !old(self)@.contains_key(name@) ==> final(self).use_order() == old(self).use_order(),
    {
        proof {
            use_type_invariant(&*self);
        }
        if !self.entries.contains_key(&name.to_owned()) {
            return;
        }
        let mut taken = InventoryCache::new();
        std::mem::swap(&mut taken, self);
        proof {
            use_type_invariant(&taken);
        }
        let InventoryCache { entries, access_order } = taken;
        let order = move_to_end(access_order, name);
        *self = InventoryCache { entries, access_order: order };
    }

    /// The contents cached for `name`, marking it as the most recently used.
    pub fn lookup(&mut self, name: &str) -> (r: Option<String>)
        ensures
            final(self)@ == old(self)@,
            match r {
                Some(data) => old(self)@.contains_key(name@) && data@ == old(self)@[name@]@,
                None => !old(self)@.contains_key(name@),
            },
    {
        let data = match self.entries.get(&name.to_owned()) {
            Some(d) => d.clone(),
            None => {
                return None;
            },
        };
        self.touch(name);
        Some(data)
    }
}

impl InventoryCache {
    /// When the cache is full, evicts the least recently used files that are
    /// not protected until [`CACHE_TARGET_SIZE`] remain (a protected file met
    /// on the way moves to the end of the use order).
    pub fn evict_if_needed(&mut self)
        ensures
            forall|k: Seq<char>| #[trigger] final(self)@.contains_key(k) ==> old(self)@.contains_key(k) && final(self)@[k] == old(self)@[k],
            forall|k: Seq<char>| #[trigger] old(self)@.contains_key(k) && is_protected(k) ==> final(self)@.contains_key(k),
            old(self).use_order().len() >= CACHE_MAX_SIZE ==> final(self).use_order().len() <= CACHE_TARGET_SIZE,
            old(self).use_order().len() < CACHE_MAX_SIZE ==> final(self)@ == old(self)@ && final(self).use_order() == old(self).use_order(),
    {
        proof {
            use_type_invariant(&*self);
        }
        let mut taken = InventoryCache::new();
        std::mem::swap(&mut taken, self);
        proof {
            use_type_invariant(&taken);
        }
        let ghost start = taken@;
        let InventoryCache { mut entries, access_order } = taken;
        let mut order = access_order;
        if entries.len() >= CACHE_MAX_SIZE {
            while entries.len() > CACHE_TARGET_SIZE
                invariant
                    string_views(order@).no_duplicates(),
                    forall|k: Seq<char>| #[trigger] entries@.contains_key(k) <==> string_views(order@).contains(k),
                    entries.entry_seq().len() == order@.len(),
                    order@.len() <= CACHE_MAX_SIZE,
                    forall|k: Seq<char>| #[trigger] entries@.contains_key(k) ==> start.contains_key(k) && entries@[k] == start[k],
                    forall|k: Seq<char>| #[trigger] start.contains_key(k) && is_protected(k) ==> entries@.contains_key(k),
                ensures
                    entries.entry_seq().len() <= CACHE_TARGET_SIZE,
                decreases order@.len(), protected_run(string_views(order@)),
            {
                let ghost names = string_views(order@);
                proof {
                    lemma_some_evictable(names);
                }
                if is_protected_name(order[0].as_str()) {
                    if order.len() <= 1 {
                        break;
                    }
                    let first = order.remove(0);
                    order.push(first);
                    proof {
                        lemma_run_after_rotation(names);
                        assert(string_views(order@) =~= names.drop_first().push(names[0]));
                        lemma_rotation_keeps(names);
                    }
                } else {
                    let first = order.remove(0);
                    proof {
                        assert(string_views(order@) =~= names.drop_first());
                        lemma_drop_first_keeps(names);
                        assert(first@ == names[0]);
                    }
                    entries.remove(&first);
                }
            }
        }
        *self = InventoryCache { entries, access_order: order };
    }

    /// Caches `data` as the contents of `name`, its most recently used file,
    /// evicting first when a new file would find the cache full.
    pub fn remember(&mut self, name: &str, data: String)
        ensures
            final(self)@.contains_key(name@) && final(self)@[name@] == data,
            forall|k: Seq<char>| #[trigger] final(self)@.contains_key(k) && k != name@ ==> old(self)@.contains_key(k) && final(self)@[k] == old(self)@[k],
            forall|k: Seq<char>| #[trigger] old(self)@.contains_key(k) && is_protected(k) ==> final(self)@.contains_key(k),
            final(self).use_order().last() == name@,
    {
        proof {
            use_type_invariant(&*self);
        }
        if !self.entries.contains_key(&name.to_owned()) && self.entries.len() >= CACHE_MAX_SIZE {
            self.evict_if_needed();
        }
        proof {
            use_type_invariant(&*self);
        }
        let ghost middle = self@;
        let mut taken = InventoryCache::new();
        std::mem::swap(&mut taken, self);
        proof {
            use_type_invariant(&taken);
        }
        let InventoryCache { mut entries, access_order } = taken;
        let ghost old_order = string_views(access_order@);
        let had = entries.contains_key(&name.to_owned());
        let mut order = access_order;
        if !had {
            order.push(name.to_owned());
            proof {
                assert(string_views(order@) =~= old_order.push(name@));
                lemma_push_new(old_order, name@);
            }
        }
        entries.insert(name.to_owned(), data);
        let order = move_to_end(order, name);
        *self = InventoryCache { entries, access_order: order };
    }
}

proof fn lemma_push_new(names: Seq<Seq<char>>, x: Seq<char>)
    requires
        names.no_duplicates(),
        !names.contains(x),
    ensures
        names.push(x).no_duplicates(),
        forall|k: Seq<char>| #[trigger] names.push(x).contains(k) <==> names.contains(k) || k == x,
{
    let r = names.push(x);
    assert forall|k: Seq<char>| #[trigger] r.contains(k) <==> names.contains(k) || k == x by {
        if r.contains(k) {
            let j = choose|j: int| 0 <= j < r.len() && r[j] == k;
            if j < names.len() {
                assert(names[j] == k);
            }
        }
        if names.contains(k) {
            let j = choose|j: int| 0 <= j < names.len() && names[j] == k;
            assert(r[j] == k);
        }
        if k == x {
            assert(r[names.len() as int] == k);
        }
    }
    assert forall|a: int, b: int| 0 <= a < b < r.len() implies r[a] != r[b] by {
        if b == names.len() {
            assert(names.contains(r[a]));
        }
    }
}

proof fn lemma_rotation_keeps(names: Seq<Seq<char>>)
    requires
        names.len() > 0,
        names.no_duplicates(),
    ensures
        names.drop_first().push(names[0]).no_duplicates(),
        forall|k: Seq<char>| #[trigger] names.drop_first().push(names[0]).contains(k) <==> names.contains(k),
{
    let r = names.drop_first().push(names[0]);
    assert forall|k: Seq<char>| #[trigger] r.contains(k) <==> names.contains(k) by {
        if r.contains(k) {
            let j = choose|j: int| 0 <= j < r.len() && r[j] == k;
            if j < r.len() - 1 {
                assert(names[j + 1] == k);
            } else {
                assert(names[0] == k);
            }
        }
        if names.contains(k) {
            let j = choose|j: int| 0 <= j < names.len() && names[j] == k;
            if j == 0 {
                assert(r[r.len() - 1] == k);
            } else {
                assert(r[j - 1] == k);
            }
        }
    }
    assert forall|a: int, b: int| 0 <= a < b < r.len() implies r[a] != r[b] by {
        if b == r.len() - 1 {
            assert(r[a] == names[a + 1] && r[b] == names[0]);
        } else {
            assert(r[a] == names[a + 1] && r[b] == names[b + 1]);
        }
    }
}

proof fn lemma_drop_first_keeps(names: Seq<Seq<char>>)
    requires
        names.len() > 0,
        names.no_duplicates(),
    ensures
        names.drop_first().no_duplicates(),
        forall|k: Seq<char>| #[trigger] names.drop_first().contains(k) <==> names.contains(k) && k != names[0],
{
    let r = names.drop_first();
    assert forall|k: Seq<char>| #[trigger] r.contains(k) <==> names.contains(k) && k != names[0] by {
        if r.contains(k) {
            let j = choose|j: int| 0 <= j < r.len() && r[j] == k;
            assert(names[j + 1] == k);
        }
        if names.contains(k) && k != names[0] {
            let j = choose|j: int| 0 <= j < names.len() && names[j] == k;
            assert(r[j - 1] == k);
        }
    }
    assert forall|a: int, b: int| 0 <= a < b < r.len() implies r[a] != r[b] by {
        assert(r[a] == names[a + 1] && r[b] == names[b + 1]);
    }
}

} // verus!
