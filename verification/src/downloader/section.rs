//! The cache of downloaded section elements.
use vstd::prelude::*;

use crate::downloader::types::{SectionElement, SectionElementView, MAX_SECTION_CACHE};
use crate::text::chars_eq;

verus! {

/// Section elements by section index, at most `MAX_SECTION_CACHE` of them.
pub struct SectionCache {
    entries: Vec<(String, SectionElement)>,
}

pub open spec fn entry_keys(entries: Seq<(String, SectionElement)>) -> Seq<Seq<char>> {
    entries.map_values(|e: (String, SectionElement)| e.0@)
}

impl SectionCache {
    /// Each index at most once, and no more than `MAX_SECTION_CACHE` entries.
    pub closed spec fn well_formed(self) -> bool {
        &&& self.entries@.len() <= MAX_SECTION_CACHE
        &&& forall|i: int, j: int|
            0 <= i < j < self.entries@.len() ==> self.entries@[i].0@ != self.entries@[j].0@
    }

    /// The cached elements by index.
    pub closed spec fn contents(self) -> Map<Seq<char>, SectionElementView> {
        Map::new(
            |k: Seq<char>| entry_keys(self.entries@).contains(k),
            |k: Seq<char>|
                self.entries@[entry_keys(self.entries@).index_of(k)].1@,
        )
    }

    pub closed spec fn size(self) -> nat {
        self.entries@.len()
    }

    proof fn lemma_index_of(self, i: int)
        requires
            self.well_formed(),
            0 <= i < self.entries@.len(),
        ensures
            entry_keys(self.entries@).contains(self.entries@[i].0@),
            entry_keys(self.entries@).index_of(self.entries@[i].0@) == i,
    {
        let keys = entry_keys(self.entries@);
        assert(keys[i] == self.entries@[i].0@);
        let k = keys.index_of(self.entries@[i].0@);
        if k != i {
            assert(keys[k] == keys[i]);
        }
    }

    proof fn lemma_bounded(self)
        requires
            self.well_formed(),
        ensures
            self.contents().dom().finite(),
            self.contents().dom().len() <= MAX_SECTION_CACHE,
    {
        let keys = entry_keys(self.entries@);
        assert(self.contents().dom() =~= keys.to_set());
        keys.lemma_cardinality_of_set();
        vstd::seq_lib::seq_to_set_is_finite(keys);
    }

    /// An empty cache.
    pub fn new() -> (r: Self)
        ensures
            r.well_formed(),
            r.contents() == Map::<Seq<char>, SectionElementView>::empty(),
    {
        let r = SectionCache { entries: Vec::new() };
        assert(r.contents() =~= Map::<Seq<char>, SectionElementView>::empty());
        r
    }

    fn position(&self, index: &str) -> (r: Option<usize>)
        requires
            self.well_formed(),
        ensures
            match r {
                Some(i) => i < self.entries@.len() && self.entries@[i as int].0@ == index@,
                None => !entry_keys(self.entries@).contains(index@),
            },
    {
        let mut i: usize = 0;
        while i < self.entries.len()
            invariant
                i <= self.entries@.len(),
                forall|j: int| 0 <= j < i ==> self.entries@[j].0@ != index@,
            decreases self.entries@.len() - i,
        {
            if chars_eq(self.entries[i].0.as_str(), index) {
                return Some(i);
            }
            i = i + 1;
        }
        assert forall|j: int| 0 <= j < self.entries@.len() implies #[trigger] entry_keys(
            self.entries@,
        )[j] != index@ by {}
        None
    }

    /// The element cached for section `index`.
    pub fn get(&self, index: &str) -> (r: Option<&SectionElement>)
        requires
            self.well_formed(),
        ensures
            match r {
                Some(e) => self.contents().contains_key(index@) && e@ == self.contents()[index@],
                None => !self.contents().contains_key(index@),
            },
    {
        match self.position(index) {
            Some(i) => {
                proof {
                    self.lemma_index_of(i as int);
                }
                Some(&self.entries[i].1)
            },
            None => None,
        }
    }

    /// Caches `element` for `index`. A full cache first drops one entry.
    pub fn insert(&mut self, index: String, element: SectionElement)
        requires
            old(self).well_formed(),
        ensures
            final(self).well_formed(),
            final(self).contents().contains_key(index@),
            final(self).contents()[index@] == element@,
            forall|k: Seq<char>|
                #[trigger] final(self).contents().contains_key(k) && k != index@ ==> old(
                    self,
                ).contents().contains_key(k) && final(self).contents()[k] == old(self).contents()[k],
            old(self).size() < MAX_SECTION_CACHE ==> forall|k: Seq<char>|
                #[trigger] old(self).contents().contains_key(k) ==> final(self).contents().contains_key(k),
            final(self).contents().dom().finite(),
            final(self).contents().dom().len() <= MAX_SECTION_CACHE,
            forall|k1: Seq<char>, k2: Seq<char>|
                #[trigger] old(self).contents().contains_key(k1)
                    && #[trigger] old(self).contents().contains_key(k2) && k1 != k2
                    && !final(self).contents().contains_key(k1)
                    ==> final(self).contents().contains_key(k2),
    {
        let ghost before = *self;
        if self.entries.len() >= MAX_SECTION_CACHE {
            self.entries.remove(0);
        }
        let ghost mid = *self;
        assert(mid.well_formed()) by {
            assert forall|i: int, j: int| 0 <= i < j < mid.entries@.len() implies mid.entries@[i].0@
                != mid.entries@[j].0@ by {
                if before.entries@.len() >= MAX_SECTION_CACHE {
                    assert(mid.entries@[i] == before.entries@[i + 1]);
                    assert(mid.entries@[j] == before.entries@[j + 1]);
                }
            }
        }
        match self.position(index.as_str()) {
            Some(i) => {
                self.entries.set(i, (index, element));
                assert(self.well_formed()) by {
                    assert forall|a: int, b: int| 0 <= a < b < self.entries@.len() implies self.entries@[a].0@
                        != self.entries@[b].0@ by {
                        if a != i && b != i {
                            assert(self.entries@[a] == mid.entries@[a]);
                            assert(self.entries@[b] == mid.entries@[b]);
                        } else if a == i {
                            assert(self.entries@[b] == mid.entries@[b]);
                        } else {
                            assert(self.entries@[a] == mid.entries@[a]);
                        }
                    }
                }
                proof {
                    self.lemma_index_of(i as int);
                    assert forall|k: Seq<char>| #[trigger] self.contents().contains_key(k) && k
                        != index@ implies mid.contents().contains_key(k) && self.contents()[k]
                        == mid.contents()[k] by {
                        let p = entry_keys(self.entries@).index_of(k);
                        assert(entry_keys(self.entries@)[p] == k);
                        assert(self.entries@[p] == mid.entries@[p]);
                        mid.lemma_index_of(p);
                        self.lemma_index_of(p);
                    }
                    assert forall|k: Seq<char>| #[trigger] mid.contents().contains_key(k) implies self.contents().contains_key(k) by {
                        let p = entry_keys(mid.entries@).index_of(k);
                        assert(entry_keys(mid.entries@)[p] == k);
                        if p != i {
                            assert(entry_keys(self.entries@)[p] == k);
                        } else {
                            assert(entry_keys(self.entries@)[p] == index@);
                        }
                    }
                }
            },
            None => {
                let ghost n = self.entries@.len();
                self.entries.push((index, element));
                assert(self.well_formed()) by {
                    assert forall|a: int, b: int| 0 <= a < b < self.entries@.len() implies self.entries@[a].0@
                        != self.entries@[b].0@ by {
                        if b == n {
                            assert(entry_keys(mid.entries@)[a] == mid.entries@[a].0@);
                        } else {
                            assert(self.entries@[b] == mid.entries@[b]);
                        }
                        assert(self.entries@[a] == mid.entries@[a]);
                    }
                }
                proof {
                    self.lemma_index_of(n as int);
                    assert forall|k: Seq<char>| #[trigger] self.contents().contains_key(k) && k
                        != index@ implies mid.contents().contains_key(k) && self.contents()[k]
                        == mid.contents()[k] by {
                        let p = entry_keys(self.entries@).index_of(k);
                        assert(entry_keys(self.entries@)[p] == k);
                        assert(p != n);
                        assert(self.entries@[p] == mid.entries@[p]);
                        mid.lemma_index_of(p);
                        self.lemma_index_of(p);
                    }
                    assert forall|k: Seq<char>| #[trigger] mid.contents().contains_key(k) implies self.contents().contains_key(k) by {
                        let p = entry_keys(mid.entries@).index_of(k);
                        assert(entry_keys(mid.entries@)[p] == k);
                        assert(entry_keys(self.entries@)[p] == k);
                    }
                }
            },
        }
        proof {
            assert forall|k: Seq<char>| #[trigger] mid.contents().contains_key(k) implies before.contents().contains_key(k)
                && mid.contents()[k] == before.contents()[k] by {
                let p = entry_keys(mid.entries@).index_of(k);
                assert(entry_keys(mid.entries@)[p] == k);
                mid.lemma_index_of(p);
                if before.entries@.len() >= MAX_SECTION_CACHE {
                    assert(mid.entries@[p] == before.entries@[p + 1]);
                    assert(entry_keys(before.entries@)[p + 1] == k);
                    before.lemma_index_of(p + 1);
                } else {
                    assert(mid.entries@ == before.entries@);
                }
            }
            let lost = if before.entries@.len() > 0 {
                before.entries@[0].0@
            } else {
                Seq::<char>::empty()
            };
            assert forall|k: Seq<char>| #[trigger] before.contents().contains_key(k) && k != lost implies mid.contents().contains_key(k) by {
                let p = entry_keys(before.entries@).index_of(k);
                assert(entry_keys(before.entries@)[p] == k);
                if before.entries@.len() >= MAX_SECTION_CACHE {
                    assert(p != 0);
                    assert(mid.entries@[p - 1] == before.entries@[p]);
                    assert(entry_keys(mid.entries@)[p - 1] == k);
                } else {
                    assert(mid.entries@ == before.entries@);
                }
            }
            self.lemma_bounded();
        }
    }
}

} // verus!
