//! Results of the URLs a `preprocess:` run asked for.
//!
//! A definition can ask for extra URLs (`request("…")`). The requests are
//! collected during a run and fetched by the caller; their parsed bodies are
//! seen by the next run as `fetched["<url>"]`. One set of results lives for a
//! whole novel download, and only settled results are kept.
use vstd::prelude::*;
use crate::keyed::KeyedList;
use super::value::JsonValue;

verus! {

/// Upper bound on kept results: once it is reached, new results are not
/// kept, and a run still completes with what was resolved.
pub const MAX_PREPROCESS_JOBS: usize = 256;

/// The settled results, by URL.
pub struct PreprocessJobs {
    fetched: KeyedList<String, JsonValue>,
}

impl View for PreprocessJobs {
    type V = Map<Seq<char>, JsonValue>;

    closed spec fn view(&self) -> Map<Seq<char>, JsonValue> {
        self.fetched@
    }
}

impl PreprocessJobs {
    #[verifier::type_invariant]
    closed spec fn bounded(self) -> bool {
        self.fetched.entry_seq().len() <= MAX_PREPROCESS_JOBS
    }

    /// The number of kept results.
    pub closed spec fn count(self) -> nat {
        self.fetched.entry_seq().len()
    }

    /// No results.
    pub fn new() -> (r: Self)
        ensures
            r@ == Map::<Seq<char>, JsonValue>::empty(),
            r.count() == 0,
    {
        PreprocessJobs { fetched: KeyedList::new() }
    }

    /// Drops every result, as when another novel starts downloading.
    pub fn reset(&mut self)
        ensures
            final(self)@ == Map::<Seq<char>, JsonValue>::empty(),
            final(self).count() == 0,
    {
        self.fetched = KeyedList::new();
    }

    /// Whether `url` has a result.
    pub fn contains(&self, url: &str) -> (r: bool)
        ensures
            r == self@.contains_key(url@),
    {
        self.fetched.contains_key(&url.to_owned())
    }

    /// The results, by URL, as a run sees them.
    pub fn results(&self) -> (r: &KeyedList<String, JsonValue>)
        ensures
            r@ == self@,
    {
        &self.fetched
    }

    /// Keeps the result of `url` (a failed fetch is kept as null, so that a
    /// definition can branch on it), unless the bound is reached.
    pub fn insert(&mut self, url: String, value: JsonValue)
        ensures
            old(self).count() >= MAX_PREPROCESS_JOBS ==> final(self)@ == old(self)@ && final(self).count()
                == old(self).count(),
            old(self).count() < MAX_PREPROCESS_JOBS ==> final(self)@ == old(self)@.insert(url@, value),
            final(self).count() <= MAX_PREPROCESS_JOBS,
    {
        proof {
            use_type_invariant(&*self);
        }
        if self.fetched.len() >= MAX_PREPROCESS_JOBS {
            return;
        }
        let mut fetched = KeyedList::new();
        std::mem::swap(&mut fetched, &mut self.fetched);
        fetched.insert(url, value);
        self.fetched = fetched;
    }

    /// The number of kept results.
    pub fn len(&self) -> (r: usize)
        ensures
            r == self.count(),
            r <= MAX_PREPROCESS_JOBS,
    {
        proof {
            use_type_invariant(self);
        }
        self.fetched.len()
    }

    /// Whether no result is kept.
    pub fn is_empty(&self) -> (r: bool)
        ensures
            r == (self.count() == 0),
    {
        self.fetched.len() == 0
    }
}

} // verus!
