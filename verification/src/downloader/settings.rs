//! The settings and decisions the downloader asks of its host.
use vstd::prelude::*;

use crate::error::NarouError;
use crate::text::chars_eq;

verus! {

/// Section digests per novel id: `(novel id, [(relative path, digest)])`.
pub type SectionHashCache = Vec<(String, Vec<(String, String)>)>;

/// Settings and interactive decisions consumed by the downloader.
pub trait DownloaderSettings {
    /// A boolean local setting (`false` where the host keeps none).
    fn local_setting_bool(&self, key: &str) -> (r: bool)
        default_ensures
            r == false,
    {
        false
    }

    /// A global boolean setting, if stored.
    fn global_setting_optional_bool(&self, key: &str) -> (r: Option<bool>)
        default_ensures
            r is None,
    {
        None
    }

    /// Stores a global boolean setting.
    fn save_global_setting_bool(&self, key: &str, value: bool) -> (r: Result<(), NarouError>)
        default_ensures
            r is Ok,
    {
        Ok(())
    }

    /// Whether new novels go into a two-character subdirectory.
    fn download_use_subdirectory(&self) -> (r: bool)
        default_ensures
            r == false,
    {
        false
    }

    /// Whether the novel's settings strip bracketed title prefixes.
    fn strip_title_prefix_for(&self, novel_id: i64, raw_title: &str, author: &str) -> (r: bool)
        default_ensures
            r == false,
    {
        false
    }

    /// The section digest cache.
    fn load_section_hash_cache(&self) -> (r: SectionHashCache)
        default_ensures
            r@.len() == 0,
    {
        Vec::new()
    }

    /// Stores the section digest cache.
    fn save_section_hash_cache(&self, cache: &SectionHashCache) -> (r: Result<(), NarouError>)
        default_ensures
            r is Ok,
    {
        Ok(())
    }

    /// Asks the user a yes/no question; a host without a terminal refuses.
    fn confirm(&self, message: &str, default: bool, nontty_default: bool) -> (r: Result<
        bool,
        NarouError,
    >)
        default_ensures
            r matches Err(NarouError::Unsupported(m)) && m@
                == "interactive confirmation is not supported on this platform"@,
    {
        Err(
            NarouError::Unsupported(
                "interactive confirmation is not supported on this platform".to_owned(),
            ),
        )
    }
}

/// A host with bundled defaults: no stored settings and no terminal.
#[derive(Debug, Clone, Copy, Default)]
pub struct WorkerDownloaderSettings;

impl DownloaderSettings for WorkerDownloaderSettings {

}

/// Settings read ahead of time: local booleans, the `over18` global setting
/// and the section digest cache.
#[derive(Debug)]
pub struct SnapshotDownloaderSettings {
    local: Vec<(String, bool)>,
    over18: Option<bool>,
    section_hash_cache: SectionHashCache,
}

/// The value of the first entry named `key`, `false` when there is none.
pub open spec fn local_value(local: Seq<(String, bool)>, key: Seq<char>) -> bool
    decreases local.len(),
{
    if local.len() == 0 {
        false
    } else if local[0].0@ == key {
        local[0].1
    } else {
        local_value(local.drop_first(), key)
    }
}

pub struct CacheEntryView {
    pub id: Seq<char>,
    pub digests: Seq<(Seq<char>, Seq<char>)>,
}

pub open spec fn digests_view(d: Seq<(String, String)>) -> Seq<(Seq<char>, Seq<char>)> {
    d.map_values(|e: (String, String)| (e.0@, e.1@))
}

/// The text of a section digest cache.
pub open spec fn cache_view(c: Seq<(String, Vec<(String, String)>)>) -> Seq<CacheEntryView> {
    c.map_values(|e: (String, Vec<(String, String)>)| CacheEntryView { id: e.0@, digests: digests_view(e.1@) })
}

fn copy_digests(d: &Vec<(String, String)>) -> (r: Vec<(String, String)>)
    ensures
        digests_view(r@) == digests_view(d@),
{
    let mut r: Vec<(String, String)> = Vec::new();
    let mut i: usize = 0;
    while i < d.len()
        invariant
            i <= d@.len(),
            digests_view(r@) == digests_view(d@.take(i as int)),
        decreases d@.len() - i,
    {
        let ghost prev = digests_view(r@);
        r.push((d[i].0.clone(), d[i].1.clone()));
        assert(digests_view(r@) =~= prev.push((d@[i as int].0@, d@[i as int].1@)));
        assert(digests_view(d@.take(i + 1)) =~= digests_view(d@.take(i as int)).push((d@[i as int].0@, d@[i as int].1@)));
        i = i + 1;
    }
    assert(d@.take(d@.len() as int) =~= d@);
    r
}

/// A copy of a section digest cache.
pub fn copy_section_hash_cache(c: &SectionHashCache) -> (r: SectionHashCache)
    ensures
        cache_view(r@) == cache_view(c@),
{
    let mut r: SectionHashCache = Vec::new();
    let mut i: usize = 0;
    while i < c.len()
        invariant
            i <= c@.len(),
            cache_view(r@) == cache_view(c@.take(i as int)),
        decreases c@.len() - i,
    {
        let ghost prev = cache_view(r@);
        let digests = copy_digests(&c[i].1);
        r.push((c[i].0.clone(), digests));
        let ghost e = CacheEntryView { id: c@[i as int].0@, digests: digests_view(c@[i as int].1@) };
        assert(cache_view(r@) =~= prev.push(e));
        assert(cache_view(c@.take(i + 1)) =~= cache_view(c@.take(i as int)).push(e));
        i = i + 1;
    }
    assert(c@.take(c@.len() as int) =~= c@);
    r
}

impl SnapshotDownloaderSettings {
    pub closed spec fn local_entries(self) -> Seq<(String, bool)> {
        self.local@
    }

    pub closed spec fn over18_value(self) -> Option<bool> {
        self.over18
    }

    pub closed spec fn cache_entries(self) -> Seq<CacheEntryView> {
        cache_view(self.section_hash_cache@)
    }

    /// A snapshot of the given values.
    pub fn new(local: Vec<(String, bool)>, over18: Option<bool>, section_hash_cache: SectionHashCache) -> (r: Self)
        ensures
            r.local_entries() == local@,
            r.over18_value() == over18,
            r.cache_entries() == cache_view(section_hash_cache@),
    {
        SnapshotDownloaderSettings { local, over18, section_hash_cache }
    }
}

impl Default for SnapshotDownloaderSettings {
    /// A snapshot with no value supplied.
    fn default() -> (r: Self)
        ensures
            r.local_entries().len() == 0,
            r.over18_value() is None,
            r.cache_entries().len() == 0,
    {
        SnapshotDownloaderSettings { local: Vec::new(), over18: None, section_hash_cache: Vec::new() }
    }
}

impl DownloaderSettings for SnapshotDownloaderSettings {
    /// The supplied value, `false` for a key without one.
    fn local_setting_bool(&self, key: &str) -> (r: bool)
        ensures
            r == local_value(self.local_entries(), key@),
    {
        let mut i: usize = 0;
        assert(self.local@.skip(0) =~= self.local@);
        while i < self.local.len()
            invariant
                i <= self.local@.len(),
                local_value(self.local@, key@) == local_value(self.local@.skip(i as int), key@),
            decreases self.local@.len() - i,
        {
            assert(self.local@.skip(i as int).drop_first() =~= self.local@.skip(i + 1));
            if chars_eq(self.local[i].0.as_str(), key) {
                return self.local[i].1;
            }
            i = i + 1;
        }
        false
    }

    /// `over18` as supplied; no other global setting is known.
    fn global_setting_optional_bool(&self, key: &str) -> (r: Option<bool>)
        ensures
            r == if key@ == "over18"@ {
                self.over18_value()
            } else {
                None
            },
    {
        if chars_eq(key, "over18") {
            self.over18
        } else {
            None
        }
    }

    /// Nothing is written back from a snapshot.
    fn save_global_setting_bool(&self, key: &str, value: bool) -> (r: Result<(), NarouError>)
        ensures
            r is Ok,
    {
        Ok(())
    }

    /// The `download.use-subdirectory` local setting.
    fn download_use_subdirectory(&self) -> (r: bool)
        ensures
            r == local_value(self.local_entries(), "download.use-subdirectory"@),
    {
        self.local_setting_bool("download.use-subdirectory")
    }

    /// A copy of the supplied cache.
    fn load_section_hash_cache(&self) -> (r: SectionHashCache)
        ensures
            cache_view(r@) == self.cache_entries(),
    {
        copy_section_hash_cache(&self.section_hash_cache)
    }

    /// Nothing is written back from a snapshot.
    fn save_section_hash_cache(&self, cache: &SectionHashCache) -> (r: Result<(), NarouError>)
        ensures
            r is Ok,
    {
        Ok(())
    }
}

} // verus!
