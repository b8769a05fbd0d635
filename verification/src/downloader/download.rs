//! The decisions of a download: when a table of contents that lost
//! sections cancels it, what the download changed, and how the library's
//! record of the novel is merged. Fetching and saving happen around these.
use std::path::PathBuf;
use vstd::prelude::*;
use vstd::string::*;
use crate::db::novel_record::{NovelRecord, UtcNanos};
use crate::downloader::target::{compared_story, story_changed};
use crate::downloader::preprocess::value::byte_len;
use crate::downloader::types::{DownloadResult, SubtitleInfo, TocFile};
use crate::downloader::update::opt_string_view;
use crate::text::{chars_eq, decimal, decimal_string, string_views};

verus! {

/// Whether a download stops to ask about the digest: not forced, and the
/// table of contents lists fewer sections than were saved.
pub fn digest_cancels(force: bool, old_count: usize, new_count: usize) -> (b: bool)
    ensures
        b == (!force && old_count > new_count),
{
    !force && old_count > new_count
}

/// What happened to one section of the table of contents.
pub struct SectionOutcome {
    /// It was downloaded (new, changed, or forced).
    pub downloaded: bool,
    /// Its file was already saved before the download.
    pub was_saved: bool,
}

/// How many sections were downloaded.
pub open spec fn downloaded_count(outcomes: Seq<SectionOutcome>) -> nat
    decreases outcomes.len(),
{
    if outcomes.len() == 0 {
        0
    } else {
        downloaded_count(outcomes.drop_last()) + if outcomes.last().downloaded {
            1nat
        } else {
            0nat
        }
    }
}

/// Whether a section was downloaded that had not been saved before.
pub open spec fn has_new_arrival(outcomes: Seq<SectionOutcome>) -> bool {
    exists|i: int|
        0 <= i < outcomes.len() && (#[trigger] outcomes[i]).downloaded && !outcomes[i].was_saved
}

/// `o` when it is not empty.
pub open spec fn nonempty(o: Option<Seq<char>>) -> Option<Seq<char>> {
    match o {
        Some(t) => if t.len() > 0 {
            Some(t)
        } else {
            None
        },
        None => None,
    }
}

/// The title (or author) a table of contents gets: the fetched one; when
/// that is empty, the old table's when it is not empty, else the library's
/// (empty when it has none).
pub open spec fn kept_text(fetched: Seq<char>, old: Option<Seq<char>>, library: Option<Seq<char>>) -> Seq<char> {
    if fetched.len() > 0 {
        fetched
    } else {
        match nonempty(old) {
            Some(t) => t,
            None => match library {
                Some(t) => t,
                None => Seq::empty(),
            },
        }
    }
}

/// Whether a fetched title (or author) changed: it is not empty and differs
/// from the old table's, or (without an old table) from the library's.
pub open spec fn text_changed(fetched: Seq<char>, old: Option<Seq<char>>, library: Option<Seq<char>>) -> bool {
    fetched.len() > 0 && match old {
        Some(o) => o != fetched,
        None => library != Some(fetched),
    }
}

/// Whether two stories differ once prepared for comparing.
pub open spec fn stories_differ(old: Option<Seq<char>>, fetched: Option<Seq<char>>) -> bool {
    match (old, fetched) {
        (None, None) => false,
        (Some(o), Some(n)) => compared_story(o) != compared_story(n),
        (None, Some(n)) => compared_story(n).len() > 0,
        (Some(o), None) => compared_story(o).len() > 0,
    }
}

/// The story the table of contents keeps: the fetched one when it changed,
/// else the old one, else the fetched one.
pub open spec fn kept_story(old: Option<Seq<char>>, fetched: Option<Seq<char>>) -> Option<Seq<char>> {
    if stories_differ(old, fetched) {
        fetched
    } else {
        match old {
            Some(o) => Some(o),
            None => fetched,
        }
    }
}

/// Where the section listed under `index` stood in the table of contents
/// saved before: the last position with that index.
pub open spec fn last_with_index(olds: Seq<SubtitleInfo>, index: Seq<char>) -> Option<int>
    decreases olds.len(),
{
    if olds.len() == 0 {
        None
    } else if olds.last().index@ == index {
        Some(olds.len() - 1)
    } else {
        last_with_index(olds.drop_last(), index)
    }
}

/// The position of the section listed under `index` in the table of
/// contents saved before (the last one, where an index repeats).
pub fn old_section_at(olds: &Vec<SubtitleInfo>, index: &str) -> (r: Option<usize>)
    ensures
        match r {
            Some(j) => last_with_index(olds@, index@) == Some(j as int),
            None => last_with_index(olds@, index@) is None,
        },
{
    let mut j: usize = olds.len();
    assert(olds@.take(j as int) == olds@);
    while j > 0
        invariant
            j <= olds@.len(),
            last_with_index(olds@, index@) == last_with_index(olds@.take(j as int), index@),
        decreases j,
    {
        assert(olds@.take(j as int).last() == olds@[j - 1]);
        if chars_eq(olds[j - 1].index.as_str(), index) {
            return Some(j - 1);
        }
        assert(olds@.take(j as int).drop_last() == olds@.take(j - 1));
        j = j - 1;
    }
    None
}

/// When a section was downloaded, as its new table of contents records it:
/// `now` where it was downloaded this time, else what the saved table
/// recorded for it.
pub fn section_download_time(downloaded: bool, now: &str, old: Option<&SubtitleInfo>) -> (r: Option<
    String,
>)
    ensures
        downloaded ==> (r matches Some(t) && t@ == now@),
        !downloaded ==> opt_string_view(r) == match old {
            Some(o) => opt_string_view(o.download_time),
            None => None,
        },
{
    if downloaded {
        return Some(now.to_owned());
    }
    match old {
        Some(o) => match &o.download_time {
            Some(t) => Some(t.clone()),
            None => None,
        },
        None => None,
    }
}

/// The line a download prints for the section at `position` (from 1) of
/// `total`: a serial's part number (when its index has at most four
/// bytes) or the short-story mark, the subtitle, the count, and, for a
/// downloaded section, whether it is new (to a novel the library had, or
/// in a forced download) or changed (in a forced download).
pub open spec fn progress_line(
    novel_type: u8,
    index: Seq<char>,
    subtitle: Seq<char>,
    position: nat,
    total: nat,
    downloaded: bool,
    is_new_arrival: bool,
    existing: bool,
    force: bool,
) -> Seq<char> {
    let head = if novel_type == 1 {
        if byte_len(index) <= 4 {
            "第"@ + index + "部分　"@
        } else {
            Seq::empty()
        }
    } else {
        "短編　"@
    };
    let mark = if downloaded && is_new_arrival && (existing || force) {
        " (新着)"@
    } else if downloaded && !is_new_arrival && force {
        " (更新あり)"@
    } else {
        Seq::empty()
    };
    head + subtitle + " ("@ + decimal(position) + "/"@ + decimal(total) + ")"@ + mark
}

/// The line printed for a section, as [`progress_line`] says.
pub fn section_progress_line(
    novel_type: u8,
    section: &SubtitleInfo,
    position: usize,
    total: usize,
    downloaded: bool,
    is_new_arrival: bool,
    existing: bool,
    force: bool,
) -> (r: String)
    ensures
        r@ == progress_line(
            novel_type,
            section.index@,
            section.subtitle@,
            position as nat,
            total as nat,
            downloaded,
            is_new_arrival,
            existing,
            force,
        ),
{
    let mut line = String::new();
    if novel_type == 1 {
        let bytes = section.index.as_str().as_bytes();
        assert(bytes@ == vstd::utf8::encode_utf8(section.index@));
        if bytes.len() <= 4 {
            line.append("第");
            line.append(section.index.as_str());
            line.append("部分　");
        }
    } else {
        line.append("短編　");
    }
    line.append(section.subtitle.as_str());
    line.append(" (");
    let p = decimal_string(position);
    line.append(p.as_str());
    line.append("/");
    let t = decimal_string(total);
    line.append(t.as_str());
    line.append(")");
    if downloaded && is_new_arrival && (existing || force) {
        line.append(" (新着)");
    } else if downloaded && !is_new_arrival && force {
        line.append(" (更新あり)");
    }
    line
}

/// What a download changed, and what its table of contents holds.
pub struct DownloadSummary {
    pub toc_title: String,
    pub toc_author: String,
    pub story: Option<String>,
    pub title_changed: bool,
    pub author_changed: bool,
    pub story_changed: bool,
    pub sections_deleted: bool,
    pub new_arrivals: bool,
    pub updated_count: usize,
    pub total_count: usize,
    /// Anything changed: the status is "updated" rather than "no change".
    pub has_changes: bool,
}

fn text_of_opt(o: &Option<String>) -> (r: Option<String>)
    ensures
        opt_string_view(r) == opt_string_view(*o),
{
    match o {
        Some(s) => Some(s.clone()),
        None => None,
    }
}

/// A library text when it is not empty.
fn library_text(t: Option<&String>) -> (r: Option<String>)
    ensures
        opt_string_view(r) == nonempty(
            match t {
                Some(s) => Some(s@),
                None => None,
            },
        ),
{
    match t {
        Some(s) => if s.unicode_len() > 0 {
            Some(s.clone())
        } else {
            None
        },
        None => None,
    }
}

fn keep_text(fetched: &str, old: &Option<String>, library: &Option<String>) -> (r: String)
    ensures
        r@ == kept_text(fetched@, opt_string_view(*old), opt_string_view(*library)),
{
    if fetched.unicode_len() > 0 {
        return fetched.to_owned();
    }
    match old {
        Some(o) => if o.unicode_len() > 0 {
            return o.clone();
        },
        None => {},
    }
    match library {
        Some(t) => t.clone(),
        None => String::new(),
    }
}

fn changed_text(fetched: &str, old: &Option<String>, library: &Option<String>) -> (r: bool)
    ensures
        r == text_changed(fetched@, opt_string_view(*old), opt_string_view(*library)),
{
    if fetched.unicode_len() == 0 {
        return false;
    }
    match old {
        Some(o) => !chars_eq(o.as_str(), fetched),
        None => match library {
            Some(t) => !chars_eq(t.as_str(), fetched),
            None => true,
        },
    }
}

/// Sums up a download of a novel (`is_new` when the library had no record
/// of it; `existing` its record when it had one), given the title, author
/// and story fetched, the table of contents saved before (if any), and what
/// happened to each section listed now.
pub fn summarize_download(
    is_new: bool,
    existing: Option<&NovelRecord>,
    old_toc: Option<&TocFile>,
    title: &str,
    author: &str,
    fetched_story: &Option<String>,
    outcomes: &Vec<SectionOutcome>,
) -> (r: DownloadSummary)
    ensures
        ({
            let lib_title = match existing {
                Some(e) => nonempty(Some(e.title@)),
                None => None,
            };
            let lib_author = match existing {
                Some(e) => nonempty(Some(e.author@)),
                None => None,
            };
            let old_title = match old_toc {
                Some(t) => Some(t.title@),
                None => None,
            };
            let old_author = match old_toc {
                Some(t) => Some(t.author@),
                None => None,
            };
            let old_story = match old_toc {
                Some(t) => opt_string_view(t.story),
                None => None,
            };
            let old_count: nat = match old_toc {
                Some(t) => t.subtitles@.len(),
                None => 0,
            };
            &&& r.toc_title@ == kept_text(title@, old_title, lib_title)
            &&& r.toc_author@ == kept_text(author@, old_author, lib_author)
            &&& r.title_changed == text_changed(title@, old_title, lib_title)
            &&& r.author_changed == text_changed(author@, old_author, lib_author)
            &&& r.story_changed == stories_differ(old_story, opt_string_view(*fetched_story))
            &&& opt_string_view(r.story) == kept_story(old_story, opt_string_view(*fetched_story))
            &&& r.sections_deleted == (old_count > outcomes@.len())
            &&& r.updated_count == downloaded_count(outcomes@)
            &&& r.total_count == outcomes@.len()
            &&& r.new_arrivals == (is_new || has_new_arrival(outcomes@))
            &&& r.has_changes == (r.updated_count > 0 || is_new || r.title_changed
                || r.author_changed || r.story_changed || r.sections_deleted)
        }),
{
    let lib_title = match existing {
        Some(e) => library_text(Some(&e.title)),
        None => library_text(None),
    };
    let lib_author = match existing {
        Some(e) => library_text(Some(&e.author)),
        None => library_text(None),
    };
    let (old_title, old_author, old_story, old_count) = match old_toc {
        Some(t) => (Some(t.title.clone()), Some(t.author.clone()), text_of_opt(&t.story), t.subtitles.len()),
        None => (None, None, None, 0),
    };
    let toc_title = keep_text(title, &old_title, &lib_title);
    let toc_author = keep_text(author, &old_author, &lib_author);
    let title_changed = changed_text(title, &old_title, &lib_title);
    let author_changed = changed_text(author, &old_author, &lib_author);
    let story_is_changed = story_changed(&old_story, fetched_story);
    let story = if story_is_changed {
        text_of_opt(fetched_story)
    } else {
        match old_story {
            Some(o) => Some(o),
            None => text_of_opt(fetched_story),
        }
    };
    let mut updated_count: usize = 0;
    let mut arrivals = false;
    let mut i: usize = 0;
    while i < outcomes.len()
        invariant
            i <= outcomes@.len(),
            updated_count == downloaded_count(outcomes@.take(i as int)),
            updated_count <= i,
            arrivals == exists|j: int|
                0 <= j < i && (#[trigger] outcomes@[j]).downloaded && !outcomes@[j].was_saved,
        decreases outcomes@.len() - i,
    {
        assert(outcomes@.take(i + 1).drop_last() =~= outcomes@.take(i as int));
        if outcomes[i].downloaded {
            updated_count = updated_count + 1;
            if !outcomes[i].was_saved {
                arrivals = true;
            }
        }
        i = i + 1;
    }
    assert(outcomes@.take(outcomes@.len() as int) =~= outcomes@);
    let sections_deleted = old_count > outcomes.len();
    let new_arrivals = is_new || arrivals;
    let has_changes = updated_count > 0 || is_new || title_changed || author_changed
        || story_is_changed || sections_deleted;
    DownloadSummary {
        toc_title,
        toc_author,
        story,
        title_changed,
        author_changed,
        story_changed: story_is_changed,
        sections_deleted,
        new_arrivals,
        updated_count,
        total_count: outcomes.len(),
        has_changes,
    }
}

/// The result a finished download reports for novel `id`, saved in
/// `novel_dir`.
pub fn download_result(id: i64, summary: &DownloadSummary, novel_dir: PathBuf, is_new: bool) -> (r:
    DownloadResult)
    ensures
        r.id == id,
        r.title@ == summary.toc_title@,
        r.author@ == summary.toc_author@,
        r.novel_dir == novel_dir,
        r.new_novel == is_new,
        r.updated_count == summary.updated_count,
        r.total_count == summary.total_count,
{
    DownloadResult {
        id,
        title: summary.toc_title.clone(),
        author: summary.toc_author.clone(),
        novel_dir,
        new_novel: is_new,
        updated_count: summary.updated_count,
        total_count: summary.total_count,
    }
}

/// The library's tags with each of `site_tags` not among them added after,
/// in order.
pub open spec fn tags_merged(tags: Seq<Seq<char>>, site_tags: Seq<Seq<char>>) -> Seq<Seq<char>>
    decreases site_tags.len(),
{
    if site_tags.len() == 0 {
        tags
    } else {
        let t = tags_merged(tags, site_tags.drop_last());
        if t.contains(site_tags.last()) {
            t
        } else {
            t.push(site_tags.last())
        }
    }
}

/// Merging site tags keeps the novel's tags first and in order, holds
/// exactly the tags of either list, and adds no tag twice.
pub proof fn lemma_tags_merged(tags: Seq<Seq<char>>, site_tags: Seq<Seq<char>>)
    ensures
        tags_merged(tags, site_tags).len() >= tags.len(),
        tags_merged(tags, site_tags).subrange(0, tags.len() as int) == tags,
        forall|x: Seq<char>| #[trigger] tags_merged(tags, site_tags).contains(x) <==> (tags.contains(x)
            || site_tags.contains(x)),
        tags.no_duplicates() ==> tags_merged(tags, site_tags).no_duplicates(),
    decreases site_tags.len(),
{
    if site_tags.len() > 0 {
        let w = site_tags.drop_last();
        let y = site_tags.last();
        lemma_tags_merged(tags, w);
        let t = tags_merged(tags, w);
        assert forall|x: Seq<char>| #[trigger] site_tags.contains(x) <==> (w.contains(x) || x == y) by {
            if site_tags.contains(x) {
                let k = choose|k: int| 0 <= k < site_tags.len() && site_tags[k] == x;
                if k < site_tags.len() - 1 {
                    assert(w[k] == x);
                }
            }
            if w.contains(x) {
                let k = choose|k: int| 0 <= k < w.len() && w[k] == x;
                assert(site_tags[k] == x);
            }
            if x == y {
                assert(site_tags[site_tags.len() - 1] == x);
            }
        }
        if !t.contains(y) {
            assert(t.push(y).subrange(0, tags.len() as int) =~= t.subrange(0, tags.len() as int));
            assert forall|x: Seq<char>| #[trigger] t.push(y).contains(x) <==> (t.contains(x) || x == y) by {
                if t.push(y).contains(x) {
                    let k = choose|k: int| 0 <= k < t.push(y).len() && t.push(y)[k] == x;
                    if k < t.len() {
                        assert(t[k] == x);
                    }
                }
                if t.contains(x) {
                    let k = choose|k: int| 0 <= k < t.len() && t[k] == x;
                    assert(t.push(y)[k] == x);
                }
                if x == y {
                    assert(t.push(y)[t.len() as int] == x);
                }
            }
        }
    }
}

/// Adds the tags a site lists to a novel's tags (see [`tags_merged`]).
pub fn merge_tags(tags: &Vec<String>, site_tags: &Vec<String>) -> (r: Vec<String>)
    ensures
        string_views(r@) == tags_merged(string_views(tags@), string_views(site_tags@)),
{
    let mut out: Vec<String> = Vec::new();
    let mut k: usize = 0;
    while k < tags.len()
        invariant
            k <= tags@.len(),
            out@ == tags@.take(k as int),
        decreases tags@.len() - k,
    {
        out.push(tags[k].clone());
        assert(out@ =~= tags@.take(k + 1));
        k = k + 1;
    }
    assert(out@ =~= tags@);
    assert(tags_merged(string_views(tags@), string_views(site_tags@.take(0))) == string_views(out@));
    let mut i: usize = 0;
    while i < site_tags.len()
        invariant
            i <= site_tags@.len(),
            string_views(out@) == tags_merged(
                string_views(tags@),
                string_views(site_tags@.take(i as int)),
            ),
        decreases site_tags@.len() - i,
    {
        let ghost before = string_views(out@);
        let mut found = false;
        let mut j: usize = 0;
        while j < out.len()
            invariant
                j <= out@.len(),
                before == string_views(out@),
                found == exists|q: int| 0 <= q < j && (#[trigger] out@[q])@ == site_tags@[i as int]@,
                i < site_tags@.len(),
            decreases out@.len() - j,
        {
            if chars_eq(out[j].as_str(), site_tags[i].as_str()) {
                found = true;
            }
            j = j + 1;
        }
        proof {
            let s = string_views(site_tags@.take(i + 1));
            assert(s.drop_last() =~= string_views(site_tags@.take(i as int)));
            assert(s.last() == site_tags@[i as int]@);
            if found {
                let q = choose|q: int| 0 <= q < out@.len() && (#[trigger] out@[q])@ == site_tags@[i as int]@;
                assert(before[q] == site_tags@[i as int]@);
            } else {
                assert forall|q: int| 0 <= q < before.len() implies before[q] != site_tags@[i as int]@ by {
                    assert(before[q] == out@[q]@);
                }
            }
        }
        if !found {
            out.push(site_tags[i].clone());
            assert(string_views(out@) =~= before.push(site_tags@[i as int]@));
        }
        i = i + 1;
    }
    assert(site_tags@.take(site_tags@.len() as int) =~= site_tags@);
    out
}

/// The record the library keeps after a download. With a record of the
/// novel already filed (`existing`), that record with the fetched fields
/// taken from `fresh`: author and title only when not empty, the
/// new-arrivals date only when sections were downloaded, tags only when
/// `tags` is not empty; the novel type, ncode, dates of mail and check and
/// the conversion flag stay, and the novel is no longer suspended.
/// Otherwise `fresh` under `new_id` with `tags`.
pub open spec fn merged_record(
    existing: Option<NovelRecord>,
    fresh: NovelRecord,
    tags: Vec<String>,
    updated_count: nat,
    new_id: i64,
) -> NovelRecord {
    match existing {
        Some(e) => NovelRecord {
            id: e.id,
            author: if fresh.author@.len() > 0 {
                fresh.author
            } else {
                e.author
            },
            title: if fresh.title@.len() > 0 {
                fresh.title
            } else {
                e.title
            },
            file_title: fresh.file_title,
            toc_url: fresh.toc_url,
            sitename: fresh.sitename,
            novel_type: e.novel_type,
            end: fresh.end,
            last_update: fresh.last_update,
            new_arrivals_date: if updated_count > 0 {
                fresh.new_arrivals_date
            } else {
                e.new_arrivals_date
            },
            use_subdirectory: fresh.use_subdirectory,
            general_firstup: fresh.general_firstup,
            novelupdated_at: fresh.novelupdated_at,
            general_lastup: fresh.general_lastup,
            last_mail_date: e.last_mail_date,
            tags: if tags@.len() > 0 {
                tags
            } else {
                e.tags
            },
            ncode: e.ncode,
            domain: fresh.domain,
            general_all_no: fresh.general_all_no,
            length: fresh.length,
            suspend: false,
            is_narou: fresh.is_narou,
            last_check_date: e.last_check_date,
            convert_failure: e.convert_failure,
        },
        None => NovelRecord { id: new_id, tags, ..fresh },
    }
}

/// Merging a download into an existing record takes what the site says
/// now from the download (whether the novel is finished, its size, dates,
/// location and site) and keeps the library's own facts (id, kind, ncode,
/// mail and check dates, conversion state); the novel is no longer
/// suspended, and its new-arrivals date moves only when sections were
/// downloaded.
pub proof fn lemma_merge_takes_site_facts(
    e: NovelRecord,
    fresh: NovelRecord,
    tags: Vec<String>,
    updated_count: nat,
    new_id: i64,
)
    ensures
        ({
            let m = merged_record(Some(e), fresh, tags, updated_count, new_id);
            &&& m.end == fresh.end
            &&& m.last_update == fresh.last_update
            &&& m.length == fresh.length
            &&& m.general_all_no == fresh.general_all_no
            &&& m.general_firstup == fresh.general_firstup
            &&& m.novelupdated_at == fresh.novelupdated_at
            &&& m.general_lastup == fresh.general_lastup
            &&& m.file_title@ == fresh.file_title@
            &&& m.toc_url@ == fresh.toc_url@
            &&& m.sitename@ == fresh.sitename@
            &&& m.use_subdirectory == fresh.use_subdirectory
            &&& m.is_narou == fresh.is_narou
            &&& m.id == e.id
            &&& m.novel_type == e.novel_type
            &&& m.last_mail_date == e.last_mail_date
            &&& m.last_check_date == e.last_check_date
            &&& m.convert_failure == e.convert_failure
            &&& !m.suspend
            &&& (updated_count > 0 ==> m.new_arrivals_date == fresh.new_arrivals_date)
            &&& (updated_count == 0 ==> m.new_arrivals_date == e.new_arrivals_date)
            &&& (fresh.author@.len() > 0 ==> m.author@ == fresh.author@)
            &&& (fresh.author@.len() == 0 ==> m.author@ == e.author@)
            &&& (fresh.title@.len() > 0 ==> m.title@ == fresh.title@)
            &&& (fresh.title@.len() == 0 ==> m.title@ == e.title@)
        }),
{
}

/// Merges a download into the library's record (see [`merged_record`]).
pub fn merge_record(
    existing: Option<NovelRecord>,
    fresh: NovelRecord,
    tags: Vec<String>,
    updated_count: usize,
    new_id: i64,
) -> (r: NovelRecord)
    ensures
        r == merged_record(existing, fresh, tags, updated_count as nat, new_id),
{
    match existing {
        Some(e) => {
            let mut u = e;
            if fresh.author.unicode_len() > 0 {
                u.author = fresh.author;
            }
            if fresh.title.unicode_len() > 0 {
                u.title = fresh.title;
            }
            u.file_title = fresh.file_title;
            u.toc_url = fresh.toc_url;
            u.sitename = fresh.sitename;
            u.end = fresh.end;
            u.last_update = fresh.last_update;
            if updated_count > 0 {
                u.new_arrivals_date = fresh.new_arrivals_date;
            }
            u.use_subdirectory = fresh.use_subdirectory;
            u.general_firstup = fresh.general_firstup;
            u.novelupdated_at = fresh.novelupdated_at;
            u.general_lastup = fresh.general_lastup;
            u.general_all_no = fresh.general_all_no;
            u.length = fresh.length;
            u.domain = fresh.domain;
            u.suspend = false;
            u.is_narou = fresh.is_narou;
            if tags.len() > 0 {
                u.tags = tags;
            }
            u
        },
        None => {
            let mut rec = fresh;
            rec.id = new_id;
            rec.tags = tags;
            rec
        },
    }
}

/// The novel type and whether it is finished: what the novel information
/// says (unfinished when it does not say), else what the type text of the
/// table of contents reads as, else a serial in progress.
pub fn decide_novel_type(info_type: Option<u8>, info_end: Option<bool>, from_text: Option<(u8, bool)>) -> (r:
    (u8, bool))
    ensures
        r == match info_type {
            Some(t) => (t, match info_end {
                Some(e) => e,
                None => false,
            }),
            None => match from_text {
                Some(p) => p,
                None => (1u8, false),
            },
        },
{
    match info_type {
        Some(t) => (t, match info_end {
            Some(e) => e,
            None => false,
        }),
        None => match from_text {
            Some(p) => p,
            None => (1, false),
        },
    }
}

/// The site name a novel is filed under: the library's when not empty,
/// else the one its information gives, else the site's.
pub open spec fn chosen_sitename(library: Option<Seq<char>>, info: Option<Seq<char>>, site: Seq<char>) -> Seq<char> {
    match nonempty(library) {
        Some(n) => n,
        None => match info {
            Some(n) => n,
            None => site,
        },
    }
}

/// Picks the site name (see [`chosen_sitename`]).
pub fn choose_sitename(existing: Option<&NovelRecord>, info_sitename: &Option<String>, site_sitename: &str) -> (r:
    String)
    ensures
        r@ == chosen_sitename(
            match existing {
                Some(e) => Some(e.sitename@),
                None => None,
            },
            opt_string_view(*info_sitename),
            site_sitename@,
        ),
{
    match existing {
        Some(e) => if e.sitename.unicode_len() > 0 {
            return e.sitename.clone();
        },
        None => {},
    }
    match info_sitename {
        Some(n) => n.clone(),
        None => site_sitename.to_owned(),
    }
}

/// What a download learned of a novel, besides its sections.
pub struct FetchedNovel {
    pub novel_type: u8,
    pub end: bool,
    pub general_firstup: Option<UtcNanos>,
    pub novelupdated_at: Option<UtcNanos>,
    pub general_lastup: Option<UtcNanos>,
    pub length: Option<i64>,
}

/// The record a download makes of a novel at time `now`: the fetched
/// facts, the table of contents' title and author, `section_count`
/// sections, updated and new now, not suspended, with no tags, mail date,
/// check date or conversion failure yet; its id is the library's, or 0 for
/// a novel not filed yet.
pub fn fresh_record(
    existing_id: Option<i64>,
    fetched: FetchedNovel,
    summary: &DownloadSummary,
    file_title: String,
    toc_url: String,
    sitename: String,
    use_subdirectory: bool,
    ncode: Option<String>,
    domain: String,
    section_count: usize,
    is_narou: bool,
    now: UtcNanos,
) -> (r: NovelRecord)
    requires
        section_count <= i64::MAX,
    ensures
        r.id == match existing_id {
            Some(id) => id,
            None => 0,
        },
        r.author@ == summary.toc_author@,
        r.title@ == summary.toc_title@,
        r.file_title == file_title,
        r.toc_url == toc_url,
        r.sitename == sitename,
        r.novel_type == fetched.novel_type,
        r.end == fetched.end,
        r.last_update == now,
        r.new_arrivals_date == Some(now),
        r.use_subdirectory == use_subdirectory,
        r.general_firstup == fetched.general_firstup,
        r.novelupdated_at == fetched.novelupdated_at,
        r.general_lastup == fetched.general_lastup,
        r.last_mail_date is None,
        r.tags@.len() == 0,
        r.ncode == ncode,
        r.domain == Some(domain),
        r.general_all_no == Some(section_count as i64),
        r.length == fetched.length,
        !r.suspend,
        r.is_narou == is_narou,
        r.last_check_date is None,
        !r.convert_failure,
{
    NovelRecord {
        id: match existing_id {
            Some(id) => id,
            None => 0,
        },
        author: summary.toc_author.clone(),
        title: summary.toc_title.clone(),
        file_title,
        toc_url,
        sitename,
        novel_type: fetched.novel_type,
        end: fetched.end,
        last_update: now,
        new_arrivals_date: Some(now),
        use_subdirectory,
        general_firstup: fetched.general_firstup,
        novelupdated_at: fetched.novelupdated_at,
        general_lastup: fetched.general_lastup,
        last_mail_date: None,
        tags: Vec::new(),
        ncode,
        domain: Some(domain),
        general_all_no: Some(section_count as i64),
        length: fetched.length,
        suspend: false,
        is_narou,
        last_check_date: None,
        convert_failure: false,
    }
}

} // verus!
