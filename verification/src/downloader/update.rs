//! Whether a section of a table of contents has to be downloaded again.
//!
//! The decision rests on what the tables of contents say; looking at the
//! stored section file and downloading are left to the caller, which hands
//! over what it saw.
use vstd::prelude::*;
use crate::dates::{date_is_newer, date_string_is_newer, date_string_to_ymd, date_ymd};
use crate::text::text_le;
use crate::downloader::types::SubtitleInfo;
use crate::text::chars_eq;

verus! {

/// What to do with one section.
#[derive(Debug)]
pub enum SectionUpdate {
    /// Download it.
    Download,
    /// Keep the stored copy.
    Keep,
    /// The dates say it changed on `day` (written `YYYYMMDD`, `None` when
    /// the date cannot be read): when the stored copy is from that same day,
    /// download it and keep the stored copy if its content is unchanged;
    /// otherwise download it.
    CompareOnDay(Option<String>),
}

/// The view of a decision.
pub enum UpdateView {
    Download,
    Keep,
    CompareOnDay(Option<Seq<char>>),
}

impl SectionUpdate {
    pub open spec fn view(&self) -> UpdateView {
        match self {
            SectionUpdate::Download => UpdateView::Download,
            SectionUpdate::Keep => UpdateView::Keep,
            SectionUpdate::CompareOnDay(d) => UpdateView::CompareOnDay(
                match d {
                    Some(s) => Some(s@),
                    None => None,
                },
            ),
        }
    }
}

/// The decision once the dates are compared: keep the section unless the
/// later date is newer than `basis`; with a strong update, compare contents
/// when the stored copy is from the day of `basis`.
pub open spec fn after_dates(newer: bool, basis: Seq<char>, strong_update: bool) -> UpdateView {
    if !newer {
        UpdateView::Keep
    } else if strong_update {
        UpdateView::CompareOnDay(date_ymd(basis))
    } else {
        UpdateView::Download
    }
}

/// The decision for a section listed before as `old_*` and now as
/// `latest_*`, whose stored file exists or not.
///
/// A changed subtitle or chapter, or a missing file, means a download. The
/// update dates are compared when the latest listing has one (an old
/// listing without one stands on its publication date); an empty old
/// update date means a download exactly when the latest one is not empty.
/// Otherwise the publication dates are compared, an empty old one meaning a
/// download.
pub open spec fn section_update(
    latest_subtitle: Seq<char>,
    latest_chapter: Seq<char>,
    latest_subdate: Seq<char>,
    latest_subupdate: Option<Seq<char>>,
    old_subtitle: Seq<char>,
    old_chapter: Seq<char>,
    old_subdate: Seq<char>,
    old_subupdate: Option<Seq<char>>,
    old_file_exists: bool,
    strong_update: bool,
) -> UpdateView {
    if old_subtitle != latest_subtitle || old_chapter != latest_chapter || !old_file_exists {
        UpdateView::Download
    } else {
        match latest_subupdate {
            Some(latest_up) => {
                let old_up = match old_subupdate {
                    Some(u) => u,
                    None => old_subdate,
                };
                if old_up.len() == 0 {
                    if latest_up.len() == 0 {
                        UpdateView::Keep
                    } else {
                        UpdateView::Download
                    }
                } else {
                    after_dates(date_is_newer(latest_up, old_up), old_up, strong_update)
                }
            },
            None => if old_subdate.len() == 0 {
                UpdateView::Download
            } else {
                after_dates(date_is_newer(latest_subdate, old_subdate), old_subdate, strong_update)
            },
        }
    }
}

pub open spec fn opt_string_view(s: Option<String>) -> Option<Seq<char>> {
    match s {
        Some(v) => Some(v@),
        None => None,
    }
}

fn dated_decision(newer: bool, basis: &str, strong_update: bool) -> (r: SectionUpdate)
    ensures
        r@ == after_dates(newer, basis@, strong_update),
{
    if !newer {
        SectionUpdate::Keep
    } else if strong_update {
        SectionUpdate::CompareOnDay(date_string_to_ymd(basis))
    } else {
        SectionUpdate::Download
    }
}

/// Decides what to do with a section that the previous table of contents
/// listed as `old` (`None` when it was not listed: a download) and the latest
/// one lists as `latest`; `old_file_exists` says whether its stored file is
/// there.
pub fn decide_section_update(
    latest: &SubtitleInfo,
    old: Option<&SubtitleInfo>,
    old_file_exists: bool,
    strong_update: bool,
) -> (r: SectionUpdate)
    ensures
        old is None ==> r@ == UpdateView::Download,
        old matches Some(o) ==> r@ == section_update(
            latest.subtitle@,
            latest.chapter@,
            latest.subdate@,
            opt_string_view(latest.subupdate),
            o.subtitle@,
            o.chapter@,
            o.subdate@,
            opt_string_view(o.subupdate),
            old_file_exists,
            strong_update,
        ),
        old matches Some(o) ==> o.subtitle@ == latest.subtitle@ && o.chapter@ == latest.chapter@
            && o.subdate@ == latest.subdate@ && opt_string_view(o.subupdate) == opt_string_view(
            latest.subupdate,
        ) && old_file_exists && (latest.subupdate is Some || latest.subdate@.len() > 0) ==> r@
            == UpdateView::Keep,
{
    proof {
        if latest.subupdate is Some || latest.subdate@.len() > 0 {
            lemma_unchanged_listing_is_kept(
                latest.subtitle@,
                latest.chapter@,
                latest.subdate@,
                opt_string_view(latest.subupdate),
                strong_update,
            );
        }
    }
    let old = match old {
        Some(o) => o,
        None => {
            return SectionUpdate::Download;
        },
    };
    if !chars_eq(old.subtitle.as_str(), latest.subtitle.as_str()) || !chars_eq(
        old.chapter.as_str(),
        latest.chapter.as_str(),
    ) || !old_file_exists {
        return SectionUpdate::Download;
    }
    match &latest.subupdate {
        Some(latest_up) => {
            let old_up = match &old.subupdate {
                Some(u) => u.as_str(),
                None => old.subdate.as_str(),
            };
            if old_up.unicode_len() == 0 {
                if latest_up.unicode_len() == 0 {
                    SectionUpdate::Keep
                } else {
                    SectionUpdate::Download
                }
            } else {
                dated_decision(date_string_is_newer(latest_up.as_str(), old_up), old_up, strong_update)
            }
        },
        None => {
            if old.subdate.unicode_len() == 0 {
                SectionUpdate::Download
            } else {
                dated_decision(
                    date_string_is_newer(latest.subdate.as_str(), old.subdate.as_str()),
                    old.subdate.as_str(),
                    strong_update,
                )
            }
        },
    }
}

/// The day a stored section was downloaded, from its recorded download time
/// (`YYYYMMDD`); `None` when there is none or it cannot be read, in which
/// case the caller falls back on the file's modification day.
pub fn recorded_download_day(download_time: Option<&str>) -> (r: Option<String>)
    ensures
        match download_time {
            Some(t) => opt_string_view(r) == date_ymd(t@),
            None => r is None,
        },
{
    match download_time {
        Some(t) => date_string_to_ymd(t),
        None => None,
    }
}

/// Whether the day the dates point at differs from the day the stored copy
/// was downloaded (either may be unknown): then the section is downloaded
/// without comparing contents.
pub fn day_differs(day: &Option<String>, stored_day: &Option<String>) -> (r: bool)
    ensures
        r == (opt_string_view(*day) != opt_string_view(*stored_day)),
{
    match (day, stored_day) {
        (Some(a), Some(b)) => !chars_eq(a.as_str(), b.as_str()),
        (None, None) => false,
        _ => true,
    }
}

/// After a content comparison: the section is downloaded unless the stored
/// copy's digest equals the new one.
pub fn content_changed(old_digest: Option<&str>, new_digest: &str) -> (r: bool)
    ensures
        r == !(old_digest matches Some(d) && d@ == new_digest@),
{
    match old_digest {
        Some(d) => !chars_eq(d, new_digest),
        None => true,
    }
}

proof fn lemma_text_le_reflexive(a: Seq<char>)
    ensures
        text_le(a, a),
    decreases a.len(),
{
    if a.len() > 0 {
        lemma_text_le_reflexive(a.drop_first());
    }
}

proof fn lemma_not_newer_than_itself(d: Seq<char>)
    ensures
        !date_is_newer(d, d),
{
    lemma_text_le_reflexive(d);
}

/// A section listed the same way as before (same subtitle, chapter,
/// publication date and update date) whose stored file exists, and which
/// carries a date to compare, is kept.
pub proof fn lemma_unchanged_listing_is_kept(
    subtitle: Seq<char>,
    chapter: Seq<char>,
    subdate: Seq<char>,
    subupdate: Option<Seq<char>>,
    strong_update: bool,
)
    requires
        subupdate is Some || subdate.len() > 0,
    ensures
        section_update(
            subtitle,
            chapter,
            subdate,
            subupdate,
            subtitle,
            chapter,
            subdate,
            subupdate,
            true,
            strong_update,
        ) == UpdateView::Keep,
{
    lemma_not_newer_than_itself(subdate);
    if let Some(u) = subupdate {
        lemma_not_newer_than_itself(u);
    }
}

/// When both listings carry an update date, the latest one is compared
/// with the old update date alone: the old publication date does not
/// matter, and a latest update date not newer than a non-empty old one
/// keeps the section.
pub proof fn lemma_update_dates_compared(
    latest_subtitle: Seq<char>,
    latest_chapter: Seq<char>,
    latest_subdate: Seq<char>,
    latest_up: Seq<char>,
    old_subtitle: Seq<char>,
    old_chapter: Seq<char>,
    old_subdate: Seq<char>,
    other_old_subdate: Seq<char>,
    old_up: Seq<char>,
    old_file_exists: bool,
    strong_update: bool,
)
    ensures
        section_update(
            latest_subtitle,
            latest_chapter,
            latest_subdate,
            Some(latest_up),
            old_subtitle,
            old_chapter,
            old_subdate,
            Some(old_up),
            old_file_exists,
            strong_update,
        ) == section_update(
            latest_subtitle,
            latest_chapter,
            latest_subdate,
            Some(latest_up),
            old_subtitle,
            old_chapter,
            other_old_subdate,
            Some(old_up),
            old_file_exists,
            strong_update,
        ),
        old_subtitle == latest_subtitle && old_chapter == latest_chapter && old_file_exists
            && old_up.len() > 0 && !date_is_newer(latest_up, old_up) ==> section_update(
            latest_subtitle,
            latest_chapter,
            latest_subdate,
            Some(latest_up),
            old_subtitle,
            old_chapter,
            old_subdate,
            Some(old_up),
            old_file_exists,
            strong_update,
        ) == UpdateView::Keep,
{
}

} // verus!
