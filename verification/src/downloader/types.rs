//! The values the downloader reads and writes.
use std::path::PathBuf;
use vstd::prelude::*;

verus! {

/// A page of the なろう API.
#[derive(Debug)]
pub struct NarouApiResult {
    pub allcount: i64,
    pub data: Vec<NarouApiEntry>,
}

/// One novel of a なろう API page.
#[derive(Debug)]
pub struct NarouApiEntry {
    pub ncode: String,
    pub title: String,
    pub writer: String,
    pub story: String,
    pub novel_type: i64,
    pub end: i64,
    pub general_all_no: i64,
    pub general_firstup: String,
    pub general_lastup: String,
    pub novelupdated_at: String,
    pub length: i64,
}

/// One section of a table of contents.
#[derive(Debug)]
pub struct SubtitleInfo {
    pub index: String,
    pub href: String,
    pub chapter: String,
    pub subchapter: String,
    pub subtitle: String,
    pub file_subtitle: String,
    pub subdate: String,
    pub subupdate: Option<String>,
    pub download_time: Option<String>,
}

/// A table of contents as fetched.
#[derive(Debug)]
pub struct TocObject {
    pub title: String,
    pub author: String,
    pub toc_url: String,
    pub story: Option<String>,
    pub subtitles: Vec<SubtitleInfo>,
    pub novel_type: Option<u8>,
}

/// The text parts of one section.
#[derive(Debug)]
pub struct SectionElement {
    pub data_type: String,
    pub introduction: String,
    pub postscript: String,
    pub body: String,
}

/// A section as stored.
#[derive(Debug)]
pub struct SectionFile {
    pub index: String,
    pub href: String,
    pub chapter: String,
    pub subchapter: String,
    pub subtitle: String,
    pub file_subtitle: String,
    pub subdate: String,
    pub subupdate: Option<String>,
    pub download_time: Option<String>,
    pub element: SectionElement,
}

/// What a download target names.
#[derive(Debug, Clone, Copy, PartialEq, Eq)]
pub enum TargetType {
    Url,
    Ncode,
    Id,
    Other,
}

/// A table of contents as stored.
#[derive(Debug)]
pub struct TocFile {
    pub title: String,
    pub author: String,
    pub toc_url: String,
    pub story: Option<String>,
    pub subtitles: Vec<SubtitleInfo>,
    pub novel_type: Option<u8>,
}

/// What one download did.
#[derive(Debug)]
pub struct DownloadResult {
    pub id: i64,
    pub title: String,
    pub author: String,
    pub novel_dir: PathBuf,
    pub new_novel: bool,
    pub updated_count: usize,
    pub total_count: usize,
}

pub const SECTION_SAVE_DIR: &'static str = "本文";

pub const RAW_DATA_DIR: &'static str = "raw";

pub const CACHE_SAVE_DIR: &'static str = "cache";

pub const MAX_SECTION_CACHE: usize = 20;

pub const ARCHIVE_ROOT_DIR: &'static str = "小説データ";

/// The text of a section element.
pub struct SectionElementView {
    pub data_type: Seq<char>,
    pub introduction: Seq<char>,
    pub postscript: Seq<char>,
    pub body: Seq<char>,
}

impl View for SectionElement {
    type V = SectionElementView;

    open spec fn view(&self) -> SectionElementView {
        SectionElementView {
            data_type: self.data_type@,
            introduction: self.introduction@,
            postscript: self.postscript@,
            body: self.body@,
        }
    }
}

impl SectionElement {
    /// A copy of this element.
    pub fn duplicate(&self) -> (r: SectionElement)
        ensures
            r@ == self@,
    {
        SectionElement {
            data_type: self.data_type.clone(),
            introduction: self.introduction.clone(),
            postscript: self.postscript.clone(),
            body: self.body.clone(),
        }
    }
}

} // verus!
