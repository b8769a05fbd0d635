//! One novel of the library database.
use vstd::prelude::*;

verus! {

/// An instant in UTC, as nanoseconds since the Unix epoch.
pub type UtcNanos = i128;

/// One novel of the library database. Instants are `UtcNanos`.
#[derive(Debug)]
pub struct NovelRecord {
    pub id: i64,
    pub author: String,
    pub title: String,
    pub file_title: String,
    pub toc_url: String,
    pub sitename: String,
    pub novel_type: u8,
    pub end: bool,
    pub last_update: UtcNanos,
    pub new_arrivals_date: Option<UtcNanos>,
    pub use_subdirectory: bool,
    pub general_firstup: Option<UtcNanos>,
    pub novelupdated_at: Option<UtcNanos>,
    pub general_lastup: Option<UtcNanos>,
    pub last_mail_date: Option<UtcNanos>,
    pub tags: Vec<String>,
    pub ncode: Option<String>,
    pub domain: Option<String>,
    pub general_all_no: Option<i64>,
    pub length: Option<i64>,
    pub suspend: bool,
    pub is_narou: bool,
    pub last_check_date: Option<UtcNanos>,
    pub convert_failure: bool,
}

pub open spec fn wide(a: i64) -> i128 {
    a as i128
}

pub open spec fn wide_byte(a: u8) -> i128 {
    a as i128
}

pub open spec fn wide_opt(a: Option<i64>) -> Option<i128> {
    match a {
        Some(x) => Some(x as i128),
        None => None,
    }
}

pub fn widen_i64(a: i64) -> (r: i128)
    ensures
        r == wide(a),
{
    a as i128
}

pub fn widen_u8(a: u8) -> (r: i128)
    ensures
        r == wide_byte(a),
{
    a as i128
}

pub fn widen_opt(a: Option<i64>) -> (r: Option<i128>)
    ensures
        r == wide_opt(a),
{
    match a {
        Some(x) => Some(x as i128),
        None => None,
    }
}

fn copy_text(o: &Option<String>) -> (r: Option<String>)
    ensures
        r == *o,
{
    match o {
        Some(s) => Some(s.clone()),
        None => None,
    }
}

impl NovelRecord {
    /// A copy of this record.
    pub fn duplicate(&self) -> (r: NovelRecord)
        ensures
            r.id == self.id,
            r.author == self.author,
            r.title == self.title,
            r.file_title == self.file_title,
            r.toc_url == self.toc_url,
            r.sitename == self.sitename,
            r.novel_type == self.novel_type,
            r.end == self.end,
            r.last_update == self.last_update,
            r.new_arrivals_date == self.new_arrivals_date,
            r.use_subdirectory == self.use_subdirectory,
            r.general_firstup == self.general_firstup,
            r.novelupdated_at == self.novelupdated_at,
            r.general_lastup == self.general_lastup,
            r.last_mail_date == self.last_mail_date,
            r.tags@ == self.tags@,
            r.ncode == self.ncode,
            r.domain == self.domain,
            r.general_all_no == self.general_all_no,
            r.length == self.length,
            r.suspend == self.suspend,
            r.is_narou == self.is_narou,
            r.last_check_date == self.last_check_date,
            r.convert_failure == self.convert_failure,
    {
        let mut tags: Vec<String> = Vec::new();
        let mut i: usize = 0;
        while i < self.tags.len()
            invariant
                i <= self.tags@.len(),
                tags@ == self.tags@.take(i as int),
            decreases self.tags@.len() - i,
        {
            tags.push(self.tags[i].clone());
            assert(tags@ =~= self.tags@.take(i + 1));
            i = i + 1;
        }
        assert(tags@ =~= self.tags@);
        NovelRecord {
            id: self.id,
            author: self.author.clone(),
            title: self.title.clone(),
            file_title: self.file_title.clone(),
            toc_url: self.toc_url.clone(),
            sitename: self.sitename.clone(),
            novel_type: self.novel_type,
            end: self.end,
            last_update: self.last_update,
            new_arrivals_date: self.new_arrivals_date,
            use_subdirectory: self.use_subdirectory,
            general_firstup: self.general_firstup,
            novelupdated_at: self.novelupdated_at,
            general_lastup: self.general_lastup,
            last_mail_date: self.last_mail_date,
            tags,
            ncode: copy_text(&self.ncode),
            domain: copy_text(&self.domain),
            general_all_no: self.general_all_no,
            length: self.length,
            suspend: self.suspend,
            is_narou: self.is_narou,
            last_check_date: self.last_check_date,
            convert_failure: self.convert_failure,
        }
    }
}

} // verus!

