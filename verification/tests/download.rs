use std::path::PathBuf;

use narou_rs::db::novel_record::NovelRecord;
use narou_rs::downloader::download::{
    choose_sitename, decide_novel_type, digest_cancels, download_result, fresh_record, merge_record,
    merge_tags, old_section_at, section_download_time, section_progress_line, summarize_download,
    FetchedNovel, SectionOutcome,
};
use narou_rs::downloader::types::{SubtitleInfo, TocFile};

const NANOS: i128 = 1_000_000_000;

fn sample_record(id: i64, length: Option<i64>, tags: &[&str]) -> NovelRecord {
    NovelRecord {
        id,
        author: "author".to_string(),
        title: format!("title {id}"),
        file_title: format!("title {id}"),
        toc_url: format!("https://example.com/{id}/"),
        sitename: "Example".to_string(),
        novel_type: 1,
        end: false,
        last_update: (1_700_000_000 + id as i128) * NANOS,
        new_arrivals_date: None,
        use_subdirectory: false,
        general_firstup: None,
        novelupdated_at: None,
        general_lastup: None,
        last_mail_date: None,
        tags: tags.iter().map(|tag| tag.to_string()).collect(),
        ncode: None,
        domain: None,
        general_all_no: None,
        length,
        suspend: false,
        is_narou: true,
        last_check_date: None,
        convert_failure: false,
    }
}

fn subtitle(index: &str) -> SubtitleInfo {
    SubtitleInfo {
        index: index.to_string(),
        href: format!("/{index}/"),
        chapter: String::new(),
        subchapter: String::new(),
        subtitle: format!("part {index}"),
        file_subtitle: format!("part {index}"),
        subdate: "2024-01-01".to_string(),
        subupdate: None,
        download_time: None,
    }
}

fn old_toc(title: &str, author: &str, story: Option<&str>, sections: usize) -> TocFile {
    TocFile {
        title: title.to_string(),
        author: author.to_string(),
        toc_url: "https://example.com/1/".to_string(),
        story: story.map(|s| s.to_string()),
        subtitles: (1..=sections).map(|i| subtitle(&i.to_string())).collect(),
        novel_type: Some(1),
    }
}

fn outcome(downloaded: bool, was_saved: bool) -> SectionOutcome {
    SectionOutcome { downloaded, was_saved }
}

#[test]
fn digest_cancels_only_unforced_shrinking_tables() {
    assert!(digest_cancels(false, 5, 4));
    assert!(!digest_cancels(true, 5, 4));
    assert!(!digest_cancels(false, 4, 4));
    assert!(!digest_cancels(false, 3, 4));
}

#[test]
fn unchanged_update_reports_no_changes() {
    let rec = sample_record(1, None, &[]);
    let toc = old_toc("title 1", "author", Some("story"), 2);
    let outcomes = vec![outcome(false, true), outcome(false, true)];
    let story = Some("story".to_string());
    let s = summarize_download(false, Some(&rec), Some(&toc), "title 1", "author", &story, &outcomes);
    assert!(!s.has_changes);
    assert!(!s.title_changed && !s.author_changed && !s.story_changed && !s.sections_deleted);
    assert_eq!(s.updated_count, 0);
    assert_eq!(s.total_count, 2);
    assert!(!s.new_arrivals);
}

#[test]
fn summary_falls_back_and_flags_changes() {
    let rec = sample_record(1, None, &[]);
    let toc = old_toc("", "old author", None, 3);
    let outcomes = vec![outcome(true, true), outcome(true, false)];
    let story = Some("new story".to_string());
    let s = summarize_download(false, Some(&rec), Some(&toc), "", "new author", &story, &outcomes);
    assert_eq!(s.toc_title, "title 1");
    assert_eq!(s.toc_author, "new author");
    assert!(!s.title_changed);
    assert!(s.author_changed);
    assert!(s.story_changed);
    assert_eq!(s.story.as_deref(), Some("new story"));
    assert!(s.sections_deleted);
    assert_eq!(s.updated_count, 2);
    assert!(s.new_arrivals);
    assert!(s.has_changes);
    let r = download_result(1, &s, PathBuf::from("dir"), false);
    assert_eq!((r.id, r.title.as_str(), r.updated_count, r.total_count), (1, "title 1", 2, 2));
}

#[test]
fn new_novel_always_has_changes() {
    let s = summarize_download(true, None, None, "t", "a", &None, &vec![]);
    assert!(s.has_changes && s.new_arrivals);
    assert_eq!(s.toc_title, "t");
}

#[test]
fn site_tags_are_added_once_in_order() {
    let tags = vec!["a".to_string(), "b".to_string()];
    let site = vec!["b".to_string(), "c".to_string(), "c".to_string(), "d".to_string()];
    assert_eq!(merge_tags(&tags, &site), vec!["a", "b", "c", "d"]);
}

#[test]
fn merged_record_keeps_library_fields() {
    let mut existing = sample_record(7, Some(100), &["old"]);
    existing.ncode = Some("n1234ab".to_string());
    existing.new_arrivals_date = Some(5 * NANOS);
    existing.suspend = true;
    let mut fresh = sample_record(0, Some(200), &[]);
    fresh.title = String::new();
    fresh.author = "new author".to_string();
    fresh.new_arrivals_date = Some(9 * NANOS);
    fresh.novel_type = 2;
    let merged = merge_record(Some(existing), fresh, Vec::new(), 0, 99);
    assert_eq!(merged.id, 7);
    assert_eq!(merged.title, "title 7");
    assert_eq!(merged.author, "new author");
    assert_eq!(merged.length, Some(200));
    assert_eq!(merged.novel_type, 1);
    assert_eq!(merged.ncode.as_deref(), Some("n1234ab"));
    assert_eq!(merged.new_arrivals_date, Some(5 * NANOS));
    assert_eq!(merged.tags, vec!["old"]);
    assert!(!merged.suspend);
}

#[test]
fn merged_record_of_a_new_novel_takes_the_new_id() {
    let fresh = sample_record(0, None, &[]);
    let merged = merge_record(None, fresh, vec!["t".to_string()], 3, 42);
    assert_eq!(merged.id, 42);
    assert_eq!(merged.tags, vec!["t"]);
}

#[test]
fn novel_type_comes_from_info_then_text() {
    assert_eq!(decide_novel_type(Some(2), None, Some((1, true))), (2, false));
    assert_eq!(decide_novel_type(Some(1), Some(true), None), (1, true));
    assert_eq!(decide_novel_type(None, Some(true), Some((2, true))), (2, true));
    assert_eq!(decide_novel_type(None, None, None), (1, false));
}

#[test]
fn sitename_prefers_the_library_then_the_info() {
    let mut rec = sample_record(1, None, &[]);
    assert_eq!(choose_sitename(Some(&rec), &Some("Info".to_string()), "Site"), "Example");
    rec.sitename = String::new();
    assert_eq!(choose_sitename(Some(&rec), &Some("Info".to_string()), "Site"), "Info");
    assert_eq!(choose_sitename(None, &None, "Site"), "Site");
}

#[test]
fn fresh_record_takes_the_download_facts() {
    let s = summarize_download(true, None, None, "T", "A", &None, &vec![outcome(true, false)]);
    let fetched = FetchedNovel {
        novel_type: 2,
        end: true,
        general_firstup: Some(1),
        novelupdated_at: None,
        general_lastup: Some(2),
        length: Some(300),
    };
    let rec = fresh_record(
        None,
        fetched,
        &s,
        "file".to_string(),
        "https://example.com/9/".to_string(),
        "Example".to_string(),
        false,
        Some("n9".to_string()),
        "example.com".to_string(),
        1,
        false,
        77,
    );
    assert_eq!((rec.id, rec.title.as_str(), rec.author.as_str()), (0, "T", "A"));
    assert_eq!(rec.general_all_no, Some(1));
    assert_eq!(rec.new_arrivals_date, Some(77));
    assert_eq!(rec.domain.as_deref(), Some("example.com"));
    assert!(rec.tags.is_empty() && !rec.suspend);
}

#[test]
fn duplicate_copies_every_field() {
    let mut rec = sample_record(3, Some(9), &["x", "y"]);
    rec.ncode = Some("n3".to_string());
    let copy = rec.duplicate();
    assert_eq!(copy.id, 3);
    assert_eq!(copy.tags, vec!["x", "y"]);
    assert_eq!(copy.ncode.as_deref(), Some("n3"));
    assert_eq!(copy.length, Some(9));
}

#[test]
fn old_section_is_the_last_with_its_index() {
    let mut olds = vec![subtitle("1"), subtitle("2"), subtitle("1")];
    olds[2].subtitle = "again".to_string();
    assert_eq!(old_section_at(&olds, "1"), Some(2));
    assert_eq!(old_section_at(&olds, "2"), Some(1));
    assert_eq!(old_section_at(&olds, "3"), None);
    assert_eq!(old_section_at(&Vec::new(), "1"), None);
}

#[test]
fn download_time_is_now_or_the_saved_one() {
    let mut old = subtitle("1");
    old.download_time = Some("2024-01-02 03:04:05".to_string());
    assert_eq!(section_download_time(true, "now", Some(&old)), Some("now".to_string()));
    assert_eq!(section_download_time(false, "now", Some(&old)), Some("2024-01-02 03:04:05".to_string()));
    assert_eq!(section_download_time(false, "now", None), None);
}

#[test]
fn progress_lines_number_parts_and_mark_news() {
    let section = subtitle("12");
    assert_eq!(section_progress_line(1, &section, 3, 10, true, true, true, false), "第12部分　part 12 (3/10) (新着)");
    assert_eq!(section_progress_line(1, &section, 3, 10, true, true, false, false), "第12部分　part 12 (3/10)");
    assert_eq!(section_progress_line(1, &section, 3, 10, true, false, true, true), "第12部分　part 12 (3/10) (更新あり)");
    assert_eq!(section_progress_line(1, &section, 3, 10, false, false, true, true), "第12部分　part 12 (3/10)");
    assert_eq!(section_progress_line(2, &section, 1, 1, false, false, true, false), "短編　part 12 (1/1)");
    let long = subtitle("12345");
    assert_eq!(section_progress_line(1, &long, 1, 2, false, false, true, false), "part 12345 (1/2)");
}
