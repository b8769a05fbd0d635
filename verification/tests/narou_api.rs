use narou_rs::db::novel_record::NovelRecord;
use narou_rs::downloader::narou_api::{
    answer_entries, api_updates, apply_api_entry, narou_api_batch_urls, narou_ncodes, ApiEntry,
};

fn record(id: i64, ncode: Option<&str>) -> NovelRecord {
    NovelRecord {
        id,
        author: "author".to_string(),
        title: format!("title {id}"),
        file_title: format!("title {id}"),
        toc_url: format!("https://ncode.syosetu.com/{id}/"),
        sitename: "小説家になろう".to_string(),
        novel_type: 1,
        end: false,
        last_update: 0,
        new_arrivals_date: None,
        use_subdirectory: false,
        general_firstup: None,
        novelupdated_at: None,
        general_lastup: None,
        last_mail_date: None,
        tags: vec!["tag".to_string()],
        ncode: ncode.map(str::to_string),
        domain: None,
        general_all_no: None,
        length: None,
        suspend: false,
        is_narou: true,
        last_check_date: None,
        convert_failure: false,
    }
}

fn entry(ncode: &str) -> ApiEntry {
    ApiEntry {
        ncode: ncode.to_string(),
        title: None,
        writer: None,
        end: None,
        general_all_no: None,
        length: None,
        general_firstup: None,
        general_lastup: None,
        novelupdated_at: None,
        novel_type: None,
    }
}

#[test]
fn batches_ask_about_fifty_novels_at_a_time() {
    let ncodes: Vec<String> = (0..120).map(|i| format!("n{i:04}aa")).collect();
    let batches = narou_api_batch_urls(&ncodes);
    assert_eq!(batches.iter().map(|(_, n)| *n).collect::<Vec<_>>(), vec![50, 50, 20]);
    assert_eq!(
        batches[2].0,
        format!(
            "https://api.syosetu.com/novelapi/api/?of=n-t-nt-ga-gf-nu-gl-l-w-s-e&out=json&ncode={}",
            ncodes[100..].join("-")
        )
    );
    assert!(narou_api_batch_urls(&Vec::new()).is_empty());
}

#[test]
fn only_records_with_an_ncode_are_asked_about() {
    let records = vec![record(1, Some("n0001aa")), record(2, None), record(3, Some("N0003BB"))];
    assert_eq!(narou_ncodes(&records), vec!["n0001aa".to_string(), "N0003BB".to_string()]);
}

#[test]
fn entries_update_the_record_with_their_ncode() {
    let records = vec![record(1, Some("n0001aa")), record(3, Some("N0003BB"))];
    let mut e = entry("n0003bb");
    e.title = Some("新しい題".to_string());
    e.writer = Some("作者".to_string());
    e.end = Some(1);
    e.general_all_no = Some(12);
    e.length = Some(34567);
    e.general_lastup = Some(Some(1_700_000_000_000_000_000));
    e.novel_type = Some(3);
    let updates = api_updates(&records, &vec![entry("n9999zz"), e]);
    assert_eq!(updates.len(), 1);
    let u = &updates[0];
    assert_eq!(u.id, 3);
    assert_eq!(u.title, "新しい題");
    assert_eq!(u.author, "作者");
    assert!(u.end);
    assert_eq!(u.general_all_no, Some(12));
    assert_eq!(u.length, Some(34567));
    assert_eq!(u.general_lastup, Some(1_700_000_000_000_000_000));
    assert_eq!(u.general_firstup, None);
    assert_eq!(u.novel_type, 1);
    assert_eq!(u.tags, vec!["tag".to_string()]);
    assert_eq!(u.ncode.as_deref(), Some("N0003BB"));
}

#[test]
fn an_entry_without_fields_leaves_the_record_as_it_was() {
    let r = record(5, Some("n0005cc"));
    let mut e = entry("n0005cc");
    e.novel_type = Some(2);
    let u = apply_api_entry(&r, &e);
    assert_eq!(u.title, r.title);
    assert_eq!(u.author, r.author);
    assert_eq!(u.end, r.end);
    assert_eq!(u.novel_type, 2);
}

#[test]
fn answer_entries_skip_the_count_and_elements_without_ncode() {
    let items = vec![Some(entry("count")), Some(entry("n1")), None, Some(entry("n2")), None];
    let entries = answer_entries(items);
    let ncodes: Vec<&str> = entries.iter().map(|e| e.ncode.as_str()).collect();
    assert_eq!(ncodes, vec!["n1", "n2"]);
    assert!(answer_entries(vec![None]).is_empty());
    assert!(answer_entries(Vec::new()).is_empty());
}
