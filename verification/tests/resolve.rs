use narou_rs::db::database::Database;
use narou_rs::db::novel_record::NovelRecord;
use narou_rs::downloader::resolve::{resolve_target, resolve_target_for_download};
use narou_rs::downloader::site_setting::{
    SiteSetting, SiteSettingEntry, SiteSettingValue, SiteUrlTemplate,
};
use narou_rs::error::NarouError;

fn setting(top_url: &str, toc_url: SiteUrlTemplate) -> SiteSetting {
    SiteSetting {
        name: "Arcadia".to_string(),
        domain: "www.mai-net.net".to_string(),
        scheme: "http".to_string(),
        top_url: top_url.to_string(),
        sitename: "Arcadia".to_string(),
        encoding: String::new(),
        toc_url,
        cookie: None,
        href: None,
        next_toc: None,
        next_url: None,
        toc_page_max: None,
        body_pattern: None,
        introduction_pattern: None,
        postscript_pattern: None,
        novel_info_url: Some("\\k<toc_url>?info".to_string()),
        error_message: None,
        title_strip_pattern: None,
        narou_api_url: None,
        illust_current_url: None,
        illust_grep_pattern: None,
        title: None,
        author: None,
        story: None,
        t: None,
        w: None,
        s: None,
        nt: None,
        ga: None,
        gf: None,
        nu: None,
        gl: None,
        l: None,
        tags: None,
        sitename_pattern: None,
        novel_type_string: None,
        url: None,
        series_url: None,
        author_url: None,
        author_api_url: None,
        author_series_episodes_url: None,
        login_url: None,
        headers: None,
        subtitles: None,
    }
}

fn narou_site() -> SiteSetting {
    let mut site = setting(
        "https://\\k<domain>",
        SiteUrlTemplate::Single("\\k<top_url>/\\k<ncode>/".to_string()),
    );
    site.domain = "ncode.syosetu.com".to_string();
    site.url = Some(SiteSettingValue::Multiple(vec![SiteSettingEntry::Plain(
        "https?://\\k<domain>/(?<ncode>n\\d+[a-z]+)/?".to_string(),
    )]));
    site
}

fn record(id: i64, title: &str, toc_url: &str, ncode: Option<&str>) -> NovelRecord {
    NovelRecord {
        id,
        author: "author".to_string(),
        title: title.to_string(),
        file_title: title.to_string(),
        toc_url: toc_url.to_string(),
        sitename: "小説家になろう".to_string(),
        novel_type: 1,
        end: false,
        last_update: 0,
        new_arrivals_date: None,
        use_subdirectory: false,
        general_firstup: None,
        novelupdated_at: None,
        general_lastup: None,
        last_mail_date: None,
        tags: Vec::new(),
        ncode: ncode.map(|n| n.to_string()),
        domain: None,
        general_all_no: None,
        length: None,
        suspend: false,
        is_narou: true,
        last_check_date: None,
        convert_failure: false,
    }
}

fn filed_db() -> Database {
    let mut db = Database::new();
    db.insert(record(5, "Some Story", "https://ncode.syosetu.com/n1234ab/", Some("n1234ab")));
    db
}

#[test]
fn url_target_of_a_new_novel_has_no_id() {
    let db = Database::new();
    let sites = vec![narou_site()];
    let r = resolve_target_for_download("https://ncode.syosetu.com/n7777xy/", &db, &sites);
    assert!(matches!(r, Ok((None, 0))));
}

#[test]
fn url_target_of_a_filed_novel_finds_it_by_its_table_of_contents() {
    let db = filed_db();
    let sites = vec![narou_site()];
    let r = resolve_target_for_download("https://ncode.syosetu.com/n1234ab", &db, &sites);
    assert!(matches!(r, Ok((Some(5), 0))));
}

#[test]
fn url_target_without_a_site_is_rejected() {
    let db = filed_db();
    let sites = vec![narou_site()];
    let r = resolve_target_for_download("https://example.com/x", &db, &sites);
    assert!(matches!(r, Err(NarouError::InvalidTarget(m)) if m == "No site setting for URL: https://example.com/x"));
}

#[test]
fn ncode_target_finds_the_filed_novel_in_any_case() {
    let db = filed_db();
    let sites = vec![narou_site()];
    let r = resolve_target_for_download("N1234AB", &db, &sites);
    assert!(matches!(r, Ok((Some(5), 0))));
}

#[test]
fn ncode_target_of_a_new_novel_goes_to_the_main_site() {
    let db = filed_db();
    let sites = vec![setting("https://example.com", SiteUrlTemplate::Single("x".to_string())), narou_site()];
    let r = resolve_target_for_download("n9999zz", &db, &sites);
    assert!(matches!(r, Ok((None, 1))));
    let none: Vec<SiteSetting> = Vec::new();
    let r = resolve_target_for_download("n9999zz", &db, &none);
    assert!(matches!(r, Err(NarouError::InvalidTarget(m)) if m == "対応外のncodeです(n9999zz)"));
}

#[test]
fn id_target_names_a_filed_novel() {
    let db = filed_db();
    let sites = vec![narou_site()];
    assert!(matches!(resolve_target_for_download("5", &db, &sites), Ok((Some(5), 0))));
    let r = resolve_target_for_download("7", &db, &sites);
    assert!(matches!(r, Err(NarouError::NotFound(m)) if m == "Novel not found for ID: 7"));
}

#[test]
fn title_target_names_a_filed_novel() {
    let db = filed_db();
    let sites = vec![narou_site()];
    assert!(matches!(resolve_target_for_download("some story", &db, &sites), Ok((Some(5), 0))));
    let r = resolve_target_for_download("nothing here", &db, &sites);
    assert!(matches!(r, Err(NarouError::NotFound(m)) if m == "Novel not found: nothing here (use URL for new downloads)"));
    let none: Vec<SiteSetting> = Vec::new();
    let r = resolve_target_for_download("Some Story", &db, &none);
    assert!(matches!(r, Err(NarouError::SiteSetting(m)) if m == "No matching site setting"));
}

#[test]
fn resolve_target_names_filed_novels_only() {
    let db = filed_db();
    let sites = vec![narou_site()];
    assert!(matches!(resolve_target("https://ncode.syosetu.com/n1234ab/", &db, &sites), Ok((5, 0))));
    assert!(matches!(resolve_target("N1234AB", &db, &sites), Ok((5, 0))));
    assert!(matches!(resolve_target("5", &db, &sites), Ok((5, 0))));
    assert!(matches!(resolve_target("some story", &db, &sites), Ok((5, 0))));
    let r = resolve_target("https://ncode.syosetu.com/n7777xy/", &db, &sites);
    assert!(matches!(r, Err(NarouError::NotFound(m)) if m == "Novel not found for URL: https://ncode.syosetu.com/n7777xy/"));
    let r = resolve_target("n7777xy", &db, &sites);
    assert!(matches!(r, Err(NarouError::NotFound(m)) if m == "Novel not found for ncode: n7777xy"));
    let r = resolve_target("https://example.com/x", &db, &sites);
    assert!(matches!(r, Err(NarouError::InvalidTarget(m)) if m == "No site setting found for URL: https://example.com/x"));
    let r = resolve_target("nothing", &db, &sites);
    assert!(matches!(r, Err(NarouError::NotFound(m)) if m == "Novel not found: nothing"));
}
