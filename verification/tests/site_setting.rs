use narou_rs::downloader::site_setting::info_extraction::{
    capture_name_matches_key, try_regex_captures, try_regex_captures_all,
};
use narou_rs::downloader::site_setting::{
    dedup_paths, SiteSetting, SiteSettingEntry, SiteSettingValue, SiteUrlTemplate, SiteUrlTemplateEntry,
};
use narou_rs::downloader::toc::{next_toc_url, parse_subtitles, toc_page_count};
use narou_rs::downloader::util::{build_section_url, decode_html_text, decode_numeric_entities};
use narou_rs::keyed::TextMap;

fn setting(top_url: &str, toc_url: SiteUrlTemplate) -> SiteSetting {
    SiteSetting {
        name: "Arcadia".to_string(),
        domain: "www.mai-net.net".to_string(),
        scheme: "http".to_string(),
        top_url: top_url.to_string(),
        sitename: "Arcadia".to_string(),
        encoding: String::new(),
        toc_url,
        cookie: None,
        href: None,
        next_toc: None,
        next_url: None,
        toc_page_max: None,
        body_pattern: None,
        introduction_pattern: None,
        postscript_pattern: None,
        novel_info_url: Some("\\k<toc_url>?info".to_string()),
        error_message: None,
        title_strip_pattern: None,
        narou_api_url: None,
        illust_current_url: None,
        illust_grep_pattern: None,
        title: None,
        author: None,
        story: None,
        t: None,
        w: None,
        s: None,
        nt: None,
        ga: None,
        gf: None,
        nu: None,
        gl: None,
        l: None,
        tags: None,
        sitename_pattern: None,
        novel_type_string: None,
        url: None,
        series_url: None,
        author_url: None,
        author_api_url: None,
        author_series_episodes_url: None,
        login_url: None,
        headers: None,
        subtitles: None,
    }
}

fn captures(pairs: &[(&str, &str)]) -> TextMap {
    let mut m = TextMap::new();
    for (k, v) in pairs {
        m.insert(k, v);
    }
    m
}

#[test]
fn build_section_url_decodes_html_entities_in_href() {
    let setting = setting("\\k<scheme>://\\k<domain>", SiteUrlTemplate::Single("\\k<top_url>/".to_string()));
    let url = build_section_url(
        &setting,
        "http://www.mai-net.net/bbs/sst/sst.php?act=dump&cate=all&all=6858&n=0&count=1",
        "/bbs/sst/sst.php?act=dump&amp;cate=all&amp;all=6858&amp;n=0#kiji",
    );
    assert_eq!(url, "http://www.mai-net.net/bbs/sst/sst.php?act=dump&cate=all&all=6858&n=0");
}

#[test]
fn section_urls_resolve_against_the_table_of_contents() {
    let setting = setting("https://example.com", SiteUrlTemplate::Single("https://example.com/toc/".to_string()));
    assert_eq!(build_section_url(&setting, "https://example.com/n1//", "2.html"), "https://example.com/n1/2.html");
    assert_eq!(build_section_url(&setting, "https://example.com/n1/", "#top"), "https://example.com/n1/");
    assert_eq!(build_section_url(&setting, "https://example.com/n1/", "https://other.org/x"), "https://other.org/x");
}

#[test]
fn references_are_filled_from_captures_then_site_texts() {
    let setting = setting("\\k<scheme>://\\k<domain>", SiteUrlTemplate::Single("\\k<top_url>/\\k<ncode>/".to_string()));
    assert_eq!(setting.top_url(), "http://www.mai-net.net");
    assert_eq!(setting.toc_url(), "http://www.mai-net.net/\\k<ncode>/");
    let caps = captures(&[("ncode", "n1234ab"), ("domain", "override.example")]);
    assert_eq!(
        setting.interpolate_with_captures("\\k<top_url>/\\k<ncode>/", &caps),
        "http://override.example/n1234ab/"
    );
    assert_eq!(setting.get_toc_url_with_captures(&caps), "http://override.example/n1234ab/");
    assert_eq!(
        setting.interpolate_subtitles_href("\\k<top_url>/\\k<ncode>/\\k<index>/", "7", &caps),
        "http://override.example/n1234ab/7/"
    );
}

#[test]
fn unknown_names_stay_and_cycles_end_empty() {
    let setting = setting("\\k<top_url>", SiteUrlTemplate::Single("x".to_string()));
    assert_eq!(setting.interpolate("a\\k<missing>b"), "a\\k<missing>b");
    assert_eq!(setting.interpolate("a\\\\\\k<missing>b"), "a\\k<missing>b");
    assert_eq!(setting.top_url(), "");
    let caps = captures(&[("a", "\\k<b>\\k<b>"), ("b", "x")]);
    assert_eq!(setting.interpolate_with_captures("\\k<a>|\\k<b>", &caps), "x|x");
}

#[test]
fn templates_by_target_pick_the_first_matching_entry() {
    let by_target = SiteUrlTemplate::ByTarget {
        by_target: vec![
            SiteUrlTemplateEntry { pattern: "/series/".to_string(), url: "https://api/series/\\k<id>".to_string() },
            SiteUrlTemplateEntry { pattern: "/novel/".to_string(), url: "https://api/novel/\\k<id>".to_string() },
        ],
    };
    assert_eq!(by_target.selected(Some("https://s/novel/3")), Some("https://api/novel/\\k<id>"));
    assert_eq!(by_target.selected(None), None);
    let setting = setting("https://s", by_target);
    assert_eq!(setting.toc_url(), "");
    let caps = captures(&[("__target_url", "https://s/series/9"), ("id", "9")]);
    assert_eq!(setting.get_toc_url_with_captures(&caps), "https://api/series/9");
    assert_eq!(setting.novel_info_url_with_captures(&caps), Some("https://api/series/9?info".to_string()));
}

#[test]
fn numeric_references_decode_to_their_characters() {
    let mut s = "&#x41;&#66;&#x3042;&#12354;".to_string();
    decode_numeric_entities(&mut s);
    assert_eq!(s, "ABああ");
    let mut s = "&#xD800;&#99999999999;&#x110000;".to_string();
    decode_numeric_entities(&mut s);
    assert_eq!(s, "\u{FFFD}\u{FFFD}\u{FFFD}");
    let mut s = "no references &amp; here".to_string();
    decode_numeric_entities(&mut s);
    assert_eq!(s, "no references &amp; here");
}

#[test]
fn html_text_decodes_named_and_numeric_references() {
    assert_eq!(decode_html_text("a&amp;b&lt;c&gt;&quot;&#39;&copy;&nbsp;\u{a0}&#x26;"), "a&b<c>\"'(c)  &");
    assert_eq!(decode_html_text("&amp;lt;"), "<");
}

#[test]
fn test_ncode_tags_regex_match() {
    let pattern = "<dt class=\"p-infotop-data__title\">\\s*キーワード\\s*</dt>\\s*<dd class=\"p-infotop-data__value\">\\s*\n(?<tag>(?:(?!キーワードが設定されていません)[\\s\\S])*?)\\s*</dd>";
    let source = "<dt class=\"p-infotop-data__title\">キーワード</dt>\n<dd class=\"p-infotop-data__value\">\nR15&nbsp;残酷な描写あり&nbsp;近未来 シムワールド 無敵\n</dd>";
    let result = try_regex_captures(pattern, source, "tags");
    assert!(result.is_some(), "tags regex should match via fancy-regex fallback");
    let tag_val = result.unwrap();
    assert!(tag_val.contains("R15"), "should contain R15, got: {}", tag_val);
}

#[test]
fn test_multiline_tag_capture_collects_all_matches() {
    let pattern = "^tag::(?<tag>.+?)$";
    let source = "tag::tag-a\ntag::tag-b\ntag::tag-c";
    let result = try_regex_captures_all(pattern, source, "tags");
    assert_eq!(result, vec!["tag-a", "tag-b", "tag-c"]);
}

#[test]
fn capture_names_stand_for_their_keys() {
    assert!(capture_name_matches_key("w", "writer"));
    assert!(capture_name_matches_key("author", "w"));
    assert!(capture_name_matches_key("custom", "custom"));
    assert!(!capture_name_matches_key("t", "story"));
}

#[test]
fn info_patterns_read_the_page() {
    let mut site = setting("https://example.com", SiteUrlTemplate::Single("x".to_string()));
    site.title = Some(SiteSettingValue::Single("<h1>(?<title>[^<]+)</h1>".to_string()));
    site.w = Some(SiteSettingValue::Multiple(vec![
        SiteSettingEntry::Eval { eval: "ignored".to_string() },
        SiteSettingEntry::Plain("<b>nothing here</b>(.+)".to_string()),
        SiteSettingEntry::Plain("作者：(?<writer>\\S+)".to_string()),
    ]));
    site.tags = Some(SiteSettingValue::Single("<li>(?<tag>[^<]+)</li>".to_string()));
    site.novel_type_string = Some(vec![("連載中".to_string(), 1), ("完結済".to_string(), 3), ("短編".to_string(), 2)]);
    let page = "<h1>題名</h1>\n作者：誰か\n<ul><li>a</li><li>b</li></ul>";
    assert_eq!(site.resolve_info_pattern("t", page), Some("題名".to_string()));
    assert_eq!(site.resolve_info_pattern("title", page), None);
    assert_eq!(site.resolve_info_pattern("w", page), Some("誰か".to_string()));
    assert_eq!(site.resolve_info_pattern("tags", page), Some("a\nb".to_string()));
    assert_eq!(site.resolve_info_pattern("story", page), None);
    let read = site.multi_match(page, &["title", "author", "tags"]);
    assert_eq!(read.get("title"), Some("題名"));
    assert_eq!(read.get("author"), Some("誰か"));
    assert_eq!(read.get("tags"), Some("a\nb"));
    assert_eq!(site.get_novel_type_from_string("完結済"), (1, true));
    assert_eq!(site.get_novel_type_from_string("短編"), (2, false));
    assert_eq!(site.get_novel_type_from_string("不明"), (1, false));
}

#[test]
fn url_patterns_match_and_capture() {
    let mut site = setting(
        "https://\\k<domain>",
        SiteUrlTemplate::Single("\\k<top_url>/\\k<ncode>/".to_string()),
    );
    site.domain = "ncode.syosetu.com".to_string();
    site.url = Some(SiteSettingValue::Multiple(vec![
        SiteSettingEntry::Plain("https?://\\k<domain>/(?<ncode>n\\d+[a-z]+)/?".to_string()),
        SiteSettingEntry::Eval { eval: "skipped".to_string() },
    ]));
    site.author_url = Some(SiteSettingValue::Single("https://mypage\\.syosetu\\.com/(?<author_id>\\d+)/".to_string()));
    site.author_api_url = Some("https://api/?userid=\\k<author_id>".to_string());
    site.headers = Some(vec![("Referer".to_string(), "\\k<top_url>/".to_string())]);
    site.login_url = Some("\\k<top_url>/login".to_string());

    assert!(site.matches_url("https://ncode.syosetu.com/n1234ab/"));
    assert!(!site.matches_url("https://example.com/n1234ab/"));
    assert!(!site.matches_series_url("https://ncode.syosetu.com/n1234ab/"));
    let caps = site.extract_url_captures("https://ncode.syosetu.com/n1234ab/").unwrap();
    assert_eq!(caps.get("ncode"), Some("n1234ab"));
    assert!(site.extract_url_captures("https://example.com/").is_none());
    assert_eq!(
        site.toc_url_with_url_captures("https://ncode.syosetu.com/n1234ab/"),
        Some("https://ncode.syosetu.com/n1234ab/".to_string())
    );
    assert_eq!(site.author_fetch_url("https://mypage.syosetu.com/42/"), "https://api/?userid=42");
    assert_eq!(
        site.header_list(),
        vec![("Referer".to_string(), "https://ncode.syosetu.com/".to_string())]
    );
    assert_eq!(site.login_url(), Some("https://ncode.syosetu.com/login".to_string()));
}

#[test]
fn author_listings_name_each_series_once() {
    let site = setting("https://example.com", SiteUrlTemplate::Single("x".to_string()));
    let source = "author_series::12\r\n  author_series:: 34 \nother\nauthor_series::12\nauthor_series::\n";
    assert_eq!(site.author_series_ids(source), vec!["12".to_string(), "34".to_string()]);
}

#[test]
fn table_of_contents_sections_are_read_in_order() {
    let mut site = setting("https://example.com", SiteUrlTemplate::Single("x".to_string()));
    site.subtitles = Some(SiteSettingValue::Single(
        "<li><a href=\"(?<href>[^\"]+)\">(?<subtitle>[^<]+)</a><span>(?<index>\\d+)</span>(?:<em>(?<subupdate>[^<]+)</em>)?</li>".to_string(),
    ));
    site.toc_page_max = Some("pages=(\\d+)".to_string());
    site.next_toc = Some("<a rel=\"next\" href=\"(?<next>[^\"]+)\">".to_string());
    site.next_url = Some("\\k<top_url>\\k<next>".to_string());
    let page = "pages=3<ul><li><a href=\"/1/\">第1話</a><span>1</span></li><li><a href=\"/2/\">第2話:再</a><span>2</span><em>2024-01-02</em></li></ul><a rel=\"next\" href=\"/?p=2\">";
    let sections = parse_subtitles(&site, page, &TextMap::new(), Some(50)).unwrap();
    assert_eq!(sections.len(), 2);
    assert_eq!(sections[0].index, "1");
    assert_eq!(sections[0].href, "/1/");
    assert_eq!(sections[0].subtitle, "第1話");
    assert_eq!(sections[0].subdate, "");
    assert_eq!(sections[1].subtitle, "第2話:再");
    assert_eq!(sections[1].file_subtitle, "第2話_再");
    assert_eq!(sections[1].subdate, "2024-01-02");
    assert_eq!(sections[1].subupdate.as_deref(), Some("2024-01-02"));
    assert_eq!(toc_page_count(&site, page), 3);
    assert_eq!(toc_page_count(&site, "no count"), 1);
    assert_eq!(next_toc_url(&site, page), Some("https://example.com/?p=2".to_string()));
    assert_eq!(next_toc_url(&site, "last page"), None);
}

#[test]
fn a_site_without_a_subtitles_pattern_cannot_read_sections() {
    let site = setting("https://example.com", SiteUrlTemplate::Single("x".to_string()));
    assert!(parse_subtitles(&site, "<li></li>", &TextMap::new(), Some(50)).is_err());
    assert_eq!(toc_page_count(&site, "pages=3"), 50);
}

#[test]
fn dedup_paths_keeps_first_occurrences_in_order() {
    let mut paths = vec![
        "/a/webnovel".to_string(),
        "/b/webnovel".to_string(),
        "/a/webnovel".to_string(),
        "/c".to_string(),
        "/b/webnovel".to_string(),
    ];
    dedup_paths(&mut paths);
    assert_eq!(paths, vec!["/a/webnovel".to_string(), "/b/webnovel".to_string(), "/c".to_string()]);
    let mut empty: Vec<String> = Vec::new();
    dedup_paths(&mut empty);
    assert!(empty.is_empty());
}
