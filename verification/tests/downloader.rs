use chrono::{Datelike, Timelike};
use narou_rs::dates::{date_string_is_newer, date_string_to_ymd};
use narou_rs::downloader::http_policy::{
    decode_with_encoding, ensure_success_response, same_site_hosts, should_stop_fetch_fallback,
    HttpResponse,
};
use narou_rs::downloader::rate_limit::normalize_wait_steps;
use narou_rs::downloader::security::is_safe_header_value;
use narou_rs::downloader::settings::{DownloaderSettings, SnapshotDownloaderSettings};
use narou_rs::downloader::util::{mask_spoiler_text, sanitize_filename, sanitize_filename_with_limit};
use narou_rs::error::NarouError;

#[test]
fn same_site_hosts_keeps_cookie_within_subdomains() {
    assert!(same_site_hosts(Some("syosetu.org"), Some("syosetu.org")));
    assert!(same_site_hosts(Some("h.syosetu.org"), Some("syosetu.org")));
    assert!(same_site_hosts(Some("syosetu.org"), Some("h.syosetu.org")));
    assert!(!same_site_hosts(Some("hsyosetu.org"), Some("syosetu.org")));
    assert!(!same_site_hosts(Some("syosetu.org"), Some("example.com")));
    assert!(!same_site_hosts(Some("syosetu.org"), None));
}

#[test]
fn stop_fallback_on_definitive_errors() {
    assert!(should_stop_fetch_fallback(&NarouError::NotFound("x".into())));
    assert!(should_stop_fetch_fallback(&NarouError::SuspendDownload("x".into())));
    assert!(!should_stop_fetch_fallback(&NarouError::Http("x".into())));
}

#[test]
fn sanitize_filename_removes_windows_trailing_dots_and_spaces() {
    assert_eq!(sanitize_filename("title. "), "title");
    assert_eq!(sanitize_filename("bad/name?"), "bad_name_");
}

#[test]
fn update_date_comparison_uses_newer_dates_not_inequality() {
    assert!(date_string_is_newer("2026-04-12 10:00", "2026-04-12 09:59"));
    assert!(!date_string_is_newer("2026-04-12 09:59", "2026-04-12 10:00"));
    assert!(!date_string_is_newer("2026年04月12日 10時00分", "2026-04-12 10:00"));
}

#[test]
fn update_strong_date_basis_matches_ruby_ymd_conversion() {
    assert_eq!(
        date_string_to_ymd("2026年04月12日 10時00分"),
        Some("20260412".to_string())
    );
    assert_eq!(
        date_string_to_ymd("2026-04-12 10:00:00.123456 +0900"),
        Some("20260412".to_string())
    );
}

#[test]
fn narou_wait_steps_defaults_to_ten() {
    assert_eq!(normalize_wait_steps(0, true), 10);
}

#[test]
fn non_narou_wait_steps_defaults_to_zero() {
    assert_eq!(normalize_wait_steps(0, false), 0);
}

#[test]
fn narou_wait_steps_are_capped_to_ten() {
    assert_eq!(normalize_wait_steps(50, true), 10);
}

#[test]
fn non_narou_wait_steps_are_preserved() {
    assert_eq!(normalize_wait_steps(50, false), 50);
}

#[test]
fn safe_header_value_rejects_control_characters() {
    assert!(is_safe_header_value("session=abc123"));
    assert!(!is_safe_header_value("session=abc\r\nX-Test: 1"));
    assert!(!is_safe_header_value("session=\0"));
}

#[test]
fn snapshot_defaults_match_unset_settings() {
    let settings = SnapshotDownloaderSettings::default();
    assert!(!settings.local_setting_bool("update.strong"));
    assert!(!settings.local_setting_bool("guard-spoiler"));
    assert!(!settings.local_setting_bool("auto-add-tags"));
    assert!(!settings.local_setting_bool("download.use-subdirectory"));
    assert!(!settings.download_use_subdirectory());
    assert_eq!(settings.global_setting_optional_bool("over18"), None);
    assert!(settings.load_section_hash_cache().is_empty());
}

#[test]
fn snapshot_reads_supplied_values() {
    let local = vec![
        ("update.strong".to_string(), true),
        ("guard-spoiler".to_string(), false),
        ("download.use-subdirectory".to_string(), true),
    ];
    let cache = vec![(
        "42".to_string(),
        vec![("1/section.txt".to_string(), "abc".to_string())],
    )];
    let settings = SnapshotDownloaderSettings::new(local, Some(true), cache.clone());
    assert!(settings.local_setting_bool("update.strong"));
    assert!(!settings.local_setting_bool("guard-spoiler"));
    assert!(!settings.local_setting_bool("auto-add-tags"));
    assert!(settings.download_use_subdirectory());
    assert_eq!(settings.global_setting_optional_bool("over18"), Some(true));
    assert_eq!(settings.global_setting_optional_bool("other"), None);
    assert_eq!(settings.load_section_hash_cache(), cache);
}

#[test]
fn snapshot_save_methods_are_noop_and_confirm_is_unsupported() {
    let settings = SnapshotDownloaderSettings::default();
    assert!(settings.save_global_setting_bool("over18", true).is_ok());
    assert!(settings.save_section_hash_cache(&Vec::new()).is_ok());
    assert!(matches!(
        settings.confirm("?", false, false),
        Err(NarouError::Unsupported(_))
    ));
}

#[test]
fn sanitize_filename_with_limit_truncates_after_sanitizing() {
    assert_eq!(sanitize_filename_with_limit("ab/cd", Some(4)), "ab_c");
}

#[test]
fn sanitize_filename_with_limit_rejects_reserved_and_control_names() {
    assert_eq!(sanitize_filename_with_limit("CON.txt", None), "_CON.txt");
    assert_eq!(sanitize_filename_with_limit("bad\0name\x7F", None), "badname");
    assert_eq!(sanitize_filename_with_limit("trail. ", None), "trail");
}

#[test]
fn mask_spoiler_text_preserves_digits_and_punctuation() {
    assert_eq!(mask_spoiler_text("第12話!? テスト"), "●12●!? ●●●");
}

use narou_rs::downloader::http_policy::{host_of, is_safe_header_name};
use narou_rs::downloader::novel_info::normalize_narou_date;
use narou_rs::downloader::target::{
    file_title_for, get_target_type, ncode_target_url, normalize_story_for_compare, story_changed,
};
use narou_rs::downloader::types::{SubtitleInfo, TargetType};
use narou_rs::downloader::update::{
    content_changed, day_differs, decide_section_update, recorded_download_day, SectionUpdate,
};

fn subtitle(subtitle: &str, subdate: &str, subupdate: Option<&str>) -> SubtitleInfo {
    SubtitleInfo {
        index: "1".to_string(),
        href: "/1/".to_string(),
        chapter: "ch".to_string(),
        subchapter: String::new(),
        subtitle: subtitle.to_string(),
        file_subtitle: subtitle.to_string(),
        subdate: subdate.to_string(),
        subupdate: subupdate.map(|s| s.to_string()),
        download_time: None,
    }
}

#[test]
fn section_update_follows_titles_files_and_dates() {
    let latest = subtitle("a", "2024/01/02 10:00", None);
    assert!(matches!(decide_section_update(&latest, None, true, false), SectionUpdate::Download));
    let renamed = subtitle("b", "2024/01/02 10:00", None);
    assert!(matches!(decide_section_update(&latest, Some(&renamed), true, false), SectionUpdate::Download));
    let same = subtitle("a", "2024/01/02 10:00", None);
    assert!(matches!(decide_section_update(&latest, Some(&same), false, false), SectionUpdate::Download));
    assert!(matches!(decide_section_update(&latest, Some(&same), true, false), SectionUpdate::Keep));
    let older = subtitle("a", "2024/01/01 10:00", None);
    assert!(matches!(decide_section_update(&latest, Some(&older), true, false), SectionUpdate::Download));
    match decide_section_update(&latest, Some(&older), true, true) {
        SectionUpdate::CompareOnDay(Some(day)) => assert_eq!(day, "20240101"),
        _ => panic!("expected a content comparison"),
    }
    let updated = subtitle("a", "2024/01/01 10:00", Some("2024/01/03 09:00"));
    assert!(matches!(decide_section_update(&updated, Some(&older), true, false), SectionUpdate::Download));
    let empty_old = subtitle("a", "2024/01/01 10:00", Some(""));
    let empty_new = subtitle("a", "2024/01/01 10:00", Some(""));
    assert!(matches!(decide_section_update(&empty_new, Some(&empty_old), true, false), SectionUpdate::Keep));
    assert_eq!(recorded_download_day(Some("2024-05-06 07:08:09")), Some("20240506".to_string()));
    assert_eq!(recorded_download_day(None), None);
    assert!(!content_changed(Some("abc"), "abc"));
    assert!(content_changed(Some("abc"), "abd"));
    assert!(content_changed(None, "abc"));
}

#[test]
fn targets_are_classified() {
    assert!(matches!(get_target_type("https://ncode.syosetu.com/n1234ab/"), TargetType::Url));
    assert!(matches!(get_target_type("N1234AB"), TargetType::Ncode));
    assert!(matches!(get_target_type("42"), TargetType::Id));
    assert!(matches!(get_target_type("some title"), TargetType::Other));
    assert_eq!(ncode_target_url("N1234AB"), Some("https://ncode.syosetu.com/n1234ab/".to_string()));
    assert_eq!(ncode_target_url("42"), None);
}

#[test]
fn stories_compare_without_markup_and_trailing_space() {
    assert_eq!(normalize_story_for_compare(" a<BR />b  \r\nc\r\n\n"), "a\nb\nc");
    assert!(!story_changed(&Some("a<br>b".to_string()), &Some("a\nb  ".to_string())));
    assert!(story_changed(&Some("a".to_string()), &Some("b".to_string())));
    assert!(!story_changed(&None, &Some("  <br> ".to_string())));
    assert!(story_changed(&Some("x".to_string()), &None));
    assert!(!story_changed(&None, &None));
}

#[test]
fn file_titles_prefer_the_existing_one_then_the_ncode() {
    assert_eq!(file_title_for(Some("kept"), &Some("n1".to_string()), "T", true), "kept");
    assert_eq!(file_title_for(Some(""), &Some("n1".to_string()), "T/x", true), "n1 T_x");
    assert_eq!(file_title_for(None, &Some("n1".to_string()), "T", false), "n1");
    assert_eq!(file_title_for(None, &None, "T:x", true), "T_x");
}

#[test]
fn narou_dates_lose_units_and_notes() {
    assert_eq!(normalize_narou_date(" 2024年01月02日 10時30分 (改) "), "2024/01/02 10:30");
    assert_eq!(normalize_narou_date("2024年1月2日（火）"), "2024/1/2");
}

#[test]
fn header_names_and_hosts() {
    assert!(is_safe_header_name("X-Requested-With"));
    assert!(!is_safe_header_name(""));
    assert!(!is_safe_header_name("Bad Header"));
    assert!(!is_safe_header_name(&"a".repeat(65)));
    assert_eq!(host_of("https://Example.com/path"), "example.com");
    assert_eq!(host_of("not a url"), "__global__");
}

fn utc_of(instant: (i64, u32)) -> chrono::DateTime<chrono::Utc> {
    chrono::DateTime::<chrono::Utc>::from_timestamp(instant.0, instant.1).expect("in range")
}

#[test]
fn parse_narou_date_accepts_kakuyomu_rfc3339() {
    let date = utc_of(narou_rs::dates::parse_narou_date("2021-01-10T16:13:02Z").expect("date"));

    assert_eq!(date.year(), 2021);
    assert_eq!(date.month(), 1);
    assert_eq!(date.day(), 10);
    assert_eq!(date.hour(), 16);
    assert_eq!(date.minute(), 13);
    assert_eq!(date.second(), 2);
}

#[test]
fn parse_narou_date_accepts_japanese_datetime_with_weekday() {
    let date = utc_of(narou_rs::dates::parse_narou_date("2026年04月17日(金) 07:00").expect("date"));

    assert_eq!(date.year(), 2026);
    assert_eq!(date.month(), 4);
    assert_eq!(date.day(), 17);
    assert_eq!(date.hour(), 7);
    assert_eq!(date.minute(), 0);
    assert_eq!(date.second(), 0);
}

#[test]
fn decode_utf8_lossy_by_default() {
    assert_eq!(decode_with_encoding(b"<html>hi</html>", None), "<html>hi</html>");
    assert_eq!(decode_with_encoding(b"<html>hi</html>", Some("utf-8")), "<html>hi</html>");
    let _ = decode_with_encoding(&[0xff, 0xfe, 0x00], Some("utf-8"));
}

#[test]
fn decode_shift_jis() {
    let sjis = [0x82, 0xb1, 0x82, 0xf1, 0x82, 0xc9, 0x82, 0xbf, 0x82, 0xcd];
    assert_eq!(decode_with_encoding(&sjis, Some("shift_jis")), "こんにちは");
    assert_eq!(decode_with_encoding(b"abc", Some("no-such-encoding")), "abc");
}

#[test]
fn ensure_success_maps_statuses() {
    let ok = HttpResponse { status: 200, headers: vec![], body: vec![] };
    assert!(ensure_success_response("https://e.com/", ok).is_ok());

    let not_found = HttpResponse { status: 404, headers: vec![], body: vec![] };
    let err = ensure_success_response("https://e.com/missing", not_found).unwrap_err();
    assert!(matches!(err, NarouError::NotFound(_)));

    let suspended = HttpResponse { status: 503, headers: vec![], body: vec![] };
    let err = ensure_success_response("https://e.com/", suspended).unwrap_err();
    assert!(matches!(err, NarouError::SuspendDownload(_)));

    let server_error = HttpResponse { status: 500, headers: vec![], body: vec![] };
    let err = ensure_success_response("https://e.com/", server_error).unwrap_err();
    assert!(err.detail_text().contains("HTTP 500"));
}

#[test]
fn story_block_scalars_strip_their_line_breaks() {
    let yaml = "title: x\nstory: |+\n  line\nother: y\nstory:   |  \n";
    assert_eq!(
        narou_rs::downloader::persistence::fix_yaml_block_scalar(yaml),
        "title: x\nstory: |-\n  line\nother: y\nstory: |-"
    );
}

#[test]
fn stored_day_decides_before_any_comparison() {
    let day = Some("20240102".to_string());
    assert!(!day_differs(&day, &Some("20240102".to_string())));
    assert!(day_differs(&day, &Some("20240103".to_string())));
    assert!(day_differs(&day, &None));
    assert!(day_differs(&None, &Some("20240102".to_string())));
    assert!(!day_differs(&None, &None));
}
