use std::path::{Path, PathBuf};

use narou_rs::db::novel_codec::{
    dedup_tags, novel_columns, novel_select_columns, ordered_binds, select_columns,
    upsert_columns, NovelBind, NOVEL_SELECT_SQL, NOVEL_UPSERT_SQL,
};
use narou_rs::db::paths::{
    create_subdirectory_name, novel_dir_from_components, sanitize_path_component,
    sanitize_windows_filename_component_with_limit,
};
use narou_rs::db::sort::{sort_key_valid, sort_keys};

#[test]
fn upsert_sql_columns_match_shared_list() {
    assert_eq!(upsert_columns(NOVEL_UPSERT_SQL).unwrap(), novel_columns());
}

#[test]
fn select_sql_columns_match_shared_list() {
    assert_eq!(select_columns(NOVEL_SELECT_SQL).unwrap(), novel_select_columns());
}

#[test]
fn dedup_tags_drops_duplicates_keeping_first_occurrence_order() {
    let mut tags = vec![
        "favorite".to_string(),
        "end".to_string(),
        "favorite".to_string(),
        "end".to_string(),
    ];
    dedup_tags(&mut tags);
    assert_eq!(tags, vec!["favorite", "end"]);

    let mut tags = vec!["Tag".to_string(), "tag".to_string(), "Tag".to_string()];
    dedup_tags(&mut tags);
    assert_eq!(tags, vec!["Tag", "tag"]);
}

#[test]
fn subdirectory_name_matches_narou_rb_rule() {
    assert_eq!(create_subdirectory_name("n8858hb title"), "88");
    assert_eq!(create_subdirectory_name("２１年版"), "２１");
    assert_eq!(create_subdirectory_name(" n8858hb"), "n");
}

#[test]
fn novel_dir_from_components_sanitizes_path_traversal_sequences() {
    let archive_root = Path::new("archive");
    let path = novel_dir_from_components(archive_root, "..\\evil", "..", false);

    assert_eq!(path, PathBuf::from("archive").join(".._evil").join("_"));
}

#[test]
fn novel_dir_from_components_sanitizes_absolute_path_markers() {
    let archive_root = Path::new("archive");
    let path = novel_dir_from_components(archive_root, "C:\\windows", "/etc/passwd", false);

    assert_eq!(
        path,
        PathBuf::from("archive")
            .join("C__windows")
            .join("_etc_passwd")
    );
}

#[test]
fn sanitize_path_component_handles_reserved_names_and_controls() {
    assert_eq!(sanitize_path_component("CON.txt"), "_CON.txt");
    assert_eq!(sanitize_path_component("aux"), "_aux");
    assert_eq!(sanitize_path_component("abc\0\x1F\x7Fdef"), "abcdef");
    assert_eq!(sanitize_path_component("trail. "), "trail");
    assert_eq!(sanitize_path_component("全角 名称 "), "全角 名称");
    assert_eq!(sanitize_path_component(""), "_");
}

#[test]
fn sanitize_windows_filename_component_with_limit_respects_existing_behavior() {
    assert_eq!(
        sanitize_windows_filename_component_with_limit("ab/cd", Some(4), Some('_'), "_"),
        "ab_c"
    );
    assert_eq!(
        sanitize_windows_filename_component_with_limit("CON.txt", None, None, "output"),
        "_CON.txt"
    );
    assert_eq!(
        sanitize_windows_filename_component_with_limit("name\twith\ncontrols", None, None, "output"),
        "namewithcontrols"
    );
    assert_eq!(
        sanitize_windows_filename_component_with_limit("   ", None, None, "output"),
        "output"
    );
}

#[test]
fn sort_keys_lists_every_supported_key() {
    let keys = sort_keys();
    for required in [
        "id",
        "title",
        "author",
        "last_update",
        "general_lastup",
        "sitename",
        "novel_type",
        "length",
        "last_check_date",
        "tags",
        "general_all_no",
        "status",
        "toc_url",
        "new_arrivals_date",
    ] {
        assert!(
            keys.contains(&required),
            "sort_keys must accept {required}, got {keys:?}"
        );
    }
    for key in keys {
        assert!(sort_key_valid(key), "sort_key_valid({key})");
    }
    assert!(!sort_key_valid("not_a_key"));
}

/// One bind per upsert column, in column order.
fn column_binds() -> Vec<(&'static str, NovelBind)> {
    novel_columns()
        .into_iter()
        .enumerate()
        .map(|(i, name)| (name, NovelBind::Int(i as i64)))
        .collect()
}

#[test]
fn ordered_binds_follows_sql_columns_not_input_order() {
    let mut binds = column_binds();
    binds.swap(32, 34);
    let ordered = ordered_binds(NOVEL_UPSERT_SQL, &binds).unwrap();
    let names: Vec<&str> = ordered.iter().map(|(name, _)| *name).collect();
    assert_eq!(names, novel_columns());
}

#[test]
fn ordered_binds_rejects_missing_and_unexpected_columns() {
    let mut binds = column_binds();
    binds.retain(|(name, _)| *name != "extra_fields_bytes");
    let error = ordered_binds(NOVEL_UPSERT_SQL, &binds).unwrap_err();
    assert!(error.detail_text().contains("extra_fields_bytes"), "{error:?}");

    let mut binds = column_binds();
    binds.push(("bogus_column", NovelBind::Int(0)));
    let error = ordered_binds(NOVEL_UPSERT_SQL, &binds).unwrap_err();
    assert!(error.detail_text().contains("bogus_column"), "{error:?}");

    let mut binds = column_binds();
    binds.push(("author", NovelBind::Text("dup".to_string())));
    let error = ordered_binds(NOVEL_UPSERT_SQL, &binds).unwrap_err();
    assert!(error.detail_text().contains("author"), "{error:?}");
}

#[test]
fn ordered_binds_rejects_marker_count_mismatch() {
    let binds = column_binds();
    let sql = NOVEL_UPSERT_SQL.replacen("NULLIF(?, '')", "NULLIF(0, '')", 1);
    assert!(ordered_binds(&sql, &binds).is_err());
}
