use narou_rs::db::index_store::IndexStore;
use narou_rs::keyed::KeyedList;
use narou_rs::db::database::Database;
use narou_rs::db::novel_record::NovelRecord;

const NANOS: i128 = 1_000_000_000;

fn sample_record(id: i64, length: Option<i64>, tags: &[&str]) -> NovelRecord {
    NovelRecord {
        id,
        author: "author".to_string(),
        title: format!("title {id}"),
        file_title: format!("title {id}"),
        toc_url: format!("https://example.com/{id}/"),
        sitename: "Example".to_string(),
        novel_type: 1,
        end: false,
        last_update: (1_700_000_000 + id as i128) * NANOS,
        new_arrivals_date: None,
        use_subdirectory: false,
        general_firstup: None,
        novelupdated_at: None,
        general_lastup: None,
        last_mail_date: None,
        tags: tags.iter().map(|tag| tag.to_string()).collect(),
        ncode: None,
        domain: None,
        general_all_no: None,
        length,
        suspend: false,
        is_narou: true,
        last_check_date: None,
        convert_failure: false,
    }
}

fn ids_of(records: Vec<&NovelRecord>) -> Vec<i64> {
    records.iter().map(|r| r.id).collect()
}

#[test]
fn database_parity_create_new_id_starts_at_zero() {
    let db = Database::new();
    assert_eq!(db.create_new_id(), 0);
}

#[test]
fn sort_by_uses_typed_ordering_and_stable_none_order() {
    let mut db = Database::new();
    db.insert(sample_record(10, Some(2), &[]));
    db.insert(sample_record(9, Some(10), &[]));
    db.insert(sample_record(1, None, &[]));
    assert_eq!(ids_of(db.sort_by("id", false)), vec![1, 9, 10]);
    assert_eq!(ids_of(db.sort_by("length", false)), vec![10, 9, 1]);
}

#[test]
fn sort_by_last_check_date_uses_compare_optional() {
    let mut db = Database::new();
    let mut with_ts_old = sample_record(10, Some(2), &[]);
    with_ts_old.last_check_date = Some(1_700_000_100 * NANOS);
    let mut with_ts_new = sample_record(9, Some(10), &[]);
    with_ts_new.last_check_date = Some(1_700_000_300 * NANOS);
    db.insert(with_ts_old);
    db.insert(with_ts_new);
    db.insert(sample_record(1, None, &[]));
    assert_eq!(ids_of(db.sort_by("last_check_date", false)), vec![10, 9, 1]);
    assert_eq!(ids_of(db.sort_by("last_check_date", true)), vec![1, 9, 10]);
}

#[test]
fn sort_by_general_all_no_handles_missing_values() {
    let mut db = Database::new();
    let mut a = sample_record(1, Some(5), &[]);
    a.general_all_no = Some(7);
    let mut b = sample_record(2, Some(3), &[]);
    b.general_all_no = None;
    db.insert(a);
    db.insert(b);
    assert_eq!(ids_of(db.sort_by("general_all_no", false)), vec![1, 2]);
}

#[test]
fn sort_by_tags_and_status_use_dedicated_keys() {
    let mut db = Database::new();
    let mut alpha = sample_record(1, None, &["zeta"]);
    alpha.toc_url = "https://example.com/z".to_string();
    let mut end = sample_record(2, None, &["alpha"]);
    end.end = true;
    end.toc_url = "https://example.com/a".to_string();
    db.insert(alpha);
    db.insert(end);
    assert_eq!(ids_of(db.sort_by("tags", false)), vec![2, 1]);
    assert_eq!(ids_of(db.sort_by("status", false)), vec![1, 2]);
    assert_eq!(ids_of(db.sort_by("toc_url", false)), vec![2, 1]);
}

#[test]
fn sort_by_new_arrivals_date_matches_option_cmp_semantics() {
    let mut db = Database::new();
    let mut a = sample_record(1, None, &[]);
    a.new_arrivals_date = None;
    let mut b = sample_record(2, None, &[]);
    b.new_arrivals_date = Some(1_700_000_100 * NANOS);
    let mut c = sample_record(3, None, &[]);
    c.new_arrivals_date = Some(1_700_000_300 * NANOS);
    db.insert(a);
    db.insert(b);
    db.insert(c);
    assert_eq!(ids_of(db.sort_by("new_arrivals_date", false)), vec![1, 2, 3]);
    assert_eq!(ids_of(db.sort_by("new_arrivals_date", true)), vec![3, 2, 1]);
}

#[test]
fn sort_by_unknown_key_falls_back_to_id() {
    let mut db = Database::new();
    db.insert(sample_record(2, Some(5), &[]));
    db.insert(sample_record(1, Some(3), &[]));
    assert_eq!(ids_of(db.sort_by("unknown", false)), vec![1, 2]);
}

#[test]
fn inserted_novels_are_found_and_removed_ones_are_gone() {
    let mut db = Database::new();
    db.insert(sample_record(3, None, &[]));
    assert_eq!(db.get(3).unwrap().title, "title 3");
    assert!(db.novel_exists(3));
    assert_eq!(db.create_new_id(), 4);
    assert_eq!(db.get_by_toc_url("https://example.com/3/").unwrap().id, 3);
    assert_eq!(db.get_by_title("title 3").unwrap().id, 3);
    assert_eq!(db.find_by_title("TITLE 3").unwrap().id, 3);
    assert!(db.find_by_title("missing").is_none());
    let removed = db.remove(3).unwrap();
    assert_eq!(removed.id, 3);
    assert!(db.get(3).is_none());
    assert!(db.get_by_toc_url("https://example.com/3/").is_none());
    assert!(db.remove(3).is_none());
}

#[test]
fn allocated_ids_are_fresh_and_increase() {
    let mut db = Database::new();
    db.insert(sample_record(5, None, &[]));
    let first = db.allocate_id();
    let second = db.allocate_id();
    assert_eq!(first, 6);
    assert_eq!(second, 7);
    assert!(!db.novel_exists(first));
    let mut ids = db.ids();
    ids.sort();
    assert_eq!(ids, vec![5]);
}

#[test]
fn tag_index_lists_ids_per_tag() {
    let mut db = Database::new();
    db.insert(sample_record(1, None, &["a", "b"]));
    db.insert(sample_record(2, None, &["b"]));
    let index = db.tag_index();
    assert_eq!(index.get(&"a".to_string()).unwrap(), &vec![1]);
    assert_eq!(index.get(&"b".to_string()).unwrap(), &vec![1, 2]);
    assert!(index.get(&"c".to_string()).is_none());
}

#[test]
fn refresh_files_novels_under_their_keys_and_raises_the_next_id() {
    let mut db = Database::new();
    db.refresh_from(vec![(4, sample_record(999, None, &[])), (2, sample_record(2, None, &[]))]);
    assert_eq!(db.get(4).unwrap().id, 4);
    assert_eq!(db.get(2).unwrap().id, 2);
    assert_eq!(db.create_new_id(), 5);
    assert_eq!(db.get_by_title("title 2").unwrap().id, 2);
    db.refresh_from(Vec::new());
    assert!(db.ids().is_empty());
    assert_eq!(db.create_new_id(), 5);
}

use narou_rs::db::inventory::{InventoryCache, CACHE_MAX_SIZE, CACHE_TARGET_SIZE};

#[test]
fn inventory_cache_evicts_least_recent_but_keeps_protected_files() {
    let mut cache = InventoryCache::new();
    cache.remember("database", "db".to_string());
    for i in 0..CACHE_MAX_SIZE - 1 {
        cache.remember(&format!("file{i}"), format!("{i}"));
    }
    assert_eq!(cache.len(), CACHE_MAX_SIZE);
    assert_eq!(cache.lookup("file0"), Some("0".to_string()));
    cache.remember("new", "n".to_string());
    assert!(cache.len() <= CACHE_TARGET_SIZE + 1);
    assert_eq!(cache.lookup("database"), Some("db".to_string()));
    assert_eq!(cache.lookup("new"), Some("n".to_string()));
    assert_eq!(cache.lookup("file0"), Some("0".to_string()));
    assert_eq!(cache.lookup("file1"), None);
}

#[test]
fn sorting_the_other_way_reverses_the_listing() {
    let mut db = Database::new();
    db.insert(sample_record(10, Some(2), &["b"]));
    db.insert(sample_record(9, Some(10), &["a"]));
    db.insert(sample_record(1, None, &[]));
    db.insert(sample_record(4, Some(2), &["a"]));
    for key in ["length", "id", "title", "tags", "last_update"] {
        let mut plain = ids_of(db.sort_by(key, false));
        plain.reverse();
        assert_eq!(ids_of(db.sort_by(key, true)), plain, "key {key}");
    }
}

#[test]
fn reconciled_index_finds_the_least_id_for_a_normalized_key() {
    let mut records = KeyedList::new();
    let mut a = sample_record(7, None, &[]);
    a.toc_url = "https://Example.com/x/".to_string();
    let mut b = sample_record(3, None, &[]);
    b.toc_url = "  https://example.com/X/ ".to_string();
    records.insert(7, a);
    records.insert(3, b);
    let mut index = IndexStore::new();
    index.reconcile(&records);
    assert_eq!(index.lookup_by_toc_url("https://example.com/x/"), Some(3));
    assert_eq!(index.lookup_by_toc_url("https://example.com/y/"), None);
    assert_eq!(index.lookup_by_toc_url("   "), None);
}

#[test]
fn upserted_novel_is_found_under_its_new_keys() {
    let mut index = IndexStore::new();
    index.upsert(4, Some("https://example.com/4/"), Some("Four"));
    index.upsert(4, Some("https://example.com/new/"), Some("New Four"));
    assert_eq!(index.lookup_by_toc_url("https://example.com/new/"), Some(4));
    assert_eq!(index.lookup_by_title("new four"), Some(4));
    assert_eq!(index.lookup_by_toc_url("https://example.com/4/"), None);
}

#[test]
fn deleting_a_novel_leaves_the_other_lookups() {
    let mut index = IndexStore::new();
    index.upsert(1, Some("https://example.com/a/"), Some("Shared"));
    index.upsert(2, Some("https://example.com/b/"), Some("Shared"));
    index.upsert(3, Some("https://example.com/c/"), Some("Other"));
    index.delete(1);
    assert_eq!(index.lookup_by_toc_url("https://example.com/a/"), None);
    assert_eq!(index.lookup_by_title("shared"), Some(2));
    assert_eq!(index.lookup_by_toc_url("https://example.com/b/"), Some(2));
    assert_eq!(index.lookup_by_toc_url("https://example.com/c/"), Some(3));
    assert_eq!(index.lookup_by_title("Other"), Some(3));
}

#[test]
fn second_reconcile_changes_nothing() {
    let mut records = KeyedList::new();
    let mut a = sample_record(5, None, &[]);
    a.toc_url = "https://example.com/five/".to_string();
    records.insert(5, a);
    let mut index = IndexStore::new();
    index.reconcile(&records);
    index.mark_written();
    index.reconcile(&records);
    assert!(!index.is_dirty());
    assert_eq!(index.lookup_by_toc_url("https://example.com/five/"), Some(5));
}
