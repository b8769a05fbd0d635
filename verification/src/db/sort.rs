//! The orders in which the library lists novels.
use std::cmp::Ordering;
use vstd::prelude::*;
use vstd::string::*;

use crate::db::novel_record::{
    wide, wide_byte, wide_opt, widen_i64, widen_opt, widen_u8, NovelRecord,
};
use crate::text::{
    char_code, chars_eq, string_views, lowercase_all, lemma_skip_n_step, skip_n, code_of, join, join_seq, lowercase, push_char, to_chars, to_lowercase,
};

verus! {

/// The sort keys, in the order of the Web UI's columns.
pub open spec fn sort_key_list() -> Seq<Seq<char>> {
    seq![
        "id"@,
        "last_update"@,
        "general_lastup"@,
        "last_check_date"@,
        "title"@,
        "author"@,
        "sitename"@,
        "novel_type"@,
        "tags"@,
        "general_all_no"@,
        "length"@,
        "status"@,
        "toc_url"@,
        "new_arrivals_date"@,
    ]
}

/// Every sort key the library accepts, in the order of the Web UI's columns.
pub fn sort_keys() -> (r: Vec<&'static str>)
    ensures
        r@.map_values(|k: &str| k@) == sort_key_list(),
{
    let mut r: Vec<&'static str> = Vec::new();
    r.push("id");
    r.push("last_update");
    r.push("general_lastup");
    r.push("last_check_date");
    r.push("title");
    r.push("author");
    r.push("sitename");
    r.push("novel_type");
    r.push("tags");
    r.push("general_all_no");
    r.push("length");
    r.push("status");
    r.push("toc_url");
    r.push("new_arrivals_date");
    assert(r@.map_values(|k: &str| k@) =~= sort_key_list());
    r
}

/// Whether `key` is one of `sort_keys`.
pub fn sort_key_valid(key: &str) -> (b: bool)
    ensures
        b == sort_key_list().contains(key@),
{
    let keys = sort_keys();
    let mut i: usize = 0;
    while i < keys.len()
        invariant
            keys@.map_values(|k: &str| k@) == sort_key_list(),
            i <= keys@.len(),
            forall|j: int| 0 <= j < i ==> sort_key_list()[j] != key@,
        decreases keys@.len() - i,
    {
        if chars_eq(keys[i], key) {
            assert(sort_key_list()[i as int] == key@);
            return true;
        }
        i = i + 1;
    }
    false
}

pub open spec fn int_order(a: i128, b: i128) -> Ordering {
    if a < b {
        Ordering::Less
    } else if a > b {
        Ordering::Greater
    } else {
        Ordering::Equal
    }
}

/// The order of two strings by code points (the order of `str::cmp`).
pub open spec fn text_order(a: Seq<char>, b: Seq<char>) -> Ordering
    decreases a.len(),
{
    if a.len() == 0 {
        if b.len() == 0 {
            Ordering::Equal
        } else {
            Ordering::Less
        }
    } else if b.len() == 0 {
        Ordering::Greater
    } else if char_code(a[0]) < char_code(b[0]) {
        Ordering::Less
    } else if char_code(a[0]) > char_code(b[0]) {
        Ordering::Greater
    } else {
        text_order(a.drop_first(), b.drop_first())
    }
}

/// Present values first, in their order; absent values last.
pub open spec fn optional_order(a: Option<i128>, b: Option<i128>) -> Ordering {
    match (a, b) {
        (Some(x), Some(y)) => int_order(x, y),
        (Some(_), None) => Ordering::Less,
        (None, Some(_)) => Ordering::Greater,
        (None, None) => Ordering::Equal,
    }
}

/// The order of `Option::cmp`: absent values first, then present ones in
/// their order.
pub open spec fn natural_option_order(a: Option<i128>, b: Option<i128>) -> Ordering {
    match (a, b) {
        (Some(x), Some(y)) => int_order(x, y),
        (Some(_), None) => Ordering::Greater,
        (None, Some(_)) => Ordering::Less,
        (None, None) => Ordering::Equal,
    }
}

/// Compares two optional values as `Option::cmp` does: absent first.
pub fn compare_natural_option(a: Option<i128>, b: Option<i128>) -> (o: Ordering)
    ensures
        o == natural_option_order(a, b),
{
    match (a, b) {
        (Some(x), Some(y)) => int_compare(x, y),
        (Some(_), None) => Ordering::Greater,
        (None, Some(_)) => Ordering::Less,
        (None, None) => Ordering::Equal,
    }
}

pub fn int_compare(a: i128, b: i128) -> (o: Ordering)
    ensures
        o == int_order(a, b),
{
    if a < b {
        Ordering::Less
    } else if a > b {
        Ordering::Greater
    } else {
        Ordering::Equal
    }
}

/// Compares two optional values: present before absent.
pub fn compare_optional(a: Option<i128>, b: Option<i128>) -> (o: Ordering)
    ensures
        o == optional_order(a, b),
{
    match (a, b) {
        (Some(x), Some(y)) => int_compare(x, y),
        (Some(_), None) => Ordering::Less,
        (None, Some(_)) => Ordering::Greater,
        (None, None) => Ordering::Equal,
    }
}

/// Compares two strings by code points.
pub fn compare_text(a: &str, b: &str) -> (o: Ordering)
    ensures
        o == text_order(a@, b@),
{
    let va = to_chars(a);
    let vb = to_chars(b);
    let mut i: usize = 0;
    assert(va@.skip(0) =~= va@);
    assert(vb@.skip(0) =~= vb@);
    while i < va.len() && i < vb.len()
        invariant
            va@ == a@,
            vb@ == b@,
            i <= va@.len(),
            i <= vb@.len(),
            text_order(va@, vb@) == text_order(skip_n(va@, i), skip_n(vb@, i)),
        decreases va@.len() - i,
    {
        proof {
            lemma_skip_n_step(va@, i);
            lemma_skip_n_step(vb@, i);
        }
        let x = code_of(va[i]);
        let y = code_of(vb[i]);
        if x < y {
            assert(text_order(skip_n(va@, i), skip_n(vb@, i)) == Ordering::Less);
            return Ordering::Less;
        }
        if x > y {
            assert(text_order(skip_n(va@, i), skip_n(vb@, i)) == Ordering::Greater);
            return Ordering::Greater;
        }
        i = i + 1;
    }
    if i < va.len() {
        Ordering::Greater
    } else if i < vb.len() {
        Ordering::Less
    } else {
        Ordering::Equal
    }
}

/// The lower-cased tags of `tags`, joined with NUL.
pub open spec fn tags_key(tags: Seq<String>) -> Seq<char> {
    join_seq(lowercase_all(tags), seq!['\0'])
}

/// The status words of a record (完結, 削除, 中断), joined with `, ` and
/// lower-cased.
pub open spec fn status_key(tags: Seq<String>, end: bool, suspend: bool) -> Seq<char> {
    let done = string_views(tags).contains("end"@) || end;
    let deleted = string_views(tags).contains("404"@);
    let words = if done {
        seq!["完結"@]
    } else {
        Seq::empty()
    };
    let words = if deleted {
        words.push("削除"@)
    } else {
        words
    };
    let words = if suspend {
        words.push("中断"@)
    } else {
        words
    };
    lowercase(join_seq(words, ", "@))
}

fn has_tag(tags: &Vec<String>, tag: &str) -> (b: bool)
    ensures
        b == string_views(tags@).contains(tag@),
{
    let mut i: usize = 0;
    while i < tags.len()
        invariant
            i <= tags@.len(),
            forall|j: int| 0 <= j < i ==> tags@[j]@ != tag@,
        decreases tags@.len() - i,
    {
        if chars_eq(tags[i].as_str(), tag) {
            assert(string_views(tags@)[i as int] == tag@);
            return true;
        }
        i = i + 1;
    }
    assert(!string_views(tags@).contains(tag@)) by {
        assert forall|j: int| 0 <= j < tags@.len() implies #[trigger] string_views(tags@)[j] != tag@ by {}
    }
    false
}

/// The key by which records are sorted on their tags.
pub fn record_tags_key(record: &NovelRecord) -> (r: String)
    ensures
        r@ == tags_key(record.tags@),
{
    let mut lowered: Vec<String> = Vec::new();
    let mut i: usize = 0;
    while i < record.tags.len()
        invariant
            i <= record.tags@.len(),
            string_views(lowered@) == lowercase_all(record.tags@.take(i as int)),
        decreases record.tags@.len() - i,
    {
        let ghost prev = string_views(lowered@);
        let low = to_lowercase(record.tags[i].as_str());
        lowered.push(low);
        assert(string_views(lowered@) =~= prev.push(lowercase(record.tags@[i as int]@)));
        assert(lowercase_all(record.tags@.take(i + 1)) =~= lowercase_all(record.tags@.take(i as int)).push(lowercase(record.tags@[i as int]@)));
        i = i + 1;
    }
    assert(record.tags@.take(record.tags@.len() as int) =~= record.tags@);
    let mut sep = String::new();
    push_char(&mut sep, '\0');
    assert(sep@ =~= seq!['\0']);
    join(&lowered, sep.as_str())
}

/// The key by which records are sorted on their status.
pub fn record_status_key(record: &NovelRecord) -> (r: String)
    ensures
        r@ == status_key(record.tags@, record.end, record.suspend),
{
    let mut words: Vec<String> = Vec::new();
    if has_tag(&record.tags, "end") || record.end {
        words.push("完結".to_owned());
    }
    if has_tag(&record.tags, "404") {
        words.push("削除".to_owned());
    }
    if record.suspend {
        words.push("中断".to_owned());
    }
    let joined = join(&words, ", ");
    let ghost done = string_views(record.tags@).contains("end"@) || record.end;
    let ghost deleted = string_views(record.tags@).contains("404"@);
    assert(words@.map_values(|t: String| t@) =~= {
        let w = if done {
            seq!["完結"@]
        } else {
            Seq::empty()
        };
        let w = if deleted {
            w.push("削除"@)
        } else {
            w
        };
        if record.suspend {
            w.push("中断"@)
        } else {
            w
        }
    });
    to_lowercase(joined.as_str())
}

/// The order of two records on one sort key (`id` for an unknown key).
pub open spec fn record_order(a: NovelRecord, b: NovelRecord, key: Seq<char>) -> Ordering {
    if key == "title"@ {
        text_order(lowercase(a.title@), lowercase(b.title@))
    } else if key == "author"@ {
        text_order(lowercase(a.author@), lowercase(b.author@))
    } else if key == "last_update"@ {
        int_order(a.last_update, b.last_update)
    } else if key == "general_lastup"@ {
        optional_order((a.general_lastup), (b.general_lastup))
    } else if key == "sitename"@ {
        text_order(a.sitename@, b.sitename@)
    } else if key == "novel_type"@ {
        int_order(wide_byte(a.novel_type), wide_byte(b.novel_type))
    } else if key == "length"@ {
        optional_order(wide_opt(a.length), wide_opt(b.length))
    } else if key == "last_check_date"@ {
        optional_order((a.last_check_date), (b.last_check_date))
    } else if key == "tags"@ {
        text_order(tags_key(a.tags@), tags_key(b.tags@))
    } else if key == "general_all_no"@ {
        optional_order(wide_opt(a.general_all_no), wide_opt(b.general_all_no))
    } else if key == "status"@ {
        text_order(status_key(a.tags@, a.end, a.suspend), status_key(b.tags@, b.end, b.suspend))
    } else if key == "toc_url"@ {
        text_order(a.toc_url@, b.toc_url@)
    } else if key == "new_arrivals_date"@ {
        natural_option_order(a.new_arrivals_date, b.new_arrivals_date)
    } else {
        int_order(wide(a.id), wide(b.id))
    }
}

/// Compares two records on the sort key `key`; an unknown key compares ids.
pub fn compare_records_by_key(a: &NovelRecord, b: &NovelRecord, key: &str) -> (o: Ordering)
    ensures
        o == record_order(*a, *b, key@),
        key@ == "author"@ ==> o == text_order(lowercase(a.author@), lowercase(b.author@)),
        key@ == "title"@ ==> o == text_order(lowercase(a.title@), lowercase(b.title@)),
{
    proof {
        lemma_author_order(*a, *b, *a, *b);
        lemma_title_order(*a, *b);
    }
    if chars_eq(key, "title") {
        let x = to_lowercase(a.title.as_str());
        let y = to_lowercase(b.title.as_str());
        compare_text(x.as_str(), y.as_str())
    } else if chars_eq(key, "author") {
        let x = to_lowercase(a.author.as_str());
        let y = to_lowercase(b.author.as_str());
        compare_text(x.as_str(), y.as_str())
    } else if chars_eq(key, "last_update") {
        int_compare(a.last_update, b.last_update)
    } else if chars_eq(key, "general_lastup") {
        compare_optional(a.general_lastup, b.general_lastup)
    } else if chars_eq(key, "sitename") {
        compare_text(a.sitename.as_str(), b.sitename.as_str())
    } else if chars_eq(key, "novel_type") {
        int_compare(widen_u8(a.novel_type), widen_u8(b.novel_type))
    } else if chars_eq(key, "length") {
        compare_optional(widen_opt(a.length), widen_opt(b.length))
    } else if chars_eq(key, "last_check_date") {
        compare_optional(a.last_check_date, b.last_check_date)
    } else if chars_eq(key, "tags") {
        let x = record_tags_key(a);
        let y = record_tags_key(b);
        compare_text(x.as_str(), y.as_str())
    } else if chars_eq(key, "general_all_no") {
        compare_optional(widen_opt(a.general_all_no), widen_opt(b.general_all_no))
    } else if chars_eq(key, "status") {
        let x = record_status_key(a);
        let y = record_status_key(b);
        compare_text(x.as_str(), y.as_str())
    } else if chars_eq(key, "toc_url") {
        compare_text(a.toc_url.as_str(), b.toc_url.as_str())
    } else if chars_eq(key, "new_arrivals_date") {
        compare_natural_option(a.new_arrivals_date, b.new_arrivals_date)
    } else {
        int_compare(widen_i64(a.id), widen_i64(b.id))
    }
}

} // verus!
verus! {

/// `o` seen from the other side.
pub open spec fn flipped(o: Ordering) -> Ordering {
    match o {
        Ordering::Less => Ordering::Greater,
        Ordering::Greater => Ordering::Less,
        Ordering::Equal => Ordering::Equal,
    }
}

/// Comparing the other way round gives the flipped order.
pub proof fn lemma_text_order_flip(a: Seq<char>, b: Seq<char>)
    ensures
        text_order(b, a) == flipped(text_order(a, b)),
    decreases a.len(),
{
    if a.len() > 0 && b.len() > 0 && char_code(a[0]) == char_code(b[0]) {
        lemma_text_order_flip(a.drop_first(), b.drop_first());
    }
}

/// The order of strings is transitive, strictly so where one side is.
pub proof fn lemma_text_order_trans(a: Seq<char>, b: Seq<char>, c: Seq<char>)
    ensures
        !(text_order(a, b) is Greater) && !(text_order(b, c) is Greater) ==> !(text_order(
            a,
            c,
        ) is Greater),
        text_order(a, b) is Less && !(text_order(b, c) is Greater) ==> text_order(a, c) is Less,
        !(text_order(a, b) is Greater) && text_order(b, c) is Less ==> text_order(a, c) is Less,
    decreases a.len(),
{
    if a.len() > 0 && b.len() > 0 && c.len() > 0 && char_code(a[0]) == char_code(b[0])
        && char_code(b[0]) == char_code(c[0]) {
        lemma_text_order_trans(a.drop_first(), b.drop_first(), c.drop_first());
    }
}

/// The order of records on a key is transitive, strictly so where one side
/// is.
pub proof fn lemma_record_order_trans(a: NovelRecord, b: NovelRecord, c: NovelRecord, key: Seq<char>)
    ensures
        !(record_order(a, b, key) is Greater) && !(record_order(b, c, key) is Greater) ==> !(
        record_order(a, c, key) is Greater),
        record_order(a, b, key) is Less && !(record_order(b, c, key) is Greater) ==> record_order(
            a,
            c,
            key,
        ) is Less,
        !(record_order(a, b, key) is Greater) && record_order(b, c, key) is Less ==> record_order(
            a,
            c,
            key,
        ) is Less,
{
    lemma_text_order_trans(lowercase(a.title@), lowercase(b.title@), lowercase(c.title@));
    lemma_text_order_trans(lowercase(a.author@), lowercase(b.author@), lowercase(c.author@));
    lemma_text_order_trans(a.sitename@, b.sitename@, c.sitename@);
    lemma_text_order_trans(tags_key(a.tags@), tags_key(b.tags@), tags_key(c.tags@));
    lemma_text_order_trans(
        status_key(a.tags@, a.end, a.suspend),
        status_key(b.tags@, b.end, b.suspend),
        status_key(c.tags@, c.end, c.suspend),
    );
    lemma_text_order_trans(a.toc_url@, b.toc_url@, c.toc_url@);
}

/// Comparing two records the other way round gives the flipped order.
pub proof fn lemma_record_order_flip(a: NovelRecord, b: NovelRecord, key: Seq<char>)
    ensures
        record_order(b, a, key) == flipped(record_order(a, b, key)),
{
    lemma_text_order_flip(lowercase(a.title@), lowercase(b.title@));
    lemma_text_order_flip(lowercase(a.author@), lowercase(b.author@));
    lemma_text_order_flip(a.sitename@, b.sitename@);
    lemma_text_order_flip(tags_key(a.tags@), tags_key(b.tags@));
    lemma_text_order_flip(status_key(a.tags@, a.end, a.suspend), status_key(b.tags@, b.end, b.suspend));
    lemma_text_order_flip(a.toc_url@, b.toc_url@);
}

proof fn lemma_text_order_equal(a: Seq<char>)
    ensures
        text_order(a, a) == Ordering::Equal,
    decreases a.len(),
{
    if a.len() > 0 {
        lemma_text_order_equal(a.drop_first());
    }
}

/// Sorting on `author` orders two records by the code points of their
/// lower-cased authors and by nothing else: records whose authors are the
/// same compare equal, and records with the same authors as another pair
/// compare as that pair does, whatever their titles.
pub proof fn lemma_author_order(a: NovelRecord, b: NovelRecord, a2: NovelRecord, b2: NovelRecord)
    ensures
        record_order(a, b, "author"@) == text_order(lowercase(a.author@), lowercase(b.author@)),
        a.author@ == b.author@ ==> record_order(a, b, "author"@) == Ordering::Equal,
        a.author@ == a2.author@ && b.author@ == b2.author@ ==> record_order(a, b, "author"@)
            == record_order(a2, b2, "author"@),
{
    reveal_strlit("author");
    reveal_strlit("title");
    assert("author"@ != "title"@) by {
        assert("author"@.len() != "title"@.len());
    }
    lemma_text_order_equal(lowercase(a.author@));
}

/// Sorting on `title` orders two records by the code points of their
/// lower-cased titles and by nothing else.
pub proof fn lemma_title_order(a: NovelRecord, b: NovelRecord)
    ensures
        record_order(a, b, "title"@) == text_order(lowercase(a.title@), lowercase(b.title@)),
        a.title@ == b.title@ ==> record_order(a, b, "title"@) == Ordering::Equal,
{
    lemma_text_order_equal(lowercase(a.title@));
}

/// Sorting on `last_update`, `sitename` or `toc_url` orders two records by
/// that field alone: the update times as numbers, the site names and the
/// table of contents URLs by code points.
pub proof fn lemma_field_orders(a: NovelRecord, b: NovelRecord)
    ensures
        record_order(a, b, "last_update"@) == int_order(a.last_update, b.last_update),
        record_order(a, b, "sitename"@) == text_order(a.sitename@, b.sitename@),
        record_order(a, b, "toc_url"@) == text_order(a.toc_url@, b.toc_url@),
        a.last_update == b.last_update ==> record_order(a, b, "last_update"@) == Ordering::Equal,
{
    reveal_strlit("title");
    reveal_strlit("author");
    reveal_strlit("last_update");
    reveal_strlit("general_lastup");
    reveal_strlit("sitename");
    reveal_strlit("novel_type");
    reveal_strlit("length");
    reveal_strlit("last_check_date");
    reveal_strlit("tags");
    reveal_strlit("general_all_no");
    reveal_strlit("status");
    reveal_strlit("toc_url");
    assert("title"@.len() == 5);
    assert("author"@.len() == 6);
    assert("last_update"@.len() == 11);
    assert("general_lastup"@.len() == 14);
    assert("sitename"@.len() == 8);
    assert("novel_type"@.len() == 10);
    assert("length"@.len() == 6);
    assert("last_check_date"@.len() == 15);
    assert("tags"@.len() == 4);
    assert("general_all_no"@.len() == 14);
    assert("status"@.len() == 6);
    assert("toc_url"@.len() == 7);
}

} // verus!
