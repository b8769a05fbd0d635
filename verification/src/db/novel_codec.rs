//! The `novels` table's columns and the checks that keep a row's values in
//! the columns they belong to.
use vstd::prelude::*;
use vstd::string::*;

use crate::error::NarouError;
use crate::text::{
    chars_eq, decimal, decimal_string, find, first_occurrence, is_prefix, lowercase, occurs_at,
    split_by_char, split_char, string_of_range, string_views, to_chars, to_lowercase, trim,
    trim_seq, trim_all, vec_find_from, lemma_split_char_nonempty,
};

verus! {

/// The UPSERT statement of the `novels` table.
pub const NOVEL_UPSERT_SQL: &'static str = "INSERT INTO novels (id, author, author_fold, title, title_fold, file_title, toc_url, toc_url_fold, sitename, sitename_fold, novel_type, end, last_update, new_arrivals_date, use_subdirectory, general_firstup, novelupdated_at, general_lastup, last_mail_date, tags_json, tags_fold, tags_sort, ncode, ncode_fold, domain, domain_fold, general_all_no, length, suspend, is_narou, last_check_date, convert_failure, extra_fields_yaml, extra_fields_bytes, requires_login, login_session) VALUES (?, ?, ?, ?, ?, ?, ?, ?, ?, ?, ?, ?, ?, NULLIF(?, ''), ?, NULLIF(?, ''), NULLIF(?, ''), NULLIF(?, ''), NULLIF(?, ''), ?, ?, ?, NULLIF(?, ''), NULLIF(?, ''), NULLIF(?, ''), NULLIF(?, ''), NULLIF(?, -1), NULLIF(?, -1), ?, ?, NULLIF(?, ''), ?, ?, ?, ?, ?) ON CONFLICT(id) DO UPDATE SET author = excluded.author, author_fold = excluded.author_fold, title = excluded.title, title_fold = excluded.title_fold, file_title = excluded.file_title, toc_url = excluded.toc_url, toc_url_fold = excluded.toc_url_fold, sitename = excluded.sitename, sitename_fold = excluded.sitename_fold, novel_type = excluded.novel_type, end = excluded.end, last_update = excluded.last_update, new_arrivals_date = excluded.new_arrivals_date, use_subdirectory = excluded.use_subdirectory, general_firstup = excluded.general_firstup, novelupdated_at = excluded.novelupdated_at, general_lastup = excluded.general_lastup, last_mail_date = excluded.last_mail_date, tags_json = excluded.tags_json, tags_fold = excluded.tags_fold, tags_sort = excluded.tags_sort, ncode = excluded.ncode, ncode_fold = excluded.ncode_fold, domain = excluded.domain, domain_fold = excluded.domain_fold, general_all_no = excluded.general_all_no, length = excluded.length, suspend = excluded.suspend, is_narou = excluded.is_narou, last_check_date = excluded.last_check_date, convert_failure = excluded.convert_failure, extra_fields_yaml = excluded.extra_fields_yaml, extra_fields_bytes = excluded.extra_fields_bytes, requires_login = excluded.requires_login, login_session = excluded.login_session";

/// The SELECT statement of the `novels` table.
pub const NOVEL_SELECT_SQL: &'static str = "SELECT n.id, n.author, n.author_fold, n.title, n.file_title, n.toc_url, n.sitename, n.novel_type, n.end, n.last_update, n.new_arrivals_date, n.use_subdirectory, n.general_firstup, n.novelupdated_at, n.general_lastup, n.last_mail_date, n.tags_json, n.ncode, n.domain, n.general_all_no, n.length, n.suspend, n.is_narou, n.last_check_date, n.convert_failure, n.extra_fields_yaml, n.requires_login, n.login_session FROM novels n";

/// Bound on the serialized `extra_fields` of one record.
pub const MAX_EXTRA_FIELDS_BYTES: usize = 64 * 1024;

/// The columns of the `novels` UPSERT, in the order the statement declares
/// them.
pub open spec fn novel_column_list() -> Seq<Seq<char>> {
    seq![
        "id"@,
        "author"@,
        "author_fold"@,
        "title"@,
        "title_fold"@,
        "file_title"@,
        "toc_url"@,
        "toc_url_fold"@,
        "sitename"@,
        "sitename_fold"@,
        "novel_type"@,
        "end"@,
        "last_update"@,
        "new_arrivals_date"@,
        "use_subdirectory"@,
        "general_firstup"@,
        "novelupdated_at"@,
        "general_lastup"@,
        "last_mail_date"@,
        "tags_json"@,
        "tags_fold"@,
        "tags_sort"@,
        "ncode"@,
        "ncode_fold"@,
        "domain"@,
        "domain_fold"@,
        "general_all_no"@,
        "length"@,
        "suspend"@,
        "is_narou"@,
        "last_check_date"@,
        "convert_failure"@,
        "extra_fields_yaml"@,
        "extra_fields_bytes"@,
        "requires_login"@,
        "login_session"@,
    ]
}

/// The columns the `novels` SELECT returns, in row order.
pub open spec fn novel_select_column_list() -> Seq<Seq<char>> {
    seq![
        "id"@,
        "author"@,
        "author_fold"@,
        "title"@,
        "file_title"@,
        "toc_url"@,
        "sitename"@,
        "novel_type"@,
        "end"@,
        "last_update"@,
        "new_arrivals_date"@,
        "use_subdirectory"@,
        "general_firstup"@,
        "novelupdated_at"@,
        "general_lastup"@,
        "last_mail_date"@,
        "tags_json"@,
        "ncode"@,
        "domain"@,
        "general_all_no"@,
        "length"@,
        "suspend"@,
        "is_narou"@,
        "last_check_date"@,
        "convert_failure"@,
        "extra_fields_yaml"@,
        "requires_login"@,
        "login_session"@,
    ]
}

pub open spec fn str_views(s: Seq<&str>) -> Seq<Seq<char>> {
    s.map_values(|k: &str| k@)
}

/// The columns of the `novels` UPSERT, in the order the statement declares
/// them.
pub fn novel_columns() -> (r: Vec<&'static str>)
    ensures
        str_views(r@) == novel_column_list(),
{
    let mut r: Vec<&'static str> = Vec::new();
    r.push("id");
    r.push("author");
    r.push("author_fold");
    r.push("title");
    r.push("title_fold");
    r.push("file_title");
    r.push("toc_url");
    r.push("toc_url_fold");
    r.push("sitename");
    r.push("sitename_fold");
    r.push("novel_type");
    r.push("end");
    r.push("last_update");
    r.push("new_arrivals_date");
    r.push("use_subdirectory");
    r.push("general_firstup");
    r.push("novelupdated_at");
    r.push("general_lastup");
    r.push("last_mail_date");
    r.push("tags_json");
    r.push("tags_fold");
    r.push("tags_sort");
    r.push("ncode");
    r.push("ncode_fold");
    r.push("domain");
    r.push("domain_fold");
    r.push("general_all_no");
    r.push("length");
    r.push("suspend");
    r.push("is_narou");
    r.push("last_check_date");
    r.push("convert_failure");
    r.push("extra_fields_yaml");
    r.push("extra_fields_bytes");
    r.push("requires_login");
    r.push("login_session");
    assert(str_views(r@) =~= novel_column_list());
    r
}

/// The columns the `novels` SELECT returns, in row order.
pub fn novel_select_columns() -> (r: Vec<&'static str>)
    ensures
        str_views(r@) == novel_select_column_list(),
{
    let mut r: Vec<&'static str> = Vec::new();
    r.push("id");
    r.push("author");
    r.push("author_fold");
    r.push("title");
    r.push("file_title");
    r.push("toc_url");
    r.push("sitename");
    r.push("novel_type");
    r.push("end");
    r.push("last_update");
    r.push("new_arrivals_date");
    r.push("use_subdirectory");
    r.push("general_firstup");
    r.push("novelupdated_at");
    r.push("general_lastup");
    r.push("last_mail_date");
    r.push("tags_json");
    r.push("ncode");
    r.push("domain");
    r.push("general_all_no");
    r.push("length");
    r.push("suspend");
    r.push("is_narou");
    r.push("last_check_date");
    r.push("convert_failure");
    r.push("extra_fields_yaml");
    r.push("requires_login");
    r.push("login_session");
    assert(str_views(r@) =~= novel_select_column_list());
    r
}

/// One column value of a `novels` row.
#[derive(Debug)]
pub enum NovelBind {
    Text(String),
    Int(i64),
    Null,
}

pub enum BindView {
    Text(Seq<char>),
    Int(i64),
    Null,
}

impl View for NovelBind {
    type V = BindView;

    open spec fn view(&self) -> BindView {
        match self {
            NovelBind::Text(s) => BindView::Text(s@),
            NovelBind::Int(n) => BindView::Int(*n),
            NovelBind::Null => BindView::Null,
        }
    }
}

/// The folded form of a value: trimmed and lower-cased.
pub open spec fn folded(value: Seq<char>) -> Seq<char> {
    lowercase(trim_seq(value))
}

/// The folded form used for `*_fold` columns and tag indexes.
pub fn fold(value: &str) -> (r: String)
    ensures
        r@ == folded(value@),
{
    let t = trim(value);
    to_lowercase(t.as_str())
}

/// `s` with every element after its first occurrence removed.
pub open spec fn dedup_seq(s: Seq<Seq<char>>) -> Seq<Seq<char>>
    decreases s.len(),
{
    if s.len() == 0 {
        Seq::empty()
    } else {
        let r = dedup_seq(s.drop_last());
        if r.contains(s.last()) {
            r
        } else {
            r.push(s.last())
        }
    }
}

pub open spec fn no_duplicates(s: Seq<Seq<char>>) -> bool {
    forall|i: int, j: int| 0 <= i < j < s.len() ==> s[i] != s[j]
}

/// Dropping later duplicates keeps every distinct tag once: the result has no
/// duplicates and holds exactly the tags of the input.
pub proof fn lemma_dedup_keeps_each_tag_once(s: Seq<Seq<char>>)
    ensures
        no_duplicates(dedup_seq(s)),
        forall|x: Seq<char>| dedup_seq(s).contains(x) <==> s.contains(x),
    decreases s.len(),
{
    if s.len() > 0 {
        let d = s.drop_last();
        let l = s.last();
        lemma_dedup_keeps_each_tag_once(d);
        let r = dedup_seq(d);
        assert forall|x: Seq<char>| s.contains(x) <==> (d.contains(x) || x == l) by {
            if s.contains(x) {
                let k = choose|k: int| 0 <= k < s.len() && s[k] == x;
                if k < s.len() - 1 {
                    assert(d[k] == x);
                }
            }
            if d.contains(x) {
                let k = choose|k: int| 0 <= k < d.len() && d[k] == x;
                assert(s[k] == x);
            }
            if x == l {
                assert(s[s.len() - 1] == x);
            }
        }
        if !r.contains(l) {
            let p = r.push(l);
            assert forall|x: Seq<char>| p.contains(x) <==> (r.contains(x) || x == l) by {
                if p.contains(x) {
                    let k = choose|k: int| 0 <= k < p.len() && p[k] == x;
                    if k < r.len() {
                        assert(r[k] == x);
                    }
                }
                if r.contains(x) {
                    let k = choose|k: int| 0 <= k < r.len() && r[k] == x;
                    assert(p[k] == x);
                }
                if x == l {
                    assert(p[r.len() as int] == x);
                }
            }
            assert forall|i: int, j: int| 0 <= i < j < p.len() implies p[i] != p[j] by {
                if j == r.len() {
                    assert(r[i] == p[i]);
                    if p[i] == p[j] {
                        assert(r.contains(l));
                    }
                }
            }
        }
    }
}

fn contains_text(v: &Vec<String>, t: &str) -> (b: bool)
    ensures
        b == string_views(v@).contains(t@),
{
    let mut i: usize = 0;
    while i < v.len()
        invariant
            i <= v@.len(),
            forall|j: int| 0 <= j < i ==> v@[j]@ != t@,
        decreases v@.len() - i,
    {
        if chars_eq(v[i].as_str(), t) {
            assert(string_views(v@)[i as int] == t@);
            return true;
        }
        i = i + 1;
    }
    assert(!string_views(v@).contains(t@)) by {
        assert forall|j: int| 0 <= j < v@.len() implies #[trigger] string_views(v@)[j] != t@ by {}
    }
    false
}

/// Drops duplicate tags, keeping the first occurrence of each in its place.
pub fn dedup_tags(tags: &mut Vec<String>)
    ensures
        string_views(final(tags)@) == dedup_seq(string_views(old(tags)@)),
{
    let mut kept: Vec<String> = Vec::new();
    let mut i: usize = 0;
    while i < tags.len()
        invariant
            i <= tags@.len(),
            string_views(kept@) == dedup_seq(string_views(tags@.take(i as int))),
        decreases tags@.len() - i,
    {
        let ghost prev = string_views(kept@);
        assert(string_views(tags@.take(i + 1)).drop_last() =~= string_views(tags@.take(i as int)));
        if !contains_text(&kept, tags[i].as_str()) {
            kept.push(tags[i].clone());
            assert(string_views(kept@) =~= prev.push(tags@[i as int]@));
        }
        i = i + 1;
    }
    assert(tags@.take(tags@.len() as int) =~= tags@);
    *tags = kept;
}

/// The position of the first bind named `name`.
pub open spec fn first_named(binds: Seq<(&str, NovelBind)>, name: Seq<char>) -> Option<int> {
    if exists|i: int| 0 <= i < binds.len() && binds[i].0@ == name {
        Some(
            choose|i: int|
                0 <= i < binds.len() && binds[i].0@ == name && forall|j: int|
                    0 <= j < i ==> binds[j].0@ != name,
        )
    } else {
        None
    }
}

fn position_of(binds: &[(&'static str, NovelBind)], name: &str) -> (r: Option<usize>)
    ensures
        match r {
            Some(i) => first_named(binds@, name@) == Some(i as int) && i < binds@.len()
                && binds@[i as int].0@ == name@,
            None => first_named(binds@, name@) is None,
        },
{
    let mut i: usize = 0;
    while i < binds.len()
        invariant
            i <= binds@.len(),
            forall|j: int| 0 <= j < i ==> binds@[j].0@ != name@,
        decreases binds@.len() - i,
    {
        if chars_eq(binds[i].0, name) {
            proof {
                let w = choose|k: int|
                    0 <= k < binds@.len() && binds@[k].0@ == name@ && forall|j: int|
                        0 <= j < k ==> binds@[j].0@ != name@;
                if w < i {
                } else if w > i {
                }
            }
            return Some(i);
        }
        i = i + 1;
    }
    None
}

/// Accepts `binds` when the `extra_fields_bytes` bind (the first of that name)
/// is an integer from 0 to `max_bytes`; a negative one is over the limit.
pub fn check_extra_fields_limit(binds: &[(&'static str, NovelBind)], max_bytes: usize) -> (r:
    Result<(), NarouError>)
    ensures
        match first_named(binds@, "extra_fields_bytes"@) {
            Some(i) => match binds@[i].1 {
                NovelBind::Int(bytes) => if bytes < 0 || bytes as int > max_bytes as int {
                    r matches Err(NarouError::Platform(m)) && m@
                        == "extra fields payload exceeds limit"@
                } else {
                    r is Ok
                },
                _ => r matches Err(NarouError::Database(m)) && m@
                    == "novel binds lack extra_fields_bytes"@,
            },
            None => r matches Err(NarouError::Database(m)) && m@
                == "novel binds lack extra_fields_bytes"@,
        },
{
    match position_of(binds, "extra_fields_bytes") {
        Some(i) => match &binds[i].1 {
            NovelBind::Int(bytes) => {
                if *bytes < 0 || (*bytes as u64) > (max_bytes as u64) {
                    Err(NarouError::Platform("extra fields payload exceeds limit".to_owned()))
                } else {
                    Ok(())
                }
            },
            _ => Err(NarouError::Database("novel binds lack extra_fields_bytes".to_owned())),
        },
        None => Err(NarouError::Database("novel binds lack extra_fields_bytes".to_owned())),
    }
}

/// Characters a column name is made of.
pub open spec fn is_column_char(c: char) -> bool {
    ('a' <= c && c <= 'z') || ('0' <= c && c <= '9') || c == '_'
}

/// A non-empty run of lower-case ASCII letters, digits and `_`.
pub open spec fn is_column_name_seq(s: Seq<char>) -> bool {
    s.len() > 0 && forall|i: int| 0 <= i < s.len() ==> is_column_char(#[trigger] s[i])
}

pub open spec fn all_column_names(cols: Seq<Seq<char>>) -> bool {
    forall|i: int| 0 <= i < cols.len() ==> is_column_name_seq(#[trigger] cols[i])
}

/// Whether `name` is a column name.
pub fn is_column_name(name: &str) -> (b: bool)
    ensures
        b == is_column_name_seq(name@),
{
    let v = to_chars(name);
    if v.len() == 0 {
        return false;
    }
    let mut i: usize = 0;
    while i < v.len()
        invariant
            v@ == name@,
            i <= v@.len(),
            forall|j: int| 0 <= j < i ==> is_column_char(#[trigger] v@[j]),
        decreases v@.len() - i,
    {
        let c = v[i];
        if !(('a' <= c && c <= 'z') || ('0' <= c && c <= '9') || c == '_') {
            return false;
        }
        i = i + 1;
    }
    true
}

pub open spec fn paren_step(c: char) -> int {
    if c == '(' {
        1
    } else if c == ')' {
        -1
    } else {
        0
    }
}

/// Open parentheses minus closing ones.
pub open spec fn paren_depth(s: Seq<char>) -> int
    decreases s.len(),
{
    if s.len() == 0 {
        0
    } else {
        paren_depth(s.drop_last()) + paren_step(s.last())
    }
}

/// `sql[j]` is a `)` that closes the list opened just before `start`.
pub open spec fn closes_list(sql: Seq<char>, start: int, j: int) -> bool {
    start <= j < sql.len() && sql[j] == ')' && paren_depth(sql.subrange(start, j)) == 0
}

/// The position of the `)` that closes the list opened just before `start`.
#[verifier::opaque]
pub open spec fn list_close(sql: Seq<char>, start: int) -> Option<int> {
    if exists|j: int| closes_list(sql, start, j) {
        Some(
            choose|j: int|
                closes_list(sql, start, j) && forall|k: int| start <= k < j ==> !closes_list(sql, start, k),
        )
    } else {
        None
    }
}

/// The trimmed pieces of `s` between its commas.
pub open spec fn trimmed_pieces(s: Seq<char>) -> Seq<Seq<char>> {
    trim_all(split_char(s, ','))
}

pub open spec fn insert_marker() -> Seq<char> {
    "INSERT INTO novels ("@
}

/// What the scan of an UPSERT's column list finds.
pub enum ColumnScan {
    NoMarker,
    Unterminated,
    BadName,
    Columns(Seq<Seq<char>>, int),
}

/// The column list of `INSERT INTO novels (<columns>) …` and the position of
/// its closing parenthesis; parentheses inside the list are balanced.
pub open spec fn scan_upsert(sql: Seq<char>) -> ColumnScan {
    match first_occurrence(sql, insert_marker()) {
        None => ColumnScan::NoMarker,
        Some(m) => {
            let start = m + insert_marker().len();
            match list_close(sql, start) {
                None => ColumnScan::Unterminated,
                Some(end) => {
                    let cols = trimmed_pieces(sql.subrange(start, end));
                    if all_column_names(cols) {
                        ColumnScan::Columns(cols, end)
                    } else {
                        ColumnScan::BadName
                    }
                },
            }
        },
    }
}

fn close_of_list(v: &Vec<char>, start: usize) -> (r: Option<usize>)
    requires
        start <= v@.len(),
    ensures
        match r {
            Some(j) => list_close(v@, start as int) == Some(j as int) && start <= j < v@.len(),
            None => list_close(v@, start as int) is None,
        },
{
    reveal(list_close);
    let mut depth: usize = 0;
    let mut k: usize = start;
    assert(v@.subrange(start as int, start as int) =~= Seq::<char>::empty());
    while k < v.len()
        invariant
            start <= k <= v@.len(),
            depth as int == paren_depth(v@.subrange(start as int, k as int)),
            depth <= k - start,
            forall|j: int| start <= j < k ==> !closes_list(v@, start as int, j),
        decreases v@.len() - k,
    {
        assert(v@.subrange(start as int, k + 1).drop_last() =~= v@.subrange(start as int, k as int));
        let c = v[k];
        if c == '(' {
            depth = depth + 1;
        } else if c == ')' {
            if depth == 0 {
                assert(closes_list(v@, start as int, k as int));
                proof {
                    reveal(list_close);
                    let w = choose|j: int|
                        closes_list(v@, start as int, j) && forall|i: int|
                            start <= i < j ==> !closes_list(v@, start as int, i);
                    assert(closes_list(v@, start as int, w));
                    if w < k {
                        assert(!closes_list(v@, start as int, w));
                    } else if w > k {
                        assert(!closes_list(v@, start as int, k as int));
                    }
                    assert(w == k);
                }
                return Some(k);
            }
            depth = depth - 1;
        }
        k = k + 1;
    }
    proof {
        reveal(list_close);
        assert forall|j: int| !closes_list(v@, start as int, j) by {
            if start <= j < v@.len() {
            }
        }
    }
    None
}

fn trimmed_columns(text: &str) -> (r: Vec<String>)
    ensures
        string_views(r@) == trimmed_pieces(text@),
{
    let pieces = split_by_char(text, ',');
    let mut r: Vec<String> = Vec::new();
    let mut i: usize = 0;
    while i < pieces.len()
        invariant
            string_views(pieces@) == split_char(text@, ','),
            i <= pieces@.len(),
            string_views(r@) == trim_all(split_char(text@, ',').take(i as int)),
        decreases pieces@.len() - i,
    {
        let ghost prev = string_views(r@);
        let t = trim(pieces[i].as_str());
        r.push(t);
        assert(string_views(pieces@)[i as int] == pieces@[i as int]@);
        assert(string_views(r@) =~= prev.push(trim_seq(split_char(text@, ',')[i as int])));
        assert(trim_all(split_char(text@, ',').take(i + 1)) =~= trim_all(split_char(text@, ',').take(i as int)).push(trim_seq(split_char(text@, ',')[i as int])));
        i = i + 1;
    }
    assert(split_char(text@, ',').take(pieces@.len() as int) =~= split_char(text@, ','));
    r
}

fn all_names(cols: &Vec<String>) -> (b: bool)
    ensures
        b == all_column_names(string_views(cols@)),
{
    let mut i: usize = 0;
    while i < cols.len()
        invariant
            i <= cols@.len(),
            forall|j: int| 0 <= j < i ==> is_column_name_seq(#[trigger] string_views(cols@)[j]),
        decreases cols@.len() - i,
    {
        if !is_column_name(cols[i].as_str()) {
            assert(!is_column_name_seq(string_views(cols@)[i as int]));
            return false;
        }
        i = i + 1;
    }
    true
}

#[verifier::rlimit(40)]
fn upsert_column_list(sql: &str) -> (r: Result<(Vec<String>, usize), NarouError>)
    ensures
        match scan_upsert(sql@) {
            ColumnScan::NoMarker => r matches Err(NarouError::Database(m)) && m@
                == "upsert SQL lacks 'INSERT INTO novels ('"@,
            ColumnScan::Unterminated => r matches Err(NarouError::Database(m)) && m@
                == "upsert column list is unterminated"@,
            ColumnScan::BadName => r matches Err(NarouError::Database(m)) && m@
                == "cannot parse the upsert column list"@,
            ColumnScan::Columns(cols, end) => r matches Ok((c, e)) && string_views(c@) == cols
                && e as int == end && e < sql@.len(),
        },
{
    let marker = to_chars("INSERT INTO novels (");
    let m = match find(sql, "INSERT INTO novels (") {
        Some(m) => m,
        None => {
            return Err(NarouError::Database("upsert SQL lacks 'INSERT INTO novels ('".to_owned()));
        },
    };
    let v = to_chars(sql);
    let n = v.len();
    assert(first_occurrence(sql@, insert_marker()) == Some(m as int));
    assert(occurs_at(sql@, marker@, m as int));
    assert(m + marker@.len() <= v@.len());
    let start = m + marker.len();
    assert(start as int == m + insert_marker().len());
    let end = match close_of_list(&v, start) {
        Some(e) => e,
        None => {
            return Err(NarouError::Database("upsert column list is unterminated".to_owned()));
        },
    };
    assert(list_close(sql@, start as int) == Some(end as int));
    let inner = string_of_range(&v, start, end);
    let columns = trimmed_columns(inner.as_str());
    assert(string_views(columns@) == trimmed_pieces(sql@.subrange(start as int, end as int)));
    if !all_names(&columns) {
        return Err(NarouError::Database("cannot parse the upsert column list".to_owned()));
    }
    Ok((columns, end))
}

/// The column list of `INSERT INTO novels (<columns>) VALUES …`.
pub fn upsert_columns(sql: &str) -> (r: Result<Vec<String>, NarouError>)
    ensures
        match scan_upsert(sql@) {
            ColumnScan::NoMarker => r matches Err(NarouError::Database(m)) && m@
                == "upsert SQL lacks 'INSERT INTO novels ('"@,
            ColumnScan::Unterminated => r matches Err(NarouError::Database(m)) && m@
                == "upsert column list is unterminated"@,
            ColumnScan::BadName => r matches Err(NarouError::Database(m)) && m@
                == "cannot parse the upsert column list"@,
            ColumnScan::Columns(cols, _) => r matches Ok(c) && string_views(c@) == cols,
        },
{
    match upsert_column_list(sql) {
        Ok((columns, _)) => Ok(columns),
        Err(e) => Err(e),
    }
}

/// How often `c` occurs in `s`.
pub open spec fn count_char(s: Seq<char>, c: char) -> nat
    decreases s.len(),
{
    if s.len() == 0 {
        0
    } else {
        count_char(s.drop_last(), c) + if s.last() == c {
            1nat
        } else {
            0nat
        }
    }
}

/// How often `x` occurs in `s`.
pub open spec fn count_text(s: Seq<Seq<char>>, x: Seq<char>) -> nat
    decreases s.len(),
{
    if s.len() == 0 {
        0
    } else {
        count_text(s.drop_last(), x) + if s.last() == x {
            1nat
        } else {
            0nat
        }
    }
}

pub open spec fn bind_names(binds: Seq<(&str, NovelBind)>) -> Seq<Seq<char>> {
    binds.map_values(|b: (&str, NovelBind)| b.0@)
}

/// The text between the first `VALUES` of `rest` and the next one (or the
/// end): the second piece of `rest.split("VALUES")`.
pub open spec fn values_section(rest: Seq<char>) -> Option<Seq<char>> {
    match first_occurrence(rest, "VALUES"@) {
        None => None,
        Some(v) => {
            let after = rest.skip(v + "VALUES"@.len());
            match first_occurrence(after, "VALUES"@) {
                Some(w) => Some(after.take(w)),
                None => Some(after),
            }
        },
    }
}

/// The first column that does not have exactly one bind.
#[verifier::opaque]
pub open spec fn first_unmatched_column(binds: Seq<(&str, NovelBind)>, cols: Seq<Seq<char>>) -> Option<int> {
    if exists|i: int| 0 <= i < cols.len() && count_text(bind_names(binds), cols[i]) != 1 {
        Some(
            choose|i: int|
                0 <= i < cols.len() && count_text(bind_names(binds), cols[i]) != 1 && forall|k: int|
                    0 <= k < i ==> count_text(bind_names(binds), cols[k]) == 1,
        )
    } else {
        None
    }
}

/// The first bind whose name is not a column.
#[verifier::opaque]
pub open spec fn first_unexpected_bind(binds: Seq<(&str, NovelBind)>, cols: Seq<Seq<char>>) -> Option<int> {
    if exists|j: int| 0 <= j < binds.len() && !cols.contains(binds[j].0@) {
        Some(
            choose|j: int|
                0 <= j < binds.len() && !cols.contains(binds[j].0@) && forall|k: int|
                    0 <= k < j ==> cols.contains(binds[k].0@),
        )
    } else {
        None
    }
}

/// `ordered` holds, for each column in order, the bind of that name.
pub open spec fn ordered_as_columns(
    ordered: Seq<(&str, &NovelBind)>,
    binds: Seq<(&str, NovelBind)>,
    cols: Seq<Seq<char>>,
) -> bool {
    &&& ordered.len() == cols.len()
    &&& forall|i: int|
        0 <= i < cols.len() ==> #[trigger] ordered[i].0@ == cols[i] && (match first_named(binds, cols[i]) {
            Some(k) => ordered[i].0 == binds[k].0 && *ordered[i].1 == binds[k].1,
            None => false,
        })
}

fn count_named(binds: &[(&'static str, NovelBind)], name: &str) -> (n: usize)
    ensures
        n as nat == count_text(bind_names(binds@), name@),
{
    let mut n: usize = 0;
    let mut j: usize = 0;
    while j < binds.len()
        invariant
            j <= binds@.len(),
            n <= j,
            n as nat == count_text(bind_names(binds@).take(j as int), name@),
        decreases binds@.len() - j,
    {
        assert(bind_names(binds@).take(j + 1).drop_last() =~= bind_names(binds@).take(j as int));
        if chars_eq(binds[j].0, name) {
            n = n + 1;
        }
        j = j + 1;
    }
    assert(bind_names(binds@).take(binds@.len() as int) =~= bind_names(binds@));
    n
}

fn count_question_marks(v: &Vec<char>) -> (n: usize)
    ensures
        n as nat == count_char(v@, '?'),
{
    let mut n: usize = 0;
    let mut j: usize = 0;
    while j < v.len()
        invariant
            j <= v@.len(),
            n <= j,
            n as nat == count_char(v@.take(j as int), '?'),
        decreases v@.len() - j,
    {
        assert(v@.take(j + 1).drop_last() =~= v@.take(j as int));
        if v[j] == '?' {
            n = n + 1;
        }
        j = j + 1;
    }
    assert(v@.take(v@.len() as int) =~= v@);
    n
}

fn values_section_of(rest: &str) -> (r: Option<String>)
    ensures
        match values_section(rest@) {
            Some(sec) => r matches Some(s) && s@ == sec,
            None => r is None,
        },
{
    let kw = to_chars("VALUES");
    let p = match find(rest, "VALUES") {
        Some(p) => p,
        None => {
            return None;
        },
    };
    let v = to_chars(rest);
    let n = v.len();
    assert(occurs_at(rest@, kw@, p as int));
    let after = string_of_range(&v, p + kw.len(), n);
    assert(after@ =~= rest@.skip(p + "VALUES"@.len()));
    match find(after.as_str(), "VALUES") {
        Some(w) => {
            let av = to_chars(after.as_str());
            assert(occurs_at(after@, kw@, w as int));
            let sec = string_of_range(&av, 0, w);
            assert(sec@ =~= after@.take(w as int));
            Some(sec)
        },
        None => Some(after),
    }
}

fn marker_message(markers: usize, columns: usize) -> (m: String)
    ensures
        m@ == "upsert SQL binds "@ + decimal(markers as nat) + " markers for "@ + decimal(
            columns as nat,
        ) + " columns"@,
{
    let mut m = "upsert SQL binds ".to_owned();
    m.append(decimal_string(markers).as_str());
    m.append(" markers for ");
    m.append(decimal_string(columns).as_str());
    m.append(" columns");
    m
}

fn prefixed_message(before: &str, name: &str) -> (m: String)
    ensures
        m@ == before@ + name@,
{
    let mut m = before.to_owned();
    m.append(name);
    m
}

fn text_message(before: &str, name: &str, after: &str) -> (m: String)
    ensures
        m@ == before@ + name@ + after@,
{
    let mut m = before.to_owned();
    m.append(name);
    m.append(after);
    m
}

/// What binding a novel's values for an UPSERT gives: the errors of the
/// column scan, of the VALUES clause, of a column without exactly one bind
/// and of a bind without a column, in that order, else the binds in column
/// order.
pub open spec fn ordered_outcome<'a>(
    sql: Seq<char>,
    binds: Seq<(&'static str, NovelBind)>,
    r: Result<Vec<(&'static str, &'a NovelBind)>, NarouError>,
) -> bool {
    match scan_upsert(sql) {
        ColumnScan::NoMarker => r matches Err(NarouError::Database(m)) && m@
            == "upsert SQL lacks 'INSERT INTO novels ('"@,
        ColumnScan::Unterminated => r matches Err(NarouError::Database(m)) && m@
            == "upsert column list is unterminated"@,
        ColumnScan::BadName => r matches Err(NarouError::Database(m)) && m@
            == "cannot parse the upsert column list"@,
        ColumnScan::Columns(cols, end) => match values_section(sql.skip(end)) {
            None => r matches Err(NarouError::Database(m)) && m@
                == "upsert SQL lacks a VALUES clause"@,
            Some(sec) => if count_char(sec, '?') != cols.len() {
                r matches Err(NarouError::Database(m)) && m@ == "upsert SQL binds "@ + decimal(
                    count_char(sec, '?'),
                ) + " markers for "@ + decimal(cols.len()) + " columns"@
            } else {
                match first_unmatched_column(binds, cols) {
                    Some(i) => if count_text(bind_names(binds), cols[i]) == 0 {
                        r matches Err(NarouError::Database(m)) && m@ == "novel binds lack column "@
                            + cols[i]
                    } else {
                        r matches Err(NarouError::Database(m)) && m@ == "novel binds contain "@
                            + cols[i] + " twice"@
                    },
                    None => match first_unexpected_bind(binds, cols) {
                        Some(j) => r matches Err(NarouError::Database(m)) && m@
                            == "novel binds contain unexpected column "@ + binds[j].0@,
                        None => r matches Ok(o) && ordered_as_columns(o@, binds, cols),
                    },
                }
            },
        },
    }
}

/// The binds fit the UPSERT: its column list reads, its first VALUES
/// section has one `?` per column, every column has exactly one bind and
/// every bind names a column.
pub open spec fn binds_fit(sql: Seq<char>, binds: Seq<(&'static str, NovelBind)>) -> bool {
    &&& scan_upsert(sql) matches ColumnScan::Columns(cols, end)
    &&& values_section(sql.skip(end)) matches Some(sec)
    &&& count_char(sec, '?') == cols.len()
    &&& forall|i: int| 0 <= i < cols.len() ==> count_text(bind_names(binds), #[trigger] cols[i]) == 1
    &&& forall|j: int| 0 <= j < binds.len() ==> cols.contains(#[trigger] binds[j].0@)
}

/// Binding succeeds exactly when the binds fit the UPSERT, and then gives,
/// for each column of its list in order, the one bind of that name.
pub proof fn lemma_ordered_binds_fit<'a>(
    sql: Seq<char>,
    binds: Seq<(&'static str, NovelBind)>,
    r: Result<Vec<(&'static str, &'a NovelBind)>, NarouError>,
)
    requires
        ordered_outcome(sql, binds, r),
    ensures
        r is Ok <==> binds_fit(sql, binds),
        r matches Ok(o) ==> (scan_upsert(sql) matches ColumnScan::Columns(cols, _) && ordered_as_columns(
            o@,
            binds,
            cols,
        )),
{
    reveal(first_unmatched_column);
    reveal(first_unexpected_bind);
}

/// Orders `binds` as the `INSERT INTO novels (…)` column list of `sql` and
/// checks that its first `VALUES` section has one `?` per column. Every
/// column needs exactly one bind and every bind a column; the first column
/// (in SQL order) without exactly one bind, or else the first bind without a
/// column, is the error.
#[verifier::rlimit(60)]
#[verifier::spinoff_prover]
#[verifier::loop_isolation(false)]
pub fn ordered_binds<'a>(sql: &str, binds: &'a [(&'static str, NovelBind)]) -> (r: Result<
    Vec<(&'static str, &'a NovelBind)>,
    NarouError,
>)
    ensures
        ordered_outcome(sql@, binds@, r),

{
    let (columns, columns_end) = match upsert_column_list(sql) {
        Ok(found) => found,
        Err(e) => {
            return Err(e);
        },
    };
    let ghost cols = string_views(columns@);
    let v = to_chars(sql);
    let n = v.len();
    let rest = string_of_range(&v, columns_end, n);
    assert(rest@ =~= sql@.skip(columns_end as int));
    let section = match values_section_of(rest.as_str()) {
        Some(sec) => sec,
        None => {
            return Err(NarouError::Database("upsert SQL lacks a VALUES clause".to_owned()));
        },
    };
    let markers = count_question_marks(&to_chars(section.as_str()));
    if markers != columns.len() {
        return Err(NarouError::Database(marker_message(markers, columns.len())));
    }
    let mut ordered: Vec<(&'static str, &'a NovelBind)> = Vec::new();
    let mut i: usize = 0;
    while i < columns.len()
        invariant
            cols == string_views(columns@),
            i <= columns@.len(),
            ordered@.len() == i,
            forall|k: int| 0 <= k < i ==> count_text(bind_names(binds@), #[trigger] cols[k]) == 1,
            forall|k: int|
                0 <= k < i ==> #[trigger] ordered@[k].0@ == cols[k] && (match first_named(binds@, cols[k]) {
                    Some(p) => ordered@[k].0 == binds@[p].0 && *ordered@[k].1 == binds@[p].1,
                    None => false,
                }),
        decreases columns@.len() - i,
    {
        let count = count_named(binds, columns[i].as_str());
        if count != 1 {
            proof {
                reveal(first_unmatched_column);
                let w = choose|q: int|
                    0 <= q < cols.len() && count_text(bind_names(binds@), cols[q]) != 1 && forall|k: int|
                        0 <= k < q ==> count_text(bind_names(binds@), cols[k]) == 1;
                assert(count_text(bind_names(binds@), cols[i as int]) != 1);
                if w < i {
                    assert(count_text(bind_names(binds@), cols[w]) == 1);
                } else if w > i {
                    assert(count_text(bind_names(binds@), cols[i as int]) == 1);
                }
            }
            if count == 0 {
                return Err(
                    NarouError::Database(
                        prefixed_message("novel binds lack column ", columns[i].as_str()),
                    ),
                );
            } else {
                return Err(
                    NarouError::Database(
                        text_message("novel binds contain ", columns[i].as_str(), " twice"),
                    ),
                );
            }
        }
        let p = match position_of(binds, columns[i].as_str()) {
            Some(p) => p,
            None => {
                proof {
                    assert(count_text(bind_names(binds@), cols[i as int]) == 1);
                    lemma_count_positive_named(binds@, cols[i as int]);
                }
                return Err(
                    NarouError::Database(
                        prefixed_message("novel binds lack column ", columns[i].as_str()),
                    ),
                );
            },
        };
        ordered.push((binds[p].0, &binds[p].1));
        i = i + 1;
    }
    proof {
        reveal(first_unmatched_column);
    }
    let mut j: usize = 0;
    while j < binds.len()
        invariant
            cols == string_views(columns@),
            j <= binds@.len(),
            forall|k: int| 0 <= k < j ==> cols.contains(#[trigger] binds@[k].0@),
        decreases binds@.len() - j,
    {
        let known = contains_text(&columns, binds[j].0);
        if !known {
            proof {
                reveal(first_unexpected_bind);
                let w = choose|q: int|
                    0 <= q < binds@.len() && !cols.contains(binds@[q].0@) && forall|k: int|
                        0 <= k < q ==> cols.contains(binds@[k].0@);
                if w < j {
                    assert(cols.contains(binds@[w].0@));
                } else if w > j {
                    assert(cols.contains(binds@[j as int].0@));
                }
            }
            return Err(
                NarouError::Database(
                    prefixed_message("novel binds contain unexpected column ", binds[j].0),
                ),
            );
        }
        j = j + 1;
    }
    proof {
        reveal(first_unexpected_bind);
    }
    Ok(ordered)
}

proof fn lemma_count_positive_named(binds: Seq<(&str, NovelBind)>, name: Seq<char>)
    requires
        count_text(bind_names(binds), name) > 0,
    ensures
        exists|i: int| 0 <= i < binds.len() && binds[i].0@ == name,
    decreases binds.len(),
{
    if binds.len() > 0 {
        assert(bind_names(binds).drop_last() =~= bind_names(binds.drop_last()));
        if binds.last().0@ == name {
            assert(binds[binds.len() - 1].0@ == name);
        } else {
            lemma_count_positive_named(binds.drop_last(), name);
            let i = choose|i: int| 0 <= i < binds.drop_last().len() && binds.drop_last()[i].0@ == name;
            assert(binds[i].0@ == name);
        }
    }
}

/// The part of `s` after its last `c` (all of `s` when there is none).
pub open spec fn after_last(s: Seq<char>, c: char) -> Seq<char>
    decreases s.len(),
{
    if s.len() == 0 {
        s
    } else if s.last() == c {
        Seq::empty()
    } else {
        after_last(s.drop_last(), c).push(s.last())
    }
}

/// Each sequence of `s` after its last `.`.
pub open spec fn after_last_dot_all(s: Seq<Seq<char>>) -> Seq<Seq<char>> {
    s.map_values(|p: Seq<char>| after_last(p, '.'))
}

/// What the scan of a SELECT's column list finds.
pub enum SelectScan {
    NoSelect,
    NoFrom,
    BadName,
    Columns(Seq<Seq<char>>),
}

/// The column names of `SELECT <columns> FROM …`, table prefixes removed.
pub open spec fn scan_select(sql: Seq<char>) -> SelectScan {
    if !is_prefix("SELECT "@, sql) {
        SelectScan::NoSelect
    } else {
        let body = sql.skip("SELECT "@.len() as int);
        match first_occurrence(body, " FROM "@) {
            None => SelectScan::NoFrom,
            Some(end) => {
                let cols = after_last_dot_all(trimmed_pieces(body.take(end)));
                if all_column_names(cols) {
                    SelectScan::Columns(cols)
                } else {
                    SelectScan::BadName
                }
            },
        }
    }
}

fn part_after_last(s: &str, c: char) -> (r: String)
    ensures
        r@ == after_last(s@, c),
{
    let v = to_chars(s);
    let mut k: usize = v.len();
    assert(v@.take(v@.len() as int) =~= v@);
    assert(v@ + v@.subrange(v@.len() as int, v@.len() as int) =~= v@);
    while k > 0 && v[k - 1] != c
        invariant
            v@ == s@,
            k <= v@.len(),
            after_last(v@, c) == after_last(v@.take(k as int), c) + v@.subrange(k as int, v@.len() as int),
        decreases k,
    {
        let ghost t = v@.take(k as int);
        assert(t.drop_last() =~= v@.take(k - 1));
        assert(after_last(t, c) == after_last(v@.take(k - 1), c).push(v@[k - 1]));
        assert(after_last(v@.take(k - 1), c).push(v@[k - 1]) + v@.subrange(k as int, v@.len() as int) =~= after_last(v@.take(k - 1), c) + v@.subrange(k - 1, v@.len() as int));
        k = k - 1;
    }
    assert(v@.take(v@.len() as int) =~= v@);
    assert(after_last(v@.take(k as int), c) =~= Seq::<char>::empty());
    assert(Seq::<char>::empty() + v@.subrange(k as int, v@.len() as int) =~= v@.subrange(k as int, v@.len() as int));
    string_of_range(&v, k, v.len())
}

/// The column names of `SELECT <columns> FROM …`, table prefixes stripped.
#[verifier::rlimit(40)]
pub fn select_columns(sql: &str) -> (r: Result<Vec<String>, NarouError>)
    ensures
        match scan_select(sql@) {
            SelectScan::NoSelect => r matches Err(NarouError::Database(m)) && m@
                == "select SQL lacks a SELECT prefix"@,
            SelectScan::NoFrom => r matches Err(NarouError::Database(m)) && m@
                == "select SQL lacks a FROM clause"@,
            SelectScan::BadName => r matches Err(NarouError::Database(m)) && m@
                == "cannot parse the select column list"@,
            SelectScan::Columns(cols) => r matches Ok(c) && string_views(c@) == cols,
        },
{
    let v = to_chars(sql);
    let prefix = to_chars("SELECT ");
    let starts = crate::text::vec_occurs_at(&v, &prefix, 0);
    assert(starts == is_prefix("SELECT "@, sql@));
    if !starts {
        return Err(NarouError::Database("select SQL lacks a SELECT prefix".to_owned()));
    }
    let body = string_of_range(&v, prefix.len(), v.len());
    assert(body@ =~= sql@.skip("SELECT "@.len() as int));
    let end = match find(body.as_str(), " FROM ") {
        Some(e) => e,
        None => {
            return Err(NarouError::Database("select SQL lacks a FROM clause".to_owned()));
        },
    };
    let bv = to_chars(body.as_str());
    let head = string_of_range(&bv, 0, end);
    let trimmed = trimmed_columns(head.as_str());
    let mut columns: Vec<String> = Vec::new();
    let mut i: usize = 0;
    while i < trimmed.len()
        invariant
            i <= trimmed@.len(),
            string_views(columns@) == after_last_dot_all(string_views(trimmed@).take(i as int)),
        decreases trimmed@.len() - i,
    {
        let ghost prev = string_views(columns@);
        let name = part_after_last(trimmed[i].as_str(), '.');
        columns.push(name);
        assert(string_views(columns@) =~= prev.push(after_last(trimmed@[i as int]@, '.')));
        assert(after_last_dot_all(string_views(trimmed@).take(i + 1)) =~= after_last_dot_all(string_views(trimmed@).take(i as int)).push(after_last(trimmed@[i as int]@, '.')));
        i = i + 1;
    }
    assert(string_views(trimmed@).take(trimmed@.len() as int) =~= string_views(trimmed@));
    assert(bv@.subrange(0, end as int) =~= body@.take(end as int));
    if !all_names(&columns) {
        return Err(NarouError::Database("cannot parse the select column list".to_owned()));
    }
    Ok(columns)
}

} // verus!
