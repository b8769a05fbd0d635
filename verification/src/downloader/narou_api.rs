//! Settings of the requests made to the なろうAPI.
use vstd::string::*;
use vstd::prelude::*;

use crate::db::novel_record::{NovelRecord, UtcNanos};
use crate::text::{ascii_lower_seq, join, join_seq, string_views, to_ascii_lowercase, vec_chars_eq, to_chars};

verus! {

/// The User-Agent sent when none is configured.
pub const NAROU_API_DEFAULT_USER_AGENT: &'static str = "Narou RS";

/// The User-Agent of なろうAPI requests: the configured
/// `download.narou-api.user-agent` unless it is missing or empty.
pub fn narou_api_user_agent(configured: Option<&str>) -> (r: String)
    ensures
        r@ == match configured {
            Some(s) => if s@.len() > 0 {
                s@
            } else {
                NAROU_API_DEFAULT_USER_AGENT@
            },
            None => NAROU_API_DEFAULT_USER_AGENT@,
        },
{
    match configured {
        Some(s) => if s.unicode_len() > 0 {
            s.to_owned()
        } else {
            NAROU_API_DEFAULT_USER_AGENT.to_owned()
        },
        None => NAROU_API_DEFAULT_USER_AGENT.to_owned(),
    }
}

/// The なろうAPI endpoint.
pub const NAROU_API_URL: &'static str = "https://api.syosetu.com/novelapi/api/";

/// The query of a batch up to its ncodes: the fields asked for (`n-` first,
/// as narou.rb asks) and JSON output.
pub const NAROU_API_QUERY: &'static str = "?of=n-t-nt-ga-gf-nu-gl-l-w-s-e&out=json&ncode=";

/// How many novels one request asks about.
pub const NAROU_API_BATCH_SIZE: usize = 50;

/// The request for the novels `ncodes`: their ncodes joined by `-`.
pub open spec fn batch_url(ncodes: Seq<Seq<char>>) -> Seq<char> {
    NAROU_API_URL@ + NAROU_API_QUERY@ + join_seq(ncodes, "-"@)
}

/// The ncodes of batch `k`: the `k`-th run of at most 50.
pub open spec fn batch_ncodes(ncodes: Seq<Seq<char>>, k: int) -> Seq<Seq<char>> {
    let lo = k * NAROU_API_BATCH_SIZE;
    let hi = if lo + NAROU_API_BATCH_SIZE <= ncodes.len() {
        lo + NAROU_API_BATCH_SIZE
    } else {
        ncodes.len() as int
    };
    ncodes.subrange(lo, hi)
}

/// How many batches `n` novels make.
pub open spec fn batch_count(n: int) -> int {
    (n + NAROU_API_BATCH_SIZE - 1) / NAROU_API_BATCH_SIZE as int
}

/// The requests that ask about the novels `ncodes`, 50 at a time in their
/// order, each with the number of novels it asks about.
pub fn narou_api_batch_urls(ncodes: &Vec<String>) -> (r: Vec<(String, usize)>)
    ensures
        r@.len() == batch_count(ncodes@.len() as int),
        forall|k: int|
            0 <= k < r@.len() ==> {
                &&& (#[trigger] r@[k]).0@ == batch_url(batch_ncodes(string_views(ncodes@), k))
                &&& r@[k].1 == batch_ncodes(string_views(ncodes@), k).len()
            },
{
    let ghost all = string_views(ncodes@);
    let mut out: Vec<(String, usize)> = Vec::new();
    let mut lo: usize = 0;
    while lo < ncodes.len()
        invariant
            all == string_views(ncodes@),
            lo <= ncodes@.len(),
            lo == out@.len() * NAROU_API_BATCH_SIZE || lo == ncodes@.len(),
            lo < ncodes@.len() ==> lo == out@.len() * NAROU_API_BATCH_SIZE,
            out@.len() == batch_count(lo as int),
            forall|k: int|
                0 <= k < out@.len() ==> {
                    &&& (#[trigger] out@[k]).0@ == batch_url(batch_ncodes(all, k))
                    &&& out@[k].1 == batch_ncodes(all, k).len()
                },
        decreases ncodes@.len() - lo,
    {
        let hi: usize = if ncodes.len() - lo >= NAROU_API_BATCH_SIZE {
            lo + NAROU_API_BATCH_SIZE
        } else {
            ncodes.len()
        };
        let mut chunk: Vec<String> = Vec::new();
        let mut j: usize = lo;
        while j < hi
            invariant
                lo <= j <= hi <= ncodes@.len(),
                all == string_views(ncodes@),
                string_views(chunk@) == all.subrange(lo as int, j as int),
                chunk@.len() == j - lo,
            decreases hi - j,
        {
            let ghost prev = chunk@;
            let c = ncodes[j].clone();
            chunk.push(c);
            assert forall|k: int| 0 <= k < j + 1 - lo implies #[trigger] string_views(chunk@)[k]
                == all.subrange(lo as int, j + 1)[k] by {
                if k < j - lo {
                    assert(chunk@[k] == prev[k]);
                    assert(string_views(prev)[k] == all.subrange(lo as int, j as int)[k]);
                }
            }
            assert(string_views(chunk@) =~= all.subrange(lo as int, j + 1));
            j = j + 1;
        }
        let joined = join(&chunk, "-");
        let mut url = NAROU_API_URL.to_owned();
        url.append(NAROU_API_QUERY);
        url.append(joined.as_str());
        let n = hi - lo;
        proof {
            let k = out@.len() as int;
            assert(lo == k * NAROU_API_BATCH_SIZE);
            assert(batch_ncodes(all, k) =~= all.subrange(lo as int, hi as int));
        }
        out.push((url, n));
        proof {
            assert(out@.len() == batch_count(hi as int)) by {
                assert(lo as int == (out@.len() - 1) * 50);
            }
        }
        lo = hi;
    }
    out
}

/// What the なろうAPI said of one novel: its ncode (empty where it gave
/// none as text) and each field it gave with the expected type. An
/// instant is `None` inside where its text could not be read.
#[derive(Debug)]
pub struct ApiEntry {
    pub ncode: String,
    pub title: Option<String>,
    pub writer: Option<String>,
    pub end: Option<i64>,
    pub general_all_no: Option<i64>,
    pub length: Option<i64>,
    pub general_firstup: Option<Option<UtcNanos>>,
    pub general_lastup: Option<Option<UtcNanos>>,
    pub novelupdated_at: Option<Option<UtcNanos>>,
    pub novel_type: Option<i64>,
}

pub open spec fn opt_view(o: Option<String>) -> Option<Seq<char>> {
    match o {
        Some(s) => Some(s@),
        None => None,
    }
}

fn copy_text_opt(o: &Option<String>) -> (r: Option<String>)
    ensures
        opt_view(r) == opt_view(*o),
{
    match o {
        Some(s) => Some(s.clone()),
        None => None,
    }
}

fn copy_texts(v: &Vec<String>) -> (r: Vec<String>)
    ensures
        string_views(r@) == string_views(v@),
{
    let mut r: Vec<String> = Vec::new();
    let mut i: usize = 0;
    while i < v.len()
        invariant
            i <= v@.len(),
            string_views(r@) == string_views(v@).take(i as int),
            r@.len() == i,
        decreases v@.len() - i,
    {
        let ghost prev = r@;
        let c = v[i].clone();
        r.push(c);
        assert forall|k: int| 0 <= k < i + 1 implies #[trigger] string_views(r@)[k] == string_views(
            v@,
        ).take(i + 1)[k] by {
            if k < i {
                assert(r@[k] == prev[k]);
                assert(string_views(prev)[k] == string_views(v@).take(i as int)[k]);
            }
        }
        assert(string_views(r@) =~= string_views(v@).take(i + 1));
        i = i + 1;
    }
    assert(string_views(v@).take(v@.len() as int) =~= string_views(v@));
    r
}

/// The record `r` with what `e` said of it: the title, author, end flag,
/// episode count, length and instants the entry gives, and its novel type
/// (2 stays 2, any other number is 1).
pub open spec fn api_updated(r: NovelRecord, u: NovelRecord, e: ApiEntry) -> bool {
    &&& u.id == r.id
    &&& u.title@ == (match e.title {
        Some(t) => t@,
        None => r.title@,
    })
    &&& u.author@ == (match e.writer {
        Some(w) => w@,
        None => r.author@,
    })
    &&& u.end == (match e.end {
        Some(n) => n == 1,
        None => r.end,
    })
    &&& u.general_all_no == (match e.general_all_no {
        Some(n) => Some(n),
        None => r.general_all_no,
    })
    &&& u.length == (match e.length {
        Some(n) => Some(n),
        None => r.length,
    })
    &&& u.general_firstup == (match e.general_firstup {
        Some(t) => t,
        None => r.general_firstup,
    })
    &&& u.general_lastup == (match e.general_lastup {
        Some(t) => t,
        None => r.general_lastup,
    })
    &&& u.novelupdated_at == (match e.novelupdated_at {
        Some(t) => t,
        None => r.novelupdated_at,
    })
    &&& u.novel_type == (match e.novel_type {
        Some(n) => if n == 2 {
            2u8
        } else {
            1u8
        },
        None => r.novel_type,
    })
    &&& u.file_title@ == r.file_title@
    &&& u.toc_url@ == r.toc_url@
    &&& u.sitename@ == r.sitename@
    &&& u.last_update == r.last_update
    &&& u.new_arrivals_date == r.new_arrivals_date
    &&& u.use_subdirectory == r.use_subdirectory
    &&& u.last_mail_date == r.last_mail_date
    &&& string_views(u.tags@) == string_views(r.tags@)
    &&& opt_view(u.ncode) == opt_view(r.ncode)
    &&& opt_view(u.domain) == opt_view(r.domain)
    &&& u.suspend == r.suspend
    &&& u.is_narou == r.is_narou
    &&& u.last_check_date == r.last_check_date
    &&& u.convert_failure == r.convert_failure
}

fn pick_text(given: &Option<String>, current: &String) -> (r: String)
    ensures
        r@ == (match *given {
            Some(t) => t@,
            None => current@,
        }),
{
    match given {
        Some(t) => t.clone(),
        None => current.clone(),
    }
}

/// `record` updated with what the なろうAPI said of it.
pub fn apply_api_entry(record: &NovelRecord, e: &ApiEntry) -> (u: NovelRecord)
    ensures
        api_updated(*record, u, *e),
{
    NovelRecord {
        id: record.id,
        author: pick_text(&e.writer, &record.author),
        title: pick_text(&e.title, &record.title),
        file_title: record.file_title.clone(),
        toc_url: record.toc_url.clone(),
        sitename: record.sitename.clone(),
        novel_type: match e.novel_type {
            Some(n) => if n == 2 {
                2
            } else {
                1
            },
            None => record.novel_type,
        },
        end: match e.end {
            Some(n) => n == 1,
            None => record.end,
        },
        last_update: record.last_update,
        new_arrivals_date: record.new_arrivals_date,
        use_subdirectory: record.use_subdirectory,
        general_firstup: match e.general_firstup {
            Some(t) => t,
            None => record.general_firstup,
        },
        novelupdated_at: match e.novelupdated_at {
            Some(t) => t,
            None => record.novelupdated_at,
        },
        general_lastup: match e.general_lastup {
            Some(t) => t,
            None => record.general_lastup,
        },
        last_mail_date: record.last_mail_date,
        tags: copy_texts(&record.tags),
        ncode: copy_text_opt(&record.ncode),
        domain: copy_text_opt(&record.domain),
        general_all_no: match e.general_all_no {
            Some(n) => Some(n),
            None => record.general_all_no,
        },
        length: match e.length {
            Some(n) => Some(n),
            None => record.length,
        },
        suspend: record.suspend,
        is_narou: record.is_narou,
        last_check_date: record.last_check_date,
        convert_failure: record.convert_failure,
    }
}

/// Whether a record's ncode is `ncode`, ASCII case aside.
pub open spec fn ncode_matches(r: NovelRecord, ncode: Seq<char>) -> bool {
    r.ncode matches Some(n) && ascii_lower_seq(n@) == ascii_lower_seq(ncode)
}

/// The first record whose ncode is `ncode`, from `i` on.
pub open spec fn first_with_ncode(records: Seq<NovelRecord>, ncode: Seq<char>, i: int) -> Option<int>
    decreases records.len() - i,
    when 0 <= i <= records.len()
{
    if i >= records.len() {
        None
    } else if ncode_matches(records[i], ncode) {
        Some(i)
    } else {
        first_with_ncode(records, ncode, i + 1)
    }
}

/// For each entry in order whose ncode some record has, the first such
/// record and the entry.
pub open spec fn api_matches(records: Seq<NovelRecord>, entries: Seq<ApiEntry>) -> Seq<(int, int)>
    decreases entries.len(),
{
    if entries.len() == 0 {
        Seq::empty()
    } else {
        let before = api_matches(records, entries.drop_last());
        match first_with_ncode(records, entries.last().ncode@, 0) {
            Some(i) => before.push((i, entries.len() - 1)),
            None => before,
        }
    }
}

fn first_record_with_ncode(records: &Vec<NovelRecord>, ncode: &str) -> (r: Option<usize>)
    ensures
        match r {
            Some(i) => first_with_ncode(records@, ncode@, 0) == Some(i as int),
            None => first_with_ncode(records@, ncode@, 0) is None,
        },
{
    let wanted = to_ascii_lowercase(ncode);
    let wv = to_chars(wanted.as_str());
    let mut i: usize = 0;
    while i < records.len()
        invariant
            i <= records@.len(),
            wv@ == ascii_lower_seq(ncode@),
            first_with_ncode(records@, ncode@, 0) == first_with_ncode(records@, ncode@, i as int),
        decreases records@.len() - i,
    {
        if let Some(n) = &records[i].ncode {
            let lower = to_ascii_lowercase(n.as_str());
            let lv = to_chars(lower.as_str());
            if vec_chars_eq(&lv, &wv) {
                return Some(i);
            }
        }
        i = i + 1;
    }
    None
}

/// The records the なろうAPI entries update, in the entries' order: each
/// entry with an ncode of a record updates the first such record.
pub fn api_updates(records: &Vec<NovelRecord>, entries: &Vec<ApiEntry>) -> (r: Vec<NovelRecord>)
    ensures
        r@.len() == api_matches(records@, entries@).len(),
        forall|k: int|
            0 <= k < r@.len() ==> api_updated(
                records@[api_matches(records@, entries@)[k].0],
                #[trigger] r@[k],
                entries@[api_matches(records@, entries@)[k].1],
            ),
{
    let mut out: Vec<NovelRecord> = Vec::new();
    let mut j: usize = 0;
    while j < entries.len()
        invariant
            j <= entries@.len(),
            out@.len() == api_matches(records@, entries@.take(j as int)).len(),
            forall|k: int|
                0 <= k < out@.len() ==> api_updated(
                    records@[api_matches(records@, entries@.take(j as int))[k].0],
                    #[trigger] out@[k],
                    entries@[api_matches(records@, entries@.take(j as int))[k].1],
                ),
            forall|k: int|
                0 <= k < api_matches(records@, entries@.take(j as int)).len() ==> {
                    &&& 0 <= (#[trigger] api_matches(records@, entries@.take(j as int))[k]).0
                        < records@.len()
                    &&& 0 <= api_matches(records@, entries@.take(j as int))[k].1 < j
                },
        decreases entries@.len() - j,
    {
        let ghost before = api_matches(records@, entries@.take(j as int));
        assert(entries@.take(j + 1).drop_last() =~= entries@.take(j as int));
        assert(entries@.take(j + 1).last() == entries@[j as int]);
        match first_record_with_ncode(records, entries[j].ncode.as_str()) {
            Some(i) => {
                proof {
                    lemma_first_with_ncode_bounds(records@, entries@[j as int].ncode@, 0);
                }
                let u = apply_api_entry(&records[i], &entries[j]);
                out.push(u);
                proof {
                    let now = api_matches(records@, entries@.take(j + 1));
                    assert(now == before.push((i as int, j as int)));
                    assert forall|k: int| 0 <= k < out@.len() implies api_updated(
                        records@[now[k].0],
                        #[trigger] out@[k],
                        entries@[now[k].1],
                    ) by {
                        if k < before.len() {
                            assert(entries@.take(j as int)[before[k].1] == entries@[before[k].1]);
                        }
                    }
                }
            },
            None => {
                proof {
                    let now = api_matches(records@, entries@.take(j + 1));
                    assert(now == before);
                    assert forall|k: int| 0 <= k < out@.len() implies api_updated(
                        records@[now[k].0],
                        #[trigger] out@[k],
                        entries@[now[k].1],
                    ) by {
                        assert(entries@.take(j as int)[before[k].1] == entries@[before[k].1]);
                    }
                }
            },
        }
        j = j + 1;
    }
    assert(entries@.take(entries@.len() as int) =~= entries@);
    out
}

proof fn lemma_first_with_ncode_bounds(records: Seq<NovelRecord>, ncode: Seq<char>, i: int)
    requires
        0 <= i <= records.len(),
    ensures
        first_with_ncode(records, ncode, i) matches Some(k) ==> i <= k < records.len(),
    decreases records.len() - i,
{
    if i < records.len() && !ncode_matches(records[i], ncode) {
        lemma_first_with_ncode_bounds(records, ncode, i + 1);
    }
}

/// The ncodes of the records that have one, in order.
pub open spec fn ncodes_of(records: Seq<NovelRecord>) -> Seq<Seq<char>>
    decreases records.len(),
{
    if records.len() == 0 {
        Seq::empty()
    } else {
        let before = ncodes_of(records.drop_last());
        match records.last().ncode {
            Some(n) => before.push(n@),
            None => before,
        }
    }
}

/// The ncodes the なろうAPI is asked about: those of the records that have
/// one, in order.
pub fn narou_ncodes(records: &Vec<NovelRecord>) -> (r: Vec<String>)
    ensures
        string_views(r@) == ncodes_of(records@),
{
    let mut out: Vec<String> = Vec::new();
    let mut i: usize = 0;
    while i < records.len()
        invariant
            i <= records@.len(),
            string_views(out@) == ncodes_of(records@.take(i as int)),
        decreases records@.len() - i,
    {
        assert(records@.take(i + 1).drop_last() =~= records@.take(i as int));
        if let Some(n) = &records[i].ncode {
            let ghost prev = out@;
            let c = n.clone();
            out.push(c);
            assert(string_views(out@) =~= string_views(prev).push(n@));
        }
        i = i + 1;
    }
    assert(records@.take(records@.len() as int) =~= records@);
    out
}

/// The novels of an answer's elements, in order: an element is `None`
/// where it names no ncode.
pub open spec fn present_entries(items: Seq<Option<ApiEntry>>) -> Seq<ApiEntry>
    decreases items.len(),
{
    if items.len() == 0 {
        Seq::empty()
    } else {
        let rest = present_entries(items.drop_first());
        match items[0] {
            Some(e) => seq![e] + rest,
            None => rest,
        }
    }
}

/// The entries of an API answer: its first element counts the results and
/// is left out, and so is each later element that names no ncode.
pub fn answer_entries(items: Vec<Option<ApiEntry>>) -> (r: Vec<ApiEntry>)
    ensures
        r@ == (if items@.len() == 0 { Seq::empty() } else { present_entries(items@.drop_first()) }),
{
    let mut items = items;
    let mut out: Vec<ApiEntry> = Vec::new();
    if items.len() == 0 {
        return out;
    }
    let _count = items.remove(0);
    let ghost answered = items@;
    while items.len() > 0
        invariant
            out@ + present_entries(items@) == present_entries(answered),
        decreases items@.len(),
    {
        let ghost before = items@;
        let item = items.remove(0);
        assert(items@ == before.drop_first());
        match item {
            Some(e) => {
                proof {
                    assert(present_entries(before) == seq![e] + present_entries(items@));
                    assert(out@.push(e) + present_entries(items@) == out@ + (seq![e] + present_entries(items@)));
                }
                out.push(e);
            },
            None => {},
        }
    }
    assert(out@ + present_entries(items@) == out@);
    out
}

/// The count a batch refresh keeps: records updated, and records that could
/// not be asked about because their request failed.
pub struct BatchTally {
    pub updated: usize,
    pub failed: usize,
}

impl BatchTally {
    /// Nothing counted yet.
    pub fn new() -> (r: Self)
        ensures
            r.updated == 0,
            r.failed == 0,
    {
        BatchTally { updated: 0, failed: 0 }
    }

    /// A request for `count` novels failed: they count as failed.
    pub fn batch_failed(&mut self, count: usize)
        requires
            old(self).failed + count <= usize::MAX,
        ensures
            final(self).failed == old(self).failed + count,
            final(self).updated == old(self).updated,
    {
        self.failed = self.failed + count;
    }

    /// A request answered with `updated` records to store.
    pub fn batch_answered(&mut self, updated: usize)
        requires
            old(self).updated + updated <= usize::MAX,
        ensures
            final(self).updated == old(self).updated + updated,
            final(self).failed == old(self).failed,
    {
        self.updated = self.updated + updated;
    }
}

} // verus!

