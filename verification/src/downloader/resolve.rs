//! Which novel, and which site, a download target names.
use vstd::prelude::*;
use crate::db::database::Database;
use crate::db::index_store::lookup_id;
use crate::downloader::site_setting::{
    any_matches, first_captures, interpolated, selected_template, SiteSetting,
};
use crate::downloader::target::{get_target_type, target_type_of};
use crate::downloader::types::TargetType;
use crate::error::NarouError;
use crate::keyed::{entries_map, lemma_entry_in_map, lemma_map_key_position, unique_keys};
use crate::text::{chars_eq, decimal, lowercase, parse_i64, parse_i64_text, push_char, to_lowercase};

verus! {

/// Whether `site` takes `url` as the address of a novel.
pub open spec fn takes_url(site: SiteSetting, url: Seq<char>) -> bool {
    any_matches(site.url_patterns_of(site.url), url)
}

/// The first of `sites`, from `i` on, that takes `url`.
pub open spec fn site_index_for(sites: Seq<SiteSetting>, url: Seq<char>, i: int) -> Option<int>
    decreases sites.len() - i,
    when 0 <= i <= sites.len()
{
    if i >= sites.len() {
        None
    } else if takes_url(sites[i], url) {
        Some(i)
    } else {
        site_index_for(sites, url, i + 1)
    }
}

/// The first of `sites` that takes `url` as the address of a novel.
pub fn find_site_setting(sites: &Vec<SiteSetting>, url: &str) -> (r: Option<usize>)
    ensures
        match r {
            Some(i) => i < sites@.len() && site_index_for(sites@, url@, 0) == Some(i as int),
            None => site_index_for(sites@, url@, 0) is None,
        },
{
    let mut i: usize = 0;
    while i < sites.len()
        invariant
            i <= sites@.len(),
            site_index_for(sites@, url@, 0) == site_index_for(sites@, url@, i as int),
        decreases sites@.len() - i,
    {
        if sites[i].matches_url(url) {
            return Some(i);
        }
        i = i + 1;
    }
    None
}

/// The table of contents of a site's single template.
pub open spec fn plain_toc(site: SiteSetting) -> Seq<char> {
    match selected_template(site.toc_url, None) {
        Some(t) => interpolated(t, Map::empty(), site.base_vars()),
        None => Seq::empty(),
    }
}

/// The table of contents `site` gives for `url`: the one its captures fill
/// in, else the single template.
pub open spec fn toc_for(site: SiteSetting, url: Seq<char>) -> Seq<char> {
    match first_captures(site.url_patterns_of(site.url), url, 0) {
        None => plain_toc(site),
        Some(caps) => match selected_template(site.toc_url, Some(url)) {
            None => plain_toc(site),
            Some(t) => interpolated(t, caps.insert("toc_url"@, t), site.base_vars()),
        },
    }
}

fn toc_url_for(site: &SiteSetting, url: &str) -> (r: String)
    ensures
        r@ == toc_for(*site, url@),
{
    match site.toc_url_with_url_captures(url) {
        Some(t) => t,
        None => site.toc_url(),
    }
}

/// The id of the novel the index files under `toc`, when it exists.
pub open spec fn id_by_toc(db: Database, toc: Seq<char>) -> Option<i64> {
    match lookup_id(db.index_tables().0, toc) {
        Some(id) => if db@.contains_key(id) {
            Some(db@[id].id)
        } else {
            None
        },
        None => None,
    }
}

fn existing_id_by_toc(db: &Database, toc: &str) -> (r: Option<i64>)
    ensures
        r == id_by_toc(*db, toc@),
{
    match db.get_by_toc_url(toc) {
        Some(rec) => Some(rec.id),
        None => None,
    }
}

/// Novel `id` is filed and has `ncode`.
pub open spec fn holds_ncode(db: Database, ncode: Seq<char>, id: i64) -> bool {
    db@.contains_key(id) && (db@[id].ncode matches Some(n) && n@ == ncode)
}

/// A filed novel with `ncode`.
fn id_by_ncode(db: &Database, ncode: &str) -> (r: Option<i64>)
    ensures
        match r {
            Some(id) => holds_ncode(*db, ncode@, id),
            None => forall|id: i64| !holds_ncode(*db, ncode@, id),
        },
{
    let records = db.all_records();
    let entries = records.entries();
    let mut i: usize = 0;
    while i < entries.len()
        invariant
            i <= entries@.len(),
            unique_keys(entries@),
            records@ == entries_map(entries@),
            records@ == db@,
            forall|id: i64| #[trigger] records@.contains_key(id) ==> records@[id].id == id,
            forall|j: int|
                0 <= j < i ==> !((#[trigger] entries@[j]).1.ncode matches Some(n) && n@ == ncode@),
        decreases entries@.len() - i,
    {
        let found = match &entries[i].1.ncode {
            Some(n) => chars_eq(n.as_str(), ncode),
            None => false,
        };
        if found {
            proof {
                lemma_entry_in_map(entries@, i as int);
            }
            return Some(entries[i].1.id);
        }
        i = i + 1;
    }
    proof {
        assert forall|id: i64| !holds_ncode(*db, ncode@, id) by {
            if db@.contains_key(id) {
                let p = lemma_map_key_position(entries@, id);
                assert(entries@[p].1 == db@[id]);
            }
        }
    }
    None
}

/// The decimal text of `n`.
fn u64_text(n: u64) -> (r: String)
    ensures
        r@ == decimal(n as nat),
    decreases n,
{
    if n < 10 {
        let mut r = String::new();
        push_char(&mut r, (((n as u8) + 48) as u8) as char);
        r
    } else {
        let mut r = u64_text(n / 10);
        push_char(&mut r, ((((n % 10) as u8) + 48) as u8) as char);
        r
    }
}

/// The decimal text of an id, as `i64::to_string` writes it.
pub open spec fn id_text(n: i64) -> Seq<char> {
    if n < 0 {
        seq!['-'] + decimal((-n) as nat)
    } else {
        decimal(n as nat)
    }
}

fn i64_text(n: i64) -> (r: String)
    ensures
        r@ == id_text(n),
{
    if n < 0 {
        let m: u64 = if n == i64::MIN {
            9223372036854775808u64
        } else {
            (-n) as u64
        };
        let mut r = String::new();
        push_char(&mut r, '-');
        r.append(u64_text(m).as_str());
        r
    } else {
        u64_text(n as u64)
    }
}

/// `a` followed by `b`.
fn concat2(a: &str, b: &str) -> (r: String)
    ensures
        r@ == a@ + b@,
{
    let mut r = a.to_owned();
    r.append(b);
    r
}

/// `a`, `b` and `c` one after another.
fn concat3(a: &str, b: &str, c: &str) -> (r: String)
    ensures
        r@ == a@ + b@ + c@,
{
    let mut r = a.to_owned();
    r.append(b);
    r.append(c);
    r
}

/// The address of a novel of the main site by its ncode.
pub open spec fn ncode_url(ncode: Seq<char>) -> Seq<char> {
    "https://ncode.syosetu.com/"@ + ncode + "/"@
}

/// What resolving a novel's filed record gives: the id and the site that
/// takes its table of contents, `SiteSetting` when none does.
pub open spec fn filed_result(
    db: Database,
    sites: Seq<SiteSetting>,
    id: i64,
    r: Result<(Option<i64>, usize), NarouError>,
) -> bool {
    match site_index_for(sites, db@[id].toc_url@, 0) {
        Some(j) => r == Ok::<(Option<i64>, usize), NarouError>((Some(id), j as usize)),
        None => r matches Err(e) && e is SiteSetting && e.detail() == "No matching site setting"@,
    }
}

/// Resolves a filed novel: the site that takes its table of contents.
fn resolve_filed(db: &Database, sites: &Vec<SiteSetting>, id: i64) -> (r: Result<
    (Option<i64>, usize),
    NarouError,
>)
    requires
        db@.contains_key(id),
    ensures
        filed_result(*db, sites@, id, r),
{
    let rec = match db.get(id) {
        Some(rec) => rec,
        None => {
            return Err(NarouError::NotFound(concat3("Novel record ", i64_text(id).as_str(), " has no toc_url")));
        },
    };
    match find_site_setting(sites, rec.toc_url.as_str()) {
        Some(j) => Ok((Some(id), j)),
        None => Err(NarouError::SiteSetting("No matching site setting".to_owned())),
    }
}

/// The novel and the site a download target names.
/// - A URL: the first site that takes it, and the novel filed under the
///   table of contents that site gives for it.
/// - An ncode (lower-cased): a filed novel with it and the site of its table
///   of contents; with none filed, the site that takes the main site's
///   address for it, and the novel filed under its table of contents.
/// - A number: that novel, and the site of its table of contents.
/// - Anything else: the novel with that title, and the site of its table
///   of contents.
pub fn resolve_target_for_download(target: &str, db: &Database, sites: &Vec<SiteSetting>) -> (r:
    Result<(Option<i64>, usize), NarouError>)
    ensures
        target_type_of(target@) == TargetType::Url ==> match site_index_for(sites@, target@, 0) {
            Some(i) => r == Ok::<(Option<i64>, usize), NarouError>(
                (id_by_toc(*db, toc_for(sites@[i], target@)), i as usize),
            ),
            None => r matches Err(e) && e is InvalidTarget && e.detail() == "No site setting for URL: "@
                + target@,
        },
        target_type_of(target@) == TargetType::Ncode ==> {
            let n = lowercase(target@);
            if exists|id: i64| holds_ncode(*db, n, id) {
                exists|id: i64| holds_ncode(*db, n, id) && filed_result(*db, sites@, id, r)
            } else {
                match site_index_for(sites@, ncode_url(n), 0) {
                    Some(i) => r == Ok::<(Option<i64>, usize), NarouError>(
                        (id_by_toc(*db, toc_for(sites@[i], ncode_url(n))), i as usize),
                    ),
                    None => r matches Err(e) && e is InvalidTarget && e.detail() == "対応外のncodeです("@
                        + n + ")"@,
                }
            }
        },
        target_type_of(target@) == TargetType::Id ==> match parse_i64_text(target@) {
            None => r matches Err(e) && e is InvalidTarget && e.detail() == target@,
            Some(id) => if db@.contains_key(id) && site_index_for(sites@, db@[id].toc_url@, 0) is Some {
                r == Ok::<(Option<i64>, usize), NarouError>(
                    (Some(id), (site_index_for(sites@, db@[id].toc_url@, 0)->0) as usize),
                )
            } else {
                r matches Err(e) && e is NotFound && e.detail() == "Novel not found for ID: "@
                    + id_text(id)
            },
        },
        target_type_of(target@) == TargetType::Other ==> match lookup_id(db.index_tables().1, target@) {
            Some(id) => if db@.contains_key(id) {
                filed_result(*db, sites@, id, r)
            } else {
                r matches Err(e) && e is NotFound && e.detail() == "Novel not found: "@ + target@
                    + " (use URL for new downloads)"@
            },
            None => if exists|id: i64| db@.contains_key(id) && lowercase(#[trigger] db@[id].title@)
                == lowercase(target@) {
                exists|id: i64|
                    db@.contains_key(id) && lowercase(#[trigger] db@[id].title@) == lowercase(target@)
                        && filed_result(*db, sites@, id, r)
            } else {
                r matches Err(e) && e is NotFound && e.detail() == "Novel not found: "@ + target@
                    + " (use URL for new downloads)"@
            },
        },
{
    let records = db.all_records();
    match get_target_type(target) {
        TargetType::Url => {
            let i = match find_site_setting(sites, target) {
                Some(i) => i,
                None => {
                    return Err(
                        NarouError::InvalidTarget(concat2("No site setting for URL: ", target)),
                    );
                },
            };
            let toc = toc_url_for(&sites[i], target);
            Ok((existing_id_by_toc(db, toc.as_str()), i))
        },
        TargetType::Ncode => {
            let ncode = to_lowercase(target);
            match id_by_ncode(db, ncode.as_str()) {
                Some(id) => resolve_filed(db, sites, id),
                None => {
                    let url = concat3("https://ncode.syosetu.com/", ncode.as_str(), "/");
                    let i = match find_site_setting(sites, url.as_str()) {
                        Some(i) => i,
                        None => {
                            return Err(
                                NarouError::InvalidTarget(
                                    concat3("対応外のncodeです(", ncode.as_str(), ")"),
                                ),
                            );
                        },
                    };
                    let toc = toc_url_for(&sites[i], url.as_str());
                    Ok((existing_id_by_toc(db, toc.as_str()), i))
                },
            }
        },
        TargetType::Id => {
            let id = match parse_i64(target) {
                Some(id) => id,
                None => {
                    return Err(NarouError::InvalidTarget(target.to_owned()));
                },
            };
            let found = match db.get(id) {
                Some(rec) => find_site_setting(sites, rec.toc_url.as_str()),
                None => None,
            };
            match found {
                Some(j) => Ok((Some(id), j)),
                None => Err(
                    NarouError::NotFound(concat2("Novel not found for ID: ", i64_text(id).as_str())),
                ),
            }
        },
        TargetType::Other => {
            let found = match db.find_by_title(target) {
                Some(rec) => Some(rec.id),
                None => None,
            };
            match found {
                Some(id) => {
                    if db.get(id).is_some() {
                        resolve_filed(db, sites, id)
                    } else {
                        Err(
                            NarouError::NotFound(
                                concat3("Novel not found: ", target, " (use URL for new downloads)"),
                            ),
                        )
                    }
                },
                None => Err(
                    NarouError::NotFound(
                        concat3("Novel not found: ", target, " (use URL for new downloads)"),
                    ),
                ),
            }
        },
    }
}

/// What naming a filed novel gives: its id and the site that takes its
/// table of contents, `SiteSetting` when none does.
pub open spec fn named_result(db: Database, sites: Seq<SiteSetting>, id: i64, r: Result<(i64, usize), NarouError>) -> bool {
    match site_index_for(sites, db@[id].toc_url@, 0) {
        Some(j) => r == Ok::<(i64, usize), NarouError>((id, j as usize)),
        None => r matches Err(e) && e is SiteSetting && e.detail() == "No matching site setting"@,
    }
}

fn name_filed(db: &Database, sites: &Vec<SiteSetting>, id: i64) -> (r: Result<(i64, usize), NarouError>)
    requires
        db@.contains_key(id),
    ensures
        named_result(*db, sites@, id, r),
{
    match resolve_filed(db, sites, id) {
        Ok((_, j)) => Ok((id, j)),
        Err(e) => Err(e),
    }
}

/// The filed novel a target names, and the site of its table of contents:
/// as [`resolve_target_for_download`], but a target that names no filed
/// novel is `NotFound`.
pub fn resolve_target(target: &str, db: &Database, sites: &Vec<SiteSetting>) -> (r: Result<
    (i64, usize),
    NarouError,
>)
    ensures
        target_type_of(target@) == TargetType::Url ==> match site_index_for(sites@, target@, 0) {
            Some(i) => match id_by_toc(*db, toc_for(sites@[i], target@)) {
                Some(id) => r == Ok::<(i64, usize), NarouError>((id, i as usize)),
                None => r matches Err(e) && e is NotFound && e.detail() == "Novel not found for URL: "@
                    + target@,
            },
            None => r matches Err(e) && e is InvalidTarget && e.detail()
                == "No site setting found for URL: "@ + target@,
        },
        target_type_of(target@) == TargetType::Ncode ==> {
            let n = lowercase(target@);
            if exists|id: i64| holds_ncode(*db, n, id) {
                exists|id: i64| holds_ncode(*db, n, id) && named_result(*db, sites@, id, r)
            } else {
                r matches Err(e) && e is NotFound && e.detail() == "Novel not found for ncode: "@ + n
            }
        },
        target_type_of(target@) == TargetType::Id ==> match parse_i64_text(target@) {
            None => r matches Err(e) && e is InvalidTarget && e.detail() == target@,
            Some(id) => if db@.contains_key(id) {
                named_result(*db, sites@, id, r)
            } else {
                r matches Err(e) && e is NotFound && e.detail() == "Novel not found for ID: "@
                    + id_text(id)
            },
        },
        target_type_of(target@) == TargetType::Other ==> match lookup_id(db.index_tables().1, target@) {
            Some(id) => if db@.contains_key(id) {
                named_result(*db, sites@, id, r)
            } else {
                r matches Err(e) && e is NotFound && e.detail() == "Novel not found: "@ + target@
            },
            None => if exists|id: i64| db@.contains_key(id) && lowercase(#[trigger] db@[id].title@)
                == lowercase(target@) {
                exists|id: i64|
                    db@.contains_key(id) && lowercase(#[trigger] db@[id].title@) == lowercase(target@)
                        && named_result(*db, sites@, id, r)
            } else {
                r matches Err(e) && e is NotFound && e.detail() == "Novel not found: "@ + target@
            },
        },
{
    let records = db.all_records();
    match get_target_type(target) {
        TargetType::Url => {
            let i = match find_site_setting(sites, target) {
                Some(i) => i,
                None => {
                    return Err(
                        NarouError::InvalidTarget(concat2("No site setting found for URL: ", target)),
                    );
                },
            };
            let toc = toc_url_for(&sites[i], target);
            match existing_id_by_toc(db, toc.as_str()) {
                Some(id) => Ok((id, i)),
                None => Err(NarouError::NotFound(concat2("Novel not found for URL: ", target))),
            }
        },
        TargetType::Ncode => {
            let ncode = to_lowercase(target);
            match id_by_ncode(db, ncode.as_str()) {
                Some(id) => name_filed(db, sites, id),
                None => Err(NarouError::NotFound(concat2("Novel not found for ncode: ", ncode.as_str()))),
            }
        },
        TargetType::Id => {
            let id = match parse_i64(target) {
                Some(id) => id,
                None => {
                    return Err(NarouError::InvalidTarget(target.to_owned()));
                },
            };
            if db.get(id).is_some() {
                name_filed(db, sites, id)
            } else {
                Err(NarouError::NotFound(concat2("Novel not found for ID: ", i64_text(id).as_str())))
            }
        },
        TargetType::Other => {
            let found = match db.find_by_title(target) {
                Some(rec) => Some(rec.id),
                None => None,
            };
            match found {
                Some(id) => {
                    if db.get(id).is_some() {
                        name_filed(db, sites, id)
                    } else {
                        Err(NarouError::NotFound(concat2("Novel not found: ", target)))
                    }
                },
                None => Err(NarouError::NotFound(concat2("Novel not found: ", target))),
            }
        },
    }
}

} // verus!
