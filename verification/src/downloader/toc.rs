//! Reading the sections of a table of contents with the site's patterns.
//!
//! Fetching the pages is left to the caller: it hands over each page, and
//! asks here how many pages there are and where the next one is.
use vstd::prelude::*;

use crate::downloader::site_setting::info_extraction::{named_view, GroupsView, MatchGroups};
use crate::downloader::site_setting::{
    interpolated, opt_string_view, SiteSetting, SiteSettingEntry, SiteSettingValue,
};
use crate::downloader::security::MAX_YAML_REGEX_PATTERN_LEN;
use crate::downloader::types::SubtitleInfo;
use crate::downloader::util::{sanitize_filename_with_limit, DEFAULT_REGEX_SIZE_LIMIT};
use crate::db::paths::sanitized_component;
use crate::error::NarouError;
use crate::keyed::TextMap;
use crate::text::{all_ascii_digits, chars_eq, digits_value, to_chars};
use vstd::utf8::encode_utf8;

verus! {

/// One step of reading matches one after another: the named groups of the
/// first match of `pattern` (dot matching newlines, multi-line, within the
/// size limit of site patterns) in `text`, the text after that match, and
/// the byte where the match ends; `Some(None)` where nothing matches, `None`
/// where the pattern does not compile so.
pub uninterp spec fn html_regex_step(pattern: Seq<char>, text: Seq<char>) -> Option<
    Option<(Seq<(Seq<char>, Option<Seq<char>>)>, Seq<char>, nat)>,
>;

pub open spec fn step_view(r: Option<Option<(Vec<(String, Option<String>)>, String, usize)>>) -> Option<
    Option<(Seq<(Seq<char>, Option<Seq<char>>)>, Seq<char>, nat)>,
> {
    match r {
        Some(Some((g, rest, end))) => Some(Some((named_view(g@), rest@, end as nat))),
        Some(None) => Some(None),
        None => None,
    }
}

/// `regex::RegexBuilder` (dot matching newlines, multi-line, size limit)
/// and `Regex::captures`, with the named groups of `Regex::capture_names`,
/// the text after the match and the match's end. A match ending at byte 0
/// leaves the text as it is; one ending later leaves less of it.
#[verifier::external_body]
fn html_regex_next(pattern: &str, text: &str) -> (r: Option<Option<(Vec<(String, Option<String>)>, String, usize)>>)
    ensures
        step_view(r) == html_regex_step(pattern@, text@),
        r matches Some(Some((_, rest, end))) ==> (end == 0 ==> rest@ == text@) && (end > 0 ==> rest@.len() < text@.len()),
{
    let re = regex::RegexBuilder::new(pattern).dot_matches_new_line(true).multi_line(true).size_limit(DEFAULT_REGEX_SIZE_LIMIT).build().ok()?;
    Some(re.captures(text).map(|caps| {
        let end = caps.get(0).map_or(0, |m| m.end());
        (re.capture_names().flatten().map(|n| (n.to_string(), caps.name(n).map(|m| m.as_str().to_string()))).collect(), text[end..].to_string(), end)
    }))
}

/// The first match of `pattern` (compiled as `Regex::new` does) in `text`:
/// `None` where the pattern does not compile, `Some(None)` where nothing
/// matches.
pub uninterp spec fn plain_regex_first(pattern: Seq<char>, text: Seq<char>) -> Option<Option<GroupsView>>;

pub open spec fn first_groups_view(r: Option<Option<MatchGroups>>) -> Option<Option<GroupsView>> {
    match r {
        Some(Some(g)) => Some(Some(g@)),
        Some(None) => Some(None),
        None => None,
    }
}

/// `regex::Regex::new` and `Regex::captures`, with the named groups of
/// `Regex::capture_names` and group 1.
#[verifier::external_body]
fn plain_first(pattern: &str, text: &str) -> (r: Option<Option<MatchGroups>>)
    ensures
        first_groups_view(r) == plain_regex_first(pattern@, text@),
{
    let re = regex::Regex::new(pattern).ok()?;
    Some(re.captures(text).map(|caps| MatchGroups {
        named: re.capture_names().flatten().map(|n| (n.to_string(), caps.name(n).map(|m| m.as_str().to_string()))).collect(),
        first: caps.get(1).map(|m| m.as_str().to_string()),
    }))
}

/// What the group called `name` matched, where it took part.
pub open spec fn group_text(groups: Seq<(Seq<char>, Option<Seq<char>>)>, name: Seq<char>) -> Option<
    Seq<char>,
>
    decreases groups.len(),
{
    if groups.len() == 0 {
        None
    } else if groups[0].0 == name {
        groups[0].1
    } else {
        group_text(groups.drop_first(), name)
    }
}

fn group_of(groups: &Vec<(String, Option<String>)>, name: &str) -> (r: Option<String>)
    ensures
        opt_string_view(r) == group_text(named_view(groups@), name@),
{
    let ghost gv = named_view(groups@);
    assert(gv.skip(0) =~= gv);
    let mut i: usize = 0;
    while i < groups.len()
        invariant
            i <= groups@.len(),
            gv == named_view(groups@),
            group_text(gv, name@) == group_text(gv.skip(i as int), name@),
        decreases groups@.len() - i,
    {
        assert(gv.skip(i as int).drop_first() =~= gv.skip(i + 1));
        assert(gv.skip(i as int)[0] == gv[i as int]);
        if chars_eq(groups[i].0.as_str(), name) {
            return match &groups[i].1 {
                Some(v) => Some(v.clone()),
                None => None,
            };
        }
        i = i + 1;
    }
    None
}

/// The pattern of a value as its first pattern entry, filled from the
/// site's texts, where it is at most 4 KiB long.
pub open spec fn compiled_pattern_text(v: SiteSettingValue, base: Map<Seq<char>, Seq<char>>) -> Option<
    Seq<char>,
> {
    let p = match v {
        SiteSettingValue::Single(s) => Some(s@),
        SiteSettingValue::Multiple(entries) => first_plain(entries@, 0),
    };
    match p {
        Some(p) => {
            let r = interpolated(p, Map::empty(), base);
            if encode_utf8(r).len() <= MAX_YAML_REGEX_PATTERN_LEN {
                Some(r)
            } else {
                None
            }
        },
        None => None,
    }
}

/// The first pattern entry from `i` on.
pub open spec fn first_plain(entries: Seq<SiteSettingEntry>, i: int) -> Option<Seq<char>>
    decreases entries.len() - i,
    when 0 <= i <= entries.len()
{
    if i >= entries.len() {
        None
    } else {
        match entries[i] {
            SiteSettingEntry::Plain(s) => Some(s@),
            SiteSettingEntry::Eval { .. } => first_plain(entries, i + 1),
        }
    }
}

/// The match groups of `pattern` read one match after another over
/// `text`, each match read in what the one before left; reading stops at a
/// match that ends where it started reading.
pub open spec fn section_matches(pattern: Seq<char>, text: Seq<char>) -> Seq<
    Seq<(Seq<char>, Option<Seq<char>>)>,
>
    decreases text.len(),
{
    match html_regex_step(pattern, text) {
        Some(Some((groups, rest, end))) => if end == 0 || rest.len() >= text.len() {
            seq![groups]
        } else {
            seq![groups] + section_matches(pattern, rest)
        },
        _ => Seq::empty(),
    }
}

/// The texts of a section.
pub struct SectionView {
    pub index: Seq<char>,
    pub href: Seq<char>,
    pub chapter: Seq<char>,
    pub subchapter: Seq<char>,
    pub subtitle: Seq<char>,
    pub file_subtitle: Seq<char>,
    pub subdate: Seq<char>,
    pub subupdate: Option<Seq<char>>,
}

pub open spec fn section_view(s: SubtitleInfo) -> SectionView {
    SectionView {
        index: s.index@,
        href: s.href@,
        chapter: s.chapter@,
        subchapter: s.subchapter@,
        subtitle: s.subtitle@,
        file_subtitle: s.file_subtitle@,
        subdate: s.subdate@,
        subupdate: opt_string_view(s.subupdate),
    }
}

pub open spec fn or_empty(o: Option<Seq<char>>) -> Seq<char> {
    match o {
        Some(t) => t,
        None => Seq::empty(),
    }
}

/// The room left for a section's title in a file name of at most `limit`
/// characters once its index and a space are written.
pub open spec fn title_room(limit: usize, index: Seq<char>) -> usize {
    if limit >= index.len() + 1 {
        (limit - (index.len() + 1)) as usize
    } else {
        0
    }
}

/// The section one match describes: its named groups `index`, `href`,
/// `chapter`, `subchapter`, `subtitle`, `subdate` and `subupdate` (missing
/// ones empty); without an `href` group, the site's link template filled
/// with the index and the target URL's captures; without a `subdate`, the
/// `subupdate`; and the title made a file name that leaves room for the
/// index within `limit` characters.
pub open spec fn section_of(
    setting: SiteSetting,
    groups: Seq<(Seq<char>, Option<Seq<char>>)>,
    url_captures: Map<Seq<char>, Seq<char>>,
    limit: Option<usize>,
) -> SectionView {
    let index = or_empty(group_text(groups, "index"@));
    let href = match group_text(groups, "href"@) {
        Some(h) => h,
        None => match setting.href {
            Some(t) => interpolated(t@, url_captures.insert("index"@, index), setting.base_vars()),
            None => Seq::empty(),
        },
    };
    let subtitle = or_empty(group_text(groups, "subtitle"@));
    let subdate = or_empty(group_text(groups, "subdate"@));
    let subupdate = group_text(groups, "subupdate"@);
    SectionView {
        index,
        href,
        chapter: or_empty(group_text(groups, "chapter"@)),
        subchapter: or_empty(group_text(groups, "subchapter"@)),
        subtitle,
        file_subtitle: match limit {
            Some(l) => sanitized_component(subtitle, Some(title_room(l, index)), Some('_'), "_"@),
            None => sanitized_component(subtitle, None, Some('_'), "_"@),
        },
        subdate: if subdate.len() == 0 {
            or_empty(subupdate)
        } else {
            subdate
        },
        subupdate,
    }
}

impl SiteSetting {
    /// The subtitles pattern of the site, where it has one that fits.
    pub open spec fn subtitles_pattern_text(self) -> Option<Seq<char>> {
        match self.subtitles {
            Some(v) => compiled_pattern_text(v, self.base_vars()),
            None => None,
        }
    }

    fn value_pattern(&self, v: &SiteSettingValue) -> (r: Option<String>)
        ensures
            opt_string_view(r) == compiled_pattern_text(*v, self.base_vars()),
    {
        let p: &str = match v {
            SiteSettingValue::Single(s) => s.as_str(),
            SiteSettingValue::Multiple(entries) => {
                let mut i: usize = 0;
                let mut found: Option<&str> = None;
                while i < entries.len() && found.is_none()
                    invariant
                        i <= entries@.len(),
                        *v == SiteSettingValue::Multiple(*entries),
                        found is None ==> first_plain(entries@, 0) == first_plain(entries@, i as int),
                        found matches Some(f) ==> first_plain(entries@, 0) == Some(f@),
                    decreases entries@.len() - i + (if found is None {
                        1int
                    } else {
                        0int
                    }),
                {
                    match &entries[i] {
                        SiteSettingEntry::Plain(s) => {
                            found = Some(s.as_str());
                        },
                        SiteSettingEntry::Eval { .. } => {
                            i = i + 1;
                        },
                    }
                }
                match found {
                    Some(f) => f,
                    None => {
                        return None;
                    },
                }
            },
        };
        let r = self.interpolate(p);
        let bytes = r.as_str().as_bytes();
        assert(bytes@ == encode_utf8(r@));
        if bytes.len() <= MAX_YAML_REGEX_PATTERN_LEN {
            Some(r)
        } else {
            None
        }
    }
}

/// The sections of a table of contents, or `None` where the site has no
/// subtitles pattern that compiles.
pub open spec fn toc_sections(
    setting: SiteSetting,
    toc_source: Seq<char>,
    url_captures: Map<Seq<char>, Seq<char>>,
    limit: Option<usize>,
) -> Option<Seq<SectionView>> {
    match setting.subtitles_pattern_text() {
        None => None,
        Some(p) => if html_regex_step(p, toc_source) is None {
            None
        } else {
            Some(
                section_matches(p, toc_source).map_values(
                    |g: Seq<(Seq<char>, Option<Seq<char>>)>| section_of(setting, g, url_captures, limit),
                ),
            )
        },
    }
}

fn section_from(
    setting: &SiteSetting,
    groups: &Vec<(String, Option<String>)>,
    url_captures: &TextMap,
    limit: Option<usize>,
) -> (r: SubtitleInfo)
    ensures
        section_view(r) == section_of(*setting, named_view(groups@), url_captures@, limit),
        r.download_time is None,
{
    let index = match group_of(groups, "index") {
        Some(v) => v,
        None => String::new(),
    };
    let href = match group_of(groups, "href") {
        Some(h) => h,
        None => match &setting.href {
            Some(t) => setting.interpolate_subtitles_href(t.as_str(), index.as_str(), url_captures),
            None => String::new(),
        },
    };
    let chapter = match group_of(groups, "chapter") {
        Some(v) => v,
        None => String::new(),
    };
    let subchapter = match group_of(groups, "subchapter") {
        Some(v) => v,
        None => String::new(),
    };
    let subtitle = match group_of(groups, "subtitle") {
        Some(v) => v,
        None => String::new(),
    };
    let subdate_raw = match group_of(groups, "subdate") {
        Some(v) => v,
        None => String::new(),
    };
    let subupdate = group_of(groups, "subupdate");
    let subdate = if subdate_raw.unicode_len() == 0 {
        match &subupdate {
            Some(u) => u.clone(),
            None => String::new(),
        }
    } else {
        subdate_raw
    };
    let file_subtitle = match limit {
        Some(l) => {
            let reserved = index.unicode_len();
            let room: usize = if l > reserved {
                l - reserved - 1
            } else {
                0
            };
            sanitize_filename_with_limit(subtitle.as_str(), Some(room))
        },
        None => sanitize_filename_with_limit(subtitle.as_str(), None),
    };
    SubtitleInfo {
        index,
        href,
        chapter,
        subchapter,
        subtitle,
        file_subtitle,
        subdate,
        subupdate,
        download_time: None,
    }
}

/// The sections of one table-of-contents page: each match of the site's
/// subtitles pattern, read one after another. `limit` is the file-name
/// length limit of section titles (`filename-length-limit`).
pub fn parse_subtitles(
    setting: &SiteSetting,
    toc_source: &str,
    url_captures: &TextMap,
    limit: Option<usize>,
) -> (r: Result<Vec<SubtitleInfo>, NarouError>)
    ensures
        match r {
            Ok(v) => toc_sections(*setting, toc_source@, url_captures@, limit) == Some(
                v@.map_values(|s: SubtitleInfo| section_view(s)),
            ),
            Err(e) => toc_sections(*setting, toc_source@, url_captures@, limit) is None
                && e is SiteSetting,
        },
{
    let pattern = match &setting.subtitles {
        Some(v) => setting.value_pattern(v),
        None => None,
    };
    let pattern = match pattern {
        Some(p) => p,
        None => {
            return Err(NarouError::SiteSetting("No subtitles pattern defined".to_owned()));
        },
    };
    let ghost p = pattern@;
    assert(setting.subtitles_pattern_text() == Some(p));
    let ghost f = |g: Seq<(Seq<char>, Option<Seq<char>>)>| section_of(*setting, g, url_captures@, limit);
    let mut out: Vec<SubtitleInfo> = Vec::new();
    let mut remaining = toc_source.to_owned();
    let mut first = true;
    loop
        invariant_except_break
            section_matches(p, toc_source@).map_values(f) == out@.map_values(
                |s: SubtitleInfo| section_view(s),
            ) + section_matches(p, remaining@).map_values(f),
        invariant
            p == pattern@,
            setting.subtitles_pattern_text() == Some(p),
            f == (|g: Seq<(Seq<char>, Option<Seq<char>>)>| section_of(*setting, g, url_captures@, limit)),
            first ==> remaining@ == toc_source@ && out@.len() == 0,
            !first ==> html_regex_step(p, toc_source@) is Some,
        ensures
            html_regex_step(p, toc_source@) is Some,
            section_matches(p, toc_source@).map_values(f) == out@.map_values(
                |s: SubtitleInfo| section_view(s),
            ),
        decreases remaining@.len(),
    {
        let step = html_regex_next(pattern.as_str(), remaining.as_str());
        match step {
            Some(Some((groups, rest, end))) => {
                let ghost before = remaining@;
                let ghost prev = out@;
                let s = section_from(setting, &groups, url_captures, limit);
                out.push(s);
                proof {
                    assert(out@.map_values(|s: SubtitleInfo| section_view(s)) =~= prev.map_values(
                        |s: SubtitleInfo| section_view(s),
                    ).push(f(named_view(groups@))));
                }
                first = false;
                if end == 0 {
                    proof {
                        assert(section_matches(p, before) == seq![named_view(groups@)]);
                        assert(section_matches(p, before).map_values(f) =~= seq![f(named_view(groups@))]);
                    }
                    break;
                }
                proof {
                    assert(section_matches(p, before) == seq![named_view(groups@)] + section_matches(p, rest@));
                    assert(section_matches(p, before).map_values(f) =~= seq![f(named_view(groups@))]
                        + section_matches(p, rest@).map_values(f));
                }
                remaining = rest;
            },
            Some(None) => {
                proof {
                    assert(section_matches(p, remaining@) =~= Seq::<Seq<(Seq<char>, Option<Seq<char>>)>>::empty());
                }
                if first {
                    first = false;
                }
                break;
            },
            None => {
                if first {
                    return Err(NarouError::SiteSetting("No subtitles pattern defined".to_owned()));
                }
                proof {
                    assert(section_matches(p, remaining@) =~= Seq::<Seq<(Seq<char>, Option<Seq<char>>)>>::empty());
                }
                break;
            },
        }
    }
    Ok(out)
}

/// `str::parse::<usize>`: an optional `+`, then ASCII digits whose value
/// fits.
pub open spec fn parse_usize_text(s: Seq<char>) -> Option<usize> {
    let d = if s.len() > 0 && s[0] == '+' {
        s.drop_first()
    } else {
        s
    };
    if d.len() > 0 && all_ascii_digits(d) && digits_value(d) <= usize::MAX {
        Some(digits_value(d) as usize)
    } else {
        None
    }
}

fn parse_usize(s: &str) -> (r: Option<usize>)
    ensures
        r == parse_usize_text(s@),
{
    let v = to_chars(s);
    let start: usize = if v.len() > 0 && v[0] == '+' {
        1
    } else {
        0
    };
    let ghost d = v@.skip(start as int);
    assert(d =~= (if v@.len() > 0 && v@[0] == '+' {
        v@.drop_first()
    } else {
        v@
    }));
    if start == v.len() {
        return None;
    }
    let mut acc: u128 = 0;
    let mut over = false;
    let mut i: usize = start;
    while i < v.len()
        invariant
            v@ == s@,
            start <= i <= v@.len(),
            d == v@.skip(start as int),
            d == (if s@.len() > 0 && s@[0] == '+' {
                s@.drop_first()
            } else {
                s@
            }),
            d.len() > 0,
            all_ascii_digits(d.take(i - start)),
            !over ==> acc as nat == digits_value(d.take(i - start)) && acc <= usize::MAX,
            over ==> digits_value(d.take(i - start)) > usize::MAX,
        decreases v@.len() - i,
    {
        let c = v[i];
        assert(d.take(i + 1 - start).drop_last() =~= d.take(i - start));
        assert(d.take(i + 1 - start).last() == c);
        if !('0' <= c && c <= '9') {
            proof {
                assert(d[i - start] == c);
                assert(!all_ascii_digits(d));
                assert(parse_usize_text(s@) is None);
            }
            return None;
        }
        let digit = (c as u32 - 48) as u128;
        if over {
            proof {
                let before = digits_value(d.take(i - start));
                assert(before * 10 + digit as nat >= before) by (nonlinear_arith);
            }
        } else {
            let next = acc * 10 + digit;
            if next > usize::MAX as u128 {
                over = true;
            } else {
                acc = next;
            }
        }
        i = i + 1;
    }
    assert(d.take(v@.len() - start) =~= d);
    if over {
        return None;
    }
    Some(acc as usize)
}

/// How many table-of-contents pages to read: what group 1 of the site's
/// page-count pattern reads as a number (1 where it reads nothing, and at
/// least 1), or 50 where the site has no such pattern that compiles.
pub open spec fn toc_max_pages(setting: SiteSetting, source: Seq<char>) -> usize {
    match setting.toc_page_max {
        None => 50,
        Some(p) => match plain_regex_first(p@, source) {
            None => 50,
            Some(m) => {
                let n = match m {
                    Some(g) => match g.first {
                        Some(t) => match parse_usize_text(t) {
                            Some(n) => n,
                            None => 1,
                        },
                        None => 1,
                    },
                    None => 1,
                };
                if n < 1 {
                    1
                } else {
                    n
                }
            },
        },
    }
}

/// How many table-of-contents pages to read, from the first page.
pub fn toc_page_count(setting: &SiteSetting, source: &str) -> (r: usize)
    ensures
        r == toc_max_pages(*setting, source@),
{
    let p = match &setting.toc_page_max {
        Some(p) => p,
        None => {
            return 50;
        },
    };
    match plain_first(p.as_str(), source) {
        None => 50,
        Some(m) => {
            let n = match m {
                Some(g) => match &g.first {
                    Some(t) => match parse_usize(t.as_str()) {
                        Some(n) => n,
                        None => 1,
                    },
                    None => 1,
                },
                None => 1,
            };
            if n < 1 {
                1
            } else {
                n
            }
        },
    }
}

/// The named groups that took part in a match, by name.
pub open spec fn taken_groups(groups: Seq<(Seq<char>, Option<Seq<char>>)>) -> Map<Seq<char>, Seq<char>>
    decreases groups.len(),
{
    if groups.len() == 0 {
        Map::empty()
    } else {
        let before = taken_groups(groups.drop_last());
        match groups.last().1 {
            Some(v) => before.insert(groups.last().0, v),
            None => before,
        }
    }
}

/// The next table-of-contents page: the site's next-page template filled
/// from what its next-page pattern captures in `source`; `None` where the
/// site has no such pattern, it does not compile or match, or the site has
/// no template.
pub open spec fn next_toc_page(setting: SiteSetting, source: Seq<char>) -> Option<Seq<char>> {
    match setting.next_toc {
        None => None,
        Some(p) => match plain_regex_first(p@, source) {
            Some(Some(g)) => match setting.next_url {
                Some(u) => Some(interpolated(u@, taken_groups(g.named), setting.base_vars())),
                None => None,
            },
            _ => None,
        },
    }
}

/// The URL of the next table-of-contents page after `source`.
pub fn next_toc_url(setting: &SiteSetting, source: &str) -> (r: Option<String>)
    ensures
        opt_string_view(r) == next_toc_page(*setting, source@),
{
    let p = match &setting.next_toc {
        Some(p) => p,
        None => {
            return None;
        },
    };
    let g = match plain_first(p.as_str(), source) {
        Some(Some(g)) => g,
        _ => {
            return None;
        },
    };
    let u = match &setting.next_url {
        Some(u) => u,
        None => {
            return None;
        },
    };
    let ghost gv = named_view(g.named@);
    let mut captures = TextMap::new();
    let mut i: usize = 0;
    while i < g.named.len()
        invariant
            i <= g.named@.len(),
            gv == named_view(g.named@),
            captures@ == taken_groups(gv.take(i as int)),
        decreases g.named@.len() - i,
    {
        assert(gv.take(i + 1).drop_last() =~= gv.take(i as int));
        if let Some(v) = &g.named[i].1 {
            captures.insert(g.named[i].0.as_str(), v.as_str());
        }
        i = i + 1;
    }
    assert(gv.take(gv.len() as int) =~= gv);
    Some(setting.get_next_url_with_captures(u.as_str(), &captures))
}

/// Each section read from a table of contents takes its fields from the
/// groups of its own match, each from the group of its name: the chapter
/// from `chapter`, the subchapter from `subchapter`, the index from
/// `index`, the subtitle from `subtitle`, the link from `href` and the
/// update date from `subupdate` (a missing group giving the empty text),
/// the publication date from `subdate` where that group is not empty.
pub proof fn lemma_section_fields_by_group(
    setting: SiteSetting,
    toc_source: Seq<char>,
    url_captures: Map<Seq<char>, Seq<char>>,
    limit: Option<usize>,
    i: int,
)
    requires
        toc_sections(setting, toc_source, url_captures, limit) matches Some(secs) && 0 <= i < secs.len(),
    ensures
        ({
            let secs = toc_sections(setting, toc_source, url_captures, limit)->0;
            let g = section_matches(setting.subtitles_pattern_text()->0, toc_source)[i];
            &&& (group_text(g, "chapter"@) matches Some(t) ==> secs[i].chapter == t)
            &&& (group_text(g, "chapter"@) is None ==> secs[i].chapter.len() == 0)
            &&& (group_text(g, "subchapter"@) matches Some(t) ==> secs[i].subchapter == t)
            &&& (group_text(g, "subchapter"@) is None ==> secs[i].subchapter.len() == 0)
            &&& (group_text(g, "index"@) matches Some(t) ==> secs[i].index == t)
            &&& (group_text(g, "subtitle"@) matches Some(t) ==> secs[i].subtitle == t)
            &&& (group_text(g, "href"@) matches Some(t) ==> secs[i].href == t)
            &&& secs[i].subupdate == group_text(g, "subupdate"@)
            &&& (group_text(g, "subdate"@) matches Some(t) ==> (t.len() > 0 ==> secs[i].subdate == t))
        }),
{
}

} // verus!
