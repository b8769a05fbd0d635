//! Site definitions: the texts a site's URL templates are filled from, and
//! the `\k<name>` references those templates hold.
//!
//! A reference is one or more backslashes, `k<`, a name and `>`. It is
//! replaced by the value of the name: a capture of the target URL first,
//! else one of the site's own texts, whose references are filled in turn. A
//! name is filled at most once while one top-level reference is filled (a
//! second use, and so any cycle, gives the empty text), and a name without
//! a value stays as `\k<name>`.
pub mod info_extraction;

use vstd::prelude::*;
use vstd::set_lib::lemma_len_subset;

use crate::keyed::TextMap;
use vstd::utf8::encode_utf8;

use crate::downloader::security::MAX_YAML_REGEX_PATTERN_LEN;
use crate::downloader::site_setting::info_extraction::value_patterns;
use crate::regex_match::{
    limited_regex_found, limited_regex_is_match, limited_regex_named, limited_regex_named_captures,
    named_groups_view, regex_found, regex_group1_all, regex_group1_matches, regex_is_match,
    regex_pieces, regex_split,
};
use crate::text::{
    chars_eq, is_prefix, push_char, split_by_char, split_char, starts_with, string_of_range,
    string_views, to_chars, trim, trim_seq,
};

verus! {

/// The regular expression of a reference: one or more backslashes, `k<`,
/// the name (the shortest non-empty run of characters on one line before a
/// `>`) and `>`.
pub const REFERENCE_PATTERN: &'static str = "\\\\+k<(.+?)>";

/// A template cut at its references: the texts around them and the names
/// they refer to (`None` where the reference pattern is not read, which it
/// always is).
pub open spec fn references(text: Seq<char>) -> Option<(Seq<Seq<char>>, Seq<Seq<char>>)> {
    match (regex_pieces(REFERENCE_PATTERN@, text), regex_group1_matches(REFERENCE_PATTERN@, text)) {
        (Some(p), Some(k)) => if p.len() == k.len() + 1 {
            Some((p, k))
        } else {
            None
        },
        _ => None,
    }
}

fn split_references(text: &str) -> (r: Option<(Vec<String>, Vec<String>)>)
    ensures
        match r {
            Some((p, k)) => references(text@) == Some((string_views(p@), string_views(k@)))
                && p@.len() == k@.len() + 1,
            None => references(text@) is None,
        },
{
    let names = regex_group1_all(REFERENCE_PATTERN, text);
    let pieces = regex_split(REFERENCE_PATTERN, text);
    match (pieces, names) {
        (Some(p), Some(k)) => Some((p, k)),
        _ => None,
    }
}

/// The value of `key`: a capture first, else a text of the site.
pub open spec fn key_value(
    caps: Map<Seq<char>, Seq<char>>,
    base: Map<Seq<char>, Seq<char>>,
    key: Seq<char>,
) -> Option<Seq<char>> {
    if caps.contains_key(key) {
        Some(caps[key])
    } else if base.contains_key(key) {
        Some(base[key])
    } else {
        None
    }
}

/// A reference to `key` written back: `\k<key>`.
pub open spec fn unresolved(key: Seq<char>) -> Seq<char> {
    seq!['\\', 'k', '<'] + key + seq!['>']
}

/// The names that have a value.
pub open spec fn known_keys(caps: Map<Seq<char>, Seq<char>>, base: Map<Seq<char>, Seq<char>>) -> Set<
    Seq<char>,
> {
    caps.dom().union(base.dom())
}

/// How many names with a value are not yet in `seen`.
pub open spec fn unseen_count(
    caps: Map<Seq<char>, Seq<char>>,
    base: Map<Seq<char>, Seq<char>>,
    seen: Set<Seq<char>>,
) -> nat {
    known_keys(caps, base).difference(seen).len()
}

/// Filling more names leaves fewer names to fill.
pub proof fn lemma_unseen_subset(
    caps: Map<Seq<char>, Seq<char>>,
    base: Map<Seq<char>, Seq<char>>,
    a: Set<Seq<char>>,
    b: Set<Seq<char>>,
)
    requires
        caps.dom().finite(),
        base.dom().finite(),
        a.subset_of(b),
    ensures
        unseen_count(caps, base, b) <= unseen_count(caps, base, a),
{
    let k = known_keys(caps, base);
    assert(k.difference(b).subset_of(k.difference(a)));
    lemma_len_subset(k.difference(b), k.difference(a));
}

/// Filling a name with a value leaves one name fewer to fill.
pub proof fn lemma_unseen_drops(
    caps: Map<Seq<char>, Seq<char>>,
    base: Map<Seq<char>, Seq<char>>,
    seen: Set<Seq<char>>,
    key: Seq<char>,
)
    requires
        caps.dom().finite(),
        base.dom().finite(),
        !seen.contains(key),
        known_keys(caps, base).contains(key),
    ensures
        unseen_count(caps, base, seen.insert(key)) < unseen_count(caps, base, seen),
{
    let k = known_keys(caps, base);
    assert(k.difference(seen.insert(key)) =~= k.difference(seen).remove(key));
}

/// What the reference to `key` is replaced by, and the names filled once
/// it is, when the names in `seen` were filled before.
pub open spec fn resolved(
    key: Seq<char>,
    caps: Map<Seq<char>, Seq<char>>,
    base: Map<Seq<char>, Seq<char>>,
    seen: Set<Seq<char>>,
) -> (Seq<char>, Set<Seq<char>>)
    decreases unseen_count(caps, base, seen), 0int, 0int,
    when caps.dom().finite() && base.dom().finite()
{
    if seen.contains(key) {
        (Seq::empty(), seen)
    } else {
        let inner = seen.insert(key);
        match key_value(caps, base, key) {
            None => (unresolved(key), inner),
            Some(v) => match references(v) {
                None => (v, inner),
                Some((pieces, names)) => {
                    proof {
                        lemma_unseen_drops(caps, base, seen, key);
                    }
                    spliced(pieces, names, 0, caps, base, inner)
                },
            },
        }
    }
}

/// The texts `pieces[i..]` with the names `names[i..]` between them filled
/// in order, each after the names filled before it, and the names filled
/// at the end.
pub open spec fn spliced(
    pieces: Seq<Seq<char>>,
    names: Seq<Seq<char>>,
    i: int,
    caps: Map<Seq<char>, Seq<char>>,
    base: Map<Seq<char>, Seq<char>>,
    seen: Set<Seq<char>>,
) -> (Seq<char>, Set<Seq<char>>)
    decreases unseen_count(caps, base, seen), 1int, names.len() - i,
    when caps.dom().finite() && base.dom().finite() && 0 <= i <= names.len()
{
    if i >= names.len() {
        (pieces[i], seen)
    } else {
        let r = resolved(names[i], caps, base, seen);
        let after = seen.union(r.1);
        proof {
            lemma_unseen_subset(caps, base, seen, after);
        }
        let rest = spliced(pieces, names, i + 1, caps, base, after);
        (pieces[i] + r.0 + rest.0, rest.1)
    }
}

/// Filling names only adds to the names filled.
proof fn lemma_resolved_grows(
    key: Seq<char>,
    caps: Map<Seq<char>, Seq<char>>,
    base: Map<Seq<char>, Seq<char>>,
    seen: Set<Seq<char>>,
)
    requires
        caps.dom().finite(),
        base.dom().finite(),
    ensures
        seen.subset_of(resolved(key, caps, base, seen).1),
    decreases unseen_count(caps, base, seen), 0int, 0int,
{
    if !seen.contains(key) {
        let inner = seen.insert(key);
        if let Some(v) = key_value(caps, base, key) {
            if let Some((pieces, names)) = references(v) {
                lemma_unseen_drops(caps, base, seen, key);
                lemma_spliced_grows(pieces, names, 0, caps, base, inner);
            }
        }
    }
}

proof fn lemma_spliced_grows(
    pieces: Seq<Seq<char>>,
    names: Seq<Seq<char>>,
    i: int,
    caps: Map<Seq<char>, Seq<char>>,
    base: Map<Seq<char>, Seq<char>>,
    seen: Set<Seq<char>>,
)
    requires
        caps.dom().finite(),
        base.dom().finite(),
        0 <= i <= names.len(),
    ensures
        seen.subset_of(spliced(pieces, names, i, caps, base, seen).1),
    decreases unseen_count(caps, base, seen), 1int, names.len() - i,
{
    if i < names.len() {
        let r = resolved(names[i], caps, base, seen);
        let after = seen.union(r.1);
        lemma_unseen_subset(caps, base, seen, after);
        lemma_spliced_grows(pieces, names, i + 1, caps, base, after);
    }
}

/// The texts `pieces[i..]` with the names `names[i..]` between them, each
/// filled on its own.
pub open spec fn filled(
    pieces: Seq<Seq<char>>,
    names: Seq<Seq<char>>,
    i: int,
    caps: Map<Seq<char>, Seq<char>>,
    base: Map<Seq<char>, Seq<char>>,
) -> Seq<char>
    decreases names.len() - i,
    when 0 <= i <= names.len()
{
    if i >= names.len() {
        pieces[i]
    } else {
        pieces[i] + resolved(names[i], caps, base, Set::empty()).0 + filled(
            pieces,
            names,
            i + 1,
            caps,
            base,
        )
    }
}

/// A template with its references filled from the captures `caps` and the
/// site's texts `base`.
pub open spec fn interpolated(
    template: Seq<char>,
    caps: Map<Seq<char>, Seq<char>>,
    base: Map<Seq<char>, Seq<char>>,
) -> Seq<char> {
    match references(template) {
        None => template,
        Some((pieces, names)) => filled(pieces, names, 0, caps, base),
    }
}

/// The names in a list of filled names.
pub open spec fn seen_set(seen: Seq<String>) -> Set<Seq<char>> {
    string_views(seen).to_set()
}

fn seen_contains(seen: &Vec<String>, key: &str) -> (b: bool)
    ensures
        b == seen_set(seen@).contains(key@),
{
    let mut i: usize = 0;
    while i < seen.len()
        invariant
            i <= seen@.len(),
            forall|j: int| 0 <= j < i ==> seen@[j]@ != key@,
        decreases seen@.len() - i,
    {
        if chars_eq(seen[i].as_str(), key) {
            assert(string_views(seen@)[i as int] == key@);
            return true;
        }
        i = i + 1;
    }
    assert(!string_views(seen@).contains(key@)) by {
        if string_views(seen@).contains(key@) {
            let j = choose|j: int| 0 <= j < string_views(seen@).len() && string_views(seen@)[j]
                == key@;
            assert(seen@[j]@ == key@);
        }
    }
    false
}

/// One URL template, or several picked by the target URL: the first entry
/// whose `match` pattern matches the target.
#[derive(Debug)]
pub enum SiteUrlTemplate {
    Single(String),
    ByTarget { by_target: Vec<SiteUrlTemplateEntry> },
}

/// An entry of a template picked by target: the pattern the target must
/// match, and the template.
#[derive(Debug)]
pub struct SiteUrlTemplateEntry {
    pub pattern: String,
    pub url: String,
}

/// The template of the first entry from `i` on whose pattern matches the
/// target (an entry whose pattern does not compile matches nothing).
pub open spec fn first_matching(
    entries: Seq<SiteUrlTemplateEntry>,
    target: Option<Seq<char>>,
    i: int,
) -> Option<Seq<char>>
    decreases entries.len() - i,
    when 0 <= i <= entries.len()
{
    if i >= entries.len() {
        None
    } else if target matches Some(t) && regex_found(entries[i].pattern@, t) == Some(true) {
        Some(entries[i].url@)
    } else {
        first_matching(entries, target, i + 1)
    }
}

/// The template picked for an optional target URL.
pub open spec fn selected_template(t: SiteUrlTemplate, target: Option<Seq<char>>) -> Option<
    Seq<char>,
> {
    match t {
        SiteUrlTemplate::Single(u) => Some(u@),
        SiteUrlTemplate::ByTarget { by_target } => first_matching(by_target@, target, 0),
    }
}

pub open spec fn opt_str_view(o: Option<&str>) -> Option<Seq<char>> {
    match o {
        Some(s) => Some(s@),
        None => None,
    }
}

pub open spec fn opt_string_view(o: Option<String>) -> Option<Seq<char>> {
    match o {
        Some(s) => Some(s@),
        None => None,
    }
}

impl SiteUrlTemplate {
    /// The template for `target_url`.
    pub fn selected(&self, target_url: Option<&str>) -> (r: Option<&str>)
        ensures
            opt_str_view(r) == selected_template(*self, opt_str_view(target_url)),
    {
        match self {
            SiteUrlTemplate::Single(url) => Some(url.as_str()),
            SiteUrlTemplate::ByTarget { by_target } => {
                let mut i: usize = 0;
                assert(selected_template(*self, opt_str_view(target_url)) == first_matching(
                    by_target@,
                    opt_str_view(target_url),
                    0,
                ));
                while i < by_target.len()
                    invariant
                        i <= by_target@.len(),
                        selected_template(*self, opt_str_view(target_url)) == first_matching(
                            by_target@,
                            opt_str_view(target_url),
                            0,
                        ),
                        first_matching(by_target@, opt_str_view(target_url), 0) == first_matching(
                            by_target@,
                            opt_str_view(target_url),
                            i as int,
                        ),
                    decreases by_target@.len() - i,
                {
                    if let Some(target) = target_url {
                        if regex_is_match(by_target[i].pattern.as_str(), target) == Some(true) {
                            assert(opt_str_view(target_url) == Some(target@));
                            assert(first_matching(by_target@, opt_str_view(target_url), i as int)
                                == Some(by_target@[i as int].url@));
                            return Some(by_target[i].url.as_str());
                        }
                    }
                    i = i + 1;
                }
                None
            },
        }
    }
}

/// The texts of a site definition that its templates are filled from, its
/// table-of-contents template, and the patterns that read a novel's
/// information from its pages.
#[derive(Debug)]
pub struct SiteSetting {
    pub name: String,
    pub domain: String,
    pub scheme: String,
    pub top_url: String,
    pub sitename: String,
    pub encoding: String,
    pub toc_url: SiteUrlTemplate,
    pub cookie: Option<String>,
    pub href: Option<String>,
    pub next_toc: Option<String>,
    pub next_url: Option<String>,
    pub toc_page_max: Option<String>,
    pub body_pattern: Option<String>,
    pub introduction_pattern: Option<String>,
    pub postscript_pattern: Option<String>,
    pub novel_info_url: Option<String>,
    pub error_message: Option<String>,
    pub title_strip_pattern: Option<String>,
    pub narou_api_url: Option<String>,
    pub illust_current_url: Option<String>,
    pub illust_grep_pattern: Option<String>,
    pub title: Option<SiteSettingValue>,
    pub author: Option<SiteSettingValue>,
    pub story: Option<SiteSettingValue>,
    pub t: Option<SiteSettingValue>,
    pub w: Option<SiteSettingValue>,
    pub s: Option<SiteSettingValue>,
    pub nt: Option<SiteSettingValue>,
    pub ga: Option<SiteSettingValue>,
    pub gf: Option<SiteSettingValue>,
    pub nu: Option<SiteSettingValue>,
    pub gl: Option<SiteSettingValue>,
    pub l: Option<SiteSettingValue>,
    pub tags: Option<SiteSettingValue>,
    pub sitename_pattern: Option<SiteSettingValue>,
    pub novel_type_string: Option<Vec<(String, u8)>>,
    pub url: Option<SiteSettingValue>,
    pub series_url: Option<SiteSettingValue>,
    pub author_url: Option<SiteSettingValue>,
    pub author_api_url: Option<String>,
    pub author_series_episodes_url: Option<String>,
    pub login_url: Option<String>,
    pub headers: Option<Vec<(String, String)>>,
    pub subtitles: Option<SiteSettingValue>,
}

/// A pattern of a site definition: one, or a list tried in order.
#[derive(Debug)]
pub enum SiteSettingValue {
    Single(String),
    Multiple(Vec<SiteSettingEntry>),
}

/// One pattern of a list: a regular expression, or an `eval` expression
/// (which this reader skips).
#[derive(Debug)]
pub enum SiteSettingEntry {
    Plain(String),
    Eval { eval: String },
}

/// `m` with `key` set to `value` when there is one.
pub open spec fn with_text(m: Map<Seq<char>, Seq<char>>, key: Seq<char>, value: Option<String>) -> Map<
    Seq<char>,
    Seq<char>,
> {
    match value {
        Some(v) => m.insert(key, v@),
        None => m,
    }
}

fn insert_opt(m: &mut TextMap, key: &str, value: &Option<String>)
    ensures
        final(m)@ == with_text(old(m)@, key@, *value),
{
    if let Some(v) = value {
        m.insert(key, v.as_str());
    }
}

fn opt_as_str(o: &Option<String>) -> (r: Option<&str>)
    ensures
        opt_str_view(r) == opt_string_view(*o),
{
    match o {
        Some(s) => Some(s.as_str()),
        None => None,
    }
}

fn owned_opt(o: Option<&str>) -> (r: Option<String>)
    ensures
        opt_string_view(r) == opt_str_view(o),
{
    match o {
        Some(s) => Some(s.to_owned()),
        None => None,
    }
}

impl SiteSetting {
    /// The texts of the site by name, as templates refer to them: its
    /// names, addresses and encoding, the single table-of-contents template
    /// (a template picked by target is not among them), and each optional
    /// text that is set.
    pub open spec fn base_vars(self) -> Map<Seq<char>, Seq<char>> {
        let m = Map::<Seq<char>, Seq<char>>::empty().insert("scheme"@, self.scheme@).insert(
            "domain"@,
            self.domain@,
        ).insert("top_url"@, self.top_url@);
        let m = match selected_template(self.toc_url, None) {
            Some(t) => m.insert("toc_url"@, t),
            None => m,
        };
        let m = m.insert("name"@, self.name@).insert("sitename"@, self.sitename@).insert(
            "encoding"@,
            self.encoding@,
        );
        let m = with_text(m, "cookie"@, self.cookie);
        let m = with_text(m, "href"@, self.href);
        let m = with_text(m, "next_toc"@, self.next_toc);
        let m = with_text(m, "next_url"@, self.next_url);
        let m = with_text(m, "toc_page_max"@, self.toc_page_max);
        let m = with_text(m, "body_pattern"@, self.body_pattern);
        let m = with_text(m, "introduction_pattern"@, self.introduction_pattern);
        let m = with_text(m, "postscript_pattern"@, self.postscript_pattern);
        let m = with_text(m, "novel_info_url"@, self.novel_info_url);
        let m = with_text(m, "error_message"@, self.error_message);
        let m = with_text(m, "title_strip_pattern"@, self.title_strip_pattern);
        let m = with_text(m, "narou_api_url"@, self.narou_api_url);
        let m = with_text(m, "illust_current_url"@, self.illust_current_url);
        with_text(m, "illust_grep_pattern"@, self.illust_grep_pattern)
    }

    fn build_base_vars(&self) -> (r: TextMap)
        ensures
            r@ == self.base_vars(),
    {
        let mut vars = TextMap::new();
        vars.insert("scheme", self.scheme.as_str());
        vars.insert("domain", self.domain.as_str());
        vars.insert("top_url", self.top_url.as_str());
        if let Some(t) = self.toc_url.selected(None) {
            vars.insert("toc_url", t);
        }
        vars.insert("name", self.name.as_str());
        vars.insert("sitename", self.sitename.as_str());
        vars.insert("encoding", self.encoding.as_str());
        insert_opt(&mut vars, "cookie", &self.cookie);
        insert_opt(&mut vars, "href", &self.href);
        insert_opt(&mut vars, "next_toc", &self.next_toc);
        insert_opt(&mut vars, "next_url", &self.next_url);
        insert_opt(&mut vars, "toc_page_max", &self.toc_page_max);
        insert_opt(&mut vars, "body_pattern", &self.body_pattern);
        insert_opt(&mut vars, "introduction_pattern", &self.introduction_pattern);
        insert_opt(&mut vars, "postscript_pattern", &self.postscript_pattern);
        insert_opt(&mut vars, "novel_info_url", &self.novel_info_url);
        insert_opt(&mut vars, "error_message", &self.error_message);
        insert_opt(&mut vars, "title_strip_pattern", &self.title_strip_pattern);
        insert_opt(&mut vars, "narou_api_url", &self.narou_api_url);
        insert_opt(&mut vars, "illust_current_url", &self.illust_current_url);
        insert_opt(&mut vars, "illust_grep_pattern", &self.illust_grep_pattern);
        vars
    }

    /// Fills the reference to `key`, after the names in `seen` were filled.
    fn resolve_k_key(&self, key: &str, captures: &TextMap, base: &TextMap, seen: &mut Vec<String>) -> (r:
        String)
        requires
            captures@.dom().finite(),
            base@.dom().finite(),
        ensures
            (r@, seen_set(final(seen)@)) == resolved(key@, captures@, base@, seen_set(old(seen)@)),
        decreases unseen_count(captures@, base@, seen_set(old(seen)@)),
    {
        let ghost entry = seen_set(seen@);
        if seen_contains(seen, key) {
            return String::new();
        }
        seen.push(key.to_owned());
        let ghost inner = seen_set(seen@);
        proof {
            assert(string_views(seen@) =~= string_views(old(seen)@).push(key@));
            string_views(old(seen)@).lemma_push_to_set_commute(key@);
            assert(inner =~= entry.insert(key@));
        }
        let value = match captures.get(key) {
            Some(v) => Some(v),
            None => base.get(key),
        };
        let v = match value {
            Some(v) => v,
            None => {
                let mut s = "\\k<".to_owned();
                s.append(key);
                push_char(&mut s, '>');
                proof {
                    reveal_strlit("\\k<");
                    assert(s@ =~= unresolved(key@));
                }
                return s;
            },
        };
        let (pieces, names) = match split_references(v) {
            Some(split) => split,
            None => {
                return v.to_owned();
            },
        };
        proof {
            lemma_unseen_drops(captures@, base@, entry, key@);
        }
        let ghost ps = string_views(pieces@);
        let ghost ns = string_views(names@);
        let mut out = String::new();
        let mut i: usize = 0;
        while i < names.len()
            invariant
                i <= names@.len(),
                pieces@.len() == names@.len() + 1,
                ps == string_views(pieces@),
                ns == string_views(names@),
                captures@.dom().finite(),
                base@.dom().finite(),
                inner.subset_of(seen_set(seen@)),
                entry == seen_set(old(seen)@),
                unseen_count(captures@, base@, inner) < unseen_count(captures@, base@, entry),
                spliced(ps, ns, 0, captures@, base@, inner) == (
                    out@ + spliced(ps, ns, i as int, captures@, base@, seen_set(seen@)).0,
                    spliced(ps, ns, i as int, captures@, base@, seen_set(seen@)).1,
                ),
            decreases names@.len() - i,
        {
            let ghost before = seen_set(seen@);
            proof {
                lemma_unseen_subset(captures@, base@, inner, before);
            }
            out.append(pieces[i].as_str());
            let part = self.resolve_k_key(names[i].as_str(), captures, base, seen);
            proof {
                lemma_resolved_grows(ns[i as int], captures@, base@, before);
                let r = resolved(ns[i as int], captures@, base@, before);
                assert(before.union(r.1) =~= r.1);
            }
            out.append(part.as_str());
            i = i + 1;
        }
        out.append(pieces[names.len()].as_str());
        out
    }

    /// `template` with its references filled from `captures` and the site's
    /// texts.
    pub fn interpolate_with_captures(&self, pattern: &str, captures: &TextMap) -> (r: String)
        ensures
            r@ == interpolated(pattern@, captures@, self.base_vars()),
    {
        let base = self.build_base_vars();
        proof {
            captures.lemma_finite();
            base.lemma_finite();
        }
        let (pieces, names) = match split_references(pattern) {
            Some(split) => split,
            None => {
                return pattern.to_owned();
            },
        };
        let ghost ps = string_views(pieces@);
        let ghost ns = string_views(names@);
        let mut out = String::new();
        let mut i: usize = 0;
        while i < names.len()
            invariant
                i <= names@.len(),
                pieces@.len() == names@.len() + 1,
                ps == string_views(pieces@),
                ns == string_views(names@),
                captures@.dom().finite(),
                base@.dom().finite(),
                base@ == self.base_vars(),
                filled(ps, ns, 0, captures@, base@) == out@ + filled(ps, ns, i as int, captures@, base@),
            decreases names@.len() - i,
        {
            out.append(pieces[i].as_str());
            let mut seen: Vec<String> = Vec::new();
            proof {
                assert(seen_set(seen@) =~= Set::<Seq<char>>::empty());
            }
            let part = self.resolve_k_key(names[i].as_str(), captures, &base, &mut seen);
            out.append(part.as_str());
            i = i + 1;
        }
        out.append(pieces[names.len()].as_str());
        out
    }

    /// `template` with its references filled from the site's texts.
    pub fn interpolate(&self, pattern: &str) -> (r: String)
        ensures
            r@ == interpolated(pattern@, Map::empty(), self.base_vars()),
    {
        let none = TextMap::new();
        self.interpolate_with_captures(pattern, &none)
    }

    /// A section link template filled from the target URL's captures and
    /// the section's `index`.
    pub fn interpolate_subtitles_href(&self, template: &str, index: &str, url_captures: &TextMap) -> (r:
        String)
        ensures
            r@ == interpolated(template@, url_captures@.insert("index"@, index@), self.base_vars()),
    {
        let mut vars = url_captures.copy();
        vars.insert("index", index);
        self.interpolate_with_captures(template, &vars)
    }

    /// The site's top page.
    pub fn top_url(&self) -> (r: String)
        ensures
            r@ == interpolated(self.top_url@, Map::empty(), self.base_vars()),
    {
        self.interpolate(self.top_url.as_str())
    }

    /// The table of contents from the single template (empty for a
    /// template picked by target).
    pub fn toc_url(&self) -> (r: String)
        ensures
            r@ == match selected_template(self.toc_url, None) {
                Some(t) => interpolated(t, Map::empty(), self.base_vars()),
                None => Seq::empty(),
            },
    {
        match self.toc_url.selected(None) {
            Some(template) => self.interpolate(template),
            None => String::new(),
        }
    }

    /// The table of contents for a target, the target URL being the capture
    /// `__target_url` (empty when no template applies).
    pub fn get_toc_url_with_captures(&self, captures: &TextMap) -> (r: String)
        ensures
            r@ == match selected_template(
                self.toc_url,
                if captures@.contains_key("__target_url"@) {
                    Some(captures@["__target_url"@])
                } else {
                    None
                },
            ) {
                Some(t) => interpolated(t, captures@, self.base_vars()),
                None => Seq::empty(),
            },
    {
        let target = captures.get("__target_url");
        match self.toc_url.selected(target) {
            Some(template) => self.interpolate_with_captures(template, captures),
            None => String::new(),
        }
    }

    /// The next page of a table of contents.
    pub fn get_next_url_with_captures(&self, next_url: &str, captures: &TextMap) -> (r: String)
        ensures
            r@ == interpolated(next_url@, captures@, self.base_vars()),
    {
        self.interpolate_with_captures(next_url, captures)
    }

    /// The novel information page, where the site has one: `\k<toc_url>` in
    /// it stands for the table-of-contents template picked for the target
    /// (the capture `__target_url`).
    pub fn novel_info_url_with_captures(&self, url_captures: &TextMap) -> (r: Option<String>)
        ensures
            opt_string_view(r) == match self.novel_info_url {
                None => None,
                Some(u) => {
                    let target = if url_captures@.contains_key("__target_url"@) {
                        Some(url_captures@["__target_url"@])
                    } else {
                        None
                    };
                    let caps = match selected_template(self.toc_url, target) {
                        Some(t) => url_captures@.insert("toc_url"@, t),
                        None => url_captures@,
                    };
                    Some(interpolated(u@, caps, self.base_vars()))
                },
            },
    {
        let mut captures = url_captures.copy();
        let target = owned_opt(url_captures.get("__target_url"));
        if let Some(template) = self.toc_url.selected(opt_as_str(&target)) {
            captures.insert("toc_url", template);
        }
        match &self.novel_info_url {
            Some(u) => Some(self.interpolate_with_captures(u.as_str(), &captures)),
            None => None,
        }
    }

    /// The site's encoding: UTF-8 when it names none.
    pub fn encoding(&self) -> (r: &str)
        ensures
            r@ == (if self.encoding@.len() == 0 {
                "UTF-8"@
            } else {
                self.encoding@
            }),
    {
        if self.encoding.unicode_len() == 0 {
            proof {
                reveal_strlit("UTF-8");
            }
            "UTF-8"
        } else {
            self.encoding.as_str()
        }
    }

    pub fn cookie(&self) -> (r: Option<&str>)
        ensures
            opt_str_view(r) == opt_string_view(self.cookie),
    {
        opt_as_str(&self.cookie)
    }

    pub fn error_message(&self) -> (r: Option<&str>)
        ensures
            opt_str_view(r) == opt_string_view(self.error_message),
    {
        opt_as_str(&self.error_message)
    }

    pub fn body_pattern(&self) -> (r: Option<&str>)
        ensures
            opt_str_view(r) == opt_string_view(self.body_pattern),
    {
        opt_as_str(&self.body_pattern)
    }

    pub fn introduction_pattern(&self) -> (r: Option<&str>)
        ensures
            opt_str_view(r) == opt_string_view(self.introduction_pattern),
    {
        opt_as_str(&self.introduction_pattern)
    }

    pub fn postscript_pattern(&self) -> (r: Option<&str>)
        ensures
            opt_str_view(r) == opt_string_view(self.postscript_pattern),
    {
        opt_as_str(&self.postscript_pattern)
    }
}

/// The patterns of a value, each filled from the site's texts `base`, that
/// are at most 4 KiB long (an `eval` entry has none).
pub open spec fn kept_patterns(ps: Seq<Option<Seq<char>>>, base: Map<Seq<char>, Seq<char>>) -> Seq<
    Seq<char>,
>
    decreases ps.len(),
{
    if ps.len() == 0 {
        Seq::empty()
    } else {
        let before = kept_patterns(ps.drop_last(), base);
        match ps.last() {
            Some(p) => {
                let r = interpolated(p, Map::empty(), base);
                if encode_utf8(r).len() <= MAX_YAML_REGEX_PATTERN_LEN {
                    before.push(r)
                } else {
                    before
                }
            },
            None => before,
        }
    }
}

/// Whether one of `patterns` matches `url`.
pub open spec fn any_matches(patterns: Seq<Seq<char>>, url: Seq<char>) -> bool {
    exists|i: int| 0 <= i < patterns.len() && limited_regex_found(#[trigger] patterns[i], url) == Some(true)
}

/// The named groups that took part in a match, by name (a later group of
/// the same name over an earlier one).
pub open spec fn named_map(groups: Seq<(Seq<char>, Option<Seq<char>>)>) -> Map<Seq<char>, Seq<char>>
    decreases groups.len(),
{
    if groups.len() == 0 {
        Map::empty()
    } else {
        let before = named_map(groups.drop_last());
        match groups.last().1 {
            Some(v) => before.insert(groups.last().0, v),
            None => before,
        }
    }
}

/// The named groups of the first of `patterns`, from `i` on, that matches
/// `url`.
pub open spec fn first_captures(patterns: Seq<Seq<char>>, url: Seq<char>, i: int) -> Option<
    Map<Seq<char>, Seq<char>>,
>
    decreases patterns.len() - i,
    when 0 <= i <= patterns.len()
{
    if i >= patterns.len() {
        None
    } else {
        match limited_regex_named(patterns[i], url) {
            Some(Some(groups)) => Some(named_map(groups)),
            _ => first_captures(patterns, url, i + 1),
        }
    }
}

pub open spec fn opt_map_view(o: Option<TextMap>) -> Option<Map<Seq<char>, Seq<char>>> {
    match o {
        Some(m) => Some(m@),
        None => None,
    }
}

fn any_pattern_matches(patterns: &Vec<String>, url: &str) -> (b: bool)
    ensures
        b == any_matches(string_views(patterns@), url@),
{
    let ghost ps = string_views(patterns@);
    let mut i: usize = 0;
    while i < patterns.len()
        invariant
            i <= patterns@.len(),
            ps == string_views(patterns@),
            forall|j: int| 0 <= j < i ==> limited_regex_found(#[trigger] ps[j], url@) != Some(true),
        decreases patterns@.len() - i,
    {
        if limited_regex_is_match(patterns[i].as_str(), url) == Some(true) {
            assert(limited_regex_found(ps[i as int], url@) == Some(true));
            return true;
        }
        i = i + 1;
    }
    false
}

fn named_captures_map(groups: &Vec<(String, Option<String>)>) -> (r: TextMap)
    ensures
        r@ == named_map(named_groups_view(groups@)),
{
    let ghost gv = named_groups_view(groups@);
    let mut m = TextMap::new();
    let mut i: usize = 0;
    while i < groups.len()
        invariant
            i <= groups@.len(),
            gv == named_groups_view(groups@),
            m@ == named_map(gv.take(i as int)),
        decreases groups@.len() - i,
    {
        assert(gv.take(i + 1).drop_last() =~= gv.take(i as int));
        if let Some(v) = &groups[i].1 {
            m.insert(groups[i].0.as_str(), v.as_str());
        }
        i = i + 1;
    }
    assert(gv.take(gv.len() as int) =~= gv);
    m
}

fn extract_captures_from_patterns(patterns: &Vec<String>, url: &str) -> (r: Option<TextMap>)
    ensures
        opt_map_view(r) == first_captures(string_views(patterns@), url@, 0),
{
    let ghost ps = string_views(patterns@);
    let mut i: usize = 0;
    while i < patterns.len()
        invariant
            i <= patterns@.len(),
            ps == string_views(patterns@),
            first_captures(ps, url@, 0) == first_captures(ps, url@, i as int),
        decreases patterns@.len() - i,
    {
        if let Some(Some(groups)) = limited_regex_named_captures(patterns[i].as_str(), url) {
            return Some(named_captures_map(&groups));
        }
        i = i + 1;
    }
    None
}

/// The marker of a series line of an author listing.
pub const AUTHOR_SERIES_MARKER: &'static str = "author_series::";

/// The series ids a listing's lines carry, each once, in order: each line
/// trimmed, and what follows the marker trimmed again, where not empty.
pub open spec fn series_ids_in(lines: Seq<Seq<char>>) -> Seq<Seq<char>>
    decreases lines.len(),
{
    if lines.len() == 0 {
        Seq::empty()
    } else {
        let before = series_ids_in(lines.drop_last());
        let l = trim_seq(lines.last());
        if is_prefix(AUTHOR_SERIES_MARKER@, l) {
            let id = trim_seq(l.skip(AUTHOR_SERIES_MARKER@.len() as int));
            if id.len() > 0 && !before.contains(id) {
                before.push(id)
            } else {
                before
            }
        } else {
            before
        }
    }
}

/// The lines of a text: the parts between line breaks, without an empty
/// one after a final break (what `str::lines` gives, up to a `\r` at a
/// line's end, which trimming removes anyway).
pub open spec fn text_lines(s: Seq<char>) -> Seq<Seq<char>> {
    let parts = split_char(s, '\n');
    if parts.last().len() == 0 {
        parts.drop_last()
    } else {
        parts
    }
}

/// The paths in their order with each later repetition of one left out.
pub open spec fn first_occurrences(s: Seq<Seq<char>>) -> Seq<Seq<char>>
    decreases s.len(),
{
    if s.len() == 0 {
        Seq::empty()
    } else {
        let kept = first_occurrences(s.drop_last());
        if kept.contains(s.last()) {
            kept
        } else {
            kept.push(s.last())
        }
    }
}

/// Leaves out of `paths` each path that an earlier one equals, keeping the
/// order of the first occurrences.
pub fn dedup_paths(paths: &mut Vec<String>)
    ensures
        string_views(final(paths)@) == first_occurrences(string_views(old(paths)@)),
{
    let mut deduped: Vec<String> = Vec::new();
    let mut i: usize = 0;
    while i < paths.len()
        invariant
            i <= paths@.len(),
            string_views(deduped@) == first_occurrences(string_views(paths@).take(i as int)),
        decreases paths@.len() - i,
    {
        let ghost before = string_views(paths@).take(i as int);
        assert(string_views(paths@).take(i as int + 1).drop_last() == before);
        assert(string_views(paths@).take(i as int + 1).last() == paths@[i as int]@);
        if !contains_text(&deduped, paths[i].as_str()) {
            deduped.push(paths[i].clone());
            assert(string_views(deduped@) == string_views(deduped@).drop_last().push(paths@[i as int]@));
        }
        i = i + 1;
    }
    assert(string_views(paths@).take(paths@.len() as int) == string_views(paths@));
    *paths = deduped;
}

fn contains_text(v: &Vec<String>, t: &str) -> (b: bool)
    ensures
        b == string_views(v@).contains(t@),
{
    let mut i: usize = 0;
    while i < v.len()
        invariant
            i <= v@.len(),
            forall|j: int| 0 <= j < i ==> v@[j]@ != t@,
        decreases v@.len() - i,
    {
        if chars_eq(v[i].as_str(), t) {
            assert(string_views(v@)[i as int] == t@);
            return true;
        }
        i = i + 1;
    }
    assert(!string_views(v@).contains(t@)) by {
        if string_views(v@).contains(t@) {
            let j = choose|j: int| 0 <= j < string_views(v@).len() && string_views(v@)[j] == t@;
            assert(v@[j]@ == t@);
        }
    }
    false
}

impl SiteSetting {
    /// The URL patterns of `v`, filled from the site's texts, that are at
    /// most 4 KiB long.
    pub open spec fn url_patterns_of(self, v: Option<SiteSettingValue>) -> Seq<Seq<char>> {
        match v {
            None => Seq::empty(),
            Some(v) => kept_patterns(value_patterns(v), self.base_vars()),
        }
    }

    fn url_patterns_for(&self, v: &Option<SiteSettingValue>) -> (r: Vec<String>)
        ensures
            string_views(r@) == self.url_patterns_of(*v),
    {
        let mut out: Vec<String> = Vec::new();
        match v {
            None => {
                assert(string_views(out@) =~= Seq::<Seq<char>>::empty());
            },
            Some(SiteSettingValue::Single(p)) => {
                let ghost ps = value_patterns(v->0);
                assert(ps =~= seq![Some(p@)]);
                assert(ps.drop_last() =~= Seq::<Option<Seq<char>>>::empty());
                let r = self.interpolate(p.as_str());
                let bytes = r.as_str().as_bytes();
                assert(bytes@ == encode_utf8(r@));
                let n = bytes.len();
                assert(kept_patterns(ps.drop_last(), self.base_vars()) =~= Seq::<Seq<char>>::empty());
                if n <= MAX_YAML_REGEX_PATTERN_LEN {
                    out.push(r);
                    assert(string_views(out@) =~= seq![r@]);
                } else {
                    assert(string_views(out@) =~= Seq::<Seq<char>>::empty());
                }
                assert(string_views(out@) =~= kept_patterns(ps, self.base_vars()));
            },
            Some(SiteSettingValue::Multiple(entries)) => {
                let ghost ps = value_patterns(v->0);
                let mut i: usize = 0;
                while i < entries.len()
                    invariant
                        i <= entries@.len(),
                        ps == value_patterns(v->0),
                        *v == Some(SiteSettingValue::Multiple(*entries)),
                        ps.len() == entries@.len(),
                        string_views(out@) == kept_patterns(ps.take(i as int), self.base_vars()),
                    decreases entries@.len() - i,
                {
                    assert(ps.take(i + 1).drop_last() =~= ps.take(i as int));
                    match &entries[i] {
                        SiteSettingEntry::Plain(p) => {
                            assert(ps.take(i + 1).last() == Some(p@));
                            let r = self.interpolate(p.as_str());
                            let bytes = r.as_str().as_bytes();
                            assert(bytes@ == encode_utf8(r@));
                            if bytes.len() <= MAX_YAML_REGEX_PATTERN_LEN {
                                let ghost prev = out@;
                                out.push(r);
                                assert(string_views(out@) =~= string_views(prev).push(r@));
                            }
                        },
                        SiteSettingEntry::Eval { .. } => {
                            assert(ps.take(i + 1).last() is None);
                        },
                    }
                    i = i + 1;
                }
                assert(ps.take(ps.len() as int) =~= ps);
            },
        }
        out
    }

    /// Whether `url` is a novel of this site.
    pub fn matches_url(&self, url: &str) -> (b: bool)
        ensures
            b == any_matches(self.url_patterns_of(self.url), url@),
    {
        any_pattern_matches(&self.url_patterns_for(&self.url), url)
    }

    /// Whether `url` is a series of this site.
    pub fn matches_series_url(&self, url: &str) -> (b: bool)
        ensures
            b == any_matches(self.url_patterns_of(self.series_url), url@),
    {
        any_pattern_matches(&self.url_patterns_for(&self.series_url), url)
    }

    /// Whether `url` is an author page of this site.
    pub fn matches_author_url(&self, url: &str) -> (b: bool)
        ensures
            b == any_matches(self.url_patterns_of(self.author_url), url@),
    {
        any_pattern_matches(&self.url_patterns_for(&self.author_url), url)
    }

    /// The named groups of the first novel URL pattern that matches `url`.
    pub fn extract_url_captures(&self, url: &str) -> (r: Option<TextMap>)
        ensures
            opt_map_view(r) == first_captures(self.url_patterns_of(self.url), url@, 0),
    {
        extract_captures_from_patterns(&self.url_patterns_for(&self.url), url)
    }

    /// The named groups of the first series URL pattern that matches `url`.
    pub fn extract_series_url_captures(&self, url: &str) -> (r: Option<TextMap>)
        ensures
            opt_map_view(r) == first_captures(self.url_patterns_of(self.series_url), url@, 0),
    {
        extract_captures_from_patterns(&self.url_patterns_for(&self.series_url), url)
    }

    /// The named groups of the first author page pattern that matches `url`.
    pub fn extract_author_url_captures(&self, url: &str) -> (r: Option<TextMap>)
        ensures
            opt_map_view(r) == first_captures(self.url_patterns_of(self.author_url), url@, 0),
    {
        extract_captures_from_patterns(&self.url_patterns_for(&self.author_url), url)
    }

    /// The table of contents of the novel at `url`: the template picked for
    /// `url`, filled from the URL's captures and, as `\k<toc_url>`, the
    /// template itself. `None` where no URL pattern or no template applies.
    pub fn toc_url_with_url_captures(&self, url: &str) -> (r: Option<String>)
        ensures
            opt_string_view(r) == match first_captures(self.url_patterns_of(self.url), url@, 0) {
                None => None,
                Some(caps) => match selected_template(self.toc_url, Some(url@)) {
                    None => None,
                    Some(t) => Some(interpolated(t, caps.insert("toc_url"@, t), self.base_vars())),
                },
            },
    {
        let mut captures = match self.extract_url_captures(url) {
            Some(c) => c,
            None => {
                return None;
            },
        };
        let template = match self.toc_url.selected(Some(url)) {
            Some(t) => t,
            None => {
                return None;
            },
        };
        captures.insert("toc_url", template);
        Some(self.interpolate_with_captures(template, &captures))
    }

    /// What to fetch for an author page: the author API, filled from the
    /// page URL's captures, where the site has one; else the page.
    pub fn author_fetch_url(&self, page_url: &str) -> (r: String)
        ensures
            r@ == match self.author_api_url {
                None => page_url@,
                Some(t) => interpolated(
                    t@,
                    match first_captures(self.url_patterns_of(self.author_url), page_url@, 0) {
                        Some(c) => c,
                        None => Map::empty(),
                    },
                    self.base_vars(),
                ),
            },
    {
        match &self.author_api_url {
            None => page_url.to_owned(),
            Some(t) => {
                let captures = match self.extract_author_url_captures(page_url) {
                    Some(c) => c,
                    None => TextMap::new(),
                };
                self.interpolate_with_captures(t.as_str(), &captures)
            },
        }
    }

    /// The episode list of one series of an author listing, filled from the
    /// author page's `captures` and `series_id`, where the site has one.
    pub fn author_series_episodes_fetch_url(&self, captures: &TextMap, series_id: &str) -> (r: Option<
        String,
    >)
        ensures
            opt_string_view(r) == match self.author_series_episodes_url {
                None => None,
                Some(t) => Some(
                    interpolated(t@, captures@.insert("series_id"@, series_id@), self.base_vars()),
                ),
            },
    {
        match &self.author_series_episodes_url {
            None => None,
            Some(t) => {
                let mut named = captures.copy();
                named.insert("series_id", series_id);
                Some(self.interpolate_with_captures(t.as_str(), &named))
            },
        }
    }

    /// The series an author listing asks to check (`author_series::<id>`
    /// lines), each once.
    pub fn author_series_ids(&self, source: &str) -> (r: Vec<String>)
        ensures
            string_views(r@) == series_ids_in(text_lines(source@)),
    {
        let mut parts = split_by_char(source, '\n');
        proof {
            crate::text::lemma_split_char_nonempty(source@, '\n');
        }
        let ghost all = string_views(parts@);
        assert(all == split_char(source@, '\n'));
        if parts.len() > 0 && parts[parts.len() - 1].unicode_len() == 0 {
            parts.pop();
            assert(string_views(parts@) =~= all.drop_last());
        }
        let ghost lines = string_views(parts@);
        assert(lines == text_lines(source@));
        let mut ids: Vec<String> = Vec::new();
        let mut i: usize = 0;
        let marker_len = AUTHOR_SERIES_MARKER.unicode_len();
        while i < parts.len()
            invariant
                i <= parts@.len(),
                lines == string_views(parts@),
                marker_len == AUTHOR_SERIES_MARKER@.len(),
                string_views(ids@) == series_ids_in(lines.take(i as int)),
            decreases parts@.len() - i,
        {
            assert(lines.take(i + 1).drop_last() =~= lines.take(i as int));
            assert(lines.take(i + 1).last() == parts@[i as int]@);
            let line = trim(parts[i].as_str());
            if starts_with(line.as_str(), AUTHOR_SERIES_MARKER) {
                let chars = to_chars(line.as_str());
                let rest = string_of_range(&chars, marker_len, chars.len());
                assert(rest@ =~= line@.skip(marker_len as int));
                let id = trim(rest.as_str());
                if id.unicode_len() > 0 && !contains_text(&ids, id.as_str()) {
                    let ghost prev = ids@;
                    ids.push(id);
                    assert(string_views(ids@) =~= string_views(prev).push(id@));
                }
            }
            i = i + 1;
        }
        assert(lines.take(lines.len() as int) =~= lines);
        ids
    }

    /// The site's extra request headers, in order, their values filled from
    /// the site's texts.
    pub fn header_list(&self) -> (r: Vec<(String, String)>)
        ensures
            r@.len() == (match self.headers {
                Some(h) => h@.len(),
                None => 0,
            }),
            forall|k: int|
                0 <= k < r@.len() ==> (#[trigger] r@[k]).0@ == self.headers->0@[k].0@ && r@[k].1@
                    == interpolated(self.headers->0@[k].1@, Map::empty(), self.base_vars()),
    {
        let mut out: Vec<(String, String)> = Vec::new();
        if let Some(headers) = &self.headers {
            let mut i: usize = 0;
            while i < headers.len()
                invariant
                    i <= headers@.len(),
                    self.headers == Some(*headers),
                    out@.len() == i,
                    forall|k: int|
                        0 <= k < i ==> (#[trigger] out@[k]).0@ == headers@[k].0@ && out@[k].1@
                            == interpolated(headers@[k].1@, Map::empty(), self.base_vars()),
                decreases headers@.len() - i,
            {
                let name = headers[i].0.clone();
                let value = self.interpolate(headers[i].1.as_str());
                out.push((name, value));
                i = i + 1;
            }
        }
        out
    }

    /// The site's login page, filled from its texts.
    pub fn login_url(&self) -> (r: Option<String>)
        ensures
            opt_string_view(r) == match self.login_url {
                Some(u) => Some(interpolated(u@, Map::empty(), self.base_vars())),
                None => None,
            },
    {
        match &self.login_url {
            Some(u) => Some(self.interpolate(u.as_str())),
            None => None,
        }
    }
}

} // verus!
