//! Reading a novel's information out of a page with the patterns of its
//! site.
//!
//! A pattern is read with `.` matching newlines and `^`/`$` at line ends, by
//! the `regex` crate, or by `fancy-regex` where `regex` cannot read it (look
//! around). What a match gives for a key is its first named group that the
//! key goes by and that took part in the match, else its group 1.
use vstd::prelude::*;

use crate::downloader::site_setting::{
    interpolated, opt_str_view, opt_string_view, SiteSetting, SiteSettingEntry, SiteSettingValue,
};
use crate::keyed::TextMap;
use crate::text::{chars_eq, join, join_seq, string_views};

verus! {

/// What one match captured: each named group, in the order the pattern
/// names them, with the text it matched (`None` where it took no part), and
/// the text of group 1.
#[derive(Debug)]
pub struct MatchGroups {
    pub named: Vec<(String, Option<String>)>,
    pub first: Option<String>,
}

/// The texts of a match's groups.
pub struct GroupsView {
    pub named: Seq<(Seq<char>, Option<Seq<char>>)>,
    pub first: Option<Seq<char>>,
}

pub open spec fn named_view(v: Seq<(String, Option<String>)>) -> Seq<(Seq<char>, Option<Seq<char>>)> {
    v.map_values(|p: (String, Option<String>)| (p.0@, opt_string_view(p.1)))
}

impl View for MatchGroups {
    type V = GroupsView;

    open spec fn view(&self) -> GroupsView {
        GroupsView { named: named_view(self.named@), first: opt_string_view(self.first) }
    }
}

pub open spec fn groups_views(v: Seq<MatchGroups>) -> Seq<GroupsView> {
    v.map_values(|g: MatchGroups| g@)
}

pub open spec fn opt_groups_views(v: Seq<Option<MatchGroups>>) -> Seq<Option<GroupsView>> {
    v.map_values(
        |g: Option<MatchGroups>|
            match g {
                Some(x) => Some(x@),
                None => None,
            },
    )
}

/// The first match of `pattern` in `source` as `regex` finds it: `None`
/// where the pattern does not compile, `Some(None)` where nothing matches.
pub uninterp spec fn regex_first_groups(pattern: Seq<char>, source: Seq<char>) -> Option<
    Option<GroupsView>,
>;

/// Every match of `pattern` in `source`, in order, as `regex` finds them;
/// `None` where the pattern does not compile.
pub uninterp spec fn regex_all_groups(pattern: Seq<char>, source: Seq<char>) -> Option<Seq<GroupsView>>;

/// The first match of `pattern` in `source` as `fancy-regex` finds it:
/// `None` where the pattern does not compile, `Some(None)` where nothing
/// matches or matching fails.
pub uninterp spec fn fancy_first_groups(pattern: Seq<char>, source: Seq<char>) -> Option<
    Option<GroupsView>,
>;

/// Every match of `pattern` in `source`, in order, as `fancy-regex` finds
/// them, `None` in place of a match where matching fails; `None` where the
/// pattern does not compile.
pub uninterp spec fn fancy_all_groups(pattern: Seq<char>, source: Seq<char>) -> Option<
    Seq<Option<GroupsView>>,
>;

pub open spec fn first_view(r: Option<Option<MatchGroups>>) -> Option<Option<GroupsView>> {
    match r {
        Some(Some(g)) => Some(Some(g@)),
        Some(None) => Some(None),
        None => None,
    }
}

/// `regex::RegexBuilder` (dot matching newlines, multi-line) and
/// `Regex::captures`, with the named groups from `Regex::capture_names`.
#[verifier::external_body]
fn regex_first(pattern: &str, source: &str) -> (r: Option<Option<MatchGroups>>)
    ensures
        first_view(r) == regex_first_groups(pattern@, source@),
{
    let re = regex::RegexBuilder::new(pattern).dot_matches_new_line(true).multi_line(true).build().ok()?;
    Some(re.captures(source).map(|caps| MatchGroups {
        named: re.capture_names().flatten().map(|n| (n.to_string(), caps.name(n).map(|m| m.as_str().to_string()))).collect(),
        first: caps.get(1).map(|m| m.as_str().to_string()),
    }))
}

/// `regex::RegexBuilder` (dot matching newlines, multi-line) and
/// `Regex::captures_iter`, with the named groups from
/// `Regex::capture_names`.
#[verifier::external_body]
fn regex_all(pattern: &str, source: &str) -> (r: Option<Vec<MatchGroups>>)
    ensures
        match r {
            Some(v) => regex_all_groups(pattern@, source@) == Some(groups_views(v@)),
            None => regex_all_groups(pattern@, source@) is None,
        },
{
    let re = regex::RegexBuilder::new(pattern).dot_matches_new_line(true).multi_line(true).build().ok()?;
    Some(re.captures_iter(source).map(|caps| MatchGroups {
        named: re.capture_names().flatten().map(|n| (n.to_string(), caps.name(n).map(|m| m.as_str().to_string()))).collect(),
        first: caps.get(1).map(|m| m.as_str().to_string()),
    }).collect())
}

/// `fancy_regex::RegexBuilder` (dot matching newlines, multi-line) and
/// `Regex::captures`, with the named groups from `Regex::capture_names`.
#[verifier::external_body]
fn fancy_first(pattern: &str, source: &str) -> (r: Option<Option<MatchGroups>>)
    ensures
        first_view(r) == fancy_first_groups(pattern@, source@),
{
    let re = fancy_regex::RegexBuilder::new(pattern).dot_matches_new_line(true).multi_line(true).build().ok()?;
    Some(re.captures(source).ok().flatten().map(|caps| MatchGroups {
        named: re.capture_names().flatten().map(|n| (n.to_string(), caps.name(n).map(|m| m.as_str().to_string()))).collect(),
        first: caps.get(1).map(|m| m.as_str().to_string()),
    }))
}

/// `fancy_regex::RegexBuilder` (dot matching newlines, multi-line) and
/// `Regex::captures_iter`, with the named groups from
/// `Regex::capture_names`.
#[verifier::external_body]
fn fancy_all(pattern: &str, source: &str) -> (r: Option<Vec<Option<MatchGroups>>>)
    ensures
        match r {
            Some(v) => fancy_all_groups(pattern@, source@) == Some(opt_groups_views(v@)),
            None => fancy_all_groups(pattern@, source@) is None,
        },
{
    let re = fancy_regex::RegexBuilder::new(pattern).dot_matches_new_line(true).multi_line(true).build().ok()?;
    Some(re.captures_iter(source).map(|item| item.ok().map(|caps| MatchGroups {
        named: re.capture_names().flatten().map(|n| (n.to_string(), caps.name(n).map(|m| m.as_str().to_string()))).collect(),
        first: caps.get(1).map(|m| m.as_str().to_string()),
    })).collect())
}

/// Whether a group named `name` stands for `key`: the key's own name and
/// its long forms (`t` and `title`; `w`, `writer` and `author`; …).
pub open spec fn alias_of(key: Seq<char>, name: Seq<char>) -> bool {
    if key == "t"@ || key == "title"@ {
        name == "t"@ || name == "title"@
    } else if key == "w"@ || key == "author"@ {
        name == "w"@ || name == "writer"@ || name == "author"@
    } else if key == "s"@ || key == "story"@ {
        name == "s"@ || name == "story"@
    } else if key == "nt"@ {
        name == "nt"@ || name == "novel_type"@
    } else if key == "ga"@ {
        name == "ga"@ || name == "general_all_no"@
    } else if key == "gf"@ {
        name == "gf"@ || name == "general_firstup"@
    } else if key == "nu"@ {
        name == "nu"@ || name == "novelupdated_at"@
    } else if key == "gl"@ {
        name == "gl"@ || name == "general_lastup"@
    } else if key == "l"@ {
        name == "l"@ || name == "length"@
    } else if key == "tags"@ {
        name == "tags"@ || name == "tag"@
    } else if key == "sitename"@ {
        name == "sitename"@
    } else {
        name == key
    }
}

/// Whether a group named `capture_name` stands for `key`.
pub fn capture_name_matches_key(key: &str, capture_name: &str) -> (b: bool)
    ensures
        b == alias_of(key@, capture_name@),
{
    let n = capture_name;
    if chars_eq(key, "t") || chars_eq(key, "title") {
        chars_eq(n, "t") || chars_eq(n, "title")
    } else if chars_eq(key, "w") || chars_eq(key, "author") {
        chars_eq(n, "w") || chars_eq(n, "writer") || chars_eq(n, "author")
    } else if chars_eq(key, "s") || chars_eq(key, "story") {
        chars_eq(n, "s") || chars_eq(n, "story")
    } else if chars_eq(key, "nt") {
        chars_eq(n, "nt") || chars_eq(n, "novel_type")
    } else if chars_eq(key, "ga") {
        chars_eq(n, "ga") || chars_eq(n, "general_all_no")
    } else if chars_eq(key, "gf") {
        chars_eq(n, "gf") || chars_eq(n, "general_firstup")
    } else if chars_eq(key, "nu") {
        chars_eq(n, "nu") || chars_eq(n, "novelupdated_at")
    } else if chars_eq(key, "gl") {
        chars_eq(n, "gl") || chars_eq(n, "general_lastup")
    } else if chars_eq(key, "l") {
        chars_eq(n, "l") || chars_eq(n, "length")
    } else if chars_eq(key, "tags") {
        chars_eq(n, "tags") || chars_eq(n, "tag")
    } else if chars_eq(key, "sitename") {
        chars_eq(n, "sitename")
    } else {
        chars_eq(n, key)
    }
}

/// The text of the first named group from `i` on that stands for `key` and
/// took part in the match.
pub open spec fn first_named(named: Seq<(Seq<char>, Option<Seq<char>>)>, key: Seq<char>, i: int) -> Option<
    Seq<char>,
>
    decreases named.len() - i,
    when 0 <= i <= named.len()
{
    if i >= named.len() {
        None
    } else if alias_of(key, named[i].0) && named[i].1 is Some {
        named[i].1
    } else {
        first_named(named, key, i + 1)
    }
}

/// What a match gives for `key`: a named group that stands for it, else
/// group 1.
pub open spec fn picked(g: GroupsView, key: Seq<char>) -> Option<Seq<char>> {
    match first_named(g.named, key, 0) {
        Some(v) => Some(v),
        None => g.first,
    }
}

fn pick(g: &MatchGroups, key: &str) -> (r: Option<String>)
    ensures
        opt_string_view(r) == picked(g@, key@),
{
    let mut i: usize = 0;
    while i < g.named.len()
        invariant
            i <= g.named@.len(),
            first_named(named_view(g.named@), key@, 0) == first_named(
                named_view(g.named@),
                key@,
                i as int,
            ),
        decreases g.named@.len() - i,
    {
        let (name, value) = &g.named[i];
        if capture_name_matches_key(key, name.as_str()) {
            if let Some(v) = value {
                return Some(v.clone());
            }
        }
        i = i + 1;
    }
    match &g.first {
        Some(f) => Some(f.clone()),
        None => None,
    }
}

/// What the first match of `pattern` in `source` gives for `key`: by
/// `regex` where it reads the pattern, else by `fancy-regex`.
pub open spec fn captured(pattern: Seq<char>, source: Seq<char>, key: Seq<char>) -> Option<Seq<char>> {
    match regex_first_groups(pattern, source) {
        Some(m) => match m {
            Some(g) => picked(g, key),
            None => None,
        },
        None => match fancy_first_groups(pattern, source) {
            Some(Some(g)) => picked(g, key),
            _ => None,
        },
    }
}

/// What each match gives for `key`, in order, leaving out matches that
/// give nothing.
pub open spec fn picked_all(gs: Seq<GroupsView>, key: Seq<char>) -> Seq<Seq<char>>
    decreases gs.len(),
{
    if gs.len() == 0 {
        Seq::empty()
    } else {
        let before = picked_all(gs.drop_last(), key);
        match picked(gs.last(), key) {
            Some(v) => before.push(v),
            None => before,
        }
    }
}

/// As `picked_all`, leaving out the matches where matching failed too.
pub open spec fn picked_present(gs: Seq<Option<GroupsView>>, key: Seq<char>) -> Seq<Seq<char>>
    decreases gs.len(),
{
    if gs.len() == 0 {
        Seq::empty()
    } else {
        let before = picked_present(gs.drop_last(), key);
        match gs.last() {
            Some(g) => match picked(g, key) {
                Some(v) => before.push(v),
                None => before,
            },
            None => before,
        }
    }
}

/// What every match of `pattern` in `source` gives for `key`.
pub open spec fn captured_all(pattern: Seq<char>, source: Seq<char>, key: Seq<char>) -> Seq<Seq<char>> {
    match regex_all_groups(pattern, source) {
        Some(gs) => picked_all(gs, key),
        None => match fancy_all_groups(pattern, source) {
            Some(gs) => picked_present(gs, key),
            None => Seq::empty(),
        },
    }
}

/// What the first match of `pattern` in `source` gives for `key`.
pub fn try_regex_captures(pattern: &str, source: &str, key: &str) -> (r: Option<String>)
    ensures
        opt_string_view(r) == captured(pattern@, source@, key@),
{
    match regex_first(pattern, source) {
        Some(m) => match m {
            Some(g) => pick(&g, key),
            None => None,
        },
        None => match fancy_first(pattern, source) {
            Some(Some(g)) => pick(&g, key),
            _ => None,
        },
    }
}

/// What every match of `pattern` in `source` gives for `key`.
pub fn try_regex_captures_all(pattern: &str, source: &str, key: &str) -> (r: Vec<String>)
    ensures
        string_views(r@) == captured_all(pattern@, source@, key@),
{
    match regex_all(pattern, source) {
        Some(gs) => {
            let mut out: Vec<String> = Vec::new();
            let mut i: usize = 0;
            while i < gs.len()
                invariant
                    i <= gs@.len(),
                    string_views(out@) == picked_all(groups_views(gs@).take(i as int), key@),
                decreases gs@.len() - i,
            {
                assert(groups_views(gs@).take(i + 1).drop_last() =~= groups_views(gs@).take(
                    i as int,
                ));
                assert(groups_views(gs@).take(i + 1).last() == gs@[i as int]@);
                if let Some(v) = pick(&gs[i], key) {
                    let ghost prev = out@;
                    out.push(v);
                    assert(string_views(out@) =~= string_views(prev).push(v@));
                }
                i = i + 1;
            }
            assert(groups_views(gs@).take(gs@.len() as int) =~= groups_views(gs@));
            out
        },
        None => match fancy_all(pattern, source) {
            Some(gs) => {
                let mut out: Vec<String> = Vec::new();
                let mut i: usize = 0;
                while i < gs.len()
                    invariant
                        i <= gs@.len(),
                        string_views(out@) == picked_present(
                            opt_groups_views(gs@).take(i as int),
                            key@,
                        ),
                    decreases gs@.len() - i,
                {
                    assert(opt_groups_views(gs@).take(i + 1).drop_last() =~= opt_groups_views(
                        gs@,
                    ).take(i as int));
                    if let Some(g) = &gs[i] {
                        assert(opt_groups_views(gs@).take(i + 1).last() == Some(g@));
                        if let Some(v) = pick(g, key) {
                            let ghost prev = out@;
                            out.push(v);
                            assert(string_views(out@) =~= string_views(prev).push(v@));
                        }
                    } else {
                        assert(opt_groups_views(gs@).take(i + 1).last() is None);
                    }
                    i = i + 1;
                }
                assert(opt_groups_views(gs@).take(gs@.len() as int) =~= opt_groups_views(gs@));
                out
            },
            None => Vec::new(),
        },
    }
}

pub open spec fn or_value(a: Option<SiteSettingValue>, b: Option<SiteSettingValue>) -> Option<
    SiteSettingValue,
> {
    match a {
        Some(v) => Some(v),
        None => b,
    }
}

/// The patterns of a value, in order, `None` for an `eval` entry.
pub open spec fn value_patterns(v: SiteSettingValue) -> Seq<Option<Seq<char>>> {
    match v {
        SiteSettingValue::Single(s) => seq![Some(s@)],
        SiteSettingValue::Multiple(entries) => entries@.map_values(
            |e: SiteSettingEntry|
                match e {
                    SiteSettingEntry::Plain(s) => Some(s@),
                    SiteSettingEntry::Eval { .. } => None,
                },
        ),
    }
}

/// What the patterns from `i` on give for `key` in `source`, each pattern
/// filled from `caps` and the site's texts `base` first: for `tags`, every
/// match of the first pattern that matches, one per line; otherwise the
/// first match of the first pattern that gives something.
pub open spec fn info_from(
    patterns: Seq<Option<Seq<char>>>,
    i: int,
    key: Seq<char>,
    source: Seq<char>,
    caps: Map<Seq<char>, Seq<char>>,
    base: Map<Seq<char>, Seq<char>>,
) -> Option<Seq<char>>
    decreases patterns.len() - i,
    when 0 <= i <= patterns.len()
{
    if i >= patterns.len() {
        None
    } else {
        match patterns[i] {
            None => info_from(patterns, i + 1, key, source, caps, base),
            Some(p) => {
                let resolved = interpolated(p, caps, base);
                if key == "tags"@ && captured_all(resolved, source, key).len() > 0 {
                    Some(join_seq(captured_all(resolved, source, key), "\n"@))
                } else {
                    match captured(resolved, source, key) {
                        Some(v) => Some(v),
                        None => info_from(patterns, i + 1, key, source, caps, base),
                    }
                }
            },
        }
    }
}

impl SiteSetting {
    /// The patterns of information `key`: `t`, `w` and `s` fall back on
    /// `title`, `author` and `story`, and with `long_names` those names are
    /// keys too; `sitename` is `sitename_pattern`. Other keys have none.
    pub open spec fn info_value(self, key: Seq<char>, long_names: bool) -> Option<SiteSettingValue> {
        if key == "t"@ || (long_names && key == "title"@) {
            or_value(self.t, self.title)
        } else if key == "w"@ || (long_names && key == "author"@) {
            or_value(self.w, self.author)
        } else if key == "s"@ || (long_names && key == "story"@) {
            or_value(self.s, self.story)
        } else if key == "nt"@ {
            self.nt
        } else if key == "ga"@ {
            self.ga
        } else if key == "gf"@ {
            self.gf
        } else if key == "nu"@ {
            self.nu
        } else if key == "gl"@ {
            self.gl
        } else if key == "l"@ {
            self.l
        } else if key == "tags"@ {
            self.tags
        } else if key == "sitename"@ {
            self.sitename_pattern
        } else {
            None
        }
    }

    /// What the site's patterns read for `key` in `source`.
    pub open spec fn info_read(
        self,
        key: Seq<char>,
        source: Seq<char>,
        caps: Map<Seq<char>, Seq<char>>,
        long_names: bool,
    ) -> Option<Seq<char>> {
        match self.info_value(key, long_names) {
            None => None,
            Some(v) => info_from(value_patterns(v), 0, key, source, caps, self.base_vars()),
        }
    }

    fn info_patterns(&self, key: &str, long_names: bool) -> (r: Option<&SiteSettingValue>)
        ensures
            match r {
                Some(v) => self.info_value(key@, long_names) == Some(*v),
                None => self.info_value(key@, long_names) is None,
            },
    {
        if chars_eq(key, "t") || (long_names && chars_eq(key, "title")) {
            match &self.t {
                Some(v) => Some(v),
                None => self.title.as_ref(),
            }
        } else if chars_eq(key, "w") || (long_names && chars_eq(key, "author")) {
            match &self.w {
                Some(v) => Some(v),
                None => self.author.as_ref(),
            }
        } else if chars_eq(key, "s") || (long_names && chars_eq(key, "story")) {
            match &self.s {
                Some(v) => Some(v),
                None => self.story.as_ref(),
            }
        } else if chars_eq(key, "nt") {
            self.nt.as_ref()
        } else if chars_eq(key, "ga") {
            self.ga.as_ref()
        } else if chars_eq(key, "gf") {
            self.gf.as_ref()
        } else if chars_eq(key, "nu") {
            self.nu.as_ref()
        } else if chars_eq(key, "gl") {
            self.gl.as_ref()
        } else if chars_eq(key, "l") {
            self.l.as_ref()
        } else if chars_eq(key, "tags") {
            self.tags.as_ref()
        } else if chars_eq(key, "sitename") {
            self.sitename_pattern.as_ref()
        } else {
            None
        }
    }

    /// What one pattern, filled from `captures`, reads for `key`.
    fn read_with(&self, pattern: &str, key: &str, source: &str, captures: &TextMap) -> (r: (
        bool,
        Option<String>,
    ))
        ensures
            ({
                let resolved = interpolated(pattern@, captures@, self.base_vars());
                if key@ == "tags"@ && captured_all(resolved, source@, key@).len() > 0 {
                    r.0 && opt_string_view(r.1) == Some(
                        join_seq(captured_all(resolved, source@, key@), "\n"@),
                    )
                } else {
                    !r.0 && opt_string_view(r.1) == captured(resolved, source@, key@)
                }
            }),
    {
        let resolved = self.interpolate_with_captures(pattern, captures);
        if chars_eq(key, "tags") {
            let values = try_regex_captures_all(resolved.as_str(), source, key);
            if values.len() > 0 {
                return (true, Some(join(&values, "\n")));
            }
        }
        (false, try_regex_captures(resolved.as_str(), source, key))
    }

    fn read_info(&self, value: &SiteSettingValue, key: &str, source: &str, captures: &TextMap) -> (r:
        Option<String>)
        ensures
            opt_string_view(r) == info_from(
                value_patterns(*value),
                0,
                key@,
                source@,
                captures@,
                self.base_vars(),
            ),
    {
        match value {
            SiteSettingValue::Single(p) => {
                proof {
                    let ps = value_patterns(*value);
                    assert(ps.len() == 1 && ps[0] == Some(p@));
                    assert(info_from(ps, 1, key@, source@, captures@, self.base_vars()) is None);
                }
                let (done, found) = self.read_with(p.as_str(), key, source, captures);
                if done {
                    return found;
                }
                match found {
                    Some(v) => Some(v),
                    None => None,
                }
            },
            SiteSettingValue::Multiple(entries) => {
                let ghost ps = value_patterns(*value);
                let mut i: usize = 0;
                while i < entries.len()
                    invariant
                        i <= entries@.len(),
                        ps == value_patterns(*value),
                        ps.len() == entries@.len(),
                        *value == SiteSettingValue::Multiple(*entries),
                        info_from(ps, 0, key@, source@, captures@, self.base_vars()) == info_from(
                            ps,
                            i as int,
                            key@,
                            source@,
                            captures@,
                            self.base_vars(),
                        ),
                    decreases entries@.len() - i,
                {
                    match &entries[i] {
                        SiteSettingEntry::Plain(p) => {
                            assert(ps[i as int] == Some(p@));
                            let (done, found) = self.read_with(p.as_str(), key, source, captures);
                            if done {
                                return found;
                            }
                            if let Some(v) = found {
                                return Some(v);
                            }
                        },
                        SiteSettingEntry::Eval { .. } => {
                            assert(ps[i as int] is None);
                        },
                    }
                    i = i + 1;
                }
                None
            },
        }
    }

    /// What the site's patterns read for information `key` (`t`, `w`, `s`,
    /// `nt`, `ga`, `gf`, `nu`, `gl`, `l`, `tags` or `sitename`) in `source`.
    pub fn resolve_info_pattern(&self, key: &str, source: &str) -> (r: Option<String>)
        ensures
            opt_string_view(r) == self.info_read(key@, source@, Map::empty(), false),
    {
        match self.info_patterns(key, false) {
            Some(value) => {
                let none = TextMap::new();
                self.read_info(value, key, source, &none)
            },
            None => None,
        }
    }

    /// As [`resolve_info_pattern`], the long key names accepted too and the
    /// patterns filled from what was read before.
    fn resolve_info_pattern_with_captures(&self, key: &str, source: &str, prev_captures: &TextMap) -> (r:
        Option<String>)
        ensures
            opt_string_view(r) == self.info_read(key@, source@, prev_captures@, true),
    {
        match self.info_patterns(key, true) {
            Some(value) => self.read_info(value, key, source, prev_captures),
            None => None,
        }
    }

    /// What the site's patterns read for `status_text`: its novel type, and
    /// whether it says the novel ended. The site maps texts to a status
    /// (1 serial, 2 short story, 3 ended serial); an unknown text is 1.
    pub fn get_novel_type_from_string(&self, status_text: &str) -> (r: (u8, bool))
        ensures
            r == novel_type_of(status_code(self.novel_type_string, status_text@)),
    {
        let mut code: u8 = 1;
        if let Some(mapping) = &self.novel_type_string {
            let mut i: usize = 0;
            let mut found = false;
            while i < mapping.len() && !found
                invariant
                    i <= mapping@.len(),
                    found ==> i < mapping@.len() && first_status(mapping@, status_text@, 0) == Some(
                        code,
                    ),
                    !found ==> code == 1 && first_status(mapping@, status_text@, 0) == first_status(
                        mapping@,
                        status_text@,
                        i as int,
                    ),
                decreases mapping@.len() - i + (if found {
                    0int
                } else {
                    1int
                }),
            {
                if chars_eq(mapping[i].0.as_str(), status_text) {
                    code = mapping[i].1;
                    found = true;
                } else {
                    i = i + 1;
                }
            }
            proof {
                if !found {
                    assert(first_status(mapping@, status_text@, i as int) is None);
                }
            }
        }
        let is_end = code == 3;
        let novel_type: u8 = if code == 2 {
            2
        } else {
            1
        };
        (novel_type, is_end)
    }
}

/// The status a site's table gives the first text from `i` on that equals
/// `text`.
pub open spec fn first_status(mapping: Seq<(String, u8)>, text: Seq<char>, i: int) -> Option<u8>
    decreases mapping.len() - i,
    when 0 <= i <= mapping.len()
{
    if i >= mapping.len() {
        None
    } else if mapping[i].0@ == text {
        Some(mapping[i].1)
    } else {
        first_status(mapping, text, i + 1)
    }
}

/// The status of `text` (1 where the site's table does not know it).
pub open spec fn status_code(mapping: Option<Vec<(String, u8)>>, text: Seq<char>) -> u8 {
    match mapping {
        Some(m) => match first_status(m@, text, 0) {
            Some(c) => c,
            None => 1,
        },
        None => 1,
    }
}

/// The novel type of a status (2 for a short story, else 1) and whether it
/// is an ended serial.
pub open spec fn novel_type_of(code: u8) -> (u8, bool) {
    (if code == 2 {
        2u8
    } else {
        1u8
    }, code == 3)
}

/// What the site's patterns read in `source` for `keys`, in order, each
/// key's patterns filled from what the keys before it read.
pub open spec fn multi_matched(setting: SiteSetting, source: Seq<char>, keys: Seq<Seq<char>>) -> Map<
    Seq<char>,
    Seq<char>,
>
    decreases keys.len(),
{
    if keys.len() == 0 {
        Map::empty()
    } else {
        let before = multi_matched(setting, source, keys.drop_last());
        match setting.info_read(keys.last(), source, before, true) {
            Some(v) => before.insert(keys.last(), v),
            None => before,
        }
    }
}

pub open spec fn str_views(keys: Seq<&str>) -> Seq<Seq<char>> {
    keys.map_values(|k: &str| k@)
}

impl SiteSetting {
    /// Reads `keys` from `source` in order, each key's patterns filled from
    /// what the keys before it read; a key that reads nothing is left out.
    pub fn multi_match(&self, source: &str, keys: &[&str]) -> (r: TextMap)
        ensures
            r@ == multi_matched(*self, source@, str_views(keys@)),
    {
        let mut values = TextMap::new();
        let mut i: usize = 0;
        while i < keys.len()
            invariant
                i <= keys@.len(),
                values@ == multi_matched(*self, source@, str_views(keys@).take(i as int)),
            decreases keys@.len() - i,
        {
            assert(str_views(keys@).take(i + 1).drop_last() =~= str_views(keys@).take(i as int));
            assert(str_views(keys@).take(i + 1).last() == keys@[i as int]@);
            let key = keys[i];
            if let Some(v) = self.resolve_info_pattern_with_captures(key, source, &values) {
                values.insert(key, v.as_str());
            }
            i = i + 1;
        }
        assert(str_views(keys@).take(keys@.len() as int) =~= str_views(keys@));
        values
    }
}

} // verus!
