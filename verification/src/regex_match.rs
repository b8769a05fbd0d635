//! Regular expressions, matched by the `regex` crate.
use vstd::prelude::*;

use crate::text::string_views;

use crate::downloader::util::DEFAULT_REGEX_SIZE_LIMIT;

verus! {

/// What group 1 of each match of `pattern` in `text` holds, in order (the
/// empty text where group 1 takes no part in a match), as
/// `regex::Regex::captures_iter` finds them; `None` where `pattern` does not
/// compile.
pub uninterp spec fn regex_group1_matches(pattern: Seq<char>, text: Seq<char>) -> Option<
    Seq<Seq<char>>,
>;

/// Group 1 of each match of `pattern` in `text`: `regex::Regex::new` and
/// `captures_iter`.
#[verifier::external_body]
pub(crate) fn regex_group1_all(pattern: &str, text: &str) -> (r: Option<Vec<String>>)
    ensures
        match r {
            Some(v) => regex_group1_matches(pattern@, text@) == Some(string_views(v@)),
            None => regex_group1_matches(pattern@, text@) is None,
        },
{
    match regex::Regex::new(pattern) {
        Ok(re) => Some(
            re.captures_iter(text).map(
                |caps| caps.get(1).map_or(String::new(), |m| m.as_str().to_string()),
            ).collect(),
        ),
        Err(_) => None,
    }
}

/// The texts between the matches of `pattern` in `text`, in order, as
/// `regex::Regex::split` yields them; `None` where `pattern` does not
/// compile.
pub uninterp spec fn regex_pieces(pattern: Seq<char>, text: Seq<char>) -> Option<Seq<Seq<char>>>;

/// `regex::Regex::new` and `split`. The regex documentation has `split`
/// yield the text before, between and after the matches, so one piece more
/// than `captures_iter` finds matches; both need the pattern to compile.
#[verifier::external_body]
pub(crate) fn regex_split(pattern: &str, text: &str) -> (r: Option<Vec<String>>)
    ensures
        match r {
            Some(v) => regex_pieces(pattern@, text@) == Some(string_views(v@)) && (regex_group1_matches(
                pattern@,
                text@,
            ) matches Some(g) && v@.len() == g.len() + 1),
            None => regex_pieces(pattern@, text@) is None && regex_group1_matches(pattern@, text@) is None,
        },
{
    match regex::Regex::new(pattern) {
        Ok(re) => Some(re.split(text).map(|piece| piece.to_string()).collect()),
        Err(_) => None,
    }
}

/// Whether `pattern` matches somewhere in `text`, as
/// `regex::Regex::is_match` says; `None` where `pattern` does not compile.
pub uninterp spec fn regex_found(pattern: Seq<char>, text: Seq<char>) -> Option<bool>;

/// `text` with each match of `pattern` replaced by `replacement`, as
/// `regex::Regex::replace_all` gives it; `None` where `pattern` does not
/// compile.
pub uninterp spec fn regex_replaced(pattern: Seq<char>, text: Seq<char>, replacement: Seq<char>) -> Option<
    Seq<char>,
>;

/// `regex::Regex::new` and `is_match`.
#[verifier::external_body]
pub(crate) fn regex_is_match(pattern: &str, text: &str) -> (r: Option<bool>)
    ensures
        r == regex_found(pattern@, text@),
{
    regex::Regex::new(pattern).ok().map(|re| re.is_match(text))
}

/// `regex::Regex::new` and `replace_all`.
#[verifier::external_body]
pub(crate) fn regex_replace_all(pattern: &str, text: &str, replacement: &str) -> (r: Option<String>)
    ensures
        match r {
            Some(s) => regex_replaced(pattern@, text@, replacement@) == Some(s@),
            None => regex_replaced(pattern@, text@, replacement@) is None,
        },
{
    regex::Regex::new(pattern).ok().map(|re| re.replace_all(text, replacement).into_owned())
}

/// Whether `pattern`, compiled within the size limit of site patterns,
/// matches somewhere in `text`; `None` where it does not compile so.
pub uninterp spec fn limited_regex_found(pattern: Seq<char>, text: Seq<char>) -> Option<bool>;

/// `regex::RegexBuilder` with `size_limit(DEFAULT_REGEX_SIZE_LIMIT)`, and
/// `Regex::is_match`.
#[verifier::external_body]
pub(crate) fn limited_regex_is_match(pattern: &str, text: &str) -> (r: Option<bool>)
    ensures
        r == limited_regex_found(pattern@, text@),
{
    regex::RegexBuilder::new(pattern).size_limit(DEFAULT_REGEX_SIZE_LIMIT).build().ok().map(|re| re.is_match(text))
}

/// The named groups of the first match of `pattern` (compiled within the
/// size limit of site patterns) in `text`, in the order the pattern names
/// them, each with what it matched (`None` where it took no part);
/// `Some(None)` where nothing matches, `None` where the pattern does not
/// compile so.
pub uninterp spec fn limited_regex_named(pattern: Seq<char>, text: Seq<char>) -> Option<
    Option<Seq<(Seq<char>, Option<Seq<char>>)>>,
>;

pub open spec fn named_groups_view(v: Seq<(String, Option<String>)>) -> Seq<(Seq<char>, Option<Seq<char>>)> {
    v.map_values(
        |p: (String, Option<String>)|
            (
                p.0@,
                match p.1 {
                    Some(t) => Some(t@),
                    None => None,
                },
            ),
    )
}

/// `regex::RegexBuilder` with `size_limit(DEFAULT_REGEX_SIZE_LIMIT)`,
/// `Regex::captures`, and the named groups of `Regex::capture_names`.
#[verifier::external_body]
pub(crate) fn limited_regex_named_captures(pattern: &str, text: &str) -> (r: Option<
    Option<Vec<(String, Option<String>)>>,
>)
    ensures
        match r {
            Some(Some(v)) => limited_regex_named(pattern@, text@) == Some(Some(named_groups_view(v@))),
            Some(None) => limited_regex_named(pattern@, text@) == Some(None::<Seq<(Seq<char>, Option<Seq<char>>)>>),
            None => limited_regex_named(pattern@, text@) is None,
        },
{
    let re = regex::RegexBuilder::new(pattern).size_limit(DEFAULT_REGEX_SIZE_LIMIT).build().ok()?;
    Some(re.captures(text).map(|caps| re.capture_names().flatten().map(|n| (n.to_string(), caps.name(n).map(|m| m.as_str().to_string()))).collect()))
}

} // verus!
