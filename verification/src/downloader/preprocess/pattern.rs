//! The regular expressions of a `preprocess:` definition, matched by the
//! `regex` crate. A pattern comes with flags: `s` lets `.` match a line
//! break, `m` makes `^` and `$` match at line ends, `i` ignores case.
use vstd::prelude::*;
use crate::text::{contains_char, string_views};

verus! {

/// The options a pattern is built with.
#[derive(Clone, Copy)]
pub struct PatternFlags {
    pub dot_all: bool,
    pub multi_line: bool,
    pub ignore_case: bool,
}

/// The options of a flag text.
pub fn pattern_flags(flags: &str) -> (r: PatternFlags)
    ensures
        r.dot_all == flags@.contains('s'),
        r.multi_line == flags@.contains('m'),
        r.ignore_case == flags@.contains('i'),
{
    PatternFlags {
        dot_all: contains_char(flags, 's'),
        multi_line: contains_char(flags, 'm'),
        ignore_case: contains_char(flags, 'i'),
    }
}

/// What `regex::Regex::replace_all` gives for `text` with `replacement`
/// (where `$1` and `${name}` stand for groups), the pattern built by
/// `regex::RegexBuilder` with the flags; `None` where it does not build.
pub uninterp spec fn pattern_replaced(
    pattern: Seq<char>,
    dot_all: bool,
    multi_line: bool,
    ignore_case: bool,
    text: Seq<char>,
    replacement: Seq<char>,
) -> Option<Seq<char>>;

/// The parts of `text` between the matches of the pattern, as
/// `regex::Regex::split` gives them; `None` where it does not build.
pub uninterp spec fn pattern_pieces(
    pattern: Seq<char>,
    dot_all: bool,
    multi_line: bool,
    ignore_case: bool,
    text: Seq<char>,
) -> Option<Seq<Seq<char>>>;

/// The groups of each match of the pattern in `text` (group 0 the whole
/// match; `None` for a group that takes no part), as
/// `regex::Regex::captures_iter` finds them; `None` where it does not build.
pub uninterp spec fn pattern_groups(
    pattern: Seq<char>,
    dot_all: bool,
    multi_line: bool,
    ignore_case: bool,
    text: Seq<char>,
) -> Option<Seq<Seq<Option<Seq<char>>>>>;

/// The first match of the pattern in `text`, as `regex::Regex::captures`
/// finds it: the text before the match and what group 1 holds; the inner
/// `None` where nothing matches, the outer where the pattern does not build.
pub uninterp spec fn pattern_first(
    pattern: Seq<char>,
    dot_all: bool,
    multi_line: bool,
    ignore_case: bool,
    text: Seq<char>,
) -> Option<Option<(Seq<char>, Option<Seq<char>>)>>;

pub open spec fn opt_text(o: Option<String>) -> Option<Seq<char>> {
    match o {
        Some(s) => Some(s@),
        None => None,
    }
}

pub open spec fn group_views(groups: Seq<Vec<Option<String>>>) -> Seq<Seq<Option<Seq<char>>>> {
    groups.map_values(|g: Vec<Option<String>>| g@.map_values(|o: Option<String>| opt_text(o)))
}

/// `regex::RegexBuilder::build` and `regex::Regex::replace_all`; the error
/// is the builder's message.
#[verifier::external_body]
pub(crate) fn replace_matches(pattern: &str, flags: PatternFlags, text: &str, replacement: &str) -> (r:
    Result<String, String>)
    ensures
        match r {
            Ok(s) => pattern_replaced(
                pattern@,
                flags.dot_all,
                flags.multi_line,
                flags.ignore_case,
                text@,
                replacement@,
            ) == Some(s@),
            Err(_) => pattern_replaced(
                pattern@,
                flags.dot_all,
                flags.multi_line,
                flags.ignore_case,
                text@,
                replacement@,
            ) is None,
        },
{
    let re = regex::RegexBuilder::new(pattern).dot_matches_new_line(flags.dot_all).multi_line(
        flags.multi_line,
    ).case_insensitive(flags.ignore_case).build().map_err(|e| e.to_string())?;
    Ok(re.replace_all(text, replacement).into_owned())
}

/// `regex::RegexBuilder::build` and `regex::Regex::split`.
#[verifier::external_body]
pub(crate) fn split_on_matches(pattern: &str, flags: PatternFlags, text: &str) -> (r: Result<
    Vec<String>,
    String,
>)
    ensures
        match r {
            Ok(v) => pattern_pieces(pattern@, flags.dot_all, flags.multi_line, flags.ignore_case, text@)
                == Some(string_views(v@)),
            Err(_) => pattern_pieces(
                pattern@,
                flags.dot_all,
                flags.multi_line,
                flags.ignore_case,
                text@,
            ) is None,
        },
{
    let re = regex::RegexBuilder::new(pattern).dot_matches_new_line(flags.dot_all).multi_line(
        flags.multi_line,
    ).case_insensitive(flags.ignore_case).build().map_err(|e| e.to_string())?;
    Ok(re.split(text).map(|piece| piece.to_owned()).collect())
}

/// `regex::RegexBuilder::build` and `regex::Regex::captures_iter`.
#[verifier::external_body]
pub(crate) fn groups_of_matches(pattern: &str, flags: PatternFlags, text: &str) -> (r: Result<
    Vec<Vec<Option<String>>>,
    String,
>)
    ensures
        match r {
            Ok(v) => pattern_groups(pattern@, flags.dot_all, flags.multi_line, flags.ignore_case, text@)
                == Some(group_views(v@)),
            Err(_) => pattern_groups(
                pattern@,
                flags.dot_all,
                flags.multi_line,
                flags.ignore_case,
                text@,
            ) is None,
        },
{
    let re = regex::RegexBuilder::new(pattern).dot_matches_new_line(flags.dot_all).multi_line(
        flags.multi_line,
    ).case_insensitive(flags.ignore_case).build().map_err(|e| e.to_string())?;
    Ok(re.captures_iter(text).map(|caps| caps.iter().map(|g| g.map(|m| m.as_str().to_owned())).collect()).collect())
}

/// `regex::RegexBuilder::build` and `regex::Regex::captures`.
#[verifier::external_body]
pub(crate) fn first_match(pattern: &str, flags: PatternFlags, text: &str) -> (r: Result<
    Option<(String, Option<String>)>,
    String,
>)
    ensures
        match r {
            Ok(Some((before, group))) => pattern_first(
                pattern@,
                flags.dot_all,
                flags.multi_line,
                flags.ignore_case,
                text@,
            ) == Some(Some((before@, opt_text(group)))),
            Ok(None) => pattern_first(
                pattern@,
                flags.dot_all,
                flags.multi_line,
                flags.ignore_case,
                text@,
            ) == Some(None::<(Seq<char>, Option<Seq<char>>)>),
            Err(_) => pattern_first(
                pattern@,
                flags.dot_all,
                flags.multi_line,
                flags.ignore_case,
                text@,
            ) is None,
        },
{
    let re = regex::RegexBuilder::new(pattern).dot_matches_new_line(flags.dot_all).multi_line(
        flags.multi_line,
    ).case_insensitive(flags.ignore_case).build().map_err(|e| e.to_string())?;
    Ok(re.captures(text).and_then(|caps| caps.get(0).map(|whole| (text[..whole.start()].to_owned(), caps.get(1).map(|m| m.as_str().to_owned())))))
}

} // verus!
