//! What a download target names, and the comparisons a download makes of
//! what it fetched against what it had.
use vstd::prelude::*;
use crate::downloader::types::TargetType;
use crate::db::paths::sanitized_component;
use crate::downloader::util::sanitize_filename;
use crate::regex_match::{regex_found, regex_is_match, regex_replace_all, regex_replaced};
use crate::text::{
    drop_end, is_prefix, join, join_seq, lowercase, replace_all, split_by_char, split_char, starts_with,
    str_replace, to_lowercase, trim, trim_end_set, trim_seq, TrimSet,
};

verus! {

/// The pattern of an ncode: `n`, digits, letters, in any case.
pub open spec fn ncode_pattern() -> Seq<char> {
    "(?i)^n\\d+[a-z]+$"@
}

pub open spec fn all_digits(s: Seq<char>) -> bool {
    forall|i: int| 0 <= i < s.len() ==> '0' <= #[trigger] s[i] <= '9'
}

/// The kind of a target: an `http`/`https` URL, an ncode, a number (an id;
/// the empty text counts), or anything else.
pub open spec fn target_type_of(target: Seq<char>) -> TargetType {
    if is_prefix("http://"@, target) || is_prefix("https://"@, target) {
        TargetType::Url
    } else if regex_found(ncode_pattern(), target) == Some(true) {
        TargetType::Ncode
    } else if all_digits(target) {
        TargetType::Id
    } else {
        TargetType::Other
    }
}

fn digits_only(s: &str) -> (r: bool)
    ensures
        r == all_digits(s@),
{
    let v = crate::text::to_chars(s);
    let mut i: usize = 0;
    while i < v.len()
        invariant
            v@ == s@,
            i <= v@.len(),
            forall|j: int| 0 <= j < i ==> '0' <= #[trigger] v@[j] <= '9',
        decreases v@.len() - i,
    {
        if !('0' <= v[i] && v[i] <= '9') {
            return false;
        }
        i = i + 1;
    }
    true
}

/// The kind of a download target (see [`target_type_of`]).
pub fn get_target_type(target: &str) -> (r: TargetType)
    ensures
        r == target_type_of(target@),
{
    proof {
        reveal_strlit("http://");
        reveal_strlit("https://");
    }
    if starts_with(target, "http://") || starts_with(target, "https://") {
        TargetType::Url
    } else if regex_is_match("(?i)^n\\d+[a-z]+$", target) == Some(true) {
        TargetType::Ncode
    } else if digits_only(target) {
        TargetType::Id
    } else {
        TargetType::Other
    }
}

/// The table of contents URL of an ncode target, `None` for any other
/// target.
pub fn ncode_target_url(target: &str) -> (r: Option<String>)
    ensures
        match r {
            Some(u) => target_type_of(target@) == TargetType::Ncode && u@ == "https://ncode.syosetu.com/"@
                + lowercase(target@) + "/"@,
            None => target_type_of(target@) != TargetType::Ncode,
        },
{
    match get_target_type(target) {
        TargetType::Ncode => {
            let mut url = "https://ncode.syosetu.com/".to_owned();
            url.append(to_lowercase(target).as_str());
            url.append("/");
            Some(url)
        },
        _ => None,
    }
}

/// The lines of `s` as `str::lines` gives them when `s` holds no `\r`: the
/// parts between line breaks, without an empty one after a final break.
pub open spec fn lines_of(s: Seq<char>) -> Seq<Seq<char>> {
    let parts = split_char(s, '\n');
    if parts.last().len() == 0 {
        parts.drop_last()
    } else {
        parts
    }
}

/// A story as compared: `<br>` tags (any case, `<br/>`, `<br />`) and
/// `\r\n` and `\r` made line breaks, each line's trailing white space
/// dropped, and the whole trimmed. `None` only where the tag pattern does
/// not compile.
pub open spec fn story_for_compare(story: Seq<char>) -> Option<Seq<char>> {
    match regex_replaced("(?i)<br\\s*/?>"@, story, "\n"@) {
        Some(b) => {
            let unified = str_replace(str_replace(b, "\r\n"@, "\n"@), "\r"@, "\n"@);
            let lines = lines_of(unified);
            Some(
                trim_seq(
                    join_seq(
                        lines.map_values(|l: Seq<char>| drop_end(l, TrimSet::WhiteSpace)),
                        "\n"@,
                    ),
                ),
            )
        },
        None => None,
    }
}

/// A story as compared (see [`story_for_compare`]); the story as it is
/// where the tag pattern does not compile.
pub fn normalize_story_for_compare(story: &str) -> (r: String)
    ensures
        match story_for_compare(story@) {
            Some(s) => r@ == s,
            None => r@ == story@,
        },
{
    let broken = match regex_replace_all("(?i)<br\\s*/?>", story, "\n") {
        Some(b) => b,
        None => {
            return story.to_owned();
        },
    };
    let unified = replace_all(replace_all(broken.as_str(), "\r\n", "\n").as_str(), "\r", "\n");
    let mut parts = split_by_char(unified.as_str(), '\n');
    let ghost all = parts@.map_values(|p: String| p@);
    if parts.len() > 0 && parts[parts.len() - 1].unicode_len() == 0 {
        parts.pop();
    }
    let ghost kept = parts@.map_values(|p: String| p@);
    assert(kept == lines_of(unified@)) by {
        crate::text::lemma_split_char_nonempty(unified@, '\n');
        if all.last().len() == 0 {
            assert(kept =~= all.drop_last());
        } else {
            assert(kept =~= all);
        }
    }
    let mut trimmed: Vec<String> = Vec::new();
    let mut i: usize = 0;
    while i < parts.len()
        invariant
            i <= parts@.len(),
            kept == parts@.map_values(|p: String| p@),
            trimmed@.map_values(|p: String| p@) == kept.take(i as int).map_values(
                |l: Seq<char>| drop_end(l, TrimSet::WhiteSpace),
            ),
        decreases parts@.len() - i,
    {
        let ghost before = trimmed@.map_values(|p: String| p@);
        let t = trim_end_set(parts[i].as_str(), TrimSet::WhiteSpace);
        assert(parts@[i as int]@ == kept[i as int]);
        trimmed.push(t);
        assert(trimmed@.map_values(|p: String| p@) =~= before.push(t@));
        assert(kept.take(i + 1) =~= kept.take(i as int).push(kept[i as int]));
        i = i + 1;
        assert(trimmed@.map_values(|p: String| p@) =~= kept.take(i as int).map_values(
            |l: Seq<char>| drop_end(l, TrimSet::WhiteSpace),
        ));
    }
    assert(kept.take(kept.len() as int) =~= kept);
    let joined = join(&trimmed, "\n");
    assert(trimmed@.map_values(|p: String| p@) =~= kept.map_values(|l: Seq<char>| drop_end(l, TrimSet::WhiteSpace)));
    trim(joined.as_str())
}

/// A story as compared, or the story itself where the tag pattern does not
/// compile.
pub open spec fn compared_story(story: Seq<char>) -> Seq<char> {
    match story_for_compare(story) {
        Some(s) => s,
        None => story,
    }
}

/// Whether a story changed: the stories compared as [`compared_story`]
/// gives them; an absent story against a present one counts as a change
/// exactly when the present one is not empty once compared.
pub fn story_changed(old_story: &Option<String>, fetched_story: &Option<String>) -> (r: bool)
    ensures
        r == match (old_story, fetched_story) {
            (None, None) => false,
            (Some(o), Some(n)) => compared_story(o@) != compared_story(n@),
            (None, Some(n)) => compared_story(n@).len() > 0,
            (Some(o), None) => compared_story(o@).len() > 0,
        },
{
    match (old_story, fetched_story) {
        (None, None) => false,
        (Some(old), Some(new)) => {
            let a = normalize_story_for_compare(old.as_str());
            let b = normalize_story_for_compare(new.as_str());
            !crate::text::chars_eq(a.as_str(), b.as_str())
        },
        (None, Some(new)) => normalize_story_for_compare(new.as_str()).unicode_len() > 0,
        (Some(old), None) => normalize_story_for_compare(old.as_str()).unicode_len() > 0,
    }
}

/// A title made safe as a file name.
pub open spec fn safe_title(title: Seq<char>) -> Seq<char> {
    sanitized_component(title, Some(80), Some('_'), "_"@)
}

/// The file title of a novel: the one it already has (when not empty);
/// else its ncode, followed by its title made safe when `append_title` (and
/// that is not empty); else its title made safe.
pub open spec fn file_title_of(
    existing: Option<Seq<char>>,
    ncode: Option<Seq<char>>,
    title: Seq<char>,
    append_title: bool,
) -> Seq<char> {
    if existing matches Some(e) && e.len() > 0 {
        existing->0
    } else {
        match ncode {
            Some(n) => if !append_title || safe_title(title).len() == 0 {
                n
            } else {
                n + " "@ + safe_title(title)
            },
            None => safe_title(title),
        }
    }
}

/// The file title of a novel (see [`file_title_of`]); `existing` is the
/// file title of the novel already in the library, if any.
pub fn file_title_for(existing: Option<&str>, ncode: &Option<String>, title: &str, append_title: bool) -> (r:
    String)
    ensures
        r@ == file_title_of(
            match existing {
                Some(e) => Some(e@),
                None => None,
            },
            match ncode {
                Some(n) => Some(n@),
                None => None,
            },
            title@,
            append_title,
        ),
{
    if let Some(e) = existing {
        if e.unicode_len() > 0 {
            return e.to_owned();
        }
    }
    match ncode {
        Some(n) => {
            if !append_title {
                return n.clone();
            }
            let sanitized = sanitize_filename(title);
            if sanitized.unicode_len() == 0 {
                n.clone()
            } else {
                let mut r = n.clone();
                r.append(" ");
                r.append(sanitized.as_str());
                r
            }
        },
        None => sanitize_filename(title),
    }
}

} // verus!
