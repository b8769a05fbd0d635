//! Names of the directories and files a novel is stored under, made safe to
//! use as one path component on every platform.
use std::path::{Path, PathBuf};
use vstd::prelude::*;
use vstd::string::*;

use crate::text::{
    ascii_upper_seq, chars_eq, drop_end, is_control, is_space_or_dot, push_char, skip_end, string_of, string_of_range,
    to_ascii_uppercase, to_chars, trim, trim_end_space_dot, trim_seq, TrimSet, prefix_before,
};

verus! {

#[verifier::external_type_specification]
#[verifier::external_body]
pub struct ExPathBuf(PathBuf);

#[verifier::external_type_specification]
#[verifier::external_body]
pub struct ExPath(Path);

/// Characters that a Windows file name cannot hold.
pub open spec fn is_invalid_filename_char(c: char) -> bool {
    c == '/' || c == '\\' || c == ':' || c == '*' || c == '?' || c == '"' || c == '<' || c == '>'
        || c == '|'
}

/// The characters of `s` with control characters dropped and the characters
/// that Windows refuses replaced by `replacement` (or dropped when it is
/// `None`).
pub open spec fn filter_filename_chars(s: Seq<char>, replacement: Option<char>) -> Seq<char>
    decreases s.len(),
{
    if s.len() == 0 {
        Seq::empty()
    } else {
        let rest = filter_filename_chars(s.drop_last(), replacement);
        let c = s.last();
        if is_control(c) {
            rest
        } else if is_invalid_filename_char(c) {
            match replacement {
                Some(r) => rest.push(r),
                None => rest,
            }
        } else {
            rest.push(c)
        }
    }
}

/// The empty name, `.` and `..`.
pub open spec fn is_dot_name(s: Seq<char>) -> bool {
    s.len() == 0 || s == seq!['.'] || s == seq!['.', '.']
}

/// The device names that Windows reserves.
pub open spec fn is_reserved_device(u: Seq<char>) -> bool {
    u == "CON"@ || u == "PRN"@ || u == "AUX"@ || u == "NUL"@ || u == "CONIN$"@ || u
        == "CONOUT$"@ || u == "COM1"@ || u == "COM2"@ || u == "COM3"@ || u == "COM4"@ || u
        == "COM5"@ || u == "COM6"@ || u == "COM7"@ || u == "COM8"@ || u == "COM9"@ || u
        == "LPT1"@ || u == "LPT2"@ || u == "LPT3"@ || u == "LPT4"@ || u == "LPT5"@ || u
        == "LPT6"@ || u == "LPT7"@ || u == "LPT8"@ || u == "LPT9"@
}

/// A name whose part before the first `.`, without trailing spaces and in
/// upper case, is a reserved device name.
pub open spec fn is_windows_reserved(value: Seq<char>) -> bool {
    is_reserved_device(ascii_upper_seq(drop_end(prefix_before(value, '.'), TrimSet::SpaceOrDot)))
}

pub open spec fn min_len(n: int, m: int) -> int {
    if n <= m {
        n
    } else {
        m
    }
}

/// A file name component made from `value`: invalid characters handled,
/// trailing spaces and dots removed, reserved names prefixed with `_`,
/// shortened to `limit` characters, and `fallback` when nothing usable is
/// left.
pub open spec fn sanitized_component(
    value: Seq<char>,
    limit: Option<usize>,
    replacement: Option<char>,
    fallback: Seq<char>,
) -> Seq<char> {
    let c1 = drop_end(filter_filename_chars(value, replacement), TrimSet::SpaceOrDot);
    let c2 = if is_dot_name(c1) {
        fallback
    } else {
        c1
    };
    let c3 = if is_windows_reserved(c2) {
        seq!['_'] + c2
    } else {
        c2
    };
    let c4 = match limit {
        Some(l) => drop_end(c3.take(min_len(l as int, c3.len() as int)), TrimSet::SpaceOrDot),
        None => c3,
    };
    if is_dot_name(c4) {
        fallback
    } else {
        c4
    }
}

/// A character that a path component may safely hold.
pub open spec fn is_safe_component_char(c: char) -> bool {
    !is_control(c) && !is_invalid_filename_char(c)
}

pub open spec fn all_safe(s: Seq<char>) -> bool {
    forall|i: int| 0 <= i < s.len() ==> is_safe_component_char(#[trigger] s[i])
}

proof fn lemma_filter_safe(s: Seq<char>)
    ensures
        all_safe(filter_filename_chars(s, Some('_'))),
    decreases s.len(),
{
    if s.len() > 0 {
        lemma_filter_safe(s.drop_last());
    }
}

proof fn lemma_drop_end_shape(s: Seq<char>, set: TrimSet)
    ensures
        drop_end(s, set).len() <= s.len(),
        drop_end(s, set) == s.take(drop_end(s, set).len() as int),
        drop_end(s, set).len() > 0 ==> !set.holds(drop_end(s, set).last()),
    decreases s.len(),
{
    if s.len() > 0 && set.holds(s.last()) {
        lemma_drop_end_shape(s.drop_last(), set);
        assert(s.drop_last().take(drop_end(s, set).len() as int) =~= s.take(
            drop_end(s, set).len() as int,
        ));
    } else {
        assert(s.take(s.len() as int) =~= s);
    }
}

/// A component that `sanitize_path_component` makes is never empty, `.` or
/// `..`, holds no path separator, no other character that Windows refuses and
/// no control character, and does not end with a space or a dot: it names
/// exactly one entry inside the directory it is joined to.
pub proof fn lemma_sanitized_path_component_is_one_safe_entry(value: Seq<char>)
    ensures
        ({
            let r = sanitized_component(value, None, Some('_'), "_"@);
            &&& r.len() > 0
            &&& !is_dot_name(r)
            &&& all_safe(r)
            &&& !is_space_or_dot(r.last())
        }),
{
    reveal_strlit("_");
    let fallback = "_"@;
    assert(fallback =~= seq!['_']);
    let f = filter_filename_chars(value, Some('_'));
    lemma_filter_safe(value);
    let c1 = drop_end(f, TrimSet::SpaceOrDot);
    lemma_drop_end_shape(f, TrimSet::SpaceOrDot);
    assert(all_safe(c1));
    let c2 = if is_dot_name(c1) {
        fallback
    } else {
        c1
    };
    assert(all_safe(c2));
    assert(c2.len() > 0 && !is_space_or_dot(c2.last()));
    let c3 = if is_windows_reserved(c2) {
        seq!['_'] + c2
    } else {
        c2
    };
    assert(all_safe(c3));
    assert(c3.len() > 0 && !is_space_or_dot(c3.last()));
    if is_dot_name(c3) {
        assert(c3.len() == 1 || c3.len() == 2);
    }
}

/// The two-character bucket of a file title: its first two characters
/// (skipping a leading `n`, as in ncodes), trimmed.
pub open spec fn subdirectory_name(title: Seq<char>) -> Seq<char> {
    let base = if title.len() > 0 && title[0] == 'n' {
        title.drop_first()
    } else {
        title
    };
    trim_seq(base.take(min_len(2, base.len() as int)))
}

/// The components under the archive root of a novel's directory.
pub open spec fn novel_dir_parts(sitename: Seq<char>, file_title: Seq<char>, use_subdirectory: bool) -> Seq<
    Seq<char>,
> {
    let site = sanitized_component(sitename, None, Some('_'), "_"@);
    let title = sanitized_component(file_title, None, Some('_'), "_"@);
    let sub = sanitized_component(subdirectory_name(title), None, Some('_'), "_"@);
    if use_subdirectory && sub.len() > 0 {
        seq![site, sub, title]
    } else {
        seq![site, title]
    }
}

pub fn is_control_char(c: char) -> (b: bool)
    ensures
        b == is_control(c),
{
    let n = c as u32;
    n <= 0x1f || (0x7f <= n && n <= 0x9f)
}

pub fn is_invalid_filename_character(c: char) -> (b: bool)
    ensures
        b == is_invalid_filename_char(c),
{
    c == '/' || c == '\\' || c == ':' || c == '*' || c == '?' || c == '"' || c == '<' || c == '>'
        || c == '|'
}

fn dot_name(v: &Vec<char>) -> (b: bool)
    ensures
        b == is_dot_name(v@),
{
    if v.len() == 0 {
        return true;
    }
    if v.len() == 1 {
        let b = v[0] == '.';
        assert(b ==> v@ =~= seq!['.']);
        return b;
    }
    if v.len() == 2 {
        let b = v[0] == '.' && v[1] == '.';
        assert(b ==> v@ =~= seq!['.', '.']);
        return b;
    }
    false
}

/// The part of `v` before its first `c`.
fn chars_before(v: &Vec<char>, c: char) -> (r: Vec<char>)
    ensures
        r@ == prefix_before(v@, c),
{
    let mut k: usize = 0;
    assert(v@.skip(0) =~= v@);
    assert(v@.take(0) + prefix_before(v@, c) =~= prefix_before(v@, c));
    while k < v.len() && v[k] != c
        invariant
            k <= v@.len(),
            prefix_before(v@, c) == v@.take(k as int) + prefix_before(v@.skip(k as int), c),
        decreases v@.len() - k,
    {
        assert(v@.skip(k as int).drop_first() =~= v@.skip(k + 1));
        assert(v@.take(k as int) + seq![v@[k as int]] =~= v@.take(k + 1));
        assert(v@.take(k as int) + (seq![v@[k as int]] + prefix_before(v@.skip(k + 1), c)) =~= (
        v@.take(k as int) + seq![v@[k as int]]) + prefix_before(v@.skip(k + 1), c));
        k = k + 1;
    }
    let mut r: Vec<char> = Vec::new();
    let mut i: usize = 0;
    while i < k
        invariant
            k <= v@.len(),
            i <= k,
            r@ == v@.take(i as int),
        decreases k - i,
    {
        r.push(v[i]);
        i = i + 1;
        assert(r@ =~= v@.take(i as int));
    }
    assert(v@.take(k as int) + Seq::<char>::empty() =~= v@.take(k as int));
    r
}

fn is_reserved_device_name(u: &str) -> (b: bool)
    ensures
        b == is_reserved_device(u@),
{
    chars_eq(u, "CON") || chars_eq(u, "PRN") || chars_eq(u, "AUX") || chars_eq(u, "NUL")
        || chars_eq(u, "CONIN$") || chars_eq(u, "CONOUT$") || chars_eq(u, "COM1") || chars_eq(
        u,
        "COM2",
    ) || chars_eq(u, "COM3") || chars_eq(u, "COM4") || chars_eq(u, "COM5") || chars_eq(u, "COM6")
        || chars_eq(u, "COM7") || chars_eq(u, "COM8") || chars_eq(u, "COM9") || chars_eq(
        u,
        "LPT1",
    ) || chars_eq(u, "LPT2") || chars_eq(u, "LPT3") || chars_eq(u, "LPT4") || chars_eq(u, "LPT5")
        || chars_eq(u, "LPT6") || chars_eq(u, "LPT7") || chars_eq(u, "LPT8") || chars_eq(u, "LPT9")
}

/// Whether Windows reserves `value` as a device name (`CON`, `aux.txt`,
/// `COM1 .log`, ...).
pub fn is_windows_reserved_name(value: &str) -> (b: bool)
    ensures
        b == is_windows_reserved(value@),
{
    let v = to_chars(value);
    let stem = chars_before(&v, '.');
    let stem_str = string_of(&stem);
    let trimmed = trim_end_space_dot(stem_str.as_str());
    let upper = to_ascii_uppercase(trimmed.as_str());
    is_reserved_device_name(upper.as_str())
}

fn filter_chars(v: &Vec<char>, replacement: Option<char>) -> (r: Vec<char>)
    ensures
        r@ == filter_filename_chars(v@, replacement),
{
    let mut r: Vec<char> = Vec::new();
    let mut i: usize = 0;
    while i < v.len()
        invariant
            i <= v@.len(),
            r@ == filter_filename_chars(v@.take(i as int), replacement),
        decreases v@.len() - i,
    {
        let c = v[i];
        assert(v@.take(i + 1).drop_last() =~= v@.take(i as int));
        if is_control_char(c) {
        } else if is_invalid_filename_character(c) {
            match replacement {
                Some(ch) => r.push(ch),
                None => {},
            }
        } else {
            r.push(c);
        }
        i = i + 1;
    }
    assert(v@.take(v@.len() as int) =~= v@);
    r
}

/// A file name component made from `value` that Windows accepts; see
/// `sanitized_component`.
pub fn sanitize_windows_filename_component_with_limit(
    value: &str,
    limit: Option<usize>,
    invalid_replacement: Option<char>,
    fallback: &str,
) -> (r: String)
    ensures
        r@ == sanitized_component(value@, limit, invalid_replacement, fallback@),
{
    let v = to_chars(value);
    let filtered = filter_chars(&v, invalid_replacement);
    let end = skip_end(&filtered, 0, filtered.len(), TrimSet::SpaceOrDot);
    assert(filtered@.subrange(0, filtered@.len() as int) =~= filtered@);
    let c1 = string_of_range(&filtered, 0, end);
    let c1v = to_chars(c1.as_str());
    let mut candidate: String = if dot_name(&c1v) {
        fallback.to_owned()
    } else {
        c1
    };
    if is_windows_reserved_name(candidate.as_str()) {
        let mut prefixed = String::new();
        push_char(&mut prefixed, '_');
        prefixed.append(candidate.as_str());
        candidate = prefixed;
    }
    match limit {
        Some(l) => {
            let cv = to_chars(candidate.as_str());
            let n = if l <= cv.len() {
                l
            } else {
                cv.len()
            };
            let hi = skip_end(&cv, 0, n, TrimSet::SpaceOrDot);
            assert(cv@.subrange(0, n as int) =~= cv@.take(n as int));
            candidate = string_of_range(&cv, 0, hi);
        },
        None => {},
    }
    let fv = to_chars(candidate.as_str());
    if dot_name(&fv) {
        fallback.to_owned()
    } else {
        candidate
    }
}

/// `sanitize_windows_filename_component_with_limit` with `_` for invalid
/// characters and as the fallback.
pub fn sanitize_path_component(value: &str) -> (r: String)
    ensures
        r@ == sanitized_component(value@, None, Some('_'), "_"@),
{
    sanitize_windows_filename_component_with_limit(value, None, Some('_'), "_")
}

/// The first two characters of a file title (after a leading `n`), trimmed:
/// the bucket directory narou.rb uses.
pub fn create_subdirectory_name(file_title: &str) -> (r: String)
    ensures
        r@ == subdirectory_name(file_title@),
{
    let v = to_chars(file_title);
    let start: usize = if v.len() > 0 && v[0] == 'n' {
        1
    } else {
        0
    };
    let end: usize = if v.len() - start <= 2 {
        v.len()
    } else {
        start + 2
    };
    let ghost base = if v@.len() > 0 && v@[0] == 'n' {
        v@.drop_first()
    } else {
        v@
    };
    assert(v@.subrange(start as int, end as int) =~= base.take(min_len(2, base.len() as int)));
    let head = string_of_range(&v, start, end);
    trim(head.as_str())
}

/// The directory components of a novel below the archive root.
pub fn novel_dir_components(sitename: &str, file_title: &str, use_subdirectory: bool) -> (r: Vec<
    String,
>)
    ensures
        r@.map_values(|p: String| p@) == novel_dir_parts(sitename@, file_title@, use_subdirectory),
{
    let safe_sitename = sanitize_path_component(sitename);
    let safe_file_title = sanitize_path_component(file_title);
    let mut parts: Vec<String> = Vec::new();
    parts.push(safe_sitename);
    if use_subdirectory {
        let sub = create_subdirectory_name(safe_file_title.as_str());
        let subdirectory = sanitize_path_component(sub.as_str());
        if subdirectory.unicode_len() > 0 {
            parts.push(subdirectory);
        }
    }
    parts.push(safe_file_title);
    assert(parts@.map_values(|p: String| p@) =~= novel_dir_parts(
        sitename@,
        file_title@,
        use_subdirectory,
    ));
    parts
}

/// A copy of `path`: `Path::to_path_buf`.
#[verifier::external_body]
pub fn path_to_buf(path: &Path) -> PathBuf {
    path.to_path_buf()
}

/// Appends one component to `path`: `PathBuf::push`.
#[verifier::external_body]
pub fn path_push(path: &mut PathBuf, component: &str) {
    path.push(component);
}

/// The directory of a novel: `archive_root` joined with the components of
/// `novel_dir_components`.
pub fn novel_dir_from_components(
    archive_root: &Path,
    sitename: &str,
    file_title: &str,
    use_subdirectory: bool,
) -> PathBuf {
    let parts = novel_dir_components(sitename, file_title, use_subdirectory);
    let mut dir = path_to_buf(archive_root);
    let mut i: usize = 0;
    while i < parts.len()
        invariant
            i <= parts@.len(),
        decreases parts@.len() - i,
    {
        path_push(&mut dir, parts[i].as_str());
        i = i + 1;
    }
    dir
}

/// A component of a path, as `std::path::Component` tells them apart.
#[derive(Debug)]
pub enum PathPart {
    Prefix(String),
    RootDir,
    CurDir,
    ParentDir,
    Normal(String),
}

/// A path component with its text as a character sequence.
pub enum PartView {
    Prefix(Seq<char>),
    RootDir,
    CurDir,
    ParentDir,
    Normal(Seq<char>),
}

impl View for PathPart {
    type V = PartView;

    open spec fn view(&self) -> PartView {
        match self {
            PathPart::Prefix(s) => PartView::Prefix(s@),
            PathPart::RootDir => PartView::RootDir,
            PathPart::CurDir => PartView::CurDir,
            PathPart::ParentDir => PartView::ParentDir,
            PathPart::Normal(s) => PartView::Normal(s@),
        }
    }
}

pub open spec fn parts_view(parts: Seq<PathPart>) -> Seq<PartView> {
    parts.map_values(|p: PathPart| p@)
}

/// The lexical normal form of a path: `.` dropped and each `..` removing the
/// normal component before it (a `..` at the root stays at the root).
pub open spec fn normalized_parts(parts: Seq<PartView>) -> Seq<PartView>
    decreases parts.len(),
{
    if parts.len() == 0 {
        Seq::empty()
    } else {
        let rest = normalized_parts(parts.drop_last());
        match parts.last() {
            PartView::CurDir => rest,
            PartView::ParentDir => if rest.len() > 0 && rest.last() is Normal {
                rest.drop_last()
            } else {
                rest
            },
            other => rest.push(other),
        }
    }
}

/// Whether `prefix` is a leading run of the components of `path`:
/// `Path::starts_with`.
pub open spec fn parts_start_with(path: Seq<PartView>, prefix: Seq<PartView>) -> bool {
    prefix.len() <= path.len() && path.subrange(0, prefix.len() as int) == prefix
}

/// A copy of one path component.
pub fn copy_part(p: &PathPart) -> (r: PathPart)
    ensures
        r@ == p@,
{
    match p {
        PathPart::Prefix(s) => PathPart::Prefix(s.clone()),
        PathPart::RootDir => PathPart::RootDir,
        PathPart::CurDir => PathPart::CurDir,
        PathPart::ParentDir => PathPart::ParentDir,
        PathPart::Normal(s) => PathPart::Normal(s.clone()),
    }
}

/// Whether two path components are the same.
pub fn same_part(a: &PathPart, b: &PathPart) -> (r: bool)
    ensures
        r == (a@ == b@),
{
    match (a, b) {
        (PathPart::Prefix(x), PathPart::Prefix(y)) => {
            chars_eq(x.as_str(), y.as_str())
        },
        (PathPart::RootDir, PathPart::RootDir) => true,
        (PathPart::CurDir, PathPart::CurDir) => true,
        (PathPart::ParentDir, PathPart::ParentDir) => true,
        (PathPart::Normal(x), PathPart::Normal(y)) => {
            chars_eq(x.as_str(), y.as_str())
        },
        _ => false,
    }
}

/// The lexical normal form of `parts` (see `normalized_parts`).
pub fn normalize_path(parts: &Vec<PathPart>) -> (r: Vec<PathPart>)
    ensures
        parts_view(r@) == normalized_parts(parts_view(parts@)),
{
    let mut r: Vec<PathPart> = Vec::new();
    let mut i: usize = 0;
    while i < parts.len()
        invariant
            i <= parts@.len(),
            parts_view(r@) == normalized_parts(parts_view(parts@.take(i as int))),
        decreases parts@.len() - i,
    {
        assert(parts_view(parts@.take(i + 1)).drop_last() =~= parts_view(parts@.take(i as int)));
        let ghost before = parts_view(r@);
        match &parts[i] {
            PathPart::CurDir => {},
            PathPart::ParentDir => {
                let pop = r.len() > 0 && match &r[r.len() - 1] {
                    PathPart::Normal(_) => true,
                    _ => false,
                };
                if pop {
                    r.pop();
                    assert(parts_view(r@) =~= before.drop_last());
                }
            },
            other => {
                r.push(copy_part(other));
                assert(parts_view(r@) =~= before.push(other@));
            },
        }
        i = i + 1;
    }
    assert(parts@.take(parts@.len() as int) =~= parts@);
    r
}

/// Whether `path` starts with the components of `prefix`.
pub fn path_parts_start_with(path: &Vec<PathPart>, prefix: &Vec<PathPart>) -> (b: bool)
    ensures
        b == parts_start_with(parts_view(path@), parts_view(prefix@)),
{
    if prefix.len() > path.len() {
        return false;
    }
    let mut i: usize = 0;
    while i < prefix.len()
        invariant
            prefix@.len() <= path@.len(),
            i <= prefix@.len(),
            forall|j: int| 0 <= j < i ==> path@[j]@ == prefix@[j]@,
        decreases prefix@.len() - i,
    {
        if !same_part(&path[i], &prefix[i]) {
            assert(parts_view(path@).subrange(0, prefix@.len() as int)[i as int] != parts_view(prefix@)[i as int]);
            return false;
        }
        i = i + 1;
    }
    assert(parts_view(path@).subrange(0, prefix@.len() as int) =~= parts_view(prefix@));
    true
}

} // verus!
