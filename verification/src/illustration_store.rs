//! Where downloaded illustrations are kept: the rules that name their files,
//! and the tables that remember which source, hash and mitemin id each file
//! came from.
use std::path::{Path, PathBuf};
use vstd::prelude::*;
use vstd::string::*;

use crate::db::paths::{path_push, path_to_buf, sanitized_component};
use crate::downloader::util::sanitize_filename;
use crate::hashing::{hex_text, sha256, sha256_hex};
use crate::keyed::{pairs_map, TextMap};
use crate::regex_match::{regex_group1_all, regex_group1_matches};
use crate::text::{
    lemma_text_le_total, lemma_text_le_transitive, text_le, text_le_exec,
    drop_start, is_white_space, skip_start, string_of_range, TrimSet,
    after_last_char, ascii_lower, ascii_lower_seq, before_char, before_last_char, chars_eq,
    contains, ends_with, is_prefix, is_suffix, occurs_at, prefix_before, push_char, replace,
    replace_seq, rsplit_once_char, starts_with, string_views, to_ascii_lowercase, to_chars, trim,
    trim_seq,
};

verus! {

/// File name of the illustration table inside an archive directory.
pub const CACHE_FILE_NAME: &'static str = ".illustration_cache.yaml";

/// Table version written before files were named by mitemin id.
pub const LEGACY_STORE_VERSION: u32 = 1;

/// Current table version.
pub const STORE_VERSION: u32 = 2;

/// A protocol-relative `//` source with `https:` in front.
pub open spec fn with_scheme(s: Seq<char>) -> Seq<char> {
    if is_prefix("//"@, s) {
        "https:"@ + s
    } else {
        s
    }
}

/// The URL an illustration source stands for: a protocol-relative `//`
/// source gets `https:`, and a mitemin URL asks for the plain view rather
/// than the big one.
pub open spec fn normalized_illustration_url(s: Seq<char>) -> Seq<char> {
    let prefixed = with_scheme(s);
    if exists|i: int| occurs_at(prefixed, ".mitemin.net"@, i) {
        replace_seq(prefixed, "viewimagebig"@, "viewimage"@)
    } else {
        prefixed
    }
}

/// Normalizes an illustration source URL.
pub fn normalize_illustration_url(source: &str) -> (r: String)
    ensures
        r@ == normalized_illustration_url(source@),
{
    let prefixed = if starts_with(source, "//") {
        let mut p = "https:".to_owned();
        p.append(source);
        p
    } else {
        source.to_owned()
    };
    if contains(prefixed.as_str(), ".mitemin.net") {
        proof {
            reveal_strlit("viewimagebig");
        }
        replace(prefixed.as_str(), "viewimagebig", "viewimage")
    } else {
        prefixed
    }
}

/// Whether a source is fetched over the network (`http://`, `https://` or
/// protocol-relative `//`).
pub fn is_remote_illustration_source(source: &str) -> (b: bool)
    ensures
        b == (is_prefix("http://"@, source@) || is_prefix("https://"@, source@) || is_prefix(
            "//"@,
            source@,
        )),
{
    starts_with(source, "http://") || starts_with(source, "https://") || starts_with(source, "//")
}

/// The file extension of an image media type, parameters ignored.
pub open spec fn content_type_extension(content_type: Seq<char>) -> Option<Seq<char>> {
    let t = ascii_lower_seq(trim_seq(prefix_before(content_type, ';')));
    if t == "image/jpeg"@ || t == "image/jpg"@ {
        Some("jpg"@)
    } else if t == "image/png"@ {
        Some("png"@)
    } else if t == "image/gif"@ {
        Some("gif"@)
    } else if t == "image/bmp"@ {
        Some("bmp"@)
    } else if t == "image/webp"@ {
        Some("webp"@)
    } else {
        None
    }
}

/// The texts of an optional string.
pub open spec fn opt_text(o: Option<&str>) -> Option<Seq<char>> {
    match o {
        Some(s) => Some(s@),
        None => None,
    }
}

/// The file extension for a `Content-Type` header value.
pub fn illustration_extension_from_content_type(content_type: &str) -> (r: Option<&'static str>)
    ensures
        opt_text(r) == content_type_extension(content_type@),
{
    let first = before_char(content_type, ';');
    let trimmed = trim(first.as_str());
    let t = to_ascii_lowercase(trimmed.as_str());
    if chars_eq(t.as_str(), "image/jpeg") || chars_eq(t.as_str(), "image/jpg") {
        Some("jpg")
    } else if chars_eq(t.as_str(), "image/png") {
        Some("png")
    } else if chars_eq(t.as_str(), "image/gif") {
        Some("gif")
    } else if chars_eq(t.as_str(), "image/bmp") {
        Some("bmp")
    } else if chars_eq(t.as_str(), "image/webp") {
        Some("webp")
    } else {
        None
    }
}

/// The image extension that the last `.`-part of a URL path segment names.
pub open spec fn segment_extension(segment: Seq<char>) -> Option<Seq<char>> {
    match after_last_char(segment, '.') {
        None => None,
        Some(ext) => {
            let e = ascii_lower_seq(ext);
            if e == "jpg"@ || e == "jpeg"@ {
                Some("jpg"@)
            } else if e == "png"@ {
                Some("png"@)
            } else if e == "gif"@ {
                Some("gif"@)
            } else if e == "webp"@ {
                Some("webp"@)
            } else if e == "bmp"@ {
                Some("bmp"@)
            } else {
                None
            }
        },
    }
}

/// The image extension of a URL path segment.
pub fn extension_from_path_segment(segment: &str) -> (r: Option<&'static str>)
    ensures
        opt_text(r) == segment_extension(segment@),
{
    let ext = match rsplit_once_char(segment, '.') {
        Some((_, ext)) => ext,
        None => {
            return None;
        },
    };
    let e = to_ascii_lowercase(ext.as_str());
    if chars_eq(e.as_str(), "jpg") || chars_eq(e.as_str(), "jpeg") {
        Some("jpg")
    } else if chars_eq(e.as_str(), "png") {
        Some("png")
    } else if chars_eq(e.as_str(), "gif") {
        Some("gif")
    } else if chars_eq(e.as_str(), "webp") {
        Some("webp")
    } else if chars_eq(e.as_str(), "bmp") {
        Some("bmp")
    } else {
        None
    }
}

/// A mitemin illustration id: `i` followed by one or more ASCII digits.
pub open spec fn is_mitemin_id_text(s: Seq<char>) -> bool {
    &&& s.len() >= 2
    &&& s[0] == 'i'
    &&& forall|j: int| 1 <= j < s.len() ==> '0' <= #[trigger] s[j] && s[j] <= '9'
}

/// Whether a URL path segment is a mitemin illustration id.
pub fn is_mitemin_id(segment: &str) -> (b: bool)
    ensures
        b == is_mitemin_id_text(segment@),
{
    let v = to_chars(segment);
    if v.len() < 2 || v[0] != 'i' {
        return false;
    }
    let mut j: usize = 1;
    while j < v.len()
        invariant
            v@ == segment@,
            1 <= j <= v@.len(),
            forall|k: int| 1 <= k < j ==> '0' <= #[trigger] v@[k] && v@[k] <= '9',
        decreases v@.len() - j,
    {
        if !('0' <= v[j] && v[j] <= '9') {
            return false;
        }
        j = j + 1;
    }
    true
}

/// The ASCII letters and digits of `s`.
pub open spec fn ascii_alnum_only(s: Seq<char>) -> Seq<char>
    decreases s.len(),
{
    if s.len() == 0 {
        Seq::empty()
    } else {
        let rest = ascii_alnum_only(s.drop_last());
        let c = s.last();
        if ('0' <= c && c <= '9') || ('a' <= c && c <= 'z') || ('A' <= c && c <= 'Z') {
            rest.push(c)
        } else {
            rest
        }
    }
}

/// A file extension kept to lower-case ASCII letters and digits, `bin` when
/// nothing is left.
pub open spec fn normalized_extension(ext: Seq<char>) -> Seq<char> {
    let t = ascii_lower_seq(ascii_alnum_only(ext));
    if t.len() == 0 {
        "bin"@
    } else {
        t
    }
}

/// Normalizes a file extension.
pub fn normalize_extension(ext: &str) -> (r: String)
    ensures
        r@ == normalized_extension(ext@),
{
    let v = to_chars(ext);
    let mut kept = String::new();
    let mut i: usize = 0;
    while i < v.len()
        invariant
            v@ == ext@,
            i <= v@.len(),
            kept@ == ascii_lower_seq(ascii_alnum_only(v@.subrange(0, i as int))),
        decreases v@.len() - i,
    {
        let c = v[i];
        assert(v@.subrange(0, i + 1).drop_last() =~= v@.subrange(0, i as int));
        if ('0' <= c && c <= '9') || ('a' <= c && c <= 'z') || ('A' <= c && c <= 'Z') {
            let lower = if 'A' <= c && c <= 'Z' {
                (((c as u32) + 32) as u8) as char
            } else {
                c
            };
            let ghost before = kept@;
            push_char(&mut kept, lower);
            assert(kept@ =~= ascii_lower_seq(
                ascii_alnum_only(v@.subrange(0, i as int)).push(c),
            ));
        }
        i = i + 1;
    }
    assert(v@.subrange(0, v@.len() as int) =~= v@);
    if kept.as_str().unicode_len() == 0 {
        proof {
            reveal_strlit("bin");
        }
        "bin".to_owned()
    } else {
        kept
    }
}

/// The file name an illustration is saved under: `basename.ext`, the
/// extension normalized.
pub fn saved_filename(basename: &str, ext: &str) -> (r: String)
    ensures
        r@ == basename@.push('.') + normalized_extension(ext@),
{
    let mut name = basename.to_owned();
    push_char(&mut name, '.');
    let e = normalize_extension(ext);
    name.append(e.as_str());
    name
}

/// The table version of a file that names none.
pub fn default_store_version() -> (r: u32)
    ensures
        r == STORE_VERSION,
{
    STORE_VERSION
}

/// A name that can only stand for one entry of its directory: not empty,
/// with no path separator or drive colon.
pub open spec fn is_plain_filename(s: Seq<char>) -> bool {
    s.len() > 0 && !s.contains('/') && !s.contains('\\') && !s.contains(':')
}

/// Whether a stored file name is plain (the part of the saved-file check
/// that needs no file system).
pub fn is_plain_saved_filename(filename: &str) -> (b: bool)
    ensures
        b == (filename@.len() > 0 && !filename@.contains('/') && !filename@.contains('\\')),
{
    let v = to_chars(filename);
    if v.len() == 0 {
        return false;
    }
    let mut i: usize = 0;
    while i < v.len()
        invariant
            v@ == filename@,
            i <= v@.len(),
            forall|j: int| 0 <= j < i ==> v@[j] != '/' && v@[j] != '\\',
        decreases v@.len() - i,
    {
        if v[i] == '/' || v[i] == '\\' {
            return false;
        }
        i = i + 1;
    }
    true
}

/// The path of the illustration table of an archive directory.
pub fn cache_path(archive_path: &Path) -> PathBuf {
    let mut path = path_to_buf(archive_path);
    path_push(&mut path, CACHE_FILE_NAME);
    path
}

/// The hexadecimal SHA-256 of an illustration's bytes.
pub fn hash_bytes(bytes: &[u8]) -> (r: String)
    ensures
        r@ == hex_text(sha256(bytes@)),
{
    sha256_hex(bytes)
}

/// The texts of an optional `String`.
pub open spec fn opt_string_text(o: Option<String>) -> Option<Seq<char>> {
    match o {
        Some(s) => Some(s@),
        None => None,
    }
}

/// Where an illustration was stored: its file name, its content hash, and
/// whether the file was written just now.
#[derive(Debug, PartialEq, Eq)]
pub struct StoredIllustration {
    pub filename: String,
    pub hash: String,
    pub created: bool,
}

/// A URL as the illustration rules read it: its host and its path segments.
pub struct UrlParts {
    pub host: Option<String>,
    pub segments: Option<Vec<String>>,
}

/// The texts of a URL's host and path segments.
pub open spec fn url_parts_text(p: UrlParts) -> (Option<Seq<char>>, Option<Seq<Seq<char>>>) {
    (
        opt_string_text(p.host),
        match p.segments {
            Some(v) => Some(string_views(v@)),
            None => None,
        },
    )
}

pub open spec fn opt_url_parts_text(o: Option<UrlParts>) -> Option<
    (Option<Seq<char>>, Option<Seq<Seq<char>>>),
> {
    match o {
        Some(p) => Some(url_parts_text(p)),
        None => None,
    }
}

/// What `url::Url::parse` reads from `text`, seen through the host it names
/// (`host_str`) and its path segments (`path_segments`); `None` where the
/// text is not a URL.
pub uninterp spec fn parsed_url(text: Seq<char>) -> Option<
    (Option<Seq<char>>, Option<Seq<Seq<char>>>),
>;

/// Parses `text` as a URL: `url::Url::parse`, then `host_str` and
/// `path_segments` of the result.
#[verifier::external_body]
pub(crate) fn parse_url(text: &str) -> (r: Option<UrlParts>)
    ensures
        opt_url_parts_text(r) == parsed_url(text@),
{
    match url::Url::parse(text) {
        Ok(u) => Some(
            UrlParts {
                host: u.host_str().map(str::to_string),
                segments: u.path_segments().map(|s| s.map(str::to_string).collect()),
            },
        ),
        Err(_) => None,
    }
}

/// The first mitemin id among path segments.
pub open spec fn first_mitemin_id(segs: Seq<Seq<char>>) -> Option<Seq<char>>
    decreases segs.len(),
{
    if segs.len() == 0 {
        None
    } else if is_mitemin_id_text(segs[0]) {
        Some(segs[0])
    } else {
        first_mitemin_id(segs.drop_first())
    }
}

/// The mitemin illustration id of a URL: a host under `.mitemin.net` and
/// its first path segment that is an id.
pub open spec fn mitemin_id_in(parts: Option<(Option<Seq<char>>, Option<Seq<Seq<char>>>)>) -> Option<
    Seq<char>,
> {
    match parts {
        Some((Some(host), Some(segs))) => if is_suffix(".mitemin.net"@, host) {
            first_mitemin_id(segs)
        } else {
            None
        },
        _ => None,
    }
}

/// The mitemin illustration id of a parsed URL.
#[verifier::loop_isolation(false)]
pub fn mitemin_id_from_url(parts: &Option<UrlParts>) -> (r: Option<String>)
    ensures
        opt_string_text(r) == mitemin_id_in(opt_url_parts_text(*parts)),
{
    let (host, segments) = match parts {
        Some(UrlParts { host: Some(h), segments: Some(s) }) => (h, s),
        _ => {
            return None;
        },
    };
    if !ends_with(host.as_str(), ".mitemin.net") {
        return None;
    }
    let ghost segs = string_views(segments@);
    assert(opt_url_parts_text(*parts) == Some((Some(host@), Some(segs))));
    assert(segs.skip(0) =~= segs);
    let mut i: usize = 0;
    while i < segments.len()
        invariant
            i <= segments@.len(),
            segs == string_views(segments@),
            first_mitemin_id(segs) == first_mitemin_id(segs.skip(i as int)),
        decreases segments@.len() - i,
    {
        assert(segs.skip(i as int).drop_first() =~= segs.skip(i + 1));
        assert(segs.skip(i as int)[0] == segments@[i as int]@);
        if is_mitemin_id(segments[i].as_str()) {
            let found = segments[i].clone();
            assert(segs.skip(i as int).len() > 0);
            assert(is_mitemin_id_text(segs.skip(i as int)[0]));
            assert(first_mitemin_id(segs.skip(i as int)) == Some(segments@[i as int]@));

            return Some(found);
        }
        i = i + 1;
    }
    None
}

/// The mitemin illustration id of an illustration source.
pub fn mitemin_illustration_id(source: &str) -> (r: Option<String>)
    ensures
        opt_string_text(r) == mitemin_id_in(parsed_url(normalized_illustration_url(source@))),
{
    let normalized = normalize_illustration_url(source);
    let parts = parse_url(normalized.as_str());
    mitemin_id_from_url(&parts)
}

/// The extension guessed from a URL's last path segment, `jpg` by default.
pub open spec fn guessed_extension(parts: Option<(Option<Seq<char>>, Option<Seq<Seq<char>>>)>) -> Seq<
    char,
> {
    match parts {
        Some((_, Some(segs))) => if segs.len() > 0 {
            match segment_extension(segs.last()) {
                Some(e) => e,
                None => "jpg"@,
            }
        } else {
            "jpg"@
        },
        _ => "jpg"@,
    }
}

/// The extension guessed from a parsed URL.
pub fn guessed_extension_from_url_parts(parts: &Option<UrlParts>) -> (r: &'static str)
    ensures
        r@ == guessed_extension(opt_url_parts_text(*parts)),
{
    match parts {
        Some(UrlParts { segments: Some(segments), .. }) => {
            if segments.len() == 0 {
                return "jpg";
            }
            let ghost segs = string_views(segments@);
            assert(segs.last() == segments@[segments@.len() - 1]@);
            match extension_from_path_segment(segments[segments.len() - 1].as_str()) {
                Some(e) => e,
                None => "jpg",
            }
        },
        _ => "jpg",
    }
}

/// The extension guessed from a URL's last path segment, `jpg` when it names
/// none.
pub fn guessed_extension_from_url(url: &str) -> (r: &'static str)
    ensures
        r@ == guessed_extension(parsed_url(url@)),
{
    let parts = parse_url(url);
    guessed_extension_from_url_parts(&parts)
}

/// The last non-empty path segment.
pub open spec fn last_nonempty(segs: Seq<Seq<char>>) -> Option<Seq<char>>
    decreases segs.len(),
{
    if segs.len() == 0 {
        None
    } else if segs.last().len() > 0 {
        Some(segs.last())
    } else {
        last_nonempty(segs.drop_last())
    }
}

/// A segment without its last `.`-extension.
pub open spec fn segment_stem(seg: Seq<char>) -> Seq<char> {
    match before_last_char(seg, '.') {
        Some(b) => b,
        None => seg,
    }
}

/// The name an illustration was saved under before mitemin ids: the
/// mitemin id where there is one, else the sanitized stem of the URL's last
/// non-empty path segment.
pub open spec fn legacy_basename(
    id: Option<Seq<char>>,
    parts: Option<(Option<Seq<char>>, Option<Seq<Seq<char>>>)>,
) -> Option<Seq<char>> {
    match id {
        Some(i) => Some(i),
        None => match parts {
            Some((_, Some(segs))) => match last_nonempty(segs) {
                Some(seg) => {
                    let s = sanitized_component(segment_stem(seg), Some(80), Some('_'), "_"@);
                    if s.len() > 0 {
                        Some(s)
                    } else {
                        None
                    }
                },
                None => None,
            },
            _ => None,
        },
    }
}

/// The legacy base name of an illustration, from its mitemin id (if any) and
/// its parsed URL.
pub fn legacy_basename_from_parts(id: Option<String>, parts: &Option<UrlParts>) -> (r: Option<
    String,
>)
    ensures
        opt_string_text(r) == legacy_basename(opt_string_text(id), opt_url_parts_text(*parts)),
{
    if let Some(i) = id {
        return Some(i);
    }
    let segments = match parts {
        Some(UrlParts { segments: Some(s), .. }) => s,
        _ => {
            return None;
        },
    };
    let ghost segs = string_views(segments@);
    assert(segs.take(segs.len() as int) =~= segs);
    let mut k: usize = segments.len();
    while k > 0 && segments[k - 1].as_str().unicode_len() == 0
        invariant
            k <= segments@.len(),
            segs == string_views(segments@),
            last_nonempty(segs) == last_nonempty(segs.take(k as int)),
        decreases k,
    {
        assert(segs.take(k as int).drop_last() =~= segs.take(k - 1));
        k = k - 1;
    }
    if k == 0 {
        return None;
    }
    let seg = segments[k - 1].as_str();
    assert(segs.take(k as int).last() == seg@);
    let stem = match rsplit_once_char(seg, '.') {
        Some((before, _)) => before,
        None => seg.to_owned(),
    };
    let sanitized = sanitize_filename(stem.as_str());
    if sanitized.as_str().unicode_len() > 0 {
        Some(sanitized)
    } else {
        None
    }
}

/// The legacy base name of an illustration source.
pub fn legacy_basename_from_source(source: &str) -> (r: Option<String>)
    ensures
        opt_string_text(r) == legacy_basename(
            mitemin_id_in(parsed_url(normalized_illustration_url(source@))),
            parsed_url(normalized_illustration_url(source@)),
        ),
{
    let id = mitemin_illustration_id(source);
    let normalized = normalize_illustration_url(source);
    let parts = parse_url(normalized.as_str());
    legacy_basename_from_parts(id, &parts)
}

/// What `Path::file_stem` gives for `path`.
pub uninterp spec fn path_file_stem(path: Seq<char>) -> Option<Seq<char>>;

/// The stem of a plain file name: the part before its last `.`, or the whole
/// name when it has no `.` after its first character.
pub open spec fn plain_name_stem(name: Seq<char>) -> Seq<char> {
    match before_last_char(name, '.') {
        Some(b) => if b.len() > 0 {
            b
        } else {
            name
        },
        None => name,
    }
}

/// The stem of `path`: `Path::file_stem`. For a plain file name (no
/// separator or drive, not `.` or `..`) the documented rule applies: the part
/// before the last `.`, or the whole name when the only `.` is its first
/// character or there is none.
#[verifier::external_body]
fn file_stem_of(path: &str) -> (r: Option<String>)
    ensures
        opt_string_text(r) == path_file_stem(path@),
        is_plain_filename(path@) && path@ != seq!['.'] && path@ != seq!['.', '.'] ==> opt_string_text(
            r,
        ) == Some(plain_name_stem(path@)),
{
    Path::new(path).file_stem().and_then(|stem| stem.to_str()).map(str::to_string)
}

/// Whether the stem of `filename` is `basename`.
pub fn filename_has_basename(filename: &str, basename: &str) -> (b: bool)
    ensures
        b == (path_file_stem(filename@) == Some(basename@)),
{
    match file_stem_of(filename) {
        Some(stem) => chars_eq(stem.as_str(), basename),
        None => false,
    }
}

/// The text before the first white space.
pub open spec fn until_white_space(s: Seq<char>) -> Seq<char>
    decreases s.len(),
{
    if s.len() == 0 || is_white_space(s[0]) {
        Seq::empty()
    } else {
        seq![s[0]] + until_white_space(s.drop_first())
    }
}

/// The section index a raw section file's stem starts with: its first word.
pub open spec fn section_index_text(stem: Seq<char>) -> Option<Seq<char>> {
    let w = until_white_space(drop_start(stem, TrimSet::WhiteSpace));
    if w.len() > 0 {
        Some(w)
    } else {
        None
    }
}

/// The section index of a raw section file, from the file's stem.
pub fn raw_section_index(stem: &str) -> (r: Option<String>)
    ensures
        opt_string_text(r) == section_index_text(stem@),
{
    let v = to_chars(stem);
    let lo = skip_start(&v, 0, v.len(), TrimSet::WhiteSpace);
    assert(v@.subrange(0, v@.len() as int) =~= v@);
    let mut k: usize = lo;
    while k < v.len() && !(crate::text::trim_set_holds(TrimSet::WhiteSpace, v[k]))
        invariant
            v@ == stem@,
            lo <= k <= v@.len(),
            until_white_space(v@.subrange(lo as int, v@.len() as int)) == v@.subrange(
                lo as int,
                k as int,
            ) + until_white_space(v@.subrange(k as int, v@.len() as int)),
        decreases v@.len() - k,
    {
        assert(v@.subrange(k as int, v@.len() as int).drop_first() =~= v@.subrange(
            k + 1,
            v@.len() as int,
        ));
        assert(v@.subrange(lo as int, k + 1) =~= v@.subrange(lo as int, k as int) + seq![v@[k as int]]);
        k = k + 1;
    }
    assert(v@.subrange(lo as int, k as int) + until_white_space(v@.subrange(k as int, v@.len() as int))
        =~= v@.subrange(lo as int, k as int));
    if k > lo {
        Some(string_of_range(&v, lo, k))
    } else {
        None
    }
}

/// A directory entry saved for `basename`: its name starts with
/// `basename.`.
pub open spec fn is_saved_candidate(name: Seq<char>, basename: Seq<char>) -> bool {
    is_prefix(basename.push('.'), name)
}

/// Among directory entry names, the first in `String` order that was saved
/// for `basename`.
pub fn first_saved_filename(names: &Vec<String>, basename: &str) -> (r: Option<String>)
    ensures
        match r {
            Some(n) => {
                &&& is_saved_candidate(n@, basename@)
                &&& exists|i: int| 0 <= i < names@.len() && names@[i]@ == n@
                &&& forall|j: int|
                    0 <= j < names@.len() && is_saved_candidate(#[trigger] names@[j]@, basename@)
                        ==> text_le(n@, names@[j]@)
            },
            None => forall|j: int|
                0 <= j < names@.len() ==> !is_saved_candidate(#[trigger] names@[j]@, basename@),
        },
{
    let mut prefix = basename.to_owned();
    push_char(&mut prefix, '.');
    let mut best: Option<usize> = None;
    let mut i: usize = 0;
    while i < names.len()
        invariant
            i <= names@.len(),
            prefix@ == basename@.push('.'),
            match best {
                Some(b) => {
                    &&& b < i
                    &&& is_saved_candidate(names@[b as int]@, basename@)
                    &&& forall|j: int|
                        0 <= j < i && is_saved_candidate(#[trigger] names@[j]@, basename@) ==> text_le(
                            names@[b as int]@,
                            names@[j]@,
                        )
                },
                None => forall|j: int|
                    0 <= j < i ==> !is_saved_candidate(#[trigger] names@[j]@, basename@),
            },
        decreases names@.len() - i,
    {
        if starts_with(names[i].as_str(), prefix.as_str()) {
            match best {
                Some(b) => {
                    if !text_le_exec(names[b].as_str(), names[i].as_str()) {
                        proof {
                            lemma_text_le_total(names@[b as int]@, names@[i as int]@);
                            assert forall|j: int|
                                0 <= j < i + 1 && is_saved_candidate(
                                    #[trigger] names@[j]@,
                                    basename@,
                                ) implies text_le(names@[i as int]@, names@[j]@) by {
                                if j < i {
                                    lemma_text_le_transitive(
                                        names@[i as int]@,
                                        names@[b as int]@,
                                        names@[j]@,
                                    );
                                } else {
                                    lemma_text_le_total(names@[j]@, names@[j]@);
                                }
                            }
                        }
                        best = Some(i);
                    }
                },
                None => {
                    proof {
                        lemma_text_le_total(names@[i as int]@, names@[i as int]@);
                    }
                    best = Some(i);
                },
            }
        }
        i = i + 1;
    }
    match best {
        Some(b) => Some(names[b].clone()),
        None => None,
    }
}

/// The pattern of an `img` element's `src` attribute.
pub const IMG_SRC_PATTERN: &'static str = "(?is)<img\\b[^>]*\\bsrc=[\"']([^\"']+)[\"']";

/// The normalized `src` values that name a mitemin illustration.
pub open spec fn mitemin_sources(srcs: Seq<Seq<char>>) -> Seq<Seq<char>>
    decreases srcs.len(),
{
    if srcs.len() == 0 {
        Seq::empty()
    } else {
        let rest = mitemin_sources(srcs.drop_last());
        let n = normalized_illustration_url(srcs.last());
        if mitemin_id_in(parsed_url(normalized_illustration_url(n))) is Some {
            rest.push(n)
        } else {
            rest
        }
    }
}

/// The mitemin illustration sources of the `img` elements of a raw section
/// page, normalized, in page order.
pub fn extract_mitemin_img_sources(raw: &str) -> (r: Vec<String>)
    ensures
        match regex_group1_matches(IMG_SRC_PATTERN@, raw@) {
            Some(srcs) => string_views(r@) == mitemin_sources(srcs),
            None => r@.len() == 0,
        },
{
    let srcs = match regex_group1_all(IMG_SRC_PATTERN, raw) {
        Some(v) => v,
        None => {
            return Vec::new();
        },
    };
    let ghost all = string_views(srcs@);
    let mut out: Vec<String> = Vec::new();
    let mut i: usize = 0;
    while i < srcs.len()
        invariant
            i <= srcs@.len(),
            all == string_views(srcs@),
            string_views(out@) == mitemin_sources(all.take(i as int)),
        decreases srcs@.len() - i,
    {
        assert(all.take(i + 1).drop_last() =~= all.take(i as int));
        assert(all.take(i + 1).last() == srcs@[i as int]@);
        let normalized = normalize_illustration_url(srcs[i].as_str());
        let ghost before = string_views(out@);
        if mitemin_illustration_id(normalized.as_str()).is_some() {
            out.push(normalized);
            assert(string_views(out@) =~= before.push(out@.last()@));
        }
        i = i + 1;
    }
    assert(all.take(all.len() as int) =~= all);
    out
}

/// The value of `k` in `m`, if any.
pub open spec fn lookup(m: Map<Seq<char>, Seq<char>>, k: Seq<char>) -> Option<Seq<char>> {
    if m.contains_key(k) {
        Some(m[k])
    } else {
        None
    }
}

/// Whether setting `k` to `v` changes `m`.
pub open spec fn changes(m: Map<Seq<char>, Seq<char>>, k: Seq<char>, v: Seq<char>) -> bool {
    !(m.contains_key(k) && m[k] == v)
}

/// The illustration tables of one archive: the file and hash of each
/// source, the file and hash of each mitemin id, and the file of each
/// content hash; `dirty` until they are written back.
pub struct IllustrationStore {
    version: u32,
    sources: TextMap,
    mitemin_ids: TextMap,
    mitemin_hashes: TextMap,
    source_hashes: TextMap,
    hashes: TextMap,
    dirty: bool,
}

impl Default for IllustrationStore {
    /// Empty tables at the current version.
    fn default() -> (r: Self)
        ensures
            r.table_version() == STORE_VERSION,
            r.source_files() == Map::<Seq<char>, Seq<char>>::empty(),
            r.id_files() == Map::<Seq<char>, Seq<char>>::empty(),
            r.id_hashes() == Map::<Seq<char>, Seq<char>>::empty(),
            r.source_hash_table() == Map::<Seq<char>, Seq<char>>::empty(),
            r.hash_files() == Map::<Seq<char>, Seq<char>>::empty(),
            !r.pending_write(),
    {
        IllustrationStore {
            version: STORE_VERSION,
            sources: TextMap::new(),
            mitemin_ids: TextMap::new(),
            mitemin_hashes: TextMap::new(),
            source_hashes: TextMap::new(),
            hashes: TextMap::new(),
            dirty: false,
        }
    }
}

impl IllustrationStore {
    pub closed spec fn table_version(self) -> u32 {
        self.version
    }

    /// File name by normalized source URL.
    pub closed spec fn source_files(self) -> Map<Seq<char>, Seq<char>> {
        self.sources@
    }

    /// File name by mitemin id.
    pub closed spec fn id_files(self) -> Map<Seq<char>, Seq<char>> {
        self.mitemin_ids@
    }

    /// Content hash by mitemin id.
    pub closed spec fn id_hashes(self) -> Map<Seq<char>, Seq<char>> {
        self.mitemin_hashes@
    }

    /// Content hash by normalized source URL.
    pub closed spec fn source_hash_table(self) -> Map<Seq<char>, Seq<char>> {
        self.source_hashes@
    }

    /// File name by content hash.
    pub closed spec fn hash_files(self) -> Map<Seq<char>, Seq<char>> {
        self.hashes@
    }

    /// Whether the tables changed since they were last written.
    pub closed spec fn pending_write(self) -> bool {
        self.dirty
    }

    /// Empty tables at the legacy version, to be written.
    pub fn legacy_default() -> (r: Self)
        ensures
            r.table_version() == LEGACY_STORE_VERSION,
            r.source_files() == Map::<Seq<char>, Seq<char>>::empty(),
            r.id_files() == Map::<Seq<char>, Seq<char>>::empty(),
            r.id_hashes() == Map::<Seq<char>, Seq<char>>::empty(),
            r.source_hash_table() == Map::<Seq<char>, Seq<char>>::empty(),
            r.hash_files() == Map::<Seq<char>, Seq<char>>::empty(),
            r.pending_write(),
    {
        let mut r = IllustrationStore::default();
        r.version = LEGACY_STORE_VERSION;
        r.dirty = true;
        r
    }

    /// Tables read back from their file: a version of 0 reads as the legacy
    /// version, and nothing is pending.
    pub fn from_tables(
        version: u32,
        sources: &Vec<(String, String)>,
        mitemin_ids: &Vec<(String, String)>,
        mitemin_hashes: &Vec<(String, String)>,
        source_hashes: &Vec<(String, String)>,
        hashes: &Vec<(String, String)>,
    ) -> (r: Self)
        ensures
            r.table_version() == (if version == 0 {
                LEGACY_STORE_VERSION
            } else {
                version
            }),
            r.source_files() == pairs_map(sources@),
            r.id_files() == pairs_map(mitemin_ids@),
            r.id_hashes() == pairs_map(mitemin_hashes@),
            r.source_hash_table() == pairs_map(source_hashes@),
            r.hash_files() == pairs_map(hashes@),
            !r.pending_write(),
    {
        IllustrationStore {
            version: if version == 0 {
                LEGACY_STORE_VERSION
            } else {
                version
            },
            sources: TextMap::from_pairs(sources),
            mitemin_ids: TextMap::from_pairs(mitemin_ids),
            mitemin_hashes: TextMap::from_pairs(mitemin_hashes),
            source_hashes: TextMap::from_pairs(source_hashes),
            hashes: TextMap::from_pairs(hashes),
            dirty: false,
        }
    }

    pub fn version(&self) -> (r: u32)
        ensures
            r == self.table_version(),
    {
        self.version
    }

    pub fn is_dirty(&self) -> (r: bool)
        ensures
            r == self.pending_write(),
    {
        self.dirty
    }

    pub fn sources(&self) -> (r: &TextMap)
        ensures
            r@ == self.source_files(),
    {
        &self.sources
    }

    pub fn mitemin_ids(&self) -> (r: &TextMap)
        ensures
            r@ == self.id_files(),
    {
        &self.mitemin_ids
    }

    pub fn mitemin_hashes(&self) -> (r: &TextMap)
        ensures
            r@ == self.id_hashes(),
    {
        &self.mitemin_hashes
    }

    pub fn source_hashes(&self) -> (r: &TextMap)
        ensures
            r@ == self.source_hash_table(),
    {
        &self.source_hashes
    }

    pub fn hashes(&self) -> (r: &TextMap)
        ensures
            r@ == self.hash_files(),
    {
        &self.hashes
    }

    /// Notes that the tables were written.
    pub fn mark_written(&mut self)
        ensures
            !final(self).pending_write(),
            final(self).table_version() == old(self).table_version(),
            final(self).source_files() == old(self).source_files(),
            final(self).id_files() == old(self).id_files(),
            final(self).id_hashes() == old(self).id_hashes(),
            final(self).source_hash_table() == old(self).source_hash_table(),
            final(self).hash_files() == old(self).hash_files(),
    {
        self.dirty = false;
    }

    /// Whether the tables predate file names by mitemin id.
    pub fn needs_mitemin_migration(&self) -> (r: bool)
        ensures
            r == (self.table_version() < STORE_VERSION),
    {
        self.version < STORE_VERSION
    }

    /// Brings the tables to the current version after a migration, to be
    /// written when that changes the version.
    pub fn finish_mitemin_migration(&mut self)
        ensures
            final(self).table_version() == STORE_VERSION,
            final(self).pending_write() == (old(self).pending_write() || old(self).table_version()
                != STORE_VERSION),
            final(self).source_files() == old(self).source_files(),
            final(self).id_files() == old(self).id_files(),
            final(self).id_hashes() == old(self).id_hashes(),
            final(self).source_hash_table() == old(self).source_hash_table(),
            final(self).hash_files() == old(self).hash_files(),
    {
        if self.version != STORE_VERSION {
            self.version = STORE_VERSION;
            self.dirty = true;
        }
    }

    fn set_text(map: &mut TextMap, key: &str, value: &str) -> (changed: bool)
        ensures
            final(map)@ == old(map)@.insert(key@, value@),
            changed == changes(old(map)@, key@, value@),
    {
        let same = match map.get(key) {
            Some(current) => crate::text::chars_eq(current, value),
            None => false,
        };
        if same {
            assert(map@.insert(key@, value@) =~= map@);
            false
        } else {
            map.insert(key, value);
            true
        }
    }

    fn remember_source(&mut self, source: &str, filename: &str)
        ensures
            final(self).sources@ == old(self).sources@.insert(source@, filename@),
            final(self).dirty == (old(self).dirty || changes(old(self).sources@, source@, filename@)),
            final(self).version == old(self).version,
            final(self).mitemin_ids@ == old(self).mitemin_ids@,
            final(self).mitemin_hashes@ == old(self).mitemin_hashes@,
            final(self).source_hashes@ == old(self).source_hashes@,
            final(self).hashes@ == old(self).hashes@,
    {
        if Self::set_text(&mut self.sources, source, filename) {
            self.dirty = true;
        }
    }

    fn remember_mitemin_id(&mut self, id: &str, filename: &str)
        ensures
            final(self).mitemin_ids@ == old(self).mitemin_ids@.insert(id@, filename@),
            final(self).dirty == (old(self).dirty || changes(old(self).mitemin_ids@, id@, filename@)),
            final(self).version == old(self).version,
            final(self).sources@ == old(self).sources@,
            final(self).mitemin_hashes@ == old(self).mitemin_hashes@,
            final(self).source_hashes@ == old(self).source_hashes@,
            final(self).hashes@ == old(self).hashes@,
    {
        if Self::set_text(&mut self.mitemin_ids, id, filename) {
            self.dirty = true;
        }
    }

    fn remember_mitemin_hash(&mut self, id: &str, hash: &str)
        ensures
            final(self).mitemin_hashes@ == old(self).mitemin_hashes@.insert(id@, hash@),
            final(self).dirty == (old(self).dirty || changes(old(self).mitemin_hashes@, id@, hash@)),
            final(self).version == old(self).version,
            final(self).sources@ == old(self).sources@,
            final(self).mitemin_ids@ == old(self).mitemin_ids@,
            final(self).source_hashes@ == old(self).source_hashes@,
            final(self).hashes@ == old(self).hashes@,
    {
        if Self::set_text(&mut self.mitemin_hashes, id, hash) {
            self.dirty = true;
        }
    }

    fn remember_source_hash(&mut self, source: &str, hash: &str)
        ensures
            final(self).source_hashes@ == old(self).source_hashes@.insert(source@, hash@),
            final(self).dirty == (old(self).dirty || changes(old(self).source_hashes@, source@, hash@)),
            final(self).version == old(self).version,
            final(self).sources@ == old(self).sources@,
            final(self).mitemin_ids@ == old(self).mitemin_ids@,
            final(self).mitemin_hashes@ == old(self).mitemin_hashes@,
            final(self).hashes@ == old(self).hashes@,
    {
        if Self::set_text(&mut self.source_hashes, source, hash) {
            self.dirty = true;
        }
    }

    fn remember_hash(&mut self, hash: &str, filename: &str)
        ensures
            final(self).hashes@ == old(self).hashes@.insert(hash@, filename@),
            final(self).dirty == (old(self).dirty || changes(old(self).hashes@, hash@, filename@)),
            final(self).version == old(self).version,
            final(self).sources@ == old(self).sources@,
            final(self).mitemin_ids@ == old(self).mitemin_ids@,
            final(self).mitemin_hashes@ == old(self).mitemin_hashes@,
            final(self).source_hashes@ == old(self).source_hashes@,
    {
        if Self::set_text(&mut self.hashes, hash, filename) {
            self.dirty = true;
        }
    }

    /// Remembers that `source`, whose content hashes to `hash`, was saved as
    /// `filename` under that hash.
    pub fn remember_hash_source(&mut self, source: &str, hash: &str, filename: &str)
        ensures
            remembers_hash_source(*old(self), *final(self), source@, hash@, filename@),
    {
        self.version = STORE_VERSION;
        let normalized = normalize_illustration_url(source);
        self.remember_source(normalized.as_str(), filename);
        self.remember_source_hash(normalized.as_str(), hash);
        self.remember_hash(hash, filename);
    }

    /// Remembers that `source`, the mitemin illustration `id` whose content
    /// hashes to `hash`, was saved as `filename`.
    pub fn remember_mitemin(&mut self, source: &str, id: &str, hash: &str, filename: &str)
        ensures
            remembers_mitemin(*old(self), *final(self), source@, id@, hash@, filename@),
    {
        self.version = STORE_VERSION;
        let normalized = normalize_illustration_url(source);
        self.remember_source(normalized.as_str(), filename);
        self.remember_source_hash(normalized.as_str(), hash);
        self.remember_mitemin_id(id, filename);
        self.remember_mitemin_hash(id, hash);
    }

    /// The file a source was saved as.
    pub fn filename_for_source(&self, source: &str) -> (r: Option<&str>)
        ensures
            opt_text(r) == lookup(self.source_files(), normalized_illustration_url(source@)),
    {
        let normalized = normalize_illustration_url(source);
        self.sources.get(normalized.as_str())
    }

    /// The file a mitemin illustration was saved as.
    pub fn filename_for_mitemin_id(&self, id: &str) -> (r: Option<&str>)
        ensures
            opt_text(r) == lookup(self.id_files(), id@),
    {
        self.mitemin_ids.get(id)
    }

    /// The content hash of a mitemin illustration.
    pub fn hash_for_mitemin_id(&self, id: &str) -> (r: Option<&str>)
        ensures
            opt_text(r) == lookup(self.id_hashes(), id@),
    {
        self.mitemin_hashes.get(id)
    }

    /// The file content with this hash was saved as.
    pub fn filename_for_hash(&self, hash: &str) -> (r: Option<&str>)
        ensures
            opt_text(r) == lookup(self.hash_files(), hash@),
    {
        self.hashes.get(hash)
    }

    /// The remembered file to look for on disk for `source`: for a mitemin
    /// source the file of its id (when its stem is the id), else the file of
    /// the source; only a plain file name qualifies.
    pub open spec fn source_candidate(self, source: Seq<char>) -> Option<Seq<char>> {
        let n = normalized_illustration_url(source);
        match mitemin_id_in(parsed_url(n)) {
            Some(id) => match lookup(self.id_files(), id) {
                Some(f) => if path_file_stem(f) == Some(id) && is_plain_saved(f) {
                    Some(f)
                } else {
                    None
                },
                None => None,
            },
            None => match lookup(self.source_files(), n) {
                Some(f) => if is_plain_saved(f) {
                    Some(f)
                } else {
                    None
                },
                None => None,
            },
        }
    }

    /// The remembered file to look for on disk for `source`.
    pub fn cached_filename_candidate(&self, source: &str) -> (r: Option<String>)
        ensures
            opt_string_text(r) == self.source_candidate(source@),
    {
        match mitemin_illustration_id(source) {
            Some(id) => match self.mitemin_ids.get(id.as_str()) {
                Some(f) => {
                    if filename_has_basename(f, id.as_str()) && is_plain_saved_filename(f) {
                        Some(f.to_owned())
                    } else {
                        None
                    }
                },
                None => None,
            },
            None => {
                let normalized = normalize_illustration_url(source);
                match self.sources.get(normalized.as_str()) {
                    Some(f) => {
                        if is_plain_saved_filename(f) {
                            Some(f.to_owned())
                        } else {
                            None
                        }
                    },
                    None => None,
                }
            },
        }
    }
}

/// A stored file name with no path separator.
pub open spec fn is_plain_saved(f: Seq<char>) -> bool {
    f.len() > 0 && !f.contains('/') && !f.contains('\\')
}

/// `after` is `before` with `source` (normalized), `hash` and `filename`
/// remembered as a content-hashed illustration.
pub open spec fn remembers_hash_source(
    before: IllustrationStore,
    after: IllustrationStore,
    source: Seq<char>,
    hash: Seq<char>,
    filename: Seq<char>,
) -> bool {
    let n = normalized_illustration_url(source);
    &&& after.table_version() == STORE_VERSION
    &&& after.source_files() == before.source_files().insert(n, filename)
    &&& after.source_hash_table() == before.source_hash_table().insert(n, hash)
    &&& after.hash_files() == before.hash_files().insert(hash, filename)
    &&& after.id_files() == before.id_files()
    &&& after.id_hashes() == before.id_hashes()
    &&& after.pending_write() == (before.pending_write() || changes(before.source_files(), n, filename)
        || changes(before.source_hash_table(), n, hash) || changes(before.hash_files(), hash, filename))
}

/// `after` is `before` with `source` (normalized) remembered as the mitemin
/// illustration `id`, with `hash` and `filename`.
pub open spec fn remembers_mitemin(
    before: IllustrationStore,
    after: IllustrationStore,
    source: Seq<char>,
    id: Seq<char>,
    hash: Seq<char>,
    filename: Seq<char>,
) -> bool {
    let n = normalized_illustration_url(source);
    &&& after.table_version() == STORE_VERSION
    &&& after.source_files() == before.source_files().insert(n, filename)
    &&& after.source_hash_table() == before.source_hash_table().insert(n, hash)
    &&& after.id_files() == before.id_files().insert(id, filename)
    &&& after.id_hashes() == before.id_hashes().insert(id, hash)
    &&& after.hash_files() == before.hash_files()
    &&& after.pending_write() == (before.pending_write() || changes(before.source_files(), n, filename)
        || changes(before.source_hash_table(), n, hash) || changes(before.id_files(), id, filename)
        || changes(before.id_hashes(), id, hash))
}

/// What was remembered of a mitemin illustration is what its lookups give
/// back, and nothing else moves; remembering the same again changes nothing
/// that needs writing.
pub proof fn lemma_remembered_mitemin_reads_back(
    before: IllustrationStore,
    after: IllustrationStore,
    again: IllustrationStore,
    source: Seq<char>,
    id: Seq<char>,
    hash: Seq<char>,
    filename: Seq<char>,
)
    requires
        remembers_mitemin(before, after, source, id, hash, filename),
        remembers_mitemin(after, again, source, id, hash, filename),
    ensures
        lookup(after.id_files(), id) == Some(filename),
        lookup(after.id_hashes(), id) == Some(hash),
        lookup(after.source_files(), normalized_illustration_url(source)) == Some(filename),
        forall|k: Seq<char>| k != id ==> lookup(after.id_files(), k) == lookup(before.id_files(), k),
        again.pending_write() == after.pending_write(),
        again.id_files() == after.id_files(),
        again.source_files() == after.source_files(),
{
    let n = normalized_illustration_url(source);
    assert(after.id_files().insert(id, filename) =~= after.id_files());
    assert(after.source_files().insert(n, filename) =~= after.source_files());
}

/// What was remembered of a content-hashed illustration is what its lookups
/// give back; remembering the same again changes nothing that needs writing.
pub proof fn lemma_remembered_hash_source_reads_back(
    before: IllustrationStore,
    after: IllustrationStore,
    again: IllustrationStore,
    source: Seq<char>,
    hash: Seq<char>,
    filename: Seq<char>,
)
    requires
        remembers_hash_source(before, after, source, hash, filename),
        remembers_hash_source(after, again, source, hash, filename),
    ensures
        lookup(after.hash_files(), hash) == Some(filename),
        lookup(after.source_files(), normalized_illustration_url(source)) == Some(filename),
        lookup(after.source_hash_table(), normalized_illustration_url(source)) == Some(hash),
        after.id_files() == before.id_files(),
        again.pending_write() == after.pending_write(),
        again.hash_files() == after.hash_files(),
{
    let n = normalized_illustration_url(source);
    assert(after.hash_files().insert(hash, filename) =~= after.hash_files());
}

} // verus!
