//! Text helpers of the downloader.
use vstd::prelude::*;

use crate::db::paths::{sanitize_windows_filename_component_with_limit, sanitized_component};
use crate::downloader::site_setting::SiteSetting;
use crate::regex_match::{regex_group1_all, regex_group1_matches, regex_pieces, regex_split};
use crate::text::{
    contains, drop_end, is_prefix, occurs_at, prefix_before, push_char, replace_all, starts_with,
    str_replace, to_chars, trim_end_set, TrimSet, before_char,
};
use vstd::utf8::is_scalar;

verus! {

/// A file name from `name`: invalid characters become `_`, and `_` stands
/// in for a name with nothing usable left.
pub fn sanitize_filename_with_limit(name: &str, limit: Option<usize>) -> (r: String)
    ensures
        r@ == sanitized_component(name@, limit, Some('_'), "_"@),
{
    sanitize_windows_filename_component_with_limit(name, limit, Some('_'), "_")
}

/// `sanitize_filename_with_limit` with the 80-character limit.
pub fn sanitize_filename(name: &str) -> (r: String)
    ensures
        r@ == sanitized_component(name@, Some(80), Some('_'), "_"@),
{
    sanitize_filename_with_limit(name, Some(80))
}

/// Characters that spoiler masking keeps: digits (ASCII and full-width),
/// spaces and a few punctuation marks.
pub open spec fn keeps_when_masked(c: char) -> bool {
    ('0' <= c && c <= '9') || ('０' <= c && c <= '９') || c == ' ' || c == '　' || c == '、' || c
        == '。' || c == '!' || c == '?' || c == '！' || c == '？'
}

pub open spec fn masked_char(c: char) -> char {
    if keeps_when_masked(c) {
        c
    } else {
        '●'
    }
}

/// `text` with every character other than digits, spaces and a few
/// punctuation marks replaced by `●`.
pub fn mask_spoiler_text(text: &str) -> (r: String)
    ensures
        r@ == text@.map_values(|c: char| masked_char(c)),
{
    let v = to_chars(text);
    let mut r = String::new();
    let mut i: usize = 0;
    while i < v.len()
        invariant
            v@ == text@,
            i <= v@.len(),
            r@ == v@.take(i as int).map_values(|c: char| masked_char(c)),
        decreases v@.len() - i,
    {
        let c = v[i];
        let keep = ('0' <= c && c <= '9') || ('０' <= c && c <= '９') || c == ' ' || c == '　' || c
            == '、' || c == '。' || c == '!' || c == '?' || c == '！' || c == '？';
        if keep {
            push_char(&mut r, c);
        } else {
            push_char(&mut r, '●');
        }
        i = i + 1;
        assert(r@ =~= v@.take(i as int).map_values(|c: char| masked_char(c)));
    }
    assert(v@.take(v@.len() as int) =~= v@);
    r
}

/// The size limit of the compiled form of a site's patterns.
pub const DEFAULT_REGEX_SIZE_LIMIT: usize = 1_000_000;

/// A numeric character reference in hexadecimal: `&#x` digits `;`.
pub const HEX_ENTITY_PATTERN: &'static str = "&#x([0-9a-fA-F]+);";

/// A numeric character reference in decimal: `&#` digits `;` (Unicode
/// digits, as the regex class `\d` has them).
pub const DEC_ENTITY_PATTERN: &'static str = "&#(\\d+);";

/// The character that stands in for one that cannot be: U+FFFD.
pub const REPLACEMENT_CHARACTER: char = '\u{FFFD}';

/// The value of an ASCII digit in `radix` (10 or 16).
pub open spec fn digit_value(c: char, radix: nat) -> Option<nat> {
    let v: int = if '0' <= c && c <= '9' {
        c as int - '0' as int
    } else if 'a' <= c && c <= 'f' {
        c as int - 'a' as int + 10
    } else if 'A' <= c && c <= 'F' {
        c as int - 'A' as int + 10
    } else {
        radix as int
    };
    if 0 <= v < radix {
        Some(v as nat)
    } else {
        None
    }
}

/// The number the digits of `s` write in `radix`; `None` where a character
/// is not a digit.
pub open spec fn radix_value(s: Seq<char>, radix: nat) -> Option<nat>
    decreases s.len(),
{
    if s.len() == 0 {
        Some(0)
    } else {
        match (radix_value(s.drop_last(), radix), digit_value(s.last(), radix)) {
            (Some(a), Some(d)) => Some(a * radix + d),
            _ => None,
        }
    }
}

/// The character a numeric reference with digits `s` in `radix` stands for:
/// the one with that code where the digits read as a `u32` that is a
/// Unicode scalar value, else U+FFFD.
pub open spec fn entity_char(s: Seq<char>, radix: nat) -> char {
    if s.len() == 0 {
        REPLACEMENT_CHARACTER
    } else {
        match radix_value(s, radix) {
            Some(v) => if v <= u32::MAX && is_scalar(v as u32) {
                (v as u32) as char
            } else {
                REPLACEMENT_CHARACTER
            },
            None => REPLACEMENT_CHARACTER,
        }
    }
}

/// `char::from_u32`: the character with code `v`, where `v` is a Unicode
/// scalar value.
#[verifier::external_body]
fn char_from_code(v: u32) -> (r: Option<char>)
    ensures
        r is Some <==> is_scalar(v),
        r matches Some(c) ==> c == v as char,
{
    char::from_u32(v)
}

fn digit_of(c: char, radix: u32) -> (r: Option<u32>)
    requires
        radix == 10 || radix == 16,
    ensures
        match r {
            Some(d) => digit_value(c, radix as nat) == Some(d as nat) && d < radix,
            None => digit_value(c, radix as nat) is None,
        },
{
    let n = c as u32;
    let v: u32 = if '0' <= c && c <= '9' {
        n - 48
    } else if 'a' <= c && c <= 'f' {
        n - 87
    } else if 'A' <= c && c <= 'F' {
        n - 55
    } else {
        radix
    };
    if v < radix {
        Some(v)
    } else {
        None
    }
}

/// The character a numeric reference with the digits `digits` in `radix`
/// stands for.
fn entity_char_of(digits: &str, radix: u32) -> (r: char)
    requires
        radix == 10 || radix == 16,
    ensures
        r == entity_char(digits@, radix as nat),
{
    let v = to_chars(digits);
    if v.len() == 0 {
        return REPLACEMENT_CHARACTER;
    }
    let big: u64 = 0x1_0000_0000;
    let mut acc: u64 = 0;
    let mut i: usize = 0;
    while i < v.len()
        invariant
            v@ == digits@,
            i <= v@.len(),
            radix == 10 || radix == 16,
            big == 0x1_0000_0000,
            radix_value(v@.take(i as int), radix as nat) matches Some(a) && acc == (if a
                <= u32::MAX {
                a
            } else {
                big as nat
            }),
        decreases v@.len() - i,
    {
        let ghost a = radix_value(v@.take(i as int), radix as nat)->0;
        assert(v@.take(i + 1).drop_last() =~= v@.take(i as int));
        assert(v@.take(i + 1).last() == v@[i as int]);
        match digit_of(v[i], radix) {
            Some(d) => {
                if acc == big {
                    assert(a * radix + d >= a) by (nonlinear_arith)
                        requires
                            radix >= 1,
                            d >= 0,
                            a >= 0,
                    ;
                } else {
                    let next: u64 = acc * (radix as u64) + (d as u64);
                    assert(acc * radix <= 0xFFFF_FFFFu64 * 16) by (nonlinear_arith)
                        requires
                            acc <= 0xFFFF_FFFF,
                            radix <= 16,
                    ;
                    acc = if next > 0xFFFF_FFFF {
                        big
                    } else {
                        next
                    };
                }
            },
            None => {
                proof {
                    lemma_radix_value_none(v@, radix as nat, i as int);
                }
                return REPLACEMENT_CHARACTER;
            },
        }
        i = i + 1;
    }
    assert(v@.take(v@.len() as int) =~= v@);
    if acc == big {
        return REPLACEMENT_CHARACTER;
    }
    match char_from_code(acc as u32) {
        Some(c) => c,
        None => REPLACEMENT_CHARACTER,
    }
}

proof fn lemma_radix_value_none(s: Seq<char>, radix: nat, i: int)
    requires
        0 <= i < s.len(),
        digit_value(s[i], radix) is None,
    ensures
        radix_value(s, radix) is None,
    decreases s.len(),
{
    if i < s.len() - 1 {
        assert(s.drop_last()[i] == s[i]);
        lemma_radix_value_none(s.drop_last(), radix, i);
    }
}

/// The pieces between references with the references' characters between
/// them: `pieces[i..]` joined by the characters of `digits[i..]`.
pub open spec fn with_entities(pieces: Seq<Seq<char>>, digits: Seq<Seq<char>>, radix: nat, i: int) -> Seq<
    char,
>
    decreases digits.len() - i,
    when 0 <= i <= digits.len()
{
    if i >= digits.len() {
        pieces[i]
    } else {
        pieces[i] + seq![entity_char(digits[i], radix)] + with_entities(pieces, digits, radix, i + 1)
    }
}

/// `s` with each match of `pattern` replaced by the character its digits
/// stand for in `radix` (`s` itself where the pattern is not read, which it
/// always is).
pub open spec fn entities_replaced(s: Seq<char>, pattern: Seq<char>, radix: nat) -> Seq<char> {
    match (regex_pieces(pattern, s), regex_group1_matches(pattern, s)) {
        (Some(p), Some(d)) => if p.len() == d.len() + 1 {
            with_entities(p, d, radix, 0)
        } else {
            s
        },
        _ => s,
    }
}

fn replace_entities(s: &str, pattern: &str, radix: u32) -> (r: String)
    requires
        radix == 10 || radix == 16,
    ensures
        r@ == entities_replaced(s@, pattern@, radix as nat),
{
    let digits = match regex_group1_all(pattern, s) {
        Some(d) => d,
        None => {
            return s.to_owned();
        },
    };
    let pieces = match regex_split(pattern, s) {
        Some(p) => p,
        None => {
            return s.to_owned();
        },
    };
    let ghost ps = crate::text::string_views(pieces@);
    let ghost ds = crate::text::string_views(digits@);
    let mut out = String::new();
    let mut i: usize = 0;
    while i < digits.len()
        invariant
            i <= digits@.len(),
            pieces@.len() == digits@.len() + 1,
            radix == 10 || radix == 16,
            ps == crate::text::string_views(pieces@),
            ds == crate::text::string_views(digits@),
            with_entities(ps, ds, radix as nat, 0) == out@ + with_entities(
                ps,
                ds,
                radix as nat,
                i as int,
            ),
        decreases digits@.len() - i,
    {
        out.append(pieces[i].as_str());
        let c = entity_char_of(digits[i].as_str(), radix);
        push_char(&mut out, c);
        i = i + 1;
    }
    out.append(pieces[digits.len()].as_str());
    out
}

/// `s` with its numeric character references decoded: hexadecimal ones
/// first, then decimal ones; a text without `&#` is left as it is.
pub open spec fn numeric_entities_decoded(s: Seq<char>) -> Seq<char> {
    if !(exists|i: int| occurs_at(s, "&#"@, i)) {
        s
    } else {
        entities_replaced(
            entities_replaced(s, HEX_ENTITY_PATTERN@, 16),
            DEC_ENTITY_PATTERN@,
            10,
        )
    }
}

/// Decodes the numeric character references of `src` in place.
pub fn decode_numeric_entities(src: &mut String)
    ensures
        final(src)@ == numeric_entities_decoded(old(src)@),
{
    if !contains(src.as_str(), "&#") {
        return;
    }
    let hex = replace_entities(src.as_str(), HEX_ENTITY_PATTERN, 16);
    let dec = replace_entities(hex.as_str(), DEC_ENTITY_PATTERN, 10);
    *src = dec;
}

/// The named references this decoder knows, and what each stands for, in
/// the order they are replaced.
pub open spec fn named_entities_replaced(t: Seq<char>) -> Seq<char> {
    let t = str_replace(t, "&amp;"@, "&"@);
    let t = str_replace(t, "&quot;"@, "\""@);
    let t = str_replace(t, "&apos;"@, "'"@);
    let t = str_replace(t, "&#39;"@, "'"@);
    let t = str_replace(t, "&lt;"@, "<"@);
    let t = str_replace(t, "&gt;"@, ">"@);
    let t = str_replace(t, "&nbsp;"@, " "@);
    str_replace(t, "&copy;"@, "(c)"@)
}

/// HTML text decoded: the named references, then the numeric ones, and
/// no-break spaces made plain spaces.
pub open spec fn html_text_decoded(t: Seq<char>) -> Seq<char> {
    str_replace(numeric_entities_decoded(named_entities_replaced(t)), "\u{a0}"@, " "@)
}

/// Decodes the character references of HTML text.
pub fn decode_html_text(text: &str) -> (r: String)
    ensures
        r@ == html_text_decoded(text@),
{
    let t = replace_all(text, "&amp;", "&");
    let t = replace_all(t.as_str(), "&quot;", "\"");
    let t = replace_all(t.as_str(), "&apos;", "'");
    let t = replace_all(t.as_str(), "&#39;", "'");
    let t = replace_all(t.as_str(), "&lt;", "<");
    let t = replace_all(t.as_str(), "&gt;", ">");
    let t = replace_all(t.as_str(), "&nbsp;", " ");
    let mut t = replace_all(t.as_str(), "&copy;", "(c)");
    decode_numeric_entities(&mut t);
    replace_all(t.as_str(), "\u{a0}", " ")
}

/// The address of a link: the part before any `#`, decoded.
fn decode_html_href(href: &str) -> (r: String)
    ensures
        r@ == html_text_decoded(prefix_before(href@, '#')),
{
    let before = before_char(href, '#');
    decode_html_text(before.as_str())
}

/// The URL of a section from the link of its table of contents: an
/// absolute link as it is, a link from the site's root under its top page,
/// no link the table of contents itself, and any other link under the
/// table of contents.
pub open spec fn section_url(top_url: Seq<char>, toc_url: Seq<char>, href: Seq<char>) -> Seq<char> {
    let h = html_text_decoded(prefix_before(href, '#'));
    if is_prefix("http://"@, h) || is_prefix("https://"@, h) {
        h
    } else if is_prefix("/"@, h) {
        top_url + h
    } else if h.len() == 0 {
        toc_url
    } else {
        drop_end(toc_url, TrimSet::Slash) + "/"@ + h
    }
}

/// The URL of a section of `setting` from the link `href` in its table of
/// contents `toc_url`.
pub fn build_section_url(setting: &SiteSetting, toc_url: &str, href: &str) -> (r: String)
    ensures
        r@ == section_url(
            crate::downloader::site_setting::interpolated(
                setting.top_url@,
                Map::empty(),
                setting.base_vars(),
            ),
            toc_url@,
            href@,
        ),
{
    let h = decode_html_href(href);
    if starts_with(h.as_str(), "http://") || starts_with(h.as_str(), "https://") {
        h
    } else if starts_with(h.as_str(), "/") {
        let mut u = setting.top_url();
        u.append(h.as_str());
        u
    } else if h.unicode_len() == 0 {
        toc_url.to_owned()
    } else {
        let mut u = trim_end_set(toc_url, TrimSet::Slash);
        u.append("/");
        u.append(h.as_str());
        u
    }
}

} // verus!
