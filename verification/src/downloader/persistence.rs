//! Names and default contents of the files a downloaded novel is stored in.
use vstd::prelude::*;
use vstd::string::*;
use vstd::utf8::encode_utf8;

use crate::db::paths::sanitized_component;
use crate::downloader::types::{SectionElement, SubtitleInfo};
use crate::downloader::util::sanitize_filename_with_limit;
use crate::hashing::{hex_text, sha256, sha256_hex};
use crate::regex_match::{regex_replace_all, regex_replaced};
use crate::text::{
    chars_eq, ends_with, is_prefix, is_suffix, prefix_before, starts_with, string_of_range,
    string_views, to_chars, vec_occurs_at,
};

verus! {

/// The hexadecimal SHA-256 of a section's body, introduction and postscript,
/// in that order.
pub open spec fn section_hash(section: SectionElement) -> Seq<char> {
    hex_text(
        sha256(
            encode_utf8(section.body@) + encode_utf8(section.introduction@) + encode_utf8(
                section.postscript@,
            ),
        ),
    )
}

/// The digest by which a changed section is told from an unchanged one.
pub fn compute_section_hash(section: &SectionElement) -> (r: String)
    ensures
        r@ == section_hash(*section),
{
    let mut data: Vec<u8> = Vec::new();
    data.extend_from_slice(section.body.as_str().as_bytes());
    data.extend_from_slice(section.introduction.as_str().as_bytes());
    data.extend_from_slice(section.postscript.as_str().as_bytes());
    assert(data@ =~= encode_utf8(section.body@) + encode_utf8(section.introduction@)
        + encode_utf8(section.postscript@));
    sha256_hex(data.as_slice())
}

/// `<index> <file subtitle made safe>.yaml`.
pub open spec fn section_file_name(index: Seq<char>, file_subtitle: Seq<char>) -> Seq<char> {
    index + " "@ + sanitized_component(file_subtitle, None, Some('_'), "_"@) + ".yaml"@
}

/// `<index> <file subtitle made safe>.html`.
pub open spec fn raw_file_name(index: Seq<char>, file_subtitle: Seq<char>) -> Seq<char> {
    index + " "@ + sanitized_component(file_subtitle, None, Some('_'), "_"@) + ".html"@
}

/// The file name of a stored section.
pub fn section_filename(subtitle: &SubtitleInfo) -> (r: String)
    ensures
        r@ == section_file_name(subtitle.index@, subtitle.file_subtitle@),
{
    let safe_subtitle = sanitize_filename_with_limit(subtitle.file_subtitle.as_str(), None);
    let mut r = subtitle.index.clone();
    r.append(" ");
    r.append(safe_subtitle.as_str());
    r.append(".yaml");
    r
}

/// The file name of a section's raw HTML.
pub fn raw_filename(subtitle: &SubtitleInfo) -> (r: String)
    ensures
        r@ == raw_file_name(subtitle.index@, subtitle.file_subtitle@),
{
    let section = section_filename(subtitle);
    let v = to_chars(section.as_str());
    let suffix = to_chars(".yaml");
    let ghost stem_text = subtitle.index@ + " "@ + sanitized_component(
        subtitle.file_subtitle@,
        None,
        Some('_'),
        "_"@,
    );
    assert(v@ == stem_text + suffix@);
    let stem_end = v.len() - suffix.len();
    assert(v@.subrange(0, stem_end as int) =~= stem_text);
    let mut r = string_of_range(&v, 0, stem_end);
    r.append(".html");
    r
}

/// The section index that a stored object name belongs to: names
/// `本文/<index>[ <anything>].yaml` that do not start with a dot.
pub open spec fn section_index_of(name: Seq<char>) -> Option<Seq<char>> {
    if !is_prefix("本文/"@, name) {
        None
    } else {
        let file = name.skip("本文/"@.len() as int);
        if (file.len() > 0 && file[0] == '.') || !is_suffix(".yaml"@, file) {
            None
        } else {
            let stem = file.take(file.len() - ".yaml"@.len());
            let index = prefix_before(stem, ' ');
            if index.len() == 0 {
                None
            } else {
                Some(index)
            }
        }
    }
}

fn section_index(name: &str) -> (r: Option<String>)
    ensures
        match section_index_of(name@) {
            Some(x) => r matches Some(s) && s@ == x,
            None => r is None,
        },
{
    let v = to_chars(name);
    let dir = to_chars("本文/");
    if !vec_occurs_at(&v, &dir, 0) {
        return None;
    }
    let file = string_of_range(&v, dir.len(), v.len());
    assert(file@ =~= name@.skip("本文/"@.len() as int));
    let fv = to_chars(file.as_str());
    if fv.len() > 0 && fv[0] == '.' {
        return None;
    }
    if !ends_with(file.as_str(), ".yaml") {
        return None;
    }
    let ext = to_chars(".yaml");
    let stem_end = fv.len() - ext.len();
    let mut k: usize = 0;
    assert(fv@.take(stem_end as int).skip(0) =~= fv@.take(stem_end as int));
    assert(fv@.take(stem_end as int).take(0) + prefix_before(fv@.take(stem_end as int), ' ')
        =~= prefix_before(fv@.take(stem_end as int), ' '));
    while k < stem_end && fv[k] != ' '
        invariant
            stem_end <= fv@.len(),
            k <= stem_end,
            prefix_before(fv@.take(stem_end as int), ' ') == fv@.take(k as int) + prefix_before(
                fv@.take(stem_end as int).skip(k as int),
                ' ',
            ),
        decreases stem_end - k,
    {
        let ghost t = fv@.take(stem_end as int);
        assert(t.skip(k as int).drop_first() =~= t.skip(k + 1));
        assert(fv@.take(k as int) + (seq![t[k as int]] + prefix_before(t.skip(k + 1), ' '))
            =~= fv@.take(k + 1) + prefix_before(t.skip(k + 1), ' '));
        k = k + 1;
    }
    assert(fv@.take(k as int) + prefix_before(fv@.take(stem_end as int).skip(k as int), ' ')
        =~= fv@.take(k as int));
    if k == 0 {
        return None;
    }
    Some(string_of_range(&fv, 0, k))
}

/// Whether some stored name belongs to section `x`.
pub open spec fn has_section(names: Seq<String>, x: Seq<char>) -> bool {
    exists|i: int| 0 <= i < names.len() && section_index_of(#[trigger] names[i]@) == Some(x)
}

/// The section indices that have a stored file among `names`, each once.
pub fn existing_section_indices(names: &Vec<String>) -> (r: Vec<String>)
    ensures
        forall|x: Seq<char>| string_views(r@).contains(x) <==> has_section(names@, x),
        forall|i: int, j: int| 0 <= i < j < r@.len() ==> r@[i]@ != r@[j]@,
{
    let mut r: Vec<String> = Vec::new();
    let mut i: usize = 0;
    while i < names.len()
        invariant
            i <= names@.len(),
            forall|x: Seq<char>|
                string_views(r@).contains(x) <==> has_section(names@.take(i as int), x),
            forall|a: int, b: int| 0 <= a < b < r@.len() ==> r@[a]@ != r@[b]@,
        decreases names@.len() - i,
    {
        let ghost before = r@;
        assert(forall|x: Seq<char>| string_views(before).contains(x) <==> has_section(names@.take(i as int), x));
        let ghost this = section_index_of(names@[i as int]@);
        match section_index(names[i].as_str()) {
            Some(index) => {
                let mut seen = false;
                let mut j: usize = 0;
                while j < r.len()
                    invariant
                        j <= r@.len(),
                        !seen ==> forall|q: int| 0 <= q < j ==> r@[q]@ != index@,
                        seen ==> string_views(r@).contains(index@),
                    decreases r@.len() - j,
                {
                    if chars_eq(r[j].as_str(), index.as_str()) {
                        assert(string_views(r@)[j as int] == index@);
                        seen = true;
                    }
                    j = j + 1;
                }
                if !seen {
                    r.push(index);
                    assert(string_views(r@) =~= string_views(before).push(this.unwrap()));
                } else {
                    assert(string_views(before).contains(this.unwrap()));
                }
            },
            None => {},
        }
        proof {
            assert(names@.take(i + 1) =~= names@.take(i as int).push(names@[i as int]));
            assert forall|x: Seq<char>| has_section(names@.take(i + 1), x) <==> (has_section(
                names@.take(i as int),
                x,
            ) || this == Some(x)) by {
                if has_section(names@.take(i + 1), x) {
                    let k = choose|k: int|
                        0 <= k < names@.take(i + 1).len() && section_index_of(
                            #[trigger] names@.take(i + 1)[k]@,
                        ) == Some(x);
                    if k < i {
                        assert(names@.take(i as int)[k] == names@.take(i + 1)[k]);
                    }
                }
                if has_section(names@.take(i as int), x) {
                    let k = choose|k: int|
                        0 <= k < names@.take(i as int).len() && section_index_of(
                            #[trigger] names@.take(i as int)[k]@,
                        ) == Some(x);
                    assert(names@.take(i + 1)[k] == names@.take(i as int)[k]);
                }
                if this == Some(x) {
                    assert(names@.take(i + 1)[i as int] == names@[i as int]);
                }
            }
            assert forall|x: Seq<char>| string_views(r@).contains(x) <==> (string_views(
                before,
            ).contains(x) || this == Some(x)) by {
                if string_views(r@).len() > string_views(before).len() {
                    let e = this.unwrap();
                    if string_views(r@).contains(x) {
                        let p = choose|p: int| 0 <= p < string_views(r@).len() && string_views(r@)[p] == x;
                        if p < before.len() {
                            assert(string_views(before)[p] == x);
                        }
                    }
                    if string_views(before).contains(x) {
                        let p = choose|p: int| 0 <= p < string_views(before).len() && string_views(before)[p] == x;
                        assert(string_views(r@)[p] == x);
                    }
                    if this == Some(x) {
                        assert(string_views(r@)[before.len() as int] == x);
                    }
                }
            }
            assert forall|x: Seq<char>| string_views(r@).contains(x) <==> has_section(
                names@.take(i + 1),
                x,
            ) by {
                assert(string_views(before).contains(x) <==> has_section(names@.take(i as int), x));
            }
            assert forall|a: int, b: int| 0 <= a < b < r@.len() implies r@[a]@ != r@[b]@ by {
                if b >= before.len() {
                    assert(string_views(before)[a] == r@[a]@);
                    assert(!string_views(before).contains(r@[b]@));
                }
            }
        }
        i = i + 1;
    }
    assert(names@.take(names@.len() as int) =~= names@);
    r
}

/// The default `replace.txt` of a novel, naming its title, author and URL.
pub open spec fn replace_txt_text(title: Seq<char>, author: Seq<char>, toc_url: Seq<char>) -> Seq<
    char,
> {
    "; 単純置換用ファイル\n;\n; 対象小説情報\n; タイトル: "@ + title + "\n; 作者: "@ + author
        + "\n; URL: "@ + toc_url
        + "\n;\n; 書式\n; 置換対象<tab>置換文字\n;\n; サンプル\n; 一〇歳\t十歳\n; 第一章\t［＃ゴシック体］第一章［＃ゴシック体終わり］\n;\n; 正規表現での置換などは converter.yaml で対応して下さい\n"@
}

/// The default `replace.txt` of a novel.
pub fn default_replace_txt(title: &str, author: &str, toc_url: &str) -> (r: String)
    ensures
        r@ == replace_txt_text(title@, author@, toc_url@),
{
    let mut r = "; 単純置換用ファイル\n;\n; 対象小説情報\n; タイトル: ".to_owned();
    r.append(title);
    r.append("\n; 作者: ");
    r.append(author);
    r.append("\n; URL: ");
    r.append(toc_url);
    r.append(
        "\n;\n; 書式\n; 置換対象<tab>置換文字\n;\n; サンプル\n; 一〇歳\t十歳\n; 第一章\t［＃ゴシック体］第一章［＃ゴシック体終わり］\n;\n; 正規表現での置換などは converter.yaml で対応して下さい\n",
    );
    r
}

/// A `story:` line that opens a block scalar (`|`, `|-` or `|+`, spaces
/// around), in multi-line mode.
pub const STORY_BLOCK_PATTERN: &'static str = "(?m)^story:\\s*\\|[-+]?\\s*$";

/// What a YAML text becomes when each `story:` block scalar opener is made
/// `story: |-` (the text itself where the pattern is not read, which it
/// always is).
pub open spec fn block_scalar_fixed(yaml: Seq<char>) -> Seq<char> {
    match regex_replaced(STORY_BLOCK_PATTERN@, yaml, "story: |-"@) {
        Some(t) => t,
        None => yaml,
    }
}

/// Makes every `story:` block scalar strip its final line breaks.
pub fn fix_yaml_block_scalar(yaml: &str) -> (r: String)
    ensures
        r@ == block_scalar_fixed(yaml@),
{
    match regex_replace_all(STORY_BLOCK_PATTERN, yaml, "story: |-") {
        Some(t) => t,
        None => yaml.to_owned(),
    }
}

} // verus!
