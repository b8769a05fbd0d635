//! What the novel information page of a novel says.
use vstd::prelude::*;
use crate::text::{drop_end, push_char, trim, trim_end_set, trim_seq, TrimSet};

verus! {

/// A date of the information page as the date parser reads it: trimmed,
/// parenthesised parts (half- or full-width) left out, `年` and `月` made
/// `/`, `時` and `分` made `:`, `日` and `秒` dropped, then trimmed of white
/// space and trailing colons.
pub open spec fn narou_date_text(s: Seq<char>) -> Seq<char> {
    trim_seq(drop_end(trim_seq(narou_date_chars(trim_seq(s), false)), TrimSet::Colon))
}

/// The characters kept from `s`, `skipping` inside parentheses.
pub open spec fn narou_date_chars(s: Seq<char>, skipping: bool) -> Seq<char>
    decreases s.len(),
{
    if s.len() == 0 {
        Seq::empty()
    } else {
        let c = s[0];
        let rest = s.drop_first();
        if c == '(' || c == '（' {
            narou_date_chars(rest, true)
        } else if c == ')' || c == '）' {
            narou_date_chars(rest, false)
        } else if skipping {
            narou_date_chars(rest, true)
        } else if c == '年' || c == '月' {
            seq!['/'] + narou_date_chars(rest, false)
        } else if c == '時' || c == '分' {
            seq![':'] + narou_date_chars(rest, false)
        } else if c == '日' || c == '秒' {
            narou_date_chars(rest, false)
        } else {
            seq![c] + narou_date_chars(rest, false)
        }
    }
}

/// A date of the information page as the date parser reads it (see
/// [`narou_date_text`]).
pub fn normalize_narou_date(s: &str) -> (r: String)
    ensures
        r@ == narou_date_text(s@),
{
    let t = trim(s);
    let v = crate::text::to_chars(t.as_str());
    let mut out = String::new();
    let mut skipping = false;
    let mut i: usize = 0;
    assert(v@.subrange(0, v@.len() as int) =~= v@);
    while i < v.len()
        invariant
            v@ == trim_seq(s@),
            i <= v@.len(),
            out@ + narou_date_chars(v@.subrange(i as int, v@.len() as int), skipping) == narou_date_chars(
                v@,
                false,
            ),
        decreases v@.len() - i,
    {
        let ghost rest = v@.subrange(i as int, v@.len() as int);
        let ghost before = out@;
        let ghost was = skipping;
        assert(rest.drop_first() =~= v@.subrange(i + 1, v@.len() as int));
        let c = v[i];
        if c == '(' || c == '（' {
            skipping = true;
        } else if c == ')' || c == '）' {
            skipping = false;
        } else if skipping {
        } else if c == '年' || c == '月' {
            push_char(&mut out, '/');
        } else if c == '時' || c == '分' {
            push_char(&mut out, ':');
        } else if c == '日' || c == '秒' {
        } else {
            push_char(&mut out, c);
        }
        i = i + 1;
        assert(out@ + narou_date_chars(v@.subrange(i as int, v@.len() as int), skipping) =~= before
            + narou_date_chars(rest, was));
    }
    assert(out@ + narou_date_chars(v@.subrange(i as int, v@.len() as int), skipping) =~= out@);
    let a = trim(out.as_str());
    let b = trim_end_set(a.as_str(), TrimSet::Colon);
    trim(b.as_str())
}

} // verus!
