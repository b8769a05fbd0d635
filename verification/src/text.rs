//! Character-level string helpers shared by the library, each stated over
//! `Seq<char>`, the view of `str` and `String`.
use vstd::prelude::*;
use vstd::string::*;

verus! {

/// The Unicode `White_Space` property, which `char::is_whitespace`,
/// `str::trim` and friends use.
pub open spec fn is_white_space(c: char) -> bool {
    let n = c as u32;
    (0x9 <= n && n <= 0xd) || n == 0x20 || n == 0x85 || n == 0xa0 || n == 0x1680 || (0x2000 <= n
        && n <= 0x200a) || n == 0x2028 || n == 0x2029 || n == 0x202f || n == 0x205f || n == 0x3000
}

/// The Unicode general category `Cc`, which `char::is_control` tests.
pub open spec fn is_control(c: char) -> bool {
    let n = c as u32;
    n <= 0x1f || (0x7f <= n && n <= 0x9f)
}

/// Characters that `trim_end_matches([' ', '.'])` removes.
pub open spec fn is_space_or_dot(c: char) -> bool {
    c == ' ' || c == '.'
}

/// Which characters a trim removes.
#[derive(Clone, Copy, PartialEq, Eq)]
pub enum TrimSet {
    WhiteSpace,
    SpaceOrDot,
    Colon,
    Slash,
}

impl TrimSet {
    pub open spec fn holds(self, c: char) -> bool {
        match self {
            TrimSet::WhiteSpace => is_white_space(c),
            TrimSet::SpaceOrDot => is_space_or_dot(c),
            TrimSet::Colon => c == ':',
            TrimSet::Slash => c == '/',
        }
    }
}

/// `s` without the leading characters of `set`.
pub open spec fn drop_start(s: Seq<char>, set: TrimSet) -> Seq<char>
    decreases s.len(),
{
    if s.len() > 0 && set.holds(s[0]) {
        drop_start(s.drop_first(), set)
    } else {
        s
    }
}

/// `s` without the trailing characters of `set`.
pub open spec fn drop_end(s: Seq<char>, set: TrimSet) -> Seq<char>
    decreases s.len(),
{
    if s.len() > 0 && set.holds(s.last()) {
        drop_end(s.drop_last(), set)
    } else {
        s
    }
}

/// What `str::trim` returns.
pub open spec fn trim_seq(s: Seq<char>) -> Seq<char> {
    drop_end(drop_start(s, TrimSet::WhiteSpace), TrimSet::WhiteSpace)
}

/// What `str::to_lowercase` returns (Unicode lower-case mapping).
pub uninterp spec fn lowercase(s: Seq<char>) -> Seq<char>;

/// ASCII upper-case of one character.
pub open spec fn ascii_upper(c: char) -> char {
    if 'a' <= c && c <= 'z' {
        ((c as u32) - 32) as char
    } else {
        c
    }
}

/// ASCII lower-case of one character.
pub open spec fn ascii_lower(c: char) -> char {
    if 'A' <= c && c <= 'Z' {
        ((c as u32) + 32) as char
    } else {
        c
    }
}

pub open spec fn ascii_upper_seq(s: Seq<char>) -> Seq<char> {
    s.map_values(|c: char| ascii_upper(c))
}

pub open spec fn ascii_lower_seq(s: Seq<char>) -> Seq<char> {
    s.map_values(|c: char| ascii_lower(c))
}

/// `pat` occurs in `s` at `i`.
pub open spec fn occurs_at(s: Seq<char>, pat: Seq<char>, i: int) -> bool {
    0 <= i && i + pat.len() <= s.len() && s.subrange(i, i + pat.len()) == pat
}

/// The first position at which `pat` occurs in `s` (what `str::find` returns,
/// counted in characters).
#[verifier::opaque]
pub open spec fn first_occurrence(s: Seq<char>, pat: Seq<char>) -> Option<int> {
    if exists|i: int| occurs_at(s, pat, i) {
        Some(choose|i: int| occurs_at(s, pat, i) && forall|j: int| 0 <= j < i ==> !occurs_at(s, pat, j))
    } else {
        None
    }
}

pub open spec fn is_prefix(pre: Seq<char>, s: Seq<char>) -> bool {
    pre.len() <= s.len() && s.subrange(0, pre.len() as int) == pre
}

pub open spec fn is_suffix(suf: Seq<char>, s: Seq<char>) -> bool {
    suf.len() <= s.len() && s.subrange(s.len() - suf.len(), s.len() as int) == suf
}

/// The pieces of `s` between the occurrences of `sep` (what `str::split`
/// with a `char` returns).
pub open spec fn split_char(s: Seq<char>, sep: char) -> Seq<Seq<char>>
    decreases s.len(),
{
    if s.len() == 0 {
        seq![Seq::empty()]
    } else {
        let rest = split_char(s.drop_last(), sep);
        if s.last() == sep {
            rest.push(Seq::empty())
        } else {
            rest.update(rest.len() - 1, rest.last().push(s.last()))
        }
    }
}

/// Joins `parts` with `sep` between them (what `[String]::join` returns).
pub open spec fn join_seq(parts: Seq<Seq<char>>, sep: Seq<char>) -> Seq<char>
    decreases parts.len(),
{
    if parts.len() == 0 {
        Seq::empty()
    } else if parts.len() == 1 {
        parts[0]
    } else {
        join_seq(parts.drop_last(), sep) + sep + parts.last()
    }
}

pub proof fn lemma_split_char_nonempty(s: Seq<char>, sep: char)
    ensures
        split_char(s, sep).len() >= 1,
    decreases s.len(),
{
    if s.len() > 0 {
        lemma_split_char_nonempty(s.drop_last(), sep);
    }
}

/// Each sequence of `s` trimmed.
pub open spec fn trim_all(s: Seq<Seq<char>>) -> Seq<Seq<char>> {
    s.map_values(|p: Seq<char>| trim_seq(p))
}

/// The texts of a sequence of strings.
pub open spec fn string_views(s: Seq<String>) -> Seq<Seq<char>> {
    s.map_values(|t: String| t@)
}

/// The lower-cased texts of a sequence of strings.
pub open spec fn lowercase_all(s: Seq<String>) -> Seq<Seq<char>> {
    s.map_values(|t: String| lowercase(t@))
}

/// `s` without its first `n` elements.
pub open spec fn skip_n(s: Seq<char>, n: usize) -> Seq<char> {
    s.skip(n as int)
}

pub proof fn lemma_skip_n_step(s: Seq<char>, n: usize)
    requires
        n < s.len(),
    ensures
        skip_n(s, n).drop_first() == s.skip(n + 1),
        skip_n(s, n).len() > 0,
        skip_n(s, n)[0] == s[n as int],
{
    assert(skip_n(s, n).drop_first() =~= s.skip(n + 1));
}

/// The code point of `c`.
pub open spec fn char_code(c: char) -> int {
    c as int
}

pub fn code_of(c: char) -> (n: u32)
    ensures
        n == char_code(c),
{
    c as u32
}

/// The ASCII digit for `d` (`0` to `9`).
pub open spec fn digit_char(d: u8) -> char {
    ((d + 48) as u8) as char
}

/// The decimal digits of `n`, as `usize::to_string` writes them.
pub open spec fn decimal(n: nat) -> Seq<char>
    decreases n,
{
    if n < 10 {
        seq![digit_char(n as u8)]
    } else {
        decimal(n / 10).push(digit_char((n % 10) as u8))
    }
}

/// The decimal text of `n`.
pub fn decimal_string(n: usize) -> (r: String)
    ensures
        r@ == decimal(n as nat),
    decreases n,
{
    if n < 10 {
        let mut r = String::new();
        push_char(&mut r, (((n as u8) + 48) as u8) as char);
        r
    } else {
        let mut r = decimal_string(n / 10);
        push_char(&mut r, ((((n % 10) as u8) + 48) as u8) as char);
        r
    }
}

/// The part of `s` before the first `c` (all of `s` when there is none).
pub open spec fn prefix_before(s: Seq<char>, c: char) -> Seq<char>
    decreases s.len(),
{
    if s.len() == 0 {
        s
    } else if s[0] == c {
        Seq::empty()
    } else {
        seq![s[0]] + prefix_before(s.drop_first(), c)
    }
}

/// Appends one character to `s`: `String::push`.
#[verifier::external_body]
pub fn push_char(s: &mut String, c: char)
    ensures
        final(s)@ == old(s)@.push(c),
{
    s.push(c);
}

/// Lower-cases `s` with the Unicode mapping: `str::to_lowercase`.
#[verifier::external_body]
pub fn to_lowercase(s: &str) -> (r: String)
    ensures
        r@ == lowercase(s@),
{
    s.to_lowercase()
}

/// The characters of `s`.
pub fn to_chars(s: &str) -> (v: Vec<char>)
    ensures
        v@ == s@,
{
    let n = s.unicode_len();
    let mut v: Vec<char> = Vec::new();
    let mut i: usize = 0;
    while i < n
        invariant
            n == s@.len(),
            i <= n,
            v@ == s@.subrange(0, i as int),
        decreases n - i,
    {
        let c = s.get_char(i);
        v.push(c);
        i = i + 1;
        assert(v@ =~= s@.subrange(0, i as int));
    }
    assert(v@ =~= s@);
    v
}

/// The string made of `v[lo..hi]`.
pub fn string_of_range(v: &Vec<char>, lo: usize, hi: usize) -> (r: String)
    requires
        lo <= hi <= v@.len(),
    ensures
        r@ == v@.subrange(lo as int, hi as int),
{
    let mut r = String::new();
    let mut i: usize = lo;
    while i < hi
        invariant
            lo <= i <= hi <= v@.len(),
            r@ == v@.subrange(lo as int, i as int),
        decreases hi - i,
    {
        push_char(&mut r, v[i]);
        i = i + 1;
        assert(r@ =~= v@.subrange(lo as int, i as int));
    }
    r
}

/// The string made of all of `v`.
pub fn string_of(v: &Vec<char>) -> (r: String)
    ensures
        r@ == v@,
{
    let r = string_of_range(v, 0, v.len());
    assert(v@.subrange(0, v@.len() as int) =~= v@);
    r
}

pub fn trim_set_holds(set: TrimSet, c: char) -> (b: bool)
    ensures
        b == set.holds(c),
{
    match set {
        TrimSet::WhiteSpace => {
            let n = c as u32;
            (0x9 <= n && n <= 0xd) || n == 0x20 || n == 0x85 || n == 0xa0 || n == 0x1680 || (0x2000
                <= n && n <= 0x200a) || n == 0x2028 || n == 0x2029 || n == 0x202f || n == 0x205f
                || n == 0x3000
        },
        TrimSet::SpaceOrDot => c == ' ' || c == '.',
        TrimSet::Colon => c == ':',
        TrimSet::Slash => c == '/',
    }
}

/// The index at which `v[lo..hi]` stops starting with characters of `set`.
pub fn skip_start(v: &Vec<char>, lo: usize, hi: usize, set: TrimSet) -> (k: usize)
    requires
        lo <= hi <= v@.len(),
    ensures
        lo <= k <= hi,
        drop_start(v@.subrange(lo as int, hi as int), set) == v@.subrange(k as int, hi as int),
{
    let mut k: usize = lo;
    while k < hi && trim_set_holds(set, v[k])
        invariant
            lo <= k <= hi <= v@.len(),
            drop_start(v@.subrange(lo as int, hi as int), set) == drop_start(
                v@.subrange(k as int, hi as int),
                set,
            ),
        decreases hi - k,
    {
        assert(v@.subrange(k as int, hi as int).drop_first() =~= v@.subrange(k + 1, hi as int));
        k = k + 1;
    }
    k
}

/// The index at which `v[lo..hi]` stops ending with characters of `set`.
pub fn skip_end(v: &Vec<char>, lo: usize, hi: usize, set: TrimSet) -> (k: usize)
    requires
        lo <= hi <= v@.len(),
    ensures
        lo <= k <= hi,
        drop_end(v@.subrange(lo as int, hi as int), set) == v@.subrange(lo as int, k as int),
{
    let mut k: usize = hi;
    while k > lo && trim_set_holds(set, v[k - 1])
        invariant
            lo <= k <= hi <= v@.len(),
            drop_end(v@.subrange(lo as int, hi as int), set) == drop_end(
                v@.subrange(lo as int, k as int),
                set,
            ),
        decreases k - lo,
    {
        assert(v@.subrange(lo as int, k as int).drop_last() =~= v@.subrange(lo as int, k - 1));
        k = k - 1;
    }
    k
}

/// `str::trim`.
pub fn trim(s: &str) -> (r: String)
    ensures
        r@ == trim_seq(s@),
{
    let v = to_chars(s);
    let lo = skip_start(&v, 0, v.len(), TrimSet::WhiteSpace);
    let hi = skip_end(&v, lo, v.len(), TrimSet::WhiteSpace);
    assert(v@.subrange(0, v@.len() as int) =~= v@);
    string_of_range(&v, lo, hi)
}

/// `str::trim_end_matches([' ', '.'])`.
pub fn trim_end_space_dot(s: &str) -> (r: String)
    ensures
        r@ == drop_end(s@, TrimSet::SpaceOrDot),
{
    let v = to_chars(s);
    let hi = skip_end(&v, 0, v.len(), TrimSet::SpaceOrDot);
    assert(v@.subrange(0, v@.len() as int) =~= v@);
    string_of_range(&v, 0, hi)
}

/// Whether two character sequences are equal.
pub fn chars_eq(a: &str, b: &str) -> (r: bool)
    ensures
        r == (a@ == b@),
{
    let va = to_chars(a);
    let vb = to_chars(b);
    vec_chars_eq(&va, &vb)
}

pub fn vec_chars_eq(a: &Vec<char>, b: &Vec<char>) -> (r: bool)
    ensures
        r == (a@ == b@),
{
    if a.len() != b.len() {
        return false;
    }
    let mut i: usize = 0;
    while i < a.len()
        invariant
            a@.len() == b@.len(),
            i <= a@.len(),
            forall|j: int| 0 <= j < i ==> a@[j] == b@[j],
        decreases a@.len() - i,
    {
        if a[i] != b[i] {
            return false;
        }
        i = i + 1;
    }
    assert(a@ =~= b@);
    true
}

/// Whether `v[at..]` starts with `pat`.
pub fn vec_occurs_at(v: &Vec<char>, pat: &Vec<char>, at: usize) -> (r: bool)
    ensures
        r == occurs_at(v@, pat@, at as int),
{
    if at > v.len() || pat.len() > v.len() - at {
        return false;
    }
    let mut i: usize = 0;
    while i < pat.len()
        invariant
            at + pat@.len() <= v@.len(),
            v@.len() <= usize::MAX,
            i <= pat@.len(),
            forall|j: int| 0 <= j < i ==> v@[at + j] == pat@[j],
        decreases pat@.len() - i,
    {
        if v[at + i] != pat[i] {
            assert(v@.subrange(at as int, at + pat@.len())[i as int] != pat@[i as int]);
            return false;
        }
        i = i + 1;
    }
    assert(v@.subrange(at as int, at + pat@.len()) =~= pat@);
    true
}

/// `str::starts_with` with a string pattern.
pub fn starts_with(s: &str, pre: &str) -> (r: bool)
    ensures
        r == is_prefix(pre@, s@),
{
    let v = to_chars(s);
    let p = to_chars(pre);
    vec_occurs_at(&v, &p, 0)
}

/// `str::ends_with` with a string pattern.
pub fn ends_with(s: &str, suf: &str) -> (r: bool)
    ensures
        r == is_suffix(suf@, s@),
{
    let v = to_chars(s);
    let p = to_chars(suf);
    if p.len() > v.len() {
        return false;
    }
    vec_occurs_at(&v, &p, v.len() - p.len())
}

/// The first position at which `pat` occurs in `v` at or after `from`.
pub fn vec_find_from(v: &Vec<char>, pat: &Vec<char>, from: usize) -> (r: Option<usize>)
    ensures
        match r {
            Some(i) => from <= i && occurs_at(v@, pat@, i as int) && forall|j: int|
                from <= j < i ==> !occurs_at(v@, pat@, j),
            None => forall|j: int| from <= j ==> !occurs_at(v@, pat@, j),
        },
{
    let mut i: usize = from;
    while i <= v.len()
        invariant
            from <= i,
            forall|j: int| from <= j < i ==> !occurs_at(v@, pat@, j),
        decreases v@.len() + 1 - i,
    {
        if vec_occurs_at(v, pat, i) {
            return Some(i);
        }
        if i == v.len() {
            assert forall|j: int| from <= j implies !occurs_at(v@, pat@, j) by {
                if j > i {
                }
            }
            return None;
        }
        i = i + 1;
    }
    None
}

/// `str::find`, counted in characters.
pub fn find(s: &str, pat: &str) -> (r: Option<usize>)
    ensures
        match r {
            Some(i) => first_occurrence(s@, pat@) == Some(i as int) && occurs_at(s@, pat@, i as int),
            None => first_occurrence(s@, pat@) is None,
        },
{
    let v = to_chars(s);
    let p = to_chars(pat);
    let r = vec_find_from(&v, &p, 0);
    reveal(first_occurrence);
    match r {
        Some(i) => {
            proof {
                let w = choose|k: int|
                    occurs_at(s@, pat@, k) && forall|j: int| 0 <= j < k ==> !occurs_at(s@, pat@, j);
                assert(occurs_at(s@, pat@, i as int) && forall|j: int|
                    0 <= j < i ==> !occurs_at(s@, pat@, j));
                if w < i {
                    assert(!occurs_at(s@, pat@, w));
                } else if w > i {
                    assert(!occurs_at(s@, pat@, i as int));
                }
            }
        },
        None => {},
    }
    r
}

/// Whether `pat` occurs anywhere in `s`.
pub fn contains(s: &str, pat: &str) -> (r: bool)
    ensures
        r == exists|i: int| occurs_at(s@, pat@, i),
{
    let v = to_chars(s);
    let p = to_chars(pat);
    let r = vec_find_from(&v, &p, 0);
    match r {
        Some(i) => {
            assert(occurs_at(s@, pat@, i as int));
            true
        },
        None => {
            assert forall|i: int| !occurs_at(s@, pat@, i) by {
                if 0 <= i {
                }
            }
            false
        },
    }
}

/// Whether the character `c` occurs in `s`.
pub fn contains_char(s: &str, c: char) -> (r: bool)
    ensures
        r == s@.contains(c),
{
    let v = to_chars(s);
    let mut i: usize = 0;
    while i < v.len()
        invariant
            v@ == s@,
            i <= v@.len(),
            forall|j: int| 0 <= j < i ==> v@[j] != c,
        decreases v@.len() - i,
    {
        if v[i] == c {
            return true;
        }
        i = i + 1;
    }
    false
}

/// `str::split` by one character, each piece as its own `String`.
pub fn split_by_char(s: &str, sep: char) -> (r: Vec<String>)
    ensures
        r@.map_values(|p: String| p@) == split_char(s@, sep),
{
    let v = to_chars(s);
    let mut parts: Vec<String> = Vec::new();
    let mut cur = String::new();
    let mut i: usize = 0;
    while i < v.len()
        invariant
            v@ == s@,
            i <= v@.len(),
            parts@.map_values(|p: String| p@).push(cur@) == split_char(v@.subrange(0, i as int), sep),
        decreases v@.len() - i,
    {
        let ghost before = v@.subrange(0, i as int);
        assert(v@.subrange(0, i + 1).drop_last() =~= before);
        if v[i] == sep {
            let done = cur;
            parts.push(done);
            cur = String::new();
            assert(parts@.map_values(|p: String| p@).push(cur@) =~= split_char(before, sep).push(
                Seq::empty(),
            ));
        } else {
            let ghost old_parts = parts@.map_values(|p: String| p@);
            push_char(&mut cur, v[i]);
            assert(parts@.map_values(|p: String| p@).push(cur@) =~= old_parts.push(cur@));
        }
        i = i + 1;
    }
    assert(v@.subrange(0, v@.len() as int) =~= v@);
    let ghost before = parts@.map_values(|p: String| p@);
    parts.push(cur);
    assert(parts@.map_values(|p: String| p@) =~= before.push(cur@));
    parts
}

/// Joins `parts` with `sep`: `[String]::join`.
pub fn join(parts: &Vec<String>, sep: &str) -> (r: String)
    ensures
        r@ == join_seq(parts@.map_values(|p: String| p@), sep@),
{
    let mut r = String::new();
    let mut i: usize = 0;
    while i < parts.len()
        invariant
            i <= parts@.len(),
            r@ == join_seq(parts@.map_values(|p: String| p@).take(i as int), sep@),
        decreases parts@.len() - i,
    {
        let ghost all = parts@.map_values(|p: String| p@);
        assert(all.take(i + 1).drop_last() =~= all.take(i as int));
        if i > 0 {
            r.append(sep);
        }
        r.append(parts[i].as_str());
        i = i + 1;
    }
    assert(parts@.map_values(|p: String| p@).take(parts@.len() as int) =~= parts@.map_values(
        |p: String| p@,
    ));
    r
}

/// ASCII upper-case of a string: `str::to_ascii_uppercase`.
pub fn to_ascii_uppercase(s: &str) -> (r: String)
    ensures
        r@ == ascii_upper_seq(s@),
{
    let v = to_chars(s);
    let mut r = String::new();
    let mut i: usize = 0;
    while i < v.len()
        invariant
            v@ == s@,
            i <= v@.len(),
            r@ == ascii_upper_seq(v@.subrange(0, i as int)),
        decreases v@.len() - i,
    {
        let c = v[i];
        let u = if 'a' <= c && c <= 'z' {
            (((c as u32) - 32) as u8) as char
        } else {
            c
        };
        push_char(&mut r, u);
        i = i + 1;
        assert(r@ =~= ascii_upper_seq(v@.subrange(0, i as int)));
    }
    assert(v@.subrange(0, v@.len() as int) =~= v@);
    r
}

/// ASCII lower-case of a string: `str::to_ascii_lowercase`.
pub fn to_ascii_lowercase(s: &str) -> (r: String)
    ensures
        r@ == ascii_lower_seq(s@),
{
    let v = to_chars(s);
    let mut r = String::new();
    let mut i: usize = 0;
    while i < v.len()
        invariant
            v@ == s@,
            i <= v@.len(),
            r@ == ascii_lower_seq(v@.subrange(0, i as int)),
        decreases v@.len() - i,
    {
        let c = v[i];
        let u = if 'A' <= c && c <= 'Z' {
            (((c as u32) + 32) as u8) as char
        } else {
            c
        };
        push_char(&mut r, u);
        i = i + 1;
        assert(r@ =~= ascii_lower_seq(v@.subrange(0, i as int)));
    }
    assert(v@.subrange(0, v@.len() as int) =~= v@);
    r
}

/// `s` with each occurrence of `pat` replaced by `rep`, scanning from the
/// left without overlaps (what `str::replace` returns for a non-empty
/// pattern).
pub open spec fn replace_seq(s: Seq<char>, pat: Seq<char>, rep: Seq<char>) -> Seq<char>
    decreases s.len(),
{
    if s.len() == 0 {
        Seq::empty()
    } else if pat.len() > 0 && occurs_at(s, pat, 0) {
        rep + replace_seq(s.skip(pat.len() as int), pat, rep)
    } else {
        seq![s[0]] + replace_seq(s.drop_first(), pat, rep)
    }
}

/// `str::replace` with a non-empty pattern.
pub fn replace(s: &str, pat: &str, rep: &str) -> (r: String)
    requires
        pat@.len() > 0,
    ensures
        r@ == replace_seq(s@, pat@, rep@),
{
    let v = to_chars(s);
    let p = to_chars(pat);
    let mut out = String::new();
    let mut i: usize = 0;
    assert(v@.subrange(0, v@.len() as int) =~= v@);
    while i < v.len()
        invariant
            v@ == s@,
            p@ == pat@,
            p@.len() > 0,
            i <= v@.len(),
            out@ + replace_seq(v@.subrange(i as int, v@.len() as int), pat@, rep@) == replace_seq(
                s@,
                pat@,
                rep@,
            ),
        decreases v@.len() - i,
    {
        let ghost rest = v@.subrange(i as int, v@.len() as int);
        let ghost before = out@;
        if vec_occurs_at(&v, &p, i) {
            assert(rest.subrange(0, pat@.len() as int) =~= v@.subrange(i as int, i + pat@.len()));
            assert(rest.skip(pat@.len() as int) =~= v@.subrange(i + pat@.len(), v@.len() as int));
            out.append(rep);
            i = i + p.len();
            assert(before + (rep@ + replace_seq(v@.subrange(i as int, v@.len() as int), pat@, rep@))
                =~= out@ + replace_seq(v@.subrange(i as int, v@.len() as int), pat@, rep@));
        } else {
            assert(rest.len() >= pat@.len() ==> rest.subrange(0, pat@.len() as int) =~= v@.subrange(
                i as int,
                i + pat@.len(),
            ));
            assert(rest.drop_first() =~= v@.subrange(i + 1, v@.len() as int));
            push_char(&mut out, v[i]);
            i = i + 1;
            assert(before + (seq![rest[0]] + replace_seq(v@.subrange(i as int, v@.len() as int), pat@, rep@))
                =~= out@ + replace_seq(v@.subrange(i as int, v@.len() as int), pat@, rep@));
        }
    }
    assert(out@ + replace_seq(v@.subrange(i as int, v@.len() as int), pat@, rep@) =~= out@);
    out
}

/// `rep` before, between and after the characters of `s` (what
/// `str::replace` returns for an empty pattern).
pub open spec fn spread(s: Seq<char>, rep: Seq<char>) -> Seq<char>
    decreases s.len(),
{
    if s.len() == 0 {
        rep
    } else {
        rep + seq![s[0]] + spread(s.drop_first(), rep)
    }
}

/// What `str::replace` returns: each occurrence of `pat` replaced by `rep`,
/// or, for an empty pattern, `rep` around every character.
pub open spec fn str_replace(s: Seq<char>, pat: Seq<char>, rep: Seq<char>) -> Seq<char> {
    if pat.len() == 0 {
        spread(s, rep)
    } else {
        replace_seq(s, pat, rep)
    }
}

/// `str::replace`.
pub fn replace_all(s: &str, pat: &str, rep: &str) -> (r: String)
    ensures
        r@ == str_replace(s@, pat@, rep@),
{
    if pat.unicode_len() > 0 {
        return replace(s, pat, rep);
    }
    let v = to_chars(s);
    let mut out = String::new();
    let mut i: usize = 0;
    assert(v@.subrange(0, v@.len() as int) =~= v@);
    while i < v.len()
        invariant
            v@ == s@,
            i <= v@.len(),
            out@ + spread(v@.subrange(i as int, v@.len() as int), rep@) == spread(s@, rep@),
        decreases v@.len() - i,
    {
        let ghost rest = v@.subrange(i as int, v@.len() as int);
        let ghost before = out@;
        assert(rest.drop_first() =~= v@.subrange(i + 1, v@.len() as int));
        out.append(rep);
        push_char(&mut out, v[i]);
        i = i + 1;
        assert(before + (rep@ + seq![rest[0]] + spread(v@.subrange(i as int, v@.len() as int), rep@))
            =~= out@ + spread(v@.subrange(i as int, v@.len() as int), rep@));
    }
    out.append(rep);
    out
}

/// The part of `s` after its last `c` (what `str::rsplit_once` gives as its
/// second half), `None` when `s` holds no `c`.
pub open spec fn after_last_char(s: Seq<char>, c: char) -> Option<Seq<char>>
    decreases s.len(),
{
    if s.len() == 0 {
        None
    } else if s.last() == c {
        Some(Seq::empty())
    } else {
        match after_last_char(s.drop_last(), c) {
            Some(t) => Some(t.push(s.last())),
            None => None,
        }
    }
}

/// The part of `s` before its last `c` (what `str::rsplit_once` gives as its
/// first half), `None` when `s` holds no `c`.
pub open spec fn before_last_char(s: Seq<char>, c: char) -> Option<Seq<char>>
    decreases s.len(),
{
    if s.len() == 0 {
        None
    } else if s.last() == c {
        Some(s.drop_last())
    } else {
        before_last_char(s.drop_last(), c)
    }
}

/// `str::rsplit_once` with a `char`: the parts before and after the last `c`.
pub fn rsplit_once_char(s: &str, c: char) -> (r: Option<(String, String)>)
    ensures
        match r {
            Some((a, b)) => before_last_char(s@, c) == Some(a@) && after_last_char(s@, c) == Some(
                b@,
            ),
            None => before_last_char(s@, c) is None && after_last_char(s@, c) is None,
        },
{
    let v = to_chars(s);
    let mut k: usize = v.len();
    assert(v@.subrange(0, v@.len() as int) =~= v@);
    proof {
        if after_last_char(s@, c) is Some {
            let t = after_last_char(s@, c)->0;
            assert(t + v@.subrange(k as int, v@.len() as int) =~= t);
        }
    }
    while k > 0 && v[k - 1] != c
        invariant
            v@ == s@,
            k <= v@.len(),
            forall|j: int| k <= j < v@.len() ==> v@[j] != c,
            before_last_char(s@, c) == before_last_char(v@.subrange(0, k as int), c),
            after_last_char(s@, c) is None <==> after_last_char(v@.subrange(0, k as int), c) is None,
            after_last_char(s@, c) matches Some(t) ==> after_last_char(
                v@.subrange(0, k as int),
                c,
            ) matches Some(u) && t == u + v@.subrange(k as int, v@.len() as int),
        decreases k,
    {
        let ghost pre = v@.subrange(0, k as int);
        assert(pre.drop_last() =~= v@.subrange(0, k - 1));
        assert(v@.subrange(k - 1, v@.len() as int) =~= seq![pre.last()] + v@.subrange(
            k as int,
            v@.len() as int,
        ));
        k = k - 1;
        proof {
            if after_last_char(s@, c) is Some {
                let u = after_last_char(pre.drop_last(), c)->0;
                assert(u.push(pre.last()) + v@.subrange(k + 1, v@.len() as int) =~= u + v@.subrange(
                    k as int,
                    v@.len() as int,
                ));
            }
        }
    }
    assert(v@.subrange(0, v@.len() as int) =~= v@);
    if k == 0 {
        None
    } else {
        let ghost pre = v@.subrange(0, k as int);
        assert(pre.drop_last() =~= v@.subrange(0, k - 1));
        assert(Seq::<char>::empty() + v@.subrange(k as int, v@.len() as int) =~= v@.subrange(
            k as int,
            v@.len() as int,
        ));
        let a = string_of_range(&v, 0, k - 1);
        let b = string_of_range(&v, k, v.len());
        Some((a, b))
    }
}

/// The part of `s` before its first `c` (all of `s` when there is none): the
/// first piece of `str::split` with a `char`.
pub fn before_char(s: &str, c: char) -> (r: String)
    ensures
        r@ == prefix_before(s@, c),
{
    let v = to_chars(s);
    let mut i: usize = 0;
    assert(v@.subrange(0, v@.len() as int) =~= v@);
    assert(v@.subrange(0, 0) + prefix_before(v@, c) =~= prefix_before(v@, c));
    while i < v.len() && v[i] != c
        invariant
            v@ == s@,
            i <= v@.len(),
            prefix_before(s@, c) == v@.subrange(0, i as int) + prefix_before(
                v@.subrange(i as int, v@.len() as int),
                c,
            ),
        decreases v@.len() - i,
    {
        assert(v@.subrange(i as int, v@.len() as int).drop_first() =~= v@.subrange(
            i + 1,
            v@.len() as int,
        ));
        assert(v@.subrange(0, i + 1) =~= v@.subrange(0, i as int) + seq![v@[i as int]]);
        i = i + 1;
    }
    assert(v@.subrange(0, v@.len() as int) =~= v@);
    assert(v@.subrange(0, i as int) + prefix_before(v@.subrange(i as int, v@.len() as int), c)
        =~= v@.subrange(0, i as int));
    string_of_range(&v, 0, i)
}

/// `a` comes no later than `b` in the order of `String`'s `Ord`: code points
/// compared in turn, a prefix first.
pub open spec fn text_le(a: Seq<char>, b: Seq<char>) -> bool
    decreases a.len(),
{
    if a.len() == 0 {
        true
    } else if b.len() == 0 {
        false
    } else if (a[0] as u32) < (b[0] as u32) {
        true
    } else if (a[0] as u32) > (b[0] as u32) {
        false
    } else {
        text_le(a.drop_first(), b.drop_first())
    }
}

pub proof fn lemma_text_le_total(a: Seq<char>, b: Seq<char>)
    ensures
        text_le(a, b) || text_le(b, a),
    decreases a.len(),
{
    if a.len() > 0 && b.len() > 0 && (a[0] as u32) == (b[0] as u32) {
        lemma_text_le_total(a.drop_first(), b.drop_first());
    }
}

pub proof fn lemma_text_le_transitive(a: Seq<char>, b: Seq<char>, c: Seq<char>)
    requires
        text_le(a, b),
        text_le(b, c),
    ensures
        text_le(a, c),
    decreases a.len(),
{
    if a.len() > 0 && b.len() > 0 && c.len() > 0 && (a[0] as u32) == (b[0] as u32) && (b[0] as u32)
        == (c[0] as u32) {
        lemma_text_le_transitive(a.drop_first(), b.drop_first(), c.drop_first());
    }
}

/// Whether `a` comes no later than `b` in `String`'s order.
pub fn text_le_exec(a: &str, b: &str) -> (r: bool)
    ensures
        r == text_le(a@, b@),
{
    let va = to_chars(a);
    let vb = to_chars(b);
    let mut i: usize = 0;
    assert(va@.skip(0) =~= va@);
    assert(vb@.skip(0) =~= vb@);
    while i < va.len() && i < vb.len() && va[i] == vb[i]
        invariant
            va@ == a@,
            vb@ == b@,
            i <= va@.len(),
            i <= vb@.len(),
            text_le(a@, b@) == text_le(va@.skip(i as int), vb@.skip(i as int)),
        decreases va@.len() - i,
    {
        assert(va@.skip(i as int).drop_first() =~= va@.skip(i + 1));
        assert(vb@.skip(i as int).drop_first() =~= vb@.skip(i + 1));
        i = i + 1;
    }
    if i == va.len() {
        true
    } else if i == vb.len() {
        false
    } else {
        let x = va[i];
        let y = vb[i];
        assert(va@.skip(i as int)[0] == x);
        assert(vb@.skip(i as int)[0] == y);
        proof {
            vstd::utf8::char_u32_cast(x, x as u32);
            vstd::utf8::char_u32_cast(y, y as u32);
        }
        (x as u32) < (y as u32)
    }
}

/// The part of `s` after its first `c`, `None` when `s` holds no `c`.
pub open spec fn after_first_char(s: Seq<char>, c: char) -> Option<Seq<char>>
    decreases s.len(),
{
    if s.len() == 0 {
        None
    } else if s[0] == c {
        Some(s.drop_first())
    } else {
        after_first_char(s.drop_first(), c)
    }
}

/// The part of `s` after its first `c`: the second half of `str::split_once`.
pub fn after_first(s: &str, c: char) -> (r: Option<String>)
    ensures
        match r {
            Some(t) => after_first_char(s@, c) == Some(t@),
            None => after_first_char(s@, c) is None,
        },
{
    let v = to_chars(s);
    let mut i: usize = 0;
    assert(v@.skip(0) =~= v@);
    while i < v.len() && v[i] != c
        invariant
            v@ == s@,
            i <= v@.len(),
            after_first_char(s@, c) == after_first_char(v@.skip(i as int), c),
        decreases v@.len() - i,
    {
        assert(v@.skip(i as int).drop_first() =~= v@.skip(i + 1));
        i = i + 1;
    }
    if i == v.len() {
        None
    } else {
        assert(v@.skip(i as int).drop_first() =~= v@.subrange(i + 1, v@.len() as int));
        Some(string_of_range(&v, i + 1, v.len()))
    }
}

/// Whether every character of `s` is an ASCII digit.
pub open spec fn all_ascii_digits(s: Seq<char>) -> bool {
    forall|i: int| 0 <= i < s.len() ==> '0' <= #[trigger] s[i] && s[i] <= '9'
}

/// The number that the ASCII digits `s` write in decimal.
pub open spec fn digits_value(s: Seq<char>) -> nat
    decreases s.len(),
{
    if s.len() == 0 {
        0
    } else {
        digits_value(s.drop_last()) * 10 + ((s.last() as u32) - 48) as nat
    }
}

pub proof fn lemma_digits_value_prefix(s: Seq<char>, i: int)
    requires
        0 <= i <= s.len(),
        all_ascii_digits(s),
    ensures
        digits_value(s.take(i)) <= digits_value(s),
    decreases s.len() - i,
{
    if i < s.len() {
        lemma_digits_value_prefix(s, i + 1);
        assert(s.take(i + 1).drop_last() =~= s.take(i));
        assert('0' <= s[i] && s[i] <= '9');
    } else {
        assert(s.take(i) =~= s);
    }
}

/// What `str::parse::<u16>` reads: an optional `+`, then one or more ASCII
/// digits whose value fits in 16 bits.
pub open spec fn parse_u16_text(s: Seq<char>) -> Option<u16> {
    let d = if s.len() > 0 && s[0] == '+' {
        s.drop_first()
    } else {
        s
    };
    if d.len() > 0 && all_ascii_digits(d) && digits_value(d) <= 65535 {
        Some(digits_value(d) as u16)
    } else {
        None
    }
}

/// `str::parse::<u16>`.
pub fn parse_u16(s: &str) -> (r: Option<u16>)
    ensures
        r == parse_u16_text(s@),
{
    let v = to_chars(s);
    let start: usize = if v.len() > 0 && v[0] == '+' {
        1
    } else {
        0
    };
    let ghost d = v@.skip(start as int);
    assert(d =~= (if v@.len() > 0 && v@[0] == '+' {
        v@.drop_first()
    } else {
        v@
    }));
    if start == v.len() {
        return None;
    }
    let mut acc: u32 = 0;
    let mut i: usize = start;
    while i < v.len()
        invariant
            v@ == s@,
            start <= i <= v@.len(),
            d == v@.skip(start as int),
            d == (if s@.len() > 0 && s@[0] == '+' {
                s@.drop_first()
            } else {
                s@
            }),
            d.len() > 0,
            all_ascii_digits(d.take(i - start)),
            acc as nat == digits_value(d.take(i - start)),
            acc <= 65535,
        decreases v@.len() - i,
    {
        let c = v[i];
        if !('0' <= c && c <= '9') {
            assert(d[i - start] == c);
            assert(!all_ascii_digits(d));
            return None;
        }
        assert(d.take(i - start + 1).drop_last() =~= d.take(i - start));
        assert(d.take(i - start + 1).last() == c);
        let next: u32 = acc * 10 + ((c as u32) - 48);
        i = i + 1;
        if next > 65535 {
            proof {
                assert(all_ascii_digits(d.take(i - start))) by {
                    assert forall|j: int| 0 <= j < i - start implies '0' <= #[trigger] d.take(
                        i - start,
                    )[j] && d.take(i - start)[j] <= '9' by {
                        if j < i - start - 1 {
                            assert(d.take(i - start)[j] == d.take(i - start - 1)[j]);
                        }
                    }
                }
                assert(digits_value(d.take(i - start)) > 65535);
                if all_ascii_digits(d) {
                    lemma_digits_value_prefix(d, i - start);
                }
            }
            return None;
        }
        acc = next;
        assert(all_ascii_digits(d.take(i - start))) by {
            assert forall|j: int| 0 <= j < i - start implies '0' <= #[trigger] d.take(i - start)[j]
                && d.take(i - start)[j] <= '9' by {
                if j < i - start - 1 {
                    assert(d.take(i - start)[j] == d.take(i - start - 1)[j]);
                }
            }
        }
    }
    assert(d.take(i - start) =~= d);
    Some(acc as u16)
}

/// `str::trim_end_matches` of one set of characters.
pub fn trim_end_set(s: &str, set: TrimSet) -> (r: String)
    ensures
        r@ == drop_end(s@, set),
{
    let v = to_chars(s);
    let hi = skip_end(&v, 0, v.len(), set);
    assert(v@.subrange(0, v@.len() as int) =~= v@);
    string_of_range(&v, 0, hi)
}

/// What `str::parse::<i64>` reads: an optional sign, then one or more ASCII
/// digits whose signed value fits in 64 bits.
pub open spec fn parse_i64_text(s: Seq<char>) -> Option<i64> {
    let neg = s.len() > 0 && s[0] == '-';
    let d = if s.len() > 0 && (s[0] == '+' || s[0] == '-') {
        s.drop_first()
    } else {
        s
    };
    if d.len() > 0 && all_ascii_digits(d) {
        let v = digits_value(d) as int;
        let signed = if neg {
            -v
        } else {
            v
        };
        if i64::MIN <= signed && signed <= i64::MAX {
            Some(signed as i64)
        } else {
            None
        }
    } else {
        None
    }
}

/// `str::parse::<i64>`.
pub fn parse_i64(s: &str) -> (r: Option<i64>)
    ensures
        r == parse_i64_text(s@),
{
    let v = to_chars(s);
    let neg = v.len() > 0 && v[0] == '-';
    let start: usize = if v.len() > 0 && (v[0] == '+' || v[0] == '-') {
        1
    } else {
        0
    };
    let ghost d = v@.skip(start as int);
    assert(d =~= (if v@.len() > 0 && (v@[0] == '+' || v@[0] == '-') {
        v@.drop_first()
    } else {
        v@
    }));
    if start == v.len() {
        return None;
    }
    let limit: u128 = 9223372036854775808;
    let mut acc: u128 = 0;
    let mut i: usize = start;
    while i < v.len()
        invariant
            v@ == s@,
            start <= i <= v@.len(),
            d == v@.skip(start as int),
            d == (if s@.len() > 0 && (s@[0] == '+' || s@[0] == '-') {
                s@.drop_first()
            } else {
                s@
            }),
            d.len() > 0,
            limit == 9223372036854775808,
            all_ascii_digits(d.take(i - start)),
            acc as nat == digits_value(d.take(i - start)),
            acc <= limit,
        decreases v@.len() - i,
    {
        let c = v[i];
        if !('0' <= c && c <= '9') {
            assert(d[i - start] == c);
            assert(!all_ascii_digits(d));
            return None;
        }
        assert(d.take(i - start + 1).drop_last() =~= d.take(i - start));
        assert(d.take(i - start + 1).last() == c);
        let next: u128 = acc * 10 + ((c as u32) - 48) as u128;
        i = i + 1;
        assert(all_ascii_digits(d.take(i - start))) by {
            assert forall|j: int| 0 <= j < i - start implies '0' <= #[trigger] d.take(i - start)[j]
                && d.take(i - start)[j] <= '9' by {
                if j < i - start - 1 {
                    assert(d.take(i - start)[j] == d.take(i - start - 1)[j]);
                }
            }
        }
        if next > limit {
            proof {
                assert(digits_value(d.take(i - start)) > limit);
                if all_ascii_digits(d) {
                    lemma_digits_value_prefix(d, i - start);
                }
            }
            return None;
        }
        acc = next;
    }
    assert(d.take(i - start) =~= d);
    if neg {
        if acc == limit {
            Some(-9223372036854775807i64 - 1)
        } else {
            Some(-(acc as i64))
        }
    } else {
        if acc == limit {
            None
        } else {
            Some(acc as i64)
        }
    }
}

} // verus!
