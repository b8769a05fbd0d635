//! Helpers of the HTTP fetcher.
use vstd::prelude::*;
use vstd::string::*;

use crate::text::{is_prefix, prefix_before, starts_with, to_chars};

verus! {

/// `url` without a leading `https://`, then without a leading `http://`,
/// up to its first `/`.
pub open spec fn domain_part(url: Seq<char>) -> Seq<char> {
    let s1 = if is_prefix("https://"@, url) {
        url.skip("https://"@.len() as int)
    } else {
        url
    };
    let s2 = if is_prefix("http://"@, s1) {
        s1.skip("http://"@.len() as int)
    } else {
        s1
    };
    prefix_before(s2, '/')
}

/// The host part of `url` (as written, port included).
pub fn domain_of(url: &str) -> (r: &str)
    ensures
        r@ == domain_part(url@),
{
    let v = to_chars(url);
    let https = to_chars("https://");
    let http = to_chars("http://");
    let n = v.len();
    let mut start: usize = 0;
    if starts_with(url, "https://") {
        start = https.len();
    }
    let ghost s1 = v@.skip(start as int);
    assert(s1 =~= if is_prefix("https://"@, url@) {
        url@.skip("https://"@.len() as int)
    } else {
        url@
    });
    let ghost want = if is_prefix("http://"@, s1) {
        s1.skip("http://"@.len() as int)
    } else {
        s1
    };
    if crate::text::vec_occurs_at(&v, &http, start) {
        assert(is_prefix("http://"@, s1)) by {
            assert(s1.subrange(0, http@.len() as int) =~= v@.subrange(
                start as int,
                start + http@.len(),
            ));
        }
        assert(v@.skip(start + http@.len()) =~= s1.skip(http@.len() as int));
        start = start + http.len();
    } else {
        proof {
            if is_prefix("http://"@, s1) {
                assert(v@.subrange(start as int, start + http@.len()) =~= s1.subrange(
                    0,
                    http@.len() as int,
                ));
            }
        }
    }
    let ghost s2 = v@.skip(start as int);
    assert(s2 == want);
    let mut end: usize = start;
    assert(s2.skip(0) =~= s2);
    while end < n && v[end] != '/'
        invariant
            start <= end <= n,
            n == v@.len(),
            s2 == v@.skip(start as int),
            prefix_before(s2, '/') == v@.subrange(start as int, end as int) + prefix_before(
                v@.skip(end as int),
                '/',
            ),
        decreases n - end,
    {
        assert(v@.skip(end as int).drop_first() =~= v@.skip(end + 1));
        assert(v@.subrange(start as int, end as int) + (seq![v@[end as int]] + prefix_before(
            v@.skip(end + 1),
            '/',
        )) =~= v@.subrange(start as int, end + 1) + prefix_before(v@.skip(end + 1), '/'));
        end = end + 1;
    }
    assert(v@.subrange(start as int, end as int) + prefix_before(v@.skip(end as int), '/')
        =~= v@.subrange(start as int, end as int));
    url.substring_char(start, end)
}

} // verus!
