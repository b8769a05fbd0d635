//! How responses are judged and when a cookie may follow a redirect.
use vstd::prelude::*;
use vstd::string::*;

use crate::error::NarouError;
use crate::text::{ascii_lower_seq, chars_eq, decimal, decimal_string, ends_with, is_suffix, to_ascii_lowercase};
use vstd::utf8::{decode_utf8, valid_utf8};

use crate::illustration_store::{parse_url, parsed_url};

verus! {

/// `a` is `b` with a non-empty label and a dot in front (`h.example.com`
/// below `example.com`).
pub open spec fn is_subdomain_of(a: Seq<char>, b: Seq<char>) -> bool {
    a.len() > b.len() && is_suffix(b, a) && a[a.len() - b.len() - 1] == '.'
}

/// Two hosts belong to one site for cookie purposes: they are equal or one is
/// a subdomain of the other. A missing host belongs to no site.
pub open spec fn same_site(a: Option<Seq<char>>, b: Option<Seq<char>>) -> bool {
    match (a, b) {
        (Some(x), Some(y)) => x == y || is_subdomain_of(x, y) || is_subdomain_of(y, x),
        _ => false,
    }
}

pub open spec fn opt_view(a: Option<&str>) -> Option<Seq<char>> {
    match a {
        Some(s) => Some(s@),
        None => None,
    }
}

fn subdomain_of(a: &str, b: &str) -> (r: bool)
    ensures
        r == is_subdomain_of(a@, b@),
{
    if !ends_with(a, b) {
        return false;
    }
    let n = a.unicode_len();
    let m = b.unicode_len();
    if n <= m {
        return false;
    }
    a.get_char(n - m - 1) == '.'
}

/// Whether a cookie configured for host `a` may be sent to host `b`.
pub fn same_site_hosts(a: Option<&str>, b: Option<&str>) -> (r: bool)
    ensures
        r == same_site(opt_view(a), opt_view(b)),
{
    match (a, b) {
        (Some(a), Some(b)) => chars_eq(a, b) || subdomain_of(a, b) || subdomain_of(b, a),
        _ => false,
    }
}

/// Errors after which no other transport is tried: the server's definitive
/// answers (not found, rate limited).
pub fn should_stop_fetch_fallback(err: &NarouError) -> (r: bool)
    ensures
        r == (err is NotFound || err is SuspendDownload),
{
    match err {
        NarouError::NotFound(_) => true,
        NarouError::SuspendDownload(_) => true,
        _ => false,
    }
}

/// A byte a header name may hold: an ASCII letter or digit, `-` or `_`.
pub open spec fn is_header_name_byte(b: u8) -> bool {
    (48 <= b <= 57) || (65 <= b <= 90) || (97 <= b <= 122) || b == 45 || b == 95
}

/// Whether `name` may be sent as a header name: 1 to 64 bytes, each a
/// letter, digit, `-` or `_` (so a site definition cannot slip in a second
/// header).
pub fn is_safe_header_name(name: &str) -> (r: bool)
    ensures
        r == (0 < name.spec_bytes().len() <= 64 && forall|i: int|
            0 <= i < name.spec_bytes().len() ==> is_header_name_byte(#[trigger] name.spec_bytes()[i])),
{
    let bytes = name.as_bytes();
    if bytes.len() == 0 || bytes.len() > 64 {
        return false;
    }
    let mut i: usize = 0;
    while i < bytes.len()
        invariant
            bytes@ == name.spec_bytes(),
            i <= bytes@.len(),
            forall|j: int| 0 <= j < i ==> is_header_name_byte(#[trigger] bytes@[j]),
        decreases bytes@.len() - i,
    {
        let b = bytes[i];
        if !((48 <= b && b <= 57) || (65 <= b && b <= 90) || (97 <= b && b <= 122) || b == 45 || b == 95) {
            return false;
        }
        i = i + 1;
    }
    true
}

/// The host of a URL (as `url::Url::parse` and `host_str` read it), or
/// `__global__` for a text that is not a URL with a host.
pub open spec fn host_key(url: Seq<char>) -> Seq<char> {
    match parsed_url(url) {
        Some((Some(h), _)) => h,
        _ => "__global__"@,
    }
}

/// The host a request is rate limited under (see [`host_key`]).
pub fn host_of(url: &str) -> (r: String)
    ensures
        r@ == host_key(url@),
{
    match parse_url(url) {
        Some(parts) => match parts.host {
            Some(h) => h,
            None => "__global__".to_owned(),
        },
        None => "__global__".to_owned(),
    }
}

/// What `String::from_utf8_lossy` makes of `bytes`.
pub uninterp spec fn utf8_lossy(bytes: Seq<u8>) -> Seq<char>;

/// `String::from_utf8_lossy`: the UTF-8 text of `bytes`, each invalid
/// sequence replaced by U+FFFD; valid UTF-8 reads as itself.
#[verifier::external_body]
fn lossy_utf8(bytes: &[u8]) -> (r: String)
    ensures
        r@ == utf8_lossy(bytes@),
        valid_utf8(bytes@) ==> r@ == decode_utf8(bytes@),
{
    String::from_utf8_lossy(bytes).into_owned()
}

/// What `encoding_rs` decodes `bytes` to in the encoding `label` names
/// (`None` where it names none).
pub uninterp spec fn label_decoded(label: Seq<char>, bytes: Seq<u8>) -> Option<Seq<char>>;

/// `encoding_rs::Encoding::for_label` of `label`, then `Encoding::decode` of
/// `bytes` in that encoding (its text, the encoding used and the error flag
/// left aside).
#[verifier::external_body]
fn decode_with_label(label: &str, bytes: &[u8]) -> (r: Option<String>)
    ensures
        match r {
            Some(t) => label_decoded(label@, bytes@) == Some(t@),
            None => label_decoded(label@, bytes@) is None,
        },
{
    encoding_rs::Encoding::for_label(label.as_bytes()).map(|encoding| encoding.decode(bytes).0.into_owned())
}

/// Whether an encoding label names UTF-8 (`utf-8` or `utf8`, ASCII case
/// aside).
pub open spec fn names_utf8(label: Seq<char>) -> bool {
    ascii_lower_seq(label) == "utf-8"@ || ascii_lower_seq(label) == "utf8"@
}

/// Response bytes as text: UTF-8 (invalid sequences replaced) unless the
/// site declares another encoding that `encoding_rs` knows.
pub open spec fn decoded_text(bytes: Seq<u8>, encoding: Option<Seq<char>>) -> Seq<char> {
    match encoding {
        Some(e) => if names_utf8(e) {
            utf8_lossy(bytes)
        } else {
            match label_decoded(e, bytes) {
                Some(t) => t,
                None => utf8_lossy(bytes),
            }
        },
        None => utf8_lossy(bytes),
    }
}

/// Decodes response bytes in the site's declared encoding.
pub fn decode_with_encoding(bytes: &[u8], encoding: Option<&str>) -> (r: String)
    ensures
        r@ == decoded_text(bytes@, opt_view(encoding)),
        (encoding is None || names_utf8(encoding->0@)) && valid_utf8(bytes@) ==> r@ == decode_utf8(
            bytes@,
        ),
{
    let label = match encoding {
        Some(e) => e,
        None => {
            return lossy_utf8(bytes);
        },
    };
    let lower = to_ascii_lowercase(label);
    if chars_eq(lower.as_str(), "utf-8") || chars_eq(lower.as_str(), "utf8") {
        return lossy_utf8(bytes);
    }
    match decode_with_label(label, bytes) {
        Some(t) => t,
        None => lossy_utf8(bytes),
    }
}

/// A response as the transport hands it over.
#[derive(Debug)]
pub struct HttpResponse {
    pub status: u16,
    pub headers: Vec<(String, String)>,
    pub body: Vec<u8>,
}

/// The message of a failing status other than 404 and 503.
pub open spec fn status_message(status: u16, url: Seq<char>) -> Seq<char> {
    "HTTP "@ + decimal(status as nat) + " while fetching "@ + url
}

/// Maps an HTTP status to the error narou.rb users expect: 404 is
/// `NotFound` (the novel was deleted or made private), 503 is
/// `SuspendDownload` (rate limited), any other status outside 200–299 is
/// `Http`; a success hands the response back.
pub fn ensure_success_response(url: &str, response: HttpResponse) -> (r: Result<HttpResponse, NarouError>)
    ensures
        response.status == 404 ==> (r matches Err(NarouError::NotFound(m)) && m@ == url@),
        response.status == 503 ==> (r matches Err(NarouError::SuspendDownload(m)) && m@
            == "Rate limited (503)"@),
        response.status != 404 && response.status != 503 && !(200 <= response.status < 300) ==> (
        r matches Err(NarouError::Http(m)) && m@ == status_message(response.status, url@)),
        200 <= response.status < 300 ==> (r matches Ok(v) && v == response),
{
    let status = response.status;
    if status == 404 {
        return Err(NarouError::NotFound(url.to_owned()));
    }
    if status == 503 {
        return Err(NarouError::SuspendDownload("Rate limited (503)".to_owned()));
    }
    if status < 200 || status >= 300 {
        let mut m = "HTTP ".to_owned();
        m.append(decimal_string(status as usize).as_str());
        m.append(" while fetching ");
        m.append(url);
        return Err(NarouError::Http(m));
    }
    Ok(response)
}

} // verus!
