//! Dates as novel sites write them, read with `chrono`: instants are kept
//! as whole seconds since the Unix epoch and the nanoseconds past them.
use chrono::Datelike;
use vstd::prelude::*;
use vstd::string::*;

use crate::downloader::novel_info::{narou_date_text, normalize_narou_date};
use crate::text::{
    decimal, decimal_string, drop_end, parse_i64, parse_i64_text, push_char, text_le, text_le_exec,
    to_chars, trim, trim_end_set, trim_seq, TrimSet,
};

verus! {

/// An instant: seconds since the Unix epoch and nanoseconds past them.
pub type Instant = (i64, u32);

/// What `DateTime::<Utc>::from_timestamp(secs, 0)` gives, as an instant
/// (`None` outside chrono's range).
pub uninterp spec fn chrono_from_timestamp(secs: i64) -> Option<(i64, u32)>;

/// What `DateTime::parse_from_rfc3339` reads from `text`, as an instant.
pub uninterp spec fn chrono_rfc3339(text: Seq<char>) -> Option<(i64, u32)>;

/// What `DateTime::parse_from_str(text, format)` reads, as an instant.
pub uninterp spec fn chrono_offset_datetime(text: Seq<char>, format: Seq<char>) -> Option<(i64, u32)>;

/// What `NaiveDateTime::parse_from_str(text, format)` reads, taken as UTC.
pub uninterp spec fn chrono_naive_datetime(text: Seq<char>, format: Seq<char>) -> Option<(i64, u32)>;

/// What `NaiveDate::parse_from_str(text, format)` reads, at midnight UTC.
pub uninterp spec fn chrono_naive_date(text: Seq<char>, format: Seq<char>) -> Option<(i64, u32)>;

/// The UTC year, month and day of an instant, as `chrono` counts them
/// (`None` for an instant outside its range).
pub uninterp spec fn chrono_civil_date(secs: i64, nanos: u32) -> Option<(i32, u32, u32)>;

/// The instant of `secs` seconds since the epoch:
/// `DateTime::from_timestamp(secs, 0)`, which has those seconds and no
/// nanoseconds.
#[verifier::external_body]
fn from_timestamp(secs: i64) -> (r: Option<Instant>)
    ensures
        r == chrono_from_timestamp(secs),
        r matches Some(i) ==> i.0 == secs && i.1 == 0,
{
    chrono::DateTime::from_timestamp(secs, 0).map(|dt| (dt.timestamp(), dt.timestamp_subsec_nanos()))
}

/// An RFC 3339 date and time: `DateTime::parse_from_rfc3339`.
#[verifier::external_body]
fn parse_rfc3339(text: &str) -> (r: Option<Instant>)
    ensures
        r == chrono_rfc3339(text@),
{
    chrono::DateTime::parse_from_rfc3339(text).ok().map(
        |dt| (dt.timestamp(), dt.timestamp_subsec_nanos()),
    )
}

/// A date and time with an offset in `format`: `DateTime::parse_from_str`.
#[verifier::external_body]
fn parse_offset_datetime(text: &str, format: &str) -> (r: Option<Instant>)
    ensures
        r == chrono_offset_datetime(text@, format@),
{
    chrono::DateTime::parse_from_str(text, format).ok().map(
        |dt| (dt.timestamp(), dt.timestamp_subsec_nanos()),
    )
}

/// A date and time without an offset in `format`, taken as UTC:
/// `NaiveDateTime::parse_from_str`.
#[verifier::external_body]
fn parse_naive_datetime(text: &str, format: &str) -> (r: Option<Instant>)
    ensures
        r == chrono_naive_datetime(text@, format@),
{
    chrono::NaiveDateTime::parse_from_str(text, format).ok().map(
        |dt| (dt.and_utc().timestamp(), dt.and_utc().timestamp_subsec_nanos()),
    )
}

/// A date in `format`, at midnight UTC: `NaiveDate::parse_from_str`.
#[verifier::external_body]
fn parse_naive_date(text: &str, format: &str) -> (r: Option<Instant>)
    ensures
        r == chrono_naive_date(text@, format@),
{
    chrono::NaiveDate::parse_from_str(text, format).ok().and_then(|d| d.and_hms_opt(0, 0, 0)).map(
        |dt| (dt.and_utc().timestamp(), dt.and_utc().timestamp_subsec_nanos()),
    )
}

/// The UTC calendar date of an instant: `DateTime::from_timestamp`, then
/// `year`, `month` and `day`.
#[verifier::external_body]
fn civil_date(secs: i64, nanos: u32) -> (r: Option<(i32, u32, u32)>)
    ensures
        r == chrono_civil_date(secs, nanos),
{
    chrono::DateTime::from_timestamp(secs, nanos).map(|dt| (dt.year(), dt.month(), dt.day()))
}

/// `a` is later than `b`.
pub open spec fn later(a: Instant, b: Instant) -> bool {
    a.0 > b.0 || (a.0 == b.0 && a.1 > b.1)
}

/// The replacement of one character of a date written with kanji units:
/// `年` and `月` become `/`, `時` and `分` become `:`, `日` and `秒` go.
pub open spec fn kanji_unit_text(c: char) -> Seq<char> {
    if c == '年' || c == '月' {
        seq!['/']
    } else if c == '時' || c == '分' {
        seq![':']
    } else if c == '日' || c == '秒' {
        Seq::empty()
    } else {
        seq![c]
    }
}

/// A date with its kanji units replaced.
pub open spec fn kanji_units_replaced(s: Seq<char>) -> Seq<char>
    decreases s.len(),
{
    if s.len() == 0 {
        Seq::empty()
    } else {
        kanji_units_replaced(s.drop_last()) + kanji_unit_text(s.last())
    }
}

/// The text a loosely written date is read from: trimmed, its kanji units
/// replaced, trimmed again and without trailing colons.
pub open spec fn loose_text(value: Seq<char>) -> Seq<char> {
    drop_end(trim_seq(kanji_units_replaced(trim_seq(value))), TrimSet::Colon)
}

/// The formats without an offset that a loose date is tried in, in turn.
pub open spec fn loose_formats() -> Seq<Seq<char>> {
    seq![
        "%Y-%m-%d %H:%M:%S"@,
        "%Y-%m-%d %H:%M"@,
        "%Y-%m-%d"@,
        "%Y/%m/%d %H:%M:%S"@,
        "%Y/%m/%d %H:%M"@,
        "%Y/%m/%d"@,
    ]
}

/// The first of `formats` that reads `v`, as a date and time or else as a
/// date at midnight.
pub open spec fn first_format_match(v: Seq<char>, formats: Seq<Seq<char>>) -> Option<Instant>
    decreases formats.len(),
{
    if formats.len() == 0 {
        None
    } else {
        match chrono_naive_datetime(v, formats[0]) {
            Some(i) => Some(i),
            None => match chrono_naive_date(v, formats[0]) {
                Some(i) => Some(i),
                None => first_format_match(v, formats.drop_first()),
            },
        }
    }
}

/// The instant a loosely written date stands for: a number of seconds since
/// the epoch, an RFC 3339 date, a date with an offset, or a date in one of
/// the loose formats, taken as UTC.
pub open spec fn loose_datetime(value: Seq<char>) -> Option<Instant> {
    if trim_seq(value).len() == 0 {
        None
    } else {
        let v = loose_text(value);
        match parse_i64_text(v) {
            Some(ts) => chrono_from_timestamp(ts),
            None => match chrono_rfc3339(v) {
                Some(i) => Some(i),
                None => match chrono_offset_datetime(v, "%Y-%m-%d %H:%M:%S%.f %z"@) {
                    Some(i) => Some(i),
                    None => first_format_match(v, loose_formats()),
                },
            },
        }
    }
}

fn loose_format(i: usize) -> (r: &'static str)
    requires
        i < 6,
    ensures
        r@ == loose_formats()[i as int],
{
    if i == 0 {
        "%Y-%m-%d %H:%M:%S"
    } else if i == 1 {
        "%Y-%m-%d %H:%M"
    } else if i == 2 {
        "%Y-%m-%d"
    } else if i == 3 {
        "%Y/%m/%d %H:%M:%S"
    } else if i == 4 {
        "%Y/%m/%d %H:%M"
    } else {
        "%Y/%m/%d"
    }
}

fn replace_kanji_units(s: &str) -> (r: String)
    ensures
        r@ == kanji_units_replaced(s@),
{
    let v = to_chars(s);
    let mut out = String::new();
    let mut i: usize = 0;
    while i < v.len()
        invariant
            v@ == s@,
            i <= v@.len(),
            out@ == kanji_units_replaced(v@.take(i as int)),
        decreases v@.len() - i,
    {
        assert(v@.take(i + 1).drop_last() =~= v@.take(i as int));
        let c = v[i];
        let ghost before = out@;
        if c == '年' || c == '月' {
            push_char(&mut out, '/');
        } else if c == '時' || c == '分' {
            push_char(&mut out, ':');
        } else if c == '日' || c == '秒' {
        } else {
            push_char(&mut out, c);
        }
        assert(out@ =~= before + kanji_unit_text(c));
        i = i + 1;
    }
    assert(v@.take(v@.len() as int) =~= v@);
    out
}

/// Reads a loosely written date.
#[verifier::loop_isolation(false)]
pub fn parse_loose_datetime(value: &str) -> (r: Option<Instant>)
    ensures
        r == loose_datetime(value@),
{
    let trimmed = trim(value);
    if trimmed.as_str().unicode_len() == 0 {
        return None;
    }
    let replaced = replace_kanji_units(trimmed.as_str());
    let retrimmed = trim(replaced.as_str());
    let v = trim_end_set(retrimmed.as_str(), TrimSet::Colon);
    assert(v@ == loose_text(value@));
    if let Some(ts) = parse_i64(v.as_str()) {
        return from_timestamp(ts);
    }
    if let Some(i) = parse_rfc3339(v.as_str()) {
        return Some(i);
    }
    if let Some(i) = parse_offset_datetime(v.as_str(), "%Y-%m-%d %H:%M:%S%.f %z") {
        return Some(i);
    }
    let mut k: usize = 0;
    assert(loose_formats().skip(0) =~= loose_formats());
    while k < 6
        invariant
            k <= 6,
            v@ == loose_text(value@),
            first_format_match(v@, loose_formats()) == first_format_match(
                v@,
                loose_formats().skip(k as int),
            ),
        decreases 6 - k,
    {
        let format = loose_format(k);
        assert(loose_formats().skip(k as int)[0] == loose_formats()[k as int]);
        if let Some(i) = parse_naive_datetime(v.as_str(), format) {
            return Some(i);
        }
        if let Some(i) = parse_naive_date(v.as_str(), format) {
            return Some(i);
        }
        assert(loose_formats().skip(k as int).drop_first() =~= loose_formats().skip(k + 1));
        k = k + 1;
    }
    None
}

/// Whether the date `latest` is newer than `old`: compared as instants when
/// both read as dates, else as text.
pub open spec fn date_is_newer(latest: Seq<char>, old: Seq<char>) -> bool {
    match (loose_datetime(latest), loose_datetime(old)) {
        (Some(a), Some(b)) => later(a, b),
        _ => !text_le(latest, old),
    }
}

/// Whether the date `latest` is newer than `old`.
pub fn date_string_is_newer(latest: &str, old: &str) -> (b: bool)
    ensures
        b == date_is_newer(latest@, old@),
{
    match (parse_loose_datetime(latest), parse_loose_datetime(old)) {
        (Some(a), Some(b)) => a.0 > b.0 || (a.0 == b.0 && a.1 > b.1),
        _ => !text_le_exec(latest, old),
    }
}

/// `d` zero-padded on the left to `width` characters.
pub open spec fn zero_padded(d: Seq<char>, width: nat) -> Seq<char> {
    if d.len() < width {
        Seq::new((width - d.len()) as nat, |i: int| '0') + d
    } else {
        d
    }
}

/// What `format!("{:0w$}", v)` writes for an integer: its decimal digits
/// zero-padded to `width`, a minus sign counting towards the width.
pub open spec fn padded_decimal(v: int, width: nat) -> Seq<char> {
    if v < 0 {
        seq!['-'] + zero_padded(decimal((-v) as nat), (if width > 0 {
            width - 1
        } else {
            0
        }) as nat)
    } else {
        zero_padded(decimal(v as nat), width)
    }
}

fn pad_zeros(d: String, width: usize) -> (r: String)
    ensures
        r@ == zero_padded(d@, width as nat),
{
    let n = d.as_str().unicode_len();
    if n >= width {
        return d;
    }
    let mut r = String::new();
    let mut i: usize = 0;
    while i < width - n
        invariant
            n == d@.len(),
            n < width,
            i <= width - n,
            r@ == Seq::new(i as nat, |j: int| '0'),
        decreases width - n - i,
    {
        push_char(&mut r, '0');
        i = i + 1;
        assert(r@ =~= Seq::new(i as nat, |j: int| '0'));
    }
    r.append(d.as_str());
    r
}

fn padded_i32(v: i32, width: usize) -> (r: String)
    requires
        width > 0,
    ensures
        r@ == padded_decimal(v as int, width as nat),
{
    if v < 0 {
        let magnitude: usize = (-(v as i64)) as usize;
        let mut r = String::new();
        push_char(&mut r, '-');
        let digits = pad_zeros(decimal_string(magnitude), width - 1);
        r.append(digits.as_str());
        r
    } else {
        pad_zeros(decimal_string(v as usize), width)
    }
}

/// The `YYYYMMDD` of the UTC date a loosely written date stands for.
pub open spec fn date_ymd(value: Seq<char>) -> Option<Seq<char>> {
    match loose_datetime(value) {
        Some(i) => match chrono_civil_date(i.0, i.1) {
            Some((y, m, d)) => Some(
                padded_decimal(y as int, 4) + padded_decimal(m as int, 2) + padded_decimal(d as int, 2),
            ),
            None => None,
        },
        None => None,
    }
}

/// The `YYYYMMDD` of a loosely written date.
pub fn date_string_to_ymd(value: &str) -> (r: Option<String>)
    ensures
        match r {
            Some(s) => date_ymd(value@) == Some(s@),
            None => date_ymd(value@) is None,
        },
{
    let instant = match parse_loose_datetime(value) {
        Some(i) => i,
        None => {
            return None;
        },
    };
    match civil_date(instant.0, instant.1) {
        Some((y, m, d)) => {
            let mut s = padded_i32(y, 4);
            s.append(pad_zeros(decimal_string(m as usize), 2).as_str());
            s.append(pad_zeros(decimal_string(d as usize), 2).as_str());
            Some(s)
        },
        None => None,
    }
}

/// The instant a date of a novel information page stands for: the date
/// made readable (see [`narou_date_text`]), then read as seconds since the
/// epoch, an RFC 3339 date, or a date in one of the loose formats taken as
/// UTC.
pub open spec fn narou_datetime(value: Seq<char>) -> Option<Instant> {
    let v = trim_seq(narou_date_text(value));
    if v.len() == 0 {
        None
    } else {
        match parse_i64_text(v) {
            Some(ts) => chrono_from_timestamp(ts),
            None => match chrono_rfc3339(v) {
                Some(i) => Some(i),
                None => first_format_match(v, loose_formats()),
            },
        }
    }
}

/// Reads a date of a novel information page (see [`narou_datetime`]).
pub fn parse_narou_date(value: &str) -> (r: Option<Instant>)
    ensures
        r == narou_datetime(value@),
{
    let normalized = normalize_narou_date(value);
    let v = trim(normalized.as_str());
    if v.as_str().unicode_len() == 0 {
        return None;
    }
    if let Some(ts) = parse_i64(v.as_str()) {
        return from_timestamp(ts);
    }
    if let Some(i) = parse_rfc3339(v.as_str()) {
        return Some(i);
    }
    first_loose_format(v.as_str())
}

fn first_loose_format(v: &str) -> (r: Option<Instant>)
    ensures
        r == first_format_match(v@, loose_formats()),
{
    let mut k: usize = 0;
    assert(loose_formats().skip(0) =~= loose_formats());
    while k < 6
        invariant
            k <= 6,
            first_format_match(v@, loose_formats()) == first_format_match(v@, loose_formats().skip(k as int)),
        decreases 6 - k,
    {
        let format = loose_format(k);
        assert(loose_formats().skip(k as int)[0] == loose_formats()[k as int]);
        if let Some(i) = parse_naive_datetime(v, format) {
            return Some(i);
        }
        if let Some(i) = parse_naive_date(v, format) {
            return Some(i);
        }
        assert(loose_formats().skip(k as int).drop_first() =~= loose_formats().skip(k + 1));
        k = k + 1;
    }
    None
}

/// What `NaiveDateTime::parse_from_str(text, format)` reads, taken as a
/// time in Japan (UTC+9) by `FixedOffset::from_local_datetime`, as an
/// instant.
pub uninterp spec fn chrono_jst_datetime(text: Seq<char>, format: Seq<char>) -> Option<(i64, u32)>;

/// The text `DateTime::format("%Y-%m-%d %H:%M:%S.%f %:z")` writes for an
/// instant seen in Japan (UTC+9), `None` for an instant outside chrono's
/// range.
pub uninterp spec fn chrono_ruby_text(secs: i64, nanos: u32) -> Option<Seq<char>>;

/// A date and time without an offset in `format`, as a time in Japan:
/// `NaiveDateTime::parse_from_str`, then `FixedOffset::from_local_datetime`.
#[verifier::external_body]
fn parse_jst_datetime(text: &str, format: &str) -> (r: Option<Instant>)
    ensures
        r == chrono_jst_datetime(text@, format@),
{
    let jst = chrono::FixedOffset::east_opt(9 * 3600)?;
    let naive = chrono::NaiveDateTime::parse_from_str(text, format).ok()?;
    match chrono::TimeZone::from_local_datetime(&jst, &naive) {
        chrono::LocalResult::Single(local) | chrono::LocalResult::Ambiguous(local, _) => Some(
            (local.timestamp(), local.timestamp_subsec_nanos()),
        ),
        chrono::LocalResult::None => None,
    }
}

/// An instant written in Japan time: `DateTime::from_timestamp`,
/// `with_timezone(UTC+9)` and `format("%Y-%m-%d %H:%M:%S.%f %:z")`.
#[verifier::external_body]
fn jst_text(secs: i64, nanos: u32) -> (r: Option<String>)
    ensures
        match r {
            Some(t) => chrono_ruby_text(secs, nanos) == Some(t@),
            None => chrono_ruby_text(secs, nanos) is None,
        },
{
    let jst = chrono::FixedOffset::east_opt(9 * 3600)?;
    let dt = chrono::DateTime::from_timestamp(secs, nanos)?;
    Some(dt.with_timezone(&jst).format("%Y-%m-%d %H:%M:%S.%f %:z").to_string())
}

/// The formats with an offset a stored time is tried in, in turn.
pub open spec fn ruby_offset_formats() -> Seq<Seq<char>> {
    seq!["%Y-%m-%d %H:%M:%S%.f %:z"@, "%Y-%m-%d %H:%M:%S%.f %z"@, "%Y-%m-%d %H:%M:%S %:z"@, "%Y-%m-%d %H:%M:%S %z"@]
}

/// The formats without an offset a stored time is tried in (as Japan time).
pub open spec fn ruby_local_formats() -> Seq<Seq<char>> {
    seq!["%Y-%m-%d %H:%M:%S%.f"@, "%Y-%m-%d %H:%M:%S"@]
}

pub open spec fn first_offset_match(v: Seq<char>, formats: Seq<Seq<char>>) -> Option<Instant>
    decreases formats.len(),
{
    if formats.len() == 0 {
        None
    } else {
        match chrono_offset_datetime(v, formats[0]) {
            Some(i) => Some(i),
            None => first_offset_match(v, formats.drop_first()),
        }
    }
}

pub open spec fn first_local_match(v: Seq<char>, formats: Seq<Seq<char>>) -> Option<Instant>
    decreases formats.len(),
{
    if formats.len() == 0 {
        None
    } else {
        match chrono_jst_datetime(v, formats[0]) {
            Some(i) => Some(i),
            None => first_local_match(v, formats.drop_first()),
        }
    }
}

/// The instant a time stored by narou.rb stands for: seconds since the
/// epoch, an RFC 3339 time, a time with an offset, or a time without one
/// taken as Japan time.
pub open spec fn ruby_time(value: Seq<char>) -> Option<Instant> {
    let v = trim_seq(value);
    if v.len() == 0 {
        None
    } else {
        match parse_i64_text(v) {
            Some(ts) => chrono_from_timestamp(ts),
            None => match chrono_rfc3339(v) {
                Some(i) => Some(i),
                None => match first_offset_match(v, ruby_offset_formats()) {
                    Some(i) => Some(i),
                    None => first_local_match(v, ruby_local_formats()),
                },
            },
        }
    }
}

/// Reads a time as narou.rb stores it (see [`ruby_time`]).
#[verifier::loop_isolation(false)]
pub fn parse_ruby_time(value: &str) -> (r: Option<Instant>)
    ensures
        r == ruby_time(value@),
{
    let v = trim(value);
    if v.as_str().unicode_len() == 0 {
        return None;
    }
    if let Some(ts) = parse_i64(v.as_str()) {
        return from_timestamp(ts);
    }
    if let Some(i) = parse_rfc3339(v.as_str()) {
        return Some(i);
    }
    let offset_formats = ["%Y-%m-%d %H:%M:%S%.f %:z", "%Y-%m-%d %H:%M:%S%.f %z", "%Y-%m-%d %H:%M:%S %:z", "%Y-%m-%d %H:%M:%S %z"];
    let mut k: usize = 0;
    assert(ruby_offset_formats().skip(0) =~= ruby_offset_formats());
    while k < 4
        invariant
            k <= 4,
            offset_formats@.map_values(|f: &str| f@) == ruby_offset_formats(),
            first_offset_match(v@, ruby_offset_formats()) == first_offset_match(v@, ruby_offset_formats().skip(k as int)),
        decreases 4 - k,
    {
        assert(ruby_offset_formats().skip(k as int)[0] == ruby_offset_formats()[k as int]);
        if let Some(i) = parse_offset_datetime(v.as_str(), offset_formats[k]) {
            return Some(i);
        }
        assert(ruby_offset_formats().skip(k as int).drop_first() =~= ruby_offset_formats().skip(k + 1));
        k = k + 1;
    }
    let local_formats = ["%Y-%m-%d %H:%M:%S%.f", "%Y-%m-%d %H:%M:%S"];
    let mut m: usize = 0;
    assert(ruby_local_formats().skip(0) =~= ruby_local_formats());
    assert(ruby_offset_formats().skip(4) =~= Seq::<Seq<char>>::empty());
    while m < 2
        invariant
            m <= 2,
            local_formats@.map_values(|f: &str| f@) == ruby_local_formats(),
            first_local_match(v@, ruby_local_formats()) == first_local_match(v@, ruby_local_formats().skip(m as int)),
        decreases 2 - m,
    {
        assert(ruby_local_formats().skip(m as int)[0] == ruby_local_formats()[m as int]);
        if let Some(i) = parse_jst_datetime(v.as_str(), local_formats[m]) {
            return Some(i);
        }
        assert(ruby_local_formats().skip(m as int).drop_first() =~= ruby_local_formats().skip(m + 1));
        m = m + 1;
    }
    assert(ruby_local_formats().skip(2) =~= Seq::<Seq<char>>::empty());
    None
}

/// A time written as narou.rb stores it: in Japan time with nanoseconds and
/// the offset; `None` for an instant outside chrono's range.
pub fn format_ruby_time(value: Instant) -> (r: Option<String>)
    ensures
        match r {
            Some(t) => chrono_ruby_text(value.0, value.1) == Some(t@),
            None => chrono_ruby_text(value.0, value.1) is None,
        },
{
    jst_text(value.0, value.1)
}

} // verus!
