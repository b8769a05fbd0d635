//! The values a `preprocess:` definition computes with: JSON values, with
//! the size limits every value is held to.
use vstd::prelude::*;
use vstd::utf8::encode_utf8;
use crate::text::{decimal, decimal_string, join, join_seq, parse_i64, parse_i64_text, push_char, trim, trim_seq};

verus! {

/// The most bytes a string may have.
pub const PREPROCESS_MAX_STRING_BYTES: usize = 16777216;

/// The most items an array may have.
pub const PREPROCESS_MAX_ARRAY_ITEMS: usize = 100000;

/// A JSON value. Numbers are integers, unsigned integers beyond the signed
/// range, or other numbers kept as their text with whether they are zero.
pub enum JsonValue {
    Null,
    Bool(bool),
    Int(i64),
    UInt(u64),
    Float(String, bool),
    String(String),
    Array(Vec<JsonValue>),
    Object(Vec<(String, JsonValue)>),
}

/// The view of a JSON value.
pub enum JsonView {
    Null,
    Bool(bool),
    Int(i64),
    UInt(u64),
    /// A number by its text, and whether it is not zero.
    Float(Seq<char>, bool),
    Str(Seq<char>),
    Array(Seq<JsonView>),
    Object(Seq<(Seq<char>, JsonView)>),
}

pub open spec fn json_view(v: JsonValue) -> JsonView
    decreases v,
{
    match v {
        JsonValue::Null => JsonView::Null,
        JsonValue::Bool(b) => JsonView::Bool(b),
        JsonValue::Int(i) => JsonView::Int(i),
        JsonValue::UInt(u) => JsonView::UInt(u),
        JsonValue::Float(t, nz) => JsonView::Float(t@, nz),
        JsonValue::String(s) => JsonView::Str(s@),
        JsonValue::Array(items) => JsonView::Array(
            Seq::new(
                items@.len(),
                |i: int|
                    if 0 <= i < items@.len() {
                        proof {
                            assert(decreases_to!(v => v->Array_0));
                            assert(decreases_to!(v->Array_0 => items@));
                            assert(decreases_to!(items@ => items@[i]));
                        }
                        json_view(items@[i])
                    } else {
                        JsonView::Null
                    },
            ),
        ),
        JsonValue::Object(entries) => JsonView::Object(
            Seq::new(
                entries@.len(),
                |i: int|
                    if 0 <= i < entries@.len() {
                        proof {
                            assert(decreases_to!(v => v->Object_0));
                            assert(decreases_to!(v->Object_0 => entries@));
                            assert(decreases_to!(entries@ => entries@[i]));
                            assert(decreases_to!(entries@[i] => entries@[i].1));
                        }
                        (entries@[i].0@, json_view(entries@[i].1))
                    } else {
                        (Seq::empty(), JsonView::Null)
                    },
            ),
        ),
    }
}

impl View for JsonValue {
    type V = JsonView;

    open spec fn view(&self) -> JsonView {
        json_view(*self)
    }
}

/// The number of bytes of `s` in UTF-8.
pub open spec fn byte_len(s: Seq<char>) -> nat {
    encode_utf8(s).len()
}

/// Whether a value keeps to the limits: no string over
/// [`PREPROCESS_MAX_STRING_BYTES`], no array over
/// [`PREPROCESS_MAX_ARRAY_ITEMS`], nested values included (object keys are
/// not counted).
pub open spec fn fits(w: JsonView) -> bool
    decreases w,
{
    match w {
        JsonView::Str(s) => byte_len(s) <= PREPROCESS_MAX_STRING_BYTES,
        JsonView::Array(items) => {
            proof {
                assert(decreases_to!(w => w->Array_0));
            }
            items.len() <= PREPROCESS_MAX_ARRAY_ITEMS && all_fit(items)
        },
        JsonView::Object(entries) => {
            proof {
                assert(decreases_to!(w => w->Object_0));
            }
            entries_fit(entries)
        },
        _ => true,
    }
}

/// Whether every value of `items` keeps to the limits.
pub open spec fn all_fit(items: Seq<JsonView>) -> bool
    decreases items,
{
    if items.len() == 0 {
        true
    } else {
        proof {
            assert(decreases_to!(items => items.subrange(0, items.len() - 1)));
            assert(decreases_to!(items => items[items.len() - 1]));
        }
        all_fit(items.subrange(0, items.len() - 1)) && fits(items[items.len() - 1])
    }
}

/// Whether every value of `entries` keeps to the limits.
pub open spec fn entries_fit(entries: Seq<(Seq<char>, JsonView)>) -> bool
    decreases entries,
{
    if entries.len() == 0 {
        true
    } else {
        proof {
            assert(decreases_to!(entries => entries.subrange(0, entries.len() - 1)));
            assert(decreases_to!(entries => entries[entries.len() - 1]));
            assert(decreases_to!(entries[entries.len() - 1] => entries[entries.len() - 1].1));
        }
        entries_fit(entries.subrange(0, entries.len() - 1)) && fits(entries[entries.len() - 1].1)
    }
}

/// The decimal text of an integer.
pub open spec fn int_text(i: int) -> Seq<char> {
    if i < 0 {
        seq!['-'] + decimal((-i) as nat)
    } else {
        decimal(i as nat)
    }
}

/// The text of a value: a string as it is, a number or `true`/`false` as
/// written, an array as its items' texts on separate lines, anything else
/// empty.
pub open spec fn text_of(w: JsonView) -> Seq<char>
    decreases w,
{
    match w {
        JsonView::Str(s) => s,
        JsonView::Int(i) => int_text(i as int),
        JsonView::UInt(u) => decimal(u as nat),
        JsonView::Float(t, _) => t,
        JsonView::Bool(b) => if b {
            "true"@
        } else {
            "false"@
        },
        JsonView::Array(items) => {
            proof {
                assert(decreases_to!(w => w->Array_0));
            }
            join_seq(texts_of(items), "\n"@)
        },
        _ => Seq::empty(),
    }
}

/// The texts of the values of `items`, in order.
pub open spec fn texts_of(items: Seq<JsonView>) -> Seq<Seq<char>>
    decreases items,
{
    if items.len() == 0 {
        Seq::empty()
    } else {
        proof {
            assert(decreases_to!(items => items.subrange(0, items.len() - 1)));
            assert(decreases_to!(items => items[items.len() - 1]));
        }
        texts_of(items.subrange(0, items.len() - 1)).push(text_of(items[items.len() - 1]))
    }
}

/// Whether a value counts as true: not null, not `false`, not zero, not
/// empty.
pub open spec fn truthy(w: JsonView) -> bool {
    match w {
        JsonView::Null => false,
        JsonView::Bool(b) => b,
        JsonView::Int(i) => i != 0,
        JsonView::UInt(u) => u != 0,
        JsonView::Float(_, nonzero) => nonzero,
        JsonView::Str(s) => s.len() > 0,
        JsonView::Array(a) => a.len() > 0,
        JsonView::Object(m) => m.len() > 0,
    }
}

/// Whether two values are equal as the language compares them: nulls,
/// booleans, strings and numbers by value; arrays and objects never.
pub open spec fn json_equal(a: JsonView, b: JsonView) -> bool {
    match (a, b) {
        (JsonView::Null, JsonView::Null) => true,
        (JsonView::Bool(x), JsonView::Bool(y)) => x == y,
        (JsonView::Str(x), JsonView::Str(y)) => x == y,
        (JsonView::Int(x), JsonView::Int(y)) => x == y,
        (JsonView::UInt(x), JsonView::UInt(y)) => x == y,
        (JsonView::Float(x, _), JsonView::Float(y, _)) => x == y,
        _ => false,
    }
}

/// The integer a value stands for in arithmetic: an integer number, or a
/// string that reads as one once trimmed.
pub open spec fn integer_of(w: JsonView) -> Option<i64> {
    match w {
        JsonView::Int(i) => Some(i),
        JsonView::Str(s) => parse_i64_text(trim_seq(s)),
        _ => None,
    }
}

/// The position a number stands for as an index: a non-negative integer,
/// anything else 0.
pub open spec fn index_of(w: JsonView) -> int {
    match w {
        JsonView::Int(i) => if i >= 0 {
            i as int
        } else {
            0
        },
        JsonView::UInt(u) => u as int,
        _ => 0,
    }
}

/// The value of `key` in an object (the first entry with that key), null
/// for anything else.
pub open spec fn field_of(w: JsonView, key: Seq<char>) -> JsonView {
    match w {
        JsonView::Object(entries) => match first_key(entries, key) {
            Some(i) => entries[i].1,
            None => JsonView::Null,
        },
        _ => JsonView::Null,
    }
}

/// The position of the first entry with `key`.
pub open spec fn first_key(entries: Seq<(Seq<char>, JsonView)>, key: Seq<char>) -> Option<int> {
    if exists|i: int| 0 <= i < entries.len() && #[trigger] entries[i].0 == key {
        let i = choose|i: int|
            0 <= i < entries.len() && #[trigger] entries[i].0 == key && forall|j: int|
                0 <= j < i ==> #[trigger] entries[j].0 != key;
        Some(i)
    } else {
        None
    }
}

/// The item at `index` of an array, null for anything else.
pub open spec fn item_of(w: JsonView, index: int) -> JsonView {
    match w {
        JsonView::Array(items) => if 0 <= index < items.len() {
            items[index]
        } else {
            JsonView::Null
        },
        _ => JsonView::Null,
    }
}

/// A copy of a value.
pub fn duplicate(v: &JsonValue) -> (r: JsonValue)
    ensures
        r@ == v@,
    decreases *v,
{
    match v {
        JsonValue::Null => JsonValue::Null,
        JsonValue::Bool(b) => JsonValue::Bool(*b),
        JsonValue::Int(i) => JsonValue::Int(*i),
        JsonValue::UInt(u) => JsonValue::UInt(*u),
        JsonValue::Float(t, nz) => JsonValue::Float(t.clone(), *nz),
        JsonValue::String(s) => JsonValue::String(s.clone()),
        JsonValue::Array(items) => {
            let mut out: Vec<JsonValue> = Vec::new();
            let mut i: usize = 0;
            while i < items.len()
                invariant
                    i <= items@.len(),
                    *v == JsonValue::Array(*items),
                    out@.len() == i,
                    forall|j: int| 0 <= j < i ==> json_view(#[trigger] out@[j]) == json_view(items@[j]),
                decreases items@.len() - i,
            {
                assert(decreases_to!(*v => v->Array_0));
                assert(decreases_to!(v->Array_0 => items@));
                assert(decreases_to!(items@ => items@[i as int]));
                out.push(duplicate(&items[i]));
                i = i + 1;
            }
            let r = JsonValue::Array(out);
            assert(r@ =~= v@) by {
                if let JsonView::Array(a) = r@ {
                    if let JsonView::Array(b) = v@ {
                        assert(a =~= b);
                    }
                }
            }
            r
        },
        JsonValue::Object(entries) => {
            let mut out: Vec<(String, JsonValue)> = Vec::new();
            let mut i: usize = 0;
            while i < entries.len()
                invariant
                    i <= entries@.len(),
                    *v == JsonValue::Object(*entries),
                    out@.len() == i,
                    forall|j: int|
                        0 <= j < i ==> (#[trigger] out@[j]).0@ == entries@[j].0@ && json_view(out@[j].1)
                            == json_view(entries@[j].1),
                decreases entries@.len() - i,
            {
                assert(decreases_to!(*v => v->Object_0));
                assert(decreases_to!(v->Object_0 => entries@));
                assert(decreases_to!(entries@ => entries@[i as int]));
                assert(decreases_to!(entries@[i as int] => entries@[i as int].1));
                let k = entries[i].0.clone();
                let d = duplicate(&entries[i].1);
                out.push((k, d));
                i = i + 1;
            }
            let r = JsonValue::Object(out);
            assert(r@ =~= v@) by {
                if let JsonView::Object(a) = r@ {
                    if let JsonView::Object(b) = v@ {
                        assert(a =~= b);
                    }
                }
            }
            r
        },
    }
}

/// Fails when `text` is over the string limit.
pub fn check_string_size(text: &str) -> (r: Result<(), String>)
    ensures
        r is Ok <==> byte_len(text@) <= PREPROCESS_MAX_STRING_BYTES,
{
    let bytes = text.as_bytes();
    assert(bytes@ == encode_utf8(text@));
    if bytes.len() > PREPROCESS_MAX_STRING_BYTES {
        return Err("preprocess: string size limit exceeded (16777216 bytes)".to_owned());
    }
    Ok(())
}

/// Fails when `len` is over the array limit.
pub fn check_array_len(len: usize) -> (r: Result<(), String>)
    ensures
        r is Ok <==> len <= PREPROCESS_MAX_ARRAY_ITEMS,
{
    if len > PREPROCESS_MAX_ARRAY_ITEMS {
        return Err("preprocess: array size limit exceeded (100000 items)".to_owned());
    }
    Ok(())
}

/// Fails when a value, or a value nested in it, is over a limit.
pub fn check_value_limits(v: &JsonValue) -> (r: Result<(), String>)
    ensures
        r is Ok <==> fits(v@),
    decreases *v,
{
    match v {
        JsonValue::String(s) => {
            let r = check_string_size(s.as_str());
            assert(v@ == JsonView::Str(s@));
            r
        },
        JsonValue::Array(items) => {
            let ghost a = match v@ {
                JsonView::Array(a) => a,
                _ => Seq::empty(),
            };
            assert(a.len() == items@.len());
            check_array_len(items.len())?;
            let mut i: usize = 0;
            while i < items.len()
                invariant
                    i <= items@.len(),
                    *v == JsonValue::Array(*items),
                    v@ == JsonView::Array(a),
                    a.len() == items@.len(),
                    forall|j: int| 0 <= j < a.len() ==> a[j] == json_view(#[trigger] items@[j]),
                    all_fit(a.subrange(0, i as int)),
                decreases items@.len() - i,
            {
                assert(decreases_to!(*v => v->Array_0));
                assert(decreases_to!(v->Array_0 => items@));
                assert(decreases_to!(items@ => items@[i as int]));
                let checked = check_value_limits(&items[i]);
                proof {
                    assert(a.subrange(0, i + 1).subrange(0, i as int) =~= a.subrange(0, i as int));
                    assert(a[i as int] == json_view(items@[i as int]));
                }
                if checked.is_err() {
                    proof {
                        if all_fit(a) {
                            lemma_all_fit_prefix(a, i + 1);
                            assert(a.subrange(0, i + 1)[i as int] == a[i as int]);
                            assert(fits(a[i as int]));
                        }
                        assert(v@ == JsonView::Array(a));
                    }
                    return checked;
                }
                i = i + 1;
            }
            assert(a.subrange(0, a.len() as int) =~= a);
            Ok(())
        },
        JsonValue::Object(entries) => {
            let ghost a = match v@ {
                JsonView::Object(a) => a,
                _ => Seq::empty(),
            };
            assert(a.len() == entries@.len());
            let mut i: usize = 0;
            while i < entries.len()
                invariant
                    i <= entries@.len(),
                    *v == JsonValue::Object(*entries),
                    v@ == JsonView::Object(a),
                    a.len() == entries@.len(),
                    forall|j: int| 0 <= j < a.len() ==> a[j].1 == json_view(#[trigger] entries@[j].1),
                    entries_fit(a.subrange(0, i as int)),
                decreases entries@.len() - i,
            {
                assert(decreases_to!(*v => v->Object_0));
                assert(decreases_to!(v->Object_0 => entries@));
                assert(decreases_to!(entries@ => entries@[i as int]));
                assert(decreases_to!(entries@[i as int] => entries@[i as int].1));
                let checked = check_value_limits(&entries[i].1);
                proof {
                    assert(a.subrange(0, i + 1).subrange(0, i as int) =~= a.subrange(0, i as int));
                    assert(a[i as int].1 == json_view(entries@[i as int].1));
                }
                if checked.is_err() {
                    proof {
                        if entries_fit(a) {
                            lemma_entries_fit_prefix(a, i + 1);
                            assert(a.subrange(0, i + 1)[i as int] == a[i as int]);
                            assert(fits(a[i as int].1));
                        }
                        assert(v@ == JsonView::Object(a));
                    }
                    return checked;
                }
                i = i + 1;
            }
            assert(a.subrange(0, a.len() as int) =~= a);
            Ok(())
        },
        JsonValue::Null | JsonValue::Bool(_) | JsonValue::Int(_) | JsonValue::UInt(_) | JsonValue::Float(
            _,
            _,
        ) => {
            assert(fits(v@));
            Ok(())
        },
    }
}

/// A prefix of values that keep to the limits keeps to them.
proof fn lemma_all_fit_prefix(items: Seq<JsonView>, k: int)
    requires
        0 <= k <= items.len(),
        all_fit(items),
    ensures
        all_fit(items.subrange(0, k)),
    decreases items.len(),
{
    if k < items.len() {
        assert(items.subrange(0, items.len() - 1).subrange(0, k) =~= items.subrange(0, k));
        lemma_all_fit_prefix(items.subrange(0, items.len() - 1), k);
    } else {
        assert(items.subrange(0, k) =~= items);
    }
}

/// A prefix of entries that keep to the limits keeps to them.
proof fn lemma_entries_fit_prefix(entries: Seq<(Seq<char>, JsonView)>, k: int)
    requires
        0 <= k <= entries.len(),
        entries_fit(entries),
    ensures
        entries_fit(entries.subrange(0, k)),
    decreases entries.len(),
{
    if k < entries.len() {
        assert(entries.subrange(0, entries.len() - 1).subrange(0, k) =~= entries.subrange(0, k));
        lemma_entries_fit_prefix(entries.subrange(0, entries.len() - 1), k);
    } else {
        assert(entries.subrange(0, k) =~= entries);
    }
}

/// The decimal text of `n`.
fn u64_text(n: u64) -> (r: String)
    ensures
        r@ == decimal(n as nat),
    decreases n,
{
    if n < 10 {
        let mut r = String::new();
        push_char(&mut r, (((n as u8) + 48) as u8) as char);
        r
    } else {
        let mut r = u64_text(n / 10);
        push_char(&mut r, ((((n % 10) as u8) + 48) as u8) as char);
        r
    }
}

/// The decimal text of `i`.
fn i64_text(i: i64) -> (r: String)
    ensures
        r@ == int_text(i as int),
{
    if i < 0 {
        let magnitude: u64 = if i == i64::MIN {
            9223372036854775808u64
        } else {
            (-i) as u64
        };
        let mut r = String::new();
        push_char(&mut r, '-');
        let digits = u64_text(magnitude);
        r.append(digits.as_str());
        r
    } else {
        u64_text(i as u64)
    }
}

/// The text of a value (see [`text_of`]).
pub fn value_text(v: &JsonValue) -> (r: String)
    ensures
        r@ == text_of(v@),
    decreases *v,
{
    match v {
        JsonValue::String(s) => s.clone(),
        JsonValue::Int(i) => i64_text(*i),
        JsonValue::UInt(u) => u64_text(*u),
        JsonValue::Float(t, _) => t.clone(),
        JsonValue::Bool(b) => if *b {
            "true".to_owned()
        } else {
            "false".to_owned()
        },
        JsonValue::Array(items) => {
            let ghost a = match v@ {
                JsonView::Array(a) => a,
                _ => Seq::empty(),
            };
            assert(a.len() == items@.len());
            let mut parts: Vec<String> = Vec::new();
            let mut i: usize = 0;
            while i < items.len()
                invariant
                    i <= items@.len(),
                    *v == JsonValue::Array(*items),
                    a.len() == items@.len(),
                    forall|j: int| 0 <= j < a.len() ==> a[j] == json_view(#[trigger] items@[j]),
                    parts@.map_values(|p: String| p@) == texts_of(a.subrange(0, i as int)),
                decreases items@.len() - i,
            {
                assert(decreases_to!(*v => v->Array_0));
                assert(decreases_to!(v->Array_0 => items@));
                assert(decreases_to!(items@ => items@[i as int]));
                let t = value_text(&items[i]);
                let ghost before = parts@;
                parts.push(t);
                proof {
                    assert(a.subrange(0, i + 1).subrange(0, i as int) =~= a.subrange(0, i as int));
                    assert(a[i as int] == json_view(items@[i as int]));
                    assert(parts@.map_values(|p: String| p@) =~= before.map_values(|p: String| p@).push(
                        t@,
                    ));
                }
                i = i + 1;
            }
            let r = join(&parts, "\n");
            proof {
                reveal_strlit("\n");
                assert(a.subrange(0, a.len() as int) =~= a);
            }
            r
        },
        _ => String::new(),
    }
}

/// Whether a value counts as true (see [`truthy`]).
pub fn is_truthy(v: &JsonValue) -> (r: bool)
    ensures
        r == truthy(v@),
{
    match v {
        JsonValue::Null => false,
        JsonValue::Bool(b) => *b,
        JsonValue::Int(i) => *i != 0,
        JsonValue::UInt(u) => *u != 0,
        JsonValue::Float(_, nonzero) => *nonzero,
        JsonValue::String(s) => s.unicode_len() > 0,
        JsonValue::Array(a) => a.len() > 0,
        JsonValue::Object(m) => m.len() > 0,
    }
}

/// Whether two values are equal (see [`json_equal`]).
pub fn values_equal(a: &JsonValue, b: &JsonValue) -> (r: bool)
    ensures
        r == json_equal(a@, b@),
{
    match (a, b) {
        (JsonValue::Null, JsonValue::Null) => true,
        (JsonValue::Bool(x), JsonValue::Bool(y)) => *x == *y,
        (JsonValue::String(x), JsonValue::String(y)) => crate::text::chars_eq(x.as_str(), y.as_str()),
        (JsonValue::Int(x), JsonValue::Int(y)) => *x == *y,
        (JsonValue::UInt(x), JsonValue::UInt(y)) => *x == *y,
        (JsonValue::Float(x, _), JsonValue::Float(y, _)) => crate::text::chars_eq(x.as_str(), y.as_str()),
        _ => false,
    }
}

/// The integer a value stands for in arithmetic (see [`integer_of`]).
pub fn as_integer(v: &JsonValue) -> (r: Option<i64>)
    ensures
        r == integer_of(v@),
{
    match v {
        JsonValue::Int(i) => Some(*i),
        JsonValue::String(s) => {
            let t = trim(s.as_str());
            parse_i64(t.as_str())
        },
        _ => None,
    }
}

/// The position a number stands for as an index (see [`index_of`]).
pub fn index_value(v: &JsonValue) -> (r: u64)
    ensures
        r as int == index_of(v@),
{
    match v {
        JsonValue::Int(i) => if *i >= 0 {
            *i as u64
        } else {
            0
        },
        JsonValue::UInt(u) => *u,
        _ => 0,
    }
}

/// The value of `key` in an object, null for anything else (see
/// [`field_of`]).
pub fn field_value(v: &JsonValue, key: &str) -> (r: JsonValue)
    ensures
        r@ == field_of(v@, key@),
{
    match v {
        JsonValue::Object(entries) => {
            let mut i: usize = 0;
            while i < entries.len()
                invariant
                    i <= entries@.len(),
                    *v == JsonValue::Object(*entries),
                    forall|j: int| 0 <= j < i ==> (#[trigger] entries@[j]).0@ != key@,
                decreases entries@.len() - i,
            {
                if crate::text::chars_eq(entries[i].0.as_str(), key) {
                    proof {
                        if let JsonView::Object(a) = v@ {
                            assert(a[i as int].0 == key@);
                            assert forall|j: int| 0 <= j < i implies #[trigger] a[j].0 != key@ by {
                                assert(a[j].0 == entries@[j].0@);
                            }
                            let c = choose|c: int|
                                0 <= c < a.len() && #[trigger] a[c].0 == key@ && forall|j: int|
                                    0 <= j < c ==> #[trigger] a[j].0 != key@;
                            if c < i {
                                assert(a[c].0 == entries@[c].0@);
                            }
                        }
                    }
                    return duplicate(&entries[i].1);
                }
                i = i + 1;
            }
            proof {
                if let JsonView::Object(a) = v@ {
                    assert forall|j: int| 0 <= j < a.len() implies #[trigger] a[j].0 != key@ by {
                        assert(a[j].0 == entries@[j].0@);
                    }
                }
            }
            JsonValue::Null
        },
        _ => JsonValue::Null,
    }
}

/// The item at `index` of an array, null for anything else (see
/// [`item_of`]).
pub fn item_value(v: &JsonValue, index: u64) -> (r: JsonValue)
    ensures
        r@ == item_of(v@, index as int),
{
    match v {
        JsonValue::Array(items) => {
            if index < items.len() as u64 {
                duplicate(&items[index as usize])
            } else {
                JsonValue::Null
            }
        },
        _ => JsonValue::Null,
    }
}

} // verus!
