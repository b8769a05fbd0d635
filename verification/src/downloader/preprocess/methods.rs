//! The steps of a method chain that need nothing but the value they apply
//! to.
use vstd::prelude::*;
use crate::text::{join, join_seq};
use super::value::{
    check_array_len, duplicate, json_view, value_text, texts_of, JsonValue, JsonView,
    PREPROCESS_MAX_ARRAY_ITEMS,
};

verus! {

/// The items of `items` with each array among them replaced by its own
/// items (one level).
pub open spec fn flattened(items: Seq<JsonView>) -> Seq<JsonView>
    decreases items.len(),
{
    if items.len() == 0 {
        Seq::empty()
    } else {
        flattened(items.drop_last()) + match items.last() {
            JsonView::Array(sub) => sub,
            x => seq![x],
        }
    }
}

/// The items of `items` that are not null.
pub open spec fn compacted(items: Seq<JsonView>) -> Seq<JsonView>
    decreases items.len(),
{
    if items.len() == 0 {
        Seq::empty()
    } else {
        compacted(items.drop_last()) + if items.last() is Null {
            Seq::<JsonView>::empty()
        } else {
            seq![items.last()]
        }
    }
}

/// A count as a number.
pub open spec fn count_value(n: nat) -> JsonView {
    if n <= i64::MAX {
        JsonView::Int(n as i64)
    } else {
        JsonView::UInt(n as u64)
    }
}

/// `size`: the characters of a string, the items of an array, the entries
/// of an object, 0 for null; anything else is left as it is.
pub open spec fn size_of(w: JsonView) -> JsonView {
    match w {
        JsonView::Str(s) => count_value(s.len()),
        JsonView::Array(a) => count_value(a.len()),
        JsonView::Object(m) => count_value(m.len()),
        JsonView::Null => JsonView::Int(0),
        _ => w,
    }
}

/// `empty?`: whether a string or an array is empty; null is, anything else
/// is not.
pub open spec fn emptiness_of(w: JsonView) -> bool {
    match w {
        JsonView::Str(s) => s.len() == 0,
        JsonView::Array(a) => a.len() == 0,
        JsonView::Null => true,
        _ => false,
    }
}

/// `first` / `last` of an array (null when it is empty); anything else is
/// left as it is.
pub open spec fn end_of(w: JsonView, last: bool) -> JsonView {
    match w {
        JsonView::Array(a) => if a.len() == 0 {
            JsonView::Null
        } else if last {
            a.last()
        } else {
            a[0]
        },
        _ => w,
    }
}

fn count_number(n: usize) -> (r: JsonValue)
    ensures
        r@ == count_value(n as nat),
{
    if n as u64 <= 9223372036854775807u64 {
        JsonValue::Int(n as i64)
    } else {
        JsonValue::UInt(n as u64)
    }
}

/// `flatten`: an array with its nested arrays spread one level; anything
/// else is left as it is. Fails when the result would be over the array
/// limit.
pub fn flatten_value(v: JsonValue) -> (r: Result<JsonValue, String>)
    ensures
        match v@ {
            JsonView::Array(items) => match r {
                Ok(x) => x@ == JsonView::Array(flattened(items)) && flattened(items).len()
                    <= PREPROCESS_MAX_ARRAY_ITEMS,
                Err(_) => flattened(items).len() > PREPROCESS_MAX_ARRAY_ITEMS,
            },
            _ => r matches Ok(x) && x@ == v@,
        },
{
    let items = match v {
        JsonValue::Array(items) => items,
        other => {
            return Ok(other);
        },
    };
    let ghost a = JsonValue::Array(items)@->Array_0;
    let ghost av = JsonValue::Array(items)@;
    assert(av == JsonView::Array(a));
    assert(v@ == av);
    let mut out: Vec<JsonValue> = Vec::new();
    let mut i: usize = 0;
    while i < items.len()
        invariant
            i <= items@.len(),
            v@ == JsonView::Array(a),
            a.len() == items@.len(),
            forall|j: int| 0 <= j < a.len() ==> a[j] == json_view(#[trigger] items@[j]),
            out@.map_values(|x: JsonValue| x@) == flattened(a.subrange(0, i as int)),
            out@.len() <= PREPROCESS_MAX_ARRAY_ITEMS,
        decreases items@.len() - i,
    {
        let ghost before = out@.map_values(|x: JsonValue| x@);
        assert(a.subrange(0, i + 1).drop_last() =~= a.subrange(0, i as int));
        assert(a[i as int] == json_view(items@[i as int]));
        match &items[i] {
            JsonValue::Array(sub) => {
                let ghost sv = items@[i as int]@->Array_0;
                let mut k: usize = 0;
                while k < sub.len()
                    invariant
                        k <= sub@.len(),
                        v@ == JsonView::Array(a),
                        i < items@.len(),
                        a.len() == items@.len(),
                        a[i as int] == json_view(items@[i as int]),
                        before == flattened(a.subrange(0, i as int)),
                        a.subrange(0, i + 1).drop_last() == a.subrange(0, i as int),
                        items@[i as int] == JsonValue::Array(*sub),
                        sv == json_view(items@[i as int])->Array_0,
                        sv.len() == sub@.len(),
                        forall|j: int| 0 <= j < sv.len() ==> sv[j] == json_view(#[trigger] sub@[j]),
                        out@.map_values(|x: JsonValue| x@) == before + sv.subrange(0, k as int),
                        out@.len() <= PREPROCESS_MAX_ARRAY_ITEMS,
                    decreases sub@.len() - k,
                {
                    let ghost mid = out@.map_values(|x: JsonValue| x@);
                    out.push(duplicate(&sub[k]));
                    assert(out@.map_values(|x: JsonValue| x@) =~= mid.push(sv[k as int]));
                    assert(sv.subrange(0, k + 1) =~= sv.subrange(0, k as int).push(sv[k as int]));
                    let checked = check_array_len(out.len());
                    if checked.is_err() {
                        proof {
                            lemma_flattened_grows(a, i + 1);
                            assert(a.subrange(0, i + 1).last() == a[i as int]);
                            assert(flattened(a.subrange(0, i + 1)) == before + sv);
                        }
                        return Err(checked.unwrap_err());
                    }
                    k = k + 1;
                }
                assert(sv.subrange(0, sv.len() as int) =~= sv);
            },
            other => {
                out.push(duplicate(other));
                assert(out@.map_values(|x: JsonValue| x@) =~= before.push(a[i as int]));
                let checked = check_array_len(out.len());
                if checked.is_err() {
                    proof {
                        lemma_flattened_grows(a, i + 1);
                    }
                    return Err(checked.unwrap_err());
                }
            },
        }
        i = i + 1;
    }
    assert(a.subrange(0, a.len() as int) =~= a);
    let r = JsonValue::Array(out);
    assert(r@->Array_0 =~= flattened(a));
    Ok(r)
}

/// Flattening a longer prefix gives at least as many items.
proof fn lemma_flattened_grows(items: Seq<JsonView>, k: int)
    requires
        0 <= k <= items.len(),
    ensures
        flattened(items.subrange(0, k)).len() <= flattened(items).len(),
    decreases items.len() - k,
{
    if k < items.len() {
        lemma_flattened_grows(items, k + 1);
        assert(items.subrange(0, k + 1).drop_last() =~= items.subrange(0, k));
    } else {
        assert(items.subrange(0, k) =~= items);
    }
}

/// `compact`: an array without its nulls; anything else is left as it is.
pub fn compact_value(v: JsonValue) -> (r: JsonValue)
    ensures
        match v@ {
            JsonView::Array(items) => r@ == JsonView::Array(compacted(items)),
            _ => r@ == v@,
        },
{
    let items = match v {
        JsonValue::Array(items) => items,
        other => {
            return other;
        },
    };
    let ghost a = JsonValue::Array(items)@->Array_0;
    assert(v@ == JsonView::Array(a));
    let mut out: Vec<JsonValue> = Vec::new();
    let mut i: usize = 0;
    while i < items.len()
        invariant
            i <= items@.len(),
            a.len() == items@.len(),
            forall|j: int| 0 <= j < a.len() ==> a[j] == json_view(#[trigger] items@[j]),
            out@.map_values(|x: JsonValue| x@) == compacted(a.subrange(0, i as int)),
        decreases items@.len() - i,
    {
        let ghost before = out@.map_values(|x: JsonValue| x@);
        assert(a.subrange(0, i + 1).drop_last() =~= a.subrange(0, i as int));
        assert(a[i as int] == json_view(items@[i as int]));
        match &items[i] {
            JsonValue::Null => {
                assert(before + Seq::<JsonView>::empty() =~= before);
            },
            other => {
                out.push(duplicate(other));
                assert(out@.map_values(|x: JsonValue| x@) =~= before + seq![a[i as int]]);
            },
        }
        i = i + 1;
    }
    assert(a.subrange(0, a.len() as int) =~= a);
    let r = JsonValue::Array(out);
    assert(r@->Array_0 =~= compacted(a));
    r
}

/// `size` (see [`size_of`]).
pub fn size_value(v: JsonValue) -> (r: JsonValue)
    ensures
        r@ == size_of(v@),
{
    match v {
        JsonValue::String(s) => count_number(s.unicode_len()),
        JsonValue::Array(a) => count_number(a.len()),
        JsonValue::Object(m) => count_number(m.len()),
        JsonValue::Null => JsonValue::Int(0),
        other => other,
    }
}

/// `empty?` (see [`emptiness_of`]).
pub fn empty_value(v: &JsonValue) -> (r: JsonValue)
    ensures
        r@ == JsonView::Bool(emptiness_of(v@)),
{
    match v {
        JsonValue::String(s) => JsonValue::Bool(s.unicode_len() == 0),
        JsonValue::Array(a) => JsonValue::Bool(a.len() == 0),
        JsonValue::Null => JsonValue::Bool(true),
        _ => JsonValue::Bool(false),
    }
}

/// `array?`: whether the value is an array.
pub fn is_array_value(v: &JsonValue) -> (r: JsonValue)
    ensures
        r@ == JsonView::Bool(v@ is Array),
{
    match v {
        JsonValue::Array(_) => JsonValue::Bool(true),
        _ => JsonValue::Bool(false),
    }
}

/// `first` or `last` (see [`end_of`]).
pub fn end_value(v: JsonValue, last: bool) -> (r: JsonValue)
    ensures
        r@ == end_of(v@, last),
{
    match v {
        JsonValue::Array(a) => {
            if a.len() == 0 {
                JsonValue::Null
            } else if last {
                duplicate(&a[a.len() - 1])
            } else {
                duplicate(&a[0])
            }
        },
        other => other,
    }
}

/// `reverse`: an array's items in the opposite order; anything else is left
/// as it is.
pub fn reverse_value(v: JsonValue) -> (r: JsonValue)
    ensures
        match v@ {
            JsonView::Array(items) => r@ == JsonView::Array(items.reverse()),
            _ => r@ == v@,
        },
{
    let items = match v {
        JsonValue::Array(items) => items,
        other => {
            return other;
        },
    };
    let ghost a = JsonValue::Array(items)@->Array_0;
    assert(v@ == JsonView::Array(a));
    let mut out: Vec<JsonValue> = Vec::new();
    let mut i: usize = items.len();
    while i > 0
        invariant
            i <= items@.len(),
            a.len() == items@.len(),
            forall|j: int| 0 <= j < a.len() ==> a[j] == json_view(#[trigger] items@[j]),
            out@.len() == items@.len() - i,
            forall|j: int| 0 <= j < out@.len() ==> json_view(#[trigger] out@[j]) == a[a.len() - 1 - j],
        decreases i,
    {
        i = i - 1;
        out.push(duplicate(&items[i]));
    }
    let r = JsonValue::Array(out);
    assert(r@->Array_0 =~= a.reverse());
    r
}

/// `join(sep)`: the texts of an array's items joined with `sep`; anything
/// else is left as it is.
pub fn join_value(v: JsonValue, sep: &str) -> (r: JsonValue)
    ensures
        match v@ {
            JsonView::Array(items) => r@ == JsonView::Str(join_seq(texts_of(items), sep@)),
            _ => r@ == v@,
        },
{
    let items = match v {
        JsonValue::Array(items) => items,
        other => {
            return other;
        },
    };
    let ghost a = JsonValue::Array(items)@->Array_0;
    assert(v@ == JsonView::Array(a));
    let mut parts: Vec<String> = Vec::new();
    let mut i: usize = 0;
    while i < items.len()
        invariant
            i <= items@.len(),
            a.len() == items@.len(),
            forall|j: int| 0 <= j < a.len() ==> a[j] == json_view(#[trigger] items@[j]),
            parts@.map_values(|p: String| p@) == texts_of(a.subrange(0, i as int)),
        decreases items@.len() - i,
    {
        let t = value_text(&items[i]);
        let ghost before = parts@;
        parts.push(t);
        proof {
            assert(a.subrange(0, i + 1).subrange(0, i as int) =~= a.subrange(0, i as int));
            assert(a[i as int] == json_view(items@[i as int]));
            assert(parts@.map_values(|p: String| p@) =~= before.map_values(|p: String| p@).push(t@));
        }
        i = i + 1;
    }
    assert(a.subrange(0, a.len() as int) =~= a);
    JsonValue::String(join(&parts, sep))
}

} // verus!
