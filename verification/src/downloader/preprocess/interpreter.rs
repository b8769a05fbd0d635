//! Running a `preprocess:` definition over a page.
//!
//! A run works within a step budget: every expression and statement
//! evaluated takes one step, so a run always ends. Every value it computes
//! is held to the size limits, and the URLs it asks for are the fetchable
//! ones without a result yet, each once, at most [`MAX_PREPROCESS_JOBS`].
use vstd::prelude::*;
use crate::keyed::KeyedList;
use crate::text::{contains, is_prefix, join, join_seq, occurs_at, replace_all, starts_with, str_replace};
use super::ast::{AccessPart, Accessor, ArithOp, BracketKey, Expr, LValue, Method, Stmt, StrPart};
use super::jobs::{PreprocessJobs, MAX_PREPROCESS_JOBS};
use super::methods::{
    compact_value, compacted, emptiness_of, empty_value, end_of, end_value, flatten_value, flattened,
    is_array_value, join_value, reverse_value, size_of, size_value,
};
use super::pattern::{
    first_match, groups_of_matches, pattern_flags, pattern_replaced, replace_matches, split_on_matches,
};
use super::value::{
    as_integer, check_array_len, check_string_size, check_value_limits, duplicate, field_value,
    fits, index_value, is_truthy, truthy, item_value, json_equal, integer_of, texts_of, field_of, item_of, index_of, text_of, value_text, values_equal, JsonValue, JsonView, byte_len,
    PREPROCESS_MAX_ARRAY_ITEMS, PREPROCESS_MAX_STRING_BYTES,
};

verus! {

/// How many steps a run may take.
pub const PREPROCESS_STEP_BUDGET: usize = 100000;

/// What a run needs from its surroundings.
pub trait PreprocessHost {
    /// Whether `url` may be fetched: it points at a public address.
    fn is_public_url(&self, url: &str) -> bool;

    /// The JSON value `text` holds, `None` when it is not JSON.
    fn decode_json(&self, text: &str) -> Option<JsonValue>;
}

/// A URL with the `http://` or `https://` scheme.
pub open spec fn is_http_url(u: Seq<char>) -> bool {
    is_prefix("http://"@, u) || is_prefix("https://"@, u)
}

/// What may be asked for: at most [`MAX_PREPROCESS_JOBS`] URLs, each once,
/// each `http` or `https`, none with a result already.
pub open spec fn requests_ok(requested: Seq<String>, results: Map<Seq<char>, JsonValue>) -> bool {
    &&& requested.len() <= MAX_PREPROCESS_JOBS
    &&& forall|i: int, j: int|
        0 <= i < j < requested.len() ==> (#[trigger] requested[i])@ != (#[trigger] requested[j])@
    &&& forall|i: int|
        0 <= i < requested.len() ==> !results.contains_key((#[trigger] requested[i])@) && is_http_url(
            requested[i]@,
        )
}

/// The state of a run.
struct Ctx {
    vars: KeyedList<String, JsonValue>,
    output: Vec<String>,
    /// Where (in characters) the last `extract_json` match began.
    match_start: Option<usize>,
    step_budget: usize,
    requested: Vec<String>,
}

spec fn ctx_ok(c: Ctx, results: Map<Seq<char>, JsonValue>) -> bool {
    &&& requests_ok(c.requested@, results)
    &&& forall|i: int| 0 <= i < c.output@.len() ==> byte_len((#[trigger] c.output@[i])@) <= PREPROCESS_MAX_STRING_BYTES
}

/// A later state of the same run: no more budget, and the same requests
/// first.
spec fn ctx_step(a: Ctx, b: Ctx) -> bool {
    &&& b.step_budget <= a.step_budget
    &&& a.requested@.len() <= b.requested@.len()
    &&& forall|i: int| 0 <= i < a.requested@.len() ==> (#[trigger] b.requested@[i])@ == a.requested@[i]@
}

/// The error of a run that has used up its step budget.
pub open spec fn budget_exceeded() -> Seq<char> {
    "preprocess: step budget exceeded"@
}

/// Two states of a run that differ at most in the budget left.
spec fn same_but_budget(a: Ctx, b: Ctx) -> bool {
    &&& a.vars == b.vars
    &&& a.output == b.output
    &&& a.match_start == b.match_start
    &&& a.requested == b.requested
}

fn take_step(ctx: &mut Ctx) -> (r: Result<(), String>)
    ensures
        r is Ok <==> old(ctx).step_budget > 0,
        r matches Err(e) ==> e@ == budget_exceeded(),
        same_but_budget(*old(ctx), *final(ctx)),
        r is Ok ==> final(ctx).step_budget == old(ctx).step_budget - 1,
        r is Err ==> final(ctx).step_budget == old(ctx).step_budget,
        final(ctx).requested@ == old(ctx).requested@,
        final(ctx).output@ == old(ctx).output@,
{
    if ctx.step_budget == 0 {
        return Err("preprocess: step budget exceeded".to_owned());
    }
    ctx.step_budget = ctx.step_budget - 1;
    Ok(())
}

/// The requests after asking for `url`: it is queued unless it has a
/// result, is queued already, or the queue is full.
spec fn queued(requested: Seq<String>, results: Map<Seq<char>, JsonValue>, url: String) -> Seq<String> {
    if !results.contains_key(url@) && requested.len() < MAX_PREPROCESS_JOBS && !(exists|j: int|
        0 <= j < requested.len() && (#[trigger] requested[j])@ == url@) {
        requested.push(url)
    } else {
        requested
    }
}

/// Asks for `url`: a URL that is not `http`/`https` or not public gives
/// null; otherwise the URL itself, queued unless it has a result, is queued
/// already, or the queue is full.
fn request<H: PreprocessHost>(ctx: &mut Ctx, jobs: &PreprocessJobs, host: &H, url: String) -> (r:
    JsonValue)
    requires
        ctx_ok(*old(ctx), jobs@),
    ensures
        ctx_ok(*final(ctx), jobs@),
        ctx_step(*old(ctx), *final(ctx)),
        final(ctx).step_budget == old(ctx).step_budget,
        final(ctx).output@ == old(ctx).output@,
        r@ is Null || r@ == JsonView::Str(url@),
        !is_http_url(url@) ==> r@ is Null,
        r@ is Null ==> final(ctx).requested@ == old(ctx).requested@,
        r@ is Str ==> final(ctx).requested@ == queued(old(ctx).requested@, jobs@, url),
{
    if !(starts_with(url.as_str(), "http://") || starts_with(url.as_str(), "https://")) {
        proof {
            reveal_strlit("http://");
            reveal_strlit("https://");
        }
        return JsonValue::Null;
    }
    proof {
        reveal_strlit("http://");
        reveal_strlit("https://");
    }
    if !host.is_public_url(url.as_str()) {
        return JsonValue::Null;
    }
    if !jobs.contains(url.as_str()) && ctx.requested.len() < MAX_PREPROCESS_JOBS {
        let mut i: usize = 0;
        let mut known = false;
        while i < ctx.requested.len()
            invariant
                i <= ctx.requested@.len(),
                !known ==> forall|j: int| 0 <= j < i ==> (#[trigger] ctx.requested@[j])@ != url@,
                known ==> exists|j: int| 0 <= j < i && (#[trigger] ctx.requested@[j])@ == url@,
            decreases ctx.requested@.len() - i,
        {
            if crate::text::chars_eq(ctx.requested[i].as_str(), url.as_str()) {
                known = true;
                assert((ctx.requested@[i as int])@ == url@);
            }
            i = i + 1;
        }
        if !known {
            ctx.requested.push(url.clone());
        }
    }
    JsonValue::String(url)
}

/// The value of variable `name`.
fn var_value<'a>(ctx: &'a Ctx, name: &str) -> (r: Option<&'a JsonValue>)
    ensures
        match r {
            Some(v) => ctx.vars@.contains_key(name@) && *v == ctx.vars@[name@],
            None => !ctx.vars@.contains_key(name@),
        },
{
    ctx.vars.get(&name.to_owned())
}

/// Sets variable `name`, failing when the value is over a limit.
fn set_var(ctx: &mut Ctx, name: &str, value: JsonValue) -> (r: Result<(), String>)
    ensures
        r is Ok <==> fits(value@),
        r is Ok ==> final(ctx).vars@ == old(ctx).vars@.insert(name@, value),
        r is Err ==> final(ctx).vars@ == old(ctx).vars@,
        final(ctx).requested@ == old(ctx).requested@,
        final(ctx).output@ == old(ctx).output@,
        final(ctx).step_budget == old(ctx).step_budget,
        final(ctx).match_start == old(ctx).match_start,
{
    check_value_limits(&value)?;
    ctx.vars.insert(name.to_owned(), value);
    Ok(())
}

/// Whether a guard stopped the run: `__abort__` is `true`.
fn aborted(ctx: &Ctx) -> (r: bool)
    ensures
        r == (ctx.vars@.contains_key("__abort__"@) && ctx.vars@["__abort__"@] == JsonValue::Bool(
            true,
        )),
{
    match var_value(ctx, "__abort__") {
        Some(JsonValue::Bool(true)) => true,
        _ => false,
    }
}

/// The text of `parts` when every part is literal text; `None` when one
/// of them is an interpolation.
pub open spec fn lit_text(parts: Seq<StrPart>) -> Option<Seq<char>>
    decreases parts.len(),
{
    if parts.len() == 0 {
        Some(Seq::empty())
    } else {
        match lit_text(parts.drop_last()) {
            Some(t) => match parts.last() {
                StrPart::Lit(l) => Some(t + l@),
                StrPart::Interp(_) => None,
            },
            None => None,
        }
    }
}

proof fn lemma_lit_prefix(parts: Seq<StrPart>, i: int)
    requires
        lit_text(parts) is Some,
        0 <= i <= parts.len(),
    ensures
        lit_text(parts.subrange(0, i)) is Some,
        i < parts.len() ==> parts[i] is Lit,
    decreases parts.len() - i,
{
    if i < parts.len() {
        lemma_lit_prefix(parts, i + 1);
        assert(parts.subrange(0, i + 1).drop_last() =~= parts.subrange(0, i));
        assert(parts.subrange(0, i + 1).last() == parts[i]);
    } else {
        assert(parts.subrange(0, i) =~= parts);
    }
}

/// The text of an interpolated string.
fn resolve_str_parts<H: PreprocessHost>(
    ctx: &mut Ctx,
    jobs: &PreprocessJobs,
    host: &H,
    parts: &Vec<StrPart>,
) -> (r: Result<String, String>)
    requires
        ctx_ok(*old(ctx), jobs@),
    ensures
        ctx_ok(*final(ctx), jobs@),
        ctx_step(*old(ctx), *final(ctx)),
        r matches Ok(s) ==> byte_len(s@) <= PREPROCESS_MAX_STRING_BYTES,
        lit_text(parts@) matches Some(t) ==> {
            &&& *final(ctx) == *old(ctx)
            &&& (r is Ok <==> byte_len(t) <= PREPROCESS_MAX_STRING_BYTES)
            &&& (r matches Ok(s) ==> s@ == t)
        },
        pure_parts(parts@) ==> forall|vars: Map<Seq<char>, JsonView>| #[trigger] vars_agree(old(ctx).vars@, vars) ==> old(ctx).step_budget >= parts_steps(parts@) ==> {
            &&& (r is Ok <==> parts_text(parts@, vars) is Some && byte_len(parts_text(parts@, vars)->0)
                <= PREPROCESS_MAX_STRING_BYTES)
            &&& (r matches Ok(s) ==> parts_text(parts@, vars) == Some(s@))
            &&& (r is Ok ==> same_but_budget(*old(ctx), *final(ctx)) && final(ctx).step_budget
                == old(ctx).step_budget - parts_steps(parts@))
        },
    decreases old(ctx).step_budget, 2nat,
{
    let ghost c0 = *ctx;
    let ghost pure = pure_parts(parts@) && c0.step_budget >= parts_steps(parts@);
    let mut s = String::new();
    let mut i: usize = 0;
    while i < parts.len()
        invariant
            i <= parts@.len(),
            ctx_ok(*ctx, jobs@),
            ctx_step(c0, *ctx),
            c0 == *old(ctx),
            lit_text(parts@) is Some ==> *ctx == c0 && s@ == lit_text(
                parts@.subrange(0, i as int),
            )->0,
            pure == (pure_parts(parts@) && c0.step_budget >= parts_steps(parts@)),
            pure ==> {
                &&& same_but_budget(c0, *ctx)
                &&& ctx.step_budget == c0.step_budget - parts_steps(parts@.subrange(0, i as int))
                &&& forall|vars: Map<Seq<char>, JsonView>| #[trigger] vars_agree(c0.vars@, vars)
                    ==> parts_text(parts@.subrange(0, i as int), vars) == Some(s@)
            },
        decreases parts@.len() - i,
    {
        proof {
            if lit_text(parts@) is Some {
                lemma_lit_prefix(parts@, i as int);
                lemma_lit_prefix(parts@, i + 1);
            }
            assert(parts@.subrange(0, i + 1).drop_last() =~= parts@.subrange(0, i as int));
            assert(parts@.subrange(0, i + 1).last() == parts@[i as int]);
            if pure {
                lemma_parts_prefix(parts@, Map::empty(), i + 1);
            }
        }
        let ghost c_pre = *ctx;
        let ghost s_before = s@;
        match &parts[i] {
            StrPart::Lit(lit) => {
                s.append(lit.as_str());
                proof {
                    if pure {
                        assert forall|vars: Map<Seq<char>, JsonView>| #[trigger] vars_agree(c0.vars@, vars)
                            implies parts_text(parts@.subrange(0, i + 1), vars) == Some(s@) by {
                            assert(parts_text(parts@.subrange(0, i as int), vars) == Some(s_before));
                        }
                    }
                }
            },
            StrPart::Interp(expr) => {
                let val = match eval_expr(ctx, jobs, host, expr) {
                    Ok(v) => v,
                    Err(e) => {
                        proof {
                            if pure {
                                assert forall|vars: Map<Seq<char>, JsonView>| #[trigger] vars_agree(c0.vars@, vars)
                                    implies parts_text(parts@, vars) is None by {
                                    assert(vars_agree(c_pre.vars@, vars));
                                    lemma_parts_prefix(parts@, vars, i + 1);
                                }
                            }
                        }
                        return Err(e);
                    },
                };
                let text = value_text(&val);
                s.append(text.as_str());
                proof {
                    if pure {
                        lemma_own_vars(c_pre.vars@);
                        assert forall|vars: Map<Seq<char>, JsonView>| #[trigger] vars_agree(c0.vars@, vars)
                            implies parts_text(parts@.subrange(0, i + 1), vars) == Some(s@) by {
                            assert(vars_agree(c_pre.vars@, vars));
                            assert(parts_text(parts@.subrange(0, i as int), vars) == Some(s_before));
                        }
                    }
                }
            },
        }
        i = i + 1;
    }
    assert(parts@.subrange(0, parts@.len() as int) =~= parts@);
    check_string_size(s.as_str())?;
    Ok(s)
}

/// The value of a bracket key.
fn eval_key<H: PreprocessHost>(ctx: &mut Ctx, jobs: &PreprocessJobs, host: &H, key: &BracketKey) -> (r:
    Result<JsonValue, String>)
    requires
        ctx_ok(*old(ctx), jobs@),
    ensures
        ctx_ok(*final(ctx), jobs@),
        ctx_step(*old(ctx), *final(ctx)),
        r matches Ok(v) ==> fits(v@),
        key matches BracketKey::Index(n) ==> (r matches Ok(v) && v@ == JsonView::Int(*n) && *final(ctx)
            == *old(ctx)),
    decreases old(ctx).step_budget, 3nat,
{
    match key {
        BracketKey::Str(parts) => Ok(JsonValue::String(resolve_str_parts(ctx, jobs, host, parts)?)),
        BracketKey::Expr(expr) => eval_expr(ctx, jobs, host, expr),
        BracketKey::Index(index) => Ok(JsonValue::Int(*index)),
    }
}

/// `value[key]`: a string key looks up a field, a number an item; anything
/// else gives null.
pub open spec fn looked_up(value: JsonView, key: JsonView) -> JsonView {
    match key {
        JsonView::Str(k) => field_of(value, k),
        JsonView::Int(_) | JsonView::UInt(_) | JsonView::Float(_, _) => item_of(value, index_of(key)),
        _ => JsonView::Null,
    }
}

/// `value[key]`: a string key looks up a field, a number an item; anything
/// else gives null.
fn lookup(value: &JsonValue, key: &JsonValue) -> (r: JsonValue)
    ensures
        r@ == looked_up(value@, key@),
{
    match key {
        JsonValue::String(k) => field_value(value, k.as_str()),
        JsonValue::Int(_) | JsonValue::UInt(_) | JsonValue::Float(_, _) => item_value(
            value,
            index_value(key),
        ),
        _ => JsonValue::Null,
    }
}

/// A step along a path that needs nothing but the value it applies to: a
/// field name or an item number.
pub open spec fn pure_part(p: AccessPart) -> bool {
    match p {
        AccessPart::Dot(_) => true,
        AccessPart::Bracket(BracketKey::Index(_)) => true,
        _ => false,
    }
}

/// The value at the end of `path` (of [`pure_part`] steps) from `w`.
pub open spec fn walked(w: JsonView, path: Seq<AccessPart>) -> JsonView
    decreases path.len(),
{
    if path.len() == 0 {
        w
    } else {
        let v = walked(w, path.drop_last());
        match path.last() {
            AccessPart::Dot(f) => field_of(v, f@),
            AccessPart::Bracket(BracketKey::Index(n)) => looked_up(v, JsonView::Int(n)),
            _ => JsonView::Null,
        }
    }
}

/// A variable that a definition sets itself: not `fetched`, which a run
/// starts with, nor `__abort__`, which a guard sets.
pub open spec fn own_var(name: Seq<char>) -> bool {
    name != "fetched"@ && name != "__abort__"@
}

/// An own variable followed along [`pure_part`] steps.
pub open spec fn pure_accessor(a: Accessor) -> bool {
    own_var(a.base@) && forall|i: int| 0 <= i < a.path@.len() ==> pure_part(#[trigger] a.path@[i])
}

/// The value of a [`pure_accessor`] over the variables `vars`: null for an
/// unset variable; `None` where the value is over a limit.
pub open spec fn accessor_result(a: Accessor, vars: Map<Seq<char>, JsonView>) -> Option<JsonView> {
    if vars.contains_key(a.base@) {
        let w = walked(vars[a.base@], a.path@);
        if fits(w) {
            Some(w)
        } else {
            None
        }
    } else {
        Some(JsonView::Null)
    }
}

/// The variables of a run seen by value, leaving out the ones it starts
/// with.
spec fn vars_agree(held: Map<Seq<char>, JsonValue>, vars: Map<Seq<char>, JsonView>) -> bool {
    &&& forall|k: Seq<char>| #[trigger] vars.contains_key(k) ==> own_var(k)
    &&& forall|k: Seq<char>| own_var(k) ==> (#[trigger] held.contains_key(k) <==> vars.contains_key(k))
    &&& forall|k: Seq<char>| #[trigger] vars.contains_key(k) ==> held[k]@ == vars[k]
}

/// The own variables of a run, by value.
spec fn own_vars(held: Map<Seq<char>, JsonValue>) -> Map<Seq<char>, JsonView> {
    Map::new(|k: Seq<char>| own_var(k) && held.contains_key(k), |k: Seq<char>| held[k]@)
}

proof fn lemma_own_vars(held: Map<Seq<char>, JsonValue>)
    ensures
        vars_agree(held, own_vars(held)),
{
}

/// Follows `path` from `value`.
fn walk_accessor<H: PreprocessHost>(
    ctx: &mut Ctx,
    jobs: &PreprocessJobs,
    host: &H,
    value: JsonValue,
    path: &Vec<AccessPart>,
) -> (r: Result<JsonValue, String>)
    requires
        ctx_ok(*old(ctx), jobs@),
    ensures
        ctx_ok(*final(ctx), jobs@),
        ctx_step(*old(ctx), *final(ctx)),
        r matches Ok(v) ==> fits(v@),
        (forall|i: int| 0 <= i < path@.len() ==> pure_part(#[trigger] path@[i])) ==> {
            &&& *final(ctx) == *old(ctx)
            &&& (r is Ok <==> fits(walked(value@, path@)))
            &&& (r matches Ok(v) ==> v@ == walked(value@, path@))
        },
    decreases old(ctx).step_budget, 4nat,
{
    let ghost c0 = *ctx;
    let ghost start = value@;
    let ghost pure = forall|i: int| 0 <= i < path@.len() ==> pure_part(#[trigger] path@[i]);
    let mut current = value;
    let mut i: usize = 0;
    while i < path.len()
        invariant
            i <= path@.len(),
            ctx_ok(*ctx, jobs@),
            ctx_step(c0, *ctx),
            c0 == *old(ctx),
            pure == (forall|i: int| 0 <= i < path@.len() ==> pure_part(#[trigger] path@[i])),
            pure ==> *ctx == c0 && current@ == walked(start, path@.subrange(0, i as int)),
        decreases path@.len() - i,
    {
        proof {
            if pure {
                assert(pure_part(path@[i as int]));
                assert(path@.subrange(0, i + 1).drop_last() =~= path@.subrange(0, i as int));
                assert(path@.subrange(0, i + 1).last() == path@[i as int]);
            }
        }
        current = match &path[i] {
            AccessPart::Dot(field) => field_value(&current, field.as_str()),
            AccessPart::Bracket(key) => {
                let key_value = eval_key(ctx, jobs, host, key)?;
                lookup(&current, &key_value)
            },
        };
        i = i + 1;
    }
    assert(path@.subrange(0, path@.len() as int) =~= path@);
    check_value_limits(&current)?;
    Ok(current)
}

/// The value of a variable followed along a path; null for an unset
/// variable.
fn resolve_accessor<H: PreprocessHost>(ctx: &mut Ctx, jobs: &PreprocessJobs, host: &H, acc: &Accessor) -> (r:
    Result<JsonValue, String>)
    requires
        ctx_ok(*old(ctx), jobs@),
    ensures
        ctx_ok(*final(ctx), jobs@),
        ctx_step(*old(ctx), *final(ctx)),
        r matches Ok(v) ==> fits(v@),
        pure_accessor(*acc) ==> forall|vars: Map<Seq<char>, JsonView>| #[trigger] vars_agree(old(ctx).vars@, vars) ==> {
            &&& *final(ctx) == *old(ctx)
            &&& (r is Ok <==> accessor_result(*acc, vars) is Some)
            &&& (r matches Ok(v) ==> accessor_result(*acc, vars) == Some(v@))
        },
    decreases old(ctx).step_budget, 5nat,
{
    let base = match var_value(ctx, acc.base.as_str()) {
        Some(v) => duplicate(v),
        None => {
            return Ok(JsonValue::Null);
        },
    };
    walk_accessor(ctx, jobs, host, base, &acc.path)
}

/// `a + b` or `a - b`, held to the integer range.
/// `a + b` or `a - b`, held to the range of `i64`.
pub open spec fn saturated(a: i64, b: i64, op: ArithOp) -> i64 {
    let s = match op {
        ArithOp::Add => a + b,
        ArithOp::Sub => a - b,
    };
    if s > i64::MAX {
        i64::MAX
    } else if s < i64::MIN {
        i64::MIN
    } else {
        s as i64
    }
}

fn saturating_arith(a: i64, b: i64, op: ArithOp) -> (r: i64)
    ensures
        r == saturated(a, b, op),
{
    match op {
        ArithOp::Add => if b > 0 && a > i64::MAX - b {
            i64::MAX
        } else if b < 0 && a < i64::MIN - b {
            i64::MIN
        } else {
            a + b
        },
        ArithOp::Sub => if b < 0 && a > i64::MAX + b {
            i64::MAX
        } else if b > 0 && a < i64::MIN + b {
            i64::MIN
        } else {
            a - b
        },
    }
}

/// The value of an expression that reads nothing and asks for nothing;
/// `None` for the others.
pub open spec fn literal_value(e: Expr) -> Option<JsonView> {
    match e {
        Expr::Null => Some(JsonView::Null),
        Expr::ExtractJson(_, _) => Some(JsonView::Null),
        Expr::Regex(_, _) => Some(JsonView::Null),
        Expr::Int(n) => Some(JsonView::Int(n)),
        Expr::String(parts) => match lit_text(parts@) {
            Some(t) => Some(JsonView::Str(t)),
            None => None,
        },
        _ => None,
    }
}

/// A chain step that needs nothing but the value it applies to.
pub open spec fn pure_method(m: Method) -> bool {
    match m {
        Method::Flatten => true,
        Method::Compact => true,
        Method::Reverse => true,
        Method::Field(_) => true,
        Method::Bracket(BracketKey::Index(_)) => true,
        Method::IsArray => true,
        Method::Empty => true,
        Method::Size => true,
        Method::First => true,
        Method::Last => true,
        _ => false,
    }
}

/// [`pure_method`] steps applied to `w` in order; `None` where a value is
/// over a limit.
pub open spec fn chained(w: JsonView, methods: Seq<Method>) -> Option<JsonView>
    decreases methods.len(),
{
    if methods.len() == 0 {
        Some(w)
    } else {
        match chained(w, methods.drop_last()) {
            Some(v) => match method_value(v, methods.last()) {
                Some(x) => if fits(x) {
                    Some(x)
                } else {
                    None
                },
                None => None,
            },
            None => None,
        }
    }
}

proof fn lemma_chained_none(w: JsonView, methods: Seq<Method>, i: int)
    requires
        0 <= i <= methods.len(),
        chained(w, methods.subrange(0, i)) is None,
    ensures
        chained(w, methods) is None,
    decreases methods.len() - i,
{
    if i < methods.len() {
        assert(methods.subrange(0, i + 1).drop_last() =~= methods.subrange(0, i));
        lemma_chained_none(w, methods, i + 1);
    } else {
        assert(methods.subrange(0, i) =~= methods);
    }
}

/// An expression whose value needs nothing but the definition's own
/// variables: a literal, an array of literals, a [`pure_accessor`]
/// followed by [`pure_method`] steps, or a string whose interpolations are
/// such expressions.
pub open spec fn pure_expr(e: Expr) -> bool
    decreases e,
{
    match e {
        Expr::Access(a) => pure_accessor(a),
        Expr::Chain { base, methods } => pure_accessor(base) && forall|i: int|
            0 <= i < methods@.len() ==> pure_method(#[trigger] methods@[i]),
        Expr::Array(items) => forall|i: int|
            0 <= i < items@.len() ==> (#[trigger] literal_value(items@[i])) is Some,
        Expr::String(parts) => pure_parts(parts@),
        Expr::Not(inner) => pure_expr(*inner),
        Expr::Eq(l, r) => pure_expr(*l) && pure_expr(*r),
        Expr::Ne(l, r) => pure_expr(*l) && pure_expr(*r),
        Expr::Arith(l, _, r) => pure_expr(*l) && pure_expr(*r),
        _ => literal_value(e) is Some,
    }
}

/// Whether every interpolation of `parts` is a [`pure_expr`].
pub open spec fn pure_parts(parts: Seq<StrPart>) -> bool
    decreases parts,
{
    if parts.len() == 0 {
        true
    } else {
        pure_parts(parts.drop_last()) && match parts.last() {
            StrPart::Lit(_) => true,
            StrPart::Interp(e) => pure_expr(e),
        }
    }
}

/// The values of literal items.
pub open spec fn literal_items(items: Seq<Expr>) -> Seq<JsonView> {
    items.map_values(|x: Expr| literal_value(x)->0)
}

/// The value of a [`pure_expr`] over the variables `vars`; `None` where a
/// value is over a limit.
pub open spec fn expr_result(e: Expr, vars: Map<Seq<char>, JsonView>) -> Option<JsonView>
    decreases e,
{
    match e {
        Expr::Access(a) => accessor_result(a, vars),
        Expr::Chain { base, methods } => match accessor_result(base, vars) {
            Some(w) => chained(w, methods@),
            None => None,
        },
        Expr::Array(items) => {
            let ws = literal_items(items@);
            if items@.len() <= PREPROCESS_MAX_ARRAY_ITEMS && (forall|i: int|
                0 <= i < ws.len() ==> fits(#[trigger] ws[i])) && fits(JsonView::Array(ws)) {
                Some(JsonView::Array(ws))
            } else {
                None
            }
        },
        Expr::String(parts) => match parts_text(parts@, vars) {
            Some(t) => if byte_len(t) <= PREPROCESS_MAX_STRING_BYTES {
                Some(JsonView::Str(t))
            } else {
                None
            },
            None => None,
        },
        Expr::Not(inner) => match expr_result(*inner, vars) {
            Some(w) => Some(JsonView::Bool(!truthy(w))),
            None => None,
        },
        Expr::Eq(l, r) => match (expr_result(*l, vars), expr_result(*r, vars)) {
            (Some(a), Some(b)) => Some(JsonView::Bool(json_equal(a, b))),
            _ => None,
        },
        Expr::Ne(l, r) => match (expr_result(*l, vars), expr_result(*r, vars)) {
            (Some(a), Some(b)) => Some(JsonView::Bool(!json_equal(a, b))),
            _ => None,
        },
        Expr::Arith(l, op, r) => match (expr_result(*l, vars), expr_result(*r, vars)) {
            (Some(a), Some(b)) => Some(
                match (integer_of(a), integer_of(b)) {
                    (Some(x), Some(y)) => JsonView::Int(saturated(x, y, op)),
                    _ => JsonView::Null,
                },
            ),
            _ => None,
        },
        _ => match literal_value(e) {
            Some(w) => if fits(w) {
                Some(w)
            } else {
                None
            },
            None => None,
        },
    }
}

/// The text of `parts` over `vars` when every interpolation is a
/// [`pure_expr`]; `None` where a value is over a limit.
pub open spec fn parts_text(parts: Seq<StrPart>, vars: Map<Seq<char>, JsonView>) -> Option<Seq<char>>
    decreases parts,
{
    if parts.len() == 0 {
        Some(Seq::empty())
    } else {
        match parts_text(parts.drop_last(), vars) {
            Some(t) => match parts.last() {
                StrPart::Lit(l) => Some(t + l@),
                StrPart::Interp(e) => match expr_result(e, vars) {
                    Some(w) => Some(t + text_of(w)),
                    None => None,
                },
            },
            None => None,
        }
    }
}

/// The steps a [`pure_expr`] takes.
pub open spec fn expr_steps(e: Expr) -> nat
    decreases e,
{
    match e {
        Expr::Array(items) => 1 + items@.len(),
        Expr::String(parts) => 1 + parts_steps(parts@),
        Expr::Not(inner) => 1 + expr_steps(*inner),
        Expr::Eq(l, r) => 1 + expr_steps(*l) + expr_steps(*r),
        Expr::Ne(l, r) => 1 + expr_steps(*l) + expr_steps(*r),
        Expr::Arith(l, _, r) => 1 + expr_steps(*l) + expr_steps(*r),
        _ => 1,
    }
}

/// The steps the interpolations of `parts` take.
pub open spec fn parts_steps(parts: Seq<StrPart>) -> nat
    decreases parts,
{
    if parts.len() == 0 {
        0
    } else {
        parts_steps(parts.drop_last()) + match parts.last() {
            StrPart::Lit(_) => 0,
            StrPart::Interp(e) => expr_steps(e),
        }
    }
}

proof fn lemma_parts_prefix(parts: Seq<StrPart>, vars: Map<Seq<char>, JsonView>, i: int)
    requires
        0 <= i <= parts.len(),
    ensures
        pure_parts(parts) ==> pure_parts(parts.subrange(0, i)),
        parts_steps(parts.subrange(0, i)) <= parts_steps(parts),
        parts_text(parts.subrange(0, i), vars) is None ==> parts_text(parts, vars) is None,
    decreases parts.len() - i,
{
    if i < parts.len() {
        lemma_parts_prefix(parts, vars, i + 1);
        assert(parts.subrange(0, i + 1).drop_last() =~= parts.subrange(0, i));
    } else {
        assert(parts.subrange(0, i) =~= parts);
    }
}

/// The result `fetch_json` reads for `u`: the settled one, else null.
pub open spec fn settled_value(results: Map<Seq<char>, JsonValue>, u: Seq<char>) -> JsonView {
    if results.contains_key(u) {
        results[u]@
    } else {
        JsonView::Null
    }
}

/// The requests after a public URL `u` is asked for: `u` is added at the
/// end unless it has a result, is asked for already, or the list is full.
pub open spec fn asked_after(
    before: Seq<String>,
    after: Seq<String>,
    results: Map<Seq<char>, JsonValue>,
    u: Seq<char>,
) -> bool {
    if !results.contains_key(u) && before.len() < MAX_PREPROCESS_JOBS && !(exists|j: int|
        0 <= j < before.len() && (#[trigger] before[j])@ == u) {
        after.len() == before.len() + 1 && after.drop_last() == before && after.last()@ == u
    } else {
        after == before
    }
}

/// The sides of `l || r` (with `true`) or `l && r` (with `false`).
pub open spec fn logic_sides(e: Expr) -> Option<(Expr, Expr, bool)> {
    match e {
        Expr::Or(l, r) => Some((*l, *r, true)),
        Expr::And(l, r) => Some((*l, *r, false)),
        _ => None,
    }
}

/// The value of `||` (`is_or`) or `&&` from the values of its sides: the
/// left one where it decides (truthy for `||`, falsy for `&&`), else the
/// right one.
pub open spec fn logic_result(left: Option<JsonView>, right: Option<JsonView>, is_or: bool) -> Option<
    JsonView,
> {
    match left {
        Some(a) => if truthy(a) == is_or {
            Some(a)
        } else {
            right
        },
        None => None,
    }
}

/// The steps `||` or `&&` takes: its own, the left side's, and the right
/// side's where the left one does not decide.
pub open spec fn logic_steps(l: Expr, r: Expr, left: Option<JsonView>, is_or: bool) -> nat {
    1 + expr_steps(l) + match left {
        Some(a) => if truthy(a) == is_or {
            0
        } else {
            expr_steps(r)
        },
        None => 0,
    }
}

/// The value of an expression.
fn eval_expr<H: PreprocessHost>(ctx: &mut Ctx, jobs: &PreprocessJobs, host: &H, expr: &Expr) -> (r:
    Result<JsonValue, String>)
    requires
        ctx_ok(*old(ctx), jobs@),
    ensures
        ctx_ok(*final(ctx), jobs@),
        ctx_step(*old(ctx), *final(ctx)),
        r is Ok ==> final(ctx).step_budget < old(ctx).step_budget,
        r matches Ok(v) ==> fits(v@),
        old(ctx).step_budget == 0 ==> (r matches Err(e) && e@ == budget_exceeded()),
        literal_value(*expr) matches Some(w) ==> old(ctx).step_budget > 0 ==> {
            &&& (r is Ok <==> fits(w))
            &&& (r matches Ok(v) ==> v@ == w)
            &&& same_but_budget(*old(ctx), *final(ctx))
            &&& final(ctx).step_budget == old(ctx).step_budget - 1
        },
        pure_expr(*expr) ==> forall|vars: Map<Seq<char>, JsonView>| #[trigger] vars_agree(old(ctx).vars@, vars) ==> old(ctx).step_budget >= expr_steps(*expr) ==> {
            &&& (r is Ok <==> expr_result(*expr, vars) is Some)
            &&& (r matches Ok(v) ==> expr_result(*expr, vars) == Some(v@))
            &&& (r is Ok ==> same_but_budget(*old(ctx), *final(ctx)) && final(ctx).step_budget
                == old(ctx).step_budget - expr_steps(*expr))
        },
        logic_sides(*expr) matches Some((l, rr, is_or)) ==> pure_expr(l) ==> pure_expr(rr) ==> forall|
            vars: Map<Seq<char>, JsonView>,
        | #[trigger] vars_agree(old(ctx).vars@, vars) ==> old(ctx).step_budget >= 1 + expr_steps(l)
            + expr_steps(rr) ==> {
            &&& (r is Ok <==> logic_result(expr_result(l, vars), expr_result(rr, vars), is_or) is Some)
            &&& (r matches Ok(v) ==> logic_result(expr_result(l, vars), expr_result(rr, vars), is_or)
                == Some(v@))
            &&& (r is Ok ==> same_but_budget(*old(ctx), *final(ctx)) && final(ctx).step_budget
                == old(ctx).step_budget - logic_steps(l, rr, expr_result(l, vars), is_or))
        },
        expr matches Expr::FetchJson(inner) ==> literal_value(**inner) matches Some(JsonView::Str(u))
            ==> old(ctx).step_budget >= 2 ==> fits(JsonView::Str(u)) ==> {
            &&& (r matches Ok(v) ==> (v@ is Null && final(ctx).requested@ == old(ctx).requested@) || (
            is_http_url(u) && v@ == settled_value(jobs@, u) && asked_after(
                old(ctx).requested@,
                final(ctx).requested@,
                jobs@,
                u,
            )))
            &&& (!is_http_url(u) ==> (r matches Ok(v) && v@ is Null && final(ctx).requested@
                == old(ctx).requested@))
        },
    decreases old(ctx).step_budget, 1nat,
{
    take_step(ctx)?;
    let value = match expr {
        Expr::String(parts) => JsonValue::String(resolve_str_parts(ctx, jobs, host, parts)?),
        Expr::Null => JsonValue::Null,
        Expr::Not(inner) => {
            let v = eval_expr(ctx, jobs, host, &**inner)?;
            JsonValue::Bool(!is_truthy(&v))
        },
        Expr::Or(left, right) => {
            let lv = eval_expr(ctx, jobs, host, &**left)?;
            if is_truthy(&lv) {
                lv
            } else {
                eval_expr(ctx, jobs, host, &**right)?
            }
        },
        Expr::And(left, right) => {
            let lv = eval_expr(ctx, jobs, host, &**left)?;
            if !is_truthy(&lv) {
                lv
            } else {
                eval_expr(ctx, jobs, host, &**right)?
            }
        },
        Expr::Eq(left, right) => {
            let lv = eval_expr(ctx, jobs, host, &**left)?;
            let rv = eval_expr(ctx, jobs, host, &**right)?;
            JsonValue::Bool(values_equal(&lv, &rv))
        },
        Expr::Ne(left, right) => {
            let lv = eval_expr(ctx, jobs, host, &**left)?;
            let rv = eval_expr(ctx, jobs, host, &**right)?;
            JsonValue::Bool(!values_equal(&lv, &rv))
        },
        Expr::Access(acc) => resolve_accessor(ctx, jobs, host, acc)?,
        Expr::Chain { base, methods } => {
            let start = resolve_accessor(ctx, jobs, host, base)?;
            eval_chain(ctx, jobs, host, start, methods)?
        },
        Expr::ValueChain { base, methods } => {
            let start = eval_expr(ctx, jobs, host, &**base)?;
            eval_chain(ctx, jobs, host, start, methods)?
        },
        Expr::Array(items) => {
            check_array_len(items.len())?;
            let values = eval_items(ctx, jobs, host, items)?;
            proof {
                if pure_expr(*expr) && old(ctx).step_budget >= expr_steps(*expr) {
                    let ghost av = JsonValue::Array(values)@->Array_0;
                    assert(av.len() == values@.len());
                    assert forall|k: int| 0 <= k < av.len() implies av[k] == literal_items(items@)[k] by {
                        assert(av[k] == values@[k]@);
                    }
                    assert(av =~= literal_items(items@));
                }
            }
            JsonValue::Array(values)
        },
        Expr::Int(value) => JsonValue::Int(*value),
        Expr::Request(inner) => {
            let v = eval_expr(ctx, jobs, host, &**inner)?;
            request(ctx, jobs, host, value_text(&v))
        },
        Expr::FetchJson(inner) => {
            let ghost c1 = *ctx;
            let v = eval_expr(ctx, jobs, host, &**inner)?;
            let ghost c2 = *ctx;
            let asked = request(ctx, jobs, host, value_text(&v));
            proof {
                if ctx.requested@ != c2.requested@ {
                    assert(ctx.requested@.drop_last() =~= c2.requested@);
                }
            }
            let url = value_text(&asked);
            if url.unicode_len() == 0 {
                JsonValue::Null
            } else {
                match jobs.results().get(&url) {
                    Some(found) => duplicate(found),
                    None => JsonValue::Null,
                }
            }
        },
        Expr::Arith(left, op, right) => {
            let lv = eval_expr(ctx, jobs, host, &**left)?;
            let rv = eval_expr(ctx, jobs, host, &**right)?;
            match (as_integer(&lv), as_integer(&rv)) {
                (Some(a), Some(b)) => JsonValue::Int(saturating_arith(a, b, *op)),
                _ => JsonValue::Null,
            }
        },
        Expr::ExtractJson(_, _) | Expr::Regex(_, _) => JsonValue::Null,
    };
    check_value_limits(&value)?;
    Ok(value)
}

/// The values of `items`, in order.
fn eval_items<H: PreprocessHost>(ctx: &mut Ctx, jobs: &PreprocessJobs, host: &H, items: &Vec<Expr>) -> (r:
    Result<Vec<JsonValue>, String>)
    requires
        ctx_ok(*old(ctx), jobs@),
    ensures
        ctx_ok(*final(ctx), jobs@),
        ctx_step(*old(ctx), *final(ctx)),
        (forall|i: int| 0 <= i < items@.len() ==> (#[trigger] literal_value(items@[i])) is Some)
            ==> old(ctx).step_budget >= items@.len() ==> {
            &&& (r is Ok <==> forall|i: int|
                0 <= i < items@.len() ==> fits(#[trigger] literal_items(items@)[i]))
            &&& (r matches Ok(vs) ==> vs@.len() == items@.len() && forall|i: int|
                0 <= i < items@.len() ==> (#[trigger] vs@[i])@ == literal_items(items@)[i])
            &&& (r is Ok ==> same_but_budget(*old(ctx), *final(ctx)) && final(ctx).step_budget
                == old(ctx).step_budget - items@.len())
        },
    decreases old(ctx).step_budget, 2nat,
{
    let ghost c0 = *ctx;
    let ghost lits = forall|i: int| 0 <= i < items@.len() ==> (#[trigger] literal_value(items@[i])) is Some;
    let ghost ws = literal_items(items@);
    let mut values: Vec<JsonValue> = Vec::new();
    let mut i: usize = 0;
    while i < items.len()
        invariant
            i <= items@.len(),
            ctx_ok(*ctx, jobs@),
            ctx_step(c0, *ctx),
            c0 == *old(ctx),
            ws == literal_items(items@),
            lits == (forall|i: int| 0 <= i < items@.len() ==> (#[trigger] literal_value(items@[i])) is Some),
            lits && c0.step_budget >= items@.len() ==> {
                &&& same_but_budget(c0, *ctx)
                &&& ctx.step_budget == c0.step_budget - i
                &&& values@.len() == i
                &&& forall|k: int| 0 <= k < i ==> fits(#[trigger] ws[k])
                &&& forall|k: int| 0 <= k < i ==> (#[trigger] values@[k])@ == ws[k]
            },
        decreases items@.len() - i,
    {
        proof {
            if lits {
                assert(literal_value(items@[i as int]) is Some);
                assert(ws[i as int] == literal_value(items@[i as int])->0);
            }
        }
        let v = match eval_expr(ctx, jobs, host, &items[i]) {
            Ok(v) => v,
            Err(e) => {
                proof {
                    if lits && c0.step_budget >= items@.len() {
                        assert(!fits(ws[i as int]));
                    }
                }
                return Err(e);
            },
        };
        values.push(v);
        i = i + 1;
    }
    Ok(values)
}

/// Applies the steps of a method chain in order.
fn eval_chain<H: PreprocessHost>(
    ctx: &mut Ctx,
    jobs: &PreprocessJobs,
    host: &H,
    start: JsonValue,
    methods: &Vec<Method>,
) -> (r: Result<JsonValue, String>)
    requires
        ctx_ok(*old(ctx), jobs@),
        fits(start@),
    ensures
        ctx_ok(*final(ctx), jobs@),
        ctx_step(*old(ctx), *final(ctx)),
        r matches Ok(v) ==> fits(v@),
        (forall|i: int| 0 <= i < methods@.len() ==> pure_method(#[trigger] methods@[i])) ==> {
            &&& *final(ctx) == *old(ctx)
            &&& (r is Ok <==> chained(start@, methods@) is Some)
            &&& (r matches Ok(v) ==> chained(start@, methods@) == Some(v@))
        },
    decreases old(ctx).step_budget, 5nat,
{
    let ghost c0 = *ctx;
    let ghost w0 = start@;
    let ghost pure = forall|i: int| 0 <= i < methods@.len() ==> pure_method(#[trigger] methods@[i]);
    let mut val = start;
    let mut i: usize = 0;
    while i < methods.len()
        invariant
            i <= methods@.len(),
            ctx_ok(*ctx, jobs@),
            ctx_step(c0, *ctx),
            c0 == *old(ctx),
            fits(val@),
            pure == (forall|i: int| 0 <= i < methods@.len() ==> pure_method(#[trigger] methods@[i])),
            pure ==> *ctx == c0 && chained(w0, methods@.subrange(0, i as int)) == Some(val@),
            w0 == start@,
        decreases methods@.len() - i,
    {
        proof {
            if pure {
                assert(pure_method(methods@[i as int]));
                assert(methods@.subrange(0, i + 1).drop_last() =~= methods@.subrange(0, i as int));
                assert(methods@.subrange(0, i + 1).last() == methods@[i as int]);
            }
        }
        val = match eval_method(ctx, jobs, host, val, &methods[i]) {
            Ok(v) => v,
            Err(e) => {
                proof {
                    if pure {
                        assert(method_value(val@, methods@[i as int]) is Some);
                        assert(chained(w0, methods@.subrange(0, i + 1)) is None);
                        lemma_chained_none(w0, methods@, i + 1);
                    }
                }
                return Err(e);
            },
        };
        i = i + 1;
    }
    assert(methods@.subrange(0, methods@.len() as int) =~= methods@);
    Ok(val)
}

/// Gives each item of `items` to `body` as variable `var`.
#[verifier::rlimit(80)]
#[verifier::spinoff_prover]
fn map_items<H: PreprocessHost>(
    ctx: &mut Ctx,
    jobs: &PreprocessJobs,
    host: &H,
    items: &Vec<JsonValue>,
    var: &str,
    body: &Expr,
) -> (r: Result<Vec<JsonValue>, String>)
    requires
        ctx_ok(*old(ctx), jobs@),
    ensures
        ctx_ok(*final(ctx), jobs@),
        ctx_step(*old(ctx), *final(ctx)),
        r matches Ok(v) ==> v@.len() == items@.len(),
        own_var(var@) && pure_expr(*body) ==> forall|vars: Map<Seq<char>, JsonView>| #[trigger]
            vars_agree(old(ctx).vars@, vars) ==> old(ctx).step_budget >= items@.len() * expr_steps(
            *body,
        ) ==> {
            &&& (r is Ok <==> mapped_values(views_of(items@), var@, *body, vars) is Some)
            &&& (r matches Ok(v) ==> mapped_values(views_of(items@), var@, *body, vars) == Some(
                views_of(v@),
            ))
        },
    decreases old(ctx).step_budget, 3nat,
{
    let ghost c0 = *ctx;
    let ghost pure = own_var(var@) && pure_expr(*body);
    let ghost iv = views_of(items@);
    let ghost e = expr_steps(*body);
    let mut mapped: Vec<JsonValue> = Vec::new();
    let mut i: usize = 0;
    while i < items.len()
        invariant
            i <= items@.len(),
            mapped@.len() == i,
            ctx_ok(*ctx, jobs@),
            ctx_step(c0, *ctx),
            c0 == *old(ctx),
            iv == views_of(items@),
            e == expr_steps(*body),
            pure == (own_var(var@) && pure_expr(*body)),
            pure && c0.step_budget >= items@.len() * e ==> {
                &&& ctx.step_budget + i * e == c0.step_budget
                &&& ctx.match_start == c0.match_start
                &&& forall|k: Seq<char>| k != var@ ==> #[trigger] ctx.vars@.contains_key(k)
                    == c0.vars@.contains_key(k)
                &&& forall|k: Seq<char>| k != var@ && #[trigger] ctx.vars@.contains_key(k) ==> ctx.vars@[k]
                    == c0.vars@[k]
                &&& forall|vars: Map<Seq<char>, JsonView>| #[trigger] vars_agree(c0.vars@, vars)
                    ==> mapped_values(iv.take(i as int), var@, *body, vars) == Some(views_of(mapped@))
            },
        decreases items@.len() - i,
    {
        let ghost held = ctx.vars@;
        proof {
            if pure && c0.step_budget >= items@.len() * e {
                assert(iv.take(i + 1).drop_last() =~= iv.take(i as int));
                assert(iv.take(i + 1).last() == items@[i as int]@);
                assert((i + 1) * e == i * e + e) by (nonlinear_arith);
                assert(items@.len() * e >= (i + 1) * e) by (nonlinear_arith)
                    requires items@.len() >= i + 1;
            }
        }
        let item = duplicate(&items[i]);
        let ghost item_view = item@;
        match set_var(ctx, var, item) {
            Ok(()) => {},
            Err(err) => {
                proof {
                    if pure && c0.step_budget >= items@.len() * e {
                        assert forall|vars: Map<Seq<char>, JsonView>| #[trigger] vars_agree(c0.vars@, vars)
                            implies mapped_values(iv, var@, *body, vars) is None by {
                            lemma_mapped_none(iv, var@, *body, vars, i + 1);
                        }
                    }
                }
                return Err(err);
            },
        }
        proof {
            if pure && c0.step_budget >= items@.len() * e {
                assert(ctx.vars@ == held.insert(var@, ctx.vars@[var@]));
                assert(ctx.vars@[var@]@ == items@[i as int]@);
                assert forall|vars: Map<Seq<char>, JsonView>| #[trigger] vars_agree(c0.vars@, vars)
                    implies vars_agree(ctx.vars@, vars.insert(var@, items@[i as int]@)) by {
                    let m = vars.insert(var@, items@[i as int]@);
                    assert forall|k: Seq<char>| #[trigger] m.contains_key(k) implies ctx.vars@[k]@ == m[k] by {
                        if k != var@ {
                            assert(vars.contains_key(k));
                            assert(own_var(k));
                            assert(c0.vars@.contains_key(k));
                            assert(held.contains_key(k));
                            assert(ctx.vars@[k] == held[k]);
                            assert(held[k] == c0.vars@[k]);
                        }
                    }
                }
            }
        }
        let ghost mid = *ctx;
        let v = match eval_expr(ctx, jobs, host, body) {
            Ok(v) => v,
            Err(err) => {
                proof {
                    if pure && c0.step_budget >= items@.len() * e {
                        assert forall|vars: Map<Seq<char>, JsonView>| #[trigger] vars_agree(c0.vars@, vars)
                            implies mapped_values(iv, var@, *body, vars) is None by {
                            assert(vars_agree(mid.vars@, vars.insert(var@, items@[i as int]@)));
                            lemma_mapped_none(iv, var@, *body, vars, i + 1);
                        }
                    }
                }
                return Err(err);
            },
        };
        let ghost before = mapped@;
        mapped.push(v);
        proof {
            if pure && c0.step_budget >= items@.len() * e {
                lemma_own_vars(mid.vars@);
                assert(views_of(mapped@) =~= views_of(before).push(v@));
                assert forall|vars: Map<Seq<char>, JsonView>| #[trigger] vars_agree(c0.vars@, vars)
                    implies mapped_values(iv.take(i + 1), var@, *body, vars) == Some(views_of(mapped@)) by {
                    assert(vars_agree(mid.vars@, vars.insert(var@, items@[i as int]@)));
                }
            }
        }
        i = i + 1;
    }
    proof {
        assert(iv.take(items@.len() as int) =~= iv);
    }
    Ok(mapped)
}

/// What `map` gives for an array `items`: the values of `body` for each
/// item (see [`mapped_values`]), `None` where something is over a limit.
pub open spec fn map_outcome(items: Seq<JsonView>, var: Seq<char>, body: Expr, vars: Map<Seq<char>, JsonView>) -> Option<
    JsonView,
> {
    if items.len() > PREPROCESS_MAX_ARRAY_ITEMS {
        None
    } else {
        match mapped_values(items, var, body, vars) {
            Some(vs) => if fits(JsonView::Array(vs)) {
                Some(JsonView::Array(vs))
            } else {
                None
            },
            None => None,
        }
    }
}

/// The views of `items`.
pub open spec fn views_of(items: Seq<JsonValue>) -> Seq<JsonView> {
    items.map_values(|x: JsonValue| x@)
}

/// The values of `body` over `vars` with `var` set to each of `items` in
/// turn; `None` where a value is over a limit.
pub open spec fn mapped_values(items: Seq<JsonView>, var: Seq<char>, body: Expr, vars: Map<Seq<char>, JsonView>) -> Option<
    Seq<JsonView>,
>
    decreases items.len(),
{
    if items.len() == 0 {
        Some(Seq::empty())
    } else {
        match mapped_values(items.drop_last(), var, body, vars) {
            Some(vs) => if fits(items.last()) {
                match expr_result(body, vars.insert(var, items.last())) {
                    Some(w) => Some(vs.push(w)),
                    None => None,
                }
            } else {
                None
            },
            None => None,
        }
    }
}

proof fn lemma_mapped_none(items: Seq<JsonView>, var: Seq<char>, body: Expr, vars: Map<Seq<char>, JsonView>, i: int)
    requires
        0 <= i <= items.len(),
        mapped_values(items.take(i), var, body, vars) is None,
    ensures
        mapped_values(items, var, body, vars) is None,
    decreases items.len() - i,
{
    if i < items.len() {
        assert(items.take(i + 1).drop_last() =~= items.take(i));
        lemma_mapped_none(items, var, body, vars, i + 1);
    } else {
        assert(items.take(i) =~= items);
    }
}

/// `flat_map`: like `map`, with array results spread one level (and arrays
/// inside them spread too).
fn flat_map_items<H: PreprocessHost>(
    ctx: &mut Ctx,
    jobs: &PreprocessJobs,
    host: &H,
    items: &Vec<JsonValue>,
    var: &str,
    body: &Expr,
) -> (r: Result<Vec<JsonValue>, String>)
    requires
        ctx_ok(*old(ctx), jobs@),
    ensures
        ctx_ok(*final(ctx), jobs@),
        ctx_step(*old(ctx), *final(ctx)),
    decreases old(ctx).step_budget, 3nat,
{
    let ghost c0 = *ctx;
    let mut result: Vec<JsonValue> = Vec::new();
    let mut i: usize = 0;
    while i < items.len()
        invariant
            i <= items@.len(),
            ctx_ok(*ctx, jobs@),
            ctx_step(c0, *ctx),
            c0 == *old(ctx),
        decreases items@.len() - i,
    {
        set_var(ctx, var, duplicate(&items[i]))?;
        let mapped = eval_expr(ctx, jobs, host, body)?;
        match &mapped {
            JsonValue::Array(sub) => {
                let mut k: usize = 0;
                while k < sub.len()
                    invariant
                        k <= sub@.len(),
                        ctx_ok(*ctx, jobs@),
                        ctx_step(*old(ctx), *ctx),
                    decreases sub@.len() - k,
                {
                    match &sub[k] {
                        JsonValue::Array(nested) => {
                            let mut n: usize = 0;
                            while n < nested.len()
                                invariant
                                    n <= nested@.len(),
                                decreases nested@.len() - n,
                            {
                                result.push(duplicate(&nested[n]));
                                n = n + 1;
                            }
                        },
                        elem => {
                            result.push(duplicate(elem));
                        },
                    }
                    check_array_len(result.len())?;
                    k = k + 1;
                }
            },
            _ => {
                result.push(mapped);
                check_array_len(result.len())?;
            },
        }
        i = i + 1;
    }
    Ok(result)
}

/// `gsub(/re/) { |m| … }`: each match replaced by the text of `body`, which
/// sees the match's groups (`[whole, group1, …]`, null for a group that
/// takes no part) as variable `var`.
fn gsub_block<H: PreprocessHost>(
    ctx: &mut Ctx,
    jobs: &PreprocessJobs,
    host: &H,
    text: &str,
    pattern: &str,
    flags: &str,
    var: &str,
    body: &Expr,
) -> (r: Result<String, String>)
    requires
        ctx_ok(*old(ctx), jobs@),
    ensures
        ctx_ok(*final(ctx), jobs@),
        ctx_step(*old(ctx), *final(ctx)),
    decreases old(ctx).step_budget, 3nat,
{
    let f = pattern_flags(flags);
    let pieces = match split_on_matches(pattern, f, text) {
        Ok(p) => p,
        Err(e) => {
            return Err(invalid_regex(e));
        },
    };
    let groups = match groups_of_matches(pattern, f, text) {
        Ok(g) => g,
        Err(e) => {
            return Err(invalid_regex(e));
        },
    };
    let ghost c0 = *ctx;
    let mut replaced = String::new();
    let mut k: usize = 0;
    while k < groups.len()
        invariant
            k <= groups@.len(),
            ctx_ok(*ctx, jobs@),
            ctx_step(c0, *ctx),
            c0 == *old(ctx),
        decreases groups@.len() - k,
    {
        if k < pieces.len() {
            replaced.append(pieces[k].as_str());
        }
        let mut match_values: Vec<JsonValue> = Vec::new();
        let mut g: usize = 0;
        while g < groups[k].len()
            invariant
                g <= groups@[k as int]@.len(),
                k < groups@.len(),
            decreases groups@[k as int]@.len() - g,
        {
            match &groups[k][g] {
                Some(t) => match_values.push(JsonValue::String(t.clone())),
                None => match_values.push(JsonValue::Null),
            }
            g = g + 1;
        }
        set_var(ctx, var, JsonValue::Array(match_values))?;
        let v = eval_expr(ctx, jobs, host, body)?;
        replaced.append(value_text(&v).as_str());
        k = k + 1;
    }
    if groups.len() < pieces.len() {
        replaced.append(pieces[groups.len()].as_str());
    }
    Ok(replaced)
}

/// The message for a pattern that does not build.
fn invalid_regex(message: String) -> (r: String)
    ensures
        r@ == "preprocess: invalid regex: "@ + message@,
{
    let mut r = "preprocess: invalid regex: ".to_owned();
    r.append(message.as_str());
    r
}

/// The value of a chain step that needs nothing but the value `w` it
/// applies to; `None` for the steps that evaluate something of their own.
pub open spec fn method_value(w: JsonView, m: Method) -> Option<JsonView> {
    match m {
        Method::Flatten => Some(
            match w {
                JsonView::Array(items) => JsonView::Array(flattened(items)),
                _ => w,
            },
        ),
        Method::Compact => Some(
            match w {
                JsonView::Array(items) => JsonView::Array(compacted(items)),
                _ => w,
            },
        ),
        Method::Reverse => Some(
            match w {
                JsonView::Array(items) => JsonView::Array(items.reverse()),
                _ => w,
            },
        ),
        Method::Field(f) => Some(field_of(w, f@)),
        Method::Bracket(BracketKey::Index(n)) => Some(looked_up(w, JsonView::Int(n))),
        Method::IsArray => Some(JsonView::Bool(w is Array)),
        Method::Empty => Some(JsonView::Bool(emptiness_of(w))),
        Method::Size => Some(size_of(w)),
        Method::First => Some(end_of(w, false)),
        Method::Last => Some(end_of(w, true)),
        Method::MapEach { .. } => if w is Array {
            None
        } else {
            Some(w)
        },
        Method::FlatMap { .. } => if w is Array {
            None
        } else {
            Some(w)
        },
        Method::GsubBlock { .. } => if w is Str {
            None
        } else {
            Some(w)
        },
        _ => None,
    }
}

/// `size` counts the characters of a string and the items of an array;
/// `first` and `last` give the first and the last item of an array (null
/// for an empty one, and the value itself for anything but an array);
/// `reverse` twice gives an array back; `array?` holds exactly of arrays.
pub proof fn lemma_array_methods(w: JsonView)
    ensures
        w matches JsonView::Str(s) ==> s.len() <= i64::MAX ==> method_value(w, Method::Size)
            == Some(JsonView::Int(s.len() as i64)),
        w matches JsonView::Array(a) ==> a.len() <= i64::MAX ==> method_value(w, Method::Size)
            == Some(JsonView::Int(a.len() as i64)),
        w matches JsonView::Array(a) ==> a.len() > 0 ==> method_value(w, Method::First) == Some(a[0])
            && method_value(w, Method::Last) == Some(a[a.len() - 1]),
        w matches JsonView::Array(a) ==> a.len() == 0 ==> method_value(w, Method::First) == Some(
            JsonView::Null,
        ) && method_value(w, Method::Last) == Some(JsonView::Null),
        !(w is Array) ==> method_value(w, Method::First) == Some(w) && method_value(w, Method::Last)
            == Some(w),
        w is Array ==> method_value(method_value(w, Method::Reverse)->0, Method::Reverse) == Some(w),
        method_value(w, Method::IsArray) == Some(JsonView::Bool(w is Array)),
{
    if let JsonView::Array(a) = w {
        assert(a.reverse().reverse() =~= a);
    }
}

/// `empty?` answers with a boolean: of a string, whether it has no
/// characters; of an array, whether it has no items; and of a string or an
/// array it holds exactly when `size` gives 0.
pub proof fn lemma_empty_is_size_zero(w: JsonView)
    ensures
        method_value(w, Method::Empty) matches Some(JsonView::Bool(_)),
        w matches JsonView::Str(s) ==> method_value(w, Method::Empty) == Some(JsonView::Bool(s.len() == 0)),
        w matches JsonView::Array(a) ==> method_value(w, Method::Empty) == Some(JsonView::Bool(a.len() == 0)),
        (w is Str || w is Array) ==> (method_value(w, Method::Empty) == Some(JsonView::Bool(true))
            <==> method_value(w, Method::Size) == Some(JsonView::Int(0))),
{
}

/// A literal text of at most the size limit.
pub open spec fn small_lit(parts: Seq<StrPart>) -> Option<Seq<char>> {
    match lit_text(parts) {
        Some(t) => if byte_len(t) <= PREPROCESS_MAX_STRING_BYTES {
            Some(t)
        } else {
            None
        },
        None => None,
    }
}

/// A string of at most the size limit, else a failure.
pub open spec fn small_str(t: Seq<char>) -> Option<JsonView> {
    if byte_len(t) <= PREPROCESS_MAX_STRING_BYTES {
        Some(JsonView::Str(t))
    } else {
        None
    }
}

/// The outcome of a chain step that rewrites text with literal arguments:
/// `gsub`/`replace` of a string replace each occurrence, `gsub` with a
/// pattern replaces each match, `join` joins the texts of an array's items;
/// other values are left as they are. The inner `None` is a failure (a
/// value over a limit, or a pattern that does not build); the outer `None`
/// is a step not of this kind.
pub open spec fn text_method_value(w: JsonView, m: Method) -> Option<Option<JsonView>> {
    match m {
        Method::Gsub(from, to) => match (small_lit(from@), small_lit(to@)) {
            (Some(f), Some(t)) => Some(
                match w {
                    JsonView::Str(s) => small_str(str_replace(s, f, t)),
                    _ => Some(w),
                },
            ),
            _ => None,
        },
        Method::Replace(from, to) => match (small_lit(from@), small_lit(to@)) {
            (Some(f), Some(t)) => Some(
                match w {
                    JsonView::Str(s) => small_str(str_replace(s, f, t)),
                    _ => Some(w),
                },
            ),
            _ => None,
        },
        Method::GsubRegex { pattern, flags, to } => match small_lit(to@) {
            Some(t) => Some(
                match w {
                    JsonView::Str(s) => match pattern_replaced(
                        pattern@,
                        flags@.contains('s'),
                        flags@.contains('m'),
                        flags@.contains('i'),
                        s,
                        t,
                    ) {
                        Some(x) => small_str(x),
                        None => None,
                    },
                    _ => Some(w),
                },
            ),
            None => None,
        },
        Method::Join(sep) => match small_lit(sep@) {
            Some(t) => Some(
                match w {
                    JsonView::Array(items) => small_str(join_seq(texts_of(items), t)),
                    _ => Some(w),
                },
            ),
            None => None,
        },
        _ => None,
    }
}

/// Applies one step of a method chain to `val`.
fn eval_method<H: PreprocessHost>(
    ctx: &mut Ctx,
    jobs: &PreprocessJobs,
    host: &H,
    val: JsonValue,
    method: &Method,
) -> (r: Result<JsonValue, String>)
    requires
        ctx_ok(*old(ctx), jobs@),
        fits(val@),
    ensures
        ctx_ok(*final(ctx), jobs@),
        ctx_step(*old(ctx), *final(ctx)),
        r matches Ok(v) ==> fits(v@),
        method_value(val@, *method) matches Some(w) ==> {
            &&& (r is Ok <==> fits(w))
            &&& (r matches Ok(v) ==> v@ == w)
            &&& *final(ctx) == *old(ctx)
        },
        method matches Method::MapEach { var, body } ==> val@ matches JsonView::Array(items) ==> own_var(
            var@,
        ) ==> pure_expr(**body) ==> forall|vars: Map<Seq<char>, JsonView>| #[trigger] vars_agree(
            old(ctx).vars@,
            vars,
        ) ==> old(ctx).step_budget >= items.len() * expr_steps(**body) ==> {
            &&& (r is Ok <==> map_outcome(items, var@, **body, vars) is Some)
            &&& (r matches Ok(v) ==> map_outcome(items, var@, **body, vars) == Some(v@))
        },
        text_method_value(val@, *method) matches Some(o) ==> {
            &&& (r is Ok <==> o is Some)
            &&& (r matches Ok(v) ==> o == Some(v@))
            &&& *final(ctx) == *old(ctx)
        },
    decreases old(ctx).step_budget, 4nat,
{
    let value = match method {
        Method::MapEach { var, body } => {
            let items = match &val {
                JsonValue::Array(items) => items,
                _ => {
                    return Ok(val);
                },
            };
            proof {
                assert(views_of(items@) =~= val@->Array_0);
            }
            check_array_len(items.len())?;
            let mapped = map_items(ctx, jobs, host, items, var.as_str(), &**body)?;
            proof {
                assert(JsonValue::Array(mapped)@->Array_0 =~= views_of(mapped@));
            }
            JsonValue::Array(mapped)
        },
        Method::FlatMap { var, body } => {
            let items = match &val {
                JsonValue::Array(items) => items,
                _ => {
                    return Ok(val);
                },
            };
            JsonValue::Array(flat_map_items(ctx, jobs, host, items, var.as_str(), &**body)?)
        },
        Method::Flatten => {
            if !matches!(val, JsonValue::Array(_)) {
                return Ok(val);
            }
            flatten_value(val)?
        },
        Method::Compact => {
            if !matches!(val, JsonValue::Array(_)) {
                return Ok(val);
            }
            let compacted = compact_value(val);
            check_array_len(match &compacted {
                JsonValue::Array(items) => items.len(),
                _ => 0,
            })?;
            compacted
        },
        Method::Join(sep_parts) => {
            let sep = resolve_str_parts(ctx, jobs, host, sep_parts)?;
            if !matches!(val, JsonValue::Array(_)) {
                return Ok(val);
            }
            let joined = join_value(val, sep.as_str());
            if let JsonValue::String(s) = &joined {
                check_string_size(s.as_str())?;
            }
            joined
        },
        Method::Gsub(from_parts, to_parts) | Method::Replace(from_parts, to_parts) => {
            let from = resolve_str_parts(ctx, jobs, host, from_parts)?;
            let to = resolve_str_parts(ctx, jobs, host, to_parts)?;
            match &val {
                JsonValue::String(s) => {
                    let replaced = replace_all(s.as_str(), from.as_str(), to.as_str());
                    check_string_size(replaced.as_str())?;
                    JsonValue::String(replaced)
                },
                _ => val,
            }
        },
        Method::GsubRegex { pattern, flags, to } => {
            let replacement = resolve_str_parts(ctx, jobs, host, to)?;
            match &val {
                JsonValue::String(s) => {
                    let replaced = match replace_matches(
                        pattern.as_str(),
                        pattern_flags(flags.as_str()),
                        s.as_str(),
                        replacement.as_str(),
                    ) {
                        Ok(t) => t,
                        Err(e) => {
                            return Err(invalid_regex(e));
                        },
                    };
                    check_string_size(replaced.as_str())?;
                    JsonValue::String(replaced)
                },
                _ => val,
            }
        },
        Method::GsubBlock { pattern, flags, var, body } => match &val {
            JsonValue::String(text) => {
                let replaced = gsub_block(
                    ctx,
                    jobs,
                    host,
                    text.as_str(),
                    pattern.as_str(),
                    flags.as_str(),
                    var.as_str(),
                    &**body,
                )?;
                check_string_size(replaced.as_str())?;
                JsonValue::String(replaced)
            },
            _ => val,
        },
        Method::Field(field) => field_value(&val, field.as_str()),
        Method::Bracket(key) => {
            let key_value = eval_key(ctx, jobs, host, key)?;
            lookup(&val, &key_value)
        },
        Method::IsArray => is_array_value(&val),
        Method::Empty => empty_value(&val),
        Method::Size => size_value(val),
        Method::First => end_value(val, false),
        Method::Last => end_value(val, true),
        Method::Reverse => reverse_value(val),
    };
    check_value_limits(&value)?;
    Ok(value)
}

/// `extract_json(/re/flags)`: the JSON value that group 1 of the first
/// match in `source` holds (`None` when nothing matches, group 1 takes no
/// part, or it is not JSON); the match's start is kept for
/// `insert_at_match`.
fn eval_extract_json<H: PreprocessHost>(
    ctx: &mut Ctx,
    jobs: &PreprocessJobs,
    host: &H,
    pattern: &str,
    flags: &str,
    source: &str,
) -> (r: Result<Option<JsonValue>, String>)
    requires
        ctx_ok(*old(ctx), jobs@),
    ensures
        ctx_ok(*final(ctx), jobs@),
        ctx_step(*old(ctx), *final(ctx)),
        r matches Ok(Some(v)) ==> fits(v@),
{
    let found = match first_match(pattern, pattern_flags(flags), source) {
        Ok(x) => x,
        Err(e) => {
            return Err(invalid_regex(e));
        },
    };
    let (before, group) = match found {
        Some(x) => x,
        None => {
            return Ok(None);
        },
    };
    let json_text = match group {
        Some(g) => g,
        None => {
            return Ok(None);
        },
    };
    check_string_size(json_text.as_str())?;
    ctx.match_start = Some(before.unicode_len());
    let value = host.decode_json(json_text.as_str());
    if let Some(v) = &value {
        check_value_limits(v)?;
    }
    Ok(value)
}

/// The position of the first entry from `i` on whose key is `key`.
spec fn first_entry(entries: Seq<(String, JsonValue)>, key: Seq<char>, i: int) -> Option<int>
    decreases entries.len() - i,
    when 0 <= i <= entries.len()
{
    if i >= entries.len() {
        None
    } else if entries[i].0@ == key {
        Some(i)
    } else {
        first_entry(entries, key, i + 1)
    }
}

/// `entries` with `key` set to `value`: the first entry with that key
/// replaced, or a new one at the end.
spec fn entries_with(entries: Seq<(String, JsonValue)>, key: String, value: JsonValue) -> Seq<
    (String, JsonValue),
> {
    match first_entry(entries, key@, 0) {
        Some(i) => entries.update(i, (key, value)),
        None => entries.push((key, value)),
    }
}

/// `entries` with `key` set to `value`: the first entry with that key
/// replaced, or a new one at the end.
#[verifier::loop_isolation(false)]
fn object_with(entries: Vec<(String, JsonValue)>, key: String, value: JsonValue) -> (r: Vec<
    (String, JsonValue),
>)
    ensures
        r@ == entries_with(entries@, key, value),
{
    let ghost e0 = entries@;
    let ghost k0 = key;
    let ghost v0 = value;
    let mut entries = entries;
    let mut i: usize = 0;
    while i < entries.len()
        invariant
            i <= entries@.len(),
            entries@ == e0,
            k0 == key,
            v0 == value,
            first_entry(e0, key@, 0) == first_entry(e0, key@, i as int),
        decreases entries@.len() - i,
    {
        if crate::text::chars_eq(entries[i].0.as_str(), key.as_str()) {
            assert(first_entry(e0, key@, i as int) == Some(i as int));
            assert(first_entry(e0, k0@, 0) == Some(i as int));
            entries.set(i, (key, value));
            assert(entries@ =~= e0.update(i as int, (k0, v0)));
            assert(entries_with(e0, k0, v0) == e0.update(i as int, (k0, v0)));
            return entries;
        }
        i = i + 1;
    }
    entries.push((key, value));
    entries
}

/// `source` with `block` put in at character `pos`.
fn insert_at(source: &str, pos: usize, block: &str) -> (r: Result<String, String>)
    ensures
        match r {
            Ok(s) => pos <= source@.len() && s@ == source@.subrange(0, pos as int) + block@
                + source@.subrange(pos as int, source@.len() as int),
            Err(_) => pos > source@.len(),
        },
{
    let len = source.unicode_len();
    if pos > len {
        return Err("preprocess: match position outside the page".to_owned());
    }
    let mut out = source.substring_char(0, pos).to_owned();
    out.append(block);
    out.append(source.substring_char(pos, len));
    Ok(out)
}

/// `emit` of a literal whose text keeps to the size limit.
pub open spec fn small_literal_emit(s: Stmt) -> bool {
    match s {
        Stmt::Emit(e) => match literal_value(e) {
            Some(w) => fits(w) && byte_len(text_of(w)) <= PREPROCESS_MAX_STRING_BYTES,
            None => false,
        },
        _ => false,
    }
}

/// Whether every statement of `s` is a [`small_literal_emit`].
pub open spec fn all_small_literal_emits(s: Seq<Stmt>) -> bool {
    forall|i: int| 0 <= i < s.len() ==> small_literal_emit(#[trigger] s[i])
}

/// Whether a statement can write the page: it is `insert_at_match` or
/// holds one.
pub open spec fn stmt_writes(s: Stmt) -> bool
    decreases s,
{
    match s {
        Stmt::InsertAtMatch => true,
        Stmt::If { body, else_body, .. } => stmts_write(body@) || match else_body {
            Some(e) => stmts_write(e@),
            None => false,
        },
        Stmt::For { body, .. } => stmts_write(body@),
        _ => false,
    }
}

/// Whether one of `s` can write the page.
pub open spec fn stmts_write(s: Seq<Stmt>) -> bool
    decreases s,
{
    if s.len() == 0 {
        false
    } else {
        stmts_write(s.drop_last()) || stmt_writes(s.last())
    }
}

proof fn lemma_no_write(s: Seq<Stmt>, i: int)
    requires
        !stmts_write(s),
        0 <= i < s.len(),
    ensures
        !stmt_writes(s[i]),
    decreases s.len(),
{
    if i < s.len() - 1 {
        lemma_no_write(s.drop_last(), i);
    }
}

/// The page, the pending output, whether a guard has stopped the run, and
/// the definition's own variables.
pub type PageState = (Seq<char>, Seq<Seq<char>>, bool, Map<Seq<char>, JsonView>);

/// Whether the value of a statement's expression is stated: a
/// [`pure_expr`], or `||` or `&&` of two.
pub open spec fn stated_expr(e: Expr) -> bool {
    pure_expr(e) || (logic_sides(e) matches Some((l, r, _)) && pure_expr(l) && pure_expr(r))
}

/// The value of a [`stated_expr`] over `vars`; `None` where a value is over
/// a limit.
pub open spec fn stated_result(e: Expr, vars: Map<Seq<char>, JsonView>) -> Option<JsonView> {
    if pure_expr(e) {
        expr_result(e, vars)
    } else {
        match logic_sides(e) {
            Some((l, r, is_or)) => logic_result(expr_result(l, vars), expr_result(r, vars), is_or),
            None => None,
        }
    }
}

/// The most steps a [`stated_expr`] takes.
pub open spec fn stated_steps(e: Expr) -> nat {
    if pure_expr(e) {
        expr_steps(e)
    } else {
        match logic_sides(e) {
            Some((l, r, _)) => 1 + expr_steps(l) + expr_steps(r),
            None => 1,
        }
    }
}

/// A statement whose effect depends on the page, the pending output and
/// the definition's own variables alone: a guard, `insert_at_match`, `emit`
/// of a [`stated_expr`], `let` or `set` of one into an own variable, `if` on
/// one with such statements in its branches, or `for` of an own variable
/// over an array of literals with such statements in its body.
pub open spec fn straight(s: Stmt) -> bool
    decreases s,
{
    match s {
        Stmt::Guard(_) => true,
        Stmt::InsertAtMatch => true,
        Stmt::Emit(e) => stated_expr(e),
        Stmt::Let { var, expr } => own_var(var@) && stated_expr(expr) && !(expr is ExtractJson),
        Stmt::Assign { target: LValue::Var(name), expr } => own_var(name@) && stated_expr(expr),
        Stmt::If { cond, body, else_body } => stated_expr(cond) && all_straight(body@) && match else_body {
            Some(e) => all_straight(e@),
            None => true,
        },
        Stmt::For { var, iter, body } => own_var(var@) && iter is Array && pure_expr(iter)
            && all_straight(body@),
        _ => false,
    }
}

/// Whether every statement of `s` is [`straight`].
pub open spec fn all_straight(s: Seq<Stmt>) -> bool
    decreases s,
{
    if s.len() == 0 {
        true
    } else {
        all_straight(s.drop_last()) && straight(s.last())
    }
}

proof fn lemma_all_straight_at(s: Seq<Stmt>, i: int)
    requires
        all_straight(s),
        0 <= i < s.len(),
    ensures
        straight(s[i]),
    decreases s.len(),
{
    if i < s.len() - 1 {
        lemma_all_straight_at(s.drop_last(), i);
    }
}

/// The most steps a [`straight`] statement takes.
pub open spec fn stmt_steps(s: Stmt) -> nat
    decreases s,
{
    match s {
        Stmt::Emit(e) => 1 + stated_steps(e),
        Stmt::Let { expr, .. } => 1 + stated_steps(expr),
        Stmt::Assign { expr, .. } => 1 + stated_steps(expr),
        Stmt::If { cond, body, else_body } => {
            let then_steps = straight_steps(body@);
            let else_steps = match else_body {
                Some(e) => straight_steps(e@),
                None => 0,
            };
            1 + stated_steps(cond) + if then_steps >= else_steps {
                then_steps
            } else {
                else_steps
            }
        },
        Stmt::For { iter, body, .. } => match iter {
            Expr::Array(items) => 2 + items@.len() + items@.len() * straight_steps(body@),
            _ => 1,
        },
        _ => 1,
    }
}

/// The most steps [`straight`] statements take.
pub open spec fn straight_steps(s: Seq<Stmt>) -> nat
    decreases s,
{
    if s.len() == 0 {
        0
    } else {
        straight_steps(s.drop_last()) + stmt_steps(s.last())
    }
}

proof fn lemma_steps_prefix(s: Seq<Stmt>, i: int)
    requires
        0 <= i <= s.len(),
    ensures
        straight_steps(s.subrange(0, i)) <= straight_steps(s),
    decreases s.len() - i,
{
    if i < s.len() {
        lemma_steps_prefix(s, i + 1);
        assert(s.subrange(0, i + 1).drop_last() =~= s.subrange(0, i));
    } else {
        assert(s.subrange(0, i) =~= s);
    }
}

/// What a [`straight`] statement does before any `extract_json` has
/// matched; `None` when a size limit stops the run.
/// - A guard whose text occurs in the page drops the pending output and
///   stops the run; otherwise it does nothing.
/// - `emit` (unless stopped) adds the text of its value to the pending
///   output.
/// - `let` and `set` (unless stopped) set the variable to the value.
/// - `if` (unless stopped) runs the branch its condition picks.
/// - `for` (unless stopped) runs its body once per item, in order, with
///   the variable set to the item, until a guard stops the run.
/// - `insert_at_match` puts the pending lines, joined by newlines, at the
///   start of the page and empties the pending output.
pub open spec fn straight_step(st: PageState, s: Stmt) -> Option<PageState>
    decreases s, 0nat,
{
    match s {
        Stmt::Guard(t) => if exists|i: int| occurs_at(st.0, t@, i) {
            Some((st.0, Seq::empty(), true, st.3))
        } else {
            Some(st)
        },
        Stmt::Emit(e) => if st.2 {
            Some(st)
        } else {
            match stated_result(e, st.3) {
                Some(w) => if byte_len(text_of(w)) <= PREPROCESS_MAX_STRING_BYTES {
                    Some((st.0, st.1.push(text_of(w)), st.2, st.3))
                } else {
                    None
                },
                None => None,
            }
        },
        Stmt::Let { var, expr } => if st.2 {
            Some(st)
        } else {
            match stated_result(expr, st.3) {
                Some(w) => if fits(w) {
                    Some((st.0, st.1, st.2, st.3.insert(var@, w)))
                } else {
                    None
                },
                None => None,
            }
        },
        Stmt::For { var, iter, body } => if st.2 {
            Some(st)
        } else {
            match expr_result(iter, st.3) {
                Some(JsonView::Array(items)) => for_run(items, var@, body@, st),
                Some(_) => Some(st),
                None => None,
            }
        },
        Stmt::Assign { target: LValue::Var(name), expr } => if st.2 {
            Some(st)
        } else {
            match stated_result(expr, st.3) {
                Some(w) => if fits(w) {
                    Some((st.0, st.1, st.2, st.3.insert(name@, w)))
                } else {
                    None
                },
                None => None,
            }
        },
        Stmt::If { cond, body, else_body } => if st.2 {
            Some(st)
        } else {
            match stated_result(cond, st.3) {
                Some(w) => if truthy(w) {
                    straight_run(body@, st)
                } else {
                    match else_body {
                        Some(e) => straight_run(e@, st),
                        None => Some(st),
                    }
                },
                None => None,
            }
        },
        Stmt::InsertAtMatch => if st.1.len() == 0 {
            Some(st)
        } else {
            let block = join_seq(st.1, "\n"@);
            if byte_len(block) <= PREPROCESS_MAX_STRING_BYTES && byte_len(block + st.0)
                <= PREPROCESS_MAX_STRING_BYTES {
                Some((block + st.0, Seq::empty(), st.2, st.3))
            } else {
                None
            }
        },
        _ => None,
    }
}

/// [`straight_step`] over `stmts` in order.
pub open spec fn straight_run(stmts: Seq<Stmt>, st: PageState) -> Option<PageState>
    decreases stmts, 0nat,
{
    if stmts.len() == 0 {
        Some(st)
    } else {
        match straight_run(stmts.drop_last(), st) {
            Some(mid) => straight_step(mid, stmts.last()),
            None => None,
        }
    }
}

/// The body of a `for` run once per item of `items`, in order, with `var`
/// set to the item, until a guard stops the run.
pub open spec fn for_run(items: Seq<JsonView>, var: Seq<char>, body: Seq<Stmt>, st: PageState) -> Option<
    PageState,
>
    decreases body, items.len(),
{
    if items.len() == 0 {
        Some(st)
    } else {
        match for_run(items.drop_last(), var, body, st) {
            Some(mid) => if mid.2 {
                Some(mid)
            } else {
                straight_run(body, (mid.0, mid.1, mid.2, mid.3.insert(var, items.last())))
            },
            None => None,
        }
    }
}

/// A run that ended with a guard hit.
spec fn ended_stopped(o: Option<PageState>) -> bool {
    match o {
        Some(st) => st.2,
        None => false,
    }
}

proof fn lemma_for_run_rest(items: Seq<JsonView>, var: Seq<char>, body: Seq<Stmt>, st: PageState, i: int)
    requires
        0 <= i <= items.len(),
    ensures
        for_run(items.take(i), var, body, st) is None ==> for_run(items, var, body, st) is None,
        ended_stopped(for_run(items.take(i), var, body, st)) ==> for_run(items, var, body, st)
            == for_run(items.take(i), var, body, st),
    decreases items.len() - i,
{
    if i < items.len() {
        lemma_for_run_rest(items, var, body, st, i + 1);
        assert(items.take(i + 1).drop_last() =~= items.take(i));
    } else {
        assert(items.take(i) =~= items);
    }
}

proof fn lemma_run_stays_none(stmts: Seq<Stmt>, st: PageState, i: int)
    requires
        0 <= i <= stmts.len(),
        straight_run(stmts.subrange(0, i), st) is None,
    ensures
        straight_run(stmts, st) is None,
    decreases stmts.len() - i,
{
    if i < stmts.len() {
        assert(stmts.subrange(0, i + 1).drop_last() =~= stmts.subrange(0, i));
        lemma_run_stays_none(stmts, st, i + 1);
    } else {
        assert(stmts.subrange(0, i) =~= stmts);
    }
}

/// Where a run starts: the page, nothing pending, no guard hit and no own
/// variable set.
pub open spec fn start_state(page: Seq<char>) -> PageState {
    (page, Seq::empty(), false, Map::empty())
}

/// The page of a finished [`straight_run`].
pub open spec fn final_page(run: Option<PageState>) -> Seq<char> {
    match run {
        Some(st) => st.0,
        None => Seq::empty(),
    }
}

/// Whether a guard has stopped the run.
spec fn stopped(c: Ctx) -> bool {
    c.vars@.contains_key("__abort__"@) && c.vars@["__abort__"@] == JsonValue::Bool(true)
}

/// The pending output of a run.
spec fn pending(c: Ctx) -> Seq<Seq<char>> {
    c.output@.map_values(|o: String| o@)
}

/// The part of a run's state that [`straight_step`] follows.
spec fn page_state(c: Ctx, source: Seq<char>) -> PageState {
    (source, pending(c), stopped(c), own_vars(c.vars@))
}

/// Runs one statement.
fn eval_stmt<H: PreprocessHost>(
    ctx: &mut Ctx,
    jobs: &PreprocessJobs,
    host: &H,
    stmt: &Stmt,
    source: &mut String,
) -> (r: Result<(), String>)
    requires
        ctx_ok(*old(ctx), jobs@),
    ensures
        ctx_ok(*final(ctx), jobs@),
        ctx_step(*old(ctx), *final(ctx)),
        r is Ok ==> final(ctx).step_budget < old(ctx).step_budget,
        old(ctx).step_budget == 0 ==> (r matches Err(e) && e@ == budget_exceeded()),
        !stmt_writes(*stmt) ==> final(source)@ == old(source)@,
        stopped(*old(ctx)) && old(ctx).step_budget > 0 && !(*stmt is Guard) && !(*stmt is InsertAtMatch)
            ==> r is Ok && same_but_budget(*old(ctx), *final(ctx)),
        small_literal_emit(*stmt) && !stopped(*old(ctx)) ==> {
            &&& (old(ctx).step_budget >= 2 ==> r is Ok && final(ctx).step_budget
                == old(ctx).step_budget - 2 && !stopped(*final(ctx)))
            &&& (old(ctx).step_budget < 2 ==> (r matches Err(e) && e@ == budget_exceeded()))
        },
        straight(*stmt) && old(ctx).match_start is None && old(ctx).step_budget >= stmt_steps(*stmt)
            ==> {
            &&& (r is Ok <==> straight_step(page_state(*old(ctx), old(source)@), *stmt) is Some)
            &&& (r is Ok ==> straight_step(page_state(*old(ctx), old(source)@), *stmt) == Some(
                page_state(*final(ctx), final(source)@),
            ))
            &&& (r is Ok ==> final(ctx).match_start is None && final(ctx).step_budget + stmt_steps(
                *stmt,
            ) >= old(ctx).step_budget)
        },
    decreases old(ctx).step_budget, 1nat,
{
    take_step(ctx)?;
    match stmt {
        Stmt::Guard(guard_text) => {
            if contains(source.as_str(), guard_text.as_str()) {
                let ghost held = ctx.vars@;
                ctx.output = Vec::new();
                set_var(ctx, "__abort__", JsonValue::Bool(true))?;
                assert(pending(*ctx) =~= Seq::<Seq<char>>::empty());
                assert(own_vars(ctx.vars@) =~= own_vars(held));
            }
        },
        Stmt::Let { var, expr } => {
            if aborted(ctx) {
                return Ok(());
            }
            let val = match expr {
                Expr::ExtractJson(pattern, flags) => {
                    match eval_extract_json(
                        ctx,
                        jobs,
                        host,
                        pattern.as_str(),
                        flags.as_str(),
                        source.as_str(),
                    )? {
                        Some(v) => v,
                        None => JsonValue::Null,
                    }
                },
                _ => {
                    proof {
                        lemma_own_vars(ctx.vars@);
                    }
                    eval_expr(ctx, jobs, host, expr)?
                },
            };
            let ghost held = ctx.vars@;
            set_var(ctx, var.as_str(), val)?;
            proof {
                if own_var(var@) {
                    assert(own_vars(ctx.vars@) =~= own_vars(held).insert(var@, val@));
                }
            }
        },
        Stmt::Assign { target, expr } => {
            if aborted(ctx) {
                return Ok(());
            }
            proof {
                lemma_own_vars(ctx.vars@);
            }
            let val = eval_expr(ctx, jobs, host, expr)?;
            match target {
                LValue::Var(name) => {
                    let ghost held = ctx.vars@;
                    set_var(ctx, name.as_str(), val)?;
                    proof {
                        if own_var(name@) {
                            assert(own_vars(ctx.vars@) =~= own_vars(held).insert(name@, val@));
                        }
                    }
                },
                LValue::Hash { base, keys } => {
                    let mut obj = match var_value(ctx, base.as_str()) {
                        Some(v) => duplicate(v),
                        None => JsonValue::Null,
                    };
                    if keys.len() > 0 {
                        let key = resolve_str_parts(ctx, jobs, host, &keys[0])?;
                        obj = match obj {
                            JsonValue::Object(entries) => JsonValue::Object(object_with(entries, key, val)),
                            JsonValue::Null => {
                                let mut entries: Vec<(String, JsonValue)> = Vec::new();
                                entries.push((key, val));
                                JsonValue::Object(entries)
                            },
                            other => other,
                        };
                    }
                    set_var(ctx, base.as_str(), obj)?;
                },
            }
        },
        Stmt::Emit(expr) => {
            if aborted(ctx) {
                return Ok(());
            }
            proof {
                lemma_own_vars(ctx.vars@);
            }
            let val = eval_expr(ctx, jobs, host, expr)?;
            let text = value_text(&val);
            check_string_size(text.as_str())?;
            let ghost before = pending(*ctx);
            ctx.output.push(text);
            assert(pending(*ctx) =~= before.push(text@));
        },
        Stmt::InsertAtMatch => {
            if ctx.output.len() == 0 {
                assert(pending(*ctx) =~= Seq::<Seq<char>>::empty());
                return Ok(());
            }
            assert(ctx.output@.map_values(|p: String| p@) =~= pending(*ctx));
            let block = join(&ctx.output, "\n");
            check_string_size(block.as_str())?;
            let pos = match ctx.match_start {
                Some(p) => p,
                None => 0,
            };
            let inserted = insert_at(source.as_str(), pos, block.as_str())?;
            assert(pos == 0 ==> inserted@ =~= block@ + source@);
            *source = inserted;
            check_string_size(source.as_str())?;
            ctx.output = Vec::new();
            assert(pending(*ctx) =~= Seq::<Seq<char>>::empty());
        },
        Stmt::If { cond, body, else_body } => {
            if aborted(ctx) {
                return Ok(());
            }
            proof {
                lemma_own_vars(ctx.vars@);
            }
            let val = eval_expr(ctx, jobs, host, cond)?;
            if is_truthy(&val) {
                eval_stmts(ctx, jobs, host, body, source)?;
            } else if let Some(else_body) = else_body {
                eval_stmts(ctx, jobs, host, else_body, source)?;
            }
        },
        Stmt::For { var, iter, body } => {
            if aborted(ctx) {
                return Ok(());
            }
            eval_for(ctx, jobs, host, var, iter, body, source)?;
        },
    }
    Ok(())
}

/// The steps the body of a `for` over `iter` takes, at most.
pub open spec fn for_steps(iter: Expr, body: Seq<Stmt>) -> nat {
    match iter {
        Expr::Array(items) => items@.len() * straight_steps(body),
        _ => 0,
    }
}

/// What a `for` over `iter` does to a run in state `st` (see [`for_run`]).
pub open spec fn for_outcome(var: Seq<char>, iter: Expr, body: Seq<Stmt>, st: PageState) -> Option<PageState> {
    match expr_result(iter, st.3) {
        Some(JsonView::Array(items)) => for_run(items, var, body, st),
        Some(_) => Some(st),
        None => None,
    }
}

/// Runs a `for` statement: `body` once per item of the array `iter`
/// evaluates to, with `var` set to the item, until a guard stops the run.
fn eval_for<H: PreprocessHost>(
    ctx: &mut Ctx,
    jobs: &PreprocessJobs,
    host: &H,
    var: &String,
    iter: &Expr,
    body: &Vec<Stmt>,
    source: &mut String,
) -> (r: Result<(), String>)
    requires
        ctx_ok(*old(ctx), jobs@),
        !stopped(*old(ctx)),
    ensures
        ctx_ok(*final(ctx), jobs@),
        ctx_step(*old(ctx), *final(ctx)),
        !stmts_write(body@) ==> final(source)@ == old(source)@,
        own_var(var@) && iter is Array && pure_expr(*iter) && all_straight(body@)
            && old(ctx).match_start is None && old(ctx).step_budget >= expr_steps(*iter) + for_steps(
            *iter,
            body@,
        ) ==> {
            &&& (r is Ok <==> for_outcome(var@, *iter, body@, page_state(*old(ctx), old(source)@)) is Some)
            &&& (r is Ok ==> for_outcome(var@, *iter, body@, page_state(*old(ctx), old(source)@))
                == Some(page_state(*final(ctx), final(source)@)))
            &&& (r is Ok ==> final(ctx).match_start is None && final(ctx).step_budget + expr_steps(
                *iter,
            ) + for_steps(*iter, body@) >= old(ctx).step_budget)
        },
    decreases old(ctx).step_budget, 3nat,
{
    let ghost sc = own_var(var@) && iter is Array && pure_expr(*iter) && all_straight(body@)
        && old(ctx).match_start is None && old(ctx).step_budget >= expr_steps(*iter) + for_steps(
        *iter,
        body@,
    );
    let ghost st0 = page_state(*old(ctx), old(source)@);
    let ghost sbody = straight_steps(body@);
    proof {
        lemma_own_vars(ctx.vars@);
    }
    let iter_val = eval_expr(ctx, jobs, host, iter)?;
    let ghost ws = match iter_val@ {
        JsonView::Array(w) => w,
        _ => Seq::empty(),
    };
    let ghost b2 = ctx.step_budget;
    let items = match iter_val {
        JsonValue::Array(items) => items,
        _ => {
            return Ok(());
        },
    };
    proof {
        if sc {
            assert(JsonValue::Array(items)@ == JsonView::Array(ws));
            assert forall|k: int| 0 <= k < items@.len() implies (#[trigger] items@[k])@ == ws[k] by {
                assert(JsonValue::Array(items)@->Array_0[k] == items@[k]@);
            }
            assert(ws.len() == items@.len());
            assert(ws.take(0) =~= Seq::<JsonView>::empty());
            assert(ws == literal_items(iter->Array_0@));
            assert(expr_steps(*iter) + for_steps(*iter, body@) == 1 + ws.len() + ws.len() * sbody);
            assert(b2 >= ws.len() * sbody);
            assert(0 * sbody == 0) by (nonlinear_arith);
        }
    }
    check_array_len(items.len())?;
    let ghost c1 = *ctx;
    let mut i: usize = 0;
    while i < items.len()
        invariant
            i <= items@.len(),
            ctx_ok(*ctx, jobs@),
            ctx_step(c1, *ctx),
            c1.step_budget < old(ctx).step_budget,
            ctx_step(*old(ctx), c1),
            !stopped(*old(ctx)),
            !stmts_write(body@) ==> source@ == old(source)@,
            sc == (own_var(var@) && iter is Array && pure_expr(*iter) && all_straight(body@)
                && old(ctx).match_start is None && old(ctx).step_budget >= expr_steps(*iter)
                + for_steps(*iter, body@)),
            st0 == page_state(*old(ctx), old(source)@),
            sbody == straight_steps(body@),
            sc ==> {
                &&& all_straight(body@)
                &&& own_var(var@)
                &&& ws.len() == items@.len()
                &&& forall|k: int| 0 <= k < items@.len() ==> (#[trigger] items@[k])@ == ws[k]
                &&& forall|k: int| 0 <= k < ws.len() ==> fits(#[trigger] ws[k])
                &&& expr_result(*iter, st0.3) == Some(JsonView::Array(ws))
                &&& old(ctx).step_budget == b2 + 1 + ws.len()
                &&& expr_steps(*iter) + for_steps(*iter, body@) == 1 + ws.len() + ws.len() * sbody
                &&& b2 >= ws.len() * sbody
                &&& ctx.step_budget + i * sbody >= b2
                &&& ctx.match_start is None
                &&& !stopped(*ctx)
                &&& for_run(ws.take(i as int), var@, body@, st0) == Some(page_state(*ctx, source@))
            },
        decreases items@.len() - i,
    {
        let ghost st_mid = page_state(*ctx, source@);
        let ghost held = ctx.vars@;
        proof {
            if sc {
                assert(fits(ws[i as int]));
                assert((i + 1) * sbody == i * sbody + sbody) by (nonlinear_arith);
                assert(ws.len() * sbody >= (i + 1) * sbody) by (nonlinear_arith)
                    requires ws.len() >= i + 1;
            }
        }
        set_var(ctx, var.as_str(), duplicate(&items[i]))?;
        proof {
            if sc {
                assert(own_vars(ctx.vars@) =~= own_vars(held).insert(var@, ws[i as int]));
                assert(ws.take(i + 1).drop_last() =~= ws.take(i as int));
                assert(ws.take(i + 1).last() == ws[i as int]);
            }
        }
        let ghost pre_budget = ctx.step_budget;
        match eval_stmts(ctx, jobs, host, body, source) {
            Ok(()) => {},
            Err(e) => {
                proof {
                    if sc {
                        lemma_for_run_rest(ws, var@, body@, st0, i + 1);
                    }
                }
                return Err(e);
            },
        }
        if aborted(ctx) {
            proof {
                if sc {
                    lemma_for_run_rest(ws, var@, body@, st0, i + 1);
                    assert(pre_budget >= sbody);
                    assert(ctx.step_budget + sbody >= pre_budget);
                    assert(pre_budget + i * sbody >= b2);
                    assert(ctx.step_budget + ws.len() * sbody >= b2);
                }
            }
            return Ok(());
        }
        i = i + 1;
    }
    proof {
        if sc {
            assert(ws.take(ws.len() as int) =~= ws);
        }
    }
    Ok(())
}

/// Runs statements in order.
fn eval_stmts<H: PreprocessHost>(
    ctx: &mut Ctx,
    jobs: &PreprocessJobs,
    host: &H,
    stmts: &Vec<Stmt>,
    source: &mut String,
) -> (r: Result<(), String>)
    requires
        ctx_ok(*old(ctx), jobs@),
    ensures
        ctx_ok(*final(ctx), jobs@),
        ctx_step(*old(ctx), *final(ctx)),
        !stmts_write(stmts@) ==> final(source)@ == old(source)@,
        r is Ok ==> final(ctx).step_budget + stmts@.len() <= old(ctx).step_budget,
        all_small_literal_emits(stmts@) && !stopped(*old(ctx)) ==> {
            &&& (old(ctx).step_budget >= 2 * stmts@.len() ==> r is Ok)
            &&& (old(ctx).step_budget < 2 * stmts@.len() ==> (r matches Err(e) && e@
                == budget_exceeded()))
        },
        all_straight(stmts@) && old(ctx).match_start is None && old(ctx).step_budget
            >= straight_steps(stmts@) ==> {
            &&& (r is Ok <==> straight_run(stmts@, page_state(*old(ctx), old(source)@)) is Some)
            &&& (r is Ok ==> straight_run(stmts@, page_state(*old(ctx), old(source)@)) == Some(
                page_state(*final(ctx), final(source)@),
            ))
            &&& (r is Ok ==> final(ctx).match_start is None && final(ctx).step_budget
                + straight_steps(stmts@) >= old(ctx).step_budget)
        },
    decreases old(ctx).step_budget, 2nat,
{
    let ghost c0 = *ctx;
    let ghost s0 = source@;
    let ghost st0 = page_state(c0, s0);
    let ghost straight_case = all_straight(stmts@) && c0.match_start is None && c0.step_budget
        >= straight_steps(stmts@);
    let mut i: usize = 0;
    while i < stmts.len()
        invariant
            i <= stmts@.len(),
            ctx_ok(*ctx, jobs@),
            ctx_step(c0, *ctx),
            c0 == *old(ctx),
            s0 == old(source)@,
            st0 == page_state(c0, s0),
            ctx.step_budget + i <= c0.step_budget,
            !stmts_write(stmts@) ==> source@ == s0,
            straight_case == (all_straight(stmts@) && c0.match_start is None && c0.step_budget
                >= straight_steps(stmts@)),
            all_small_literal_emits(stmts@) && !stopped(c0) ==> !stopped(*ctx) && ctx.step_budget
                + 2 * i == c0.step_budget,
            straight_case ==> {
                &&& ctx.match_start is None
                &&& ctx.step_budget + straight_steps(stmts@.subrange(0, i as int)) >= c0.step_budget
                &&& straight_run(stmts@.subrange(0, i as int), st0) == Some(
                    page_state(*ctx, source@),
                )
            },
        decreases stmts@.len() - i,
    {
        proof {
            if !stmts_write(stmts@) {
                lemma_no_write(stmts@, i as int);
            }
            assert(stmts@.subrange(0, i + 1).drop_last() =~= stmts@.subrange(0, i as int));
            assert(stmts@.subrange(0, i + 1).last() == stmts@[i as int]);
            lemma_steps_prefix(stmts@, i + 1);
            if straight_case {
                lemma_all_straight_at(stmts@, i as int);
            }
            if all_small_literal_emits(stmts@) {
                assert(small_literal_emit(stmts@[i as int]));
            }
        }
        let ghost st_before = page_state(*ctx, source@);
        match eval_stmt(ctx, jobs, host, &stmts[i], source) {
            Ok(()) => {},
            Err(e) => {
                proof {
                    if straight_case {
                        lemma_all_straight_at(stmts@, i as int);
                        assert(straight_run(stmts@.subrange(0, i + 1), st0) is None);
                        lemma_run_stays_none(stmts@, st0, i + 1);
                    }
                }
                return Err(e);
            },
        }
        i = i + 1;
    }
    assert(stmts@.subrange(0, stmts@.len() as int) =~= stmts@);
    Ok(())
}

/// What one run produced besides the rewritten page.
pub struct PreprocessRun {
    /// The URLs the definition asked for, in the order it asked.
    pub requested: Vec<String>,
}

/// Runs `stmts` over `source` (rewriting it in place), seeing the results
/// of `jobs` as `fetched`. Fails when the run exceeds its step budget or a
/// size limit, or a pattern does not build. The URLs it asked for are at
/// most [`MAX_PREPROCESS_JOBS`], each once, each `http` or `https`, none
/// with a result in `jobs`; the caller fetches them and runs again.
///
/// Every statement and every expression takes a step, so a definition of
/// more statements than the budget fails; a definition of literal `emit`s
/// takes two steps for each, and fails with [`budget_exceeded`] exactly
/// when they are more than the budget allows. Only `insert_at_match` writes the page: a definition
/// without one leaves it as it was. A definition of [`straight`]
/// statements (guards, `insert_at_match`, `emit`, `let` and `set` of values
/// read from literals and its own variables, `if` on such values, and `for`
/// over arrays of literals) that fits
/// in the budget does exactly what [`straight_run`] says, from
/// [`start_state`].
pub fn run_stmts<H: PreprocessHost>(stmts: &Vec<Stmt>, source: &mut String, jobs: &PreprocessJobs, host: &H) -> (r:
    Result<PreprocessRun, String>)
    ensures
        r matches Ok(run) ==> requests_ok(run.requested@, jobs@),
        stmts@.len() > PREPROCESS_STEP_BUDGET ==> r is Err,
        all_small_literal_emits(stmts@) ==> {
            &&& (2 * stmts@.len() <= PREPROCESS_STEP_BUDGET ==> r is Ok)
            &&& (2 * stmts@.len() > PREPROCESS_STEP_BUDGET ==> (r matches Err(e) && e@
                == budget_exceeded()))
        },
        !stmts_write(stmts@) ==> final(source)@ == old(source)@,
        all_straight(stmts@) && straight_steps(stmts@) <= PREPROCESS_STEP_BUDGET ==> {
            &&& (r is Ok <==> straight_run(stmts@, start_state(old(source)@)) is Some)
            &&& (r is Ok ==> final_page(straight_run(stmts@, start_state(old(source)@)))
                == final(source)@)
        },
{
    let entries = jobs.results().entries();
    let mut fetched: Vec<(String, JsonValue)> = Vec::new();
    let mut i: usize = 0;
    while i < entries.len()
        invariant
            i <= entries@.len(),
        decreases entries@.len() - i,
    {
        fetched.push((entries[i].0.clone(), duplicate(&entries[i].1)));
        i = i + 1;
    }
    let mut vars = KeyedList::new();
    vars.insert("fetched".to_owned(), JsonValue::Object(fetched));
    let mut ctx = Ctx {
        vars,
        output: Vec::new(),
        match_start: None,
        step_budget: PREPROCESS_STEP_BUDGET,
        requested: Vec::new(),
    };
    proof {
        reveal_strlit("fetched");
        reveal_strlit("__abort__");
        assert("fetched"@.len() != "__abort__"@.len());
        assert(!stopped(ctx));
        assert(pending(ctx) =~= Seq::<Seq<char>>::empty());
        assert(own_vars(ctx.vars@) =~= Map::<Seq<char>, JsonView>::empty());
    }
    eval_stmts(&mut ctx, jobs, host, stmts, source)?;
    Ok(PreprocessRun { requested: ctx.requested })
}

} // verus!
