use narou_rs::downloader::preprocess::ast::{
    AccessPart, Accessor, ArithOp, BracketKey, Expr, LValue, Method, Stmt, StrPart,
};
use narou_rs::downloader::preprocess::interpreter::{
    run_stmts, PreprocessHost, PreprocessRun, PREPROCESS_STEP_BUDGET,
};
use narou_rs::downloader::preprocess::jobs::{PreprocessJobs, MAX_PREPROCESS_JOBS};
use narou_rs::downloader::preprocess::value::{
    JsonValue, PREPROCESS_MAX_ARRAY_ITEMS, PREPROCESS_MAX_STRING_BYTES,
};
use narou_rs::downloader::preprocess::{run_preprocess, PreprocessPipeline};

/// A host that decodes JSON with serde_json and treats loopback and
/// private-looking hosts as not public.
struct TestHost;

fn to_json_value(v: &serde_json::Value) -> JsonValue {
    match v {
        serde_json::Value::Null => JsonValue::Null,
        serde_json::Value::Bool(b) => JsonValue::Bool(*b),
        serde_json::Value::Number(n) => {
            if let Some(i) = n.as_i64() {
                JsonValue::Int(i)
            } else if let Some(u) = n.as_u64() {
                JsonValue::UInt(u)
            } else {
                JsonValue::Float(n.to_string(), n.as_f64().unwrap_or(0.0) != 0.0)
            }
        }
        serde_json::Value::String(s) => JsonValue::String(s.clone()),
        serde_json::Value::Array(a) => JsonValue::Array(a.iter().map(to_json_value).collect()),
        serde_json::Value::Object(m) => {
            JsonValue::Object(m.iter().map(|(k, v)| (k.clone(), to_json_value(v))).collect())
        }
    }
}

impl PreprocessHost for TestHost {
    fn is_public_url(&self, url: &str) -> bool {
        !(url.contains("://127.") || url.contains("://localhost") || url.contains("://10."))
    }

    fn decode_json(&self, text: &str) -> Option<JsonValue> {
        serde_json::from_str::<serde_json::Value>(text).ok().map(|v| to_json_value(&v))
    }
}

fn run(stmts: &Vec<Stmt>, source: &mut String) -> Result<(), String> {
    run_stmts(stmts, source, &PreprocessJobs::new(), &TestHost).map(|_| ())
}

fn run_on(stmts: &Vec<Stmt>, source: &str) -> String {
    let mut text = source.to_string();
    run(stmts, &mut text).unwrap();
    text
}

fn lit(s: &str) -> StrPart {
    StrPart::Lit(s.to_string())
}

fn text(s: &str) -> Expr {
    Expr::String(vec![lit(s)])
}

fn var(name: &str) -> Accessor {
    Accessor { base: name.to_string(), path: vec![] }
}

fn path(name: &str, fields: &[&str]) -> Accessor {
    Accessor {
        base: name.to_string(),
        path: fields.iter().map(|f| AccessPart::Dot(f.to_string())).collect(),
    }
}

fn chain(acc: Accessor, methods: Vec<Method>) -> Expr {
    Expr::Chain { base: acc, methods }
}

fn let_(name: &str, expr: Expr) -> Stmt {
    Stmt::Let { var: name.to_string(), expr }
}

fn extract(pattern: &str, flags: &str) -> Expr {
    Expr::ExtractJson(pattern.to_string(), flags.to_string())
}

fn emit_parts(parts: Vec<StrPart>) -> Stmt {
    Stmt::Emit(Expr::String(parts))
}

fn ints(values: &[i64]) -> Expr {
    Expr::Array(values.iter().map(|v| Expr::Int(*v)).collect())
}

#[test]
fn list_helpers_size_first_last_and_index() {
    let a = || var("a");
    let index = |i: i64| Accessor { base: "a".to_string(), path: vec![AccessPart::Bracket(BracketKey::Index(i))] };
    let stmts = vec![
        let_("a", ints(&[10, 20, 30])),
        emit_parts(vec![lit("size="), StrPart::Interp(chain(a(), vec![Method::Size]))]),
        emit_parts(vec![lit("first="), StrPart::Interp(chain(a(), vec![Method::First]))]),
        emit_parts(vec![lit("last="), StrPart::Interp(chain(a(), vec![Method::Last]))]),
        emit_parts(vec![lit("index0="), StrPart::Interp(Expr::Access(index(0)))]),
        emit_parts(vec![lit("index2="), StrPart::Interp(Expr::Access(index(2)))]),
        emit_parts(vec![lit("oob="), StrPart::Interp(Expr::Access(index(9)))]),
        Stmt::InsertAtMatch,
    ];
    assert_eq!(run_on(&stmts, ""), "size=3\nfirst=10\nlast=30\nindex0=10\nindex2=30\noob=");
}

#[test]
fn comparisons_keep_their_operator() {
    let size = || Box::new(chain(var("a"), vec![Method::Size]));
    let stmts = vec![
        let_("a", ints(&[1, 2, 3])),
        Stmt::If {
            cond: Expr::Eq(size(), Box::new(Expr::Int(30))),
            body: vec![Stmt::Emit(text("BIG"))],
            else_body: Some(vec![Stmt::Emit(text("SMALL"))]),
        },
        Stmt::If {
            cond: Expr::Eq(size(), Box::new(Expr::Int(3))),
            body: vec![Stmt::Emit(text("THREE"))],
            else_body: None,
        },
        Stmt::If {
            cond: Expr::Ne(size(), Box::new(Expr::Int(3))),
            body: vec![Stmt::Emit(text("NOT-THREE"))],
            else_body: None,
        },
        Stmt::InsertAtMatch,
    ];
    assert_eq!(run_on(&stmts, ""), "SMALL\nTHREE");
}

#[test]
fn chain_steps_keep_their_written_order() {
    let stmts = vec![
        let_("json", extract("(.+)", "s")),
        let_("items", Expr::Access(path("json", &["items"]))),
        emit_parts(vec![
            lit("first="),
            StrPart::Interp(chain(var("items"), vec![Method::First, Method::Field("name".to_string())])),
        ]),
        emit_parts(vec![
            lit("last="),
            StrPart::Interp(chain(var("items"), vec![Method::Last, Method::Field("name".to_string())])),
        ]),
        Stmt::InsertAtMatch,
    ];
    let out = run_on(&stmts, r#"{"items":[{"name":"one"},{"name":"two"}]}"#);
    assert!(out.starts_with("first=one\nlast=two"), "got: {out}");
}

#[test]
fn bare_method_names_do_not_swallow_longer_field_names() {
    let stmts = vec![
        let_("json", extract("(.+)", "s")),
        emit_parts(vec![
            lit("at::"),
            StrPart::Interp(Expr::Access(path("json", &["lastEpisodePublishedAt"]))),
        ]),
        Stmt::InsertAtMatch,
    ];
    let out = run_on(&stmts, r#"{"lastEpisodePublishedAt":"2021-01-12T16:13:02Z"}"#);
    assert!(out.starts_with("at::2021-01-12T16:13:02Z"), "got: {out}");
}

#[test]
fn regex_gsub_expands_capture_groups() {
    let stmts = vec![
        let_("text", text("a [[rb:漢字>かんじ]] b")),
        let_(
            "text",
            chain(
                var("text"),
                vec![Method::GsubRegex {
                    pattern: r"\[\[rb:(.*?)>(.*?)\]\]".to_string(),
                    flags: String::new(),
                    to: vec![lit("<ruby>$1<rp>(</rp><rt>$2</rt><rp>)</rp></ruby>")],
                }],
            ),
        ),
        let_(
            "text",
            chain(
                var("text"),
                vec![Method::GsubRegex { pattern: "a".to_string(), flags: String::new(), to: vec![lit("A")] }],
            ),
        ),
        Stmt::Emit(Expr::Access(var("text"))),
        Stmt::InsertAtMatch,
    ];
    assert_eq!(run_on(&stmts, ""), "A <ruby>漢字<rp>(</rp><rt>かんじ</rt><rp>)</rp></ruby> b");
}

fn group(i: i64) -> Expr {
    Expr::Access(Accessor { base: "m".to_string(), path: vec![AccessPart::Bracket(BracketKey::Index(i))] })
}

#[test]
fn gsub_block_receives_the_match_and_replaces_each_occurrence() {
    let stmts = vec![
        let_("text", text("a [pixivimage:11-2] b [pixivimage:22-1]")),
        let_(
            "text",
            chain(
                var("text"),
                vec![Method::GsubBlock {
                    pattern: r"\[pixivimage:(\d+)-(\d+)\]".to_string(),
                    flags: String::new(),
                    var: "m".to_string(),
                    body: Box::new(Expr::String(vec![
                        lit("img:"),
                        StrPart::Interp(group(1)),
                        lit(":"),
                        StrPart::Interp(group(2)),
                    ])),
                }],
            ),
        ),
        Stmt::Emit(Expr::Access(var("text"))),
        Stmt::InsertAtMatch,
    ];
    assert_eq!(run_on(&stmts, ""), "a img:11:2 b img:22:1");
}

#[test]
fn arithmetic_coerces_numeric_captures() {
    let minus_one = |e: Expr| Expr::Arith(Box::new(e), ArithOp::Sub, Box::new(Expr::Int(1)));
    let stmts = vec![
        let_("a", Expr::Array(vec![text("zero"), text("one"), text("two")])),
        let_("text", text("x-2")),
        let_(
            "text",
            chain(
                var("text"),
                vec![Method::GsubBlock {
                    pattern: r"x-(\d+)".to_string(),
                    flags: String::new(),
                    var: "m".to_string(),
                    body: Box::new(Expr::Access(Accessor {
                        base: "a".to_string(),
                        path: vec![AccessPart::Bracket(BracketKey::Expr(minus_one(group(1))))],
                    })),
                }],
            ),
        ),
        Stmt::Emit(Expr::Access(var("text"))),
        emit_parts(vec![
            lit("sum="),
            StrPart::Interp(Expr::Arith(Box::new(Expr::Int(1)), ArithOp::Add, Box::new(Expr::Int(2)))),
        ]),
        emit_parts(vec![lit("bad="), StrPart::Interp(minus_one(Expr::Access(var("a"))))]),
        Stmt::InsertAtMatch,
    ];
    assert_eq!(run_on(&stmts, ""), "one\nsum=3\nbad=");
}

fn fetch_program() -> Vec<Stmt> {
    vec![
        let_("pages", Expr::FetchJson(Box::new(text("https://example.com/illust/11")))),
        emit_parts(vec![
            lit("url="),
            StrPart::Interp(Expr::Access(Accessor {
                base: "pages".to_string(),
                path: vec![
                    AccessPart::Dot("body".to_string()),
                    AccessPart::Bracket(BracketKey::Index(0)),
                    AccessPart::Dot("urls".to_string()),
                    AccessPart::Dot("original".to_string()),
                ],
            })),
        ]),
        Stmt::InsertAtMatch,
    ]
}

#[test]
fn fetch_json_registers_a_request_and_reads_settled_results() {
    let stmts = fetch_program();
    let jobs = PreprocessJobs::new();
    let mut source = String::new();
    let run: PreprocessRun = run_stmts(&stmts, &mut source, &jobs, &TestHost).unwrap();
    assert_eq!(run.requested, vec!["https://example.com/illust/11"]);
    assert_eq!(source, "url=");

    let mut settled = PreprocessJobs::new();
    let body = TestHost
        .decode_json(r#"{"body": [{"urls": {"original": "https://i.example/11.jpg"}}]}"#)
        .unwrap();
    settled.insert("https://example.com/illust/11".to_string(), body);
    let mut source = String::new();
    let run = run_stmts(&stmts, &mut source, &settled, &TestHost).unwrap();
    assert!(run.requested.is_empty(), "settled jobs are not re-requested");
    assert_eq!(source, "url=https://i.example/11.jpg");
}

#[test]
fn request_rejects_urls_that_are_not_fetchable() {
    let stmts = vec![
        let_("a", Expr::Request(Box::new(text("file:///etc/passwd")))),
        let_("b", Expr::Request(Box::new(text("http://127.0.0.1/x")))),
        emit_parts(vec![
            lit("a="),
            StrPart::Interp(Expr::Access(var("a"))),
            lit(" b="),
            StrPart::Interp(Expr::Access(var("b"))),
        ]),
        Stmt::InsertAtMatch,
    ];
    let mut source = String::new();
    let run = run_stmts(&stmts, &mut source, &PreprocessJobs::new(), &TestHost).unwrap();
    assert!(run.requested.is_empty(), "{:?}", run.requested);
}

#[test]
fn interpolated_strings_allow_escaped_quotes() {
    let stmts = vec![
        let_("name", text("pixiv")),
        emit_parts(vec![lit("site=\""), StrPart::Interp(Expr::Access(var("name"))), lit("\"")]),
        Stmt::InsertAtMatch,
    ];
    assert_eq!(run_on(&stmts, ""), "site=\"pixiv\"");
}

const SCRIPT_JSON: &str = r#"<script[^>]*type="application/json"[^>]*>(.+?)</script>"#;
const SCRIPT_ANY: &str = r#"<script id="x" type="application/json">.*?</script>"#;

#[test]
fn basic_string_interpolation_and_chain_access() {
    let stmts = vec![
        let_("json", extract(SCRIPT_JSON, "s")),
        let_("title", chain(path("json", &["title"]), vec![])),
        emit_parts(vec![lit("title::"), StrPart::Interp(Expr::Access(var("title")))]),
        Stmt::InsertAtMatch,
    ];
    let out = run_on(&stmts, r#"before<script id="x" type="application/json">{"title":"test"}</script>after"#);
    assert!(out.contains("title::test"));
}

#[test]
fn guard_stops_reprocessing_when_magic_word_present() {
    let stmts = vec![Stmt::Guard("MagicWord".to_string()), Stmt::Emit(text("should_not_appear")), Stmt::InsertAtMatch];
    let out = run_on(&stmts, "MagicWord is here");
    assert!(!out.contains("should_not_appear"));
}

#[test]
fn guard_allows_processing_when_magic_word_absent() {
    let stmts = vec![Stmt::Guard("MagicWord".to_string()), Stmt::Emit(text("processed")), Stmt::InsertAtMatch];
    let out = run_on(&stmts, "clean source");
    assert!(out.contains("processed"));
}

#[test]
fn if_else_branches_evaluate_correctly() {
    let stmts = vec![
        let_("json", extract(SCRIPT_JSON, "s")),
        Stmt::If {
            cond: Expr::And(
                Box::new(chain(path("json", &["tocV2"]), vec![])),
                Box::new(Expr::Not(Box::new(chain(path("json", &["tocV2"]), vec![Method::Empty])))),
            ),
            body: vec![Stmt::Emit(text("used_v2"))],
            else_body: Some(vec![Stmt::Emit(text("used_fallback"))]),
        },
        Stmt::InsertAtMatch,
    ];
    let out = run_on(&stmts, r#"before<script id="x" type="application/json">{"tocV2":[]}</script>after"#);
    assert!(out.contains("used_fallback"));
    assert!(!out.contains("used_v2"));
}

#[test]
fn bracket_access_with_interpolated_key() {
    let stmts = vec![
        let_("json", extract(SCRIPT_ANY, "s")),
        let_("key", Expr::Access(path("json", &["targetKey"]))),
        let_("result", chain(path("json", &["items"]), vec![])),
        let_(
            "result",
            chain(
                Accessor {
                    base: "result".to_string(),
                    path: vec![AccessPart::Bracket(BracketKey::Expr(Expr::Access(var("key"))))],
                },
                vec![],
            ),
        ),
        Stmt::Emit(chain(var("result"), vec![])),
        Stmt::InsertAtMatch,
    ];
    let out = run_on(
        &stmts,
        r#"<script id="x" type="application/json">{"targetKey":"K1","items":{"K1":"found"}}</script>"#,
    );
    assert!(out.contains("found"));
}

#[test]
fn flat_map_flattens_single_level() {
    let stmts = vec![
        let_("arr", extract(SCRIPT_ANY, "s")),
        let_(
            "flat",
            Expr::ValueChain {
                base: Box::new(chain(path("arr", &["items"]), vec![])),
                methods: vec![Method::FlatMap {
                    var: "x".to_string(),
                    body: Box::new(Expr::Array(vec![
                        Expr::Access(path("x", &["a"])),
                        Expr::Access(path("x", &["b"])),
                    ])),
                }],
            },
        ),
        Stmt::For {
            var: "item".to_string(),
            iter: Expr::Access(var("flat")),
            body: vec![Stmt::Emit(chain(var("item"), vec![]))],
        },
        Stmt::InsertAtMatch,
    ];
    let out = run_on(&stmts, r#"<script id="x" type="application/json">{"items":[{"a":1,"b":[2,3]}]}</script>"#);
    assert!(out.contains("1"));
    assert!(out.contains("2"));
    assert!(out.contains("3"));
}

#[test]
fn map_then_join_chain_on_array_value() {
    let stmts = vec![
        let_("tags", extract(SCRIPT_JSON, "s")),
        let_(
            "result",
            Expr::ValueChain {
                base: Box::new(chain(path("tags", &["labels"]), vec![])),
                methods: vec![
                    Method::MapEach {
                        var: "tag".to_string(),
                        body: Box::new(Expr::String(vec![lit("tag::"), StrPart::Interp(Expr::Access(var("tag")))])),
                    },
                    Method::Join(vec![lit("\n")]),
                ],
            },
        ),
        Stmt::Emit(chain(var("result"), vec![])),
        Stmt::InsertAtMatch,
    ];
    let out = run_on(&stmts, r#"before<script id="x" type="application/json">{"labels":["a","b"]}</script>after"#);
    assert!(out.contains("tag::a"));
    assert!(out.contains("tag::b"));
}

#[test]
fn set_mutates_object_field() {
    let stmts = vec![
        let_("json", extract(SCRIPT_ANY, "s")),
        let_("work", chain(path("json", &["work"]), vec![])),
        Stmt::Assign {
            target: LValue::Hash { base: "work".to_string(), keys: vec![vec![lit("title")]] },
            expr: text("new_title"),
        },
        emit_parts(vec![lit("title::"), StrPart::Interp(Expr::Access(path("work", &["title"])))]),
        Stmt::InsertAtMatch,
    ];
    let out = run_on(&stmts, r#"<script id="x" type="application/json">{"work":{"title":"old"}}</script>"#);
    assert!(out.contains("title::new_title"));
}

#[test]
fn or_operator_falls_back_to_default() {
    let stmts = vec![
        let_("json", extract(SCRIPT_ANY, "s")),
        let_("toc", Expr::Or(Box::new(chain(path("json", &["missing"]), vec![])), Box::new(Expr::Array(vec![])))),
        Stmt::Emit(text("fallback_ok")),
        Stmt::InsertAtMatch,
    ];
    let out = run_on(&stmts, r#"<script id="x" type="application/json">{}</script>"#);
    assert!(out.contains("fallback_ok"));
}

#[test]
fn extract_json_not_found_returns_null_gracefully() {
    let stmts = vec![
        let_("json", extract(r#"<script id="x" type="application/json">(.+?)</script>"#, "s")),
        let_("title", chain(path("json", &["title"]), vec![])),
        Stmt::Emit(text("title::")),
        Stmt::InsertAtMatch,
    ];
    let out = run_on(&stmts, "no json here");
    assert!(out.contains("title::"));
}

#[test]
fn and_operator_short_circuits_on_falsy() {
    let stmts = vec![
        let_("json", extract(SCRIPT_ANY, "s")),
        Stmt::If {
            cond: Expr::And(
                Box::new(chain(path("json", &["empty_arr"]), vec![Method::Empty])),
                Box::new(chain(path("json", &["has_toc"]), vec![])),
            ),
            body: vec![Stmt::Emit(text("in_then"))],
            else_body: Some(vec![Stmt::Emit(text("in_else"))]),
        },
        Stmt::InsertAtMatch,
    ];
    let out = run_on(&stmts, r#"<script id="x" type="application/json">{"empty_arr":[],"has_toc":true}</script>"#);
    assert!(out.contains("in_else"));
    assert!(!out.contains("in_then"));
}

#[test]
fn for_loop_iterates_and_emits_each_item() {
    let stmts = vec![
        let_("json", extract(SCRIPT_ANY, "s")),
        Stmt::For {
            var: "item".to_string(),
            iter: chain(path("json", &["items"]), vec![]),
            body: vec![emit_parts(vec![StrPart::Interp(Expr::Access(var("item")))])],
        },
        Stmt::InsertAtMatch,
    ];
    let out = run_on(&stmts, r#"<script id="x" type="application/json">{"items":["a","b","c"]}</script>"#);
    assert!(out.contains("a"));
    assert!(out.contains("b"));
    assert!(out.contains("c"));
}

#[test]
fn preprocess_step_budget_is_enforced() {
    let mut stmts = Vec::new();
    for _ in 0..(PREPROCESS_STEP_BUDGET / 2) + 1 {
        stmts.push(Stmt::Emit(text("x")));
    }
    let mut source = String::new();
    let err = run_stmts(&stmts, &mut source, &PreprocessJobs::new(), &TestHost).err().unwrap();
    assert_eq!(err, "preprocess: step budget exceeded");
}

#[test]
fn preprocess_string_limit_is_enforced() {
    let oversized = "a".repeat((PREPROCESS_MAX_STRING_BYTES / 2) + 1);
    let stmts = vec![Stmt::Emit(Expr::ValueChain {
        base: Box::new(Expr::Array(vec![text(&oversized), text(&oversized)])),
        methods: vec![Method::Join(vec![lit("")])],
    })];
    let mut source = String::new();
    let err = run_stmts(&stmts, &mut source, &PreprocessJobs::new(), &TestHost).err().unwrap();
    assert_eq!(err, format!("preprocess: string size limit exceeded ({PREPROCESS_MAX_STRING_BYTES} bytes)"));
}

#[test]
fn preprocess_array_limit_is_enforced() {
    let mut items = Vec::new();
    for _ in 0..PREPROCESS_MAX_ARRAY_ITEMS + 1 {
        items.push(Expr::Null);
    }
    let stmts = vec![let_("items", Expr::Array(items))];
    let mut source = String::new();
    let err = run_stmts(&stmts, &mut source, &PreprocessJobs::new(), &TestHost).err().unwrap();
    assert_eq!(err, format!("preprocess: array size limit exceeded ({PREPROCESS_MAX_ARRAY_ITEMS} items)"));
}

#[test]
fn settled_jobs_are_visible_and_reset_drops_them() {
    let mut jobs = PreprocessJobs::new();
    assert!(!jobs.contains("https://example.com/a"));
    jobs.insert("https://example.com/a".to_string(), JsonValue::Null);
    assert!(jobs.contains("https://example.com/a"));
    assert!(matches!(jobs.results().get(&"https://example.com/a".to_string()), Some(JsonValue::Null)));
    jobs.reset();
    assert!(jobs.is_empty());
}

#[test]
fn job_count_is_bounded() {
    let mut jobs = PreprocessJobs::new();
    for index in 0..(MAX_PREPROCESS_JOBS + 8) {
        jobs.insert(format!("https://example.com/{index}"), JsonValue::Null);
    }
    assert_eq!(jobs.len(), MAX_PREPROCESS_JOBS);
}

#[test]
fn a_pipeline_runs_its_statements_and_inserts_at_the_match() {
    let pipeline = PreprocessPipeline::new(vec![
        let_("json", extract(r#"<i>(\{.*?\})</i>"#, "")),
        emit_parts(vec![lit("n="), StrPart::Interp(chain(path("json", &["list"]), vec![Method::Size]))]),
        Stmt::InsertAtMatch,
    ]);
    let mut source = r#"head <i>{"list":[1,2]}</i> tail"#.to_string();
    let run = run_preprocess(&pipeline, &mut source, &PreprocessJobs::new(), &TestHost).unwrap();
    assert!(run.requested.is_empty());
    assert_eq!(source, r#"head n=2<i>{"list":[1,2]}</i> tail"#);
}

#[test]
fn requests_are_queued_once_and_a_bad_pattern_fails() {
    let stmts = vec![
        let_("a", Expr::Request(Box::new(text("https://example.com/x")))),
        let_("b", Expr::Request(Box::new(text("https://example.com/x")))),
        let_("c", Expr::Request(Box::new(text("https://example.com/y")))),
    ];
    let mut source = String::new();
    let queued = run_stmts(&stmts, &mut source, &PreprocessJobs::new(), &TestHost).unwrap();
    assert_eq!(queued.requested, vec!["https://example.com/x", "https://example.com/y"]);

    let bad = vec![let_(
        "t",
        Expr::ValueChain {
            base: Box::new(text("abc")),
            methods: vec![Method::GsubRegex { pattern: "(".to_string(), flags: String::new(), to: vec![lit("")] }],
        },
    )];
    let err = run(&bad, &mut String::new()).err().unwrap();
    assert!(err.starts_with("preprocess: invalid regex: "), "{err}");
}

#[test]
fn methods_flatten_compact_reverse_and_replace() {
    let stmts = vec![
        let_("a", Expr::Array(vec![ints(&[1, 2]), Expr::Null, Expr::Int(3)])),
        emit_parts(vec![StrPart::Interp(chain(var("a"), vec![Method::Flatten, Method::Join(vec![lit(",")])]))]),
        emit_parts(vec![StrPart::Interp(chain(var("a"), vec![Method::Compact, Method::Size]))]),
        emit_parts(vec![StrPart::Interp(chain(var("a"), vec![Method::Reverse, Method::First]))]),
        emit_parts(vec![StrPart::Interp(Expr::ValueChain {
            base: Box::new(text("a-b-c")),
            methods: vec![Method::Gsub(vec![lit("-")], vec![lit("+")]), Method::Replace(vec![lit("")], vec![lit(".")])],
        })]),
        Stmt::InsertAtMatch,
    ];
    assert_eq!(run_on(&stmts, ""), "1,2,,3\n2\n3\n.a.+.b.+.c.");
}

#[test]
fn a_definition_without_insert_at_match_leaves_the_page() {
    let stmts = vec![
        let_("a", ints(&[1, 2, 3])),
        Stmt::Emit(text("never inserted")),
        Stmt::Guard("absent".to_string()),
    ];
    assert_eq!(run_on(&stmts, "page body"), "page body");
}

#[test]
fn straight_definition_inserts_pending_lines_at_the_start() {
    let stmts = vec![
        Stmt::Emit(text("one")),
        Stmt::Emit(text("two")),
        Stmt::InsertAtMatch,
        Stmt::Emit(text("three")),
        Stmt::InsertAtMatch,
        Stmt::Emit(text("dropped")),
    ];
    assert_eq!(run_on(&stmts, "body"), "threeone\ntwobody");
}

#[test]
fn more_statements_than_the_budget_fail() {
    let stmts: Vec<Stmt> = (0..PREPROCESS_STEP_BUDGET + 1).map(|_| Stmt::InsertAtMatch).collect();
    let mut source = "page".to_string();
    let err = run_stmts(&stmts, &mut source, &PreprocessJobs::new(), &TestHost).err().unwrap();
    assert_eq!(err, "preprocess: step budget exceeded");
    assert_eq!(source, "page");
}

#[test]
fn size_of_a_string_counts_characters() {
    let stmts = vec![
        let_("s", text("漢字")),
        Stmt::Emit(Expr::String(vec![StrPart::Interp(chain(var("s"), vec![Method::Size]))])),
        Stmt::InsertAtMatch,
    ];
    assert_eq!(run_on(&stmts, ""), "2");
}

#[test]
fn straight_definition_with_variables_and_branches() {
    let stmts = vec![
        let_("a", ints(&[10, 20, 30])),
        Stmt::If {
            cond: chain(var("a"), vec![Method::Empty]),
            body: vec![Stmt::Emit(text("empty"))],
            else_body: Some(vec![Stmt::Emit(Expr::String(vec![
                lit("last="),
                StrPart::Interp(chain(var("a"), vec![Method::Last])),
            ]))]),
        },
        Stmt::InsertAtMatch,
    ];
    assert_eq!(run_on(&stmts, "|"), "last=30|");
}

#[test]
fn straight_for_runs_its_body_once_per_item() {
    let stmts = vec![
        Stmt::For {
            var: "x".to_string(),
            iter: ints(&[1, 2, 3]),
            body: vec![Stmt::Emit(Expr::String(vec![
                lit("n="),
                StrPart::Interp(Expr::Arith(
                    Box::new(Expr::Access(var("x"))),
                    ArithOp::Add,
                    Box::new(Expr::Int(10)),
                )),
            ]))],
        },
        Stmt::InsertAtMatch,
    ];
    assert_eq!(run_on(&stmts, ""), "n=11\nn=12\nn=13");
}

#[test]
fn equality_compares_both_sides() {
    let stmts = vec![
        let_("a", Expr::Int(1)),
        Stmt::If {
            cond: Expr::Eq(Box::new(Expr::Access(var("a"))), Box::new(Expr::Int(2))),
            body: vec![Stmt::Emit(text("same"))],
            else_body: Some(vec![Stmt::Emit(text("different"))]),
        },
        Stmt::InsertAtMatch,
    ];
    assert_eq!(run_on(&stmts, ""), "different");
}

#[test]
fn gsub_replaces_the_first_argument_with_the_second() {
    let stmts = vec![
        let_("s", text("a-b-c")),
        Stmt::Emit(Expr::String(vec![StrPart::Interp(chain(
            var("s"),
            vec![Method::Gsub(vec![lit("-")], vec![lit("+")])],
        ))])),
        Stmt::InsertAtMatch,
    ];
    assert_eq!(run_on(&stmts, ""), "a+b+c");
}

#[test]
fn or_and_give_the_deciding_side() {
    let or_ = |l: Expr, r: Expr| Expr::Or(Box::new(l), Box::new(r));
    let and_ = |l: Expr, r: Expr| Expr::And(Box::new(l), Box::new(r));
    let stmts = vec![
        let_("a", or_(Expr::Null, text("fallback"))),
        let_("b", or_(text("first"), text("second"))),
        let_("c", and_(Expr::Int(0), text("never"))),
        let_("d", and_(Expr::Int(1), text("both"))),
        emit_parts(vec![
            StrPart::Interp(Expr::Access(var("a"))),
            lit(","),
            StrPart::Interp(Expr::Access(var("b"))),
            lit(","),
            StrPart::Interp(Expr::Access(var("c"))),
            lit(","),
            StrPart::Interp(Expr::Access(var("d"))),
        ]),
        Stmt::InsertAtMatch,
    ];
    assert_eq!(run_on(&stmts, ""), "fallback,first,0,both");
}
