//! The syntax tree of a site's `preprocess:` definition.
use vstd::prelude::*;

verus! {

/// A statement.
#[derive(Debug)]
pub enum Stmt {
    Guard(String),
    Let {
        var: String,
        expr: Expr,
    },
    /// `set target = expr`.
    Assign {
        target: LValue,
        expr: Expr,
    },
    If {
        cond: Expr,
        body: Vec<Stmt>,
        else_body: Option<Vec<Stmt>>,
    },
    For {
        var: String,
        iter: Expr,
        body: Vec<Stmt>,
    },
    Emit(Expr),
    InsertAtMatch,
}

#[derive(Debug)]
pub enum Expr {
    String(Vec<StrPart>),
    Regex(String, String),
    ExtractJson(String, String),
    Request(Box<Expr>),
    FetchJson(Box<Expr>),
    Arith(Box<Expr>, ArithOp, Box<Expr>),
    Access(Accessor),
    Chain {
        base: Accessor,
        methods: Vec<Method>,
    },
    ValueChain {
        base: Box<Expr>,
        methods: Vec<Method>,
    },
    Array(Vec<Expr>),
    Null,
    Int(i64),
    Not(Box<Expr>),
    Or(Box<Expr>, Box<Expr>),
    And(Box<Expr>, Box<Expr>),
    Eq(Box<Expr>, Box<Expr>),
    Ne(Box<Expr>, Box<Expr>),
}

#[derive(Debug, Clone, Copy, PartialEq, Eq)]
pub enum ArithOp {
    Add,
    Sub,
}

#[derive(Debug)]
pub enum StrPart {
    Lit(String),
    Interp(Expr),
}

#[derive(Debug)]
pub struct Accessor {
    pub base: String,
    pub path: Vec<AccessPart>,
}

#[derive(Debug)]
pub enum AccessPart {
    Dot(String),
    Bracket(BracketKey),
}

#[derive(Debug)]
pub enum BracketKey {
    Str(Vec<StrPart>),
    Expr(Expr),
    Index(i64),
}

#[derive(Debug)]
pub enum LValue {
    Var(String),
    Hash {
        base: String,
        keys: Vec<Vec<StrPart>>,
    },
}

#[derive(Debug)]
pub enum Method {
    /// `map { |var| body }`.
    MapEach { var: String, body: Box<Expr> },
    FlatMap { var: String, body: Box<Expr> },
    Flatten,
    Compact,
    Join(Vec<StrPart>),
    Gsub(Vec<StrPart>, Vec<StrPart>),
    GsubRegex {
        pattern: String,
        flags: String,
        to: Vec<StrPart>,
    },
    /// `gsub(/re/) { |m| … }`: the block gets `[full, group1, …]` of each
    /// match and its value replaces that match.
    GsubBlock {
        pattern: String,
        flags: String,
        var: String,
        body: Box<Expr>,
    },
    Replace(Vec<StrPart>, Vec<StrPart>),
    /// `.field` inside a chain, kept in order with the other steps.
    Field(String),
    /// `[...]` inside a chain.
    Bracket(BracketKey),
    IsArray,
    Empty,
    Size,
    First,
    Last,
    Reverse,
}

} // verus!
