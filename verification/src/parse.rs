//! Entry points that parse a whole text: the text is split into tokens and
//! the tokens must form exactly one node of the requested kind.
use vstd::prelude::*;

use crate::ast::{
    decls_model, expr_model, fn_decl_model, generics_model, path_model, stmt_model, type_decl_model,
    type_model, Expr, FnDecl, GenericParams, PathExpr, Stmt, Type, TypeDecl, Unit,
};
use crate::lexer::{lex, lex_model};
use crate::parse_decl::{
    consumed, fn_decl, generic_params, is_consumed, spec_decls, spec_fn_decl, spec_generic_params,
    spec_type_decl, type_decl, unit,
};
use crate::parse_expr::{parse_expr_at, parse_stmt_at, spec_expr, spec_stmt};
use crate::parse_type::{parse_path_at, parse_type_at, spec_path, spec_type};
use crate::token::{tokens_model, LexerError, Span, Token, TokenKind, TokenModel};

verus! {

/// Where a parse stopped, and the token found there (`None` at the end).
#[derive(Debug, Clone, Copy, PartialEq)]
pub struct SyntaxError {
    pub span: Span,
    pub found: Option<TokenKind>,
}

/// Why a text could not be parsed.
#[derive(Debug)]
pub enum Kind {
    LexError(LexerError),
    ParseError(Vec<SyntaxError>),
}

/// The error for a parse of `t` that stopped at `q`, in a text of `n`
/// characters.
pub open spec fn error_at(t: Seq<TokenModel>, n: int, q: int) -> SyntaxError {
    if 0 <= q < t.len() {
        SyntaxError { span: t[q].span, found: Some(t[q].kind) }
    } else {
        SyntaxError { span: Span { start: n as usize, end: n as usize }, found: None }
    }
}

/// The node of a parse result, if the parse used up the tokens.
pub open spec fn whole<M>(t: Seq<TokenModel>, r: Option<(M, int)>) -> Option<M> {
    match r {
        Some((m, q)) => if consumed(t, q) {
            Some(m)
        } else {
            None
        },
        None => None,
    }
}

/// Where a parse result stops: after its node, or at the first token.
pub open spec fn stop<M>(r: Option<(M, int)>) -> int {
    match r {
        Some((_, q)) => q,
        None => 0,
    }
}

/// What parsing the text `s` with the grammar rule `g` reports: the lexer's
/// error, the node whose model `m` gives, or the error where `g` stopped.
pub open spec fn reports<A, M>(
    r: Result<A, Kind>,
    m: spec_fn(A) -> M,
    s: Seq<char>,
    g: spec_fn(Seq<TokenModel>) -> Option<(M, int)>,
) -> bool {
    match lex_model(s) {
        Err(e) => r matches Err(Kind::LexError(x)) && x == e,
        Ok(t) => match whole(t, g(t)) {
            Some(v) => r matches Ok(a) && m(a) == v,
            None => r matches Err(Kind::ParseError(errs)) && errs@ == seq![
                error_at(t, s.len() as int, stop(g(t))),
            ],
        },
    }
}

fn error_at_exec(toks: &Vec<Token>, n: usize, q: usize) -> (r: SyntaxError)
    ensures
        r == error_at(tokens_model(toks@), n as int, q as int),
{
    if q < toks.len() {
        SyntaxError { span: toks[q].span, found: Some(toks[q].kind) }
    } else {
        SyntaxError { span: Span { start: n, end: n }, found: None }
    }
}

fn finish<A>(toks: &Vec<Token>, n: usize, res: Option<(A, usize)>) -> (r: Result<A, Kind>)
    requires
        res matches Some((_, q)) ==> q <= toks@.len(),
    ensures
        match res {
            Some((a, q)) => if consumed(tokens_model(toks@), q as int) {
                r matches Ok(x) && x == a
            } else {
                r matches Err(Kind::ParseError(errs)) && errs@ == seq![
                    error_at(tokens_model(toks@), n as int, q as int),
                ]
            },
            None => r matches Err(Kind::ParseError(errs)) && errs@ == seq![
                error_at(tokens_model(toks@), n as int, 0),
            ],
        },
{
    let q = match &res {
        Some((_, q)) => *q,
        None => 0,
    };
    let complete = match &res {
        Some((_, q)) => is_consumed(toks, *q),
        None => false,
    };
    if complete {
        match res {
            Some((a, _)) => Ok(a),
            None => Err(Kind::ParseError(Vec::new())),
        }
    } else {
        let mut errs = Vec::new();
        errs.push(error_at_exec(toks, n, q));
        proof {
            assert(errs@ =~= seq![errs@[0]]);
        }
        Err(Kind::ParseError(errs))
    }
}

/// Whether the text `s` is a unit: it splits into tokens, and the tokens
/// are declarations up to the end.
pub open spec fn unit_parses(s: Seq<char>) -> bool {
    match lex_model(s) {
        Ok(t) => consumed(t, spec_decls(t, 0, seq![]).1),
        Err(_) => false,
    }
}

/// Parses a whole compilation unit.
pub fn parse(source: &str) -> (r: Result<Unit, Kind>)
    ensures
        r is Ok <==> unit_parses(source@),
        reports(
            r,
            |u: Unit| decls_model(u.decls@),
            source@,
            |t: Seq<TokenModel>| Some(spec_decls(t, 0, seq![])),
        ),
{
    let n = source.unicode_len();
    match lex(source) {
        Ok(toks) => {
            let (u, q) = unit(&toks);
            finish(&toks, n, Some((u, q)))
        },
        Err(e) => Err(Kind::LexError(e)),
    }
}

/// Parses a text that holds exactly one expression.
pub fn parse_expr(source: &str) -> (r: Result<Expr, Kind>)
    ensures
        reports(r, |e: Expr| expr_model(e), source@, |t: Seq<TokenModel>| spec_expr(t, 0)),
{
    let n = source.unicode_len();
    match lex(source) {
        Ok(toks) => {
            let res = parse_expr_at(&toks, 0);
            finish(&toks, n, res)
        },
        Err(e) => Err(Kind::LexError(e)),
    }
}

/// Parses a text that holds exactly one statement.
pub fn parse_stmt(source: &str) -> (r: Result<Stmt, Kind>)
    ensures
        reports(r, |s: Stmt| stmt_model(s), source@, |t: Seq<TokenModel>| spec_stmt(t, 0)),
{
    let n = source.unicode_len();
    match lex(source) {
        Ok(toks) => {
            let res = parse_stmt_at(&toks, 0);
            finish(&toks, n, res)
        },
        Err(e) => Err(Kind::LexError(e)),
    }
}

/// Parses a text that holds exactly one type.
pub fn parse_type(source: &str) -> (r: Result<Type, Kind>)
    ensures
        reports(r, |x: Type| type_model(x), source@, |t: Seq<TokenModel>| spec_type(t, 0)),
{
    let n = source.unicode_len();
    match lex(source) {
        Ok(toks) => {
            let res = parse_type_at(&toks, 0);
            finish(&toks, n, res)
        },
        Err(e) => Err(Kind::LexError(e)),
    }
}

/// Parses a text that holds exactly one path.
pub fn parse_path(source: &str) -> (r: Result<PathExpr, Kind>)
    ensures
        reports(r, |x: PathExpr| path_model(x), source@, |t: Seq<TokenModel>| spec_path(t, 0)),
{
    let n = source.unicode_len();
    match lex(source) {
        Ok(toks) => {
            let res = parse_path_at(&toks, 0);
            finish(&toks, n, res)
        },
        Err(e) => Err(Kind::LexError(e)),
    }
}

/// Parses a text that holds exactly one list of generic parameters.
pub fn parse_generic_params(source: &str) -> (r: Result<GenericParams, Kind>)
    ensures
        reports(
            r,
            |g: GenericParams| generics_model(g.0@),
            source@,
            |t: Seq<TokenModel>| spec_generic_params(t, 0),
        ),
{
    let n = source.unicode_len();
    match lex(source) {
        Ok(toks) => {
            let res = generic_params(&toks, 0);
            finish(&toks, n, res)
        },
        Err(e) => Err(Kind::LexError(e)),
    }
}

/// Parses a text that holds exactly one function declaration.
pub fn parse_fn_decl(source: &str) -> (r: Result<FnDecl, Kind>)
    ensures
        reports(r, |f: FnDecl| fn_decl_model(f), source@, |t: Seq<TokenModel>| spec_fn_decl(t, 0)),
{
    let n = source.unicode_len();
    match lex(source) {
        Ok(toks) => {
            let res = fn_decl(&toks, 0);
            finish(&toks, n, res)
        },
        Err(e) => Err(Kind::LexError(e)),
    }
}

/// Parses a text that holds exactly one type declaration.
pub fn parse_type_decl(source: &str) -> (r: Result<TypeDecl, Kind>)
    ensures
        reports(
            r,
            |d: TypeDecl| type_decl_model(d),
            source@,
            |t: Seq<TokenModel>| spec_type_decl(t, 0),
        ),
{
    let n = source.unicode_len();
    match lex(source) {
        Ok(toks) => {
            let res = type_decl(&toks, 0);
            finish(&toks, n, res)
        },
        Err(e) => Err(Kind::LexError(e)),
    }
}

} // verus!
