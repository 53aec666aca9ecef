//! Parsing expressions, statements and blocks.
//!
//! ```text
//! expr        := "if" expr block ["else" block] | "loop" block | assign
//! assign      := logic_or [("=" | "+=" | "-=" | "*=" | "/=") expr]
//! logic_or    := logic_and ("||" logic_and)*
//! logic_and   := comparation ("&&" comparation)*
//! comparation := addition [("==" | "!=" | "<=" | ">=" | "<" | ">") addition]
//! addition    := term (("+" | "-") term)*
//! term        := unary (("*" | "/") unary)*
//! unary       := ("*" | "&" | "-" | "!") factor | factor
//! factor      := primary ("." segment | "(" [expr ("," expr)* [","]] ")")*
//! primary     := literal | "(" expr ")" | path "{" [field ("," field)* [","]] "}" | path
//! field       := "." ident "=" expr
//! block       := "{" [[";"] stmt (";" stmt)*] "}"
//! stmt        := ("let" | "var" | "const") ident [":" type] ["=" expr]
//!              | "defer" expr | "return" [expr] | "break" | "continue" | expr
//! ```
//! Binary operators of one level associate to the left.
use vstd::prelude::*;

use crate::ast::{
    block_model, expr_model, exprs_model, fields_model, path_model, segment_model, stmt_model,
    stmts_model, AssignKind, Binding, Block, BlockModel, Expr, ExprAccess, ExprAssign, ExprCall,
    ExprIf, ExprInit, ExprInitField, ExprModel, ExprValue, Ident, Local, Operator, Stmt, StmtModel,
    ValueModel, operator_spelling, assign_spelling, binding_spelling,
};
use crate::parse_type::{
    at, is_at, kind_at, parse_path_at, parse_segment_at, parse_type_at, spec_path, spec_segment,
    spec_type,
};
use crate::token::{kind_spelling, tokens_model, Token, TokenKind, TokenModel};

verus! {



pub open spec fn mul_op(k: Option<TokenKind>) -> Option<Operator> {
    match k {
        Some(TokenKind::Asterisk) => Some(Operator::Mul),
        Some(TokenKind::Slash) => Some(Operator::Div),
        _ => None,
    }
}

pub open spec fn add_op(k: Option<TokenKind>) -> Option<Operator> {
    match k {
        Some(TokenKind::Plus) => Some(Operator::Add),
        Some(TokenKind::Minus) => Some(Operator::Sub),
        _ => None,
    }
}

pub open spec fn compare_op(k: Option<TokenKind>) -> Option<Operator> {
    match k {
        Some(TokenKind::EqualEqual) => Some(Operator::Equal),
        Some(TokenKind::NotEqual) => Some(Operator::NotEqual),
        Some(TokenKind::LessThanEqual) => Some(Operator::LessEqual),
        Some(TokenKind::GreaterThanEqual) => Some(Operator::GreaterEqual),
        Some(TokenKind::LessThan) => Some(Operator::Less),
        Some(TokenKind::GreaterThan) => Some(Operator::Greater),
        _ => None,
    }
}

pub open spec fn and_op(k: Option<TokenKind>) -> Option<Operator> {
    match k {
        Some(TokenKind::AndAnd) => Some(Operator::And),
        _ => None,
    }
}

pub open spec fn or_op(k: Option<TokenKind>) -> Option<Operator> {
    match k {
        Some(TokenKind::OrOr) => Some(Operator::Or),
        _ => None,
    }
}

pub open spec fn unary_op(k: Option<TokenKind>) -> Option<Operator> {
    match k {
        Some(TokenKind::Asterisk) => Some(Operator::Deref),
        Some(TokenKind::And) => Some(Operator::Ref),
        Some(TokenKind::Minus) => Some(Operator::Neg),
        Some(TokenKind::Not) => Some(Operator::Not),
        _ => None,
    }
}

pub open spec fn assign_kind(k: Option<TokenKind>) -> Option<AssignKind> {
    match k {
        Some(TokenKind::Equal) => Some(AssignKind::Equal),
        Some(TokenKind::PlusEqual) => Some(AssignKind::AddEqual),
        Some(TokenKind::MinusEqual) => Some(AssignKind::SubEqual),
        Some(TokenKind::AsteriskEqual) => Some(AssignKind::MulEqual),
        Some(TokenKind::SlashEqual) => Some(AssignKind::DivEqual),
        _ => None,
    }
}

pub open spec fn binding_of(k: Option<TokenKind>) -> Option<Binding> {
    match k {
        Some(TokenKind::Let) => Some(Binding::Let),
        Some(TokenKind::Var) => Some(Binding::Var),
        Some(TokenKind::Const) => Some(Binding::Const),
        _ => None,
    }
}

/// The operator a binary operator token stands for is written the way
/// that token is: `<` gives `Less`, `>` gives `Greater`, `!=` gives
/// `NotEqual`, and so on for every level of precedence.
pub proof fn law_binary_operators_follow_their_token(k: Option<TokenKind>)
    ensures
        mul_op(k) matches Some(op) ==> (k matches Some(t) && kind_spelling(t) == Some(operator_spelling(op))),
        add_op(k) matches Some(op) ==> (k matches Some(t) && kind_spelling(t) == Some(operator_spelling(op))),
        compare_op(k) matches Some(op) ==> (k matches Some(t) && kind_spelling(t) == Some(operator_spelling(op))),
        and_op(k) matches Some(op) ==> (k matches Some(t) && kind_spelling(t) == Some(operator_spelling(op))),
        or_op(k) matches Some(op) ==> (k matches Some(t) && kind_spelling(t) == Some(operator_spelling(op))),
{
}

/// A prefix operator stands for the operator its token spells.
pub proof fn law_unary_operators_follow_their_token(k: Option<TokenKind>)
    ensures
        unary_op(k) matches Some(op) ==> (k matches Some(t) && kind_spelling(t) == Some(operator_spelling(op))),
{
}

/// An assignment token gives the assignment it spells, and a binding
/// keyword the binding it names.
pub proof fn law_assignments_and_bindings_follow_their_token(k: Option<TokenKind>)
    ensures
        assign_kind(k) matches Some(a) ==> (k matches Some(t) && kind_spelling(t) == Some(assign_spelling(a))),
        binding_of(k) matches Some(b) ==> (k matches Some(t) && kind_spelling(t) == Some(binding_spelling(b))),
{
}

pub open spec fn binary(l: ExprModel, op: Operator, r: ExprModel) -> ExprModel {
    ExprModel::BinaryOp { left: Box::new(l), op, right: Box::new(r) }
}

pub open spec fn expr_result(r: Option<(Expr, usize)>) -> Option<(ExprModel, int)> {
    match r {
        Some((e, q)) => Some((expr_model(e), q as int)),
        None => None,
    }
}

pub open spec fn block_result(r: Option<(Block, usize)>) -> Option<(BlockModel, int)> {
    match r {
        Some((b, q)) => Some((block_model(b), q as int)),
        None => None,
    }
}

pub open spec fn stmt_result(r: Option<(Stmt, usize)>) -> Option<(StmtModel, int)> {
    match r {
        Some((x, q)) => Some((stmt_model(x), q as int)),
        None => None,
    }
}

pub open spec fn field_result(r: Option<(ExprInitField, usize)>) -> Option<((Seq<char>, ExprModel), int)> {
    match r {
        Some((f, q)) => Some(((f.name.name@, expr_model(*f.value)), q as int)),
        None => None,
    }
}

/// The value of a literal token, if the token at `p` is a literal.
pub open spec fn literal_at(t: Seq<TokenModel>, p: int) -> Option<ValueModel> {
    match kind_at(t, p) {
        Some(TokenKind::Integer) => Some(ValueModel::Integer(t[p].lexeme)),
        Some(TokenKind::Float) => Some(ValueModel::Float(t[p].lexeme)),
        Some(TokenKind::String) => Some(ValueModel::String(t[p].lexeme)),
        Some(TokenKind::Bool) => Some(ValueModel::Bool(t[p].lexeme == "true"@)),
        _ => None,
    }
}

/// `expr` at `p`.
pub open spec fn spec_expr(t: Seq<TokenModel>, p: int) -> Option<(ExprModel, int)>
    decreases t.len() - p, 21int,
{
    if 0 <= p < t.len() && is_at(t, p, TokenKind::If) {
        match spec_expr(t, p + 1) {
            Some((cond, q)) => if p < q <= t.len() {
                match spec_block(t, q) {
                    Some((then_branch, r)) => if q < r <= t.len() {
                        if is_at(t, r, TokenKind::Else) {
                            match spec_block(t, r + 1) {
                                Some((else_branch, s)) => Some(
                                    (
                                        ExprModel::If {
                                            condition: Box::new(cond),
                                            then_branch,
                                            else_branch: Some(else_branch),
                                        },
                                        s,
                                    ),
                                ),
                                None => Some(
                                    (
                                        ExprModel::If {
                                            condition: Box::new(cond),
                                            then_branch,
                                            else_branch: None,
                                        },
                                        r,
                                    ),
                                ),
                            }
                        } else {
                            Some(
                                (
                                    ExprModel::If {
                                        condition: Box::new(cond),
                                        then_branch,
                                        else_branch: None,
                                    },
                                    r,
                                ),
                            )
                        }
                    } else {
                        None
                    },
                    None => None,
                }
            } else {
                None
            },
            None => None,
        }
    } else if 0 <= p < t.len() && is_at(t, p, TokenKind::Loop) {
        match spec_block(t, p + 1) {
            Some((b, q)) => Some((ExprModel::Loop(b), q)),
            None => None,
        }
    } else {
        spec_assign(t, p)
    }
}

/// `assign` at `p`.
pub open spec fn spec_assign(t: Seq<TokenModel>, p: int) -> Option<(ExprModel, int)>
    decreases t.len() - p, 20int,
{
    match spec_logic_or(t, p) {
        Some((left, q)) => if p < q <= t.len() {
            match assign_kind(kind_at(t, q)) {
                Some(kind) => match spec_expr(t, q + 1) {
                    Some((right, e)) => Some(
                        (ExprModel::Assign { left: Box::new(left), kind, right: Box::new(right) }, e),
                    ),
                    None => Some((left, q)),
                },
                None => Some((left, q)),
            }
        } else {
            None
        },
        None => None,
    }
}

/// `logic_or` at `p`.
pub open spec fn spec_logic_or(t: Seq<TokenModel>, p: int) -> Option<(ExprModel, int)>
    decreases t.len() - p, 19int,
{
    match spec_logic_and(t, p) {
        Some((first, q)) => if p < q <= t.len() {
            Some(spec_logic_or_rest(t, q, first))
        } else {
            None
        },
        None => None,
    }
}

pub open spec fn spec_logic_or_rest(t: Seq<TokenModel>, p: int, acc: ExprModel) -> (ExprModel, int)
    decreases t.len() - p, 0int,
{
    match or_op(kind_at(t, p)) {
        Some(op) => match spec_logic_and(t, p + 1) {
            Some((rhs, q)) => if p < q <= t.len() {
                spec_logic_or_rest(t, q, binary(acc, op, rhs))
            } else {
                (acc, p)
            },
            None => (acc, p),
        },
        None => (acc, p),
    }
}

/// `logic_and` at `p`.
pub open spec fn spec_logic_and(t: Seq<TokenModel>, p: int) -> Option<(ExprModel, int)>
    decreases t.len() - p, 18int,
{
    match spec_comparation(t, p) {
        Some((first, q)) => if p < q <= t.len() {
            Some(spec_logic_and_rest(t, q, first))
        } else {
            None
        },
        None => None,
    }
}

pub open spec fn spec_logic_and_rest(t: Seq<TokenModel>, p: int, acc: ExprModel) -> (ExprModel, int)
    decreases t.len() - p, 0int,
{
    match and_op(kind_at(t, p)) {
        Some(op) => match spec_comparation(t, p + 1) {
            Some((rhs, q)) => if p < q <= t.len() {
                spec_logic_and_rest(t, q, binary(acc, op, rhs))
            } else {
                (acc, p)
            },
            None => (acc, p),
        },
        None => (acc, p),
    }
}

/// `comparation` at `p`.
pub open spec fn spec_comparation(t: Seq<TokenModel>, p: int) -> Option<(ExprModel, int)>
    decreases t.len() - p, 17int,
{
    match spec_addition(t, p) {
        Some((left, q)) => if p < q <= t.len() {
            match compare_op(kind_at(t, q)) {
                Some(op) => match spec_addition(t, q + 1) {
                    Some((right, e)) => Some((binary(left, op, right), e)),
                    None => Some((left, q)),
                },
                None => Some((left, q)),
            }
        } else {
            None
        },
        None => None,
    }
}

/// `addition` at `p`.
pub open spec fn spec_addition(t: Seq<TokenModel>, p: int) -> Option<(ExprModel, int)>
    decreases t.len() - p, 16int,
{
    match spec_term(t, p) {
        Some((first, q)) => if p < q <= t.len() {
            Some(spec_addition_rest(t, q, first))
        } else {
            None
        },
        None => None,
    }
}

pub open spec fn spec_addition_rest(t: Seq<TokenModel>, p: int, acc: ExprModel) -> (ExprModel, int)
    decreases t.len() - p, 0int,
{
    match add_op(kind_at(t, p)) {
        Some(op) => match spec_term(t, p + 1) {
            Some((rhs, q)) => if p < q <= t.len() {
                spec_addition_rest(t, q, binary(acc, op, rhs))
            } else {
                (acc, p)
            },
            None => (acc, p),
        },
        None => (acc, p),
    }
}

/// `term` at `p`.
pub open spec fn spec_term(t: Seq<TokenModel>, p: int) -> Option<(ExprModel, int)>
    decreases t.len() - p, 15int,
{
    match spec_unary(t, p) {
        Some((first, q)) => if p < q <= t.len() {
            Some(spec_term_rest(t, q, first))
        } else {
            None
        },
        None => None,
    }
}

pub open spec fn spec_term_rest(t: Seq<TokenModel>, p: int, acc: ExprModel) -> (ExprModel, int)
    decreases t.len() - p, 0int,
{
    match mul_op(kind_at(t, p)) {
        Some(op) => match spec_unary(t, p + 1) {
            Some((rhs, q)) => if p < q <= t.len() {
                spec_term_rest(t, q, binary(acc, op, rhs))
            } else {
                (acc, p)
            },
            None => (acc, p),
        },
        None => (acc, p),
    }
}

/// `unary` at `p`.
pub open spec fn spec_unary(t: Seq<TokenModel>, p: int) -> Option<(ExprModel, int)>
    decreases t.len() - p, 14int,
{
    match unary_op(kind_at(t, p)) {
        Some(op) => match spec_factor(t, p + 1) {
            Some((e, q)) => Some((ExprModel::UnaryOp { op, expr: Box::new(e) }, q)),
            None => spec_factor(t, p),
        },
        None => spec_factor(t, p),
    }
}

/// `factor` at `p`.
pub open spec fn spec_factor(t: Seq<TokenModel>, p: int) -> Option<(ExprModel, int)>
    decreases t.len() - p, 13int,
{
    match spec_primary(t, p) {
        Some((base, q)) => if p < q <= t.len() {
            Some(spec_accessors(t, q, base))
        } else {
            None
        },
        None => None,
    }
}

/// The field accesses and calls that follow an expression at `p`.
pub open spec fn spec_accessors(t: Seq<TokenModel>, p: int, acc: ExprModel) -> (ExprModel, int)
    decreases t.len() - p, 0int,
{
    if 0 <= p < t.len() && is_at(t, p, TokenKind::Dot) && spec_segment(t, p + 1) is Some {
        let (seg, q) = spec_segment(t, p + 1).unwrap();
        if p < q <= t.len() {
            spec_accessors(t, q, ExprModel::Access { base: Box::new(acc), segment: seg })
        } else {
            (acc, p)
        }
    } else if 0 <= p < t.len() && is_at(t, p, TokenKind::LeftParen) {
        let (args, q) = spec_args(t, p + 1);
        if p < q <= t.len() && is_at(t, q, TokenKind::RightParen) {
            spec_accessors(t, q + 1, ExprModel::Call { callee: Box::new(acc), args })
        } else {
            (acc, p)
        }
    } else {
        (acc, p)
    }
}

/// `[expr ("," expr)* [","]]` at `p`.
pub open spec fn spec_args(t: Seq<TokenModel>, p: int) -> (Seq<ExprModel>, int)
    decreases t.len() - p, 22int,
{
    match spec_expr(t, p) {
        Some((first, q)) => if p < q <= t.len() {
            spec_args_rest(t, q, seq![first])
        } else {
            (seq![], p)
        },
        None => (seq![], p),
    }
}

pub open spec fn spec_args_rest(t: Seq<TokenModel>, p: int, acc: Seq<ExprModel>) -> (Seq<ExprModel>, int)
    decreases t.len() - p, 0int,
{
    if 0 <= p < t.len() && is_at(t, p, TokenKind::Comma) {
        match spec_expr(t, p + 1) {
            Some((e, q)) => if p < q <= t.len() {
                spec_args_rest(t, q, acc.push(e))
            } else {
                (acc, p + 1)
            },
            None => (acc, p + 1),
        }
    } else {
        (acc, p)
    }
}

/// `field` at `p`.
pub open spec fn spec_init_field(t: Seq<TokenModel>, p: int) -> Option<((Seq<char>, ExprModel), int)>
    decreases t.len() - p, 0int,
{
    if 0 <= p && p + 2 < t.len() && is_at(t, p, TokenKind::Dot) && is_at(t, p + 1, TokenKind::Ident)
        && is_at(t, p + 2, TokenKind::Equal) {
        match spec_expr(t, p + 3) {
            Some((e, q)) => Some(((t[p + 1].lexeme, e), q)),
            None => None,
        }
    } else {
        None
    }
}

/// `[field ("," field)* [","]]` at `p`.
pub open spec fn spec_init_fields(t: Seq<TokenModel>, p: int) -> (Seq<(Seq<char>, ExprModel)>, int)
    decreases t.len() - p, 1int,
{
    match spec_init_field(t, p) {
        Some((f, q)) => if p < q <= t.len() {
            spec_init_fields_rest(t, q, seq![f])
        } else {
            (seq![], p)
        },
        None => (seq![], p),
    }
}

pub open spec fn spec_init_fields_rest(t: Seq<TokenModel>, p: int, acc: Seq<(Seq<char>, ExprModel)>) -> (
    Seq<(Seq<char>, ExprModel)>,
    int,
)
    decreases t.len() - p, 0int,
{
    if 0 <= p < t.len() && is_at(t, p, TokenKind::Comma) {
        match spec_init_field(t, p + 1) {
            Some((f, q)) => if p < q <= t.len() {
                spec_init_fields_rest(t, q, acc.push(f))
            } else {
                (acc, p + 1)
            },
            None => (acc, p + 1),
        }
    } else {
        (acc, p)
    }
}

/// `"(" expr ")"` at `p`.
pub open spec fn spec_paren(t: Seq<TokenModel>, p: int) -> Option<(ExprModel, int)>
    decreases t.len() - p, 11int,
{
    if 0 <= p < t.len() && is_at(t, p, TokenKind::LeftParen) {
        match spec_expr(t, p + 1) {
            Some((e, q)) => if is_at(t, q, TokenKind::RightParen) {
                Some((e, q + 1))
            } else {
                None
            },
            None => None,
        }
    } else {
        None
    }
}

/// A struct literal or a plain path at `p`.
pub open spec fn spec_init_or_path(t: Seq<TokenModel>, p: int) -> Option<(ExprModel, int)>
    decreases t.len() - p, 11int,
{
    match spec_path(t, p) {
        Some((path, q)) => if p < q <= t.len() && is_at(t, q, TokenKind::LeftBrace) {
            let (fields, r) = spec_init_fields(t, q + 1);
            if is_at(t, r, TokenKind::RightBrace) {
                Some((ExprModel::Init { path, fields }, r + 1))
            } else {
                Some((ExprModel::Path(path), q))
            }
        } else {
            Some((ExprModel::Path(path), q))
        },
        None => None,
    }
}

/// `primary` at `p`.
pub open spec fn spec_primary(t: Seq<TokenModel>, p: int) -> Option<(ExprModel, int)>
    decreases t.len() - p, 12int,
{
    if literal_at(t, p) is Some {
        Some((ExprModel::Value(literal_at(t, p).unwrap()), p + 1))
    } else if 0 <= p < t.len() && is_at(t, p, TokenKind::LeftParen) {
        spec_paren(t, p)
    } else {
        spec_init_or_path(t, p)
    }
}

/// `block` at `p`.
pub open spec fn spec_block(t: Seq<TokenModel>, p: int) -> Option<(BlockModel, int)>
    decreases t.len() - p, 1int,
{
    if 0 <= p < t.len() && is_at(t, p, TokenKind::LeftBrace) {
        let start = if is_at(t, p + 1, TokenKind::Semicolon) && spec_stmt(t, p + 2) is Some {
            p + 2
        } else {
            p + 1
        };
        let (stmts, r) = match spec_stmt(t, start) {
            Some((s, q)) => if start < q <= t.len() {
                spec_stmts_rest(t, q, seq![s])
            } else {
                (seq![], p + 1)
            },
            None => (seq![], p + 1),
        };
        if is_at(t, r, TokenKind::RightBrace) {
            Some((BlockModel { statements: stmts }, r + 1))
        } else {
            None
        }
    } else {
        None
    }
}

pub open spec fn spec_stmts_rest(t: Seq<TokenModel>, p: int, acc: Seq<StmtModel>) -> (Seq<StmtModel>, int)
    decreases t.len() - p, 0int,
{
    if 0 <= p < t.len() && is_at(t, p, TokenKind::Semicolon) {
        match spec_stmt(t, p + 1) {
            Some((s, q)) => if p < q <= t.len() {
                spec_stmts_rest(t, q, acc.push(s))
            } else {
                (acc, p)
            },
            None => (acc, p),
        }
    } else {
        (acc, p)
    }
}

/// `stmt` at `p`.
pub open spec fn spec_stmt(t: Seq<TokenModel>, p: int) -> Option<(StmtModel, int)>
    decreases t.len() - p, 23int,
{
    if 0 <= p < t.len() && binding_of(kind_at(t, p)) is Some && is_at(t, p + 1, TokenKind::Ident) {
        let name = t[p + 1].lexeme;
        let q = p + 2;
        let (var_type, r) = if is_at(t, q, TokenKind::Colon) && spec_type(t, q + 1) is Some {
            let (ty, r) = spec_type(t, q + 1).unwrap();
            (Some(ty), r)
        } else {
            (None, q)
        };
        let (initializer, s) = if p < r <= t.len() && is_at(t, r, TokenKind::Equal) && spec_expr(
            t,
            r + 1,
        ) is Some {
            let (e, s) = spec_expr(t, r + 1).unwrap();
            (Some(e), s)
        } else {
            (None, r)
        };
        Some(
            (
                StmtModel::Local {
                    binding: binding_of(kind_at(t, p)).unwrap(),
                    name,
                    var_type,
                    initializer,
                },
                s,
            ),
        )
    } else if 0 <= p < t.len() && is_at(t, p, TokenKind::Defer) && spec_expr(t, p + 1) is Some {
        let (e, q) = spec_expr(t, p + 1).unwrap();
        Some((StmtModel::Defer(e), q))
    } else if 0 <= p < t.len() && is_at(t, p, TokenKind::Return) {
        match spec_expr(t, p + 1) {
            Some((e, q)) => Some((StmtModel::Return(Some(e)), q)),
            None => Some((StmtModel::Return(None), p + 1)),
        }
    } else if 0 <= p < t.len() && is_at(t, p, TokenKind::Break) {
        Some((StmtModel::Break, p + 1))
    } else if 0 <= p < t.len() && is_at(t, p, TokenKind::Continue) {
        Some((StmtModel::Continue, p + 1))
    } else {
        match spec_expr(t, p) {
            Some((e, q)) => Some((StmtModel::Expr(e), q)),
            None => None,
        }
    }
}

// ----- executable parser -----
fn mul_op_at(toks: &Vec<Token>, p: usize) -> (r: Option<Operator>)
    ensures
        r == mul_op(kind_at(tokens_model(toks@), p as int)),
{
    if p >= toks.len() {
        return None;
    }
    match toks[p].kind {
        TokenKind::Asterisk => Some(Operator::Mul),
        TokenKind::Slash => Some(Operator::Div),
        _ => None,
    }
}

fn add_op_at(toks: &Vec<Token>, p: usize) -> (r: Option<Operator>)
    ensures
        r == add_op(kind_at(tokens_model(toks@), p as int)),
{
    if p >= toks.len() {
        return None;
    }
    match toks[p].kind {
        TokenKind::Plus => Some(Operator::Add),
        TokenKind::Minus => Some(Operator::Sub),
        _ => None,
    }
}

fn compare_op_at(toks: &Vec<Token>, p: usize) -> (r: Option<Operator>)
    ensures
        r == compare_op(kind_at(tokens_model(toks@), p as int)),
{
    if p >= toks.len() {
        return None;
    }
    match toks[p].kind {
        TokenKind::EqualEqual => Some(Operator::Equal),
        TokenKind::NotEqual => Some(Operator::NotEqual),
        TokenKind::LessThanEqual => Some(Operator::LessEqual),
        TokenKind::GreaterThanEqual => Some(Operator::GreaterEqual),
        TokenKind::LessThan => Some(Operator::Less),
        TokenKind::GreaterThan => Some(Operator::Greater),
        _ => None,
    }
}

fn unary_op_at(toks: &Vec<Token>, p: usize) -> (r: Option<Operator>)
    ensures
        r == unary_op(kind_at(tokens_model(toks@), p as int)),
{
    if p >= toks.len() {
        return None;
    }
    match toks[p].kind {
        TokenKind::Asterisk => Some(Operator::Deref),
        TokenKind::And => Some(Operator::Ref),
        TokenKind::Minus => Some(Operator::Neg),
        TokenKind::Not => Some(Operator::Not),
        _ => None,
    }
}

fn assign_kind_at(toks: &Vec<Token>, p: usize) -> (r: Option<AssignKind>)
    ensures
        r == assign_kind(kind_at(tokens_model(toks@), p as int)),
        r is Some ==> p < toks@.len(),
{
    if p >= toks.len() {
        return None;
    }
    match toks[p].kind {
        TokenKind::Equal => Some(AssignKind::Equal),
        TokenKind::PlusEqual => Some(AssignKind::AddEqual),
        TokenKind::MinusEqual => Some(AssignKind::SubEqual),
        TokenKind::AsteriskEqual => Some(AssignKind::MulEqual),
        TokenKind::SlashEqual => Some(AssignKind::DivEqual),
        _ => None,
    }
}

fn binding_at(toks: &Vec<Token>, p: usize) -> (r: Option<Binding>)
    ensures
        r == binding_of(kind_at(tokens_model(toks@), p as int)),
{
    if p >= toks.len() {
        return None;
    }
    match toks[p].kind {
        TokenKind::Let => Some(Binding::Let),
        TokenKind::Var => Some(Binding::Var),
        TokenKind::Const => Some(Binding::Const),
        _ => None,
    }
}

fn mk_binary(l: Expr, op: Operator, r: Expr) -> (e: Expr)
    ensures
        expr_model(e) == binary(expr_model(l), op, expr_model(r)),
{
    Expr::BinaryOp { left: Box::new(l), op, right: Box::new(r) }
}

fn mk_assign(l: Expr, kind: AssignKind, r: Expr) -> (e: Expr)
    ensures
        expr_model(e) == (ExprModel::Assign {
            left: Box::new(expr_model(l)),
            kind,
            right: Box::new(expr_model(r)),
        }),
{
    Expr::Assign(ExprAssign { left: Box::new(l), kind, right: Box::new(r) })
}

fn mk_access(base: Expr, seg: crate::ast::Segment) -> (e: Expr)
    ensures
        expr_model(e) == (ExprModel::Access { base: Box::new(expr_model(base)), segment: segment_model(seg) }),
{
    Expr::Access(ExprAccess { expr: Box::new(base), segment: seg })
}

fn mk_call(callee: Expr, args: Vec<Expr>) -> (e: Expr)
    ensures
        expr_model(e) == (ExprModel::Call { callee: Box::new(expr_model(callee)), args: exprs_model(args@) }),
{
    Expr::Call(ExprCall { expr: Box::new(callee), args })
}

fn mk_init(path: crate::ast::PathExpr, fields: Vec<ExprInitField>) -> (e: Expr)
    ensures
        expr_model(e) == (ExprModel::Init { path: path_model(path), fields: fields_model(fields@) }),
{
    Expr::Init(ExprInit { path, fields })
}

fn mk_path(path: crate::ast::PathExpr) -> (e: Expr)
    ensures
        expr_model(e) == ExprModel::Path(path_model(path)),
{
    Expr::Path(path)
}

fn mk_value(v: ExprValue) -> (e: Expr)
    ensures
        expr_model(e) == ExprModel::Value(crate::ast::value_model(v)),
{
    Expr::Value(v)
}

fn literal_at_exec(toks: &Vec<Token>, p: usize) -> (r: Option<ExprValue>)
    ensures
        r matches Some(v) ==> literal_at(tokens_model(toks@), p as int) == Some(crate::ast::value_model(v)),
        r is None ==> literal_at(tokens_model(toks@), p as int) is None,
{
    if p >= toks.len() {
        return None;
    }
    let tok = &toks[p];
    match tok.kind {
        TokenKind::Integer => Some(ExprValue::Integer(tok.lexeme.clone())),
        TokenKind::Float => Some(ExprValue::Float(tok.lexeme.clone())),
        TokenKind::String => Some(ExprValue::String(tok.lexeme.clone())),
        TokenKind::Bool => Some(ExprValue::Bool(crate::text::str_eq(tok.lexeme.as_str(), "true"))),
        _ => None,
    }
}

/// Parses an `expr` at `p`.
pub fn parse_expr_at(toks: &Vec<Token>, p: usize) -> (r: Option<(Expr, usize)>)
    requires
        p <= toks@.len(),
    ensures
        expr_result(r) == spec_expr(tokens_model(toks@), p as int),
        r matches Some((_, q)) ==> p < q <= toks@.len(),
    decreases toks@.len() - p, 21int,
{
    if at(toks, p, TokenKind::If) {
        match parse_expr_at(toks, p + 1) {
            Some((cond, q)) => match parse_block_at(toks, q) {
                Some((then_branch, r)) => {
                    if at(toks, r, TokenKind::Else) {
                        match parse_block_at(toks, r + 1) {
                            Some((else_branch, s)) => {
                                return Some(
                                    (
                                        Expr::If(
                                            ExprIf {
                                                condition: Box::new(cond),
                                                then_branch,
                                                else_branch: Some(else_branch),
                                            },
                                        ),
                                        s,
                                    ),
                                );
                            },
                            None => {},
                        }
                    }
                    Some(
                        (
                            Expr::If(
                                ExprIf { condition: Box::new(cond), then_branch, else_branch: None },
                            ),
                            r,
                        ),
                    )
                },
                None => None,
            },
            None => None,
        }
    } else if at(toks, p, TokenKind::Loop) {
        match parse_block_at(toks, p + 1) {
            Some((b, q)) => Some((Expr::Loop(b), q)),
            None => None,
        }
    } else {
        parse_assign_at(toks, p)
    }
}

fn parse_assign_at(toks: &Vec<Token>, p: usize) -> (r: Option<(Expr, usize)>)
    requires
        p <= toks@.len(),
    ensures
        expr_result(r) == spec_assign(tokens_model(toks@), p as int),
        r matches Some((_, q)) ==> p < q <= toks@.len(),
    decreases toks@.len() - p, 20int,
{
    match parse_logic_or_at(toks, p) {
        Some((left, q)) => match assign_kind_at(toks, q) {
            Some(kind) => {
                let _ = at(toks, q, TokenKind::Equal);
                match parse_expr_at(toks, q + 1) {
                    Some((right, e)) => Some((mk_assign(left, kind, right), e)),
                    None => Some((left, q)),
                }
            },
            None => Some((left, q)),
        },
        None => None,
    }
}

fn parse_logic_or_at(toks: &Vec<Token>, p: usize) -> (r: Option<(Expr, usize)>)
    requires
        p <= toks@.len(),
    ensures
        expr_result(r) == spec_logic_or(tokens_model(toks@), p as int),
        r matches Some((_, q)) ==> p < q <= toks@.len(),
    decreases toks@.len() - p, 19int,
{
    match parse_logic_and_at(toks, p) {
        Some((first, q)) => Some(parse_logic_or_rest(toks, q, first)),
        None => None,
    }
}

fn parse_logic_or_rest(toks: &Vec<Token>, p: usize, acc: Expr) -> (r: (Expr, usize))
    requires
        p <= toks@.len(),
    ensures
        (expr_model(r.0), r.1 as int) == spec_logic_or_rest(tokens_model(toks@), p as int, expr_model(acc)),
        p <= r.1 <= toks@.len(),
    decreases toks@.len() - p, 0int,
{
    if at(toks, p, TokenKind::OrOr) {
        match parse_logic_and_at(toks, p + 1) {
            Some((rhs, q)) => parse_logic_or_rest(toks, q, mk_binary(acc, Operator::Or, rhs)),
            None => (acc, p),
        }
    } else {
        (acc, p)
    }
}

fn parse_logic_and_at(toks: &Vec<Token>, p: usize) -> (r: Option<(Expr, usize)>)
    requires
        p <= toks@.len(),
    ensures
        expr_result(r) == spec_logic_and(tokens_model(toks@), p as int),
        r matches Some((_, q)) ==> p < q <= toks@.len(),
    decreases toks@.len() - p, 18int,
{
    match parse_comparation_at(toks, p) {
        Some((first, q)) => Some(parse_logic_and_rest(toks, q, first)),
        None => None,
    }
}

fn parse_logic_and_rest(toks: &Vec<Token>, p: usize, acc: Expr) -> (r: (Expr, usize))
    requires
        p <= toks@.len(),
    ensures
        (expr_model(r.0), r.1 as int) == spec_logic_and_rest(tokens_model(toks@), p as int, expr_model(acc)),
        p <= r.1 <= toks@.len(),
    decreases toks@.len() - p, 0int,
{
    if at(toks, p, TokenKind::AndAnd) {
        match parse_comparation_at(toks, p + 1) {
            Some((rhs, q)) => parse_logic_and_rest(toks, q, mk_binary(acc, Operator::And, rhs)),
            None => (acc, p),
        }
    } else {
        (acc, p)
    }
}

fn parse_comparation_at(toks: &Vec<Token>, p: usize) -> (r: Option<(Expr, usize)>)
    requires
        p <= toks@.len(),
    ensures
        expr_result(r) == spec_comparation(tokens_model(toks@), p as int),
        r matches Some((_, q)) ==> p < q <= toks@.len(),
    decreases toks@.len() - p, 17int,
{
    match parse_addition_at(toks, p) {
        Some((left, q)) => match compare_op_at(toks, q) {
            Some(op) => {
                let _ = at(toks, q, TokenKind::EqualEqual);
                match parse_addition_at(toks, q + 1) {
                    Some((right, e)) => Some((mk_binary(left, op, right), e)),
                    None => Some((left, q)),
                }
            },
            None => Some((left, q)),
        },
        None => None,
    }
}

fn parse_addition_at(toks: &Vec<Token>, p: usize) -> (r: Option<(Expr, usize)>)
    requires
        p <= toks@.len(),
    ensures
        expr_result(r) == spec_addition(tokens_model(toks@), p as int),
        r matches Some((_, q)) ==> p < q <= toks@.len(),
    decreases toks@.len() - p, 16int,
{
    match parse_term_at(toks, p) {
        Some((first, q)) => Some(parse_addition_rest(toks, q, first)),
        None => None,
    }
}

fn parse_addition_rest(toks: &Vec<Token>, p: usize, acc: Expr) -> (r: (Expr, usize))
    requires
        p <= toks@.len(),
    ensures
        (expr_model(r.0), r.1 as int) == spec_addition_rest(tokens_model(toks@), p as int, expr_model(acc)),
        p <= r.1 <= toks@.len(),
    decreases toks@.len() - p, 0int,
{
    match add_op_at(toks, p) {
        Some(op) => {
            let _ = at(toks, p, TokenKind::Plus);
            match parse_term_at(toks, p + 1) {
                Some((rhs, q)) => parse_addition_rest(toks, q, mk_binary(acc, op, rhs)),
                None => (acc, p),
            }
        },
        None => (acc, p),
    }
}

fn parse_term_at(toks: &Vec<Token>, p: usize) -> (r: Option<(Expr, usize)>)
    requires
        p <= toks@.len(),
    ensures
        expr_result(r) == spec_term(tokens_model(toks@), p as int),
        r matches Some((_, q)) ==> p < q <= toks@.len(),
    decreases toks@.len() - p, 15int,
{
    match parse_unary_at(toks, p) {
        Some((first, q)) => Some(parse_term_rest(toks, q, first)),
        None => None,
    }
}

fn parse_term_rest(toks: &Vec<Token>, p: usize, acc: Expr) -> (r: (Expr, usize))
    requires
        p <= toks@.len(),
    ensures
        (expr_model(r.0), r.1 as int) == spec_term_rest(tokens_model(toks@), p as int, expr_model(acc)),
        p <= r.1 <= toks@.len(),
    decreases toks@.len() - p, 0int,
{
    match mul_op_at(toks, p) {
        Some(op) => {
            let _ = at(toks, p, TokenKind::Asterisk);
            match parse_unary_at(toks, p + 1) {
                Some((rhs, q)) => parse_term_rest(toks, q, mk_binary(acc, op, rhs)),
                None => (acc, p),
            }
        },
        None => (acc, p),
    }
}

#[verifier::spinoff_prover]
fn parse_unary_at(toks: &Vec<Token>, p: usize) -> (r: Option<(Expr, usize)>)
    requires
        p <= toks@.len(),
    ensures
        expr_result(r) == spec_unary(tokens_model(toks@), p as int),
        r matches Some((_, q)) ==> p < q <= toks@.len(),
    decreases toks@.len() - p, 14int,
{
    match unary_op_at(toks, p) {
        Some(op) => {
            let _ = at(toks, p, TokenKind::Not);
            match parse_factor_at(toks, p + 1) {
                Some((e, q)) => Some((Expr::UnaryOp { op, expr: Box::new(e) }, q)),
                None => parse_factor_at(toks, p),
            }
        },
        None => parse_factor_at(toks, p),
    }
}

fn parse_factor_at(toks: &Vec<Token>, p: usize) -> (r: Option<(Expr, usize)>)
    requires
        p <= toks@.len(),
    ensures
        expr_result(r) == spec_factor(tokens_model(toks@), p as int),
        r matches Some((_, q)) ==> p < q <= toks@.len(),
    decreases toks@.len() - p, 13int,
{
    match parse_primary_at(toks, p) {
        Some((base, q)) => Some(parse_accessors(toks, q, base)),
        None => None,
    }
}

fn parse_accessors(toks: &Vec<Token>, p: usize, acc: Expr) -> (r: (Expr, usize))
    requires
        p <= toks@.len(),
    ensures
        (expr_model(r.0), r.1 as int) == spec_accessors(tokens_model(toks@), p as int, expr_model(acc)),
        p <= r.1 <= toks@.len(),
    decreases toks@.len() - p, 0int,
{
    if at(toks, p, TokenKind::Dot) {
        match parse_segment_at(toks, p + 1) {
            Some((seg, q)) => {
                return parse_accessors(toks, q, mk_access(acc, seg));
            },
            None => {},
        }
    }
    if at(toks, p, TokenKind::LeftParen) {
        let (args, q) = parse_args(toks, p + 1);
        if at(toks, q, TokenKind::RightParen) {
            return parse_accessors(toks, q + 1, mk_call(acc, args));
        }
    }
    (acc, p)
}

fn parse_args(toks: &Vec<Token>, p: usize) -> (r: (Vec<Expr>, usize))
    requires
        p <= toks@.len(),
    ensures
        (exprs_model(r.0@), r.1 as int) == spec_args(tokens_model(toks@), p as int),
        p <= r.1 <= toks@.len(),
    decreases toks@.len() - p, 22int,
{
    let mut acc = Vec::new();
    match parse_expr_at(toks, p) {
        Some((first, q)) => {
            acc.push(first);
            proof {
                assert(acc@.drop_last() =~= Seq::<Expr>::empty());
                assert(exprs_model(Seq::<Expr>::empty()) =~= Seq::<ExprModel>::empty());
                assert(exprs_model(acc@) =~= seq![expr_model(acc@[0])]);
            }
            let e = parse_args_rest(toks, q, &mut acc);
            (acc, e)
        },
        None => {
            assert(exprs_model(acc@) =~= Seq::<ExprModel>::empty());
            (acc, p)
        },
    }
}

fn parse_args_rest(toks: &Vec<Token>, p: usize, acc: &mut Vec<Expr>) -> (e: usize)
    requires
        p <= toks@.len(),
    ensures
        (exprs_model(final(acc)@), e as int) == spec_args_rest(tokens_model(toks@), p as int, exprs_model(old(acc)@)),
        p <= e <= toks@.len(),
    decreases toks@.len() - p, 0int,
{
    if at(toks, p, TokenKind::Comma) {
        match parse_expr_at(toks, p + 1) {
            Some((x, q)) => {
                let ghost before = acc@;
                acc.push(x);
                proof {
                    assert(acc@.drop_last() =~= before);
                }
                parse_args_rest(toks, q, acc)
            },
            None => p + 1,
        }
    } else {
        p
    }
}

fn parse_init_field(toks: &Vec<Token>, p: usize) -> (r: Option<(ExprInitField, usize)>)
    requires
        p <= toks@.len(),
    ensures
        field_result(r) == spec_init_field(tokens_model(toks@), p as int),
        r matches Some((_, q)) ==> p < q <= toks@.len(),
    decreases toks@.len() - p, 0int,
{
    if at(toks, p, TokenKind::Dot) && toks.len() - p > 2 && at(toks, p + 1, TokenKind::Ident) && at(
        toks,
        p + 2,
        TokenKind::Equal,
    ) {
        match parse_expr_at(toks, p + 3) {
            Some((e, q)) => Some(
                (ExprInitField { name: Ident { name: toks[p + 1].lexeme.clone() }, value: Box::new(e) }, q),
            ),
            None => None,
        }
    } else {
        None
    }
}

fn parse_init_fields(toks: &Vec<Token>, p: usize) -> (r: (Vec<ExprInitField>, usize))
    requires
        p <= toks@.len(),
    ensures
        (fields_model(r.0@), r.1 as int) == spec_init_fields(tokens_model(toks@), p as int),
        p <= r.1 <= toks@.len(),
    decreases toks@.len() - p, 1int,
{
    let mut acc = Vec::new();
    match parse_init_field(toks, p) {
        Some((first, q)) => {
            acc.push(first);
            proof {
                assert(acc@.drop_last() =~= Seq::<ExprInitField>::empty());
                assert(fields_model(Seq::<ExprInitField>::empty()) =~= Seq::<(Seq<char>, ExprModel)>::empty());
            }
            let e = parse_init_fields_rest(toks, q, &mut acc);
            (acc, e)
        },
        None => {
            assert(fields_model(acc@) =~= Seq::<(Seq<char>, ExprModel)>::empty());
            (acc, p)
        },
    }
}

fn parse_init_fields_rest(toks: &Vec<Token>, p: usize, acc: &mut Vec<ExprInitField>) -> (e: usize)
    requires
        p <= toks@.len(),
    ensures
        (fields_model(final(acc)@), e as int) == spec_init_fields_rest(tokens_model(toks@), p as int, fields_model(old(acc)@)),
        p <= e <= toks@.len(),
    decreases toks@.len() - p, 0int,
{
    if at(toks, p, TokenKind::Comma) {
        match parse_init_field(toks, p + 1) {
            Some((f, q)) => {
                let ghost before = acc@;
                acc.push(f);
                proof {
                    assert(acc@.drop_last() =~= before);
                }
                parse_init_fields_rest(toks, q, acc)
            },
            None => p + 1,
        }
    } else {
        p
    }
}

fn parse_paren_at(toks: &Vec<Token>, p: usize) -> (r: Option<(Expr, usize)>)
    requires
        p <= toks@.len(),
    ensures
        expr_result(r) == spec_paren(tokens_model(toks@), p as int),
        r matches Some((_, q)) ==> p < q <= toks@.len(),
    decreases toks@.len() - p, 11int,
{
    if !at(toks, p, TokenKind::LeftParen) {
        return None;
    }
    match parse_expr_at(toks, p + 1) {
        Some((e, q)) => if at(toks, q, TokenKind::RightParen) {
            Some((e, q + 1))
        } else {
            None
        },
        None => None,
    }
}

fn parse_init_or_path_at(toks: &Vec<Token>, p: usize) -> (r: Option<(Expr, usize)>)
    requires
        p <= toks@.len(),
    ensures
        expr_result(r) == spec_init_or_path(tokens_model(toks@), p as int),
        r matches Some((_, q)) ==> p < q <= toks@.len(),
    decreases toks@.len() - p, 11int,
{
    match parse_path_at(toks, p) {
        Some((path, q)) => {
            if at(toks, q, TokenKind::LeftBrace) {
                let (fields, r) = parse_init_fields(toks, q + 1);
                if at(toks, r, TokenKind::RightBrace) {
                    return Some((mk_init(path, fields), r + 1));
                }
            }
            Some((mk_path(path), q))
        },
        None => None,
    }
}

fn parse_primary_at(toks: &Vec<Token>, p: usize) -> (r: Option<(Expr, usize)>)
    requires
        p <= toks@.len(),
    ensures
        expr_result(r) == spec_primary(tokens_model(toks@), p as int),
        r matches Some((_, q)) ==> p < q <= toks@.len(),
    decreases toks@.len() - p, 12int,
{
    if let Some(v) = literal_at_exec(toks, p) {
        let _ = at(toks, p, TokenKind::Integer);
        return Some((mk_value(v), p + 1));
    }
    if at(toks, p, TokenKind::LeftParen) {
        return parse_paren_at(toks, p);
    }
    parse_init_or_path_at(toks, p)
}

/// Parses a `block` at `p`.
pub fn parse_block_at(toks: &Vec<Token>, p: usize) -> (r: Option<(Block, usize)>)
    requires
        p <= toks@.len(),
    ensures
        block_result(r) == spec_block(tokens_model(toks@), p as int),
        r matches Some((_, q)) ==> p < q <= toks@.len(),
    decreases toks@.len() - p, 1int,
{
    if !at(toks, p, TokenKind::LeftBrace) {
        return None;
    }
    let mut start = p + 1;
    if at(toks, p + 1, TokenKind::Semicolon) {
        if parse_stmt_at(toks, p + 2).is_some() {
            start = p + 2;
        }
    }
    let mut stmts = Vec::new();
    let r = match parse_stmt_at(toks, start) {
        Some((s, q)) => {
            stmts.push(s);
            proof {
                assert(stmts@.drop_last() =~= Seq::<Stmt>::empty());
                assert(stmts_model(Seq::<Stmt>::empty()) =~= Seq::<StmtModel>::empty());
                assert(stmts_model(stmts@) =~= seq![stmt_model(stmts@[0])]);
            }
            parse_stmts_rest(toks, q, &mut stmts)
        },
        None => {
            assert(stmts_model(stmts@) =~= Seq::<StmtModel>::empty());
            p + 1
        },
    };
    if at(toks, r, TokenKind::RightBrace) {
        Some((Block { statements: stmts }, r + 1))
    } else {
        None
    }
}

fn parse_stmts_rest(toks: &Vec<Token>, p: usize, acc: &mut Vec<Stmt>) -> (e: usize)
    requires
        p <= toks@.len(),
    ensures
        (stmts_model(final(acc)@), e as int) == spec_stmts_rest(tokens_model(toks@), p as int, stmts_model(old(acc)@)),
        p <= e <= toks@.len(),
    decreases toks@.len() - p, 0int,
{
    if at(toks, p, TokenKind::Semicolon) {
        match parse_stmt_at(toks, p + 1) {
            Some((s, q)) => {
                let ghost before = acc@;
                acc.push(s);
                proof {
                    assert(acc@.drop_last() =~= before);
                }
                parse_stmts_rest(toks, q, acc)
            },
            None => p,
        }
    } else {
        p
    }
}

/// Parses a `stmt` at `p`.
pub fn parse_stmt_at(toks: &Vec<Token>, p: usize) -> (r: Option<(Stmt, usize)>)
    requires
        p <= toks@.len(),
    ensures
        stmt_result(r) == spec_stmt(tokens_model(toks@), p as int),
        r matches Some((_, q)) ==> p < q <= toks@.len(),
    decreases toks@.len() - p, 23int,
{
    if let Some(binding) = binding_at(toks, p) {
        let _ = at(toks, p, TokenKind::Let);
        if at(toks, p + 1, TokenKind::Ident) {
            let name = Ident { name: toks[p + 1].lexeme.clone() };
            let q = p + 2;
            let mut var_type: Option<crate::ast::Type> = None;
            let mut r = q;
            if at(toks, q, TokenKind::Colon) {
                if let Some((ty, r2)) = parse_type_at(toks, q + 1) {
                    var_type = Some(ty);
                    r = r2;
                }
            }
            let mut initializer: Option<Box<Expr>> = None;
            let mut s = r;
            if at(toks, r, TokenKind::Equal) {
                if let Some((e, s2)) = parse_expr_at(toks, r + 1) {
                    initializer = Some(Box::new(e));
                    s = s2;
                }
            }
            return Some((Stmt::Local(Local { binding, name, var_type, initializer }), s));
        }
    }
    if at(toks, p, TokenKind::Defer) {
        if let Some((e, q)) = parse_expr_at(toks, p + 1) {
            return Some((Stmt::Defer(e), q));
        }
    }
    if at(toks, p, TokenKind::Return) {
        return match parse_expr_at(toks, p + 1) {
            Some((e, q)) => Some((Stmt::Return(Some(e)), q)),
            None => Some((Stmt::Return(None), p + 1)),
        };
    }
    if at(toks, p, TokenKind::Break) {
        return Some((Stmt::Break, p + 1));
    }
    if at(toks, p, TokenKind::Continue) {
        return Some((Stmt::Continue, p + 1));
    }
    match parse_expr_at(toks, p) {
        Some((e, q)) => Some((Stmt::Expr(e), q)),
        None => None,
    }
}

/// Additive operators associate to the left: three terms joined by `+` or
/// `-`, with no further additive operator after the third, parse as
/// `(a o1 b) o2 c`.
pub proof fn law_addition_left_assoc(
    t: Seq<TokenModel>,
    p: int,
    a: ExprModel,
    q1: int,
    b: ExprModel,
    q2: int,
    c: ExprModel,
    q3: int,
)
    requires
        spec_term(t, p) == Some((a, q1)),
        add_op(kind_at(t, q1)) is Some,
        spec_term(t, q1 + 1) == Some((b, q2)),
        add_op(kind_at(t, q2)) is Some,
        spec_term(t, q2 + 1) == Some((c, q3)),
        add_op(kind_at(t, q3)) is None,
        p < q1 < q2 < q3 <= t.len(),
    ensures
        spec_addition(t, p) == Some((
            binary(binary(a, add_op(kind_at(t, q1)).unwrap(), b), add_op(kind_at(t, q2)).unwrap(), c),
            q3,
        )),
{
    let o1 = add_op(kind_at(t, q1)).unwrap();
    let o2 = add_op(kind_at(t, q2)).unwrap();
    assert(spec_addition_rest(t, q3, binary(binary(a, o1, b), o2, c)) == (binary(binary(a, o1, b), o2, c), q3));
    assert(spec_addition_rest(t, q2, binary(a, o1, b)) == (binary(binary(a, o1, b), o2, c), q3));
    assert(spec_addition_rest(t, q1, a) == (binary(binary(a, o1, b), o2, c), q3));
}

/// Multiplicative operators associate to the left: three unary operands
/// joined by `*` or `/`, with no further multiplicative operator after the
/// third, parse as `(a o1 b) o2 c`.
pub proof fn law_term_left_assoc(
    t: Seq<TokenModel>,
    p: int,
    a: ExprModel,
    q1: int,
    b: ExprModel,
    q2: int,
    c: ExprModel,
    q3: int,
)
    requires
        spec_unary(t, p) == Some((a, q1)),
        mul_op(kind_at(t, q1)) is Some,
        spec_unary(t, q1 + 1) == Some((b, q2)),
        mul_op(kind_at(t, q2)) is Some,
        spec_unary(t, q2 + 1) == Some((c, q3)),
        mul_op(kind_at(t, q3)) is None,
        p < q1 < q2 < q3 <= t.len(),
    ensures
        spec_term(t, p) == Some((
            binary(binary(a, mul_op(kind_at(t, q1)).unwrap(), b), mul_op(kind_at(t, q2)).unwrap(), c),
            q3,
        )),
{
    let o1 = mul_op(kind_at(t, q1)).unwrap();
    let o2 = mul_op(kind_at(t, q2)).unwrap();
    assert(spec_term_rest(t, q3, binary(binary(a, o1, b), o2, c)) == (binary(binary(a, o1, b), o2, c), q3));
    assert(spec_term_rest(t, q2, binary(a, o1, b)) == (binary(binary(a, o1, b), o2, c), q3));
    assert(spec_term_rest(t, q1, a) == (binary(binary(a, o1, b), o2, c), q3));
}

/// The integer literal at `i`, as an expression.
pub open spec fn integer_operand(t: Seq<TokenModel>, i: int) -> ExprModel {
    ExprModel::Value(ValueModel::Integer(t[i].lexeme))
}

/// An integer literal at `i` followed by a binary operator or by the end
/// is a `unary` that ends after the literal.
proof fn lemma_integer_unary(t: Seq<TokenModel>, i: int)
    requires
        0 <= i < t.len(),
        t[i].kind == TokenKind::Integer,
        !is_at(t, i + 1, TokenKind::Dot),
        !is_at(t, i + 1, TokenKind::LeftParen),
    ensures
        spec_unary(t, i) == Some((integer_operand(t, i), i + 1)),
{
    assert(spec_primary(t, i) == Some((integer_operand(t, i), i + 1)));
    assert(spec_accessors(t, i + 1, integer_operand(t, i)) == (integer_operand(t, i), i + 1));
}

/// Whether `t` ends at `p`: no token there, or only the end marker.
pub open spec fn ends_at(t: Seq<TokenModel>, p: int) -> bool {
    kind_at(t, p) is None || kind_at(t, p) == Some(TokenKind::EOF)
}

/// A whole expression `a o1 b o2 c` of three integer literals, whose two
/// operators are of one level (both additive or both multiplicative), parses
/// as `(a o1 b) o2 c`.
pub proof fn law_binary_chain_left_assoc(t: Seq<TokenModel>)
    requires
        t.len() >= 5,
        t[0].kind == TokenKind::Integer,
        t[2].kind == TokenKind::Integer,
        t[4].kind == TokenKind::Integer,
        (add_op(kind_at(t, 1)) is Some && add_op(kind_at(t, 3)) is Some) || (mul_op(kind_at(t, 1)) is Some
            && mul_op(kind_at(t, 3)) is Some),
        ends_at(t, 5),
    ensures
        add_op(kind_at(t, 1)) is Some ==> spec_expr(t, 0) == Some((
            binary(
                binary(integer_operand(t, 0), add_op(kind_at(t, 1)).unwrap(), integer_operand(t, 2)),
                add_op(kind_at(t, 3)).unwrap(),
                integer_operand(t, 4),
            ),
            5int,
        )),
        mul_op(kind_at(t, 1)) is Some ==> spec_expr(t, 0) == Some((
            binary(
                binary(integer_operand(t, 0), mul_op(kind_at(t, 1)).unwrap(), integer_operand(t, 2)),
                mul_op(kind_at(t, 3)).unwrap(),
                integer_operand(t, 4),
            ),
            5int,
        )),
{
    lemma_integer_unary(t, 0);
    lemma_integer_unary(t, 2);
    lemma_integer_unary(t, 4);
    let e = if add_op(kind_at(t, 1)) is Some {
        assert(spec_term_rest(t, 1, integer_operand(t, 0)) == (integer_operand(t, 0), 1int));
        assert(spec_term_rest(t, 3, integer_operand(t, 2)) == (integer_operand(t, 2), 3int));
        assert(spec_term_rest(t, 5, integer_operand(t, 4)) == (integer_operand(t, 4), 5int));
        law_addition_left_assoc(
            t, 0, integer_operand(t, 0), 1, integer_operand(t, 2), 3, integer_operand(t, 4), 5,
        );
        binary(
            binary(integer_operand(t, 0), add_op(kind_at(t, 1)).unwrap(), integer_operand(t, 2)),
            add_op(kind_at(t, 3)).unwrap(),
            integer_operand(t, 4),
        )
    } else {
        law_term_left_assoc(
            t, 0, integer_operand(t, 0), 1, integer_operand(t, 2), 3, integer_operand(t, 4), 5,
        );
        let e = binary(
            binary(integer_operand(t, 0), mul_op(kind_at(t, 1)).unwrap(), integer_operand(t, 2)),
            mul_op(kind_at(t, 3)).unwrap(),
            integer_operand(t, 4),
        );
        assert(spec_addition_rest(t, 5, e) == (e, 5int));
        e
    };
    assert(spec_addition(t, 0) == Some((e, 5int)));
    assert(spec_comparation(t, 0) == Some((e, 5int)));
    assert(spec_logic_and_rest(t, 5, e) == (e, 5int));
    assert(spec_logic_and(t, 0) == Some((e, 5int)));
    assert(spec_logic_or_rest(t, 5, e) == (e, 5int));
    assert(spec_logic_or(t, 0) == Some((e, 5int)));
    assert(spec_assign(t, 0) == Some((e, 5int)));
}

} // verus!
