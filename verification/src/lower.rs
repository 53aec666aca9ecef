//! Lowering checked functions to the form that code generation prints.
use vstd::prelude::*;

use crate::ast::{operator_spelling, Expr, ExprValue, Operator, Stmt};
use crate::ir::{BlockIR, ExprIR, FnIR, StmtIR, UnitIR};
use crate::text::{owned, push_decimal};
use crate::typed_ast;
use crate::typed_ast::TypedUnit;
use crate::types::{ScopeID, TypeID};

verus! {

broadcast use {vstd::seq::group_seq_axioms, vstd::std_specs::vec::group_vec_axioms};

/// The printed form of a value.
pub open spec fn value_text(v: ExprValue) -> Seq<char> {
    match v {
        ExprValue::Bool(b) => if b {
            "true"@
        } else {
            "false"@
        },
        ExprValue::Integer(i) => i@,
        ExprValue::Float(f) => f@,
        ExprValue::String(s) => s@,
    }
}

/// The printed form of an arithmetic operator; other operators have none.
pub open spec fn op_text(op: Operator) -> Option<Seq<char>> {
    match op {
        Operator::Add => Some("+"@),
        Operator::Sub => Some("-"@),
        Operator::Mul => Some("*"@),
        Operator::Div => Some("/"@),
        _ => None,
    }
}

/// Expressions that the lowering handles: values, and the arithmetic
/// operators `+ - * /` applied to such expressions.
pub open spec fn expr_lowerable(e: Expr) -> bool
    decreases e,
{
    match e {
        Expr::Value(_) => true,
        Expr::BinaryOp { left, op, right } => op_text(op) is Some && expr_lowerable(*left) && expr_lowerable(*right),
        _ => false,
    }
}

/// `l` is the lowered form of the expression `e`: a value becomes its
/// printed text, an operation the operation of the lowered operands.
pub open spec fn lowers_expr(e: Expr, l: ExprIR) -> bool
    decreases e,
{
    match (e, l) {
        (Expr::Value(v), ExprIR::Value(t)) => t@ == value_text(v),
        (Expr::BinaryOp { left, op, right }, ExprIR::BinaryOp { left: l1, op: o, right: r1 }) => op_text(op) == Some(o@)
            && lowers_expr(*left, *l1) && lowers_expr(*right, *r1),
        _ => false,
    }
}

/// C writes the arithmetic operators as the source does, so a lowered
/// operation carries the source spelling of its operator, and its operands
/// are the lowered operands: `5 - 3` lowers to `5`, `-`, `3`.
pub proof fn law_lowering_keeps_operators(e: Expr, l: ExprIR)
    requires
        lowers_expr(e, l),
    ensures
        e matches Expr::BinaryOp { left, op, right } ==> (l matches ExprIR::BinaryOp { left: l1, op: o, right: r1 }
            && o@ == operator_spelling(op) && lowers_expr(*left, *l1) && lowers_expr(*right, *r1)),
        e matches Expr::Value(v) ==> (l matches ExprIR::Value(t) && t@ == value_text(v)),
{
    reveal_strlit("+");
    reveal_strlit("-");
    reveal_strlit("*");
    reveal_strlit("/");
    assert("+"@ =~= seq!['+']);
    assert("-"@ =~= seq!['-']);
    assert("*"@ =~= seq!['*']);
    assert("/"@ =~= seq!['/']);
}

/// A lowered literal is written as the source wrote it: the value read
/// from a literal token prints back as that token's text (`true` and
/// `false` included).
pub proof fn law_lowered_literals_keep_their_text(t: Seq<crate::token::TokenModel>, p: int, v: ExprValue)
    requires
        crate::parse_expr::literal_at(t, p) == Some(crate::ast::value_model(v)),
        crate::parse_type::kind_at(t, p) == Some(crate::token::TokenKind::Bool) ==> (t[p].lexeme == "true"@ || t[p].lexeme
            == "false"@),
    ensures
        value_text(v) == t[p].lexeme,
{
    reveal_strlit("true");
    reveal_strlit("false");
}

/// Statements that the lowering handles: expression statements whose
/// expression it handles.
pub open spec fn lowerable(s: Stmt) -> bool {
    s matches Stmt::Expr(e) && expr_lowerable(e)
}

/// The lowered statement `l` is the expression statement `s`.
pub open spec fn lowers_to(s: Stmt, l: StmtIR) -> bool {
    s matches Stmt::Expr(e) && (l matches StmtIR::Expr(x) && lowers_expr(e, x))
}

/// Every function body of the unit can be lowered.
pub open spec fn unit_lowerable(decls: Seq<typed_ast::FnDecl>) -> bool {
    forall|i: int, k: int|
        0 <= i < decls.len() && 0 <= k < decls[i].block.statements@.len() ==> lowerable(
            #[trigger] decls[i].block.statements@[k],
        )
}

pub struct UnitLowerer<'a> {
    pub scope: ScopeID,
    pub unit: &'a TypedUnit,
    pub ir: UnitIR,
}

impl<'a> UnitLowerer<'a> {
    pub fn new(scope: ScopeID, unit: &'a TypedUnit) -> (r: Self)
        ensures
            r.scope == scope,
            r.unit == unit,
            r.ir.spec_scope() == scope,
            r.ir.spec_fns().len() == 0,
            r.ir.spec_types().len() == 0,
    {
        Self { scope, unit, ir: UnitIR::new(scope) }
    }

    /// Lowers every function of the unit, in order.
    pub fn lower_unit(self) -> (r: Result<UnitIR, String>)
        requires
            unit_lowerable(self.unit.decls@),
        ensures
            r matches Ok(ir) && ir.spec_fns().len() == self.ir.spec_fns().len() + self.unit.decls@.len()
                && ir.spec_scope() == self.ir.spec_scope() && ir.spec_types() == self.ir.spec_types(),
            r matches Ok(ir) ==> forall|i: int| 0 <= i < self.unit.decls@.len() ==> fn_lowered(
                #[trigger] self.unit.decls@[i],
                ir.spec_fns()[self.ir.spec_fns().len() + i],
            ),
    {
        let mut ir = self.ir;
        let ghost n0 = ir.spec_fns().len();
        let ghost scope0 = ir.spec_scope();
        let mut i: usize = 0;
        while i < self.unit.decls.len()
            invariant
                unit_lowerable(self.unit.decls@),
                n0 == self.ir.spec_fns().len(),
                scope0 == self.ir.spec_scope(),
                ir.spec_scope() == scope0,
                ir.spec_types() == self.ir.spec_types(),
                i <= self.unit.decls@.len(),
                ir.spec_fns().len() == n0 + i,
                forall|j: int| 0 <= j < i ==> fn_lowered(#[trigger] self.unit.decls@[j], ir.spec_fns()[n0 + j]),
            decreases self.unit.decls.len() - i,
        {
            let decl = &self.unit.decls[i];
            let fnir = FrameLowerer::new(self.scope, decl, 0).lower_fn()?;
            let ghost before = ir.spec_fns();
            ir.add_fn(fnir);
            proof {
                assert forall|j: int| 0 <= j < i + 1 implies fn_lowered(#[trigger] self.unit.decls@[j], ir.spec_fns()[n0 + j]) by {
                    if j < i {
                        assert(ir.spec_fns()[n0 + j] == before[n0 + j]);
                    }
                }
            }
            i = i + 1;
        }
        Ok(ir)
    }
}

/// `f` is the lowered form of the checked function `d`.
pub open spec fn fn_lowered(d: typed_ast::FnDecl, f: FnIR) -> bool {
    &&& f.name@ == d.signature.name.name@
    &&& f.defid == d.defid
    &&& f.scope == d.scopeid
    &&& f.typeid == d.typeid
    &&& f.body@.len() == d.block.statements@.len()
    &&& forall|k: int| 0 <= k < f.body@.len() ==> lowers_to(d.block.statements@[k], #[trigger] f.body@[k])
}

pub struct FrameLowerer<'a> {
    pub scope: ScopeID,
    pub decl: &'a typed_ast::FnDecl,
    pub body: Vec<StmtIR>,
    pub temps: u32,
}

impl<'a> FrameLowerer<'a> {
    pub fn new(scope: ScopeID, decl: &'a typed_ast::FnDecl, temps: u32) -> (r: Self)
        ensures
            r.scope == scope,
            r.decl == decl,
            r.body@.len() == 0,
            r.temps == temps,
    {
        Self { scope, decl, body: Vec::new(), temps }
    }

    /// Declares a fresh temporary `tmp<n>` of the given type and returns
    /// its name.
    pub fn make_temp(&mut self, typeid: TypeID) -> (r: String)
        requires
            old(self).temps < u32::MAX,
        ensures
            r@ == "tmp"@ + crate::text::decimal(old(self).temps as nat),
            final(self).temps == old(self).temps + 1,
            final(self).body@.len() == old(self).body@.len() + 1,
            forall|k: int| 0 <= k < old(self).body@.len() ==> #[trigger] final(self).body@[k] == old(self).body@[k],
            final(self).body@.last() matches StmtIR::Local(name, t) && name@ == r@ && t == typeid,
            final(self).decl == old(self).decl,
            final(self).scope == old(self).scope,
    {
        let mut temp_name = owned("tmp");
        push_decimal(&mut temp_name, self.temps as usize);
        self.temps = self.temps + 1;
        let copy = temp_name.clone();
        self.body.push(StmtIR::Local(copy, typeid));
        temp_name
    }

    /// Lowers the statements of the function's block, after what the
    /// frame already holds.
    pub fn lower_block(self) -> (r: Result<BlockIR, String>)
        requires
            forall|k: int| 0 <= k < self.decl.block.statements@.len() ==> lowerable(#[trigger] self.decl.block.statements@[k]),
        ensures
            r matches Ok(b) && b.body@.len() == self.body@.len() + self.decl.block.statements@.len()
                && (forall|k: int| 0 <= k < self.decl.block.statements@.len() ==> lowers_to(
                self.decl.block.statements@[k],
                #[trigger] b.body@[self.body@.len() + k],
            )),
    {
        let decl = self.decl;
        let mut body = self.body;
        lower_stmts(decl, &mut body);
        Ok(BlockIR { body })
    }

    /// Lowers the function: its name, definition, scope, type and body.
    pub fn lower_fn(self) -> (r: Result<FnIR, String>)
        requires
            self.body@.len() == 0,
            forall|k: int| 0 <= k < self.decl.block.statements@.len() ==> lowerable(#[trigger] self.decl.block.statements@[k]),
        ensures
            r matches Ok(f) && fn_lowered(*self.decl, f),
    {
        let decl = self.decl;
        let mut body = self.body;
        lower_stmts(decl, &mut body);
        proof {
            assert forall|k: int| 0 <= k < body@.len() implies lowers_to(decl.block.statements@[k], #[trigger] body@[k]) by {
                assert(body@[0 + k] == body@[k]);
            }
        }
        Ok(FnIR {
            name: decl.signature.name.string(),
            defid: decl.defid,
            scope: decl.scopeid,
            typeid: decl.typeid,
            body,
        })
    }
}

fn lower_value(v: &ExprValue) -> (r: String)
    ensures
        r@ == value_text(*v),
{
    match v {
        ExprValue::Bool(b) => if *b {
            owned("true")
        } else {
            owned("false")
        },
        ExprValue::Integer(i) => i.clone(),
        ExprValue::Float(f) => f.clone(),
        ExprValue::String(s) => s.clone(),
    }
}

/// Lowers an expression that `expr_lowerable` accepts.
fn lower_expr(e: &Expr) -> (r: ExprIR)
    requires
        expr_lowerable(*e),
    ensures
        lowers_expr(*e, r),
    decreases e,
{
    match e {
        Expr::Value(v) => ExprIR::Value(lower_value(v)),
        Expr::BinaryOp { left, op, right } => {
            let l = lower_expr(left);
            let r = lower_expr(right);
            let o = match op {
                Operator::Add => owned("+"),
                Operator::Sub => owned("-"),
                Operator::Mul => owned("*"),
                Operator::Div => owned("/"),
                _ => {
                    proof {
                        assert(op_text(*op) is Some);
                    }
                    String::new()
                },
            };
            proof {
                reveal_strlit("+");
                reveal_strlit("-");
                reveal_strlit("*");
                reveal_strlit("/");
            }
            ExprIR::BinaryOp { left: Box::new(l), op: o, right: Box::new(r) }
        },
        _ => {
            proof {
                assert(expr_lowerable(*e));
            }
            ExprIR::Value(String::new())
        },
    }
}

fn lower_stmts(decl: &typed_ast::FnDecl, body: &mut Vec<StmtIR>)
    requires
        forall|k: int| 0 <= k < decl.block.statements@.len() ==> lowerable(#[trigger] decl.block.statements@[k]),
    ensures
        final(body)@.len() == old(body)@.len() + decl.block.statements@.len(),
        forall|k: int| 0 <= k < old(body)@.len() ==> #[trigger] final(body)@[k] == old(body)@[k],
        forall|k: int| 0 <= k < decl.block.statements@.len() ==> lowers_to(
            decl.block.statements@[k],
            #[trigger] final(body)@[old(body)@.len() + k],
        ),
{
    let ghost start = body@;
    let stmts = &decl.block.statements;
    let mut i: usize = 0;
    while i < stmts.len()
        invariant
            stmts == &decl.block.statements,
            forall|k: int| 0 <= k < stmts@.len() ==> lowerable(#[trigger] stmts@[k]),
            i <= stmts@.len(),
            body@.len() == start.len() + i,
            forall|k: int| 0 <= k < start.len() ==> #[trigger] body@[k] == start[k],
            forall|k: int| 0 <= k < i ==> lowers_to(stmts@[k], #[trigger] body@[start.len() + k]),
        decreases stmts.len() - i,
    {
        let lowered = match &stmts[i] {
            Stmt::Expr(e) => StmtIR::Expr(lower_expr(e)),
            _ => {
                proof {
                    assert(lowerable(stmts@[i as int]));
                }
                StmtIR::Expr(ExprIR::Value(String::new()))
            },
        };
        let ghost before = body@;
        body.push(lowered);
        proof {
            assert forall|k: int| 0 <= k < i + 1 implies lowers_to(stmts@[k], #[trigger] body@[start.len() + k]) by {
                if k < i {
                    assert(body@[start.len() + k] == before[start.len() + k]);
                }
            }
        }
        i = i + 1;
    }
}

/// Lowers every checked function of `unit`.
pub fn lower(scope: ScopeID, unit: &TypedUnit) -> (r: Result<UnitIR, String>)
    requires
        unit_lowerable(unit.decls@),
    ensures
        r matches Ok(ir) && ir.spec_fns().len() == unit.decls@.len() && ir.spec_scope() == scope && ir.spec_types().len() == 0,
        r matches Ok(ir) ==> forall|i: int| 0 <= i < unit.decls@.len() ==> fn_lowered(#[trigger] unit.decls@[i], ir.spec_fns()[i]),
{
    let lowerer = UnitLowerer::new(scope, unit);
    lowerer.lower_unit()
}

} // verus!
