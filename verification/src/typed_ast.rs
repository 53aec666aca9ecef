//! The tree that checking produces: each checked function with the scope of
//! its body, its type and the definitions of its parameters. The nodes
//! below a function are those of the syntax tree.
use vstd::prelude::*;

pub use crate::ast::{
    AssignKind, Binding, Block, EnumValue, Expr, ExprAccess, ExprAssign, ExprCall, ExprIf,
    ExprInit, ExprInitField, ExprValue, GenericParam, GenericParams, Ident, Local, Operator,
    PathExpr, Segment, Stmt, StructField, TraitMethod, Type,
};
use crate::types::{DefID, ScopeID, TypeID};

verus! {

#[derive(Debug, PartialEq)]
pub struct TypedUnit {
    pub decls: Vec<FnDecl>,
}

#[derive(Debug, PartialEq)]
pub struct FnDecl {
    pub signature: FnSignature,
    /// The function's definition in the unit's scope.
    pub defid: DefID,
    pub block: Block,
    pub scopeid: ScopeID,
    pub typeid: TypeID,
}

#[derive(Debug, PartialEq)]
pub struct FnSignature {
    pub name: Ident,
    /// The definitions of the parameters in the body's scope, in order.
    pub params: Vec<DefID>,
}

} // verus!
