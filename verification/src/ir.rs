//! The lowered form of a unit that code generation prints.
use vstd::prelude::*;

use crate::types::{DefID, ScopeID, TypeID};

verus! {

#[derive(Debug)]
pub struct UnitIR {
    scope: ScopeID,
    types: Vec<GenType>,
    fns: Vec<FnIR>,
}

impl UnitIR {
    /// The unit's scope.
    pub closed spec fn spec_scope(&self) -> ScopeID {
        self.scope
    }

    /// The lowered functions, in the order they were added.
    pub closed spec fn spec_fns(&self) -> Seq<FnIR> {
        self.fns@
    }

    /// The lowered types.
    pub closed spec fn spec_types(&self) -> Seq<GenType> {
        self.types@
    }

    pub fn new(scope: ScopeID) -> (r: Self)
        ensures
            r.spec_scope() == scope,
            r.spec_fns().len() == 0,
            r.spec_types().len() == 0,
    {
        Self { scope, types: Vec::new(), fns: Vec::new() }
    }

    pub fn add_fn(&mut self, fnir: FnIR)
        ensures
            final(self).spec_fns() == old(self).spec_fns().push(fnir),
            final(self).spec_types() == old(self).spec_types(),
            final(self).spec_scope() == old(self).spec_scope(),
    {
        self.fns.push(fnir);
    }

    pub fn fns(&self) -> (r: &[FnIR])
        ensures
            r@ == self.spec_fns(),
    {
        self.fns.as_slice()
    }

    pub fn types(&self) -> (r: &[GenType])
        ensures
            r@ == self.spec_types(),
    {
        self.types.as_slice()
    }
}

#[derive(Debug)]
pub struct FnIR {
    pub name: String,
    pub defid: DefID,
    pub scope: ScopeID,
    pub typeid: TypeID,
    pub body: Vec<StmtIR>,
}

/// The lowered statements of a block.
#[derive(Debug)]
pub struct BlockIR {
    pub body: Vec<StmtIR>,
}

#[derive(Debug)]
pub enum StmtIR {
    Expr(ExprIR),
    /// A local of the given type.
    Local(String, TypeID),
    /// `label = expr`
    Assign(String, ExprIR),
}

#[derive(Debug)]
pub enum ExprIR {
    /// A value, as it is printed.
    Value(String),
    /// `left op right`, with the operator as it is printed.
    BinaryOp { left: Box<ExprIR>, op: String, right: Box<ExprIR> },
}

#[derive(Debug)]
pub struct GenType {}

} // verus!
