//! Type checking of function bodies: every expression gets a type id, every
//! local variable a definition, and the first rule that a body breaks is
//! reported as an error.
use vstd::prelude::*;

use crate::ast::{
    operator_name,
    Block, Decl, Expr, ExprAccess, ExprAssign, ExprCall, ExprIf, ExprInit, ExprInitField, ExprValue,
    FnDecl, Ident, Operator, PathExpr, Segment, Stmt, Unit,
};
use crate::context::{coercible, components, def_type_ids, paths_nonempty, spec_type_to_id, Context};
use crate::defkinds::field_type;
use crate::symbols::{
    already_defined_message, invalid_parent_message, invalid_scope_message, DefKind, Definition, TableView,
};
use crate::text::{decimal, owned, push_decimal};
use crate::typed_ast;
use crate::typed_ast::TypedUnit;
use crate::types::{DefID, ScopeID, TypeDef, TypeID, TypeShape};
use crate::typing::{
    params_state, var_def,
    binop_type, with_types, CheckEnv, CheckState,
    ck_access, ck_args, ck_assign, ck_binop, ck_block, ck_block_value, ck_call, ck_decls, ck_expr,
    ck_fields, ck_fn, ck_if, ck_init, ck_params, ck_stmt, ck_stmts, ck_unop, env_of,
    fn_signature_in, lemma_args_stop, lemma_block_value_unfold, lemma_call_unfold, lemma_decls_stop,
    lemma_fields_stop, lemma_init_unfold, lemma_params_stop, lemma_stmts_stop, member_type_in,
    named_struct_in, next_resolved_in, path_resolved_in, push_in, state_of, struct_fields_in,
    walk_resolved_in,
};

verus! {

broadcast use {vstd::seq::group_seq_axioms, vstd::std_specs::vec::group_vec_axioms};

// ----- sizes, for termination -----
pub open spec fn expr_size(e: Expr) -> nat
    decreases e,
{
    match e {
        Expr::Value(_) => 1,
        Expr::BinaryOp { left, right, .. } => 1 + expr_size(*left) + expr_size(*right),
        Expr::UnaryOp { expr, .. } => 1 + expr_size(*expr),
        Expr::Call(c) => 1 + expr_size(*c.expr) + exprs_size(c.args@),
        Expr::Access(a) => 1 + expr_size(*a.expr),
        Expr::Path(_) => 1,
        Expr::Init(i) => 1 + fields_size(i.fields@),
        Expr::Assign(a) => 1 + expr_size(*a.left) + expr_size(*a.right),
        Expr::If(i) => 1 + expr_size(*i.condition) + stmts_size(i.then_branch.statements@) + match i.else_branch {
            Some(b) => stmts_size(b.statements@),
            None => 0,
        },
        Expr::Loop(b) => 1 + stmts_size(b.statements@),
    }
}

pub open spec fn exprs_size(s: Seq<Expr>) -> nat
    decreases s,
{
    if s.len() == 0 {
        0
    } else {
        exprs_size(s.drop_last()) + expr_size(s.last()) + 1
    }
}

pub open spec fn fields_size(s: Seq<ExprInitField>) -> nat
    decreases s,
{
    if s.len() == 0 {
        0
    } else {
        fields_size(s.drop_last()) + expr_size(*s.last().value) + 1
    }
}

pub open spec fn stmt_size(s: Stmt) -> nat
    decreases s,
{
    match s {
        Stmt::Expr(e) => 1 + expr_size(e),
        Stmt::Defer(e) => 1 + expr_size(e),
        Stmt::Return(Some(e)) => 1 + expr_size(e),
        Stmt::Local(l) => 1 + match l.initializer {
            Some(e) => expr_size(*e),
            None => 0,
        },
        _ => 1,
    }
}

pub open spec fn stmts_size(s: Seq<Stmt>) -> nat
    decreases s,
{
    if s.len() == 0 {
        0
    } else {
        stmts_size(s.drop_last()) + stmt_size(s.last()) + 1
    }
}

pub proof fn lemma_exprs_size(s: Seq<Expr>, i: int)
    requires
        0 <= i < s.len(),
    ensures
        expr_size(s[i]) < exprs_size(s),
    decreases s.len(),
{
    if i < s.len() - 1 {
        lemma_exprs_size(s.drop_last(), i);
    }
}

pub proof fn lemma_fields_size(s: Seq<ExprInitField>, i: int)
    requires
        0 <= i < s.len(),
    ensures
        expr_size(*s[i].value) < fields_size(s),
    decreases s.len(),
{
    if i < s.len() - 1 {
        lemma_fields_size(s.drop_last(), i);
    }
}

pub proof fn lemma_stmts_size(s: Seq<Stmt>, i: int)
    requires
        0 <= i < s.len(),
    ensures
        stmt_size(s[i]) < stmts_size(s),
    decreases s.len(),
{
    if i < s.len() - 1 {
        lemma_stmts_size(s.drop_last(), i);
    }
}

// ----- what the checker can be given -----
/// Operators that the parser puts between two operands.
pub open spec fn is_binary(op: Operator) -> bool {
    !(op is Deref || op is Neg || op is Ref || op is Not)
}

/// Operators that the parser puts before one operand.
pub open spec fn is_unary(op: Operator) -> bool {
    op is Deref || op is Neg || op is Ref || op is Not
}

/// Expressions the checker handles: no `loop`, operators where the parser
/// puts them, every local with a written type, every path in a type with a
/// segment.
pub open spec fn checkable_expr(e: Expr) -> bool
    decreases e,
{
    match e {
        Expr::Value(_) => true,
        Expr::BinaryOp { left, op, right } => is_binary(op) && checkable_expr(*left) && checkable_expr(*right),
        Expr::UnaryOp { op, expr } => is_unary(op) && checkable_expr(*expr),
        Expr::Call(c) => checkable_expr(*c.expr) && checkable_exprs(c.args@),
        Expr::Access(a) => checkable_expr(*a.expr),
        Expr::Path(_) => true,
        Expr::Init(i) => checkable_fields(i.fields@),
        Expr::Assign(a) => checkable_expr(*a.left) && checkable_expr(*a.right),
        Expr::If(i) => checkable_expr(*i.condition) && checkable_stmts(i.then_branch.statements@) && match i.else_branch {
            Some(b) => checkable_stmts(b.statements@),
            None => true,
        },
        Expr::Loop(_) => false,
    }
}

pub open spec fn checkable_exprs(s: Seq<Expr>) -> bool
    decreases s,
{
    s.len() == 0 || (checkable_exprs(s.drop_last()) && checkable_expr(s.last()))
}

pub open spec fn checkable_fields(s: Seq<ExprInitField>) -> bool
    decreases s,
{
    s.len() == 0 || (checkable_fields(s.drop_last()) && checkable_expr(*s.last().value))
}

pub open spec fn checkable_stmt(s: Stmt) -> bool
    decreases s,
{
    match s {
        Stmt::Expr(e) => checkable_expr(e),
        Stmt::Defer(e) => checkable_expr(e),
        Stmt::Return(Some(e)) => checkable_expr(e),
        Stmt::Local(l) => match l.var_type {
            Some(t) => paths_nonempty(t) && match l.initializer {
                Some(e) => checkable_expr(*e),
                None => true,
            },
            None => false,
        },
        _ => true,
    }
}

pub open spec fn checkable_stmts(s: Seq<Stmt>) -> bool
    decreases s,
{
    s.len() == 0 || (checkable_stmts(s.drop_last()) && checkable_stmt(s.last()))
}

proof fn lemma_checkable_exprs(s: Seq<Expr>, i: int)
    requires
        checkable_exprs(s),
        0 <= i < s.len(),
    ensures
        checkable_expr(s[i]),
    decreases s.len(),
{
    if i < s.len() - 1 {
        lemma_checkable_exprs(s.drop_last(), i);
    }
}

proof fn lemma_checkable_fields(s: Seq<ExprInitField>, i: int)
    requires
        checkable_fields(s),
        0 <= i < s.len(),
    ensures
        checkable_expr(*s[i].value),
    decreases s.len(),
{
    if i < s.len() - 1 {
        lemma_checkable_fields(s.drop_last(), i);
    }
}

proof fn lemma_checkable_stmts(s: Seq<Stmt>, i: int)
    requires
        checkable_stmts(s),
        0 <= i < s.len(),
    ensures
        checkable_stmt(s[i]),
    decreases s.len(),
{
    if i < s.len() - 1 {
        lemma_checkable_stmts(s.drop_last(), i);
    }
}

// ----- how checking changes the context -----
/// `b` is `a` after more checking: everything `a` stored is still there,
/// unchanged, and `b` is well formed.
pub open spec fn extends(a: Context, b: Context) -> bool {
    &&& b.wf()
    &&& b.interner@.len() >= a.interner@.len()
    &&& forall|i: int| 0 <= i < a.interner@.len() ==> #[trigger] b.interner@[i] == a.interner@[i]
    &&& b.table@.defs.len() >= a.table@.defs.len()
    &&& forall|i: int| 0 <= i < a.table@.defs.len() ==> #[trigger] b.table@.defs[i] == a.table@.defs[i]
    &&& b.table@.scopes.len() >= a.table@.scopes.len()
    &&& b.primitives == a.primitives
    &&& b.methods == a.methods
}

proof fn lemma_extends_refl(a: Context)
    requires
        a.wf(),
    ensures
        extends(a, a),
{
}

proof fn lemma_extends_trans(a: Context, b: Context, c: Context)
    requires
        extends(a, b),
        extends(b, c),
    ensures
        extends(a, c),
{
    assert forall|i: int| 0 <= i < a.interner@.len() implies #[trigger] c.interner@[i] == a.interner@[i] by {
        assert(c.interner@[i] == b.interner@[i]);
    }
    assert forall|i: int| 0 <= i < a.table@.defs.len() implies #[trigger] c.table@.defs[i] == a.table@.defs[i] by {
        assert(c.table@.defs[i] == b.table@.defs[i]);
    }
}

/// What a path resolves to.
#[derive(Debug, Clone, Copy, PartialEq, Eq, Structural)]
pub enum Resolved {
    /// A value of the given type.
    Value(TypeID),
    /// A value of an enum type.
    EnumValue(TypeID),
    /// A type, with the definition that declares it.
    Type(TypeID, DefID),
    /// A module, by its scope.
    Module(ScopeID),
}

/// What a statement may do where it stands.
pub struct BlockCtx {
    pub allow_break: bool,
    pub allow_continue: bool,
    /// The type a `return` must give, or `None` where it gives nothing.
    pub expected_return: Option<TypeID>,
}

/// The type ids that a resolved path mentions are stored.
pub open spec fn resolved_ok(r: Resolved, ctx: Context) -> bool {
    match r {
        Resolved::Value(t) => t.0 < ctx.interner@.len(),
        Resolved::EnumValue(t) => t.0 < ctx.interner@.len(),
        Resolved::Type(t, d) => t.0 < ctx.interner@.len() && d.0 < ctx.table@.defs.len(),
        Resolved::Module(_) => true,
    }
}

/// What a definition resolves to.
pub open spec fn def_resolved(kind: DefKind, d: DefID) -> Resolved {
    match kind {
        DefKind::Variable { typeid } => Resolved::Value(typeid),
        DefKind::Function(sig) => Resolved::Value(sig.typeid),
        DefKind::Struct(s) => Resolved::Type(s.typeid, d),
        DefKind::Enum(e) => Resolved::Type(e.typeid, d),
        DefKind::Trait(t) => Resolved::Type(t.typeid, d),
        DefKind::TypeAlias(a) => Resolved::Type(a.typeid, d),
        DefKind::Module { scope } => Resolved::Module(scope),
    }
}

/// The type that pointers to `t` lead to, following pointers to the end.
pub open spec fn deref_base(s: Seq<TypeShape>, t: int) -> int
    decreases t,
{
    if 0 <= t < s.len() {
        match s[t] {
            TypeShape::Pointer { pointee, .. } => if 0 <= pointee.0 < t {
                deref_base(s, pointee.0 as int)
            } else {
                t
            },
            _ => t,
        }
    } else {
        t
    }
}

/// The type of the field or method `name` on a value of type `t`: methods
/// of the type that pointers lead to come first, then fields of a struct.
pub open spec fn member_type(ctx: Context, t: TypeID, name: Seq<char>) -> Option<TypeID> {
    member_type_in(env_of(ctx), state_of(ctx), t, name)
}

/// Whether an expression can stand left of `=`.
pub open spec fn spec_is_lvalue(e: Expr) -> bool {
    match e {
        Expr::Path(_) => true,
        Expr::UnaryOp { op: Operator::Deref, .. } => true,
        Expr::Access(_) => true,
        _ => false,
    }
}

/// The checker, holding the context it reads and extends.
pub struct Checker {
    pub ctx: Context,
}

impl Checker {
    pub fn new(ctx: Context) -> (r: Self)
        ensures
            r.ctx == ctx,
    {
        Self { ctx }
    }

    pub fn is_lvalue(&mut self, expr: &Expr) -> (r: bool)
        ensures
            r == spec_is_lvalue(*expr),
            *final(self) == *old(self),
    {
        match expr {
            Expr::Path(_) => true,
            Expr::UnaryOp { op: Operator::Deref, .. } => true,
            Expr::Access(_) => true,
            _ => false,
        }
    }

    fn def_to_resolved(&self, def: &Definition, def_id: DefID) -> (r: Resolved)
        ensures
            r == def_resolved(def.kind, def_id),
    {
        match &def.kind {
            DefKind::Variable { typeid } => Resolved::Value(*typeid),
            DefKind::Function(sig) => Resolved::Value(sig.typeid),
            DefKind::Struct(s) => Resolved::Type(s.typeid, def_id),
            DefKind::Enum(e) => Resolved::Type(e.typeid, def_id),
            DefKind::Trait(t) => Resolved::Type(t.typeid, def_id),
            DefKind::TypeAlias(a) => Resolved::Type(a.typeid, def_id),
            DefKind::Module { scope } => Resolved::Module(*scope),
        }
    }

    /// The type of the field or method `name` on a value of type `typeid`.
    pub fn resolve_field_or_method(&mut self, typeid: TypeID, name: &str) -> (r: Result<TypeID, String>)
        requires
            old(self).ctx.wf(),
            typeid.0 < old(self).ctx.interner@.len(),
        ensures
            *final(self) == *old(self),
            match r {
                Ok(t) => Some(t),
                Err(_) => None,
            } == member_type(old(self).ctx, typeid, name@),
            r matches Ok(t) ==> t.0 < old(self).ctx.interner@.len(),
            r matches Err(e) ==> e@ == no_member_message(old(self).ctx, typeid, name@),
    {
        let ghost s = self.ctx.interner@;
        let mut base = typeid;
        loop
            invariant
                self.ctx.wf(),
                s == self.ctx.interner@,
                base.0 < s.len(),
                deref_base(s, typeid.0 as int) == deref_base(s, base.0 as int),
            ensures
                deref_base(s, base.0 as int) == base.0 as int,
            decreases base.0,
        {
            match self.ctx.interner.get(base) {
                Some(TypeDef::Pointer { pointee, .. }) => {
                    proof {
                        assert(components(s[base.0 as int])[0] == *pointee);
                    }
                    base = *pointee;
                },
                _ => {
                    break;
                },
            }
        }
        let ghost b = base.0 as int;
        assert(deref_base(s, b) == b);
        if let Some(method) = self.ctx.methods.get(name, base) {
            let def = self.ctx.table.get_def(method).unwrap();
            match &def.kind {
                DefKind::Function(fnsig) => {
                    proof {
                        assert(def_type_ids(self.ctx.table@.defs[method.0 as int].kind)[0] == fnsig.typeid);
                    }
                    Ok(fnsig.typeid)
                },
                _ => Err(owned("internal: method DefID not found")),
            }
        } else {
            match self.ctx.interner.get(base).unwrap() {
                TypeDef::UserDef(defid) => {
                    let def = self.ctx.table.get_def(*defid).unwrap();
                    match &def.kind {
                        DefKind::Struct(sd) => match sd.get_field(name) {
                            Some(t) => {
                                proof {
                                    lemma_field_type_valid(self.ctx, defid.0 as int, name@);
                                }
                                Ok(t)
                            },
                            None => Err(self.no_field_message(name, base)),
                        },
                        _ => Err(self.no_field_message(name, base)),
                    }
                },
                _ => Err(self.no_field_message(name, base)),
            }
        }
    }

    fn no_field_message(&self, name: &str, typeid: TypeID) -> (r: String)
        requires
            self.ctx.wf(),
            typeid.0 < self.ctx.interner@.len(),
        ensures
            r@ == "no field \""@ + name@ + "\" on type "@ + self.ctx.spec_type_name(typeid),
    {
        let mut msg = owned("no field \"");
        msg.append(name);
        msg.append("\" on type ");
        msg.append(self.ctx.name_of_type(typeid).as_str());
        msg
    }
}

/// A field type of a stored struct names a stored type.
proof fn lemma_field_type_valid(ctx: Context, d: int, name: Seq<char>)
    requires
        ctx.wf(),
        0 <= d < ctx.table@.defs.len(),
        ctx.table@.defs[d].kind is Struct,
    ensures
        field_type(ctx.table@.defs[d].kind->Struct_0.fields@, name) matches Some(t) ==> t.0
            < ctx.interner@.len(),
{
    let fields = ctx.table@.defs[d].kind->Struct_0.fields@;
    if let Some(t) = field_type(fields, name) {
        let k = lemma_field_type_index(fields, name);
        let ids = def_type_ids(ctx.table@.defs[d].kind);
        assert(ids[k] == fields[k].1);
    }
}

proof fn lemma_field_type_index(fields: Seq<(String, crate::types::TypeID)>, name: Seq<char>) -> (k: int)
    requires
        field_type(fields, name) is Some,
    ensures
        0 <= k < fields.len(),
        fields[k].1 == field_type(fields, name).unwrap(),
    decreases fields.len(),
{
    if fields[0].0@ == name {
        0
    } else {
        let k = lemma_field_type_index(fields.drop_first(), name);
        k + 1
    }
}


/// The message for a missing field or method `name` on values of type `t`,
/// after following pointers.
pub open spec fn no_member_message(ctx: Context, t: TypeID, name: Seq<char>) -> Seq<char> {
    "no field \""@ + name + "\" on type "@ + ctx.spec_type_name(TypeID(deref_base(ctx.interner@, t.0 as int) as usize))
}

/// The message for a path step `name` after `current` that leads nowhere.
pub open spec fn next_error(ctx: Context, current: Resolved, name: Seq<char>) -> Seq<char> {
    match current {
        Resolved::Module(scope) => "Cannot resolve member '"@ + name + "' in module at scope ScopeID("@ + decimal(
            scope.0 as nat,
        ) + ")"@,
        Resolved::Value(ty) => no_member_message(ctx, ty, name),
        Resolved::Type(_, d) => {
            let def = ctx.table@.defs[d.0 as int];
            match def.kind {
                DefKind::Enum(_) => "enum '"@ + def.name@ + "' has no value '"@ + name + "'"@,
                DefKind::Struct(_) => "cannot access '"@ + name + "' on type '"@ + def.name@ + "', use an instance"@,
                DefKind::Trait(_) => "cannot access '"@ + name + "' on trait '"@ + def.name@ + "'"@,
                _ => "cannot access '"@ + name + "' on '"@ + def.name@ + "'"@,
            }
        },
        Resolved::EnumValue(_) => "cannot access '"@ + name + "' on enum variant, use an instance"@,
    }
}

/// What `name` after `current` in a path resolves to.
pub open spec fn next_resolved(ctx: Context, current: Resolved, name: Seq<char>) -> Option<Resolved> {
    next_resolved_in(env_of(ctx), state_of(ctx), current, name)
}

/// What the segments of a path from `i` on resolve to, starting from `cur`.
pub open spec fn walk_resolved(ctx: Context, segs: Seq<Segment>, i: int, cur: Resolved) -> Option<Resolved> {
    walk_resolved_in(env_of(ctx), state_of(ctx), segs, i, cur)
}

/// What a path resolves to in `scope`: its first segment is looked up, the
/// others are taken one after the other.
pub open spec fn path_resolved(ctx: Context, scope: int, segs: Seq<Segment>) -> Option<Resolved> {
    path_resolved_in(env_of(ctx), state_of(ctx), scope, segs)
}

/// The type of the value a path resolution gives, if it gives a value.
pub open spec fn value_type(r: Option<Resolved>) -> Option<TypeID> {
    match r {
        Some(Resolved::Value(t)) => Some(t),
        Some(Resolved::EnumValue(t)) => Some(t),
        _ => None,
    }
}

/// The value of an `Ok`.
pub open spec fn ok_value<T>(r: Result<T, String>) -> Option<T> {
    match r {
        Ok(t) => Some(t),
        Err(_) => None,
    }
}

/// The struct type that a path resolution names, with its definition: the
/// resolution is a type whose shape is a user definition of a struct.
pub open spec fn named_struct(ctx: Context, r: Option<Resolved>) -> Option<(TypeID, DefID)> {
    named_struct_in(state_of(ctx), r)
}

/// The fields of the struct that definition `d` declares.
pub open spec fn struct_fields(ctx: Context, d: DefID) -> Seq<(String, TypeID)> {
    struct_fields_in(state_of(ctx), d)
}

/// The message for the first step of `segs`, from `i` on, that leads nowhere.
pub open spec fn walk_error(ctx: Context, segs: Seq<Segment>, i: int, cur: Resolved) -> Seq<char>
    decreases segs.len() - i,
{
    if i < 0 || i >= segs.len() {
        seq![]
    } else {
        match next_resolved(ctx, cur, segs[i].name.name@) {
            Some(n) => walk_error(ctx, segs, i + 1, n),
            None => next_error(ctx, cur, segs[i].name.name@),
        }
    }
}

/// The message for a path that resolves to nothing in `scope`.
pub open spec fn path_error(ctx: Context, scope: int, segs: Seq<Segment>) -> Seq<char> {
    if segs.len() == 0 {
        "expected at least 1 segment in PathExpr"@
    } else {
        match ctx.table@.lookup(scope, segs[0].name.name@) {
            Some(d) => if d.0 < ctx.table@.defs.len() {
                walk_error(ctx, segs, 1, def_resolved(ctx.table@.defs[d.0 as int].kind, d))
            } else {
                "unknown definition '"@ + segs[0].name.name@ + "'"@
            },
            None => "'"@ + segs[0].name.name@ + "' not defined"@,
        }
    }
}

/// A stored definition resolves to stored types.
proof fn lemma_def_resolved_ok(ctx: Context, d: int)
    requires
        ctx.wf(),
        0 <= d < ctx.table@.defs.len(),
    ensures
        resolved_ok(def_resolved(ctx.table@.defs[d].kind, DefID(d as usize)), ctx),
{
    let ids = def_type_ids(ctx.table@.defs[d].kind);
    match ctx.table@.defs[d].kind {
        DefKind::Struct(sd) => {
            let k = sd.fields@.len() as int;
            assert(ids[k] == sd.typeid);
            assert(ids[k].0 < ctx.interner@.len());
        },
        DefKind::Module { .. } => {},
        _ => {
            assert(ids[0].0 < ctx.interner@.len());
        },
    }
}

impl Checker {
    /// What `name` after `current` in a path resolves to.
    pub fn resolve_next(&mut self, current: Resolved, name: &str) -> (r: Result<Resolved, String>)
        requires
            old(self).ctx.wf(),
            resolved_ok(current, old(self).ctx),
        ensures
            *final(self) == *old(self),
            match r {
                Ok(x) => Some(x),
                Err(_) => None,
            } == next_resolved(old(self).ctx, current, name@),
            r matches Ok(x) ==> resolved_ok(x, old(self).ctx),
            r matches Err(e) ==> e@ == next_error(old(self).ctx, current, name@),
    {
        match current {
            Resolved::Module(scope) => {
                let def_id = match self.ctx.table.lookup(scope, name) {
                    Some(d) => d,
                    None => {
                        return Err(self.module_member_message(name, scope));
                    },
                };
                match self.ctx.table.get_def(def_id) {
                    Some(def) => {
                        proof {
                            lemma_def_resolved_ok(self.ctx, def_id.0 as int);
                        }
                        Ok(self.def_to_resolved(def, def_id))
                    },
                    None => Err(self.module_member_message(name, scope)),
                }
            },
            Resolved::Value(ty) => {
                let field_ty = self.resolve_field_or_method(ty, name)?;
                Ok(Resolved::Value(field_ty))
            },
            Resolved::Type(typeid, def_id) => {
                let def = self.ctx.table.get_def(def_id).unwrap();
                match &def.kind {
                    DefKind::Enum(enum_def) => {
                        if enum_def.has_value(name) {
                            Ok(Resolved::EnumValue(typeid))
                        } else {
                            let mut msg = owned("enum '");
                            msg.append(def.name.as_str());
                            msg.append("' has no value '");
                            msg.append(name);
                            msg.append("'");
                            Err(msg)
                        }
                    },
                    DefKind::Struct(_) => {
                        let mut msg = owned("cannot access '");
                        msg.append(name);
                        msg.append("' on type '");
                        msg.append(def.name.as_str());
                        msg.append("', use an instance");
                        Err(msg)
                    },
                    DefKind::Trait(_) => {
                        let mut msg = owned("cannot access '");
                        msg.append(name);
                        msg.append("' on trait '");
                        msg.append(def.name.as_str());
                        msg.append("'");
                        Err(msg)
                    },
                    _ => {
                        let mut msg = owned("cannot access '");
                        msg.append(name);
                        msg.append("' on '");
                        msg.append(def.name.as_str());
                        msg.append("'");
                        Err(msg)
                    },
                }
            },
            Resolved::EnumValue(_) => {
                let mut msg = owned("cannot access '");
                msg.append(name);
                msg.append("' on enum variant, use an instance");
                Err(msg)
            },
        }
    }

    fn module_member_message(&self, name: &str, scope: ScopeID) -> (r: String)
        ensures
            r@ == next_error(self.ctx, Resolved::Module(scope), name@),
    {
        let mut msg = owned("Cannot resolve member '");
        msg.append(name);
        msg.append("' in module at scope ScopeID(");
        push_decimal(&mut msg, scope.0);
        msg.append(")");
        msg
    }

    /// What a path resolves to in `scope`.
    pub fn resolve_pathexpr(&mut self, scope: ScopeID, path: &PathExpr) -> (r: Result<Resolved, String>)
        requires
            old(self).ctx.wf(),
        ensures
            *final(self) == *old(self),
            match r {
                Ok(x) => Some(x),
                Err(_) => None,
            } == path_resolved(old(self).ctx, scope.0 as int, path.segments@),
            r matches Ok(x) ==> resolved_ok(x, old(self).ctx),
            r matches Err(e) ==> e@ == path_error(old(self).ctx, scope.0 as int, path.segments@),
    {
        if path.segments.len() == 0 {
            return Err(owned("expected at least 1 segment in PathExpr"));
        }
        let first = &path.segments[0];
        let defid = match self.ctx.table.lookup(scope, first.name.str()) {
            Some(d) => d,
            None => {
                let mut msg = owned("'");
                msg.append(first.name.str());
                msg.append("' not defined");
                return Err(msg);
            },
        };
        let def = match self.ctx.table.get_def(defid) {
            Some(d) => d,
            None => {
                let mut msg = owned("unknown definition '");
                msg.append(first.name.str());
                msg.append("'");
                return Err(msg);
            },
        };
        proof {
            lemma_def_resolved_ok(self.ctx, defid.0 as int);
        }
        let mut current = self.def_to_resolved(def, defid);
        let ghost ctx0 = self.ctx;
        let mut i: usize = 1;
        while i < path.segments.len()
            invariant
                self.ctx == ctx0,
                ctx0 == old(self).ctx,
                ctx0.wf(),
                1 <= i <= path.segments@.len(),
                resolved_ok(current, ctx0),
                path_resolved(ctx0, scope.0 as int, path.segments@) == walk_resolved(ctx0, path.segments@, i as int, current),
                path_error(ctx0, scope.0 as int, path.segments@) == walk_error(ctx0, path.segments@, i as int, current),
            decreases path.segments.len() - i,
        {
            current = self.resolve_next(current, path.segments[i].name.str())?;
            i = i + 1;
        }
        Ok(current)
    }
}


/// `name` is defined in `scope` itself, as a variable.
pub open spec fn local_defined(t: TableView, scope: int, name: Seq<char>) -> bool {
    &&& t.lookup_local(scope, name) is Some
    &&& t.lookup_local(scope, name).unwrap().0 < t.defs.len()
    &&& t.defs[t.lookup_local(scope, name).unwrap().0 as int].kind is Variable
}

/// The expected return type of a block context names a stored type.
pub open spec fn bctx_ok(b: BlockCtx, ctx: Context) -> bool {
    b.expected_return matches Some(t) ==> t.0 < ctx.interner@.len()
}

/// Changing only the table, by adding scopes or definitions whose type ids
/// are stored, keeps the context well formed and extends it.
proof fn lemma_table_grows(a: Context, b: Context)
    requires
        a.wf(),
        b.interner == a.interner,
        b.methods == a.methods,
        b.primitives == a.primitives,
        b.table@.wf(),
        b.table@.defs.len() >= a.table@.defs.len(),
        b.table@.scopes.len() >= a.table@.scopes.len(),
        forall|i: int| 0 <= i < a.table@.defs.len() ==> #[trigger] b.table@.defs[i] == a.table@.defs[i],
        forall|i: int, k: int|
            a.table@.defs.len() <= i < b.table@.defs.len() && 0 <= k < def_type_ids(b.table@.defs[i].kind).len()
                ==> (#[trigger] def_type_ids(b.table@.defs[i].kind)[k]).0 < b.interner@.len(),
    ensures
        extends(a, b),
{
    assert forall|i: int, k: int|
        0 <= i < b.table@.defs.len() && 0 <= k < def_type_ids(b.table@.defs[i].kind).len() implies (
        #[trigger] def_type_ids(b.table@.defs[i].kind)[k]).0 < b.interner@.len() by {
        if i < a.table@.defs.len() {
            assert(b.table@.defs[i] == a.table@.defs[i]);
        }
    }
    assert forall|t: TypeID, n: Seq<char>| (#[trigger] b.methods.method_of(t, n) matches Some(d)
        ==> d.0 < b.table@.defs.len() && b.table@.defs[d.0 as int].kind is Function) by {
        assert(a.methods.method_of(t, n) == b.methods.method_of(t, n));
    }
}

/// The derived debug text of a path: `std::format!` with `{:?}`, which runs
/// the derived `Debug` impl. Nothing is claimed of the text it returns.
#[verifier::external_body]
fn debug_path(path: &PathExpr) -> String {
    format!("{:?}", path)
}

fn copy_ids(v: &Vec<TypeID>) -> (r: Vec<TypeID>)
    ensures
        r@ == v@,
{
    let mut r: Vec<TypeID> = Vec::new();
    let mut i: usize = 0;
    while i < v.len()
        invariant
            i <= v@.len(),
            r@ == v@.take(i as int),
        decreases v.len() - i,
    {
        r.push(v[i]);
        i = i + 1;
        assert(r@ =~= v@.take(i as int));
    }
    assert(v@.take(i as int) =~= v@);
    r
}

impl Checker {
    fn two_names(&self, prefix: &str, a: TypeID, middle: &str, b: TypeID) -> (r: String)
        requires
            self.ctx.wf(),
            a.0 < self.ctx.interner@.len(),
            b.0 < self.ctx.interner@.len(),
        ensures
            r@ == prefix@ + self.ctx.spec_type_name(a) + middle@ + self.ctx.spec_type_name(b),
    {
        let mut msg = owned(prefix);
        msg.append(self.ctx.name_of_type(a).as_str());
        msg.append(middle);
        msg.append(self.ctx.name_of_type(b).as_str());
        msg
    }

    fn one_name(&self, prefix: &str, a: TypeID) -> (r: String)
        requires
            self.ctx.wf(),
            a.0 < self.ctx.interner@.len(),
        ensures
            r@ == prefix@ + self.ctx.spec_type_name(a),
    {
        let mut msg = owned(prefix);
        msg.append(self.ctx.name_of_type(a).as_str());
        msg
    }

    /// The type of an expression.
    pub fn resolve_expr(&mut self, scope: ScopeID, expr: &Expr, block_ctx: &BlockCtx) -> (r: Result<TypeID, String>)
        requires
            old(self).ctx.wf(),
            checkable_expr(*expr),
            bctx_ok(*block_ctx, old(self).ctx),
        ensures
            extends(old(self).ctx, final(self).ctx),
            r matches Ok(t) ==> t.0 < final(self).ctx.interner@.len(),
            *expr matches Expr::Value(ExprValue::Integer(_)) ==> r == Ok::<TypeID, String>(old(self).ctx.primitives.i32_),
            *expr matches Expr::Value(ExprValue::Float(_)) ==> r == Ok::<TypeID, String>(old(self).ctx.primitives.f32_),
            *expr matches Expr::Value(ExprValue::Bool(_)) ==> r == Ok::<TypeID, String>(old(self).ctx.primitives.bool_),
            *expr matches Expr::Value(ExprValue::String(lit)) ==> (r matches Ok(t) && final(self).ctx.interner@[t.0 as int]
                == TypeShape::Array {
                element: old(self).ctx.primitives.u8_,
                size: vstd::utf8::encode_utf8(lit@).len() as usize,
            }),
            *expr matches Expr::Assign(_) ==> (r matches Ok(t) ==> t == old(self).ctx.primitives.void),
            *expr matches Expr::Path(p) ==> (final(self).ctx == old(self).ctx && ok_value(r) == value_type(
                path_resolved(old(self).ctx, scope.0 as int, p.segments@),
            )),
            (state_of(final(self).ctx), ok_value(r)) == ck_expr(env_of(old(self).ctx), state_of(old(self).ctx), scope, *expr, *block_ctx),
        decreases expr_size(*expr), 10int,
    {
        proof {
            lemma_extends_refl(self.ctx);
        }
        match expr {
            Expr::Value(value) => match value {
                ExprValue::Integer(_) => Ok(self.ctx.primitives.i32_),
                ExprValue::Float(_) => Ok(self.ctx.primitives.f32_),
                ExprValue::Bool(_) => Ok(self.ctx.primitives.bool_),
                ExprValue::String(lit) => {
                    let element = self.ctx.primitives.u8_;
                    let size = lit.as_str().len();
                    let ghost before = self.ctx;
                    let t = self.ctx.intern_keeping(TypeDef::Array { element, size });
                    proof {
                        lemma_interned_extends(before, self.ctx);
                    }
                    Ok(t)
                },
            },
            Expr::BinaryOp { left, op, right } => self.resolve_binaryop(scope, left, op, right, block_ctx),
            Expr::UnaryOp { op, expr } => self.resolve_unaryop(scope, op, expr, block_ctx),
            Expr::Path(path) => match self.resolve_pathexpr(scope, path)? {
                Resolved::Value(typeid) => Ok(typeid),
                Resolved::EnumValue(typeid) => Ok(typeid),
                _ => {
                    let mut msg = owned("Expected value, found ");
                    msg.append(debug_path(path).as_str());
                    msg.append(" in path expression");
                    Err(msg)
                },
            },
            Expr::Call(call) => self.resolve_callexpr(scope, call, block_ctx),
            Expr::Assign(assign) => self.resolve_assign(scope, assign, block_ctx),
            Expr::Access(access) => self.resolve_access(scope, access, block_ctx),
            Expr::If(if_expr) => self.resolve_if(scope, if_expr, block_ctx),
            Expr::Init(init) => self.resolve_init(scope, init, block_ctx),
            Expr::Loop(_) => {
                proof {
                    assert(false);
                }
                Err(owned("loop"))
            },
        }
    }

    /// The type of a binary operation: arithmetic on two equal numeric
    /// types gives that type; comparisons and `&&`, `||` give `bool`.
    pub fn resolve_binaryop(&mut self, scope: ScopeID, left: &Expr, op: &Operator, right: &Expr, block_ctx: &BlockCtx) -> (r: Result<TypeID, String>)
        requires
            old(self).ctx.wf(),
            is_binary(*op),
            checkable_expr(*left),
            checkable_expr(*right),
            bctx_ok(*block_ctx, old(self).ctx),
        ensures
            extends(old(self).ctx, final(self).ctx),
            r matches Ok(t) ==> t.0 < final(self).ctx.interner@.len(),
            r matches Ok(t) ==> (match *op {
                Operator::Add | Operator::Sub | Operator::Mul | Operator::Div => old(self).ctx.primitives.spec_is_numeric(t),
                _ => t == old(self).ctx.primitives.bool_,
            }),
            (state_of(final(self).ctx), ok_value(r)) == ck_binop(env_of(old(self).ctx), state_of(old(self).ctx), scope, *left, *op, *right, *block_ctx),
            binop_own_error(env_of(old(self).ctx), state_of(old(self).ctx), scope, *left, *op, *right, *block_ctx, final(self).ctx) matches Some(m) ==> (r matches Err(e)
                && e@ == m),
        decreases 1 + expr_size(*left) + expr_size(*right), 5int,
    {
        let ghost c0 = self.ctx;
        let l = self.resolve_expr(scope, left, block_ctx)?;
        let ghost c1 = self.ctx;
        let r = self.resolve_expr(scope, right, block_ctx)?;
        proof {
            lemma_extends_trans(c0, c1, self.ctx);
        }
        match op {
            Operator::Add | Operator::Sub | Operator::Mul | Operator::Div => {
                if l == r && self.ctx.primitives.is_numeric(l) {
                    Ok(l)
                } else {
                    let mut msg = owned("cannot ");
                    msg.append(op.name());
                    msg.append(" ");
                    msg.append(self.two_names("", l, " and ", r).as_str());
                    proof {
                        reveal_strlit("");
                        assert(msg@ =~= binop_error(self.ctx, *op, l, r));
                    }
                    Err(msg)
                }
            },
            Operator::Equal | Operator::NotEqual => {
                if l == r && self.ctx.is_comparable(l) {
                    Ok(self.ctx.primitives.bool_)
                } else {
                    Err(self.two_names("cannot compare ", l, " and ", r))
                }
            },
            Operator::Less | Operator::Greater | Operator::LessEqual | Operator::GreaterEqual => {
                if l == r && self.ctx.primitives.is_numeric(l) {
                    Ok(self.ctx.primitives.bool_)
                } else {
                    Err(self.two_names("cannot compare ", l, " and ", r))
                }
            },
            Operator::And | Operator::Or => {
                if l == self.ctx.primitives.bool_ && r == self.ctx.primitives.bool_ {
                    Ok(self.ctx.primitives.bool_)
                } else {
                    Err(self.two_names("expected bool, found ", l, " and ", r))
                }
            },
            _ => {
                proof {
                    assert(false);
                }
                Err(owned("not a binary operator"))
            },
        }
    }

    /// The type of a unary operation: `-` keeps a signed or float type, `!`
    /// keeps `bool`, `*` goes from a pointer to its pointee, `&` makes a
    /// pointer (to the element, for an array).
    pub fn resolve_unaryop(&mut self, scope: ScopeID, op: &Operator, expr: &Expr, block_ctx: &BlockCtx) -> (r: Result<TypeID, String>)
        requires
            old(self).ctx.wf(),
            is_unary(*op),
            checkable_expr(*expr),
            bctx_ok(*block_ctx, old(self).ctx),
        ensures
            extends(old(self).ctx, final(self).ctx),
            r matches Ok(t) ==> t.0 < final(self).ctx.interner@.len(),
            r matches Ok(t) ==> (match *op {
                Operator::Neg => old(self).ctx.primitives.spec_is_negatable(t),
                Operator::Not => t == old(self).ctx.primitives.bool_,
                Operator::Ref => final(self).ctx.interner@[t.0 as int] is Pointer || final(self).ctx.interner@[t.0 as int] is FnPointer,
                _ => true,
            }),
            (state_of(final(self).ctx), ok_value(r)) == ck_unop(env_of(old(self).ctx), state_of(old(self).ctx), scope, *op, *expr, *block_ctx),
            unop_own_error(env_of(old(self).ctx), state_of(old(self).ctx), scope, *op, *expr, *block_ctx, final(self).ctx) matches Some(m) ==> (r matches Err(e) && e@ == m),
        decreases 1 + expr_size(*expr), 5int,
    {
        let ghost c0 = self.ctx;
        let typeid = self.resolve_expr(scope, expr, block_ctx)?;
        match op {
            Operator::Neg => {
                if self.ctx.primitives.is_negatable(typeid) {
                    Ok(typeid)
                } else {
                    Err(self.one_name("cannot negate ", typeid))
                }
            },
            Operator::Not => {
                if self.ctx.primitives.is_bool(typeid) {
                    Ok(typeid)
                } else {
                    Err(self.one_name("expected bool, found ", typeid))
                }
            },
            Operator::Deref => match self.ctx.interner.get(typeid).unwrap() {
                TypeDef::Pointer { pointee, .. } => {
                    proof {
                        assert(components(self.ctx.interner@[typeid.0 as int])[0] == *pointee);
                    }
                    Ok(*pointee)
                },
                _ => Err(self.one_name("cannot dereference ", typeid)),
            },
            Operator::Ref => {
                let pointee = match self.ctx.interner.get(typeid).unwrap() {
                    TypeDef::Array { element, .. } => {
                        proof {
                            assert(components(self.ctx.interner@[typeid.0 as int])[0] == *element);
                        }
                        *element
                    },
                    TypeDef::FnPointer(_) => {
                        return Ok(typeid);
                    },
                    _ => typeid,
                };
                let ghost c1 = self.ctx;
                let t = self.ctx.intern_keeping(TypeDef::Pointer { pointee, mutability: true });
                proof {
                    lemma_interned_extends(c1, self.ctx);
                    lemma_extends_trans(c0, c1, self.ctx);
                }
                Ok(t)
            },
            _ => {
                proof {
                    assert(false);
                }
                Err(owned("not a unary operator"))
            },
        }
    }

    /// The type a call returns, once its arguments fit the parameters.
    pub fn resolve_callexpr(&mut self, scope: ScopeID, expr: &ExprCall, block_ctx: &BlockCtx) -> (r: Result<TypeID, String>)
        requires
            old(self).ctx.wf(),
            checkable_expr(*expr.expr),
            checkable_exprs(expr.args@),
            bctx_ok(*block_ctx, old(self).ctx),
        ensures
            extends(old(self).ctx, final(self).ctx),
            r matches Ok(t) ==> t.0 < final(self).ctx.interner@.len(),
            r matches Ok(t) ==> exists|f: int|
                0 <= f < final(self).ctx.interner@.len() && ((#[trigger] final(self).ctx.interner@[f]) matches TypeShape::FnPointer {
                    params,
                    return_type,
                } && return_type == t && params.len() == expr.args@.len()),
            (state_of(final(self).ctx), ok_value(r)) == ck_call(env_of(old(self).ctx), state_of(old(self).ctx), scope, *expr, *block_ctx),
            call_own_error(env_of(old(self).ctx), state_of(old(self).ctx), scope, *expr, *block_ctx, final(self).ctx) matches Some(m) ==> (r matches Err(e) && e@ == m),
        decreases 1 + expr_size(*expr.expr) + exprs_size(expr.args@), 5int,
    {
        let ghost c0 = self.ctx;
        let fn_typeid = self.resolve_expr(scope, &expr.expr, block_ctx)?;
        let (params, return_type) = match self.ctx.interner.get(fn_typeid).unwrap() {
            TypeDef::FnPointer(fn_type) => {
                if fn_type.params.len() != expr.args.len() {
                    let mut msg = owned("expected ");
                    push_decimal(&mut msg, fn_type.params.len());
                    msg.append(" arguments, found ");
                    push_decimal(&mut msg, expr.args.len());
                    return Err(msg);
                }
                (copy_ids(&fn_type.params), fn_type.return_type)
            },
            _ => {
                let mut msg = owned("type ");
                msg.append(self.ctx.name_of_type(fn_typeid).as_str());
                msg.append(" is not callable");
                return Err(msg);
            },
        };
        let ghost c1 = self.ctx;
        let ghost f = fn_typeid.0 as int;
        proof {
            let comps = components(c1.interner@[f]);
            assert forall|k: int| 0 <= k < params@.len() implies (#[trigger] params@[k]).0 < c1.interner@.len() by {
                assert(comps[k] == params@[k]);
            }
            assert(comps[params@.len() as int] == return_type);
        }
        let mut i: usize = 0;
        while i < expr.args.len()
            invariant
                c0 == old(self).ctx,
                extends(c0, c1),
                extends(c1, self.ctx),
                params@.len() == expr.args@.len(),
                0 <= f < c1.interner@.len(),
                c1.interner@[f] == (TypeShape::FnPointer { params: params@, return_type }),
                forall|k: int| 0 <= k < params@.len() ==> (#[trigger] params@[k]).0 < c1.interner@.len(),
                return_type.0 < c1.interner@.len(),
                checkable_exprs(expr.args@),
                bctx_ok(*block_ctx, c0),
                i <= expr.args@.len(),
                f == fn_typeid.0 as int,
                ck_expr(env_of(c0), state_of(c0), scope, *expr.expr, *block_ctx) == (state_of(c1), Some(fn_typeid)),
                ck_args(env_of(c0), state_of(c1), scope, expr.args@, params@, i as int, *block_ctx) == (
                    state_of(self.ctx),
                    true,
                ),
            decreases expr.args.len() - i,
        {
            proof {
                lemma_exprs_size(expr.args@, i as int);
                lemma_checkable_exprs(expr.args@, i as int);
            }
            let ghost c2 = self.ctx;
            let arg = self.resolve_expr(scope, &expr.args[i], block_ctx);
            proof {
                lemma_extends_trans(c1, c2, self.ctx);
            }
            let arg = match arg {
                Ok(a) => a,
                Err(e) => {
                    proof {
                        lemma_extends_trans(c0, c1, self.ctx);
                        assert(ck_args(env_of(c0), state_of(c1), scope, expr.args@, params@, i + 1, *block_ctx) == (
                            state_of(self.ctx),
                            false,
                        ));
                        lemma_args_stop(env_of(c0), state_of(c1), scope, expr.args@, params@, i + 1, expr.args@.len() as int, *block_ctx);
                        lemma_args_error_stop(
                            env_of(c0),
                            state_of(c1),
                            scope,
                            expr.args@,
                            params@,
                            i + 1,
                            expr.args@.len() as int,
                            *block_ctx,
                            self.ctx,
                        );
                        lemma_call_unfold(env_of(c0), state_of(c0), scope, *expr, *block_ctx, state_of(c1), fn_typeid, params@, return_type);
                    }
                    return Err(e);
                },
            };
            let param = params[i];
            if !self.ctx.is_coercible(arg, param) {
                proof {
                    lemma_extends_trans(c0, c1, self.ctx);
                    assert(ck_args(env_of(c0), state_of(c1), scope, expr.args@, params@, i + 1, *block_ctx) == (
                        state_of(self.ctx),
                        false,
                    ));
                    lemma_args_stop(env_of(c0), state_of(c1), scope, expr.args@, params@, i + 1, expr.args@.len() as int, *block_ctx);
                    lemma_args_error_stop(
                        env_of(c0),
                        state_of(c1),
                        scope,
                        expr.args@,
                        params@,
                        i + 1,
                        expr.args@.len() as int,
                        *block_ctx,
                        self.ctx,
                    );
                    lemma_call_unfold(env_of(c0), state_of(c0), scope, *expr, *block_ctx, state_of(c1), fn_typeid, params@, return_type);
                }
                return Err(self.two_names("expected ", param, ", found ", arg));
            }
            i = i + 1;
        }
        proof {
            lemma_extends_trans(c0, c1, self.ctx);
            assert(self.ctx.interner@[f] == c1.interner@[f]);
        }
        Ok(return_type)
    }

    /// An assignment has type `void`; its left side must be a place.
    pub fn resolve_assign(&mut self, scope: ScopeID, expr: &ExprAssign, block_ctx: &BlockCtx) -> (r: Result<TypeID, String>)
        requires
            old(self).ctx.wf(),
            checkable_expr(*expr.left),
            checkable_expr(*expr.right),
            bctx_ok(*block_ctx, old(self).ctx),
        ensures
            extends(old(self).ctx, final(self).ctx),
            r matches Ok(t) ==> t == old(self).ctx.primitives.void,
            !spec_is_lvalue(*expr.left) ==> (r matches Err(e) && e@ == "invalid left-hand side of assignment"@
                && final(self).ctx == old(self).ctx),
            (state_of(final(self).ctx), ok_value(r)) == ck_assign(env_of(old(self).ctx), state_of(old(self).ctx), scope, *expr, *block_ctx),
            assign_own_error(env_of(old(self).ctx), state_of(old(self).ctx), scope, *expr, *block_ctx, final(self).ctx) matches Some(m) ==> (r matches Err(e) && e@ == m),
        decreases 1 + expr_size(*expr.left) + expr_size(*expr.right), 5int,
    {
        proof {
            lemma_extends_refl(self.ctx);
        }
        if !self.is_lvalue(&expr.left) {
            return Err(owned("invalid left-hand side of assignment"));
        }
        let ghost c0 = self.ctx;
        let left = self.resolve_expr(scope, &expr.left, block_ctx)?;
        let ghost c1 = self.ctx;
        let right = self.resolve_expr(scope, &expr.right, block_ctx)?;
        proof {
            lemma_extends_trans(c0, c1, self.ctx);
        }
        if !self.ctx.is_coercible(right, left) {
            return Err(self.two_names("expected ", left, ", found ", right));
        }
        Ok(self.ctx.primitives.void)
    }

    /// The type of a field or a method reached from a value.
    pub fn resolve_access(&mut self, scope: ScopeID, expr: &ExprAccess, block_ctx: &BlockCtx) -> (r: Result<TypeID, String>)
        requires
            old(self).ctx.wf(),
            checkable_expr(*expr.expr),
            bctx_ok(*block_ctx, old(self).ctx),
        ensures
            extends(old(self).ctx, final(self).ctx),
            r matches Ok(t) ==> t.0 < final(self).ctx.interner@.len(),
            (state_of(final(self).ctx), ok_value(r)) == ck_access(env_of(old(self).ctx), state_of(old(self).ctx), scope, *expr, *block_ctx),
            access_own_error(env_of(old(self).ctx), state_of(old(self).ctx), scope, *expr, *block_ctx, final(self).ctx) matches Some(m) ==> (r matches Err(e) && e@ == m),
        decreases 1 + expr_size(*expr.expr), 5int,
    {
        let base = Resolved::Value(self.resolve_expr(scope, &expr.expr, block_ctx)?);
        match self.resolve_next(base, expr.segment.name.str())? {
            Resolved::Value(typeid) => Ok(typeid),
            _ => {
                proof {
                    assert(false);
                }
                Err(owned("a type could not be reachable from a instance"))
            },
        }
    }

    /// Adds a child scope of `scope`.
    fn push_scope(&mut self, scope: ScopeID) -> (r: Result<ScopeID, String>)
        requires
            old(self).ctx.wf(),
        ensures
            extends(old(self).ctx, final(self).ctx),
            r matches Ok(s) ==> s.0 < final(self).ctx.table@.scopes.len(),
            r matches Ok(s) ==> s == ScopeID(old(self).ctx.table@.scopes.len() as usize),
            (state_of(final(self).ctx), ok_value(r)) == push_in(state_of(old(self).ctx), scope),
    {
        let ghost c0 = self.ctx;
        let r = self.ctx.table.push(scope);
        proof {
            lemma_table_grows(c0, self.ctx);
        }
        r
    }

    /// The type of an `if`: both branches must give the same type, and a
    /// missing `else` gives `void`.
    pub fn resolve_if(&mut self, scope: ScopeID, expr: &ExprIf, block_ctx: &BlockCtx) -> (r: Result<TypeID, String>)
        requires
            old(self).ctx.wf(),
            checkable_expr(*expr.condition),
            checkable_stmts(expr.then_branch.statements@),
            expr.else_branch matches Some(b) ==> checkable_stmts(b.statements@),
            bctx_ok(*block_ctx, old(self).ctx),
        ensures
            extends(old(self).ctx, final(self).ctx),
            r matches Ok(t) ==> t.0 < final(self).ctx.interner@.len(),
            expr.else_branch is None ==> (r matches Ok(t) ==> t == old(self).ctx.primitives.void),
            (state_of(final(self).ctx), ok_value(r)) == ck_if(env_of(old(self).ctx), state_of(old(self).ctx), scope, *expr, *block_ctx),
            if_own_error(env_of(old(self).ctx), state_of(old(self).ctx), scope, *expr, *block_ctx, final(self).ctx) matches Some(m) ==> (r matches Err(e) && e@ == m),
        decreases 1 + expr_size(*expr.condition) + stmts_size(expr.then_branch.statements@) + match expr.else_branch {
            Some(b) => stmts_size(b.statements@),
            None => 0,
        }, 5int,
    {
        let ghost c0 = self.ctx;
        let condition = self.resolve_expr(scope, &expr.condition, block_ctx)?;
        if !self.ctx.primitives.is_bool(condition) {
            return Err(self.one_name("expected bool in if condition, found ", condition));
        }
        let ghost c1 = self.ctx;
        let then_scope = match self.push_scope(scope) {
            Ok(s) => s,
            Err(e) => {
                proof {
                    lemma_extends_trans(c0, c1, self.ctx);
                }
                return Err(e);
            },
        };
        let ghost c2 = self.ctx;
        proof {
            lemma_extends_trans(c0, c1, c2);
        }
        let then_return = self.resolve_block_value(then_scope, expr.then_branch.statements.as_slice(), block_ctx);
        proof {
            lemma_extends_trans(c0, c2, self.ctx);
        }
        let then_return = then_return?;
        let ghost c3 = self.ctx;
        let else_return = match &expr.else_branch {
            Some(else_branch) => {
                let else_scope = self.push_scope(scope);
                proof {
                    lemma_extends_trans(c0, c3, self.ctx);
                }
                let else_scope = else_scope?;
                let ghost c4 = self.ctx;
                let v = self.resolve_block_value(else_scope, else_branch.statements.as_slice(), block_ctx);
                proof {
                    lemma_extends_trans(c0, c4, self.ctx);
                }
                v?
            },
            None => self.ctx.primitives.void,
        };
        if then_return == else_return {
            Ok(then_return)
        } else {
            Err(self.two_names("if branches have incompatible types: ", then_return, " and ", else_return))
        }
    }

    /// The type of a struct literal: the struct, once every field it
    /// names exists and gets a value of exactly its type.
    pub fn resolve_init(&mut self, scope: ScopeID, expr: &ExprInit, block_ctx: &BlockCtx) -> (r: Result<TypeID, String>)
        requires
            old(self).ctx.wf(),
            checkable_fields(expr.fields@),
            bctx_ok(*block_ctx, old(self).ctx),
        ensures
            extends(old(self).ctx, final(self).ctx),
            r matches Ok(t) ==> t.0 < final(self).ctx.interner@.len(),
            r matches Ok(t) ==> (final(self).ctx.interner@[t.0 as int] matches TypeShape::UserDef(d)
                && final(self).ctx.table@.defs[d.0 as int].kind is Struct),
            named_struct(old(self).ctx, path_resolved(old(self).ctx, scope.0 as int, expr.path.segments@)) is None
                ==> (r is Err && final(self).ctx == old(self).ctx),
            named_struct(old(self).ctx, path_resolved(old(self).ctx, scope.0 as int, expr.path.segments@)) matches Some(
                (_, d),
            ) && expr.fields@.len() < struct_fields(old(self).ctx, d).len() ==> (r matches Err(e) && e@
                == "missing struct fields"@ && final(self).ctx == old(self).ctx),
            r matches Ok(t) ==> (named_struct(old(self).ctx, path_resolved(old(self).ctx, scope.0 as int, expr.path.segments@))
                matches Some((t2, d)) && t2 == t && expr.fields@.len() >= struct_fields(old(self).ctx, d).len()
                && forall|k: int| 0 <= k < expr.fields@.len() ==> field_type(
                struct_fields(old(self).ctx, d),
                (#[trigger] expr.fields@[k]).name.name@,
            ) is Some),
            (state_of(final(self).ctx), ok_value(r)) == ck_init(env_of(old(self).ctx), state_of(old(self).ctx), scope, *expr, *block_ctx),
            init_own_error(env_of(old(self).ctx), state_of(old(self).ctx), scope, *expr, *block_ctx, old(self).ctx, final(self).ctx)
                matches Some(m) ==> (r matches Err(e) && e@ == m),
        decreases 1 + fields_size(expr.fields@), 5int,
    {
        let ghost c0 = self.ctx;
        proof {
            lemma_extends_refl(self.ctx);
        }
        let typeid = match self.resolve_pathexpr(scope, &expr.path)? {
            Resolved::Type(typeid, _defid) => typeid,
            _ => {
                return Err(owned("not a struct"));
            },
        };
        let defid = match self.ctx.interner.get(typeid).unwrap() {
            TypeDef::UserDef(defid) => *defid,
            _ => {
                return Err(owned("not a strcut"));
            },
        };
        let nfields = match &self.ctx.table.get_def(defid).unwrap().kind {
            DefKind::Struct(def) => def.fields.len(),
            _ => {
                return Err(owned("not a strcut"));
            },
        };
        if expr.fields.len() < nfields {
            return Err(owned("missing struct fields"));
        }
        let mut i: usize = 0;
        while i < expr.fields.len()
            invariant
                c0 == old(self).ctx,
                extends(c0, self.ctx),
                typeid.0 < c0.interner@.len(),
                defid.0 < c0.table@.defs.len(),
                c0.interner@[typeid.0 as int] == TypeShape::UserDef(defid),
                c0.table@.defs[defid.0 as int].kind is Struct,
                named_struct(c0, path_resolved(c0, scope.0 as int, expr.path.segments@)) == Some((typeid, defid)),
                expr.fields@.len() >= struct_fields(c0, defid).len(),
                forall|k: int| 0 <= k < i ==> field_type(struct_fields(c0, defid), (#[trigger] expr.fields@[k]).name.name@) is Some,
                ck_fields(env_of(c0), state_of(c0), scope, expr.fields@, struct_fields(c0, defid), i as int, *block_ctx) == (
                    state_of(self.ctx),
                    true,
                ),
                checkable_fields(expr.fields@),
                bctx_ok(*block_ctx, c0),
                i <= expr.fields@.len(),
            decreases expr.fields.len() - i,
        {
            let field = &expr.fields[i];
            proof {
                lemma_fields_size(expr.fields@, i as int);
                lemma_checkable_fields(expr.fields@, i as int);
                assert(self.ctx.table@.defs[defid.0 as int] == c0.table@.defs[defid.0 as int]);
                assert(self.ctx.interner@[typeid.0 as int] == c0.interner@[typeid.0 as int]);
            }
            let field_type = match &self.ctx.table.get_def(defid).unwrap().kind {
                DefKind::Struct(def) => def.get_field(field.name.str()),
                _ => None,
            };
            let field_type = match field_type {
                Some(t) => {
                    proof {
                        lemma_field_type_valid(self.ctx, defid.0 as int, field.name.name@);
                    }
                    t
                },
                None => {
                    proof {
                        assert(ck_fields(env_of(c0), state_of(c0), scope, expr.fields@, struct_fields(c0, defid), i + 1, *block_ctx) == (state_of(self.ctx), false));
                        lemma_fields_stop(env_of(c0), state_of(c0), scope, expr.fields@, struct_fields(c0, defid), i + 1, expr.fields@.len() as int, *block_ctx);
                        lemma_fields_error_stop(env_of(c0), state_of(c0), scope, expr.fields@, struct_fields(c0, defid), i + 1, expr.fields@.len() as int, *block_ctx, self.ctx, typeid);
                        lemma_init_unfold(env_of(c0), state_of(c0), scope, *expr, *block_ctx, typeid, defid);
                    }
                    let mut msg = owned(self.ctx.name_of_type(typeid).as_str());
                    msg.append(" does not have field '");
                    msg.append(field.name.str());
                    msg.append("'");
                    return Err(msg);
                },
            };
            let ghost c1 = self.ctx;
            let exprid = self.resolve_expr(scope, &field.value, block_ctx);
            proof {
                lemma_extends_trans(c0, c1, self.ctx);
            }
            let exprid = match exprid {
                Ok(t) => t,
                Err(e) => {
                    proof {
                        assert(ck_fields(env_of(c0), state_of(c0), scope, expr.fields@, struct_fields(c0, defid), i + 1, *block_ctx) == (state_of(self.ctx), false));
                        lemma_fields_stop(env_of(c0), state_of(c0), scope, expr.fields@, struct_fields(c0, defid), i + 1, expr.fields@.len() as int, *block_ctx);
                        lemma_fields_error_stop(env_of(c0), state_of(c0), scope, expr.fields@, struct_fields(c0, defid), i + 1, expr.fields@.len() as int, *block_ctx, self.ctx, typeid);
                        lemma_init_unfold(env_of(c0), state_of(c0), scope, *expr, *block_ctx, typeid, defid);
                    }
                    return Err(e);
                },
            };
            if exprid != field_type {
                proof {
                    assert(ck_fields(env_of(c0), state_of(c0), scope, expr.fields@, struct_fields(c0, defid), i + 1, *block_ctx) == (state_of(self.ctx), false));
                    lemma_fields_stop(env_of(c0), state_of(c0), scope, expr.fields@, struct_fields(c0, defid), i + 1, expr.fields@.len() as int, *block_ctx);
                        lemma_fields_error_stop(env_of(c0), state_of(c0), scope, expr.fields@, struct_fields(c0, defid), i + 1, expr.fields@.len() as int, *block_ctx, self.ctx, typeid);
                    lemma_init_unfold(env_of(c0), state_of(c0), scope, *expr, *block_ctx, typeid, defid);
                }
                return Err(self.two_names("expected ", field_type, ", found ", exprid));
            }
            i = i + 1;
        }
        proof {
            lemma_init_unfold(env_of(c0), state_of(c0), scope, *expr, *block_ctx, typeid, defid);
        }
        proof {
            assert(self.ctx.table@.defs[defid.0 as int] == c0.table@.defs[defid.0 as int]);
            assert(self.ctx.interner@[typeid.0 as int] == c0.interner@[typeid.0 as int]);
        }
        Ok(typeid)
    }

    /// The value of a block: the type of its last statement when that is
    /// an expression, `void` otherwise.
    pub fn resolve_block_value(&mut self, scope: ScopeID, stmts: &[Stmt], block_ctx: &BlockCtx) -> (r: Result<TypeID, String>)
        requires
            old(self).ctx.wf(),
            checkable_stmts(stmts@),
            bctx_ok(*block_ctx, old(self).ctx),
        ensures
            extends(old(self).ctx, final(self).ctx),
            r matches Ok(t) ==> t.0 < final(self).ctx.interner@.len(),
            stmts@.len() == 0 ==> r == Ok::<TypeID, String>(old(self).ctx.primitives.void),
            r is Ok ==> forall|k: int| 0 <= k < stmts@.len() ==> stmt_allowed(#[trigger] stmts@[k], *block_ctx),
            (state_of(final(self).ctx), ok_value(r)) == ck_block_value(env_of(old(self).ctx), state_of(old(self).ctx), scope, stmts@, *block_ctx),
        decreases stmts_size(stmts@), 8int,
    {
        let ghost c0 = self.ctx;
        proof {
            lemma_extends_refl(self.ctx);
        }
        if stmts.len() == 0 {
            return Ok(self.ctx.primitives.void);
        }
        let n = stmts.len() - 1;
        let mut i: usize = 0;
        while i < n
            invariant
                c0 == old(self).ctx,
                extends(c0, self.ctx),
                n + 1 == stmts@.len(),
                checkable_stmts(stmts@),
                bctx_ok(*block_ctx, c0),
                i <= n,
                forall|k: int| 0 <= k < i ==> stmt_allowed(#[trigger] stmts@[k], *block_ctx),
                ck_stmts(env_of(c0), state_of(c0), scope, stmts@, i as int, *block_ctx) == (state_of(self.ctx), true),
            decreases n - i,
        {
            proof {
                lemma_stmts_size(stmts@, i as int);
                lemma_checkable_stmts(stmts@, i as int);
            }
            let ghost c1 = self.ctx;
            let r = self.resolve_stmt(scope, &stmts[i], block_ctx);
            proof {
                lemma_extends_trans(c0, c1, self.ctx);
            }
            if r.is_err() {
                proof {
                    assert(ck_stmts(env_of(c0), state_of(c0), scope, stmts@, i + 1, *block_ctx) == (state_of(self.ctx), false));
                    lemma_stmts_stop(env_of(c0), state_of(c0), scope, stmts@, i + 1, n as int, *block_ctx);
                    lemma_block_value_unfold(env_of(c0), state_of(c0), scope, stmts@, *block_ctx);
                }
                return Err(r.unwrap_err());
            }
            i = i + 1;
        }
        proof {
            lemma_stmts_size(stmts@, n as int);
            lemma_checkable_stmts(stmts@, n as int);
            lemma_block_value_unfold(env_of(c0), state_of(c0), scope, stmts@, *block_ctx);
        }
        let ghost c1 = self.ctx;
        match &stmts[n] {
            Stmt::Expr(expr) => {
                let r = self.resolve_expr(scope, expr, block_ctx);
                proof {
                    lemma_extends_trans(c0, c1, self.ctx);
                }
                r
            },
            last => {
                let r = self.resolve_stmt(scope, last, block_ctx);
                proof {
                    lemma_extends_trans(c0, c1, self.ctx);
                }
                r?;
                Ok(self.ctx.primitives.void)
            },
        }
    }

    /// Checks a statement: `break` and `continue` only where allowed,
    /// `return` with a value exactly when one is expected, and a local
    /// whose value fits its declared type, which is then defined.
    pub fn resolve_stmt(&mut self, scope: ScopeID, stmt: &Stmt, block_ctx: &BlockCtx) -> (r: Result<(), String>)
        requires
            old(self).ctx.wf(),
            checkable_stmt(*stmt),
            bctx_ok(*block_ctx, old(self).ctx),
        ensures
            extends(old(self).ctx, final(self).ctx),
            *stmt is Break ==> (r is Ok <==> block_ctx.allow_break) && final(self).ctx == old(self).ctx,
            *stmt is Continue ==> (r is Ok <==> block_ctx.allow_continue) && final(self).ctx == old(self).ctx,
            *stmt matches Stmt::Return(None) ==> (r is Ok <==> block_ctx.expected_return is None),
            *stmt matches Stmt::Return(Some(_)) && block_ctx.expected_return is None ==> (r matches Err(e) && e@
                == "unexpected return value in void function"@),
            *stmt matches Stmt::Local(l) ==> (r is Ok ==> local_defined(final(self).ctx.table@, scope.0 as int, l.name.name@)),
            r is Ok ==> stmt_allowed(*stmt, *block_ctx),
            (state_of(final(self).ctx), r is Ok) == ck_stmt(env_of(old(self).ctx), state_of(old(self).ctx), scope, *stmt, *block_ctx),
            stmt_own_error(env_of(old(self).ctx), state_of(old(self).ctx), scope, *stmt, *block_ctx, final(self).ctx) matches Some(m) ==> (r matches Err(e) && e@ == m),
        decreases stmt_size(*stmt), 9int,
    {
        let ghost c0 = self.ctx;
        proof {
            lemma_extends_refl(self.ctx);
        }
        match stmt {
            Stmt::Break => {
                if !block_ctx.allow_break {
                    return Err(owned("Not allowed Break here"));
                }
            },
            Stmt::Continue => {
                if !block_ctx.allow_continue {
                    return Err(owned("Not allowed Continue here"));
                }
            },
            Stmt::Return(value) => match (block_ctx.expected_return, value) {
                (Some(expected), None) => {
                    return Err(self.one_name("expected return value of type ", expected));
                },
                (None, Some(_)) => {
                    return Err(owned("unexpected return value in void function"));
                },
                (Some(expected), Some(expr)) => {
                    let ret_type = self.resolve_expr(scope, expr, block_ctx)?;
                    if !self.ctx.is_coercible(ret_type, expected) {
                        return Err(self.two_names("expected return type ", expected, ", found ", ret_type));
                    }
                },
                (None, None) => {},
            },
            Stmt::Local(local) => {
                let var_type = match &local.var_type {
                    Some(t) => self.ctx.type_to_id(scope, t),
                    None => {
                        proof {
                            assert(false);
                        }
                        return Err(owned("missing type"));
                    },
                };
                proof {
                    lemma_interned_extends(c0, self.ctx);
                }
                let var_type = var_type?;
                if let Some(expr) = &local.initializer {
                    let ghost c1 = self.ctx;
                    let expr_type = self.resolve_expr(scope, expr, block_ctx);
                    proof {
                        lemma_extends_trans(c0, c1, self.ctx);
                    }
                    let expr_type = expr_type?;
                    if !self.ctx.is_coercible(expr_type, var_type) {
                        return Err(self.two_names("expected ", var_type, ", found ", expr_type));
                    }
                }
                let ghost c2 = self.ctx;
                let def = Definition { name: local.name.name.clone(), kind: DefKind::Variable { typeid: var_type } };
                let ghost gdef = def;
                let res = self.ctx.table.define(scope, def);
                proof {
                    if res is Ok {
                        assert(self.ctx.table@ == c2.table@.define_model(scope.0 as int, gdef));
                        let k = c2.table@.defs.len() as int;
                        assert(self.ctx.table@.defs[k] == gdef);
                        assert(def_type_ids(gdef.kind) =~= seq![var_type]);
                        crate::symbols::law_define_then_lookup_local(c2.table@, scope.0 as int, gdef);
                    }
                    lemma_table_grows(c2, self.ctx);
                    lemma_extends_trans(c0, c2, self.ctx);
                }
                res?;
                proof {
                    let k = c2.table@.defs.len() as int;
                    assert(gdef.name@ == local.name.name@);
                    assert(self.ctx.table@.lookup_local(scope.0 as int, local.name.name@) == Some(DefID(k as usize)));
                    assert(self.ctx.table@.defs[k].kind is Variable);
                    assert(self.ctx.table@.defs.len() == k + 1);
                    assert(local_defined(self.ctx.table@, scope.0 as int, local.name.name@));
                }
            },
            Stmt::Expr(expr) => {
                self.resolve_expr(scope, expr, block_ctx)?;
            },
            Stmt::Defer(expr) => {
                self.resolve_expr(scope, expr, block_ctx)?;
            },
        }
        Ok(())
    }

    /// Checks the statements of a block in order, stopping at the first error.
    pub fn resolve_block(&mut self, scope: ScopeID, stmts: &[Stmt], block_ctx: &BlockCtx) -> (r: Result<(), String>)
        requires
            old(self).ctx.wf(),
            checkable_stmts(stmts@),
            bctx_ok(*block_ctx, old(self).ctx),
        ensures
            extends(old(self).ctx, final(self).ctx),
            stmts@.len() == 0 ==> (r is Ok && final(self).ctx == old(self).ctx),
            r is Ok ==> forall|k: int| 0 <= k < stmts@.len() ==> stmt_allowed(#[trigger] stmts@[k], *block_ctx),
            (state_of(final(self).ctx), r is Ok) == ck_block(env_of(old(self).ctx), state_of(old(self).ctx), scope, stmts@, *block_ctx),
        decreases stmts_size(stmts@), 8int,
    {
        let ghost c0 = self.ctx;
        proof {
            lemma_extends_refl(self.ctx);
        }
        let mut i: usize = 0;
        while i < stmts.len()
            invariant
                c0 == old(self).ctx,
                extends(c0, self.ctx),
                checkable_stmts(stmts@),
                bctx_ok(*block_ctx, c0),
                i <= stmts@.len(),
                stmts@.len() == 0 ==> self.ctx == c0,
                forall|k: int| 0 <= k < i ==> stmt_allowed(#[trigger] stmts@[k], *block_ctx),
                ck_stmts(env_of(c0), state_of(c0), scope, stmts@, i as int, *block_ctx) == (state_of(self.ctx), true),
            decreases stmts.len() - i,
        {
            proof {
                lemma_stmts_size(stmts@, i as int);
                lemma_checkable_stmts(stmts@, i as int);
            }
            let ghost c1 = self.ctx;
            let r = self.resolve_stmt(scope, &stmts[i], block_ctx);
            proof {
                lemma_extends_trans(c0, c1, self.ctx);
            }
            if r.is_err() {
                proof {
                    assert(ck_stmts(env_of(c0), state_of(c0), scope, stmts@, i + 1, *block_ctx) == (state_of(self.ctx), false));
                    lemma_stmts_stop(env_of(c0), state_of(c0), scope, stmts@, i + 1, stmts@.len() as int, *block_ctx);
                }
                return Err(r.unwrap_err());
            }
            i = i + 1;
        }
        Ok(())
    }
}

/// Interning (and nothing else) extends the context.
proof fn lemma_interned_extends(a: Context, b: Context)
    requires
        a.wf(),
        b.wf(),
        b.table == a.table,
        b.methods == a.methods,
        b.primitives == a.primitives,
        b.interner@.len() >= a.interner@.len(),
        forall|i: int| 0 <= i < a.interner@.len() ==> #[trigger] b.interner@[i] == a.interner@[i],
    ensures
        extends(a, b),
{
}


/// Whether a block context allows a statement's jump: `break` and
/// `continue` where the block allows them, `return` with a value exactly
/// when the function returns one.
pub open spec fn stmt_allowed(s: Stmt, b: BlockCtx) -> bool {
    match s {
        Stmt::Break => b.allow_break,
        Stmt::Continue => b.allow_continue,
        Stmt::Return(None) => b.expected_return is None,
        Stmt::Return(Some(_)) => b.expected_return is Some,
        _ => true,
    }
}

// ----- what a failed rule says -----
/// The message when `l op r` has operand types that the operator refuses.
pub open spec fn binop_error(c: Context, op: Operator, l: TypeID, r: TypeID) -> Seq<char> {
    match op {
        Operator::Add | Operator::Sub | Operator::Mul | Operator::Div => "cannot "@ + operator_name(op) + " "@
            + c.spec_type_name(l) + " and "@ + c.spec_type_name(r),
        Operator::And | Operator::Or => "expected bool, found "@ + c.spec_type_name(l) + " and "@ + c.spec_type_name(r),
        _ => "cannot compare "@ + c.spec_type_name(l) + " and "@ + c.spec_type_name(r),
    }
}

/// The message when `op e` has an operand type that the operator refuses.
pub open spec fn unop_error(c: Context, op: Operator, t: TypeID) -> Seq<char> {
    match op {
        Operator::Neg => "cannot negate "@ + c.spec_type_name(t),
        Operator::Not => "expected bool, found "@ + c.spec_type_name(t),
        _ => "cannot dereference "@ + c.spec_type_name(t),
    }
}

/// The message when a value of type `found` stands where `expected` is
/// needed.
pub open spec fn mismatch_error(c: Context, prefix: Seq<char>, expected: TypeID, found: TypeID) -> Seq<char> {
    prefix + c.spec_type_name(expected) + ", found "@ + c.spec_type_name(found)
}

/// The message of `l op r` when both operands check and the operator
/// refuses their types; `c` names the types.
pub open spec fn binop_own_error(
    env: CheckEnv,
    st: CheckState,
    scope: ScopeID,
    l: Expr,
    op: Operator,
    r: Expr,
    b: BlockCtx,
    c: Context,
) -> Option<Seq<char>> {
    match ck_expr(env, st, scope, l, b) {
        (s1, Some(lt)) => match ck_expr(env, s1, scope, r, b) {
            (s2, Some(rt)) => if binop_type(env, s2, op, lt, rt) is None {
                Some(binop_error(c, op, lt, rt))
            } else {
                None
            },
            _ => None,
        },
        _ => None,
    }
}

/// The message of `op e` when the operand checks and the operator refuses
/// its type.
pub open spec fn unop_own_error(env: CheckEnv, st: CheckState, scope: ScopeID, op: Operator, e: Expr, b: BlockCtx, c: Context) -> Option<
    Seq<char>,
> {
    match ck_expr(env, st, scope, e, b) {
        (s1, Some(t)) => match op {
            Operator::Neg => if env.primitives.spec_is_negatable(t) {
                None
            } else {
                Some(unop_error(c, op, t))
            },
            Operator::Not => if t == env.primitives.bool_ {
                None
            } else {
                Some(unop_error(c, op, t))
            },
            Operator::Deref => if s1.types[t.0 as int] is Pointer {
                None
            } else {
                Some(unop_error(c, op, t))
            },
            _ => None,
        },
        _ => None,
    }
}

/// The message of an assignment to a place when both sides check and the
/// right side does not fit the left one.
pub open spec fn assign_own_error(env: CheckEnv, st: CheckState, scope: ScopeID, a: ExprAssign, b: BlockCtx, c: Context) -> Option<
    Seq<char>,
> {
    if !spec_is_lvalue(*a.left) {
        None
    } else {
        match ck_expr(env, st, scope, *a.left, b) {
            (s1, Some(lt)) => match ck_expr(env, s1, scope, *a.right, b) {
                (s2, Some(rt)) => if coercible(s2.types, rt, lt) {
                    None
                } else {
                    Some(mismatch_error(c, "expected "@, lt, rt))
                },
                _ => None,
            },
            _ => None,
        }
    }
}

/// The message of an `if` whose condition or branches check but break its
/// rule: a condition that is not `bool`, or branches of different types.
pub open spec fn if_own_error(env: CheckEnv, st: CheckState, scope: ScopeID, i: ExprIf, b: BlockCtx, c: Context) -> Option<
    Seq<char>,
> {
    match ck_expr(env, st, scope, *i.condition, b) {
        (s1, Some(ct)) => if ct != env.primitives.bool_ {
            Some("expected bool in if condition, found "@ + c.spec_type_name(ct))
        } else {
            match push_in(s1, scope) {
                (s2, Some(then_scope)) => match ck_block_value(env, s2, then_scope, i.then_branch.statements@, b) {
                    (s3, Some(tt)) => {
                        let other = match i.else_branch {
                            Some(e) => match push_in(s3, scope) {
                                (s4, Some(else_scope)) => ck_block_value(env, s4, else_scope, e.statements@, b).1,
                                (_, None) => None,
                            },
                            None => Some(env.primitives.void),
                        };
                        match other {
                            Some(et) => if tt != et {
                                Some("if branches have incompatible types: "@ + c.spec_type_name(tt) + " and "@
                                    + c.spec_type_name(et))
                            } else {
                                None
                            },
                            None => None,
                        }
                    },
                    _ => None,
                },
                _ => None,
            }
        },
        _ => None,
    }
}

/// The message of a call whose callee checks but cannot be called with
/// these arguments: it has no function type, another number of parameters,
/// or a parameter that an argument checks to a type that does not fit.
pub open spec fn call_own_error(env: CheckEnv, st: CheckState, scope: ScopeID, call: ExprCall, b: BlockCtx, c: Context) -> Option<
    Seq<char>,
> {
    match ck_expr(env, st, scope, *call.expr, b) {
        (s1, Some(f)) => match s1.types[f.0 as int] {
            TypeShape::FnPointer { params, .. } => if params.len() != call.args@.len() {
                Some("expected "@ + decimal(params.len()) + " arguments, found "@ + decimal(call.args@.len()))
            } else {
                args_own_error(env, s1, scope, call.args@, params, call.args@.len() as int, b, c)
            },
            _ => Some("type "@ + c.spec_type_name(f) + " is not callable"@),
        },
        _ => None,
    }
}

/// The message of a struct literal that its own rule refuses: its path
/// names nothing (`c0` gives the path's message) or no struct, it gives too
/// few fields, or a field it names is missing from the struct or gets a
/// value of another type (`c` names the types).
pub open spec fn init_own_error(env: CheckEnv, st: CheckState, scope: ScopeID, i: ExprInit, b: BlockCtx, c0: Context, c: Context) -> Option<
    Seq<char>,
> {
    match path_resolved_in(env, st, scope.0 as int, i.path.segments@) {
        Some(Resolved::Type(t, _)) => match st.types[t.0 as int] {
            TypeShape::UserDef(d) => match st.table.defs[d.0 as int].kind {
                DefKind::Struct(sd) => if i.fields@.len() < sd.fields@.len() {
                    Some("missing struct fields"@)
                } else {
                    fields_own_error(env, st, scope, i.fields@, sd.fields@, i.fields@.len() as int, b, c, t)
                },
                _ => Some("not a strcut"@),
            },
            _ => Some("not a strcut"@),
        },
        Some(_) => Some("not a struct"@),
        None => Some(path_error(c0, scope.0 as int, i.path.segments@)),
    }
}

/// The message of a statement that breaks its own rule once what it
/// contains checks: a jump the block does not allow, a `return` without the
/// value the function gives or with a value that does not fit, a local
/// whose value does not fit its type or whose name is taken.
pub open spec fn stmt_own_error(env: CheckEnv, st: CheckState, scope: ScopeID, s: Stmt, b: BlockCtx, c: Context) -> Option<
    Seq<char>,
> {
    match s {
        Stmt::Break => if b.allow_break {
            None
        } else {
            Some("Not allowed Break here"@)
        },
        Stmt::Continue => if b.allow_continue {
            None
        } else {
            Some("Not allowed Continue here"@)
        },
        Stmt::Return(None) => match b.expected_return {
            Some(t) => Some("expected return value of type "@ + c.spec_type_name(t)),
            None => None,
        },
        Stmt::Return(Some(e)) => match b.expected_return {
            Some(x) => match ck_expr(env, st, scope, e, b) {
                (s1, Some(t)) => if coercible(s1.types, t, x) {
                    None
                } else {
                    Some(mismatch_error(c, "expected return type "@, x, t))
                },
                _ => None,
            },
            None => Some("unexpected return value in void function"@),
        },
        Stmt::Local(l) => match l.var_type {
            Some(ty) => {
                let (types, vt) = spec_type_to_id(st.types, st.table, scope.0 as int, ty);
                match vt {
                    Some(vt) => {
                        let after = match l.initializer {
                            Some(init) => match ck_expr(env, with_types(st, types), scope, *init, b) {
                                (s2, Some(et)) => if coercible(s2.types, et, vt) {
                                    Ok(s2)
                                } else {
                                    Err(Some(mismatch_error(c, "expected "@, vt, et)))
                                },
                                (_, None) => Err(None),
                            },
                            None => Ok(with_types(st, types)),
                        };
                        match after {
                            Ok(s2) => if scope.0 >= s2.table.scopes.len() {
                                Some(invalid_scope_message(scope.0))
                            } else if s2.table.lookup_local(scope.0 as int, l.name.name@) is Some {
                                Some(already_defined_message(l.name.name@))
                            } else {
                                None
                            },
                            Err(m) => m,
                        }
                    },
                    None => None,
                }
            },
            None => None,
        },
        _ => None,
    }
}

/// The message of `e.name` when `e` checks and its type has no such field
/// or method.
pub open spec fn access_own_error(env: CheckEnv, st: CheckState, scope: ScopeID, a: ExprAccess, b: BlockCtx, c: Context) -> Option<
    Seq<char>,
> {
    match ck_expr(env, st, scope, *a.expr, b) {
        (s1, Some(t)) => if member_type_in(env, s1, t, a.segment.name.name@) is None {
            Some(no_member_message(c, t, a.segment.name.name@))
        } else {
            None
        },
        _ => None,
    }
}

/// The message of a function that cannot be checked against its
/// definition: it is not defined in `scope` as a function with a function
/// type, its body scope cannot be made, or it writes another number of
/// parameters than its type has.
pub open spec fn fn_own_error(st: CheckState, scope: ScopeID, decl: FnDecl) -> Option<Seq<char>> {
    let name = decl.signature.name.name@;
    match st.table.lookup_local(scope.0 as int, name) {
        None => Some("Function '"@ + name + "' not found in symbol table"@),
        Some(d) => if d.0 >= st.table.defs.len() {
            Some("Definition for function '"@ + name + "' not found in symbol table"@)
        } else {
            match st.table.defs[d.0 as int].kind {
                DefKind::Function(sig) => if sig.typeid.0 >= st.types.len() {
                    Some("Function type for '"@ + name + "' not found in interner"@)
                } else {
                    match st.types[sig.typeid.0 as int] {
                        TypeShape::FnPointer { params, .. } => if scope.0 >= st.table.scopes.len() {
                            Some(invalid_parent_message(scope.0))
                        } else if params.len() != decl.signature.params@.len() {
                            Some(
                                "Function '"@ + name + "' expects "@ + decimal(params.len()) + " parameters, but "@ + decimal(
                                    decl.signature.params@.len(),
                                ) + " were provided"@,
                            )
                        } else {
                            None
                        },
                        _ => Some("Type for '"@ + name + "' is not a function pointer"@),
                    }
                },
                _ => Some("Definition for '"@ + name + "' is not a function"@),
            }
        },
    }
}

/// The message of the first of the first `n` arguments that checks but does
/// not fit its parameter, if that is where checking them stops.
pub open spec fn args_own_error(
    env: CheckEnv,
    st: CheckState,
    scope: ScopeID,
    args: Seq<Expr>,
    params: Seq<TypeID>,
    n: int,
    b: BlockCtx,
    c: Context,
) -> Option<Seq<char>>
    decreases n,
{
    if n <= 0 || n > args.len() {
        None
    } else {
        match ck_args(env, st, scope, args, params, n - 1, b) {
            (s1, true) => match ck_expr(env, s1, scope, args[n - 1], b) {
                (s2, Some(a)) => if coercible(s2.types, a, params[n - 1]) {
                    None
                } else {
                    Some(mismatch_error(c, "expected "@, params[n - 1], a))
                },
                _ => None,
            },
            (_, false) => args_own_error(env, st, scope, args, params, n - 1, b, c),
        }
    }
}

/// Once checking the arguments has stopped, later ones add no message.
proof fn lemma_args_error_stop(
    env: CheckEnv,
    st: CheckState,
    scope: ScopeID,
    args: Seq<Expr>,
    params: Seq<TypeID>,
    k: int,
    n: int,
    b: BlockCtx,
    c: Context,
)
    requires
        0 <= k <= n <= args.len(),
        !ck_args(env, st, scope, args, params, k, b).1,
    ensures
        args_own_error(env, st, scope, args, params, n, b, c) == args_own_error(env, st, scope, args, params, k, b, c),
    decreases n - k,
{
    if n > k {
        lemma_args_stop(env, st, scope, args, params, k, n - 1, b);
        lemma_args_error_stop(env, st, scope, args, params, k, n - 1, b, c);
    }
}

/// The message of the first of the first `n` fields of a literal of the
/// struct type `t` that the struct lacks or whose value checks but has
/// another type, if that is where checking them stops.
pub open spec fn fields_own_error(
    env: CheckEnv,
    st: CheckState,
    scope: ScopeID,
    fields: Seq<ExprInitField>,
    sf: Seq<(String, TypeID)>,
    n: int,
    b: BlockCtx,
    c: Context,
    t: TypeID,
) -> Option<Seq<char>>
    decreases n,
{
    if n <= 0 || n > fields.len() {
        None
    } else {
        match ck_fields(env, st, scope, fields, sf, n - 1, b) {
            (s1, true) => match field_type(sf, fields[n - 1].name.name@) {
                Some(ft) => match ck_expr(env, s1, scope, *fields[n - 1].value, b) {
                    (_, Some(et)) => if et == ft {
                        None
                    } else {
                        Some(mismatch_error(c, "expected "@, ft, et))
                    },
                    _ => None,
                },
                None => Some(c.spec_type_name(t) + " does not have field '"@ + fields[n - 1].name.name@ + "'"@),
            },
            (_, false) => fields_own_error(env, st, scope, fields, sf, n - 1, b, c, t),
        }
    }
}

proof fn lemma_fields_error_stop(
    env: CheckEnv,
    st: CheckState,
    scope: ScopeID,
    fields: Seq<ExprInitField>,
    sf: Seq<(String, TypeID)>,
    k: int,
    n: int,
    b: BlockCtx,
    c: Context,
    t: TypeID,
)
    requires
        0 <= k <= n <= fields.len(),
        !ck_fields(env, st, scope, fields, sf, k, b).1,
    ensures
        fields_own_error(env, st, scope, fields, sf, n, b, c, t) == fields_own_error(env, st, scope, fields, sf, k, b, c, t),
    decreases n - k,
{
    if n > k {
        lemma_fields_stop(env, st, scope, fields, sf, k, n - 1, b);
        lemma_fields_error_stop(env, st, scope, fields, sf, k, n - 1, b, c, t);
    }
}

/// Every function body of the unit can be given to the checker.
pub open spec fn checkable_unit(decls: Seq<Decl>) -> bool {
    forall|i: int| 0 <= i < decls.len() ==> ((#[trigger] decls[i]) matches Decl::Fn(f) ==> checkable_stmts(
        f.block.statements@,
    ))
}

/// How many top-level function declarations there are.
pub open spec fn fn_count(decls: Seq<Decl>) -> nat
    decreases decls.len(),
{
    if decls.len() == 0 {
        0
    } else {
        fn_count(decls.drop_last()) + if decls.last() is Fn {
            1nat
        } else {
            0
        }
    }
}

/// `f` is the checked form of the function declaration `fd` of `scope`,
/// checked from the state `st`: it has the function's name, definition and
/// type, the body scope made for it, and the parameters defined right after
/// what `st` held.
pub open spec fn checked_form(st: CheckState, scope: ScopeID, fd: FnDecl, f: typed_ast::FnDecl) -> bool {
    &&& fn_signature_in(st, scope.0 as int, fd.signature.name.name@) matches Some((d, t, _, _))
    &&& f.defid == d
    &&& f.typeid == t
    &&& f.signature.name.name@ == fd.signature.name.name@
    &&& f.scopeid == ScopeID(st.table.scopes.len() as usize)
    &&& f.signature.params@.len() == fd.signature.params@.len()
    &&& forall|i: int|
        #![trigger f.signature.params@[i]]
        0 <= i < fd.signature.params@.len() ==> f.signature.params@[i] == DefID((st.table.defs.len() + i) as usize)
    &&& f.block.statements@.len() == 0
}

/// Every function declaration among the first `n` of `decls` has, in `out`
/// at its place among the functions, its checked form from the state that
/// checking had reached when it came.
pub open spec fn checked_forms(env: CheckEnv, st: CheckState, scope: ScopeID, decls: Seq<Decl>, n: int, out: Seq<typed_ast::FnDecl>) -> bool {
    forall|k: int|
        #![trigger decls[k]]
        0 <= k < n ==> (decls[k] matches Decl::Fn(fd) ==> checked_form(
            ck_decls(env, st, scope, decls, k).0,
            scope,
            fd,
            out[fn_count(decls.take(k)) as int],
        ))
}

/// A function among the first `k` declarations comes before the functions
/// of any longer prefix.
proof fn lemma_fn_count_prefix(decls: Seq<Decl>, k: int, n: int)
    requires
        0 <= k < n <= decls.len(),
        decls[k] is Fn,
    ensures
        fn_count(decls.take(k)) < fn_count(decls.take(n)),
    decreases n - k,
{
    assert(decls.take(n).drop_last() =~= decls.take(n - 1));
    assert(decls.take(n).last() == decls[n - 1]);
    if n - 1 > k {
        lemma_fn_count_prefix(decls, k, n - 1);
    } else {
        assert(decls.take(k) =~= decls.take(n - 1));
    }
}

/// What `resolve_fn` finds for the function `name` of `scope`: its
/// definition, a function whose type is a function pointer.
pub open spec fn fn_signature_of(ctx: Context, scope: int, name: Seq<char>) -> Option<(DefID, TypeID, Seq<TypeID>, TypeID)> {
    fn_signature_in(state_of(ctx), scope, name)
}

impl Checker {
    fn name_message(prefix: &str, name: &str, suffix: &str) -> (r: String)
        ensures
            r@ == prefix@ + name@ + suffix@,
    {
        let mut msg = owned(prefix);
        msg.append(name);
        msg.append(suffix);
        msg
    }

    /// Checks a function: its definition must be a function of the unit's
    /// scope whose type is a function pointer with as many parameters as
    /// the declaration has; the parameters are defined in a new scope and
    /// the body is checked there against the return type.
    pub fn resolve_fn(&mut self, scope: ScopeID, decl: &FnDecl) -> (r: Result<typed_ast::FnDecl, String>)
        requires
            old(self).ctx.wf(),
            checkable_stmts(decl.block.statements@),
        ensures
            extends(old(self).ctx, final(self).ctx),
            fn_signature_of(old(self).ctx, scope.0 as int, decl.signature.name.name@) is None ==> r is Err,
            r matches Ok(f) ==> {
                &&& fn_signature_of(old(self).ctx, scope.0 as int, decl.signature.name.name@) matches Some((defid, typeid, params, _))
                &&& f.typeid == typeid
                &&& f.defid == defid
                &&& params.len() == decl.signature.params@.len()
                &&& f.signature.name.name@ == decl.signature.name.name@
                &&& f.signature.params@.len() == decl.signature.params@.len()
                &&& f.scopeid == ScopeID(old(self).ctx.table@.scopes.len() as usize)
                &&& f.block.statements@.len() == 0
            },
            (state_of(final(self).ctx), r is Ok) == ck_fn(env_of(old(self).ctx), state_of(old(self).ctx), scope, *decl),
            r is Ok ==> fn_signature_of(old(self).ctx, scope.0 as int, decl.signature.name.name@) is Some,
            r matches Ok(f) ==> checked_form(state_of(old(self).ctx), scope, *decl, f),
            r matches Ok(f) ==> forall|i: int|
                #![trigger f.signature.params@[i]]
                0 <= i < decl.signature.params@.len() ==> f.signature.params@[i] == DefID(
                    (old(self).ctx.table@.defs.len() + i) as usize,
                ),
            r matches Ok(f) ==> forall|i: int|
                #![trigger decl.signature.params@[i]]
                0 <= i < decl.signature.params@.len() ==> final(self).ctx.table@.defs[old(self).ctx.table@.defs.len() + i]
                    == var_def(
                    decl.signature.params@[i].name.name,
                    fn_signature_of(old(self).ctx, scope.0 as int, decl.signature.name.name@).unwrap().2[i],
                ),
            r matches Ok(f) ==> forall|i: int|
                #![trigger f.signature.params@[i]]
                0 <= i < decl.signature.params@.len() ==> params_state(
                    state_of(old(self).ctx),
                    scope,
                    *decl,
                    fn_signature_of(old(self).ctx, scope.0 as int, decl.signature.name.name@).unwrap().2,
                ).table.lookup_local(f.scopeid.0 as int, decl.signature.params@[i].name.name@) == Some(
                    f.signature.params@[i],
                ),
            fn_own_error(state_of(old(self).ctx), scope, *decl) matches Some(m) ==> (r matches Err(e) && e@ == m),
            r is Ok ==> (fn_signature_of(old(self).ctx, scope.0 as int, decl.signature.name.name@) matches Some(
                (_, _, _, ret),
            ) && forall|k: int| 0 <= k < decl.block.statements@.len() ==> stmt_allowed(
                #[trigger] decl.block.statements@[k],
                (BlockCtx { allow_break: false, allow_continue: false, expected_return: Some(ret) }),
            )),
    {
        let ghost c0 = self.ctx;
        proof {
            lemma_extends_refl(self.ctx);
        }
        let fn_name = decl.signature.name.str();
        let defid = match self.ctx.table.lookup_local(scope, fn_name) {
            Some(d) => d,
            None => {
                return Err(Self::name_message("Function '", fn_name, "' not found in symbol table"));
            },
        };
        let def = match self.ctx.table.get_def(defid) {
            Some(d) => d,
            None => {
                return Err(Self::name_message("Definition for function '", fn_name, "' not found in symbol table"));
            },
        };
        let typeid = match &def.kind {
            DefKind::Function(sig) => sig.typeid,
            _ => {
                return Err(Self::name_message("Definition for '", fn_name, "' is not a function"));
            },
        };
        let (params, return_type) = match self.ctx.interner.get(typeid) {
            Some(TypeDef::FnPointer(fntype)) => (copy_ids(&fntype.params), fntype.return_type),
            Some(_) => {
                return Err(Self::name_message("Type for '", fn_name, "' is not a function pointer"));
            },
            None => {
                return Err(Self::name_message("Function type for '", fn_name, "' not found in interner"));
            },
        };
        proof {
            let comps = components(c0.interner@[typeid.0 as int]);
            assert forall|k: int| 0 <= k < params@.len() implies (#[trigger] params@[k]).0 < c0.interner@.len() by {
                assert(comps[k] == params@[k]);
            }
            assert(comps[params@.len() as int] == return_type);
        }
        let body_scope = self.push_scope(scope)?;
        let ghost c1 = self.ctx;
        if params.len() != decl.signature.params.len() {
            let mut msg = owned("Function '");
            msg.append(fn_name);
            msg.append("' expects ");
            push_decimal(&mut msg, params.len());
            msg.append(" parameters, but ");
            push_decimal(&mut msg, decl.signature.params.len());
            msg.append(" were provided");
            return Err(msg);
        }
        let mut params_defid: Vec<DefID> = Vec::new();
        let mut i: usize = 0;
        proof {
            assert(fn_signature_in(state_of(c0), scope.0 as int, decl.signature.name.name@) == Some(
                (defid, typeid, params@, return_type),
            ));
        }
        while i < params.len()
            invariant
                c0 == old(self).ctx,
                extends(c0, c1),
                extends(c1, self.ctx),
                params@.len() == decl.signature.params@.len(),
                forall|k: int| 0 <= k < params@.len() ==> (#[trigger] params@[k]).0 < c0.interner@.len(),
                i <= params@.len(),
                params_defid@.len() == i,
                fn_signature_in(state_of(c0), scope.0 as int, decl.signature.name.name@) == Some(
                    (defid, typeid, params@, return_type),
                ),
                push_in(state_of(c0), scope) == (state_of(c1), Some(body_scope)),
                ck_params(state_of(c1), body_scope, decl.signature.params@, params@, i as int) == (state_of(self.ctx), true),
                body_scope.0 < self.ctx.table@.scopes.len(),
                body_scope == ScopeID(c0.table@.scopes.len() as usize),
                self.ctx.table@.defs.len() == c0.table@.defs.len() + i,
                forall|k: int|
                    0 <= k < i ==> {
                        &&& #[trigger] params_defid@[k] == DefID((c0.table@.defs.len() + k) as usize)
                        &&& self.ctx.table@.defs[c0.table@.defs.len() + k] == var_def(
                            decl.signature.params@[k].name.name,
                            params@[k],
                        )
                        &&& self.ctx.table@.lookup_local(body_scope.0 as int, decl.signature.params@[k].name.name@)
                            == Some(params_defid@[k])
                    },
            decreases params.len() - i,
        {
            let ghost c2 = self.ctx;
            let def = Definition {
                name: decl.signature.params[i].name.name.clone(),
                kind: DefKind::Variable { typeid: params[i] },
            };
            let ghost gdef = def;
            let res = self.ctx.table.define(body_scope, def);
            proof {
                if res is Ok {
                    assert(self.ctx.table@ == c2.table@.define_model(body_scope.0 as int, gdef));
                    let k = c2.table@.defs.len() as int;
                    assert(self.ctx.table@.defs[k] == gdef);
                    assert(def_type_ids(gdef.kind) =~= seq![params@[i as int]]);
                }
                lemma_table_grows(c2, self.ctx);
                lemma_extends_trans(c1, c2, self.ctx);
                lemma_extends_trans(c0, c1, self.ctx);
            }
            let d = match res {
                Ok(d) => d,
                Err(e) => {
                    proof {
                        lemma_params_stop(
                            state_of(c1),
                            body_scope,
                            decl.signature.params@,
                            params@,
                            i + 1,
                            params@.len() as int,
                        );
                    }
                    return Err(e);
                },
            };
            let ghost before = params_defid@;
            params_defid.push(d);
            proof {
                let bs = body_scope.0 as int;
                let name = decl.signature.params@[i as int].name.name@;
                assert(self.ctx.table@ == c2.table@.define_model(bs, gdef));
                assert(gdef == var_def(decl.signature.params@[i as int].name.name, params@[i as int]));
                assert forall|k: int| 0 <= k < i + 1 implies {
                    &&& #[trigger] params_defid@[k] == DefID((c0.table@.defs.len() + k) as usize)
                    &&& self.ctx.table@.defs[c0.table@.defs.len() + k] == var_def(
                        decl.signature.params@[k].name.name,
                        params@[k],
                    )
                    &&& self.ctx.table@.lookup_local(bs, decl.signature.params@[k].name.name@) == Some(params_defid@[k])
                } by {
                    let nk = decl.signature.params@[k].name.name@;
                    crate::symbols::lemma_find_entry_push(c2.table@.scopes[bs].entries, nk, (name, d));
                    if k < i {
                        assert(params_defid@[k] == before[k]);
                    }
                }
            }
            i = i + 1;
        }
        proof {
            lemma_extends_trans(c0, c1, self.ctx);
        }
        let block_ctx = BlockCtx { allow_break: false, allow_continue: false, expected_return: Some(return_type) };
        let ghost c3 = self.ctx;
        let res = self.resolve_block(body_scope, decl.block.statements.as_slice(), &block_ctx);
        proof {
            lemma_extends_trans(c0, c3, self.ctx);
        }
        res?;
        proof {
            let base = c0.table@.defs.len() as int;
            assert(params_state(state_of(c0), scope, *decl, params@) == state_of(c3));
            assert forall|k: int| 0 <= k < params@.len() implies #[trigger] self.ctx.table@.defs[base + k] == c3.table@.defs[
                base + k
            ] by {
                assert(c3.table@.defs.len() == base + params@.len());
            }
            assert(fn_signature_of(c0, scope.0 as int, decl.signature.name.name@) == Some(
                (defid, typeid, params@, return_type),
            ));
            assert forall|k: int| 0 <= k < decl.signature.params@.len() implies {
                &&& #[trigger] params_defid@[k] == DefID((base + k) as usize)
                &&& self.ctx.table@.defs[base + k] == var_def(decl.signature.params@[k].name.name, params@[k])
                &&& params_state(state_of(c0), scope, *decl, params@).table.lookup_local(
                    body_scope.0 as int,
                    decl.signature.params@[k].name.name@,
                ) == Some(params_defid@[k])
            } by {
                assert(k < i);
                assert(params_defid@[k] == DefID((base + k) as usize));
                assert(c3.table@.defs[base + k] == var_def(decl.signature.params@[k].name.name, params@[k]));
                assert(self.ctx.table@.defs[base + k] == c3.table@.defs[base + k]);
                assert(c3.table@.lookup_local(body_scope.0 as int, decl.signature.params@[k].name.name@) == Some(
                    params_defid@[k],
                ));
            }
        }
        let f = typed_ast::FnDecl {
            signature: typed_ast::FnSignature {
                name: Ident { name: decl.signature.name.name.clone() },
                params: params_defid,
            },
            defid,
            block: Block { statements: Vec::new() },
            scopeid: body_scope,
            typeid,
        };
        proof {
            assert(f.signature.params@ == params_defid@);
            assert forall|i: int| #![trigger f.signature.params@[i]] 0 <= i < decl.signature.params@.len() implies {
                &&& f.signature.params@[i] == DefID((old(self).ctx.table@.defs.len() + i) as usize)
                &&& self.ctx.table@.defs[old(self).ctx.table@.defs.len() + i] == var_def(
                    decl.signature.params@[i].name.name,
                    params@[i],
                )
                &&& params_state(state_of(old(self).ctx), scope, *decl, params@).table.lookup_local(
                    f.scopeid.0 as int,
                    decl.signature.params@[i].name.name@,
                ) == Some(f.signature.params@[i])
            } by {
                assert(params_defid@[i] == f.signature.params@[i]);
            }
            assert(fn_signature_of(old(self).ctx, scope.0 as int, decl.signature.name.name@) == Some(
                (defid, typeid, params@, return_type),
            ));
            assert(match fn_signature_of(old(self).ctx, scope.0 as int, decl.signature.name.name@) {
                Some((_, _, types, _)) => types == params@,
                None => false,
            });
            let sig = fn_signature_of(old(self).ctx, scope.0 as int, decl.signature.name.name@);
            assert(sig.unwrap().2 == params@);
            assert forall|i: int| #![trigger f.signature.params@[i]] 0 <= i < decl.signature.params@.len() implies
                f.signature.params@[i] == DefID((old(self).ctx.table@.defs.len() + i) as usize) by {}
            assert forall|i: int| #![trigger decl.signature.params@[i]] 0 <= i < decl.signature.params@.len() implies
                self.ctx.table@.defs[old(self).ctx.table@.defs.len() + i] == var_def(
                    decl.signature.params@[i].name.name,
                    sig.unwrap().2[i],
                ) by {
                assert(f.signature.params@[i] == params_defid@[i]);
                assert(sig.unwrap().2[i] == params@[i]);
            }
            assert forall|i: int| #![trigger f.signature.params@[i]] 0 <= i < decl.signature.params@.len() implies
                params_state(state_of(old(self).ctx), scope, *decl, sig.unwrap().2).table.lookup_local(
                    f.scopeid.0 as int,
                    decl.signature.params@[i].name.name@,
                ) == Some(f.signature.params@[i]) by {}
        }
        Ok(f)
    }

    /// Checks every function of the unit, in order.
    pub fn check(&mut self, scope: ScopeID, unit: Unit) -> (r: Result<TypedUnit, String>)
        requires
            old(self).ctx.wf(),
            checkable_unit(unit.decls@),
        ensures
            extends(old(self).ctx, final(self).ctx),
            r matches Ok(u) ==> u.decls@.len() == fn_count(unit.decls@),
            r matches Ok(u) ==> forall|i: int| 0 <= i < u.decls@.len() ==> (#[trigger] u.decls@[i]).block.statements@.len() == 0,
            (state_of(final(self).ctx), r is Ok) == ck_decls(
                env_of(old(self).ctx),
                state_of(old(self).ctx),
                scope,
                unit.decls@,
                unit.decls@.len() as int,
            ),
            r matches Ok(u) ==> checked_forms(
                env_of(old(self).ctx),
                state_of(old(self).ctx),
                scope,
                unit.decls@,
                unit.decls@.len() as int,
                u.decls@,
            ),
    {
        let ghost c0 = self.ctx;
        proof {
            lemma_extends_refl(self.ctx);
        }
        let mut out = TypedUnit { decls: Vec::new() };
        let mut i: usize = 0;
        while i < unit.decls.len()
            invariant
                c0 == old(self).ctx,
                extends(c0, self.ctx),
                checkable_unit(unit.decls@),
                i <= unit.decls@.len(),
                out.decls@.len() == fn_count(unit.decls@.take(i as int)),
                forall|j: int| 0 <= j < out.decls@.len() ==> (#[trigger] out.decls@[j]).block.statements@.len() == 0,
                ck_decls(env_of(c0), state_of(c0), scope, unit.decls@, i as int) == (state_of(self.ctx), true),
                checked_forms(env_of(c0), state_of(c0), scope, unit.decls@, i as int, out.decls@),
            decreases unit.decls.len() - i,
        {
            proof {
                assert(unit.decls@.take(i + 1).drop_last() =~= unit.decls@.take(i as int));
                assert(unit.decls@.take(i + 1).last() == unit.decls@[i as int]);
            }
            match &unit.decls[i] {
                Decl::Fn(decl) => {
                    let ghost c1 = self.ctx;
                    let f = self.resolve_fn(scope, decl);
                    proof {
                        lemma_extends_trans(c0, c1, self.ctx);
                    }
                    let f = match f {
                        Ok(f) => f,
                        Err(e) => {
                            proof {
                                lemma_decls_stop(env_of(c0), state_of(c0), scope, unit.decls@, i + 1, unit.decls@.len() as int);
                            }
                            return Err(e);
                        },
                    };
                    let ghost before = out.decls@;
                    out.decls.push(f);
                    proof {
                        assert forall|k: int|
                            #![trigger unit.decls@[k]]
                            0 <= k < i + 1 implies (unit.decls@[k] matches Decl::Fn(fd) ==> checked_form(
                            ck_decls(env_of(c0), state_of(c0), scope, unit.decls@, k).0,
                            scope,
                            fd,
                            out.decls@[fn_count(unit.decls@.take(k)) as int],
                        )) by {
                            if k < i && unit.decls@[k] is Fn {
                                lemma_fn_count_prefix(unit.decls@, k, i as int);
                                assert(out.decls@[fn_count(unit.decls@.take(k)) as int] == before[fn_count(
                                    unit.decls@.take(k),
                                ) as int]);
                            }
                        }
                    }
                },
                _ => {},
            }
            i = i + 1;
        }
        proof {
            assert(unit.decls@.take(i as int) =~= unit.decls@);
        }
        Ok(out)
    }
}

/// Checks every function of `unit` against `ctx`.
pub fn check(ctx: &mut Context, scope: ScopeID, unit: Unit) -> (r: Result<TypedUnit, String>)
    requires
        old(ctx).wf(),
        checkable_unit(unit.decls@),
    ensures
        extends(*old(ctx), *final(ctx)),
        r matches Ok(u) ==> u.decls@.len() == fn_count(unit.decls@),
        r matches Ok(u) ==> forall|i: int| 0 <= i < u.decls@.len() ==> (#[trigger] u.decls@[i]).block.statements@.len() == 0,
        (state_of(*final(ctx)), r is Ok) == ck_decls(env_of(*old(ctx)), state_of(*old(ctx)), scope, unit.decls@, unit.decls@.len() as int),
        r matches Ok(u) ==> checked_forms(
            env_of(*old(ctx)),
            state_of(*old(ctx)),
            scope,
            unit.decls@,
            unit.decls@.len() as int,
            u.decls@,
        ),
{
    let mut taken = Context::new(crate::context::Primitives::default());
    std::mem::swap(ctx, &mut taken);
    let mut checker = Checker::new(taken);
    let r = checker.check(scope, unit);
    *ctx = checker.ctx;
    r
}

} // verus!
