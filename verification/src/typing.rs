//! The type checking rules, as functions of the checking state: the
//! interned types and the symbol table, which checking extends, and the
//! methods and primitives, which it only reads. Each function gives the
//! state after checking a node and what the check gave (a type, or whether
//! the node is accepted); `None` or `false` is an error.
use vstd::prelude::*;

use crate::ast::{
    Decl, Expr, ExprAccess, ExprAssign, ExprCall, ExprIf, ExprInit, ExprInitField, ExprValue,
    FnDecl, FnParam, Operator, Segment, Stmt,
};
use crate::checker::{
    def_resolved, deref_base, expr_size, exprs_size, fields_size, spec_is_lvalue, stmt_size, stmts_size,
    value_type, BlockCtx, Resolved,
};
use crate::context::{coercible, spec_type_to_id, Context, Primitives};
use crate::defkinds::{field_type, has_value};
use crate::methods::MethodTable;
use crate::symbols::{DefKind, Definition, TableView};
use crate::types::{intern_model, shape_index, DefID, ScopeID, TypeID, TypeShape};

verus! {

/// What checking reads and never changes.
pub struct CheckEnv {
    pub methods: MethodTable,
    pub primitives: Primitives,
}

/// What checking extends: the interned types and the symbol table.
pub struct CheckState {
    pub types: Seq<TypeShape>,
    pub table: TableView,
}

pub open spec fn env_of(c: Context) -> CheckEnv {
    CheckEnv { methods: c.methods, primitives: c.primitives }
}

pub open spec fn state_of(c: Context) -> CheckState {
    CheckState { types: c.interner@, table: c.table@ }
}

// ----- resolution of names -----
/// The type of the field or method `name` on a value of type `t`: methods
/// of the type that pointers lead to come first, then fields of a struct.
pub open spec fn member_type_in(env: CheckEnv, st: CheckState, t: TypeID, name: Seq<char>) -> Option<TypeID> {
    let b = deref_base(st.types, t.0 as int);
    match env.methods.method_of(TypeID(b as usize), name) {
        Some(m) => match st.table.defs[m.0 as int].kind {
            DefKind::Function(sig) => Some(sig.typeid),
            _ => None,
        },
        None => match st.types[b] {
            TypeShape::UserDef(d) => match st.table.defs[d.0 as int].kind {
                DefKind::Struct(sd) => field_type(sd.fields@, name),
                _ => None,
            },
            _ => None,
        },
    }
}

/// What `name` after `current` in a path resolves to.
pub open spec fn next_resolved_in(env: CheckEnv, st: CheckState, current: Resolved, name: Seq<char>) -> Option<Resolved> {
    match current {
        Resolved::Module(scope) => match st.table.lookup(scope.0 as int, name) {
            Some(d) => if d.0 < st.table.defs.len() {
                Some(def_resolved(st.table.defs[d.0 as int].kind, d))
            } else {
                None
            },
            None => None,
        },
        Resolved::Value(ty) => match member_type_in(env, st, ty, name) {
            Some(t) => Some(Resolved::Value(t)),
            None => None,
        },
        Resolved::Type(typeid, d) => match st.table.defs[d.0 as int].kind {
            DefKind::Enum(e) => if has_value(e.values@, name) {
                Some(Resolved::EnumValue(typeid))
            } else {
                None
            },
            _ => None,
        },
        Resolved::EnumValue(_) => None,
    }
}

/// The resolution after taking the segments of `segs` from `i` on.
pub open spec fn walk_resolved_in(env: CheckEnv, st: CheckState, segs: Seq<Segment>, i: int, cur: Resolved) -> Option<
    Resolved,
>
    decreases segs.len() - i,
{
    if i < 0 || i >= segs.len() {
        Some(cur)
    } else {
        match next_resolved_in(env, st, cur, segs[i].name.name@) {
            Some(n) => walk_resolved_in(env, st, segs, i + 1, n),
            None => None,
        }
    }
}

/// What a path resolves to in `scope`: its first segment is looked up, the
/// others are taken one after the other.
pub open spec fn path_resolved_in(env: CheckEnv, st: CheckState, scope: int, segs: Seq<Segment>) -> Option<Resolved> {
    if segs.len() == 0 {
        None
    } else {
        match st.table.lookup(scope, segs[0].name.name@) {
            Some(d) => if d.0 < st.table.defs.len() {
                walk_resolved_in(env, st, segs, 1, def_resolved(st.table.defs[d.0 as int].kind, d))
            } else {
                None
            },
            None => None,
        }
    }
}

/// The struct type that a path resolution names, with its definition.
pub open spec fn named_struct_in(st: CheckState, r: Option<Resolved>) -> Option<(TypeID, DefID)> {
    match r {
        Some(Resolved::Type(t, _)) => if t.0 < st.types.len() {
            match st.types[t.0 as int] {
                TypeShape::UserDef(d) => if d.0 < st.table.defs.len() && st.table.defs[d.0 as int].kind is Struct {
                    Some((t, d))
                } else {
                    None
                },
                _ => None,
            }
        } else {
            None
        },
        _ => None,
    }
}

/// The fields of the struct that definition `d` declares.
pub open spec fn struct_fields_in(st: CheckState, d: DefID) -> Seq<(String, TypeID)> {
    match st.table.defs[d.0 as int].kind {
        DefKind::Struct(sd) => sd.fields@,
        _ => seq![],
    }
}

// ----- small steps -----
pub open spec fn with_types(st: CheckState, types: Seq<TypeShape>) -> CheckState {
    CheckState { types, table: st.table }
}

/// Interns `d`, giving the state and the id.
pub open spec fn intern_in(st: CheckState, d: TypeShape) -> (CheckState, Option<TypeID>) {
    let (s, id) = intern_model(st.types, d);
    (with_types(st, s), Some(TypeID(id as usize)))
}

/// Adds a child scope of `parent`, which must exist.
pub open spec fn push_in(st: CheckState, parent: ScopeID) -> (CheckState, Option<ScopeID>) {
    if parent.0 < st.table.scopes.len() {
        (
            CheckState { types: st.types, table: st.table.push_model(parent) },
            Some(ScopeID(st.table.scopes.len() as usize)),
        )
    } else {
        (st, None)
    }
}

/// Defines `d` in `scope`, which must exist and not define its name yet.
pub open spec fn define_in(st: CheckState, scope: ScopeID, d: Definition) -> (CheckState, bool) {
    if scope.0 < st.table.scopes.len() && st.table.lookup_local(scope.0 as int, d.name@) is None {
        (CheckState { types: st.types, table: st.table.define_model(scope.0 as int, d) }, true)
    } else {
        (st, false)
    }
}

/// Values of type `t` can be compared with `==` and `!=`.
pub open spec fn comparable_in(env: CheckEnv, st: CheckState, t: TypeID) -> bool {
    env.primitives.spec_is_comparable(t) || (t.0 < st.types.len() && st.types[t.0 as int] is Pointer)
}

/// The type of `l op r` for operands of types `l` and `r`: arithmetic on
/// two equal numeric types gives that type; comparisons and `&&`, `||` give
/// `bool`.
pub open spec fn binop_type(env: CheckEnv, st: CheckState, op: Operator, l: TypeID, r: TypeID) -> Option<TypeID> {
    let p = env.primitives;
    match op {
        Operator::Add | Operator::Sub | Operator::Mul | Operator::Div => if l == r && p.spec_is_numeric(l) {
            Some(l)
        } else {
            None
        },
        Operator::Equal | Operator::NotEqual => if l == r && comparable_in(env, st, l) {
            Some(p.bool_)
        } else {
            None
        },
        Operator::Less | Operator::Greater | Operator::LessEqual | Operator::GreaterEqual => if l == r
            && p.spec_is_numeric(l) {
            Some(p.bool_)
        } else {
            None
        },
        Operator::And | Operator::Or => if l == p.bool_ && r == p.bool_ {
            Some(p.bool_)
        } else {
            None
        },
        _ => None,
    }
}

/// The numeric primitive types: the eight integer types and the two
/// float types.
pub open spec fn numeric_primitive(p: Primitives, t: TypeID) -> bool {
    ||| t == p.i8_ ||| t == p.i16_ ||| t == p.i32_ ||| t == p.i64_
    ||| t == p.u8_ ||| t == p.u16_ ||| t == p.u32_ ||| t == p.u64_
    ||| t == p.f32_ ||| t == p.f64_
}

/// Two operands of one numeric type, integer or float, can be ordered,
/// giving `bool`, and combined by arithmetic, giving that type.
pub proof fn law_numbers_compare_and_compute(env: CheckEnv, st: CheckState, op: Operator, t: TypeID)
    requires
        numeric_primitive(env.primitives, t),
    ensures
        (op is Less || op is Greater || op is LessEqual || op is GreaterEqual) ==> binop_type(env, st, op, t, t) == Some(
            env.primitives.bool_,
        ),
        (op is Add || op is Sub || op is Mul || op is Div) ==> binop_type(env, st, op, t, t) == Some(t),
{
}

/// Numbers, booleans and pointers can be tested for equality with a value
/// of their own type; `&&` and `||` take exactly two booleans.
pub proof fn law_equality_and_logic(env: CheckEnv, st: CheckState, op: Operator, l: TypeID, r: TypeID)
    ensures
        (op is Equal || op is NotEqual) && (numeric_primitive(env.primitives, l) || l == env.primitives.bool_ || (l.0
            < st.types.len() && st.types[l.0 as int] is Pointer)) ==> binop_type(env, st, op, l, l) == Some(
            env.primitives.bool_,
        ),
        (op is And || op is Or) ==> (binop_type(env, st, op, l, r) is Some <==> (l == env.primitives.bool_ && r
            == env.primitives.bool_)),
        (op is And || op is Or) && binop_type(env, st, op, l, r) is Some ==> binop_type(env, st, op, l, r) == Some(
            env.primitives.bool_,
        ),
{
}

/// A comparison, when it checks, has type `bool`; operands of two
/// different types are never ordered, compared or combined.
pub proof fn law_comparisons_give_bool(env: CheckEnv, st: CheckState, op: Operator, l: TypeID, r: TypeID)
    ensures
        (op is Less || op is Greater || op is LessEqual || op is GreaterEqual || op is Equal || op is NotEqual)
            ==> (binop_type(env, st, op, l, r) is Some ==> binop_type(env, st, op, l, r) == Some(env.primitives.bool_)),
        (op is Less || op is Greater || op is LessEqual || op is GreaterEqual || op is Equal || op is NotEqual
            || op is Add || op is Sub || op is Mul || op is Div) && l != r ==> binop_type(env, st, op, l, r) is None,
{
}

/// Interning a shape gives an id that holds that shape.
proof fn lemma_intern_in_shape(st: CheckState, d: TypeShape)
    requires
        st.types.len() < usize::MAX,
    ensures
        intern_in(st, d).1 matches Some(id) && 0 <= id.0 < intern_in(st, d).0.types.len()
            && intern_in(st, d).0.types[id.0 as int] == d,
{
    if st.types.contains(d) {
        let k = shape_index(st.types, d);
        assert(st.types[k] == d);
    }
}

/// Taking the address of a value and dereferencing the pointer gives back
/// the value's type: `*&e` has the type of `e`.
pub proof fn law_deref_undoes_ref(
    env: CheckEnv,
    st: CheckState,
    scope: ScopeID,
    e: Expr,
    b: BlockCtx,
    s1: CheckState,
    t: TypeID,
)
    requires
        ck_expr(env, st, scope, e, b) == (s1, Some(t)),
        0 <= t.0 < s1.types.len(),
        s1.types.len() < usize::MAX,
        !(s1.types[t.0 as int] is Array),
        !(s1.types[t.0 as int] is FnPointer),
    ensures
        ck_expr(
            env,
            st,
            scope,
            Expr::UnaryOp { op: Operator::Deref, expr: Box::new(Expr::UnaryOp { op: Operator::Ref, expr: Box::new(e) }) },
            b,
        ).1 == Some(t),
{
    let inner = Expr::UnaryOp { op: Operator::Ref, expr: Box::new(e) };
    lemma_intern_in_shape(s1, TypeShape::Pointer { pointee: t, mutability: true });
    assert(ck_unop(env, st, scope, Operator::Ref, e, b) == intern_in(s1, TypeShape::Pointer { pointee: t, mutability: true }));
    assert(ck_expr(env, st, scope, inner, b) == ck_unop(env, st, scope, Operator::Ref, e, b));
    assert(ck_unop(env, st, scope, Operator::Deref, inner, b).1 == Some(t));
}

/// Negation keeps a signed integer or float type and refuses an unsigned
/// one; `!` keeps `bool` and refuses every number.
pub proof fn law_negation_and_not(
    env: CheckEnv,
    st: CheckState,
    scope: ScopeID,
    e: Expr,
    b: BlockCtx,
    s1: CheckState,
    t: TypeID,
)
    requires
        ck_expr(env, st, scope, e, b) == (s1, Some(t)),
    ensures
        ({
            let p = env.primitives;
            &&& (t == p.i8_ || t == p.i16_ || t == p.i32_ || t == p.i64_ || t == p.f32_ || t == p.f64_) ==> ck_expr(
                env,
                st,
                scope,
                Expr::UnaryOp { op: Operator::Neg, expr: Box::new(e) },
                b,
            ).1 == Some(t)
            &&& (t == p.u8_ || t == p.u16_ || t == p.u32_ || t == p.u64_) && !(t == p.i8_ || t == p.i16_ || t == p.i32_
                || t == p.i64_ || t == p.f32_ || t == p.f64_) ==> ck_expr(
                env,
                st,
                scope,
                Expr::UnaryOp { op: Operator::Neg, expr: Box::new(e) },
                b,
            ).1 is None
            &&& t == p.bool_ ==> ck_expr(env, st, scope, Expr::UnaryOp { op: Operator::Not, expr: Box::new(e) }, b).1 == Some(t)
            &&& numeric_primitive(p, t) && t != p.bool_ ==> ck_expr(
                env,
                st,
                scope,
                Expr::UnaryOp { op: Operator::Not, expr: Box::new(e) },
                b,
            ).1 is None
        }),
{
    assert(ck_expr(env, st, scope, Expr::UnaryOp { op: Operator::Neg, expr: Box::new(e) }, b) == ck_unop(
        env,
        st,
        scope,
        Operator::Neg,
        e,
        b,
    ));
    assert(ck_expr(env, st, scope, Expr::UnaryOp { op: Operator::Not, expr: Box::new(e) }, b) == ck_unop(
        env,
        st,
        scope,
        Operator::Not,
        e,
        b,
    ));
}

/// The definition a local variable gets.
pub open spec fn var_def(name: String, t: TypeID) -> Definition {
    Definition { name, kind: DefKind::Variable { typeid: t } }
}

// ----- the rules -----
/// Checking an expression: the state after it, and its type.
pub open spec fn ck_expr(env: CheckEnv, st: CheckState, scope: ScopeID, e: Expr, b: BlockCtx) -> (CheckState, Option<TypeID>)
    decreases expr_size(e), 10int,
{
    match e {
        Expr::Value(v) => match v {
            ExprValue::Integer(_) => (st, Some(env.primitives.i32_)),
            ExprValue::Float(_) => (st, Some(env.primitives.f32_)),
            ExprValue::Bool(_) => (st, Some(env.primitives.bool_)),
            ExprValue::String(lit) => intern_in(
                st,
                TypeShape::Array {
                    element: env.primitives.u8_,
                    size: vstd::utf8::encode_utf8(lit@).len() as usize,
                },
            ),
        },
        Expr::BinaryOp { left, op, right } => ck_binop(env, st, scope, *left, op, *right, b),
        Expr::UnaryOp { op, expr } => ck_unop(env, st, scope, op, *expr, b),
        Expr::Path(p) => (st, value_type(path_resolved_in(env, st, scope.0 as int, p.segments@))),
        Expr::Call(c) => ck_call(env, st, scope, c, b),
        Expr::Assign(a) => ck_assign(env, st, scope, a, b),
        Expr::Access(a) => ck_access(env, st, scope, a, b),
        Expr::If(i) => ck_if(env, st, scope, i, b),
        Expr::Init(i) => ck_init(env, st, scope, i, b),
        Expr::Loop(_) => (st, None),
    }
}

/// Checking `l op r`: the left operand, then the right one.
pub open spec fn ck_binop(env: CheckEnv, st: CheckState, scope: ScopeID, l: Expr, op: Operator, r: Expr, b: BlockCtx) -> (
    CheckState,
    Option<TypeID>,
)
    decreases 1 + expr_size(l) + expr_size(r), 5int,
{
    match ck_expr(env, st, scope, l, b) {
        (s1, Some(lt)) => match ck_expr(env, s1, scope, r, b) {
            (s2, Some(rt)) => (s2, binop_type(env, s2, op, lt, rt)),
            (s2, None) => (s2, None),
        },
        (s1, None) => (s1, None),
    }
}

/// Checking `op e`: `-` keeps a signed or float type, `!` keeps `bool`,
/// `*` goes from a pointer to its pointee, `&` makes a pointer (to the
/// element, for an array; a function type stays as it is).
pub open spec fn ck_unop(env: CheckEnv, st: CheckState, scope: ScopeID, op: Operator, e: Expr, b: BlockCtx) -> (
    CheckState,
    Option<TypeID>,
)
    decreases 1 + expr_size(e), 5int,
{
    match ck_expr(env, st, scope, e, b) {
        (s1, Some(t)) => match op {
            Operator::Neg => (s1, if env.primitives.spec_is_negatable(t) {
                Some(t)
            } else {
                None
            }),
            Operator::Not => (s1, if t == env.primitives.bool_ {
                Some(t)
            } else {
                None
            }),
            Operator::Deref => (s1, match s1.types[t.0 as int] {
                TypeShape::Pointer { pointee, .. } => Some(pointee),
                _ => None,
            }),
            Operator::Ref => match s1.types[t.0 as int] {
                TypeShape::FnPointer { .. } => (s1, Some(t)),
                TypeShape::Array { element, .. } => intern_in(s1, TypeShape::Pointer { pointee: element, mutability: true }),
                _ => intern_in(s1, TypeShape::Pointer { pointee: t, mutability: true }),
            },
            _ => (s1, None),
        },
        (s1, None) => (s1, None),
    }
}

/// Checking a call: the callee must have a function type with as many
/// parameters as there are arguments, and each argument must fit its
/// parameter; the call has the function's return type.
pub open spec fn ck_call(env: CheckEnv, st: CheckState, scope: ScopeID, c: ExprCall, b: BlockCtx) -> (CheckState, Option<TypeID>)
    decreases 1 + expr_size(*c.expr) + exprs_size(c.args@), 5int,
{
    match ck_expr(env, st, scope, *c.expr, b) {
        (s1, Some(f)) => match s1.types[f.0 as int] {
            TypeShape::FnPointer { params, return_type } => if params.len() != c.args@.len() {
                (s1, None)
            } else {
                proof {
                    assert(c.args@.take(c.args@.len() as int) =~= c.args@);
                }
                let (s2, ok) = ck_args(env, s1, scope, c.args@, params, c.args@.len() as int, b);
                (s2, if ok {
                    Some(return_type)
                } else {
                    None
                })
            },
            _ => (s1, None),
        },
        (s1, None) => (s1, None),
    }
}

/// Checking the first `n` arguments of a call against `params`, in order,
/// up to the first that fails.
pub open spec fn ck_args(
    env: CheckEnv,
    st: CheckState,
    scope: ScopeID,
    args: Seq<Expr>,
    params: Seq<TypeID>,
    n: int,
    b: BlockCtx,
) -> (CheckState, bool)
    decreases exprs_size(args.take(n)), 1int,
{
    if n <= 0 || n > args.len() {
        (st, true)
    } else {
        proof {
            assert(args.take(n).drop_last() =~= args.take(n - 1));
            assert(args.take(n).last() == args[n - 1]);
        }
        match ck_args(env, st, scope, args, params, n - 1, b) {
            (s1, true) => match ck_expr(env, s1, scope, args[n - 1], b) {
                (s2, Some(a)) => (s2, coercible(s2.types, a, params[n - 1])),
                (s2, None) => (s2, false),
            },
            (s1, false) => (s1, false),
        }
    }
}

/// Checking an assignment: its left side must be a place, and the right
/// side must fit the left one's type; an assignment has type `void`.
pub open spec fn ck_assign(env: CheckEnv, st: CheckState, scope: ScopeID, a: ExprAssign, b: BlockCtx) -> (
    CheckState,
    Option<TypeID>,
)
    decreases 1 + expr_size(*a.left) + expr_size(*a.right), 5int,
{
    if !spec_is_lvalue(*a.left) {
        (st, None)
    } else {
        match ck_expr(env, st, scope, *a.left, b) {
            (s1, Some(lt)) => match ck_expr(env, s1, scope, *a.right, b) {
                (s2, Some(rt)) => (s2, if coercible(s2.types, rt, lt) {
                    Some(env.primitives.void)
                } else {
                    None
                }),
                (s2, None) => (s2, None),
            },
            (s1, None) => (s1, None),
        }
    }
}

/// Checking `e.name`: the field or method `name` of `e`'s type.
pub open spec fn ck_access(env: CheckEnv, st: CheckState, scope: ScopeID, a: ExprAccess, b: BlockCtx) -> (
    CheckState,
    Option<TypeID>,
)
    decreases 1 + expr_size(*a.expr), 5int,
{
    match ck_expr(env, st, scope, *a.expr, b) {
        (s1, Some(t)) => (s1, match next_resolved_in(env, s1, Resolved::Value(t), a.segment.name.name@) {
            Some(Resolved::Value(x)) => Some(x),
            _ => None,
        }),
        (s1, None) => (s1, None),
    }
}

/// Checking an `if`: a `bool` condition, then each branch in a scope of its
/// own; both branches must give the same type, and a missing `else` gives
/// `void`.
pub open spec fn ck_if(env: CheckEnv, st: CheckState, scope: ScopeID, i: ExprIf, b: BlockCtx) -> (CheckState, Option<TypeID>)
    decreases 1 + expr_size(*i.condition) + stmts_size(i.then_branch.statements@) + match i.else_branch {
        Some(e) => stmts_size(e.statements@),
        None => 0,
    }, 5int,
{
    match ck_expr(env, st, scope, *i.condition, b) {
        (s1, Some(c)) => if c != env.primitives.bool_ {
            (s1, None)
        } else {
            match push_in(s1, scope) {
                (s2, Some(then_scope)) => match ck_block_value(env, s2, then_scope, i.then_branch.statements@, b) {
                    (s3, Some(then_type)) => match i.else_branch {
                        Some(e) => match push_in(s3, scope) {
                            (s4, Some(else_scope)) => match ck_block_value(env, s4, else_scope, e.statements@, b) {
                                (s5, Some(else_type)) => (s5, if then_type == else_type {
                                    Some(then_type)
                                } else {
                                    None
                                }),
                                (s5, None) => (s5, None),
                            },
                            (s4, None) => (s4, None),
                        },
                        None => (s3, if then_type == env.primitives.void {
                            Some(then_type)
                        } else {
                            None
                        }),
                    },
                    (s3, None) => (s3, None),
                },
                (s2, None) => (s2, None),
            }
        },
        (s1, None) => (s1, None),
    }
}

/// Checking a struct literal: its path names a struct, it gives at least as
/// many fields as the struct has, and each field it names exists and gets a
/// value of exactly its type; the literal has the struct's type.
pub open spec fn ck_init(env: CheckEnv, st: CheckState, scope: ScopeID, i: ExprInit, b: BlockCtx) -> (CheckState, Option<TypeID>)
    decreases 1 + fields_size(i.fields@), 5int,
{
    match named_struct_in(st, path_resolved_in(env, st, scope.0 as int, i.path.segments@)) {
        Some((t, d)) => if i.fields@.len() < struct_fields_in(st, d).len() {
            (st, None)
        } else {
            proof {
                assert(i.fields@.take(i.fields@.len() as int) =~= i.fields@);
            }
            let (s1, ok) = ck_fields(env, st, scope, i.fields@, struct_fields_in(st, d), i.fields@.len() as int, b);
            (s1, if ok {
                Some(t)
            } else {
                None
            })
        },
        None => (st, None),
    }
}

/// Checking the first `n` fields of a struct literal against the struct's
/// fields `sf`, in order, up to the first that fails.
pub open spec fn ck_fields(
    env: CheckEnv,
    st: CheckState,
    scope: ScopeID,
    fields: Seq<ExprInitField>,
    sf: Seq<(String, TypeID)>,
    n: int,
    b: BlockCtx,
) -> (CheckState, bool)
    decreases fields_size(fields.take(n)), 1int,
{
    if n <= 0 || n > fields.len() {
        (st, true)
    } else {
        proof {
            assert(fields.take(n).drop_last() =~= fields.take(n - 1));
            assert(fields.take(n).last() == fields[n - 1]);
        }
        match ck_fields(env, st, scope, fields, sf, n - 1, b) {
            (s1, true) => match field_type(sf, fields[n - 1].name.name@) {
                Some(ft) => match ck_expr(env, s1, scope, *fields[n - 1].value, b) {
                    (s2, Some(et)) => (s2, et == ft),
                    (s2, None) => (s2, false),
                },
                None => (s1, false),
            },
            (s1, false) => (s1, false),
        }
    }
}

/// Checking a block for its value: the statements in order, and the type
/// of the last one when that is an expression, `void` otherwise.
pub open spec fn ck_block_value(env: CheckEnv, st: CheckState, scope: ScopeID, stmts: Seq<Stmt>, b: BlockCtx) -> (
    CheckState,
    Option<TypeID>,
)
    decreases stmts_size(stmts), 8int,
{
    if stmts.len() == 0 {
        (st, Some(env.primitives.void))
    } else {
        let n = stmts.len() - 1;
        proof {
            assert(stmts.take(n) =~= stmts.drop_last());
            assert(stmts.last() == stmts[n]);
            assert(stmts_size(stmts) == stmts_size(stmts.drop_last()) + stmt_size(stmts[n]) + 1);
        }
        match ck_stmts(env, st, scope, stmts, n, b) {
            (s1, true) => match stmts[n] {
                Stmt::Expr(e) => ck_expr(env, s1, scope, e, b),
                last => {
                    let (s2, ok) = ck_stmt(env, s1, scope, last, b);
                    (s2, if ok {
                        Some(env.primitives.void)
                    } else {
                        None
                    })
                },
            },
            (s1, false) => (s1, None),
        }
    }
}

/// Checking the first `n` statements of a block, in order, up to the first
/// that fails.
pub open spec fn ck_stmts(env: CheckEnv, st: CheckState, scope: ScopeID, stmts: Seq<Stmt>, n: int, b: BlockCtx) -> (
    CheckState,
    bool,
)
    decreases stmts_size(stmts.take(n)), 7int,
{
    if n <= 0 || n > stmts.len() {
        (st, true)
    } else {
        proof {
            assert(stmts.take(n).drop_last() =~= stmts.take(n - 1));
            assert(stmts.take(n).last() == stmts[n - 1]);
        }
        match ck_stmts(env, st, scope, stmts, n - 1, b) {
            (s1, true) => ck_stmt(env, s1, scope, stmts[n - 1], b),
            (s1, false) => (s1, false),
        }
    }
}

/// Checking every statement of a block.
pub open spec fn ck_block(env: CheckEnv, st: CheckState, scope: ScopeID, stmts: Seq<Stmt>, b: BlockCtx) -> (CheckState, bool) {
    ck_stmts(env, st, scope, stmts, stmts.len() as int, b)
}

/// Checking a statement: `break` and `continue` only where allowed,
/// `return` with a value exactly when one is expected and then of a type
/// that fits, and a local whose value fits its written type, which is then
/// defined in `scope`.
pub open spec fn ck_stmt(env: CheckEnv, st: CheckState, scope: ScopeID, s: Stmt, b: BlockCtx) -> (CheckState, bool)
    decreases stmt_size(s), 9int,
{
    match s {
        Stmt::Break => (st, b.allow_break),
        Stmt::Continue => (st, b.allow_continue),
        Stmt::Return(v) => match v {
            Some(e) => match b.expected_return {
                Some(expected) => match ck_expr(env, st, scope, e, b) {
                    (s1, Some(t)) => (s1, coercible(s1.types, t, expected)),
                    (s1, None) => (s1, false),
                },
                None => (st, false),
            },
            None => (st, b.expected_return is None),
        },
        Stmt::Local(l) => match l.var_type {
            Some(ty) => {
                let (types, vt) = spec_type_to_id(st.types, st.table, scope.0 as int, ty);
                let s1 = with_types(st, types);
                match vt {
                    Some(vt) => match l.initializer {
                        Some(init) => match ck_expr(env, s1, scope, *init, b) {
                            (s2, Some(et)) => if coercible(s2.types, et, vt) {
                                define_in(s2, scope, var_def(l.name.name, vt))
                            } else {
                                (s2, false)
                            },
                            (s2, None) => (s2, false),
                        },
                        None => define_in(s1, scope, var_def(l.name.name, vt)),
                    },
                    None => (s1, false),
                }
            },
            None => (st, false),
        },
        Stmt::Expr(e) => {
            let (s1, t) = ck_expr(env, st, scope, e, b);
            (s1, t is Some)
        },
        Stmt::Defer(e) => {
            let (s1, t) = ck_expr(env, st, scope, e, b);
            (s1, t is Some)
        },
    }
}

/// The function that `name` defines in `scope` itself: its definition, its
/// type, and that type's parameters and return type.
pub open spec fn fn_signature_in(st: CheckState, scope: int, name: Seq<char>) -> Option<(DefID, TypeID, Seq<TypeID>, TypeID)> {
    match st.table.lookup_local(scope, name) {
        Some(d) => if d.0 < st.table.defs.len() {
            match st.table.defs[d.0 as int].kind {
                DefKind::Function(sig) => if sig.typeid.0 < st.types.len() {
                    match st.types[sig.typeid.0 as int] {
                        TypeShape::FnPointer { params, return_type } => Some((d, sig.typeid, params, return_type)),
                        _ => None,
                    }
                } else {
                    None
                },
                _ => None,
            }
        } else {
            None
        },
        None => None,
    }
}

/// Defining the first `n` parameters of a function in its body scope, each
/// as a variable of its parameter type.
pub open spec fn ck_params(st: CheckState, body: ScopeID, ps: Seq<FnParam>, types: Seq<TypeID>, n: int) -> (CheckState, bool)
    decreases n,
{
    if n <= 0 || n > ps.len() {
        (st, true)
    } else {
        match ck_params(st, body, ps, types, n - 1) {
            (s1, true) => define_in(s1, body, var_def(ps[n - 1].name.name, types[n - 1])),
            (s1, false) => (s1, false),
        }
    }
}

/// The state once a function's body scope is made and its parameters, of
/// types `types`, are defined there.
pub open spec fn params_state(st: CheckState, scope: ScopeID, decl: FnDecl, types: Seq<TypeID>) -> CheckState {
    ck_params(
        push_in(st, scope).0,
        ScopeID(st.table.scopes.len() as usize),
        decl.signature.params@,
        types,
        decl.signature.params@.len() as int,
    ).0
}

/// The block context of a function body that returns `ret`.
pub open spec fn fn_block_ctx(ret: TypeID) -> BlockCtx {
    BlockCtx { allow_break: false, allow_continue: false, expected_return: Some(ret) }
}

/// Checking a function declared in `scope`: it must be defined there with a
/// function type that has one parameter per written parameter; its body
/// gets a scope of its own, where the parameters are defined, and is
/// checked there.
pub open spec fn ck_fn(env: CheckEnv, st: CheckState, scope: ScopeID, decl: FnDecl) -> (CheckState, bool) {
    match fn_signature_in(st, scope.0 as int, decl.signature.name.name@) {
        Some((_, _, params, ret)) => match push_in(st, scope) {
            (s1, Some(body)) => if params.len() != decl.signature.params@.len() {
                (s1, false)
            } else {
                match ck_params(s1, body, decl.signature.params@, params, params.len() as int) {
                    (s2, true) => ck_block(env, s2, body, decl.block.statements@, fn_block_ctx(ret)),
                    (s2, false) => (s2, false),
                }
            },
            (s1, None) => (s1, false),
        },
        None => (st, false),
    }
}

/// Checking the functions among the first `n` declarations of a unit, in
/// order, up to the first that fails.
pub open spec fn ck_decls(env: CheckEnv, st: CheckState, scope: ScopeID, decls: Seq<Decl>, n: int) -> (CheckState, bool)
    decreases n,
{
    if n <= 0 || n > decls.len() {
        (st, true)
    } else {
        match ck_decls(env, st, scope, decls, n - 1) {
            (s1, true) => match decls[n - 1] {
                Decl::Fn(f) => ck_fn(env, s1, scope, f),
                _ => (s1, true),
            },
            (s1, false) => (s1, false),
        }
    }
}

pub proof fn lemma_params_stop(st: CheckState, body: ScopeID, ps: Seq<FnParam>, types: Seq<TypeID>, k: int, n: int)
    requires
        0 <= k <= n <= ps.len(),
        !ck_params(st, body, ps, types, k).1,
    ensures
        ck_params(st, body, ps, types, n) == ck_params(st, body, ps, types, k),
    decreases n - k,
{
    if n > k {
        lemma_params_stop(st, body, ps, types, k, n - 1);
    }
}

pub proof fn lemma_decls_stop(env: CheckEnv, st: CheckState, scope: ScopeID, decls: Seq<Decl>, k: int, n: int)
    requires
        0 <= k <= n <= decls.len(),
        !ck_decls(env, st, scope, decls, k).1,
    ensures
        ck_decls(env, st, scope, decls, n) == ck_decls(env, st, scope, decls, k),
    decreases n - k,
{
    if n > k {
        lemma_decls_stop(env, st, scope, decls, k, n - 1);
    }
}

// ----- a failed prefix stays failed -----
pub proof fn lemma_args_stop(
    env: CheckEnv,
    st: CheckState,
    scope: ScopeID,
    args: Seq<Expr>,
    params: Seq<TypeID>,
    k: int,
    n: int,
    b: BlockCtx,
)
    requires
        0 <= k <= n <= args.len(),
        !ck_args(env, st, scope, args, params, k, b).1,
    ensures
        ck_args(env, st, scope, args, params, n, b) == ck_args(env, st, scope, args, params, k, b),
    decreases n - k,
{
    if n > k {
        lemma_args_stop(env, st, scope, args, params, k, n - 1, b);
    }
}

pub proof fn lemma_fields_stop(
    env: CheckEnv,
    st: CheckState,
    scope: ScopeID,
    fields: Seq<ExprInitField>,
    sf: Seq<(String, TypeID)>,
    k: int,
    n: int,
    b: BlockCtx,
)
    requires
        0 <= k <= n <= fields.len(),
        !ck_fields(env, st, scope, fields, sf, k, b).1,
    ensures
        ck_fields(env, st, scope, fields, sf, n, b) == ck_fields(env, st, scope, fields, sf, k, b),
    decreases n - k,
{
    if n > k {
        lemma_fields_stop(env, st, scope, fields, sf, k, n - 1, b);
    }
}

pub proof fn lemma_stmts_stop(env: CheckEnv, st: CheckState, scope: ScopeID, stmts: Seq<Stmt>, k: int, n: int, b: BlockCtx)
    requires
        0 <= k <= n <= stmts.len(),
        !ck_stmts(env, st, scope, stmts, k, b).1,
    ensures
        ck_stmts(env, st, scope, stmts, n, b) == ck_stmts(env, st, scope, stmts, k, b),
    decreases n - k,
{
    if n > k {
        lemma_stmts_stop(env, st, scope, stmts, k, n - 1, b);
    }
}

/// A call whose callee checks to a function type with one parameter per
/// argument is the check of its arguments.
pub proof fn lemma_call_unfold(
    env: CheckEnv,
    st: CheckState,
    scope: ScopeID,
    c: ExprCall,
    b: BlockCtx,
    s1: CheckState,
    f: TypeID,
    params: Seq<TypeID>,
    ret: TypeID,
)
    requires
        ck_expr(env, st, scope, *c.expr, b) == (s1, Some(f)),
        s1.types[f.0 as int] == (TypeShape::FnPointer { params, return_type: ret }),
        params.len() == c.args@.len(),
    ensures
        ck_call(env, st, scope, c, b) == (ck_args(env, s1, scope, c.args@, params, c.args@.len() as int, b).0, if ck_args(
            env,
            s1,
            scope,
            c.args@,
            params,
            c.args@.len() as int,
            b,
        ).1 {
            Some(ret)
        } else {
            None
        }),
{
}

/// A struct literal whose path names a struct, with enough fields, is the
/// check of its fields.
pub proof fn lemma_init_unfold(env: CheckEnv, st: CheckState, scope: ScopeID, i: ExprInit, b: BlockCtx, t: TypeID, d: DefID)
    requires
        named_struct_in(st, path_resolved_in(env, st, scope.0 as int, i.path.segments@)) == Some((t, d)),
        i.fields@.len() >= struct_fields_in(st, d).len(),
    ensures
        ck_init(env, st, scope, i, b) == (ck_fields(
            env,
            st,
            scope,
            i.fields@,
            struct_fields_in(st, d),
            i.fields@.len() as int,
            b,
        ).0, if ck_fields(env, st, scope, i.fields@, struct_fields_in(st, d), i.fields@.len() as int, b).1 {
            Some(t)
        } else {
            None
        }),
{
}

/// The check of a nonempty block for its value, by how its statements
/// before the last one went.
pub proof fn lemma_block_value_unfold(env: CheckEnv, st: CheckState, scope: ScopeID, stmts: Seq<Stmt>, b: BlockCtx)
    requires
        stmts.len() > 0,
    ensures
        ({
            let n = stmts.len() - 1;
            let (s1, ok) = ck_stmts(env, st, scope, stmts, n, b);
            &&& !ok ==> ck_block_value(env, st, scope, stmts, b) == (s1, None::<TypeID>)
            &&& ok ==> (stmts[n] matches Stmt::Expr(e) ==> ck_block_value(env, st, scope, stmts, b) == ck_expr(
                env,
                s1,
                scope,
                e,
                b,
            ))
            &&& ok ==> (!(stmts[n] is Expr) ==> ck_block_value(env, st, scope, stmts, b) == (
                ck_stmt(env, s1, scope, stmts[n], b).0,
                if ck_stmt(env, s1, scope, stmts[n], b).1 {
                    Some(env.primitives.void)
                } else {
                    None
                },
            ))
        }),
{
}

} // verus!
