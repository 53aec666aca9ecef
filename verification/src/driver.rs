//! The compiler as one function from source text to C text: parsing, the
//! primitive types, name resolution, checking, lowering and printing.
use vstd::prelude::*;

use crate::ast::{decls_model, Decl, Expr, ExprInitField, Stmt, Type, Unit};
use crate::lexer::lex_model;
use crate::parse_decl::{consumed, spec_decls};
use crate::typed_ast;
use crate::typing::{ck_decls, env_of, state_of};
use crate::gather::{gather_ok, gathered, gathered_def};
use crate::checker::{
    checked_forms, fn_count,
    check, checkable_expr, checkable_exprs, checkable_fields, checkable_stmt, checkable_stmts,
    checkable_unit, expr_size, exprs_size, fields_size, lemma_exprs_size, lemma_fields_size,
    lemma_stmts_size, stmt_size, stmts_size,
};
use crate::codegen::{body_parts, fn_def_text, header_text, no_fn_pointer, sig_printable, entries_printable, BodyEmitter, Codegen};
use crate::context::{load_primitives, paths_nonempty, primitive_defined, primitive_ids, primitive_table, Context, Primitives};
use crate::defkinds::FnSig;
use crate::gather::resolve;
use crate::lower::lower;
use crate::parse::{parse, Kind};
use crate::symbols::DefKind;
use crate::ir::FnIR;
use crate::types::{DefID, ScopeID, TypeDef, TypeID, TypeInterner, TypeShape};

verus! {

broadcast use {vstd::seq::group_seq_axioms, vstd::std_specs::vec::group_vec_axioms};

/// Why a text could not be compiled.
#[derive(Debug)]
pub enum CompileError {
    Parse(Kind),
    Resolve(String),
    Check(String),
    Codegen(String),
    /// The text uses what the compiler does not handle yet: a `loop`, a
    /// local without a type, or a function type in a printed declaration.
    Unsupported,
}

// ----- what the checker accepts, decided -----
fn paths_nonempty_exec(t: &Type) -> (r: bool)
    ensures
        r == paths_nonempty(*t),
    decreases t,
{
    match t {
        Type::Ptr(inner) => paths_nonempty_exec(inner),
        Type::ConstPtr(inner) => paths_nonempty_exec(inner),
        Type::Array(_, inner) => paths_nonempty_exec(inner),
        Type::Path(p) => p.segments.len() > 0,
    }
}

fn checkable_expr_exec(e: &Expr) -> (r: bool)
    ensures
        r == checkable_expr(*e),
    decreases expr_size(*e), 1int,
{
    match e {
        Expr::Value(_) => true,
        Expr::BinaryOp { left, op, right } => {
            !(matches!(op, crate::ast::Operator::Deref | crate::ast::Operator::Neg | crate::ast::Operator::Ref | crate::ast::Operator::Not))
                && checkable_expr_exec(left) && checkable_expr_exec(right)
        },
        Expr::UnaryOp { op, expr } => {
            matches!(op, crate::ast::Operator::Deref | crate::ast::Operator::Neg | crate::ast::Operator::Ref | crate::ast::Operator::Not)
                && checkable_expr_exec(expr)
        },
        Expr::Call(c) => checkable_expr_exec(&c.expr) && checkable_exprs_exec(&c.args),
        Expr::Access(a) => checkable_expr_exec(&a.expr),
        Expr::Path(_) => true,
        Expr::Init(i) => checkable_fields_exec(&i.fields),
        Expr::Assign(a) => checkable_expr_exec(&a.left) && checkable_expr_exec(&a.right),
        Expr::If(i) => {
            checkable_expr_exec(&i.condition) && checkable_stmts_exec(&i.then_branch.statements) && match &i.else_branch {
                Some(b) => checkable_stmts_exec(&b.statements),
                None => true,
            }
        },
        Expr::Loop(_) => false,
    }
}

fn checkable_exprs_exec(v: &Vec<Expr>) -> (r: bool)
    ensures
        r == checkable_exprs(v@),
    decreases exprs_size(v@), 0int,
{
    let mut i: usize = 0;
    while i < v.len()
        invariant
            i <= v@.len(),
            checkable_exprs(v@.take(i as int)),
        decreases v.len() - i,
    {
        proof {
            lemma_exprs_size(v@, i as int);
            assert(v@.take(i + 1).drop_last() =~= v@.take(i as int));
        }
        if !checkable_expr_exec(&v[i]) {
            proof {
                lemma_exprs_prefix(v@, i as int);
            }
            return false;
        }
        i = i + 1;
    }
    proof {
        assert(v@.take(i as int) =~= v@);
    }
    true
}

proof fn lemma_exprs_prefix(s: Seq<Expr>, i: int)
    requires
        0 <= i < s.len(),
        !checkable_expr(s[i]),
    ensures
        !checkable_exprs(s),
    decreases s.len(),
{
    if i < s.len() - 1 {
        lemma_exprs_prefix(s.drop_last(), i);
    }
}

fn checkable_fields_exec(v: &Vec<ExprInitField>) -> (r: bool)
    ensures
        r == checkable_fields(v@),
    decreases fields_size(v@), 0int,
{
    let mut i: usize = 0;
    while i < v.len()
        invariant
            i <= v@.len(),
            checkable_fields(v@.take(i as int)),
        decreases v.len() - i,
    {
        proof {
            lemma_fields_size(v@, i as int);
            assert(v@.take(i + 1).drop_last() =~= v@.take(i as int));
        }
        if !checkable_expr_exec(&v[i].value) {
            proof {
                lemma_fields_prefix(v@, i as int);
            }
            return false;
        }
        i = i + 1;
    }
    proof {
        assert(v@.take(i as int) =~= v@);
    }
    true
}

proof fn lemma_fields_prefix(s: Seq<ExprInitField>, i: int)
    requires
        0 <= i < s.len(),
        !checkable_expr(*s[i].value),
    ensures
        !checkable_fields(s),
    decreases s.len(),
{
    if i < s.len() - 1 {
        lemma_fields_prefix(s.drop_last(), i);
    }
}

fn checkable_stmt_exec(s: &Stmt) -> (r: bool)
    ensures
        r == checkable_stmt(*s),
    decreases stmt_size(*s), 1int,
{
    match s {
        Stmt::Expr(e) => checkable_expr_exec(e),
        Stmt::Defer(e) => checkable_expr_exec(e),
        Stmt::Return(Some(e)) => checkable_expr_exec(e),
        Stmt::Local(l) => match &l.var_type {
            Some(t) => paths_nonempty_exec(t) && match &l.initializer {
                Some(e) => checkable_expr_exec(e),
                None => true,
            },
            None => false,
        },
        _ => true,
    }
}

fn checkable_stmts_exec(v: &Vec<Stmt>) -> (r: bool)
    ensures
        r == checkable_stmts(v@),
    decreases stmts_size(v@), 0int,
{
    let mut i: usize = 0;
    while i < v.len()
        invariant
            i <= v@.len(),
            checkable_stmts(v@.take(i as int)),
        decreases v.len() - i,
    {
        proof {
            lemma_stmts_size(v@, i as int);
            assert(v@.take(i + 1).drop_last() =~= v@.take(i as int));
        }
        if !checkable_stmt_exec(&v[i]) {
            proof {
                lemma_stmts_prefix(v@, i as int);
            }
            return false;
        }
        i = i + 1;
    }
    proof {
        assert(v@.take(i as int) =~= v@);
    }
    true
}

proof fn lemma_stmts_prefix(s: Seq<Stmt>, i: int)
    requires
        0 <= i < s.len(),
        !checkable_stmt(s[i]),
    ensures
        !checkable_stmts(s),
    decreases s.len(),
{
    if i < s.len() - 1 {
        lemma_stmts_prefix(s.drop_last(), i);
    }
}

/// Whether every function body of the unit can be given to the checker.
pub fn checkable_unit_exec(decls: &Vec<Decl>) -> (r: bool)
    ensures
        r == checkable_unit(decls@),
{
    let mut i: usize = 0;
    while i < decls.len()
        invariant
            i <= decls@.len(),
            forall|j: int| 0 <= j < i ==> ((#[trigger] decls@[j]) matches Decl::Fn(f) ==> checkable_stmts(
                f.block.statements@,
            )),
        decreases decls.len() - i,
    {
        if let Decl::Fn(f) = &decls[i] {
            if !checkable_stmts_exec(&f.block.statements) {
                return false;
            }
        }
        i = i + 1;
    }
    true
}

// ----- what code generation accepts, decided -----
fn no_fn_pointer_exec(interner: &TypeInterner, id: TypeID) -> (r: bool)
    ensures
        r == no_fn_pointer(interner@, id.0 as int),
    decreases id.0,
{
    match interner.get(id) {
        None => true,
        Some(TypeDef::FnPointer(_)) => false,
        Some(TypeDef::Pointer { pointee, .. }) => if pointee.0 < id.0 {
            no_fn_pointer_exec(interner, *pointee)
        } else {
            true
        },
        Some(TypeDef::Array { element, .. }) => if element.0 < id.0 {
            no_fn_pointer_exec(interner, *element)
        } else {
            true
        },
        Some(_) => true,
    }
}

fn sig_printable_exec(interner: &TypeInterner, sig: &FnSig) -> (r: bool)
    ensures
        r == sig_printable(interner@, *sig),
{
    if !no_fn_pointer_exec(interner, sig.return_type) {
        return false;
    }
    match interner.get(sig.typeid) {
        None => true,
        Some(TypeDef::FnPointer(f)) => {
            let mut i: usize = 0;
            while i < f.params.len()
                invariant
                    i <= f.params@.len(),
                    sig.typeid.0 < interner@.len(),
                    interner@[sig.typeid.0 as int] == (TypeShape::FnPointer { params: f.params@, return_type: f.return_type }),
                    no_fn_pointer(interner@, sig.return_type.0 as int),
                    forall|k: int| 0 <= k < i ==> no_fn_pointer(interner@, (#[trigger] f.params@[k]).0 as int),
                decreases f.params.len() - i,
            {
                if !no_fn_pointer_exec(interner, f.params[i]) {
                    proof {
                        assert(interner@[sig.typeid.0 as int] == (TypeShape::FnPointer { params: f.params@, return_type: f.return_type }));
                        assert(!no_fn_pointer(interner@, f.params@[i as int].0 as int));
                        if sig_printable(interner@, *sig) {
                            let ps = f.params@;
                            assert(interner@[sig.typeid.0 as int] matches TypeShape::FnPointer { params, .. } && params == ps);
                            assert(no_fn_pointer(interner@, ps[i as int].0 as int));
                        }
                    }
                    return false;
                }
                i = i + 1;
            }
            true
        },
        Some(_) => false,
    }
}

fn fields_printable_exec(interner: &TypeInterner, fields: &Vec<(String, TypeID)>) -> (r: bool)
    ensures
        r == forall|k: int| 0 <= k < fields@.len() ==> no_fn_pointer(interner@, (#[trigger] fields@[k]).1.0 as int),
{
    let mut i: usize = 0;
    while i < fields.len()
        invariant
            i <= fields@.len(),
            forall|k: int| 0 <= k < i ==> no_fn_pointer(interner@, (#[trigger] fields@[k]).1.0 as int),
        decreases fields.len() - i,
    {
        if !no_fn_pointer_exec(interner, fields[i].1) {
            return false;
        }
        i = i + 1;
    }
    true
}

/// Whether the declarations of a scope can be printed.
fn scope_printable_exec(ctx: &Context, scope: crate::types::ScopeID) -> (r: bool)
    requires
        scope.0 < ctx.table@.scopes.len(),
    ensures
        r == entries_printable(ctx.interner@, ctx.table@.defs, ctx.table@.scopes[scope.0 as int].entries),
{
    let symbols = ctx.table.get_scope(scope).unwrap().symbols();
    let ghost es = ctx.table@.scopes[scope.0 as int].entries;
    let ghost s = ctx.interner@;
    let ghost defs = ctx.table@.defs;
    let mut i: usize = 0;
    while i < symbols.len()
        invariant
            crate::symbols::entry_views(symbols@) == es,
            scope.0 < ctx.table@.scopes.len(),
            es == ctx.table@.scopes[scope.0 as int].entries,
            s == ctx.interner@,
            defs == ctx.table@.defs,
            i <= symbols@.len(),
            forall|j: int| 0 <= j < i && 0 <= es[j].1.0 < defs.len() ==> match (#[trigger] defs[es[j].1.0 as int]).kind {
                DefKind::Function(sig) => sig_printable(s, sig),
                DefKind::Struct(sd) => forall|k: int| 0 <= k < sd.fields@.len() ==> no_fn_pointer(s, (#[trigger] sd.fields@[k]).1.0 as int),
                _ => true,
            },
        decreases symbols.len() - i,
    {
        proof {
            assert(es[i as int] == (symbols@[i as int].0@, symbols@[i as int].1));
        }
        let ok = match ctx.table.get_def(symbols[i].1) {
            None => true,
            Some(def) => match &def.kind {
                DefKind::Function(sig) => sig_printable_exec(&ctx.interner, sig),
                DefKind::Struct(sd) => fields_printable_exec(&ctx.interner, &sd.fields),
                _ => true,
            },
        };
        if !ok {
            proof {
                let j = i as int;
                assert(es[j].1 == symbols@[j].1);
                assert(0 <= es[j].1.0 < defs.len());
                assert(!entries_printable(s, defs, es));
            }
            return false;
        }
        i = i + 1;
    }
    true
}

// ----- what compiling a text gives -----
/// `u` is the unit that `source` parses to.
pub open spec fn parsed_unit(source: Seq<char>, u: Unit) -> bool {
    match lex_model(source) {
        Ok(t) => consumed(t, spec_decls(t, 0, seq![]).1) && decls_model(u.decls@) == spec_decls(t, 0, seq![]).0,
        Err(_) => false,
    }
}

/// `c` holds the primitive types, and nothing else yet, in its root scope.
pub open spec fn primed_context(c: Context) -> bool {
    &&& c.wf()
    &&& c.table@.scopes.len() == 1
    &&& c.interner@.len() > 0
    &&& forall|k: int|
        0 <= k < primitive_table().len() ==> primitive_defined(
            c,
            (#[trigger] primitive_table()[k]).0,
            primitive_table()[k].1,
            primitive_ids(c.primitives)[k],
        )
    &&& forall|m: Seq<char>| (forall|k: int| 0 <= k < primitive_table().len() ==> (#[trigger] primitive_table()[k]).0 != m)
        ==> #[trigger] c.table@.lookup_local(0, m) is None
    &&& forall|t: TypeID, n: Seq<char>| #[trigger] c.methods.method_of(t, n) is None
    &&& forall|t: TypeID, n: Seq<char>| #[trigger] c.methods.static_of(t, n) is None
}

/// `c1` is `c0` after the declarations of `u` were gathered into the root
/// scope.
pub open spec fn gathered_into(c0: Context, u: Unit, c1: Context) -> bool {
    &&& c1.wf()
    &&& gather_ok(c0.table@, 0, gathered(u.decls@))
    &&& forall|k: int|
        0 <= k < gathered(u.decls@).len() ==> {
            &&& c1.table@.lookup_local(0, (#[trigger] gathered(u.decls@)[k]).0) == Some(
                DefID((c0.table@.defs.len() + k) as usize),
            )
            &&& gathered_def(c1.table@, c1.interner@, c0.table@.defs.len() + k, gathered(u.decls@)[k])
        }
    &&& c1.primitives == c0.primitives
    &&& c1.methods == c0.methods
    &&& c1.table@.scopes.len() == c0.table@.scopes.len()
    &&& c1.table@.defs.len() == c0.table@.defs.len() + gathered(u.decls@).len()
    &&& forall|n: Seq<char>| (forall|k: int| 0 <= k < gathered(u.decls@).len() ==> (#[trigger] gathered(u.decls@)[k]).0 != n)
        ==> #[trigger] c1.table@.lookup_local(0, n) == c0.table@.lookup_local(0, n)
    &&& c1.table@.defs.len() >= c0.table@.defs.len()
    &&& forall|i: int| 0 <= i < c0.table@.defs.len() ==> #[trigger] c1.table@.defs[i] == c0.table@.defs[i]
    &&& c1.interner@.len() >= c0.interner@.len()
    &&& forall|i: int| 0 <= i < c0.interner@.len() ==> #[trigger] c1.interner@[i] == c0.interner@[i]
}

/// `c2` is `c1` after checking every function of `u`, which gave the checked
/// functions `fns`.
pub open spec fn checked_into(c1: Context, u: Unit, c2: Context, fns: Seq<typed_ast::FnDecl>) -> bool {
    &&& c2.wf()
    &&& (state_of(c2), true) == ck_decls(env_of(c1), state_of(c1), ScopeID(0), u.decls@, u.decls@.len() as int)
    &&& fns.len() == fn_count(u.decls@)
    &&& checked_forms(env_of(c1), state_of(c1), ScopeID(0), u.decls@, u.decls@.len() as int, fns)
}

/// The functions of definition `d` whose signatures have a C form.
pub open spec fn fn_printable(c: Context, d: DefID) -> bool {
    d.0 < c.table@.defs.len() ==> (c.table@.defs[d.0 as int].kind matches DefKind::Function(sig) ==> sig_printable(
        c.interner@,
        sig,
    ))
}

/// The C definitions of the first `n` checked functions, each with its
/// (empty) body.
pub open spec fn fn_texts(c: Context, fns: Seq<typed_ast::FnDecl>, n: int) -> Option<Seq<char>>
    decreases n,
{
    if n <= 0 {
        Some(seq![])
    } else {
        match (fn_texts(c, fns, n - 1), fn_def_text(c.interner@, c.table@.defs, fns[n - 1].defid)) {
            (Some(a), Some(b)) => Some(a + b + " {\n"@ + "}\n\n"@),
            _ => None,
        }
    }
}

/// Once one function has no C definition, no longer list has one.
proof fn lemma_fn_texts_stop(c: Context, fns: Seq<typed_ast::FnDecl>, k: int, n: int)
    requires
        0 <= k <= n,
        fn_texts(c, fns, k) is None,
    ensures
        fn_texts(c, fns, n) is None,
    decreases n - k,
{
    if n > k {
        lemma_fn_texts_stop(c, fns, k, n - 1);
    }
}

pub open spec fn root_entries(c: Context) -> Seq<(Seq<char>, DefID)> {
    c.table@.scopes[0].entries
}

/// Gathering the declarations of the unit that `source` parses to fails.
pub open spec fn resolve_refused(source: Seq<char>, c0: Context, u: Unit) -> bool {
    primed_context(c0) && parsed_unit(source, u) && !gather_ok(c0.table@, 0, gathered(u.decls@))
}

/// Declarations with equal models gather the same names.
proof fn lemma_gathered_model(a: Seq<Decl>, b: Seq<Decl>)
    requires
        crate::ast::decls_model(a) == crate::ast::decls_model(b),
    ensures
        gathered(a) == gathered(b),
    decreases a.len(),
{
    lemma_decls_model_len(a);
    lemma_decls_model_len(b);
    if a.len() > 0 {
        let ma = crate::ast::decls_model(a);
        assert(ma.drop_last() =~= crate::ast::decls_model(a.drop_last()));
        assert(crate::ast::decls_model(b).drop_last() =~= crate::ast::decls_model(b.drop_last()));
        lemma_gathered_model(a.drop_last(), b.drop_last());
        let mb = crate::ast::decls_model(b);
        assert(ma.last() == crate::ast::decl_model(a.last()));
        assert(mb.last() == crate::ast::decl_model(b.last()));
        assert(crate::ast::decl_model(a.last()) == crate::ast::decl_model(b.last()));
        match a.last() {
            Decl::Fn(f) => {
                assert(crate::ast::decl_model(b.last()) is Fn);
            },
            Decl::Type(t) => {
                assert(crate::ast::decl_model(b.last()) is Type);
            },
            _ => {},
        }
    }
}

proof fn lemma_decls_model_len(a: Seq<Decl>)
    ensures
        crate::ast::decls_model(a).len() == a.len(),
    decreases a.len(),
{
    if a.len() > 0 {
        lemma_decls_model_len(a.drop_last());
    }
}

/// Whether gathering succeeds does not depend on which primed context it
/// starts from: their root scopes define the same names.
proof fn lemma_primed_gather_ok(c: Context, d: Context, names: Seq<(Seq<char>, bool, Option<crate::ast::TypeBodyModel>)>)
    requires
        primed_context(c),
        primed_context(d),
    ensures
        gather_ok(c.table@, 0, names) == gather_ok(d.table@, 0, names),
{
    assert forall|n: Seq<char>| (#[trigger] c.table@.lookup_local(0, n)) is None <==> d.table@.lookup_local(0, n) is None by {
        if exists|k: int| 0 <= k < primitive_table().len() && (#[trigger] primitive_table()[k]).0 == n {
            let k = choose|k: int| 0 <= k < primitive_table().len() && (#[trigger] primitive_table()[k]).0 == n;
            assert(primitive_defined(c, primitive_table()[k].0, primitive_table()[k].1, primitive_ids(c.primitives)[k]));
            assert(primitive_defined(d, primitive_table()[k].0, primitive_table()[k].1, primitive_ids(d.primitives)[k]));
        }
    }
    if gather_ok(c.table@, 0, names) {
        assert forall|i: int| 0 <= i < names.len() implies d.table@.lookup_local(0, (#[trigger] names[i]).0) is None by {
            assert(c.table@.lookup_local(0, names[i].0) is None);
        }
    }
    if gather_ok(d.table@, 0, names) {
        assert forall|i: int| 0 <= i < names.len() implies c.table@.lookup_local(0, (#[trigger] names[i]).0) is None by {
            assert(d.table@.lookup_local(0, names[i].0) is None);
        }
    }
}

/// Checking the functions of the unit that `source` parses to fails.
pub open spec fn check_refused(source: Seq<char>, c0: Context, u: Unit, c1: Context) -> bool {
    &&& primed_context(c0)
    &&& parsed_unit(source, u)
    &&& gathered_into(c0, u, c1)
    &&& checkable_unit(u.decls@)
    &&& !ck_decls(env_of(c1), state_of(c1), ScopeID(0), u.decls@, u.decls@.len() as int).1
}

/// The unit that `source` parses to has a function body the checker does
/// not take.
pub open spec fn body_unsupported(source: Seq<char>, c0: Context, u: Unit, c1: Context) -> bool {
    primed_context(c0) && parsed_unit(source, u) && gathered_into(c0, u, c1) && !checkable_unit(u.decls@)
}

/// The unit that `source` parses to checks, but a declaration of its root
/// scope or one of its functions has no C form.
pub open spec fn print_unsupported(
    source: Seq<char>,
    c0: Context,
    u: Unit,
    c1: Context,
    c2: Context,
    fns: Seq<typed_ast::FnDecl>,
) -> bool {
    &&& primed_context(c0)
    &&& parsed_unit(source, u)
    &&& gathered_into(c0, u, c1)
    &&& checkable_unit(u.decls@)
    &&& checked_into(c1, u, c2, fns)
    &&& (!entries_printable(c2.interner@, c2.table@.defs, root_entries(c2)) || exists|j: int|
        0 <= j < fns.len() && !fn_printable(c2, (#[trigger] fns[j]).defid))
}

/// The unit that `source` parses to checks and has a C form, but printing
/// it fails.
pub open spec fn print_refused(
    source: Seq<char>,
    c0: Context,
    u: Unit,
    c1: Context,
    c2: Context,
    fns: Seq<typed_ast::FnDecl>,
) -> bool {
    &&& primed_context(c0)
    &&& parsed_unit(source, u)
    &&& gathered_into(c0, u, c1)
    &&& checkable_unit(u.decls@)
    &&& checked_into(c1, u, c2, fns)
    &&& entries_printable(c2.interner@, c2.table@.defs, root_entries(c2))
    &&& (header_text(c2.interner@, c2.table@.defs, root_entries(c2)) is None || fn_texts(c2, fns, fns.len() as int) is None)
}

/// `text` is the C text of the unit that `source` parses to: the header of
/// its root scope, then the definition of each function.
pub open spec fn compiled(
    source: Seq<char>,
    c0: Context,
    u: Unit,
    c1: Context,
    c2: Context,
    fns: Seq<typed_ast::FnDecl>,
    text: Seq<char>,
) -> bool {
    &&& primed_context(c0)
    &&& parsed_unit(source, u)
    &&& gathered_into(c0, u, c1)
    &&& checkable_unit(u.decls@)
    &&& checked_into(c1, u, c2, fns)
    &&& entries_printable(c2.interner@, c2.table@.defs, root_entries(c2))
    &&& forall|j: int| 0 <= j < fns.len() ==> fn_printable(c2, (#[trigger] fns[j]).defid)
    &&& header_text(c2.interner@, c2.table@.defs, root_entries(c2)) matches Some(h)
    &&& fn_texts(c2, fns, fns.len() as int) matches Some(f)
    &&& text == h + f
}

/// Compiles a whole text to C: declarations of the unit's types and
/// functions, then each checked function with its body.
#[verifier::rlimit(60)]
pub fn compile(source: &str) -> (r: Result<String, CompileError>)
    ensures
        (r matches Err(CompileError::Parse(_))) <==> !crate::parse::unit_parses(source@),
        (r matches Err(CompileError::Resolve(_))) <==> exists|c0: Context, u: Unit| #[trigger] resolve_refused(source@, c0, u),
        r matches Err(CompileError::Check(_)) ==> exists|c0: Context, u: Unit, c1: Context| #[trigger] check_refused(
            source@,
            c0,
            u,
            c1,
        ),
        r matches Err(CompileError::Unsupported) ==> (exists|c0: Context, u: Unit, c1: Context| #[trigger] body_unsupported(
            source@,
            c0,
            u,
            c1,
        )) || (exists|c0: Context, u: Unit, c1: Context, c2: Context, fns: Seq<typed_ast::FnDecl>| #[trigger] print_unsupported(
            source@,
            c0,
            u,
            c1,
            c2,
            fns,
        )),
        r matches Err(CompileError::Codegen(_)) ==> exists|
            c0: Context,
            u: Unit,
            c1: Context,
            c2: Context,
            fns: Seq<typed_ast::FnDecl>,
        | #[trigger] print_refused(source@, c0, u, c1, c2, fns),
        r matches Ok(t) ==> exists|c0: Context, u: Unit, c1: Context, c2: Context, fns: Seq<typed_ast::FnDecl>| #[trigger] compiled(
            source@,
            c0,
            u,
            c1,
            c2,
            fns,
            t@,
        ),
        r matches Err(CompileError::Parse(k)) ==> crate::parse::reports(
            Err::<crate::ast::Unit, Kind>(k),
            |u: crate::ast::Unit| crate::ast::decls_model(u.decls@),
            source@,
            |t: Seq<crate::token::TokenModel>| Some(crate::parse_decl::spec_decls(t, 0, seq![])),
        ),
{
    let unit = match parse(source) {
        Ok(u) => u,
        Err(k) => {
            proof {
                assert forall|c0x: Context, ux: Unit| !#[trigger] resolve_refused(source@, c0x, ux) by {
                    if parsed_unit(source@, ux) {
                        assert(crate::parse::unit_parses(source@));
                    }
                }
            }
            return Err(CompileError::Parse(k));
        },
    };
    let mut ctx = Context::new(Primitives::default());
    proof {
        assert forall|k: int| 0 <= k < primitive_table().len() implies ctx.table@.lookup_local(
            0,
            (#[trigger] primitive_table()[k]).0,
        ) is None by {
            assert(ctx.table@.scopes[0].entries.len() == 0);
        }
    }
    let ghost fresh = ctx;
    proof {
        assert forall|m: Seq<char>| #[trigger] fresh.table@.lookup_local(0, m) is None by {
            assert(fresh.table@.scopes[0].entries.len() == 0);
        }
    }
    load_primitives(&mut ctx);
    proof {
        assert(crate::context::primitive_defined(ctx, primitive_table()[0].0, primitive_table()[0].1, ctx.primitives.void));
    }
    let ghost c0 = ctx;
    let ghost u = unit;
    proof {
        assert(parsed_unit(source@, u));
        assert(primed_context(c0));
    }
    let root = ctx.table.root();
    if let Err(e) = resolve(&mut ctx, root, &unit) {
        proof {
            assert(resolve_refused(source@, c0, u));
        }
        return Err(CompileError::Resolve(e));
    }
    let ghost c1 = ctx;
    proof {
        assert(gathered_into(c0, u, c1));
        assert forall|c0x: Context, ux: Unit| !#[trigger] resolve_refused(source@, c0x, ux) by {
            if primed_context(c0x) && parsed_unit(source@, ux) {
                lemma_gathered_model(ux.decls@, u.decls@);
                lemma_primed_gather_ok(c0x, c0, gathered(u.decls@));
            }
        }
    }
    if !checkable_unit_exec(&unit.decls) {
        proof {
            assert(body_unsupported(source@, c0, u, c1));
        }
        return Err(CompileError::Unsupported);
    }
    let typed = match check(&mut ctx, root, unit) {
        Ok(t) => t,
        Err(e) => {
            proof {
                assert(check_refused(source@, c0, u, c1));
            }
            return Err(CompileError::Check(e));
        },
    };
    let ghost c2 = ctx;
    let ghost fns_t = typed.decls@;
    proof {
        assert(checked_into(c1, u, c2, fns_t));
    }
    proof {
        assert forall|i: int, k: int|
            0 <= i < typed.decls@.len() && 0 <= k < typed.decls@[i].block.statements@.len() implies crate::lower::lowerable(
            #[trigger] typed.decls@[i].block.statements@[k],
        ) by {
            assert(typed.decls@[i].block.statements@.len() == 0);
        }
    }
    let ir = match lower(root, &typed) {
        Ok(ir) => ir,
        Err(e) => {
            return Err(CompileError::Codegen(e));
        },
    };
    if !scope_printable_exec(&ctx, root) {
        proof {
            assert(print_unsupported(source@, c0, u, c1, c2, fns_t));
        }
        return Err(CompileError::Unsupported);
    }
    let codegen = Codegen::new(&ctx);
    let mut output = String::new();
    if let Err(e) = codegen.emit_header(&mut output, root) {
        proof {
            assert(print_refused(source@, c0, u, c1, c2, fns_t));
        }
        return Err(CompileError::Codegen(e));
    }
    let fns = ir.fns();
    proof {
        assert forall|j: int| 0 <= j < fns@.len() implies (#[trigger] fns@[j]).body@.len() == 0 && fns@[j].defid
            == fns_t[j].defid by {
            assert(crate::lower::fn_lowered(typed.decls@[j], ir.spec_fns()[j]));
            assert(typed.decls@[j].block.statements@.len() == 0);
        }
    }
    let emitted = emit_functions(&ctx, fns, &mut output, Ghost(fns_t));
    match emitted {
        Ok(()) => {
            proof {
                assert(compiled(source@, c0, u, c1, c2, fns_t, output@));
            }
            let result: Result<String, CompileError> = Ok(output);
            proof {
                assert(result matches Ok(t) && t@ == output@);
            }
            return result;
        },
        Err(CompileError::Unsupported) => {
            proof {
                assert(print_unsupported(source@, c0, u, c1, c2, fns_t));
            }
            Err(CompileError::Unsupported)
        },
        Err(e) => {
            proof {
                assert(print_refused(source@, c0, u, c1, c2, fns_t));
            }
            Err(e)
        },
    }
}

/// Prints the C definition of each function of `fns`, whose checked forms
/// are `checked`, with its body: the first function without a C signature
/// stops it as unsupported, the first without a C definition as a printing
/// error.
fn emit_functions(ctx: &Context, fns: &[FnIR], output: &mut String, Ghost(checked): Ghost<Seq<typed_ast::FnDecl>>) -> (r: Result<
    (),
    CompileError,
>)
    requires
        ctx.wf(),
        fns@.len() == checked.len(),
        forall|j: int| 0 <= j < fns@.len() ==> (#[trigger] fns@[j]).body@.len() == 0 && fns@[j].defid == checked[j].defid,
    ensures
        r is Ok ==> forall|j: int| 0 <= j < checked.len() ==> fn_printable(*ctx, (#[trigger] checked[j]).defid),
        r is Ok ==> (fn_texts(*ctx, checked, checked.len() as int) matches Some(f) && final(output)@ == old(output)@ + f),
        r matches Err(CompileError::Unsupported) ==> exists|j: int|
            0 <= j < checked.len() && !fn_printable(*ctx, (#[trigger] checked[j]).defid),
        r matches Err(e) ==> (e is Unsupported || (e is Codegen && fn_texts(*ctx, checked, checked.len() as int) is None)),
{
    let codegen = Codegen::new(ctx);
    let mut i: usize = 0;
    while i < fns.len()
        invariant
            ctx.wf(),
            codegen.ctx == ctx,
            fns@.len() == checked.len(),
            forall|j: int| 0 <= j < fns@.len() ==> (#[trigger] fns@[j]).body@.len() == 0 && fns@[j].defid == checked[j].defid,
            i <= fns@.len(),
            forall|j: int| 0 <= j < i ==> fn_printable(*ctx, (#[trigger] checked[j]).defid),
            fn_texts(*ctx, checked, i as int) is Some,
            output@ == old(output)@ + fn_texts(*ctx, checked, i as int).unwrap(),
        decreases fns.len() - i,
    {
        let f = &fns[i];
        let printable = match ctx.table.get_def(f.defid) {
            Some(def) => match &def.kind {
                DefKind::Function(sig) => sig_printable_exec(&ctx.interner, sig),
                _ => true,
            },
            None => true,
        };
        if !printable {
            proof {
                assert(!fn_printable(*ctx, checked[i as int].defid));
            }
            return Err(CompileError::Unsupported);
        }
        let ghost before = output@;
        if let Err(e) = codegen.emit_fn_def(output, ScopeID(0), f) {
            proof {
                assert(fn_texts(*ctx, checked, i + 1) is None);
                lemma_fn_texts_stop(*ctx, checked, i + 1, checked.len() as int);
            }
            return Err(CompileError::Codegen(e));
        }
        output.append(" {\n");
        let mut emitter = BodyEmitter::new(ctx, f);
        proof {
            assert(body_parts(ctx.interner@, ctx.table@.defs, f.body@, 1) =~= Seq::<Option<Seq<char>>>::empty());
        }
        if let Err(e) = emitter.emit(output, ScopeID(0)) {
            return Err(CompileError::Codegen(e));
        }
        output.append("}\n\n");
        proof {
            let d = fn_def_text(ctx.interner@, ctx.table@.defs, checked[i as int].defid).unwrap();
            let prev = fn_texts(*ctx, checked, i as int).unwrap();
            assert(output@ =~= old(output)@ + (prev + d + " {\n"@ + "}\n\n"@));
        }
        i = i + 1;
    }
    Ok(())
}

} // verus!
