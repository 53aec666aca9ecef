//! The first pass over a unit: every function and type declared at the top
//! level gets a definition in the unit's scope, and every type gets a
//! user-defined type id.
use vstd::prelude::*;

use crate::ast::{type_body_model, Decl, FnDecl, TypeBody, TypeBodyModel, TypeDecl, Unit};
use crate::defkinds::{EnumDef, FnSig, StructDef, TraitDef, TypeAliasDef};
use crate::symbols::{
    def_typeid, lemma_find_entry_push, DefKind, Definition, SymbolTable, TableView,
};
use crate::text::owned;
use crate::types::{DefID, ScopeID, TypeDef, TypeID, TypeInterner, TypeShape};
use crate::context::{def_type_ids, Context};

verus! {

broadcast use {vstd::seq::group_seq_axioms, vstd::std_specs::vec::group_vec_axioms};

/// The names that the declarations define, in order, each with whether it
/// names a type; imports and `pub` declarations define nothing here.
pub open spec fn gathered(decls: Seq<Decl>) -> Seq<(Seq<char>, bool, Option<TypeBodyModel>)>
    decreases decls.len(),
{
    if decls.len() == 0 {
        seq![]
    } else {
        let prev = gathered(decls.drop_last());
        match decls.last() {
            Decl::Fn(f) => prev.push((f.signature.name.name@, false, None)),
            Decl::Type(t) => prev.push((t.name.name@, true, Some(type_body_model(t.body)))),
            _ => prev,
        }
    }
}

/// Whether gathering into `scope` of `table` succeeds: the scope exists
/// (when anything is to be defined), the names differ from each other, and
/// the scope defines none of them yet.
pub open spec fn gather_ok(table: TableView, scope: int, names: Seq<(Seq<char>, bool, Option<TypeBodyModel>)>) -> bool {
    &&& (names.len() == 0 || 0 <= scope < table.scopes.len())
    &&& forall|i: int, j: int| 0 <= i < j < names.len() ==> names[i].0 != names[j].0
    &&& forall|i: int| 0 <= i < names.len() ==> table.lookup_local(scope, (#[trigger] names[i]).0) is None
}

/// The kind a type declaration gets, with the given type id.
pub open spec fn type_kind_matches(body: TypeBodyModel, kind: DefKind, typeid: TypeID) -> bool {
    match (body, kind) {
        (TypeBodyModel::Struct(_), DefKind::Struct(d)) => d.fields@.len() == 0 && !d.resolved && d.typeid == typeid,
        (TypeBodyModel::Trait(_), DefKind::Trait(d)) => !d.resolved && d.typeid == typeid,
        (TypeBodyModel::Enum(_), DefKind::Enum(d)) => d.values@.len() == 0 && !d.resolved && d.typeid == typeid,
        (TypeBodyModel::Alias(_), DefKind::TypeAlias(d)) => !d.resolved && d.typeid == typeid,
        _ => false,
    }
}

/// What a gathered definition holds: a function not yet resolved, or a
/// type whose id stands for the definition itself.
pub open spec fn gathered_def(table: TableView, types: Seq<TypeShape>, d: int, entry: (Seq<char>, bool, Option<TypeBodyModel>)) -> bool {
    &&& table.defs[d].name@ == entry.0
    &&& if entry.1 {
        def_typeid(table.defs[d].kind) matches Some(t) && 0 <= t.0 < types.len() && types[t.0 as int]
            == TypeShape::UserDef(DefID(d as usize)) && def_type_ids(table.defs[d].kind) == seq![t]
            && (entry.2 matches Some(b) && type_kind_matches(b, table.defs[d].kind, t))
    } else {
        table.defs[d].kind matches DefKind::Function(sig) && sig.name@ == entry.0 && sig.params@.len()
            == 0 && !sig.resolved && sig.typeid == TypeID(0) && sig.return_type == TypeID(0)
    }
}

fn type_kind(ty: &TypeDecl, typeid: TypeID) -> (r: DefKind)
    ensures
        type_kind_matches(type_body_model(ty.body), r, typeid),
{
    match &ty.body {
        TypeBody::Struct(_) => DefKind::Struct(StructDef { fields: Vec::new(), resolved: false, typeid }),
        TypeBody::Trait(_) => DefKind::Trait(TraitDef { resolved: false, typeid }),
        TypeBody::Enum(_) => DefKind::Enum(EnumDef { resolved: false, values: Vec::new(), typeid }),
        TypeBody::Alias(_) => DefKind::TypeAlias(TypeAliasDef { resolved: false, typeid }),
    }
}

/// The definition a function declaration starts with: not yet resolved,
/// without parameters, with type ids zero.
fn fn_definition(name: &String) -> (r: Definition)
    ensures
        r.name@ == name@,
        r.kind matches DefKind::Function(sig) && sig.name@ == name@ && sig.params@.len() == 0 && !sig.resolved
            && sig.typeid == TypeID(0) && sig.return_type == TypeID(0),
{
    Definition {
        name: name.clone(),
        kind: DefKind::Function(
            FnSig { name: name.clone(), params: Vec::new(), return_type: TypeID(0), resolved: false, typeid: TypeID(0) },
        ),
    }
}

/// The definition a type declaration starts with: its name, and a kind
/// that follows its body, not yet resolved and with type id zero.
pub fn gather_type(ty: &TypeDecl) -> (r: Result<Definition, String>)
    ensures
        r matches Ok(d) && d.name@ == ty.name.name@ && type_kind_matches(type_body_model(ty.body), d.kind, TypeID(0)),
{
    Ok(Definition { name: ty.name.name.clone(), kind: type_kind(ty, TypeID(0)) })
}

proof fn lemma_gathered_take(decls: Seq<Decl>, i: int)
    requires
        0 <= i < decls.len(),
    ensures
        gathered(decls.take(i + 1)) == match decls[i] {
            Decl::Fn(f) => gathered(decls.take(i)).push((f.signature.name.name@, false, None)),
            Decl::Type(t) => gathered(decls.take(i)).push((t.name.name@, true, Some(type_body_model(t.body)))),
            _ => gathered(decls.take(i)),
        },
{
    assert(decls.take(i + 1).drop_last() =~= decls.take(i));
    assert(decls.take(i + 1).last() == decls[i]);
}

proof fn lemma_gathered_prefix(decls: Seq<Decl>, i: int)
    requires
        0 <= i <= decls.len(),
    ensures
        gathered(decls.take(i)).len() <= gathered(decls).len(),
        forall|k: int| 0 <= k < gathered(decls.take(i)).len() ==> #[trigger] gathered(decls.take(i))[k]
            == gathered(decls)[k],
    decreases decls.len() - i,
{
    if i < decls.len() {
        lemma_gathered_take(decls, i);
        lemma_gathered_prefix(decls, i + 1);
        assert forall|k: int| 0 <= k < gathered(decls.take(i)).len() implies #[trigger] gathered(
            decls.take(i),
        )[k] == gathered(decls)[k] by {
            assert(gathered(decls.take(i))[k] == gathered(decls.take(i + 1))[k]);
        }
    } else {
        assert(decls.take(i) =~= decls);
    }
}

/// What defining `def` in `sc` does to lookups there.
proof fn lemma_define_effect(tb: TableView, sc: int, ta: TableView, def: Definition)
    requires
        tb.wf(),
        0 <= sc < tb.scopes.len(),
        tb.lookup_local(sc, def.name@) is None,
        ta == tb.define_model(sc, def),
    ensures
        ta.lookup_local(sc, def.name@) == Some(DefID(tb.defs.len() as usize)),
        forall|m: Seq<char>| m != def.name@ ==> #[trigger] ta.lookup_local(sc, m) == tb.lookup_local(sc, m),
        ta.defs == tb.defs.push(def),
        ta.scopes.len() == tb.scopes.len(),
{
    let e = (def.name@, DefID(tb.defs.len() as usize));
    lemma_find_entry_push(tb.scopes[sc].entries, def.name@, e);
    assert forall|m: Seq<char>| m != def.name@ implies #[trigger] ta.lookup_local(sc, m) == tb.lookup_local(sc, m) by {
        lemma_find_entry_push(tb.scopes[sc].entries, m, e);
    }
}

/// A name that the scope did not define before the current declaration is
/// new to the unit and to the table as it was before.
proof fn lemma_new_name(t0: TableView, tb: TableView, sc: int, n: Seq<char>, names: Seq<(Seq<char>, bool, Option<TypeBodyModel>)>, base: int)
    requires
        tb.lookup_local(sc, n) is None,
        forall|k: int| 0 <= k < names.len() ==> tb.lookup_local(sc, (#[trigger] names[k]).0) == Some(
            DefID((base + k) as usize),
        ),
        forall|m: Seq<char>| (forall|k: int| 0 <= k < names.len() ==> (#[trigger] names[k]).0 != m)
            ==> tb.lookup_local(sc, m) == t0.lookup_local(sc, m),
    ensures
        forall|k: int| 0 <= k < names.len() ==> (#[trigger] names[k]).0 != n,
        t0.lookup_local(sc, n) is None,
{
    assert forall|k: int| 0 <= k < names.len() implies (#[trigger] names[k]).0 != n by {
        if names[k].0 == n {
            assert(tb.lookup_local(sc, n) == Some(DefID((base + k) as usize)));
        }
    }
}

/// Why a failed definition makes gathering fail.
proof fn lemma_define_failed(decls: Seq<Decl>, i: int, t0: TableView, tb: TableView, sc: int, n: Seq<char>, is_type: bool, body: Option<TypeBodyModel>, base: int)
    requires
        0 <= i < decls.len(),
        gathered(decls.take(i + 1)) == gathered(decls.take(i)).push((n, is_type, body)),
        tb.scopes.len() == t0.scopes.len(),
        !(0 <= sc < tb.scopes.len() && tb.lookup_local(sc, n) is None),
        gather_ok(t0, sc, gathered(decls.take(i))),
        forall|k: int| 0 <= k < gathered(decls.take(i)).len() ==> tb.lookup_local(sc, (#[trigger] gathered(decls.take(i))[k]).0) == Some(
            DefID((base + k) as usize),
        ),
        forall|m: Seq<char>| (forall|k: int| 0 <= k < gathered(decls.take(i)).len() ==> (#[trigger] gathered(decls.take(i))[k]).0 != m)
            ==> tb.lookup_local(sc, m) == t0.lookup_local(sc, m),
    ensures
        !gather_ok(t0, sc, gathered(decls)),
        !gather_ok(t0, sc, gathered(decls).take(gathered(decls.take(i)).len() + 1 as int)),
        gathered(decls).take(gathered(decls.take(i)).len() as int) == gathered(decls.take(i)),
        gathered(decls)[gathered(decls.take(i)).len() as int] == (n, is_type, body),
        gathered(decls.take(i)).len() < gathered(decls).len(),
{
    let names = gathered(decls.take(i));
    let g = gathered(decls);
    lemma_gathered_prefix(decls, i + 1);
    lemma_gathered_prefix(decls, i);
    let j = names.len() as int;
    let g1 = g.take(j + 1);
    assert(gathered(decls.take(i + 1))[j] == (n, is_type, body));
    assert(g[j] == (n, is_type, body));
    assert(g.take(j) =~= names);
    assert(g1[j] == (n, is_type, body));
    if 0 <= sc < tb.scopes.len() {
        if exists|k: int| 0 <= k < names.len() && (#[trigger] names[k]).0 == n {
            let k = choose|k: int| 0 <= k < names.len() && (#[trigger] names[k]).0 == n;
            assert(gathered(decls.take(i + 1))[k] == names[k]);
            assert(g[k] == names[k]);
            assert(g[k].0 == g[j].0);
            assert(g1[k].0 == g1[j].0);
        } else {
            assert(t0.lookup_local(sc, n) is Some);
            assert(t0.lookup_local(sc, g1[j].0) is Some);
        }
    }
}

/// Gathering stopped at the `k`-th name: the names before it were defined
/// in order, with consecutive ids, and the `k`-th could not be.
pub open spec fn gather_stopped_at(
    t0: TableView,
    t1: TableView,
    types: Seq<TypeShape>,
    scope: int,
    names: Seq<(Seq<char>, bool, Option<TypeBodyModel>)>,
    k: int,
) -> bool {
    &&& 0 <= k < names.len()
    &&& gather_ok(t0, scope, names.take(k))
    &&& !gather_ok(t0, scope, names.take(k + 1))
    &&& t1.defs.len() == t0.defs.len() + k
    &&& forall|j: int| 0 <= j < k ==> {
        &&& t1.lookup_local(scope, (#[trigger] names[j]).0) == Some(DefID((t0.defs.len() + j) as usize))
        &&& gathered_def(t1, types, t0.defs.len() + j, names[j])
    }
}

/// A gathered definition stays as it was while later ones are added.
proof fn lemma_gathered_def_grow(t1: TableView, s1: Seq<TypeShape>, t2: TableView, s2: Seq<TypeShape>, d: int, e: (Seq<char>, bool, Option<TypeBodyModel>))
    requires
        gathered_def(t1, s1, d, e),
        0 <= d < t1.defs.len(),
        d < t2.defs.len(),
        t2.defs[d] == t1.defs[d],
        s2.len() >= s1.len(),
        forall|j: int| 0 <= j < s1.len() ==> #[trigger] s2[j] == s1[j],
    ensures
        gathered_def(t2, s2, d, e),
{
    if e.1 {
        let t = def_typeid(t1.defs[d].kind).unwrap();
        assert(s2[t.0 as int] == s1[t.0 as int]);
    }
}

/// Defines the function `name` in `scope`.
fn define_fn(table: &mut SymbolTable, scope: ScopeID, func: &FnDecl) -> (r: bool)
    requires
        old(table)@.wf(),
    ensures
        final(table)@.wf(),
        r <==> (scope.0 < old(table)@.scopes.len() && old(table)@.lookup_local(scope.0 as int, func.signature.name.name@) is None),
        !r ==> final(table)@ == old(table)@,
        r ==> final(table)@.lookup_local(scope.0 as int, func.signature.name.name@) == Some(DefID(old(table)@.defs.len() as usize)),
        r ==> forall|m: Seq<char>| m != func.signature.name.name@ ==> #[trigger] final(table)@.lookup_local(scope.0 as int, m)
            == old(table)@.lookup_local(scope.0 as int, m),
        r ==> final(table)@.defs.len() == old(table)@.defs.len() + 1,
        r ==> forall|j: int| 0 <= j < old(table)@.defs.len() ==> #[trigger] final(table)@.defs[j] == old(table)@.defs[j],
        r ==> final(table)@.scopes.len() == old(table)@.scopes.len(),
        r ==> final(table)@.defs[old(table)@.defs.len() as int].name@ == func.signature.name.name@,
        r ==> (final(table)@.defs[old(table)@.defs.len() as int].kind matches DefKind::Function(sig) && sig.name@
            == func.signature.name.name@ && sig.params@.len() == 0 && !sig.resolved && sig.typeid == TypeID(0)
            && sig.return_type == TypeID(0)),
{
    let def = fn_definition(&func.signature.name.name);
    let ghost gdef = def;
    let ghost tb = table@;
    let res = table.define(scope, def);
    let ok = res.is_ok();
    if ok {
        proof {
            lemma_define_effect(tb, scope.0 as int, table@, gdef);
        }
    }
    ok
}

/// Defines the type declared by `ty` in `scope` and interns its
/// user-defined type.
fn define_type(table: &mut SymbolTable, interner: &mut TypeInterner, scope: ScopeID, ty: &TypeDecl) -> (r: bool)
    requires
        old(table)@.wf(),
        old(interner).wf(),
    ensures
        final(table)@.wf(),
        final(interner).wf(),
        r <==> (scope.0 < old(table)@.scopes.len() && old(table)@.lookup_local(scope.0 as int, ty.name.name@) is None),
        !r ==> final(table)@ == old(table)@ && final(interner)@ == old(interner)@,
        final(interner)@.len() >= old(interner)@.len(),
        forall|i: int| 0 <= i < old(interner)@.len() ==> #[trigger] final(interner)@[i] == old(interner)@[i],
        r ==> final(table)@.lookup_local(scope.0 as int, ty.name.name@) == Some(DefID(old(table)@.defs.len() as usize)),
        r ==> forall|m: Seq<char>| m != ty.name.name@ ==> #[trigger] final(table)@.lookup_local(scope.0 as int, m)
            == old(table)@.lookup_local(scope.0 as int, m),
        r ==> final(table)@.defs.len() == old(table)@.defs.len() + 1,
        r ==> forall|j: int| 0 <= j < old(table)@.defs.len() ==> #[trigger] final(table)@.defs[j] == old(table)@.defs[j],
        r ==> final(table)@.scopes.len() == old(table)@.scopes.len(),
        r ==> gathered_def(final(table)@, final(interner)@, old(table)@.defs.len() as int, (ty.name.name@, true, Some(type_body_model(ty.body)))),
        forall|i: int| old(interner)@.len() <= i < final(interner)@.len() ==> #[trigger] final(interner)@[i]
            == TypeShape::UserDef(DefID(old(table)@.defs.len() as usize)),
{
    let def = match gather_type(ty) {
        Ok(d) => d,
        Err(_) => {
            return false;
        },
    };
    let ghost gdef = def;
    let ghost tb = table@;
    let n0 = table.def_count();
    let res = table.define(scope, def);
    if res.is_err() {
        return false;
    }
    let def_id = DefID(n0);
    match res {
        Ok(_) => {
            let ghost ta = table@;
            proof {
                lemma_define_effect(tb, scope.0 as int, ta, gdef);
            }
            let typeid = interner.intern(TypeDef::UserDef(def_id));
            let kind = type_kind(ty, typeid);
            let ghost gkind = kind;
            let _ = table.set_def_kind(def_id, kind);
            proof {
                assert forall|m: Seq<char>| #[trigger] table@.lookup_local(scope.0 as int, m) == ta.lookup_local(scope.0 as int, m) by {}
                assert forall|j: int| 0 <= j < tb.defs.len() implies #[trigger] table@.defs[j] == tb.defs[j] by {
                    assert(table@.defs[j] == ta.defs[j]);
                }
                let id = tb.defs.len() as int;
                assert(def_id.0 == id);
                assert(table@.defs[id].kind == gkind);
                assert(table@.defs[id].name == ta.defs[id].name);
                assert(def_typeid(gkind) == Some(typeid));
                assert(def_type_ids(gkind) =~= seq![typeid]);
                assert(interner@[typeid.0 as int] == TypeShape::UserDef(def_id));
            }
            true
        },
        Err(_) => false,
    }
}

/// The loop's facts after one more name is defined.
proof fn lemma_step(
    t0: TableView,
    tb: TableView,
    sb: Seq<TypeShape>,
    ta: TableView,
    sa: Seq<TypeShape>,
    sc: int,
    n: Seq<char>,
    flag: bool,
    body: Option<TypeBodyModel>,
    names: Seq<(Seq<char>, bool, Option<TypeBodyModel>)>,
    base: int,
)
    requires
        gather_ok(t0, sc, names),
        forall|k: int| 0 <= k < names.len() ==> {
            &&& tb.lookup_local(sc, (#[trigger] names[k]).0) == Some(DefID((base + k) as usize))
            &&& gathered_def(tb, sb, base + k, names[k])
        },
        forall|m: Seq<char>| (forall|k: int| 0 <= k < names.len() ==> (#[trigger] names[k]).0 != m)
            ==> tb.lookup_local(sc, m) == t0.lookup_local(sc, m),
        tb.defs.len() == base + names.len(),
        base >= 0,
        0 <= sc < tb.scopes.len(),
        tb.scopes.len() == t0.scopes.len(),
        tb.lookup_local(sc, n) is None,
        ta.lookup_local(sc, n) == Some(DefID(tb.defs.len() as usize)),
        forall|m: Seq<char>| m != n ==> #[trigger] ta.lookup_local(sc, m) == tb.lookup_local(sc, m),
        ta.defs.len() == tb.defs.len() + 1,
        forall|j: int| 0 <= j < tb.defs.len() ==> #[trigger] ta.defs[j] == tb.defs[j],
        gathered_def(ta, sa, tb.defs.len() as int, (n, flag, body)),
        sa.len() >= sb.len(),
        forall|j: int| 0 <= j < sb.len() ==> #[trigger] sa[j] == sb[j],
    ensures
        gather_ok(t0, sc, names.push((n, flag, body))),
        forall|k: int| 0 <= k < names.push((n, flag, body)).len() ==> {
            &&& ta.lookup_local(sc, (#[trigger] names.push((n, flag, body))[k]).0) == Some(DefID((base + k) as usize))
            &&& gathered_def(ta, sa, base + k, names.push((n, flag, body))[k])
        },
        forall|m: Seq<char>| (forall|k: int| 0 <= k < names.push((n, flag, body)).len() ==> (#[trigger] names.push((n, flag, body))[k]).0 != m)
            ==> ta.lookup_local(sc, m) == t0.lookup_local(sc, m),
        ta.defs.len() == base + names.push((n, flag, body)).len(),
{
    let names2 = names.push((n, flag, body));
    lemma_new_name(t0, tb, sc, n, names, base);
    assert forall|k: int| 0 <= k < names2.len() implies {
        &&& ta.lookup_local(sc, (#[trigger] names2[k]).0) == Some(DefID((base + k) as usize))
        &&& gathered_def(ta, sa, base + k, names2[k])
    } by {
        if k < names.len() {
            assert(names2[k] == names[k]);
            lemma_gathered_def_grow(tb, sb, ta, sa, base + k, names[k]);
        }
    }
    assert forall|m: Seq<char>| (forall|k: int| 0 <= k < names2.len() ==> (#[trigger] names2[k]).0 != m)
        implies ta.lookup_local(sc, m) == t0.lookup_local(sc, m) by {
        assert(names2[names.len() as int].0 == n);
        assert forall|k: int| 0 <= k < names.len() implies (#[trigger] names[k]).0 != m by {
            assert(names2[k] == names[k]);
        }
    }
    assert forall|i: int| 0 <= i < names2.len() implies t0.lookup_local(sc, (#[trigger] names2[i]).0) is None by {
        if i < names.len() {
            assert(names2[i] == names[i]);
        }
    }
    assert forall|i: int, j: int| 0 <= i < j < names2.len() implies names2[i].0 != names2[j].0 by {
        if j < names.len() {
            assert(names2[i] == names[i]);
            assert(names2[j] == names[j]);
        } else {
            assert(names2[i] == names[i]);
        }
    }
}

/// The types interned since `n0` are user types of the definitions made
/// since `d0`.
pub open spec fn fresh_types(types: Seq<TypeShape>, n0: int, d0: int, d1: int) -> bool {
    forall|i: int| n0 <= i < types.len() ==> ((#[trigger] types[i]) matches TypeShape::UserDef(d) && d0 <= d.0 < d1)
}

/// The type ids of the definitions made since `d0` are zero or stored.
pub open spec fn fresh_defs_typed(table: TableView, types: Seq<TypeShape>, d0: int) -> bool {
    forall|i: int, k: int|
        d0 <= i < table.defs.len() && 0 <= k < def_type_ids(table.defs[i].kind).len() ==> (#[trigger] def_type_ids(
            table.defs[i].kind,
        )[k]) == TypeID(0) || def_type_ids(table.defs[i].kind)[k].0 < types.len()
}

/// Defines every function and type of `ast` in `scope`, in order; stops at
/// the first name that cannot be defined.
pub fn gather_decl(ast: &[Decl], scope: ScopeID, table: &mut SymbolTable, interner: &mut TypeInterner) -> (r: Result<(), String>)
    requires
        old(table)@.wf(),
        old(interner).wf(),
    ensures
        final(table)@.wf(),
        final(interner).wf(),
        r is Ok <==> gather_ok(old(table)@, scope.0 as int, gathered(ast@)),
        final(interner)@.len() >= old(interner)@.len(),
        forall|i: int| 0 <= i < old(interner)@.len() ==> #[trigger] final(interner)@[i] == old(interner)@[i],
        final(table)@.scopes.len() == old(table)@.scopes.len(),
        final(table)@.defs.len() >= old(table)@.defs.len(),
        forall|i: int| 0 <= i < old(table)@.defs.len() ==> #[trigger] final(table)@.defs[i] == old(table)@.defs[i],
        r is Ok ==> final(table)@.defs.len() == old(table)@.defs.len() + gathered(ast@).len(),
        r is Ok ==> forall|n: Seq<char>| (forall|k: int| 0 <= k < gathered(ast@).len() ==> (#[trigger] gathered(ast@)[k]).0 != n)
            ==> #[trigger] final(table)@.lookup_local(scope.0 as int, n) == old(table)@.lookup_local(scope.0 as int, n),
        r is Ok ==> forall|k: int| 0 <= k < gathered(ast@).len() ==> {
            &&& final(table)@.lookup_local(scope.0 as int, (#[trigger] gathered(ast@)[k]).0) == Some(
                DefID((old(table)@.defs.len() + k) as usize),
            )
            &&& gathered_def(final(table)@, final(interner)@, old(table)@.defs.len() + k, gathered(ast@)[k])
        },
        fresh_types(final(interner)@, old(interner)@.len() as int, old(table)@.defs.len() as int, final(table)@.defs.len() as int),
        fresh_defs_typed(final(table)@, final(interner)@, old(table)@.defs.len() as int),
        r matches Err(e) ==> exists|k: int| #[trigger] gather_stopped_at(
            old(table)@,
            final(table)@,
            final(interner)@,
            scope.0 as int,
            gathered(ast@),
            k,
        ) && e@ == (if gathered(ast@)[k].1 {
            "failed to define type: "@
        } else {
            "failed to define function: "@
        }) + gathered(ast@)[k].0,
{
    let ghost t0 = table@;
    let ghost s0 = interner@;
    let ghost base = t0.defs.len() as int;
    let ghost sc = scope.0 as int;
    let mut i: usize = 0;
    proof {
        lemma_gathered_prefix(ast@, 0);
        assert(ast@.take(0) =~= Seq::<Decl>::empty());
    }
    while i < ast.len()
        invariant
            sc == scope.0 as int,
            t0 == old(table)@,
            s0 == old(interner)@,
            base == t0.defs.len() as int,
            i <= ast@.len(),
            table@.wf(),
            interner.wf(),
            table@.scopes.len() == t0.scopes.len(),
            interner@.len() >= s0.len(),
            forall|j: int| 0 <= j < s0.len() ==> #[trigger] interner@[j] == s0[j],
            table@.defs.len() == base + gathered(ast@.take(i as int)).len(),
            forall|j: int| 0 <= j < base ==> #[trigger] table@.defs[j] == t0.defs[j],
            gather_ok(t0, sc, gathered(ast@.take(i as int))),
            fresh_types(interner@, s0.len() as int, base, table@.defs.len() as int),
            fresh_defs_typed(table@, interner@, base),
            forall|k: int| 0 <= k < gathered(ast@.take(i as int)).len() ==> {
                &&& table@.lookup_local(sc, (#[trigger] gathered(ast@.take(i as int))[k]).0) == Some(
                    DefID((base + k) as usize),
                )
                &&& gathered_def(table@, interner@, base + k, gathered(ast@.take(i as int))[k])
            },
            forall|n: Seq<char>| (forall|k: int| 0 <= k < gathered(ast@.take(i as int)).len() ==> (
            #[trigger] gathered(ast@.take(i as int))[k]).0 != n) ==> table@.lookup_local(sc, n)
                == t0.lookup_local(sc, n),
        decreases ast.len() - i,
    {
        let ghost names = gathered(ast@.take(i as int));
        proof {
            lemma_gathered_take(ast@, i as int);
            lemma_gathered_prefix(ast@, (i + 1) as int);
        }
        let ghost tb = table@;
        let ghost sb = interner@;
        match &ast[i] {
            Decl::Fn(func) => {
                let ok = define_fn(table, scope, func);
                if !ok {
                    proof {
                        lemma_define_failed(ast@, i as int, t0, tb, sc, func.signature.name.name@, false, None, base);
                        let k = names.len() as int;
                        assert forall|j: int| 0 <= j < k implies #[trigger] gathered(ast@)[j] == names[j] by {
                            assert(gathered(ast@).take(k)[j] == gathered(ast@)[j]);
                        }
                        assert(gather_stopped_at(t0, table@, interner@, sc, gathered(ast@), k));
                    }
                    let mut e = owned("failed to define function: ");
                    e.append(func.signature.name.name.as_str());
                    return Err(e);
                }
                proof {
                    lemma_step(t0, tb, sb, table@, interner@, sc, func.signature.name.name@, false, None, names, base);
                    let nd = tb.defs.len() as int;
                    assert(def_type_ids(table@.defs[nd].kind) =~= seq![TypeID(0), TypeID(0)]);
                    assert forall|j: int, k: int|
                        base <= j < table@.defs.len() && 0 <= k < def_type_ids(table@.defs[j].kind).len() implies (
                        #[trigger] def_type_ids(table@.defs[j].kind)[k]) == TypeID(0) || def_type_ids(table@.defs[j].kind)[k].0
                            < interner@.len() by {
                        if j < nd {
                            assert(table@.defs[j] == tb.defs[j]);
                        }
                    }
                }
            },
            Decl::Type(ty) => {
                let ok = define_type(table, interner, scope, ty);
                if !ok {
                    proof {
                        lemma_define_failed(ast@, i as int, t0, tb, sc, ty.name.name@, true, Some(type_body_model(ty.body)), base);
                        let k = names.len() as int;
                        assert forall|j: int| 0 <= j < k implies #[trigger] gathered(ast@)[j] == names[j] by {
                            assert(gathered(ast@).take(k)[j] == gathered(ast@)[j]);
                        }
                        assert(gather_stopped_at(t0, table@, interner@, sc, gathered(ast@), k));
                    }
                    let mut e = owned("failed to define type: ");
                    e.append(ty.name.name.as_str());
                    return Err(e);
                }
                proof {
                    lemma_step(t0, tb, sb, table@, interner@, sc, ty.name.name@, true, Some(type_body_model(ty.body)), names, base);
                    let nd = tb.defs.len() as int;
                    assert forall|j: int| s0.len() <= j < interner@.len() implies ((#[trigger] interner@[j]) matches TypeShape::UserDef(
                        d,
                    ) && base <= d.0 < table@.defs.len()) by {
                        if j < sb.len() {
                            assert(interner@[j] == sb[j]);
                        }
                    }
                    assert forall|j: int, k: int|
                        base <= j < table@.defs.len() && 0 <= k < def_type_ids(table@.defs[j].kind).len() implies (
                        #[trigger] def_type_ids(table@.defs[j].kind)[k]) == TypeID(0) || def_type_ids(table@.defs[j].kind)[k].0
                            < interner@.len() by {
                        if j < nd {
                            assert(table@.defs[j] == tb.defs[j]);
                        }
                    }
                }
            },
            Decl::Import(_) => {},
            Decl::Pub(_) => {},
        }
        i = i + 1;
    }
    proof {
        assert(ast@.take(i as int) =~= ast@);
    }
    Ok(())
}

/// Runs `gather_decl` on the declarations of a unit.
pub fn gather(ast: &Unit, scope: ScopeID, table: &mut SymbolTable, interner: &mut TypeInterner) -> (r: Result<(), String>)
    requires
        old(table)@.wf(),
        old(interner).wf(),
    ensures
        final(table)@.wf(),
        final(interner).wf(),
        r is Ok <==> gather_ok(old(table)@, scope.0 as int, gathered(ast.decls@)),
        r is Ok ==> final(table)@.defs.len() == old(table)@.defs.len() + gathered(ast.decls@).len(),
        r is Ok ==> forall|n: Seq<char>| (forall|k: int| 0 <= k < gathered(ast.decls@).len() ==> (#[trigger] gathered(ast.decls@)[k]).0 != n)
            ==> #[trigger] final(table)@.lookup_local(scope.0 as int, n) == old(table)@.lookup_local(scope.0 as int, n),
        r is Ok ==> forall|k: int| 0 <= k < gathered(ast.decls@).len() ==> {
            &&& final(table)@.lookup_local(scope.0 as int, (#[trigger] gathered(ast.decls@)[k]).0) == Some(
                DefID((old(table)@.defs.len() + k) as usize),
            )
            &&& gathered_def(final(table)@, final(interner)@, old(table)@.defs.len() + k, gathered(ast.decls@)[k])
        },
        final(interner)@.len() >= old(interner)@.len(),
        forall|i: int| 0 <= i < old(interner)@.len() ==> #[trigger] final(interner)@[i] == old(interner)@[i],
        final(table)@.scopes.len() == old(table)@.scopes.len(),
        final(table)@.defs.len() >= old(table)@.defs.len(),
        forall|i: int| 0 <= i < old(table)@.defs.len() ==> #[trigger] final(table)@.defs[i] == old(table)@.defs[i],
        fresh_types(final(interner)@, old(interner)@.len() as int, old(table)@.defs.len() as int, final(table)@.defs.len() as int),
        fresh_defs_typed(final(table)@, final(interner)@, old(table)@.defs.len() as int),
        r is Err ==> exists|k: int| #[trigger] gather_stopped_at(
            old(table)@,
            final(table)@,
            final(interner)@,
            scope.0 as int,
            gathered(ast.decls@),
            k,
        ),
{
    gather_decl(ast.decls.as_slice(), scope, table, interner)
}

/// Name resolution of a unit: every function and type it declares gets a
/// definition in `scope`, and every type its type id. A well-formed context
/// whose interner holds type 0 stays well formed.
pub fn resolve(ctx: &mut Context, scope: ScopeID, unit: &Unit) -> (r: Result<(), String>)
    requires
        old(ctx).table@.wf(),
        old(ctx).interner.wf(),
    ensures
        final(ctx).table@.wf(),
        final(ctx).interner.wf(),
        old(ctx).wf() && old(ctx).interner@.len() > 0 ==> final(ctx).wf(),
        r is Ok <==> gather_ok(old(ctx).table@, scope.0 as int, gathered(unit.decls@)),
        r is Ok ==> forall|k: int| 0 <= k < gathered(unit.decls@).len() ==> {
            &&& final(ctx).table@.lookup_local(scope.0 as int, (#[trigger] gathered(unit.decls@)[k]).0) == Some(
                DefID((old(ctx).table@.defs.len() + k) as usize),
            )
            &&& gathered_def(final(ctx).table@, final(ctx).interner@, old(ctx).table@.defs.len() + k, gathered(unit.decls@)[k])
        },
        final(ctx).primitives == old(ctx).primitives,
        final(ctx).methods == old(ctx).methods,
        final(ctx).table@.scopes.len() == old(ctx).table@.scopes.len(),
        r is Ok ==> final(ctx).table@.defs.len() == old(ctx).table@.defs.len() + gathered(unit.decls@).len(),
        r is Ok ==> forall|n: Seq<char>| (forall|k: int| 0 <= k < gathered(unit.decls@).len() ==> (#[trigger] gathered(unit.decls@)[k]).0 != n)
            ==> #[trigger] final(ctx).table@.lookup_local(scope.0 as int, n) == old(ctx).table@.lookup_local(scope.0 as int, n),
        final(ctx).table@.defs.len() >= old(ctx).table@.defs.len(),
        forall|i: int| 0 <= i < old(ctx).table@.defs.len() ==> #[trigger] final(ctx).table@.defs[i] == old(ctx).table@.defs[i],
        final(ctx).interner@.len() >= old(ctx).interner@.len(),
        forall|i: int| 0 <= i < old(ctx).interner@.len() ==> #[trigger] final(ctx).interner@[i] == old(ctx).interner@[i],
{
    let ghost c0 = *ctx;
    let r = gather(unit, scope, &mut ctx.table, &mut ctx.interner);
    proof {
        if c0.wf() && c0.interner@.len() > 0 {
            let s0 = c0.interner@;
            let s1 = ctx.interner@;
            let d0 = c0.table@.defs.len() as int;
            let defs = ctx.table@.defs;
            assert forall|i: int, k: int|
                0 <= i < s1.len() && 0 <= k < crate::context::components(s1[i]).len() implies (#[trigger] crate::context::components(
                s1[i],
            )[k]).0 < i by {
                if i < s0.len() {
                    assert(s1[i] == s0[i]);
                }
            }
            assert forall|i: int| 0 <= i < s1.len() implies ((#[trigger] s1[i]) matches TypeShape::UserDef(d) ==> d.0 < defs.len()) by {
                if i < s0.len() {
                    assert(s1[i] == s0[i]);
                }
            }
            assert forall|i: int, k: int|
                0 <= i < defs.len() && 0 <= k < def_type_ids(defs[i].kind).len() implies (#[trigger] def_type_ids(
                defs[i].kind,
            )[k]).0 < s1.len() by {
                if i < d0 {
                    assert(defs[i] == c0.table@.defs[i]);
                }
            }
            assert forall|t: TypeID, n: Seq<char>| (#[trigger] ctx.methods.method_of(t, n) matches Some(d)
                ==> d.0 < ctx.table@.defs.len() && ctx.table@.defs[d.0 as int].kind is Function) by {
                if let Some(d) = ctx.methods.method_of(t, n) {
                    assert(c0.methods.method_of(t, n) == Some(d));
                    assert(defs[d.0 as int] == c0.table@.defs[d.0 as int]);
                }
            }
        }
    }
    r
}

} // verus!
