//! The state that name resolution and type checking share: the interned
//! types, the symbol table, the method table and the primitive types.
use vstd::prelude::*;

use crate::ast::{Segment, Type};
use crate::methods::MethodTable;
use crate::symbols::{def_typeid, DefKind, Definition, SymbolTable, TableView};
use crate::text::{decimal, owned, push_decimal};
use crate::types::{
    intern_model, signedness_prefix, DefID, ScopeID, TypeDef, TypeID, TypeInterner, TypeShape,
};

verus! {

broadcast use {vstd::seq::group_seq_axioms, vstd::std_specs::vec::group_vec_axioms};

/// The ids under which the primitive types were interned.
#[derive(Debug, Clone, Copy)]
pub struct Primitives {
    pub void: TypeID,
    pub bool_: TypeID,
    pub u8_: TypeID,
    pub u16_: TypeID,
    pub u32_: TypeID,
    pub u64_: TypeID,
    pub i8_: TypeID,
    pub i16_: TypeID,
    pub i32_: TypeID,
    pub i64_: TypeID,
    pub f32_: TypeID,
    pub f64_: TypeID,
}

impl Default for Primitives {
    /// Every primitive at id zero, until the real ids are known.
    fn default() -> (r: Self)
        ensures
            r.void == TypeID(0) && r.bool_ == TypeID(0) && r.u8_ == TypeID(0) && r.u16_ == TypeID(0)
                && r.u32_ == TypeID(0) && r.u64_ == TypeID(0) && r.i8_ == TypeID(0) && r.i16_
                == TypeID(0) && r.i32_ == TypeID(0) && r.i64_ == TypeID(0) && r.f32_ == TypeID(0)
                && r.f64_ == TypeID(0),
    {
        Primitives {
            void: TypeID(0),
            bool_: TypeID(0),
            u8_: TypeID(0),
            u16_: TypeID(0),
            u32_: TypeID(0),
            u64_: TypeID(0),
            i8_: TypeID(0),
            i16_: TypeID(0),
            i32_: TypeID(0),
            i64_: TypeID(0),
            f32_: TypeID(0),
            f64_: TypeID(0),
        }
    }
}

impl Primitives {
    pub open spec fn spec_is_integer(&self, t: TypeID) -> bool {
        t == self.i8_ || t == self.i16_ || t == self.i32_ || t == self.i64_ || t == self.u8_ || t
            == self.u16_ || t == self.u32_ || t == self.u64_
    }

    pub open spec fn spec_is_negatable(&self, t: TypeID) -> bool {
        t == self.i8_ || t == self.i16_ || t == self.i32_ || t == self.i64_ || t == self.f32_ || t
            == self.f64_
    }

    pub open spec fn spec_is_numeric(&self, t: TypeID) -> bool {
        t == self.f32_ || t == self.f64_ || self.spec_is_integer(t)
    }

    pub open spec fn spec_is_comparable(&self, t: TypeID) -> bool {
        self.spec_is_numeric(t) || t == self.bool_
    }

    /// Every primitive id names a stored type.
    pub open spec fn all_below(&self, n: int) -> bool {
        &&& self.void.0 < n && self.bool_.0 < n && self.u8_.0 < n && self.u16_.0 < n
        &&& self.u32_.0 < n && self.u64_.0 < n && self.i8_.0 < n && self.i16_.0 < n
        &&& self.i32_.0 < n && self.i64_.0 < n && self.f32_.0 < n && self.f64_.0 < n
    }

    pub fn is_integer(&self, typeid: TypeID) -> (r: bool)
        ensures
            r == self.spec_is_integer(typeid),
    {
        typeid == self.i8_ || typeid == self.i16_ || typeid == self.i32_ || typeid == self.i64_
            || typeid == self.u8_ || typeid == self.u16_ || typeid == self.u32_ || typeid
            == self.u64_
    }

    pub fn is_negatable(&self, typeid: TypeID) -> (r: bool)
        ensures
            r == self.spec_is_negatable(typeid),
    {
        typeid == self.i8_ || typeid == self.i16_ || typeid == self.i32_ || typeid == self.i64_
            || typeid == self.f32_ || typeid == self.f64_
    }

    pub fn is_bool(&self, typeid: TypeID) -> (r: bool)
        ensures
            r == (typeid == self.bool_),
    {
        typeid == self.bool_
    }

    pub fn is_numeric(&self, typeid: TypeID) -> (r: bool)
        ensures
            r == self.spec_is_numeric(typeid),
    {
        typeid == self.f32_ || typeid == self.f64_ || self.is_integer(typeid)
    }

    pub fn is_comparable(&self, ty: TypeID) -> (r: bool)
        ensures
            r == self.spec_is_comparable(ty),
    {
        self.is_numeric(ty) || ty == self.bool_
    }
}

/// The ids a type is built from.
pub open spec fn components(d: TypeShape) -> Seq<TypeID> {
    match d {
        TypeShape::Array { element, .. } => seq![element],
        TypeShape::Pointer { pointee, .. } => seq![pointee],
        TypeShape::FnPointer { params, return_type } => params.push(return_type),
        _ => seq![],
    }
}

/// Every type is built only from types stored before it.
pub open spec fn built_from_earlier(s: Seq<TypeShape>) -> bool {
    forall|i: int, k: int|
        0 <= i < s.len() && 0 <= k < components(s[i]).len() ==> (#[trigger] components(s[i])[k]).0 < i
}

/// Every user-defined type refers to a stored definition.
pub open spec fn user_types_defined(s: Seq<TypeShape>, ndefs: int) -> bool {
    forall|i: int| 0 <= i < s.len() ==> ((#[trigger] s[i]) matches TypeShape::UserDef(d) ==> d.0 < ndefs)
}

/// The type ids that a definition mentions.
pub open spec fn def_type_ids(kind: DefKind) -> Seq<TypeID> {
    match kind {
        DefKind::Variable { typeid } => seq![typeid],
        DefKind::TypeAlias(a) => seq![a.typeid],
        DefKind::Struct(s) => s.fields@.map_values(|f: (String, TypeID)| f.1).push(s.typeid),
        DefKind::Trait(t) => seq![t.typeid],
        DefKind::Enum(e) => seq![e.typeid],
        DefKind::Function(f) => seq![f.typeid, f.return_type],
        DefKind::Module { .. } => seq![],
    }
}

/// Every type id that a definition mentions names a stored type.
pub open spec fn defs_typed(defs: Seq<Definition>, ntypes: int) -> bool {
    forall|i: int, k: int|
        0 <= i < defs.len() && 0 <= k < def_type_ids(defs[i].kind).len() ==> (
        #[trigger] def_type_ids(defs[i].kind)[k]).0 < ntypes
}

/// The name of a type as the checker prints it.
pub open spec fn name_of(s: Seq<TypeShape>, defs: Seq<Definition>, id: int) -> Seq<char>
    decreases id, 1int, 0int,
{
    if !(0 <= id < s.len()) {
        seq![]
    } else {
        match s[id] {
            TypeShape::Int(n, sign) => signedness_prefix(sign) + decimal(n as nat),
            TypeShape::Float(n) => "f"@ + decimal(n as nat),
            TypeShape::Bool => "bool"@,
            TypeShape::Void => "void"@,
            TypeShape::Array { element, size } => "["@ + decimal(size as nat) + "]"@ + name_below(
                s,
                defs,
                element,
                id,
            ),
            TypeShape::Pointer { pointee, mutability } => "*"@ + (if mutability {
                seq![]
            } else {
                "const "@
            }) + name_below(s, defs, pointee, id),
            TypeShape::UserDef(d) => if 0 <= d.0 < defs.len() {
                defs[d.0 as int].name@
            } else {
                seq![]
            },
            TypeShape::FnPointer { params, return_type } => "fn("@ + names_joined(s, defs, params, id)
                + ") "@ + name_below(s, defs, return_type, id),
        }
    }
}

/// The name of `t`, a component of the type `id`.
pub open spec fn name_below(s: Seq<TypeShape>, defs: Seq<Definition>, t: TypeID, id: int) -> Seq<char>
    decreases id, 0int, 0int,
{
    if 0 <= t.0 < id {
        name_of(s, defs, t.0 as int)
    } else {
        seq![]
    }
}

/// The names of `ps`, components of the type `id`, separated by `", "`.
pub open spec fn names_joined(s: Seq<TypeShape>, defs: Seq<Definition>, ps: Seq<TypeID>, id: int) -> Seq<char>
    decreases id, 0int, ps.len(),
{
    if ps.len() == 0 {
        seq![]
    } else if ps.len() == 1 {
        name_below(s, defs, ps[0], id)
    } else {
        names_joined(s, defs, ps.drop_last(), id) + ", "@ + name_below(s, defs, ps.last(), id)
    }
}

/// Whether a mutable pointer converts to a const pointer to the same type.
pub open spec fn coercible(s: Seq<TypeShape>, from: TypeID, to: TypeID) -> bool {
    from == to || (0 <= from.0 < s.len() && 0 <= to.0 < s.len() && (match (s[from.0 as int], s[to.0 as int]) {
        (
            TypeShape::Pointer { pointee: a, mutability: true },
            TypeShape::Pointer { pointee: b, mutability: false },
        ) => a == b,
        _ => false,
    }))
}

/// A value keeps its own type, a mutable pointer may be used where a
/// constant pointer to the same type is expected, and nothing else
/// coerces: in particular a constant pointer never becomes a mutable one.
pub proof fn law_coercion_only_adds_const(s: Seq<TypeShape>, from: TypeID, to: TypeID)
    ensures
        coercible(s, from, from),
        coercible(s, from, to) && from != to ==> (0 <= from.0 < s.len() && 0 <= to.0 < s.len() && (s[from.0 as int] matches TypeShape::Pointer {
            pointee: a,
            mutability: true,
        } && s[to.0 as int] == (TypeShape::Pointer { pointee: a, mutability: false }))),
        0 <= from.0 < s.len() && 0 <= to.0 < s.len() && from != to && (s[from.0 as int] matches TypeShape::Pointer {
            mutability: false,
            ..
        }) ==> !coercible(s, from, to),
{
}

/// The shared state of resolution and checking.
pub struct Context {
    pub interner: TypeInterner,
    pub table: SymbolTable,
    pub methods: MethodTable,
    pub primitives: Primitives,
}

impl Context {
    /// The interned types and the symbol table fit together: every type id
    /// that a type or a definition mentions is stored, every type is built
    /// from earlier ones, and every method is a stored function.
    pub open spec fn wf(&self) -> bool {
        &&& self.core_wf()
        &&& self.primitives.all_below(self.interner@.len() as int)
    }

    /// `wf` but for the primitives, which a fresh context does not yet have.
    pub open spec fn core_wf(&self) -> bool {
        &&& self.names_ok()
        &&& defs_typed(self.table@.defs, self.interner@.len() as int)
        &&& forall|t: TypeID, n: Seq<char>| #[trigger] self.methods.method_of(t, n) matches Some(d)
            ==> d.0 < self.table@.defs.len() && self.table@.defs[d.0 as int].kind is Function
    }

    /// What `type_name` needs: types built from earlier ones, and user types
    /// that name stored definitions.
    pub open spec fn names_ok(&self) -> bool {
        &&& self.interner.wf()
        &&& self.table@.wf()
        &&& built_from_earlier(self.interner@)
        &&& user_types_defined(self.interner@, self.table@.defs.len() as int)
    }

    /// The name `type_name` gives `id`.
    pub open spec fn spec_type_name(&self, id: TypeID) -> Seq<char> {
        name_of(self.interner@, self.table@.defs, id.0 as int)
    }

    pub fn new(primitives: Primitives) -> (r: Self)
        ensures
            r.interner@ == Seq::<TypeShape>::empty(),
            r.interner.wf(),
            r.table@.wf(),
            r.table@.defs.len() == 0,
            r.table@.scopes.len() == 1,
            r.primitives == primitives,
            forall|t: TypeID, n: Seq<char>| #[trigger] r.methods.method_of(t, n) is None,
            forall|t: TypeID, n: Seq<char>| #[trigger] r.methods.static_of(t, n) is None,
            r.names_ok(),
            r.core_wf(),
    {
        Context {
            interner: TypeInterner::new(),
            table: SymbolTable::new(),
            methods: MethodTable::new(),
            primitives,
        }
    }

    /// Whether values of the type can be compared with `==`: primitives
    /// that are numbers or booleans, and pointers.
    pub fn is_comparable(&self, typeid: TypeID) -> (r: bool)
        ensures
            r == (self.primitives.spec_is_comparable(typeid) || (typeid.0 < self.interner@.len()
                && self.interner@[typeid.0 as int] is Pointer)),
    {
        self.primitives.is_comparable(typeid) || match self.interner.get(typeid) {
            Some(TypeDef::Pointer { .. }) => true,
            _ => false,
        }
    }

    /// Whether a value of type `from` can stand where `to` is expected.
    pub fn is_coercible(&self, from: TypeID, to: TypeID) -> (r: bool)
        ensures
            r == coercible(self.interner@, from, to),
    {
        if from == to {
            return true;
        }
        match (self.interner.get(from), self.interner.get(to)) {
            (
                Some(TypeDef::Pointer { pointee: a, mutability: true }),
                Some(TypeDef::Pointer { pointee: b, mutability: false }),
            ) => *a == *b,
            _ => false,
        }
    }

    pub fn set_primitives(&mut self, primitives: Primitives)
        ensures
            final(self).primitives == primitives,
            final(self).interner == old(self).interner,
            final(self).table == old(self).table,
            final(self).methods == old(self).methods,
    {
        self.primitives = primitives;
    }

    /// The printed name of a type: `i32`, `*const [10]Foo`,
    /// `fn(bool, u8) void`.
    pub fn name_of_type(&self, typeid: TypeID) -> (r: String)
        requires
            self.names_ok(),
            typeid.0 < self.interner@.len(),
        ensures
            r@ == self.spec_type_name(typeid),
    {
        let mut out = String::new();
        self.push_type_name(&mut out, typeid);
        assert(out@ =~= self.spec_type_name(typeid));
        out
    }

    fn push_type_name(&self, out: &mut String, typeid: TypeID)
        requires
            self.names_ok(),
            typeid.0 < self.interner@.len(),
        ensures
            final(out)@ == old(out)@ + self.spec_type_name(typeid),
        decreases typeid.0,
    {
        let ghost s = self.interner@;
        let ghost defs = self.table@.defs;
        let ghost id = typeid.0 as int;
        let def = self.interner.get(typeid).unwrap();
        match def {
            TypeDef::Int(n, sign) => {
                out.append(sign.to_prefix());
                push_decimal(out, *n as usize);
            },
            TypeDef::Float(n) => {
                out.append("f");
                push_decimal(out, *n as usize);
            },
            TypeDef::Bool => {
                out.append("bool");
            },
            TypeDef::Void => {
                out.append("void");
            },
            TypeDef::Array { element, size } => {
                out.append("[");
                push_decimal(out, *size);
                out.append("]");
                proof {
                    assert(components(s[id])[0] == *element);
                }
                self.push_type_name(out, *element);
            },
            TypeDef::Pointer { pointee, mutability } => {
                out.append("*");
                if !*mutability {
                    out.append("const ");
                }
                proof {
                    assert(components(s[id])[0] == *pointee);
                }
                self.push_type_name(out, *pointee);
            },
            TypeDef::UserDef(defid) => {
                let d = self.table.get_def(*defid).unwrap();
                out.append(d.name.as_str());
            },
            TypeDef::FnPointer(f) => {
                out.append("fn(");
                let ghost start = out@;
                let mut i: usize = 0;
                while i < f.params.len()
                    invariant
                        self.names_ok(),
                        s == self.interner@,
                        defs == self.table@.defs,
                        0 <= id < s.len(),
                        s[id] == (TypeShape::FnPointer { params: f.params@, return_type: f.return_type }),
                        i <= f.params@.len(),
                        id == typeid.0,
                        out@ == start + names_joined(s, defs, f.params@.take(i as int), id),
                    decreases f.params.len() - i,
                {
                    proof {
                        assert(components(s[id])[i as int] == f.params@[i as int]);
                        assert(f.params@.take(i + 1).drop_last() =~= f.params@.take(i as int));
                    }
                    let ghost before = out@;
                    if i > 0 {
                        out.append(", ");
                    }
                    self.push_type_name(out, f.params[i]);
                    proof {
                        let p = f.params@[i as int];
                        assert(p.0 < id);
                        assert(name_below(s, defs, p, id) == name_of(s, defs, p.0 as int));
                        if i == 0 {
                            assert(f.params@.take(1) =~= seq![p]);
                            assert(f.params@.take(0) =~= Seq::<TypeID>::empty());
                            assert(names_joined(s, defs, f.params@.take(0), id) == Seq::<char>::empty());
                            assert(names_joined(s, defs, f.params@.take(1), id) == name_below(s, defs, p, id));
                            assert(out@ =~= start + names_joined(s, defs, f.params@.take(i + 1), id));
                        } else {
                            assert(f.params@.take(i + 1).last() == p);
                            assert(names_joined(s, defs, f.params@.take(i + 1), id) == names_joined(
                                s,
                                defs,
                                f.params@.take(i as int),
                                id,
                            ) + ", "@ + name_below(s, defs, p, id));
                            assert(out@ =~= start + names_joined(s, defs, f.params@.take(i + 1), id));
                        }
                    }
                    i = i + 1;
                }
                proof {
                    assert(f.params@.take(i as int) =~= f.params@);
                    assert(components(s[id])[f.params@.len() as int] == f.return_type);
                }
                out.append(") ");
                self.push_type_name(out, f.return_type);
            },
        }
    }
}


/// The definition a path reaches, walking its segments from `i` on:
/// the first segment is looked up from `scope`, each later one in the
/// module the previous one names.
pub open spec fn path_walk(table: TableView, scope: int, segs: Seq<Segment>, i: int, last: Option<DefID>) -> Option<DefID>
    decreases segs.len() - i,
{
    if i < 0 || i >= segs.len() {
        last
    } else {
        let from = match last {
            None => Some(scope),
            Some(d) => match table.defs[d.0 as int].kind {
                DefKind::Module { scope } => Some(scope.0 as int),
                _ => None,
            },
        };
        match from {
            Some(sc) => match table.lookup(sc, segs[i].name.name@) {
                Some(d) => if 0 <= d.0 < table.defs.len() {
                    path_walk(table, scope, segs, i + 1, Some(d))
                } else {
                    None
                },
                None => None,
            },
            None => None,
        }
    }
}

/// The type a path names, if it reaches a definition that defines a type.
pub open spec fn path_type(table: TableView, scope: int, segs: Seq<Segment>) -> Option<TypeID> {
    match path_walk(table, scope, segs, 0, None) {
        Some(d) => def_typeid(table.defs[d.0 as int].kind),
        None => None,
    }
}

/// The message of a path that names no type, from segment `i` on after
/// the definition `last`: `None` where the path goes through something that
/// is not a module, whose message prints that definition's kind.
pub open spec fn path_error_from(table: TableView, scope: int, segs: Seq<Segment>, i: int, last: Option<DefID>) -> Option<
    Seq<char>,
>
    decreases segs.len() - i,
{
    if i < 0 || i >= segs.len() {
        match last {
            Some(d) => Some("Definition for '"@ + table.defs[d.0 as int].name@ + "' does not have a type"@),
            None => Some(seq![]),
        }
    } else {
        let from = match last {
            None => Some(scope),
            Some(d) => match table.defs[d.0 as int].kind {
                DefKind::Module { scope } => Some(scope.0 as int),
                _ => None,
            },
        };
        match from {
            Some(sc) => match table.lookup(sc, segs[i].name.name@) {
                Some(d) => if 0 <= d.0 < table.defs.len() {
                    path_error_from(table, scope, segs, i + 1, Some(d))
                } else {
                    Some("Definition for '"@ + segs[i].name.name@ + "' not found in symbol table"@)
                },
                None => Some("Type '"@ + segs[i].name.name@ + "' not found in symbol table at scope ScopeID("@ + decimal(
                    sc as nat,
                ) + ")"@),
            },
            None => None,
        }
    }
}

/// The message of a type that converts to no id: that of its path.
pub open spec fn type_error(table: TableView, scope: int, t: Type) -> Option<Seq<char>>
    decreases t,
{
    match t {
        Type::Ptr(inner) => type_error(table, scope, *inner),
        Type::ConstPtr(inner) => type_error(table, scope, *inner),
        Type::Array(_, inner) => type_error(table, scope, *inner),
        Type::Path(p) => path_error_from(table, scope, p.segments@, 0, None),
    }
}

/// What a conversion error says: the message of its type, or, where that
/// prints a definition's kind, the words before it.
pub open spec fn reports_type_error(e: Seq<char>, m: Option<Seq<char>>) -> bool {
    match m {
        Some(text) => e == text,
        None => "Expected module in path, found "@.is_prefix_of(e),
    }
}

/// Every path in the type has at least one segment.
pub open spec fn paths_nonempty(t: Type) -> bool
    decreases t,
{
    match t {
        Type::Ptr(inner) => paths_nonempty(*inner),
        Type::ConstPtr(inner) => paths_nonempty(*inner),
        Type::Array(_, inner) => paths_nonempty(*inner),
        Type::Path(p) => p.segments@.len() > 0,
    }
}

/// Interning `d` when the inner conversion gave an id.
pub open spec fn then_intern(r: (Seq<TypeShape>, Option<TypeID>), d: spec_fn(TypeID) -> TypeShape) -> (Seq<TypeShape>, Option<TypeID>) {
    match r.1 {
        Some(inner) => {
            let (s2, id) = intern_model(r.0, d(inner));
            (s2, Some(TypeID(id as usize)))
        },
        None => r,
    }
}

/// The interned types after converting `t`, and the id it converts to.
pub open spec fn spec_type_to_id(s: Seq<TypeShape>, table: TableView, scope: int, t: Type) -> (Seq<TypeShape>, Option<TypeID>)
    decreases t,
{
    match t {
        Type::Ptr(inner) => then_intern(
            spec_type_to_id(s, table, scope, *inner),
            |p: TypeID| TypeShape::Pointer { pointee: p, mutability: true },
        ),
        Type::ConstPtr(inner) => then_intern(
            spec_type_to_id(s, table, scope, *inner),
            |p: TypeID| TypeShape::Pointer { pointee: p, mutability: false },
        ),
        Type::Array(size, inner) => then_intern(
            spec_type_to_id(s, table, scope, *inner),
            |e: TypeID| TypeShape::Array { element: e, size },
        ),
        Type::Path(p) => (s, path_type(table, scope, p.segments@)),
    }
}

/// `*T` converts to a mutable pointer to `T`'s type, `*const T` to a
/// constant one, and `[N]T` to an array of `N` elements of `T`'s type.
pub proof fn law_type_constructors_convert(
    s: Seq<TypeShape>,
    table: TableView,
    scope: int,
    inner: Type,
    s1: Seq<TypeShape>,
    p: TypeID,
    size: usize,
)
    requires
        spec_type_to_id(s, table, scope, inner) == (s1, Some(p)),
        s1.len() < usize::MAX,
    ensures
        ({
            let (s2, r) = spec_type_to_id(s, table, scope, Type::Ptr(Box::new(inner)));
            r matches Some(id) && 0 <= id.0 < s2.len() && s2[id.0 as int] == (TypeShape::Pointer { pointee: p, mutability: true })
        }),
        ({
            let (s2, r) = spec_type_to_id(s, table, scope, Type::ConstPtr(Box::new(inner)));
            r matches Some(id) && 0 <= id.0 < s2.len() && s2[id.0 as int] == (TypeShape::Pointer { pointee: p, mutability: false })
        }),
        ({
            let (s2, r) = spec_type_to_id(s, table, scope, Type::Array(size, Box::new(inner)));
            r matches Some(id) && 0 <= id.0 < s2.len() && s2[id.0 as int] == (TypeShape::Array { element: p, size })
        }),
{
    let d1 = TypeShape::Pointer { pointee: p, mutability: true };
    let d2 = TypeShape::Pointer { pointee: p, mutability: false };
    let d3 = TypeShape::Array { element: p, size };
    if s1.contains(d1) {
        assert(s1[crate::types::shape_index(s1, d1)] == d1);
    }
    if s1.contains(d2) {
        assert(s1[crate::types::shape_index(s1, d2)] == d2);
    }
    if s1.contains(d3) {
        assert(s1[crate::types::shape_index(s1, d3)] == d3);
    }
}

/// Interning a type whose components are stored keeps the interned types
/// built from earlier ones.
pub proof fn lemma_intern_keeps_order(s: Seq<TypeShape>, d: TypeShape, ndefs: int)
    requires
        crate::types::distinct_shapes(s),
        built_from_earlier(s),
        user_types_defined(s, ndefs),
        forall|k: int| 0 <= k < components(d).len() ==> (#[trigger] components(d)[k]).0 < s.len(),
        d matches TypeShape::UserDef(x) ==> x.0 < ndefs,
    ensures
        built_from_earlier(intern_model(s, d).0),
        user_types_defined(intern_model(s, d).0, ndefs),
        intern_model(s, d).0.len() >= s.len(),
        forall|i: int| 0 <= i < s.len() ==> #[trigger] intern_model(s, d).0[i] == s[i],
{
    if !s.contains(d) {
        let s2 = s.push(d);
        assert forall|i: int, k: int|
            0 <= i < s2.len() && 0 <= k < components(s2[i]).len() implies (#[trigger] components(
            s2[i],
        )[k]).0 < i by {
            if i < s.len() {
                assert(s2[i] == s[i]);
            }
        }
        assert forall|i: int| 0 <= i < s2.len() implies ((#[trigger] s2[i]) matches TypeShape::UserDef(
            x,
        ) ==> x.0 < ndefs) by {
            if i < s.len() {
                assert(s2[i] == s[i]);
            }
        }
    }
}

/// Growing the interned types keeps every mention of a stored type valid.
pub proof fn lemma_defs_typed_grow(defs: Seq<Definition>, n: int, m: int)
    requires
        defs_typed(defs, n),
        n <= m,
    ensures
        defs_typed(defs, m),
{
}

/// The derived debug text of a definition kind: `std::format!` with `{:?}`,
/// which runs the derived `Debug` impl. Nothing is claimed of the text it
/// returns.
#[verifier::external_body]
fn debug_kind(kind: &DefKind) -> String {
    format!("{:?}", kind)
}

/// The text that the derived `Debug` impl of `TypeDef` writes for a type
/// of shape `d`.
pub uninterp spec fn type_def_text(d: TypeShape) -> Seq<char>;

/// The derived debug text of an interned type: `std::format!` with `{:?}`,
/// which runs the derived `Debug` impl. The text depends on the type's
/// fields alone, so it is named by `type_def_text` of the type's shape;
/// nothing more is claimed of it.
#[verifier::external_body]
fn debug_type_def(d: &TypeDef) -> (r: String)
    ensures
        r@ == type_def_text(d@),
{
    format!("{:?}", d)
}

impl Context {
    pub(crate) fn intern_keeping(&mut self, d: TypeDef) -> (id: TypeID)
        requires
            old(self).core_wf(),
            forall|k: int| 0 <= k < components(d@).len() ==> (#[trigger] components(d@)[k]).0
                < old(self).interner@.len(),
            d@ matches TypeShape::UserDef(x) ==> x.0 < old(self).table@.defs.len(),
        ensures
            final(self).core_wf(),
            old(self).wf() ==> final(self).wf(),
            (final(self).interner@, id.0 as int) == intern_model(old(self).interner@, d@),
            id.0 < final(self).interner@.len(),
            final(self).interner@[id.0 as int] == d@,
            final(self).interner@.len() >= old(self).interner@.len(),
            forall|i: int| 0 <= i < old(self).interner@.len() ==> #[trigger] final(self).interner@[i] == old(self).interner@[i],
            final(self).table == old(self).table,
            final(self).methods == old(self).methods,
            final(self).primitives == old(self).primitives,
    {
        proof {
            lemma_intern_keeps_order(self.interner@, d@, self.table@.defs.len() as int);
            lemma_defs_typed_grow(
                self.table@.defs,
                self.interner@.len() as int,
                intern_model(self.interner@, d@).0.len() as int,
            );
        }
        self.interner.intern(d)
    }

    /// Interns `d`; the context stays well formed where it was and `d` is
    /// built from stored types.
    fn intern_any(&mut self, d: TypeDef) -> (id: TypeID)
        requires
            old(self).interner.wf(),
        ensures
            final(self).interner.wf(),
            (old(self).wf() && (forall|k: int| 0 <= k < components(d@).len() ==> (#[trigger] components(d@)[k]).0
                < old(self).interner@.len()) && !(d@ is UserDef)) ==> final(self).wf(),
            (final(self).interner@, id.0 as int) == intern_model(old(self).interner@, d@),
            id.0 < final(self).interner@.len(),
            final(self).interner@.len() >= old(self).interner@.len(),
            forall|i: int| 0 <= i < old(self).interner@.len() ==> #[trigger] final(self).interner@[i] == old(self).interner@[i],
            final(self).table == old(self).table,
            final(self).methods == old(self).methods,
            final(self).primitives == old(self).primitives,
    {
        proof {
            if self.wf() && (forall|k: int| 0 <= k < components(d@).len() ==> (#[trigger] components(d@)[k]).0
                < self.interner@.len()) && !(d@ is UserDef) {
                lemma_intern_keeps_order(self.interner@, d@, self.table@.defs.len() as int);
                lemma_defs_typed_grow(
                    self.table@.defs,
                    self.interner@.len() as int,
                    intern_model(self.interner@, d@).0.len() as int,
                );
            }
        }
        self.interner.intern(d)
    }

    /// The id of the type that `ast` denotes in `scope`, interning pointer
    /// and array types on the way.
    pub fn type_to_id(&mut self, scope: ScopeID, ast: &Type) -> (r: Result<TypeID, String>)
        requires
            old(self).interner.wf(),
            old(self).table@.wf(),
            paths_nonempty(*ast),
        ensures
            final(self).interner.wf(),
            old(self).wf() ==> final(self).wf(),
            (final(self).interner@, match r {
                Ok(id) => Some(id),
                Err(_) => None,
            }) == spec_type_to_id(old(self).interner@, old(self).table@, scope.0 as int, *ast),
            final(self).table == old(self).table,
            final(self).methods == old(self).methods,
            final(self).primitives == old(self).primitives,
            old(self).wf() ==> (r matches Ok(id) ==> id.0 < final(self).interner@.len()),
            final(self).interner@.len() >= old(self).interner@.len(),
            forall|i: int| 0 <= i < old(self).interner@.len() ==> #[trigger] final(self).interner@[i] == old(self).interner@[i],
            r matches Err(e) ==> reports_type_error(e@, type_error(old(self).table@, scope.0 as int, *ast)),
        decreases ast,
    {
        match ast {
            Type::Ptr(node) => {
                let pointee = self.type_to_id(scope, node)?;
                Ok(self.intern_any(TypeDef::Pointer { pointee, mutability: true }))
            },
            Type::ConstPtr(node) => {
                let pointee = self.type_to_id(scope, node)?;
                Ok(self.intern_any(TypeDef::Pointer { pointee, mutability: false }))
            },
            Type::Array(size, node) => {
                let element = self.type_to_id(scope, node)?;
                Ok(self.intern_any(TypeDef::Array { element, size: *size }))
            },
            Type::Path(expr) => self.path_to_id(scope, &expr.segments),
        }
    }

    fn path_to_id(&self, scope: ScopeID, segs: &Vec<crate::ast::Segment>) -> (r: Result<TypeID, String>)
        requires
            self.table@.wf(),
            segs@.len() > 0,
        ensures
            match r {
                Ok(id) => Some(id),
                Err(_) => None,
            } == path_type(self.table@, scope.0 as int, segs@),
            self.wf() ==> (r matches Ok(id) ==> id.0 < self.interner@.len()),
            r matches Err(e) ==> reports_type_error(e@, path_error_from(self.table@, scope.0 as int, segs@, 0, None)),
    {
        let ghost table = self.table@;
        let mut last: Option<DefID> = None;
        let mut i: usize = 0;
        while i < segs.len()
            invariant
                self.table@.wf(),
                table == self.table@,
                i <= segs@.len(),
                path_walk(table, scope.0 as int, segs@, 0, None) == path_walk(table, scope.0 as int, segs@, i as int, last),
                path_error_from(table, scope.0 as int, segs@, 0, None) == path_error_from(
                    table,
                    scope.0 as int,
                    segs@,
                    i as int,
                    last,
                ),
                last matches Some(d) ==> d.0 < table.defs.len(),
                i > 0 <==> last is Some,
            decreases segs.len() - i,
        {
            let from = match last {
                None => scope,
                Some(d) => match &self.table.get_def(d).unwrap().kind {
                    DefKind::Module { scope } => *scope,
                    other => {
                        let mut msg = owned("Expected module in path, found ");
                        msg.append(debug_kind(other).as_str());
                        return Err(msg);
                    },
                },
            };
            let name = segs[i].name.str();
            let defid = match self.table.lookup(from, name) {
                Some(d) => d,
                None => {
                    let mut msg = owned("Type '");
                    msg.append(name);
                    msg.append("' not found in symbol table at scope ScopeID(");
                    push_decimal(&mut msg, from.0);
                    msg.append(")");
                    return Err(msg);
                },
            };
            if self.table.get_def(defid).is_none() {
                let mut msg = owned("Definition for '");
                msg.append(name);
                msg.append("' not found in symbol table");
                return Err(msg);
            }
            last = Some(defid);
            i = i + 1;
        }
        let d = self.table.get_def(last.unwrap()).unwrap();
        match d.typeid() {
            Some(t) => {
                proof {
                    let k = last.unwrap().0 as int;
                    assert(self.wf() ==> def_type_ids(table.defs[k].kind).len() > 0);
                    assert(def_type_ids(table.defs[k].kind)[0] == t || def_type_ids(
                        table.defs[k].kind,
                    ).last() == t);
                }
                Ok(t)
            },
            None => {
                let mut msg = owned("Definition for '");
                msg.append(d.name.as_str());
                msg.append("' does not have a type");
                Err(msg)
            },
        }
    }
}


/// The names under which the primitive types are defined.
pub open spec fn is_primitive_name(n: Seq<char>) -> bool {
    n == "void"@ || n == "bool"@ || n == "u8"@ || n == "u16"@ || n == "u32"@ || n == "u64"@ || n
        == "i8"@ || n == "i16"@ || n == "i32"@ || n == "i64"@ || n == "f32"@ || n == "f64"@
}

/// The listing that `debug` prints for the first `n` interned types, each
/// with its derived debug text; types named after a primitive are left out
/// unless `show` holds.
pub open spec fn debug_lines(ctx: Context, n: int, show: bool) -> Seq<char>
    decreases n,
{
    if n <= 0 {
        seq![]
    } else {
        let prev = debug_lines(ctx, n - 1, show);
        let name = ctx.spec_type_name(TypeID((n - 1) as usize));
        if !show && is_primitive_name(name) {
            prev
        } else {
            prev + "TypeID("@ + decimal((n - 1) as nat) + ") -> "@ + name + " : "@ + type_def_text(ctx.interner@[n - 1]) + "\n"@
        }
    }
}

fn is_primitive_name_exec(n: &str) -> (r: bool)
    ensures
        r == is_primitive_name(n@),
{
    crate::text::str_eq(n, "void") || crate::text::str_eq(n, "bool") || crate::text::str_eq(n, "u8")
        || crate::text::str_eq(n, "u16") || crate::text::str_eq(n, "u32") || crate::text::str_eq(
        n,
        "u64",
    ) || crate::text::str_eq(n, "i8") || crate::text::str_eq(n, "i16") || crate::text::str_eq(
        n,
        "i32",
    ) || crate::text::str_eq(n, "i64") || crate::text::str_eq(n, "f32") || crate::text::str_eq(
        n,
        "f64",
    )
}

impl Context {
    /// A listing of the types in the interner, with their names and
    /// definitions, one line each: `TypeID(<id>) -> <name> : <definition>`.
    /// The scope must exist.
    pub fn debug(&self, scope: ScopeID, show_primitives: bool) -> (r: String)
        requires
            self.names_ok(),
            scope.0 < self.table@.scopes.len(),
        ensures
            r@ == debug_lines(*self, self.interner@.len() as int, show_primitives),
    {
        let _ = self.table.get_scope(scope).unwrap();
        let mut output = String::new();
        let n = self.interner.len();
        let mut i: usize = 0;
        while i < n
            invariant
                self.names_ok(),
                n == self.interner@.len(),
                i <= n,
                output@ == debug_lines(*self, i as int, show_primitives),
            decreases n - i,
        {
            let id = TypeID(i);
            let name = self.name_of_type(id);
            let text = debug_type_def(self.interner.get(id).unwrap());
            if show_primitives || !is_primitive_name_exec(name.as_str()) {
                output.append("TypeID(");
                push_decimal(&mut output, i);
                output.append(") -> ");
                output.append(name.as_str());
                output.append(" : ");
                output.append(text.as_str());
                output.append("\n");
            }
            proof {
                assert(output@ =~= debug_lines(*self, i + 1, show_primitives));
            }
            i = i + 1;
        }
        output
    }
}

/// `name` is defined in the root scope as a resolved alias of the stored
/// type `id`, whose shape is `shape`.
pub open spec fn primitive_defined(ctx: Context, name: Seq<char>, shape: TypeShape, id: TypeID) -> bool {
    &&& ctx.table@.lookup_local(0, name) is Some
    &&& ctx.table@.lookup_local(0, name).unwrap().0 < ctx.table@.defs.len()
    &&& ctx.table@.defs[ctx.table@.lookup_local(0, name).unwrap().0 as int].kind matches DefKind::TypeAlias(a)
        && a.resolved && a.typeid == id
    &&& id.0 < ctx.interner@.len()
    &&& ctx.interner@[id.0 as int] == shape
}

/// The names and shapes of the primitive types, in the order they are loaded.
pub open spec fn primitive_table() -> Seq<(Seq<char>, TypeShape)> {
    seq![
        ("void"@, TypeShape::Void),
        ("bool"@, TypeShape::Bool),
        ("u8"@, TypeShape::Int(8, crate::types::Signedness::Unsigned)),
        ("u16"@, TypeShape::Int(16, crate::types::Signedness::Unsigned)),
        ("u32"@, TypeShape::Int(32, crate::types::Signedness::Unsigned)),
        ("u64"@, TypeShape::Int(64, crate::types::Signedness::Unsigned)),
        ("i8"@, TypeShape::Int(8, crate::types::Signedness::Signed)),
        ("i16"@, TypeShape::Int(16, crate::types::Signedness::Signed)),
        ("i32"@, TypeShape::Int(32, crate::types::Signedness::Signed)),
        ("i64"@, TypeShape::Int(64, crate::types::Signedness::Signed)),
        ("f32"@, TypeShape::Float(32)),
        ("f64"@, TypeShape::Float(64)),
    ]
}

/// Each primitive type is printed under the name it is defined by:
/// `Int(32, Signed)` prints as `i32`, `Int(8, Unsigned)` as `u8`,
/// `Float(64)` as `f64`.
pub proof fn law_primitive_names_print_back(k: int)
    requires
        0 <= k < primitive_table().len(),
    ensures
        name_of(seq![primitive_table()[k].1], Seq::<Definition>::empty(), 0) == primitive_table()[k].0,
{
    reveal_strlit("void");
    reveal_strlit("bool");
    reveal_strlit("u8");
    reveal_strlit("u16");
    reveal_strlit("u32");
    reveal_strlit("u64");
    reveal_strlit("i8");
    reveal_strlit("i16");
    reveal_strlit("i32");
    reveal_strlit("i64");
    reveal_strlit("f32");
    reveal_strlit("f64");
    reveal_strlit("f");
    reveal_with_fuel(crate::text::decimal, 3);
    let s = seq![primitive_table()[k].1];
    let n = name_of(s, Seq::<Definition>::empty(), 0);
    if k == 0 {
        assert(n =~= "void"@);
    } else if k == 1 {
        assert(n =~= "bool"@);
    } else if k == 2 {
        assert(n =~= "u8"@);
    } else if k == 3 {
        assert(n =~= "u16"@);
    } else if k == 4 {
        assert(n =~= "u32"@);
    } else if k == 5 {
        assert(n =~= "u64"@);
    } else if k == 6 {
        assert(n =~= "i8"@);
    } else if k == 7 {
        assert(n =~= "i16"@);
    } else if k == 8 {
        assert(n =~= "i32"@);
    } else if k == 9 {
        assert(n =~= "i64"@);
    } else if k == 10 {
        assert(n =~= "f32"@);
    } else {
        assert(n =~= "f64"@);
    }
}

/// The primitive ids in the order of `primitive_table`.
pub open spec fn primitive_ids(p: Primitives) -> Seq<TypeID> {
    seq![p.void, p.bool_, p.u8_, p.u16_, p.u32_, p.u64_, p.i8_, p.i16_, p.i32_, p.i64_, p.f32_, p.f64_]
}

/// Defining more names in the root scope and interning more types keeps
/// what was defined before.
proof fn lemma_primitive_kept(a: Context, b: Context, name: Seq<char>, shape: TypeShape, id: TypeID)
    requires
        primitive_defined(a, name, shape, id),
        b.table@.lookup_local(0, name) == a.table@.lookup_local(0, name),
        b.table@.defs.len() >= a.table@.defs.len(),
        forall|i: int| 0 <= i < a.table@.defs.len() ==> #[trigger] b.table@.defs[i] == a.table@.defs[i],
        b.interner@.len() >= a.interner@.len(),
        forall|i: int| 0 <= i < a.interner@.len() ==> #[trigger] b.interner@[i] == a.interner@[i],
    ensures
        primitive_defined(b, name, shape, id),
{
    let d = a.table@.lookup_local(0, name).unwrap().0 as int;
    assert(b.table@.defs[d] == a.table@.defs[d]);
    assert(b.interner@[id.0 as int] == a.interner@[id.0 as int]);
}

/// One definition in the root scope: lookups of other names, the stored
/// definitions and the stored types are kept.
pub open spec fn define_step(a: Context, b: Context, name: Seq<char>) -> bool {
    &&& forall|m: Seq<char>| m != name ==> #[trigger] b.table@.lookup_local(0, m) == a.table@.lookup_local(0, m)
    &&& b.table@.scopes.len() == a.table@.scopes.len()
    &&& b.table@.defs.len() >= a.table@.defs.len()
    &&& forall|i: int| 0 <= i < a.table@.defs.len() ==> #[trigger] b.table@.defs[i] == a.table@.defs[i]
    &&& b.interner@.len() >= a.interner@.len()
    &&& forall|i: int| 0 <= i < a.interner@.len() ==> #[trigger] b.interner@[i] == a.interner@[i]
}

/// The primitive names differ from each other.
proof fn lemma_primitive_names_distinct()
    ensures
        forall|x: int, y: int| 0 <= x < y < 12 ==> primitive_table()[x].0 != primitive_table()[y].0,
{
    reveal_strlit("void");
    reveal_strlit("bool");
    reveal_strlit("u8");
    reveal_strlit("u16");
    reveal_strlit("u32");
    reveal_strlit("u64");
    reveal_strlit("i8");
    reveal_strlit("i16");
    reveal_strlit("i32");
    reveal_strlit("i64");
    reveal_strlit("f32");
    reveal_strlit("f64");
    let t = primitive_table();
    assert forall|x: int, y: int| 0 <= x < y < 12 implies t[x].0 != t[y].0 by {
        let a = t[x].0;
        let b = t[y].0;
        if a == b {
            assert(a.len() == b.len());
            assert(a[0] == b[0]);
            assert(a[1] == b[1]);
        }
    }
}

/// None of the names from `from` on is defined in the root scope yet.
pub open spec fn none_defined(ctx: Context, names: Seq<(Seq<char>, TypeShape)>, from: int) -> bool {
    forall|k: int| from <= k < names.len() ==> ctx.table@.lookup_local(0, (#[trigger] names[k]).0) is None
}

proof fn lemma_none_step(a: Context, b: Context, names: Seq<(Seq<char>, TypeShape)>, from: int)
    requires
        0 <= from < names.len(),
        none_defined(a, names, from),
        define_step(a, b, names[from].0),
        forall|x: int, y: int| 0 <= x < y < names.len() ==> names[x].0 != names[y].0,
    ensures
        none_defined(b, names, from + 1),
{
    assert forall|k: int| from + 1 <= k < names.len() implies b.table@.lookup_local(0, (#[trigger] names[k]).0) is None by {
        assert(names[k].0 != names[from].0);
    }
}

proof fn lemma_kept_chain(cs: Seq<Context>, names: Seq<(Seq<char>, TypeShape)>, ids: Seq<TypeID>, k: int, j: int)
    requires
        cs.len() == 13,
        names.len() == 12,
        ids.len() == 12,
        0 <= k < 12,
        k + 1 <= j <= 12,
        forall|a: int, b: int| 0 <= a < b < 12 ==> names[a].0 != names[b].0,
        forall|i: int| 0 <= i < 12 ==> define_step(#[trigger] cs[i], cs[i + 1], names[i].0),
        primitive_defined(cs[j], names[k].0, names[k].1, ids[k]),
    ensures
        primitive_defined(cs[12], names[k].0, names[k].1, ids[k]),
    decreases 12 - j,
{
    if j < 12 {
        assert(define_step(cs[j], cs[j + 1], names[j].0));
        assert(names[k].0 != names[j].0);
        lemma_primitive_kept(cs[j], cs[j + 1], names[k].0, names[k].1, ids[k]);
        lemma_kept_chain(cs, names, ids, k, j + 1);
    }
}

fn define_primitive(ctx: &mut Context, name: &str, ty: TypeDef) -> (id: TypeID)
    requires
        old(ctx).core_wf(),
        old(ctx).table@.lookup_local(0, name@) is None,
        components(ty@).len() == 0,
        !(ty@ is UserDef),
    ensures
        final(ctx).core_wf(),
        primitive_defined(*final(ctx), name@, ty@, id),
        forall|m: Seq<char>| m != name@ ==> #[trigger] final(ctx).table@.lookup_local(0, m) == old(ctx).table@.lookup_local(0, m),
        final(ctx).table@.scopes.len() == old(ctx).table@.scopes.len(),
        final(ctx).table@.defs.len() >= old(ctx).table@.defs.len(),
        forall|i: int| 0 <= i < old(ctx).table@.defs.len() ==> #[trigger] final(ctx).table@.defs[i] == old(ctx).table@.defs[i],
        final(ctx).interner@.len() >= old(ctx).interner@.len(),
        forall|i: int| 0 <= i < old(ctx).interner@.len() ==> #[trigger] final(ctx).interner@[i] == old(ctx).interner@[i],
        final(ctx).primitives == old(ctx).primitives,
        final(ctx).methods == old(ctx).methods,
{
    let ghost c0 = *ctx;
    let typeid = ctx.intern_keeping(ty);
    let ghost c1 = *ctx;
    let root = ctx.table.root();
    let def = Definition {
        name: owned(name),
        kind: DefKind::TypeAlias(crate::defkinds::TypeAliasDef { resolved: true, typeid }),
    };
    let ghost gdef = def;
    let res = ctx.table.define(root, def);
    proof {
        assert(c1.table@.scopes.len() >= 1);
        assert(res is Ok);
        let e = (gdef.name@, DefID(c1.table@.defs.len() as usize));
        crate::symbols::lemma_find_entry_push(c1.table@.scopes[0].entries, name@, e);
        assert forall|m: Seq<char>| m != name@ implies #[trigger] ctx.table@.lookup_local(0, m) == c1.table@.lookup_local(0, m) by {
            crate::symbols::lemma_find_entry_push(c1.table@.scopes[0].entries, m, e);
        }
        let k = c1.table@.defs.len() as int;
        assert(ctx.table@.defs[k] == gdef);
        assert(def_type_ids(gdef.kind) =~= seq![typeid]);
        assert forall|i: int, j: int|
            0 <= i < ctx.table@.defs.len() && 0 <= j < def_type_ids(ctx.table@.defs[i].kind).len() implies (
            #[trigger] def_type_ids(ctx.table@.defs[i].kind)[j]).0 < ctx.interner@.len() by {
            if i < k {
                assert(ctx.table@.defs[i] == c1.table@.defs[i]);
            }
        }
        assert forall|t: TypeID, n: Seq<char>| (#[trigger] ctx.methods.method_of(t, n) matches Some(d)
            ==> d.0 < ctx.table@.defs.len() && ctx.table@.defs[d.0 as int].kind is Function) by {
            assert(ctx.methods.method_of(t, n) == c1.methods.method_of(t, n));
            if let Some(d) = ctx.methods.method_of(t, n) {
                assert(ctx.table@.defs[d.0 as int] == c1.table@.defs[d.0 as int]);
            }
        }
        assert(ctx.table@.lookup_local(0, name@) == Some(DefID(k as usize)));
        assert(ctx.table@.defs.len() == k + 1);
    }
    typeid
}

/// Interns the primitive types, defines each under its name in the root
/// scope, and records their ids as the context's primitives.
pub fn load_primitives(ctx: &mut Context)
    requires
        old(ctx).core_wf(),
        forall|k: int| 0 <= k < primitive_table().len() ==> old(ctx).table@.lookup_local(0, (#[trigger] primitive_table()[k]).0) is None,
    ensures
        final(ctx).wf(),
        final(ctx).table@.scopes.len() == old(ctx).table@.scopes.len(),
        forall|k: int| 0 <= k < primitive_table().len() ==> primitive_defined(
            *final(ctx),
            (#[trigger] primitive_table()[k]).0,
            primitive_table()[k].1,
            primitive_ids(final(ctx).primitives)[k],
        ),
        forall|m: Seq<char>| (forall|k: int| 0 <= k < primitive_table().len() ==> (#[trigger] primitive_table()[k]).0 != m)
            ==> #[trigger] final(ctx).table@.lookup_local(0, m) == old(ctx).table@.lookup_local(0, m),
        final(ctx).methods == old(ctx).methods,
{
    let ghost names = primitive_table();
    proof {
        reveal_strlit("void");
        reveal_strlit("bool");
        reveal_strlit("u8");
        reveal_strlit("u16");
        reveal_strlit("u32");
        reveal_strlit("u64");
        reveal_strlit("i8");
        reveal_strlit("i16");
        reveal_strlit("i32");
        reveal_strlit("i64");
        reveal_strlit("f32");
        reveal_strlit("f64");
        assert(names[0].0 == "void"@);
        assert(names[1].0 == "bool"@);
        assert(names[2].0 == "u8"@);
        assert(names[3].0 == "u16"@);
        assert(names[4].0 == "u32"@);
        assert(names[5].0 == "u64"@);
        assert(names[6].0 == "i8"@);
        assert(names[7].0 == "i16"@);
        assert(names[8].0 == "i32"@);
        assert(names[9].0 == "i64"@);
        assert(names[10].0 == "f32"@);
        assert(names[11].0 == "f64"@);
    }
    let ghost c0 = *ctx;
    proof {
        lemma_primitive_names_distinct();
        assert(none_defined(c0, names, 0));
    }
    let void = define_primitive(ctx, "void", TypeDef::Void);
    let ghost c1 = *ctx;
    proof {
        lemma_none_step(c0, c1, names, 0);
    }
    let bool_ = define_primitive(ctx, "bool", TypeDef::Bool);
    let ghost c2 = *ctx;
    proof {
        lemma_none_step(c1, c2, names, 1);
    }
    let u8_ = define_primitive(ctx, "u8", TypeDef::Int(8, crate::types::Signedness::Unsigned));
    let ghost c3 = *ctx;
    proof {
        lemma_none_step(c2, c3, names, 2);
    }
    let u16_ = define_primitive(ctx, "u16", TypeDef::Int(16, crate::types::Signedness::Unsigned));
    let ghost c4 = *ctx;
    proof {
        lemma_none_step(c3, c4, names, 3);
    }
    let u32_ = define_primitive(ctx, "u32", TypeDef::Int(32, crate::types::Signedness::Unsigned));
    let ghost c5 = *ctx;
    proof {
        lemma_none_step(c4, c5, names, 4);
    }
    let u64_ = define_primitive(ctx, "u64", TypeDef::Int(64, crate::types::Signedness::Unsigned));
    let ghost c6 = *ctx;
    proof {
        lemma_none_step(c5, c6, names, 5);
    }
    let i8_ = define_primitive(ctx, "i8", TypeDef::Int(8, crate::types::Signedness::Signed));
    let ghost c7 = *ctx;
    proof {
        lemma_none_step(c6, c7, names, 6);
    }
    let i16_ = define_primitive(ctx, "i16", TypeDef::Int(16, crate::types::Signedness::Signed));
    let ghost c8 = *ctx;
    proof {
        lemma_none_step(c7, c8, names, 7);
    }
    let i32_ = define_primitive(ctx, "i32", TypeDef::Int(32, crate::types::Signedness::Signed));
    let ghost c9 = *ctx;
    proof {
        lemma_none_step(c8, c9, names, 8);
    }
    let i64_ = define_primitive(ctx, "i64", TypeDef::Int(64, crate::types::Signedness::Signed));
    let ghost c10 = *ctx;
    proof {
        lemma_none_step(c9, c10, names, 9);
    }
    let f32_ = define_primitive(ctx, "f32", TypeDef::Float(32));
    let ghost c11 = *ctx;
    proof {
        lemma_none_step(c10, c11, names, 10);
    }
    let f64_ = define_primitive(ctx, "f64", TypeDef::Float(64));
    let ghost c12 = *ctx;
    let ghost cs = seq![c0, c1, c2, c3, c4, c5, c6, c7, c8, c9, c10, c11, c12];
    let ghost ids = seq![void, bool_, u8_, u16_, u32_, u64_, i8_, i16_, i32_, i64_, f32_, f64_];
    proof {
        assert(define_step(cs[0], cs[1], names[0].0));
        assert(define_step(cs[1], cs[2], names[1].0));
        assert(define_step(cs[2], cs[3], names[2].0));
        assert(define_step(cs[3], cs[4], names[3].0));
        assert(define_step(cs[4], cs[5], names[4].0));
        assert(define_step(cs[5], cs[6], names[5].0));
        assert(define_step(cs[6], cs[7], names[6].0));
        assert(define_step(cs[7], cs[8], names[7].0));
        assert(define_step(cs[8], cs[9], names[8].0));
        assert(define_step(cs[9], cs[10], names[9].0));
        assert(define_step(cs[10], cs[11], names[10].0));
        assert(define_step(cs[11], cs[12], names[11].0));
        assert(primitive_defined(cs[1], names[0].0, names[0].1, ids[0]));
        assert(primitive_defined(cs[2], names[1].0, names[1].1, ids[1]));
        assert(primitive_defined(cs[3], names[2].0, names[2].1, ids[2]));
        assert(primitive_defined(cs[4], names[3].0, names[3].1, ids[3]));
        assert(primitive_defined(cs[5], names[4].0, names[4].1, ids[4]));
        assert(primitive_defined(cs[6], names[5].0, names[5].1, ids[5]));
        assert(primitive_defined(cs[7], names[6].0, names[6].1, ids[6]));
        assert(primitive_defined(cs[8], names[7].0, names[7].1, ids[7]));
        assert(primitive_defined(cs[9], names[8].0, names[8].1, ids[8]));
        assert(primitive_defined(cs[10], names[9].0, names[9].1, ids[9]));
        assert(primitive_defined(cs[11], names[10].0, names[10].1, ids[10]));
        assert(primitive_defined(cs[12], names[11].0, names[11].1, ids[11]));
        assert forall|k: int| 0 <= k < 12 implies primitive_defined(c12, (#[trigger] names[k]).0, names[k].1, ids[k]) by {
            lemma_kept_chain(cs, names, ids, k, k + 1);
        }
    }
    ctx.set_primitives(Primitives { void, bool_, u8_, u16_, u32_, u64_, i8_, i16_, i32_, i64_, f32_, f64_ });
    proof {
        assert(ctx.interner == c12.interner);
        assert(ctx.table == c12.table);
        assert forall|k: int| 0 <= k < 12 implies primitive_defined(*ctx, (#[trigger] names[k]).0, names[k].1, primitive_ids(ctx.primitives)[k]) by {
            assert(primitive_ids(ctx.primitives)[k] == ids[k]);
            assert(primitive_defined(c12, names[k].0, names[k].1, ids[k]));
        }
        assert forall|m: Seq<char>| (forall|k: int| 0 <= k < primitive_table().len() ==> (#[trigger] primitive_table()[k]).0 != m)
            implies #[trigger] ctx.table@.lookup_local(0, m) == c0.table@.lookup_local(0, m) by {
            assert(names[0].0 != m);
            assert(names[1].0 != m);
            assert(names[2].0 != m);
            assert(names[3].0 != m);
            assert(names[4].0 != m);
            assert(names[5].0 != m);
            assert(names[6].0 != m);
            assert(names[7].0 != m);
            assert(names[8].0 != m);
            assert(names[9].0 != m);
            assert(names[10].0 != m);
            assert(names[11].0 != m);
            assert(c1.table@.lookup_local(0, m) == c0.table@.lookup_local(0, m));
            assert(c2.table@.lookup_local(0, m) == c1.table@.lookup_local(0, m));
            assert(c3.table@.lookup_local(0, m) == c2.table@.lookup_local(0, m));
            assert(c4.table@.lookup_local(0, m) == c3.table@.lookup_local(0, m));
            assert(c5.table@.lookup_local(0, m) == c4.table@.lookup_local(0, m));
            assert(c6.table@.lookup_local(0, m) == c5.table@.lookup_local(0, m));
            assert(c7.table@.lookup_local(0, m) == c6.table@.lookup_local(0, m));
            assert(c8.table@.lookup_local(0, m) == c7.table@.lookup_local(0, m));
            assert(c9.table@.lookup_local(0, m) == c8.table@.lookup_local(0, m));
            assert(c10.table@.lookup_local(0, m) == c9.table@.lookup_local(0, m));
            assert(c11.table@.lookup_local(0, m) == c10.table@.lookup_local(0, m));
            assert(c12.table@.lookup_local(0, m) == c11.table@.lookup_local(0, m));
        }
    }
}

} // verus!
