//! The analyzer's symbol table: a deduplicating registry of structural
//! types whose first twelve ids are the language primitives, and the symbols
//! that module and local scopes hold.
use std::collections::HashMap;
use vstd::prelude::*;

verus! {

/// Index of a type in a `TypeRegistry`.
#[derive(Debug, Clone, Copy, PartialEq, Eq, Hash, Structural)]
pub struct TypeId(pub u32);

/// The structural description of a type.
#[derive(Debug, Clone, PartialEq, Eq, Hash)]
pub enum TypeInfo {
    I8,
    I16,
    I32,
    I64,
    U8,
    U16,
    U32,
    U64,
    F32,
    F64,
    Bool,
    /// The "no value" type of functions that return nothing.
    Void,
    /// `*T` (mutable) or `*const T`.
    Pointer { mutable: bool, inner: TypeId },
    /// `[N]T`: an array whose size is known at compile time.
    Array { size: usize, inner: TypeId },
    /// A user-defined named type.
    Named(String),
}

/// The value of a `TypeInfo`, with a type name taken as its characters.
pub enum InfoShape {
    I8,
    I16,
    I32,
    I64,
    U8,
    U16,
    U32,
    U64,
    F32,
    F64,
    Bool,
    Void,
    Pointer { mutable: bool, inner: TypeId },
    Array { size: usize, inner: TypeId },
    Named(Seq<char>),
}

impl View for TypeInfo {
    type V = InfoShape;

    open spec fn view(&self) -> InfoShape {
        match self {
            TypeInfo::I8 => InfoShape::I8,
            TypeInfo::I16 => InfoShape::I16,
            TypeInfo::I32 => InfoShape::I32,
            TypeInfo::I64 => InfoShape::I64,
            TypeInfo::U8 => InfoShape::U8,
            TypeInfo::U16 => InfoShape::U16,
            TypeInfo::U32 => InfoShape::U32,
            TypeInfo::U64 => InfoShape::U64,
            TypeInfo::F32 => InfoShape::F32,
            TypeInfo::F64 => InfoShape::F64,
            TypeInfo::Bool => InfoShape::Bool,
            TypeInfo::Void => InfoShape::Void,
            TypeInfo::Pointer { mutable, inner } => InfoShape::Pointer {
                mutable: *mutable,
                inner: *inner,
            },
            TypeInfo::Array { size, inner } => InfoShape::Array { size: *size, inner: *inner },
            TypeInfo::Named(n) => InfoShape::Named(n@),
        }
    }
}

/// Structural equality of two type descriptions.
pub fn same_info(a: &TypeInfo, b: &TypeInfo) -> (r: bool)
    ensures
        r == (a@ == b@),
{
    match (a, b) {
        (TypeInfo::I8, TypeInfo::I8) => true,
        (TypeInfo::I16, TypeInfo::I16) => true,
        (TypeInfo::I32, TypeInfo::I32) => true,
        (TypeInfo::I64, TypeInfo::I64) => true,
        (TypeInfo::U8, TypeInfo::U8) => true,
        (TypeInfo::U16, TypeInfo::U16) => true,
        (TypeInfo::U32, TypeInfo::U32) => true,
        (TypeInfo::U64, TypeInfo::U64) => true,
        (TypeInfo::F32, TypeInfo::F32) => true,
        (TypeInfo::F64, TypeInfo::F64) => true,
        (TypeInfo::Bool, TypeInfo::Bool) => true,
        (TypeInfo::Void, TypeInfo::Void) => true,
        (
            TypeInfo::Pointer { mutable: m1, inner: i1 },
            TypeInfo::Pointer { mutable: m2, inner: i2 },
        ) => *m1 == *m2 && *i1 == *i2,
        (TypeInfo::Array { size: s1, inner: i1 }, TypeInfo::Array { size: s2, inner: i2 }) => {
            *s1 == *s2 && *i1 == *i2
        },
        (TypeInfo::Named(n1), TypeInfo::Named(n2)) => crate::text::str_eq(
            n1.as_str(),
            n2.as_str(),
        ),
        _ => false,
    }
}

/// The primitives in the order the registry stores them: the position of
/// each is its id.
pub open spec fn primitive_shapes() -> Seq<InfoShape> {
    seq![
        InfoShape::I8,
        InfoShape::I16,
        InfoShape::I32,
        InfoShape::I64,
        InfoShape::U8,
        InfoShape::U16,
        InfoShape::U32,
        InfoShape::U64,
        InfoShape::F32,
        InfoShape::F64,
        InfoShape::Bool,
        InfoShape::Void,
    ]
}

/// No description occurs twice.
pub open spec fn distinct_infos(s: Seq<InfoShape>) -> bool {
    forall|i: int, j: int| 0 <= i < s.len() && 0 <= j < s.len() && i != j ==> s[i] != s[j]
}

/// The index of `d` in `s` (meaningful when `s` contains `d`).
pub open spec fn info_index(s: Seq<InfoShape>, d: InfoShape) -> int {
    choose|i: int| 0 <= i < s.len() && s[i] == d
}

/// What interning `d` into the registry `s` gives: the new registry and the id of `d`.
pub open spec fn register_model(s: Seq<InfoShape>, d: InfoShape) -> (Seq<InfoShape>, int) {
    if s.contains(d) {
        (s, info_index(s, d))
    } else {
        (s.push(d), s.len() as int)
    }
}

/// Central type registry; a type's id is its index.
pub struct TypeRegistry {
    types: Vec<TypeInfo>,
}

impl View for TypeRegistry {
    type V = Seq<InfoShape>;

    closed spec fn view(&self) -> Seq<InfoShape> {
        self.types@.map_values(|d: TypeInfo| d@)
    }
}

impl TypeRegistry {
    /// No description is stored twice, the primitives hold their fixed ids
    /// and every id fits a `u32`.
    pub open spec fn wf(&self) -> bool {
        &&& distinct_infos(self@)
        &&& self@.len() >= 12
        &&& self@.subrange(0, 12) == primitive_shapes()
        &&& self@.len() <= u32::MAX + 1
    }

    /// A registry holding exactly the primitives.
    pub fn new() -> (r: Self)
        ensures
            r.wf(),
            r@ == primitive_shapes(),
    {
        let mut registry = TypeRegistry { types: Vec::new() };
        registry.intern_builtin(TypeInfo::I8);
        registry.intern_builtin(TypeInfo::I16);
        registry.intern_builtin(TypeInfo::I32);
        registry.intern_builtin(TypeInfo::I64);
        registry.intern_builtin(TypeInfo::U8);
        registry.intern_builtin(TypeInfo::U16);
        registry.intern_builtin(TypeInfo::U32);
        registry.intern_builtin(TypeInfo::U64);
        registry.intern_builtin(TypeInfo::F32);
        registry.intern_builtin(TypeInfo::F64);
        registry.intern_builtin(TypeInfo::Bool);
        registry.intern_builtin(TypeInfo::Void);
        assert(registry@ =~= primitive_shapes());
        assert(registry@.subrange(0, 12) =~= primitive_shapes());
        registry
    }

    fn intern_builtin(&mut self, info: TypeInfo)
        requires
            old(self)@.len() < 12,
        ensures
            final(self)@ == old(self)@.push(info@),
    {
        let ghost before = self@;
        self.types.push(info);
        assert(self@ =~= before.push(info@));
    }

    /// Returns the id of `info`, adding it when it is new.
    pub fn intern(&mut self, info: TypeInfo) -> (id: TypeId)
        requires
            old(self).wf(),
            old(self)@.len() <= u32::MAX || old(self)@.contains(info@),
        ensures
            final(self).wf(),
            (final(self)@, id.0 as int) == register_model(old(self)@, info@),
            final(self)@[id.0 as int] == info@,
    {
        let mut i: usize = 0;
        while i < self.types.len()
            invariant
                i <= self.types@.len(),
                self.wf(),
                forall|j: int| 0 <= j < i ==> self@[j] != info@,
            decreases self.types.len() - i,
        {
            if same_info(&self.types[i], &info) {
                proof {
                    assert(self@.contains(info@)) by {
                        assert(self@[i as int] == info@);
                    }
                    let k = info_index(self@, info@);
                    assert(self@[k] == info@);
                    assert(0 <= k < self@.len());
                    if k != i as int {
                        assert(self@[k] != self@[i as int]);
                    }
                }
                return TypeId(i as u32);
            }
            i = i + 1;
        }
        let ghost before = self@;
        let id = TypeId(self.types.len() as u32);
        self.types.push(info);
        assert(self@ =~= before.push(info@));
        assert(self@.subrange(0, 12) =~= before.subrange(0, 12));
        id
    }

    /// The description of `id`, which must have come from this registry.
    pub fn get(&self, id: TypeId) -> (r: &TypeInfo)
        requires
            (id.0 as int) < self@.len(),
        ensures
            r@ == self@[id.0 as int],
    {
        &self.types[id.0 as usize]
    }
}

impl TypeId {
    /// The fixed id of the `i8` primitive.
    pub open spec fn spec_i8() -> TypeId {
        TypeId(0)
    }

    #[verifier::when_used_as_spec(spec_i8)]
    pub fn i8() -> (r: TypeId)
        ensures
            r == TypeId(0),
    {
        TypeId(0)
    }

    /// The fixed id of the `i16` primitive.
    pub open spec fn spec_i16() -> TypeId {
        TypeId(1)
    }

    #[verifier::when_used_as_spec(spec_i16)]
    pub fn i16() -> (r: TypeId)
        ensures
            r == TypeId(1),
    {
        TypeId(1)
    }

    /// The fixed id of the `i32` primitive.
    pub open spec fn spec_i32() -> TypeId {
        TypeId(2)
    }

    #[verifier::when_used_as_spec(spec_i32)]
    pub fn i32() -> (r: TypeId)
        ensures
            r == TypeId(2),
    {
        TypeId(2)
    }

    /// The fixed id of the `i64` primitive.
    pub open spec fn spec_i64() -> TypeId {
        TypeId(3)
    }

    #[verifier::when_used_as_spec(spec_i64)]
    pub fn i64() -> (r: TypeId)
        ensures
            r == TypeId(3),
    {
        TypeId(3)
    }

    /// The fixed id of the `u8` primitive.
    pub open spec fn spec_u8() -> TypeId {
        TypeId(4)
    }

    #[verifier::when_used_as_spec(spec_u8)]
    pub fn u8() -> (r: TypeId)
        ensures
            r == TypeId(4),
    {
        TypeId(4)
    }

    /// The fixed id of the `u16` primitive.
    pub open spec fn spec_u16() -> TypeId {
        TypeId(5)
    }

    #[verifier::when_used_as_spec(spec_u16)]
    pub fn u16() -> (r: TypeId)
        ensures
            r == TypeId(5),
    {
        TypeId(5)
    }

    /// The fixed id of the `u32` primitive.
    pub open spec fn spec_u32() -> TypeId {
        TypeId(6)
    }

    #[verifier::when_used_as_spec(spec_u32)]
    pub fn u32() -> (r: TypeId)
        ensures
            r == TypeId(6),
    {
        TypeId(6)
    }

    /// The fixed id of the `u64` primitive.
    pub open spec fn spec_u64() -> TypeId {
        TypeId(7)
    }

    #[verifier::when_used_as_spec(spec_u64)]
    pub fn u64() -> (r: TypeId)
        ensures
            r == TypeId(7),
    {
        TypeId(7)
    }

    /// The fixed id of the 32-bit float primitive.
    pub open spec fn spec_float32() -> TypeId {
        TypeId(8)
    }

    #[verifier::when_used_as_spec(spec_float32)]
    pub fn float32() -> (r: TypeId)
        ensures
            r == TypeId(8),
    {
        TypeId(8)
    }

    /// The fixed id of the 64-bit float primitive.
    pub open spec fn spec_float64() -> TypeId {
        TypeId(9)
    }

    #[verifier::when_used_as_spec(spec_float64)]
    pub fn float64() -> (r: TypeId)
        ensures
            r == TypeId(9),
    {
        TypeId(9)
    }

    /// The fixed id of the `bool` primitive.
    pub open spec fn spec_bool() -> TypeId {
        TypeId(10)
    }

    #[verifier::when_used_as_spec(spec_bool)]
    pub fn bool() -> (r: TypeId)
        ensures
            r == TypeId(10),
    {
        TypeId(10)
    }

    /// The fixed id of the `void` primitive.
    pub open spec fn spec_void() -> TypeId {
        TypeId(11)
    }

    #[verifier::when_used_as_spec(spec_void)]
    pub fn void() -> (r: TypeId)
        ensures
            r == TypeId(11),
    {
        TypeId(11)
    }
}

#[derive(Debug, Clone, PartialEq, Eq, Structural)]
pub enum Binding {
    /// A mutable variable.
    Var,
    /// An immutable variable.
    Const,
}

/// A variable declared inside a function or block; `ty` is `None` while the
/// type is still to be inferred.
#[derive(Debug, Clone)]
pub struct VarSymbol {
    pub name: String,
    pub binding: Binding,
    pub ty: Option<TypeId>,
}

#[derive(Debug, Clone)]
pub struct FieldSymbol {
    pub name: String,
    pub ty: TypeId,
}

#[derive(Debug, Clone)]
pub struct TraitMethodSymbol {
    pub name: String,
    pub params: Vec<ParamSymbol>,
    pub return_type: Option<TypeId>,
}

#[derive(Debug, Clone)]
pub enum TypeKind {
    Struct(Vec<FieldSymbol>),
    Enum(Vec<String>),
    Trait(Vec<TraitMethodSymbol>),
    Alias(TypeId),
}

#[derive(Debug, Clone)]
pub struct TypeSymbol {
    pub name: String,
    pub generics: Vec<String>,
    pub kind: TypeKind,
    pub is_pub: bool,
}

#[derive(Debug, Clone)]
pub struct ParamSymbol {
    pub name: String,
    pub ty: TypeId,
    pub is_self: bool,
}

#[derive(Debug, Clone)]
pub struct GenericSymbol {
    pub name: String,
    pub bound: Option<TypeId>,
}

#[derive(Debug, Clone)]
pub struct FnSymbol {
    pub name: String,
    pub generics: Vec<GenericSymbol>,
    pub params: Vec<ParamSymbol>,
    pub return_type: Option<TypeId>,
    /// The receiver type when the first parameter is `self`.
    pub receiver: Option<TypeId>,
    /// The trait this function implements, for `fn name(..) for Trait`.
    pub trait_impl: Option<String>,
    pub is_inline: bool,
    pub is_pub: bool,
}

#[derive(Debug)]
pub struct ModuleScope {
    pub types: HashMap<String, TypeSymbol>,
    /// Several functions may share a name when they implement different traits.
    pub functions: HashMap<String, Vec<FnSymbol>>,
}

#[derive(Debug)]
pub struct LocalScope {
    pub variables: HashMap<String, VarSymbol>,
}

pub struct SymbolTable {
    pub module: ModuleScope,
    pub registry: TypeRegistry,
    pub locals: Vec<LocalScope>,
}

impl SymbolTable {
    /// An empty table whose registry holds the primitives.
    pub fn new() -> (r: Self)
        ensures
            r.registry.wf(),
            r.registry@ == primitive_shapes(),
            r.local_depth() == 0,
    {
        SymbolTable {
            module: ModuleScope { types: HashMap::new(), functions: HashMap::new() },
            registry: TypeRegistry::new(),
            locals: Vec::new(),
        }
    }

    /// How many local scopes are open.
    pub open spec fn local_depth(&self) -> nat {
        self.locals@.len()
    }
}

/// Every primitive has the id its constant names, in every well-formed registry.
pub proof fn law_primitives_are_stable(r: Seq<InfoShape>)
    requires
        r.len() >= 12,
        r.subrange(0, 12) == primitive_shapes(),
    ensures
        r[TypeId::i8().0 as int] == InfoShape::I8,
        r[TypeId::i16().0 as int] == InfoShape::I16,
        r[TypeId::i32().0 as int] == InfoShape::I32,
        r[TypeId::i64().0 as int] == InfoShape::I64,
        r[TypeId::u8().0 as int] == InfoShape::U8,
        r[TypeId::u16().0 as int] == InfoShape::U16,
        r[TypeId::u32().0 as int] == InfoShape::U32,
        r[TypeId::u64().0 as int] == InfoShape::U64,
        r[TypeId::float32().0 as int] == InfoShape::F32,
        r[TypeId::float64().0 as int] == InfoShape::F64,
        r[TypeId::bool().0 as int] == InfoShape::Bool,
        r[TypeId::void().0 as int] == InfoShape::Void,
{
    assert forall|k: int| 0 <= k < 12 implies #[trigger] r[k] == primitive_shapes()[k] by {
        assert(r.subrange(0, 12)[k] == r[k]);
    }
}

/// Interning a description twice gives the same id and leaves the registry
/// as the first call left it.
pub proof fn law_register_idempotent(s: Seq<InfoShape>, d: InfoShape)
    requires
        distinct_infos(s),
    ensures
        register_model(register_model(s, d).0, d) == register_model(s, d),
{
    let (s1, i1) = register_model(s, d);
    if !s.contains(d) {
        assert(s1[i1] == d);
    } else {
        let k = info_index(s, d);
        assert(s[k] == d);
    }
    assert(s1.contains(d));
    let k = info_index(s1, d);
    assert(s1[k] == d);
    if s.contains(d) {
        let k0 = info_index(s, d);
        assert(s[k0] == d);
    }
}

/// Different descriptions receive different ids.
pub proof fn law_register_distinct(s: Seq<InfoShape>, a: InfoShape, b: InfoShape)
    requires
        distinct_infos(s),
        a != b,
    ensures
        register_model(s, a).1 != register_model(register_model(s, a).0, b).1,
{
    let (s1, ia) = register_model(s, a);
    if s.contains(a) {
        let k = info_index(s, a);
        assert(s[k] == a);
    }
    let (s2, ib) = register_model(s1, b);
    if s1.contains(b) {
        let k = info_index(s1, b);
        assert(s1[k] == b);
    }
    assert(s1[ia] == a);
    assert(s2[ib] == b);
    assert(s2[ia] == s1[ia]);
}


/// Interning gives back an id whose entry is the description; the ids of
/// the entries already there stay as they were; a description already
/// present keeps its id and the registry unchanged, a new one is added at
/// the end; no description appears twice afterwards.
pub proof fn law_register_lookup(s: Seq<InfoShape>, d: InfoShape)
    requires
        distinct_infos(s),
    ensures
        0 <= register_model(s, d).1 < register_model(s, d).0.len(),
        register_model(s, d).0[register_model(s, d).1] == d,
        forall|k: int| 0 <= k < s.len() ==> #[trigger] register_model(s, d).0[k] == s[k],
        s.contains(d) ==> register_model(s, d).0 == s,
        !s.contains(d) ==> register_model(s, d).1 == s.len() && register_model(s, d).0.len() == s.len() + 1,
        distinct_infos(register_model(s, d).0),
{
    if s.contains(d) {
        let k = info_index(s, d);
        assert(s[k] == d);
    } else {
        let s1 = s.push(d);
        assert forall|i: int, j: int| 0 <= i < s1.len() && 0 <= j < s1.len() && i != j implies s1[i] != s1[j] by {
            if i < s.len() && j < s.len() {
                assert(s1[i] == s[i] && s1[j] == s[j]);
            } else if i < s.len() {
                assert(s1[i] == s[i]);
                assert(!(s[i] == d)) by {
                    if s[i] == d {
                        assert(s.contains(d));
                    }
                }
            } else {
                assert(s1[j] == s[j]);
                assert(!(s[j] == d)) by {
                    if s[j] == d {
                        assert(s.contains(d));
                    }
                }
            }
        }
    }
}

/// Two descriptions interned one after the other get the same id exactly
/// when they are equal.
pub proof fn law_register_same_id(s: Seq<InfoShape>, a: InfoShape, b: InfoShape)
    requires
        distinct_infos(s),
    ensures
        (register_model(s, a).1 == register_model(register_model(s, a).0, b).1) <==> a == b,
{
    if a == b {
        law_register_idempotent(s, a);
    } else {
        law_register_distinct(s, a, b);
    }
}

/// The derived debug text of a parse failure: `std::format!` with `{:?}`,
/// which runs the derived `Debug` impl. Nothing is claimed of the text it
/// returns.
#[verifier::external_body]
fn debug_parse_failure(kind: &crate::parse::Kind) -> String {
    format!("{:?}", kind)
}

/// Analyzes a text: once it parses, the analysis starts from a table that
/// holds the primitives.
pub fn analyze(source: &str) -> (r: Result<SymbolTable, String>)
    ensures
        r matches Ok(t) ==> t.registry.wf() && t.registry@ == primitive_shapes() && t.local_depth() == 0,
        r is Ok <==> crate::parse::unit_parses(source@),
{
    match crate::parse::parse(source) {
        Ok(_) => Ok(SymbolTable::new()),
        Err(e) => {
            let mut msg = crate::text::owned("Parse error: ");
            msg.append(debug_parse_failure(&e).as_str());
            Err(msg)
        },
    }
}

} // verus!
