//! Identifiers shared by every compiler stage and the type interner.
//!
//! A `TypeID` is an index into a `TypeInterner`; interning is deduplicating,
//! so two structurally equal type definitions always receive the same id.
use vstd::prelude::*;

verus! {

/// Index of a definition in the resolver's symbol table.
#[derive(Clone, Copy, PartialEq, Eq, Hash, Debug, Structural)]
pub struct DefID(pub usize);

/// Index of a scope in the resolver's symbol table.
#[derive(Clone, Copy, PartialEq, Eq, Debug, Structural)]
pub struct ScopeID(pub usize);

/// Index of a type in a `TypeInterner`.
#[derive(Clone, Copy, PartialEq, Eq, Debug, Hash, Structural)]
pub struct TypeID(pub usize);

impl TypeID {
    /// The id `TypeID(0)`, used as a placeholder before a type is resolved.
    pub fn zero() -> (r: TypeID)
        ensures
            r == TypeID(0),
    {
        TypeID(0)
    }
}

#[derive(Clone, Copy, PartialEq, Eq, Hash, Debug, Structural)]
pub enum Signedness {
    Signed,
    Unsigned,
}

/// The letter that C-like type names use for a signedness: `i` or `u`.
pub open spec fn signedness_prefix(s: Signedness) -> Seq<char> {
    match s {
        Signedness::Signed => seq!['i'],
        Signedness::Unsigned => seq!['u'],
    }
}

impl Signedness {
    pub fn to_prefix(&self) -> (r: &'static str)
        ensures
            r@ == signedness_prefix(*self),
    {
        match self {
            Signedness::Signed => {
                proof {
                    reveal_strlit("i");
                }
                "i"
            },
            Signedness::Unsigned => {
                proof {
                    reveal_strlit("u");
                }
                "u"
            },
        }
    }
}

#[derive(Clone, Debug, PartialEq, Eq, Hash)]
pub struct FnPointerType {
    pub params: Vec<TypeID>,
    pub return_type: TypeID,
}

/// Structural description of a type.
#[derive(Clone, Debug, PartialEq, Eq, Hash)]
pub enum TypeDef {
    Int(u32, Signedness),
    Float(u32),
    Bool,
    Void,
    Array { element: TypeID, size: usize },
    Pointer { pointee: TypeID, mutability: bool },
    FnPointer(FnPointerType),
    UserDef(DefID),
}

/// The mathematical value of a `TypeDef`: the same shape, with the parameter
/// list of a function pointer taken as a sequence.
pub enum TypeShape {
    Int(u32, Signedness),
    Float(u32),
    Bool,
    Void,
    Array { element: TypeID, size: usize },
    Pointer { pointee: TypeID, mutability: bool },
    FnPointer { params: Seq<TypeID>, return_type: TypeID },
    UserDef(DefID),
}

impl View for TypeDef {
    type V = TypeShape;

    open spec fn view(&self) -> TypeShape {
        match self {
            TypeDef::Int(n, s) => TypeShape::Int(*n, *s),
            TypeDef::Float(n) => TypeShape::Float(*n),
            TypeDef::Bool => TypeShape::Bool,
            TypeDef::Void => TypeShape::Void,
            TypeDef::Array { element, size } => TypeShape::Array { element: *element, size: *size },
            TypeDef::Pointer { pointee, mutability } => TypeShape::Pointer {
                pointee: *pointee,
                mutability: *mutability,
            },
            TypeDef::FnPointer(f) => TypeShape::FnPointer {
                params: f.params@,
                return_type: f.return_type,
            },
            TypeDef::UserDef(d) => TypeShape::UserDef(*d),
        }
    }
}

/// Compares two parameter lists element by element.
fn same_type_ids(a: &Vec<TypeID>, b: &Vec<TypeID>) -> (r: bool)
    ensures
        r == (a@ == b@),
{
    if a.len() != b.len() {
        return false;
    }
    let mut i: usize = 0;
    while i < a.len()
        invariant
            a.len() == b.len(),
            i <= a.len(),
            forall|j: int| 0 <= j < i ==> a@[j] == b@[j],
        decreases a.len() - i,
    {
        if a[i] != b[i] {
            return false;
        }
        i = i + 1;
    }
    assert(a@ =~= b@);
    true
}

/// Structural equality of two type definitions.
pub fn same_type_def(a: &TypeDef, b: &TypeDef) -> (r: bool)
    ensures
        r == (a@ == b@),
{
    match (a, b) {
        (TypeDef::Int(n1, s1), TypeDef::Int(n2, s2)) => *n1 == *n2 && *s1 == *s2,
        (TypeDef::Float(n1), TypeDef::Float(n2)) => *n1 == *n2,
        (TypeDef::Bool, TypeDef::Bool) => true,
        (TypeDef::Void, TypeDef::Void) => true,
        (
            TypeDef::Array { element: e1, size: z1 },
            TypeDef::Array { element: e2, size: z2 },
        ) => *e1 == *e2 && *z1 == *z2,
        (
            TypeDef::Pointer { pointee: p1, mutability: m1 },
            TypeDef::Pointer { pointee: p2, mutability: m2 },
        ) => *p1 == *p2 && *m1 == *m2,
        (TypeDef::FnPointer(f1), TypeDef::FnPointer(f2)) => {
            f1.return_type == f2.return_type && same_type_ids(&f1.params, &f2.params)
        },
        (TypeDef::UserDef(d1), TypeDef::UserDef(d2)) => *d1 == *d2,
        _ => false,
    }
}

/// A sequence in which no value occurs twice.
pub open spec fn distinct_shapes(s: Seq<TypeShape>) -> bool {
    forall|i: int, j: int| 0 <= i < s.len() && 0 <= j < s.len() && i != j ==> s[i] != s[j]
}

/// The index of `d` in `s` (meaningful when `s` contains `d`).
pub open spec fn shape_index(s: Seq<TypeShape>, d: TypeShape) -> int {
    choose|i: int| 0 <= i < s.len() && s[i] == d
}

/// What interning `d` into the table `s` gives: the new table and the id of `d`.
pub open spec fn intern_model(s: Seq<TypeShape>, d: TypeShape) -> (Seq<TypeShape>, int) {
    if s.contains(d) {
        (s, shape_index(s, d))
    } else {
        (s.push(d), s.len() as int)
    }
}

/// Deduplicating table of type definitions; a type's id is its index.
pub struct TypeInterner {
    types: Vec<TypeDef>,
}

impl View for TypeInterner {
    type V = Seq<TypeShape>;

    closed spec fn view(&self) -> Seq<TypeShape> {
        self.types@.map_values(|d: TypeDef| d@)
    }
}

impl TypeInterner {
    /// No type definition is stored twice.
    pub open spec fn wf(&self) -> bool {
        distinct_shapes(self@)
    }

    pub fn new() -> (r: Self)
        ensures
            r@ == Seq::<TypeShape>::empty(),
            r.wf(),
    {
        let r = TypeInterner { types: Vec::new() };
        assert(r@ =~= Seq::<TypeShape>::empty());
        r
    }

    pub fn types(&self) -> (r: &Vec<TypeDef>)
        ensures
            r@.len() == self@.len(),
            forall|i: int| 0 <= i < r@.len() ==> (#[trigger] r@[i])@ == self@[i],
    {
        &self.types
    }

    pub fn len(&self) -> (r: usize)
        ensures
            r == self@.len(),
    {
        self.types.len()
    }

    /// Returns the id of `type_def`, adding it to the table when it is new.
    pub fn intern(&mut self, type_def: TypeDef) -> (typeid: TypeID)
        requires
            old(self).wf(),
        ensures
            final(self).wf(),
            (final(self)@, typeid.0 as int) == intern_model(old(self)@, type_def@),
            typeid.0 < final(self)@.len(),
            final(self)@[typeid.0 as int] == type_def@,
    {
        let mut i: usize = 0;
        while i < self.types.len()
            invariant
                i <= self.types@.len(),
                self.wf(),
                forall|j: int| 0 <= j < i ==> self@[j] != type_def@,
            decreases self.types.len() - i,
        {
            if same_type_def(&self.types[i], &type_def) {
                proof {
                    assert(self@.contains(type_def@)) by {
                        assert(self@[i as int] == type_def@);
                    }
                    let k = shape_index(self@, type_def@);
                    assert(self@[k] == type_def@);
                    assert(0 <= k < self@.len());
                    assert(distinct_shapes(self@));
                    if k != i as int {
                        assert(self@[k] != self@[i as int]);
                    }
                }
                return TypeID(i);
            }
            i = i + 1;
        }
        let ghost before = self@;
        assert(!before.contains(type_def@));
        let typeid = TypeID(self.types.len());
        self.types.push(type_def);
        assert(self@ =~= before.push(type_def@));
        typeid
    }

    /// Returns the definition stored under `typeid`, if any.
    pub fn get(&self, typeid: TypeID) -> (r: Option<&TypeDef>)
        ensures
            r is None <==> typeid.0 >= self@.len(),
            r matches Some(d) ==> d@ == self@[typeid.0 as int],
    {
        if typeid.0 < self.types.len() {
            Some(&self.types[typeid.0])
        } else {
            None
        }
    }
}

/// Interning keeps every id that was already handed out: the old table is a
/// prefix of the new one.
pub proof fn law_intern_preserves_ids(s: Seq<TypeShape>, d: TypeShape)
    requires
        distinct_shapes(s),
    ensures
        intern_model(s, d).0.len() >= s.len(),
        forall|i: int| 0 <= i < s.len() ==> #[trigger] intern_model(s, d).0[i] == s[i],
        distinct_shapes(intern_model(s, d).0),
{
}

/// Looking up the id that interning returned gives back the interned type.
pub proof fn law_intern_then_get(s: Seq<TypeShape>, d: TypeShape)
    requires
        distinct_shapes(s),
    ensures
        0 <= intern_model(s, d).1 < intern_model(s, d).0.len(),
        intern_model(s, d).0[intern_model(s, d).1] == d,
{
}

/// Interning the same type twice returns the same id and leaves the table as
/// the first call left it.
pub proof fn law_intern_idempotent(s: Seq<TypeShape>, d: TypeShape)
    requires
        distinct_shapes(s),
    ensures
        intern_model(intern_model(s, d).0, d) == intern_model(s, d),
{
    let (s1, i1) = intern_model(s, d);
    assert(s1.contains(d)) by {
        assert(s1[i1] == d);
    }
    let k = shape_index(s1, d);
    assert(s1[k] == d);
}

/// Two different types never share an id, whatever was interned in between.
pub proof fn law_intern_distinct(s: Seq<TypeShape>, a: TypeShape, b: TypeShape)
    requires
        distinct_shapes(s),
        a != b,
    ensures
        intern_model(s, a).1 != intern_model(intern_model(s, a).0, b).1,
{
    let (s1, ia) = intern_model(s, a);
    let (s2, ib) = intern_model(s1, b);
    assert(s1[ia] == a);
    assert(s2[ib] == b);
    assert(s2[ia] == s1[ia]);
}

} // verus!
