use cleoc::registry::{SymbolTable as Registry, TypeId, TypeInfo};
use cleoc::symbols::{DefKind, Definition, SymbolTable};
use cleoc::types::{DefID, ScopeID, Signedness, TypeDef, TypeID, TypeInterner};

#[test]
fn test_primitives_are_stable() {
    let table = Registry::new();
    assert_eq!(table.registry.get(TypeId::i32()), &TypeInfo::I32);
    assert_eq!(table.registry.get(TypeId::bool()), &TypeInfo::Bool);
    assert_eq!(table.registry.get(TypeId::void()), &TypeInfo::Void);
}

#[test]
fn test_intern_deduplication() {
    let mut table = Registry::new();
    let id1 = table.registry.intern(TypeInfo::Named("Point".to_string()));
    let id2 = table.registry.intern(TypeInfo::Named("Point".to_string()));
    assert_eq!(id1, id2);
    let id3 = table.registry.intern(TypeInfo::Named("Vec".to_string()));
    assert_ne!(id1, id3);
}

#[test]
fn test_pointer_intern() {
    let mut table = Registry::new();
    let ptr_mut = table.registry.intern(TypeInfo::Pointer { mutable: true, inner: TypeId::i32() });
    let ptr_const = table.registry.intern(TypeInfo::Pointer { mutable: false, inner: TypeId::i32() });
    assert_ne!(ptr_mut, ptr_const);
    let ptr_mut2 = table.registry.intern(TypeInfo::Pointer { mutable: true, inner: TypeId::i32() });
    assert_eq!(ptr_mut, ptr_mut2);
}

#[test]
fn registry_new_names_start_after_the_primitives() {
    let mut table = Registry::new();
    let id = table.registry.intern(TypeInfo::Named("Point".to_string()));
    assert_eq!(id, TypeId(12));
    assert_eq!(table.registry.get(id), &TypeInfo::Named("Point".to_string()));
}

#[test]
fn define_and_lookup() {
    let mut table = SymbolTable::new();
    let root = table.root();
    let defid = table
        .define(root, Definition { name: "x".to_string(), kind: DefKind::Variable { typeid: TypeID(0) } })
        .unwrap();
    let lookup_id = table.lookup(root, "x").unwrap();
    assert_eq!(defid, lookup_id);
}

#[test]
fn nested_scopes() {
    let mut table = SymbolTable::new();
    let root = table.root();
    let defid = table
        .define(root, Definition { name: "x".to_string(), kind: DefKind::Variable { typeid: TypeID(0) } })
        .unwrap();
    let child_scope = table.push(root).unwrap();
    let lookup_id = table.lookup(child_scope, "x").unwrap();
    assert_eq!(defid, lookup_id);
}

#[test]
fn shadowing() {
    let mut table = SymbolTable::new();
    let root = table.root();
    let def_id_root = table
        .define(root, Definition { name: "x".to_string(), kind: DefKind::Variable { typeid: TypeID(0) } })
        .unwrap();
    let child_scope = table.push(root).unwrap();
    let defid_child = table
        .define(child_scope, Definition { name: "x".to_string(), kind: DefKind::Variable { typeid: TypeID(1) } })
        .unwrap();
    let lookup_id_child = table.lookup(child_scope, "x").unwrap();
    assert_eq!(defid_child, lookup_id_child);
    let lookup_id_root = table.lookup(root, "x").unwrap();
    assert_eq!(def_id_root, lookup_id_root);
}

#[test]
fn define_twice_in_one_scope_fails() {
    let mut table = SymbolTable::new();
    let root = table.root();
    assert!(table.define(root, Definition::var("x", TypeID(0))).is_ok());
    assert!(table.define(root, Definition::var("x", TypeID(1))).is_err());
}

#[test]
fn unknown_scopes_are_refused() {
    let mut table = SymbolTable::new();
    assert!(table.push(ScopeID(7)).is_err());
    assert!(table.define(ScopeID(7), Definition::var("x", TypeID(0))).is_err());
    assert_eq!(table.lookup(ScopeID(7), "x"), None);
    assert_eq!(table.lookup(table.root(), "y"), None);
    assert!(table.get_def(DefID(3)).is_none());
}

#[test]
fn test() {
    let mut interner = TypeInterner::new();
    let i8_ty = interner.intern(TypeDef::Int(8, Signedness::Signed));
    let def = interner.get(i8_ty).unwrap();
    assert!(matches!(def, TypeDef::Int(8, Signedness::Signed)));
}

#[test]
fn dedup_works() {
    let mut interner = TypeInterner::new();
    let a = interner.intern(TypeDef::Int(8, Signedness::Signed));
    let b = interner.intern(TypeDef::Int(8, Signedness::Signed));
    assert_eq!(a, b);
}

#[test]
fn interner_gives_fresh_ids_in_order() {
    let mut interner = TypeInterner::new();
    let a = interner.intern(TypeDef::Bool);
    let b = interner.intern(TypeDef::Void);
    let c = interner.intern(TypeDef::Pointer { pointee: a, mutability: true });
    assert_eq!((a, b, c), (TypeID(0), TypeID(1), TypeID(2)));
    assert_eq!(interner.len(), 3);
    assert!(interner.get(TypeID(3)).is_none());
}
