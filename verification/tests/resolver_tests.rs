use cleoc::ast::{Block, Expr, ExprValue, Ident, PathExpr, Segment, Stmt, Type};
use cleoc::checker::{BlockCtx, Checker, Resolved};
use cleoc::codegen::{BodyEmitter, Codegen};
use cleoc::context::{Context, Primitives};
use cleoc::driver::{compile, CompileError};
use cleoc::defkinds::{FnSig, StructDef, TypeAliasDef};
use cleoc::gather::{gather, gather_type};
use cleoc::ir::{ExprIR, FnIR, StmtIR};
use cleoc::lower::{lower, FrameLowerer};
use cleoc::methods::MethodTable;
use cleoc::parse::{parse, parse_expr, parse_fn_decl, parse_stmt};
use cleoc::symbols::{DefKind, Definition};
use cleoc::typed_ast::{FnDecl as TypedFnDecl, FnSignature as TypedFnSignature, TypedUnit};
use cleoc::types::{DefID, FnPointerType, ScopeID, Signedness, TypeDef, TypeID};

/// A context whose root scope defines the primitive types, as the driver
/// sets it up.
fn primed() -> Context {
    let mut ctx = Context::new(Primitives::default());
    let root = ctx.table.root();
    let entries = [
        ("void", TypeDef::Void),
        ("bool", TypeDef::Bool),
        ("u8", TypeDef::Int(8, Signedness::Unsigned)),
        ("u16", TypeDef::Int(16, Signedness::Unsigned)),
        ("u32", TypeDef::Int(32, Signedness::Unsigned)),
        ("u64", TypeDef::Int(64, Signedness::Unsigned)),
        ("i8", TypeDef::Int(8, Signedness::Signed)),
        ("i16", TypeDef::Int(16, Signedness::Signed)),
        ("i32", TypeDef::Int(32, Signedness::Signed)),
        ("i64", TypeDef::Int(64, Signedness::Signed)),
        ("f32", TypeDef::Float(32)),
        ("f64", TypeDef::Float(64)),
    ];
    let mut ids = Vec::new();
    for (name, ty) in entries {
        let typeid = ctx.interner.intern(ty);
        let def = Definition { name: name.to_string(), kind: DefKind::TypeAlias(TypeAliasDef { resolved: true, typeid }) };
        ctx.table.define(root, def).unwrap();
        ids.push(typeid);
    }
    ctx.set_primitives(Primitives {
        void: ids[0],
        bool_: ids[1],
        u8_: ids[2],
        u16_: ids[3],
        u32_: ids[4],
        u64_: ids[5],
        i8_: ids[6],
        i16_: ids[7],
        i32_: ids[8],
        i64_: ids[9],
        f32_: ids[10],
        f64_: ids[11],
    });
    ctx
}

fn no_return() -> BlockCtx {
    BlockCtx { allow_break: false, allow_continue: false, expected_return: None }
}

#[test]
fn test_type_name() {
    let mut ctx = Context::new(Primitives::default());
    let struct_defid = ctx
        .table
        .define(
            ctx.table.root(),
            Definition {
                name: "Foo".to_string(),
                kind: DefKind::Struct(StructDef { fields: Vec::new(), resolved: true, typeid: TypeID(0) }),
            },
        )
        .unwrap();
    let structty = ctx.interner.intern(TypeDef::UserDef(struct_defid));
    let boolty = ctx.interner.intern(TypeDef::Bool);
    let voidty = ctx.interner.intern(TypeDef::Void);
    let i32ty = ctx.interner.intern(TypeDef::Int(32, Signedness::Signed));
    let u32ty = ctx.interner.intern(TypeDef::Int(32, Signedness::Unsigned));
    let f32ty = ctx.interner.intern(TypeDef::Float(32));
    let arrayty = ctx.interner.intern(TypeDef::Array { element: structty, size: 10 });
    let ptrty = ctx.interner.intern(TypeDef::Pointer { pointee: arrayty, mutability: false });
    let fnty = ctx.interner.intern(TypeDef::FnPointer(FnPointerType {
        params: vec![boolty, voidty, u32ty, f32ty, ptrty],
        return_type: i32ty,
    }));
    assert_eq!(ctx.name_of_type(fnty), "fn(bool, void, u32, f32, *const [10]Foo) i32");
}

#[test]
fn primitives_classify_ids() {
    let ctx = primed();
    let p = ctx.primitives;
    assert!(p.is_integer(p.u8_) && p.is_integer(p.i64_) && !p.is_integer(p.f32_));
    assert!(p.is_negatable(p.i8_) && p.is_negatable(p.f64_) && !p.is_negatable(p.u32_));
    assert!(p.is_bool(p.bool_) && !p.is_bool(p.void));
    assert!(p.is_numeric(p.f32_) && !p.is_numeric(p.bool_));
    assert!(p.is_comparable(p.bool_) && !p.is_comparable(p.void));
}

#[test]
fn coercion_drops_mutability_only() {
    let mut ctx = primed();
    let i32_ = ctx.primitives.i32_;
    let mut_ptr = ctx.interner.intern(TypeDef::Pointer { pointee: i32_, mutability: true });
    let const_ptr = ctx.interner.intern(TypeDef::Pointer { pointee: i32_, mutability: false });
    assert!(ctx.is_coercible(mut_ptr, const_ptr));
    assert!(!ctx.is_coercible(const_ptr, mut_ptr));
    assert!(ctx.is_coercible(i32_, i32_));
    assert!(!ctx.is_coercible(i32_, ctx.primitives.i64_));
    assert!(ctx.is_comparable(mut_ptr));
}

#[test]
fn type_to_id_interns_pointers_and_arrays() {
    let mut ctx = primed();
    let root = ctx.table.root();
    let ty = cleoc::parse::parse_type("[4]*const i32").unwrap();
    let id = ctx.type_to_id(root, &ty).unwrap();
    assert_eq!(ctx.name_of_type(id), "[4]*const i32");
    let again = ctx.type_to_id(root, &ty).unwrap();
    assert_eq!(id, again);
    let missing = cleoc::parse::parse_type("Nope").unwrap();
    assert!(ctx.type_to_id(root, &missing).is_err());
}

#[test]
fn debug_lists_definitions() {
    let mut ctx = primed();
    let root = ctx.table.root();
    ctx.table.define(root, Definition::var("x", ctx.primitives.i32_)).unwrap();
    assert_eq!(ctx.debug(root, false), "");
    let i32_ = ctx.primitives.i32_;
    let p = ctx.interner.intern(TypeDef::Pointer { pointee: i32_, mutability: true });
    let text = ctx.debug(root, false);
    assert_eq!(text, format!("TypeID({}) -> *i32 : {:?}\n", p.0, TypeDef::Pointer { pointee: i32_, mutability: true }));
    let all = ctx.debug(root, true);
    assert_eq!(all.lines().count(), 13);
    assert!(all.starts_with("TypeID(0) -> void : Void\n"));
}

#[test]
fn methods_are_found_by_type_and_name() {
    let mut table = MethodTable::new();
    table.insert("len", TypeID(3), DefID(7));
    table.insert_static("new", TypeID(3), DefID(8));
    assert_eq!(table.lookup("len", TypeID(3)), Some(DefID(7)));
    assert_eq!(table.lookup("len", TypeID(4)), None);
    assert_eq!(table.lookup("new", TypeID(3)), None);
    assert_eq!(table.lookup_static("new", TypeID(3)), Some(DefID(8)));
    table.insert("len", TypeID(3), DefID(9));
    assert_eq!(table.lookup("len", TypeID(3)), Some(DefID(9)));
}

#[test]
fn gather_defines_functions_and_types() {
    let mut ctx = primed();
    let root = ctx.table.root();
    let unit = parse("fn main() {\n}\ntype P = struct { x: i32 }\n").unwrap();
    gather(&unit, root, &mut ctx.table, &mut ctx.interner).unwrap();
    let f = ctx.table.lookup_local(root, "main").unwrap();
    assert!(matches!(ctx.table.get_def(f).unwrap().kind, DefKind::Function(_)));
    let p = ctx.table.lookup_local(root, "P").unwrap();
    match &ctx.table.get_def(p).unwrap().kind {
        DefKind::Struct(sd) => {
            assert_eq!(ctx.interner.get(sd.typeid), Some(&TypeDef::UserDef(p)));
        },
        other => panic!("unexpected {:?}", other),
    }
    let twice = parse("fn a() {\n}\nfn a() {\n}\n").unwrap();
    assert_eq!(gather(&twice, root, &mut ctx.table, &mut ctx.interner), Err("failed to define function: a".to_string()));
}

#[test]
fn gather_type_starts_unresolved() {
    let unit = parse("type E = enum { A, B }").unwrap();
    match &unit.decls[0] {
        cleoc::ast::Decl::Type(t) => {
            let d = gather_type(t).unwrap();
            assert_eq!(d.name, "E");
            assert!(matches!(d.kind, DefKind::Enum(ref e) if !e.resolved && e.typeid == TypeID(0)));
        },
        _ => panic!("not a type"),
    }
}

#[test]
fn values_have_primitive_types() {
    let ctx = primed();
    let p = ctx.primitives;
    let mut checker = Checker::new(ctx);
    let root = ScopeID(0);
    assert_eq!(checker.resolve_expr(root, &parse_expr("1").unwrap(), &no_return()), Ok(p.i32_));
    assert_eq!(checker.resolve_expr(root, &parse_expr("1.5").unwrap(), &no_return()), Ok(p.f32_));
    assert_eq!(checker.resolve_expr(root, &parse_expr("true").unwrap(), &no_return()), Ok(p.bool_));
    let s = checker.resolve_expr(root, &parse_expr("\"hi\"").unwrap(), &no_return()).unwrap();
    assert_eq!(checker.ctx.interner.get(s), Some(&TypeDef::Array { element: p.u8_, size: 4 }));
}

#[test]
fn binary_operations_follow_their_rules() {
    let ctx = primed();
    let p = ctx.primitives;
    let mut checker = Checker::new(ctx);
    let root = ScopeID(0);
    assert_eq!(checker.resolve_expr(root, &parse_expr("1 + 2 * 3").unwrap(), &no_return()), Ok(p.i32_));
    assert_eq!(checker.resolve_expr(root, &parse_expr("1 < 2").unwrap(), &no_return()), Ok(p.bool_));
    assert_eq!(checker.resolve_expr(root, &parse_expr("true && false").unwrap(), &no_return()), Ok(p.bool_));
    assert_eq!(
        checker.resolve_expr(root, &parse_expr("1 + true").unwrap(), &no_return()),
        Err("cannot add i32 and bool".to_string())
    );
    assert_eq!(
        checker.resolve_expr(root, &parse_expr("true == 1").unwrap(), &no_return()),
        Err("cannot compare bool and i32".to_string())
    );
    assert_eq!(
        checker.resolve_expr(root, &parse_expr("1 || 2").unwrap(), &no_return()),
        Err("expected bool, found i32 and i32".to_string())
    );
}

#[test]
fn unary_operations_follow_their_rules() {
    let ctx = primed();
    let p = ctx.primitives;
    let mut checker = Checker::new(ctx);
    let root = ScopeID(0);
    assert_eq!(checker.resolve_expr(root, &parse_expr("-1").unwrap(), &no_return()), Ok(p.i32_));
    assert_eq!(checker.resolve_expr(root, &parse_expr("!true").unwrap(), &no_return()), Ok(p.bool_));
    assert_eq!(checker.resolve_expr(root, &parse_expr("!1").unwrap(), &no_return()), Err("expected bool, found i32".to_string()));
    let r = checker.resolve_expr(root, &parse_expr("&1").unwrap(), &no_return()).unwrap();
    assert_eq!(checker.ctx.interner.get(r), Some(&TypeDef::Pointer { pointee: p.i32_, mutability: true }));
    let scope = checker.ctx.table.push(root).unwrap();
    checker.resolve_stmt(scope, &parse_stmt("var p: *i32").unwrap(), &no_return()).unwrap();
    assert_eq!(checker.resolve_expr(scope, &parse_expr("*p").unwrap(), &no_return()), Ok(p.i32_));
    assert_eq!(checker.resolve_expr(root, &parse_expr("*1").unwrap(), &no_return()), Err("cannot dereference i32".to_string()));
}

#[test]
fn locals_and_paths() {
    let ctx = primed();
    let p = ctx.primitives;
    let mut checker = Checker::new(ctx);
    let root = ScopeID(0);
    let scope = checker.ctx.table.push(root).unwrap();
    checker.resolve_stmt(scope, &parse_stmt("let x: i32 = 42").unwrap(), &no_return()).unwrap();
    assert_eq!(checker.resolve_expr(scope, &parse_expr("x").unwrap(), &no_return()), Ok(p.i32_));
    assert_eq!(
        checker.resolve_stmt(scope, &parse_stmt("let y: bool = 1").unwrap(), &no_return()),
        Err("expected bool, found i32".to_string())
    );
    assert!(checker.resolve_expr(scope, &parse_expr("nope").unwrap(), &no_return()).is_err());
    assert_eq!(checker.resolve_expr(scope, &parse_expr("x = 3").unwrap(), &no_return()), Ok(p.void));
    assert_eq!(
        checker.resolve_expr(scope, &parse_expr("1 = 3").unwrap(), &no_return()),
        Err("invalid left-hand side of assignment".to_string())
    );
}

#[test]
fn if_branches_must_agree() {
    let ctx = primed();
    let p = ctx.primitives;
    let mut checker = Checker::new(ctx);
    let root = ScopeID(0);
    assert_eq!(checker.resolve_expr(root, &parse_expr("if true { 1 } else { 2 }").unwrap(), &no_return()), Ok(p.i32_));
    assert_eq!(
        checker.resolve_expr(root, &parse_expr("if true { 1 } else { false }").unwrap(), &no_return()),
        Err("if branches have incompatible types: i32 and bool".to_string())
    );
    assert_eq!(
        checker.resolve_expr(root, &parse_expr("if 1 { 1 }").unwrap(), &no_return()),
        Err("expected bool in if condition, found i32".to_string())
    );
}

#[test]
fn statements_respect_the_block_context() {
    let ctx = primed();
    let p = ctx.primitives;
    let mut checker = Checker::new(ctx);
    let root = ScopeID(0);
    assert_eq!(checker.resolve_stmt(root, &Stmt::Break, &no_return()), Err("Not allowed Break here".to_string()));
    assert_eq!(checker.resolve_stmt(root, &Stmt::Continue, &no_return()), Err("Not allowed Continue here".to_string()));
    let looping = BlockCtx { allow_break: true, allow_continue: true, expected_return: None };
    assert_eq!(checker.resolve_stmt(root, &Stmt::Break, &looping), Ok(()));
    let returning = BlockCtx { allow_break: false, allow_continue: false, expected_return: Some(p.i32_) };
    assert_eq!(
        checker.resolve_stmt(root, &Stmt::Return(None), &returning),
        Err("expected return value of type i32".to_string())
    );
    assert_eq!(
        checker.resolve_stmt(root, &parse_stmt("return 1").unwrap(), &no_return()),
        Err("unexpected return value in void function".to_string())
    );
    assert_eq!(checker.resolve_stmt(root, &parse_stmt("return 1").unwrap(), &returning), Ok(()));
    assert_eq!(
        checker.resolve_stmt(root, &parse_stmt("return true").unwrap(), &returning),
        Err("expected return type i32, found bool".to_string())
    );
}

#[test]
fn functions_are_checked_against_their_type() {
    let mut ctx = primed();
    let root = ctx.table.root();
    let i32_ = ctx.primitives.i32_;
    let fnty = ctx.interner.intern(TypeDef::FnPointer(FnPointerType { params: vec![i32_], return_type: i32_ }));
    let defid = ctx
        .table
        .define(
            root,
            Definition {
                name: "f".to_string(),
                kind: DefKind::Function(FnSig {
                    name: "f".to_string(),
                    params: vec!["a".to_string()],
                    return_type: i32_,
                    resolved: true,
                    typeid: fnty,
                }),
            },
        )
        .unwrap();
    let mut checker = Checker::new(ctx);
    let decl = parse_fn_decl("fn f(a: i32) i32 { return a + 1 }").unwrap();
    let typed = checker.resolve_fn(root, &decl).unwrap();
    assert_eq!(typed.typeid, fnty);
    assert_eq!(typed.defid, defid);
    assert_eq!(typed.signature.params.len(), 1);
    assert_eq!(checker.resolve_expr(root, &parse_expr("f(2)").unwrap(), &no_return()), Ok(i32_));
    assert_eq!(
        checker.resolve_expr(root, &parse_expr("f(2, 3)").unwrap(), &no_return()),
        Err("expected 1 arguments, found 2".to_string())
    );
    let bad = parse_fn_decl("fn g() { }").unwrap();
    assert_eq!(checker.resolve_fn(root, &bad), Err("Function 'g' not found in symbol table".to_string()));
    let unit = parse("fn f(a: i32) i32 { return a }").unwrap();
    let checked = checker.check(root, unit).unwrap();
    assert_eq!(checked.decls.len(), 1);
}

#[test]
fn gathered_functions_are_not_yet_callable() {
    let mut ctx = primed();
    let root = ctx.table.root();
    let unit = parse("fn main() {\n}\n").unwrap();
    gather(&unit, root, &mut ctx.table, &mut ctx.interner).unwrap();
    let mut checker = Checker::new(ctx);
    assert_eq!(checker.check(root, unit), Err("Type for 'main' is not a function pointer".to_string()));
}

#[test]
fn paths_reach_enum_values_and_fields() {
    let mut ctx = primed();
    let root = ctx.table.root();
    let unit = parse("type Color = enum { Red, Green }\ntype P = struct { x: i32 }\n").unwrap();
    gather(&unit, root, &mut ctx.table, &mut ctx.interner).unwrap();
    let color = ctx.table.lookup(root, "Color").unwrap();
    let i32_ = ctx.primitives.i32_;
    let color_ty = ctx.table.get_def(color).unwrap().typeid().unwrap();
    let values = vec!["Red".to_string(), "Green".to_string()];
    ctx.table.set_def_kind(color, DefKind::Enum(cleoc::defkinds::EnumDef { resolved: true, values, typeid: color_ty }));
    let p = ctx.table.lookup(root, "P").unwrap();
    let p_ty = ctx.table.get_def(p).unwrap().typeid().unwrap();
    ctx.table.set_def_kind(p, DefKind::Struct(StructDef { fields: vec![("x".to_string(), i32_)], resolved: true, typeid: p_ty }));
    let mut checker = Checker::new(ctx);
    assert_eq!(checker.resolve_expr(root, &parse_expr("Color.Red").unwrap(), &no_return()), Ok(color_ty));
    assert!(checker.resolve_expr(root, &parse_expr("Color.Blue").unwrap(), &no_return()).is_err());
    assert_eq!(checker.resolve_expr(root, &parse_expr("P { .x = 1 }").unwrap(), &no_return()), Ok(p_ty));
    assert_eq!(
        checker.resolve_expr(root, &parse_expr("P { }").unwrap(), &no_return()),
        Err("missing struct fields".to_string())
    );
    assert_eq!(checker.resolve_expr(root, &parse_expr("P { .x = 1 }.x").unwrap(), &no_return()), Ok(i32_));
    assert_eq!(checker.resolve_field_or_method(p_ty, "y"), Err("no field \"y\" on type P".to_string()));
    let path = match parse_expr("Color").unwrap() {
        Expr::Path(p) => p,
        _ => panic!("not a path"),
    };
    assert!(matches!(checker.resolve_pathexpr(root, &path), Ok(Resolved::Type(t, _)) if t == color_ty));
    assert!(checker.is_lvalue(&parse_expr("a.b").unwrap()));
    assert!(!checker.is_lvalue(&parse_expr("a()").unwrap()));
}

#[test]
fn code_generation_prints_c_declarations() {
    let mut ctx = primed();
    let root = ctx.table.root();
    let i32_ = ctx.primitives.i32_;
    let u8_ = ctx.primitives.u8_;
    let cptr = ctx.interner.intern(TypeDef::Pointer { pointee: i32_, mutability: false });
    let arr = ctx.interner.intern(TypeDef::Array { element: u8_, size: 16 });
    let fnty = ctx.interner.intern(TypeDef::FnPointer(FnPointerType { params: vec![i32_, cptr], return_type: i32_ }));
    let p = ctx.table.define(root, Definition { name: "P".to_string(), kind: DefKind::Struct(StructDef { fields: vec![], resolved: true, typeid: TypeID(0) }) }).unwrap();
    let p_ty = ctx.interner.intern(TypeDef::UserDef(p));
    ctx.table.set_def_kind(p, DefKind::Struct(StructDef { fields: vec![("x".to_string(), i32_), ("buf".to_string(), arr)], resolved: true, typeid: p_ty }));
    let f = ctx
        .table
        .define(
            root,
            Definition {
                name: "f".to_string(),
                kind: DefKind::Function(FnSig {
                    name: "f".to_string(),
                    params: vec!["a".to_string(), "b".to_string()],
                    return_type: i32_,
                    resolved: true,
                    typeid: fnty,
                }),
            },
        )
        .unwrap();
    let codegen = Codegen::new(&ctx);
    let mut out = String::new();
    codegen.emit_type(&mut out, cptr, "p").unwrap();
    assert_eq!(out, "i32 const * p");
    let mut out = String::new();
    codegen.emit_type(&mut out, arr, "buf").unwrap();
    assert_eq!(out, "u8 buf[16]");
    let mut out = String::new();
    codegen.emit_type(&mut out, p_ty, "v").unwrap();
    assert_eq!(out, "P v");
    assert!(codegen.emit_type(&mut String::new(), TypeID(999), "v").is_err());
    let mut out = String::new();
    codegen.emit_fn_decl(&mut out, root).unwrap();
    assert_eq!(out, "i32 f(i32 ai32 const * b);\n");
    let mut out = String::new();
    codegen.emit_header(&mut out, root).unwrap();
    assert_eq!(
        out,
        "typedef struct P P;\n\nstruct P {\n  i32 x\n  u8 buf[16]\n};\n\n\ni32 f(i32 ai32 const * b);\n\n"
    );
    let fnir = FnIR { name: "f".to_string(), defid: f, scope: root, typeid: fnty, body: vec![] };
    let mut out = String::new();
    codegen.emit_fn_def(&mut out, root, &fnir).unwrap();
    assert_eq!(out, "i32 f(i32 ai32 const * b)");
}

#[test]
fn bodies_are_lowered_and_printed() {
    let ctx = primed();
    let i32_ = ctx.primitives.i32_;
    let decl = TypedFnDecl {
        signature: TypedFnSignature { name: Ident::new("main"), params: vec![] },
        defid: DefID(0),
        block: Block {
            statements: vec![
                Stmt::Expr(Expr::Value(ExprValue::Integer("7".to_string()))),
                Stmt::Expr(Expr::Value(ExprValue::Bool(true))),
            ],
        },
        scopeid: ScopeID(1),
        typeid: TypeID(3),
    };
    let unit = TypedUnit { decls: vec![decl] };
    let ir = lower(ScopeID(0), &unit).unwrap();
    assert_eq!(ir.fns().len(), 1);
    let f = &ir.fns()[0];
    assert_eq!(f.name, "main");
    assert_eq!(f.body.len(), 2);
    let mut frame = FrameLowerer::new(ScopeID(0), &unit.decls[0], 0);
    assert_eq!(frame.make_temp(i32_), "tmp0");
    assert_eq!(frame.make_temp(i32_), "tmp1");
    let block = frame.lower_block().unwrap();
    assert_eq!(block.body.len(), 4);
    let body_ir = FnIR {
        name: "g".to_string(),
        defid: DefID(0),
        scope: ScopeID(0),
        typeid: TypeID(0),
        body: vec![
            StmtIR::Local("t".to_string(), i32_),
            StmtIR::Assign("t".to_string(), ExprIR::Value("1".to_string())),
            StmtIR::Expr(ExprIR::Value("t".to_string())),
        ],
    };
    let mut emitter = BodyEmitter::new(&ctx, &body_ir);
    let mut out = String::new();
    emitter.emit(&mut out, ScopeID(0)).unwrap();
    assert_eq!(out, "  i32 t;\n  t = 1;\n  t;\n");
}

#[test]
fn compile_prints_the_declarations_of_a_unit() {
    assert_eq!(compile("type P = struct { x: i32 }").unwrap(), "typedef struct P P;\n\nstruct P {\n};\n\n\n\n");
    match compile("fn main() {\n}\n") {
        Err(CompileError::Check(e)) => assert_eq!(e, "Type for 'main' is not a function pointer"),
        other => panic!("unexpected {:?}", other),
    }
    assert!(matches!(compile("fn main() { loop { } }"), Err(CompileError::Unsupported)));
    assert!(matches!(compile("fn ("), Err(CompileError::Parse(_))));
    assert!(matches!(compile("fn a() {\n}\nfn a() {\n}\n"), Err(CompileError::Resolve(_))));
}

#[test]
fn load_primitives_defines_every_primitive() {
    let mut ctx = Context::new(Primitives::default());
    cleoc::context::load_primitives(&mut ctx);
    let root = ctx.table.root();
    for name in ["void", "bool", "u8", "u16", "u32", "u64", "i8", "i16", "i32", "i64", "f32", "f64"] {
        let d = ctx.table.lookup_local(root, name).unwrap();
        let t = ctx.table.get_def(d).unwrap().typeid().unwrap();
        assert_eq!(ctx.name_of_type(t), name);
    }
    assert_eq!(ctx.name_of_type(ctx.primitives.i32_), "i32");
    assert_eq!(ctx.name_of_type(ctx.primitives.f64_), "f64");
}

#[test]
fn errors_name_the_failing_step() {
    let mut ctx = primed();
    let root = ctx.table.root();
    let unit = parse("type Color = enum { Red, Green }\ntype P = struct { x: i32 }\n").unwrap();
    gather(&unit, root, &mut ctx.table, &mut ctx.interner).unwrap();
    let color = ctx.table.lookup(root, "Color").unwrap();
    let i32_ = ctx.primitives.i32_;
    let void = ctx.primitives.void;
    let color_ty = ctx.table.get_def(color).unwrap().typeid().unwrap();
    let values = vec!["Red".to_string(), "Green".to_string()];
    ctx.table.set_def_kind(color, DefKind::Enum(cleoc::defkinds::EnumDef { resolved: true, values, typeid: color_ty }));
    let p = ctx.table.lookup(root, "P").unwrap();
    let p_ty = ctx.table.get_def(p).unwrap().typeid().unwrap();
    ctx.table.set_def_kind(p, DefKind::Struct(StructDef { fields: vec![("x".to_string(), i32_)], resolved: true, typeid: p_ty }));
    let mut checker = Checker::new(ctx);
    assert_eq!(checker.resolve_expr(root, &parse_expr("if true { }").unwrap(), &no_return()), Ok(void));
    assert_eq!(
        checker.resolve_expr(root, &parse_expr("if true { 1 }").unwrap(), &no_return()),
        Err("if branches have incompatible types: i32 and void".to_string())
    );
    let blue = match parse_expr("Color.Blue").unwrap() {
        Expr::Path(p) => p,
        _ => panic!("not a path"),
    };
    assert_eq!(checker.resolve_pathexpr(root, &blue), Err("enum 'Color' has no value 'Blue'".to_string()));
    let missing = match parse_expr("zz").unwrap() {
        Expr::Path(p) => p,
        _ => panic!("not a path"),
    };
    assert_eq!(checker.resolve_pathexpr(root, &missing), Err("'zz' not defined".to_string()));
    assert_eq!(
        checker.resolve_expr(root, &parse_expr("P { .y = 1 }").unwrap(), &no_return()),
        Err("P does not have field 'y'".to_string())
    );
    assert_eq!(
        checker.resolve_expr(root, &parse_expr("P { .x = true }").unwrap(), &no_return()),
        Err("expected i32, found bool".to_string())
    );
    assert_eq!(
        checker.resolve_next(Resolved::Type(p_ty, p), "x"),
        Err("cannot access 'x' on type 'P', use an instance".to_string())
    );
}

#[test]
fn type_errors_name_the_missing_part() {
    let mut ctx = primed();
    let root = ctx.table.root();
    let missing = cleoc::parse::parse_type("[2]*Nope").unwrap();
    assert_eq!(
        ctx.type_to_id(root, &missing),
        Err("Type 'Nope' not found in symbol table at scope ScopeID(0)".to_string())
    );
    let through_type = cleoc::parse::parse_type("i32.x").unwrap();
    let err = ctx.type_to_id(root, &through_type).unwrap_err();
    assert!(err.starts_with("Expected module in path, found "), "{}", err);
    let var = Definition::var("v", ctx.primitives.i32_);
    ctx.table.define(root, var).unwrap();
    let untyped = cleoc::parse::parse_type("v").unwrap();
    assert_eq!(ctx.type_to_id(root, &untyped), Err("Definition for 'v' does not have a type".to_string()));
}

#[test]
fn each_rule_reports_its_own_message() {
    let mut ctx = primed();
    let root = ctx.table.root();
    let i32_ = ctx.primitives.i32_;
    let fnty = ctx.interner.intern(TypeDef::FnPointer(FnPointerType { params: vec![i32_], return_type: i32_ }));
    ctx.table
        .define(
            root,
            Definition {
                name: "f".to_string(),
                kind: DefKind::Function(FnSig {
                    name: "f".to_string(),
                    params: vec!["a".to_string()],
                    return_type: i32_,
                    resolved: true,
                    typeid: fnty,
                }),
            },
        )
        .unwrap();
    let mut checker = Checker::new(ctx);
    let scope = checker.ctx.table.push(root).unwrap();
    assert_eq!(checker.resolve_stmt(scope, &parse_stmt("var x: i32 = 1").unwrap(), &no_return()), Ok(()));
    assert_eq!(
        checker.resolve_stmt(scope, &parse_stmt("var x: i32 = 2").unwrap(), &no_return()),
        Err("symbol already defined: x".to_string())
    );
    assert_eq!(
        checker.resolve_stmt(scope, &parse_stmt("var y: i32 = true").unwrap(), &no_return()),
        Err("expected i32, found bool".to_string())
    );
    assert_eq!(
        checker.resolve_expr(scope, &parse_expr("x = false").unwrap(), &no_return()),
        Err("expected i32, found bool".to_string())
    );
    assert_eq!(checker.resolve_expr(scope, &parse_expr("-true").unwrap(), &no_return()), Err("cannot negate bool".to_string()));
    assert_eq!(checker.resolve_expr(scope, &parse_expr("x(1)").unwrap(), &no_return()), Err("type i32 is not callable".to_string()));
    assert_eq!(
        checker.resolve_expr(scope, &parse_expr("f(true)").unwrap(), &no_return()),
        Err("expected i32, found bool".to_string())
    );
    assert_eq!(checker.resolve_expr(scope, &parse_expr("x { }").unwrap(), &no_return()), Err("not a struct".to_string()));
    assert_eq!(
        checker.resolve_fn(root, &parse_fn_decl("fn f() i32 { }").unwrap()),
        Err("Function 'f' expects 1 parameters, but 0 were provided".to_string())
    );
}

#[test]
fn type_to_id_on_a_fresh_context() {
    let foo = || Type::Path(PathExpr { segments: vec![Segment { name: Ident::new("Foo"), generics: None }] });
    let mut ctx = Context::new(Primitives::default());
    let root = ctx.table.root();
    let foo_def = Definition {
        name: "Foo".to_string(),
        kind: DefKind::Struct(StructDef { fields: vec![], resolved: true, typeid: TypeID(7) }),
    };
    ctx.table.define(root, foo_def).unwrap();
    let child = ctx.table.push(root).unwrap();
    assert_eq!(ctx.type_to_id(child, &Type::ConstPtr(Box::new(foo()))), Ok(TypeID(0)));
    assert_eq!(ctx.interner.get(TypeID(0)), Some(&TypeDef::Pointer { pointee: TypeID(7), mutability: false }));
    assert_eq!(ctx.type_to_id(child, &Type::Ptr(Box::new(foo()))), Ok(TypeID(1)));
    assert_eq!(ctx.interner.get(TypeID(1)), Some(&TypeDef::Pointer { pointee: TypeID(7), mutability: true }));
}

#[test]
fn gather_stops_at_the_first_name_taken() {
    let mut ctx = primed();
    let root = ctx.table.root();
    let before = ctx.table.lookup_local(root, "i32");
    let unit = parse("fn a() {\n}\nfn b() {\n}\nfn i32() {\n}\nfn c() {\n}\n").unwrap();
    assert_eq!(gather(&unit, root, &mut ctx.table, &mut ctx.interner), Err("failed to define function: i32".to_string()));
    assert!(ctx.table.lookup_local(root, "a").is_some());
    assert!(ctx.table.lookup_local(root, "b").is_some());
    assert!(ctx.table.lookup_local(root, "c").is_none());
    assert_eq!(ctx.table.lookup_local(root, "i32"), before);
}

#[test]
fn emit_type_writes_nothing_on_error() {
    let mut ctx = Context::new(Primitives::default());
    let b = ctx.interner.intern(TypeDef::Bool);
    let p = ctx.interner.intern(TypeDef::Pointer { pointee: b, mutability: false });
    let a = ctx.interner.intern(TypeDef::Array { element: b, size: 4 });
    let codegen = Codegen::new(&ctx);
    let mut buf = String::new();
    assert!(codegen.emit_type(&mut buf, p, "q").is_ok());
    assert_eq!(buf, "bool const * q");
    let mut buf = String::new();
    assert!(codegen.emit_type(&mut buf, a, "arr").is_ok());
    assert_eq!(buf, "bool arr[4]");
    let mut buf = String::from("kept");
    assert!(codegen.emit_type(&mut buf, TypeID(9), "x").is_err());
    assert_eq!(buf, "kept");
}

#[test]
fn arithmetic_is_lowered_and_printed() {
    let ctx = primed();
    let stmt = parse_stmt("1 + 2 * 3").unwrap();
    let decl = TypedFnDecl {
        signature: TypedFnSignature { name: Ident::new("f"), params: vec![] },
        defid: DefID(0),
        block: Block { statements: vec![stmt] },
        scopeid: ScopeID(1),
        typeid: TypeID(3),
    };
    let f = FrameLowerer::new(ScopeID(0), &decl, 0).lower_fn().unwrap();
    assert_eq!(f.body.len(), 1);
    match &f.body[0] {
        StmtIR::Expr(ExprIR::BinaryOp { left, op, right }) => {
            assert_eq!(op, "+");
            assert!(matches!(**left, ExprIR::Value(ref v) if v == "1"));
            assert!(matches!(**right, ExprIR::BinaryOp { ref op, .. } if op == "*"));
        },
        other => panic!("unexpected {:?}", other),
    }
    let mut emitter = BodyEmitter::new(&ctx, &f);
    let mut out = String::new();
    emitter.emit(&mut out, ScopeID(0)).unwrap();
    assert_eq!(out, "  (1 + (2 * 3));\n");
}

#[test]
fn gather_gives_each_type_its_kind() {
    let mut ctx = primed();
    let root = ctx.table.root();
    let unit = parse("type S = struct { x: i32 }\ntype E = enum { A, B }\ntype A = i32\n").unwrap();
    gather(&unit, root, &mut ctx.table, &mut ctx.interner).unwrap();
    let s = ctx.table.lookup_local(root, "S").unwrap();
    assert!(matches!(ctx.table.get_def(s).unwrap().kind, DefKind::Struct(_)));
    let e = ctx.table.lookup_local(root, "E").unwrap();
    assert!(matches!(ctx.table.get_def(e).unwrap().kind, DefKind::Enum(_)));
    let a = ctx.table.lookup_local(root, "A").unwrap();
    assert!(matches!(ctx.table.get_def(a).unwrap().kind, DefKind::TypeAlias(_)));
}
