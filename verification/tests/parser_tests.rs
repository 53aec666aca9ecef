use cleoc::ast::{
    AssignKind, Binding, Block, Decl, Expr, ExprAccess, ExprAssign, ExprCall, ExprInit,
    ExprInitField, ExprValue, FnDecl, FnParam, FnSignature, GenericParam, GenericParams, Ident,
    Local, Operator, PathExpr, Segment, Stmt, StructField, TraitMethod, Type, TypeBody, TypeDecl,
    EnumValue,
};
use cleoc::lexer::lex;
use cleoc::parse::{
    parse, parse_expr, parse_fn_decl, parse_generic_params, parse_path, parse_stmt, parse_type,
    parse_type_decl, Kind,
};
use cleoc::token::TokenKind;
use cleoc::tokenstream::{StreamError, TokenStream};

fn seg(name: &str) -> Segment {
    Segment { name: Ident::new(name), generics: None }
}

fn path_type(name: &str) -> Type {
    Type::Path(PathExpr { segments: vec![seg(name)] })
}

fn path_expr(name: &str) -> Expr {
    Expr::Path(PathExpr { segments: vec![seg(name)] })
}

fn int_lit(s: &str) -> Expr {
    Expr::Value(ExprValue::Integer(s.to_string()))
}

fn bin(l: Expr, op: Operator, r: Expr) -> Expr {
    Expr::BinaryOp { left: Box::new(l), op, right: Box::new(r) }
}

#[test]
fn expr_it_works() {
    let ast = parse_expr("(Nehuen).chupar[Pito]()").unwrap();
    println!("From: (Nehuen).chupar[Pito]()");
    println!("AST: {:?}", ast);
}

#[test]
fn expr_test_asign() {
    let result = parse_expr("a = 1 + 2");
    let expected = Expr::Assign(ExprAssign {
        left: Box::new(path_expr("a")),
        kind: AssignKind::Equal,
        right: Box::new(bin(int_lit("1"), Operator::Add, int_lit("2"))),
    });
    assert_eq!(result.unwrap(), expected);
}

#[test]
fn expr_test_struct_init() {
    let result = parse_expr("Foo { .a = 42, .b = true }");
    let expected = Expr::Init(ExprInit {
        path: PathExpr { segments: vec![seg("Foo")] },
        fields: vec![
            ExprInitField { name: Ident::new("a"), value: Box::new(int_lit("42")) },
            ExprInitField { name: Ident::new("b"), value: Box::new(Expr::Value(ExprValue::Bool(true))) },
        ],
    });
    assert_eq!(result.unwrap(), expected);
}

#[test]
fn expr_test_access_call() {
    let ast = parse_expr("obj().method(arg1, arg2)").unwrap();
    let expected = Expr::Call(ExprCall {
        expr: Box::new(Expr::Access(ExprAccess {
            expr: Box::new(Expr::Call(ExprCall { expr: Box::new(path_expr("obj")), args: vec![] })),
            segment: seg("method"),
        })),
        args: vec![path_expr("arg1"), path_expr("arg2")],
    });
    assert_eq!(ast, expected);
}

#[test]
fn expr_test_addition() {
    let inputs = ["1 + 2", "3 - 4 + 5", "6 + 7 - 8 + 9", "a.b + c.d"];
    let expected = [
        bin(int_lit("1"), Operator::Add, int_lit("2")),
        bin(bin(int_lit("3"), Operator::Sub, int_lit("4")), Operator::Add, int_lit("5")),
        bin(
            bin(bin(int_lit("6"), Operator::Add, int_lit("7")), Operator::Sub, int_lit("8")),
            Operator::Add,
            int_lit("9"),
        ),
        bin(
            Expr::Path(PathExpr { segments: vec![seg("a"), seg("b")] }),
            Operator::Add,
            Expr::Path(PathExpr { segments: vec![seg("c"), seg("d")] }),
        ),
    ];
    for (i, input) in inputs.iter().enumerate() {
        let ast = parse_expr(input).unwrap();
        assert_eq!(ast, expected[i]);
    }
}

#[test]
fn expr_test_term() {
    let inputs = ["123i32 * 13", "45.67 * 2 * \"Test\"", "523 / 3.14 * true"];
    let expected = [
        bin(int_lit("123i32"), Operator::Mul, int_lit("13")),
        bin(
            bin(Expr::Value(ExprValue::Float("45.67".to_string())), Operator::Mul, int_lit("2")),
            Operator::Mul,
            Expr::Value(ExprValue::String("\"Test\"".to_string())),
        ),
        bin(
            bin(int_lit("523"), Operator::Div, Expr::Value(ExprValue::Float("3.14".to_string()))),
            Operator::Mul,
            Expr::Value(ExprValue::Bool(true)),
        ),
    ];
    for (i, input) in inputs.iter().enumerate() {
        let ast = parse_expr(input).unwrap();
        assert_eq!(ast, expected[i]);
    }
}

#[test]
fn expr_test_values() {
    let inputs = ["123", "45.67", "\"Hello, World!\"", "true", "false", "(1)"];
    let expected = [
        int_lit("123"),
        Expr::Value(ExprValue::Float("45.67".to_string())),
        Expr::Value(ExprValue::String("\"Hello, World!\"".to_string())),
        Expr::Value(ExprValue::Bool(true)),
        Expr::Value(ExprValue::Bool(false)),
        int_lit("1"),
    ];
    for (i, input) in inputs.iter().enumerate() {
        let ast = parse_expr(input).unwrap();
        assert_eq!(ast, expected[i]);
    }
}

#[test]
fn test_sub_left_associative() {
    let ast = parse_expr("10 - 3 - 2").unwrap();
    let expected = bin(bin(int_lit("10"), Operator::Sub, int_lit("3")), Operator::Sub, int_lit("2"));
    assert_eq!(ast, expected);
}

#[test]
fn test_div_left_associative() {
    let ast = parse_expr("12 / 3 / 2").unwrap();
    let expected = bin(bin(int_lit("12"), Operator::Div, int_lit("3")), Operator::Div, int_lit("2"));
    assert_eq!(ast, expected);
}

#[test]
fn test_mixed_add_sub_left_associative() {
    let ast = parse_expr("6 - 2 + 1").unwrap();
    let expected = bin(bin(int_lit("6"), Operator::Sub, int_lit("2")), Operator::Add, int_lit("1"));
    assert_eq!(ast, expected);
}

#[test]
fn fn_decl_test_fn_decl_parser() {
    let fn_decl = parse_fn_decl("fn foo[T: int, U](x: int, y: U) int { }").unwrap();
    assert_eq!(
        fn_decl,
        FnDecl {
            signature: FnSignature {
                name: Ident { name: "foo".to_string() },
                generics: Some(GenericParams(vec![
                    GenericParam { name: Ident { name: "T".to_string() }, bound: Some(path_type("int")) },
                    GenericParam { name: Ident { name: "U".to_string() }, bound: None },
                ])),
                params: vec![
                    FnParam { name: Ident { name: "x".to_string() }, ty: path_type("int") },
                    FnParam { name: Ident { name: "y".to_string() }, ty: path_type("U") },
                ],
                return_type: Some(path_type("int")),
            },
            block: Block { statements: vec![] },
        }
    );
}

#[test]
fn test_generic_params() {
    let result = parse_generic_params("[T, U: *const i32, V]").unwrap();
    let expected = GenericParams(vec![
        GenericParam { name: Ident::new("T"), bound: None },
        GenericParam { name: Ident::new("U"), bound: Some(Type::ConstPtr(Box::new(path_type("i32")))) },
        GenericParam { name: Ident::new("V"), bound: None },
    ]);
    assert_eq!(result, expected);
}

#[test]
fn test_parser() {
    let source = r#"fn foo[T]() {
    a
    print("Hello, World")
}"#;
    let result = parse(source);
    assert!(result.is_ok());
}

#[test]
fn test_self_path_in_fn() {
    let source = "fn draw(self: *Shape) { var x = self.a }";
    let result = parse(source);
    assert!(result.is_ok());
}

#[test]
fn path_test_path_parser() {
    let res: PathExpr = parse_path("module.Type[i32].method[A.B, C]").unwrap();
    let PathExpr { segments } = res;
    assert_eq!(segments.len(), 3);
    assert_eq!(segments[0].name.name, "module".to_string());
    assert_eq!(segments[0].generics, None);
    assert_eq!(segments[1].name.name, "Type".to_string());
    assert!(segments[1].generics.is_some());
    let generics = segments[1].generics.as_ref().unwrap();
    assert_eq!(generics.len(), 1);
    assert_eq!(generics[0], path_type("i32"));
    assert_eq!(segments[2].name.name, "method".to_string());
    assert!(segments[2].generics.is_some());
    let generics = segments[2].generics.as_ref().unwrap();
    assert_eq!(generics.len(), 2);
}

#[test]
fn test_enum() {
    let source = "type Color = enum {\n    Red,\n    Green,\n}";
    let result = parse_type_decl(source).unwrap();
    assert_eq!(
        result,
        TypeDecl {
            name: Ident::new("Color"),
            generics: None,
            body: TypeBody::Enum(vec![
                EnumValue { name: Ident::new("Red") },
                EnumValue { name: Ident::new("Green") },
            ]),
        }
    );
}

#[test]
fn test_trait() {
    let source = "type Drawable = trait { \n    fn draw()\n    fn size() i32\n}";
    let result = parse_type_decl(source).unwrap();
    assert_eq!(
        result,
        TypeDecl {
            name: Ident::new("Drawable"),
            generics: None,
            body: TypeBody::Trait(vec![
                TraitMethod {
                    signature: FnSignature {
                        name: Ident::new("draw"),
                        generics: None,
                        params: vec![],
                        return_type: None,
                    },
                },
                TraitMethod {
                    signature: FnSignature {
                        name: Ident::new("size"),
                        generics: None,
                        params: vec![],
                        return_type: Some(path_type("i32")),
                    },
                },
            ]),
        }
    );
}

#[test]
fn test_alias() {
    let result = parse_type_decl("type Alias = Point[Int]").unwrap();
    assert_eq!(
        result,
        TypeDecl {
            name: Ident::new("Alias"),
            generics: None,
            body: TypeBody::Alias(Type::Path(PathExpr {
                segments: vec![Segment { name: Ident::new("Point"), generics: Some(vec![path_type("Int")]) }],
            })),
        }
    );
}

#[test]
fn test_struct() {
    let source = "type Point[T] = struct {\n    x: Int,\n    y: Int,\n}";
    let result = parse_type_decl(source);
    assert!(result.is_ok());
    assert_eq!(
        result.unwrap(),
        TypeDecl {
            name: Ident::new("Point"),
            generics: Some(GenericParams(vec![GenericParam { name: Ident::new("T"), bound: None }])),
            body: TypeBody::Struct(vec![
                StructField { name: Ident::new("x"), field_type: path_type("Int") },
                StructField { name: Ident::new("y"), field_type: path_type("Int") },
            ]),
        }
    );
}

#[test]
fn test_type() {
    let test = parse_type("[1][5]*const A.B[*u8, i32]").unwrap();
    assert_eq!(
        test,
        Type::Array(
            1,
            Box::new(Type::Array(
                5,
                Box::new(Type::ConstPtr(Box::new(Type::Path(PathExpr {
                    segments: vec![
                        seg("A"),
                        Segment {
                            name: Ident::new("B"),
                            generics: Some(vec![Type::Ptr(Box::new(path_type("u8"))), path_type("i32")]),
                        },
                    ],
                })))),
            )),
        )
    );
}

#[test]
fn test_local_decl() {
    let result = parse_stmt("let x: i32 = 42").unwrap();
    assert_eq!(
        result,
        Stmt::Local(Local {
            binding: Binding::Let,
            name: Ident::new("x"),
            var_type: Some(path_type("i32")),
            initializer: Some(Box::new(int_lit("42"))),
        })
    );
}

#[test]
fn test_lex_simple() {
    let source = "let x =  Foo { .a = 10 }\nvar print(x)";
    let tokens = lex(source).unwrap();
    for tok in &tokens {
        println!("{:?}", tok.kind);
    }
    let kinds: Vec<TokenKind> = tokens.iter().map(|t| t.kind).collect();
    assert_eq!(
        kinds,
        vec![
            TokenKind::Let,
            TokenKind::Ident,
            TokenKind::Equal,
            TokenKind::Ident,
            TokenKind::LeftBrace,
            TokenKind::Dot,
            TokenKind::Ident,
            TokenKind::Equal,
            TokenKind::Integer,
            TokenKind::RightBrace,
            TokenKind::Semicolon,
            TokenKind::Var,
            TokenKind::Ident,
            TokenKind::LeftParen,
            TokenKind::Ident,
            TokenKind::RightParen,
        ]
    );
}

#[test]
fn unit_with_every_kind_of_declaration() {
    let source = "import std.io\npub type P = struct { x: i32 }\nfn main() i32 {\n    return 0\n}\n";
    let unit = parse(source).unwrap();
    assert_eq!(unit.decls.len(), 3);
    assert!(matches!(unit.decls[0], Decl::Import(_)));
    assert!(matches!(unit.decls[1], Decl::Pub(_)));
    assert!(matches!(unit.decls[2], Decl::Fn(_)));
}

#[test]
fn unit_reports_where_it_stopped() {
    match parse("fn main() { } 42") {
        Err(Kind::ParseError(errs)) => {
            assert_eq!(errs.len(), 1);
            assert_eq!(errs[0].found, Some(TokenKind::Integer));
            assert_eq!(errs[0].span.start, 14);
        },
        other => panic!("unexpected {:?}", other),
    }
}

#[test]
fn expr_with_leftover_tokens_is_an_error() {
    assert!(matches!(parse_expr("1 2"), Err(Kind::ParseError(_))));
}

#[test]
fn lexer_error_is_reported() {
    assert!(matches!(parse("fn main() {\n$ }"), Err(Kind::LexError(_))));
    assert!(matches!(parse("fn main() { $ }"), Err(Kind::ParseError(_))));
}

#[test]
fn self_param_comes_first() {
    let f = parse_fn_decl("fn area(self: *Shape, k: i32) i32 { }").unwrap();
    assert_eq!(f.signature.params.len(), 2);
    assert_eq!(f.signature.params[0].name, Ident::new("self"));
    assert!(parse_fn_decl("fn area(k: i32, self: *Shape) { }").is_err());
}

#[test]
fn parser_it_works() {
    let Ok(ast) = parse("fn hola(a: b, c: d) kkck { 123 }") else {
        panic!("Parsing failed");
    };
    println!("AST: {:?}", ast);
}

#[test]
fn token_stream_expects_kinds_in_order() {
    let mut ts = TokenStream::from_source("fn main").unwrap();
    assert!(ts.check(TokenKind::Fn));
    let t = ts.expect(TokenKind::Fn).unwrap();
    assert_eq!(t.kind, TokenKind::Fn);
    match ts.expect(TokenKind::LeftParen) {
        Err(StreamError::UnexpectedToken { expected, found }) => {
            assert_eq!(expected, Some(TokenKind::LeftParen));
            assert_eq!(found.kind, TokenKind::Ident);
        }
        other => panic!("unexpected {:?}", other),
    }
    let mut empty = TokenStream::new(Vec::new());
    assert!(empty.is_eof());
    assert!(matches!(
        empty.expect(TokenKind::Fn),
        Err(StreamError::UnexpectedEOF { expected: Some(TokenKind::Fn) })
    ));
}

#[test]
fn spans_are_byte_offsets() {
    let tokens = lex("\"é\" x").unwrap();
    assert_eq!(tokens.len(), 2);
    assert_eq!((tokens[0].span.start, tokens[0].span.end), (0, 4));
    assert_eq!((tokens[1].span.start, tokens[1].span.end), (5, 6));
    let ended = lex("\"é\"\n").unwrap();
    assert_eq!(ended.len(), 3);
    assert_eq!(ended[1].kind, TokenKind::Semicolon);
    assert_eq!((ended[1].span.start, ended[1].span.end), (4, 5));
    assert_eq!(ended[2].kind, TokenKind::EOF);
    assert_eq!((ended[2].span.start, ended[2].span.end), (5, 5));
}
