//! Parsing declarations and whole units.
//!
//! ```text
//! unit           := decl* [end-marker]
//! decl           := "pub" item | item
//! item           := (type_decl | fn_decl | import_decl) [";"]
//! fn_decl        := "fn" signature block
//! signature      := ident [generic_params] params [type]
//! generic_params := "[" [generic_param ("," generic_param)* [","]] "]"
//! generic_param  := ident [":" type]
//! params         := "(" (self_param ["," [param ("," param)* [","]]]
//!                      | [param ("," param)* [","]]) ")"
//! self_param     := "self" ":" type
//! param          := ident ":" type
//! type_decl      := "type" ident [generic_params] "=" type_body
//! type_body      := "struct" "{" [field (sep field)* [sep]] "}"
//!                 | "trait" "{" [method (sep method)* [sep]] "}"
//!                 | type
//!                 | "enum" "{" [ident (sep ident)* [sep]] "}"
//! field          := ident ":" type
//! method         := "fn" signature
//! sep            := "," | ";"
//! import_decl    := "import" ident ("." ident)* [";"]
//! ```
use vstd::prelude::*;

use crate::ast::{
    decl_model, decls_model, enum_values_model, fn_decl_model, generics_model, idents_model,
    methods_model, opt_type_model, params_model, signature_model, struct_fields_model,
    type_body_model, type_decl_model, type_model, Decl, DeclModel, EnumValue, FnDecl, FnDeclModel,
    FnParam, FnSignature, GenericModel, GenericParam, GenericParams, Ident, ImportDecl,
    SignatureModel, StructField, TraitMethod, Type, TypeBody, TypeBodyModel, TypeDecl,
    TypeDeclModel, TypeModel, Unit,
};
use crate::parse_expr::{parse_block_at, spec_block};
use crate::parse_type::{at, is_at, parse_type_at, spec_type};
use crate::token::{tokens_model, Token, TokenKind, TokenModel};

verus! {

broadcast use {vstd::seq::group_seq_axioms, vstd::std_specs::vec::group_vec_axioms};

// ----- lists -----
/// The items after the first of a list whose items `item` parses and whose
/// separators `sep` recognizes, from `p` on, appended to `acc`. A separator
/// that no item follows is taken as a trailing separator when `trailing`
/// holds and left alone otherwise.
pub open spec fn list_rest<M>(
    t: Seq<TokenModel>,
    p: int,
    acc: Seq<M>,
    item: spec_fn(int) -> Option<(M, int)>,
    sep: spec_fn(int) -> bool,
    trailing: bool,
) -> (Seq<M>, int)
    decreases t.len() - p,
{
    if 0 <= p < t.len() && sep(p) {
        match item(p + 1) {
            Some((x, q)) => if p < q <= t.len() {
                list_rest(t, q, acc.push(x), item, sep, trailing)
            } else {
                (acc, p)
            },
            None => if trailing {
                (acc, p + 1)
            } else {
                (acc, p)
            },
        }
    } else {
        (acc, p)
    }
}

/// A possibly empty separated list at `p`.
pub open spec fn list<M>(
    t: Seq<TokenModel>,
    p: int,
    item: spec_fn(int) -> Option<(M, int)>,
    sep: spec_fn(int) -> bool,
    trailing: bool,
) -> (Seq<M>, int) {
    match item(p) {
        Some((x, q)) => if p < q <= t.len() {
            list_rest(t, q, seq![x], item, sep, trailing)
        } else {
            (seq![], p)
        },
        None => (seq![], p),
    }
}

/// Whether the token at `p` separates members of a type body.
pub open spec fn is_member_sep(t: Seq<TokenModel>, p: int) -> bool {
    is_at(t, p, TokenKind::Comma) || is_at(t, p, TokenKind::Semicolon)
}

// ----- generic parameters -----
pub open spec fn spec_generic_param(t: Seq<TokenModel>, p: int) -> Option<(GenericModel, int)> {
    if 0 <= p < t.len() && is_at(t, p, TokenKind::Ident) {
        if is_at(t, p + 1, TokenKind::Colon) && spec_type(t, p + 2) is Some {
            let (ty, q) = spec_type(t, p + 2).unwrap();
            Some((GenericModel { name: t[p].lexeme, bound: Some(ty) }, q))
        } else {
            Some((GenericModel { name: t[p].lexeme, bound: None }, p + 1))
        }
    } else {
        None
    }
}

pub open spec fn generic_param_fn(t: Seq<TokenModel>) -> spec_fn(int) -> Option<(GenericModel, int)> {
    |q: int| spec_generic_param(t, q)
}

pub open spec fn comma_fn(t: Seq<TokenModel>) -> spec_fn(int) -> bool {
    |q: int| is_at(t, q, TokenKind::Comma)
}

pub open spec fn spec_generic_params(t: Seq<TokenModel>, p: int) -> Option<(Seq<GenericModel>, int)> {
    if 0 <= p < t.len() && is_at(t, p, TokenKind::LeftBracket) {
        let (ps, r) = list(t, p + 1, generic_param_fn(t), comma_fn(t), true);
        if is_at(t, r, TokenKind::RightBracket) {
            Some((ps, r + 1))
        } else {
            None
        }
    } else {
        None
    }
}

// ----- signatures -----
pub open spec fn spec_param(t: Seq<TokenModel>, p: int) -> Option<((Seq<char>, TypeModel), int)> {
    if 0 <= p < t.len() && is_at(t, p, TokenKind::Ident) && is_at(t, p + 1, TokenKind::Colon) {
        match spec_type(t, p + 2) {
            Some((ty, q)) => Some(((t[p].lexeme, ty), q)),
            None => None,
        }
    } else {
        None
    }
}

pub open spec fn param_fn(t: Seq<TokenModel>) -> spec_fn(int) -> Option<((Seq<char>, TypeModel), int)> {
    |q: int| spec_param(t, q)
}

/// The parameters between the parentheses, starting at `p`, and the position
/// after them.
pub open spec fn spec_param_list(t: Seq<TokenModel>, p: int) -> (Seq<(Seq<char>, TypeModel)>, int) {
    if 0 <= p < t.len() && is_at(t, p, TokenKind::SelfKw) && is_at(t, p + 1, TokenKind::Colon)
        && spec_type(t, p + 2) is Some {
        let (ty, s) = spec_type(t, p + 2).unwrap();
        let me = ("self"@, ty);
        if 0 <= s < t.len() && is_at(t, s, TokenKind::Comma) {
            match spec_param(t, s + 1) {
                Some((x, q)) => if s < q <= t.len() {
                    list_rest(t, q, seq![me, x], param_fn(t), comma_fn(t), true)
                } else {
                    (seq![me], s + 1)
                },
                None => (seq![me], s + 1),
            }
        } else {
            (seq![me], s)
        }
    } else {
        list(t, p, param_fn(t), comma_fn(t), true)
    }
}

pub open spec fn spec_params(t: Seq<TokenModel>, p: int) -> Option<(Seq<(Seq<char>, TypeModel)>, int)> {
    if 0 <= p < t.len() && is_at(t, p, TokenKind::LeftParen) {
        let (ps, r) = spec_param_list(t, p + 1);
        if is_at(t, r, TokenKind::RightParen) {
            Some((ps, r + 1))
        } else {
            None
        }
    } else {
        None
    }
}

pub open spec fn spec_signature(t: Seq<TokenModel>, p: int) -> Option<(SignatureModel, int)> {
    if 0 <= p < t.len() && is_at(t, p, TokenKind::Ident) {
        let (generics, q) = match spec_generic_params(t, p + 1) {
            Some((g, q)) => (Some(g), q),
            None => (None, p + 1),
        };
        match spec_params(t, q) {
            Some((params, r)) => {
                let (return_type, e) = match spec_type(t, r) {
                    Some((ty, e)) => (Some(ty), e),
                    None => (None, r),
                };
                Some((SignatureModel { name: t[p].lexeme, generics, params, return_type }, e))
            },
            None => None,
        }
    } else {
        None
    }
}

pub open spec fn spec_fn_decl(t: Seq<TokenModel>, p: int) -> Option<(FnDeclModel, int)> {
    if 0 <= p < t.len() && is_at(t, p, TokenKind::Fn) {
        match spec_signature(t, p + 1) {
            Some((signature, q)) => match spec_block(t, q) {
                Some((block, r)) => Some((FnDeclModel { signature, block }, r)),
                None => None,
            },
            None => None,
        }
    } else {
        None
    }
}

// ----- executable: generic parameters and signatures -----
fn ident_at(toks: &Vec<Token>, p: usize) -> (r: Ident)
    requires
        p < toks@.len(),
    ensures
        r.name@ == toks@[p as int].lexeme@,
{
    Ident { name: toks[p].lexeme.clone() }
}

fn generic_param(toks: &Vec<Token>, p: usize) -> (r: Option<(GenericParam, usize)>)
    requires
        p <= toks@.len(),
    ensures
        match r {
            Some((g, q)) => spec_generic_param(tokens_model(toks@), p as int) == Some((
                GenericModel { name: g.name.name@, bound: opt_type_model(g.bound) },
                q as int,
            )),
            None => spec_generic_param(tokens_model(toks@), p as int) is None,
        },
        r matches Some((_, q)) ==> p < q <= toks@.len(),
{
    if !at(toks, p, TokenKind::Ident) {
        return None;
    }
    let name = ident_at(toks, p);
    if at(toks, p + 1, TokenKind::Colon) {
        if let Some((ty, q)) = parse_type_at(toks, p + 2) {
            return Some((GenericParam { name, bound: Some(ty) }, q));
        }
    }
    Some((GenericParam { name, bound: None }, p + 1))
}

fn generic_params_rest(toks: &Vec<Token>, p: usize, acc: &mut Vec<GenericParam>) -> (e: usize)
    requires
        p <= toks@.len(),
    ensures
        (generics_model(final(acc)@), e as int) == list_rest(
            tokens_model(toks@),
            p as int,
            generics_model(old(acc)@),
            generic_param_fn(tokens_model(toks@)),
            comma_fn(tokens_model(toks@)),
            true,
        ),
        p <= e <= toks@.len(),
    decreases toks@.len() - p,
{
    if at(toks, p, TokenKind::Comma) {
        match generic_param(toks, p + 1) {
            Some((x, q)) => {
                let ghost before = acc@;
                acc.push(x);
                proof {
                    assert(acc@.drop_last() =~= before);
                }
                generic_params_rest(toks, q, acc)
            },
            None => p + 1,
        }
    } else {
        p
    }
}

/// Parses `generic_params` at `p`.
pub fn generic_params(toks: &Vec<Token>, p: usize) -> (r: Option<(GenericParams, usize)>)
    requires
        p <= toks@.len(),
    ensures
        match r {
            Some((g, q)) => spec_generic_params(tokens_model(toks@), p as int) == Some(
                (generics_model(g.0@), q as int),
            ),
            None => spec_generic_params(tokens_model(toks@), p as int) is None,
        },
        r matches Some((_, q)) ==> p < q <= toks@.len(),
{
    if !at(toks, p, TokenKind::LeftBracket) {
        return None;
    }
    let mut acc: Vec<GenericParam> = Vec::new();
    let r = match generic_param(toks, p + 1) {
        Some((x, q)) => {
            acc.push(x);
            proof {
                assert(acc@.drop_last() =~= Seq::<GenericParam>::empty());
                assert(generics_model(Seq::<GenericParam>::empty()) =~= Seq::<GenericModel>::empty());
                assert(generics_model(acc@) =~= seq![
                    GenericModel { name: acc@[0].name.name@, bound: opt_type_model(acc@[0].bound) },
                ]);
            }
            generic_params_rest(toks, q, &mut acc)
        },
        None => {
            assert(generics_model(acc@) =~= Seq::<GenericModel>::empty());
            p + 1
        },
    };
    if at(toks, r, TokenKind::RightBracket) {
        Some((GenericParams(acc), r + 1))
    } else {
        None
    }
}

fn param(toks: &Vec<Token>, p: usize) -> (r: Option<(FnParam, usize)>)
    requires
        p <= toks@.len(),
    ensures
        match r {
            Some((x, q)) => spec_param(tokens_model(toks@), p as int) == Some(
                ((x.name.name@, type_model(x.ty)), q as int),
            ),
            None => spec_param(tokens_model(toks@), p as int) is None,
        },
        r matches Some((_, q)) ==> p < q <= toks@.len(),
{
    if at(toks, p, TokenKind::Ident) && at(toks, p + 1, TokenKind::Colon) {
        match parse_type_at(toks, p + 2) {
            Some((ty, q)) => Some((FnParam { name: ident_at(toks, p), ty }, q)),
            None => None,
        }
    } else {
        None
    }
}

fn params_rest(toks: &Vec<Token>, p: usize, acc: &mut Vec<FnParam>) -> (e: usize)
    requires
        p <= toks@.len(),
    ensures
        (params_model(final(acc)@), e as int) == list_rest(
            tokens_model(toks@),
            p as int,
            params_model(old(acc)@),
            param_fn(tokens_model(toks@)),
            comma_fn(tokens_model(toks@)),
            true,
        ),
        p <= e <= toks@.len(),
    decreases toks@.len() - p,
{
    if at(toks, p, TokenKind::Comma) {
        match param(toks, p + 1) {
            Some((x, q)) => {
                let ghost before = acc@;
                acc.push(x);
                proof {
                    assert(acc@.drop_last() =~= before);
                }
                params_rest(toks, q, acc)
            },
            None => p + 1,
        }
    } else {
        p
    }
}

fn param_list(toks: &Vec<Token>, p: usize) -> (r: (Vec<FnParam>, usize))
    requires
        p <= toks@.len(),
    ensures
        (params_model(r.0@), r.1 as int) == spec_param_list(tokens_model(toks@), p as int),
        p <= r.1 <= toks@.len(),
{
    let ghost t = tokens_model(toks@);
    let mut acc: Vec<FnParam> = Vec::new();
    if at(toks, p, TokenKind::SelfKw) && at(toks, p + 1, TokenKind::Colon) {
        if let Some((ty, s)) = parse_type_at(toks, p + 2) {
            acc.push(FnParam { name: Ident::new("self"), ty });
            proof {
                assert(acc@.drop_last() =~= Seq::<FnParam>::empty());
                assert(params_model(Seq::<FnParam>::empty()) =~= Seq::<(Seq<char>, TypeModel)>::empty());
                assert(params_model(acc@) =~= seq![("self"@, type_model(acc@[0].ty))]);
            }
            if at(toks, s, TokenKind::Comma) {
                match param(toks, s + 1) {
                    Some((x, q)) => {
                        let ghost before = acc@;
                        acc.push(x);
                        proof {
                            assert(acc@.drop_last() =~= before);
                            assert(params_model(acc@) =~= seq![
                                ("self"@, type_model(acc@[0].ty)),
                                (acc@[1].name.name@, type_model(acc@[1].ty)),
                            ]);
                        }
                        let e = params_rest(toks, q, &mut acc);
                        return (acc, e);
                    },
                    None => {
                        return (acc, s + 1);
                    },
                }
            }
            return (acc, s);
        }
    }
    match param(toks, p) {
        Some((x, q)) => {
            acc.push(x);
            proof {
                assert(acc@.drop_last() =~= Seq::<FnParam>::empty());
                assert(params_model(Seq::<FnParam>::empty()) =~= Seq::<(Seq<char>, TypeModel)>::empty());
                assert(params_model(acc@) =~= seq![(acc@[0].name.name@, type_model(acc@[0].ty))]);
            }
            let e = params_rest(toks, q, &mut acc);
            (acc, e)
        },
        None => {
            assert(params_model(acc@) =~= Seq::<(Seq<char>, TypeModel)>::empty());
            (acc, p)
        },
    }
}

fn params(toks: &Vec<Token>, p: usize) -> (r: Option<(Vec<FnParam>, usize)>)
    requires
        p <= toks@.len(),
    ensures
        match r {
            Some((ps, q)) => spec_params(tokens_model(toks@), p as int) == Some(
                (params_model(ps@), q as int),
            ),
            None => spec_params(tokens_model(toks@), p as int) is None,
        },
        r matches Some((_, q)) ==> p < q <= toks@.len(),
{
    if !at(toks, p, TokenKind::LeftParen) {
        return None;
    }
    let (ps, r) = param_list(toks, p + 1);
    if at(toks, r, TokenKind::RightParen) {
        Some((ps, r + 1))
    } else {
        None
    }
}

/// Parses a function `signature` at `p`.
pub fn fn_signature(toks: &Vec<Token>, p: usize) -> (r: Option<(FnSignature, usize)>)
    requires
        p <= toks@.len(),
    ensures
        match r {
            Some((s, q)) => spec_signature(tokens_model(toks@), p as int) == Some(
                (signature_model(s), q as int),
            ),
            None => spec_signature(tokens_model(toks@), p as int) is None,
        },
        r matches Some((_, q)) ==> p < q <= toks@.len(),
{
    if !at(toks, p, TokenKind::Ident) {
        return None;
    }
    let name = ident_at(toks, p);
    let (generics, q) = match generic_params(toks, p + 1) {
        Some((g, q)) => (Some(g), q),
        None => (None, p + 1),
    };
    match params(toks, q) {
        Some((ps, r)) => {
            let (return_type, e) = match parse_type_at(toks, r) {
                Some((ty, e)) => (Some(ty), e),
                None => (None, r),
            };
            Some((FnSignature { name, generics, params: ps, return_type }, e))
        },
        None => None,
    }
}

/// Parses a `fn_decl` at `p`.
pub fn fn_decl(toks: &Vec<Token>, p: usize) -> (r: Option<(FnDecl, usize)>)
    requires
        p <= toks@.len(),
    ensures
        match r {
            Some((f, q)) => spec_fn_decl(tokens_model(toks@), p as int) == Some(
                (fn_decl_model(f), q as int),
            ),
            None => spec_fn_decl(tokens_model(toks@), p as int) is None,
        },
        r matches Some((_, q)) ==> p < q <= toks@.len(),
{
    if !at(toks, p, TokenKind::Fn) {
        return None;
    }
    match fn_signature(toks, p + 1) {
        Some((signature, q)) => match parse_block_at(toks, q) {
            Some((block, r)) => Some((FnDecl { signature, block }, r)),
            None => None,
        },
        None => None,
    }
}

// ----- type declarations -----
pub open spec fn member_sep_fn(t: Seq<TokenModel>) -> spec_fn(int) -> bool {
    |q: int| is_member_sep(t, q)
}

pub open spec fn spec_method(t: Seq<TokenModel>, p: int) -> Option<(SignatureModel, int)> {
    if 0 <= p < t.len() && is_at(t, p, TokenKind::Fn) {
        spec_signature(t, p + 1)
    } else {
        None
    }
}

pub open spec fn method_fn(t: Seq<TokenModel>) -> spec_fn(int) -> Option<(SignatureModel, int)> {
    |q: int| spec_method(t, q)
}

pub open spec fn spec_name(t: Seq<TokenModel>, p: int) -> Option<(Seq<char>, int)> {
    if 0 <= p < t.len() && is_at(t, p, TokenKind::Ident) {
        Some((t[p].lexeme, p + 1))
    } else {
        None
    }
}

pub open spec fn name_fn(t: Seq<TokenModel>) -> spec_fn(int) -> Option<(Seq<char>, int)> {
    |q: int| spec_name(t, q)
}

/// `"{" [member (sep member)* [sep]] "}"` at `p`, where `item` parses a member.
pub open spec fn spec_members<M>(t: Seq<TokenModel>, p: int, item: spec_fn(int) -> Option<(M, int)>) -> Option<(Seq<M>, int)> {
    if 0 <= p < t.len() && is_at(t, p, TokenKind::LeftBrace) {
        let (ms, r) = list(t, p + 1, item, member_sep_fn(t), true);
        if is_at(t, r, TokenKind::RightBrace) {
            Some((ms, r + 1))
        } else {
            None
        }
    } else {
        None
    }
}

pub open spec fn spec_type_body(t: Seq<TokenModel>, p: int) -> Option<(TypeBodyModel, int)> {
    if is_at(t, p, TokenKind::Struct) {
        match spec_members(t, p + 1, param_fn(t)) {
            Some((fs, q)) => Some((TypeBodyModel::Struct(fs), q)),
            None => None,
        }
    } else if is_at(t, p, TokenKind::Trait) {
        match spec_members(t, p + 1, method_fn(t)) {
            Some((ms, q)) => Some((TypeBodyModel::Trait(ms), q)),
            None => None,
        }
    } else if spec_type(t, p) is Some {
        let (ty, q) = spec_type(t, p).unwrap();
        Some((TypeBodyModel::Alias(ty), q))
    } else if is_at(t, p, TokenKind::Enum) {
        match spec_members(t, p + 1, name_fn(t)) {
            Some((vs, q)) => Some((TypeBodyModel::Enum(vs), q)),
            None => None,
        }
    } else {
        None
    }
}

pub open spec fn spec_type_decl(t: Seq<TokenModel>, p: int) -> Option<(TypeDeclModel, int)> {
    if 0 <= p < t.len() && is_at(t, p, TokenKind::Type) && is_at(t, p + 1, TokenKind::Ident) {
        let (generics, q) = match spec_generic_params(t, p + 2) {
            Some((g, q)) => (Some(g), q),
            None => (None, p + 2),
        };
        if is_at(t, q, TokenKind::Equal) {
            match spec_type_body(t, q + 1) {
                Some((body, r)) => Some((TypeDeclModel { name: t[p + 1].lexeme, generics, body }, r)),
                None => None,
            }
        } else {
            None
        }
    } else {
        None
    }
}

// ----- imports, declarations, units -----
pub open spec fn dot_fn(t: Seq<TokenModel>) -> spec_fn(int) -> bool {
    |q: int| is_at(t, q, TokenKind::Dot)
}

/// An optional `;` at `q`: the position after it.
pub open spec fn skip_semicolon(t: Seq<TokenModel>, q: int) -> int {
    if is_at(t, q, TokenKind::Semicolon) {
        q + 1
    } else {
        q
    }
}

pub open spec fn spec_import(t: Seq<TokenModel>, p: int) -> Option<(Seq<Seq<char>>, int)> {
    if 0 <= p < t.len() && is_at(t, p, TokenKind::Import) && is_at(t, p + 1, TokenKind::Ident) {
        let (path, r) = list_rest(t, p + 2, seq![t[p + 1].lexeme], name_fn(t), dot_fn(t), false);
        Some((path, skip_semicolon(t, r)))
    } else {
        None
    }
}

pub open spec fn spec_item(t: Seq<TokenModel>, p: int) -> Option<(DeclModel, int)> {
    if spec_type_decl(t, p) is Some {
        let (d, q) = spec_type_decl(t, p).unwrap();
        Some((DeclModel::Type(d), skip_semicolon(t, q)))
    } else if spec_fn_decl(t, p) is Some {
        let (d, q) = spec_fn_decl(t, p).unwrap();
        Some((DeclModel::Fn(d), skip_semicolon(t, q)))
    } else if spec_import(t, p) is Some {
        let (d, q) = spec_import(t, p).unwrap();
        Some((DeclModel::Import(d), skip_semicolon(t, q)))
    } else {
        None
    }
}

pub open spec fn spec_decl(t: Seq<TokenModel>, p: int) -> Option<(DeclModel, int)> {
    if 0 <= p < t.len() && is_at(t, p, TokenKind::Pub) && spec_item(t, p + 1) is Some {
        let (d, q) = spec_item(t, p + 1).unwrap();
        Some((DeclModel::Pub(Box::new(d)), q))
    } else {
        spec_item(t, p)
    }
}

/// The declarations from `p` on, appended to `acc`, and where they stop.
pub open spec fn spec_decls(t: Seq<TokenModel>, p: int, acc: Seq<DeclModel>) -> (Seq<DeclModel>, int)
    decreases t.len() - p,
{
    match spec_decl(t, p) {
        Some((d, q)) => if p < q <= t.len() {
            spec_decls(t, q, acc.push(d))
        } else {
            (acc, p)
        },
        None => (acc, p),
    }
}

/// Whether the tokens from `q` on are used up: none is left, or only the
/// end-of-input marker.
pub open spec fn consumed(t: Seq<TokenModel>, q: int) -> bool {
    q == t.len() || (q + 1 == t.len() && t[q].kind == TokenKind::EOF)
}

// ----- executable: type declarations -----
fn struct_field(toks: &Vec<Token>, p: usize) -> (r: Option<(StructField, usize)>)
    requires
        p <= toks@.len(),
    ensures
        match r {
            Some((x, q)) => spec_param(tokens_model(toks@), p as int) == Some(
                ((x.name.name@, type_model(x.field_type)), q as int),
            ),
            None => spec_param(tokens_model(toks@), p as int) is None,
        },
        r matches Some((_, q)) ==> p < q <= toks@.len(),
{
    match param(toks, p) {
        Some((x, q)) => Some((StructField { name: x.name, field_type: x.ty }, q)),
        None => None,
    }
}

fn member_sep(toks: &Vec<Token>, p: usize) -> (r: bool)
    ensures
        r == is_member_sep(tokens_model(toks@), p as int),
        toks@.len() <= usize::MAX,
{
    at(toks, p, TokenKind::Comma) || at(toks, p, TokenKind::Semicolon)
}

fn struct_fields_rest(toks: &Vec<Token>, p: usize, acc: &mut Vec<StructField>) -> (e: usize)
    requires
        p <= toks@.len(),
    ensures
        (struct_fields_model(final(acc)@), e as int) == list_rest(
            tokens_model(toks@),
            p as int,
            struct_fields_model(old(acc)@),
            param_fn(tokens_model(toks@)),
            member_sep_fn(tokens_model(toks@)),
            true,
        ),
        p <= e <= toks@.len(),
    decreases toks@.len() - p,
{
    if member_sep(toks, p) {
        match struct_field(toks, p + 1) {
            Some((x, q)) => {
                let ghost before = acc@;
                acc.push(x);
                proof {
                    assert(acc@.drop_last() =~= before);
                }
                struct_fields_rest(toks, q, acc)
            },
            None => p + 1,
        }
    } else {
        p
    }
}

fn struct_members(toks: &Vec<Token>, p: usize) -> (r: Option<(Vec<StructField>, usize)>)
    requires
        p <= toks@.len(),
    ensures
        match r {
            Some((fs, q)) => spec_members(tokens_model(toks@), p as int, param_fn(tokens_model(toks@)))
                == Some((struct_fields_model(fs@), q as int)),
            None => spec_members(tokens_model(toks@), p as int, param_fn(tokens_model(toks@))) is None,
        },
        r matches Some((_, q)) ==> p < q <= toks@.len(),
{
    if !at(toks, p, TokenKind::LeftBrace) {
        return None;
    }
    let mut acc: Vec<StructField> = Vec::new();
    let r = match struct_field(toks, p + 1) {
        Some((x, q)) => {
            acc.push(x);
            proof {
                assert(acc@.drop_last() =~= Seq::<StructField>::empty());
                assert(struct_fields_model(Seq::<StructField>::empty()) =~= Seq::<(Seq<char>, TypeModel)>::empty());
                assert(struct_fields_model(acc@) =~= seq![(acc@[0].name.name@, type_model(acc@[0].field_type))]);
            }
            struct_fields_rest(toks, q, &mut acc)
        },
        None => {
            assert(struct_fields_model(acc@) =~= Seq::<(Seq<char>, TypeModel)>::empty());
            p + 1
        },
    };
    if at(toks, r, TokenKind::RightBrace) {
        Some((acc, r + 1))
    } else {
        None
    }
}

fn trait_method(toks: &Vec<Token>, p: usize) -> (r: Option<(TraitMethod, usize)>)
    requires
        p <= toks@.len(),
    ensures
        match r {
            Some((x, q)) => spec_method(tokens_model(toks@), p as int) == Some(
                (signature_model(x.signature), q as int),
            ),
            None => spec_method(tokens_model(toks@), p as int) is None,
        },
        r matches Some((_, q)) ==> p < q <= toks@.len(),
{
    if !at(toks, p, TokenKind::Fn) {
        return None;
    }
    match fn_signature(toks, p + 1) {
        Some((signature, q)) => Some((TraitMethod { signature }, q)),
        None => None,
    }
}

fn trait_methods_rest(toks: &Vec<Token>, p: usize, acc: &mut Vec<TraitMethod>) -> (e: usize)
    requires
        p <= toks@.len(),
    ensures
        (methods_model(final(acc)@), e as int) == list_rest(
            tokens_model(toks@),
            p as int,
            methods_model(old(acc)@),
            method_fn(tokens_model(toks@)),
            member_sep_fn(tokens_model(toks@)),
            true,
        ),
        p <= e <= toks@.len(),
    decreases toks@.len() - p,
{
    if member_sep(toks, p) {
        match trait_method(toks, p + 1) {
            Some((x, q)) => {
                let ghost before = acc@;
                acc.push(x);
                proof {
                    assert(acc@.drop_last() =~= before);
                }
                trait_methods_rest(toks, q, acc)
            },
            None => p + 1,
        }
    } else {
        p
    }
}

fn trait_members(toks: &Vec<Token>, p: usize) -> (r: Option<(Vec<TraitMethod>, usize)>)
    requires
        p <= toks@.len(),
    ensures
        match r {
            Some((ms, q)) => spec_members(tokens_model(toks@), p as int, method_fn(tokens_model(toks@)))
                == Some((methods_model(ms@), q as int)),
            None => spec_members(tokens_model(toks@), p as int, method_fn(tokens_model(toks@))) is None,
        },
        r matches Some((_, q)) ==> p < q <= toks@.len(),
{
    if !at(toks, p, TokenKind::LeftBrace) {
        return None;
    }
    let mut acc: Vec<TraitMethod> = Vec::new();
    let r = match trait_method(toks, p + 1) {
        Some((x, q)) => {
            acc.push(x);
            proof {
                assert(acc@.drop_last() =~= Seq::<TraitMethod>::empty());
                assert(methods_model(Seq::<TraitMethod>::empty()) =~= Seq::<SignatureModel>::empty());
                assert(methods_model(acc@) =~= seq![signature_model(acc@[0].signature)]);
            }
            trait_methods_rest(toks, q, &mut acc)
        },
        None => {
            assert(methods_model(acc@) =~= Seq::<SignatureModel>::empty());
            p + 1
        },
    };
    if at(toks, r, TokenKind::RightBrace) {
        Some((acc, r + 1))
    } else {
        None
    }
}

fn enum_value(toks: &Vec<Token>, p: usize) -> (r: Option<(EnumValue, usize)>)
    requires
        p <= toks@.len(),
    ensures
        match r {
            Some((x, q)) => spec_name(tokens_model(toks@), p as int) == Some((x.name.name@, q as int)),
            None => spec_name(tokens_model(toks@), p as int) is None,
        },
        r matches Some((_, q)) ==> p < q <= toks@.len(),
{
    if at(toks, p, TokenKind::Ident) {
        Some((EnumValue { name: ident_at(toks, p) }, p + 1))
    } else {
        None
    }
}

fn enum_values_rest(toks: &Vec<Token>, p: usize, acc: &mut Vec<EnumValue>) -> (e: usize)
    requires
        p <= toks@.len(),
    ensures
        (enum_values_model(final(acc)@), e as int) == list_rest(
            tokens_model(toks@),
            p as int,
            enum_values_model(old(acc)@),
            name_fn(tokens_model(toks@)),
            member_sep_fn(tokens_model(toks@)),
            true,
        ),
        p <= e <= toks@.len(),
    decreases toks@.len() - p,
{
    if member_sep(toks, p) {
        match enum_value(toks, p + 1) {
            Some((x, q)) => {
                let ghost before = acc@;
                acc.push(x);
                proof {
                    assert(acc@.drop_last() =~= before);
                }
                enum_values_rest(toks, q, acc)
            },
            None => p + 1,
        }
    } else {
        p
    }
}

fn enum_members(toks: &Vec<Token>, p: usize) -> (r: Option<(Vec<EnumValue>, usize)>)
    requires
        p <= toks@.len(),
    ensures
        match r {
            Some((vs, q)) => spec_members(tokens_model(toks@), p as int, name_fn(tokens_model(toks@)))
                == Some((enum_values_model(vs@), q as int)),
            None => spec_members(tokens_model(toks@), p as int, name_fn(tokens_model(toks@))) is None,
        },
        r matches Some((_, q)) ==> p < q <= toks@.len(),
{
    if !at(toks, p, TokenKind::LeftBrace) {
        return None;
    }
    let mut acc: Vec<EnumValue> = Vec::new();
    let r = match enum_value(toks, p + 1) {
        Some((x, q)) => {
            acc.push(x);
            proof {
                assert(acc@.drop_last() =~= Seq::<EnumValue>::empty());
                assert(enum_values_model(Seq::<EnumValue>::empty()) =~= Seq::<Seq<char>>::empty());
                assert(enum_values_model(acc@) =~= seq![acc@[0].name.name@]);
            }
            enum_values_rest(toks, q, &mut acc)
        },
        None => {
            assert(enum_values_model(acc@) =~= Seq::<Seq<char>>::empty());
            p + 1
        },
    };
    if at(toks, r, TokenKind::RightBrace) {
        Some((acc, r + 1))
    } else {
        None
    }
}

fn type_body(toks: &Vec<Token>, p: usize) -> (r: Option<(TypeBody, usize)>)
    requires
        p <= toks@.len(),
    ensures
        match r {
            Some((b, q)) => spec_type_body(tokens_model(toks@), p as int) == Some(
                (type_body_model(b), q as int),
            ),
            None => spec_type_body(tokens_model(toks@), p as int) is None,
        },
        r matches Some((_, q)) ==> p < q <= toks@.len(),
{
    if at(toks, p, TokenKind::Struct) {
        match struct_members(toks, p + 1) {
            Some((fs, q)) => Some((TypeBody::Struct(fs), q)),
            None => None,
        }
    } else if at(toks, p, TokenKind::Trait) {
        match trait_members(toks, p + 1) {
            Some((ms, q)) => Some((TypeBody::Trait(ms), q)),
            None => None,
        }
    } else if let Some((ty, q)) = parse_type_at(toks, p) {
        Some((TypeBody::Alias(ty), q))
    } else if at(toks, p, TokenKind::Enum) {
        match enum_members(toks, p + 1) {
            Some((vs, q)) => Some((TypeBody::Enum(vs), q)),
            None => None,
        }
    } else {
        None
    }
}

/// Parses a `type_decl` at `p`.
pub fn type_decl(toks: &Vec<Token>, p: usize) -> (r: Option<(TypeDecl, usize)>)
    requires
        p <= toks@.len(),
    ensures
        match r {
            Some((d, q)) => spec_type_decl(tokens_model(toks@), p as int) == Some(
                (type_decl_model(d), q as int),
            ),
            None => spec_type_decl(tokens_model(toks@), p as int) is None,
        },
        r matches Some((_, q)) ==> p < q <= toks@.len(),
{
    if !(at(toks, p, TokenKind::Type) && at(toks, p + 1, TokenKind::Ident)) {
        return None;
    }
    let name = ident_at(toks, p + 1);
    let (generics, q) = match generic_params(toks, p + 2) {
        Some((g, q)) => (Some(g), q),
        None => (None, p + 2),
    };
    if !at(toks, q, TokenKind::Equal) {
        return None;
    }
    match type_body(toks, q + 1) {
        Some((body, r)) => Some((TypeDecl { name, generics, body }, r)),
        None => None,
    }
}

// ----- executable: imports, declarations, units -----
fn skip_semicolon_exec(toks: &Vec<Token>, q: usize) -> (r: usize)
    requires
        q <= toks@.len(),
    ensures
        r == skip_semicolon(tokens_model(toks@), q as int),
        q <= r <= toks@.len(),
{
    if at(toks, q, TokenKind::Semicolon) {
        q + 1
    } else {
        q
    }
}

fn import_path_rest(toks: &Vec<Token>, p: usize, acc: &mut Vec<Ident>) -> (e: usize)
    requires
        p <= toks@.len(),
    ensures
        (idents_model(final(acc)@), e as int) == list_rest(
            tokens_model(toks@),
            p as int,
            idents_model(old(acc)@),
            name_fn(tokens_model(toks@)),
            dot_fn(tokens_model(toks@)),
            false,
        ),
        p <= e <= toks@.len(),
    decreases toks@.len() - p,
{
    if at(toks, p, TokenKind::Dot) && at(toks, p + 1, TokenKind::Ident) {
        let ghost before = acc@;
        acc.push(ident_at(toks, p + 1));
        proof {
            assert(acc@.drop_last() =~= before);
        }
        import_path_rest(toks, p + 2, acc)
    } else {
        p
    }
}

/// Parses an `import_decl` at `p`.
pub fn import_decl(toks: &Vec<Token>, p: usize) -> (r: Option<(ImportDecl, usize)>)
    requires
        p <= toks@.len(),
    ensures
        match r {
            Some((d, q)) => spec_import(tokens_model(toks@), p as int) == Some(
                (idents_model(d.path@), q as int),
            ),
            None => spec_import(tokens_model(toks@), p as int) is None,
        },
        r matches Some((_, q)) ==> p < q <= toks@.len(),
{
    if !(at(toks, p, TokenKind::Import) && at(toks, p + 1, TokenKind::Ident)) {
        return None;
    }
    let mut path: Vec<Ident> = Vec::new();
    path.push(ident_at(toks, p + 1));
    proof {
        assert(path@.drop_last() =~= Seq::<Ident>::empty());
        assert(idents_model(Seq::<Ident>::empty()) =~= Seq::<Seq<char>>::empty());
        assert(idents_model(path@) =~= seq![tokens_model(toks@)[p + 1].lexeme]);
    }
    let r = import_path_rest(toks, p + 2, &mut path);
    Some((ImportDecl { path }, skip_semicolon_exec(toks, r)))
}

fn item(toks: &Vec<Token>, p: usize) -> (r: Option<(Decl, usize)>)
    requires
        p <= toks@.len(),
    ensures
        match r {
            Some((d, q)) => spec_item(tokens_model(toks@), p as int) == Some((decl_model(d), q as int)),
            None => spec_item(tokens_model(toks@), p as int) is None,
        },
        r matches Some((_, q)) ==> p < q <= toks@.len(),
{
    if let Some((d, q)) = type_decl(toks, p) {
        return Some((Decl::Type(d), skip_semicolon_exec(toks, q)));
    }
    if let Some((d, q)) = fn_decl(toks, p) {
        return Some((Decl::Fn(d), skip_semicolon_exec(toks, q)));
    }
    if let Some((d, q)) = import_decl(toks, p) {
        return Some((Decl::Import(d), skip_semicolon_exec(toks, q)));
    }
    None
}

/// Parses a `decl` at `p`.
pub fn decl(toks: &Vec<Token>, p: usize) -> (r: Option<(Decl, usize)>)
    requires
        p <= toks@.len(),
    ensures
        match r {
            Some((d, q)) => spec_decl(tokens_model(toks@), p as int) == Some((decl_model(d), q as int)),
            None => spec_decl(tokens_model(toks@), p as int) is None,
        },
        r matches Some((_, q)) ==> p < q <= toks@.len(),
{
    if at(toks, p, TokenKind::Pub) {
        if let Some((d, q)) = item(toks, p + 1) {
            return Some((Decl::Pub(Box::new(d)), q));
        }
    }
    item(toks, p)
}

fn decls(toks: &Vec<Token>, p: usize, acc: &mut Vec<Decl>) -> (e: usize)
    requires
        p <= toks@.len(),
    ensures
        (decls_model(final(acc)@), e as int) == spec_decls(tokens_model(toks@), p as int, decls_model(old(acc)@)),
        p <= e <= toks@.len(),
    decreases toks@.len() - p,
{
    match decl(toks, p) {
        Some((d, q)) => {
            let ghost before = acc@;
            acc.push(d);
            proof {
                assert(acc@.drop_last() =~= before);
            }
            decls(toks, q, acc)
        },
        None => p,
    }
}

/// Whether the tokens from `q` on are used up.
pub fn is_consumed(toks: &Vec<Token>, q: usize) -> (r: bool)
    requires
        q <= toks@.len(),
    ensures
        r == consumed(tokens_model(toks@), q as int),
{
    q == toks.len() || (q + 1 == toks.len() && toks[q].kind == TokenKind::EOF)
}

/// Parses the declarations of a `unit` from the first token on; gives the
/// unit and the position where the declarations stop.
pub fn unit(toks: &Vec<Token>) -> (r: (Unit, usize))
    ensures
        (decls_model(r.0.decls@), r.1 as int) == spec_decls(tokens_model(toks@), 0, seq![]),
        r.1 <= toks@.len(),
{
    let mut ds: Vec<Decl> = Vec::new();
    proof {
        assert(decls_model(ds@) =~= Seq::<DeclModel>::empty());
    }
    let e = decls(toks, 0, &mut ds);
    (Unit { decls: ds }, e)
}

} // verus!
