//! C code generation: declarations of the unit's structs and functions,
//! and the bodies of lowered functions, appended to a text buffer.
use vstd::prelude::*;

use crate::context::{components, Context};
use crate::defkinds::FnSig;
use crate::ir::{ExprIR, FnIR, StmtIR};
use crate::symbols::{DefKind, Definition};
use crate::text::{decimal, owned, push_decimal};
use crate::types::{signedness_prefix, DefID, ScopeID, TypeDef, TypeID, TypeShape};

verus! {

broadcast use {vstd::seq::group_seq_axioms, vstd::std_specs::vec::group_vec_axioms};

/// The C declaration of `ident` with the type `id`: `i32 x`, `Foo p`,
/// `u8 buf[16]`, `i32 const * p`.
pub open spec fn c_decl(s: Seq<TypeShape>, defs: Seq<Definition>, id: int, ident: Seq<char>) -> Option<Seq<char>>
    decreases id,
{
    if !(0 <= id < s.len()) {
        None
    } else {
        match s[id] {
            TypeShape::Void => Some("void "@ + ident),
            TypeShape::Bool => Some("bool "@ + ident),
            TypeShape::Int(n, sign) => Some(signedness_prefix(sign) + decimal(n as nat) + " "@ + ident),
            TypeShape::Float(n) => Some("f"@ + decimal(n as nat) + " "@ + ident),
            TypeShape::Pointer { pointee, mutability } => if 0 <= pointee.0 < id {
                match c_decl(s, defs, pointee.0 as int, seq![]) {
                    Some(t) => Some(t + (if mutability {
                        seq![]
                    } else {
                        "const "@
                    }) + "* "@ + ident),
                    None => None,
                }
            } else {
                None
            },
            TypeShape::Array { element, size } => if 0 <= element.0 < id {
                match c_decl(s, defs, element.0 as int, ident) {
                    Some(t) => Some(t + "["@ + decimal(size as nat) + "]"@),
                    None => None,
                }
            } else {
                None
            },
            TypeShape::FnPointer { .. } => None,
            TypeShape::UserDef(d) => if 0 <= d.0 < defs.len() {
                Some(defs[d.0 as int].name@ + " "@ + ident)
            } else {
                None
            },
        }
    }
}

/// A type that is not built from another (void, bool, a number or a user
/// type) is declared as its printed name, a space and the identifier:
/// `i32 x`, `Foo p`.
pub proof fn law_plain_declarations_use_the_type_name(s: Seq<TypeShape>, defs: Seq<Definition>, id: int, ident: Seq<char>)
    requires
        0 <= id < s.len(),
        s[id] is Void || s[id] is Bool || s[id] is Int || s[id] is Float || (s[id] matches TypeShape::UserDef(d) && 0 <= d.0
            < defs.len()),
    ensures
        c_decl(s, defs, id, ident) == Some(crate::context::name_of(s, defs, id) + " "@ + ident),
{
    reveal_strlit("void ");
    reveal_strlit("void");
    reveal_strlit("bool ");
    reveal_strlit("bool");
    reveal_strlit(" ");
    match s[id] {
        TypeShape::Void => {
            assert("void "@ + ident =~= "void"@ + " "@ + ident);
        },
        TypeShape::Bool => {
            assert("bool "@ + ident =~= "bool"@ + " "@ + ident);
        },
        _ => {},
    }
}

/// A pointer is declared as its pointee, then `* ` and the name; `const `
/// stands before the `*` exactly when the pointer is immutable. So of two
/// pointers to one pointee, only the immutable one carries `const `.
pub proof fn law_const_marks_immutable_pointers(
    s: Seq<TypeShape>,
    defs: Seq<Definition>,
    id: int,
    pointee: TypeID,
    mutability: bool,
    ident: Seq<char>,
)
    requires
        0 <= id < s.len(),
        s[id] == (TypeShape::Pointer { pointee, mutability }),
        0 <= pointee.0 < id,
        c_decl(s, defs, pointee.0 as int, seq![]) is Some,
    ensures
        mutability ==> c_decl(s, defs, id, ident) == Some(c_decl(s, defs, pointee.0 as int, seq![]).unwrap() + "* "@ + ident),
        !mutability ==> c_decl(s, defs, id, ident) == Some(
            c_decl(s, defs, pointee.0 as int, seq![]).unwrap() + "const "@ + "* "@ + ident,
        ),
{
    let t = c_decl(s, defs, pointee.0 as int, seq![]).unwrap();
    assert(t + seq![] =~= t);
}

/// No function pointer type is reached from `id` through pointers and
/// arrays: those have no C declaration here.
pub open spec fn no_fn_pointer(s: Seq<TypeShape>, id: int) -> bool
    decreases id,
{
    0 <= id < s.len() ==> match s[id] {
        TypeShape::FnPointer { .. } => false,
        TypeShape::Pointer { pointee, .. } => 0 <= pointee.0 < id ==> no_fn_pointer(s, pointee.0 as int),
        TypeShape::Array { element, .. } => 0 <= element.0 < id ==> no_fn_pointer(s, element.0 as int),
        _ => true,
    }
}

/// The concatenation of the parts, if every part exists.
pub open spec fn concat_all(parts: Seq<Option<Seq<char>>>) -> Option<Seq<char>>
    decreases parts.len(),
{
    if parts.len() == 0 {
        Some(seq![])
    } else {
        match (concat_all(parts.drop_last()), parts.last()) {
            (Some(a), Some(b)) => Some(a + b),
            _ => None,
        }
    }
}

/// The declarations of the parameters, paired with their types and
/// written one after the other.
pub open spec fn params_text(s: Seq<TypeShape>, defs: Seq<Definition>, names: Seq<String>, types: Seq<TypeID>) -> Option<Seq<char>> {
    concat_all(param_parts(s, defs, names, types))
}

/// The declaration of each parameter that has both a name and a type.
pub open spec fn param_parts(s: Seq<TypeShape>, defs: Seq<Definition>, names: Seq<String>, types: Seq<TypeID>) -> Seq<Option<Seq<char>>> {
    let n = if names.len() < types.len() {
        names.len()
    } else {
        types.len()
    };
    Seq::new(n, |i: int| c_decl(s, defs, types[i].0 as int, names[i]@))
}

/// The C signature of a function: `<return type> name(<params>)`.
pub open spec fn sig_text(s: Seq<TypeShape>, defs: Seq<Definition>, sig: FnSig) -> Option<Seq<char>> {
    match (c_decl(s, defs, sig.return_type.0 as int, sig.name@), if 0 <= sig.typeid.0 < s.len() {
        match s[sig.typeid.0 as int] {
            TypeShape::FnPointer { params, .. } => params_text(s, defs, sig.params@, params),
            _ => None,
        }
    } else {
        None
    }) {
        (Some(r), Some(p)) => Some(r + "("@ + p + ")"@),
        _ => None,
    }
}

/// A function signature that can be printed: its types have C
/// declarations and its type, when stored, is a function pointer.
pub open spec fn sig_printable(s: Seq<TypeShape>, sig: FnSig) -> bool {
    &&& no_fn_pointer(s, sig.return_type.0 as int)
    &&& (0 <= sig.typeid.0 < s.len() ==> (s[sig.typeid.0 as int] matches TypeShape::FnPointer { params, .. }
        && forall|k: int| 0 <= k < params.len() ==> no_fn_pointer(s, (#[trigger] params[k]).0 as int)))
}

/// The declaration `emit_fn_decl` prints for one entry: the signature of
/// a function, nothing for anything else.
pub open spec fn fn_decl_part(s: Seq<TypeShape>, defs: Seq<Definition>, e: (Seq<char>, DefID)) -> Option<Seq<char>> {
    if 0 <= e.1.0 < defs.len() {
        match defs[e.1.0 as int].kind {
            DefKind::Function(sig) => match sig_text(s, defs, sig) {
                Some(t) => Some(t + ";\n"@),
                None => None,
            },
            _ => Some(seq![]),
        }
    } else {
        None
    }
}

/// The declarations that `emit_fn_decl` prints for the entries of a
/// scope: one line per function.
pub open spec fn fn_decls_text(s: Seq<TypeShape>, defs: Seq<Definition>, es: Seq<(Seq<char>, DefID)>) -> Option<Seq<char>> {
    concat_all(fn_decl_parts(s, defs, es))
}

pub open spec fn fn_decl_parts(s: Seq<TypeShape>, defs: Seq<Definition>, es: Seq<(Seq<char>, DefID)>) -> Seq<Option<Seq<char>>> {
    es.map_values(|e: (Seq<char>, DefID)| fn_decl_part(s, defs, e))
}

pub open spec fn typedef_parts(defs: Seq<Definition>, es: Seq<(Seq<char>, DefID)>) -> Seq<Option<Seq<char>>> {
    es.map_values(|e: (Seq<char>, DefID)| typedef_part(defs, e))
}

pub open spec fn definition_parts(s: Seq<TypeShape>, defs: Seq<Definition>, es: Seq<(Seq<char>, DefID)>) -> Seq<Option<Seq<char>>> {
    es.map_values(|e: (Seq<char>, DefID)| definition_part(s, defs, e))
}

/// Every function and struct field of a scope's entries can be printed.
pub open spec fn entries_printable(s: Seq<TypeShape>, defs: Seq<Definition>, es: Seq<(Seq<char>, DefID)>) -> bool {
    forall|i: int| 0 <= i < es.len() && 0 <= es[i].1.0 < defs.len() ==> match (#[trigger] defs[es[i].1.0 as int]).kind {
        DefKind::Function(sig) => sig_printable(s, sig),
        DefKind::Struct(sd) => forall|k: int| 0 <= k < sd.fields@.len() ==> no_fn_pointer(s, (#[trigger] sd.fields@[k]).1.0 as int),
        _ => true,
    }
}

/// Prints C declarations for the types and functions of a context.
pub struct Codegen<'a> {
    pub ctx: &'a Context,
}

impl<'a> Codegen<'a> {
    pub fn new(ctx: &'a Context) -> (r: Self)
        ensures
            r.ctx == ctx,
    {
        Self { ctx }
    }

    /// Appends the C declaration of `ident` with the type `typeid`.
    pub fn emit_type(&self, buffer: &mut String, typeid: TypeID, ident: &str) -> (r: Result<(), String>)
        requires
            self.ctx.names_ok(),
            no_fn_pointer(self.ctx.interner@, typeid.0 as int),
        ensures
            r is Ok <==> c_decl(self.ctx.interner@, self.ctx.table@.defs, typeid.0 as int, ident@) is Some,
            r is Ok ==> final(buffer)@ == old(buffer)@ + c_decl(self.ctx.interner@, self.ctx.table@.defs, typeid.0 as int, ident@).unwrap(),
            r is Err ==> final(buffer)@ == old(buffer)@,
        decreases typeid.0,
    {
        let type_def = match self.ctx.interner.get(typeid) {
            Some(d) => d,
            None => {
                let mut msg = owned("Type ");
                push_decimal(&mut msg, typeid.0);
                msg.append(" does not exists");
                return Err(msg);
            },
        };
        let ghost s = self.ctx.interner@;
        let ghost id = typeid.0 as int;
        match type_def {
            TypeDef::Void => {
                buffer.append("void ");
                buffer.append(ident);
            },
            TypeDef::Bool => {
                buffer.append("bool ");
                buffer.append(ident);
            },
            TypeDef::Int(size, sign) => {
                buffer.append(sign.to_prefix());
                push_decimal(buffer, *size as usize);
                buffer.append(" ");
                buffer.append(ident);
            },
            TypeDef::Float(size) => {
                buffer.append("f");
                push_decimal(buffer, *size as usize);
                buffer.append(" ");
                buffer.append(ident);
            },
            TypeDef::Pointer { pointee, mutability } => {
                proof {
                    assert(components(s[id])[0] == *pointee);
                    reveal_strlit("");
                    assert(""@ =~= Seq::<char>::empty());
                }
                self.emit_type(buffer, *pointee, "")?;
                if !*mutability {
                    buffer.append("const ");
                }
                buffer.append("* ");
                buffer.append(ident);
            },
            TypeDef::Array { element, size } => {
                proof {
                    assert(components(s[id])[0] == *element);
                }
                self.emit_type(buffer, *element, ident)?;
                buffer.append("[");
                push_decimal(buffer, *size);
                buffer.append("]");
            },
            TypeDef::FnPointer(_) => {
                proof {
                    assert(false);
                }
                return Err(owned("Function Pointer not implemented yet"));
            },
            TypeDef::UserDef(defid) => {
                let def = match self.ctx.table.get_def(*defid) {
                    Some(d) => d,
                    None => {
                        let mut msg = owned("Def ");
                        push_decimal(&mut msg, defid.0);
                        msg.append(" does not exists");
                        return Err(msg);
                    },
                };
                buffer.append(def.name.as_str());
                buffer.append(" ");
                buffer.append(ident);
            },
        }
        Ok(())
    }
}


/// Appending keeps what was written before in front.
proof fn lemma_extends(a: Seq<char>, b: Seq<char>, c: Seq<char>)
    requires
        a.is_prefix_of(b),
        b.is_prefix_of(c),
    ensures
        a.is_prefix_of(c),
{
    assert(c.subrange(0, a.len() as int) =~= b.subrange(0, a.len() as int));
}

/// A text is a prefix of itself followed by more text.
proof fn lemma_prefix_of_concat(a: Seq<char>, b: Seq<char>)
    ensures
        a.is_prefix_of(a + b),
{
    assert((a + b).subrange(0, a.len() as int) =~= a);
}

/// A sequence with a missing part has no concatenation.
proof fn lemma_concat_none(parts: Seq<Option<Seq<char>>>, i: int)
    requires
        0 <= i < parts.len(),
        parts[i] is None,
    ensures
        concat_all(parts) is None,
    decreases parts.len(),
{
    if i < parts.len() - 1 {
        lemma_concat_none(parts.drop_last(), i);
    }
}

/// Concatenating one more part.
proof fn lemma_concat_take(parts: Seq<Option<Seq<char>>>, i: int)
    requires
        0 <= i < parts.len(),
    ensures
        concat_all(parts.take(i + 1)) == match (concat_all(parts.take(i)), parts[i]) {
            (Some(a), Some(b)) => Some(a + b),
            _ => None,
        },
{
    assert(parts.take(i + 1).drop_last() =~= parts.take(i));
    assert(parts.take(i + 1).last() == parts[i]);
}

/// The struct typedef line of an entry.
pub open spec fn typedef_part(defs: Seq<Definition>, e: (Seq<char>, DefID)) -> Option<Seq<char>> {
    if 0 <= e.1.0 < defs.len() {
        match defs[e.1.0 as int].kind {
            DefKind::Struct(_) => Some("typedef struct "@ + e.0 + " "@ + e.0 + ";\n"@),
            _ => Some(seq![]),
        }
    } else {
        None
    }
}

/// The line of each field of a struct definition.
pub open spec fn field_line(s: Seq<TypeShape>, defs: Seq<Definition>, f: (String, TypeID)) -> Option<Seq<char>> {
    match c_decl(s, defs, f.1.0 as int, f.0@) {
        Some(t) => Some("  "@ + t + "\n"@),
        None => None,
    }
}

/// The field lines of a struct definition.
pub open spec fn fields_text(s: Seq<TypeShape>, defs: Seq<Definition>, fields: Seq<(String, TypeID)>) -> Option<Seq<char>> {
    concat_all(fields.map_values(|f: (String, TypeID)| field_line(s, defs, f)))
}

/// The struct definition of an entry.
pub open spec fn definition_part(s: Seq<TypeShape>, defs: Seq<Definition>, e: (Seq<char>, DefID)) -> Option<Seq<char>> {
    if 0 <= e.1.0 < defs.len() {
        match defs[e.1.0 as int].kind {
            DefKind::Struct(sd) => match fields_text(s, defs, sd.fields@) {
                Some(f) => Some("struct "@ + e.0 + " {\n"@ + f + "};\n\n"@),
                None => None,
            },
            _ => Some(seq![]),
        }
    } else {
        None
    }
}

/// The header of a scope: struct typedefs, struct definitions and
/// function declarations.
pub open spec fn header_text(s: Seq<TypeShape>, defs: Seq<Definition>, es: Seq<(Seq<char>, DefID)>) -> Option<Seq<char>> {
    match (
        concat_all(typedef_parts(defs, es)),
        concat_all(definition_parts(s, defs, es)),
        fn_decls_text(s, defs, es),
    ) {
        (Some(t), Some(d), Some(f)) => Some(t + "\n"@ + d + "\n"@ + f + "\n"@),
        _ => None,
    }
}

impl<'a> Codegen<'a> {
    /// Appends the C signature of a function.
    pub fn emit_fn_sig(&self, buffer: &mut String, fnsig: &FnSig) -> (r: Result<(), String>)
        requires
            self.ctx.names_ok(),
            sig_printable(self.ctx.interner@, *fnsig),
        ensures
            r is Ok <==> sig_text(self.ctx.interner@, self.ctx.table@.defs, *fnsig) is Some,
            r is Ok ==> final(buffer)@ == old(buffer)@ + sig_text(self.ctx.interner@, self.ctx.table@.defs, *fnsig).unwrap(),
            r is Err ==> old(buffer)@.is_prefix_of(final(buffer)@),
    {
        let ghost s = self.ctx.interner@;
        let ghost defs = self.ctx.table@.defs;
        let ghost first = buffer@;
        let r0 = self.emit_type(buffer, fnsig.return_type, fnsig.name.as_str());
        if r0.is_err() {
            proof {
                lemma_prefix_of_concat(first, seq![]);
                assert(first + seq![] =~= first);
            }
            return r0;
        }
        buffer.append("(");
        let ghost start = buffer@;
        proof {
            lemma_prefix_of_concat(first, start.subrange(first.len() as int, start.len() as int));
            assert(first + start.subrange(first.len() as int, start.len() as int) =~= start);
        }
        let fntype = match self.ctx.interner.get(fnsig.typeid) {
            Some(TypeDef::FnPointer(ft)) => ft,
            Some(_) => {
                proof {
                    assert(false);
                }
                return Err(owned("Expected a function pointer"));
            },
            None => {
                let mut msg = owned("Type ");
                push_decimal(&mut msg, fnsig.typeid.0);
                msg.append(" does not exists");
                return Err(msg);
            },
        };
        proof {
            assert(first.is_prefix_of(start));
        }
        let n = if fnsig.params.len() < fntype.params.len() {
            fnsig.params.len()
        } else {
            fntype.params.len()
        };
        let ghost parts = param_parts(s, defs, fnsig.params@, fntype.params@);
        let mut i: usize = 0;
        proof {
            assert(parts.take(0) =~= Seq::<Option<Seq<char>>>::empty());
            reveal_with_fuel(concat_all, 1);
        }
        while i < n
            invariant
                s == self.ctx.interner@,
                defs == self.ctx.table@.defs,
                self.ctx.names_ok(),
                sig_printable(s, *fnsig),
                s[fnsig.typeid.0 as int] == (TypeShape::FnPointer { params: fntype.params@, return_type: fntype.return_type }),
                0 <= fnsig.typeid.0 < s.len(),
                n <= fnsig.params@.len(),
                n <= fntype.params@.len(),
                parts == param_parts(s, defs, fnsig.params@, fntype.params@),
                parts.len() == n,
                i <= n,
                concat_all(parts.take(i as int)) is Some,
                buffer@ == start + concat_all(parts.take(i as int)).unwrap(),
                first.is_prefix_of(start),
                first == old(buffer)@,
            decreases n - i,
        {
            proof {
                lemma_concat_take(parts, i as int);
            }
            let ghost before = buffer@;
            let r = self.emit_type(buffer, fntype.params[i], fnsig.params[i].as_str());
            if r.is_err() {
                proof {
                    lemma_concat_none(parts, i as int);
                    lemma_prefix_of_concat(start, concat_all(parts.take(i as int)).unwrap());
                    lemma_extends(first, start, buffer@);
                }
                return r;
            }
            proof {
                assert(buffer@ =~= start + concat_all(parts.take(i + 1)).unwrap());
            }
            i = i + 1;
        }
        proof {
            assert(parts.take(n as int) =~= parts);
        }
        buffer.append(")");
        Ok(())
    }
}


/// The signature `emit_fn_def` prints for the definition `d`.
pub open spec fn fn_def_text(s: Seq<TypeShape>, defs: Seq<Definition>, d: DefID) -> Option<Seq<char>> {
    if d.0 < defs.len() {
        match defs[d.0 as int].kind {
            DefKind::Function(sig) => sig_text(s, defs, sig),
            _ => None,
        }
    } else {
        None
    }
}

impl<'a> Codegen<'a> {
    /// Appends the declaration of every function defined in `scope`.
    pub fn emit_fn_decl(&self, buffer: &mut String, scope: ScopeID) -> (r: Result<(), String>)
        requires
            self.ctx.names_ok(),
            scope.0 < self.ctx.table@.scopes.len() ==> entries_printable(
                self.ctx.interner@,
                self.ctx.table@.defs,
                self.ctx.table@.scopes[scope.0 as int].entries,
            ),
        ensures
            scope.0 >= self.ctx.table@.scopes.len() ==> r is Err,
            scope.0 < self.ctx.table@.scopes.len() ==> (r is Ok <==> fn_decls_text(
                self.ctx.interner@,
                self.ctx.table@.defs,
                self.ctx.table@.scopes[scope.0 as int].entries,
            ) is Some),
            r is Ok ==> final(buffer)@ == old(buffer)@ + fn_decls_text(
                self.ctx.interner@,
                self.ctx.table@.defs,
                self.ctx.table@.scopes[scope.0 as int].entries,
            ).unwrap(),
            r is Err ==> old(buffer)@.is_prefix_of(final(buffer)@),
    {
        let sc = match self.ctx.table.get_scope(scope) {
            Some(sc) => sc,
            None => {
                let mut msg = owned("Scope ");
                push_decimal(&mut msg, scope.0);
                msg.append(" des not exists");
                proof {
                    assert(buffer@.subrange(0, buffer@.len() as int) =~= buffer@);
                }
                return Err(msg);
            },
        };
        let symbols = sc.symbols();
        let ghost s = self.ctx.interner@;
        let ghost defs = self.ctx.table@.defs;
        let ghost es = self.ctx.table@.scopes[scope.0 as int].entries;
        let ghost parts = fn_decl_parts(s, defs, es);
        let ghost start = buffer@;
        let mut i: usize = 0;
        proof {
            assert(parts.take(0) =~= Seq::<Option<Seq<char>>>::empty());
        }
        while i < symbols.len()
            invariant
                s == self.ctx.interner@,
                defs == self.ctx.table@.defs,
                self.ctx.names_ok(),
                crate::symbols::entry_views(symbols@) == es,
                scope.0 < self.ctx.table@.scopes.len(),
                es == self.ctx.table@.scopes[scope.0 as int].entries,
                entries_printable(s, defs, es),
                parts == fn_decl_parts(s, defs, es),
                i <= symbols@.len(),
                concat_all(parts.take(i as int)) is Some,
                buffer@ == start + concat_all(parts.take(i as int)).unwrap(),
                start == old(buffer)@,
            decreases symbols.len() - i,
        {
            proof {
                lemma_concat_take(parts, i as int);
                assert(es[i as int] == (symbols@[i as int].0@, symbols@[i as int].1));
                lemma_prefix_of_concat(start, concat_all(parts.take(i as int)).unwrap());
            }
            let defid = symbols[i].1;
            let def = match self.ctx.table.get_def(defid) {
                Some(d) => d,
                None => {
                    proof {
                        lemma_concat_none(parts, i as int);
                    }
                    let mut msg = owned("Def ");
                    push_decimal(&mut msg, defid.0);
                    msg.append(" does not exists");
                    return Err(msg);
                },
            };
            match &def.kind {
                DefKind::Function(fnsig) => {
                    let ghost before = buffer@;
                    let r = self.emit_fn_sig(buffer, fnsig);
                    if r.is_err() {
                        proof {
                            lemma_concat_none(parts, i as int);
                            lemma_extends(start, before, buffer@);
                        }
                        return r;
                    }
                    buffer.append(";\n");
                },
                _ => {},
            }
            proof {
                assert(buffer@ =~= start + concat_all(parts.take(i + 1)).unwrap());
            }
            i = i + 1;
        }
        proof {
            assert(parts.take(i as int) =~= parts);
        }
        Ok(())
    }

    /// Appends the fields of a struct definition, one line each.
    fn emit_fields(&self, buffer: &mut String, fields: &Vec<(String, TypeID)>) -> (r: Result<(), String>)
        requires
            self.ctx.names_ok(),
            forall|k: int| 0 <= k < fields@.len() ==> no_fn_pointer(self.ctx.interner@, (#[trigger] fields@[k]).1.0 as int),
        ensures
            r is Ok <==> fields_text(self.ctx.interner@, self.ctx.table@.defs, fields@) is Some,
            r is Ok ==> final(buffer)@ == old(buffer)@ + fields_text(self.ctx.interner@, self.ctx.table@.defs, fields@).unwrap(),
            r is Err ==> old(buffer)@.is_prefix_of(final(buffer)@),
    {
        let ghost s = self.ctx.interner@;
        let ghost defs = self.ctx.table@.defs;
        let ghost parts = fields@.map_values(|f: (String, TypeID)| field_line(s, defs, f));
        let ghost start = buffer@;
        let mut i: usize = 0;
        proof {
            assert(parts.take(0) =~= Seq::<Option<Seq<char>>>::empty());
        }
        while i < fields.len()
            invariant
                s == self.ctx.interner@,
                defs == self.ctx.table@.defs,
                self.ctx.names_ok(),
                forall|k: int| 0 <= k < fields@.len() ==> no_fn_pointer(s, (#[trigger] fields@[k]).1.0 as int),
                parts == fields@.map_values(|f: (String, TypeID)| field_line(s, defs, f)),
                i <= fields@.len(),
                concat_all(parts.take(i as int)) is Some,
                buffer@ == start + concat_all(parts.take(i as int)).unwrap(),
                start == old(buffer)@,
            decreases fields.len() - i,
        {
            proof {
                lemma_concat_take(parts, i as int);
            }
            buffer.append("  ");
            let r = self.emit_type(buffer, fields[i].1, fields[i].0.as_str());
            if r.is_err() {
                proof {
                    lemma_concat_none(parts, i as int);
                    assert(buffer@.subrange(0, start.len() as int) =~= start);
                }
                return r;
            }
            buffer.append("\n");
            proof {
                assert(buffer@ =~= start + concat_all(parts.take(i + 1)).unwrap());
            }
            i = i + 1;
        }
        proof {
            assert(parts.take(i as int) =~= parts);
        }
        Ok(())
    }

    /// Appends the header of a scope: a typedef for each struct, the
    /// struct definitions, and the function declarations.
    pub fn emit_header(&self, buffer: &mut String, scopeid: ScopeID) -> (r: Result<(), String>)
        requires
            self.ctx.names_ok(),
            scopeid.0 < self.ctx.table@.scopes.len() ==> entries_printable(
                self.ctx.interner@,
                self.ctx.table@.defs,
                self.ctx.table@.scopes[scopeid.0 as int].entries,
            ),
        ensures
            scopeid.0 >= self.ctx.table@.scopes.len() ==> r is Err,
            scopeid.0 < self.ctx.table@.scopes.len() ==> (r is Ok <==> header_text(
                self.ctx.interner@,
                self.ctx.table@.defs,
                self.ctx.table@.scopes[scopeid.0 as int].entries,
            ) is Some),
            r is Ok ==> final(buffer)@ == old(buffer)@ + header_text(
                self.ctx.interner@,
                self.ctx.table@.defs,
                self.ctx.table@.scopes[scopeid.0 as int].entries,
            ).unwrap(),
            r is Err ==> old(buffer)@.is_prefix_of(final(buffer)@),
    {
        let sc = match self.ctx.table.get_scope(scopeid) {
            Some(sc) => sc,
            None => {
                let mut msg = owned("Scope ");
                push_decimal(&mut msg, scopeid.0);
                msg.append(" des not exists");
                proof {
                    assert(buffer@.subrange(0, buffer@.len() as int) =~= buffer@);
                }
                return Err(msg);
            },
        };
        let symbols = sc.symbols();
        let ghost s = self.ctx.interner@;
        let ghost defs = self.ctx.table@.defs;
        let ghost es = self.ctx.table@.scopes[scopeid.0 as int].entries;
        let ghost tparts = typedef_parts(defs, es);
        let ghost dparts = definition_parts(s, defs, es);
        let ghost start = buffer@;
        let mut definitions = String::new();
        let mut i: usize = 0;
        proof {
            assert(tparts.take(0) =~= Seq::<Option<Seq<char>>>::empty());
            assert(dparts.take(0) =~= Seq::<Option<Seq<char>>>::empty());
            assert(definitions@ =~= Seq::<char>::empty());
        }
        while i < symbols.len()
            invariant
                s == self.ctx.interner@,
                defs == self.ctx.table@.defs,
                self.ctx.names_ok(),
                crate::symbols::entry_views(symbols@) == es,
                scopeid.0 < self.ctx.table@.scopes.len(),
                es == self.ctx.table@.scopes[scopeid.0 as int].entries,
                entries_printable(s, defs, es),
                tparts == typedef_parts(defs, es),
                dparts == definition_parts(s, defs, es),
                i <= symbols@.len(),
                concat_all(tparts.take(i as int)) is Some,
                concat_all(dparts.take(i as int)) is Some,
                buffer@ == start + concat_all(tparts.take(i as int)).unwrap(),
                definitions@ == concat_all(dparts.take(i as int)).unwrap(),
                start == old(buffer)@,
            decreases symbols.len() - i,
        {
            proof {
                lemma_concat_take(tparts, i as int);
                lemma_concat_take(dparts, i as int);
                assert(es[i as int] == (symbols@[i as int].0@, symbols@[i as int].1));
                lemma_prefix_of_concat(start, concat_all(tparts.take(i as int)).unwrap());
            }
            let name = symbols[i].0.as_str();
            let defid = symbols[i].1;
            let def = match self.ctx.table.get_def(defid) {
                Some(d) => d,
                None => {
                    proof {
                        lemma_concat_none(tparts, i as int);
                    }
                    let mut msg = owned("Def ");
                    push_decimal(&mut msg, defid.0);
                    msg.append(" does not exists");
                    return Err(msg);
                },
            };
            match &def.kind {
                DefKind::Struct(sd) => {
                    buffer.append("typedef struct ");
                    buffer.append(name);
                    buffer.append(" ");
                    buffer.append(name);
                    buffer.append(";\n");
                    definitions.append("struct ");
                    definitions.append(name);
                    definitions.append(" {\n");
                    let r = self.emit_fields(&mut definitions, &sd.fields);
                    if r.is_err() {
                        proof {
                            lemma_concat_none(dparts, i as int);
                            assert(buffer@.subrange(0, start.len() as int) =~= start);
                        }
                        return r;
                    }
                    definitions.append("};\n\n");
                },
                _ => {},
            }
            proof {
                assert(buffer@ =~= start + concat_all(tparts.take(i + 1)).unwrap());
                assert(definitions@ =~= concat_all(dparts.take(i + 1)).unwrap());
            }
            i = i + 1;
        }
        proof {
            assert(tparts.take(i as int) =~= tparts);
            assert(dparts.take(i as int) =~= dparts);
        }
        buffer.append("\n");
        buffer.append(definitions.as_str());
        buffer.append("\n");
        let ghost mid = buffer@;
        let r = self.emit_fn_decl(buffer, scopeid);
        if r.is_err() {
            proof {
                lemma_prefix_of_concat(start, mid.subrange(start.len() as int, mid.len() as int));
                assert(start + mid.subrange(start.len() as int, mid.len() as int) =~= mid);
                lemma_extends(start, mid, buffer@);
            }
            return r;
        }
        buffer.append("\n");
        Ok(())
    }

    /// Appends the signature of a lowered function, found through its
    /// definition.
    pub fn emit_fn_def(&self, buffer: &mut String, scope: ScopeID, decl: &FnIR) -> (r: Result<(), String>)
        requires
            self.ctx.names_ok(),
            decl.defid.0 < self.ctx.table@.defs.len() ==> (self.ctx.table@.defs[decl.defid.0 as int].kind matches DefKind::Function(sig)
                ==> sig_printable(self.ctx.interner@, sig)),
        ensures
            r is Ok <==> fn_def_text(self.ctx.interner@, self.ctx.table@.defs, decl.defid) is Some,
            r is Ok ==> final(buffer)@ == old(buffer)@ + fn_def_text(self.ctx.interner@, self.ctx.table@.defs, decl.defid).unwrap(),
    {
        let def = match self.ctx.table.get_def(decl.defid) {
            Some(d) => d,
            None => {
                let mut msg = owned("Def ");
                push_decimal(&mut msg, decl.defid.0);
                msg.append(" does not exists");
                return Err(msg);
            },
        };
        match &def.kind {
            DefKind::Function(sig) => self.emit_fn_sig(buffer, sig),
            _ => {
                let mut msg = owned("Def ");
                push_decimal(&mut msg, decl.defid.0);
                msg.append(" is not a function");
                Err(msg)
            },
        }
    }
}


/// `n` levels of indentation, two spaces each.
pub open spec fn indent_text(n: nat) -> Seq<char>
    decreases n,
{
    if n == 0 {
        seq![]
    } else {
        indent_text((n - 1) as nat) + "  "@
    }
}

/// The C text of a lowered expression: a value as it is, an operation in
/// parentheses with its operator between spaces.
pub open spec fn expr_text(e: ExprIR) -> Seq<char>
    decreases e,
{
    match e {
        ExprIR::Value(v) => v@,
        ExprIR::BinaryOp { left, op, right } => "("@ + expr_text(*left) + " "@ + op@ + " "@ + expr_text(*right) + ")"@,
    }
}

/// Appends the C text of a lowered expression.
fn emit_expr(buffer: &mut String, e: &ExprIR)
    ensures
        final(buffer)@ == old(buffer)@ + expr_text(*e),
    decreases e,
{
    match e {
        ExprIR::Value(v) => {
            buffer.append(v.as_str());
        },
        ExprIR::BinaryOp { left, op, right } => {
            let ghost start = buffer@;
            buffer.append("(");
            emit_expr(buffer, left);
            buffer.append(" ");
            buffer.append(op.as_str());
            buffer.append(" ");
            emit_expr(buffer, right);
            buffer.append(")");
            proof {
                reveal_strlit("(");
                reveal_strlit(" ");
                reveal_strlit(")");
                assert(buffer@ =~= start + expr_text(*e));
            }
        },
    }
}

/// The line of one lowered statement.
pub open spec fn stmt_line(s: Seq<TypeShape>, defs: Seq<Definition>, st: StmtIR, indent: nat) -> Option<Seq<char>> {
    match st {
        StmtIR::Expr(e) => Some(indent_text(indent) + expr_text(e) + ";\n"@),
        StmtIR::Local(label, t) => match c_decl(s, defs, t.0 as int, label@) {
            Some(d) => Some(indent_text(indent) + d + ";\n"@),
            None => None,
        },
        StmtIR::Assign(label, e) => Some(indent_text(indent) + label@ + " = "@ + expr_text(e) + ";\n"@),
    }
}

pub open spec fn body_parts(s: Seq<TypeShape>, defs: Seq<Definition>, body: Seq<StmtIR>, indent: nat) -> Seq<Option<Seq<char>>> {
    body.map_values(|st: StmtIR| stmt_line(s, defs, st, indent))
}

/// Every local of the body has a type with a C declaration.
pub open spec fn body_printable(s: Seq<TypeShape>, body: Seq<StmtIR>) -> bool {
    forall|k: int| 0 <= k < body.len() ==> ((#[trigger] body[k]) matches StmtIR::Local(_, t) ==> no_fn_pointer(s, t.0 as int))
}

/// Prints the body of a lowered function.
pub struct BodyEmitter<'a, 's> {
    pub ctx: &'a Context,
    pub ir: &'s FnIR,
    pub indent: u32,
}

impl<'a, 's> BodyEmitter<'a, 's> {
    pub fn new(ctx: &'a Context, ir: &'s FnIR) -> (r: Self)
        ensures
            r.ctx == ctx,
            r.ir == ir,
            r.indent == 1,
    {
        Self { ctx, ir, indent: 1 }
    }

    /// Appends the body, one indented line per statement.
    pub fn emit(&mut self, buffer: &mut String, scope: ScopeID) -> (r: Result<(), String>)
        requires
            old(self).ctx.names_ok(),
            body_printable(old(self).ctx.interner@, old(self).ir.body@),
        ensures
            *final(self) == *old(self),
            r is Ok <==> concat_all(body_parts(old(self).ctx.interner@, old(self).ctx.table@.defs, old(self).ir.body@, old(self).indent as nat)) is Some,
            r is Ok ==> final(buffer)@ == old(buffer)@ + concat_all(body_parts(old(self).ctx.interner@, old(self).ctx.table@.defs, old(self).ir.body@, old(self).indent as nat)).unwrap(),
            r is Err ==> old(buffer)@.is_prefix_of(final(buffer)@),
    {
        let ghost s = self.ctx.interner@;
        let ghost defs = self.ctx.table@.defs;
        let ghost parts = body_parts(s, defs, self.ir.body@, self.indent as nat);
        let ghost start = buffer@;
        let codegen = Codegen::new(self.ctx);
        let mut i: usize = 0;
        proof {
            assert(parts.take(0) =~= Seq::<Option<Seq<char>>>::empty());
        }
        while i < self.ir.body.len()
            invariant
                s == self.ctx.interner@,
                defs == self.ctx.table@.defs,
                codegen.ctx == self.ctx,
                self.ctx.names_ok(),
                body_printable(s, self.ir.body@),
                parts == body_parts(s, defs, self.ir.body@, self.indent as nat),
                i <= self.ir.body@.len(),
                concat_all(parts.take(i as int)) is Some,
                buffer@ == start + concat_all(parts.take(i as int)).unwrap(),
                start == old(buffer)@,
            decreases self.ir.body.len() - i,
        {
            proof {
                lemma_concat_take(parts, i as int);
            }
            let ghost before = buffer@;
            emit_indentation(buffer, self.indent);
            match &self.ir.body[i] {
                StmtIR::Expr(e) => {
                    emit_expr(buffer, e);
                },
                StmtIR::Local(label, typeid) => {
                    let r = codegen.emit_type(buffer, *typeid, label.as_str());
                    if r.is_err() {
                        proof {
                            lemma_concat_none(parts, i as int);
                            assert(buffer@.subrange(0, start.len() as int) =~= start);
                        }
                        return r;
                    }
                },
                StmtIR::Assign(label, e) => {
                    buffer.append(label.as_str());
                    buffer.append(" = ");
                    emit_expr(buffer, e);
                },
            }
            buffer.append(";\n");
            proof {
                assert(buffer@ =~= start + concat_all(parts.take(i + 1)).unwrap());
            }
            i = i + 1;
        }
        proof {
            assert(parts.take(i as int) =~= parts);
        }
        Ok(())
    }
}

fn emit_indentation(buffer: &mut String, indentation: u32)
    ensures
        final(buffer)@ == old(buffer)@ + indent_text(indentation as nat),
{
    let ghost start = buffer@;
    let mut i: u32 = 0;
    while i < indentation
        invariant
            i <= indentation,
            buffer@ == start + indent_text(i as nat),
        decreases indentation - i,
    {
        buffer.append("  ");
        i = i + 1;
        proof {
            assert(buffer@ =~= start + indent_text(i as nat));
        }
    }
}

} // verus!
