//! The resolver's symbol table: a tree of scopes mapping names to
//! definitions. Lookup walks from a scope up through its ancestors, so an
//! inner definition shadows an outer one of the same name.
use vstd::prelude::*;

use crate::defkinds::{EnumDef, FnSig, StructDef, TraitDef, TypeAliasDef};
use crate::text::{decimal, push_decimal};
use crate::types::{DefID, ScopeID, TypeID};

verus! {

pub type Error = String;

#[derive(Debug)]
pub struct Scope {
    parent: Option<ScopeID>,
    symbols: Vec<(String, DefID)>,
}

#[derive(Debug)]
pub struct SymbolTable {
    scopes: Vec<Scope>,
    defs: Vec<Definition>,
}

#[derive(Debug)]
pub struct Definition {
    pub name: String,
    pub kind: DefKind,
}

#[derive(Debug)]
pub enum DefKind {
    Variable { typeid: TypeID },
    TypeAlias(TypeAliasDef),
    Struct(StructDef),
    Trait(TraitDef),
    Enum(EnumDef),
    Function(FnSig),
    Module { scope: ScopeID },
}

/// The type a definition introduces, if it defines a type.
pub open spec fn def_typeid(kind: DefKind) -> Option<TypeID> {
    match kind {
        DefKind::Enum(def) => Some(def.typeid),
        DefKind::Struct(def) => Some(def.typeid),
        DefKind::TypeAlias(def) => Some(def.typeid),
        DefKind::Trait(def) => Some(def.typeid),
        _ => None,
    }
}

impl Definition {
    pub fn var(name: &str, ty: TypeID) -> (r: Self)
        ensures
            r.name@ == name@,
            r.kind == (DefKind::Variable { typeid: ty }),
    {
        Self { name: crate::text::owned(name), kind: DefKind::Variable { typeid: ty } }
    }

    pub fn typeid(&self) -> (r: Option<TypeID>)
        ensures
            r == def_typeid(self.kind),
    {
        match &self.kind {
            DefKind::Enum(def) => Some(def.typeid),
            DefKind::Struct(def) => Some(def.typeid),
            DefKind::TypeAlias(def) => Some(def.typeid),
            DefKind::Trait(def) => Some(def.typeid),
            _ => None,
        }
    }
}

/// The names of a scope's entries, with the definitions they stand for.
pub open spec fn entry_views(entries: Seq<(String, DefID)>) -> Seq<(Seq<char>, DefID)> {
    entries.map_values(|e: (String, DefID)| (e.0@, e.1))
}

/// The definition that the first entry named `name` stands for.
pub open spec fn find_entry(entries: Seq<(Seq<char>, DefID)>, name: Seq<char>) -> Option<DefID>
    decreases entries.len(),
{
    if entries.len() == 0 {
        None
    } else if entries[0].0 == name {
        Some(entries[0].1)
    } else {
        find_entry(entries.drop_first(), name)
    }
}

/// A scope as a value: its parent and its entries in definition order.
pub struct ScopeView {
    pub parent: Option<ScopeID>,
    pub entries: Seq<(Seq<char>, DefID)>,
}

impl View for Scope {
    type V = ScopeView;

    closed spec fn view(&self) -> ScopeView {
        ScopeView { parent: self.parent, entries: entry_views(self.symbols@) }
    }
}

/// The symbol table as a value: its scopes, and its definitions indexed by `DefID`.
pub struct TableView {
    pub scopes: Seq<ScopeView>,
    pub defs: Seq<Definition>,
}

impl View for SymbolTable {
    type V = TableView;

    closed spec fn view(&self) -> TableView {
        TableView { scopes: self.scopes@.map_values(|s: Scope| s@), defs: self.defs@ }
    }
}

/// No two entries of a scope share a name.
pub open spec fn distinct_names(entries: Seq<(Seq<char>, DefID)>) -> bool {
    forall|i: int, j: int|
        0 <= i < entries.len() && 0 <= j < entries.len() && i != j ==> entries[i].0
            != entries[j].0
}

impl TableView {
    /// The table's shape: a root scope exists, every parent precedes its
    /// child, names are unique within a scope and every entry points at a
    /// stored definition.
    pub open spec fn wf(self) -> bool {
        &&& self.scopes.len() >= 1
        &&& self.defs.len() <= usize::MAX
        &&& self.scopes[0].parent is None
        &&& forall|i: int|
            0 <= i < self.scopes.len() ==> ((#[trigger] self.scopes[i]).parent matches Some(p)
                ==> p.0 < i)
        &&& forall|i: int| 0 <= i < self.scopes.len() ==> distinct_names(#[trigger] self.scopes[i].entries)
        &&& forall|i: int, k: int|
            0 <= i < self.scopes.len() && 0 <= k < self.scopes[i].entries.len() ==> (#[trigger] self.scopes[i].entries[k]).1.0
                < self.defs.len()
    }

    /// The definition `name` resolves to in `scope`, searching the scope
    /// first and then its ancestors.
    pub open spec fn lookup(self, scope: int, name: Seq<char>) -> Option<DefID>
        decreases scope,
    {
        if scope < 0 || scope >= self.scopes.len() {
            None
        } else {
            match find_entry(self.scopes[scope].entries, name) {
                Some(d) => Some(d),
                None => match self.scopes[scope].parent {
                    Some(p) => if 0 <= p.0 < scope {
                        self.lookup(p.0 as int, name)
                    } else {
                        None
                    },
                    None => None,
                },
            }
        }
    }

    /// The definition `name` resolves to in `scope` itself, ignoring ancestors.
    pub open spec fn lookup_local(self, scope: int, name: Seq<char>) -> Option<DefID> {
        if scope < 0 || scope >= self.scopes.len() {
            None
        } else {
            find_entry(self.scopes[scope].entries, name)
        }
    }

    /// The table after adding a child scope of `parent`.
    pub open spec fn push_model(self, parent: ScopeID) -> TableView {
        TableView {
            scopes: self.scopes.push(ScopeView { parent: Some(parent), entries: seq![] }),
            defs: self.defs,
        }
    }

    /// The table after defining `def` in `scope` (when that is allowed).
    pub open spec fn define_model(self, scope: int, def: Definition) -> TableView {
        TableView {
            scopes: self.scopes.update(
                scope,
                ScopeView {
                    parent: self.scopes[scope].parent,
                    entries: self.scopes[scope].entries.push((def.name@, DefID(self.defs.len() as usize))),
                },
            ),
            defs: self.defs.push(def),
        }
    }
}

/// The error text for a definition whose scope does not exist.
pub open spec fn invalid_scope_message(scope: usize) -> Seq<char> {
    "invalid scope: "@ + decimal(scope as nat)
}

/// The error text for a name that a scope already defines.
pub open spec fn already_defined_message(name: Seq<char>) -> Seq<char> {
    "symbol already defined: "@ + name
}

/// The error text for a child of a scope that does not exist.
pub open spec fn invalid_parent_message(scope: usize) -> Seq<char> {
    "invalid parent scope: "@ + decimal(scope as nat)
}

fn find_in_entries(entries: &Vec<(String, DefID)>, name: &str) -> (r: Option<DefID>)
    ensures
        r == find_entry(entry_views(entries@), name@),
{
    let mut i: usize = 0;
    assert(entry_views(entries@).skip(0) =~= entry_views(entries@));
    while i < entries.len()
        invariant
            i <= entries@.len(),
            find_entry(entry_views(entries@), name@) == find_entry(
                entry_views(entries@).skip(i as int),
                name@,
            ),
        decreases entries.len() - i,
    {
        assert(entry_views(entries@).skip(i as int).drop_first() =~= entry_views(entries@).skip(
            i + 1,
        ));
        if crate::text::str_eq(entries[i].0.as_str(), name) {
            return Some(entries[i].1);
        }
        i = i + 1;
    }
    assert(entry_views(entries@).skip(i as int) =~= Seq::<(Seq<char>, DefID)>::empty());
    None
}

pub proof fn lemma_find_entry_some(entries: Seq<(Seq<char>, DefID)>, name: Seq<char>)
    ensures
        find_entry(entries, name) matches Some(d) ==> exists|k: int|
            0 <= k < entries.len() && #[trigger] entries[k] == (name, d),
        find_entry(entries, name) is None ==> forall|k: int|
            0 <= k < entries.len() ==> (#[trigger] entries[k]).0 != name,
    decreases entries.len(),
{
    if entries.len() > 0 {
        lemma_find_entry_some(entries.drop_first(), name);
        if entries[0].0 != name {
            if let Some(d) = find_entry(entries, name) {
                let k = choose|k: int|
                    0 <= k < entries.drop_first().len() && #[trigger] entries.drop_first()[k] == (
                    name, d);
                assert(entries[k + 1] == (name, d));
            } else {
                assert forall|k: int| 0 <= k < entries.len() implies (#[trigger] entries[k]).0
                    != name by {
                    if k > 0 {
                        assert(entries[k] == entries.drop_first()[k - 1]);
                    }
                }
            }
        }
    }
}

pub proof fn lemma_find_entry_push(entries: Seq<(Seq<char>, DefID)>, name: Seq<char>, e: (Seq<char>, DefID))
    ensures
        find_entry(entries.push(e), name) == match find_entry(entries, name) {
            Some(d) => Some(d),
            None => if e.0 == name { Some(e.1) } else { None },
        },
    decreases entries.len(),
{
    if entries.len() > 0 {
        assert(entries.push(e).drop_first() =~= entries.drop_first().push(e));
        assert(entries.push(e)[0] == entries[0]);
        lemma_find_entry_push(entries.drop_first(), name, e);
    } else {
        assert(entries.push(e).drop_first() =~= Seq::<(Seq<char>, DefID)>::empty());
        assert(entries.push(e)[0] == e);
        assert(find_entry(Seq::<(Seq<char>, DefID)>::empty(), name) is None);
    }
}

impl SymbolTable {
    /// A table holding only the root scope.
    pub fn new() -> (r: Self)
        ensures
            r@.wf(),
            r@.scopes =~= seq![ScopeView { parent: None, entries: seq![] }],
            r@.defs =~= Seq::<Definition>::empty(),
    {
        let mut scopes = Vec::new();
        scopes.push(Scope::new(None));
        let r = Self { defs: Vec::new(), scopes };
        assert(r@.scopes[0].entries =~= seq![]);
        r
    }

    pub fn get_scope(&self, scope: ScopeID) -> (r: Option<&Scope>)
        ensures
            r is None <==> scope.0 >= self@.scopes.len(),
            r matches Some(s) ==> s@ == self@.scopes[scope.0 as int],
    {
        if scope.0 < self.scopes.len() {
            Some(&self.scopes[scope.0])
        } else {
            None
        }
    }

    pub fn root(&self) -> (r: ScopeID)
        ensures
            r == ScopeID(0),
    {
        ScopeID(0)
    }

    pub fn scope_count(&self) -> (r: usize)
        ensures
            r == self@.scopes.len(),
    {
        self.scopes.len()
    }

    pub fn def_count(&self) -> (r: usize)
        ensures
            r == self@.defs.len(),
    {
        self.defs.len()
    }

    /// Adds a child scope of `parent` and returns its id.
    pub fn push(&mut self, parent: ScopeID) -> (r: Result<ScopeID, Error>)
        requires
            old(self)@.wf(),
        ensures
            final(self)@.wf(),
            parent.0 < old(self)@.scopes.len() ==> r == Ok::<ScopeID, Error>(
                ScopeID(old(self)@.scopes.len() as usize),
            ) && final(self)@ == old(self)@.push_model(parent),
            parent.0 >= old(self)@.scopes.len() ==> (r matches Err(e) && e@
                == invalid_parent_message(parent.0) && final(self)@ == old(self)@),
    {
        if parent.0 >= self.scopes.len() {
            let mut e = crate::text::owned("invalid parent scope: ");
            push_decimal(&mut e, parent.0);
            return Err(e);
        }
        let id = ScopeID(self.scopes.len());
        let ghost before = self@;
        self.scopes.push(Scope::new(Some(parent)));
        proof {
            assert(self@.scopes =~= before.push_model(parent).scopes);
            assert(self@.scopes[id.0 as int].entries =~= seq![]);
        }
        Ok(id)
    }

    /// Defines `def` in `scope`; fails when the scope does not exist or
    /// already has an entry of the same name.
    pub fn define(&mut self, scope: ScopeID, def: Definition) -> (r: Result<DefID, Error>)
        requires
            old(self)@.wf(),
        ensures
            final(self)@.wf(),
            scope.0 >= old(self)@.scopes.len() ==> (r matches Err(e) && e@ == invalid_scope_message(
                scope.0,
            ) && final(self)@ == old(self)@),
            scope.0 < old(self)@.scopes.len() && old(self)@.lookup_local(scope.0 as int, def.name@)
                is Some ==> (r matches Err(e) && e@ == already_defined_message(def.name@)
                && final(self)@ == old(self)@),
            scope.0 < old(self)@.scopes.len() && old(self)@.lookup_local(scope.0 as int, def.name@)
                is None ==> r == Ok::<DefID, Error>(DefID(old(self)@.defs.len() as usize))
                && final(self)@ == old(self)@.define_model(scope.0 as int, def),
    {
        if scope.0 >= self.scopes.len() {
            let mut e = crate::text::owned("invalid scope: ");
            push_decimal(&mut e, scope.0);
            return Err(e);
        }
        if find_in_entries(&self.scopes[scope.0].symbols, def.name.as_str()).is_some() {
            let mut e = crate::text::owned("symbol already defined: ");
            e.append(def.name.as_str());
            return Err(e);
        }
        let ghost before = self@;
        let def_id = DefID(self.defs.len());
        let name = def.name.clone();
        self.scopes[scope.0].symbols.push((name, def_id));
        self.defs.push(def);
        proof {
            assert(self.defs@.len() == self.defs.len());
            let i = scope.0 as int;
            let old_entries = before.scopes[i].entries;
            let new_entries = old_entries.push((def.name@, def_id));
            assert(self@.scopes[i].entries =~= new_entries);
            assert(self@.scopes =~= before.define_model(i, def).scopes);
            lemma_find_entry_some(old_entries, def.name@);
            assert(distinct_names(new_entries));
            assert forall|j: int, k: int|
                0 <= j < self@.scopes.len() && 0 <= k < self@.scopes[j].entries.len() implies (
            #[trigger] self@.scopes[j].entries[k]).1.0 < self@.defs.len() by {
                if j == i && k == old_entries.len() {
                } else {
                    assert(before.scopes[j].entries[k] == self@.scopes[j].entries[k]);
                }
            }
        }
        Ok(def_id)
    }

    pub fn get_def(&self, defid: DefID) -> (r: Option<&Definition>)
        ensures
            r is None <==> defid.0 >= self@.defs.len(),
            r matches Some(d) ==> *d == self@.defs[defid.0 as int],
    {
        if defid.0 < self.defs.len() {
            Some(&self.defs[defid.0])
        } else {
            None
        }
    }

    /// Replaces the kind of the definition `defid`; the name is kept, so the
    /// scopes do not change.
    pub fn set_def_kind(&mut self, defid: DefID, kind: DefKind) -> (r: bool)
        requires
            old(self)@.wf(),
        ensures
            final(self)@.wf(),
            r == (defid.0 < old(self)@.defs.len()),
            final(self)@.scopes == old(self)@.scopes,
            r ==> final(self)@.defs == old(self)@.defs.update(
                defid.0 as int,
                Definition { name: old(self)@.defs[defid.0 as int].name, kind },
            ),
            !r ==> final(self)@ == old(self)@,
    {
        if defid.0 >= self.defs.len() {
            return false;
        }
        self.defs[defid.0].kind = kind;
        true
    }

    /// The definition `name` resolves to in `scope` or one of its ancestors.
    pub fn lookup(&self, scope: ScopeID, name: &str) -> (r: Option<DefID>)
        requires
            self@.wf(),
        ensures
            r == self@.lookup(scope.0 as int, name@),
        decreases scope.0,
    {
        if scope.0 >= self.scopes.len() {
            return None;
        }
        let sc = &self.scopes[scope.0];
        if let Some(defid) = find_in_entries(&sc.symbols, name) {
            return Some(defid);
        }
        match sc.parent {
            Some(parent) => {
                proof {
                    assert(self@.scopes[scope.0 as int].parent == Some(parent));
                }
                self.lookup(parent, name)
            },
            None => None,
        }
    }

    /// The definition `name` resolves to in `scope` itself.
    pub fn lookup_local(&self, scope: ScopeID, name: &str) -> (r: Option<DefID>)
        ensures
            r == self@.lookup_local(scope.0 as int, name@),
    {
        if scope.0 >= self.scopes.len() {
            return None;
        }
        find_in_entries(&self.scopes[scope.0].symbols, name)
    }
}

impl Scope {
    pub fn new(parent: Option<ScopeID>) -> (r: Self)
        ensures
            r@.parent == parent,
            r@.entries =~= Seq::<(Seq<char>, DefID)>::empty(),
    {
        let r = Self { parent: parent, symbols: Vec::new() };
        assert(r@.entries =~= Seq::<(Seq<char>, DefID)>::empty());
        r
    }

    pub fn parent(&self) -> (r: Option<ScopeID>)
        ensures
            r == self@.parent,
    {
        self.parent
    }

    /// The scope's entries in the order they were defined.
    pub fn symbols(&self) -> (r: &Vec<(String, DefID)>)
        ensures
            entry_views(r@) == self@.entries,
    {
        &self.symbols
    }
}

/// A definition can be found right after it is made, under its own name, in
/// its scope.
pub proof fn law_define_then_lookup_local(t: TableView, scope: int, def: Definition)
    requires
        t.wf(),
        0 <= scope < t.scopes.len(),
        t.lookup_local(scope, def.name@) is None,
    ensures
        t.define_model(scope, def).lookup_local(scope, def.name@) == Some(
            DefID(t.defs.len() as usize),
        ),
        t.define_model(scope, def).lookup(scope, def.name@) == Some(DefID(t.defs.len() as usize)),
        t.define_model(scope, def).defs[t.defs.len() as int] == def,
{
    lemma_find_entry_push(t.scopes[scope].entries, def.name@, (def.name@, DefID(t.defs.len() as usize)));
}

/// A name defined in a scope is visible from every child scope that does not
/// define it again.
pub proof fn law_lookup_reaches_parent(t: TableView, parent: ScopeID, name: Seq<char>)
    requires
        t.wf(),
        parent.0 < t.scopes.len(),
    ensures
        t.push_model(parent).lookup(t.scopes.len() as int, name) == t.lookup(parent.0 as int, name),
{
    let t2 = t.push_model(parent);
    lemma_lookup_prefix(t, t2, parent.0 as int, name);
}

proof fn lemma_lookup_prefix(t: TableView, t2: TableView, scope: int, name: Seq<char>)
    requires
        t.scopes.len() <= t2.scopes.len(),
        forall|i: int| 0 <= i < t.scopes.len() ==> t2.scopes[i] == #[trigger] t.scopes[i],
        0 <= scope < t.scopes.len(),
    ensures
        t2.lookup(scope, name) == t.lookup(scope, name),
    decreases scope,
{
    assert(t2.scopes[scope] == t.scopes[scope]);
    if let Some(p) = t.scopes[scope].parent {
        if 0 <= p.0 < scope {
            lemma_lookup_prefix(t, t2, p.0 as int, name);
        }
    }
}

/// A definition in a child scope shadows one of the same name further out,
/// and the outer scope still sees its own.
pub proof fn law_shadowing(t: TableView, parent: ScopeID, def: Definition)
    requires
        t.wf(),
        parent.0 < t.scopes.len(),
    ensures
        ({
            let t2 = t.push_model(parent);
            let child = t.scopes.len() as int;
            let t3 = t2.define_model(child, def);
            &&& t3.lookup(child, def.name@) == Some(DefID(t.defs.len() as usize))
            &&& t3.lookup(parent.0 as int, def.name@) == t.lookup(parent.0 as int, def.name@)
        }),
{
    let t2 = t.push_model(parent);
    let child = t.scopes.len() as int;
    let t3 = t2.define_model(child, def);
    lemma_find_entry_push(t2.scopes[child].entries, def.name@, (def.name@, DefID(t.defs.len() as usize)));
    assert(t2.scopes[child].entries =~= Seq::<(Seq<char>, DefID)>::empty());
    lemma_lookup_prefix(t, t3, parent.0 as int, def.name@);
}

} // verus!
