//! The payloads of the symbol table's definitions.
use vstd::prelude::*;

use crate::types::TypeID;

verus! {

#[derive(Debug)]
pub struct TypeAliasDef {
    pub resolved: bool,
    pub typeid: TypeID,
}

#[derive(Debug)]
pub struct StructDef {
    /// The fields in declaration order, each with its type.
    pub fields: Vec<(String, TypeID)>,
    pub resolved: bool,
    pub typeid: TypeID,
}

#[derive(Debug)]
pub struct TraitDef {
    pub resolved: bool,
    pub typeid: TypeID,
}

#[derive(Debug)]
pub struct EnumDef {
    pub resolved: bool,
    pub values: Vec<String>,
    pub typeid: TypeID,
}

#[derive(Debug)]
pub struct FnSig {
    pub name: String,
    /// The parameter names, in order.
    pub params: Vec<String>,
    pub return_type: TypeID,
    pub resolved: bool,
    pub typeid: TypeID,
}

/// The type of the first field named `name` in `fields`.
pub open spec fn field_type(fields: Seq<(String, TypeID)>, name: Seq<char>) -> Option<TypeID>
    decreases fields.len(),
{
    if fields.len() == 0 {
        None
    } else if fields[0].0@ == name {
        Some(fields[0].1)
    } else {
        field_type(fields.drop_first(), name)
    }
}

/// Whether some string of `values` spells `name`.
pub open spec fn has_value(values: Seq<String>, name: Seq<char>) -> bool {
    exists|i: int| 0 <= i < values.len() && (#[trigger] values[i])@ == name
}

impl StructDef {
    /// The type of the field called `name`, if the struct has one.
    pub fn get_field(&self, name: &str) -> (r: Option<TypeID>)
        ensures
            r == field_type(self.fields@, name@),
    {
        let mut i: usize = 0;
        assert(self.fields@.skip(0) =~= self.fields@);
        while i < self.fields.len()
            invariant
                i <= self.fields@.len(),
                field_type(self.fields@, name@) == field_type(self.fields@.skip(i as int), name@),
            decreases self.fields.len() - i,
        {
            assert(self.fields@.skip(i as int).drop_first() =~= self.fields@.skip(i + 1));
            if crate::text::str_eq(self.fields[i].0.as_str(), name) {
                return Some(self.fields[i].1);
            }
            i = i + 1;
        }
        None
    }
}

impl EnumDef {
    /// Whether the enum has a value called `name`.
    pub fn has_value(&self, name: &str) -> (r: bool)
        ensures
            r == has_value(self.values@, name@),
    {
        let mut i: usize = 0;
        while i < self.values.len()
            invariant
                i <= self.values@.len(),
                forall|j: int| 0 <= j < i ==> (#[trigger] self.values@[j])@ != name@,
            decreases self.values.len() - i,
        {
            if crate::text::str_eq(self.values[i].as_str(), name) {
                return true;
            }
            i = i + 1;
        }
        false
    }
}

} // verus!
