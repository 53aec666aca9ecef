//! Methods attached to types, found by the type and the method's name.
use vstd::prelude::*;

use crate::types::{DefID, TypeID};

verus! {

/// The definition stored under `(typeid, name)`: the first matching entry.
pub open spec fn entry_of(entries: Seq<(TypeID, String, DefID)>, typeid: TypeID, name: Seq<char>) -> Option<DefID>
    decreases entries.len(),
{
    if entries.len() == 0 {
        None
    } else if entries[0].0 == typeid && entries[0].1@ == name {
        Some(entries[0].2)
    } else {
        entry_of(entries.drop_first(), typeid, name)
    }
}

/// Static and instance methods, each keyed by the type and the method's name.
pub struct MethodTable {
    statics: Vec<(TypeID, String, DefID)>,
    instance: Vec<(TypeID, String, DefID)>,
}

impl MethodTable {
    /// The static method `name` of `typeid`.
    pub closed spec fn static_of(&self, typeid: TypeID, name: Seq<char>) -> Option<DefID> {
        entry_of(self.statics@, typeid, name)
    }

    /// The instance method `name` of `typeid`.
    pub closed spec fn method_of(&self, typeid: TypeID, name: Seq<char>) -> Option<DefID> {
        entry_of(self.instance@, typeid, name)
    }

    pub fn new() -> (r: Self)
        ensures
            forall|t: TypeID, n: Seq<char>| #[trigger] r.static_of(t, n) is None,
            forall|t: TypeID, n: Seq<char>| #[trigger] r.method_of(t, n) is None,
    {
        Self { statics: Vec::new(), instance: Vec::new() }
    }

    /// Registers the static method `name` of `typeid`, replacing any earlier one.
    pub fn insert_static(&mut self, name: &str, typeid: TypeID, defid: DefID)
        ensures
            forall|t: TypeID, n: Seq<char>| #[trigger] final(self).static_of(t, n) == if t == typeid && n
                == name@ {
                Some(defid)
            } else {
                old(self).static_of(t, n)
            },
            forall|t: TypeID, n: Seq<char>| #[trigger] final(self).method_of(t, n) == old(self).method_of(t, n),
    {
        set_entry(&mut self.statics, name, typeid, defid);
    }

    /// Registers the instance method `name` of `typeid`, replacing any earlier one.
    pub fn insert(&mut self, name: &str, typeid: TypeID, defid: DefID)
        ensures
            forall|t: TypeID, n: Seq<char>| #[trigger] final(self).method_of(t, n) == if t == typeid && n
                == name@ {
                Some(defid)
            } else {
                old(self).method_of(t, n)
            },
            forall|t: TypeID, n: Seq<char>| #[trigger] final(self).static_of(t, n) == old(self).static_of(t, n),
    {
        set_entry(&mut self.instance, name, typeid, defid);
    }

    pub fn lookup_static(&mut self, name: &str, typeid: TypeID) -> (r: Option<DefID>)
        ensures
            r == old(self).static_of(typeid, name@),
            *final(self) == *old(self),
    {
        find_entry_exec(&self.statics, name, typeid)
    }

    pub fn lookup(&mut self, name: &str, typeid: TypeID) -> (r: Option<DefID>)
        ensures
            r == old(self).method_of(typeid, name@),
            *final(self) == *old(self),
    {
        find_entry_exec(&self.instance, name, typeid)
    }

    /// The instance method `name` of `typeid`, read without changing the table.
    pub fn get(&self, name: &str, typeid: TypeID) -> (r: Option<DefID>)
        ensures
            r == self.method_of(typeid, name@),
    {
        find_entry_exec(&self.instance, name, typeid)
    }
}

proof fn lemma_entry_of_skip(entries: Seq<(TypeID, String, DefID)>, i: int, t: TypeID, n: Seq<char>)
    requires
        0 <= i < entries.len(),
        !(entries[i].0 == t && entries[i].1@ == n),
    ensures
        entry_of(entries.skip(i), t, n) == entry_of(entries.skip(i + 1), t, n),
{
    assert(entries.skip(i).drop_first() =~= entries.skip(i + 1));
}

fn find_entry_exec(entries: &Vec<(TypeID, String, DefID)>, name: &str, typeid: TypeID) -> (r: Option<DefID>)
    ensures
        r == entry_of(entries@, typeid, name@),
{
    let mut i: usize = 0;
    assert(entries@.skip(0) =~= entries@);
    while i < entries.len()
        invariant
            i <= entries@.len(),
            entry_of(entries@, typeid, name@) == entry_of(entries@.skip(i as int), typeid, name@),
        decreases entries.len() - i,
    {
        assert(entries@.skip(i as int)[0] == entries@[i as int]);
        if entries[i].0 == typeid && crate::text::str_eq(entries[i].1.as_str(), name) {
            return Some(entries[i].2);
        }
        proof {
            lemma_entry_of_skip(entries@, i as int, typeid, name@);
        }
        i = i + 1;
    }
    assert(entries@.skip(i as int) =~= Seq::<(TypeID, String, DefID)>::empty());
    None
}

proof fn lemma_entry_of_update(
    entries: Seq<(TypeID, String, DefID)>,
    i: int,
    e: (TypeID, String, DefID),
    t: TypeID,
    n: Seq<char>,
)
    requires
        0 <= i < entries.len(),
        entries[i].0 == e.0 && entries[i].1@ == e.1@,
        forall|j: int| 0 <= j < i ==> !((#[trigger] entries[j]).0 == e.0 && entries[j].1@ == e.1@),
    ensures
        entry_of(entries.update(i, e), t, n) == if t == e.0 && n == e.1@ {
            Some(e.2)
        } else {
            entry_of(entries, t, n)
        },
    decreases i,
{
    if i > 0 {
        assert(entries.update(i, e).drop_first() =~= entries.drop_first().update(i - 1, e));
        assert forall|j: int| 0 <= j < i - 1 implies !((#[trigger] entries.drop_first()[j]).0 == e.0
            && entries.drop_first()[j].1@ == e.1@) by {
            assert(entries.drop_first()[j] == entries[j + 1]);
        }
        lemma_entry_of_update(entries.drop_first(), i - 1, e, t, n);
        assert(entries.update(i, e)[0] == entries[0]);
        assert(!(entries[0].0 == e.0 && entries[0].1@ == e.1@));
    } else {
        assert(entries.update(i, e).drop_first() =~= entries.drop_first());
        assert(entries.update(i, e)[0] == e);
    }
}

proof fn lemma_entry_of_push(entries: Seq<(TypeID, String, DefID)>, e: (TypeID, String, DefID), t: TypeID, n: Seq<char>)
    requires
        forall|j: int| 0 <= j < entries.len() ==> !((#[trigger] entries[j]).0 == e.0 && entries[j].1@ == e.1@),
    ensures
        entry_of(entries.push(e), t, n) == if t == e.0 && n == e.1@ {
            Some(e.2)
        } else {
            entry_of(entries, t, n)
        },
    decreases entries.len(),
{
    if entries.len() > 0 {
        assert(entries.push(e).drop_first() =~= entries.drop_first().push(e));
        assert forall|j: int| 0 <= j < entries.drop_first().len() implies !((
        #[trigger] entries.drop_first()[j]).0 == e.0 && entries.drop_first()[j].1@ == e.1@) by {
            assert(entries.drop_first()[j] == entries[j + 1]);
        }
        lemma_entry_of_push(entries.drop_first(), e, t, n);
        assert(entries.push(e)[0] == entries[0]);
    } else {
        assert(entries.push(e).drop_first() =~= Seq::<(TypeID, String, DefID)>::empty());
        assert(entries.push(e)[0] == e);
        assert(entry_of(Seq::<(TypeID, String, DefID)>::empty(), t, n) is None);
    }
}

fn set_entry(entries: &mut Vec<(TypeID, String, DefID)>, name: &str, typeid: TypeID, defid: DefID)
    ensures
        forall|t: TypeID, n: Seq<char>| #[trigger] entry_of(final(entries)@, t, n) == if t == typeid && n
            == name@ {
            Some(defid)
        } else {
            entry_of(old(entries)@, t, n)
        },
{
    let key = crate::text::owned(name);
    let mut i: usize = 0;
    while i < entries.len()
        invariant
            i <= entries@.len(),
            entries@ == old(entries)@,
            key@ == name@,
            forall|j: int| 0 <= j < i ==> !((#[trigger] entries@[j]).0 == typeid && entries@[j].1@ == name@),
        decreases entries.len() - i,
    {
        if entries[i].0 == typeid && crate::text::str_eq(entries[i].1.as_str(), name) {
            let ghost before = entries@;
            let e = (typeid, key, defid);
            let ghost ge = e;
            entries.set(i, e);
            proof {
                assert forall|t: TypeID, n: Seq<char>| #[trigger] entry_of(entries@, t, n) == if t
                    == typeid && n == name@ {
                    Some(defid)
                } else {
                    entry_of(before, t, n)
                } by {
                    lemma_entry_of_update(before, i as int, ge, t, n);
                }
            }
            return;
        }
        i = i + 1;
    }
    let ghost before = entries@;
    let e = (typeid, key, defid);
    let ghost ge = e;
    entries.push(e);
    proof {
        assert forall|t: TypeID, n: Seq<char>| #[trigger] entry_of(entries@, t, n) == if t == typeid
            && n == name@ {
            Some(defid)
        } else {
            entry_of(before, t, n)
        } by {
            lemma_entry_of_push(before, ge, t, n);
        }
    }
}

} // verus!
