//! The variable store: a single scope maps names to optional values; an
//! environment holds every scope in an arena keyed by plain scope
//! identities, with parent identities forming the lookup chain that ends at
//! the global scope.

use vstd::prelude::*;

use crate::error::MemoryError;
use crate::value::{
    lemma_list_model, list_model, value_model, Object, ObjectData, Value, ValueModel,
};

verus! {

broadcast use vstd::std_specs::vec::axiom_vec_index_decreases;

/// One entry of the operand stack: a plain value, or a deferred
/// constant-pool address resolved when the entry is consumed.
#[derive(Debug)]
pub enum StackItem {
    Address(usize),
    Value(Value),
}

/// The operand stack the virtual machine manipulates.
pub type Stack = Vec<StackItem>;

/// A single scope: names unique within it, each bound to an optional value;
/// `None` means declared but never assigned. Non-global scopes carry the
/// identity of their parent scope.
pub struct Memory {
    /// The entry list; managed through the methods, which keep names unique.
    pub vars: Vec<(String, Option<Value>)>,
    /// Identity of the parent scope; the global scope has none.
    pub parent: Option<usize>,
}

/// The spec-level error conditions a store operation can end in.
pub enum MemErr {
    AlreadyDeclared,
    NoSuchVariable,
    Uninitialized,
    CannotIndex,
    IndexOutOfBounds(int),
}

/// Whether an error value reports the given condition about the given name.
pub open spec fn mem_err_matches(e: MemoryError, k: MemErr, name: Seq<char>) -> bool {
    match (e, k) {
        (MemoryError::AlreadyDeclared(n), MemErr::AlreadyDeclared) => n@ == name,
        (MemoryError::NoSuchVariable(n), MemErr::NoSuchVariable) => n@ == name,
        (MemoryError::UninitializedVariableAccess(n), MemErr::Uninitialized) => n@ == name,
        (MemoryError::CannotIndex(n), MemErr::CannotIndex) => n@ == name,
        (MemoryError::IndexOutOfBounds(n, i), MemErr::IndexOutOfBounds(j)) => n@ == name && i
            == j,
        _ => false,
    }
}

/// First-match lookup of a name in an entry list.
pub open spec fn assoc_lookup(s: Seq<(String, Option<Value>)>, name: Seq<char>) -> Option<
    Option<Value>,
>
    decreases s.len(),
{
    if s.len() == 0 {
        None
    } else if s[0].0@ == name {
        Some(s[0].1)
    } else {
        assoc_lookup(s.subrange(1, s.len() as int), name)
    }
}

/// Model of an optional stored value.
pub open spec fn opt_model(ov: Option<Value>) -> Option<ValueModel> {
    match ov {
        None => None,
        Some(v) => Some(value_model(v)),
    }
}

/// The bindings of a scope, as a map from name to optional value model.
pub open spec fn vars_map(s: Seq<(String, Option<Value>)>) -> Map<
    Seq<char>,
    Option<ValueModel>,
> {
    Map::new(
        |k: Seq<char>| assoc_lookup(s, k) is Some,
        |k: Seq<char>| opt_model(assoc_lookup(s, k).unwrap()),
    )
}

/// Entry names are unique within a scope.
pub open spec fn entries_unique(s: Seq<(String, Option<Value>)>) -> bool {
    forall|i: int, j: int| 0 <= i < j < s.len() ==> s[i].0@ != s[j].0@
}

/// Looking a name up after appending a fresh entry: the old entries answer
/// first; the fresh entry answers only for its own name.
proof fn lemma_assoc_push(s: Seq<(String, Option<Value>)>, e: (String, Option<Value>), k: Seq<char>)
    ensures
        assoc_lookup(s.push(e), k) == if assoc_lookup(s, k) is Some {
            assoc_lookup(s, k)
        } else if e.0@ == k {
            Some(e.1)
        } else {
            None
        },
    decreases s.len(),
{
    reveal_with_fuel(assoc_lookup, 3);
    if s.len() == 0 {
        assert(s.push(e).subrange(1, 1) =~= Seq::<(String, Option<Value>)>::empty());
    } else {
        assert(s.push(e).subrange(1, s.len() as int + 1) =~= s.subrange(
            1,
            s.len() as int,
        ).push(e));
        lemma_assoc_push(s.subrange(1, s.len() as int), e, k);
    }
}

/// What position a read of a binding ends in: absent names and unassigned
/// names fail; an index reaches into a list value, in range only.
pub open spec fn read_result(entry: Option<Option<ValueModel>>, idx: Option<int>) -> Result<
    ValueModel,
    MemErr,
> {
    match entry {
        None => Err(MemErr::NoSuchVariable),
        Some(None) => Err(MemErr::Uninitialized),
        Some(Some(m)) => match idx {
            None => Ok(m),
            Some(i) => match m {
                ValueModel::List(l) => if 0 <= i < l.len() {
                    Ok(l[i])
                } else {
                    Err(MemErr::IndexOutOfBounds(i))
                },
                _ => Err(MemErr::CannotIndex),
            },
        },
    }
}

/// What a write to a binding stores: the value itself for a whole-binding
/// assignment; for an indexed assignment, the stored list with the slot set,
/// padded with empty values up to the index if it lay past the end.
pub open spec fn write_result(
    entry: Option<Option<ValueModel>>,
    idx: Option<int>,
    vm: ValueModel,
) -> Result<ValueModel, MemErr> {
    match entry {
        None => Err(MemErr::NoSuchVariable),
        Some(stored) => match idx {
            None => Ok(vm),
            Some(i) => match stored {
                None => Err(MemErr::Uninitialized),
                Some(ValueModel::List(l)) => Ok(ValueModel::List(padded_update(l, i, vm))),
                Some(_) => Err(MemErr::CannotIndex),
            },
        },
    }
}

/// A list with one slot set, grown with empty values up to the slot if it
/// lay past the end.
pub open spec fn padded_update(l: Seq<ValueModel>, i: int, v: ValueModel) -> Seq<ValueModel> {
    Seq::new(
        if i + 1 > l.len() {
            (i + 1) as nat
        } else {
            l.len()
        },
        |j: int|
            if j == i {
                v
            } else if j < l.len() {
                l[j]
            } else {
                ValueModel::Empty
            },
    )
}

/// The index argument, as a spec integer.
pub open spec fn opt_idx(index: Option<usize>) -> Option<int> {
    match index {
        None => None,
        Some(i) => Some(i as int),
    }
}

/// A name the lookup does not find stands on no entry at all.
proof fn lemma_assoc_none_all_differ(s: Seq<(String, Option<Value>)>, name: Seq<char>)
    requires
        assoc_lookup(s, name) is None,
    ensures
        forall|j: int| 0 <= j < s.len() ==> s[j].0@ != name,
    decreases s.len(),
{
    if s.len() > 0 {
        lemma_assoc_none_all_differ(s.subrange(1, s.len() as int), name);
        assert forall|j: int| 0 <= j < s.len() implies s[j].0@ != name by {
            if j > 0 {
                assert(s.subrange(1, s.len() as int)[j - 1] == s[j]);
            }
        }
    }
}

/// Looking a name up after overwriting the entry that holds it: the updated
/// entry answers for that name, every other name is untouched.
proof fn lemma_assoc_update(
    s: Seq<(String, Option<Value>)>,
    i: int,
    e: (String, Option<Value>),
    k: Seq<char>,
)
    requires
        0 <= i < s.len(),
        entries_unique(s),
        e.0@ == s[i].0@,
    ensures
        assoc_lookup(s.update(i, e), k) == if s[i].0@ == k {
            Some(e.1)
        } else {
            assoc_lookup(s, k)
        },
    decreases s.len(),
{
    if s.len() > 0 {
        if i == 0 {
            assert(s.update(0, e).subrange(1, s.len() as int) =~= s.subrange(1, s.len() as int));
            if s[0].0@ != k && e.0@ != k {
            }
        } else {
            assert(s.update(i, e).subrange(1, s.len() as int) =~= s.subrange(
                1,
                s.len() as int,
            ).update(i - 1, e));
            assert(entries_unique(s.subrange(1, s.len() as int))) by {
                let t = s.subrange(1, s.len() as int);
                assert forall|a: int, b: int| 0 <= a < b < t.len() implies t[a].0@ != t[b].0@ by {
                    assert(t[a] == s[a + 1]);
                    assert(t[b] == s[b + 1]);
                }
            }
            lemma_assoc_update(s.subrange(1, s.len() as int), i - 1, e, k);
        }
    }
}

impl Memory {
    /// Which names this scope holds, with their stored models.
    pub open spec fn map(&self) -> Map<Seq<char>, Option<ValueModel>> {
        vars_map(self.vars@)
    }

    /// Identity of the parent scope, if any.
    pub open spec fn parent_id(&self) -> Option<usize> {
        self.parent
    }

    /// The scope's internal invariant: names unique.
    pub open spec fn wf(&self) -> bool {
        entries_unique(self.vars@)
    }

    /// Whether this scope declares a name.
    pub open spec fn declares(&self, name: Seq<char>) -> bool {
        assoc_lookup(self.vars@, name) is Some
    }

    /// The stored binding of a declared name.
    pub open spec fn stored(&self, name: Seq<char>) -> Option<ValueModel> {
        opt_model(assoc_lookup(self.vars@, name).unwrap())
    }

    /// A fresh scope under the given parent identity.
    pub fn new(parent: Option<usize>) -> (r: Memory)
        ensures
            r.wf(),
            r.map() == Map::<Seq<char>, Option<ValueModel>>::empty(),
            r.parent_id() == parent,
    {
        let r = Memory { vars: Vec::new(), parent };
        proof {
            assert(r.map() =~= Map::<Seq<char>, Option<ValueModel>>::empty());
        }
        r
    }

    /// Identity of the parent scope, if any.
    pub fn parent(&self) -> (r: Option<usize>)
        ensures
            r == self.parent_id(),
    {
        self.parent
    }

    /// Position of the entry holding a name, if the scope declares it.
    fn find(&self, name: &String) -> (r: Option<usize>)
        requires
            self.wf(),
        ensures
            match r {
                Some(i) => i < self.vars@.len() && self.vars@[i as int].0@ == name@
                    && assoc_lookup(self.vars@, name@) == Some(self.vars@[i as int].1),
                None => !self.declares(name@),
            },
    {
        let mut i: usize = 0;
        while i < self.vars.len()
            invariant
                i <= self.vars@.len(),
                forall|j: int| 0 <= j < i ==> self.vars@[j].0@ != name@,
            decreases self.vars@.len() - i,
        {
            if self.vars[i].0 == *name {
                proof {
                    lemma_assoc_found(self.vars@, i as int, name@);
                }
                return Some(i);
            }
            i += 1;
        }
        proof {
            lemma_assoc_absent(self.vars@, name@);
        }
        None
    }

    /// Whether this scope declares the name.
    pub fn is_declared(&self, name: &str) -> (r: bool)
        requires
            self.wf(),
        ensures
            r == self.declares(name@),
    {
        let owned = name.to_owned();
        self.find(&owned).is_some()
    }

    /// Declares a name in this scope, bound to no value yet. Fails when the
    /// exact same scope already declares it; the scope is then unchanged.
    pub fn declare(&mut self, name: &str) -> (r: Result<(), MemoryError>)
        requires
            old(self).wf(),
        ensures
            final(self).wf(),
            final(self).parent_id() == old(self).parent_id(),
            match r {
                Ok(()) => !old(self).declares(name@) && final(self).map() == old(self).map().insert(name@, None),
                Err(e) => old(self).declares(name@) && mem_err_matches(
                    e,
                    MemErr::AlreadyDeclared,
                    name@,
                ) && *final(self) == *old(self),
            },
    {
        let owned = name.to_owned();
        if self.find(&owned).is_some() {
            return Err(MemoryError::AlreadyDeclared(owned));
        }
        let ghost snap = self.vars@;
        self.vars.push((owned, None));
        proof {
            lemma_assoc_none_all_differ(snap, name@);
            assert(entries_unique(self.vars@));
            assert forall|k: Seq<char>| true implies #[trigger] vars_map(self.vars@).contains_key(
                k,
            ) == snap_insert_contains(snap, name@, k) && (vars_map(self.vars@).contains_key(k)
                ==> vars_map(self.vars@)[k] == snap_insert_value(snap, name@, k)) by {
                lemma_assoc_push(snap, self.vars@.last(), k);
            }
            assert(vars_map(self.vars@) =~= vars_map(snap).insert(name@, None));
        }
        Ok(())
    }
}

impl Default for Memory {
    /// The default scope is empty and parentless, like the global scope.
    fn default() -> (r: Memory)
        ensures
            r.wf(),
            r.map() == Map::<Seq<char>, Option<ValueModel>>::empty(),
            r.parent_id() is None,
    {
        Memory::new(None)
    }
}

impl Memory {
    /// The binding of a name in this scope: absent, declared-unassigned, or
    /// assigned with its value model.
    pub open spec fn lookup(&self, name: Seq<char>) -> Option<Option<ValueModel>> {
        match assoc_lookup(self.vars@, name) {
            None => None,
            Some(ov) => Some(opt_model(ov)),
        }
    }

    /// Resolves a name in this scope, optionally through a single list
    /// index. Fails for an absent name, a never-assigned name, an index into
    /// a non-list value, and an index past the end of the list.
    pub fn get(&self, name: &str, index: Option<usize>) -> (r: Result<Value, MemoryError>)
        requires
            self.wf(),
        ensures
            match r {
                Ok(v) => read_result(self.lookup(name@), opt_idx(index)) == Ok::<_, MemErr>(v@),
                Err(e) => read_result(self.lookup(name@), opt_idx(index)) matches Err(k)
                    && mem_err_matches(e, k, name@),
            },
    {
        let owned = name.to_owned();
        let i = match self.find(&owned) {
            None => {
                return Err(MemoryError::NoSuchVariable(owned));
            },
            Some(i) => i,
        };
        match &self.vars[i].1 {
            None => Err(MemoryError::UninitializedVariableAccess(owned)),
            Some(var) => match index {
                None => Ok(var.dup()),
                Some(idx) => match var {
                    Value::Object(o) => match &*o.0 {
                        ObjectData::List(l) => {
                            if idx < l.len() {
                                proof {
                                    lemma_list_model(l@);
                                }
                                Ok(l[idx].dup())
                            } else {
                                proof {
                                    lemma_list_model(l@);
                                }
                                Err(MemoryError::IndexOutOfBounds(owned, idx))
                            }
                        },
                        _ => Err(MemoryError::CannotIndex(owned)),
                    },
                    _ => Err(MemoryError::CannotIndex(owned)),
                },
            },
        }
    }

    /// Writes a value through a name in this scope: the whole binding for a
    /// plain assignment; one list slot for an indexed assignment, growing
    /// the list with empty values when the index lies past the end. Fails
    /// for an absent name, and for an indexed write to a never-assigned name
    /// or to a non-list value.
    pub fn assign(&mut self, name: &str, index: Option<usize>, value: Value) -> (r: Result<
        (),
        MemoryError,
    >)
        requires
            old(self).wf(),
            index matches Some(i) ==> i < usize::MAX,
        ensures
            final(self).wf(),
            final(self).parent_id() == old(self).parent_id(),
            match r {
                Ok(()) => write_result(old(self).lookup(name@), opt_idx(index), value@)
                    matches Ok(newm) && final(self).map() == old(self).map().insert(
                    name@,
                    Some(newm),
                ),
                Err(e) => (write_result(old(self).lookup(name@), opt_idx(index), value@)
                    matches Err(k) && mem_err_matches(e, k, name@)) && *final(self) == *old(self),
            },
    {
        let owned = name.to_owned();
        let i = match self.find(&owned) {
            None => {
                return Err(MemoryError::NoSuchVariable(owned));
            },
            Some(i) => i,
        };
        let newv: Value = match index {
            None => value,
            Some(idx) => match &self.vars[i].1 {
                None => {
                    return Err(MemoryError::UninitializedVariableAccess(owned));
                },
                Some(var) => match var {
                    Value::Object(o) => match &*o.0 {
                        ObjectData::List(l) => {
                            let ghost lm = list_model(l@);
                            proof {
                                lemma_list_model(l@);
                            }
                            let m = if idx + 1 > l.len() {
                                idx + 1
                            } else {
                                l.len()
                            };
                            let mut nl: Vec<Value> = Vec::new();
                            let mut j: usize = 0;
                            while j < m
                                invariant
                                    j <= m,
                                    m == if idx + 1 > l@.len() {
                                        (idx + 1) as int
                                    } else {
                                        l@.len() as int
                                    },
                                    nl@.len() == j,
                                    forall|k: int|
                                        0 <= k < j ==> value_model(nl@[k]) == (if k
                                            < l@.len() {
                                            value_model(l@[k])
                                        } else {
                                            ValueModel::Empty
                                        }),
                                decreases m - j,
                            {
                                if j < l.len() {
                                    let e = l[j].dup();
                                    nl.push(e);
                                } else {
                                    nl.push(Value::Empty);
                                }
                                j += 1;
                            }
                            nl.set(idx, value);
                            proof {
                                lemma_list_model(nl@);
                                assert(list_model(nl@) =~= padded_update(lm, idx as int, value@));
                            }
                            Value::list(nl)
                        },
                        _ => {
                            return Err(MemoryError::CannotIndex(owned));
                        },
                    },
                    _ => {
                        return Err(MemoryError::CannotIndex(owned));
                    },
                },
            },
        };
        let ghost snap = self.vars@;
        let ghost newm = value_model(newv);
        let nm = self.vars[i].0.clone();
        let entry = (nm, Some(newv));
        self.vars.set(i, entry);
        proof {
            assert(entries_unique(self.vars@)) by {
                assert forall|a: int, b: int| 0 <= a < b < self.vars@.len() implies self.vars@[
                    a
                ].0@ != self.vars@[b].0@ by {
                    assert(snap[a].0@ != snap[b].0@);
                }
            }
            assert forall|k: Seq<char>| true implies #[trigger] vars_map(
                self.vars@,
            ).contains_key(k) == vars_map(snap).insert(name@, Some(newm)).contains_key(k) && (
            vars_map(self.vars@).contains_key(k) ==> vars_map(self.vars@)[k] == vars_map(
                snap,
            ).insert(name@, Some(newm))[k]) by {
                lemma_assoc_update(snap, i as int, self.vars@[i as int], k);
            }
            assert(vars_map(self.vars@) =~= vars_map(snap).insert(name@, Some(newm)));
        }
        Ok(())
    }
}

/// Whether the map of a scope extended by an unassigned name holds a key.
pub open spec fn snap_insert_contains(
    snap: Seq<(String, Option<Value>)>,
    name: Seq<char>,
    k: Seq<char>,
) -> bool {
    assoc_lookup(snap, k) is Some || k == name
}

/// The value such an extended map holds at a key.
pub open spec fn snap_insert_value(
    snap: Seq<(String, Option<Value>)>,
    name: Seq<char>,
    k: Seq<char>,
) -> Option<ValueModel> {
    if assoc_lookup(snap, k) is Some {
        opt_model(assoc_lookup(snap, k).unwrap())
    } else {
        None
    }
}

/// A name found at an entry position is found by the lookup.
proof fn lemma_assoc_found(s: Seq<(String, Option<Value>)>, i: int, name: Seq<char>)
    requires
        0 <= i < s.len(),
        s[i].0@ == name,
        forall|j: int| 0 <= j < i ==> s[j].0@ != name,
    ensures
        assoc_lookup(s, name) == Some(s[i].1),
    decreases i,
{
    if i > 0 {
        assert(s.subrange(1, s.len() as int)[i - 1] == s[i]);
        assert forall|j: int| 0 <= j < i - 1 implies s.subrange(1, s.len() as int)[j].0@
            != name by {
            assert(s.subrange(1, s.len() as int)[j] == s[j + 1]);
        }
        lemma_assoc_found(s.subrange(1, s.len() as int), i - 1, name);
    }
}

/// A name on no entry is not found by the lookup.
proof fn lemma_assoc_absent(s: Seq<(String, Option<Value>)>, name: Seq<char>)
    requires
        forall|j: int| 0 <= j < s.len() ==> s[j].0@ != name,
    ensures
        assoc_lookup(s, name) is None,
    decreases s.len(),
{
    if s.len() > 0 {
        assert forall|j: int| 0 <= j < s.len() - 1 implies s.subrange(1, s.len() as int)[j].0@
            != name by {
            assert(s.subrange(1, s.len() as int)[j] == s[j + 1]);
        }
        lemma_assoc_absent(s.subrange(1, s.len() as int), name);
    }
}

/// The environment: every scope in an arena, keyed by plain scope
/// identities; a distinguished global scope at the chain's end; and the
/// identity of the currently active scope, `None` meaning the global one.
pub struct Env {
    /// The scope arena; a scope's identity is its position here.
    pub scopes: Vec<Memory>,
    /// Identity of the global scope.
    pub glob_key: usize,
    /// Identity of the active scope; `None` means the global scope.
    pub current: Option<usize>,
}

impl Env {
    /// The environment's internal invariant: the global scope sits first
    /// and has no parent, every parent identity points at an earlier scope,
    /// the active identity is in range, and each scope is well formed.
    pub open spec fn wf(&self) -> bool {
        &&& self.scopes@.len() >= 1
        &&& self.glob_key == 0
        &&& self.scopes@[0].parent is None
        &&& (self.current matches Some(c) ==> (c as int) < self.scopes@.len())
        &&& (forall|i: int| 0 <= i < self.scopes@.len() ==> (#[trigger] self.scopes@[i]).wf())
        &&& (forall|i: int|
            0 <= i < self.scopes@.len() ==> ((#[trigger] self.scopes@[i]).parent matches Some(p)
                ==> (p as int) < i))
    }

    /// Identity of the active scope.
    pub open spec fn active(&self) -> int {
        match self.current {
            Some(c) => c as int,
            None => 0,
        }
    }

    /// Walks the chain from a scope upward: the first scope declaring the
    /// name answers; a chain that ends short of the global scope falls back
    /// to it; otherwise the name resolves nowhere.
    pub open spec fn resolve_from(&self, sid: int, name: Seq<char>) -> Option<int>
        decreases sid,
        when 0 <= sid < self.scopes@.len() && self.wf()
    {
        if self.scopes@[sid].declares(name) {
            Some(sid)
        } else {
            match self.scopes@[sid].parent {
                Some(p) => self.resolve_from(p as int, name),
                None => if sid != 0 && self.scopes@[0].declares(name) {
                    Some(0)
                } else {
                    None
                },
            }
        }
    }

    /// Which scope on the lookup chain owns the name, if any.
    pub open spec fn resolve(&self, name: Seq<char>) -> Option<int> {
        self.resolve_from(self.active(), name)
    }

    /// The binding the lookup chain reaches for a name: absent everywhere,
    /// declared-unassigned, or assigned with its value model.
    pub open spec fn lookup(&self, name: Seq<char>) -> Option<Option<ValueModel>> {
        match self.resolve(name) {
            None => None,
            Some(sid) => self.scopes@[sid].lookup(name),
        }
    }

    /// A fresh environment holding only an empty global scope.
    pub fn new() -> (r: Env)
        ensures
            r.wf(),
            r.scopes@.len() == 1,
            r.scopes@[0].map() == Map::<Seq<char>, Option<ValueModel>>::empty(),
            r.current is None,
    {
        let globals = Memory::new(None);
        let mut scopes: Vec<Memory> = Vec::new();
        scopes.push(globals);
        Env { scopes, glob_key: 0, current: None }
    }

    /// Resolves the scope that owns a name, walking the chain in the
    /// executable way the spec walk describes.
    fn resolve_scope(&self, name: &str) -> (r: Option<usize>)
        requires
            self.wf(),
        ensures
            match r {
                Some(sid) => (sid as int) < self.scopes@.len() && self.resolve(name@) == Some(
                    sid as int,
                ),
                None => self.resolve(name@) is None,
            },
    {
        let mut sid: usize = match self.current {
            Some(c) => c,
            None => self.glob_key,
        };
        loop
            invariant
                self.wf(),
                sid < self.scopes@.len(),
                self.resolve(name@) == self.resolve_from(sid as int, name@),
            decreases sid,
        {
            if self.scopes[sid].is_declared(name) {
                return Some(sid);
            }
            match self.scopes[sid].parent() {
                Some(p) => {
                    sid = p;
                },
                None => {
                    if sid != 0 && self.scopes[0].is_declared(name) {
                        return Some(0);
                    }
                    return None;
                },
            }
        }
    }

    /// Resolves a name by walking the scope chain from the active scope,
    /// optionally through a single list index. Fails for a name no scope on
    /// the chain declares, a never-assigned name, an index into a non-list
    /// value, and an index past the end of the list.
    pub fn get(&self, name: &str, index: Option<usize>) -> (r: Result<Value, MemoryError>)
        requires
            self.wf(),
        ensures
            match r {
                Ok(v) => read_result(self.lookup(name@), opt_idx(index)) == Ok::<_, MemErr>(v@),
                Err(e) => read_result(self.lookup(name@), opt_idx(index)) matches Err(k)
                    && mem_err_matches(e, k, name@),
            },
    {
        match self.resolve_scope(name) {
            None => Err(MemoryError::NoSuchVariable(name.to_owned())),
            Some(sid) => self.scopes[sid].get(name, index),
        }
    }

    /// Declares a name in the active scope, bound to no value yet. Fails
    /// when that exact scope already declares it; other scopes never block
    /// a declaration, so shadowing an outer binding is allowed.
    pub fn declare(&mut self, name: &str) -> (r: Result<(), MemoryError>)
        requires
            old(self).wf(),
        ensures
            final(self).wf(),
            final(self).current == old(self).current,
            final(self).glob_key == old(self).glob_key,
            final(self).scopes@.len() == old(self).scopes@.len(),
            forall|j: int|
                0 <= j < old(self).scopes@.len() && j != old(self).active() ==> final(self).scopes@[j] == old(self).scopes@[j],
            final(self).scopes@[old(self).active()].parent == old(self).scopes@[old(self).active()].parent,
            match r {
                Ok(()) => !old(self).scopes@[old(self).active()].declares(name@) && final(self).scopes@[old(self).active()].map() == old(self).scopes@[old(self).active()].map().insert(name@, None),
                Err(e) => old(self).scopes@[old(self).active()].declares(name@)
                    && mem_err_matches(e, MemErr::AlreadyDeclared, name@) && final(self).scopes@
                    == old(self).scopes@,
            },
    {
        let sid = match self.current {
            Some(c) => c,
            None => self.glob_key,
        };
        let r = self.scopes[sid].declare(name);
        proof {
            if r is Err {
                assert(final(self).scopes@ =~= old(self).scopes@);
            }
        }
        r
    }

    /// Assigns through a name: the owning scope is the first on the chain
    /// that declares it, with the global fallback; the write follows the
    /// scope-level assignment contract, including list-slot writes padded
    /// with empty values. Fails for a name no scope on the chain declares.
    pub fn assign(&mut self, name: &str, index: Option<usize>, value: Value) -> (r: Result<
        (),
        MemoryError,
    >)
        requires
            old(self).wf(),
            index matches Some(i) ==> i < usize::MAX,
        ensures
            final(self).wf(),
            final(self).current == old(self).current,
            final(self).glob_key == old(self).glob_key,
            final(self).scopes@.len() == old(self).scopes@.len(),
            match r {
                Ok(()) => old(self).resolve(name@) matches Some(sid) && (write_result(
                    old(self).lookup(name@),
                    opt_idx(index),
                    value@,
                ) matches Ok(newm) && (forall|j: int|
                    0 <= j < old(self).scopes@.len() && j != sid ==> final(self).scopes@[j]
                        == old(self).scopes@[j]) && final(self).scopes@[sid].map() == old(self).scopes@[sid].map().insert(name@, Some(newm)) && final(self).scopes@[sid].parent
                    == old(self).scopes@[sid].parent),
                Err(e) => (write_result(old(self).lookup(name@), opt_idx(index), value@)
                    matches Err(k) && mem_err_matches(e, k, name@)) && final(self).scopes@ == old(self).scopes@,
            },
    {
        match self.resolve_scope(name) {
            None => Err(MemoryError::NoSuchVariable(name.to_owned())),
            Some(sid) => {
                let r = self.scopes[sid].assign(name, index, value);
                proof {
                    if r is Err {
                        assert(final(self).scopes@ =~= old(self).scopes@);
                    }
                }
                r
            },
        }
    }

    /// Switches the active scope, returning the previous one so a caller
    /// can restore it on block exit. `None` activates the global scope.
    pub fn set_current(&mut self, id: Option<usize>) -> (r: Option<usize>)
        requires
            old(self).wf(),
            id matches Some(i) ==> (i as int) < old(self).scopes@.len(),
        ensures
            final(self).wf(),
            r == old(self).current,
            final(self).current == id,
            final(self).scopes@ == old(self).scopes@,
            final(self).glob_key == old(self).glob_key,
    {
        let current = self.current;
        self.current = id;
        current
    }

    /// Creates a new scope enclosed in the active one and returns its
    /// identity. The active scope is not switched.
    pub fn new_enclosed(&mut self) -> (key: usize)
        requires
            old(self).wf(),
        ensures
            final(self).wf(),
            key as int == old(self).scopes@.len(),
            final(self).scopes@.len() == old(self).scopes@.len() + 1,
            forall|j: int|
                0 <= j < old(self).scopes@.len() ==> final(self).scopes@[j] == old(self).scopes@[j],
            final(self).scopes@[key as int].map() == Map::<Seq<char>, Option<ValueModel>>::empty(),
            final(self).scopes@[key as int].parent == old(self).current,
            final(self).current == old(self).current,
            final(self).glob_key == old(self).glob_key,
    {
        let key = self.scopes.len();
        let mem = Memory::new(self.current);
        self.scopes.push(mem);
        key
    }
}

impl Default for Env {
    /// The default environment is the fresh one.
    fn default() -> (r: Env)
        ensures
            r.wf(),
            r.scopes@.len() == 1,
            r.scopes@[0].map() == Map::<Seq<char>, Option<ValueModel>>::empty(),
            r.current is None,
    {
        Env::new()
    }
}

/// Spec-level picture of one scope: its bindings and its parent identity.
#[verifier::ext_equal]
pub struct ScopeModel {
    pub map: Map<Seq<char>, Option<ValueModel>>,
    pub parent: Option<int>,
}

/// Spec-level picture of a whole environment.
#[verifier::ext_equal]
pub struct EnvModel {
    pub scopes: Seq<ScopeModel>,
    pub current: Option<int>,
}

/// Model of one scope.
pub open spec fn scope_model(m: Memory) -> ScopeModel {
    ScopeModel {
        map: m.map(),
        parent: match m.parent {
            None => None,
            Some(p) => Some(p as int),
        },
    }
}

impl View for Env {
    type V = EnvModel;

    open spec fn view(&self) -> EnvModel {
        EnvModel {
            scopes: self.scopes@.map_values(|m: Memory| scope_model(m)),
            current: match self.current {
                None => None,
                Some(c) => Some(c as int),
            },
        }
    }
}

impl EnvModel {
    /// The model-level invariant, mirroring the environment's.
    pub open spec fn wf(&self) -> bool {
        &&& self.scopes.len() >= 1
        &&& self.scopes[0].parent is None
        &&& (self.current matches Some(c) ==> 0 <= c < self.scopes.len())
        &&& (forall|i: int|
            0 <= i < self.scopes.len() ==> ((#[trigger] self.scopes[i]).parent matches Some(p)
                ==> 0 <= p < i))
    }

    /// Identity of the active scope.
    pub open spec fn active(&self) -> int {
        match self.current {
            Some(c) => c,
            None => 0,
        }
    }

    /// The model-level chain walk.
    pub open spec fn resolve_from(&self, sid: int, name: Seq<char>) -> Option<int>
        decreases sid,
        when 0 <= sid < self.scopes.len() && self.wf()
    {
        if self.scopes[sid].map.contains_key(name) {
            Some(sid)
        } else {
            match self.scopes[sid].parent {
                Some(p) => self.resolve_from(p, name),
                None => if sid != 0 && self.scopes[0].map.contains_key(name) {
                    Some(0)
                } else {
                    None
                },
            }
        }
    }

    /// Which scope on the lookup chain owns the name, if any.
    pub open spec fn resolve(&self, name: Seq<char>) -> Option<int> {
        self.resolve_from(self.active(), name)
    }

    /// The binding the lookup chain reaches for a name.
    pub open spec fn lookup(&self, name: Seq<char>) -> Option<Option<ValueModel>> {
        match self.resolve(name) {
            None => None,
            Some(sid) => Some(self.scopes[sid].map[name]),
        }
    }

    /// Model of a declaration in the active scope.
    pub open spec fn do_declare(&self, name: Seq<char>) -> Result<EnvModel, MemErr> {
        if self.scopes[self.active()].map.contains_key(name) {
            Err(MemErr::AlreadyDeclared)
        } else {
            Ok(
                EnvModel {
                    scopes: self.scopes.update(
                        self.active(),
                        ScopeModel {
                            map: self.scopes[self.active()].map.insert(name, None),
                            parent: self.scopes[self.active()].parent,
                        },
                    ),
                    current: self.current,
                },
            )
        }
    }

    /// Model of a read through the chain.
    pub open spec fn do_get(&self, name: Seq<char>, idx: Option<int>) -> Result<
        ValueModel,
        MemErr,
    > {
        read_result(self.lookup(name), idx)
    }

    /// Model of a write through the chain.
    pub open spec fn do_assign(&self, name: Seq<char>, idx: Option<int>, vm: ValueModel) -> Result<
        EnvModel,
        MemErr,
    > {
        match write_result(self.lookup(name), idx, vm) {
            Err(k) => Err(k),
            Ok(newm) => {
                let sid = self.resolve(name).unwrap();
                Ok(
                    EnvModel {
                        scopes: self.scopes.update(
                            sid,
                            ScopeModel {
                                map: self.scopes[sid].map.insert(name, Some(newm)),
                                parent: self.scopes[sid].parent,
                            },
                        ),
                        current: self.current,
                    },
                )
            },
        }
    }
}

/// The model-level invariant follows from the environment's.
pub proof fn lemma_env_model_wf(e: Env)
    requires
        e.wf(),
    ensures
        e@.wf(),
{
    assert forall|i: int|
        0 <= i < e@.scopes.len() implies ((#[trigger] e@.scopes[i]).parent matches Some(p) ==> 0
        <= p < i) by {
        assert(e@.scopes[i] == scope_model(e.scopes@[i]));
    }
}

/// The model-level chain walk agrees with the environment's own.
pub proof fn lemma_resolve_model(e: Env, sid: int, name: Seq<char>)
    requires
        e.wf(),
        0 <= sid < e.scopes@.len(),
    ensures
        e@.resolve_from(sid, name) == e.resolve_from(sid, name),
        e.resolve_from(sid, name) matches Some(r) ==> 0 <= r < e.scopes@.len()
            && e.scopes@[r].declares(name),
    decreases sid,
{
    lemma_env_model_wf(e);
    assert(e@.scopes[sid] == scope_model(e.scopes@[sid]));
    assert(e@.scopes[0] == scope_model(e.scopes@[0]));
    assert(e@.scopes[sid].map.contains_key(name) == e.scopes@[sid].declares(name));
    assert(e@.scopes[0].map.contains_key(name) == e.scopes@[0].declares(name));
    match e.scopes@[sid].parent {
        Some(p) => {
            lemma_resolve_model(e, p as int, name);
        },
        None => {},
    }
}

/// The model-level binding lookup agrees with the environment's own.
pub proof fn lemma_lookup_model(e: Env, name: Seq<char>)
    requires
        e.wf(),
    ensures
        e@.resolve(name) == e.resolve(name),
        e@.lookup(name) == e.lookup(name),
{
    lemma_resolve_model(e, e.active(), name);
    match e.resolve(name) {
        None => {},
        Some(sid) => {
            assert(e@.scopes[sid] == scope_model(e.scopes@[sid]));
            assert(e.scopes@[sid].declares(name));
        },
    }
}

/// An environment that came out of a successful chain assignment stands,
/// at the model level, exactly as the model-level assignment says.
pub proof fn lemma_env_assign_model(e0: Env, e1: Env, name: Seq<char>, idx: Option<usize>, vm: ValueModel)
    requires
        e0.wf(),
        e1.wf(),
        e1.current == e0.current,
        e1.glob_key == e0.glob_key,
        e1.scopes@.len() == e0.scopes@.len(),
        e0.resolve(name) is Some,
        write_result(e0.lookup(name), opt_idx(idx), vm) is Ok,
        forall|j: int|
            0 <= j < e0.scopes@.len() && j != e0.resolve(name).unwrap() ==> e1.scopes@[j]
                == e0.scopes@[j],
        e1.scopes@[e0.resolve(name).unwrap()].map() == e0.scopes@[e0.resolve(
            name,
        ).unwrap()].map().insert(name, Some(write_result(e0.lookup(name), opt_idx(idx), vm)->Ok_0)),
        e1.scopes@[e0.resolve(name).unwrap()].parent == e0.scopes@[e0.resolve(name).unwrap()].parent,
    ensures
        e0@.do_assign(name, opt_idx(idx), vm) == Ok::<EnvModel, MemErr>(e1@),
{
    lemma_lookup_model(e0, name);
    lemma_resolve_model(e0, e0.active(), name);
    let sid = e0.resolve(name).unwrap();
    let newm = write_result(e0.lookup(name), opt_idx(idx), vm)->Ok_0;
    let expected = EnvModel {
        scopes: e0@.scopes.update(
            sid,
            ScopeModel {
                map: e0@.scopes[sid].map.insert(name, Some(newm)),
                parent: e0@.scopes[sid].parent,
            },
        ),
        current: e0@.current,
    };
    assert(e0@.do_assign(name, opt_idx(idx), vm) == Ok::<EnvModel, MemErr>(expected));
    assert forall|j: int| 0 <= j < e1@.scopes.len() implies e1@.scopes[j] == expected.scopes[
        j
    ] by {
        assert(e1@.scopes[j] == scope_model(e1.scopes@[j]));
        assert(e0@.scopes[j] == scope_model(e0.scopes@[j]));
        if j == sid {
            assert(scope_model(e1.scopes@[j]).map =~= e0@.scopes[sid].map.insert(
                name,
                Some(newm),
            ));
            assert(e1@.scopes[j] =~= expected.scopes[j]);
        }
    }
    assert(e1@.scopes =~= expected.scopes);
    assert(e1@ =~= expected);
}

/// An environment untouched by a failed operation keeps its model.
pub proof fn lemma_env_model_unchanged(e0: Env, e1: Env)
    requires
        e1.scopes@ == e0.scopes@,
        e1.current == e0.current,
    ensures
        e1@ == e0@,
{
    assert(e1@ =~= e0@);
}

} // verus!
