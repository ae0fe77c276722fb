//! The lexical environment: an arena of scopes.
//!
//! Scopes form a tree through parent indices; a closure keeps the index
//! of its defining scope, so a scope stays addressable as long as the
//! arena lives, which models the shared, longest-holder ownership of the
//! environment chain. Each scope's bindings are viewed as a map from
//! names to values.
//!
//! Reads of a name bound in no scope of the chain produce `nil`
//! (permissive read); assignment to such a name is an error
//! (strict write).

use vstd::prelude::*;

use crate::assoc::{
    assoc_find, assoc_unique, assoc_view, lemma_assoc_absent, lemma_assoc_found,
    lemma_assoc_update,
};
use crate::value::{clone_bytes, clone_value, SpecValue, Value};

verus! {

/// The error an environment operation can produce.
#[derive(Clone, Debug, PartialEq, Eq)]
pub enum EnvError {
    AssignNonexistent(Vec<u8>),
}

/// One scope: its parent link and its bindings.
struct Scope {
    parent: Option<usize>,
    names: Vec<(Vec<u8>, Value)>,
}

/// The mathematical form of a scope.
#[verifier::ext_equal]
pub struct SpecScope {
    pub parent: Option<usize>,
    pub names: Map<Seq<u8>, SpecValue>,
}

/// The scope arena. Index 0 is the root (global) scope.
pub struct Env {
    scopes: Vec<Scope>,
}

/// Value of `name` along the parent chain from scope `h`; `nil` when no
/// scope of the chain binds it.
pub open spec fn sp_env_get(envs: Seq<SpecScope>, h: int, name: Seq<u8>) -> SpecValue
    decreases h,
{
    if h < 0 || h >= envs.len() {
        SpecValue::Nil
    } else if envs[h].names.contains_key(name) {
        envs[h].names[name]
    } else {
        match envs[h].parent {
            Some(p) => if (p as int) < h {
                sp_env_get(envs, p as int, name)
            } else {
                SpecValue::Nil
            },
            None => SpecValue::Nil,
        }
    }
}

/// Nearest scope on the parent chain from `h` that binds `name`.
pub open spec fn sp_find_scope(envs: Seq<SpecScope>, h: int, name: Seq<u8>) -> Option<int>
    decreases h,
{
    if h < 0 || h >= envs.len() {
        None
    } else if envs[h].names.contains_key(name) {
        Some(h)
    } else {
        match envs[h].parent {
            Some(p) => if (p as int) < h {
                sp_find_scope(envs, p as int, name)
            } else {
                None
            },
            None => None,
        }
    }
}

/// The scope reached from `h` by walking `d` parent links; stops at a
/// root reached early.
pub open spec fn sp_ancestor(envs: Seq<SpecScope>, h: int, d: nat) -> int
    decreases d,
{
    if d == 0 || h < 0 || h >= envs.len() {
        h
    } else {
        match envs[h].parent {
            Some(p) => sp_ancestor(envs, p as int, (d - 1) as nat),
            None => h,
        }
    }
}

/// Arena well-formedness: nonempty, rooted at 0, parent indices decrease.
pub open spec fn sp_env_wf(envs: Seq<SpecScope>) -> bool {
    &&& envs.len() >= 1
    &&& envs[0].parent is None
    &&& forall|i: int|
        0 <= i < envs.len() ==> match (#[trigger] envs[i]).parent {
            Some(p) => (p as int) < i,
            None => true,
        }
}

impl Scope {
    spec fn wf(&self) -> bool {
        assoc_unique(self.names@)
    }

    spec fn view_spec(&self) -> SpecScope {
        SpecScope { parent: self.parent, names: assoc_view(self.names@) }
    }
}

impl View for Env {
    type V = Seq<SpecScope>;

    closed spec fn view(&self) -> Seq<SpecScope> {
        Seq::new(self.scopes@.len(), |i: int| self.scopes@[i].view_spec())
    }
}

impl Env {
    pub closed spec fn wf(&self) -> bool {
        &&& sp_env_wf(self@)
        &&& forall|i: int| 0 <= i < self.scopes@.len() ==> (#[trigger] self.scopes@[i]).wf()
    }

    /// A well-formed arena has a well-formed view.
    pub proof fn lemma_wf(&self)
        requires
            self.wf(),
        ensures
            sp_env_wf(self@),
    {
    }

    /// A fresh arena holding only an empty root scope.
    pub fn new() -> (r: Env)
        ensures
            r.wf(),
            r@.len() == 1,
            r@[0].parent is None,
            r@[0].names == Map::<Seq<u8>, SpecValue>::empty(),
    {
        let mut scopes: Vec<Scope> = Vec::new();
        scopes.push(Scope { parent: None, names: Vec::new() });
        let r = Env { scopes };
        proof {
            assert(r@[0].names =~= Map::<Seq<u8>, SpecValue>::empty());
        }
        r
    }

    /// Adds a fresh scope whose parent is `parent`, returning its index.
    /// Existing scopes are unchanged.
    pub fn child(&mut self, parent: usize) -> (h: usize)
        requires
            old(self).wf(),
            parent < old(self)@.len(),
        ensures
            final(self).wf(),
            h == old(self)@.len(),
            final(self)@ == old(self)@.push(
                SpecScope { parent: Some(parent), names: Map::empty() },
            ),
    {
        let h = self.scopes.len();
        self.scopes.push(Scope { parent: Some(parent), names: Vec::new() });
        proof {
            assert(final(self)@ =~= old(self)@.push(
                SpecScope { parent: Some(parent), names: Map::empty() },
            ));
        }
        h
    }

    /// Inserts or overwrites `name` in scope `h` alone; every other scope
    /// is unchanged.
    pub fn define(&mut self, h: usize, name: &Vec<u8>, value: Value)
        requires
            old(self).wf(),
            h < old(self)@.len(),
        ensures
            final(self).wf(),
            final(self)@ == old(self)@.update(
                h as int,
                SpecScope {
                    parent: old(self)@[h as int].parent,
                    names: old(self)@[h as int].names.insert(name@, value@),
                },
            ),
    {
        let ghost old_names = self.scopes@[h as int].names@;
        match assoc_find(&self.scopes[h].names, name) {
            Some(i) => {
                let pair = (clone_bytes(name), value);
                proof {
                    lemma_assoc_update(old_names, i as int, pair);
                }
                self.scopes[h].names.set(i, pair);
            },
            None => {
                proof {
                    lemma_assoc_absent(old_names, name@);
                }
                let pair = (clone_bytes(name), value);
                self.scopes[h].names.push(pair);
                proof {
                    assert(self.scopes@[h as int].names@.drop_last() =~= old_names);
                }
            },
        }
        proof {
            assert(final(self)@ =~~= old(self)@.update(
                h as int,
                SpecScope {
                    parent: old(self)@[h as int].parent,
                    names: old(self)@[h as int].names.insert(name@, value@),
                },
            ));
        }
    }

    /// Reads `name` along the chain from `h`; `nil` if absent everywhere.
    pub fn get(&self, h: usize, name: &Vec<u8>) -> (r: Value)
        requires
            self.wf(),
            h < self@.len(),
        ensures
            r@ == sp_env_get(self@, h as int, name@),
        decreases h,
    {
        match assoc_find(&self.scopes[h].names, name) {
            Some(i) => {
                proof {
                    lemma_assoc_found(self.scopes@[h as int].names@, i as int);
                }
                clone_value(&self.scopes[h].names[i].1)
            },
            None => {
                proof {
                    lemma_assoc_absent(self.scopes@[h as int].names@, name@);
                }
                match self.scopes[h].parent {
                    Some(p) => self.get(p, name),
                    None => Value::Nil,
                }
            },
        }
    }

    /// Reads `name` from the scope `distance` parent links above `h`
    /// (continuing the chain lookup from there).
    pub fn get_at(&self, h: usize, distance: usize, name: &Vec<u8>) -> (r: Value)
        requires
            self.wf(),
            h < self@.len(),
        ensures
            r@ == sp_env_get(self@, sp_ancestor(self@, h as int, distance as nat), name@),
        decreases distance,
    {
        if distance == 0 {
            self.get(h, name)
        } else {
            match self.scopes[h].parent {
                Some(p) => self.get_at(p, distance - 1, name),
                None => self.get(h, name),
            }
        }
    }

    /// Overwrites `name` in the nearest chain scope binding it, or
    /// reports `AssignNonexistent`; no other scope changes, and on the
    /// error path nothing changes.
    pub fn assign(&mut self, h: usize, name: &Vec<u8>, value: Value) -> (r: Result<
        (),
        EnvError,
    >)
        requires
            old(self).wf(),
            h < old(self)@.len(),
        ensures
            final(self).wf(),
            match sp_find_scope(old(self)@, h as int, name@) {
                Some(j) => r is Ok && final(self)@ == old(self)@.update(
                    j,
                    SpecScope {
                        parent: old(self)@[j].parent,
                        names: old(self)@[j].names.insert(name@, value@),
                    },
                ),
                None => r matches Err(EnvError::AssignNonexistent(n)) && n@ == name@
                    && final(self)@ == old(self)@,
            },
        decreases h,
    {
        let ghost old_names = self.scopes@[h as int].names@;
        match assoc_find(&self.scopes[h].names, name) {
            Some(i) => {
                proof {
                    lemma_assoc_found(old_names, i as int);
                }
                let pair = (clone_bytes(name), value);
                proof {
                    lemma_assoc_update(old_names, i as int, pair);
                }
                self.scopes[h].names.set(i, pair);
                proof {
                    assert(final(self)@ =~~= old(self)@.update(
                        h as int,
                        SpecScope {
                            parent: old(self)@[h as int].parent,
                            names: old(self)@[h as int].names.insert(name@, value@),
                        },
                    ));
                }
                Ok(())
            },
            None => {
                proof {
                    lemma_assoc_absent(old_names, name@);
                }
                match self.scopes[h].parent {
                    Some(p) => {
                        let r = self.assign(p, name, value);
                        r
                    },
                    None => Err(EnvError::AssignNonexistent(clone_bytes(name))),
                }
            },
        }
    }

    /// Overwrites `name` starting the chain search at the scope
    /// `distance` parent links above `h` (the resolver's recorded
    /// distance), or reports `AssignNonexistent`; on the error path
    /// nothing changes.
    pub fn assign_at(&mut self, h: usize, distance: usize, name: &Vec<u8>, value: Value) -> (r:
        Result<(), EnvError>)
        requires
            old(self).wf(),
            h < old(self)@.len(),
        ensures
            final(self).wf(),
            match sp_find_scope(
                old(self)@,
                sp_ancestor(old(self)@, h as int, distance as nat),
                name@,
            ) {
                Some(j) => r is Ok && final(self)@ == old(self)@.update(
                    j,
                    SpecScope {
                        parent: old(self)@[j].parent,
                        names: old(self)@[j].names.insert(name@, value@),
                    },
                ),
                None => r matches Err(EnvError::AssignNonexistent(n)) && n@ == name@
                    && final(self)@ == old(self)@,
            },
        decreases distance,
    {
        if distance == 0 {
            self.assign(h, name, value)
        } else {
            match self.scopes[h].parent {
                Some(p) => self.assign_at(p, distance - 1, name, value),
                None => self.assign(h, name, value),
            }
        }
    }

    /// The number of scopes in the arena.
    pub fn len(&self) -> (n: usize)
        ensures
            n == self@.len(),
    {
        self.scopes.len()
    }
}


/// A name bound in no scope at all reads as `nil`, never as an error:
/// the permissive-read policy, whatever scope the read starts from.
pub proof fn lemma_get_unbound_is_nil(envs: Seq<SpecScope>, h: int, name: Seq<u8>)
    requires
        forall|i: int| 0 <= i < envs.len() ==> !(#[trigger] envs[i]).names.contains_key(name),
    ensures
        sp_env_get(envs, h, name) == SpecValue::Nil,
    decreases h,
{
    if 0 <= h < envs.len() {
        match envs[h].parent {
            Some(p) => if (p as int) < h {
                lemma_get_unbound_is_nil(envs, p as int, name);
            },
            None => {},
        }
    }
}

} // verus!
