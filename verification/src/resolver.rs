//! The static resolver.
//!
//! A pass over the AST that computes, for every variable reference, the
//! number of lexical scopes to ascend to its binding (`Some(distance)`),
//! or `None` for "look up by name in the global scope at run time".
//! The pass also rejects reading a variable inside its own initializer
//! and declaring a name twice in the same scope. The whole behaviour is
//! stated by the `sp_` functions below, which the executable pass is
//! proved to follow; the first error aborts the pass.
//!
//! The global scope is never pushed on the scope stack: unresolved names
//! fall through to it implicitly, so globals may be defined after a
//! reference to them is parsed.

use vstd::prelude::*;

use crate::assoc::{
    assoc_find, assoc_unique, assoc_view, lemma_assoc_absent, lemma_assoc_found,
    lemma_assoc_update,
};
use crate::ast::{
    expr_refs_bound, exprs_refs_bound, stmt_refs_bound, stmts_refs_bound, Expr, Function,
    Literal, Reference, Stmt,
};
use crate::value::clone_bytes;

verus! {

/// A resolution error.
#[derive(Clone, Debug, PartialEq, Eq)]
pub enum ResolverError {
    SelfInitialize,
    MultipleDeclaration(Vec<u8>),
}

/// The mathematical form of a resolution error.
pub enum SpecResolverError {
    SelfInitialize,
    MultipleDeclaration(Seq<u8>),
}

impl View for ResolverError {
    type V = SpecResolverError;

    open spec fn view(&self) -> SpecResolverError {
        match self {
            ResolverError::SelfInitialize => SpecResolverError::SelfInitialize,
            ResolverError::MultipleDeclaration(n) => SpecResolverError::MultipleDeclaration(
                n@,
            ),
        }
    }
}

/// The resolver's state: the table under construction and the stack of
/// static scopes (innermost last), each mapping a name to whether its
/// initializer has completed.
#[verifier::ext_equal]
pub struct SpecRes {
    pub locals: Seq<Option<usize>>,
    pub scopes: Seq<Map<Seq<u8>, bool>>,
}

/// Marks `name` declared-but-not-defined in the innermost scope; a
/// second declaration in the same scope is an error. Outside any scope
/// (at the top level) declarations are unchecked.
pub open spec fn sp_declare(rs: SpecRes, name: Seq<u8>) -> Result<SpecRes, SpecResolverError> {
    if rs.scopes.len() == 0 {
        Ok(rs)
    } else if rs.scopes.last().contains_key(name) {
        Err(SpecResolverError::MultipleDeclaration(name))
    } else {
        Ok(
            SpecRes {
                locals: rs.locals,
                scopes: rs.scopes.update(rs.scopes.len() - 1, rs.scopes.last().insert(
                    name,
                    false,
                )),
            },
        )
    }
}

/// Marks `name` ready in the innermost scope.
pub open spec fn sp_define(rs: SpecRes, name: Seq<u8>) -> SpecRes {
    if rs.scopes.len() == 0 {
        rs
    } else {
        SpecRes {
            locals: rs.locals,
            scopes: rs.scopes.update(rs.scopes.len() - 1, rs.scopes.last().insert(name, true)),
        }
    }
}

/// Distance (0 = innermost) of the nearest scope containing `name`,
/// starting the count at `acc`.
pub open spec fn sp_scope_dist(scopes: Seq<Map<Seq<u8>, bool>>, name: Seq<u8>, acc: nat) -> Option<
    nat,
>
    decreases scopes.len(),
{
    if scopes.len() == 0 {
        None
    } else if scopes.last().contains_key(name) {
        Some(acc)
    } else {
        sp_scope_dist(scopes.drop_last(), name, acc + 1)
    }
}

/// Records the resolution of one reference into the table.
pub open spec fn sp_resolve_local(rs: SpecRes, r: Reference) -> SpecRes {
    let d = sp_scope_dist(rs.scopes, r.ident@, 0);
    match d {
        Some(ix) => SpecRes {
            locals: rs.locals.update(r.id as int, Some(ix as usize)),
            scopes: rs.scopes,
        },
        None => SpecRes { locals: rs.locals.update(r.id as int, None), scopes: rs.scopes },
    }
}

/// Resolves a reference read: reading a name whose innermost-scope entry
/// is still unfinished is the self-initialization error.
pub open spec fn sp_res_var_expr(rs: SpecRes, r: Reference) -> Result<
    SpecRes,
    SpecResolverError,
> {
    if rs.scopes.len() > 0 && rs.scopes.last().contains_key(r.ident@)
        && rs.scopes.last()[r.ident@] == false {
        Err(SpecResolverError::SelfInitialize)
    } else {
        Ok(sp_resolve_local(rs, r))
    }
}

pub open spec fn sp_res_expr(rs: SpecRes, e: Expr) -> Result<SpecRes, SpecResolverError>
    decreases e, 0nat,
{
    match e {
        Expr::Assign(a) => match sp_res_expr(rs, *a.value) {
            Ok(rs1) => Ok(sp_resolve_local(rs1, a.name)),
            Err(err) => Err(err),
        },
        Expr::Binary(b) => match sp_res_expr(rs, *b.left) {
            Ok(rs1) => sp_res_expr(rs1, *b.right),
            Err(err) => Err(err),
        },
        Expr::Literal(l) => match l {
            Literal::Identifier(r) => sp_res_var_expr(rs, r),
            _ => Ok(rs),
        },
        Expr::Unary(u) => sp_res_expr(rs, *u.right),
        Expr::Grouping(g) => sp_res_expr(rs, *g.expr),
        Expr::Call(c) => match sp_res_expr(rs, *c.callee) {
            Ok(rs1) => sp_res_exprs(rs1, c.args@, 0),
            Err(err) => Err(err),
        },
    }
}

pub open spec fn sp_res_exprs(rs: SpecRes, es: Seq<Expr>, i: int) -> Result<
    SpecRes,
    SpecResolverError,
>
    decreases es, es.len() - i,
{
    if i < 0 || i >= es.len() {
        Ok(rs)
    } else {
        match sp_res_expr(rs, es[i]) {
            Ok(rs1) => sp_res_exprs(rs1, es, i + 1),
            Err(err) => Err(err),
        }
    }
}

/// Declares and defines each parameter in order.
pub open spec fn sp_res_params(rs: SpecRes, ps: Seq<Vec<u8>>, i: int) -> Result<
    SpecRes,
    SpecResolverError,
>
    decreases ps.len() - i,
{
    if i < 0 || i >= ps.len() {
        Ok(rs)
    } else {
        match sp_declare(rs, ps[i]@) {
            Ok(rs1) => sp_res_params(sp_define(rs1, ps[i]@), ps, i + 1),
            Err(err) => Err(err),
        }
    }
}

pub open spec fn sp_res_stmt(rs: SpecRes, s: Stmt) -> Result<SpecRes, SpecResolverError>
    decreases s, 1nat, 0nat,
{
    match s {
        Stmt::Block(ss) => {
            let rs0 = SpecRes { locals: rs.locals, scopes: rs.scopes.push(Map::empty()) };
            match sp_res_stmts(rs0, ss@, 0) {
                Ok(rs1) => Ok(SpecRes { locals: rs1.locals, scopes: rs1.scopes.drop_last() }),
                Err(err) => Err(err),
            }
        },
        Stmt::Expr(e) => sp_res_expr(rs, e),
        Stmt::Function(f) => sp_res_fun_decl(rs, f),
        Stmt::If { condition, then_branch, else_branch } => match sp_res_expr(rs, condition) {
            Ok(rs1) => match sp_res_stmt(rs1, *then_branch) {
                Ok(rs2) => match else_branch {
                    Some(e) => sp_res_stmt(rs2, *e),
                    None => Ok(rs2),
                },
                Err(err) => Err(err),
            },
            Err(err) => Err(err),
        },
        Stmt::Print(e) => sp_res_expr(rs, e),
        Stmt::Return(e) => match e {
            Some(e) => sp_res_expr(rs, e),
            None => Ok(rs),
        },
        Stmt::Var { name, initializer } => match sp_declare(rs, name@) {
            Ok(rs1) => match initializer {
                Some(e) => match sp_res_expr(rs1, e) {
                    Ok(rs2) => Ok(sp_define(rs2, name@)),
                    Err(err) => Err(err),
                },
                None => Ok(sp_define(rs1, name@)),
            },
            Err(err) => Err(err),
        },
        Stmt::While { condition, body } => match sp_res_expr(rs, condition) {
            Ok(rs1) => sp_res_stmt(rs1, *body),
            Err(err) => Err(err),
        },
        Stmt::Break => Ok(rs),
    }
}

/// A function declaration resolves its name in the enclosing scope, then
/// opens a fresh scope for its parameters and body.
pub open spec fn sp_res_fun_decl(rs: SpecRes, f: Function) -> Result<SpecRes, SpecResolverError>
    decreases f.body@, 3nat, 0nat,
{
    match sp_declare(rs, f.name@) {
        Ok(rs1) => {
            let rs2 = sp_define(rs1, f.name@);
            let rs3 = SpecRes { locals: rs2.locals, scopes: rs2.scopes.push(Map::empty()) };
            match sp_res_params(rs3, f.params@, 0) {
                Ok(rs4) => match sp_res_stmts(rs4, f.body@, 0) {
                    Ok(rs5) => Ok(
                        SpecRes { locals: rs5.locals, scopes: rs5.scopes.drop_last() },
                    ),
                    Err(err) => Err(err),
                },
                Err(err) => Err(err),
            }
        },
        Err(err) => Err(err),
    }
}

pub open spec fn sp_res_stmts(rs: SpecRes, ss: Seq<Stmt>, i: int) -> Result<
    SpecRes,
    SpecResolverError,
>
    decreases ss, 2nat, ss.len() - i,
{
    if i < 0 || i >= ss.len() {
        Ok(rs)
    } else {
        match sp_res_stmt(rs, ss[i]) {
            Ok(rs1) => sp_res_stmts(rs1, ss, i + 1),
            Err(err) => Err(err),
        }
    }
}

/// The whole pass: a fresh table of `ref_count` slots, no static scopes
/// (the top level is the implicit global scope), then every statement.
pub open spec fn sp_resolve(ss: Seq<Stmt>, ref_count: nat) -> Result<
    Seq<Option<usize>>,
    SpecResolverError,
> {
    let rs = SpecRes {
        locals: Seq::new(ref_count, |i: int| None),
        scopes: Seq::empty(),
    };
    match sp_res_stmts(rs, ss, 0) {
        Ok(rs1) => Ok(rs1.locals),
        Err(err) => Err(err),
    }
}

struct Resolver {
    locals: Vec<Option<usize>>,
    scopes: Vec<Vec<(Vec<u8>, bool)>>,
}

impl View for Resolver {
    type V = SpecRes;

    closed spec fn view(&self) -> SpecRes {
        SpecRes {
            locals: self.locals@,
            scopes: Seq::new(self.scopes@.len(), |i: int| assoc_view(self.scopes@[i]@)),
        }
    }
}

impl Resolver {
    spec fn wf(&self) -> bool {
        forall|i: int| 0 <= i < self.scopes@.len() ==> assoc_unique((#[trigger] self.scopes@[i])@)
    }

    fn declare(&mut self, name: &Vec<u8>) -> (r: Result<(), ResolverError>)
        requires
            old(self).wf(),
        ensures
            final(self).wf(),
            final(self)@.locals == old(self)@.locals,
            final(self)@.scopes.len() == old(self)@.scopes.len(),
            match (r, sp_declare(old(self)@, name@)) {
                (Ok(()), Ok(rs)) => final(self)@ == rs,
                (Err(e), Err(se)) => e@ == se && final(self)@ == old(self)@,
                _ => false,
            },
    {
        let n = self.scopes.len();
        if n == 0 {
            return Ok(());
        }
        let ghost old_list = self.scopes@[n - 1]@;
        match assoc_find(&self.scopes[n - 1], name) {
            Some(i) => {
                proof {
                    lemma_assoc_found(old_list, i as int);
                }
                Err(ResolverError::MultipleDeclaration(clone_bytes(name)))
            },
            None => {
                proof {
                    lemma_assoc_absent(old_list, name@);
                }
                let pair = (clone_bytes(name), false);
                self.scopes[n - 1].push(pair);
                proof {
                    assert(self.scopes@[n - 1]@.drop_last() =~= old_list);
                    assert(final(self)@ =~~= sp_declare(old(self)@, name@)->Ok_0);
                }
                Ok(())
            },
        }
    }

    fn define(&mut self, name: &Vec<u8>)
        requires
            old(self).wf(),
        ensures
            final(self).wf(),
            final(self)@ == sp_define(old(self)@, name@),
            final(self)@.locals == old(self)@.locals,
            final(self)@.scopes.len() == old(self)@.scopes.len(),
    {
        let n = self.scopes.len();
        if n == 0 {
            return ;
        }
        let ghost old_list = self.scopes@[n - 1]@;
        let pair = (clone_bytes(name), true);
        match assoc_find(&self.scopes[n - 1], name) {
            Some(i) => {
                proof {
                    lemma_assoc_update(old_list, i as int, pair);
                }
                self.scopes[n - 1].set(i, pair);
                proof {
                    assert(final(self)@ =~~= sp_define(old(self)@, name@));
                }
            },
            None => {
                proof {
                    lemma_assoc_absent(old_list, name@);
                }
                self.scopes[n - 1].push(pair);
                proof {
                    assert(self.scopes@[n - 1]@.drop_last() =~= old_list);
                    assert(final(self)@ =~~= sp_define(old(self)@, name@));
                }
            },
        }
    }

    fn resolve_local(&mut self, r: &Reference)
        requires
            old(self).wf(),
            r.id < old(self)@.locals.len(),
        ensures
            final(self).wf(),
            final(self)@ == sp_resolve_local(old(self)@, *r),
            final(self)@.locals.len() == old(self)@.locals.len(),
            final(self)@.scopes == old(self)@.scopes,
    {
        let mut j = self.scopes.len();
        let mut ix: usize = 0;
        proof {
            assert(self@.scopes.subrange(0, j as int) =~= self@.scopes);
        }
        while j > 0
            invariant
                self.wf(),
                j <= self.scopes@.len(),
                ix + j == self.scopes@.len(),
                self.scopes@.len() <= usize::MAX,
                self@ == old(self)@,
                r.id < self@.locals.len(),
                sp_scope_dist(self@.scopes, r.ident@, 0) == sp_scope_dist(
                    self@.scopes.subrange(0, j as int),
                    r.ident@,
                    ix as nat,
                ),
            decreases j,
        {
            j = j - 1;
            let ghost scopes_pre = self@.scopes.subrange(0, j + 1);
            proof {
                assert(scopes_pre.last() == self@.scopes[j as int]);
                assert(scopes_pre.drop_last() =~= self@.scopes.subrange(0, j as int));
            }
            match assoc_find(&self.scopes[j], &r.ident) {
                Some(i) => {
                    proof {
                        lemma_assoc_found(self.scopes@[j as int]@, i as int);
                    }
                    self.locals.set(r.id, Some(ix));
                    proof {
                        assert(final(self)@ =~~= sp_resolve_local(old(self)@, *r));
                    }
                    return ;
                },
                None => {
                    proof {
                        lemma_assoc_absent(self.scopes@[j as int]@, r.ident@);
                    }
                },
            }
            ix = ix + 1;
        }
        proof {
            assert(self@.scopes.subrange(0, 0) =~= Seq::<Map<Seq<u8>, bool>>::empty());
        }
        self.locals.set(r.id, None);
        proof {
            assert(final(self)@ =~~= sp_resolve_local(old(self)@, *r));
        }
    }

    fn resolve_var_expr(&mut self, r: &Reference) -> (res: Result<(), ResolverError>)
        requires
            old(self).wf(),
            r.id < old(self)@.locals.len(),
        ensures
            final(self).wf(),
            final(self)@.locals.len() == old(self)@.locals.len(),
            final(self)@.scopes.len() == old(self)@.scopes.len(),
            match (res, sp_res_var_expr(old(self)@, *r)) {
                (Ok(()), Ok(rs)) => final(self)@ == rs,
                (Err(e), Err(se)) => e@ == se,
                _ => false,
            },
    {
        let n = self.scopes.len();
        if n > 0 {
            let ghost list = self.scopes@[n - 1]@;
            match assoc_find(&self.scopes[n - 1], &r.ident) {
                Some(i) => {
                    proof {
                        lemma_assoc_found(list, i as int);
                    }
                    if !self.scopes[n - 1][i].1 {
                        return Err(ResolverError::SelfInitialize);
                    }
                },
                None => {
                    proof {
                        lemma_assoc_absent(list, r.ident@);
                    }
                },
            }
        }
        self.resolve_local(r);
        Ok(())
    }

    fn resolve_expr(&mut self, e: &Expr) -> (res: Result<(), ResolverError>)
        requires
            old(self).wf(),
            expr_refs_bound(*e, old(self)@.locals.len()),
        ensures
            final(self).wf(),
            match (res, sp_res_expr(old(self)@, *e)) {
                (Ok(()), Ok(rs)) => final(self)@ == rs && final(self)@.locals.len() == old(
                    self,
                )@.locals.len() && final(self)@.scopes.len() == old(self)@.scopes.len(),
                (Err(e), Err(se)) => e@ == se,
                _ => false,
            },
        decreases *e, 0nat,
    {
        match e {
            Expr::Assign(a) => {
                let res = self.resolve_expr(&a.value);
                if let Err(err) = res {
                    return Err(err);
                }
                self.resolve_local(&a.name);
                Ok(())
            },
            Expr::Binary(b) => {
                let res = self.resolve_expr(&b.left);
                if let Err(err) = res {
                    return Err(err);
                }
                self.resolve_expr(&b.right)
            },
            Expr::Literal(l) => match l {
                Literal::Identifier(r) => self.resolve_var_expr(r),
                _ => Ok(()),
            },
            Expr::Unary(u) => self.resolve_expr(&u.right),
            Expr::Grouping(g) => self.resolve_expr(&g.expr),
            Expr::Call(c) => {
                let res = self.resolve_expr(&c.callee);
                if let Err(err) = res {
                    return Err(err);
                }
                self.resolve_exprs(&c.args)
            },
        }
    }

    fn resolve_exprs(&mut self, es: &Vec<Expr>) -> (res: Result<(), ResolverError>)
        requires
            old(self).wf(),
            exprs_refs_bound(es@, old(self)@.locals.len()),
        ensures
            final(self).wf(),
            match (res, sp_res_exprs(old(self)@, es@, 0)) {
                (Ok(()), Ok(rs)) => final(self)@ == rs && final(self)@.locals.len() == old(
                    self,
                )@.locals.len() && final(self)@.scopes.len() == old(self)@.scopes.len(),
                (Err(e), Err(se)) => e@ == se,
                _ => false,
            },
        decreases es@, es@.len(),
    {
        let mut i: usize = 0;
        while i < es.len()
            invariant
                self.wf(),
                i <= es@.len(),
                exprs_refs_bound(es@, self@.locals.len()),
                self@.locals.len() == old(self)@.locals.len(),
                self@.scopes.len() == old(self)@.scopes.len(),
                sp_res_exprs(old(self)@, es@, 0) == sp_res_exprs(self@, es@, i as int),
            decreases es@.len() - i,
        {
            proof {
                lemma_exprs_refs_bound_index(es@, self@.locals.len() as nat, i as int);
            }
            let res = self.resolve_expr(&es[i]);
            if let Err(err) = res {
                return Err(err);
            }
            i = i + 1;
        }
        Ok(())
    }

    fn resolve_params(&mut self, ps: &Vec<Vec<u8>>) -> (res: Result<(), ResolverError>)
        requires
            old(self).wf(),
        ensures
            final(self).wf(),
            match (res, sp_res_params(old(self)@, ps@, 0)) {
                (Ok(()), Ok(rs)) => final(self)@ == rs && final(self)@.locals.len() == old(
                    self,
                )@.locals.len() && final(self)@.scopes.len() == old(self)@.scopes.len(),
                (Err(e), Err(se)) => e@ == se,
                _ => false,
            },
    {
        let mut i: usize = 0;
        while i < ps.len()
            invariant
                self.wf(),
                i <= ps@.len(),
                self@.locals.len() == old(self)@.locals.len(),
                self@.scopes.len() == old(self)@.scopes.len(),
                sp_res_params(old(self)@, ps@, 0) == sp_res_params(self@, ps@, i as int),
            decreases ps@.len() - i,
        {
            let res = self.declare(&ps[i]);
            if let Err(err) = res {
                return Err(err);
            }
            self.define(&ps[i]);
            i = i + 1;
        }
        Ok(())
    }

    fn resolve_stmt(&mut self, s: &Stmt) -> (res: Result<(), ResolverError>)
        requires
            old(self).wf(),
            stmt_refs_bound(*s, old(self)@.locals.len()),
        ensures
            final(self).wf(),
            match (res, sp_res_stmt(old(self)@, *s)) {
                (Ok(()), Ok(rs)) => final(self)@ == rs && final(self)@.locals.len() == old(
                    self,
                )@.locals.len() && final(self)@.scopes.len() == old(self)@.scopes.len(),
                (Err(e), Err(se)) => e@ == se,
                _ => false,
            },
        decreases *s, 1nat, 0nat,
    {
        match s {
            Stmt::Block(ss) => {
                self.scopes.push(Vec::new());
                proof {
                    assert(self@.scopes =~= old(self)@.scopes.push(Map::empty()));
                    assert(self@ =~~= (SpecRes {
                        locals: old(self)@.locals,
                        scopes: old(self)@.scopes.push(Map::empty()),
                    }));
                }
                let res = self.resolve_stmts(ss);
                if let Err(err) = res {
                    return Err(err);
                }
                self.scopes.pop();
                proof {
                    assert(final(self)@ =~~= sp_res_stmt(old(self)@, *s)->Ok_0);
                }
                Ok(())
            },
            Stmt::Expr(e) => self.resolve_expr(e),
            Stmt::Function(f) => self.resolve_fun_decl(f),
            Stmt::If { condition, then_branch, else_branch } => {
                let res = self.resolve_expr(condition);
                if let Err(err) = res {
                    return Err(err);
                }
                let res = self.resolve_stmt(then_branch);
                if let Err(err) = res {
                    return Err(err);
                }
                match else_branch {
                    Some(e) => self.resolve_stmt(e),
                    None => Ok(()),
                }
            },
            Stmt::Print(e) => self.resolve_expr(e),
            Stmt::Return(e) => match e {
                Some(e) => self.resolve_expr(e),
                None => Ok(()),
            },
            Stmt::Var { name, initializer } => {
                let res = self.declare(name);
                if let Err(err) = res {
                    return Err(err);
                }
                if let Some(e) = initializer {
                    let res = self.resolve_expr(e);
                    if let Err(err) = res {
                        return Err(err);
                    }
                }
                self.define(name);
                Ok(())
            },
            Stmt::While { condition, body } => {
                let res = self.resolve_expr(condition);
                if let Err(err) = res {
                    return Err(err);
                }
                self.resolve_stmt(body)
            },
            Stmt::Break => Ok(()),
        }
    }

    fn resolve_fun_decl(&mut self, f: &Function) -> (res: Result<(), ResolverError>)
        requires
            old(self).wf(),
            stmts_refs_bound(f.body@, old(self)@.locals.len()),
        ensures
            final(self).wf(),
            match (res, sp_res_fun_decl(old(self)@, *f)) {
                (Ok(()), Ok(rs)) => final(self)@ == rs && final(self)@.locals.len() == old(
                    self,
                )@.locals.len() && final(self)@.scopes.len() == old(self)@.scopes.len(),
                (Err(e), Err(se)) => e@ == se,
                _ => false,
            },
        decreases f.body@, 3nat, 0nat,
    {
        let res = self.declare(&f.name);
        if let Err(err) = res {
            return Err(err);
        }
        self.define(&f.name);
        self.scopes.push(Vec::new());
        proof {
            assert(self@.scopes =~= sp_define(
                sp_declare(old(self)@, f.name@)->Ok_0,
                f.name@,
            ).scopes.push(Map::empty()));
        }
        let res = self.resolve_params(&f.params);
        if let Err(err) = res {
            return Err(err);
        }
        let res = self.resolve_stmts(&f.body);
        if let Err(err) = res {
            return Err(err);
        }
        self.scopes.pop();
        proof {
            assert(final(self)@ =~~= sp_res_fun_decl(old(self)@, *f)->Ok_0);
        }
        Ok(())
    }

    fn resolve_stmts(&mut self, ss: &Vec<Stmt>) -> (res: Result<(), ResolverError>)
        requires
            old(self).wf(),
            stmts_refs_bound(ss@, old(self)@.locals.len()),
        ensures
            final(self).wf(),
            match (res, sp_res_stmts(old(self)@, ss@, 0)) {
                (Ok(()), Ok(rs)) => final(self)@ == rs && final(self)@.locals.len() == old(
                    self,
                )@.locals.len() && final(self)@.scopes.len() == old(self)@.scopes.len(),
                (Err(e), Err(se)) => e@ == se,
                _ => false,
            },
        decreases ss@, 2nat, ss@.len(),
    {
        let mut i: usize = 0;
        while i < ss.len()
            invariant
                self.wf(),
                i <= ss@.len(),
                stmts_refs_bound(ss@, self@.locals.len()),
                self@.locals.len() == old(self)@.locals.len(),
                self@.scopes.len() == old(self)@.scopes.len(),
                sp_res_stmts(old(self)@, ss@, 0) == sp_res_stmts(self@, ss@, i as int),
            decreases ss@.len() - i,
        {
            proof {
                lemma_stmts_refs_bound_index(ss@, self@.locals.len() as nat, i as int);
            }
            let res = self.resolve_stmt(&ss[i]);
            if let Err(err) = res {
                return Err(err);
            }
            i = i + 1;
        }
        Ok(())
    }
}

proof fn lemma_stmts_refs_bound_index(ss: Seq<Stmt>, n: nat, i: int)
    requires
        stmts_refs_bound(ss, n),
        0 <= i < ss.len(),
    ensures
        stmt_refs_bound(ss[i], n),
    decreases ss.len(),
{
    if i > 0 {
        lemma_stmts_refs_bound_index(ss.drop_first(), n, i - 1);
    }
}

proof fn lemma_exprs_refs_bound_index(es: Seq<Expr>, n: nat, i: int)
    requires
        exprs_refs_bound(es, n),
        0 <= i < es.len(),
    ensures
        expr_refs_bound(es[i], n),
    decreases es.len(),
{
    if i > 0 {
        lemma_exprs_refs_bound_index(es.drop_first(), n, i - 1);
    }
}

/// Runs the resolver over a statement list, producing the distance
/// table, exactly as `sp_resolve` states.
pub fn resolve(ast: &Vec<Stmt>, ref_count: usize) -> (res: Result<
    Vec<Option<usize>>,
    ResolverError,
>)
    requires
        stmts_refs_bound(ast@, ref_count as nat),
    ensures
        match (res, sp_resolve(ast@, ref_count as nat)) {
            (Ok(table), Ok(t)) => table@ == t,
            (Err(e), Err(se)) => e@ == se,
            _ => false,
        },
{
    let mut locals: Vec<Option<usize>> = Vec::new();
    let mut i: usize = 0;
    while i < ref_count
        invariant
            i <= ref_count,
            locals@ =~= Seq::new(i as nat, |j: int| None::<usize>),
        decreases ref_count - i,
    {
        locals.push(None);
        i = i + 1;
        proof {
            assert(locals@ =~= Seq::new(i as nat, |j: int| None::<usize>));
        }
    }
    let mut resolver = Resolver { locals, scopes: Vec::new() };
    proof {
        assert(resolver@.scopes =~= Seq::<Map<Seq<u8>, bool>>::empty());
        assert(resolver@ =~~= (SpecRes {
            locals: Seq::new(ref_count as nat, |j: int| None::<usize>),
            scopes: Seq::empty(),
        }));
    }
    let res = resolver.resolve_stmts(ast);
    match res {
        Ok(()) => Ok(resolver.locals),
        Err(err) => Err(err),
    }
}

} // verus!
