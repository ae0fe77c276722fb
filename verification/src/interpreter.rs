//! The tree-walking interpreter.
//!
//! Every function here is proved to produce exactly the state and
//! outcome that the big-step semantics in [`crate::semantics`] defines.
//! The interpreter owns the scope arena, the function table, the output
//! buffer, and a queue of injected clock readings; its view is the
//! semantics' state.

use vstd::prelude::*;

use std::rc::Rc;

use crate::ast::{
    expr_size, exprs_size, stmt_size, stmts_size, stmts_refs_bound, Expr, Function, Literal,
    Stmt,
};
use crate::callable::{Callable, Clock, Function as FunctionValue};
use crate::env::{
    sp_env_get, sp_env_wf, sp_find_scope, Env, EnvError, SpecScope,
};
use crate::num::{num_wf, parse_num, Num};
use crate::resolver::{resolve, sp_resolve, ResolverError};
use crate::semantics::{
    sp_apply, sp_assign_scope, sp_binary, sp_bind_params, sp_clock, sp_declare_fun,
    sp_eval_args, sp_eval_expr,
    sp_exec_stmt, sp_exec_stmts, sp_exec_while, sp_literal, sp_run, sp_st_define, sp_unary,
    SpecCtl, SpecErr, SpecFun, SpecState,
};
use crate::value::{
    clone_bytes, clone_value, is_truthy, render_value, sp_value_wf, value_eq, SpecValue, Type,
    Value,
};

verus! {

/// A registered function: shared parameter list and body, and the
/// scope captured at declaration.
pub struct FunDef {
    params: Rc<Vec<Vec<u8>>>,
    body: Rc<Vec<Stmt>>,
    env: usize,
}

/// Where printed output goes: an owned byte buffer, which the host
/// drains through [`Interpreter::get_output`].
pub enum InterpreterOutput {
    String(Vec<u8>),
}

/// A runtime error of one top-level statement.
#[derive(Clone, Debug, PartialEq, Eq)]
pub enum InterpreterError {
    TypeError { expected: Vec<Type>, found: Type },
    EnvError(EnvError),
    LoopUnwind,
    NotCallable,
    ArityMismatch { expected: u8, got: usize },
    NumericOverflow,
    OutOfFuel,
    Resolution(ResolverError),
}

impl View for InterpreterError {
    type V = SpecErr;

    open spec fn view(&self) -> SpecErr {
        match self {
            InterpreterError::TypeError { expected, found } => SpecErr::TypeError {
                expected: expected@,
                found: *found,
            },
            InterpreterError::EnvError(EnvError::AssignNonexistent(n)) => {
                SpecErr::AssignNonexistent(n@)
            },
            InterpreterError::LoopUnwind => SpecErr::LoopUnwind,
            InterpreterError::NotCallable => SpecErr::NotCallable,
            InterpreterError::ArityMismatch { expected, got } => SpecErr::ArityMismatch {
                expected: *expected,
                got: *got,
            },
            InterpreterError::NumericOverflow => SpecErr::NumericOverflow,
            InterpreterError::OutOfFuel => SpecErr::OutOfFuel,
            InterpreterError::Resolution(e) => SpecErr::Resolution(e@),
        }
    }
}

/// A non-normal completion: a fault, a `break`, or a `return`.
#[derive(Clone, Debug, PartialEq)]
pub enum ExecResult {
    Failed(InterpreterError),
    Break,
    Returned(Value),
}

impl View for ExecResult {
    type V = SpecCtl;

    open spec fn view(&self) -> SpecCtl {
        match self {
            ExecResult::Failed(e) => SpecCtl::Failed(e@),
            ExecResult::Break => SpecCtl::Break,
            ExecResult::Returned(v) => SpecCtl::Returned(v@),
        }
    }
}

/// The interpreter.
pub struct Interpreter {
    env: Env,
    cur: usize,
    funs: Vec<FunDef>,
    out: Vec<u8>,
    ticks: Vec<Num>,
    locals: Vec<Option<usize>>,
}

/// All values stored in the environments are well-formed.
pub open spec fn sp_envs_vals_wf(envs: Seq<SpecScope>) -> bool {
    forall|i: int, k: Seq<u8>|
        0 <= i < envs.len() && (#[trigger] envs[i].names.contains_key(k)) ==> sp_value_wf(
            envs[i].names[k],
        )
}

/// Every registered function captured a scope that exists.
pub open spec fn sp_funs_wf(funs: Seq<SpecFun>, envs_len: nat) -> bool {
    forall|j: int| 0 <= j < funs.len() ==> (#[trigger] funs[j]).env < envs_len
}

/// Every queued clock reading is well-formed.
pub open spec fn sp_ticks_wf(ticks: Seq<Num>) -> bool {
    forall|i: int| 0 <= i < ticks.len() ==> num_wf(#[trigger] ticks[i])
}

/// The state invariant the interpreter maintains.
pub open spec fn sp_state_wf(st: SpecState) -> bool {
    &&& sp_env_wf(st.envs)
    &&& st.cur < st.envs.len()
    &&& sp_envs_vals_wf(st.envs)
    &&& sp_funs_wf(st.funs, st.envs.len())
    &&& sp_ticks_wf(st.ticks)
}

impl View for Interpreter {
    type V = SpecState;

    closed spec fn view(&self) -> SpecState {
        SpecState {
            envs: self.env@,
            cur: self.cur,
            funs: Seq::new(
                self.funs@.len(),
                |i: int|
                    SpecFun {
                        params: self.funs@[i].params@,
                        body: self.funs@[i].body@,
                        env: self.funs@[i].env,
                    },
            ),
            out: self.out@,
            ticks: self.ticks@,
            locals: self.locals@,
        }
    }
}

/// The name the clock built-in is seeded under.
pub open spec fn sp_clock_name() -> Seq<u8> {
    seq![99u8, 108u8, 111u8, 99u8, 107u8]
}

/// The state a fresh interpreter starts in: one global scope holding
/// only the clock, and the given output buffer.
pub open spec fn sp_initial_state(out: Seq<u8>) -> SpecState {
    SpecState {
        envs: seq![
            SpecScope {
                parent: None,
                names: Map::empty().insert(
                    sp_clock_name(),
                    SpecValue::Callable(Callable::Clock(Clock)),
                ),
            },
        ],
        cur: 0,
        funs: Seq::empty(),
        out,
        ticks: Seq::empty(),
        locals: Seq::empty(),
    }
}

/// Relies on `Rc::clone`: the clone is a second handle to the same
/// value.
#[verifier::external_body]
fn rc_clone<T>(rc: &Rc<T>) -> (r: Rc<T>)
    ensures
        r == *rc,
{
    Rc::clone(rc)
}

/// The view of an expression outcome.
pub open spec fn sp_out_val(r: Result<Value, ExecResult>) -> Result<SpecValue, SpecCtl> {
    match r {
        Ok(v) => Ok(v@),
        Err(c) => Err(c@),
    }
}

/// The view of a statement outcome.
pub open spec fn sp_out_unit(r: Result<(), ExecResult>) -> Result<(), SpecCtl> {
    match r {
        Ok(()) => Ok(()),
        Err(c) => Err(c@),
    }
}

/// Values travelling in an outcome are well-formed.
pub open spec fn sp_out_wf(r: Result<SpecValue, SpecCtl>) -> bool {
    match r {
        Ok(v) => sp_value_wf(v),
        Err(SpecCtl::Returned(v)) => sp_value_wf(v),
        _ => true,
    }
}

pub open spec fn sp_ctl_wf(r: Result<(), SpecCtl>) -> bool {
    match r {
        Err(SpecCtl::Returned(v)) => sp_value_wf(v),
        _ => true,
    }
}

/// The view of a value list.
pub open spec fn sp_vals_view(vs: Seq<Value>) -> Seq<SpecValue> {
    Seq::new(vs.len(), |i: int| vs[i]@)
}

pub open spec fn sp_vals_wf(vs: Seq<SpecValue>) -> bool {
    forall|i: int| 0 <= i < vs.len() ==> sp_value_wf(#[trigger] vs[i])
}

/// The view of an error list.
pub open spec fn sp_errs_view(es: Seq<InterpreterError>) -> Seq<SpecErr> {
    Seq::new(es.len(), |i: int| es[i]@)
}

proof fn lemma_env_get_wf(envs: Seq<SpecScope>, h: int, name: Seq<u8>)
    requires
        sp_envs_vals_wf(envs),
    ensures
        sp_value_wf(sp_env_get(envs, h, name)),
    decreases h,
{
    if h < 0 || h >= envs.len() {
    } else if envs[h].names.contains_key(name) {
    } else {
        match envs[h].parent {
            Some(p) => if (p as int) < h {
                lemma_env_get_wf(envs, p as int, name);
            },
            None => {},
        }
    }
}

proof fn lemma_find_scope_in_range(envs: Seq<SpecScope>, h: int, name: Seq<u8>)
    ensures
        match sp_find_scope(envs, h, name) {
            Some(j) => 0 <= j < envs.len(),
            None => true,
        },
    decreases h,
{
    if 0 <= h < envs.len() && !envs[h].names.contains_key(name) {
        match envs[h].parent {
            Some(p) => if (p as int) < h {
                lemma_find_scope_in_range(envs, p as int, name);
            },
            None => {},
        }
    }
}

/// Inserting a well-formed value into one scope keeps the state
/// invariant, the parents being untouched.
proof fn lemma_wf_insert(st: SpecState, j: int, name: Seq<u8>, v: SpecValue)
    requires
        sp_state_wf(st),
        0 <= j < st.envs.len(),
        sp_value_wf(v),
    ensures
        sp_state_wf(
            SpecState {
                envs: st.envs.update(
                    j,
                    SpecScope {
                        parent: st.envs[j].parent,
                        names: st.envs[j].names.insert(name, v),
                    },
                ),
                ..st
            },
        ),
{
    let envs2 = st.envs.update(
        j,
        SpecScope { parent: st.envs[j].parent, names: st.envs[j].names.insert(name, v) },
    );
    assert forall|i: int, k: Seq<u8>|
        0 <= i < envs2.len() && (#[trigger] envs2[i].names.contains_key(k)) implies sp_value_wf(
        envs2[i].names[k],
    ) by {
        if i == j {
            if k == name {
            } else {
                assert(st.envs[i].names.contains_key(k));
            }
        } else {
            assert(st.envs[i].names.contains_key(k));
        }
    }
}

impl Interpreter {
    /// The interpreter's invariant.
    pub closed spec fn wf(&self) -> bool {
        &&& self.env.wf()
        &&& sp_state_wf(self@)
    }

    /// A fresh interpreter: a single global scope seeding the clock
    /// built-in, writing to the given output buffer.
    pub fn new(out: InterpreterOutput) -> (r: Interpreter)
        ensures
            r.wf(),
            r@ == sp_initial_state(
                match out {
                    InterpreterOutput::String(b) => b@,
                },
            ),
    {
        let mut env = Env::new();
        let mut name: Vec<u8> = Vec::new();
        name.push(99);
        name.push(108);
        name.push(111);
        name.push(99);
        name.push(107);
        proof {
            assert(name@ =~= sp_clock_name());
        }
        env.define(0, &name, Value::Callable(Callable::Clock(Clock)));
        let buf = match out {
            InterpreterOutput::String(b) => b,
        };
        let r = Interpreter {
            env,
            cur: 0,
            funs: Vec::new(),
            out: buf,
            ticks: Vec::new(),
            locals: Vec::new(),
        };
        proof {
            assert(r@.envs =~~= sp_initial_state(r@.out).envs);
            assert(r@ =~~= sp_initial_state(r@.out));
        }
        r
    }

    /// Queues one clock reading, in seconds, for the clock built-in.
    pub fn feed_clock(&mut self, t: Num)
        requires
            old(self).wf(),
            num_wf(t),
        ensures
            final(self).wf(),
            final(self)@ == (SpecState { ticks: old(self)@.ticks.push(t), ..old(self)@ }),
    {
        self.ticks.push(t);
        proof {
            assert(final(self)@ =~~= (SpecState {
                ticks: old(self)@.ticks.push(t),
                ..old(self)@
            }));
        }
    }

    /// Takes the output produced so far, leaving the buffer empty.
    pub fn get_output(&mut self) -> (r: Vec<u8>)
        requires
            old(self).wf(),
        ensures
            final(self).wf(),
            r@ == old(self)@.out,
            final(self)@ == (SpecState { out: Seq::empty(), ..old(self)@ }),
    {
        let r = clone_bytes(&self.out);
        self.out.clear();
        proof {
            assert(final(self)@ =~~= (SpecState { out: Seq::empty(), ..old(self)@ }));
        }
        r
    }

    /// The value of a literal in the current state.
    fn eval_literal(&self, l: &Literal) -> (r: Result<Value, InterpreterError>)
        requires
            self.wf(),
        ensures
            match (r, sp_literal(self@, *l)) {
                (Ok(v), Ok(sv)) => v@ == sv && sp_value_wf(sv),
                (Err(e), Err(se)) => e@ == se,
                _ => false,
            },
    {
        match l {
            Literal::StringLit(sl) => Ok(Value::String(clone_bytes(&sl.0))),
            Literal::NumLit(nl) => match parse_num(&nl.0) {
                Some(n) => Ok(Value::Num(n)),
                None => Err(InterpreterError::NumericOverflow),
            },
            Literal::Identifier(rf) => {
                proof {
                    lemma_env_get_wf(self@.envs, 0, rf.ident@);
                }
                if rf.id < self.locals.len() {
                    match self.locals[rf.id] {
                        Some(d) => {
                            proof {
                                lemma_env_get_wf(
                                    self@.envs,
                                    crate::env::sp_ancestor(
                                        self@.envs,
                                        self@.cur as int,
                                        d as nat,
                                    ),
                                    rf.ident@,
                                );
                            }
                            Ok(self.env.get_at(self.cur, d, &rf.ident))
                        },
                        None => Ok(self.env.get(0, &rf.ident)),
                    }
                } else {
                    Ok(self.env.get(0, &rf.ident))
                }
            },
            Literal::Nil => Ok(Value::Nil),
            Literal::Bool(b) => Ok(Value::Bool(*b)),
        }
    }

    /// Evaluates an expression exactly as `sp_eval_expr` states.
    fn eval_expr(&mut self, e: &Expr, fuel: u64) -> (r: Result<Value, ExecResult>)
        requires
            old(self).wf(),
        ensures
            final(self).wf(),
            old(self)@.envs.len() <= final(self)@.envs.len(),
            final(self)@ == sp_eval_expr(old(self)@, *e, fuel).0,
            sp_out_val(r) == sp_eval_expr(old(self)@, *e, fuel).1,
            sp_out_wf(sp_out_val(r)),
        decreases fuel, expr_size(*e), 1nat,
    {
        match e {
            Expr::Assign(a) => {
                let v = match self.eval_expr(&a.value, fuel) {
                    Ok(v) => v,
                    Err(c) => {
                        return Err(c);
                    },
                };
                let ghost start = sp_assign_scope(
                    self@,
                    a.name.id,
                    a.name.ident@,
                );
                proof {
                    lemma_find_scope_in_range(self@.envs, start, a.name.ident@);
                    self.env.lemma_wf();
                }
                let stored = clone_value(&v);
                let dist: Option<usize> = if a.name.id < self.locals.len() {
                    self.locals[a.name.id]
                } else {
                    None
                };
                let assigned = match dist {
                    Some(d) => self.env.assign_at(self.cur, d, &a.name.ident, stored),
                    None => self.env.assign(0, &a.name.ident, stored),
                };
                match assigned {
                    Ok(()) => {
                        proof {
                            lemma_wf_insert(
                                sp_eval_expr(old(self)@, *a.value, fuel).0,
                                sp_find_scope(
                                    sp_eval_expr(old(self)@, *a.value, fuel).0.envs,
                                    start,
                                    a.name.ident@,
                                )->0,
                                a.name.ident@,
                                v@,
                            );
                            assert(final(self)@ =~~= sp_eval_expr(old(self)@, *e, fuel).0);
                        }
                        Ok(v)
                    },
                    Err(EnvError::AssignNonexistent(n)) => Err(
                        ExecResult::Failed(
                            InterpreterError::EnvError(EnvError::AssignNonexistent(n)),
                        ),
                    ),
                }
            },
            Expr::Literal(l) => match self.eval_literal(l) {
                Ok(v) => Ok(v),
                Err(err) => Err(ExecResult::Failed(err)),
            },
            Expr::Binary(b) => {
                let logical = match b.op {
                    crate::ast::BinaryOp::LogicOr => true,
                    crate::ast::BinaryOp::LogicAnd => true,
                    _ => false,
                };
                if logical {
                    let v = match self.eval_expr(&b.left, fuel) {
                        Ok(v) => v,
                        Err(c) => {
                            return Err(c);
                        },
                    };
                    let is_or = match b.op {
                        crate::ast::BinaryOp::LogicOr => true,
                        _ => false,
                    };
                    let t = is_truthy(&v);
                    if (is_or && t) || (!is_or && !t) {
                        Ok(v)
                    } else {
                        self.eval_expr(&b.right, fuel)
                    }
                } else {
                    let v1 = match self.eval_expr(&b.left, fuel) {
                        Ok(v) => v,
                        Err(c) => {
                            return Err(c);
                        },
                    };
                    let v2 = match self.eval_expr(&b.right, fuel) {
                        Ok(v) => v,
                        Err(c) => {
                            return Err(c);
                        },
                    };
                    match apply_binary(b.op, &v1, &v2) {
                        Ok(v) => Ok(v),
                        Err(err) => Err(ExecResult::Failed(err)),
                    }
                }
            },
            Expr::Unary(u) => {
                let v = match self.eval_expr(&u.right, fuel) {
                    Ok(v) => v,
                    Err(c) => {
                        return Err(c);
                    },
                };
                match apply_unary(u.op, &v) {
                    Ok(v) => Ok(v),
                    Err(err) => Err(ExecResult::Failed(err)),
                }
            },
            Expr::Grouping(g) => self.eval_expr(&g.expr, fuel),
            Expr::Call(c) => {
                let callee = match self.eval_expr(&c.callee, fuel) {
                    Ok(v) => v,
                    Err(c) => {
                        return Err(c);
                    },
                };
                proof {
                    assert(c.args@.subrange(0, c.args@.len() as int) =~= c.args@);
                }
                let args = match self.eval_args(&c.args, 0, fuel) {
                    Ok(vs) => vs,
                    Err(ctl) => {
                        return Err(ctl);
                    },
                };
                self.apply_call(callee, args, fuel)
            },
        }
    }

    /// Evaluates the arguments `es[i..]`, as `sp_eval_args` states of
    /// that suffix.
    fn eval_args(&mut self, es: &Vec<Expr>, i: usize, fuel: u64) -> (r: Result<
        Vec<Value>,
        ExecResult,
    >)
        requires
            old(self).wf(),
            i <= es@.len(),
        ensures
            final(self).wf(),
            old(self)@.envs.len() <= final(self)@.envs.len(),
            final(self)@ == sp_eval_args(
                old(self)@,
                es@.subrange(i as int, es@.len() as int),
                fuel,
            ).0,
            match (r, sp_eval_args(old(self)@, es@.subrange(i as int, es@.len() as int), fuel).1) {
                (Ok(vs), Ok(svs)) => sp_vals_view(vs@) == svs && sp_vals_wf(svs),
                (Err(c), Err(sc)) => c@ == sc && sp_ctl_wf(Err(sc)),
                _ => false,
            },
        decreases fuel, exprs_size(es@.subrange(i as int, es@.len() as int)), 1nat,
    {
        let ghost suffix = es@.subrange(i as int, es@.len() as int);
        if i == es.len() {
            proof {
                assert(sp_vals_view(Seq::empty()) =~= Seq::<SpecValue>::empty());
            }
            return Ok(Vec::new());
        }
        proof {
            assert(suffix[0] == es@[i as int]);
            assert(suffix.drop_first() =~= es@.subrange(i + 1, es@.len() as int));
        }
        let v = match self.eval_expr(&es[i], fuel) {
            Ok(v) => v,
            Err(c) => {
                return Err(c);
            },
        };
        let mut rest = match self.eval_args(es, i + 1, fuel) {
            Ok(vs) => vs,
            Err(c) => {
                return Err(c);
            },
        };
        rest.insert(0, v);
        proof {
            let (st2, r2) = sp_eval_args(old(self)@, suffix, fuel);
            assert(sp_vals_view(rest@) =~= seq![rest@[0]@] + sp_vals_view(rest@.drop_first()));
            assert(rest@.drop_first() =~= rest@.subrange(1, rest@.len() as int));
        }
        Ok(rest)
    }

    /// Applies a called value, as the call case of `sp_eval_expr`
    /// states: a non-callable or a wrong argument count faults, the
    /// clock consumes a reading, and a user function runs its body in a
    /// fresh child of its captured scope.
    fn apply_call(&mut self, callee: Value, args: Vec<Value>, fuel: u64) -> (r: Result<
        Value,
        ExecResult,
    >)
        requires
            old(self).wf(),
            sp_vals_wf(sp_vals_view(args@)),
        ensures
            final(self).wf(),
            old(self)@.envs.len() <= final(self)@.envs.len(),
            ({
                let (st, res) = sp_apply(old(self)@, callee@, sp_vals_view(args@), fuel);
                final(self)@ == st && sp_out_val(r) == res && sp_out_wf(res)
            }),
        decreases fuel, 0nat, 0nat,
    {
        match callee {
            Value::Callable(Callable::Clock(_)) => {
                if args.len() != 0 {
                    return Err(
                        ExecResult::Failed(
                            InterpreterError::ArityMismatch { expected: 0, got: args.len() },
                        ),
                    );
                }
                if self.ticks.len() > 0 {
                    let t = self.ticks.remove(0);
                    proof {
                        assert(final(self)@ =~~= sp_clock(old(self)@).0);
                        assert(old(self)@.ticks.remove(0) =~= old(self)@.ticks.drop_first());
                    }
                    Ok(Value::Num(t))
                } else {
                    Ok(Value::Num(Num { n: 0, d: 1 }))
                }
            },
            Value::Callable(Callable::Function(f)) => {
                if f.index >= self.funs.len() {
                    return Err(ExecResult::Failed(InterpreterError::NotCallable));
                }
                let arity = self.funs[f.index].params.len();
                if args.len() != arity {
                    return Err(
                        ExecResult::Failed(
                            InterpreterError::ArityMismatch {
                                expected: (arity % 256) as u8,
                                got: args.len(),
                            },
                        ),
                    );
                }
                if fuel == 0 {
                    return Err(ExecResult::Failed(InterpreterError::OutOfFuel));
                }
                let params = rc_clone(&self.funs[f.index].params);
                let body = rc_clone(&self.funs[f.index].body);
                let fun_env = self.funs[f.index].env;
                proof {
                    self.env.lemma_wf();
                }
                let h = self.env.child(fun_env);
                let prev = self.cur;
                self.cur = h;
                proof {
                    lemma_wf_push(old(self)@, fun_env);
                    assert(self@ =~~= (SpecState {
                        envs: old(self)@.envs.push(
                            SpecScope { parent: Some(fun_env), names: Map::empty() },
                        ),
                        cur: h,
                        ..old(self)@
                    }));
                }
                self.bind_params(h, &params, &args);
                let res = self.exec_stmts(&body, 0, fuel - 1);
                self.cur = prev;
                proof {
                    assert(body@.subrange(0, body@.len() as int) =~= body@);
                    let (st, sres) = sp_apply(
                        old(self)@,
                        callee@,
                        sp_vals_view(args@),
                        fuel,
                    );
                    assert(final(self)@ =~~= st);
                }
                match res {
                    Ok(()) => Ok(Value::Nil),
                    Err(ExecResult::Returned(v)) => Ok(v),
                    Err(ctl) => Err(ctl),
                }
            },
            _ => Err(ExecResult::Failed(InterpreterError::NotCallable)),
        }
    }

    /// Binds parameters to arguments positionally in scope `h`.
    fn bind_params(&mut self, h: usize, params: &Vec<Vec<u8>>, args: &Vec<Value>)
        requires
            old(self).wf(),
            h < old(self)@.envs.len(),
            sp_vals_wf(sp_vals_view(args@)),
        ensures
            final(self).wf(),
            old(self)@.envs.len() <= final(self)@.envs.len(),
            final(self)@ == sp_bind_params(old(self)@, h, params@, sp_vals_view(args@), 0),
    {
        let mut i: usize = 0;
        let n = if params.len() < args.len() {
            params.len()
        } else {
            args.len()
        };
        while i < n
            invariant
                self.wf(),
                i <= n,
                h < self@.envs.len(),
                old(self)@.envs.len() <= self@.envs.len(),
                n == if params@.len() < args@.len() {
                    params@.len()
                } else {
                    args@.len()
                },
                sp_vals_wf(sp_vals_view(args@)),
                sp_bind_params(old(self)@, h, params@, sp_vals_view(args@), 0)
                    == sp_bind_params(self@, h, params@, sp_vals_view(args@), i as int),
            decreases n - i,
        {
            proof {
                self.env.lemma_wf();
                assert(sp_vals_view(args@)[i as int] == args@[i as int]@);
            }
            let v = clone_value(&args[i]);
            let ghost pre = self@;
            self.env.define(h, &params[i], v);
            proof {
                lemma_wf_insert(pre, h as int, params@[i as int]@, args@[i as int]@);
                assert(self@ =~~= sp_st_define(
                    pre,
                    h,
                    params@[i as int]@,
                    sp_vals_view(args@)[i as int],
                ));
            }
            i = i + 1;
        }
    }

    /// Executes one statement exactly as `sp_exec_stmt` states.
    fn execute(&mut self, s: &Stmt, fuel: u64) -> (r: Result<(), ExecResult>)
        requires
            old(self).wf(),
        ensures
            final(self).wf(),
            old(self)@.envs.len() <= final(self)@.envs.len(),
            final(self)@ == sp_exec_stmt(old(self)@, *s, fuel).0,
            sp_out_unit(r) == sp_exec_stmt(old(self)@, *s, fuel).1,
            sp_ctl_wf(sp_out_unit(r)),
        decreases fuel, stmt_size(*s), 1nat,
    {
        match s {
            Stmt::Expr(e) => match self.eval_expr(e, fuel) {
                Ok(_) => Ok(()),
                Err(c) => Err(c),
            },
            Stmt::Print(e) => {
                let v = match self.eval_expr(e, fuel) {
                    Ok(v) => v,
                    Err(c) => {
                        return Err(c);
                    },
                };
                let mut bytes = render_value(&v);
                self.out.append(&mut bytes);
                self.out.push(10);
                proof {
                    assert(final(self)@ =~~= sp_exec_stmt(old(self)@, *s, fuel).0);
                }
                Ok(())
            },
            Stmt::Var { name, initializer } => {
                let v = match initializer {
                    Some(e) => match self.eval_expr(e, fuel) {
                        Ok(v) => v,
                        Err(c) => {
                            return Err(c);
                        },
                    },
                    None => Value::Nil,
                };
                proof {
                    self.env.lemma_wf();
                }
                let ghost pre = self@;
                let cur = self.cur;
                self.env.define(cur, name, v);
                proof {
                    lemma_wf_insert(pre, pre.cur as int, name@, v@);
                    assert(final(self)@ =~~= sp_exec_stmt(old(self)@, *s, fuel).0);
                }
                Ok(())
            },
            Stmt::Block(ss) => {
                proof {
                    self.env.lemma_wf();
                }
                let cur0 = self.cur;
                let h = self.env.child(cur0);
                let prev = self.cur;
                self.cur = h;
                proof {
                    lemma_wf_push(old(self)@, prev);
                    assert(self@ =~~= (SpecState {
                        envs: old(self)@.envs.push(
                            SpecScope { parent: Some(prev), names: Map::empty() },
                        ),
                        cur: h,
                        ..old(self)@
                    }));
                    assert(ss@.subrange(0, ss@.len() as int) =~= ss@);
                }
                let r = self.exec_stmts(ss, 0, fuel);
                self.cur = prev;
                proof {
                    assert(final(self)@ =~~= sp_exec_stmt(old(self)@, *s, fuel).0);
                }
                r
            },
            Stmt::If { condition, then_branch, else_branch } => {
                let v = match self.eval_expr(condition, fuel) {
                    Ok(v) => v,
                    Err(c) => {
                        return Err(c);
                    },
                };
                if is_truthy(&v) {
                    self.execute(then_branch, fuel)
                } else {
                    match else_branch {
                        Some(e) => self.execute(e, fuel),
                        None => Ok(()),
                    }
                }
            },
            Stmt::While { .. } => self.exec_while(s, fuel),
            Stmt::Break => Err(ExecResult::Break),
            Stmt::Return(e) => {
                let v = match e {
                    Some(e) => match self.eval_expr(e, fuel) {
                        Ok(v) => v,
                        Err(c) => {
                            return Err(c);
                        },
                    },
                    None => Value::Nil,
                };
                Err(ExecResult::Returned(v))
            },
            Stmt::Function(f) => {
                self.declare_fun(f);
                Ok(())
            },
        }
    }

    /// Registers a function declaration, capturing the current scope.
    fn declare_fun(&mut self, f: &Function)
        requires
            old(self).wf(),
        ensures
            final(self).wf(),
            final(self)@ == sp_declare_fun(old(self)@, *f),
    {
        let idx = self.funs.len();
        let cur = self.cur;
        let fd = FunDef {
            params: rc_clone(&f.params),
            body: rc_clone(&f.body),
            env: cur,
        };
        self.funs.push(fd);
        proof {
            self.env.lemma_wf();
            assert(self@.funs =~= old(self)@.funs.push(
                SpecFun { params: f.params@, body: f.body@, env: old(self)@.cur },
            ));
            assert forall|j: int|
                0 <= j < self@.funs.len() implies (#[trigger] self@.funs[j]).env
                < self@.envs.len() by {
                if j < old(self)@.funs.len() {
                    assert(self@.funs[j] == old(self)@.funs[j]);
                }
            }
            assert(sp_state_wf(self@));
        }
        let ghost pre = self@;
        self.env.define(
            cur,
            &f.name,
            Value::Callable(Callable::Function(FunctionValue::new(idx))),
        );
        proof {
            lemma_wf_insert(
                pre,
                pre.cur as int,
                f.name@,
                SpecValue::Callable(Callable::Function(FunctionValue { index: idx })),
            );
            assert(final(self)@ =~~= sp_declare_fun(old(self)@, *f));
        }
    }

    /// Runs a `while` statement exactly as `sp_exec_while` states.
    fn exec_while(&mut self, s: &Stmt, fuel: u64) -> (r: Result<(), ExecResult>)
        requires
            old(self).wf(),
        ensures
            final(self).wf(),
            old(self)@.envs.len() <= final(self)@.envs.len(),
            final(self)@ == sp_exec_while(old(self)@, *s, fuel).0,
            sp_out_unit(r) == sp_exec_while(old(self)@, *s, fuel).1,
            sp_ctl_wf(sp_out_unit(r)),
        decreases fuel, stmt_size(*s), 0nat,
    {
        match s {
            Stmt::While { condition, body } => {
                let v = match self.eval_expr(condition, fuel) {
                    Ok(v) => v,
                    Err(c) => {
                        return Err(c);
                    },
                };
                if !is_truthy(&v) {
                    return Ok(());
                }
                match self.execute(body, fuel) {
                    Ok(()) => {
                        if fuel == 0 {
                            Err(ExecResult::Failed(InterpreterError::OutOfFuel))
                        } else {
                            self.exec_while(s, fuel - 1)
                        }
                    },
                    Err(ExecResult::Break) => Ok(()),
                    Err(ctl) => Err(ctl),
                }
            },
            _ => Ok(()),
        }
    }

    /// Executes the statements `ss[i..]` in order, as `sp_exec_stmts`
    /// states of that suffix.
    fn exec_stmts(&mut self, ss: &Vec<Stmt>, i: usize, fuel: u64) -> (r: Result<
        (),
        ExecResult,
    >)
        requires
            old(self).wf(),
            i <= ss@.len(),
        ensures
            final(self).wf(),
            old(self)@.envs.len() <= final(self)@.envs.len(),
            final(self)@ == sp_exec_stmts(
                old(self)@,
                ss@.subrange(i as int, ss@.len() as int),
                fuel,
            ).0,
            sp_out_unit(r) == sp_exec_stmts(
                old(self)@,
                ss@.subrange(i as int, ss@.len() as int),
                fuel,
            ).1,
            sp_ctl_wf(sp_out_unit(r)),
        decreases fuel, stmts_size(ss@.subrange(i as int, ss@.len() as int)), 1nat,
    {
        let ghost suffix = ss@.subrange(i as int, ss@.len() as int);
        if i == ss.len() {
            return Ok(());
        }
        proof {
            assert(suffix[0] == ss@[i as int]);
            assert(suffix.drop_first() =~= ss@.subrange(i + 1, ss@.len() as int));
        }
        match self.execute(&ss[i], fuel) {
            Ok(()) => self.exec_stmts(ss, i + 1, fuel),
            Err(c) => Err(c),
        }
    }

    /// Runs the top-level statements `ss[i..]` independently, as
    /// `sp_run` states: faults are collected, a stray break becomes the
    /// loop-unwind error, and a `return` ends the run with its value.
    fn run(&mut self, ss: &Vec<Stmt>, i: usize, fuel: u64) -> (r: (
        Vec<InterpreterError>,
        Option<Value>,
    ))
        requires
            old(self).wf(),
            i <= ss@.len(),
        ensures
            final(self).wf(),
            old(self)@.envs.len() <= final(self)@.envs.len(),
            ({
                let (st, errs, retv) = sp_run(old(self)@, ss@, i as int, fuel);
                &&& final(self)@ == st
                &&& sp_errs_view(r.0@) == errs
                &&& match (r.1, retv) {
                    (Some(v), Some(sv)) => v@ == sv,
                    (None, None) => true,
                    _ => false,
                }
            }),
        decreases ss@.len() - i,
    {
        if i == ss.len() {
            proof {
                assert(sp_errs_view(Seq::empty()) =~= Seq::<SpecErr>::empty());
            }
            return (Vec::new(), None);
        }
        let r = self.execute(&ss[i], fuel);
        if let Err(ExecResult::Returned(v)) = r {
            proof {
                assert(sp_errs_view(Seq::empty()) =~= Seq::<SpecErr>::empty());
            }
            return (Vec::new(), Some(v));
        }
        let (mut errs, retv) = self.run(ss, i + 1, fuel);
        match r {
            Ok(()) => (errs, retv),
            Err(ExecResult::Failed(e)) => {
                errs.insert(0, e);
                proof {
                    assert(sp_errs_view(errs@) =~= seq![errs@[0]@] + sp_errs_view(
                        errs@.drop_first(),
                    ));
                    assert(errs@.drop_first() =~= errs@.subrange(1, errs@.len() as int));
                }
                (errs, retv)
            },
            Err(ExecResult::Break) => {
                errs.insert(0, InterpreterError::LoopUnwind);
                proof {
                    assert(sp_errs_view(errs@) =~= seq![errs@[0]@] + sp_errs_view(
                        errs@.drop_first(),
                    ));
                    assert(errs@.drop_first() =~= errs@.subrange(1, errs@.len() as int));
                }
                (errs, retv)
            },
            Err(ExecResult::Returned(_)) => (errs, retv),
        }
    }

    /// Resolves and interprets a statement list. Resolution failure
    /// reports the single resolution error and touches nothing; else
    /// the top-level statements run under `sp_run` with the full fuel,
    /// and the call returns the collected faults, or the program's
    /// final value.
    pub fn interpret(&mut self, stmts: &Vec<Stmt>, var_count: usize) -> (r: Result<
        Value,
        Vec<InterpreterError>,
    >)
        requires
            old(self).wf(),
            stmts_refs_bound(stmts@, var_count as nat),
        ensures
            final(self).wf(),
            match sp_resolve(stmts@, var_count as nat) {
                Err(se) => final(self)@ == old(self)@ && (r matches Err(es) && es@.len() == 1
                    && es@[0]@ == SpecErr::Resolution(se)),
                Ok(table) => ({
                    let st0 = SpecState { locals: table, ..old(self)@ };
                    let (st1, errs, retv) = sp_run(st0, stmts@, 0, u64::MAX);
                    &&& final(self)@ == st1
                    &&& if errs.len() > 0 {
                        r matches Err(es) && sp_errs_view(es@) == errs
                    } else {
                        r matches Ok(v) && v@ == (match retv {
                            Some(sv) => sv,
                            None => SpecValue::Nil,
                        })
                    }
                }),
            },
    {
        match resolve(stmts, var_count) {
            Err(e) => {
                let mut es: Vec<InterpreterError> = Vec::new();
                es.push(InterpreterError::Resolution(e));
                Err(es)
            },
            Ok(table) => {
                self.locals = table;
                proof {
                    assert(self@ =~~= (SpecState {
                        locals: sp_resolve(stmts@, var_count as nat)->Ok_0,
                        ..old(self)@
                    }));
                }
                let (errs, retv) = self.run(stmts, 0, u64::MAX);
                if errs.len() > 0 {
                    Err(errs)
                } else {
                    match retv {
                        Some(v) => Ok(v),
                        None => Ok(Value::Nil),
                    }
                }
            },
        }
    }
}

/// The state invariant is kept by pushing a fresh scope.
proof fn lemma_wf_push(st: SpecState, parent: usize)
    requires
        sp_state_wf(st),
        parent < st.envs.len(),
    ensures
        sp_state_wf(
            SpecState {
                envs: st.envs.push(SpecScope { parent: Some(parent), names: Map::empty() }),
                cur: st.envs.len() as usize,
                ..st
            },
        ),
{
    let envs2 = st.envs.push(SpecScope { parent: Some(parent), names: Map::empty() });
    assert forall|i: int, k: Seq<u8>|
        0 <= i < envs2.len() && (#[trigger] envs2[i].names.contains_key(k)) implies sp_value_wf(
        envs2[i].names[k],
    ) by {
        if i < st.envs.len() {
            assert(st.envs[i].names.contains_key(k));
        }
    }
}

/// Applies a strict binary operator, as `sp_binary` states.
fn apply_binary(op: crate::ast::BinaryOp, a: &Value, b: &Value) -> (r: Result<
    Value,
    InterpreterError,
>)
    requires
        sp_value_wf(a@),
        sp_value_wf(b@),
    ensures
        match (r, sp_binary(op, a@, b@)) {
            (Ok(v), Ok(sv)) => v@ == sv && sp_value_wf(sv),
            (Err(e), Err(se)) => e@ == se,
            _ => false,
        },
{
    match op {
        crate::ast::BinaryOp::Add => match (a, b) {
            (Value::Num(x), Value::Num(y)) => match crate::num::num_add(*x, *y) {
                Some(n) => Ok(Value::Num(n)),
                None => Err(InterpreterError::NumericOverflow),
            },
            (Value::String(x), Value::String(y)) => {
                let mut s = clone_bytes(x);
                let mut t = clone_bytes(y);
                s.append(&mut t);
                Ok(Value::String(s))
            },
            (Value::Num(_), v) => Err(
                InterpreterError::TypeError { expected: type_vec1(Type::Num), found: v.ty() },
            ),
            (Value::String(_), v) => Err(
                InterpreterError::TypeError {
                    expected: type_vec1(Type::String),
                    found: v.ty(),
                },
            ),
            (v, _) => Err(
                InterpreterError::TypeError {
                    expected: type_vec2(Type::Num, Type::String),
                    found: v.ty(),
                },
            ),
        },
        crate::ast::BinaryOp::Sub => match (a, b) {
            (Value::Num(x), Value::Num(y)) => match crate::num::num_sub(*x, *y) {
                Some(n) => Ok(Value::Num(n)),
                None => Err(InterpreterError::NumericOverflow),
            },
            (v, Value::Num(_)) => Err(
                InterpreterError::TypeError { expected: type_vec1(Type::Num), found: v.ty() },
            ),
            (_, v) => Err(
                InterpreterError::TypeError { expected: type_vec1(Type::Num), found: v.ty() },
            ),
        },
        crate::ast::BinaryOp::Mul => match (a, b) {
            (Value::Num(x), Value::Num(y)) => match crate::num::num_mul(*x, *y) {
                Some(n) => Ok(Value::Num(n)),
                None => Err(InterpreterError::NumericOverflow),
            },
            (v, Value::Num(_)) => Err(
                InterpreterError::TypeError { expected: type_vec1(Type::Num), found: v.ty() },
            ),
            (_, v) => Err(
                InterpreterError::TypeError { expected: type_vec1(Type::Num), found: v.ty() },
            ),
        },
        crate::ast::BinaryOp::Div => match (a, b) {
            (Value::Num(x), Value::Num(y)) => match crate::num::num_div(*x, *y) {
                Some(n) => Ok(Value::Num(n)),
                None => Err(InterpreterError::NumericOverflow),
            },
            (v, Value::Num(_)) => Err(
                InterpreterError::TypeError { expected: type_vec1(Type::Num), found: v.ty() },
            ),
            (_, v) => Err(
                InterpreterError::TypeError { expected: type_vec1(Type::Num), found: v.ty() },
            ),
        },
        crate::ast::BinaryOp::Lt => apply_compare(a, b, crate::ast::BinaryOp::Lt),
        crate::ast::BinaryOp::Lte => apply_compare(a, b, crate::ast::BinaryOp::Lte),
        crate::ast::BinaryOp::Gt => apply_compare(a, b, crate::ast::BinaryOp::Gt),
        crate::ast::BinaryOp::Gte => apply_compare(a, b, crate::ast::BinaryOp::Gte),
        crate::ast::BinaryOp::Eq => Ok(Value::Bool(value_eq(a, b))),
        crate::ast::BinaryOp::NotEq => Ok(Value::Bool(!value_eq(a, b))),
        crate::ast::BinaryOp::LogicOr => Ok(clone_value(a)),
        crate::ast::BinaryOp::LogicAnd => Ok(clone_value(a)),
    }
}

fn apply_compare(a: &Value, b: &Value, op: crate::ast::BinaryOp) -> (r: Result<
    Value,
    InterpreterError,
>)
    requires
        sp_value_wf(a@),
        sp_value_wf(b@),
        op is Lt || op is Lte || op is Gt || op is Gte,
    ensures
        match (r, crate::semantics::sp_compare(a@, b@, op)) {
            (Ok(v), Ok(sv)) => v@ == sv && sp_value_wf(sv),
            (Err(e), Err(se)) => e@ == se,
            _ => false,
        },
{
    match (a, b) {
        (Value::Num(x), Value::Num(y)) => {
            let r = match op {
                crate::ast::BinaryOp::Lt => crate::num::num_lt(*x, *y),
                crate::ast::BinaryOp::Lte => crate::num::num_le(*x, *y),
                crate::ast::BinaryOp::Gt => crate::num::num_lt(*y, *x),
                _ => crate::num::num_le(*y, *x),
            };
            Ok(Value::Bool(r))
        },
        (v, Value::Num(_)) => Err(
            InterpreterError::TypeError { expected: type_vec1(Type::Num), found: v.ty() },
        ),
        (_, v) => Err(
            InterpreterError::TypeError { expected: type_vec1(Type::Num), found: v.ty() },
        ),
    }
}

/// Applies a unary operator, as `sp_unary` states.
fn apply_unary(op: crate::ast::UnaryOp, v: &Value) -> (r: Result<Value, InterpreterError>)
    requires
        sp_value_wf(v@),
    ensures
        match (r, sp_unary(op, v@)) {
            (Ok(w), Ok(sw)) => w@ == sw && sp_value_wf(sw),
            (Err(e), Err(se)) => e@ == se,
            _ => false,
        },
{
    match op {
        crate::ast::UnaryOp::Not => Ok(Value::Bool(!is_truthy(v))),
        crate::ast::UnaryOp::Negation => match v {
            Value::Num(n) => match crate::num::num_neg(*n) {
                Some(m) => Ok(Value::Num(m)),
                None => Err(InterpreterError::NumericOverflow),
            },
            _ => Err(
                InterpreterError::TypeError { expected: type_vec1(Type::Num), found: v.ty() },
            ),
        },
    }
}

fn type_vec1(t: Type) -> (r: Vec<Type>)
    ensures
        r@ == seq![t],
{
    let mut r: Vec<Type> = Vec::new();
    r.push(t);
    proof {
        assert(r@ =~= seq![t]);
    }
    r
}

fn type_vec2(t: Type, u: Type) -> (r: Vec<Type>)
    ensures
        r@ == seq![t, u],
{
    let mut r: Vec<Type> = Vec::new();
    r.push(t);
    r.push(u);
    proof {
        assert(r@ =~= seq![t, u]);
    }
    r
}

} // verus!
