//! The language's dynamic semantics, as one big-step specification.
//!
//! The functions here define, over mathematical state, what evaluating an
//! expression and executing a statement mean; the interpreter is proved
//! to follow them exactly. Evaluation carries a fuel that only function
//! calls and loop iterations consume, so the definition is total: a
//! computation that would run longer ends in the fuel error.
//!
//! `break` and `return` travel on the same propagation channel as
//! errors but are distinct outcomes: the nearest enclosing loop catches
//! a break (even across a call boundary), the nearest call catches a
//! return, and the top level turns a stray break into the loop-unwind
//! error and a stray return into the program's final value.

use vstd::prelude::*;

use crate::ast::{
    expr_size, exprs_size, stmt_size, stmts_size, BinaryOp, Expr, Function, Literal, Stmt,
    UnaryOp,
};
use crate::callable::{Callable, Clock, Function as FunctionValue};
use crate::env::{sp_ancestor, sp_env_get, sp_find_scope, SpecScope};
use crate::num::{
    sp_add, sp_div, sp_mul, sp_neg, sp_num_le, sp_num_lt, sp_parse_num, sp_sub, Num,
};
use crate::resolver::SpecResolverError;
use crate::value::{
    sp_render_value, sp_truthy, sp_ty, sp_value_eq, SpecValue, Type,
};

verus! {

/// A runtime fault, as the contracts state it.
pub enum SpecErr {
    TypeError { expected: Seq<Type>, found: Type },
    AssignNonexistent(Seq<u8>),
    LoopUnwind,
    NotCallable,
    ArityMismatch { expected: u8, got: usize },
    NumericOverflow,
    OutOfFuel,
    Resolution(SpecResolverError),
}

/// A non-normal completion travelling up the execution: a fault, a
/// `break`, or a `return` carrying its value.
pub enum SpecCtl {
    Failed(SpecErr),
    Break,
    Returned(SpecValue),
}

/// A registered function: parameter names, body, and the scope captured
/// at its declaration.
pub struct SpecFun {
    pub params: Seq<Vec<u8>>,
    pub body: Seq<Stmt>,
    pub env: usize,
}

/// The interpreter's whole state.
#[verifier::ext_equal]
pub struct SpecState {
    pub envs: Seq<SpecScope>,
    pub cur: usize,
    pub funs: Seq<SpecFun>,
    pub out: Seq<u8>,
    pub ticks: Seq<Num>,
    pub locals: Seq<Option<usize>>,
}

/// The value of a literal; a malformed or oversized numeric literal is
/// the overflow fault.
pub open spec fn sp_literal(st: SpecState, l: Literal) -> Result<SpecValue, SpecErr> {
    match l {
        Literal::StringLit(sl) => Ok(SpecValue::Str(sl.0@)),
        Literal::NumLit(nl) => match sp_parse_num(nl.0@) {
            Some(n) => Ok(SpecValue::Num(n)),
            None => Err(SpecErr::NumericOverflow),
        },
        Literal::Identifier(r) => Ok(
            if r.id < st.locals.len() && st.locals[r.id as int] is Some {
                sp_env_get(
                    st.envs,
                    sp_ancestor(st.envs, st.cur as int, st.locals[r.id as int]->0 as nat),
                    r.ident@,
                )
            } else {
                sp_env_get(st.envs, 0, r.ident@)
            },
        ),
        Literal::Nil => Ok(SpecValue::Nil),
        Literal::Bool(b) => Ok(SpecValue::Bool(b)),
    }
}

/// The scope an assignment starts its search from: the scope at the
/// reference's resolved distance, or the global root when the
/// reference is unresolved. Reads and writes of one reference thereby
/// target the same binding.
pub open spec fn sp_assign_scope(st: SpecState, id: usize, name: Seq<u8>) -> int {
    if id < st.locals.len() && st.locals[id as int] is Some {
        sp_ancestor(st.envs, st.cur as int, st.locals[id as int]->0 as nat)
    } else {
        0
    }
}

/// Application of a strict binary operator to two values.
/// `+` is overloaded on numbers and strings; `- * /` and the orderings
/// require numbers; `==`/`!=` use structural value equality and never
/// fault. The faulting operand's actual type is reported, left first.
pub open spec fn sp_binary(op: BinaryOp, a: SpecValue, b: SpecValue) -> Result<
    SpecValue,
    SpecErr,
> {
    match op {
        BinaryOp::Add => match (a, b) {
            (SpecValue::Num(x), SpecValue::Num(y)) => match sp_add(x, y) {
                Some(n) => Ok(SpecValue::Num(n)),
                None => Err(SpecErr::NumericOverflow),
            },
            (SpecValue::Str(x), SpecValue::Str(y)) => Ok(SpecValue::Str(x + y)),
            (SpecValue::Num(_), v) => Err(
                SpecErr::TypeError { expected: seq![Type::Num], found: sp_ty(v) },
            ),
            (SpecValue::Str(_), v) => Err(
                SpecErr::TypeError { expected: seq![Type::String], found: sp_ty(v) },
            ),
            (v, _) => Err(
                SpecErr::TypeError {
                    expected: seq![Type::Num, Type::String],
                    found: sp_ty(v),
                },
            ),
        },
        BinaryOp::Sub => sp_arith(a, b, BinaryOp::Sub),
        BinaryOp::Mul => sp_arith(a, b, BinaryOp::Mul),
        BinaryOp::Div => sp_arith(a, b, BinaryOp::Div),
        BinaryOp::Lt => sp_compare(a, b, BinaryOp::Lt),
        BinaryOp::Lte => sp_compare(a, b, BinaryOp::Lte),
        BinaryOp::Gt => sp_compare(a, b, BinaryOp::Gt),
        BinaryOp::Gte => sp_compare(a, b, BinaryOp::Gte),
        BinaryOp::Eq => Ok(SpecValue::Bool(sp_value_eq(a, b))),
        BinaryOp::NotEq => Ok(SpecValue::Bool(!sp_value_eq(a, b))),
        // Logical operators short-circuit and are handled at evaluation.
        BinaryOp::LogicOr => Ok(a),
        BinaryOp::LogicAnd => Ok(a),
    }
}

pub open spec fn sp_arith(a: SpecValue, b: SpecValue, op: BinaryOp) -> Result<
    SpecValue,
    SpecErr,
> {
    match (a, b) {
        (SpecValue::Num(x), SpecValue::Num(y)) => {
            let r = match op {
                BinaryOp::Sub => sp_sub(x, y),
                BinaryOp::Mul => sp_mul(x, y),
                _ => sp_div(x, y),
            };
            match r {
                Some(n) => Ok(SpecValue::Num(n)),
                None => Err(SpecErr::NumericOverflow),
            }
        },
        (v, SpecValue::Num(_)) => Err(
            SpecErr::TypeError { expected: seq![Type::Num], found: sp_ty(v) },
        ),
        (_, v) => Err(SpecErr::TypeError { expected: seq![Type::Num], found: sp_ty(v) }),
    }
}

pub open spec fn sp_compare(a: SpecValue, b: SpecValue, op: BinaryOp) -> Result<
    SpecValue,
    SpecErr,
> {
    match (a, b) {
        (SpecValue::Num(x), SpecValue::Num(y)) => Ok(
            SpecValue::Bool(
                match op {
                    BinaryOp::Lt => sp_num_lt(x, y),
                    BinaryOp::Lte => sp_num_le(x, y),
                    BinaryOp::Gt => sp_num_lt(y, x),
                    _ => sp_num_le(y, x),
                },
            ),
        ),
        (v, SpecValue::Num(_)) => Err(
            SpecErr::TypeError { expected: seq![Type::Num], found: sp_ty(v) },
        ),
        (_, v) => Err(SpecErr::TypeError { expected: seq![Type::Num], found: sp_ty(v) }),
    }
}

pub open spec fn sp_unary(op: UnaryOp, v: SpecValue) -> Result<SpecValue, SpecErr> {
    match op {
        UnaryOp::Not => Ok(SpecValue::Bool(!sp_truthy(v))),
        UnaryOp::Negation => match v {
            SpecValue::Num(n) => match sp_neg(n) {
                Some(m) => Ok(SpecValue::Num(m)),
                None => Err(SpecErr::NumericOverflow),
            },
            _ => Err(SpecErr::TypeError { expected: seq![Type::Num], found: sp_ty(v) }),
        },
    }
}

/// Defines `name` in scope `h` of the state's environments.
pub open spec fn sp_st_define(st: SpecState, h: usize, name: Seq<u8>, v: SpecValue) -> SpecState {
    SpecState {
        envs: st.envs.update(
            h as int,
            SpecScope {
                parent: st.envs[h as int].parent,
                names: st.envs[h as int].names.insert(name, v),
            },
        ),
        ..st
    }
}

/// Binds parameters to arguments positionally in scope `h`; an
/// argument-count mismatch binds up to the shorter list.
pub open spec fn sp_bind_params(
    st: SpecState,
    h: usize,
    params: Seq<Vec<u8>>,
    args: Seq<SpecValue>,
    i: int,
) -> SpecState
    decreases params.len() - i,
{
    if i < 0 || i >= params.len() || i >= args.len() {
        st
    } else {
        sp_bind_params(sp_st_define(st, h, params[i]@, args[i]), h, params, args, i + 1)
    }
}

/// The clock built-in: reports the next injected reading, or zero
/// seconds when the queue is empty.
pub open spec fn sp_clock(st: SpecState) -> (SpecState, SpecValue) {
    if st.ticks.len() > 0 {
        (
            SpecState { ticks: st.ticks.drop_first(), ..st },
            SpecValue::Num(st.ticks[0]),
        )
    } else {
        (st, SpecValue::Num(Num { n: 0, d: 1 }))
    }
}

/// Evaluates an expression: the new state, and a value or a signal.
pub open spec fn sp_eval_expr(st: SpecState, e: Expr, fuel: u64) -> (SpecState, Result<
    SpecValue,
    SpecCtl,
>)
    decreases fuel, expr_size(e), 1nat,
{
    match e {
        Expr::Assign(a) => {
            let (st1, r) = sp_eval_expr(st, *a.value, fuel);
            match r {
                Ok(v) => match sp_find_scope(
                    st1.envs,
                    sp_assign_scope(st1, a.name.id, a.name.ident@),
                    a.name.ident@,
                ) {
                    Some(j) => (
                        SpecState {
                            envs: st1.envs.update(
                                j,
                                SpecScope {
                                    parent: st1.envs[j].parent,
                                    names: st1.envs[j].names.insert(a.name.ident@, v),
                                },
                            ),
                            ..st1
                        },
                        Ok(v),
                    ),
                    None => (
                        st1,
                        Err(SpecCtl::Failed(SpecErr::AssignNonexistent(a.name.ident@))),
                    ),
                },
                Err(c) => (st1, Err(c)),
            }
        },
        Expr::Literal(l) => match sp_literal(st, l) {
            Ok(v) => (st, Ok(v)),
            Err(err) => (st, Err(SpecCtl::Failed(err))),
        },
        Expr::Binary(b) => {
            if b.op is LogicOr || b.op is LogicAnd {
                let (st1, r) = sp_eval_expr(st, *b.left, fuel);
                match r {
                    Ok(v) => if (b.op is LogicOr && sp_truthy(v)) || (b.op is LogicAnd
                        && !sp_truthy(v)) {
                        (st1, Ok(v))
                    } else {
                        sp_eval_expr(st1, *b.right, fuel)
                    },
                    Err(c) => (st1, Err(c)),
                }
            } else {
                let (st1, r) = sp_eval_expr(st, *b.left, fuel);
                match r {
                    Ok(v1) => {
                        let (st2, r2) = sp_eval_expr(st1, *b.right, fuel);
                        match r2 {
                            Ok(v2) => match sp_binary(b.op, v1, v2) {
                                Ok(v) => (st2, Ok(v)),
                                Err(err) => (st2, Err(SpecCtl::Failed(err))),
                            },
                            Err(c) => (st2, Err(c)),
                        }
                    },
                    Err(c) => (st1, Err(c)),
                }
            }
        },
        Expr::Unary(u) => {
            let (st1, r) = sp_eval_expr(st, *u.right, fuel);
            match r {
                Ok(v) => match sp_unary(u.op, v) {
                    Ok(w) => (st1, Ok(w)),
                    Err(err) => (st1, Err(SpecCtl::Failed(err))),
                },
                Err(c) => (st1, Err(c)),
            }
        },
        Expr::Grouping(g) => sp_eval_expr(st, *g.expr, fuel),
        Expr::Call(c) => {
            let (st1, r) = sp_eval_expr(st, *c.callee, fuel);
            match r {
                Ok(callee) => {
                    let (st2, r2) = sp_eval_args(st1, c.args@, fuel);
                    match r2 {
                        Ok(args) => sp_apply(st2, callee, args, fuel),
                        Err(ctl) => (st2, Err(ctl)),
                    }
                },
                Err(ctl) => (st1, Err(ctl)),
            }
        },
    }
}

/// Evaluates argument expressions left to right.
pub open spec fn sp_eval_args(st: SpecState, es: Seq<Expr>, fuel: u64) -> (
    SpecState,
    Result<Seq<SpecValue>, SpecCtl>,
)
    decreases fuel, exprs_size(es), 0nat,
{
    if es.len() == 0 {
        (st, Ok(Seq::empty()))
    } else {
        let (st1, r) = sp_eval_expr(st, es[0], fuel);
        match r {
            Ok(v) => {
                let (st2, r2) = sp_eval_args(st1, es.drop_first(), fuel);
                match r2 {
                    Ok(vs) => (st2, Ok(seq![v] + vs)),
                    Err(ctl) => (st2, Err(ctl)),
                }
            },
            Err(ctl) => (st1, Err(ctl)),
        }
    }
}

/// Applies a called value: a non-callable or a wrong argument count is
/// a fault; the clock consumes an injected reading; a user function
/// runs its body in a fresh child of its captured scope, with the
/// caller's scope restored afterwards on every exit path. A call
/// consumes one fuel; the reported arity is the parameter count
/// truncated to eight bits.
pub open spec fn sp_apply(st: SpecState, callee: SpecValue, args: Seq<SpecValue>, fuel: u64) -> (
    SpecState,
    Result<SpecValue, SpecCtl>,
)
    decreases fuel, 0nat, 0nat,
{
    match callee {
        SpecValue::Callable(Callable::Clock(_)) => if args.len() != 0 {
            (
                st,
                Err(
                    SpecCtl::Failed(
                        SpecErr::ArityMismatch { expected: 0, got: args.len() as usize },
                    ),
                ),
            )
        } else {
            let (st1, v) = sp_clock(st);
            (st1, Ok(v))
        },
        SpecValue::Callable(Callable::Function(f)) => if f.index >= st.funs.len() {
            (st, Err(SpecCtl::Failed(SpecErr::NotCallable)))
        } else {
            let fd = st.funs[f.index as int];
            if args.len() != fd.params.len() {
                (
                    st,
                    Err(
                        SpecCtl::Failed(
                            SpecErr::ArityMismatch {
                                expected: (fd.params.len() % 256) as u8,
                                got: args.len() as usize,
                            },
                        ),
                    ),
                )
            } else if fuel == 0 {
                (st, Err(SpecCtl::Failed(SpecErr::OutOfFuel)))
            } else {
                let h = st.envs.len() as usize;
                let sta = SpecState {
                    envs: st.envs.push(SpecScope { parent: Some(fd.env), names: Map::empty() }),
                    cur: h,
                    ..st
                };
                let stb = sp_bind_params(sta, h, fd.params, args, 0);
                let (stc, r3) = sp_exec_stmts(stb, fd.body, (fuel - 1) as u64);
                let st_back = SpecState { cur: st.cur, ..stc };
                match r3 {
                    Ok(()) => (st_back, Ok(SpecValue::Nil)),
                    Err(SpecCtl::Returned(v)) => (st_back, Ok(v)),
                    Err(ctl) => (st_back, Err(ctl)),
                }
            }
        },
        _ => (st, Err(SpecCtl::Failed(SpecErr::NotCallable))),
    }
}

/// Executes one statement.
pub open spec fn sp_exec_stmt(st: SpecState, s: Stmt, fuel: u64) -> (SpecState, Result<
    (),
    SpecCtl,
>)
    decreases fuel, stmt_size(s), 1nat,
{
    match s {
        Stmt::Expr(e) => {
            let (st1, r) = sp_eval_expr(st, e, fuel);
            match r {
                Ok(_) => (st1, Ok(())),
                Err(ctl) => (st1, Err(ctl)),
            }
        },
        Stmt::Print(e) => {
            let (st1, r) = sp_eval_expr(st, e, fuel);
            match r {
                Ok(v) => (
                    SpecState { out: st1.out + sp_render_value(v) + seq![10u8], ..st1 },
                    Ok(()),
                ),
                Err(ctl) => (st1, Err(ctl)),
            }
        },
        Stmt::Var { name, initializer } => match initializer {
            Some(e) => {
                let (st1, r) = sp_eval_expr(st, e, fuel);
                match r {
                    Ok(v) => (sp_st_define(st1, st1.cur, name@, v), Ok(())),
                    Err(ctl) => (st1, Err(ctl)),
                }
            },
            None => (sp_st_define(st, st.cur, name@, SpecValue::Nil), Ok(())),
        },
        Stmt::Block(ss) => {
            let h = st.envs.len() as usize;
            let st1 = SpecState {
                envs: st.envs.push(SpecScope { parent: Some(st.cur), names: Map::empty() }),
                cur: h,
                ..st
            };
            let (st2, r) = sp_exec_stmts(st1, ss@, fuel);
            // The enclosing scope is restored on every exit path.
            (SpecState { cur: st.cur, ..st2 }, r)
        },
        Stmt::If { condition, then_branch, else_branch } => {
            let (st1, r) = sp_eval_expr(st, condition, fuel);
            match r {
                Ok(v) => if sp_truthy(v) {
                    sp_exec_stmt(st1, *then_branch, fuel)
                } else {
                    match else_branch {
                        Some(e) => sp_exec_stmt(st1, *e, fuel),
                        None => (st1, Ok(())),
                    }
                },
                Err(ctl) => (st1, Err(ctl)),
            }
        },
        Stmt::While { .. } => sp_exec_while(st, s, fuel),
        Stmt::Break => (st, Err(SpecCtl::Break)),
        Stmt::Return(e) => match e {
            Some(e) => {
                let (st1, r) = sp_eval_expr(st, e, fuel);
                match r {
                    Ok(v) => (st1, Err(SpecCtl::Returned(v))),
                    Err(ctl) => (st1, Err(ctl)),
                }
            },
            None => (st, Err(SpecCtl::Returned(SpecValue::Nil))),
        },
        Stmt::Function(f) => (sp_declare_fun(st, f), Ok(())),
    }
}

/// A function declaration registers the function with the current scope
/// captured, and binds the callable under its name in the current scope.
pub open spec fn sp_declare_fun(st: SpecState, f: Function) -> SpecState {
    let idx = st.funs.len() as usize;
    let st1 = SpecState {
        funs: st.funs.push(SpecFun { params: f.params@, body: f.body@, env: st.cur }),
        ..st
    };
    sp_st_define(
        st1,
        st1.cur,
        f.name@,
        SpecValue::Callable(Callable::Function(FunctionValue { index: idx })),
    )
}

/// Runs a `while` statement: the nearest loop catches a break; one more
/// iteration consumes one fuel.
pub open spec fn sp_exec_while(st: SpecState, s: Stmt, fuel: u64) -> (SpecState, Result<
    (),
    SpecCtl,
>)
    decreases fuel, stmt_size(s), 0nat,
{
    match s {
        Stmt::While { condition, body } => {
            let (st1, r) = sp_eval_expr(st, condition, fuel);
            match r {
                Ok(v) => if !sp_truthy(v) {
                    (st1, Ok(()))
                } else {
                    let (st2, r2) = sp_exec_stmt(st1, *body, fuel);
                    match r2 {
                        Ok(()) => if fuel == 0 {
                            (st2, Err(SpecCtl::Failed(SpecErr::OutOfFuel)))
                        } else {
                            sp_exec_while(st2, s, (fuel - 1) as u64)
                        },
                        Err(SpecCtl::Break) => (st2, Ok(())),
                        Err(ctl) => (st2, Err(ctl)),
                    }
                },
                Err(ctl) => (st1, Err(ctl)),
            }
        },
        _ => (st, Ok(())),
    }
}

/// Executes a statement list in order, stopping at a signal.
pub open spec fn sp_exec_stmts(st: SpecState, ss: Seq<Stmt>, fuel: u64) -> (
    SpecState,
    Result<(), SpecCtl>,
)
    decreases fuel, stmts_size(ss), 0nat,
{
    if ss.len() == 0 {
        (st, Ok(()))
    } else {
        let (st1, r) = sp_exec_stmt(st, ss[0], fuel);
        match r {
            Ok(()) => sp_exec_stmts(st1, ss.drop_first(), fuel),
            Err(ctl) => (st1, Err(ctl)),
        }
    }
}

/// Runs the top-level statements `ss[i..]` independently: a fault is
/// recorded and execution continues with the next statement; a stray
/// break is recorded as the loop-unwind error; a `return` ends the run
/// at once, its value becoming the program's final value.
pub open spec fn sp_run(st: SpecState, ss: Seq<Stmt>, i: int, fuel: u64) -> (
    SpecState,
    Seq<SpecErr>,
    Option<SpecValue>,
)
    decreases ss.len() - i,
{
    if i < 0 || i >= ss.len() {
        (st, Seq::empty(), None)
    } else {
        let (st1, r) = sp_exec_stmt(st, ss[i], fuel);
        match r {
            Err(SpecCtl::Returned(v)) => (st1, Seq::empty(), Some(v)),
            Ok(()) => sp_run(st1, ss, i + 1, fuel),
            Err(SpecCtl::Failed(e)) => {
                let (st2, errs, retv) = sp_run(st1, ss, i + 1, fuel);
                (st2, seq![e] + errs, retv)
            },
            Err(SpecCtl::Break) => {
                let (st2, errs, retv) = sp_run(st1, ss, i + 1, fuel);
                (st2, seq![SpecErr::LoopUnwind] + errs, retv)
            },
        }
    }
}


/// A function declaration captures the scope current at its
/// declaration site — not any later one — and registers exactly one
/// function.
pub proof fn lemma_function_captures_declaring_scope(st: SpecState, f: Function)
    ensures
        sp_declare_fun(st, f).funs.len() == st.funs.len() + 1,
        sp_declare_fun(st, f).funs.last().env == st.cur,
        sp_declare_fun(st, f).funs.last().body == f.body@,
{
}

/// A call of a user function runs its body in a fresh child of the
/// scope the function captured, so closures observe their defining
/// environment, not the caller's.
pub proof fn lemma_call_runs_in_captured_scope(
    st: SpecState,
    f: crate::callable::Function,
    args: Seq<SpecValue>,
    fuel: u64,
)
    requires
        f.index < st.funs.len(),
        args.len() == st.funs[f.index as int].params.len(),
        fuel > 0,
    ensures
        ({
            let callee = SpecValue::Callable(Callable::Function(f));
            let sta = SpecState {
                envs: st.envs.push(
                    SpecScope {
                        parent: Some(st.funs[f.index as int].env),
                        names: Map::empty(),
                    },
                ),
                cur: st.envs.len() as usize,
                ..st
            };
            sp_apply(st, callee, args, fuel) == ({
                let stb = sp_bind_params(
                    sta,
                    st.envs.len() as usize,
                    st.funs[f.index as int].params,
                    args,
                    0,
                );
                let (stc, r3) = sp_exec_stmts(stb, st.funs[f.index as int].body, (fuel - 1) as u64);
                let st_back = SpecState { cur: st.cur, ..stc };
                match r3 {
                    Ok(()) => (st_back, Ok::<SpecValue, SpecCtl>(SpecValue::Nil)),
                    Err(SpecCtl::Returned(v)) => (st_back, Ok(v)),
                    Err(ctl) => (st_back, Err(ctl)),
                }
            })
        }),
{
}

/// Calling a value that is not callable never faults the run: it is
/// exactly the `NotCallable` error, with the state untouched.
pub proof fn lemma_call_not_callable(
    st: SpecState,
    callee: SpecValue,
    args: Seq<SpecValue>,
    fuel: u64,
)
    requires
        !(callee is Callable),
    ensures
        sp_apply(st, callee, args, fuel) == (
            st,
            Err::<SpecValue, SpecCtl>(SpecCtl::Failed(SpecErr::NotCallable)),
        ),
{
}

/// Calling a user function with the wrong argument count is exactly
/// the arity-mismatch error, with the state untouched.
pub proof fn lemma_call_arity_mismatch(
    st: SpecState,
    f: crate::callable::Function,
    args: Seq<SpecValue>,
    fuel: u64,
)
    requires
        f.index < st.funs.len(),
        args.len() != st.funs[f.index as int].params.len(),
    ensures
        sp_apply(st, SpecValue::Callable(Callable::Function(f)), args, fuel) == (
            st,
            Err::<SpecValue, SpecCtl>(
                SpecCtl::Failed(
                    SpecErr::ArityMismatch {
                        expected: (st.funs[f.index as int].params.len() % 256) as u8,
                        got: args.len() as usize,
                    },
                ),
            ),
        ),
{
}

/// A block leaves the current scope where it found it, on every exit
/// path: normal completion, break, return, and fault alike.
pub proof fn lemma_block_restores_scope(st: SpecState, s: Stmt, fuel: u64)
    requires
        s is Block,
    ensures
        sp_exec_stmt(st, s, fuel).0.cur == st.cur,
{
}

/// At the top level a `return` ends the run with its value and a fault
/// does not stop the statements after it: the faults of every failing
/// top-level statement are all collected, in order.
pub proof fn lemma_run_continues_after_fault(st: SpecState, ss: Seq<Stmt>, i: int, fuel: u64)
    requires
        0 <= i < ss.len(),
        sp_exec_stmt(st, ss[i], fuel).1 matches Err(SpecCtl::Failed(_)),
    ensures
        ({
            let (st1, r) = sp_exec_stmt(st, ss[i], fuel);
            let (st2, errs, retv) = sp_run(st1, ss, i + 1, fuel);
            sp_run(st, ss, i, fuel) == (st2, seq![r->Err_0->Failed_0] + errs, retv)
        }),
{
}


/// `+` is overloaded and faults exactly on mixed operands: two numbers
/// add (or overflow), two strings concatenate, and any other pairing is
/// a type error naming the offending side's actual type.
pub proof fn lemma_add_overloading(a: SpecValue, b: SpecValue)
    ensures
        (a matches SpecValue::Str(x) && b matches SpecValue::Str(y)) ==> sp_binary(
            BinaryOp::Add,
            a,
            b,
        ) == Ok::<SpecValue, SpecErr>(SpecValue::Str(a->Str_0 + b->Str_0)),
        a is Num && !(b is Num) ==> sp_binary(BinaryOp::Add, a, b) == Err::<SpecValue, SpecErr>(
            SpecErr::TypeError { expected: seq![Type::Num], found: sp_ty(b) },
        ),
        a is Str && !(b is Str) ==> sp_binary(BinaryOp::Add, a, b) == Err::<SpecValue, SpecErr>(
            SpecErr::TypeError { expected: seq![Type::String], found: sp_ty(b) },
        ),
        !(a is Num) && !(a is Str) ==> sp_binary(BinaryOp::Add, a, b) == Err::<
            SpecValue,
            SpecErr,
        >(SpecErr::TypeError { expected: seq![Type::Num, Type::String], found: sp_ty(a) }),
{
}

} // verus!
