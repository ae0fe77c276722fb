//! The execution engine for a small dynamically-typed scripting
//! language: source text in, side effects and a final value out.
//!
//! The pipeline is lexer, parser, static resolver, and tree-walking
//! evaluator, over an arena of lexical scopes and a closed runtime
//! value union. Each stage's behaviour is stated by spec functions in
//! its module — the lexer against `sp_lex`, the resolver against
//! `sp_resolve`, the evaluator against the big-step semantics in
//! [`semantics`] — and the executable code is proved to follow them.
//! [`eval`] is the single synchronous entry point a host shell calls;
//! errors come back classified as syntax, resolution, or runtime, one
//! category per run. Two fault kinds extend the runtime set: numeric
//! overflow (forced by the exact-rational number model) and fuel
//! exhaustion (forced by the evaluator's totality; unreachable at the
//! budget used).

pub mod assoc;
pub mod ast;
pub mod callable;
pub mod env;
pub mod errors;
pub mod interpreter;
pub mod lexer;
pub mod num;
pub mod parser;
pub mod resolver;
pub mod semantics;
pub mod token;
pub mod value;

use vstd::prelude::*;

use crate::ast::{stmts_view, Stmt};
use crate::errors::ErrorReporter;
use crate::interpreter::{sp_errs_view, Interpreter, InterpreterError};
use crate::lexer::sp_lex;
use crate::parser::{perrs_view, sp_p_program, Parser, ParserError};
use crate::resolver::{sp_resolve, ResolverError};
use crate::semantics::{sp_run, SpecState};
use crate::value::{SpecValue, Value};

verus! {

/// The failure of one evaluation, in exactly one category.
#[derive(Debug)]
pub enum EvalErrors {
    Syntax(Vec<ParserError>),
    Resolution(ResolverError),
    Interpreter(Vec<InterpreterError>),
}

impl EvalErrors {
    pub fn unwrap_syn(self) -> (r: Vec<ParserError>)
        requires
            self is Syntax,
        ensures
            self matches EvalErrors::Syntax(v) && r == v,
    {
        match self {
            EvalErrors::Syntax(v) => v,
            _ => Vec::new(),
        }
    }

    pub fn unwrap_resolution(self) -> (r: ResolverError)
        requires
            self is Resolution,
        ensures
            self matches EvalErrors::Resolution(v) && r == v,
    {
        match self {
            EvalErrors::Resolution(v) => v,
            _ => ResolverError::SelfInitialize,
        }
    }

    pub fn unwrap_runtime(self) -> (r: Vec<InterpreterError>)
        requires
            self is Interpreter,
        ensures
            self matches EvalErrors::Interpreter(v) && r == v,
    {
        match self {
            EvalErrors::Interpreter(v) => v,
            _ => Vec::new(),
        }
    }
}

/// Parses and interprets one source. Syntax errors go to the reporter
/// and come back as `Syntax`; a resolution error comes back as
/// `Resolution`; the runtime faults of the top-level statements come
/// back as `Interpreter`; otherwise the program's final value is
/// returned. The parser and interpreter persist across calls, so a
/// session keeps its globals and registered functions.
#[verifier::spinoff_prover]
#[verifier::rlimit(100)]
pub fn eval<R: ErrorReporter>(
    source: &Vec<u8>,
    error_reporter: &mut R,
    parser: &mut Parser,
    interpreter: &mut Interpreter,
) -> (r: Result<Value, EvalErrors>)
    requires
        old(interpreter).wf(),
    ensures
        final(interpreter).wf(),
        final(parser).depth() == old(parser).depth(),
        ({
            let (pp, nn, sv, ev) = sp_p_program(
                sp_lex(source@, 0),
                0,
                old(parser).next_id() as int,
                old(parser).depth() as int,
            );
            &&& final(parser).next_id() as int == nn
            &&& if ev.len() >= 1 {
                r matches Err(EvalErrors::Syntax(es)) && perrs_view(es@) == ev
                    && final(interpreter)@ == old(interpreter)@
            } else {
                exists |stmts: Vec<Stmt>|
                    #![auto]
                    stmts_view(stmts@) == sv && match sp_resolve(stmts@, nn as nat) {
                        Err(re) => r matches Err(EvalErrors::Resolution(e2)) && e2@ == re
                            && final(interpreter)@ == old(interpreter)@,
                        Ok(table) => ({
                            let st0 = SpecState { locals: table, ..old(interpreter)@ };
                            let (st1, errs, retv) = sp_run(st0, stmts@, 0, u64::MAX);
                            &&& final(interpreter)@ == st1
                            &&& if errs.len() > 0 {
                                // A run fault list never actually starts with the
                                // resolution variant; the faults are preserved
                                // either way.
                                match r {
                                    Err(EvalErrors::Interpreter(ies)) => sp_errs_view(ies@)
                                        == errs,
                                    Err(EvalErrors::Resolution(e2)) => errs[0]
                                        == crate::semantics::SpecErr::Resolution(e2@),
                                    _ => false,
                                }
                            } else {
                                r matches Ok(v) && v@ == (match retv {
                                    Some(x) => x,
                                    None => SpecValue::Nil,
                                })
                            }
                        }),
                    }
            }
        }),
{
    match parser.parse(source) {
        Ok(stmts) => {
            let n = parser.var_count();
            let res = run_parsed(interpreter, &stmts, n);
            proof {
                assert(stmts_view(stmts@) == sp_p_program(
                    sp_lex(source@, 0),
                    0,
                    old(parser).next_id() as int,
                    old(parser).depth() as int,
                ).2);
            }
            res
        },
        Err(errs) => {
            let mut i: usize = 0;
            while i < errs.len()
                invariant
                    i <= errs@.len(),
                decreases errs@.len() - i,
            {
                error_reporter.report(source, &errs[i]);
                i = i + 1;
            }
            Err(EvalErrors::Syntax(errs))
        },
    }
}

/// Resolves and runs an already-parsed program, classifying the
/// failure, exactly as `sp_resolve` and `sp_run` state.
#[verifier::spinoff_prover]
#[verifier::rlimit(90)]
fn run_parsed(interpreter: &mut Interpreter, stmts: &Vec<Stmt>, n: usize) -> (r: Result<
    Value,
    EvalErrors,
>)
    requires
        old(interpreter).wf(),
        crate::ast::stmts_refs_bound(stmts@, n as nat),
    ensures
        final(interpreter).wf(),
        match sp_resolve(stmts@, n as nat) {
            Err(re) => r matches Err(EvalErrors::Resolution(e2)) && e2@ == re
                && final(interpreter)@ == old(interpreter)@,
            Ok(table) => ({
                let st0 = SpecState { locals: table, ..old(interpreter)@ };
                let (st1, errs, retv) = sp_run(st0, stmts@, 0, u64::MAX);
                &&& final(interpreter)@ == st1
                &&& if errs.len() > 0 {
                    // A run fault list never actually starts with the
                    // resolution variant; the faults are preserved
                    // either way.
                    match r {
                        Err(EvalErrors::Interpreter(ies)) => sp_errs_view(ies@) == errs,
                        Err(EvalErrors::Resolution(e2)) => errs[0]
                            == crate::semantics::SpecErr::Resolution(e2@),
                        _ => false,
                    }
                } else {
                    r matches Ok(v) && v@ == (match retv {
                        Some(x) => x,
                        None => SpecValue::Nil,
                    })
                }
            }),
        },
{
    match interpreter.interpret(stmts, n) {
        Ok(v) => Ok(v),
        Err(errs) => {
            if errs_category(&errs) {
                Err(EvalErrors::Interpreter(errs))
            } else {
                Err(take_resolution(errs))
            }
        },
    }
}

/// Whether a fault list is ordinary runtime faults (`true`) rather than
/// led by the resolution error (`false`).
fn errs_category(errs: &Vec<InterpreterError>) -> (r: bool)
    ensures
        r == !(errs@.len() >= 1 && errs@[0] is Resolution),
{
    if errs.len() >= 1 {
        match &errs[0] {
            InterpreterError::Resolution(_) => false,
            _ => true,
        }
    } else {
        true
    }
}

/// Extracts the resolution error carried first in a fault list.
fn take_resolution(errs: Vec<InterpreterError>) -> (r: EvalErrors)
    requires
        errs@.len() >= 1,
        errs@[0] is Resolution,
    ensures
        r matches EvalErrors::Resolution(e) && errs@[0] == InterpreterError::Resolution(e),
{
    let mut errs = errs;
    match errs.remove(0) {
        InterpreterError::Resolution(e) => EvalErrors::Resolution(e),
        _ => EvalErrors::Interpreter(errs),
    }
}

} // verus!
