//! The parser.
//!
//! Recursive descent over statements and precedence climbing over
//! expressions. Every identifier occurrence parsed as a value mints a
//! fresh dense [`Reference`] id, so the contracts guarantee that all
//! reference ids of a parse lie below the parser's final id counter —
//! which is what the resolver's table indexing relies on. A successful
//! parse also guarantees that `break` appears only lexically inside a
//! loop (a loop-depth counter rejects it elsewhere), and that the token
//! cursor only moves forward. On an error inside a top-level
//! declaration the parser synchronizes to a likely statement boundary
//! and goes on, so one call reports every independent syntax error.
//!
//! `for` is pure sugar, desugared here into blocks around a `while`.

use vstd::prelude::*;

use std::rc::Rc;

use crate::ast::{
    expr_refs_bound, lemma_expr_refs_bound_widen, lemma_stmt_refs_bound_widen,
    lemma_stmts_break_ok_push, lemma_stmts_refs_bound_push, lemma_stmts_refs_bound_widen,
    stmt_break_ok, stmt_refs_bound,
    stmts_break_ok, stmts_refs_bound, Assign, Binary, BinaryOp, Call, Expr, Function, Grouping,
    Literal, NumLit, Reference, Stmt, StringLit, Unary, UnaryOp,
};
use crate::ast::{expr_view, exprs_view, names_view, stmt_view, stmts_view, ExprV, StmtV};
use crate::errors::Error;
use crate::lexer::{sp_lex, Lexer};
use crate::token::{tok_eq, SpannedToken, SpannedTokenV, Token, TokenV};

verus! {

/// The kinds of syntax error.
#[derive(Clone, Copy, Debug, PartialEq, Eq, Structural)]
pub enum ParserErrorKind {
    UnexpectedToken,
    UnexpectedEof,
    InvalidLvalue,
    BreakOutsideLoop,
    TooManyArgs,
}

pub type ParserError = Error<ParserErrorKind>;

pub type ParseResult<T> = Result<T, ParserError>;


/// A syntax error, as the contracts state it: the offending token's
/// view, if any, and the kind.
pub struct SpecPErr {
    pub token: Option<SpannedTokenV>,
    pub kind: ParserErrorKind,
}

/// The view of a reported syntax error.
pub open spec fn perr_view(e: ParserError) -> SpecPErr {
    SpecPErr {
        token: match e.token {
            Some(t) => Some(t@),
            None => None,
        },
        kind: e.error_kind,
    }
}

pub open spec fn perrs_view(es: Seq<ParserError>) -> Seq<SpecPErr> {
    Seq::new(es.len(), |i: int| perr_view(es[i]))
}

pub open spec fn sp_eof_err() -> SpecPErr {
    SpecPErr { token: None, kind: ParserErrorKind::UnexpectedEof }
}

pub open spec fn sp_tok_err(toks: Seq<SpannedTokenV>, pos: int, kind: ParserErrorKind) -> SpecPErr {
    if 0 <= pos < toks.len() {
        SpecPErr { token: Some(toks[pos]), kind }
    } else {
        SpecPErr { token: None, kind }
    }
}

/// Consuming the next token when it is exactly `t`: the new position
/// and the consumed token, or the error, as `Parser::expect` behaves.
pub open spec fn sp_expect(toks: Seq<SpannedTokenV>, pos: int, t: TokenV) -> (int, Result<
    SpannedTokenV,
    SpecPErr,
>) {
    if pos < 0 || pos >= toks.len() {
        (pos, Err(sp_eof_err()))
    } else if toks[pos].token == t {
        (pos + 1, Ok(toks[pos]))
    } else {
        (pos, Err(SpecPErr { token: Some(toks[pos]), kind: ParserErrorKind::UnexpectedToken }))
    }
}

/// Minting one reference id: the next counter and the id handed out;
/// at the unreachable top of the counter the last id is reused.
pub open spec fn sp_mint(next: int) -> (int, usize) {
    if next < usize::MAX {
        (next + 1, next as usize)
    } else {
        (next, (usize::MAX - 1) as usize)
    }
}

/// A sub-parse's reported position, clamped into `[pos, len]`; the
/// clamp never fires (positions only move forward, and never past the
/// end) and only keeps the definitions below well-founded.
pub open spec fn sp_clamp_pos(pos: int, p: int, len: int) -> int {
    if p < pos {
        pos
    } else if p > len {
        len
    } else {
        p
    }
}

/// Panic-mode recovery from just after the token at `pos - 1`:
/// discards tokens until just after a semicolon or just before a
/// statement-starting keyword.
#[verifier::opaque]
pub open spec fn sp_sync_from(toks: Seq<SpannedTokenV>, pos: int, prev: TokenV) -> int
    decreases toks.len() - pos,
{
    if pos < 0 || pos >= toks.len() {
        pos
    } else if prev is Semicolon {
        pos
    } else if toks[pos].token is Class || toks[pos].token is Fun || toks[pos].token is Var
        || toks[pos].token is For || toks[pos].token is If || toks[pos].token is While
        || toks[pos].token is Print || toks[pos].token is Return {
        pos
    } else {
        sp_sync_from(toks, pos + 1, toks[pos].token)
    }
}

/// Recovery as `Parser::synchronize` behaves: consume one token, then
/// discard to a likely statement boundary.
#[verifier::opaque]
pub open spec fn sp_sync(toks: Seq<SpannedTokenV>, pos: int) -> int {
    if pos < 0 || pos >= toks.len() {
        pos
    } else {
        sp_sync_from(toks, pos + 1, toks[pos].token)
    }
}

/// One identifier token, as `Parser::parse_ident` behaves.
#[verifier::opaque]
pub open spec fn sp_p_ident(toks: Seq<SpannedTokenV>, pos: int) -> (int, Result<
    Seq<u8>,
    SpecPErr,
>) {
    if pos < 0 || pos >= toks.len() {
        (pos, Err(sp_eof_err()))
    } else {
        match toks[pos].token {
            TokenV::Identifier(name) => (pos + 1, Ok(name)),
            _ => (pos, Err(sp_tok_err(toks, pos, ParserErrorKind::UnexpectedToken))),
        }
    }
}

/// One atom: a literal, an identifier reference (minting an id), or a
/// parenthesised expression.
#[verifier::opaque]
pub open spec fn sp_p_atom(toks: Seq<SpannedTokenV>, pos: int, next: int) -> (int, int, Result<
    ExprV,
    SpecPErr,
>)
    decreases toks.len() - sp_clamp_pos(0, pos, toks.len() as int), 1nat,
{
    let pos = sp_clamp_pos(0, pos, toks.len() as int);
    if pos < 0 || pos >= toks.len() {
        (pos, next, Err(sp_eof_err()))
    } else {
        match toks[pos].token {
            TokenV::NumLit(l) => (pos + 1, next, Ok(ExprV::NumLitV(l))),
            TokenV::StringLit(l) => (pos + 1, next, Ok(ExprV::StringLitV(l))),
            TokenV::Identifier(l) => {
                let (n2, id) = sp_mint(next);
                (pos + 1, n2, Ok(ExprV::IdentifierV { id, name: l }))
            },
            TokenV::Nil => (pos + 1, next, Ok(ExprV::NilV)),
            TokenV::True => (pos + 1, next, Ok(ExprV::BoolV(true))),
            TokenV::False => (pos + 1, next, Ok(ExprV::BoolV(false))),
            TokenV::LeftParen => sp_p_paren(toks, pos + 1, next),
            _ => (pos + 1, next, Err(SpecPErr {
                token: Some(toks[pos]),
                kind: ParserErrorKind::UnexpectedToken,
            })),
        }
    }
}

#[verifier::opaque]
pub open spec fn sp_p_paren(toks: Seq<SpannedTokenV>, pos: int, next: int) -> (int, int, Result<
    ExprV,
    SpecPErr,
>)
    decreases toks.len() - sp_clamp_pos(0, pos, toks.len() as int), 7nat,
{
    let pos = sp_clamp_pos(0, pos, toks.len() as int);
    let (p1, n1, r1) = sp_p_expr(toks, pos, next);
    match r1 {
        Ok(inner) => {
            let (p2, r2) = sp_expect(toks, sp_clamp_pos(pos, p1, toks.len() as int), TokenV::RightParen);
            match r2 {
                Ok(_) => (p2, n1, Ok(ExprV::Grouping(Box::new(inner)))),
                Err(e) => (p2, n1, Err(e)),
            }
        },
        Err(e) => (sp_clamp_pos(pos, p1, toks.len() as int), n1, Err(e)),
    }
}

/// The arguments of one call site, after its `(`: each bounded to 255.
pub open spec fn sp_p_args(
    toks: Seq<SpannedTokenV>,
    pos: int,
    next: int,
    count: int,
) -> (int, int, Result<Seq<ExprV>, SpecPErr>)
    decreases toks.len() - sp_clamp_pos(0, pos, toks.len() as int), 10nat,
{
    let pos = sp_clamp_pos(0, pos, toks.len() as int);
    if count >= 255 {
        (pos, next, Err(sp_tok_err(toks, pos, ParserErrorKind::TooManyArgs)))
    } else {
        let (p1, n1, r1) = sp_p_expr(toks, pos, next);
        match r1 {
            Ok(a) => {
                let p1c = sp_clamp_pos(pos, p1, toks.len() as int);
                let (p2, r2) = sp_expect(toks, p1c, TokenV::Comma);
                match r2 {
                    Ok(_) => if p2 > pos {
                        let c2 = count + 1;
                        let (p3, n3, r3) = sp_p_args(toks, p2, n1, c2);
                        match r3 {
                            Ok(rest) => (p3, n3, Ok(seq![a] + rest)),
                            Err(e) => (p3, n3, Err(e)),
                        }
                    } else {
                        // Unreachable: a sub-parse only moves forward.
                        (p2, n1, Ok(seq![a]))
                    },
                    Err(_) => (p1c, n1, Ok(seq![a])),
                }
            },
            Err(e) => (sp_clamp_pos(pos, p1, toks.len() as int), n1, Err(e)),
        }
    }
}

/// One call site after its `(`, as `Parser::finish_call` behaves.
#[verifier::opaque]
pub open spec fn sp_p_finish(
    toks: Seq<SpannedTokenV>,
    pos: int,
    next: int,
    callee: ExprV,
) -> (int, int, Result<ExprV, SpecPErr>)
    decreases toks.len() - sp_clamp_pos(0, pos, toks.len() as int), 11nat,
{
    let pos = sp_clamp_pos(0, pos, toks.len() as int);
    if pos < 0 || pos >= toks.len() {
        (pos, next, Err(sp_eof_err()))
    } else {
        let empty = toks[pos].token is RightParen;
        let (p1, n1, argsr) = if empty {
            (pos, next, Ok(Seq::<ExprV>::empty()))
        } else {
            sp_p_args(toks, pos, next, 0)
        };
        match argsr {
            Ok(args) => {
                let (p2, r2) = sp_expect(toks, sp_clamp_pos(pos, p1, toks.len() as int), TokenV::RightParen);
                match r2 {
                    Ok(paren) => (p2, n1, Ok(ExprV::Call {
                        callee: Box::new(callee),
                        paren: paren.span,
                        args,
                    })),
                    Err(e) => (p2, n1, Err(e)),
                }
            },
            Err(e) => (sp_clamp_pos(pos, p1, toks.len() as int), n1, Err(e)),
        }
    }
}

/// Chained postfix call sites onto an already-parsed callee.
#[verifier::opaque]
pub open spec fn sp_p_call_more(
    toks: Seq<SpannedTokenV>,
    pos: int,
    next: int,
    callee: ExprV,
) -> (int, int, Result<ExprV, SpecPErr>)
    decreases toks.len() - sp_clamp_pos(0, pos, toks.len() as int), 1nat,
{
    let pos = sp_clamp_pos(0, pos, toks.len() as int);
    if 0 <= pos < toks.len() && toks[pos].token is LeftParen {
        let (p1, n1, r1) = sp_p_finish(toks, pos + 1, next, callee);
        let p1b = sp_clamp_pos(pos, p1, toks.len() as int);
        match r1 {
            Ok(e) => if p1b > pos {
                sp_p_call_more(toks, p1b, n1, e)
            } else {
                // Unreachable: a call site consumes at least `()`.
                (p1, n1, Ok(e))
            },
            Err(e) => (p1, n1, Err(e)),
        }
    } else {
        (pos, next, Ok(callee))
    }
}

#[verifier::opaque]
pub open spec fn sp_p_call(toks: Seq<SpannedTokenV>, pos: int, next: int) -> (int, int, Result<
    ExprV,
    SpecPErr,
>)
    decreases toks.len() - sp_clamp_pos(0, pos, toks.len() as int), 2nat,
{
    let pos = sp_clamp_pos(0, pos, toks.len() as int);
    let (p1, n1, r1) = sp_p_atom(toks, pos, next);
    match r1 {
        Ok(e) => sp_p_call_more(toks, sp_clamp_pos(pos, p1, toks.len() as int), n1, e),
        Err(e) => (sp_clamp_pos(pos, p1, toks.len() as int), n1, Err(e)),
    }
}

/// A run of prefix operators applied right-to-left onto one call
/// expression.
#[verifier::opaque]
pub open spec fn sp_p_unary(toks: Seq<SpannedTokenV>, pos: int, next: int) -> (int, int, Result<
    ExprV,
    SpecPErr,
>)
    decreases toks.len() - sp_clamp_pos(0, pos, toks.len() as int), 3nat,
{
    let pos = sp_clamp_pos(0, pos, toks.len() as int);
    if 0 <= pos < toks.len() && (toks[pos].token is Minus || toks[pos].token is Bang) {
        let op = if toks[pos].token is Minus {
            UnaryOp::Negation
        } else {
            UnaryOp::Not
        };
        let (p1, n1, r1) = sp_p_unary(toks, pos + 1, next);
        match r1 {
            Ok(e) => (p1, n1, Ok(ExprV::Unary { op, right: Box::new(e) })),
            Err(e) => (p1, n1, Err(e)),
        }
    } else {
        sp_p_call(toks, pos, next)
    }
}

/// The binary operator the token at `pos` denotes, if any.
pub open spec fn sp_binop_of(toks: Seq<SpannedTokenV>, pos: int) -> Option<BinaryOp> {
    if pos < 0 || pos >= toks.len() {
        None
    } else {
        match toks[pos].token {
            TokenV::Plus => Some(BinaryOp::Add),
            TokenV::Minus => Some(BinaryOp::Sub),
            TokenV::Star => Some(BinaryOp::Mul),
            TokenV::Slash => Some(BinaryOp::Div),
            TokenV::Greater => Some(BinaryOp::Gt),
            TokenV::GreaterEqual => Some(BinaryOp::Gte),
            TokenV::Less => Some(BinaryOp::Lt),
            TokenV::LessEqual => Some(BinaryOp::Lte),
            TokenV::EqualEqual => Some(BinaryOp::Eq),
            TokenV::BangEqual => Some(BinaryOp::NotEq),
            TokenV::Or => Some(BinaryOp::LogicOr),
            TokenV::And => Some(BinaryOp::LogicAnd),
            _ => None,
        }
    }
}

/// The binding strength of a binary operator; all levels are
/// left-associative.
pub open spec fn sp_prec_of(op: BinaryOp) -> u32 {
    match op {
        BinaryOp::LogicOr => 0,
        BinaryOp::LogicAnd => 1,
        BinaryOp::Eq => 2,
        BinaryOp::NotEq => 2,
        BinaryOp::Gt => 3,
        BinaryOp::Lt => 3,
        BinaryOp::Gte => 3,
        BinaryOp::Lte => 3,
        BinaryOp::Add => 4,
        BinaryOp::Sub => 4,
        BinaryOp::Mul => 5,
        BinaryOp::Div => 5,
    }
}

/// Folds further operators of at least `min_prec` onto `left`.
pub open spec fn sp_p_binop_more(
    toks: Seq<SpannedTokenV>,
    pos: int,
    next: int,
    left: ExprV,
    min_prec: u32,
) -> (int, int, Result<ExprV, SpecPErr>)
    decreases toks.len() - sp_clamp_pos(0, pos, toks.len() as int), 3nat,
{
    let pos = sp_clamp_pos(0, pos, toks.len() as int);
    match sp_binop_of(toks, pos) {
        Some(op) => if sp_prec_of(op) < min_prec {
            (pos, next, Ok(left))
        } else {
            let mp2 = (sp_prec_of(op) + 1) as u32;
                    let pp = pos + 1;
                    let (p1, n1, r1) = sp_p_binop(toks, pp, next, mp2);
            let p1b = sp_clamp_pos(pos, p1, toks.len() as int);
            match r1 {
                Ok(rhs) => {
                    let e = ExprV::Binary {
                        left: Box::new(left),
                        op,
                        right: Box::new(rhs),
                    };
                    if p1b > pos {
                        sp_p_binop_more(toks, p1b, n1, e, min_prec)
                    } else {
                        // Unreachable: a sub-parse only moves forward.
                        (p1, n1, Ok(e))
                    }
                },
                Err(e) => (p1, n1, Err(e)),
            }
        },
        None => (pos, next, Ok(left)),
    }
}

/// Precedence climbing from `min_prec`, as `Parser::parse_binop`
/// behaves.
#[verifier::opaque]
pub open spec fn sp_p_binop(
    toks: Seq<SpannedTokenV>,
    pos: int,
    next: int,
    min_prec: u32,
) -> (int, int, Result<ExprV, SpecPErr>)
    decreases toks.len() - sp_clamp_pos(0, pos, toks.len() as int), 4nat,
{
    let pos = sp_clamp_pos(0, pos, toks.len() as int);
    let (p1, n1, r1) = sp_p_unary(toks, pos, next);
    match r1 {
        Ok(e) => sp_p_binop_more(toks, sp_clamp_pos(pos, p1, toks.len() as int), n1, e, min_prec),
        Err(e) => (sp_clamp_pos(pos, p1, toks.len() as int), n1, Err(e)),
    }
}

/// Right-associative assignment onto a bare identifier reference, as
/// `Parser::parse_assignment` behaves; any other left-hand shape is
/// the invalid-lvalue error anchored at the `=` token.
#[verifier::opaque]
pub open spec fn sp_p_assign(toks: Seq<SpannedTokenV>, pos: int, next: int) -> (int, int, Result<
    ExprV,
    SpecPErr,
>)
    decreases toks.len() - sp_clamp_pos(0, pos, toks.len() as int), 5nat,
{
    let pos = sp_clamp_pos(0, pos, toks.len() as int);
    let (p1, n1, r1) = sp_p_binop(toks, pos, next, 0);
    let p1c = sp_clamp_pos(pos, p1, toks.len() as int);
    match r1 {
        Ok(e) => {
            let (p2, r2) = sp_expect(toks, p1c, TokenV::Equal);
            match r2 {
                Ok(equals) => if p2 > pos {
                    let (p3, n3, r3) = sp_p_assign(toks, p2, n1);
                    match r3 {
                        Ok(value) => match e {
                            ExprV::IdentifierV { id, name } => (p3, n3, Ok(ExprV::Assign {
                                id,
                                name,
                                value: Box::new(value),
                            })),
                            _ => (p3, n3, Err(SpecPErr {
                                token: Some(equals),
                                kind: ParserErrorKind::InvalidLvalue,
                            })),
                        },
                        Err(err) => (p3, n3, Err(err)),
                    }
                } else {
                    // Unreachable: the `=` was consumed.
                    (p2, n1, Ok(e))
                },
                Err(_) => (p1c, n1, Ok(e)),
            }
        },
        Err(err) => (p1c, n1, Err(err)),
    }
}

#[verifier::opaque]
pub open spec fn sp_p_expr(toks: Seq<SpannedTokenV>, pos: int, next: int) -> (int, int, Result<
    ExprV,
    SpecPErr,
>)
    decreases toks.len() - sp_clamp_pos(0, pos, toks.len() as int), 6nat,
{
    let pos = sp_clamp_pos(0, pos, toks.len() as int);
    sp_p_assign(toks, pos, next)
}


/// One consumed token, as `Lexer::next` behaves: the position moves
/// only when a token remains.
pub open spec fn sp_advance(toks: Seq<SpannedTokenV>, pos: int) -> int {
    if 0 <= pos < toks.len() {
        pos + 1
    } else {
        pos
    }
}

/// One more lexical loop level, saturating as the parser's counter
/// does.
pub open spec fn sp_deeper(depth: int) -> int {
    if depth < u32::MAX {
        depth + 1
    } else {
        depth
    }
}

/// A declaration: a function, a variable, or a statement.
#[verifier::opaque]
pub open spec fn sp_p_decl(toks: Seq<SpannedTokenV>, pos: int, next: int, depth: int) -> (
    int,
    int,
    Result<StmtV, SpecPErr>,
)
    decreases toks.len() - sp_clamp_pos(0, pos, toks.len() as int), 9nat,
{
    let pos = sp_clamp_pos(0, pos, toks.len() as int);
    if pos < toks.len() && toks[pos].token is Fun {
        sp_p_fun_decl(toks, pos, next, depth)
    } else if pos < toks.len() && toks[pos].token is Var {
        sp_p_var_decl(toks, pos, next, depth)
    } else {
        sp_p_stmt(toks, pos, next, depth)
    }
}

#[verifier::opaque]
pub open spec fn sp_p_fun_decl(toks: Seq<SpannedTokenV>, pos: int, next: int, depth: int) -> (
    int,
    int,
    Result<StmtV, SpecPErr>,
)
    decreases toks.len() - sp_clamp_pos(0, pos, toks.len() as int), 8nat,
{
    let pos = sp_clamp_pos(0, pos, toks.len() as int);
    if pos >= toks.len() {
        (pos, next, Err(sp_eof_err()))
    } else {
        let (p1, rname) = sp_p_ident(toks, pos + 1);
        match rname {
            Ok(name) => {
                let (p2, rlp) = sp_expect(toks, sp_clamp_pos(pos, p1, toks.len() as int), TokenV::LeftParen);
                match rlp {
                    Ok(_) => {
                        let no_params = 0 <= p2 < toks.len() && toks[p2].token is RightParen;
                        let (p3, rparams) = if no_params {
                            (p2, Ok(Seq::<Seq<u8>>::empty()))
                        } else {
                            if p2 > pos {
                                sp_p_params(toks, p2, 0)
                            } else {
                                // Unreachable: `fun`, the name and `(` were consumed.
                                (p2, Ok(Seq::<Seq<u8>>::empty()))
                            }
                        };
                        match rparams {
                            Ok(params) => {
                                let (p4, rrp) = sp_expect(
                                    toks,
                                    sp_clamp_pos(pos, p3, toks.len() as int),
                                    TokenV::RightParen,
                                );
                                match rrp {
                                    Ok(_) => if 0 <= p4 < toks.len() && toks[p4].token
                                        is LeftBrace {
                                        let (p5, n5, rbody) = if p4 > pos {
                                            sp_p_block(toks, p4, next, depth)
                                        } else {
                                            // Unreachable, as above.
                                            (p4, next, Err(sp_eof_err()))
                                        };
                                        match rbody {
                                            Ok(body) => (p5, n5, Ok(StmtV::Function {
                                                name,
                                                params,
                                                body,
                                            })),
                                            Err(e) => (p5, n5, Err(e)),
                                        }
                                    } else if p4 >= toks.len() {
                                        (p4, next, Err(sp_eof_err()))
                                    } else {
                                        (p4, next, Err(SpecPErr {
                                            token: Some(toks[p4]),
                                            kind: ParserErrorKind::UnexpectedToken,
                                        }))
                                    },
                                    Err(e) => (p4, next, Err(e)),
                                }
                            },
                            Err(e) => (sp_clamp_pos(pos, p3, toks.len() as int), next, Err(e)),
                        }
                    },
                    Err(e) => (p2, next, Err(e)),
                }
            },
            Err(e) => (p1, next, Err(e)),
        }
    }
}

/// The parameter list of a function declaration, each list bounded to
/// 255 names.
#[verifier::opaque]
pub open spec fn sp_p_params(toks: Seq<SpannedTokenV>, pos: int, count: int) -> (int, Result<
    Seq<Seq<u8>>,
    SpecPErr,
>)
    decreases toks.len() - sp_clamp_pos(0, pos, toks.len() as int), 10nat,
{
    let pos = sp_clamp_pos(0, pos, toks.len() as int);
    if count >= 255 {
        (pos, Err(sp_tok_err(toks, pos, ParserErrorKind::TooManyArgs)))
    } else {
        let (p1, r1) = sp_p_ident(toks, pos);
        match r1 {
            Ok(name) => {
                let p1c = sp_clamp_pos(pos, p1, toks.len() as int);
                let (p2, r2) = sp_expect(toks, p1c, TokenV::Comma);
                match r2 {
                    Ok(_) => if p2 > pos {
                        let (p3, r3) = sp_p_params(toks, p2, count + 1);
                        match r3 {
                            Ok(rest) => (p3, Ok(seq![name] + rest)),
                            Err(e) => (p3, Err(e)),
                        }
                    } else {
                        // Unreachable: the name and comma were consumed.
                        (p2, Ok(seq![name]))
                    },
                    Err(_) => (p1c, Ok(seq![name])),
                }
            },
            Err(e) => (p1, Err(e)),
        }
    }
}

#[verifier::opaque]
pub open spec fn sp_p_var_decl(toks: Seq<SpannedTokenV>, pos: int, next: int, depth: int) -> (
    int,
    int,
    Result<StmtV, SpecPErr>,
)
    decreases toks.len() - sp_clamp_pos(0, pos, toks.len() as int), 8nat,
{
    let pos = sp_clamp_pos(0, pos, toks.len() as int);
    let p0 = sp_advance(toks, pos);
    if p0 >= toks.len() {
        // No token after `var`: the name error is noted, then the
        // closing-semicolon check fails first, at the end of input.
        let p1 = sp_advance(toks, p0);
        (p1, next, Err(sp_eof_err()))
    } else {
        match toks[p0].token {
            TokenV::Identifier(name) => {
                let (p2, req) = sp_expect(toks, p0 + 1, TokenV::Equal);
                let (p3, n3, init) = match req {
                    Ok(_) => {
                        let (pe, ne, re) = if p2 > pos {
                            sp_p_expr(toks, p2, next)
                        } else {
                            // Unreachable: `var`, the name and `=` were consumed.
                            (p2, next, Err(sp_eof_err()))
                        };
                        match re {
                            Ok(e) => (pe, ne, Ok(Some(e))),
                            Err(err) => (pe, ne, Err(err)),
                        }
                    },
                    Err(_) => (p0 + 1, next, Ok(None::<ExprV>)),
                };
                match init {
                    Ok(initializer) => {
                        let (p4, rsemi) = sp_expect(
                            toks,
                            sp_clamp_pos(pos, p3, toks.len() as int),
                            TokenV::Semicolon,
                        );
                        match rsemi {
                            Ok(_) => (p4, n3, Ok(StmtV::Var { name, initializer })),
                            Err(e) => (p4, n3, Err(e)),
                        }
                    },
                    Err(e) => (sp_clamp_pos(pos, p3, toks.len() as int), n3, Err(e)),
                }
            },
            _ => {
                let bad = SpecPErr {
                    token: Some(toks[p0]),
                    kind: ParserErrorKind::UnexpectedToken,
                };
                let (p4, rsemi) = sp_expect(toks, p0 + 1, TokenV::Semicolon);
                match rsemi {
                    Ok(_) => (p4, next, Err(bad)),
                    Err(e) => (p4, next, Err(e)),
                }
            },
        }
    }
}

#[verifier::opaque]
pub open spec fn sp_p_stmt(toks: Seq<SpannedTokenV>, pos: int, next: int, depth: int) -> (
    int,
    int,
    Result<StmtV, SpecPErr>,
)
    decreases toks.len() - sp_clamp_pos(0, pos, toks.len() as int), 8nat,
{
    let pos = sp_clamp_pos(0, pos, toks.len() as int);
    if pos < toks.len() && toks[pos].token is For {
        sp_p_for(toks, pos, next, depth)
    } else if pos < toks.len() && toks[pos].token is If {
        sp_p_if(toks, pos, next, depth)
    } else if pos < toks.len() && toks[pos].token is Print {
        sp_p_print(toks, pos, next)
    } else if pos < toks.len() && toks[pos].token is Return {
        sp_p_return(toks, pos, next)
    } else if pos < toks.len() && toks[pos].token is While {
        sp_p_while(toks, pos, next, depth)
    } else if pos < toks.len() && toks[pos].token is LeftBrace {
        let (p1, n1, r1) = sp_p_block(toks, pos, next, depth);
        match r1 {
            Ok(ss) => (p1, n1, Ok(StmtV::Block(ss))),
            Err(e) => (p1, n1, Err(e)),
        }
    } else if pos < toks.len() && toks[pos].token is Break {
        sp_p_break(toks, pos, next, depth)
    } else {
        sp_p_expr_stmt(toks, pos, next)
    }
}

/// `for`, desugared: `Block[init?, While{cond-or-true, Block[body,
/// inc?]}]`, the body parsed one loop level deeper.
#[verifier::opaque]
pub open spec fn sp_p_for(toks: Seq<SpannedTokenV>, pos: int, next: int, depth: int) -> (
    int,
    int,
    Result<StmtV, SpecPErr>,
)
    decreases toks.len() - sp_clamp_pos(0, pos, toks.len() as int), 7nat,
{
    let pos = sp_clamp_pos(0, pos, toks.len() as int);
    if pos >= toks.len() {
        (pos, next, Err(sp_eof_err()))
    } else {
        let (p1, rlp) = sp_expect(toks, pos + 1, TokenV::LeftParen);
        match rlp {
            Ok(_) => if p1 >= toks.len() {
                (p1, next, Err(sp_eof_err()))
            } else {
                let (p2, n2, rinit) = if toks[p1].token is Semicolon {
                    (p1 + 1, next, Ok(None::<StmtV>))
                } else if toks[p1].token is Var {
                    let (pa, na, ra) = sp_p_var_decl(toks, p1, next, depth);
                    match ra {
                        Ok(s) => (pa, na, Ok(Some(s))),
                        Err(e) => (pa, na, Err(e)),
                    }
                } else {
                    let (pa, na, ra) = sp_p_expr_stmt(toks, p1, next);
                    match ra {
                        Ok(s) => (pa, na, Ok(Some(s))),
                        Err(e) => (pa, na, Err(e)),
                    }
                };
                match rinit {
                    Ok(initializer) => {
                        let p2c = sp_clamp_pos(pos, p2, toks.len() as int);
                        if p2c >= toks.len() {
                            (p2c, n2, Err(sp_eof_err()))
                        } else {
                            let (p3, n3, rcond) = if toks[p2c].token is Semicolon {
                                (p2c, n2, Ok(ExprV::BoolV(true)))
                            } else {
                                sp_p_expr(toks, p2c, n2)
                            };
                            match rcond {
                                Ok(condition) => {
                                    let (p4, rsemi) = sp_expect(
                                        toks,
                                        sp_clamp_pos(pos, p3, toks.len() as int),
                                        TokenV::Semicolon,
                                    );
                                    match rsemi {
                                        Ok(_) => if p4 >= toks.len() {
                                            (p4, n3, Err(sp_eof_err()))
                                        } else {
                                            let (p5, n5, rinc) = if toks[p4].token
                                                is RightParen {
                                                (p4, n3, Ok(None::<ExprV>))
                                            } else {
                                                let (pb, nb, rb) = sp_p_expr(toks, p4, n3);
                                                match rb {
                                                    Ok(e) => (pb, nb, Ok(Some(e))),
                                                    Err(e) => (pb, nb, Err(e)),
                                                }
                                            };
                                            match rinc {
                                                Ok(increment) => {
                                                    let (p6, rrp) = sp_expect(
                                                        toks,
                                                        sp_clamp_pos(pos, p5, toks.len() as int),
                                                        TokenV::RightParen,
                                                    );
                                                    match rrp {
                                                        Ok(_) => if p6 >= toks.len() {
                                                            (p6, n5, Err(sp_eof_err()))
                                                        } else {
                                                            let (p7, n7, rbody) = if p6 > pos {
                                                                sp_p_stmt(
                                                                    toks,
                                                                    p6,
                                                                    n5,
                                                                    sp_deeper(depth),
                                                                )
                                                            } else {
                                                                // Unreachable: `for (` was consumed.
                                                                (p6, n5, Err(sp_eof_err()))
                                                            };
                                                            match rbody {
                                                                Ok(body) => {
                                                                    let body2 = match increment {
                                                                        Some(i) => StmtV::Block(
                                                                            seq![
                                                                                body,
                                                                                StmtV::Expr(i),
                                                                            ],
                                                                        ),
                                                                        None => body,
                                                                    };
                                                                    let w = StmtV::While {
                                                                        condition,
                                                                        body: Box::new(body2),
                                                                    };
                                                                    let out = match initializer {
                                                                        Some(s0) => StmtV::Block(
                                                                            seq![s0, w],
                                                                        ),
                                                                        None => w,
                                                                    };
                                                                    (p7, n7, Ok(out))
                                                                },
                                                                Err(e) => (p7, n7, Err(e)),
                                                            }
                                                        },
                                                        Err(e) => (p6, n5, Err(e)),
                                                    }
                                                },
                                                Err(e) => (
                                                    sp_clamp_pos(pos, p5, toks.len() as int),
                                                    n5,
                                                    Err(e),
                                                ),
                                            }
                                        },
                                        Err(e) => (p4, n3, Err(e)),
                                    }
                                },
                                Err(e) => (sp_clamp_pos(pos, p3, toks.len() as int), n3, Err(e)),
                            }
                        }
                    },
                    Err(e) => (sp_clamp_pos(pos, p2, toks.len() as int), n2, Err(e)),
                }
            },
            Err(e) => (p1, next, Err(e)),
        }
    }
}

#[verifier::opaque]
pub open spec fn sp_p_if(toks: Seq<SpannedTokenV>, pos: int, next: int, depth: int) -> (
    int,
    int,
    Result<StmtV, SpecPErr>,
)
    decreases toks.len() - sp_clamp_pos(0, pos, toks.len() as int), 7nat,
{
    let pos = sp_clamp_pos(0, pos, toks.len() as int);
    if pos >= toks.len() {
        (pos, next, Err(sp_eof_err()))
    } else {
        let (p1, rlp) = sp_expect(toks, pos + 1, TokenV::LeftParen);
        match rlp {
            Ok(_) => {
                let (p2, n2, rcond) = sp_p_expr(toks, p1, next);
                match rcond {
                    Ok(condition) => {
                        let (p3, rrp) = sp_expect(
                            toks,
                            sp_clamp_pos(pos, p2, toks.len() as int),
                            TokenV::RightParen,
                        );
                        match rrp {
                            Ok(_) => if p3 >= toks.len() {
                                (p3, n2, Err(sp_eof_err()))
                            } else {
                                let (p4, n4, rthen) = if p3 > pos {
                                    sp_p_stmt(toks, p3, n2, depth)
                                } else {
                                    // Unreachable: `if (` was consumed.
                                    (p3, n2, Err(sp_eof_err()))
                                };
                                match rthen {
                                    Ok(then_branch) => {
                                        let p4c = sp_clamp_pos(pos, p4, toks.len() as int);
                                        let (p5, relse) = sp_expect(toks, p4c, TokenV::Else);
                                        match relse {
                                            Ok(_) => if p5 >= toks.len() {
                                                (p5, n4, Err(sp_eof_err()))
                                            } else {
                                                let (p6, n6, rels) = if p5 > pos {
                                                    sp_p_stmt(toks, p5, n4, depth)
                                                } else {
                                                    // Unreachable, as above.
                                                    (p5, n4, Err(sp_eof_err()))
                                                };
                                                match rels {
                                                    Ok(e) => (p6, n6, Ok(StmtV::If {
                                                        condition,
                                                        then_branch: Box::new(then_branch),
                                                        else_branch: Some(Box::new(e)),
                                                    })),
                                                    Err(e) => (p6, n6, Err(e)),
                                                }
                                            },
                                            Err(_) => (p4c, n4, Ok(StmtV::If {
                                                condition,
                                                then_branch: Box::new(then_branch),
                                                else_branch: None,
                                            })),
                                        }
                                    },
                                    Err(e) => (p4, n4, Err(e)),
                                }
                            },
                            Err(e) => (p3, n2, Err(e)),
                        }
                    },
                    Err(e) => (sp_clamp_pos(pos, p2, toks.len() as int), n2, Err(e)),
                }
            },
            Err(e) => (p1, next, Err(e)),
        }
    }
}

#[verifier::opaque]
pub open spec fn sp_p_while(toks: Seq<SpannedTokenV>, pos: int, next: int, depth: int) -> (
    int,
    int,
    Result<StmtV, SpecPErr>,
)
    decreases toks.len() - sp_clamp_pos(0, pos, toks.len() as int), 7nat,
{
    let pos = sp_clamp_pos(0, pos, toks.len() as int);
    if pos >= toks.len() {
        (pos, next, Err(sp_eof_err()))
    } else {
        let (p1, rlp) = sp_expect(toks, pos + 1, TokenV::LeftParen);
        match rlp {
            Ok(_) => {
                let (p2, n2, rcond) = sp_p_expr(toks, p1, next);
                match rcond {
                    Ok(condition) => {
                        let (p3, rrp) = sp_expect(
                            toks,
                            sp_clamp_pos(pos, p2, toks.len() as int),
                            TokenV::RightParen,
                        );
                        match rrp {
                            Ok(_) => if p3 >= toks.len() {
                                (p3, n2, Err(sp_eof_err()))
                            } else {
                                let (p4, n4, rbody) = if p3 > pos {
                                    sp_p_stmt(toks, p3, n2, sp_deeper(depth))
                                } else {
                                    // Unreachable: `while (` was consumed.
                                    (p3, n2, Err(sp_eof_err()))
                                };
                                match rbody {
                                    Ok(body) => (p4, n4, Ok(StmtV::While {
                                        condition,
                                        body: Box::new(body),
                                    })),
                                    Err(e) => (p4, n4, Err(e)),
                                }
                            },
                            Err(e) => (p3, n2, Err(e)),
                        }
                    },
                    Err(e) => (sp_clamp_pos(pos, p2, toks.len() as int), n2, Err(e)),
                }
            },
            Err(e) => (p1, next, Err(e)),
        }
    }
}

#[verifier::opaque]
pub open spec fn sp_p_print(toks: Seq<SpannedTokenV>, pos: int, next: int) -> (int, int, Result<
    StmtV,
    SpecPErr,
>)
    decreases toks.len() - sp_clamp_pos(0, pos, toks.len() as int), 7nat,
{
    let pos = sp_clamp_pos(0, pos, toks.len() as int);
    if pos >= toks.len() {
        (pos, next, Err(sp_eof_err()))
    } else {
        let (p1, n1, r1) = sp_p_expr(toks, pos + 1, next);
        match r1 {
            Ok(e) => {
                let (p2, rsemi) = sp_expect(
                    toks,
                    sp_clamp_pos(pos, p1, toks.len() as int),
                    TokenV::Semicolon,
                );
                match rsemi {
                    Ok(_) => (p2, n1, Ok(StmtV::Print(e))),
                    Err(err) => (p2, n1, Err(err)),
                }
            },
            Err(err) => (sp_clamp_pos(pos, p1, toks.len() as int), n1, Err(err)),
        }
    }
}

#[verifier::opaque]
pub open spec fn sp_p_return(toks: Seq<SpannedTokenV>, pos: int, next: int) -> (int, int, Result<
    StmtV,
    SpecPErr,
>)
    decreases toks.len() - sp_clamp_pos(0, pos, toks.len() as int), 7nat,
{
    let pos = sp_clamp_pos(0, pos, toks.len() as int);
    if pos >= toks.len() {
        (pos, next, Err(sp_eof_err()))
    } else {
        let p0 = pos + 1;
        let bare = 0 <= p0 < toks.len() && toks[p0].token is Semicolon;
        let (p1, n1, rval) = if bare {
            (p0, next, Ok(None::<ExprV>))
        } else {
            let (pa, na, ra) = sp_p_expr(toks, p0, next);
            match ra {
                Ok(e) => (pa, na, Ok(Some(e))),
                Err(e) => (pa, na, Err(e)),
            }
        };
        match rval {
            Ok(val) => {
                let (p2, rsemi) = sp_expect(
                    toks,
                    sp_clamp_pos(pos, p1, toks.len() as int),
                    TokenV::Semicolon,
                );
                match rsemi {
                    Ok(_) => (p2, n1, Ok(StmtV::Return(val))),
                    Err(err) => (p2, n1, Err(err)),
                }
            },
            Err(err) => (sp_clamp_pos(pos, p1, toks.len() as int), n1, Err(err)),
        }
    }
}

/// The statements of one block, after its `{`.
#[verifier::opaque]
pub open spec fn sp_p_block_stmts(toks: Seq<SpannedTokenV>, pos: int, next: int, depth: int) -> (
    int,
    int,
    Result<Seq<StmtV>, SpecPErr>,
)
    decreases toks.len() - sp_clamp_pos(0, pos, toks.len() as int), 10nat,
{
    let pos = sp_clamp_pos(0, pos, toks.len() as int);
    if pos >= toks.len() || toks[pos].token is RightBrace {
        (pos, next, Ok(Seq::empty()))
    } else {
        let (p1, n1, r1) = sp_p_decl(toks, pos, next, depth);
        match r1 {
            Ok(s) => {
                let p1b = sp_clamp_pos(pos, p1, toks.len() as int);
                if p1b > pos {
                    let (p2, n2, r2) = sp_p_block_stmts(toks, p1b, n1, depth);
                    match r2 {
                        Ok(rest) => (p2, n2, Ok(seq![s] + rest)),
                        Err(e) => (p2, n2, Err(e)),
                    }
                } else {
                    // Unreachable: a declaration consumes at least one token.
                    (p1, n1, Ok(seq![s]))
                }
            },
            Err(e) => (p1, n1, Err(e)),
        }
    }
}

/// A block: `{`, declarations, `}` (whose absence is the unexpected
/// end of file).
#[verifier::opaque]
pub open spec fn sp_p_block(toks: Seq<SpannedTokenV>, pos: int, next: int, depth: int) -> (
    int,
    int,
    Result<Seq<StmtV>, SpecPErr>,
)
    decreases toks.len() - sp_clamp_pos(0, pos, toks.len() as int), 7nat,
{
    let pos = sp_clamp_pos(0, pos, toks.len() as int);
    if pos >= toks.len() {
        (pos, next, Err(sp_eof_err()))
    } else {
        let (p1, n1, r1) = sp_p_block_stmts(toks, pos + 1, next, depth);
        match r1 {
            Ok(ss) => {
                let p1c = sp_clamp_pos(pos, p1, toks.len() as int);
                if p1c < toks.len() {
                    (p1c + 1, n1, Ok(ss))
                } else {
                    (p1c, n1, Err(sp_eof_err()))
                }
            },
            Err(e) => (p1, n1, Err(e)),
        }
    }
}

#[verifier::opaque]
pub open spec fn sp_p_break(toks: Seq<SpannedTokenV>, pos: int, next: int, depth: int) -> (
    int,
    int,
    Result<StmtV, SpecPErr>,
)
    decreases toks.len() - sp_clamp_pos(0, pos, toks.len() as int), 7nat,
{
    let pos = sp_clamp_pos(0, pos, toks.len() as int);
    if pos >= toks.len() {
        (pos, next, Err(sp_eof_err()))
    } else {
        let (p1, rsemi) = sp_expect(toks, pos + 1, TokenV::Semicolon);
        match rsemi {
            Ok(_) => if depth == 0 {
                (p1, next, Err(SpecPErr {
                    token: Some(toks[pos]),
                    kind: ParserErrorKind::BreakOutsideLoop,
                }))
            } else {
                (p1, next, Ok(StmtV::Break))
            },
            Err(e) => (p1, next, Err(e)),
        }
    }
}

#[verifier::opaque]
pub open spec fn sp_p_expr_stmt(toks: Seq<SpannedTokenV>, pos: int, next: int) -> (int, int, Result<
    StmtV,
    SpecPErr,
>)
    decreases toks.len() - sp_clamp_pos(0, pos, toks.len() as int), 7nat,
{
    let pos = sp_clamp_pos(0, pos, toks.len() as int);
    let (p1, n1, r1) = sp_p_expr(toks, pos, next);
    match r1 {
        Ok(e) => {
            let (p2, rsemi) = sp_expect(
                toks,
                sp_clamp_pos(pos, p1, toks.len() as int),
                TokenV::Semicolon,
            );
            match rsemi {
                Ok(_) => (p2, n1, Ok(StmtV::Expr(e))),
                Err(err) => (p2, n1, Err(err)),
            }
        },
        Err(err) => (sp_clamp_pos(pos, p1, toks.len() as int), n1, Err(err)),
    }
}

/// A whole source's parse: the statements derived from the grammatical
/// prefix and every syntax error found, in source order, recovery
/// resuming after each at a likely statement boundary.
#[verifier::opaque]
pub open spec fn sp_p_program(toks: Seq<SpannedTokenV>, pos: int, next: int, depth: int) -> (
    int,
    int,
    Seq<StmtV>,
    Seq<SpecPErr>,
)
    decreases toks.len() - sp_clamp_pos(0, pos, toks.len() as int), 12nat,
{
    let pos = sp_clamp_pos(0, pos, toks.len() as int);
    if pos >= toks.len() {
        (pos, next, Seq::empty(), Seq::empty())
    } else {
        let (p1, n1, r1) = sp_p_decl(toks, pos, next, depth);
        match r1 {
            Ok(s) => {
                let p1b = sp_clamp_pos(pos, p1, toks.len() as int);
                if p1b > pos {
                    let (p2, n2, ss, es) = sp_p_program(toks, p1b, n1, depth);
                    (p2, n2, seq![s] + ss, es)
                } else {
                    // The cursor did not move: stop rather than loop.
                    (p1, n1, seq![s], Seq::empty())
                }
            },
            Err(e) => {
                let ps = sp_sync(toks, sp_clamp_pos(pos, p1, toks.len() as int));
                let psb = sp_clamp_pos(pos, ps, toks.len() as int);
                if psb > pos {
                    let (p2, n2, ss, es) = sp_p_program(toks, psb, n1, depth);
                    (p2, n2, ss, seq![e] + es)
                } else {
                    // The cursor did not move: stop rather than loop.
                    (psb, n1, Seq::empty(), seq![e])
                }
            },
        }
    }
}


/// The parser: the lexical loop depth, and the next fresh reference id.
pub struct Parser {
    loop_depth: u32,
    next_var_expr_id: usize,
}

impl Parser {
    pub closed spec fn depth(&self) -> u32 {
        self.loop_depth
    }

    pub closed spec fn next_id(&self) -> usize {
        self.next_var_expr_id
    }

    pub fn new() -> (r: Parser)
        ensures
            r.depth() == 0,
            r.next_id() == 0,
    {
        Parser { loop_depth: 0, next_var_expr_id: 0 }
    }

    /// How many reference ids have been minted: the resolver table size.
    pub fn var_count(&self) -> (r: usize)
        ensures
            r == self.next_id(),
    {
        self.next_var_expr_id
    }

    /// Parses a whole source, exactly as `sp_p_program` over
    /// `sp_lex` states: on success the statement views are the
    /// program the grammar derives and the error list is empty; on
    /// failure the error views are every syntax error found, in
    /// source order, one per independent failure. Every reference id
    /// of the result lies below the final id count, and — for a parser
    /// outside any loop, as the fresh one is — `break` appears only
    /// inside loops.
    #[verifier::spinoff_prover]
    pub fn parse(&mut self, src: &Vec<u8>) -> (r: Result<Vec<Stmt>, Vec<ParserError>>)
        ensures
            final(self).depth() == old(self).depth(),
            old(self).next_id() <= final(self).next_id(),
            match r {
                Ok(stmts) => stmts_refs_bound(stmts@, final(self).next_id() as nat)
                    && stmts_break_ok(stmts@, old(self).depth() > 0),
                Err(errs) => errs@.len() >= 1,
            },
            ({
                let (p2, n2, sv, ev) = sp_p_program(
                    sp_lex(src@, 0),
                    0,
                    old(self).next_id() as int,
                    old(self).depth() as int,
                );
                final(self).next_id() as int == n2 && match r {
                    Ok(stmts) => ev.len() == 0 && stmts_view(stmts@) == sv,
                    Err(errs) => ev.len() >= 1 && perrs_view(errs@) == ev,
                }
            }),
    {
        let mut lexer = Lexer::new(src);
        let (stmts, errors) = self.parse_program(&mut lexer);
        if errors.len() == 0 {
            proof {
                assert(perrs_view(errors@) =~= Seq::<SpecPErr>::empty());
            }
            Ok(stmts)
        } else {
            Err(errors)
        }
    }

    /// The top-level declaration loop with panic-mode recovery,
    /// exactly as `sp_p_program` states.
    #[verifier::spinoff_prover]
    #[verifier::rlimit(90)]
    fn parse_program(&mut self, lexer: &mut Lexer) -> (r: (Vec<Stmt>, Vec<ParserError>))
        requires
            old(lexer).wf(),
        ensures
            final(lexer).wf(),
            final(lexer).toks() == old(lexer).toks(),
            old(lexer).pos() <= final(lexer).pos(),
            final(self).depth() == old(self).depth(),
            old(self).next_id() <= final(self).next_id(),
            stmts_refs_bound(r.0@, final(self).next_id() as nat),
            stmts_break_ok(r.0@, old(self).depth() > 0),
            ({
                let (p2, n2, sv, ev) = sp_p_program(
                    old(lexer).toks_v(),
                    old(lexer).pos(),
                    old(self).next_id() as int,
                    old(self).depth() as int,
                );
                final(lexer).pos() == p2 && final(self).next_id() as int == n2 && stmts_view(
                    r.0@,
                ) == sv && perrs_view(r.1@) == ev
            }),
        decreases lexer.toks().len() - lexer.pos(), 12nat,
    {
        proof {
            reveal(sp_p_program);
        }
        let at_end = match lexer.peek() {
            Some(_) => false,
            None => true,
        };
        if at_end {
            proof {
                reveal(sp_p_program);
                assert(stmts_refs_bound(Seq::<Stmt>::empty(), self.next_id() as nat));
                assert(stmts_break_ok(Seq::<Stmt>::empty(), old(self).depth() > 0));
                assert(stmts_view(Seq::<Stmt>::empty()) =~= Seq::<StmtV>::empty());
                assert(perrs_view(Seq::<ParserError>::empty()) =~= Seq::<SpecPErr>::empty());
            }
            return (Vec::new(), Vec::new());
        }
        let start = lexer.position();
        match self.parse_decl(lexer) {
            Ok(d) => {
                let ghost mid_id = self.next_id();
                let (mut ss, es) = self.parse_program(lexer);
                let ghost pre_ss = ss@;
                ss.insert(0, d);
                proof {
                    reveal(sp_p_program);
                    lemma_stmt_refs_bound_widen(d, mid_id as nat, self.next_id() as nat);
                    assert(ss@.subrange(1, ss@.len() as int) =~= pre_ss);
                    assert(ss@.drop_first() =~= ss@.subrange(1, ss@.len() as int));
                    assert(stmts_view(ss@) =~= seq![stmt_view(ss@[0])] + stmts_view(
                        ss@.drop_first(),
                    ));
                    assert(stmts_refs_bound(ss@, self.next_id() as nat));
                    assert(stmts_break_ok(ss@, old(self).depth() > 0));
                }
                (ss, es)
            },
            Err(e) => {
                self.synchronize(lexer);
                if lexer.position() == start {
                    let mut es: Vec<ParserError> = Vec::new();
                    es.push(e);
                    proof {
                        reveal(sp_p_program);
                        assert(stmts_refs_bound(Seq::<Stmt>::empty(), self.next_id() as nat));
                        assert(stmts_break_ok(Seq::<Stmt>::empty(), old(self).depth() > 0));
                        assert(stmts_view(Seq::<Stmt>::empty()) =~= Seq::<StmtV>::empty());
                        assert(es@ =~= seq![e]);
                        assert(perrs_view(es@) =~= seq![perr_view(e)]);
                    }
                    return (Vec::new(), es);
                }
                let (ss, mut es) = self.parse_program(lexer);
                let ghost pre_es = es@;
                es.insert(0, e);
                proof {
                    reveal(sp_p_program);
                    assert(es@.subrange(1, es@.len() as int) =~= pre_es);
                    assert(es@.drop_first() =~= es@.subrange(1, es@.len() as int));
                    assert(perrs_view(es@) =~= seq![perr_view(es@[0])] + perrs_view(
                        es@.drop_first(),
                    ));
                }
                (ss, es)
            },
        }
    }

    /// Recovers from a syntax error, exactly as `sp_sync` states:
    /// discards tokens until just after a semicolon or just before a
    /// statement-starting keyword.
    #[verifier::spinoff_prover]
    fn synchronize(&mut self, lexer: &mut Lexer)
        requires
            old(lexer).wf(),
        ensures
            *final(self) == *old(self),
            final(lexer).wf(),
            final(lexer).toks() == old(lexer).toks(),
            old(lexer).pos() <= final(lexer).pos(),
            final(lexer).pos() == sp_sync(old(lexer).toks_v(), old(lexer).pos()),
    {
        proof {
            reveal(sp_sync);
        }
        match lexer.next() {
            Some(t) => self.sync_loop(lexer, t),
            None => {
                proof {
                    reveal(sp_sync);
                }
            },
        }
    }

    /// The recovery scan after one consumed token, exactly as
    /// `sp_sync_from` states.
    #[verifier::spinoff_prover]
    fn sync_loop(&mut self, lexer: &mut Lexer, previous: SpannedToken)
        requires
            old(lexer).wf(),
        ensures
            *final(self) == *old(self),
            final(lexer).wf(),
            final(lexer).toks() == old(lexer).toks(),
            old(lexer).pos() <= final(lexer).pos(),
            final(lexer).pos() == sp_sync_from(
                old(lexer).toks_v(),
                old(lexer).pos(),
                previous@.token,
            ),
        decreases lexer.toks().len() - lexer.pos(),
    {
        proof {
            reveal(sp_sync_from);
        }
        let done = match lexer.peek() {
            Some(t) => {
                let boundary = match previous.token {
                    Token::Semicolon => true,
                    _ => false,
                };
                if boundary {
                    true
                } else {
                    match t {
                        Token::Class => true,
                        Token::Fun => true,
                        Token::Var => true,
                        Token::For => true,
                        Token::If => true,
                        Token::While => true,
                        Token::Print => true,
                        Token::Return => true,
                        _ => false,
                    }
                }
            },
            None => true,
        };
        if done {
            return ;
        }
        match lexer.next() {
            Some(t) => self.sync_loop(lexer, t),
            None => {
                proof {
                    reveal(sp_sync_from);
                }
            },
        }
    }

    #[verifier::spinoff_prover]
    fn parse_decl(&mut self, lexer: &mut Lexer) -> (r: ParseResult<Stmt>)
        requires
            old(lexer).wf(),
            old(lexer).pos() < old(lexer).toks().len(),
        ensures
            final(lexer).wf(),
            final(lexer).toks() == old(lexer).toks(),
            old(lexer).pos() <= final(lexer).pos(),
            final(self).depth() == old(self).depth(),
            old(self).next_id() <= final(self).next_id(),
            (r matches Ok(s) ==> final(lexer).pos() > old(lexer).pos() && stmt_refs_bound(
                s,
                final(self).next_id() as nat,
            ) && stmt_break_ok(s, old(self).depth() > 0)),
            ({
                let (p2, n2, r2) = sp_p_decl(
                    old(lexer).toks_v(),
                    old(lexer).pos(),
                    old(self).next_id() as int,
                    old(self).depth() as int,
                );
                final(lexer).pos() == p2 && final(self).next_id() as int == n2 && match (
                    r,
                    r2,
                ) {
                    (Ok(st), Ok(sv)) => stmt_view(st) == sv,
                    (Err(e), Err(ev)) => perr_view(e) == ev,
                    _ => false,
                }
            }),
        decreases lexer.toks().len() - lexer.pos(), 9nat,
    {
        proof {
            reveal(sp_p_decl);
        }
        let kind: u8 = match lexer.peek() {
            Some(Token::Fun) => 0,
            Some(Token::Var) => 1,
            _ => 2,
        };
        proof {
            reveal(sp_p_decl);
        }
        if kind == 0 {
            self.parse_fun_decl(lexer)
        } else if kind == 1 {
            self.parse_var_decl(lexer)
        } else {
            self.parse_stmt(lexer)
        }
    }

    #[verifier::rlimit(95)]
    #[verifier::spinoff_prover]
    fn parse_fun_decl(&mut self, lexer: &mut Lexer) -> (r: ParseResult<Stmt>)
        requires
            old(lexer).wf(),
            old(lexer).pos() < old(lexer).toks().len(),
        ensures
            final(lexer).wf(),
            final(lexer).toks() == old(lexer).toks(),
            old(lexer).pos() <= final(lexer).pos(),
            final(self).depth() == old(self).depth(),
            old(self).next_id() <= final(self).next_id(),
            (r matches Ok(s) ==> final(lexer).pos() > old(lexer).pos() && stmt_refs_bound(
                s,
                final(self).next_id() as nat,
            ) && stmt_break_ok(s, old(self).depth() > 0)),
            ({
                let (p2, n2, r2) = sp_p_fun_decl(
                    old(lexer).toks_v(),
                    old(lexer).pos(),
                    old(self).next_id() as int,
                    old(self).depth() as int,
                );
                final(lexer).pos() == p2 && final(self).next_id() as int == n2 && match (
                    r,
                    r2,
                ) {
                    (Ok(st), Ok(sv)) => stmt_view(st) == sv,
                    (Err(e), Err(ev)) => perr_view(e) == ev,
                    _ => false,
                }
            }),
        decreases lexer.toks().len() - lexer.pos(), 8nat,
    {
        proof {
            reveal(sp_p_fun_decl);
        }
        lexer.next();

        let name = match self.parse_ident(lexer) {
            Ok(n) => n,
            Err(e) => {
                proof {
                    reveal(sp_p_fun_decl);
                }
                return Err(e);
            },
        };

        if let Err(e) = self.expect(lexer, &Token::LeftParen) {
            proof {
                reveal(sp_p_fun_decl);
            }
            return Err(e);
        }

        let no_params = match lexer.peek() {
            Some(Token::RightParen) => true,
            _ => false,
        };
        let params: Vec<Vec<u8>> = if no_params {
            proof {
                assert(names_view(Seq::<Vec<u8>>::empty()) =~= Seq::<Seq<u8>>::empty());
            }
            Vec::new()
        } else {
            match self.parse_params(lexer, 0) {
                Ok(ps) => ps,
                Err(e) => {
                    proof {
                        reveal(sp_p_fun_decl);
                    }
                    return Err(e);
                },
            }
        };

        if let Err(e) = self.expect(lexer, &Token::RightParen) {
            proof {
                reveal(sp_p_fun_decl);
            }
            return Err(e);
        }
        if let Err(e) = self.check(lexer, &Token::LeftBrace) {
            proof {
                reveal(sp_p_fun_decl);
            }
            return Err(e);
        }

        let body = match self.parse_block(lexer) {
            Ok(b) => b,
            Err(e) => {
                proof {
                    reveal(sp_p_fun_decl);
                }
                return Err(e);
            },
        };

        proof {
            reveal(sp_p_fun_decl);
        }
        Ok(
            Stmt::Function(
                Function { name, params: Rc::new(params), body: Rc::new(body) },
            ),
        )
    }

    /// The parameter list of a function declaration, exactly as
    /// `sp_p_params` states; each list is bounded to 255 names.
    #[verifier::rlimit(90)]
    #[verifier::spinoff_prover]
    fn parse_params(&mut self, lexer: &mut Lexer, count: usize) -> (r: ParseResult<
        Vec<Vec<u8>>,
    >)
        requires
            old(lexer).wf(),
        ensures
            final(lexer).wf(),
            final(lexer).toks() == old(lexer).toks(),
            old(lexer).pos() <= final(lexer).pos(),
            *final(self) == *old(self),
            ({
                let (p2, r2) = sp_p_params(
                    old(lexer).toks_v(),
                    old(lexer).pos(),
                    count as int,
                );
                final(lexer).pos() == p2 && match (r, r2) {
                    (Ok(ps), Ok(pv)) => names_view(ps@) == pv,
                    (Err(e), Err(ev)) => perr_view(e) == ev,
                    _ => false,
                }
            }),
        decreases lexer.toks().len() - lexer.pos(), 10nat,
    {
        proof {
            reveal(sp_p_params);
        }
        if count >= 255 {
            proof {
                reveal(sp_p_params);
            }
            return Err(Error::new(peek_cloned(lexer), ParserErrorKind::TooManyArgs));
        }
        let name = match self.parse_ident(lexer) {
            Ok(n) => n,
            Err(e) => {
                proof {
                    reveal(sp_p_params);
                }
                return Err(e);
            },
        };
        let more = match self.expect(lexer, &Token::Comma) {
            Ok(_) => true,
            Err(_) => false,
        };
        if !more {
            let mut ps: Vec<Vec<u8>> = Vec::new();
            ps.push(name);
            proof {
                assert(ps@ =~= seq![name]);
                assert(ps@.drop_first() =~= Seq::<Vec<u8>>::empty());
                assert(names_view(Seq::<Vec<u8>>::empty()) =~= Seq::<Seq<u8>>::empty());
                assert(names_view(ps@) =~= seq![name@]);
            }
            proof {
                reveal(sp_p_params);
            }
            return Ok(ps);
        }
        let mut rest = match self.parse_params(lexer, count + 1) {
            Ok(ps) => ps,
            Err(e) => {
                proof {
                    reveal(sp_p_params);
                }
                return Err(e);
            },
        };
        let ghost pre_rest = rest@;
        rest.insert(0, name);
        proof {
            assert(rest@.subrange(1, rest@.len() as int) =~= pre_rest);
            assert(rest@.drop_first() =~= rest@.subrange(1, rest@.len() as int));
            assert(names_view(rest@) =~= seq![rest@[0]@] + names_view(rest@.drop_first()));
        }
        proof {
            reveal(sp_p_params);
        }
        Ok(rest)
    }

    #[verifier::spinoff_prover]
    fn parse_ident(&mut self, lexer: &mut Lexer) -> (r: ParseResult<Vec<u8>>)
        requires
            old(lexer).wf(),
        ensures
            final(lexer).wf(),
            final(lexer).toks() == old(lexer).toks(),
            old(lexer).pos() <= final(lexer).pos(),
            *final(self) == *old(self),
            (r matches Ok(_) ==> final(lexer).pos() > old(lexer).pos()),
            ({
                let (p2, r2) = sp_p_ident(old(lexer).toks_v(), old(lexer).pos());
                final(lexer).pos() == p2 && match (r, r2) {
                    (Ok(b), Ok(nv)) => b@ == nv,
                    (Err(e), Err(ev)) => perr_view(e) == ev,
                    _ => false,
                }
            }),
    {
        proof {
            reveal(sp_p_ident);
        }
        let is_ident = match lexer.peek() {
            Some(Token::Identifier(_)) => true,
            Some(_) => false,
            None => {
                return Err(Error::new(None, ParserErrorKind::UnexpectedEof));
            },
        };
        if is_ident {
            match lexer.next() {
                Some(SpannedToken { token: Token::Identifier(ident), span: _ }) => Ok(ident),
                _ => Err(Error::new(None, ParserErrorKind::UnexpectedToken)),
            }
        } else {
            Err(Error::new(peek_cloned(lexer), ParserErrorKind::UnexpectedToken))
        }
    }

    #[verifier::rlimit(90)]
    #[verifier::spinoff_prover]
    fn parse_var_decl(&mut self, lexer: &mut Lexer) -> (r: ParseResult<Stmt>)
        requires
            old(lexer).wf(),
            old(lexer).pos() < old(lexer).toks().len(),
        ensures
            final(lexer).wf(),
            final(lexer).toks() == old(lexer).toks(),
            old(lexer).pos() <= final(lexer).pos(),
            final(self).depth() == old(self).depth(),
            old(self).next_id() <= final(self).next_id(),
            (r matches Ok(s) ==> final(lexer).pos() > old(lexer).pos() && stmt_refs_bound(
                s,
                final(self).next_id() as nat,
            ) && stmt_break_ok(s, old(self).depth() > 0)),
            ({
                let (p2, n2, r2) = sp_p_var_decl(
                    old(lexer).toks_v(),
                    old(lexer).pos(),
                    old(self).next_id() as int,
                    old(self).depth() as int,
                );
                final(lexer).pos() == p2 && final(self).next_id() as int == n2 && match (
                    r,
                    r2,
                ) {
                    (Ok(st), Ok(sv)) => stmt_view(st) == sv,
                    (Err(e), Err(ev)) => perr_view(e) == ev,
                    _ => false,
                }
            }),
        decreases lexer.toks().len() - lexer.pos(), 8nat,
    {
        proof {
            reveal(sp_p_var_decl);
        }
        lexer.next();

        let res: ParseResult<Stmt> = match lexer.next() {
            Some(SpannedToken { token: Token::Identifier(ident), span: _ }) => {
                let has_init = match self.expect(lexer, &Token::Equal) {
                    Ok(_) => true,
                    Err(_) => false,
                };
                let initializer = if has_init {
                    match self.parse_expr(lexer) {
                        Ok(e) => Some(e),
                        Err(e) => {
                            proof {
                                reveal(sp_p_var_decl);
                            }
                            proof {
                                reveal(sp_p_ident);
                            }
                            return Err(e);
                        },
                    }
                } else {
                    None
                };
                Ok(Stmt::Var { name: ident, initializer })
            },
            token => Err(Error::new(token, ParserErrorKind::UnexpectedToken)),
        };

        if let Err(e) = self.expect(lexer, &Token::Semicolon) {
            proof {
                reveal(sp_p_var_decl);
            }
            proof {
                reveal(sp_p_ident);
            }
            return Err(e);
        }

        proof {
            reveal(sp_p_var_decl);
        }
        proof {
            reveal(sp_p_ident);
        }
        res
    }

    #[verifier::rlimit(90)]
    #[verifier::spinoff_prover]
    fn parse_stmt(&mut self, lexer: &mut Lexer) -> (r: ParseResult<Stmt>)
        requires
            old(lexer).wf(),
            old(lexer).pos() < old(lexer).toks().len(),
        ensures
            final(lexer).wf(),
            final(lexer).toks() == old(lexer).toks(),
            old(lexer).pos() <= final(lexer).pos(),
            final(self).depth() == old(self).depth(),
            old(self).next_id() <= final(self).next_id(),
            (r matches Ok(s) ==> final(lexer).pos() > old(lexer).pos() && stmt_refs_bound(
                s,
                final(self).next_id() as nat,
            ) && stmt_break_ok(s, old(self).depth() > 0)),
            ({
                let (p2, n2, r2) = sp_p_stmt(
                    old(lexer).toks_v(),
                    old(lexer).pos(),
                    old(self).next_id() as int,
                    old(self).depth() as int,
                );
                final(lexer).pos() == p2 && final(self).next_id() as int == n2 && match (
                    r,
                    r2,
                ) {
                    (Ok(st), Ok(sv)) => stmt_view(st) == sv,
                    (Err(e), Err(ev)) => perr_view(e) == ev,
                    _ => false,
                }
            }),
        decreases lexer.toks().len() - lexer.pos(), 8nat,
    {
        proof {
            reveal(sp_p_stmt);
        }
        let kind: u8 = match lexer.peek() {
            Some(Token::For) => 0,
            Some(Token::If) => 1,
            Some(Token::Print) => 2,
            Some(Token::Return) => 3,
            Some(Token::While) => 4,
            Some(Token::LeftBrace) => 5,
            Some(Token::Break) => 6,
            _ => 7,
        };
        proof {
            reveal(sp_p_stmt);
        }
        if kind == 0 {
            self.parse_for_loop(lexer)
        } else if kind == 1 {
            self.parse_if(lexer)
        } else if kind == 2 {
            self.parse_print_stmt(lexer)
        } else if kind == 3 {
            self.parse_return_stmt(lexer)
        } else if kind == 4 {
            self.parse_while_loop(lexer)
        } else if kind == 5 {
            match self.parse_block(lexer) {
                Ok(b) => Ok(Stmt::Block(b)),
                Err(e) => Err(e),
            }
        } else if kind == 6 {
            self.parse_break(lexer)
        } else {
            self.parse_expr_stmt(lexer)
        }
    }

    /// `for` is desugared at parse time:
    /// `Block[init?, While{cond-or-true, Block[body, inc?]}]`.
    #[verifier::rlimit(100)]
    #[verifier::spinoff_prover]
    fn parse_for_loop(&mut self, lexer: &mut Lexer) -> (r: ParseResult<Stmt>)
        requires
            old(lexer).wf(),
            old(lexer).pos() < old(lexer).toks().len(),
        ensures
            final(lexer).wf(),
            final(lexer).toks() == old(lexer).toks(),
            old(lexer).pos() <= final(lexer).pos(),
            final(self).depth() == old(self).depth(),
            old(self).next_id() <= final(self).next_id(),
            (r matches Ok(s) ==> final(lexer).pos() > old(lexer).pos() && stmt_refs_bound(
                s,
                final(self).next_id() as nat,
            ) && stmt_break_ok(s, old(self).depth() > 0)),
            ({
                let (p2, n2, r2) = sp_p_for(
                    old(lexer).toks_v(),
                    old(lexer).pos(),
                    old(self).next_id() as int,
                    old(self).depth() as int,
                );
                final(lexer).pos() == p2 && final(self).next_id() as int == n2 && match (
                    r,
                    r2,
                ) {
                    (Ok(st), Ok(sv)) => stmt_view(st) == sv,
                    (Err(e), Err(ev)) => perr_view(e) == ev,
                    _ => false,
                }
            }),
        decreases lexer.toks().len() - lexer.pos(), 7nat,
    {
        proof {
            reveal(sp_p_for);
        }
        lexer.next();

        if let Err(e) = self.expect(lexer, &Token::LeftParen) {
            proof {
                reveal(sp_p_for);
            }
            return Err(e);
        }

        let init_kind: u8 = match lexer.peek() {
            Some(Token::Semicolon) => 0,
            Some(Token::Var) => 1,
            Some(_) => 2,
            None => {
                proof {
                    reveal(sp_p_for);
                }
                return Err(Error::new(None, ParserErrorKind::UnexpectedEof));
            },
        };
        let initializer: Option<Stmt> = if init_kind == 0 {
            lexer.next();
            None
        } else if init_kind == 1 {
            match self.parse_var_decl(lexer) {
                Ok(s) => Some(s),
                Err(e) => {
                    proof {
                        reveal(sp_p_for);
                    }
                    return Err(e);
                },
            }
        } else {
            match self.parse_expr_stmt(lexer) {
                Ok(s) => Some(s),
                Err(e) => {
                    proof {
                        reveal(sp_p_for);
                    }
                    return Err(e);
                },
            }
        };

        let ghost id_init = self.next_id();
        let cond_default = match lexer.peek() {
            Some(Token::Semicolon) => true,
            Some(_) => false,
            None => {
                proof {
                    reveal(sp_p_for);
                }
                return Err(Error::new(None, ParserErrorKind::UnexpectedEof));
            },
        };
        let condition = if cond_default {
            Expr::Literal(Literal::Bool(true))
        } else {
            match self.parse_expr(lexer) {
                Ok(e) => e,
                Err(e) => {
                    proof {
                        reveal(sp_p_for);
                    }
                    return Err(e);
                },
            }
        };

        if let Err(e) = self.expect(lexer, &Token::Semicolon) {
            proof {
                reveal(sp_p_for);
            }
            return Err(e);
        }

        let ghost id_cond = self.next_id();
        let inc_absent = match lexer.peek() {
            Some(Token::RightParen) => true,
            Some(_) => false,
            None => {
                proof {
                    reveal(sp_p_for);
                }
                return Err(Error::new(None, ParserErrorKind::UnexpectedEof));
            },
        };
        let increment: Option<Expr> = if inc_absent {
            None
        } else {
            match self.parse_expr(lexer) {
                Ok(e) => Some(e),
                Err(e) => {
                    proof {
                        reveal(sp_p_for);
                    }
                    return Err(e);
                },
            }
        };

        let ghost id_inc = self.next_id();
        if let Err(e) = self.expect(lexer, &Token::RightParen) {
            proof {
                reveal(sp_p_for);
            }
            return Err(e);
        }

        let body_at_end = match lexer.peek() {
            Some(_) => false,
            None => true,
        };
        if body_at_end {
            proof {
                reveal(sp_p_for);
            }
            return Err(Error::new(None, ParserErrorKind::UnexpectedEof));
        }
        let prev_depth = self.loop_depth;
        self.loop_depth = if prev_depth < u32::MAX {
            prev_depth + 1
        } else {
            prev_depth
        };
        let body_res = self.parse_stmt(lexer);
        self.loop_depth = prev_depth;
        let mut body = match body_res {
            Ok(b) => b,
            Err(e) => {
                proof {
                    reveal(sp_p_for);
                }
                return Err(e);
            },
        };

        let ghost n_final = self.next_id() as nat;
        proof {
            lemma_stmt_refs_bound_widen(body, self.next_id() as nat, n_final);
        }

        let ghost body_v0 = stmt_view(body);
        if let Some(inc) = increment {
            let mut ss: Vec<Stmt> = Vec::new();
            proof {
                lemma_expr_refs_bound_widen(inc, id_inc as nat, n_final);
            }
            let ghost inc_v = expr_view(inc);
            let inc_stmt = Stmt::Expr(inc);
            proof {
                lemma_stmts_refs_bound_push(ss@, body, n_final);
                lemma_stmts_break_ok_push(ss@, body, true);
            }
            ss.push(body);
            proof {
                lemma_stmts_refs_bound_push(ss@, inc_stmt, n_final);
                lemma_stmts_break_ok_push(ss@, inc_stmt, true);
            }
            ss.push(inc_stmt);
            proof {
                assert(ss@.drop_first() =~= seq![ss@[1]]);
                assert(seq![ss@[1]].drop_first() =~= Seq::<Stmt>::empty());
                assert(stmts_view(Seq::<Stmt>::empty()) =~= Seq::<StmtV>::empty());
                assert(stmts_view(seq![ss@[1]]) =~= seq![stmt_view(ss@[1])]);
                assert(stmts_view(ss@.drop_first()) =~= seq![stmt_view(ss@[1])]);
                assert(stmts_view(ss@) =~= seq![stmt_view(ss@[0]), stmt_view(ss@[1])]);
            }
            body = Stmt::Block(ss);
            proof {
                assert(stmt_view(body) == StmtV::Block(
                    seq![body_v0, StmtV::Expr(inc_v)],
                ));
            }
        }

        proof {
            lemma_expr_refs_bound_widen(condition, id_cond as nat, n_final);
            assert(stmt_refs_bound(body, n_final));
            assert(stmt_break_ok(body, true));
        }
        let ghost cond_v = expr_view(condition);
        let ghost body_v = stmt_view(body);
        let mut out = Stmt::While { condition, body: Box::new(body) };
        proof {
            assert(stmt_refs_bound(out, n_final));
            assert(stmt_break_ok(out, old(self).depth() > 0));
            assert(stmt_view(out) == (StmtV::While {
                condition: cond_v,
                body: Box::new(body_v),
            }));
        }

        let ghost w_v = stmt_view(out);
        if let Some(init) = initializer {
            let ghost flag = old(self).depth() > 0;
            let ghost init_v = stmt_view(init);
            proof {
                lemma_stmt_refs_bound_widen(init, id_init as nat, n_final);
            }
            let mut ss: Vec<Stmt> = Vec::new();
            proof {
                lemma_stmts_refs_bound_push(ss@, init, n_final);
                lemma_stmts_break_ok_push(ss@, init, flag);
            }
            ss.push(init);
            proof {
                lemma_stmts_refs_bound_push(ss@, out, n_final);
                lemma_stmts_break_ok_push(ss@, out, flag);
            }
            ss.push(out);
            proof {
                assert(ss@.drop_first() =~= seq![ss@[1]]);
                assert(seq![ss@[1]].drop_first() =~= Seq::<Stmt>::empty());
                assert(stmts_view(Seq::<Stmt>::empty()) =~= Seq::<StmtV>::empty());
                assert(stmts_view(seq![ss@[1]]) =~= seq![stmt_view(ss@[1])]);
                assert(stmts_view(ss@.drop_first()) =~= seq![stmt_view(ss@[1])]);
                assert(stmts_view(ss@) =~= seq![stmt_view(ss@[0]), stmt_view(ss@[1])]);
            }
            out = Stmt::Block(ss);
            proof {
                assert(stmt_view(out) == StmtV::Block(seq![init_v, w_v]));
            }
        }

        proof {
            reveal(sp_p_for);
            let toksv = old(lexer).toks_v();
            let (p2, n2, r2) = sp_p_for(
                toksv,
                old(lexer).pos(),
                old(self).next_id() as int,
                old(self).depth() as int,
            );
            assert(lexer.pos() == p2);
            assert(self.next_id() as int == n2);
            assert(r2 is Ok);
            assert(stmt_view(out) == r2->Ok_0);
        }
        Ok(out)
    }

    #[verifier::rlimit(95)]
    #[verifier::spinoff_prover]
    fn parse_if(&mut self, lexer: &mut Lexer) -> (r: ParseResult<Stmt>)
        requires
            old(lexer).wf(),
            old(lexer).pos() < old(lexer).toks().len(),
        ensures
            final(lexer).wf(),
            final(lexer).toks() == old(lexer).toks(),
            old(lexer).pos() <= final(lexer).pos(),
            final(self).depth() == old(self).depth(),
            old(self).next_id() <= final(self).next_id(),
            (r matches Ok(s) ==> final(lexer).pos() > old(lexer).pos() && stmt_refs_bound(
                s,
                final(self).next_id() as nat,
            ) && stmt_break_ok(s, old(self).depth() > 0)),
            ({
                let (p2, n2, r2) = sp_p_if(
                    old(lexer).toks_v(),
                    old(lexer).pos(),
                    old(self).next_id() as int,
                    old(self).depth() as int,
                );
                final(lexer).pos() == p2 && final(self).next_id() as int == n2 && match (
                    r,
                    r2,
                ) {
                    (Ok(st), Ok(sv)) => stmt_view(st) == sv,
                    (Err(e), Err(ev)) => perr_view(e) == ev,
                    _ => false,
                }
            }),
        decreases lexer.toks().len() - lexer.pos(), 7nat,
    {
        proof {
            reveal(sp_p_if);
        }
        lexer.next();

        if let Err(e) = self.expect(lexer, &Token::LeftParen) {
            proof {
                reveal(sp_p_if);
            }
            return Err(e);
        }
        let condition = match self.parse_expr(lexer) {
            Ok(e) => e,
            Err(e) => {
                proof {
                    reveal(sp_p_if);
                }
                return Err(e);
            },
        };
        let ghost id_cond = self.next_id();
        if let Err(e) = self.expect(lexer, &Token::RightParen) {
            proof {
                reveal(sp_p_if);
            }
            return Err(e);
        }

        let at_end = match lexer.peek() {
            Some(_) => false,
            None => true,
        };
        if at_end {
            proof {
                reveal(sp_p_if);
            }
            return Err(Error::new(None, ParserErrorKind::UnexpectedEof));
        }
        let then_branch = match self.parse_stmt(lexer) {
            Ok(s) => Box::new(s),
            Err(e) => {
                proof {
                    reveal(sp_p_if);
                }
                return Err(e);
            },
        };
        let ghost id_then = self.next_id();
        let has_else = match self.expect(lexer, &Token::Else) {
            Ok(_) => true,
            Err(_) => false,
        };
        let else_branch = if has_else {
            let at_end2 = match lexer.peek() {
                Some(_) => false,
                None => true,
            };
            if at_end2 {
                proof {
                    reveal(sp_p_if);
                }
                return Err(Error::new(None, ParserErrorKind::UnexpectedEof));
            }
            match self.parse_stmt(lexer) {
                Ok(s) => Some(Box::new(s)),
                Err(e) => {
                    proof {
                        reveal(sp_p_if);
                    }
                    return Err(e);
                },
            }
        } else {
            None
        };

        let ghost n_final = self.next_id() as nat;
        proof {
            lemma_expr_refs_bound_widen(condition, id_cond as nat, n_final);
            lemma_stmt_refs_bound_widen(*then_branch, id_then as nat, n_final);
        }
        proof {
            reveal(sp_p_if);
        }
        Ok(Stmt::If { condition, then_branch, else_branch })
    }

    #[verifier::rlimit(95)]
    #[verifier::spinoff_prover]
    fn parse_while_loop(&mut self, lexer: &mut Lexer) -> (r: ParseResult<Stmt>)
        requires
            old(lexer).wf(),
            old(lexer).pos() < old(lexer).toks().len(),
        ensures
            final(lexer).wf(),
            final(lexer).toks() == old(lexer).toks(),
            old(lexer).pos() <= final(lexer).pos(),
            final(self).depth() == old(self).depth(),
            old(self).next_id() <= final(self).next_id(),
            (r matches Ok(s) ==> final(lexer).pos() > old(lexer).pos() && stmt_refs_bound(
                s,
                final(self).next_id() as nat,
            ) && stmt_break_ok(s, old(self).depth() > 0)),
            ({
                let (p2, n2, r2) = sp_p_while(
                    old(lexer).toks_v(),
                    old(lexer).pos(),
                    old(self).next_id() as int,
                    old(self).depth() as int,
                );
                final(lexer).pos() == p2 && final(self).next_id() as int == n2 && match (
                    r,
                    r2,
                ) {
                    (Ok(st), Ok(sv)) => stmt_view(st) == sv,
                    (Err(e), Err(ev)) => perr_view(e) == ev,
                    _ => false,
                }
            }),
        decreases lexer.toks().len() - lexer.pos(), 7nat,
    {
        proof {
            reveal(sp_p_while);
        }
        lexer.next();

        if let Err(e) = self.expect(lexer, &Token::LeftParen) {
            proof {
                reveal(sp_p_while);
            }
            return Err(e);
        }
        let condition = match self.parse_expr(lexer) {
            Ok(e) => e,
            Err(e) => {
                proof {
                    reveal(sp_p_while);
                }
                return Err(e);
            },
        };
        let ghost id_cond = self.next_id();
        if let Err(e) = self.expect(lexer, &Token::RightParen) {
            proof {
                reveal(sp_p_while);
            }
            return Err(e);
        }

        let at_end = match lexer.peek() {
            Some(_) => false,
            None => true,
        };
        if at_end {
            proof {
                reveal(sp_p_while);
            }
            return Err(Error::new(None, ParserErrorKind::UnexpectedEof));
        }
        let prev_depth = self.loop_depth;
        self.loop_depth = if prev_depth < u32::MAX {
            prev_depth + 1
        } else {
            prev_depth
        };
        let body_res = self.parse_stmt(lexer);
        self.loop_depth = prev_depth;
        let body = match body_res {
            Ok(b) => Box::new(b),
            Err(e) => {
                proof {
                    reveal(sp_p_while);
                }
                return Err(e);
            },
        };

        proof {
            lemma_expr_refs_bound_widen(condition, id_cond as nat, self.next_id() as nat);
        }
        proof {
            reveal(sp_p_while);
        }
        Ok(Stmt::While { condition, body })
    }

    #[verifier::rlimit(90)]
    #[verifier::spinoff_prover]
    fn parse_print_stmt(&mut self, lexer: &mut Lexer) -> (r: ParseResult<Stmt>)
        requires
            old(lexer).wf(),
            old(lexer).pos() < old(lexer).toks().len(),
        ensures
            final(lexer).wf(),
            final(lexer).toks() == old(lexer).toks(),
            old(lexer).pos() <= final(lexer).pos(),
            final(self).depth() == old(self).depth(),
            old(self).next_id() <= final(self).next_id(),
            (r matches Ok(s) ==> final(lexer).pos() > old(lexer).pos() && stmt_refs_bound(
                s,
                final(self).next_id() as nat,
            ) && stmt_break_ok(s, old(self).depth() > 0)),
            ({
                let (p2, n2, r2) = sp_p_print(
                    old(lexer).toks_v(),
                    old(lexer).pos(),
                    old(self).next_id() as int,
                );
                final(lexer).pos() == p2 && final(self).next_id() as int == n2 && match (
                    r,
                    r2,
                ) {
                    (Ok(st), Ok(sv)) => stmt_view(st) == sv,
                    (Err(e), Err(ev)) => perr_view(e) == ev,
                    _ => false,
                }
            }),
        decreases lexer.toks().len() - lexer.pos(), 7nat,
    {
        proof {
            reveal(sp_p_print);
        }
        lexer.next();
        let res = match self.parse_expr(lexer) {
            Ok(e) => e,
            Err(e) => {
                proof {
                    reveal(sp_p_print);
                }
                return Err(e);
            },
        };
        if let Err(e) = self.expect(lexer, &Token::Semicolon) {
            proof {
                reveal(sp_p_print);
            }
            return Err(e);
        }
        proof {
            reveal(sp_p_print);
        }
        Ok(Stmt::Print(res))
    }

    #[verifier::rlimit(90)]
    #[verifier::spinoff_prover]
    fn parse_return_stmt(&mut self, lexer: &mut Lexer) -> (r: ParseResult<Stmt>)
        requires
            old(lexer).wf(),
            old(lexer).pos() < old(lexer).toks().len(),
        ensures
            final(lexer).wf(),
            final(lexer).toks() == old(lexer).toks(),
            old(lexer).pos() <= final(lexer).pos(),
            final(self).depth() == old(self).depth(),
            old(self).next_id() <= final(self).next_id(),
            (r matches Ok(s) ==> final(lexer).pos() > old(lexer).pos() && stmt_refs_bound(
                s,
                final(self).next_id() as nat,
            ) && stmt_break_ok(s, old(self).depth() > 0)),
            ({
                let (p2, n2, r2) = sp_p_return(
                    old(lexer).toks_v(),
                    old(lexer).pos(),
                    old(self).next_id() as int,
                );
                final(lexer).pos() == p2 && final(self).next_id() as int == n2 && match (
                    r,
                    r2,
                ) {
                    (Ok(st), Ok(sv)) => stmt_view(st) == sv,
                    (Err(e), Err(ev)) => perr_view(e) == ev,
                    _ => false,
                }
            }),
        decreases lexer.toks().len() - lexer.pos(), 7nat,
    {
        proof {
            reveal(sp_p_return);
        }
        lexer.next();
        let bare = match lexer.peek() {
            Some(Token::Semicolon) => true,
            _ => false,
        };
        let val = if bare {
            None
        } else {
            match self.parse_expr(lexer) {
                Ok(e) => Some(e),
                Err(e) => {
                    proof {
                        reveal(sp_p_return);
                    }
                    return Err(e);
                },
            }
        };
        if let Err(e) = self.expect(lexer, &Token::Semicolon) {
            proof {
                reveal(sp_p_return);
            }
            return Err(e);
        }
        proof {
            reveal(sp_p_return);
        }
        Ok(Stmt::Return(val))
    }

    #[verifier::rlimit(90)]
    #[verifier::spinoff_prover]
    fn parse_block(&mut self, lexer: &mut Lexer) -> (r: ParseResult<Vec<Stmt>>)
        requires
            old(lexer).wf(),
            old(lexer).pos() < old(lexer).toks().len(),
        ensures
            final(lexer).wf(),
            final(lexer).toks() == old(lexer).toks(),
            old(lexer).pos() <= final(lexer).pos(),
            final(self).depth() == old(self).depth(),
            old(self).next_id() <= final(self).next_id(),
            (r matches Ok(ss) ==> final(lexer).pos() > old(lexer).pos() && stmts_refs_bound(
                ss@,
                final(self).next_id() as nat,
            ) && stmts_break_ok(ss@, old(self).depth() > 0)),
            ({
                let (p2, n2, r2) = sp_p_block(
                    old(lexer).toks_v(),
                    old(lexer).pos(),
                    old(self).next_id() as int,
                    old(self).depth() as int,
                );
                final(lexer).pos() == p2 && final(self).next_id() as int == n2 && match (
                    r,
                    r2,
                ) {
                    (Ok(ss), Ok(sv)) => stmts_view(ss@) == sv,
                    (Err(e), Err(ev)) => perr_view(e) == ev,
                    _ => false,
                }
            }),
        decreases lexer.toks().len() - lexer.pos(), 7nat,
    {
        proof {
            reveal(sp_p_block);
        }
        lexer.next();

        let stmts = match self.parse_block_stmts(lexer) {
            Ok(ss) => ss,
            Err(e) => {
                proof {
                    reveal(sp_p_block);
                }
                return Err(e);
            },
        };

        proof {
            reveal(sp_p_block);
        }
        match lexer.next() {
            Some(_) => Ok(stmts),
            None => Err(Error::new(None, ParserErrorKind::UnexpectedEof)),
        }
    }

    /// The statements of one block, after its `{`, exactly as
    /// `sp_p_block_stmts` states.
    #[verifier::rlimit(90)]
    #[verifier::spinoff_prover]
    fn parse_block_stmts(&mut self, lexer: &mut Lexer) -> (r: ParseResult<Vec<Stmt>>)
        requires
            old(lexer).wf(),
        ensures
            final(lexer).wf(),
            final(lexer).toks() == old(lexer).toks(),
            old(lexer).pos() <= final(lexer).pos(),
            final(self).depth() == old(self).depth(),
            old(self).next_id() <= final(self).next_id(),
            (r matches Ok(ss) ==> stmts_refs_bound(ss@, final(self).next_id() as nat)
                && stmts_break_ok(ss@, old(self).depth() > 0)),
            ({
                let (p2, n2, r2) = sp_p_block_stmts(
                    old(lexer).toks_v(),
                    old(lexer).pos(),
                    old(self).next_id() as int,
                    old(self).depth() as int,
                );
                final(lexer).pos() == p2 && final(self).next_id() as int == n2 && match (
                    r,
                    r2,
                ) {
                    (Ok(ss), Ok(sv)) => stmts_view(ss@) == sv,
                    (Err(e), Err(ev)) => perr_view(e) == ev,
                    _ => false,
                }
            }),
        decreases lexer.toks().len() - lexer.pos(), 10nat,
    {
        proof {
            reveal(sp_p_block_stmts);
        }
        let stop = match lexer.peek() {
            Some(Token::RightBrace) => true,
            None => true,
            Some(_) => false,
        };
        if stop {
            proof {
                assert(stmts_refs_bound(Seq::<Stmt>::empty(), self.next_id() as nat));
                assert(stmts_break_ok(Seq::<Stmt>::empty(), old(self).depth() > 0));
                assert(stmts_view(Seq::<Stmt>::empty()) =~= Seq::<StmtV>::empty());
            }
            proof {
                reveal(sp_p_block_stmts);
            }
            return Ok(Vec::new());
        }
        let s = match self.parse_decl(lexer) {
            Ok(s) => s,
            Err(e) => {
                proof {
                    reveal(sp_p_block_stmts);
                }
                return Err(e);
            },
        };
        let ghost mid_id = self.next_id();
        let mut rest = match self.parse_block_stmts(lexer) {
            Ok(ss) => ss,
            Err(e) => {
                proof {
                    reveal(sp_p_block_stmts);
                }
                return Err(e);
            },
        };
        let ghost pre_rest = rest@;
        rest.insert(0, s);
        proof {
            lemma_stmt_refs_bound_widen(s, mid_id as nat, self.next_id() as nat);
            assert(rest@.subrange(1, rest@.len() as int) =~= pre_rest);
            assert(rest@.drop_first() =~= rest@.subrange(1, rest@.len() as int));
            assert(stmts_view(rest@) =~= seq![stmt_view(rest@[0])] + stmts_view(
                rest@.drop_first(),
            ));
            assert(stmts_refs_bound(rest@, self.next_id() as nat));
            assert(stmts_break_ok(rest@, old(self).depth() > 0));
        }
        proof {
            reveal(sp_p_block_stmts);
        }
        Ok(rest)
    }

    #[verifier::rlimit(90)]
    #[verifier::spinoff_prover]
    fn parse_break(&mut self, lexer: &mut Lexer) -> (r: ParseResult<Stmt>)
        requires
            old(lexer).wf(),
            old(lexer).pos() < old(lexer).toks().len(),
        ensures
            final(lexer).wf(),
            final(lexer).toks() == old(lexer).toks(),
            old(lexer).pos() <= final(lexer).pos(),
            *final(self) == *old(self),
            (r matches Ok(s) ==> final(lexer).pos() > old(lexer).pos() && stmt_refs_bound(
                s,
                final(self).next_id() as nat,
            ) && stmt_break_ok(s, old(self).depth() > 0)),
            ({
                let (p2, n2, r2) = sp_p_break(
                    old(lexer).toks_v(),
                    old(lexer).pos(),
                    old(self).next_id() as int,
                    old(self).depth() as int,
                );
                final(lexer).pos() == p2 && final(self).next_id() as int == n2 && match (
                    r,
                    r2,
                ) {
                    (Ok(st), Ok(sv)) => stmt_view(st) == sv,
                    (Err(e), Err(ev)) => perr_view(e) == ev,
                    _ => false,
                }
            }),
        decreases lexer.toks().len() - lexer.pos(), 7nat,
    {
        proof {
            reveal(sp_p_break);
        }
        let break_token = lexer.next();

        if let Err(e) = self.expect(lexer, &Token::Semicolon) {
            proof {
                reveal(sp_p_break);
            }
            return Err(e);
        }

        proof {
            reveal(sp_p_break);
        }
        if self.loop_depth == 0 {
            Err(Error::new(break_token, ParserErrorKind::BreakOutsideLoop))
        } else {
            Ok(Stmt::Break)
        }
    }

    #[verifier::rlimit(90)]
    #[verifier::spinoff_prover]
    fn parse_expr_stmt(&mut self, lexer: &mut Lexer) -> (r: ParseResult<Stmt>)
        requires
            old(lexer).wf(),
        ensures
            final(lexer).wf(),
            final(lexer).toks() == old(lexer).toks(),
            old(lexer).pos() <= final(lexer).pos(),
            final(self).depth() == old(self).depth(),
            old(self).next_id() <= final(self).next_id(),
            (r matches Ok(s) ==> final(lexer).pos() > old(lexer).pos() && stmt_refs_bound(
                s,
                final(self).next_id() as nat,
            ) && stmt_break_ok(s, old(self).depth() > 0)),
            ({
                let (p2, n2, r2) = sp_p_expr_stmt(
                    old(lexer).toks_v(),
                    old(lexer).pos(),
                    old(self).next_id() as int,
                );
                final(lexer).pos() == p2 && final(self).next_id() as int == n2 && match (
                    r,
                    r2,
                ) {
                    (Ok(st), Ok(sv)) => stmt_view(st) == sv,
                    (Err(e), Err(ev)) => perr_view(e) == ev,
                    _ => false,
                }
            }),
        decreases lexer.toks().len() - lexer.pos(), 7nat,
    {
        proof {
            reveal(sp_p_expr_stmt);
        }
        let res = match self.parse_expr(lexer) {
            Ok(e) => e,
            Err(e) => {
                proof {
                    reveal(sp_p_expr_stmt);
                }
                return Err(e);
            },
        };
        if let Err(e) = self.expect(lexer, &Token::Semicolon) {
            proof {
                reveal(sp_p_expr_stmt);
            }
            return Err(e);
        }
        proof {
            reveal(sp_p_expr_stmt);
        }
        Ok(Stmt::Expr(res))
    }

    /// Parses one expression, exactly as `sp_p_expr` states.
    #[verifier::rlimit(90)]
    #[verifier::spinoff_prover]
    pub fn parse_expr(&mut self, lexer: &mut Lexer) -> (r: ParseResult<Expr>)
        requires
            old(lexer).wf(),
        ensures
            final(lexer).wf(),
            final(lexer).toks() == old(lexer).toks(),
            old(lexer).pos() <= final(lexer).pos(),
            final(self).depth() == old(self).depth(),
            old(self).next_id() <= final(self).next_id(),
            (r matches Ok(e) ==> final(lexer).pos() > old(lexer).pos() && expr_refs_bound(
                e,
                final(self).next_id() as nat,
            )),
            ({
                let (p2, n2, r2) = sp_p_expr(
                    old(lexer).toks_v(),
                    old(lexer).pos(),
                    old(self).next_id() as int,
                );
                final(lexer).pos() == p2 && final(self).next_id() as int == n2 && match (
                    r,
                    r2,
                ) {
                    (Ok(e), Ok(ev)) => expr_view(e) == ev,
                    (Err(e), Err(ev)) => perr_view(e) == ev,
                    _ => false,
                }
            }),
        decreases lexer.toks().len() - lexer.pos(), 6nat,
    {
        proof {
            reveal(sp_p_expr);
        }
        proof {
            reveal(sp_p_expr);
        }
        self.parse_assignment(lexer)
    }

    /// Assignment is right-associative, and only a bare identifier
    /// reference is a legal left-hand side, exactly as `sp_p_assign`
    /// states.
    #[verifier::rlimit(90)]
    #[verifier::spinoff_prover]
    fn parse_assignment(&mut self, lexer: &mut Lexer) -> (r: ParseResult<Expr>)
        requires
            old(lexer).wf(),
        ensures
            final(lexer).wf(),
            final(lexer).toks() == old(lexer).toks(),
            old(lexer).pos() <= final(lexer).pos(),
            final(self).depth() == old(self).depth(),
            old(self).next_id() <= final(self).next_id(),
            (r matches Ok(e) ==> final(lexer).pos() > old(lexer).pos() && expr_refs_bound(
                e,
                final(self).next_id() as nat,
            )),
            ({
                let (p2, n2, r2) = sp_p_assign(
                    old(lexer).toks_v(),
                    old(lexer).pos(),
                    old(self).next_id() as int,
                );
                final(lexer).pos() == p2 && final(self).next_id() as int == n2 && match (
                    r,
                    r2,
                ) {
                    (Ok(e), Ok(ev)) => expr_view(e) == ev,
                    (Err(e), Err(ev)) => perr_view(e) == ev,
                    _ => false,
                }
            }),
        decreases lexer.toks().len() - lexer.pos(), 5nat,
    {
        proof {
            reveal(sp_p_assign);
        }
        let expr = match self.parse_binop(lexer, 0) {
            Ok(e) => e,
            Err(e) => {
                proof {
                    reveal(sp_p_assign);
                }
                return Err(e);
            },
        };
        let ghost id0 = self.next_id();

        let equals = match self.expect(lexer, &Token::Equal) {
            Ok(t) => Some(t),
            Err(_) => None,
        };
        if let Some(equals) = equals {
            let value = match self.parse_assignment(lexer) {
                Ok(v) => v,
                Err(e) => {
                    proof {
                        reveal(sp_p_assign);
                    }
                    return Err(e);
                },
            };
            if let Expr::Literal(Literal::Identifier(name)) = expr {
                proof {
                    lemma_expr_refs_bound_widen(
                        Expr::Literal(Literal::Identifier(name)),
                        id0 as nat,
                        self.next_id() as nat,
                    );
                }
                proof {
                    reveal(sp_p_assign);
                }
                return Ok(Expr::Assign(Assign { name, value: Box::new(value) }));
            } else {
                proof {
                    reveal(sp_p_assign);
                }
                return Err(Error::new(Some(equals), ParserErrorKind::InvalidLvalue));
            }
        }

        proof {
            reveal(sp_p_assign);
        }
        Ok(expr)
    }

    /// Precedence climbing from `min_prec`, exactly as `sp_p_binop`
    /// states; all levels are left-associative.
    #[verifier::rlimit(90)]
    #[verifier::spinoff_prover]
    fn parse_binop(&mut self, lexer: &mut Lexer, min_prec: u32) -> (r: ParseResult<Expr>)
        requires
            old(lexer).wf(),
        ensures
            final(lexer).wf(),
            final(lexer).toks() == old(lexer).toks(),
            old(lexer).pos() <= final(lexer).pos(),
            final(self).depth() == old(self).depth(),
            old(self).next_id() <= final(self).next_id(),
            (r matches Ok(e) ==> final(lexer).pos() > old(lexer).pos() && expr_refs_bound(
                e,
                final(self).next_id() as nat,
            )),
            ({
                let (p2, n2, r2) = sp_p_binop(
                    old(lexer).toks_v(),
                    old(lexer).pos(),
                    old(self).next_id() as int,
                    min_prec,
                );
                final(lexer).pos() == p2 && final(self).next_id() as int == n2 && match (
                    r,
                    r2,
                ) {
                    (Ok(e), Ok(ev)) => expr_view(e) == ev,
                    (Err(e), Err(ev)) => perr_view(e) == ev,
                    _ => false,
                }
            }),
        decreases lexer.toks().len() - lexer.pos(), 4nat,
    {
        proof {
            reveal(sp_p_binop);
        }
        let expr = match self.parse_unary(lexer) {
            Ok(e) => e,
            Err(e) => {
                proof {
                    reveal(sp_p_binop);
                }
                return Err(e);
            },
        };
        proof {
            reveal(sp_p_binop);
        }
        self.parse_binop_more(lexer, expr, min_prec)
    }

    /// Folds further operators of at least `min_prec` onto `left`,
    /// exactly as `sp_p_binop_more` states.
    #[verifier::rlimit(100)]
    #[verifier::spinoff_prover]
    fn parse_binop_more(&mut self, lexer: &mut Lexer, left: Expr, min_prec: u32) -> (r:
        ParseResult<Expr>)
        requires
            old(lexer).wf(),
            expr_refs_bound(left, old(self).next_id() as nat),
        ensures
            final(lexer).wf(),
            final(lexer).toks() == old(lexer).toks(),
            old(lexer).pos() <= final(lexer).pos(),
            final(self).depth() == old(self).depth(),
            old(self).next_id() <= final(self).next_id(),
            (r matches Ok(e) ==> expr_refs_bound(e, final(self).next_id() as nat)),
            ({
                let (p2, n2, r2) = sp_p_binop_more(
                    old(lexer).toks_v(),
                    old(lexer).pos(),
                    old(self).next_id() as int,
                    expr_view(left),
                    min_prec,
                );
                final(lexer).pos() == p2 && final(self).next_id() as int == n2 && match (
                    r,
                    r2,
                ) {
                    (Ok(e), Ok(ev)) => expr_view(e) == ev,
                    (Err(e), Err(ev)) => perr_view(e) == ev,
                    _ => false,
                }
            }),
        decreases lexer.toks().len() - lexer.pos(), 3nat,
    {
        let op = match peek_binary_operator(lexer) {
            Some(op) => op,
            None => {
                proof {
                        }
                return Ok(left);
            },
        };
        let prec = prec_of(op);
        if prec < min_prec {
            proof {
                }
            return Ok(left);
        }
        lexer.next();
        let ghost mid_id = self.next_id();
        let rhs = match self.parse_binop(lexer, prec + 1) {
            Ok(e) => e,
            Err(e) => {
                proof {
                            let toksv = old(lexer).toks_v();
                    let p0 = old(lexer).pos();
                    let n0 = old(self).next_id() as int;
                    assert(sp_clamp_pos(0, p0, toksv.len() as int) == p0);
                    assert(sp_binop_of(toksv, p0) == Some(op));
                    assert(!(sp_prec_of(op) < min_prec));
                    let (p1, n1, r1) = sp_p_binop(toksv, p0 + 1, n0, (sp_prec_of(op)
                        + 1) as u32);
                    assert(lexer.pos() == p1);
                    assert(self.next_id() as int == n1);
                    assert(r1 matches Err(ev) && perr_view(e) == ev);
                                    }
                return Err(e);
            },
        };
        proof {
            lemma_expr_refs_bound_widen(left, mid_id as nat, self.next_id() as nat);
        }
        let e = Expr::Binary(Binary { left: Box::new(left), op, right: Box::new(rhs) });
        self.parse_binop_more(lexer, e, min_prec)
    }

    /// A run of prefix operators applied right-to-left onto one call
    /// expression, exactly as `sp_p_unary` states.
    #[verifier::rlimit(90)]
    #[verifier::spinoff_prover]
    fn parse_unary(&mut self, lexer: &mut Lexer) -> (r: ParseResult<Expr>)
        requires
            old(lexer).wf(),
        ensures
            final(lexer).wf(),
            final(lexer).toks() == old(lexer).toks(),
            old(lexer).pos() <= final(lexer).pos(),
            final(self).depth() == old(self).depth(),
            old(self).next_id() <= final(self).next_id(),
            (r matches Ok(e) ==> final(lexer).pos() > old(lexer).pos() && expr_refs_bound(
                e,
                final(self).next_id() as nat,
            )),
            ({
                let (p2, n2, r2) = sp_p_unary(
                    old(lexer).toks_v(),
                    old(lexer).pos(),
                    old(self).next_id() as int,
                );
                final(lexer).pos() == p2 && final(self).next_id() as int == n2 && match (
                    r,
                    r2,
                ) {
                    (Ok(e), Ok(ev)) => expr_view(e) == ev,
                    (Err(e), Err(ev)) => perr_view(e) == ev,
                    _ => false,
                }
            }),
        decreases lexer.toks().len() - lexer.pos(), 3nat,
    {
        proof {
            reveal(sp_p_unary);
        }
        let op = match peek_unary_operator(lexer) {
            Some(op) => op,
            None => {
                proof {
                    reveal(sp_p_unary);
                }
                return self.parse_call(lexer);
            },
        };
        lexer.next();
        let inner = match self.parse_unary(lexer) {
            Ok(e) => e,
            Err(e) => {
                proof {
                    reveal(sp_p_unary);
                }
                return Err(e);
            },
        };
        proof {
            reveal(sp_p_unary);
        }
        Ok(Expr::Unary(Unary { op, right: Box::new(inner) }))
    }

    /// Postfix call sites chained onto one atom, exactly as
    /// `sp_p_call` states.
    #[verifier::rlimit(90)]
    #[verifier::spinoff_prover]
    fn parse_call(&mut self, lexer: &mut Lexer) -> (r: ParseResult<Expr>)
        requires
            old(lexer).wf(),
        ensures
            final(lexer).wf(),
            final(lexer).toks() == old(lexer).toks(),
            old(lexer).pos() <= final(lexer).pos(),
            final(self).depth() == old(self).depth(),
            old(self).next_id() <= final(self).next_id(),
            (r matches Ok(e) ==> final(lexer).pos() > old(lexer).pos() && expr_refs_bound(
                e,
                final(self).next_id() as nat,
            )),
            ({
                let (p2, n2, r2) = sp_p_call(
                    old(lexer).toks_v(),
                    old(lexer).pos(),
                    old(self).next_id() as int,
                );
                final(lexer).pos() == p2 && final(self).next_id() as int == n2 && match (
                    r,
                    r2,
                ) {
                    (Ok(e), Ok(ev)) => expr_view(e) == ev,
                    (Err(e), Err(ev)) => perr_view(e) == ev,
                    _ => false,
                }
            }),
        decreases lexer.toks().len() - lexer.pos(), 2nat,
    {
        proof {
            reveal(sp_p_call);
        }
        let expr = match self.parse_atom(lexer) {
            Ok(e) => e,
            Err(e) => {
                proof {
                    reveal(sp_p_call);
                }
                return Err(e);
            },
        };
        proof {
            reveal(sp_p_call);
        }
        self.parse_call_more(lexer, expr)
    }

    /// Further call sites chained onto an already-parsed callee,
    /// exactly as `sp_p_call_more` states.
    #[verifier::rlimit(90)]
    #[verifier::spinoff_prover]
    fn parse_call_more(&mut self, lexer: &mut Lexer, callee: Expr) -> (r: ParseResult<Expr>)
        requires
            old(lexer).wf(),
            expr_refs_bound(callee, old(self).next_id() as nat),
        ensures
            final(lexer).wf(),
            final(lexer).toks() == old(lexer).toks(),
            old(lexer).pos() <= final(lexer).pos(),
            final(self).depth() == old(self).depth(),
            old(self).next_id() <= final(self).next_id(),
            (r matches Ok(e) ==> expr_refs_bound(e, final(self).next_id() as nat)),
            ({
                let (p2, n2, r2) = sp_p_call_more(
                    old(lexer).toks_v(),
                    old(lexer).pos(),
                    old(self).next_id() as int,
                    expr_view(callee),
                );
                final(lexer).pos() == p2 && final(self).next_id() as int == n2 && match (
                    r,
                    r2,
                ) {
                    (Ok(e), Ok(ev)) => expr_view(e) == ev,
                    (Err(e), Err(ev)) => perr_view(e) == ev,
                    _ => false,
                }
            }),
        decreases lexer.toks().len() - lexer.pos(), 1nat,
    {
        proof {
            reveal(sp_p_call_more);
        }
        let open = match self.expect(lexer, &Token::LeftParen) {
            Ok(_) => true,
            Err(_) => false,
        };
        if !open {
            proof {
                reveal(sp_p_call_more);
            }
            return Ok(callee);
        }
        let e = match self.finish_call(lexer, callee) {
            Ok(e) => e,
            Err(e) => {
                proof {
                    reveal(sp_p_call_more);
                }
                return Err(e);
            },
        };
        proof {
            reveal(sp_p_call_more);
        }
        self.parse_call_more(lexer, e)
    }

    /// One call site after its `(`, exactly as `sp_p_finish` states;
    /// each site is bounded to 255 arguments.
    #[verifier::rlimit(90)]
    #[verifier::spinoff_prover]
    fn finish_call(&mut self, lexer: &mut Lexer, callee: Expr) -> (r: ParseResult<Expr>)
        requires
            old(lexer).wf(),
            expr_refs_bound(callee, old(self).next_id() as nat),
        ensures
            final(lexer).wf(),
            final(lexer).toks() == old(lexer).toks(),
            old(lexer).pos() <= final(lexer).pos(),
            final(self).depth() == old(self).depth(),
            old(self).next_id() <= final(self).next_id(),
            (r matches Ok(e) ==> expr_refs_bound(e, final(self).next_id() as nat)),
            ({
                let (p2, n2, r2) = sp_p_finish(
                    old(lexer).toks_v(),
                    old(lexer).pos(),
                    old(self).next_id() as int,
                    expr_view(callee),
                );
                final(lexer).pos() == p2 && final(self).next_id() as int == n2 && match (
                    r,
                    r2,
                ) {
                    (Ok(e), Ok(ev)) => expr_view(e) == ev,
                    (Err(e), Err(ev)) => perr_view(e) == ev,
                    _ => false,
                }
            }),
        decreases lexer.toks().len() - lexer.pos(), 11nat,
    {
        proof {
            reveal(sp_p_finish);
        }
        let empty = match lexer.peek() {
            Some(Token::RightParen) => true,
            Some(_) => false,
            None => {
                proof {
                    reveal(sp_p_finish);
                }
                return Err(Error::new(None, ParserErrorKind::UnexpectedEof));
            },
        };
        let args = if empty {
            Vec::new()
        } else {
            match self.parse_args(lexer, 0) {
                Ok(a) => a,
                Err(e) => {
                    proof {
                        reveal(sp_p_finish);
                    }
                    return Err(e);
                },
            }
        };
        let paren = match self.expect(lexer, &Token::RightParen) {
            Ok(t) => t,
            Err(e) => {
                proof {
                    reveal(sp_p_finish);
                }
                return Err(e);
            },
        };
        proof {
            lemma_expr_refs_bound_widen(
                callee,
                old(self).next_id() as nat,
                self.next_id() as nat,
            );
            if args@.len() == 0 {
                assert(crate::ast::exprs_refs_bound(args@, self.next_id() as nat));
                assert(exprs_view(args@) =~= Seq::<ExprV>::empty());
            }
        }
        proof {
            reveal(sp_p_finish);
        }
        Ok(Expr::Call(Call { args, callee: Box::new(callee), paren: paren.span }))
    }

    /// The arguments of one call site, exactly as `sp_p_args` states.
    #[verifier::rlimit(100)]
    #[verifier::spinoff_prover]
    fn parse_args(&mut self, lexer: &mut Lexer, count: usize) -> (r: ParseResult<Vec<Expr>>)
        requires
            old(lexer).wf(),
        ensures
            final(lexer).wf(),
            final(lexer).toks() == old(lexer).toks(),
            old(lexer).pos() <= final(lexer).pos(),
            final(self).depth() == old(self).depth(),
            old(self).next_id() <= final(self).next_id(),
            (r matches Ok(vs) ==> crate::ast::exprs_refs_bound(
                vs@,
                final(self).next_id() as nat,
            )),
            ({
                let (p2, n2, r2) = sp_p_args(
                    old(lexer).toks_v(),
                    old(lexer).pos(),
                    old(self).next_id() as int,
                    count as int,
                );
                final(lexer).pos() == p2 && final(self).next_id() as int == n2 && match (
                    r,
                    r2,
                ) {
                    (Ok(vs), Ok(vv)) => exprs_view(vs@) == vv,
                    (Err(e), Err(ev)) => perr_view(e) == ev,
                    _ => false,
                }
            }),
        decreases lexer.toks().len() - lexer.pos(), 10nat,
    {
        if count >= 255 {
            proof {
                }
            return Err(Error::new(peek_cloned(lexer), ParserErrorKind::TooManyArgs));
        }
        let a = match self.parse_expr(lexer) {
            Ok(e) => e,
            Err(e) => {
                proof {
                        }
                return Err(e);
            },
        };
        let more = match self.expect(lexer, &Token::Comma) {
            Ok(_) => true,
            Err(_) => false,
        };
        if !more {
            let mut vs: Vec<Expr> = Vec::new();
            vs.push(a);
            proof {
                assert(crate::ast::exprs_refs_bound(
                    Seq::<Expr>::empty(),
                    self.next_id() as nat,
                ));
                lemma_exprs_refs_bound_push(Seq::empty(), a, self.next_id() as nat);
                assert(vs@ =~= seq![a]);
                assert(vs@.drop_first() =~= Seq::<Expr>::empty());
                assert(exprs_view(Seq::<Expr>::empty()) =~= Seq::<ExprV>::empty());
                assert(exprs_view(vs@) =~= seq![expr_view(a)]);
            }
            proof {
                    let toksv = old(lexer).toks_v();
                let p0 = old(lexer).pos();
                let n0 = old(self).next_id() as int;
                let c = count as int;
                assert(toksv.len() == old(lexer).toks().len());
                assert(sp_clamp_pos(0, p0, toksv.len() as int) == p0);
                let (pe, ne, re) = sp_p_expr(toksv, p0, n0);
                assert(lexer.pos() == pe);
                assert(self.next_id() as int == ne);
                assert(re matches Ok(av) && av == expr_view(a));
                assert(sp_clamp_pos(p0, pe, toksv.len() as int) == pe);
                assert(sp_expect(toksv, pe, TokenV::Comma).1 is Err);
                            }
            return Ok(vs);
        }
        let ghost mid_id = self.next_id();
        let mut rest = match self.parse_args(lexer, count + 1) {
            Ok(vs) => vs,
            Err(e) => {
                proof {
                        }
                return Err(e);
            },
        };
        let ghost pre_rest = rest@;
        rest.insert(0, a);
        proof {
            lemma_expr_refs_bound_widen(a, mid_id as nat, self.next_id() as nat);
            assert(rest@.subrange(1, rest@.len() as int) =~= pre_rest);
            assert(rest@.drop_first() =~= rest@.subrange(1, rest@.len() as int));
            assert(exprs_view(rest@) =~= seq![expr_view(a)] + exprs_view(rest@.drop_first()));
            lemma_exprs_refs_bound_cons(rest@, self.next_id() as nat);
        }
        Ok(rest)
    }

    /// Parses literals, identifier references, and groupings, exactly
    /// as `sp_p_atom` states.
    #[verifier::rlimit(90)]
    #[verifier::spinoff_prover]
    fn parse_atom(&mut self, lexer: &mut Lexer) -> (r: ParseResult<Expr>)
        requires
            old(lexer).wf(),
        ensures
            final(lexer).wf(),
            final(lexer).toks() == old(lexer).toks(),
            old(lexer).pos() <= final(lexer).pos(),
            final(self).depth() == old(self).depth(),
            old(self).next_id() <= final(self).next_id(),
            (r matches Ok(e) ==> final(lexer).pos() > old(lexer).pos() && expr_refs_bound(
                e,
                final(self).next_id() as nat,
            )),
            ({
                let (p2, n2, r2) = sp_p_atom(
                    old(lexer).toks_v(),
                    old(lexer).pos(),
                    old(self).next_id() as int,
                );
                final(lexer).pos() == p2 && final(self).next_id() as int == n2 && match (
                    r,
                    r2,
                ) {
                    (Ok(e), Ok(ev)) => expr_view(e) == ev,
                    (Err(e), Err(ev)) => perr_view(e) == ev,
                    _ => false,
                }
            }),
        decreases lexer.toks().len() - lexer.pos(), 1nat,
    {
        proof {
            reveal(sp_p_atom);
        }
        let token = match lexer.next() {
            Some(t) => t,
            None => {
                proof {
                    reveal(sp_p_atom);
                }
                return Err(Error::new(None, ParserErrorKind::UnexpectedEof));
            },
        };
        proof {
            reveal(sp_p_atom);
        }
        match token {
            SpannedToken { token: Token::NumLit(l), span: _ } => Ok(
                Expr::Literal(Literal::NumLit(NumLit(l))),
            ),
            SpannedToken { token: Token::StringLit(l), span: _ } => Ok(
                Expr::Literal(Literal::StringLit(StringLit(l))),
            ),
            SpannedToken { token: Token::Identifier(l), span: _ } => Ok(
                self.make_var_expr(l),
            ),
            SpannedToken { token: Token::Nil, span: _ } => Ok(Expr::Literal(Literal::Nil)),
            SpannedToken { token: Token::True, span: _ } => Ok(
                Expr::Literal(Literal::Bool(true)),
            ),
            SpannedToken { token: Token::False, span: _ } => Ok(
                Expr::Literal(Literal::Bool(false)),
            ),
            SpannedToken { token: Token::LeftParen, span: _ } => self.parse_paren_expr(lexer),
            st => Err(Error::new(Some(st), ParserErrorKind::UnexpectedToken)),
        }
    }

    /// Mints a fresh reference for one identifier occurrence. Ids are
    /// dense from zero; at the unreachable top of the counter the last
    /// id is reused rather than overflowing.
    fn make_var_expr(&mut self, ident: Vec<u8>) -> (r: Expr)
        ensures
            final(self).depth() == old(self).depth(),
            old(self).next_id() <= final(self).next_id(),
            expr_refs_bound(r, final(self).next_id() as nat),
            final(self).next_id() as int == sp_mint(old(self).next_id() as int).0,
            expr_view(r) == (ExprV::IdentifierV {
                id: sp_mint(old(self).next_id() as int).1,
                name: ident@,
            }),
    {
        let id = if self.next_var_expr_id < usize::MAX {
            let id = self.next_var_expr_id;
            self.next_var_expr_id = self.next_var_expr_id + 1;
            id
        } else {
            usize::MAX - 1
        };
        Expr::Literal(Literal::Identifier(Reference { id, ident }))
    }

    /// A parenthesised expression, after its `(`, exactly as
    /// `sp_p_paren` states.
    #[verifier::rlimit(90)]
    #[verifier::spinoff_prover]
    fn parse_paren_expr(&mut self, lexer: &mut Lexer) -> (r: ParseResult<Expr>)
        requires
            old(lexer).wf(),
        ensures
            final(lexer).wf(),
            final(lexer).toks() == old(lexer).toks(),
            old(lexer).pos() <= final(lexer).pos(),
            final(self).depth() == old(self).depth(),
            old(self).next_id() <= final(self).next_id(),
            (r matches Ok(e) ==> expr_refs_bound(e, final(self).next_id() as nat)),
            ({
                let (p2, n2, r2) = sp_p_paren(
                    old(lexer).toks_v(),
                    old(lexer).pos(),
                    old(self).next_id() as int,
                );
                final(lexer).pos() == p2 && final(self).next_id() as int == n2 && match (
                    r,
                    r2,
                ) {
                    (Ok(e), Ok(ev)) => expr_view(e) == ev,
                    (Err(e), Err(ev)) => perr_view(e) == ev,
                    _ => false,
                }
            }),
        decreases lexer.toks().len() - lexer.pos(), 7nat,
    {
        proof {
            reveal(sp_p_paren);
        }
        let inner = match self.parse_expr(lexer) {
            Ok(e) => e,
            Err(e) => {
                proof {
                    reveal(sp_p_paren);
                }
                return Err(e);
            },
        };
        if let Err(e) = self.expect(lexer, &Token::RightParen) {
            proof {
                reveal(sp_p_paren);
            }
            return Err(e);
        }
        proof {
            reveal(sp_p_paren);
        }
        Ok(Expr::Grouping(Grouping { expr: Box::new(inner) }))
    }

    /// Consumes the next token when it matches, else reports it without
    /// consuming.
    fn expect(&mut self, lexer: &mut Lexer, expected: &Token) -> (r: ParseResult<
        SpannedToken,
    >)
        requires
            old(lexer).wf(),
        ensures
            final(lexer).wf(),
            final(lexer).toks() == old(lexer).toks(),
            *final(self) == *old(self),
            (r matches Ok(_) ==> final(lexer).pos() == old(lexer).pos() + 1 && old(
                lexer,
            ).pos() < old(lexer).toks().len()),
            (r matches Err(_) ==> final(lexer).pos() == old(lexer).pos()),
            ({
                let (p2, r2) = sp_expect(old(lexer).toks_v(), old(lexer).pos(), expected@);
                final(lexer).pos() == p2 && match (r, r2) {
                    (Ok(t), Ok(tv)) => t@ == tv,
                    (Err(e), Err(ev)) => perr_view(e) == ev,
                    _ => false,
                }
            }),
    {
        let matches_next = match lexer.peek() {
            Some(t) => tok_eq(t, expected),
            None => {
                return Err(Error::new(None, ParserErrorKind::UnexpectedEof));
            },
        };
        if matches_next {
            match lexer.next() {
                Some(t) => Ok(t),
                None => Err(Error::new(None, ParserErrorKind::UnexpectedEof)),
            }
        } else {
            Err(Error::new(peek_cloned(lexer), ParserErrorKind::UnexpectedToken))
        }
    }

    /// Reports the next token unless it matches; never consumes.
    fn check(&mut self, lexer: &mut Lexer, expected: &Token) -> (r: ParseResult<
        SpannedToken,
    >)
        requires
            old(lexer).wf(),
        ensures
            final(lexer).wf(),
            final(lexer).toks() == old(lexer).toks(),
            final(lexer).pos() == old(lexer).pos(),
            *final(self) == *old(self),
            (r matches Ok(_) ==> old(lexer).pos() < old(lexer).toks().len()),
            ({
                let toksv = old(lexer).toks_v();
                let p = old(lexer).pos();
                match r {
                    Ok(t) => p < toksv.len() && toksv[p].token == expected@ && t@ == toksv[p],
                    Err(e) => (p >= toksv.len() ==> perr_view(e) == sp_eof_err()) && (p
                        < toksv.len() ==> toksv[p].token != expected@ && perr_view(e)
                        == (SpecPErr {
                        token: Some(toksv[p]),
                        kind: ParserErrorKind::UnexpectedToken,
                    })),
                }
            }),
    {
        let matches_next = match lexer.peek() {
            Some(t) => tok_eq(t, expected),
            None => {
                return Err(Error::new(None, ParserErrorKind::UnexpectedEof));
            },
        };
        if matches_next {
            match peek_cloned(lexer) {
                Some(t) => Ok(t),
                None => Err(Error::new(None, ParserErrorKind::UnexpectedEof)),
            }
        } else {
            Err(Error::new(peek_cloned(lexer), ParserErrorKind::UnexpectedToken))
        }
    }
}


proof fn lemma_exprs_refs_bound_cons(es: Seq<Expr>, n: nat)
    requires
        es.len() >= 1,
        expr_refs_bound(es[0], n),
        crate::ast::exprs_refs_bound(es.subrange(1, es.len() as int), n),
    ensures
        crate::ast::exprs_refs_bound(es, n),
{
    assert(es.drop_first() =~= es.subrange(1, es.len() as int));
}

proof fn lemma_exprs_refs_bound_widen_push(es: Seq<Expr>, e: Expr, n: nat, m: nat)
    requires
        crate::ast::exprs_refs_bound(es, n),
        expr_refs_bound(e, m),
        n <= m,
    ensures
        crate::ast::exprs_refs_bound(es.push(e), m),
    decreases es,
{
    crate::ast::lemma_exprs_refs_bound_widen(es, n, m);
    lemma_exprs_refs_bound_push(es, e, m);
}

proof fn lemma_exprs_refs_bound_push(es: Seq<Expr>, e: Expr, n: nat)
    requires
        crate::ast::exprs_refs_bound(es, n),
        expr_refs_bound(e, n),
    ensures
        crate::ast::exprs_refs_bound(es.push(e), n),
    decreases es,
{
    if es.len() == 0 {
        assert(es.push(e)[0] == e);
        assert(es.push(e).drop_first() =~= Seq::<Expr>::empty());
        assert(crate::ast::exprs_refs_bound(Seq::<Expr>::empty(), n));
        assert(crate::ast::exprs_refs_bound(es.push(e), n));
    } else {
        assert(es.push(e)[0] == es[0]);
        assert(es.push(e).drop_first() =~= es.drop_first().push(e));
        lemma_exprs_refs_bound_push(es.drop_first(), e, n);
        assert(expr_refs_bound(es[0], n));
        assert(crate::ast::exprs_refs_bound(es.push(e), n));
    }
}

/// A copy of the token under the cursor, with its span.
fn peek_cloned(lexer: &Lexer) -> (r: Option<SpannedToken>)
    requires
        lexer.wf(),
    ensures
        (r is Some) == (lexer.pos() < lexer.toks().len()),
        (r matches Some(t) ==> t@ == lexer.toks()[lexer.pos()]@),
{
    match lexer.peek_spanned() {
        Some(t) => Some(crate::lexer::clone_spanned(t)),
        None => None,
    }
}

/// The binary operator the next token denotes, if any, exactly as
/// `sp_binop_of` states.
fn peek_binary_operator(lexer: &Lexer) -> (r: Option<BinaryOp>)
    requires
        lexer.wf(),
    ensures
        (r is Some ==> lexer.pos() < lexer.toks().len()),
        r == sp_binop_of(lexer.toks_v(), lexer.pos()),
{
    match lexer.peek() {
        Some(Token::Plus) => Some(BinaryOp::Add),
        Some(Token::Minus) => Some(BinaryOp::Sub),
        Some(Token::Star) => Some(BinaryOp::Mul),
        Some(Token::Slash) => Some(BinaryOp::Div),
        Some(Token::Greater) => Some(BinaryOp::Gt),
        Some(Token::GreaterEqual) => Some(BinaryOp::Gte),
        Some(Token::Less) => Some(BinaryOp::Lt),
        Some(Token::LessEqual) => Some(BinaryOp::Lte),
        Some(Token::EqualEqual) => Some(BinaryOp::Eq),
        Some(Token::BangEqual) => Some(BinaryOp::NotEq),
        Some(Token::Or) => Some(BinaryOp::LogicOr),
        Some(Token::And) => Some(BinaryOp::LogicAnd),
        _ => None,
    }
}

/// The unary operator the next token denotes, if any.
fn peek_unary_operator(lexer: &Lexer) -> (r: Option<UnaryOp>)
    requires
        lexer.wf(),
    ensures
        (r is Some ==> lexer.pos() < lexer.toks().len()),
        ({
            let toksv = lexer.toks_v();
            let p = lexer.pos();
            match r {
                Some(UnaryOp::Negation) => p < toksv.len() && toksv[p].token is Minus,
                Some(UnaryOp::Not) => p < toksv.len() && toksv[p].token is Bang,
                None => p >= toksv.len() || !(toksv[p].token is Minus || toksv[p].token
                    is Bang),
            }
        }),
{
    match lexer.peek() {
        Some(Token::Minus) => Some(UnaryOp::Negation),
        Some(Token::Bang) => Some(UnaryOp::Not),
        _ => None,
    }
}

/// The binding strength of a binary operator; higher binds tighter.
fn prec_of(op: BinaryOp) -> (r: u32)
    ensures
        r <= 5,
        r == sp_prec_of(op),
{
    match op {
        BinaryOp::LogicOr => 0,
        BinaryOp::LogicAnd => 1,
        BinaryOp::Eq => 2,
        BinaryOp::NotEq => 2,
        BinaryOp::Gt => 3,
        BinaryOp::Lt => 3,
        BinaryOp::Gte => 3,
        BinaryOp::Lte => 3,
        BinaryOp::Add => 4,
        BinaryOp::Sub => 4,
        BinaryOp::Mul => 5,
        BinaryOp::Div => 5,
    }
}

} // verus!
