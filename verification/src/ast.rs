//! The abstract syntax tree produced by the parser.
//!
//! Every syntactic occurrence of a variable name is a [`Reference`] with a
//! parser-assigned id; ids are dense from zero, so the resolver's output is
//! a table indexed by id rather than a map.

use vstd::prelude::*;

use std::rc::Rc;

use crate::token::Span;

verus! {

/// One syntactic occurrence of a variable name.
#[derive(Clone, Debug, PartialEq, Eq)]
pub struct Reference {
    pub id: usize,
    pub ident: Vec<u8>,
}

#[derive(Clone, Debug, PartialEq, Eq)]
pub struct StringLit(pub Vec<u8>);

#[derive(Clone, Debug, PartialEq, Eq)]
pub struct NumLit(pub Vec<u8>);

#[derive(Debug, PartialEq, Eq)]
pub enum Literal {
    StringLit(StringLit),
    NumLit(NumLit),
    Identifier(Reference),
    Nil,
    Bool(bool),
}

#[derive(Clone, Copy, Debug, PartialEq, Eq, Structural)]
pub enum BinaryOp {
    LogicOr,
    LogicAnd,
    Add,
    Sub,
    Mul,
    Div,
    Gt,
    Lt,
    Gte,
    Lte,
    Eq,
    NotEq,
}

#[derive(Clone, Copy, Debug, PartialEq, Eq, Structural)]
pub enum UnaryOp {
    Negation,
    Not,
}

#[derive(Debug, PartialEq, Eq)]
pub struct Assign {
    pub name: Reference,
    pub value: Box<Expr>,
}

#[derive(Debug, PartialEq, Eq)]
pub struct Binary {
    pub left: Box<Expr>,
    pub op: BinaryOp,
    pub right: Box<Expr>,
}

#[derive(Debug, PartialEq, Eq)]
pub struct Unary {
    pub op: UnaryOp,
    pub right: Box<Expr>,
}

#[derive(Debug, PartialEq, Eq)]
pub struct Grouping {
    pub expr: Box<Expr>,
}

#[derive(Debug, PartialEq, Eq)]
pub struct Call {
    pub callee: Box<Expr>,
    pub paren: Span,
    pub args: Vec<Expr>,
}

#[derive(Debug, PartialEq, Eq)]
pub enum Expr {
    Assign(Assign),
    Binary(Binary),
    Literal(Literal),
    Unary(Unary),
    Grouping(Grouping),
    Call(Call),
}

#[derive(Debug, PartialEq, Eq)]
pub struct Function {
    pub name: Vec<u8>,
    pub params: Rc<Vec<Vec<u8>>>,
    pub body: Rc<Vec<Stmt>>,
}

/// The parameter count of a declared function, read through its
/// shared parameter list.
pub fn function_arity(f: &Function) -> (n: usize)
    ensures
        n == f.params@.len(),
{
    f.params.len()
}

#[derive(Debug, PartialEq, Eq)]
pub enum Stmt {
    Block(Vec<Stmt>),
    Expr(Expr),
    Function(Function),
    If { condition: Expr, then_branch: Box<Stmt>, else_branch: Option<Box<Stmt>> },
    Print(Expr),
    Return(Option<Expr>),
    Var { name: Vec<u8>, initializer: Option<Expr> },
    While { condition: Expr, body: Box<Stmt> },
    Break,
}


/// Structural size of an expression, for termination measures.
pub open spec fn expr_size(e: Expr) -> nat
    decreases e,
{
    match e {
        Expr::Assign(a) => 1 + expr_size(*a.value),
        Expr::Binary(b) => 1 + expr_size(*b.left) + expr_size(*b.right),
        Expr::Literal(_) => 1,
        Expr::Unary(u) => 1 + expr_size(*u.right),
        Expr::Grouping(g) => 1 + expr_size(*g.expr),
        Expr::Call(c) => 1 + expr_size(*c.callee) + exprs_size(c.args@),
    }
}

pub open spec fn exprs_size(es: Seq<Expr>) -> nat
    decreases es,
{
    if es.len() == 0 {
        0
    } else {
        1 + expr_size(es[0]) + exprs_size(es.drop_first())
    }
}

/// Structural size of a statement, for termination measures.
pub open spec fn stmt_size(s: Stmt) -> nat
    decreases s,
{
    match s {
        Stmt::Block(ss) => 1 + stmts_size(ss@),
        Stmt::Expr(e) => 1 + expr_size(e),
        Stmt::Function(f) => 1 + stmts_size(f.body@),
        Stmt::If { condition, then_branch, else_branch } => 1 + expr_size(condition)
            + stmt_size(*then_branch) + (match else_branch {
            Some(e) => stmt_size(*e),
            None => 0,
        }),
        Stmt::Print(e) => 1 + expr_size(e),
        Stmt::Return(e) => 1 + (match e {
            Some(e) => expr_size(e),
            None => 0,
        }),
        Stmt::Var { name, initializer } => 1 + (match initializer {
            Some(e) => expr_size(e),
            None => 0,
        }),
        Stmt::While { condition, body } => 1 + expr_size(condition) + stmt_size(*body),
        Stmt::Break => 1,
    }
}

pub open spec fn stmts_size(ss: Seq<Stmt>) -> nat
    decreases ss,
{
    if ss.len() == 0 {
        0
    } else {
        1 + stmt_size(ss[0]) + stmts_size(ss.drop_first())
    }
}


/// The mathematical form of an expression: name payloads as byte
/// sequences, children unboxed into ghost structure.
pub enum ExprV {
    Assign { id: usize, name: Seq<u8>, value: Box<ExprV> },
    Binary { left: Box<ExprV>, op: BinaryOp, right: Box<ExprV> },
    StringLitV(Seq<u8>),
    NumLitV(Seq<u8>),
    IdentifierV { id: usize, name: Seq<u8> },
    NilV,
    BoolV(bool),
    Unary { op: UnaryOp, right: Box<ExprV> },
    Grouping(Box<ExprV>),
    Call { callee: Box<ExprV>, paren: Span, args: Seq<ExprV> },
}

/// The mathematical form of a statement.
pub enum StmtV {
    Block(Seq<StmtV>),
    Expr(ExprV),
    Function { name: Seq<u8>, params: Seq<Seq<u8>>, body: Seq<StmtV> },
    If { condition: ExprV, then_branch: Box<StmtV>, else_branch: Option<Box<StmtV>> },
    Print(ExprV),
    Return(Option<ExprV>),
    Var { name: Seq<u8>, initializer: Option<ExprV> },
    While { condition: ExprV, body: Box<StmtV> },
    Break,
}

/// The deep view of an expression.
pub open spec fn expr_view(e: Expr) -> ExprV
    decreases e,
{
    match e {
        Expr::Assign(a) => ExprV::Assign {
            id: a.name.id,
            name: a.name.ident@,
            value: Box::new(expr_view(*a.value)),
        },
        Expr::Binary(b) => ExprV::Binary {
            left: Box::new(expr_view(*b.left)),
            op: b.op,
            right: Box::new(expr_view(*b.right)),
        },
        Expr::Literal(l) => match l {
            Literal::StringLit(sl) => ExprV::StringLitV(sl.0@),
            Literal::NumLit(nl) => ExprV::NumLitV(nl.0@),
            Literal::Identifier(r) => ExprV::IdentifierV { id: r.id, name: r.ident@ },
            Literal::Nil => ExprV::NilV,
            Literal::Bool(b) => ExprV::BoolV(b),
        },
        Expr::Unary(u) => ExprV::Unary { op: u.op, right: Box::new(expr_view(*u.right)) },
        Expr::Grouping(g) => ExprV::Grouping(Box::new(expr_view(*g.expr))),
        Expr::Call(c) => ExprV::Call {
            callee: Box::new(expr_view(*c.callee)),
            paren: c.paren,
            args: exprs_view(c.args@),
        },
    }
}

pub open spec fn exprs_view(es: Seq<Expr>) -> Seq<ExprV>
    decreases es,
{
    if es.len() == 0 {
        Seq::empty()
    } else {
        seq![expr_view(es[0])] + exprs_view(es.drop_first())
    }
}

/// The deep view of a parameter-name list.
pub open spec fn names_view(ns: Seq<Vec<u8>>) -> Seq<Seq<u8>>
    decreases ns,
{
    if ns.len() == 0 {
        Seq::empty()
    } else {
        seq![ns[0]@] + names_view(ns.drop_first())
    }
}

/// The deep view of a statement.
pub open spec fn stmt_view(s: Stmt) -> StmtV
    decreases s,
{
    match s {
        Stmt::Block(ss) => StmtV::Block(stmts_view(ss@)),
        Stmt::Expr(e) => StmtV::Expr(expr_view(e)),
        Stmt::Function(f) => StmtV::Function {
            name: f.name@,
            params: names_view(f.params@),
            body: stmts_view(f.body@),
        },
        Stmt::If { condition, then_branch, else_branch } => StmtV::If {
            condition: expr_view(condition),
            then_branch: Box::new(stmt_view(*then_branch)),
            else_branch: match else_branch {
                Some(e) => Some(Box::new(stmt_view(*e))),
                None => None,
            },
        },
        Stmt::Print(e) => StmtV::Print(expr_view(e)),
        Stmt::Return(e) => StmtV::Return(
            match e {
                Some(e) => Some(expr_view(e)),
                None => None,
            },
        ),
        Stmt::Var { name, initializer } => StmtV::Var {
            name: name@,
            initializer: match initializer {
                Some(e) => Some(expr_view(e)),
                None => None,
            },
        },
        Stmt::While { condition, body } => StmtV::While {
            condition: expr_view(condition),
            body: Box::new(stmt_view(*body)),
        },
        Stmt::Break => StmtV::Break,
    }
}

pub open spec fn stmts_view(ss: Seq<Stmt>) -> Seq<StmtV>
    decreases ss,
{
    if ss.len() == 0 {
        Seq::empty()
    } else {
        seq![stmt_view(ss[0])] + stmts_view(ss.drop_first())
    }
}

/// Every reference id in the expression is below `n`.
pub open spec fn expr_refs_bound(e: Expr, n: nat) -> bool
    decreases e,
{
    match e {
        Expr::Assign(a) => a.name.id < n && expr_refs_bound(*a.value, n),
        Expr::Binary(b) => expr_refs_bound(*b.left, n) && expr_refs_bound(*b.right, n),
        Expr::Literal(l) => match l {
            Literal::Identifier(r) => r.id < n,
            _ => true,
        },
        Expr::Unary(u) => expr_refs_bound(*u.right, n),
        Expr::Grouping(g) => expr_refs_bound(*g.expr, n),
        Expr::Call(c) => expr_refs_bound(*c.callee, n) && exprs_refs_bound(c.args@, n),
    }
}

pub open spec fn exprs_refs_bound(es: Seq<Expr>, n: nat) -> bool
    decreases es,
{
    if es.len() == 0 {
        true
    } else {
        expr_refs_bound(es[0], n) && exprs_refs_bound(es.drop_first(), n)
    }
}

/// Every reference id in the statement is below `n`.
pub open spec fn stmt_refs_bound(s: Stmt, n: nat) -> bool
    decreases s,
{
    match s {
        Stmt::Block(ss) => stmts_refs_bound(ss@, n),
        Stmt::Expr(e) => expr_refs_bound(e, n),
        Stmt::Function(f) => stmts_refs_bound(f.body@, n),
        Stmt::If { condition, then_branch, else_branch } => expr_refs_bound(condition, n)
            && stmt_refs_bound(*then_branch, n) && match else_branch {
            Some(e) => stmt_refs_bound(*e, n),
            None => true,
        },
        Stmt::Print(e) => expr_refs_bound(e, n),
        Stmt::Return(e) => match e {
            Some(e) => expr_refs_bound(e, n),
            None => true,
        },
        Stmt::Var { name, initializer } => match initializer {
            Some(e) => expr_refs_bound(e, n),
            None => true,
        },
        Stmt::While { condition, body } => expr_refs_bound(condition, n) && stmt_refs_bound(
            *body,
            n,
        ),
        Stmt::Break => true,
    }
}

pub open spec fn stmts_refs_bound(ss: Seq<Stmt>, n: nat) -> bool
    decreases ss,
{
    if ss.len() == 0 {
        true
    } else {
        stmt_refs_bound(ss[0], n) && stmts_refs_bound(ss.drop_first(), n)
    }
}

/// A larger bound still covers all reference ids.
pub proof fn lemma_stmts_refs_bound_widen(ss: Seq<Stmt>, n: nat, m: nat)
    requires
        stmts_refs_bound(ss, n),
        n <= m,
    ensures
        stmts_refs_bound(ss, m),
    decreases ss,
{
    if ss.len() > 0 {
        lemma_stmt_refs_bound_widen(ss[0], n, m);
        lemma_stmts_refs_bound_widen(ss.drop_first(), n, m);
    }
}

pub proof fn lemma_stmt_refs_bound_widen(s: Stmt, n: nat, m: nat)
    requires
        stmt_refs_bound(s, n),
        n <= m,
    ensures
        stmt_refs_bound(s, m),
    decreases s,
{
    match s {
        Stmt::Block(ss) => lemma_stmts_refs_bound_widen(ss@, n, m),
        Stmt::Expr(e) => lemma_expr_refs_bound_widen(e, n, m),
        Stmt::Function(f) => lemma_stmts_refs_bound_widen(f.body@, n, m),
        Stmt::If { condition, then_branch, else_branch } => {
            lemma_expr_refs_bound_widen(condition, n, m);
            lemma_stmt_refs_bound_widen(*then_branch, n, m);
            match else_branch {
                Some(e) => lemma_stmt_refs_bound_widen(*e, n, m),
                None => {},
            }
        },
        Stmt::Print(e) => lemma_expr_refs_bound_widen(e, n, m),
        Stmt::Return(e) => match e {
            Some(e) => lemma_expr_refs_bound_widen(e, n, m),
            None => {},
        },
        Stmt::Var { name, initializer } => match initializer {
            Some(e) => lemma_expr_refs_bound_widen(e, n, m),
            None => {},
        },
        Stmt::While { condition, body } => {
            lemma_expr_refs_bound_widen(condition, n, m);
            lemma_stmt_refs_bound_widen(*body, n, m);
        },
        Stmt::Break => {},
    }
}

pub proof fn lemma_expr_refs_bound_widen(e: Expr, n: nat, m: nat)
    requires
        expr_refs_bound(e, n),
        n <= m,
    ensures
        expr_refs_bound(e, m),
    decreases e,
{
    match e {
        Expr::Assign(a) => lemma_expr_refs_bound_widen(*a.value, n, m),
        Expr::Binary(b) => {
            lemma_expr_refs_bound_widen(*b.left, n, m);
            lemma_expr_refs_bound_widen(*b.right, n, m);
        },
        Expr::Literal(_) => {},
        Expr::Unary(u) => lemma_expr_refs_bound_widen(*u.right, n, m),
        Expr::Grouping(g) => lemma_expr_refs_bound_widen(*g.expr, n, m),
        Expr::Call(c) => {
            lemma_expr_refs_bound_widen(*c.callee, n, m);
            lemma_exprs_refs_bound_widen(c.args@, n, m);
        },
    }
}

pub proof fn lemma_exprs_refs_bound_widen(es: Seq<Expr>, n: nat, m: nat)
    requires
        exprs_refs_bound(es, n),
        n <= m,
    ensures
        exprs_refs_bound(es, m),
    decreases es,
{
    if es.len() > 0 {
        lemma_expr_refs_bound_widen(es[0], n, m);
        lemma_exprs_refs_bound_widen(es.drop_first(), n, m);
    }
}

/// `break` statements appear only lexically inside a loop body.
/// Function declarations do not reset the flag, matching the parser,
/// which tracks loop depth across a whole declaration.
pub open spec fn stmt_break_ok(s: Stmt, in_loop: bool) -> bool
    decreases s,
{
    match s {
        Stmt::Block(ss) => stmts_break_ok(ss@, in_loop),
        Stmt::Expr(_) => true,
        Stmt::Function(f) => stmts_break_ok(f.body@, in_loop),
        Stmt::If { condition, then_branch, else_branch } => stmt_break_ok(*then_branch, in_loop)
            && match else_branch {
            Some(e) => stmt_break_ok(*e, in_loop),
            None => true,
        },
        Stmt::Print(_) => true,
        Stmt::Return(_) => true,
        Stmt::Var { .. } => true,
        Stmt::While { condition, body } => stmt_break_ok(*body, true),
        Stmt::Break => in_loop,
    }
}

pub open spec fn stmts_break_ok(ss: Seq<Stmt>, in_loop: bool) -> bool
    decreases ss,
{
    if ss.len() == 0 {
        true
    } else {
        stmt_break_ok(ss[0], in_loop) && stmts_break_ok(ss.drop_first(), in_loop)
    }
}


/// A statement appended to a bounded list keeps the list bounded.
pub proof fn lemma_stmts_refs_bound_push(ss: Seq<Stmt>, s: Stmt, n: nat)
    requires
        stmts_refs_bound(ss, n),
        stmt_refs_bound(s, n),
    ensures
        stmts_refs_bound(ss.push(s), n),
    decreases ss,
{
    if ss.len() == 0 {
        assert(ss.push(s)[0] == s);
        assert(ss.push(s).drop_first() =~= Seq::<Stmt>::empty());
        assert(stmts_refs_bound(Seq::<Stmt>::empty(), n));
        assert(stmts_refs_bound(ss.push(s), n));
    } else {
        assert(ss.push(s)[0] == ss[0]);
        assert(ss.push(s).drop_first() =~= ss.drop_first().push(s));
        lemma_stmts_refs_bound_push(ss.drop_first(), s, n);
        assert(stmt_refs_bound(ss[0], n));
        assert(stmts_refs_bound(ss.push(s), n));
    }
}

/// A break-disciplined statement appended keeps the list disciplined.
pub proof fn lemma_stmts_break_ok_push(ss: Seq<Stmt>, s: Stmt, in_loop: bool)
    requires
        stmts_break_ok(ss, in_loop),
        stmt_break_ok(s, in_loop),
    ensures
        stmts_break_ok(ss.push(s), in_loop),
    decreases ss,
{
    if ss.len() == 0 {
        assert(ss.push(s)[0] == s);
        assert(ss.push(s).drop_first() =~= Seq::<Stmt>::empty());
        assert(stmts_break_ok(Seq::<Stmt>::empty(), in_loop));
        assert(stmts_break_ok(ss.push(s), in_loop));
    } else {
        assert(ss.push(s)[0] == ss[0]);
        assert(ss.push(s).drop_first() =~= ss.drop_first().push(s));
        lemma_stmts_break_ok_push(ss.drop_first(), s, in_loop);
        assert(stmt_break_ok(ss[0], in_loop));
        assert(stmts_break_ok(ss.push(s), in_loop));
    }
}

} // verus!
