use yarrlox::ast::{Binary, BinaryOp, Expr, Grouping, Literal, NumLit, Reference};
use yarrlox::lexer::Lexer;
use yarrlox::parser::Parser;

fn num_lit(s: &str) -> Expr {
    Expr::Literal(Literal::NumLit(NumLit(s.as_bytes().to_vec())))
}

#[test]
fn parse_expr_with_precedence() {
    let src = "1 >= 2 * 3 + 4".as_bytes().to_vec();
    let mut lexer = Lexer::new(&src);
    let expr = Parser::new().parse_expr(&mut lexer).unwrap();

    let expected = Expr::Binary(Binary {
        left: Box::new(num_lit("1")),
        right: Box::new(Expr::Binary(Binary {
            left: Box::new(Expr::Binary(Binary {
                left: Box::new(num_lit("2")),
                right: Box::new(num_lit("3")),
                op: BinaryOp::Mul,
            })),
            right: Box::new(num_lit("4")),
            op: BinaryOp::Add,
        })),
        op: BinaryOp::Gte,
    });

    assert_eq!(expr, expected);
}

#[test]
fn parse_grouping() {
    let src = "1 + (2 + foo)".as_bytes().to_vec();
    let mut lexer = Lexer::new(&src);
    let expr = Parser::new().parse_expr(&mut lexer).unwrap();

    let expected = Expr::Binary(Binary {
        left: Box::new(num_lit("1")),
        right: Box::new(Expr::Grouping(Grouping {
            expr: Box::new(Expr::Binary(Binary {
                left: Box::new(num_lit("2")),
                right: Box::new(Expr::Literal(Literal::Identifier(Reference {
                    ident: "foo".as_bytes().to_vec(),
                    id: 0,
                }))),
                op: BinaryOp::Add,
            })),
        })),
        op: BinaryOp::Add,
    });

    assert_eq!(expr, expected);
}
