use yarrlox::lexer::lex;
use yarrlox::token::Token;
use yarrlox::token::Token::{
    Bang, BangEqual, Dot, Equal, EqualEqual, Greater, GreaterEqual, Less, LessEqual,
    Semicolon, UnterminatedBlockComment, Var,
};

fn toks(src: &str) -> Vec<Token> {
    lex(&src.as_bytes().to_vec())
        .into_iter()
        .map(|t| t.token)
        .collect()
}

fn ident(s: &str) -> Token {
    Token::Identifier(s.as_bytes().to_vec())
}

fn string_lit(s: &str) -> Token {
    Token::StringLit(s.as_bytes().to_vec())
}

fn num_lit(s: &str) -> Token {
    Token::NumLit(s.as_bytes().to_vec())
}

#[test]
fn string_literals() {
    assert_eq!(
        toks(r#"var foo = "asd"; var bar = "dsa";"#),
        vec![
            Var,
            ident("foo"),
            Equal,
            string_lit("asd"),
            Semicolon,
            Var,
            ident("bar"),
            Equal,
            string_lit("dsa"),
            Semicolon,
        ]
    );

    assert_eq!(
        toks(r#"var foo = "👁💃🕺🈯️as  \n\\n \"d\""; var bar = "dsa";"#),
        vec![
            Var,
            ident("foo"),
            Equal,
            string_lit(r#"👁💃🕺🈯️as  \n\\n \"d\""#),
            Semicolon,
            Var,
            ident("bar"),
            Equal,
            string_lit("dsa"),
            Semicolon,
        ]
    );
}

#[test]
fn integers() {
    assert_eq!(toks("324"), vec![num_lit("324")]);
}

#[test]
fn decimals() {
    assert_eq!(toks("324.5"), vec![num_lit("324.5")]);
    assert_eq!(toks("324."), vec![num_lit("324"), Dot]);
    assert_eq!(toks(".5"), vec![Dot, num_lit("5")]);
}

#[test]
fn whitespace() {
    assert_eq!(toks("var var"), vec![Var, Var]);
    assert_eq!(toks("var var"), toks("var    var"));
    assert_eq!(toks("var var"), toks("\n\t\t\nvar  \n\n\t  var "));
}

#[test]
fn ignore_line_comments() {
    assert_eq!(toks("var var // () \n var"), vec![Var, Var, Var]);
}

#[test]
fn ignore_block_comments() {
    assert_eq!(
        toks("var var /* var a * / = 👾🈯️ 5; */ ;"),
        vec![Var, Var, Semicolon]
    );
}

#[test]
fn unterminated_block_comments() {
    assert_eq!(
        toks("var var /* var a = 5;"),
        vec![Var, Var, UnterminatedBlockComment]
    );
}

#[test]
fn unterminated_string_ends_the_stream() {
    assert_eq!(toks("var x = \"abc"), vec![Var, ident("x"), Equal]);
}

#[test]
fn operators_munch_greedily() {
    assert_eq!(
        toks("! != = == < <= > >="),
        vec![
            Bang, BangEqual, Equal, EqualEqual, Less, LessEqual, Greater, GreaterEqual
        ]
    );
}
