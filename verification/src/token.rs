//! Tokens of the language, with their source spans.

use vstd::prelude::*;

verus! {

/// A half-open byte range into the source.
#[derive(Clone, Copy, Debug, PartialEq, Eq, Structural)]
pub struct Span {
    pub start: usize,
    pub end: usize,
}

/// A lexical token. Identifier, string and number tokens carry the
/// relevant bytes of their lexeme (for strings, without the quotes).
#[derive(Clone, Debug, PartialEq, Eq)]
pub enum Token {
    LeftParen,
    RightParen,
    LeftBrace,
    RightBrace,
    Comma,
    Dot,
    Minus,
    Plus,
    Semicolon,
    Slash,
    Star,
    Bang,
    BangEqual,
    Equal,
    EqualEqual,
    Greater,
    GreaterEqual,
    Less,
    LessEqual,
    Identifier(Vec<u8>),
    StringLit(Vec<u8>),
    NumLit(Vec<u8>),
    And,
    Class,
    Else,
    False,
    Fun,
    For,
    If,
    Nil,
    Or,
    Print,
    Return,
    Super,
    This,
    True,
    Var,
    While,
    Break,
    InvalidToken,
    UnterminatedBlockComment,
}

/// The mathematical form of a token: lexeme payloads as byte sequences.
pub enum TokenV {
    LeftParen,
    RightParen,
    LeftBrace,
    RightBrace,
    Comma,
    Dot,
    Minus,
    Plus,
    Semicolon,
    Slash,
    Star,
    Bang,
    BangEqual,
    Equal,
    EqualEqual,
    Greater,
    GreaterEqual,
    Less,
    LessEqual,
    Identifier(Seq<u8>),
    StringLit(Seq<u8>),
    NumLit(Seq<u8>),
    And,
    Class,
    Else,
    False,
    Fun,
    For,
    If,
    Nil,
    Or,
    Print,
    Return,
    Super,
    This,
    True,
    Var,
    While,
    Break,
    InvalidToken,
    UnterminatedBlockComment,
}

impl View for Token {
    type V = TokenV;

    open spec fn view(&self) -> TokenV {
        match self {
            Token::LeftParen => TokenV::LeftParen,
            Token::RightParen => TokenV::RightParen,
            Token::LeftBrace => TokenV::LeftBrace,
            Token::RightBrace => TokenV::RightBrace,
            Token::Comma => TokenV::Comma,
            Token::Dot => TokenV::Dot,
            Token::Minus => TokenV::Minus,
            Token::Plus => TokenV::Plus,
            Token::Semicolon => TokenV::Semicolon,
            Token::Slash => TokenV::Slash,
            Token::Star => TokenV::Star,
            Token::Bang => TokenV::Bang,
            Token::BangEqual => TokenV::BangEqual,
            Token::Equal => TokenV::Equal,
            Token::EqualEqual => TokenV::EqualEqual,
            Token::Greater => TokenV::Greater,
            Token::GreaterEqual => TokenV::GreaterEqual,
            Token::Less => TokenV::Less,
            Token::LessEqual => TokenV::LessEqual,
            Token::Identifier(s) => TokenV::Identifier(s@),
            Token::StringLit(s) => TokenV::StringLit(s@),
            Token::NumLit(s) => TokenV::NumLit(s@),
            Token::And => TokenV::And,
            Token::Class => TokenV::Class,
            Token::Else => TokenV::Else,
            Token::False => TokenV::False,
            Token::Fun => TokenV::Fun,
            Token::For => TokenV::For,
            Token::If => TokenV::If,
            Token::Nil => TokenV::Nil,
            Token::Or => TokenV::Or,
            Token::Print => TokenV::Print,
            Token::Return => TokenV::Return,
            Token::Super => TokenV::Super,
            Token::This => TokenV::This,
            Token::True => TokenV::True,
            Token::Var => TokenV::Var,
            Token::While => TokenV::While,
            Token::Break => TokenV::Break,
            Token::InvalidToken => TokenV::InvalidToken,
            Token::UnterminatedBlockComment => TokenV::UnterminatedBlockComment,
        }
    }
}

/// A token together with the byte span it was read from.
#[derive(Clone, Debug, PartialEq, Eq)]
pub struct SpannedToken {
    pub token: Token,
    pub span: Span,
}

/// The mathematical form of a spanned token.
pub struct SpannedTokenV {
    pub token: TokenV,
    pub span: Span,
}

impl View for SpannedToken {
    type V = SpannedTokenV;

    open spec fn view(&self) -> SpannedTokenV {
        SpannedTokenV { token: self.token@, span: self.span }
    }
}

/// Byte-sequence equality, decided by a scan.
pub fn bytes_eq(a: &Vec<u8>, b: &Vec<u8>) -> (r: bool)
    ensures
        r == (a@ == b@),
{
    if a.len() != b.len() {
        return false;
    }
    let mut i: usize = 0;
    while i < a.len()
        invariant
            0 <= i <= a@.len(),
            a@.len() == b@.len(),
            forall|j: int| 0 <= j < i ==> a@[j] == b@[j],
        decreases a@.len() - i,
    {
        if a[i] != b[i] {
            return false;
        }
        i = i + 1;
    }
    proof {
        assert(a@ =~= b@);
    }
    true
}

/// Whether two tokens are the same token with the same payload.
pub fn tok_eq(a: &Token, b: &Token) -> (r: bool)
    ensures
        r == (a@ == b@),
{
    match (a, b) {
        (Token::LeftParen, Token::LeftParen) => true,
        (Token::RightParen, Token::RightParen) => true,
        (Token::LeftBrace, Token::LeftBrace) => true,
        (Token::RightBrace, Token::RightBrace) => true,
        (Token::Comma, Token::Comma) => true,
        (Token::Dot, Token::Dot) => true,
        (Token::Minus, Token::Minus) => true,
        (Token::Plus, Token::Plus) => true,
        (Token::Semicolon, Token::Semicolon) => true,
        (Token::Slash, Token::Slash) => true,
        (Token::Star, Token::Star) => true,
        (Token::Bang, Token::Bang) => true,
        (Token::BangEqual, Token::BangEqual) => true,
        (Token::Equal, Token::Equal) => true,
        (Token::EqualEqual, Token::EqualEqual) => true,
        (Token::Greater, Token::Greater) => true,
        (Token::GreaterEqual, Token::GreaterEqual) => true,
        (Token::Less, Token::Less) => true,
        (Token::LessEqual, Token::LessEqual) => true,
        (Token::Identifier(x), Token::Identifier(y)) => bytes_eq(x, y),
        (Token::StringLit(x), Token::StringLit(y)) => bytes_eq(x, y),
        (Token::NumLit(x), Token::NumLit(y)) => bytes_eq(x, y),
        (Token::And, Token::And) => true,
        (Token::Class, Token::Class) => true,
        (Token::Else, Token::Else) => true,
        (Token::False, Token::False) => true,
        (Token::Fun, Token::Fun) => true,
        (Token::For, Token::For) => true,
        (Token::If, Token::If) => true,
        (Token::Nil, Token::Nil) => true,
        (Token::Or, Token::Or) => true,
        (Token::Print, Token::Print) => true,
        (Token::Return, Token::Return) => true,
        (Token::Super, Token::Super) => true,
        (Token::This, Token::This) => true,
        (Token::True, Token::True) => true,
        (Token::Var, Token::Var) => true,
        (Token::While, Token::While) => true,
        (Token::Break, Token::Break) => true,
        (Token::InvalidToken, Token::InvalidToken) => true,
        (Token::UnterminatedBlockComment, Token::UnterminatedBlockComment) => true,
        _ => false,
    }
}

} // verus!
