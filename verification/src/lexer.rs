//! The lexer.
//!
//! Turns source bytes into spanned tokens, exactly as `sp_lex` states:
//! whitespace and comments are skipped, an unterminated block comment
//! becomes a distinguished token consuming the rest of the input, an
//! unterminated or ill-escaped string swallows the rest and ends the
//! stream (so the parser surfaces it as an unexpected end of file),
//! any other byte matching no rule becomes a one-byte `InvalidToken`,
//! and the longest match wins for operators, numbers (one optional
//! fraction with digits on both sides) and identifiers, with exact
//! keyword matches taking precedence over identifiers.

use vstd::prelude::*;

use crate::token::{Span, SpannedToken, SpannedTokenV, Token, TokenV};

verus! {

pub open spec fn sp_is_ws(b: u8) -> bool {
    b == 32 || b == 10 || b == 9 || b == 12
}

pub open spec fn sp_is_digit_b(b: u8) -> bool {
    48 <= b <= 57
}

pub open spec fn sp_is_alpha(b: u8) -> bool {
    (65 <= b <= 90) || (97 <= b <= 122) || b == 95
}

pub open spec fn sp_is_alnum(b: u8) -> bool {
    sp_is_alpha(b) || sp_is_digit_b(b)
}

/// First position at or after `i` that ends an identifier.
pub open spec fn sp_ident_end(src: Seq<u8>, i: int) -> int
    decreases src.len() - i,
{
    if i < 0 || i >= src.len() || !sp_is_alnum(src[i]) {
        i
    } else {
        sp_ident_end(src, i + 1)
    }
}

/// First position at or after `i` that ends a digit run.
pub open spec fn sp_digits_end(src: Seq<u8>, i: int) -> int
    decreases src.len() - i,
{
    if i < 0 || i >= src.len() || !sp_is_digit_b(src[i]) {
        i
    } else {
        sp_digits_end(src, i + 1)
    }
}

/// First position at or after `i` holding a newline, or the end.
pub open spec fn sp_line_end(src: Seq<u8>, i: int) -> int
    decreases src.len() - i,
{
    if i < 0 || i >= src.len() || src[i] == 10 {
        i
    } else {
        sp_line_end(src, i + 1)
    }
}

/// Position just after the closing `*/` at or after `i`, if any.
pub open spec fn sp_block_close(src: Seq<u8>, i: int) -> Option<int>
    decreases src.len() - i,
{
    if i < 0 || i + 1 >= src.len() {
        None
    } else if src[i] == 42 && src[i + 1] == 47 {
        Some(i + 2)
    } else {
        sp_block_close(src, i + 1)
    }
}

/// Position just after the closing quote of a string whose body starts
/// at `i`, if the string is well-formed: a backslash escapes any byte
/// except a newline.
pub open spec fn sp_string_end(src: Seq<u8>, i: int) -> Option<int>
    decreases src.len() - i,
{
    if i < 0 || i >= src.len() {
        None
    } else if src[i] == 34 {
        Some(i + 1)
    } else if src[i] == 92 {
        if i + 1 < src.len() && src[i + 1] != 10 {
            sp_string_end(src, i + 2)
        } else {
            None
        }
    } else {
        sp_string_end(src, i + 1)
    }
}

/// The token a word denotes: a keyword on an exact match, else an
/// identifier.
pub open spec fn sp_keyword(w: Seq<u8>) -> TokenV {
    if w == seq![97u8, 110u8, 100u8] {
        TokenV::And
    } else if w == seq![99u8, 108u8, 97u8, 115u8, 115u8] {
        TokenV::Class
    } else if w == seq![101u8, 108u8, 115u8, 101u8] {
        TokenV::Else
    } else if w == seq![102u8, 97u8, 108u8, 115u8, 101u8] {
        TokenV::False
    } else if w == seq![102u8, 117u8, 110u8] {
        TokenV::Fun
    } else if w == seq![102u8, 111u8, 114u8] {
        TokenV::For
    } else if w == seq![105u8, 102u8] {
        TokenV::If
    } else if w == seq![110u8, 105u8, 108u8] {
        TokenV::Nil
    } else if w == seq![111u8, 114u8] {
        TokenV::Or
    } else if w == seq![112u8, 114u8, 105u8, 110u8, 116u8] {
        TokenV::Print
    } else if w == seq![114u8, 101u8, 116u8, 117u8, 114u8, 110u8] {
        TokenV::Return
    } else if w == seq![115u8, 117u8, 112u8, 101u8, 114u8] {
        TokenV::Super
    } else if w == seq![116u8, 104u8, 105u8, 115u8] {
        TokenV::This
    } else if w == seq![116u8, 114u8, 117u8, 101u8] {
        TokenV::True
    } else if w == seq![118u8, 97u8, 114u8] {
        TokenV::Var
    } else if w == seq![119u8, 104u8, 105u8, 108u8, 101u8] {
        TokenV::While
    } else if w == seq![98u8, 114u8, 101u8, 97u8, 107u8] {
        TokenV::Break
    } else {
        TokenV::Identifier(w)
    }
}

/// Clamps a computed next position into `(pos, len]`, so that every
/// step of `sp_lex` makes progress; the clamp never fires on the
/// positions the scan functions actually produce.
pub open spec fn sp_step(pos: int, next: int, len: int) -> int {
    if next <= pos {
        pos + 1
    } else if next > len {
        len
    } else {
        next
    }
}

pub open spec fn sp_span(a: int, b: int) -> Span {
    Span { start: a as usize, end: b as usize }
}

/// The token stream of `src` from position `pos` on.
pub open spec fn sp_lex(src: Seq<u8>, pos: int) -> Seq<SpannedTokenV>
    decreases src.len() - pos,
{
    let len = src.len() as int;
    if pos < 0 || pos >= len {
        Seq::empty()
    } else {
        let b = src[pos];
        if sp_is_ws(b) {
            sp_lex(src, pos + 1)
        } else if b == 47 {  // `/`
            if pos + 1 < len && src[pos + 1] == 47 {
                sp_lex(src, sp_step(pos, sp_line_end(src, pos + 2), len))
            } else if pos + 1 < len && src[pos + 1] == 42 {
                match sp_block_close(src, pos + 2) {
                    Some(j) => sp_lex(src, sp_step(pos, j, len)),
                    None => seq![
                        SpannedTokenV {
                            token: TokenV::UnterminatedBlockComment,
                            span: sp_span(pos, len),
                        },
                    ],
                }
            } else {
                seq![SpannedTokenV { token: TokenV::Slash, span: sp_span(pos, pos + 1) }]
                    + sp_lex(src, pos + 1)
            }
        } else if b == 33 || b == 61 || b == 60 || b == 62 {  // `! = < >`
            let two = pos + 1 < len && src[pos + 1] == 61;
            let tok = if b == 33 {
                if two {
                    TokenV::BangEqual
                } else {
                    TokenV::Bang
                }
            } else if b == 61 {
                if two {
                    TokenV::EqualEqual
                } else {
                    TokenV::Equal
                }
            } else if b == 60 {
                if two {
                    TokenV::LessEqual
                } else {
                    TokenV::Less
                }
            } else {
                if two {
                    TokenV::GreaterEqual
                } else {
                    TokenV::Greater
                }
            };
            let end = if two {
                pos + 2
            } else {
                pos + 1
            };
            seq![SpannedTokenV { token: tok, span: sp_span(pos, end) }] + sp_lex(src, end)
        } else if b == 40 || b == 41 || b == 123 || b == 125 || b == 44 || b == 46 || b == 45
            || b == 43 || b == 59 || b == 42 {
            let tok = if b == 40 {
                TokenV::LeftParen
            } else if b == 41 {
                TokenV::RightParen
            } else if b == 123 {
                TokenV::LeftBrace
            } else if b == 125 {
                TokenV::RightBrace
            } else if b == 44 {
                TokenV::Comma
            } else if b == 46 {
                TokenV::Dot
            } else if b == 45 {
                TokenV::Minus
            } else if b == 43 {
                TokenV::Plus
            } else if b == 59 {
                TokenV::Semicolon
            } else {
                TokenV::Star
            };
            seq![SpannedTokenV { token: tok, span: sp_span(pos, pos + 1) }] + sp_lex(
                src,
                pos + 1,
            )
        } else if b == 34 {  // `"`
            match sp_string_end(src, pos + 1) {
                Some(j) => seq![
                    SpannedTokenV {
                        token: TokenV::StringLit(src.subrange(pos + 1, j - 1)),
                        span: sp_span(pos, j),
                    },
                ] + sp_lex(src, sp_step(pos, j, len)),
                // An unterminated string extends to the end of the
                // input: the stream ends here, so the parser surfaces
                // it as an unexpected end of file.
                None => Seq::empty(),
            }
        } else if sp_is_digit_b(b) {
            let e1 = sp_digits_end(src, pos);
            let e = if e1 < len && src[e1] == 46 && e1 + 1 < len && sp_is_digit_b(
                src[e1 + 1],
            ) {
                sp_digits_end(src, e1 + 1)
            } else {
                e1
            };
            let e2 = sp_step(pos, e, len);
            seq![
                SpannedTokenV {
                    token: TokenV::NumLit(src.subrange(pos, e2)),
                    span: sp_span(pos, e2),
                },
            ] + sp_lex(src, e2)
        } else if sp_is_alpha(b) {
            let e = sp_step(pos, sp_ident_end(src, pos), len);
            seq![
                SpannedTokenV { token: sp_keyword(src.subrange(pos, e)), span: sp_span(pos, e) },
            ] + sp_lex(src, e)
        } else {
            seq![SpannedTokenV { token: TokenV::InvalidToken, span: sp_span(pos, pos + 1) }]
                + sp_lex(src, pos + 1)
        }
    }
}

/// The deep view of a token vector.
pub open spec fn sp_toks_view(ts: Seq<SpannedToken>) -> Seq<SpannedTokenV> {
    Seq::new(ts.len(), |i: int| ts[i]@)
}

fn scan_ident_end(src: &Vec<u8>, i: usize) -> (r: usize)
    requires
        i <= src@.len(),
    ensures
        r == sp_ident_end(src@, i as int),
        i <= r <= src@.len(),
        i < src@.len() && sp_is_alnum(src@[i as int]) ==> r > i,
    decreases src@.len() - i,
{
    if i < src.len() {
        let b = src[i];
        if (65 <= b && b <= 90) || (97 <= b && b <= 122) || b == 95 || (48 <= b && b <= 57) {
            return scan_ident_end(src, i + 1);
        }
    }
    i
}

fn scan_digits_end(src: &Vec<u8>, i: usize) -> (r: usize)
    requires
        i <= src@.len(),
    ensures
        r == sp_digits_end(src@, i as int),
        i <= r <= src@.len(),
        i < src@.len() && sp_is_digit_b(src@[i as int]) ==> r > i,
    decreases src@.len() - i,
{
    if i < src.len() {
        let b = src[i];
        if 48 <= b && b <= 57 {
            return scan_digits_end(src, i + 1);
        }
    }
    i
}

fn scan_line_end(src: &Vec<u8>, i: usize) -> (r: usize)
    requires
        i <= src@.len(),
    ensures
        r == sp_line_end(src@, i as int),
        i <= r <= src@.len(),
    decreases src@.len() - i,
{
    if i < src.len() && src[i] != 10 {
        return scan_line_end(src, i + 1);
    }
    i
}

fn scan_block_close(src: &Vec<u8>, i: usize) -> (r: Option<usize>)
    requires
        i <= src@.len(),
    ensures
        match r {
            Some(j) => Some(j as int) == sp_block_close(src@, i as int) && i < j <= src@.len(),
            None => sp_block_close(src@, i as int) is None,
        },
    decreases src@.len() - i,
{
    let n = src.len();
    if n == 0 || i >= n - 1 {
        return None;
    }
    if src[i] == 42 && src[i + 1] == 47 {
        return Some(i + 2);
    }
    scan_block_close(src, i + 1)
}

fn scan_string_end(src: &Vec<u8>, i: usize) -> (r: Option<usize>)
    requires
        i <= src@.len(),
    ensures
        match r {
            Some(j) => Some(j as int) == sp_string_end(src@, i as int) && i < j <= src@.len(),
            None => sp_string_end(src@, i as int) is None,
        },
    decreases src@.len() - i,
{
    if i >= src.len() {
        return None;
    }
    let b = src[i];
    if b == 34 {
        Some(i + 1)
    } else if b == 92 {
        if i + 1 < src.len() && src[i + 1] != 10 {
            scan_string_end(src, i + 2)
        } else {
            None
        }
    } else {
        scan_string_end(src, i + 1)
    }
}

/// Copies `src[a..b]` out.
fn copy_range(src: &Vec<u8>, a: usize, b: usize) -> (r: Vec<u8>)
    requires
        a <= b <= src@.len(),
    ensures
        r@ == src@.subrange(a as int, b as int),
{
    let mut r: Vec<u8> = Vec::new();
    let mut i = a;
    while i < b
        invariant
            a <= i <= b <= src@.len(),
            r@ == src@.subrange(a as int, i as int),
        decreases b - i,
    {
        r.push(src[i]);
        i = i + 1;
        proof {
            assert(r@ =~= src@.subrange(a as int, i as int));
        }
    }
    r
}

/// The word's token, matching `sp_keyword`.
fn keyword_token(w: Vec<u8>) -> (r: Token)
    ensures
        r@ == sp_keyword(w@),
{
    let n = w.len();
    if n == 2 {
        if w[0] == 105 && w[1] == 102 {
            proof {
                assert(w@ =~= seq![105u8, 102u8]);
            }
            return Token::If;
        }
        if w[0] == 111 && w[1] == 114 {
            proof {
                assert(w@ =~= seq![111u8, 114u8]);
            }
            return Token::Or;
        }
    } else if n == 3 {
        if w[0] == 97 && w[1] == 110 && w[2] == 100 {
            proof {
                assert(w@ =~= seq![97u8, 110u8, 100u8]);
            }
            return Token::And;
        }
        if w[0] == 102 && w[1] == 117 && w[2] == 110 {
            proof {
                assert(w@ =~= seq![102u8, 117u8, 110u8]);
            }
            return Token::Fun;
        }
        if w[0] == 102 && w[1] == 111 && w[2] == 114 {
            proof {
                assert(w@ =~= seq![102u8, 111u8, 114u8]);
            }
            return Token::For;
        }
        if w[0] == 110 && w[1] == 105 && w[2] == 108 {
            proof {
                assert(w@ =~= seq![110u8, 105u8, 108u8]);
            }
            return Token::Nil;
        }
        if w[0] == 118 && w[1] == 97 && w[2] == 114 {
            proof {
                assert(w@ =~= seq![118u8, 97u8, 114u8]);
            }
            return Token::Var;
        }
    } else if n == 4 {
        if w[0] == 101 && w[1] == 108 && w[2] == 115 && w[3] == 101 {
            proof {
                assert(w@ =~= seq![101u8, 108u8, 115u8, 101u8]);
            }
            return Token::Else;
        }
        if w[0] == 116 && w[1] == 104 && w[2] == 105 && w[3] == 115 {
            proof {
                assert(w@ =~= seq![116u8, 104u8, 105u8, 115u8]);
            }
            return Token::This;
        }
        if w[0] == 116 && w[1] == 114 && w[2] == 117 && w[3] == 101 {
            proof {
                assert(w@ =~= seq![116u8, 114u8, 117u8, 101u8]);
            }
            return Token::True;
        }
    } else if n == 5 {
        if w[0] == 99 && w[1] == 108 && w[2] == 97 && w[3] == 115 && w[4] == 115 {
            proof {
                assert(w@ =~= seq![99u8, 108u8, 97u8, 115u8, 115u8]);
            }
            return Token::Class;
        }
        if w[0] == 102 && w[1] == 97 && w[2] == 108 && w[3] == 115 && w[4] == 101 {
            proof {
                assert(w@ =~= seq![102u8, 97u8, 108u8, 115u8, 101u8]);
            }
            return Token::False;
        }
        if w[0] == 112 && w[1] == 114 && w[2] == 105 && w[3] == 110 && w[4] == 116 {
            proof {
                assert(w@ =~= seq![112u8, 114u8, 105u8, 110u8, 116u8]);
            }
            return Token::Print;
        }
        if w[0] == 115 && w[1] == 117 && w[2] == 112 && w[3] == 101 && w[4] == 114 {
            proof {
                assert(w@ =~= seq![115u8, 117u8, 112u8, 101u8, 114u8]);
            }
            return Token::Super;
        }
        if w[0] == 119 && w[1] == 104 && w[2] == 105 && w[3] == 108 && w[4] == 101 {
            proof {
                assert(w@ =~= seq![119u8, 104u8, 105u8, 108u8, 101u8]);
            }
            return Token::While;
        }
        if w[0] == 98 && w[1] == 114 && w[2] == 101 && w[3] == 97 && w[4] == 107 {
            proof {
                assert(w@ =~= seq![98u8, 114u8, 101u8, 97u8, 107u8]);
            }
            return Token::Break;
        }
    } else if n == 6 {
        if w[0] == 114 && w[1] == 101 && w[2] == 116 && w[3] == 117 && w[4] == 114 && w[5]
            == 110 {
            proof {
                assert(w@ =~= seq![114u8, 101u8, 116u8, 117u8, 114u8, 110u8]);
            }
            return Token::Return;
        }
    }
    Token::Identifier(w)
}

/// Lexes a whole source, matching `sp_lex` from position zero.
pub fn lex(src: &Vec<u8>) -> (r: Vec<SpannedToken>)
    ensures
        sp_toks_view(r@) == sp_lex(src@, 0),
{
    let mut toks: Vec<SpannedToken> = Vec::new();
    let mut pos: usize = 0;
    proof {
        assert(sp_toks_view(toks@) =~= Seq::<SpannedTokenV>::empty());
    }
    while pos < src.len()
        invariant
            pos <= src@.len(),
            sp_lex(src@, 0) == sp_toks_view(toks@) + sp_lex(src@, pos as int),
        decreases src@.len() - pos,
    {
        let ghost pre_toks = toks@;
        let ghost old_pos = pos as int;
        let b = src[pos];
        let len = src.len();
        if b == 32 || b == 10 || b == 9 || b == 12 {
            pos = pos + 1;
        } else if b == 47 {
            if pos + 1 < len && src[pos + 1] == 47 {
                pos = scan_line_end(src, pos + 2);
            } else if pos + 1 < len && src[pos + 1] == 42 {
                match scan_block_close(src, pos + 2) {
                    Some(j) => {
                        pos = j;
                    },
                    None => {
                        toks.push(
                            SpannedToken {
                                token: Token::UnterminatedBlockComment,
                                span: Span { start: pos, end: len },
                            },
                        );
                        proof {
                            lemma_toks_view_push(pre_toks, toks@);
                        }
                        pos = len;
                    },
                }
            } else {
                toks.push(
                    SpannedToken {
                        token: Token::Slash,
                        span: Span { start: pos, end: pos + 1 },
                    },
                );
                proof {
                    lemma_toks_view_push(pre_toks, toks@);
                }
                pos = pos + 1;
            }
        } else if b == 33 || b == 61 || b == 60 || b == 62 {
            let two = pos + 1 < len && src[pos + 1] == 61;
            let tok = if b == 33 {
                if two {
                    Token::BangEqual
                } else {
                    Token::Bang
                }
            } else if b == 61 {
                if two {
                    Token::EqualEqual
                } else {
                    Token::Equal
                }
            } else if b == 60 {
                if two {
                    Token::LessEqual
                } else {
                    Token::Less
                }
            } else {
                if two {
                    Token::GreaterEqual
                } else {
                    Token::Greater
                }
            };
            let end = if two {
                pos + 2
            } else {
                pos + 1
            };
            toks.push(SpannedToken { token: tok, span: Span { start: pos, end } });
            proof {
                lemma_toks_view_push(pre_toks, toks@);
            }
            pos = end;
        } else if b == 40 || b == 41 || b == 123 || b == 125 || b == 44 || b == 46 || b == 45
            || b == 43 || b == 59 || b == 42 {
            let tok = if b == 40 {
                Token::LeftParen
            } else if b == 41 {
                Token::RightParen
            } else if b == 123 {
                Token::LeftBrace
            } else if b == 125 {
                Token::RightBrace
            } else if b == 44 {
                Token::Comma
            } else if b == 46 {
                Token::Dot
            } else if b == 45 {
                Token::Minus
            } else if b == 43 {
                Token::Plus
            } else if b == 59 {
                Token::Semicolon
            } else {
                Token::Star
            };
            toks.push(SpannedToken { token: tok, span: Span { start: pos, end: pos + 1 } });
            proof {
                lemma_toks_view_push(pre_toks, toks@);
            }
            pos = pos + 1;
        } else if b == 34 {
            match scan_string_end(src, pos + 1) {
                Some(j) => {
                    let body = copy_range(src, pos + 1, j - 1);
                    toks.push(
                        SpannedToken {
                            token: Token::StringLit(body),
                            span: Span { start: pos, end: j },
                        },
                    );
                    proof {
                        lemma_toks_view_push(pre_toks, toks@);
                    }
                    pos = j;
                },
                None => {
                    pos = len;
                },
            }
        } else if 48 <= b && b <= 57 {
            let e1 = scan_digits_end(src, pos);
            let e = if e1 < len && src[e1] == 46 && e1 + 1 < len && 48 <= src[e1 + 1]
                && src[e1 + 1] <= 57 {
                scan_digits_end(src, e1 + 1)
            } else {
                e1
            };
            let body = copy_range(src, pos, e);
            toks.push(
                SpannedToken { token: Token::NumLit(body), span: Span { start: pos, end: e } },
            );
            proof {
                lemma_toks_view_push(pre_toks, toks@);
            }
            pos = e;
        } else if (65 <= b && b <= 90) || (97 <= b && b <= 122) || b == 95 {
            let e = scan_ident_end(src, pos);
            let word = copy_range(src, pos, e);
            let tok = keyword_token(word);
            toks.push(SpannedToken { token: tok, span: Span { start: pos, end: e } });
            proof {
                lemma_toks_view_push(pre_toks, toks@);
            }
            pos = e;
        } else {
            toks.push(
                SpannedToken {
                    token: Token::InvalidToken,
                    span: Span { start: pos, end: pos + 1 },
                },
            );
            proof {
                lemma_toks_view_push(pre_toks, toks@);
            }
            pos = pos + 1;
        }
        proof {
            assert(sp_toks_view(toks@) + sp_lex(src@, pos as int) =~= sp_toks_view(pre_toks)
                + sp_lex(src@, old_pos));
        }
    }
    toks
}

proof fn lemma_toks_view_push(pre: Seq<SpannedToken>, post: Seq<SpannedToken>)
    requires
        post == pre.push(post.last()),
        post.len() == pre.len() + 1,
    ensures
        sp_toks_view(post) == sp_toks_view(pre) + seq![post.last()@],
{
    assert(sp_toks_view(post) =~= sp_toks_view(pre) + seq![post.last()@]);
}

/// A cursor over the token stream of one source.
pub struct Lexer {
    toks: Vec<SpannedToken>,
    pos: usize,
}

impl Lexer {
    pub closed spec fn toks(&self) -> Seq<SpannedToken> {
        self.toks@
    }

    pub closed spec fn pos(&self) -> int {
        self.pos as int
    }

    pub open spec fn wf(&self) -> bool {
        0 <= self.pos() <= self.toks().len()
    }

    /// The deep view of the cursor's token stream.
    pub open spec fn toks_v(&self) -> Seq<SpannedTokenV> {
        sp_toks_view(self.toks())
    }

    /// Lexes the whole source up front; the cursor starts at the first
    /// token.
    pub fn new(src: &Vec<u8>) -> (r: Lexer)
        ensures
            r.wf(),
            sp_toks_view(r.toks()) == sp_lex(src@, 0),
            r.pos() == 0,
    {
        Lexer { toks: lex(src), pos: 0 }
    }

    /// The cursor's position in the token stream.
    pub fn position(&self) -> (r: usize)
        ensures
            r == self.pos(),
    {
        self.pos
    }

    /// The next token, without consuming it.
    pub fn peek(&self) -> (r: Option<&Token>)
        requires
            self.wf(),
        ensures
            match r {
                Some(t) => self.pos() < self.toks().len() && *t == self.toks()[self.pos()].token,
                None => self.pos() == self.toks().len(),
            },
    {
        if self.pos < self.toks.len() {
            Some(&self.toks[self.pos].token)
        } else {
            None
        }
    }

    /// The next spanned token, without consuming it.
    pub fn peek_spanned(&self) -> (r: Option<&SpannedToken>)
        requires
            self.wf(),
        ensures
            match r {
                Some(t) => self.pos() < self.toks().len() && *t == self.toks()[self.pos()],
                None => self.pos() == self.toks().len(),
            },
    {
        if self.pos < self.toks.len() {
            Some(&self.toks[self.pos])
        } else {
            None
        }
    }

    /// Consumes and returns the next token.
    pub fn next(&mut self) -> (r: Option<SpannedToken>)
        requires
            old(self).wf(),
        ensures
            final(self).wf(),
            final(self).toks() == old(self).toks(),
            match r {
                Some(t) => old(self).pos() < old(self).toks().len() && t@ == old(self).toks()[
                    old(self).pos()
                ]@ && final(self).pos() == old(self).pos() + 1,
                None => old(self).pos() == old(self).toks().len() && final(self).pos() == old(
                    self,
                ).pos(),
            },
    {
        if self.pos < self.toks.len() {
            let t = clone_spanned(&self.toks[self.pos]);
            self.pos = self.pos + 1;
            Some(t)
        } else {
            None
        }
    }
}

/// Copies a token; the copy has the same view.
pub fn clone_token(t: &Token) -> (r: Token)
    ensures
        r@ == t@,
{
    match t {
        Token::LeftParen => Token::LeftParen,
        Token::RightParen => Token::RightParen,
        Token::LeftBrace => Token::LeftBrace,
        Token::RightBrace => Token::RightBrace,
        Token::Comma => Token::Comma,
        Token::Dot => Token::Dot,
        Token::Minus => Token::Minus,
        Token::Plus => Token::Plus,
        Token::Semicolon => Token::Semicolon,
        Token::Slash => Token::Slash,
        Token::Star => Token::Star,
        Token::Bang => Token::Bang,
        Token::BangEqual => Token::BangEqual,
        Token::Equal => Token::Equal,
        Token::EqualEqual => Token::EqualEqual,
        Token::Greater => Token::Greater,
        Token::GreaterEqual => Token::GreaterEqual,
        Token::Less => Token::Less,
        Token::LessEqual => Token::LessEqual,
        Token::Identifier(s) => Token::Identifier(crate::value::clone_bytes(s)),
        Token::StringLit(s) => Token::StringLit(crate::value::clone_bytes(s)),
        Token::NumLit(s) => Token::NumLit(crate::value::clone_bytes(s)),
        Token::And => Token::And,
        Token::Class => Token::Class,
        Token::Else => Token::Else,
        Token::False => Token::False,
        Token::Fun => Token::Fun,
        Token::For => Token::For,
        Token::If => Token::If,
        Token::Nil => Token::Nil,
        Token::Or => Token::Or,
        Token::Print => Token::Print,
        Token::Return => Token::Return,
        Token::Super => Token::Super,
        Token::This => Token::This,
        Token::True => Token::True,
        Token::Var => Token::Var,
        Token::While => Token::While,
        Token::Break => Token::Break,
        Token::InvalidToken => Token::InvalidToken,
        Token::UnterminatedBlockComment => Token::UnterminatedBlockComment,
    }
}

/// Copies a spanned token; the copy has the same view.
pub fn clone_spanned(t: &SpannedToken) -> (r: SpannedToken)
    ensures
        r@ == t@,
{
    SpannedToken { token: clone_token(&t.token), span: t.span }
}

} // verus!
