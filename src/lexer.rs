use vstd::prelude::*;
use crate::ast::DslError;

verus! {

/// The kinds of token of the description language.
#[derive(PartialEq, Eq, Structural, Clone, Copy, Debug)]
pub enum TokenKind {
    Ident,
    Underscore,
    Colon,
    Comma,
    Plus,
    Pipe,
    Equals,
    Star,
    LBracket,
    RBracket,
    LBrace,
    RBrace,
}

/// A token and the byte range `start..end` of its text.
#[derive(PartialEq, Eq, Structural, Clone, Copy, Debug)]
pub struct Token {
    pub kind: TokenKind,
    pub start: usize,
    pub end: usize,
}

/// Space, tab, line feed, carriage return.
pub open spec fn is_space(c: u8) -> bool {
    c == 32u8 || c == 9u8 || c == 10u8 || c == 13u8
}

/// `A`-`Z`, `a`-`z`, `_`.
pub open spec fn is_ident_start(c: u8) -> bool {
    (65u8 <= c <= 90u8) || (97u8 <= c <= 122u8) || c == 95u8
}

/// An identifier byte: a start byte or `0`-`9`.
pub open spec fn is_ident_char(c: u8) -> bool {
    is_ident_start(c) || (48u8 <= c <= 57u8)
}

/// The token that the single byte `c` forms, if any: `:` `,` `+` `|` `=`
/// `*` `[` `]` `{` `}`, tested in that order.
pub open spec fn punct_kind(c: u8) -> Option<TokenKind> {
    if c == 58u8 {
        Some(TokenKind::Colon)
    } else if c == 44u8 {
        Some(TokenKind::Comma)
    } else if c == 43u8 {
        Some(TokenKind::Plus)
    } else if c == 124u8 {
        Some(TokenKind::Pipe)
    } else if c == 61u8 {
        Some(TokenKind::Equals)
    } else if c == 42u8 {
        Some(TokenKind::Star)
    } else if c == 91u8 {
        Some(TokenKind::LBracket)
    } else if c == 93u8 {
        Some(TokenKind::RBracket)
    } else if c == 123u8 {
        Some(TokenKind::LBrace)
    } else if c == 125u8 {
        Some(TokenKind::RBrace)
    } else {
        None
    }
}

/// The end of the run of identifier bytes that starts at `j`.
pub open spec fn ident_end(s: Seq<u8>, j: int) -> int
    decreases s.len() - j,
{
    if 0 <= j < s.len() && is_ident_char(s[j]) {
        ident_end(s, j + 1)
    } else {
        j
    }
}

/// The tokens of `s` from offset `i` on, or the offset of the first byte
/// that starts no token.
pub open spec fn lex_from(s: Seq<u8>, i: int) -> Result<Seq<Token>, usize>
    decreases s.len() - i,
{
    if i < 0 || i >= s.len() {
        Ok(Seq::empty())
    } else if is_space(s[i]) {
        lex_from(s, i + 1)
    } else if punct_kind(s[i]) is Some {
        match lex_from(s, i + 1) {
            Ok(rest) => Ok(seq![Token { kind: punct_kind(s[i])->0, start: i as usize, end: (i + 1) as usize }] + rest),
            Err(p) => Err(p),
        }
    } else if is_ident_start(s[i]) {
        let j = ident_end(s, i + 1);
        proof {
            lemma_ident_end_bounds(s, i + 1);
        }
        let kind = if j == i + 1 && s[i] == 95u8 {
            TokenKind::Underscore
        } else {
            TokenKind::Ident
        };
        match lex_from(s, j) {
            Ok(rest) => Ok(seq![Token { kind, start: i as usize, end: j as usize }] + rest),
            Err(p) => Err(p),
        }
    } else {
        Err(i as usize)
    }
}

/// The identifier run starting at `j` stays within the text.
pub proof fn lemma_ident_end_bounds(s: Seq<u8>, j: int)
    requires
        0 <= j <= s.len(),
    ensures
        j <= ident_end(s, j) <= s.len(),
        forall|k: int| j <= k < ident_end(s, j) ==> is_ident_char(#[trigger] s[k]),
    decreases s.len() - j,
{
    if j < s.len() && is_ident_char(s[j]) {
        lemma_ident_end_bounds(s, j + 1);
    }
}

fn ident_byte(d: u8) -> (r: bool)
    ensures
        r == is_ident_char(d),
{
    (65u8 <= d && d <= 90u8) || (97u8 <= d && d <= 122u8) || d == 95u8 || (48u8 <= d && d <= 57u8)
}

fn byte_punct(c: u8) -> (r: Option<TokenKind>)
    ensures
        r == punct_kind(c),
{
    if c == 58u8 {
        Some(TokenKind::Colon)
    } else if c == 44u8 {
        Some(TokenKind::Comma)
    } else if c == 43u8 {
        Some(TokenKind::Plus)
    } else if c == 124u8 {
        Some(TokenKind::Pipe)
    } else if c == 61u8 {
        Some(TokenKind::Equals)
    } else if c == 42u8 {
        Some(TokenKind::Star)
    } else if c == 91u8 {
        Some(TokenKind::LBracket)
    } else if c == 93u8 {
        Some(TokenKind::RBracket)
    } else if c == 123u8 {
        Some(TokenKind::LBrace)
    } else if c == 125u8 {
        Some(TokenKind::RBrace)
    } else {
        None
    }
}

/// Splits a description into tokens. Spaces, tabs and line breaks separate
/// tokens; an identifier is a letter or `_` followed by letters, digits
/// and `_`, and a lone `_` is the wildcard token.
pub fn lex(src: &[u8]) -> (r: Result<Vec<Token>, DslError>)
    ensures
        match lex_from(src@, 0) {
            Ok(ts) => r matches Ok(v) && v@ == ts,
            Err(p) => r == Err::<Vec<Token>, DslError>(DslError::InvalidCharacter { pos: p }),
        },
{
    let mut out: Vec<Token> = Vec::new();
    let mut i: usize = 0;
    while i < src.len()
        invariant
            i <= src@.len(),
            lex_from(src@, 0) == match lex_from(src@, i as int) {
                Ok(rest) => Ok(out@ + rest),
                Err(p) => Err::<Seq<Token>, usize>(p),
            },
        decreases src@.len() - i,
    {
        let c = src[i];
        if c == 32u8 || c == 9u8 || c == 10u8 || c == 13u8 {
            i = i + 1;
        } else if let Some(k) = byte_punct(c) {
            let t = Token { kind: k, start: i, end: i + 1 };
            proof {
                if let Ok(rest) = lex_from(src@, i + 1) {
                    assert(out@.push(t) + rest =~= out@ + (seq![t] + rest));
                }
            }
            out.push(t);
            i = i + 1;
        } else if (65u8 <= c && c <= 90u8) || (97u8 <= c && c <= 122u8) || c == 95u8 {
            proof {
                lemma_ident_end_bounds(src@, i + 1);
            }
            let mut j: usize = i + 1;
            while j < src.len() && ident_byte(src[j])
                invariant
                    i < j <= src@.len(),
                    ident_end(src@, i + 1) == ident_end(src@, j as int),
                decreases src@.len() - j,
            {
                j = j + 1;
            }
            let kind = if j == i + 1 && c == 95u8 {
                TokenKind::Underscore
            } else {
                TokenKind::Ident
            };
            let t = Token { kind, start: i, end: j };
            proof {
                if let Ok(rest) = lex_from(src@, j as int) {
                    assert(out@.push(t) + rest =~= out@ + (seq![t] + rest));
                }
            }
            out.push(t);
            i = j;
        } else {
            return Err(DslError::InvalidCharacter { pos: i });
        }
    }
    assert(out@ + Seq::<Token>::empty() =~= out@);
    Ok(out)
}

} // verus!
