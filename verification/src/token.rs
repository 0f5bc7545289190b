//! A small token model for Rust-like source fragments, with a lexer.
//!
//! Type definitions and impl headers are parsed and generated as trees of
//! tokens: identifiers, punctuation, literals, and delimited groups whose
//! contents are token trees again.  [`token_stream`] turns a source string
//! into a [`TokenCursor`] that the parsing routines consume from the front.

use vstd::prelude::*;
use vstd::string::StringSliceAdditionalSpecFns;
use vstd::utf8::encode_utf8;

verus! {

/// Why a source fragment was rejected.
#[derive(Clone, Copy, PartialEq, Eq, Structural, Debug)]
pub enum ParseError {
    /// The tokens do not form the construct being parsed.
    InvalidRustSyntax,
    /// An identifier was required and something else was found.
    ExpectedIdent,
    /// A character the lexer does not accept (non-ASCII, or a string
    /// literal, which these fragments never contain).
    UnsupportedCharacter,
    /// A closing delimiter without its opener, or an opener never closed.
    UnbalancedDelimiter,
}

impl ParseError {
    /// Whether this is the general syntax error.
    pub fn is_invalid_rust_syntax(&self) -> (r: bool)
        ensures
            r == (*self == ParseError::InvalidRustSyntax),
    {
        match self {
            ParseError::InvalidRustSyntax => true,
            _ => false,
        }
    }
}

/// Compare two string slices by contents.
pub fn str_eq(a: &str, b: &str) -> (r: bool)
    ensures
        r == (a@ == b@),
{
    let ab = a.as_bytes();
    let bb = b.as_bytes();
    if ab.len() != bb.len() {
        proof {
            assert(a@ != b@);
        }
        return false;
    }
    let n = ab.len();
    let mut i: usize = 0;
    while i < n
        invariant
            i <= n,
            n == ab@.len() == bb@.len(),
            ab@ == a.spec_bytes(),
            bb@ == b.spec_bytes(),
            forall|j: int| 0 <= j < i ==> ab@[j] == bb@[j],
        decreases n - i,
    {
        if *vstd::slice::slice_index_get(ab, i) != *vstd::slice::slice_index_get(bb, i) {
            proof {
                assert(a.spec_bytes() != b.spec_bytes());
                assert(a@ != b@);
            }
            return false;
        }
        i = i + 1;
    }
    proof {
        assert(a.spec_bytes() =~= b.spec_bytes());
        vstd::utf8::encode_utf8_decode_utf8(a@);
        vstd::utf8::encode_utf8_decode_utf8(b@);
    }
    true
}

/// An identifier token.
#[derive(Debug)]
pub struct Ident {
    pub name: String,
}

impl Clone for Ident {
    fn clone(&self) -> (r: Self)
        ensures
            r == *self,
    {
        Ident { name: self.name.clone() }
    }
}

impl Ident {
    pub fn new(name: String) -> (r: Ident)
        ensures
            r.name == name,
    {
        Ident { name }
    }

    /// Whether this identifier spells `s`.
    pub fn is_str(&self, s: &str) -> (r: bool)
        ensures
            r == (self.name@ == s@),
    {
        str_eq(self.name.as_str(), s)
    }
}

/// A single punctuation character.
#[derive(Clone, Copy, PartialEq, Eq, Structural, Debug)]
pub struct Punct {
    pub ch: char,
}

/// The bracket shape of a group.
#[derive(Clone, Copy, PartialEq, Eq, Structural, Debug)]
pub enum Delimiter {
    Parenthesis,
    Brace,
    Bracket,
}

/// A literal token (a number, in the fragments handled here).
#[derive(Debug)]
pub struct Literal {
    pub text: String,
}

/// A delimited group of token trees.
#[derive(Debug)]
pub struct Group {
    pub delimiter: Delimiter,
    pub stream: Vec<TokenTree>,
}

/// One token tree: a leaf token or a delimited group.
#[derive(Debug)]
pub enum TokenTree {
    Ident(Ident),
    Punct(Punct),
    Group(Group),
    Literal(Literal),
}

impl TokenTree {
    /// Whether this token is the punctuation character `c`.
    pub open spec fn spec_is_punct(&self, c: char) -> bool {
        match self {
            TokenTree::Punct(p) => p.ch == c,
            _ => false,
        }
    }

    pub fn is_punct(&self, c: char) -> (r: bool)
        ensures
            r == self.spec_is_punct(c),
    {
        match self {
            TokenTree::Punct(p) => p.ch == c,
            _ => false,
        }
    }

}

/// A stream of token trees, consumed from the front.
pub struct TokenCursor {
    pub tokens: Vec<TokenTree>,
}

impl TokenCursor {
    /// The tokens not yet consumed.
    pub open spec fn view(&self) -> Seq<TokenTree> {
        self.tokens@
    }

    pub fn new(tokens: Vec<TokenTree>) -> (r: TokenCursor)
        ensures
            r@ == tokens@,
    {
        TokenCursor { tokens }
    }

    /// Look at the next token without consuming it.
    pub fn peek(&self) -> (r: Option<&TokenTree>)
        ensures
            match r {
                Some(t) => self@.len() > 0 && *t == self@[0],
                None => self@.len() == 0,
            },
    {
        if self.tokens.len() > 0 {
            Some(&self.tokens[0])
        } else {
            None
        }
    }

    /// Consume and return the next token.
    pub fn next_token(&mut self) -> (r: Option<TokenTree>)
        ensures
            match r {
                Some(t) => old(self)@.len() > 0 && t == old(self)@[0] && final(self)@ == old(
                    self,
                )@.skip(1),
                None => old(self)@.len() == 0 && *final(self) == *old(self),
            },
    {
        if self.tokens.len() > 0 {
            Some(self.tokens.remove(0))
        } else {
            None
        }
    }

    /// Whether the next token is the punctuation character `c`.
    pub open spec fn spec_peek_punct(&self, c: char) -> bool {
        self@.len() > 0 && self@[0].spec_is_punct(c)
    }

    pub fn peek_punct(&self, c: char) -> (r: bool)
        ensures
            r == self.spec_peek_punct(c),
    {
        match self.peek() {
            Some(t) => t.is_punct(c),
            None => false,
        }
    }

    /// Whether the next token is the identifier `s`.
    pub open spec fn spec_peek_ident(&self, s: Seq<char>) -> bool {
        self@.len() > 0 && match self@[0] {
            TokenTree::Ident(id) => id.name@ == s,
            _ => false,
        }
    }

    pub fn peek_ident(&self, s: &str) -> (r: bool)
        ensures
            r == self.spec_peek_ident(s@),
    {
        match self.peek() {
            Some(t) => match t {
                TokenTree::Ident(id) => id.is_str(s),
                _ => false,
            },
            None => false,
        }
    }

    /// Consume the next token if it is the punctuation character `c`.
    pub fn consume_punct_if(&mut self, c: char) -> (r: bool)
        ensures
            r == old(self).spec_peek_punct(c),
            r ==> final(self)@ == old(self)@.skip(1),
            !r ==> *final(self) == *old(self),
    {
        if self.peek_punct(c) {
            let _ = self.next_token();
            true
        } else {
            false
        }
    }
}

/// Whether an ASCII byte may start an identifier.
pub open spec fn spec_ident_start(b: u8) -> bool {
    (97 <= b <= 122) || (65 <= b <= 90) || b == 95
}

/// Whether an ASCII byte may continue an identifier.
pub open spec fn spec_ident_continue(b: u8) -> bool {
    spec_ident_start(b) || (48 <= b <= 57)
}

fn is_ident_start(b: u8) -> (r: bool)
    ensures
        r == spec_ident_start(b),
{
    (b >= 97 && b <= 122) || (b >= 65 && b <= 90) || b == 95
}

fn is_ident_continue(b: u8) -> (r: bool)
    ensures
        r == spec_ident_continue(b),
{
    is_ident_start(b) || (b >= 48 && b <= 57)
}

/// Turn a range of ASCII source bytes into a `String`.
fn bytes_to_string(bytes: &[u8], start: usize, end: usize) -> (r: Result<String, ParseError>)
    requires
        start <= end <= bytes@.len(),
    ensures
        r matches Ok(s) ==> encode_utf8(s@) == bytes@.subrange(start as int, end as int),
{
    let sub = vstd::slice::slice_subrange(bytes, start, end);
    match crate::text::str_from_utf8(sub) {
        Some(s) => Ok(s.to_owned()),
        None => Err(ParseError::UnsupportedCharacter),
    }
}

/// Lex token trees from `bytes` starting at `start`, stopping at end of
/// input when `closer` is `None`, or just past the closing delimiter byte
/// `closer` otherwise.  Returns the trees and the position after them.
fn lex_trees(bytes: &[u8], start: usize, closer: Option<u8>) -> (r: Result<
    (Vec<TokenTree>, usize),
    ParseError,
>)
    requires
        start <= bytes@.len(),
    ensures
        r matches Ok((v, end)) ==> start <= end <= bytes@.len() && v@.len() + start <= end,
        start == bytes@.len() && closer is None ==> (r matches Ok((v, end)) && v@.len() == 0
            && end == start),
    decreases bytes@.len() - start,
{
    let n = bytes.len();
    let mut out: Vec<TokenTree> = Vec::new();
    let mut pos: usize = start;
    while pos < n
        invariant
            start <= pos <= n,
            n == bytes@.len(),
            out@.len() + start <= pos,
        decreases n - pos,
    {
        let b = *vstd::slice::slice_index_get(bytes, pos);
        if b == 32 || b == 9 || b == 10 || b == 13 {
            pos = pos + 1;
        } else if is_ident_start(b) {
            let word_start = pos;
            while pos < n && is_ident_continue(*vstd::slice::slice_index_get(bytes, pos))
                invariant
                    word_start <= pos <= n,
                    n == bytes@.len(),
                decreases n - pos,
            {
                pos = pos + 1;
            }
            let name = bytes_to_string(bytes, word_start, pos)?;
            out.push(TokenTree::Ident(Ident { name }));
        } else if b >= 48 && b <= 57 {
            let lit_start = pos;
            while pos < n && is_ident_continue(*vstd::slice::slice_index_get(bytes, pos))
                invariant
                    lit_start <= pos <= n,
                    n == bytes@.len(),
                decreases n - pos,
            {
                pos = pos + 1;
            }
            let text = bytes_to_string(bytes, lit_start, pos)?;
            out.push(TokenTree::Literal(Literal { text }));
        } else if b == 40 || b == 123 || b == 91 {
            let (delimiter, close) = if b == 40 {
                (Delimiter::Parenthesis, 41u8)
            } else if b == 123 {
                (Delimiter::Brace, 125u8)
            } else {
                (Delimiter::Bracket, 93u8)
            };
            let (stream, end) = lex_trees(bytes, pos + 1, Some(close))?;
            out.push(TokenTree::Group(Group { delimiter, stream }));
            pos = end;
        } else if b == 41 || b == 125 || b == 93 {
            return match closer {
                Some(c) if c == b => Ok((out, pos + 1)),
                _ => Err(ParseError::UnbalancedDelimiter),
            };
        } else if b == 34 {
            return Err(ParseError::UnsupportedCharacter);
        } else if b < 128 {
            out.push(TokenTree::Punct(Punct { ch: b as char }));
            pos = pos + 1;
        } else {
            return Err(ParseError::UnsupportedCharacter);
        }
    }
    match closer {
        None => Ok((out, pos)),
        Some(_) => Err(ParseError::UnbalancedDelimiter),
    }
}

/// Lex a source fragment into a cursor over its token trees.  ASCII
/// fragments of item headers (identifiers, punctuation, numbers and
/// bracketed groups) are accepted; string literals, non-ASCII input and
/// unbalanced delimiters are not.  Every token consumes at least one input
/// byte, and an empty fragment lexes to an empty stream.
pub fn token_stream(src: &str) -> (r: Result<TokenCursor, ParseError>)
    ensures
        r matches Ok(c) ==> c@.len() <= src.spec_bytes().len(),
        src.spec_bytes().len() == 0 ==> (r matches Ok(c) && c@.len() == 0),
{
    let bytes = src.as_bytes();
    let (tokens, _) = lex_trees(bytes, 0, None)?;
    Ok(TokenCursor::new(tokens))
}

} // verus!
