//! Tokens: a kind and the text that produced it.

use vstd::prelude::*;

verus! {

/// The classification of a token.
#[derive(Debug, Clone, Copy, PartialEq, Eq, Structural)]
pub enum TokenKind {
    // arithmetic operators
    Plus,
    Minus,
    Star,
    Slash,
    // assignment
    Equal,
    // `;`, `,` or `:end`
    StatementEnd,
    // grouping
    LParen,
    RParen,
    BraceOpen,
    BraceClose,
    // keywords
    Let,
    Const,
    If,
    Else,
    Do,
    Did,
    While,
    For,
    Match,
    Return,
    Log,
    // type tags
    NumberType,
    StringType,
    BoolType,
    // literals
    Identifier,
    StringLiteral,
    NumberLiteral,
    BoolLiteral,
    // sentinel that closes every token sequence
    EndOfStream,
}

/// What a token is, mathematically: its kind and its lexeme as a sequence of characters.
pub struct TokenView {
    pub kind: TokenKind,
    pub lexeme: Seq<char>,
}

/// A classified piece of source text.
#[derive(Debug, PartialEq, Eq)]
pub struct Token {
    pub kind: TokenKind,
    pub lexeme: String,
}

impl View for Token {
    type V = TokenView;

    open spec fn view(&self) -> TokenView {
        TokenView { kind: self.kind, lexeme: self.lexeme@ }
    }
}

impl Clone for Token {
    fn clone(&self) -> (copy: Self)
        ensures
            copy@ == self@,
    {
        Token { kind: self.kind, lexeme: self.lexeme.clone() }
    }
}

impl Token {
    /// Builds a token from its kind and its lexeme.
    pub fn new(kind: TokenKind, lexeme: String) -> (token: Self)
        ensures
            token.kind == kind,
            token.lexeme == lexeme,
    {
        Token { kind, lexeme }
    }
}

/// The views of a sequence of tokens, in order.
pub open spec fn views(tokens: Seq<Token>) -> Seq<TokenView> {
    tokens.map_values(|t: Token| t@)
}

/// The views of a sequence with one more token are the views of the
/// sequence with the view of that token.
pub proof fn lemma_views_push(tokens: Seq<Token>, token: Token)
    ensures
        views(tokens.push(token)) == views(tokens).push(token@),
{
    assert(views(tokens.push(token)) =~= views(tokens).push(token@));
}

} // verus!
