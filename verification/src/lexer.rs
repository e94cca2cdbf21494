//! The scanner: executable code that computes the functions of [`crate::grammar`].
//!
//! Inside the scanner a position is an index into the characters of the
//! text. What leaves it, the cursor that [`Lexer::pos`] returns and the
//! place that a [`LexError`] carries, is a byte offset into the UTF-8 text
//! that the scanner was made from, so that a caller can slice that text
//! with it.

use vstd::prelude::*;
use vstd::string::StrSliceExecFns;
use crate::chars::{
    digit, identifier_part, is_digit, is_identifier_part, is_identifier_start, whitespace,
};
use crate::grammar::{
    after, end_of_stream, first_match, fixed_rule, identifier_end, lemma_first_match,
    lemma_run_end, lemma_run_end_unique, lemma_spellings_nonempty, lemma_token_at_advances,
    number_end, rule, scan, string_body, token_at, tokens_from, unescape, whitespace_end, Fault,
    StringBody, RULE_COUNT,
};
use crate::source::{byte_len, byte_offset, byte_offset_of, chars_of, lemma_byte_offset_bounds};
use crate::token::{lemma_views_push, views, Token, TokenKind, TokenView};

verus! {

/// `String::push` appends the given character to the end of the string:
/// the string afterwards is the string before it with `ch` behind it.
pub assume_specification[ String::push ](s: &mut String, ch: char)
    ensures
        final(s)@ == old(s)@.push(ch),
;

/// Why a scan failed. The offset is a byte offset into the UTF-8 text that
/// the scanner was made from.
#[derive(Debug, Clone, Copy, PartialEq, Eq, Structural)]
pub enum LexError {
    /// The character at `offset` starts no token.
    UnrecognizedCharacter { offset: usize },
    /// The string literal whose opening quote is at `offset` is not closed
    /// before the text ends.
    UnterminatedString { offset: usize },
}

impl LexError {
    /// Whether this error reports `fault` of the text `src`: the same kind
    /// of fault, at the byte offset of the fault's position.
    pub open spec fn reports(self, src: Seq<char>, fault: Fault) -> bool {
        match (self, fault) {
            (
                LexError::UnrecognizedCharacter { offset },
                Fault::UnrecognizedCharacter { at },
            ) => offset == byte_offset(src, at),
            (LexError::UnterminatedString { offset }, Fault::UnterminatedString { at }) => offset
                == byte_offset(src, at),
            _ => false,
        }
    }

    /// The byte offset that the error carries.
    pub open spec fn place(self) -> usize {
        match self {
            LexError::UnrecognizedCharacter { offset } => offset,
            LexError::UnterminatedString { offset } => offset,
        }
    }

    /// The byte offset that the error carries.
    pub fn offset(&self) -> (offset: usize)
        ensures
            offset == self.place(),
    {
        match self {
            LexError::UnrecognizedCharacter { offset } => *offset,
            LexError::UnterminatedString { offset } => *offset,
        }
    }
}

/// A source text, its length in bytes, and the cursor into it. The cursor
/// never passes the end of the text.
#[derive(Debug)]
struct Buffer {
    text: Vec<char>,
    size: usize,
    pos: usize,
}

impl Buffer {
    #[verifier::type_invariant]
    spec fn inv(self) -> bool {
        &&& self.pos <= self.text@.len()
        &&& self.size == byte_len(self.text@)
    }

    /// A buffer with the same text and the same cursor.
    fn copy(&self) -> (copy: Self)
        ensures
            copy.text@ == self.text@,
            copy.pos == self.pos,
    {
        proof {
            use_type_invariant(self);
        }
        let text = self.text.clone();
        assert(text@ =~= self.text@);
        Buffer { text, size: self.size, pos: self.pos }
    }
}

/// A scanner over one source text.
///
/// It holds the text, a cursor into it, and the tokens that it has produced.
/// During a scan the cursor only moves forward, and it never passes the end
/// of the text.
#[derive(Debug)]
pub struct Lexer {
    token_list: Vec<Token>,
    input: Buffer,
}

impl Clone for Lexer {
    fn clone(&self) -> (copy: Self)
        ensures
            copy.source() == self.source(),
            copy.cursor() == self.cursor(),
            copy.tokens() == self.tokens(),
    {
        let token_list = self.token_list.clone();
        assert(views(token_list@) =~= views(self.token_list@));
        Lexer { token_list, input: self.input.copy() }
    }
}

impl Lexer {
    /// The source text, as a sequence of characters.
    pub closed spec fn source(self) -> Seq<char> {
        self.input.text@
    }

    /// The cursor: the position in [`Self::source`] of the next character to read.
    pub closed spec fn cursor(self) -> int {
        self.input.pos as int
    }

    /// The tokens produced so far.
    pub closed spec fn tokens(self) -> Seq<TokenView> {
        views(self.token_list@)
    }

    /// A scanner at the start of `input`, with no token produced.
    pub fn new(input: String) -> (lexer: Self)
        ensures
            lexer.source() == input@,
            lexer.cursor() == 0,
            lexer.tokens() == Seq::<TokenView>::empty(),
    {
        let text = input.as_str();
        let size = text.as_bytes().len();
        let lexer = Lexer {
            token_list: Vec::new(),
            input: Buffer { text: chars_of(text), size, pos: 0 },
        };
        assert(lexer.tokens() =~= Seq::<TokenView>::empty());
        lexer
    }

    /// Whether the cursor stands at the end of the text.
    pub fn at_end(&self) -> (done: bool)
        ensures
            done == (self.cursor() == self.source().len()),
    {
        proof {
            use_type_invariant(&self.input);
        }
        self.input.pos >= self.input.text.len()
    }

    /// The cursor, as a byte offset into the UTF-8 text that the scanner was
    /// made from.
    pub fn pos(&self) -> (offset: usize)
        ensures
            offset == byte_offset(self.source(), self.cursor()),
    {
        proof {
            use_type_invariant(&self.input);
            lemma_byte_offset_bounds(self.input.text@, self.input.pos as int);
        }
        if self.input.pos >= self.input.text.len() {
            self.input.size
        } else {
            byte_offset_of(&self.input.text, self.input.pos)
        }
    }

    /// The tokens produced so far.
    pub fn token_list(&self) -> (list: &Vec<Token>)
        ensures
            views(list@) == self.tokens(),
    {
        &self.token_list
    }

    /// Moves the cursor over the whitespace in front of it.
    fn skip_whitespace(&mut self)
        ensures
            final(self).source() == old(self).source(),
            final(self).token_list == old(self).token_list,
            final(self).cursor() == whitespace_end(old(self).source(), old(self).cursor()),
            old(self).cursor() <= final(self).cursor() <= old(self).source().len(),
    {
        proof {
            use_type_invariant(&self.input);
        }
        let ghost src = self.input.text@;
        let ghost start = self.input.pos as int;
        while self.input.pos < self.input.text.len()
            && self.input.text[self.input.pos].is_whitespace()
            invariant
                self.input.text == old(self).input.text,
                self.token_list == old(self).token_list,
                src == self.input.text@,
                start == old(self).input.pos,
                start <= self.input.pos <= src.len(),
                forall|i: int| start <= i < self.input.pos ==> whitespace(#[trigger] src[i]),
            decreases src.len() - self.input.pos,
        {
            proof {
                use_type_invariant(&self.input);
            }
            self.input.pos += 1;
        }
        proof {
            lemma_run_end_unique(src, start, |c: char| whitespace(c), self.input.pos as int);
        }
    }

    /// Reads an identifier: the maximal run of identifier characters at the
    /// cursor, which is empty where no such character stands there.
    fn tokenize_variable(&mut self) -> (token: Token)
        ensures
            final(self).source() == old(self).source(),
            final(self).token_list == old(self).token_list,
            final(self).cursor() == identifier_end(old(self).source(), old(self).cursor()),
            token@ == (TokenView {
                kind: TokenKind::Identifier,
                lexeme: old(self).source().subrange(old(self).cursor(), final(self).cursor()),
            }),
    {
        proof {
            use_type_invariant(&self.input);
        }
        let ghost src = self.input.text@;
        let ghost start = self.input.pos as int;
        let mut variable = String::new();
        while self.input.pos < self.input.text.len() && is_identifier_part(
            self.input.text[self.input.pos],
        )
            invariant
                self.input.text == old(self).input.text,
                self.token_list == old(self).token_list,
                src == self.input.text@,
                start == old(self).input.pos,
                start <= self.input.pos <= src.len(),
                forall|i: int| start <= i < self.input.pos ==> identifier_part(#[trigger] src[i]),
                variable@ == src.subrange(start, self.input.pos as int),
            decreases src.len() - self.input.pos,
        {
            proof {
                use_type_invariant(&self.input);
            }
            variable.push(self.input.text[self.input.pos]);
            self.input.pos += 1;
            assert(variable@ =~= src.subrange(start, self.input.pos as int));
        }
        proof {
            lemma_run_end_unique(src, start, |c: char| identifier_part(c), self.input.pos as int);
        }
        Token::new(TokenKind::Identifier, variable)
    }

    /// Reads a number: digits with at most one dot among them. A second dot
    /// ends the number and is left at the cursor.
    fn tokenize_number(&mut self) -> (token: Token)
        ensures
            final(self).source() == old(self).source(),
            final(self).token_list == old(self).token_list,
            final(self).cursor() == number_end(old(self).source(), old(self).cursor()),
            token@ == (TokenView {
                kind: TokenKind::NumberLiteral,
                lexeme: old(self).source().subrange(old(self).cursor(), final(self).cursor()),
            }),
    {
        proof {
            use_type_invariant(&self.input);
        }
        let ghost src = self.input.text@;
        let ghost start = self.input.pos as int;
        let ghost dot = start;
        let mut number = String::new();
        let mut has_dot = false;
        while self.input.pos < self.input.text.len() && (is_digit(self.input.text[self.input.pos])
            || (self.input.text[self.input.pos] == '.' && !has_dot))
            invariant
                self.input.text == old(self).input.text,
                self.token_list == old(self).token_list,
                src == self.input.text@,
                start == old(self).input.pos,
                start <= self.input.pos <= src.len(),
                number@ == src.subrange(start, self.input.pos as int),
                !has_dot ==> forall|i: int| start <= i < self.input.pos ==> digit(#[trigger] src[i]),
                has_dot ==> {
                    &&& start <= dot < self.input.pos
                    &&& src[dot] == '.'
                    &&& forall|i: int| start <= i < dot ==> digit(#[trigger] src[i])
                    &&& forall|i: int| dot < i < self.input.pos ==> digit(#[trigger] src[i])
                },
            decreases src.len() - self.input.pos,
        {
            proof {
                use_type_invariant(&self.input);
            }
            let current = self.input.text[self.input.pos];
            if current == '.' {
                has_dot = true;
                proof {
                    dot = self.input.pos as int;
                }
            }
            number.push(current);
            self.input.pos += 1;
            assert(number@ =~= src.subrange(start, self.input.pos as int));
        }
        proof {
            if has_dot {
                lemma_run_end_unique(src, start, |c: char| digit(c), dot);
                lemma_run_end_unique(src, dot + 1, |c: char| digit(c), self.input.pos as int);
            } else {
                lemma_run_end_unique(src, start, |c: char| digit(c), self.input.pos as int);
            }
        }
        Token::new(TokenKind::NumberLiteral, number)
    }

    /// Reads the string literal whose opening quote is at the cursor, and
    /// resolves its escapes. Where the text ends before the closing quote,
    /// or right behind a backslash, the literal is an error, and the cursor
    /// stays at the opening quote.
    fn tokenize_string_literal(&mut self) -> (result: Result<Token, LexError>)
        requires
            old(self).cursor() < old(self).source().len(),
            old(self).source()[old(self).cursor()] == '"',
        ensures
            final(self).source() == old(self).source(),
            final(self).token_list == old(self).token_list,
            match string_body(old(self).source(), old(self).cursor() + 1) {
                Some(body) => {
                    &&& result matches Ok(token)
                    &&& token@ == (TokenView { kind: TokenKind::StringLiteral, lexeme: body.text })
                    &&& final(self).cursor() == body.end
                },
                None => {
                    &&& result matches Err(error)
                    &&& error.reports(
                        old(self).source(),
                        Fault::UnterminatedString { at: old(self).cursor() },
                    )
                    &&& final(self).cursor() == old(self).cursor()
                },
            },
    {
        proof {
            use_type_invariant(&self.input);
        }
        let ghost src = self.input.text@;
        let length = self.input.text.len();
        let mut literal = String::new();
        let mut at: usize = self.input.pos + 1;
        while at < length
            invariant
                *self == *old(self),
                src == self.input.text@,
                length == src.len(),
                self.input.pos < at <= length,
                string_body(src, self.input.pos + 1) == body_after(
                    literal@,
                    string_body(src, at as int),
                ),
            ensures
                string_body(src, self.input.pos + 1).is_none(),
            decreases length - at,
        {
            proof {
                use_type_invariant(&self.input);
            }
            let current = self.input.text[at];
            let ghost before = literal@;
            if current == '"' {
                assert(literal@ + Seq::<char>::empty() =~= literal@);
                self.input.pos = at + 1;
                return Ok(Token::new(TokenKind::StringLiteral, literal));
            } else if current == '\\' {
                if at + 1 >= length {
                    break;
                }
                let escaped = self.input.text[at + 1];
                let resolved = match escaped {
                    'n' => '\n',
                    't' => '\t',
                    _ => escaped,
                };
                literal.push(resolved);
                at = at + 2;
                proof {
                    if let Some(rest) = string_body(src, at as int) {
                        assert(before + (seq![unescape(escaped)] + rest.text) =~= literal@
                            + rest.text);
                    }
                }
            } else {
                literal.push(current);
                at = at + 1;
                proof {
                    if let Some(rest) = string_body(src, at as int) {
                        assert(before + (seq![current] + rest.text) =~= literal@ + rest.text);
                    }
                }
            }
        }
        proof {
            use_type_invariant(&self.input);
        }
        Err(LexError::UnterminatedString { offset: byte_offset_of(&self.input.text, self.input.pos) })
    }

    /// Whether `spelling` stands at the cursor.
    fn starts_with(&self, spelling: &str) -> (found: bool)
        ensures
            found == spelling@.is_prefix_of(self.source().skip(self.cursor())),
    {
        proof {
            use_type_invariant(&self.input);
        }
        let count = spelling.unicode_len();
        let length = self.input.text.len();
        if count > length - self.input.pos {
            return false;
        }
        let ghost rest = self.input.text@.skip(self.input.pos as int);
        let mut i: usize = 0;
        while i < count
            invariant
                i <= count,
                count == spelling@.len(),
                length == self.input.text@.len(),
                self.input.pos + count <= length,
                rest == self.input.text@.skip(self.input.pos as int),
                forall|j: int| 0 <= j < i ==> spelling@[j] == rest[j],
            decreases count - i,
        {
            if spelling.get_char(i) != self.input.text[self.input.pos + i] {
                assert(spelling@[i as int] != rest.subrange(0, spelling@.len() as int)[i as int]);
                return false;
            }
            i = i + 1;
        }
        assert(spelling@ =~= rest.subrange(0, spelling@.len() as int));
        true
    }

    /// The first row of the priority table whose spelling stands at the cursor.
    fn first_rule(&self) -> (row: Option<usize>)
        ensures
            match row {
                Some(i) => first_match(self.source().skip(self.cursor()), 0) == Some(i as int),
                None => first_match(self.source().skip(self.cursor()), 0).is_none(),
            },
    {
        let ghost rest = self.input.text@.skip(self.input.pos as int);
        let mut i: usize = 0;
        while i < RULE_COUNT
            invariant
                i <= RULE_COUNT,
                rest == self.source().skip(self.cursor()),
                forall|j: int| 0 <= j < i ==> !(#[trigger] rule(j)).spelling.is_prefix_of(rest),
            decreases RULE_COUNT - i,
        {
            let row = fixed_rule(i);
            if self.starts_with(row.0) {
                proof {
                    lemma_first_match(rest, 0);
                }
                return Some(i);
            }
            i = i + 1;
        }
        proof {
            lemma_first_match(rest, 0);
        }
        None
    }

    /// Reads the token at the cursor, which must stand before the end of
    /// the text: the first row of the priority table whose spelling stands
    /// there decides; where none does, a digit or a dot starts a number and
    /// an alphabetic character or an underscore an identifier. Any other
    /// character is an error, and the cursor stays where it was.
    fn next_token(&mut self) -> (result: Result<Token, LexError>)
        requires
            old(self).cursor() < old(self).source().len(),
        ensures
            final(self).source() == old(self).source(),
            final(self).token_list == old(self).token_list,
            match token_at(old(self).source(), old(self).cursor()) {
                Ok(step) => {
                    &&& result matches Ok(token)
                    &&& token@ == step.token
                    &&& final(self).cursor() == step.next
                    &&& old(self).cursor() < final(self).cursor() <= old(self).source().len()
                },
                Err(fault) => {
                    &&& result matches Err(error)
                    &&& error.reports(old(self).source(), fault)
                    &&& final(self).cursor() == old(self).cursor()
                },
            },
    {
        proof {
            use_type_invariant(&self.input);
            lemma_token_at_advances(self.input.text@, self.input.pos as int);
        }
        let ghost rest = self.input.text@.skip(self.input.pos as int);
        match self.first_rule() {
            Some(i) => {
                proof {
                    lemma_first_match(rest, 0);
                    lemma_spellings_nonempty();
                }
                let (spelling, kind) = fixed_rule(i);
                match kind {
                    TokenKind::StringLiteral => {
                        proof {
                            lemma_quote_row(i as int);
                            reveal_strlit("\"");
                            assert(rest.subrange(0, 1)[0] == rest[0]);
                        }
                        self.tokenize_string_literal()
                    },
                    _ => {
                        assert(rest.len() == self.input.text.len() - self.input.pos);
                        self.input.pos += spelling.unicode_len();
                        Ok(Token::new(kind, spelling.to_owned()))
                    },
                }
            },
            None => {
                let current = self.input.text[self.input.pos];
                if is_digit(current) || current == '.' {
                    Ok(self.tokenize_number())
                } else if is_identifier_start(current) {
                    Ok(self.tokenize_variable())
                } else {
                    Err(
                        LexError::UnrecognizedCharacter {
                            offset: byte_offset_of(&self.input.text, self.input.pos),
                        },
                    )
                }
            },
        }
    }

    /// Scans the whole text, from its first character on, whatever an
    /// earlier call has left behind: the scanner then holds the tokens of
    /// the text, closed by the sentinel, with the cursor at the end of the
    /// text, and a copy of the tokens is returned. A fault ends the scan
    /// with its error; the scanner is then back at the start of the text
    /// and holds no token.
    pub fn tokenize(&mut self) -> (result: Result<Vec<Token>, LexError>)
        ensures
            final(self).source() == old(self).source(),
            is_scan_of(result, old(self).source()),
            match result {
                Ok(list) => {
                    &&& final(self).tokens() == views(list@)
                    &&& final(self).cursor() == old(self).source().len()
                },
                Err(_) => {
                    &&& final(self).tokens() == Seq::<TokenView>::empty()
                    &&& final(self).cursor() == 0
                },
            },
    {
        proof {
            use_type_invariant(&self.input);
        }
        let ghost src = self.input.text@;
        let ghost found = Seq::<TokenView>::empty();
        self.input.pos = 0;
        self.token_list.clear();
        proof {
            lemma_after_nothing(tokens_from(src, 0));
            assert(views(self.token_list@) =~= found);
        }
        while !self.at_end()
            invariant
                src == self.input.text@,
                src == old(self).input.text@,
                self.input.pos <= src.len(),
                views(self.token_list@) == found,
                tokens_from(src, 0) == after(found, tokens_from(src, self.input.pos as int)),
            ensures
                self.input.pos == src.len(),
            decreases src.len() - self.input.pos,
        {
            let ghost here = self.input.pos as int;
            self.skip_whitespace();
            proof {
                lemma_run_end(src, here, |c: char| whitespace(c));
                lemma_run_end(src, self.input.pos as int, |c: char| whitespace(c));
            }
            if self.at_end() {
                break;
            }
            match self.next_token() {
                Ok(token) => {
                    proof {
                        let sofar = found;
                        found = found.push(token@);
                        lemma_views_push(self.token_list@, token);
                        if let Ok(more) = tokens_from(src, self.input.pos as int) {
                            assert(sofar + (seq![token@] + more) =~= found + more);
                        }
                    }
                    self.token_list.push(token);
                },
                Err(error) => {
                    proof {
                        use_type_invariant(&self.input);
                    }
                    self.token_list.clear();
                    self.input.pos = 0;
                    assert(views(self.token_list@) =~= Seq::<TokenView>::empty());
                    return Err(error);
                },
            }
        }
        let sentinel = Token::new(TokenKind::EndOfStream, String::new());
        proof {
            lemma_run_end(src, src.len() as int, |c: char| whitespace(c));
            lemma_views_push(self.token_list@, sentinel);
            assert(found + Seq::<TokenView>::empty() =~= found);
        }
        self.token_list.push(sentinel);
        let list = self.token_list.clone();
        assert(views(list@) =~= views(self.token_list@));
        Ok(list)
    }
}

/// Whether `result` is what a scan of the text `src` returns: the tokens
/// of `src` with the sentinel behind them, or the error that reports the
/// first fault of `src`.
pub open spec fn is_scan_of(result: Result<Vec<Token>, LexError>, src: Seq<char>) -> bool {
    match scan(src) {
        Ok(all) => result matches Ok(list) && views(list@) == all,
        Err(fault) => result matches Err(error) && error.reports(src, fault),
    }
}

/// `text` put in front of the text of a string body.
spec fn body_after(text: Seq<char>, rest: Option<StringBody>) -> Option<StringBody> {
    match rest {
        Some(body) => Some(StringBody { text: text + body.text, end: body.end }),
        None => None,
    }
}

/// Nothing put in front of a scan's outcome leaves it as it is.
proof fn lemma_after_nothing(rest: Result<Seq<TokenView>, Fault>)
    ensures
        after(Seq::empty(), rest) == rest,
{
    if let Ok(more) = rest {
        assert(Seq::<TokenView>::empty() + more =~= more);
    }
}

/// The only row of the priority table that yields a string literal is the
/// one whose spelling is the quote.
proof fn lemma_quote_row(i: int)
    requires
        0 <= i < RULE_COUNT,
        rule(i).kind == TokenKind::StringLiteral,
    ensures
        rule(i).spelling == "\""@,
{
}

} // verus!
