//! The grammar of the language's tokens, as mathematical functions over a
//! sequence of characters.
//!
//! Positions are indices into that sequence. Matching is first-match over an
//! ordered table of fixed spellings, not longest-match and not aware of word
//! boundaries: an identifier that begins with a keyword's spelling is split
//! into the keyword and the rest, so `domain` reads as `do` followed by the
//! identifier `main`.

use vstd::prelude::*;
use crate::chars::{whitespace, digit, number_start, identifier_start, identifier_part};
use crate::token::{TokenKind, TokenView};

verus! {

/// One row of the priority table: a fixed spelling and the kind of token it yields.
pub struct Rule {
    pub spelling: Seq<char>,
    pub kind: TokenKind,
}

/// The number of rows in the priority table.
pub const RULE_COUNT: usize = 29;

/// The priority table. Row `0` has the highest priority.
///
/// The row of kind `StringLiteral` only recognises the opening quote; the
/// literal itself is read by [`string_body`].
pub open spec fn rule(i: int) -> Rule
    recommends
        0 <= i < RULE_COUNT,
{
    if i == 0 {
        Rule { spelling: "->"@, kind: TokenKind::Return }
    } else if i == 1 {
        Rule { spelling: "let"@, kind: TokenKind::Let }
    } else if i == 2 {
        Rule { spelling: "cst"@, kind: TokenKind::Const }
    } else if i == 3 {
        Rule { spelling: "+"@, kind: TokenKind::Plus }
    } else if i == 4 {
        Rule { spelling: "-"@, kind: TokenKind::Minus }
    } else if i == 5 {
        Rule { spelling: "*"@, kind: TokenKind::Star }
    } else if i == 6 {
        Rule { spelling: "/"@, kind: TokenKind::Slash }
    } else if i == 7 {
        Rule { spelling: "="@, kind: TokenKind::Equal }
    } else if i == 8 {
        Rule { spelling: ";"@, kind: TokenKind::StatementEnd }
    } else if i == 9 {
        Rule { spelling: ","@, kind: TokenKind::StatementEnd }
    } else if i == 10 {
        Rule { spelling: ":end"@, kind: TokenKind::StatementEnd }
    } else if i == 11 {
        Rule { spelling: "if:"@, kind: TokenKind::If }
    } else if i == 12 {
        Rule { spelling: ":else:"@, kind: TokenKind::Else }
    } else if i == 13 {
        Rule { spelling: "do"@, kind: TokenKind::Do }
    } else if i == 14 {
        Rule { spelling: "did"@, kind: TokenKind::Did }
    } else if i == 15 {
        Rule { spelling: "log"@, kind: TokenKind::Log }
    } else if i == 16 {
        Rule { spelling: "while:"@, kind: TokenKind::While }
    } else if i == 17 {
        Rule { spelling: "for:"@, kind: TokenKind::For }
    } else if i == 18 {
        Rule { spelling: "match:"@, kind: TokenKind::Match }
    } else if i == 19 {
        Rule { spelling: "("@, kind: TokenKind::LParen }
    } else if i == 20 {
        Rule { spelling: ")"@, kind: TokenKind::RParen }
    } else if i == 21 {
        Rule { spelling: "&true"@, kind: TokenKind::BoolLiteral }
    } else if i == 22 {
        Rule { spelling: "&false"@, kind: TokenKind::BoolLiteral }
    } else if i == 23 {
        Rule { spelling: "\""@, kind: TokenKind::StringLiteral }
    } else if i == 24 {
        Rule { spelling: "{"@, kind: TokenKind::BraceOpen }
    } else if i == 25 {
        Rule { spelling: "}"@, kind: TokenKind::BraceClose }
    } else if i == 26 {
        Rule { spelling: "$nbr"@, kind: TokenKind::NumberType }
    } else if i == 27 {
        Rule { spelling: "$str"@, kind: TokenKind::StringType }
    } else {
        Rule { spelling: "$bool"@, kind: TokenKind::BoolType }
    }
}

/// Row `i` of the priority table, for the scanner to run.
pub fn fixed_rule(i: usize) -> (row: (&'static str, TokenKind))
    requires
        i < RULE_COUNT,
    ensures
        row.0@ == rule(i as int).spelling,
        row.1 == rule(i as int).kind,
{
    match i {
        0 => ("->", TokenKind::Return),
        1 => ("let", TokenKind::Let),
        2 => ("cst", TokenKind::Const),
        3 => ("+", TokenKind::Plus),
        4 => ("-", TokenKind::Minus),
        5 => ("*", TokenKind::Star),
        6 => ("/", TokenKind::Slash),
        7 => ("=", TokenKind::Equal),
        8 => (";", TokenKind::StatementEnd),
        9 => (",", TokenKind::StatementEnd),
        10 => (":end", TokenKind::StatementEnd),
        11 => ("if:", TokenKind::If),
        12 => (":else:", TokenKind::Else),
        13 => ("do", TokenKind::Do),
        14 => ("did", TokenKind::Did),
        15 => ("log", TokenKind::Log),
        16 => ("while:", TokenKind::While),
        17 => ("for:", TokenKind::For),
        18 => ("match:", TokenKind::Match),
        19 => ("(", TokenKind::LParen),
        20 => (")", TokenKind::RParen),
        21 => ("&true", TokenKind::BoolLiteral),
        22 => ("&false", TokenKind::BoolLiteral),
        23 => ("\"", TokenKind::StringLiteral),
        24 => ("{", TokenKind::BraceOpen),
        25 => ("}", TokenKind::BraceClose),
        26 => ("$nbr", TokenKind::NumberType),
        27 => ("$str", TokenKind::StringType),
        _ => ("$bool", TokenKind::BoolType),
    }
}

/// The first row, from row `from` on, whose spelling is a prefix of `rest`.
pub open spec fn first_match(rest: Seq<char>, from: int) -> Option<int>
    decreases RULE_COUNT - from,
{
    if from < 0 || from >= RULE_COUNT {
        None
    } else if rule(from).spelling.is_prefix_of(rest) {
        Some(from)
    } else {
        first_match(rest, from + 1)
    }
}

/// Where the maximal run of characters that satisfy `class` and starts at
/// `pos` ends: the first position from `pos` on that is the end of `src` or
/// holds a character outside `class`.
pub open spec fn run_end(src: Seq<char>, pos: int, class: spec_fn(char) -> bool) -> int
    decreases src.len() - pos,
{
    if 0 <= pos < src.len() && class(src[pos]) {
        run_end(src, pos + 1, class)
    } else {
        pos
    }
}

/// Where the whitespace that starts at `pos` ends.
pub open spec fn whitespace_end(src: Seq<char>, pos: int) -> int {
    run_end(src, pos, |c: char| whitespace(c))
}

/// Where the identifier that starts at `pos` ends.
pub open spec fn identifier_end(src: Seq<char>, pos: int) -> int {
    run_end(src, pos, |c: char| identifier_part(c))
}

/// Where the digits that start at `pos` end.
pub open spec fn digits_end(src: Seq<char>, pos: int) -> int {
    run_end(src, pos, |c: char| digit(c))
}

/// Where the number that starts at `pos` ends: digits, then at most one dot
/// with the digits that follow it. A second dot is left for the next token.
pub open spec fn number_end(src: Seq<char>, pos: int) -> int {
    let dot = digits_end(src, pos);
    if 0 <= dot < src.len() && src[dot] == '.' {
        digits_end(src, dot + 1)
    } else {
        dot
    }
}

/// The character that `\` followed by `c` stands for inside a string
/// literal: `n` is a newline and `t` a tab; every other character, the
/// backslash and the quote among them, stands for itself.
pub open spec fn unescape(c: char) -> char {
    if c == 'n' {
        '\n'
    } else if c == 't' {
        '\t'
    } else {
        c
    }
}

/// A string literal read to its closing quote: the text it denotes, escapes
/// resolved, and the position behind the closing quote.
pub struct StringBody {
    pub text: Seq<char>,
    pub end: int,
}

/// Reads the body of a string literal from `pos`, the position behind the
/// opening quote. `None` where `src` ends before the closing quote, or
/// right behind a backslash.
pub open spec fn string_body(src: Seq<char>, pos: int) -> Option<StringBody>
    decreases src.len() - pos,
{
    if pos < 0 || pos >= src.len() {
        None
    } else if src[pos] == '"' {
        Some(StringBody { text: Seq::empty(), end: pos + 1 })
    } else if src[pos] == '\\' {
        if pos + 1 >= src.len() {
            None
        } else {
            match string_body(src, pos + 2) {
                Some(rest) => Some(
                    StringBody { text: seq![unescape(src[pos + 1])] + rest.text, end: rest.end },
                ),
                None => None,
            }
        }
    } else {
        match string_body(src, pos + 1) {
            Some(rest) => Some(StringBody { text: seq![src[pos]] + rest.text, end: rest.end }),
            None => None,
        }
    }
}

/// Why a text is not a sequence of tokens, and where.
pub enum Fault {
    /// The character at position `at` starts no token.
    UnrecognizedCharacter { at: int },
    /// The string literal whose opening quote is at position `at` is not closed.
    UnterminatedString { at: int },
}

impl Fault {
    /// The position of the fault.
    pub open spec fn at(self) -> int {
        match self {
            Fault::UnrecognizedCharacter { at } => at,
            Fault::UnterminatedString { at } => at,
        }
    }
}

/// A token and the position behind it.
pub struct Step {
    pub token: TokenView,
    pub next: int,
}

/// The token that starts at `pos`.
pub open spec fn token_at(src: Seq<char>, pos: int) -> Result<Step, Fault>
    recommends
        0 <= pos < src.len(),
{
    match first_match(src.skip(pos), 0) {
        Some(i) => if rule(i).kind == TokenKind::StringLiteral {
            match string_body(src, pos + 1) {
                Some(body) => Ok(
                    Step {
                        token: TokenView { kind: TokenKind::StringLiteral, lexeme: body.text },
                        next: body.end,
                    },
                ),
                None => Err(Fault::UnterminatedString { at: pos }),
            }
        } else {
            Ok(
                Step {
                    token: TokenView { kind: rule(i).kind, lexeme: rule(i).spelling },
                    next: pos + rule(i).spelling.len(),
                },
            )
        },
        None => if number_start(src[pos]) {
            Ok(
                Step {
                    token: TokenView {
                        kind: TokenKind::NumberLiteral,
                        lexeme: src.subrange(pos, number_end(src, pos)),
                    },
                    next: number_end(src, pos),
                },
            )
        } else if identifier_start(src[pos]) {
            Ok(
                Step {
                    token: TokenView {
                        kind: TokenKind::Identifier,
                        lexeme: src.subrange(pos, identifier_end(src, pos)),
                    },
                    next: identifier_end(src, pos),
                },
            )
        } else {
            Err(Fault::UnrecognizedCharacter { at: pos })
        },
    }
}

/// The sentinel that closes every token sequence.
pub open spec fn end_of_stream() -> TokenView {
    TokenView { kind: TokenKind::EndOfStream, lexeme: Seq::empty() }
}

/// `tokens` put in front of what `rest` holds; a fault stays as it is.
pub open spec fn after(tokens: Seq<TokenView>, rest: Result<Seq<TokenView>, Fault>) -> Result<
    Seq<TokenView>,
    Fault,
> {
    match rest {
        Ok(more) => Ok(tokens + more),
        Err(fault) => Err(fault),
    }
}

/// The tokens of `src` from `pos` to its end, without the sentinel, or the
/// first fault met.
pub open spec fn tokens_from(src: Seq<char>, pos: int) -> Result<Seq<TokenView>, Fault>
    decreases src.len() - pos,
    via tokens_from_decreases
{
    let start = whitespace_end(src, pos);
    if 0 <= pos <= start < src.len() {
        match token_at(src, start) {
            Ok(step) => after(seq![step.token], tokens_from(src, step.next)),
            Err(fault) => Err(fault),
        }
    } else {
        Ok(Seq::empty())
    }
}

#[via_fn]
proof fn tokens_from_decreases(src: Seq<char>, pos: int) {
    let start = whitespace_end(src, pos);
    if 0 <= pos <= start < src.len() {
        lemma_token_at_advances(src, start);
    }
}

/// The tokens of `src`, closed by the sentinel, or the first fault met.
pub open spec fn scan(src: Seq<char>) -> Result<Seq<TokenView>, Fault> {
    match tokens_from(src, 0) {
        Ok(found) => Ok(found.push(end_of_stream())),
        Err(fault) => Err(fault),
    }
}

/// Every spelling of the priority table has at least one character.
pub proof fn lemma_spellings_nonempty()
    ensures
        forall|i: int| 0 <= i < RULE_COUNT ==> (#[trigger] rule(i)).spelling.len() > 0,
{
    reveal_strlit("->");
    reveal_strlit("let");
    reveal_strlit("cst");
    reveal_strlit("+");
    reveal_strlit("-");
    reveal_strlit("*");
    reveal_strlit("/");
    reveal_strlit("=");
    reveal_strlit(";");
    reveal_strlit(",");
    reveal_strlit(":end");
    reveal_strlit("if:");
    reveal_strlit(":else:");
    reveal_strlit("do");
    reveal_strlit("did");
    reveal_strlit("log");
    reveal_strlit("while:");
    reveal_strlit("for:");
    reveal_strlit("match:");
    reveal_strlit("(");
    reveal_strlit(")");
    reveal_strlit("&true");
    reveal_strlit("&false");
    reveal_strlit("\"");
    reveal_strlit("{");
    reveal_strlit("}");
    reveal_strlit("$nbr");
    reveal_strlit("$str");
    reveal_strlit("$bool");
}

/// What [`first_match`] finds: a row in the table whose spelling is a prefix
/// of `rest`, with no such row between `from` and it; or nothing, where no
/// row from `from` on has such a spelling.
pub proof fn lemma_first_match(rest: Seq<char>, from: int)
    requires
        0 <= from,
    ensures
        match first_match(rest, from) {
            Some(i) => {
                &&& from <= i < RULE_COUNT
                &&& rule(i).spelling.is_prefix_of(rest)
                &&& forall|j: int| from <= j < i ==> !(#[trigger] rule(j)).spelling.is_prefix_of(rest)
            },
            None => forall|j: int|
                from <= j < RULE_COUNT ==> !(#[trigger] rule(j)).spelling.is_prefix_of(rest),
        },
    decreases RULE_COUNT - from,
{
    if from < RULE_COUNT && !rule(from).spelling.is_prefix_of(rest) {
        lemma_first_match(rest, from + 1);
    }
}

/// What [`run_end`] finds: the run lies inside `src`, holds only characters
/// of `class`, and stops at the end of `src` or before a character outside `class`.
pub proof fn lemma_run_end(src: Seq<char>, pos: int, class: spec_fn(char) -> bool)
    requires
        0 <= pos <= src.len(),
    ensures
        pos <= run_end(src, pos, class) <= src.len(),
        forall|i: int| pos <= i < run_end(src, pos, class) ==> class(#[trigger] src[i]),
        run_end(src, pos, class) < src.len() ==> !class(src[run_end(src, pos, class)]),
    decreases src.len() - pos,
{
    if pos < src.len() && class(src[pos]) {
        lemma_run_end(src, pos + 1, class);
    }
}

/// [`run_end`] is the only position with the properties that [`lemma_run_end`] states.
pub proof fn lemma_run_end_unique(src: Seq<char>, pos: int, class: spec_fn(char) -> bool, end: int)
    requires
        0 <= pos <= end <= src.len(),
        forall|i: int| pos <= i < end ==> class(#[trigger] src[i]),
        end < src.len() ==> !class(src[end]),
    ensures
        run_end(src, pos, class) == end,
    decreases end - pos,
{
    if pos < end {
        lemma_run_end_unique(src, pos + 1, class, end);
    }
}

/// A string literal that is closed ends inside `src`, behind its opening position.
pub proof fn lemma_string_body_bounds(src: Seq<char>, pos: int)
    requires
        0 <= pos,
    ensures
        string_body(src, pos) matches Some(body) ==> pos < body.end <= src.len(),
    decreases src.len() - pos,
{
    if pos < src.len() && src[pos] != '"' {
        if src[pos] == '\\' {
            if pos + 1 < src.len() {
                lemma_string_body_bounds(src, pos + 2);
            }
        } else {
            lemma_string_body_bounds(src, pos + 1);
        }
    }
}

/// Every token takes at least one character and ends inside `src`.
pub proof fn lemma_token_at_advances(src: Seq<char>, pos: int)
    requires
        0 <= pos < src.len(),
    ensures
        token_at(src, pos) matches Ok(step) ==> pos < step.next <= src.len(),
{
    lemma_spellings_nonempty();
    lemma_first_match(src.skip(pos), 0);
    lemma_string_body_bounds(src, pos + 1);
    lemma_run_end(src, pos, |c: char| digit(c));
    let dot = digits_end(src, pos);
    if dot < src.len() {
        lemma_run_end(src, dot + 1, |c: char| digit(c));
    }
    lemma_run_end(src, pos, |c: char| identifier_part(c));
}

} // verus!
