//! What holds of every scan.

use vstd::prelude::*;
use crate::chars::{identifier_start, number_start, whitespace};
use crate::grammar::{
    end_of_stream, first_match, lemma_first_match, lemma_run_end_unique,
    lemma_token_at_advances, rule, scan, string_body, token_at, tokens_from, whitespace_end,
    Fault, RULE_COUNT,
};
use crate::lexer::{is_scan_of, LexError};
use crate::token::{views, Token, TokenKind, TokenView};

verus! {

/// A text of whitespace alone, the empty text among them, scans to the
/// sentinel and nothing else.
pub proof fn lemma_blank_text(src: Seq<char>)
    requires
        forall|i: int| 0 <= i < src.len() ==> whitespace(#[trigger] src[i]),
    ensures
        scan(src) == Ok::<Seq<TokenView>, Fault>(seq![end_of_stream()]),
{
    lemma_run_end_unique(src, 0, |c: char| whitespace(c), src.len() as int);
    assert(Seq::<TokenView>::empty().push(end_of_stream()) =~= seq![end_of_stream()]);
}

/// Scanning the same text twice gives the same: two results of a scan of
/// one text are both lists of tokens with the same kinds and lexemes, or
/// both the same error.
pub proof fn lemma_scan_repeatable(
    src: Seq<char>,
    first: Result<Vec<Token>, LexError>,
    second: Result<Vec<Token>, LexError>,
)
    requires
        is_scan_of(first, src),
        is_scan_of(second, src),
    ensures
        match (first, second) {
            (Ok(one), Ok(other)) => views(one@) == views(other@),
            (Err(one), Err(other)) => one == other,
            _ => false,
        },
{
}

/// A token that is no string literal has the text it was read from as its
/// lexeme, and that text is not empty.
pub proof fn lemma_lexeme_is_slice(src: Seq<char>, pos: int)
    requires
        0 <= pos < src.len(),
    ensures
        token_at(src, pos) matches Ok(step) ==> {
            &&& pos < step.next <= src.len()
            &&& step.token.kind != TokenKind::EndOfStream
            &&& step.token.kind != TokenKind::StringLiteral ==> step.token.lexeme
                == src.subrange(pos, step.next)
        },
{
    lemma_token_at_advances(src, pos);
    lemma_first_match(src.skip(pos), 0);
    match first_match(src.skip(pos), 0) {
        Some(i) => {
            let spelling = rule(i).spelling;
            assert(spelling =~= src.subrange(pos, pos + spelling.len())) by {
                assert(spelling =~= src.skip(pos).subrange(0, spelling.len() as int));
            }
        },
        None => {},
    }
}

/// Whether `token` stands in `src` as it is: it is no sentinel, and unless
/// it is a string literal its lexeme is a slice of `src` that is not empty.
pub open spec fn drawn_from(src: Seq<char>, token: TokenView) -> bool {
    &&& token.kind != TokenKind::EndOfStream
    &&& token.kind != TokenKind::StringLiteral ==> exists|from: int, to: int|
        0 <= from < to <= src.len() && token.lexeme == #[trigger] src.subrange(from, to)
}

/// Every token read from a text is drawn from it.
pub proof fn lemma_tokens_drawn_from(src: Seq<char>, pos: int)
    ensures
        tokens_from(src, pos) matches Ok(found) ==> forall|i: int|
            0 <= i < found.len() ==> drawn_from(src, #[trigger] found[i]),
    decreases src.len() - pos,
{
    let start = whitespace_end(src, pos);
    if 0 <= pos <= start < src.len() {
        lemma_lexeme_is_slice(src, start);
        match token_at(src, start) {
            Ok(step) => {
                lemma_tokens_drawn_from(src, step.next);
                if step.token.kind != TokenKind::StringLiteral {
                    assert(step.token.lexeme == src.subrange(start, step.next));
                }
                match tokens_from(src, step.next) {
                    Ok(more) => {
                        let found = seq![step.token] + more;
                        assert forall|i: int| 0 <= i < found.len() implies drawn_from(
                            src,
                            #[trigger] found[i],
                        ) by {
                            if i > 0 {
                                assert(found[i] == more[i - 1]);
                            }
                        }
                    },
                    Err(_) => {},
                }
            },
            Err(_) => {},
        }
    }
}

/// A scan that succeeds ends with the sentinel, which stands nowhere else
/// in it; every token before the sentinel is drawn from the text.
pub proof fn lemma_one_sentinel(src: Seq<char>)
    ensures
        scan(src) matches Ok(all) ==> {
            &&& all.len() > 0
            &&& all.last() == end_of_stream()
            &&& forall|i: int| 0 <= i < all.len() - 1 ==> drawn_from(src, #[trigger] all[i])
        },
{
    lemma_tokens_drawn_from(src, 0);
}

/// A fault lies at a position of the text, at or behind the one that the
/// scan started from.
pub proof fn lemma_fault_in_text(src: Seq<char>, pos: int)
    requires
        0 <= pos,
    ensures
        tokens_from(src, pos) matches Err(fault) ==> pos <= fault.at() < src.len(),
    decreases src.len() - pos,
{
    let start = whitespace_end(src, pos);
    if pos <= start < src.len() {
        lemma_token_at_advances(src, start);
        match token_at(src, start) {
            Ok(step) => {
                lemma_fault_in_text(src, step.next);
            },
            Err(_) => {},
        }
    }
}

/// A quote opens a string literal wherever a token may start. Where the
/// text ends before the literal is closed, the scan of the text from `pos`
/// on, `pos` being that quote or whitespace in front of it, is the fault
/// of an unterminated string at the quote.
pub proof fn lemma_unterminated_string(src: Seq<char>, pos: int)
    requires
        0 <= pos <= whitespace_end(src, pos) < src.len(),
        src[whitespace_end(src, pos)] == '"',
        string_body(src, whitespace_end(src, pos) + 1).is_none(),
    ensures
        tokens_from(src, pos) == Err::<Seq<TokenView>, Fault>(
            Fault::UnterminatedString { at: whitespace_end(src, pos) },
        ),
{
    let quote = whitespace_end(src, pos);
    let rest = src.skip(quote);
    lemma_quote_starts_string(rest);
}

/// The first row of the priority table that matches a text with a quote in
/// front is the row of the string literal.
pub proof fn lemma_quote_starts_string(rest: Seq<char>)
    requires
        rest.len() > 0,
        rest[0] == '"',
    ensures
        first_match(rest, 0) matches Some(i) && rule(i).kind == TokenKind::StringLiteral,
{
    lemma_first_match(rest, 0);
    reveal_strlit("->");
    reveal_strlit("let");
    reveal_strlit("cst");
    reveal_strlit("+");
    reveal_strlit("-");
    reveal_strlit("*");
    reveal_strlit("/");
    reveal_strlit("=");
    reveal_strlit(";");
    reveal_strlit(",");
    reveal_strlit(":end");
    reveal_strlit("if:");
    reveal_strlit(":else:");
    reveal_strlit("do");
    reveal_strlit("did");
    reveal_strlit("log");
    reveal_strlit("while:");
    reveal_strlit("for:");
    reveal_strlit("match:");
    reveal_strlit("(");
    reveal_strlit(")");
    reveal_strlit("&true");
    reveal_strlit("&false");
    reveal_strlit("\"");
    assert(rule(23).spelling =~= rest.subrange(0, 1));
    assert forall|j: int| 0 <= j < 23 implies !(#[trigger] rule(j)).spelling.is_prefix_of(
        rest,
    ) by {
        let spelling = rule(j).spelling;
        if spelling.is_prefix_of(rest) {
            assert(rest.subrange(0, spelling.len() as int)[0] == rest[0]);
        }
    }
}

/// A character that is no whitespace, stands where a token may start, and
/// starts none (no spelling of the priority table stands there, and it
/// starts neither a number nor an identifier) makes the scan of the text
/// from `pos` on, `pos` being that character or whitespace in front of it,
/// the fault of an unrecognized character at its position.
pub proof fn lemma_unrecognized_character(src: Seq<char>, pos: int)
    requires
        0 <= pos <= whitespace_end(src, pos) < src.len(),
        forall|i: int|
            0 <= i < RULE_COUNT ==> !(#[trigger] rule(i)).spelling.is_prefix_of(
                src.skip(whitespace_end(src, pos)),
            ),
        !number_start(src[whitespace_end(src, pos)]),
        !identifier_start(src[whitespace_end(src, pos)]),
    ensures
        tokens_from(src, pos) == Err::<Seq<TokenView>, Fault>(
            Fault::UnrecognizedCharacter { at: whitespace_end(src, pos) },
        ),
{
    lemma_first_match(src.skip(whitespace_end(src, pos)), 0);
}

} // verus!
