use athena::lexer::{LexError, Lexer};
use athena::token::{Token, TokenKind};

fn scan(text: &str) -> Result<Vec<Token>, LexError> {
    Lexer::new(text.to_string()).tokenize()
}

fn token(kind: TokenKind, lexeme: &str) -> Token {
    Token::new(kind, lexeme.to_string())
}

fn end() -> Token {
    token(TokenKind::EndOfStream, "")
}

fn kinds(tokens: &[Token]) -> Vec<TokenKind> {
    tokens.iter().map(|t| t.kind).collect()
}

#[test]
fn empty_text_is_the_sentinel_alone() {
    assert_eq!(scan(""), Ok(vec![end()]));
}

#[test]
fn whitespace_only_is_the_sentinel_alone() {
    assert_eq!(scan(" "), Ok(vec![end()]));
    assert_eq!(scan(" \t\r\n  \n"), Ok(vec![end()]));
    assert_eq!(scan("\u{a0}\u{2003}"), Ok(vec![end()]));
}

#[test]
fn scanning_twice_gives_the_same_tokens() {
    let text = "let a = 12 $nbr; log(\"x\\ty\")";
    let first = scan(text);
    let second = scan(text);
    assert!(first.is_ok());
    assert_eq!(first, second);
}

#[test]
fn scanning_twice_gives_the_same_error() {
    assert_eq!(scan("let a = #"), scan("let a = #"));
    assert_eq!(scan("let a = #"), Err(LexError::UnrecognizedCharacter { offset: 8 }));
}

#[test]
fn five_plus_five() {
    assert_eq!(
        scan("5 + 5"),
        Ok(vec![
            token(TokenKind::NumberLiteral, "5"),
            token(TokenKind::Plus, "+"),
            token(TokenKind::NumberLiteral, "5"),
            end(),
        ])
    );
}

#[test]
fn let_statement_with_type_tag() {
    assert_eq!(
        scan("let a = 12 $nbr;"),
        Ok(vec![
            token(TokenKind::Let, "let"),
            token(TokenKind::Identifier, "a"),
            token(TokenKind::Equal, "="),
            token(TokenKind::NumberLiteral, "12"),
            token(TokenKind::NumberType, "$nbr"),
            token(TokenKind::StatementEnd, ";"),
            end(),
        ])
    );
}

#[test]
fn log_call() {
    assert_eq!(
        scan("log(1 + 2)"),
        Ok(vec![
            token(TokenKind::Log, "log"),
            token(TokenKind::LParen, "("),
            token(TokenKind::NumberLiteral, "1"),
            token(TokenKind::Plus, "+"),
            token(TokenKind::NumberLiteral, "2"),
            token(TokenKind::RParen, ")"),
            end(),
        ])
    );
}

#[test]
fn escaped_newline_in_string() {
    assert_eq!(
        scan("\"ab\\ncd\""),
        Ok(vec![token(TokenKind::StringLiteral, "ab\ncd"), end()])
    );
}

#[test]
fn every_escape() {
    assert_eq!(
        scan("\"a\\tb\\\\c\\\"d\\qe\""),
        Ok(vec![token(TokenKind::StringLiteral, "a\tb\\c\"dqe"), end()])
    );
}

#[test]
fn empty_string_literal() {
    assert_eq!(scan("\"\""), Ok(vec![token(TokenKind::StringLiteral, ""), end()]));
}

#[test]
fn string_keeps_whitespace_and_keywords() {
    assert_eq!(
        scan("\" let  # \" x"),
        Ok(vec![
            token(TokenKind::StringLiteral, " let  # "),
            token(TokenKind::Identifier, "x"),
            end(),
        ])
    );
}

#[test]
fn keyword_in_front_of_an_identifier_is_split() {
    assert_eq!(
        scan("domain"),
        Ok(vec![token(TokenKind::Do, "do"), token(TokenKind::Identifier, "main"), end()])
    );
    assert_eq!(
        scan("letter"),
        Ok(vec![token(TokenKind::Let, "let"), token(TokenKind::Identifier, "ter"), end()])
    );
    assert_eq!(
        scan("logic"),
        Ok(vec![token(TokenKind::Log, "log"), token(TokenKind::Identifier, "ic"), end()])
    );
}

#[test]
fn keyword_inside_an_identifier_is_not_split() {
    assert_eq!(scan("undo"), Ok(vec![token(TokenKind::Identifier, "undo"), end()]));
    assert_eq!(scan("_let"), Ok(vec![token(TokenKind::Identifier, "_let"), end()]));
}

#[test]
fn first_match_wins_over_longest_match() {
    assert_eq!(
        scan("dodid"),
        Ok(vec![token(TokenKind::Do, "do"), token(TokenKind::Did, "did"), end()])
    );
    assert_eq!(
        scan("->-"),
        Ok(vec![token(TokenKind::Return, "->"), token(TokenKind::Minus, "-"), end()])
    );
}

#[test]
fn unterminated_string_is_an_error() {
    assert_eq!(scan("\"abc"), Err(LexError::UnterminatedString { offset: 0 }));
    assert_eq!(scan("let s = \"abc"), Err(LexError::UnterminatedString { offset: 8 }));
    assert_eq!(scan("\""), Err(LexError::UnterminatedString { offset: 0 }));
}

#[test]
fn backslash_at_the_end_is_an_unterminated_string() {
    assert_eq!(scan("\"abc\\"), Err(LexError::UnterminatedString { offset: 0 }));
    assert_eq!(scan("\"abc\\\""), Err(LexError::UnterminatedString { offset: 0 }));
}

#[test]
fn unrecognized_character_is_an_error() {
    assert_eq!(scan("#"), Err(LexError::UnrecognizedCharacter { offset: 0 }));
    assert_eq!(scan("  #"), Err(LexError::UnrecognizedCharacter { offset: 2 }));
    assert_eq!(scan("a # b"), Err(LexError::UnrecognizedCharacter { offset: 2 }));
}

#[test]
fn partial_spellings_are_errors() {
    assert_eq!(scan("$nb"), Err(LexError::UnrecognizedCharacter { offset: 0 }));
    assert_eq!(scan("&tru"), Err(LexError::UnrecognizedCharacter { offset: 0 }));
    assert_eq!(scan(":en"), Err(LexError::UnrecognizedCharacter { offset: 0 }));
    assert_eq!(scan("x:"), Err(LexError::UnrecognizedCharacter { offset: 1 }));
}

#[test]
fn error_offsets_are_in_bytes() {
    // two bytes, one byte, three bytes, one byte, then the culprit
    assert_eq!(scan("\u{e9} \u{65e5} #"), Err(LexError::UnrecognizedCharacter { offset: 7 }));
    // the euro sign starts no token
    assert_eq!(scan("\u{e9} \u{20ac} #"), Err(LexError::UnrecognizedCharacter { offset: 3 }));
    assert_eq!(scan("\u{e9}\u{e9} \"x"), Err(LexError::UnterminatedString { offset: 5 }));
    assert_eq!(scan("\u{1f600}"), Err(LexError::UnrecognizedCharacter { offset: 0 }));
    assert_eq!(scan("a \u{1f600}"), Err(LexError::UnrecognizedCharacter { offset: 2 }));
    assert_eq!(
        scan("\"\u{1f600}\" \u{1f600}"),
        Err(LexError::UnrecognizedCharacter { offset: 7 })
    );
}

#[test]
fn error_offset_getter() {
    assert_eq!(LexError::UnrecognizedCharacter { offset: 7 }.offset(), 7);
    assert_eq!(LexError::UnterminatedString { offset: 3 }.offset(), 3);
}

#[test]
fn number_takes_one_dot() {
    assert_eq!(
        scan("1.2.3"),
        Ok(vec![
            token(TokenKind::NumberLiteral, "1.2"),
            token(TokenKind::NumberLiteral, ".3"),
            end(),
        ])
    );
    assert_eq!(scan("3.14"), Ok(vec![token(TokenKind::NumberLiteral, "3.14"), end()]));
    assert_eq!(scan("7."), Ok(vec![token(TokenKind::NumberLiteral, "7."), end()]));
    assert_eq!(scan(".5"), Ok(vec![token(TokenKind::NumberLiteral, ".5"), end()]));
    assert_eq!(scan("."), Ok(vec![token(TokenKind::NumberLiteral, "."), end()]));
    assert_eq!(
        scan(".."),
        Ok(vec![
            token(TokenKind::NumberLiteral, "."),
            token(TokenKind::NumberLiteral, "."),
            end(),
        ])
    );
}

#[test]
fn number_has_no_sign_and_no_exponent() {
    assert_eq!(
        scan("-1e5"),
        Ok(vec![
            token(TokenKind::Minus, "-"),
            token(TokenKind::NumberLiteral, "1"),
            token(TokenKind::Identifier, "e5"),
            end(),
        ])
    );
    assert_eq!(
        scan("1_000"),
        Ok(vec![
            token(TokenKind::NumberLiteral, "1"),
            token(TokenKind::Identifier, "_000"),
            end(),
        ])
    );
}

#[test]
fn only_ascii_digits_start_a_number() {
    // an Arabic-Indic digit is numeric, but neither a decimal digit nor alphabetic
    assert_eq!(scan("\u{663}"), Err(LexError::UnrecognizedCharacter { offset: 0 }));
    assert_eq!(
        scan("x\u{663}"),
        Ok(vec![token(TokenKind::Identifier, "x\u{663}"), end()])
    );
}

#[test]
fn identifiers() {
    assert_eq!(
        scan("abc_1 _x \u{e9}t\u{e9}"),
        Ok(vec![
            token(TokenKind::Identifier, "abc_1"),
            token(TokenKind::Identifier, "_x"),
            token(TokenKind::Identifier, "\u{e9}t\u{e9}"),
            end(),
        ])
    );
}

#[test]
fn statement_ends_keep_their_spelling() {
    assert_eq!(
        scan("; , :end"),
        Ok(vec![
            token(TokenKind::StatementEnd, ";"),
            token(TokenKind::StatementEnd, ","),
            token(TokenKind::StatementEnd, ":end"),
            end(),
        ])
    );
}

#[test]
fn operators_and_grouping() {
    assert_eq!(
        scan("+-*/=(){}"),
        Ok(vec![
            token(TokenKind::Plus, "+"),
            token(TokenKind::Minus, "-"),
            token(TokenKind::Star, "*"),
            token(TokenKind::Slash, "/"),
            token(TokenKind::Equal, "="),
            token(TokenKind::LParen, "("),
            token(TokenKind::RParen, ")"),
            token(TokenKind::BraceOpen, "{"),
            token(TokenKind::BraceClose, "}"),
            end(),
        ])
    );
}

#[test]
fn keywords() {
    let tokens = scan("-> let cst if: :else: do did log while: for: match:").unwrap();
    assert_eq!(
        kinds(&tokens),
        vec![
            TokenKind::Return,
            TokenKind::Let,
            TokenKind::Const,
            TokenKind::If,
            TokenKind::Else,
            TokenKind::Do,
            TokenKind::Did,
            TokenKind::Log,
            TokenKind::While,
            TokenKind::For,
            TokenKind::Match,
            TokenKind::EndOfStream,
        ]
    );
    assert_eq!(tokens[3], token(TokenKind::If, "if:"));
    assert_eq!(tokens[4], token(TokenKind::Else, ":else:"));
    assert_eq!(tokens[8], token(TokenKind::While, "while:"));
    assert_eq!(tokens[9], token(TokenKind::For, "for:"));
    assert_eq!(tokens[10], token(TokenKind::Match, "match:"));
}

#[test]
fn keyword_without_its_colon_is_an_identifier() {
    assert_eq!(scan("if"), Ok(vec![token(TokenKind::Identifier, "if"), end()]));
    assert_eq!(scan("while"), Ok(vec![token(TokenKind::Identifier, "while"), end()]));
}

#[test]
fn type_tags_and_booleans() {
    assert_eq!(
        scan("$nbr $str $bool &true &false"),
        Ok(vec![
            token(TokenKind::NumberType, "$nbr"),
            token(TokenKind::StringType, "$str"),
            token(TokenKind::BoolType, "$bool"),
            token(TokenKind::BoolLiteral, "&true"),
            token(TokenKind::BoolLiteral, "&false"),
            end(),
        ])
    );
}

#[test]
fn whitespace_around_tokens_is_dropped() {
    assert_eq!(
        scan("\n\t a \r\n"),
        Ok(vec![token(TokenKind::Identifier, "a"), end()])
    );
}

#[test]
fn exactly_one_sentinel_at_the_end() {
    let tokens = scan("let x = \"a\" , y = 2.5 :end").unwrap();
    let sentinels = tokens.iter().filter(|t| t.kind == TokenKind::EndOfStream).count();
    assert_eq!(sentinels, 1);
    assert_eq!(tokens.last(), Some(&end()));
    for t in &tokens[..tokens.len() - 1] {
        assert!(t.kind == TokenKind::StringLiteral || !t.lexeme.is_empty());
    }
}

#[test]
fn cursor_moves_from_the_start_to_the_end() {
    let mut lexer = Lexer::new("a \u{e9}".to_string());
    assert_eq!(lexer.pos(), 0);
    assert!(!lexer.at_end());
    assert!(lexer.token_list().is_empty());
    let tokens = lexer.tokenize().unwrap();
    assert_eq!(lexer.pos(), 4);
    assert!(lexer.at_end());
    assert_eq!(lexer.token_list(), &tokens);
}

#[test]
fn cursor_of_an_empty_text_is_at_its_end() {
    let lexer = Lexer::new(String::new());
    assert_eq!(lexer.pos(), 0);
    assert!(lexer.at_end());
}

#[test]
fn an_error_returns_the_scanner_to_the_start() {
    let mut lexer = Lexer::new("a b \"c".to_string());
    assert_eq!(lexer.tokenize(), Err(LexError::UnterminatedString { offset: 4 }));
    assert_eq!(lexer.pos(), 0);
    assert!(lexer.token_list().is_empty());
}

#[test]
fn a_second_call_scans_the_text_again() {
    let mut lexer = Lexer::new("a".to_string());
    assert_eq!(lexer.tokenize(), Ok(vec![token(TokenKind::Identifier, "a"), end()]));
    assert_eq!(lexer.tokenize(), Ok(vec![token(TokenKind::Identifier, "a"), end()]));
    assert_eq!(lexer.token_list().len(), 2);
}

#[test]
fn a_second_call_gives_the_same_error() {
    let mut lexer = Lexer::new("a b \u{e9} ?".to_string());
    assert_eq!(lexer.tokenize(), Err(LexError::UnrecognizedCharacter { offset: 7 }));
    assert_eq!(lexer.tokenize(), Err(LexError::UnrecognizedCharacter { offset: 7 }));
}

#[test]
fn token_new_keeps_its_parts() {
    let t = Token::new(TokenKind::Identifier, "name".to_string());
    assert_eq!(t.kind, TokenKind::Identifier);
    assert_eq!(t.lexeme, "name");
    assert_eq!(t.clone(), t);
}

#[test]
fn a_copy_scans_like_the_scanner_it_was_made_from() {
    let mut lexer = Lexer::new("let x = .5;".to_string());
    let mut copy = lexer.clone();
    assert_eq!(copy.tokenize(), lexer.tokenize());
    let mut late = lexer.clone();
    assert_eq!(late.pos(), lexer.pos());
    assert_eq!(late.token_list(), lexer.token_list());
    assert_eq!(late.tokenize(), lexer.tokenize());
}
