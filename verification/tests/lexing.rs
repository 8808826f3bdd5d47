use lamplang::error::{LexErrorKind, TranslateError};
use lamplang::lex;
use lamplang::lexer::{Lexeme, TokenType};

#[test]
fn identifier_variable_is_a_word_not_the_var_keyword() {
    let tokens = lex("variable").unwrap();
    assert_eq!(tokens.len(), 2);
    assert_eq!(tokens[0].token_type, TokenType::Word);
    assert_eq!(tokens[0].lexeme, Lexeme::WordLexeme("variable".to_string()));
    assert_eq!(tokens[1].token_type, TokenType::Eof);
}

#[test]
fn exact_keyword_match_yields_keyword_tokens() {
    let tokens = lex("var if else func while return use struct new").unwrap();
    let kinds: Vec<TokenType> = tokens.iter().map(|t| t.token_type).collect();
    assert_eq!(
        kinds,
        vec![
            TokenType::Var,
            TokenType::If,
            TokenType::Else,
            TokenType::Func,
            TokenType::While,
            TokenType::Return,
            TokenType::Use,
            TokenType::Struct,
            TokenType::New,
            TokenType::Eof,
        ]
    );
}

#[test]
fn every_sequence_ends_in_one_eof_sentinel_with_empty_span() {
    let input = "var a: number = 2";
    let tokens = lex(input).unwrap();
    let last = tokens.last().unwrap();
    assert_eq!(last.token_type, TokenType::Eof);
    assert_eq!(last.start, input.len());
    assert_eq!(last.end, input.len());
    for t in &tokens[..tokens.len() - 1] {
        assert_ne!(t.token_type, TokenType::Eof);
    }
}

#[test]
fn digit_run_parses_to_its_integer_value() {
    let tokens = lex("2026").unwrap();
    assert_eq!(tokens[0].token_type, TokenType::Number);
    assert_eq!(tokens[0].lexeme, Lexeme::NumberLexeme(2026));
    assert_eq!((tokens[0].start, tokens[0].end), (0, 4));
}

#[test]
fn largest_number_literal_lexes_and_one_more_digit_fails() {
    let tokens = lex("2147483647").unwrap();
    assert_eq!(tokens[0].lexeme, Lexeme::NumberLexeme(2147483647));
    let err = lex("2147483648").unwrap_err();
    assert!(matches!(err, TranslateError::Lex { kind: LexErrorKind::NumberTooLarge, .. }));
}

#[test]
fn string_literal_excludes_quotes_and_span_includes_opening_quote() {
    let tokens = lex("\"something\"").unwrap();
    assert_eq!(tokens[0].token_type, TokenType::String);
    assert_eq!(tokens[0].lexeme, Lexeme::StringLexeme("something".to_string()));
    assert_eq!((tokens[0].start, tokens[0].end), (0, 10));
}

#[test]
fn string_literal_may_span_lines() {
    let tokens = lex("\"a\nb\"").unwrap();
    assert_eq!(tokens[0].lexeme, Lexeme::StringLexeme("a\nb".to_string()));
}

#[test]
fn unterminated_string_is_a_lex_error() {
    let err = lex("\"abc").unwrap_err();
    assert!(matches!(err, TranslateError::Lex { kind: LexErrorKind::UnterminatedString, .. }));
}

#[test]
fn two_character_operators_match_greedily() {
    let tokens = lex("== != && ||").unwrap();
    let kinds: Vec<TokenType> = tokens.iter().map(|t| t.token_type).collect();
    assert_eq!(
        kinds,
        vec![TokenType::EqEq, TokenType::NoEq, TokenType::AndAnd, TokenType::OrOr, TokenType::Eof]
    );
}

#[test]
fn relational_spellings_match_their_longest_form() {
    let tokens = lex(">= <= > <").unwrap();
    let kinds: Vec<TokenType> = tokens.iter().map(|t| t.token_type).collect();
    assert_eq!(
        kinds,
        vec![TokenType::GtEq, TokenType::LtEq, TokenType::Gt, TokenType::Lt, TokenType::Eof]
    );
    assert_eq!((tokens[0].start, tokens[0].end), (0, 2));
}

#[test]
fn unknown_operator_combination_is_a_lex_error() {
    let err = lex("a =- b").unwrap_err();
    assert!(matches!(err, TranslateError::Lex { kind: LexErrorKind::UnknownOperator, .. }));
}

#[test]
fn unmatched_characters_are_skipped_silently() {
    let tokens = lex("a @ # b").unwrap();
    let kinds: Vec<TokenType> = tokens.iter().map(|t| t.token_type).collect();
    assert_eq!(kinds, vec![TokenType::Word, TokenType::Word, TokenType::Eof]);
}

#[test]
fn operator_tokens_record_their_spans() {
    let tokens = lex("a == b").unwrap();
    assert_eq!(tokens[1].token_type, TokenType::EqEq);
    assert_eq!((tokens[1].start, tokens[1].end), (2, 4));
}

#[test]
fn lex_error_carries_a_readable_message() {
    let err = lex("a =- b").unwrap_err();
    assert!(!err.message().is_empty());
}
