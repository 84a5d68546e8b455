use inmu_lang::token::{Token, Tokenizer};

fn lex(src: &str) -> Vec<Token> {
    Tokenizer::new(src).tokenize()
}

#[test]
fn empty_source_is_only_eof() {
    assert_eq!(lex(""), vec![Token::Eof]);
}

#[test]
fn keywords_and_identifiers() {
    assert_eq!(
        lex("print let if else endif assert assert_ne printer _x a1"),
        vec![
            Token::Print,
            Token::Let,
            Token::If,
            Token::Else,
            Token::Endif,
            Token::Assert,
            Token::AssertNe,
            Token::Identifier("printer".to_string()),
            Token::Identifier("_x".to_string()),
            Token::Identifier("a1".to_string()),
            Token::Eof,
        ]
    );
}

#[test]
fn operators_and_delimiters() {
    assert_eq!(
        lex("+ - * / = == ( ) ,"),
        vec![
            Token::Plus,
            Token::Minus,
            Token::Star,
            Token::Slash,
            Token::Equal,
            Token::EqualEqual,
            Token::LParen,
            Token::RParen,
            Token::Comma,
            Token::Eof,
        ]
    );
}

#[test]
fn double_equals_wins_over_single() {
    assert_eq!(lex("a===b"), vec![
        Token::Identifier("a".to_string()),
        Token::EqualEqual,
        Token::Equal,
        Token::Identifier("b".to_string()),
        Token::Eof,
    ]);
}

#[test]
fn numbers_are_decimal() {
    assert_eq!(lex("0 42 007"), vec![Token::Number(0), Token::Number(42), Token::Number(7), Token::Eof]);
}

#[test]
fn number_too_large_becomes_zero() {
    assert_eq!(lex("99999999999999999999"), vec![Token::Number(0), Token::Eof]);
    assert_eq!(lex("9223372036854775807"), vec![Token::Number(i64::MAX), Token::Eof]);
}

#[test]
fn strings_are_verbatim() {
    assert_eq!(lex("\"hi there # // \\n\""), vec![Token::String("hi there # // \\n".to_string()), Token::Eof]);
}

#[test]
fn unterminated_string_runs_to_end() {
    assert_eq!(lex("\"abc"), vec![Token::String("abc".to_string()), Token::Eof]);
}

#[test]
fn newlines_are_tokens_and_blanks_are_not() {
    assert_eq!(lex(" \t\r1\n2"), vec![Token::Number(1), Token::Newline, Token::Number(2), Token::Eof]);
}

#[test]
fn line_comments_keep_the_newline() {
    assert_eq!(lex("1 // note\n2 # more\n3"), vec![
        Token::Number(1),
        Token::Newline,
        Token::Number(2),
        Token::Newline,
        Token::Number(3),
        Token::Eof,
    ]);
}

#[test]
fn hash_comment_stops_before_the_newline() {
    assert_eq!(lex("#\nx"), vec![Token::Newline, Token::Identifier("x".to_string()), Token::Eof]);
    assert_eq!(lex("#x\n2"), vec![Token::Newline, Token::Number(2), Token::Eof]);
    assert_eq!(lex("//\n2"), vec![Token::Newline, Token::Number(2), Token::Eof]);
}

#[test]
fn block_comments() {
    assert_eq!(lex("1 /** a\n b */ 2"), vec![Token::Number(1), Token::Number(2), Token::Eof]);
    assert_eq!(lex("1 /** never closed\n 2"), vec![Token::Number(1), Token::Eof]);
}

#[test]
fn single_slash_star_is_not_a_comment() {
    assert_eq!(lex("/* 2"), vec![Token::Slash, Token::Star, Token::Number(2), Token::Eof]);
}

#[test]
fn unknown_characters_are_dropped() {
    assert_eq!(lex("1 @ $ 2 ;"), vec![Token::Number(1), Token::Number(2), Token::Eof]);
}

#[test]
fn unicode_letters_start_identifiers() {
    assert_eq!(lex("été"), vec![Token::Identifier("été".to_string()), Token::Eof]);
}

#[test]
fn next_token_steps_one_at_a_time() {
    let mut t = Tokenizer::new("let x");
    assert_eq!(t.next_token(), Token::Let);
    assert_eq!(t.next_token(), Token::Identifier("x".to_string()));
    assert_eq!(t.next_token(), Token::Eof);
    assert_eq!(t.next_token(), Token::Eof);
}
