use speck::diagnostic::Span;
use speck::lexer::{lex, TokenKind};

#[test]
fn lexes_game_shaped_source_and_locations() {
    let tokens = lex("game \"Dot\"\nlet x: f32 = 1.5\nupdate(dt: f32) { x = x + dt }")
        .expect("source should lex");
    assert_eq!(tokens[0].kind, TokenKind::Game);
    assert_eq!(tokens[1].kind, TokenKind::String("Dot".into()));
    assert_eq!(tokens[2].kind, TokenKind::Let);
    assert!(tokens.iter().any(|token| matches!(
        &token.kind,
        TokenKind::Float(text) if text.parse::<f32>() == Ok(1.5)
    )));
    assert_eq!(tokens[2].span, Span::new(11, 14));
}

#[test]
fn reports_unknown_character() {
    let errors = lex("game \"Dot\"\n@").expect_err("source should fail");
    assert_eq!(errors[0].message, "unexpected character `@`");
    assert_eq!(errors[0].span, Span::new(11, 12));
}

#[test]
fn keeps_unicode_error_spans_on_utf8_boundaries() {
    let source = "game \"Dot\"\n🐸";
    let errors = lex(source).expect_err("source should fail");
    assert_eq!(errors[0].message, "unexpected character `🐸`");
    assert_eq!(errors[0].span, Span::new(11, 15));
    assert!(errors[0].render("frog.spk", source).contains("🐸"));
}

#[test]
fn lexes_longest_match_operators() {
    let tokens = lex("+= -= *= /= <= >= == != && || -> + - * /").expect("operators should lex");
    let kinds = tokens.into_iter().map(|token| token.kind).collect::<Vec<_>>();
    assert_eq!(
        kinds,
        vec![
            TokenKind::PlusEqual,
            TokenKind::MinusEqual,
            TokenKind::StarEqual,
            TokenKind::SlashEqual,
            TokenKind::LessEqual,
            TokenKind::GreaterEqual,
            TokenKind::EqualEqual,
            TokenKind::BangEqual,
            TokenKind::AndAnd,
            TokenKind::OrOr,
            TokenKind::Arrow,
            TokenKind::Plus,
            TokenKind::Minus,
            TokenKind::Star,
            TokenKind::Slash,
            TokenKind::Eof,
        ]
    );
}

#[test]
fn rejects_single_boolean_operator_characters() {
    let errors = lex("& |").expect_err("single boolean characters should fail");
    assert_eq!(errors[0].message, "unexpected character `&`");
    assert_eq!(errors[1].message, "unexpected character `|`");
}

#[test]
fn integers_identifiers_and_comments() {
    let tokens = lex("let count_2 = 42 // note\nwhile").unwrap();
    let kinds = tokens.into_iter().map(|token| token.kind).collect::<Vec<_>>();
    assert_eq!(
        kinds,
        vec![
            TokenKind::Let,
            TokenKind::Identifier("count_2".into()),
            TokenKind::Equal,
            TokenKind::Integer(42),
            TokenKind::While,
            TokenKind::Eof,
        ]
    );
}

#[test]
fn the_end_of_input_is_a_token_at_the_end() {
    let tokens = lex("fn").unwrap();
    assert_eq!(tokens.len(), 2);
    assert_eq!(tokens[1].kind, TokenKind::Eof);
    assert_eq!(tokens[1].span, Span::new(2, 2));
}
