//! Tests of the lexer: token counts, error recovery, and spelling token
//! kinds back to source text.

use pyl::lexer::{consume_lexer, Lexer};
use pyl::token::{Span, TokenKind};

#[test]
fn lex_general() {
    let src = "if name == 335.333 { return true; }";
    let mut lexer = Lexer::new(src);
    let mut tokens = Vec::new();
    while let Some(item) = lexer.next_token() {
        tokens.push(item);
    }
    assert_eq!(tokens.len(), 9);
}

#[test]
fn number_error() {
    let src = "if name == 335.333.2 { return true; }";
    let lexer = Lexer::new(src);

    let (tokens, errors) = consume_lexer(lexer);

    assert_eq!(tokens.len(), 8);
    assert_eq!(errors.len(), 1);
}

#[test]
fn lex_function() {
    let src = "fn add(a: int, b: int) -> int { return a + b; }";
    let lexer = Lexer::new(src);
    let (tokens, errors) = consume_lexer(lexer);

    assert_eq!(errors.len(), 0);

    assert_eq!(tokens.len(), 20);
}

#[test]
fn lex_round_trip_spelling() {
    // every keyword, type name, operator and bracket token covers exactly
    // the source text of its canonical spelling
    let src = "fn cmp(a: int, b: bool) -> bool { if a <= 3 { return b; } return a != 4; }";
    let lexer = Lexer::new(src);
    let (tokens, errors) = consume_lexer(lexer);
    assert_eq!(errors.len(), 0);
    for t in &tokens {
        let canonical = t.kind.is_keyword()
            || t.kind.is_operator()
            || matches!(
                t.kind,
                TokenKind::LParen | TokenKind::RParen | TokenKind::LBrace | TokenKind::RBrace
            );
        if canonical {
            assert_eq!(t.kind.text(), &src[t.span.start..t.span.end]);
        }
    }
}

#[test]
fn lex_comments_and_whitespace() {
    let src = "fn main() -> int {\n    // the answer\n    return 42;\n}\n";
    let (tokens, errors) = consume_lexer(Lexer::new(src));
    assert_eq!(errors.len(), 0);
    assert_eq!(tokens.len(), 11);
}

#[test]
fn lex_unexpected_character() {
    let (tokens, errors) = consume_lexer(Lexer::new("let x # = 1;"));
    assert_eq!(errors.len(), 1);
    assert_eq!(errors[0].message(), "Unexpected character: `#`");
    assert_eq!(tokens.len(), 5);
}

#[test]
fn lex_operator_at_end_of_input() {
    let (tokens, errors) = consume_lexer(Lexer::new("a +"));
    assert_eq!(tokens.len(), 1);
    assert_eq!(errors.len(), 1);
    assert_eq!(errors[0].message(), "Unexpected EOF");
}

#[test]
fn lex_integer_overflow() {
    let (tokens, errors) = consume_lexer(Lexer::new("99999999999999999999"));
    assert_eq!(tokens.len(), 0);
    assert_eq!(errors.len(), 1);
    assert_eq!(
        errors[0].message(),
        "Invalid literal: `99999999999999999999`"
    );
}

#[test]
fn lex_number_values() {
    let (tokens, errors) = consume_lexer(Lexer::new("0 7 2147483647"));
    assert_eq!(errors.len(), 0);
    let values: Vec<i32> = tokens
        .iter()
        .map(|t| match t.kind {
            TokenKind::IntLiteral(v) => v,
            _ => panic!("expected an integer literal"),
        })
        .collect();
    assert_eq!(values, vec![0, 7, 2147483647]);
}

#[test]
fn lex_spans() {
    let src = "let abc = 12;";
    let (tokens, errors) = consume_lexer(Lexer::new(src));
    assert_eq!(errors.len(), 0);
    assert_eq!(tokens[0].span, Span { start: 0, end: 3 });
    assert_eq!(tokens[1].span, Span { start: 4, end: 7 });
    assert_eq!(tokens[3].span, Span { start: 10, end: 12 });
}

#[test]
fn keyword_and_operator_tables() {
    assert!(matches!(TokenKind::keyword_from("fn"), TokenKind::Fn));
    assert!(matches!(TokenKind::keyword_from("while"), TokenKind::While));
    assert!(matches!(
        TokenKind::keyword_from("banana"),
        TokenKind::Ident(_)
    ));
    assert!(matches!(TokenKind::operator_from("+"), TokenKind::Plus));
    assert!(matches!(TokenKind::operator_from("->"), TokenKind::Arrow));
    assert!(matches!(
        TokenKind::operator_from("=="),
        TokenKind::EqualsEquals
    ));
    assert_eq!(TokenKind::Arrow.text(), "->");
    assert_eq!(TokenKind::Return.text(), "return");
    assert!(TokenKind::Semicolon.is_operator());
    assert!(TokenKind::Int.is_keyword());
    assert!(TokenKind::Int.is_data_type());
    assert!(TokenKind::IntLiteral(3).is_literal());
    assert!(!TokenKind::LBrace.is_operator());
}

#[test]
fn span_combine_and_between() {
    let a = Span { start: 2, end: 5 };
    let b = Span { start: 9, end: 11 };
    assert_eq!(Span::combine(&a, &b), Span { start: 2, end: 11 });
    assert_eq!(Span::combine(&b, &a), Span { start: 2, end: 11 });
    assert_eq!(Span::between(&a, &b), Span { start: 5, end: 9 });
    assert_eq!(Span::default(), Span { start: 0, end: 0 });
}

#[test]
fn default_output_file_names() {
    assert_eq!(pyl::frontend::default_output_file("tests/add.pyl"), "tests/add.exe");
    assert_eq!(pyl::frontend::default_output_file("program"), "program.exe");
    assert_eq!(pyl::frontend::default_output_file("a.b.c"), "a.b.exe");
}
