//! Tests of the parser: structure, precedence, spans and fail-fast errors.

use pyl::ast::{
    BinaryOperatorKind, Expression, Item, LiteralKind, PrimaryExpression, PrimitiveKind,
    Statement, AST,
};
use pyl::lexer::{consume_lexer, Lexer};
use pyl::parser::Parser;
use pyl::pretty::PrettyPrint;

fn quick_parse(input: &str) -> AST {
    let (tokens, errors) = consume_lexer(Lexer::new(input));
    assert!(errors.is_empty());
    let mut parser = Parser::new(tokens);
    parser.parse("test".to_string()).expect("parse failed")
}

#[test]
fn parse_add_function() {
    // one function named `add`, two int parameters, int return type, and a
    // body whose single statement returns a binary addition
    let ast = quick_parse("fn add(a: int, b: int) -> int { return a + b; }");
    assert_eq!(ast.program.items.len(), 1);
    let Item::FunctionDecl(f) = &ast.program.items[0];
    assert_eq!(f.ident.ident, "add");
    assert_eq!(f.parameters.len(), 2);
    assert_eq!(f.parameters[0].ident.ident, "a");
    assert_eq!(f.parameters[0].ty.kind(), PrimitiveKind::Int);
    assert_eq!(f.parameters[1].ident.ident, "b");
    assert_eq!(f.parameters[1].ty.kind(), PrimitiveKind::Int);
    assert_eq!(f.ty.kind(), PrimitiveKind::Int);
    assert_eq!(f.block.statements.len(), 1);
    match &f.block.statements[0] {
        Statement::Return(Some(e)) => match e.as_ref() {
            Expression::Binary(b) => {
                assert_eq!(b.op.kind, BinaryOperatorKind::Add);
            },
            _ => panic!("expected a binary expression"),
        },
        _ => panic!("expected a return statement"),
    }
}

#[test]
fn parse_precedence() {
    // `1 + 2 * 3` parses so that `*` binds tighter than `+`
    let ast = quick_parse("fn main() -> int { return 1 + 2 * 3; }");
    let Item::FunctionDecl(f) = &ast.program.items[0];
    match &f.block.statements[0] {
        Statement::Return(Some(e)) => match e.as_ref() {
            Expression::Binary(add) => {
                assert_eq!(add.op.kind, BinaryOperatorKind::Add);
                match add.lhs.as_ref() {
                    Expression::Primary(PrimaryExpression::Literal(l)) => {
                        assert!(matches!(l.kind, LiteralKind::Int(1)));
                    },
                    _ => panic!("expected the literal 1 on the left"),
                }
                match add.rhs.as_ref() {
                    Expression::Binary(mul) => {
                        assert_eq!(mul.op.kind, BinaryOperatorKind::Multiply);
                    },
                    _ => panic!("expected the multiplication on the right"),
                }
            },
            _ => panic!("expected a binary expression"),
        },
        _ => panic!("expected a return statement"),
    }
}

#[test]
fn parse_left_associativity() {
    // `1 - 2 - 3` parses as `(1 - 2) - 3`
    let ast = quick_parse("fn main() -> int { return 1 - 2 - 3; }");
    let Item::FunctionDecl(f) = &ast.program.items[0];
    match &f.block.statements[0] {
        Statement::Return(Some(e)) => match e.as_ref() {
            Expression::Binary(outer) => {
                assert_eq!(outer.op.kind, BinaryOperatorKind::Subtract);
                assert!(matches!(outer.lhs.as_ref(), Expression::Binary(_)));
                assert!(matches!(outer.rhs.as_ref(), Expression::Primary(_)));
            },
            _ => panic!("expected a binary expression"),
        },
        _ => panic!("expected a return statement"),
    }
}

#[test]
fn parse_parentheses_override_precedence() {
    // `(1 + 2) * 3` keeps the addition inside the parentheses
    let ast = quick_parse("fn main() -> int { return (1 + 2) * 3; }");
    let Item::FunctionDecl(f) = &ast.program.items[0];
    match &f.block.statements[0] {
        Statement::Return(Some(e)) => match e.as_ref() {
            Expression::Binary(mul) => {
                assert_eq!(mul.op.kind, BinaryOperatorKind::Multiply);
                assert!(matches!(
                    mul.lhs.as_ref(),
                    Expression::Primary(PrimaryExpression::Parenthesized(_))
                ));
            },
            _ => panic!("expected a binary expression"),
        },
        _ => panic!("expected a return statement"),
    }
}

#[test]
fn unary_after_operator_only() {
    // a unary operator is recognised immediately after a binary operator
    let ast = quick_parse("fn main() -> bool { return 1 == 1 == !false; }");
    drop(ast);
    // ... but not as the leading token of an expression
    let (tokens, _) = consume_lexer(Lexer::new("fn main() -> bool { return !false; }"));
    let mut parser = Parser::new(tokens);
    assert!(parser.parse("test".to_string()).is_err());
}

#[test]
fn parse_fail_fast_on_first_error() {
    let (tokens, errors) = consume_lexer(Lexer::new("fn main( -> int { return 0; }"));
    assert!(errors.is_empty());
    let mut parser = Parser::new(tokens);
    let err = parser.parse("test".to_string()).unwrap_err();
    assert_eq!(err.message(), "Expected token: Ident, found: `->`");
}

#[test]
fn parse_missing_semicolon() {
    let (tokens, _) = consume_lexer(Lexer::new("fn main() -> int { return 0 }"));
    let mut parser = Parser::new(tokens);
    let err = parser.parse("test".to_string()).unwrap_err();
    assert_eq!(err.message(), "Expected token: ;, found: `}`");
}

#[test]
fn parse_empty_input() {
    let mut parser = Parser::new(Vec::new());
    let ast = parser.parse("empty".to_string()).expect("empty parse");
    assert_eq!(ast.program.items.len(), 0);
    assert_eq!(ast.file_id, "empty");
}

#[test]
fn parse_if_else_and_calls() {
    let ast = quick_parse(
        "fn pick(c: bool, a: int, b: int) -> int { if c { return a; } else { return b; } } fn main() -> int { return pick(true, 1, 2); }",
    );
    assert_eq!(ast.program.items.len(), 2);
    let Item::FunctionDecl(f) = &ast.program.items[1];
    match &f.block.statements[0] {
        Statement::Return(Some(e)) => match e.as_ref() {
            Expression::Primary(PrimaryExpression::FunctionCall(i, args)) => {
                assert_eq!(i.ident, "pick");
                assert_eq!(args.len(), 3);
            },
            _ => panic!("expected a call"),
        },
        _ => panic!("expected a return statement"),
    }
}

#[test]
fn pretty_print_shows_structure() {
    let ast = quick_parse("fn add(a: int, b: int) -> int { return a + b; }");
    let text = ast.pretty_print(0);
    assert!(text.starts_with("Program\n"));
    assert!(text.contains("FuncDecl add(a: int, b: int) -> int {"));
    assert!(text.contains("Return"));
    assert!(text.contains("BinaryExpression Add"));
    assert!(text.contains("Ident a"));
}

#[test]
fn parse_float_type_name() {
    // the type grammar admits `float` alongside `int` and `bool`
    let ast = quick_parse("fn scale(x: float) -> float { return x; } fn main() -> int { return 0; }");
    let Item::FunctionDecl(f) = &ast.program.items[0];
    assert_eq!(f.parameters[0].ty.kind(), PrimitiveKind::Float);
    assert_eq!(f.ty.kind(), PrimitiveKind::Float);
}
