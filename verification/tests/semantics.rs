//! Tests of the semantic analyzer: scope checks, type checks, return-path
//! analysis and dead-code findings. A few assertions are deliberately loose
//! about which finding comes first; most pin the exact message.

use pyl::analysis::analyse;
use pyl::ast::{
    Expression, Literal, LiteralKind, PrimaryExpression, UnaryExpression, UnaryExpressionKind, AST,
};
use pyl::lexer::{consume_lexer, Lexer};
use pyl::parser::Parser;
use pyl::symbols::SymbolTable;
use pyl::token::Span;

fn quick_parse(input: &str) -> AST {
    let lexer = Lexer::new(input);
    let (tokens, err) = consume_lexer(lexer);

    assert!(err.is_empty());

    let mut parser = Parser::new(tokens);
    match parser.parse("test".to_string()) {
        Ok(ast) => ast,
        Err(e) => panic!("Parser error: {}", e.message()),
    }
}

#[test]
fn test_missing_main() {
    let src = "fn foo() -> int {return 1;}";
    let ast = quick_parse(src);
    let errors = analyse(&ast);

    assert_eq!(errors.len(), 1);

    assert_eq!(errors[0].message(), "Missing `main` function");
}

#[test]
fn test_main_found() {
    let src = "fn main() -> int {return 0;}";
    let ast = quick_parse(src);
    let errors = analyse(&ast);

    assert_eq!(errors.len(), 0);
}

#[test]
fn test_duplicate_main() {
    let src = "fn main() -> int {return 0;}\n\nfn main() -> int {return 1;}";
    let ast = quick_parse(src);
    let errors = analyse(&ast);

    assert_eq!(errors.len(), 1);

    assert_eq!(errors[0].message(), "Function `main` already declared");
}

#[test]
fn test_duplicate_var() {
    let src = "fn main() -> int { let x: int = 5; let x: int = 10; return y; }";
    let ast = quick_parse(src);
    let errors = analyse(&ast);

    assert_eq!(errors.len(), 1);

    assert_eq!(errors[0].message(), "Variable `x` already declared");
}

#[test]
fn test_no_return() {
    let src = "fn main() -> int {}";
    let ast = quick_parse(src);
    let errors = analyse(&ast);

    assert_eq!(errors.len(), 1);

    assert_eq!(errors[0].message(), "Missing return statement");
}

#[test]
fn test_if() {
    let src = "fn main() -> int {if 1 == 1 { return 5; }}";
    let ast = quick_parse(src);
    let errors = analyse(&ast);

    assert!(errors.len() > 0);
}

#[test]
fn undeclared_var() {
    let src = "fn main() -> int { let x:int = 3; return x; }";
    let ast = quick_parse(src);
    let errors = analyse(&ast);

    assert_eq!(errors.len(), 0);
}

#[test]
fn incompatible_return_type() {
    let src = "fn main() -> int {\n\treturn 5;\n}\nfn foo() -> bool {\n\treturn 5;\n}";
    let ast = quick_parse(src);
    let errors = analyse(&ast);

    assert_eq!(errors.len(), 1);

    assert_eq!(errors[0].message(), "Incompatible return type");
}

#[test]
fn incompatible_return_type_var() {
    let src = "fn main() -> int {\n\treturn 5;\n}\nfn foo() -> bool {\n\tlet x: int = 5;\n\treturn x;\n}";
    let ast = quick_parse(src);
    let errors = analyse(&ast);

    assert_eq!(errors.len(), 1);

    assert_eq!(errors[0].message(), "Incompatible return type");
}

#[test]
fn return_unguaranteed() {
    // should fail: there is no return statement if the condition is false
    let src = r#"fn main() -> int {
            if 1 == 1 {
                return 5;
            }
        }"#;
    let ast = quick_parse(src);
    let errors = analyse(&ast);

    assert_eq!(errors.len(), 1);

    assert_eq!(errors[0].message(), "Return not guaranteed in all branches");
}

#[test]
fn return_unguaranteed_2() {
    // should pass: all paths have a return statement
    let src = r#"fn main() -> int {
            if 1 == 1 {
                return 5;
            } else {
                return 6;
            }
        }"#;
    let ast = quick_parse(src);
    let errors = analyse(&ast);

    assert_eq!(errors.len(), 0);
}

#[test]
fn return_unguaranteed_3() {
    // should fail: there is no return statement if the condition is false
    let src = r#"fn main() -> int {
            if 1 == 1 {
                return 5;
            } else {
            }
        }"#;
    let ast = quick_parse(src);
    let errors = analyse(&ast);

    assert_eq!(errors.len(), 1);

    assert_eq!(errors[0].message(), "Return not guaranteed in all branches");
}

#[test]
fn return_unguaranteed_4() {
    // should pass: the trailing return covers the fallthrough path
    let src = r#"fn main() -> int {
            if 1 == 1 {
                return 5;
            }

            return 6;
        }"#;
    let ast = quick_parse(src);
    let errors = analyse(&ast);

    assert_eq!(errors.len(), 0);
}

#[test]
fn return_unguaranteed_5() {
    // should pass: every nested path returns
    let src = r#"fn main() -> int {
            if 1 == 1 {
                if 2 == 2 {
                    return 5;
                } else {
                    return 6;
                }
            } else {
                return 7;
            }
        }"#;
    let ast = quick_parse(src);
    let errors = analyse(&ast);

    assert_eq!(errors.len(), 0);
}

#[test]
fn duplicate_var_same_value() {
    // a redeclaration with the same initializer still collides
    let src = "fn main() -> int { let x: int = 5; let x: int = 5; return x; }";
    let ast = quick_parse(src);
    let errors = analyse(&ast);

    assert_eq!(errors.len(), 1);
    assert_eq!(errors[0].message(), "Variable `x` already declared");
}

#[test]
fn valid_program_with_calls() {
    // a guaranteed-return `main` and a forward call check out clean
    let src = "fn main() -> int { return add(1, 2); } fn add(a: int, b: int) -> int { return a + b; }";
    let ast = quick_parse(src);
    let errors = analyse(&ast);
    assert_eq!(errors.len(), 0);
}

#[test]
fn add_function_alone() {
    // analysis of a lone helper yields only the missing-main error
    let src = "fn add(a: int, b: int) -> int { return a + b; }";
    let ast = quick_parse(src);
    let errors = analyse(&ast);
    assert_eq!(errors.len(), 1);
    assert_eq!(errors[0].message(), "Missing `main` function");
    assert!(errors[0].is_error());
}

#[test]
fn main_must_return_int() {
    let src = "fn main() -> bool { return true; }";
    let ast = quick_parse(src);
    let errors = analyse(&ast);
    assert_eq!(errors.len(), 1);
    assert_eq!(errors[0].message(), "`main` must return an integer");
}

#[test]
fn non_boolean_condition() {
    let src = "fn main() -> int { if 1 { return 1; } return 2; }";
    let ast = quick_parse(src);
    let errors = analyse(&ast);
    assert_eq!(errors.len(), 1);
    assert_eq!(errors[0].message(), "Condition must be a boolean");
}

#[test]
fn variable_not_declared() {
    let src = "fn main() -> int { let x: int = y + 1; return x; }";
    let ast = quick_parse(src);
    let errors = analyse(&ast);
    assert_eq!(errors.len(), 1);
    assert_eq!(errors[0].message(), "Variable `y` has not been declared yet");
}

#[test]
fn function_not_declared() {
    let src = "fn main() -> int { return foo(); }";
    let ast = quick_parse(src);
    let errors = analyse(&ast);
    assert_eq!(errors.len(), 1);
    assert_eq!(errors[0].message(), "Function `foo` has not been declared yet");
}

#[test]
fn argument_count_mismatch() {
    let src = "fn f(a: int) -> int { return a; } fn main() -> int { return f(); }";
    let ast = quick_parse(src);
    let errors = analyse(&ast);
    assert_eq!(errors.len(), 1);
    assert_eq!(errors[0].message(), "Argument count mismatch");
}

#[test]
fn argument_type_mismatch() {
    let src = "fn f(a: int) -> int { return a; } fn main() -> int { return f(true); }";
    let ast = quick_parse(src);
    let errors = analyse(&ast);
    assert_eq!(errors.len(), 1);
    assert_eq!(errors[0].message(), "Types do not match");
}

#[test]
fn declared_type_mismatch() {
    let src = "fn main() -> int { let x: int = true; return x; }";
    let ast = quick_parse(src);
    let errors = analyse(&ast);
    assert_eq!(errors.len(), 1);
    assert_eq!(errors[0].message(), "Types do not match");
}

#[test]
fn unused_variable_warning() {
    let src = "fn main() -> int { let y: int = 1; return 2; }";
    let ast = quick_parse(src);
    let diags = analyse(&ast);
    assert_eq!(diags.len(), 1);
    assert_eq!(diags[0].message(), "Unused variable");
    assert!(!diags[0].is_error());
}

#[test]
fn underscore_suppresses_unused_warning() {
    let src = "fn main() -> int { let _y: int = 1; return 2; }";
    let ast = quick_parse(src);
    let diags = analyse(&ast);
    assert_eq!(diags.len(), 0);
}

#[test]
fn unreachable_code_reported_once() {
    // both branches return, so the two following statements are
    // unreachable and reported with one warning spanning them
    let src = "fn main() -> int { if 1 == 1 { return 1; } else { return 2; } let x: int = 3; return x; }";
    let ast = quick_parse(src);
    let diags = analyse(&ast);
    assert_eq!(diags.len(), 1);
    assert_eq!(diags[0].message(), "Unreachable code");
    assert!(!diags[0].is_error());
    let span = diags[0].first_span(&"test".to_string());
    // from the start of `let x: int = 3;` through the final return's
    // expression
    assert_eq!(&src[span.start..span.end], "let x: int = 3; return x");
}

#[test]
fn unsupported_unary_operation() {
    let operand = Expression::Primary(PrimaryExpression::Literal(Literal {
        kind: LiteralKind::Bool(true),
        span: Span { start: 0, end: 4 },
    }));
    let negation = UnaryExpression {
        kind: UnaryExpressionKind::Negation(Box::new(operand)),
        span: Span { start: 0, end: 5 },
    };
    let table = SymbolTable::new();
    let diags = negation.analyze(&table, 0);
    assert_eq!(diags.len(), 1);
    assert_eq!(diags[0].message(), "Unsupported unary operation");
}

#[test]
fn shadowing_in_child_scope_is_allowed() {
    let src = "fn main() -> int { let x: int = 1; if x == 1 { let x: bool = true; if x { return 2; } return 3; } return x; }";
    let ast = quick_parse(src);
    let diags = analyse(&ast);
    assert_eq!(diags.len(), 0);
}

#[test]
fn own_initializer_counts_as_use() {
    // the declaration's own initializer marks the name used, so a
    // self-referential declaration is not reported unused
    let src = "fn main() -> int { let x: int = x; return 2; }";
    let ast = quick_parse(src);
    let diags = analyse(&ast);
    // the initializer's `x` resolves to the binding just made, so the
    // types agree and nothing is reported
    assert_eq!(diags.len(), 0);
}

#[test]
fn float_typed_function_analyses() {
    let src = "fn scale(x: float) -> float { return x; } fn main() -> int { return 0; }";
    let ast = quick_parse(src);
    let diags = analyse(&ast);
    assert_eq!(diags.len(), 0);
}
