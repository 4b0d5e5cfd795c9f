use interpreter::astprinter::AstPrinter;
use interpreter::expr::{Bin, Expr, ExprType, Grp, Lit, Unr};
use interpreter::interpreter::Interpreter;
use interpreter::token::{Token, TokenType};

fn sample_tree() -> ExprType {
    let unary = ExprType::Unary(Unr {
        operator: Token::new(TokenType::Minus, b"-".to_vec(), None, 1, 0, 0),
        right: Box::new(ExprType::Literal(Lit { value: "123".to_string() })),
    });
    let grouping = ExprType::Grouping(Grp {
        expr: Box::new(ExprType::Literal(Lit { value: "45.67".to_string() })),
    });
    ExprType::Binary(Bin {
        left: Box::new(unary),
        operator: Token::new(TokenType::Star, b"*".to_vec(), None, 1, 0, 0),
        right: Box::new(grouping),
    })
}

#[test]
fn prints_nested_expression() {
    let mut printer = AstPrinter {};
    assert_eq!(printer.print(sample_tree()), "(* (- 123) (group 45.67))".to_string());
}

#[test]
fn accept_dispatches_to_the_printer() {
    let mut printer = AstPrinter {};
    let rendered: String = sample_tree().accept(&mut printer);
    assert_eq!(rendered, "(* (- 123) (group 45.67))".to_string());
}

#[test]
fn empty_literal_prints_nil() {
    let mut printer = AstPrinter {};
    assert_eq!(printer.print(ExprType::Literal(Lit { value: String::new() })), "nil".to_string());
}

#[test]
fn interpreter_starts_clean() {
    let session = Interpreter::new();
    assert!(!session.error_handler.error);
    assert!(session.error_handler.diagnostics.is_empty());
}
