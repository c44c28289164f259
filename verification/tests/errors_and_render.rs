use monkey_parser::ast::BlockStatement;
use monkey_parser::ast::Boolean;
use monkey_parser::ast::Expression;
use monkey_parser::ast::ExpressionStatement;
use monkey_parser::ast::Func;
use monkey_parser::ast::Identifier;
use monkey_parser::ast::Integer;
use monkey_parser::ast::Literal;
use monkey_parser::ast::Statement;
use monkey_parser::lexer::Lexer;
use monkey_parser::parser::Parser;

fn parse_with_errors(input: &str) -> (monkey_parser::ast::Program, Vec<String>) {
    let l = Lexer::new(input.to_string());
    let mut p = Parser::new(l);
    let program = p.parse_program();
    (program, p.errors.clone())
}

#[test]
fn test_invalid_start_semicolon() {
    // A bare `;` cannot start an expression: one error, no statement,
    // and no crash.
    let (program, errors) = parse_with_errors(";");
    assert_eq!(program.statements.len(), 0);
    assert_eq!(errors.len(), 1);
    assert_eq!(errors[0], "no prefix parse function for SEMICOLON");
}

#[test]
fn test_invalid_start_rparen() {
    let (program, errors) = parse_with_errors(")");
    assert_eq!(program.statements.len(), 0);
    assert!(errors.len() >= 1);
}

#[test]
fn test_invalid_clause_among_valid_ones() {
    // Two semicolon-terminated clauses, one of them invalid: the
    // expression-statement list is shorter than the clause count, and
    // parsing continues past the bad clause.
    let (program, errors) = parse_with_errors("3 + 4; )");
    assert_eq!(program.statements.len(), 1);
    assert!(errors.len() >= 1);
    assert_eq!(program.render(), "(3 + 4)");
}

#[test]
fn test_check_parse_errors_reports() {
    let l = Lexer::new(";".to_string());
    let mut p = Parser::new(l);
    let _ = p.parse_program();
    match p.check_parse_errors() {
        Ok(()) => panic!("an invalid program should report an error"),
        Err(e) => assert!(e.contains("no prefix parse function")),
    }
}

#[test]
fn test_missing_closing_paren() {
    let (_, errors) = parse_with_errors("(5 + 5");
    assert!(errors.len() >= 1);
    assert_eq!(
        errors[0],
        "expected next token to be RPAREN, got EOF instead"
    );
}

#[test]
fn test_if_missing_paren_is_error() {
    let (_, errors) = parse_with_errors("if x { y }");
    assert!(errors.len() >= 1);
    assert_eq!(
        errors[0],
        "expected next token to be LPAREN, got IDENT(x) instead"
    );
}

#[test]
fn test_else_requires_brace() {
    // A missing `else` is fine, but a present `else` without `{` is an
    // error.
    let (_, errors) = parse_with_errors("if (x) { y } else z");
    assert!(errors.len() >= 1);

    let (program, errors) = parse_with_errors("if (x) { y }");
    assert_eq!(errors.len(), 0);
    assert_eq!(program.statements.len(), 1);
}

#[test]
fn test_illegal_character_becomes_parse_error() {
    // An unrecognized character lexes as ILLEGAL and surfaces as a
    // missing-prefix-rule error, not a crash.
    let (program, errors) = parse_with_errors("@");
    assert_eq!(program.statements.len(), 0);
    assert_eq!(errors.len(), 1);
    assert_eq!(errors[0], "no prefix parse function for ILLEGAL");
}

#[test]
fn test_multiple_statements_render_independently() {
    let (program, errors) = parse_with_errors("3 + 4; -5 * 5");
    assert_eq!(errors.len(), 0);
    assert_eq!(program.statements.len(), 2);
    assert_eq!(program.render(), "(3 + 4)((-5) * 5)");
}

#[test]
fn test_literal_constructors_and_render() {
    let i = Integer::new(42);
    assert_eq!(i.value, 42);
    assert_eq!(i.render(), "42");
    assert_eq!(Integer::new(-7).render(), "-7");
    assert_eq!(Integer::new(i64::MIN).render(), "-9223372036854775808");

    let b = Boolean::new(true);
    assert_eq!(b.value, true);
    assert_eq!(b.render(), "true");
    assert_eq!(Boolean::new(false).render(), "false");

    assert_eq!(Literal::Integer(Integer::new(5)).render(), "5");
    assert_eq!(Literal::Boolean(Boolean::new(false)).render(), "false");
}

#[test]
fn test_func_literal_render() {
    let args = vec![
        Identifier::new("x".to_string()),
        Identifier::new("y".to_string()),
    ];
    let body = BlockStatement {
        statements: vec![Statement::Expr(ExpressionStatement::new(
            Expression::Identifier(Identifier::new("x".to_string())),
        ))],
    };
    let f = Func::new(args, body);
    assert_eq!(f.args.len(), 2);
    assert_eq!(f.render(), "fn(x, y, ) x");
    assert_eq!(Literal::Func(f).render(), "fn(x, y, ) x");
}

#[test]
fn test_if_renders() {
    let (program, errors) = parse_with_errors("if (x < y) { x } else { y }");
    assert_eq!(errors.len(), 0);
    assert_eq!(program.render(), "if(x < y) x else y");
}
