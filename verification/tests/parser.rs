use monkey_parser::ast::Expression;
use monkey_parser::ast::Infix;
use monkey_parser::ast::Prefix;
use monkey_parser::ast::Program;
use monkey_parser::ast::Statement;
use monkey_parser::lexer::Lexer;
use monkey_parser::parser::Parser;

fn parse_program_checked(input: &str) -> Program {
    let l = Lexer::new(input.to_string());
    let mut p = Parser::new(l);
    let program = p.parse_program();
    if let Err(e) = p.check_parse_errors() {
        panic!("{}", e);
    }
    program
}

fn expr_of(stmt: &Statement) -> &Expression {
    match stmt {
        Statement::Expr(es) => &es.value,
        _ => panic!(
            "program.statements should has ExpressionStatement, but got {:?}",
            stmt
        ),
    }
}

fn check_identifier(expr: &Expression, value: &str) {
    let ident = match expr {
        Expression::Identifier(ident) => ident,
        _ => panic!("Expression should has Identifier, got {:?}", expr),
    };
    if ident.value != value {
        panic!("Identifier should has foobar, but got {}", ident.value);
    }
}

fn check_integer_literal(expr: &Expression, comp: &i64) {
    let lit = match expr {
        Expression::Literal(lit) => lit,
        _ => panic!("Expression should has Literal, got {:?}", expr),
    };
    let int = match lit {
        monkey_parser::ast::Literal::Integer(int) => int,
        _ => panic!("Literal should has Integer, got {:?}", lit),
    };
    if int.value != *comp {
        panic!("Identifier should has {}, but got {}", int.value, comp);
    }
}

fn check_boolean(expr: &Expression, comp: &bool) {
    let lit = match expr {
        Expression::Literal(lit) => lit,
        _ => panic!("Expression should has Literal, got {:?}", expr),
    };
    let b = match lit {
        monkey_parser::ast::Literal::Boolean(b) => b,
        _ => panic!("Literal should has Boolean, got {:?}", lit),
    };
    if b.value != *comp {
        panic!("Identifier should has {}, but got {}", b.value, comp);
    }
}

fn check_infix_int(input: &str, left: i64, operator: Infix, right: i64) {
    let program = parse_program_checked(input);
    if program.statements.len() != 1 {
        panic!(
            "program.statements should has only 1 statement, but got {}",
            program.statements.len()
        );
    }
    let expr = expr_of(&program.statements[0]);
    let inf = match expr {
        Expression::Infix(inf) => inf,
        _ => panic!("Expression should has InfixExpression, got {:?}", expr),
    };
    check_integer_literal(&inf.left, &left);
    if inf.operator != operator {
        panic!(
            "Infix should has '{:?}', but got '{:?}'",
            operator, inf.operator
        );
    }
    check_integer_literal(&inf.right, &right);
}

fn check_infix_bool(input: &str, left: bool, operator: Infix, right: bool) {
    let program = parse_program_checked(input);
    if program.statements.len() != 1 {
        panic!(
            "program.statements should has only 1 statement, but got {}",
            program.statements.len()
        );
    }
    let expr = expr_of(&program.statements[0]);
    let inf = match expr {
        Expression::Infix(inf) => inf,
        _ => panic!("Expression should has InfixExpression, got {:?}", expr),
    };
    check_boolean(&inf.left, &left);
    if inf.operator != operator {
        panic!(
            "Infix should has '{:?}', but got '{:?}'",
            operator, inf.operator
        );
    }
    check_boolean(&inf.right, &right);
}

fn check_prefix_int(input: &str, operator: Prefix, right: i64) {
    let program = parse_program_checked(input);
    if program.statements.len() != 1 {
        panic!(
            "program.statements should has only 1 statement, but got {}",
            program.statements.len()
        );
    }
    let expr = expr_of(&program.statements[0]);
    let pre = match expr {
        Expression::Prefix(pre) => pre,
        _ => panic!("Expression should has PrefixExpression, got {:?}", expr),
    };
    if pre.operator != operator {
        panic!(
            "Prefix should has '{:?}', but got '{:?}'",
            operator, pre.operator
        );
    }
    check_integer_literal(&pre.right, &right);
}

fn check_prefix_bool(input: &str, operator: Prefix, right: bool) {
    let program = parse_program_checked(input);
    if program.statements.len() != 1 {
        panic!(
            "program.statements should has only 1 statement, but got {}",
            program.statements.len()
        );
    }
    let expr = expr_of(&program.statements[0]);
    let pre = match expr {
        Expression::Prefix(pre) => pre,
        _ => panic!("Expression should has PrefixExpression, got {:?}", expr),
    };
    if pre.operator != operator {
        panic!(
            "Prefix should has '{:?}', but got '{:?}'",
            operator, pre.operator
        );
    }
    check_boolean(&pre.right, &right);
}

fn check_infix_ident(expr: &Expression, left: &str, operator: Infix, right: &str) {
    let inf = match expr {
        Expression::Infix(inf) => inf,
        _ => panic!("Expression should has InfixExpression, got {:?}", expr),
    };
    check_identifier(&inf.left, left);
    if inf.operator != operator {
        panic!(
            "Infix should has '{:?}', but got '{:?}'",
            operator, inf.operator
        );
    }
    check_identifier(&inf.right, right);
}

#[test]
fn test_parse_identifier_expression() {
    let program = parse_program_checked("foobar;");
    if program.statements.len() != 1 {
        panic!(
            "program.statements should has only 1 statement, but got {}",
            program.statements.len()
        );
    }
    let expr = expr_of(&program.statements[0]);
    check_identifier(expr, "foobar");
}

#[test]
fn test_parse_int_literal_expression() {
    let program = parse_program_checked("5;");
    if program.statements.len() != 1 {
        panic!(
            "program.statements should has only 1 statement, but got {}",
            program.statements.len()
        );
    }
    let expr = expr_of(&program.statements[0]);
    check_integer_literal(expr, &5);
}

#[test]
fn test_boolean_expression() {
    let program = parse_program_checked("\ntrue;\nfalse;\n");
    if program.statements.len() != 2 {
        panic!(
            "program.statements should has only 1 statement, but got {}",
            program.statements.len()
        );
    }
    let tests = [true, false];
    for (i, tt) in tests.iter().enumerate() {
        let expr = expr_of(&program.statements[i]);
        check_boolean(expr, tt);
    }
}

#[test]
fn test_parse_prefix_expression() {
    check_prefix_int("!5;", Prefix::Bang, 5);
    check_prefix_int("-15;", Prefix::Minus, 15);
    check_prefix_bool("!true;", Prefix::Bang, true);
    check_prefix_bool("!false;", Prefix::Bang, false);
}

#[test]
fn test_parse_infix_expression() {
    check_infix_int("5 + 5;", 5, Infix::Plus, 5);
    check_infix_int("5 - 5;", 5, Infix::Minus, 5);
    check_infix_int("5 * 5;", 5, Infix::Asterisk, 5);
    check_infix_int("5 / 5;", 5, Infix::Slash, 5);
    check_infix_int("5 > 5;", 5, Infix::Gt, 5);
    check_infix_int("5 < 5;", 5, Infix::Lt, 5);
    check_infix_int("5 == 5;", 5, Infix::Equal, 5);
    check_infix_int("5 != 5;", 5, Infix::NotEq, 5);
    check_infix_bool("true == true;", true, Infix::Equal, true);
    check_infix_bool("true != false;", true, Infix::NotEq, false);
    check_infix_bool("false == false;", false, Infix::Equal, false);
}

#[test]
fn test_operator_precedence_parsing() {
    let precedence_tests = [
        ("true", "true"),
        ("false", "false"),
        ("3 > 5 == false", "((3 > 5) == false)"),
        ("3 < 5 == true", "((3 < 5) == true)"),
        ("-a + b", "((-a) + b)"),
        ("!-a", "(!(-a))"),
        ("a + b + c", "((a + b) + c)"),
        ("a + b - c", "((a + b) - c)"),
        ("a * b * c", "((a * b) * c)"),
        ("a * b / c", "((a * b) / c)"),
        ("a + b / c", "(a + (b / c))"),
        ("a + b * c + d / e - f", "(((a + (b * c)) + (d / e)) - f)"),
        ("3 + 4; -5 * 5", "(3 + 4)((-5) * 5)"),
        ("5 > 4 == 3 < 4", "((5 > 4) == (3 < 4))"),
        ("5 < 4 != 3 > 4", "((5 < 4) != (3 > 4))"),
        (
            "3 + 4 * 5 == 3 * 1 + 4 * 5",
            "((3 + (4 * 5)) == ((3 * 1) + (4 * 5)))",
        ),
        ("1 + (2 + 3) + 4", "((1 + (2 + 3)) + 4)"),
        ("(5 + 5) * 2", "((5 + 5) * 2)"),
        ("2 / (5 + 5)", "(2 / (5 + 5))"),
        ("-(5 + 5)", "(-(5 + 5))"),
        ("!(true == true)", "(!(true == true))"),
    ];
    for (input, expected) in precedence_tests.iter() {
        let program = parse_program_checked(input);
        let actual = program.render();
        if actual != *expected {
            panic!("expected={}, actual={}", expected, actual);
        }
    }
}

#[test]
fn test_parse_if_expression() {
    let program = parse_program_checked("if (x < y) { x };");
    if program.statements.len() != 1 {
        panic!(
            "program.statements should has only 1 statement, but got {}",
            program.statements.len()
        );
    }
    let expr = expr_of(&program.statements[0]);
    let if_expr = match expr {
        Expression::If(if_expr) => if_expr,
        _ => panic!("Expression should has IfExpression, but got {:?}", expr),
    };
    check_infix_ident(&if_expr.condition, "x", Infix::Lt, "y");
    if if_expr.consequence.statements.len() != 1 {
        panic!(
            "if_expr.consequence.statements should has only 1 statement, but got {}",
            if_expr.consequence.statements.len()
        );
    }
    let con_expr = match &if_expr.consequence.statements[0] {
        Statement::Expr(expr) => expr,
        _ => panic!(
            "if_expr.consequence.statements[0] should has ExpressionStatement, but got {:?}",
            if_expr.consequence.statements[0]
        ),
    };
    check_identifier(&con_expr.value, "x");
    if let Some(_) = if_expr.alternative {
        panic!(
            "if_expr.alternative should be None, but {:?}",
            if_expr.alternative
        );
    }
}

#[test]
fn test_parse_else_expression() {
    let program = parse_program_checked("if (x < y) { x } else { y };");
    if program.statements.len() != 1 {
        panic!(
            "program.statements should has only 1 statement, but got {}",
            program.statements.len()
        );
    }
    let expr = expr_of(&program.statements[0]);
    let if_expr = match expr {
        Expression::If(if_expr) => if_expr,
        _ => panic!("Expression should has IfExpression, but got {:?}", expr),
    };
    check_infix_ident(&if_expr.condition, "x", Infix::Lt, "y");
    if if_expr.consequence.statements.len() != 1 {
        panic!(
            "if_expr.consequence.statements should has only 1 statement, but got {}",
            if_expr.consequence.statements.len()
        );
    }
    let con_expr = match &if_expr.consequence.statements[0] {
        Statement::Expr(con_expr) => con_expr,
        _ => panic!(
            "if_expr.consequence.statements[0] should has ExpressionStatement, but got {:?}",
            if_expr.consequence.statements[0]
        ),
    };
    check_identifier(&con_expr.value, "x");
    let else_expr = match &if_expr.alternative {
        Some(else_expr) => else_expr,
        None => panic!(
            "if_expr.alternative should has alternative, but got {:?}",
            if_expr.alternative
        ),
    };
    let alt_expr = match &else_expr.statements[0] {
        Statement::Expr(alt_expr) => alt_expr,
        _ => panic!(
            "if_expr.alternative should has alternative, but got {:?}",
            if_expr.alternative
        ),
    };
    check_identifier(&alt_expr.value, "y");
}
