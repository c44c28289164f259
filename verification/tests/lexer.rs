use monkey_parser::lexer::Lexer;
use monkey_parser::token::Token;

fn tokens_of(input: &str) -> Vec<Token> {
    let mut l = Lexer::new(input.to_string());
    let mut out = Vec::new();
    loop {
        let t = l.next_token();
        if matches!(t, Token::EOF) {
            break;
        }
        out.push(t);
    }
    out
}

#[test]
fn test_lex_single_char_operators() {
    let ts = tokens_of("= + - ! * / < >");
    assert_eq!(ts.len(), 8);
    assert!(matches!(ts[0], Token::ASSIGN));
    assert!(matches!(ts[1], Token::PLUS));
    assert!(matches!(ts[2], Token::MINUS));
    assert!(matches!(ts[3], Token::BANG));
    assert!(matches!(ts[4], Token::ASTERISK));
    assert!(matches!(ts[5], Token::SLASH));
    assert!(matches!(ts[6], Token::LT));
    assert!(matches!(ts[7], Token::GT));
}

#[test]
fn test_lex_two_char_operators() {
    let ts = tokens_of("==");
    assert_eq!(ts.len(), 1);
    assert!(matches!(ts[0], Token::EQ));

    let ts = tokens_of("!=");
    assert_eq!(ts.len(), 1);
    assert!(matches!(ts[0], Token::NotEq));

    // Separated, the same characters are two plain tokens.
    let ts = tokens_of("= =");
    assert_eq!(ts.len(), 2);
    assert!(matches!(ts[0], Token::ASSIGN));
    assert!(matches!(ts[1], Token::ASSIGN));

    let ts = tokens_of("! =");
    assert_eq!(ts.len(), 2);
    assert!(matches!(ts[0], Token::BANG));
    assert!(matches!(ts[1], Token::ASSIGN));
}

#[test]
fn test_lex_delimiters() {
    let ts = tokens_of(",;(){}");
    assert_eq!(ts.len(), 6);
    assert!(matches!(ts[0], Token::COMMA));
    assert!(matches!(ts[1], Token::SEMICOLON));
    assert!(matches!(ts[2], Token::LPAREN));
    assert!(matches!(ts[3], Token::RPAREN));
    assert!(matches!(ts[4], Token::LBRACE));
    assert!(matches!(ts[5], Token::RBRACE));
}

#[test]
fn test_lex_keywords_and_identifiers() {
    let ts = tokens_of("fn let true false if else return foobar _tmp x1");
    assert_eq!(ts.len(), 10);
    assert!(matches!(ts[0], Token::FUNCTION));
    assert!(matches!(ts[1], Token::LET));
    assert!(matches!(ts[2], Token::TRUE));
    assert!(matches!(ts[3], Token::FALSE));
    assert!(matches!(ts[4], Token::IF));
    assert!(matches!(ts[5], Token::ELSE));
    assert!(matches!(ts[6], Token::RETURN));
    assert!(matches!(&ts[7], Token::IDENT(s) if s == "foobar"));
    assert!(matches!(&ts[8], Token::IDENT(s) if s == "_tmp"));
    assert!(matches!(&ts[9], Token::IDENT(s) if s == "x1"));
}

#[test]
fn test_lex_integers() {
    let ts = tokens_of("5 15 0 007");
    assert_eq!(ts.len(), 4);
    assert!(matches!(ts[0], Token::INT(5)));
    assert!(matches!(ts[1], Token::INT(15)));
    assert!(matches!(ts[2], Token::INT(0)));
    assert!(matches!(ts[3], Token::INT(7)));
}

#[test]
fn test_lex_integer_saturates() {
    // A digit run too large for a 64-bit signed value saturates.
    let ts = tokens_of("99999999999999999999999999");
    assert_eq!(ts.len(), 1);
    assert!(matches!(ts[0], Token::INT(i) if i == i64::MAX));
    let ts = tokens_of("9223372036854775807");
    assert!(matches!(ts[0], Token::INT(i) if i == i64::MAX));
    let ts = tokens_of("9223372036854775806");
    assert!(matches!(ts[0], Token::INT(9223372036854775806)));
}

#[test]
fn test_lex_illegal_character() {
    let ts = tokens_of("@");
    assert_eq!(ts.len(), 1);
    assert!(matches!(ts[0], Token::ILLEGAL));
}

#[test]
fn test_lex_eof_is_idempotent() {
    let mut l = Lexer::new("x".to_string());
    let first = l.next_token();
    assert!(matches!(&first, Token::IDENT(s) if s == "x"));
    assert!(matches!(l.next_token(), Token::EOF));
    assert!(matches!(l.next_token(), Token::EOF));
    assert!(matches!(l.next_token(), Token::EOF));
}

#[test]
fn test_lex_skips_whitespace() {
    let ts = tokens_of(" \t\r\n  5  \n");
    assert_eq!(ts.len(), 1);
    assert!(matches!(ts[0], Token::INT(5)));
}

#[test]
fn test_lex_mixed_statement() {
    let ts = tokens_of("let five = 5;");
    assert_eq!(ts.len(), 5);
    assert!(matches!(ts[0], Token::LET));
    assert!(matches!(&ts[1], Token::IDENT(s) if s == "five"));
    assert!(matches!(ts[2], Token::ASSIGN));
    assert!(matches!(ts[3], Token::INT(5)));
    assert!(matches!(ts[4], Token::SEMICOLON));
}

#[test]
fn test_token_display_strings() {
    assert_eq!(Token::PLUS.token_string(), "PLUS");
    assert_eq!(Token::EQ.token_string(), "EQ");
    assert_eq!(Token::NotEq.token_string(), "NotEq");
    assert_eq!(Token::IDENT("x".to_string()).token_string(), "IDENT(x)");
    assert_eq!(Token::INT(5).token_string(), "INT(5)");
    assert_eq!(Token::INT(-12).token_string(), "INT(-12)");
    assert_eq!(Token::EOF.token_string(), "EOF");
    assert_eq!(Token::ILLEGAL.token_string(), "ILLEGAL");
}

#[test]
fn test_token_equality() {
    assert!(Token::PLUS.is(&Token::PLUS));
    assert!(!Token::PLUS.is(&Token::MINUS));
    assert!(Token::IDENT("a".to_string()).is(&Token::IDENT("a".to_string())));
    assert!(!Token::IDENT("a".to_string()).is(&Token::IDENT("b".to_string())));
    assert!(Token::INT(3).is(&Token::INT(3)));
    assert!(!Token::INT(3).is(&Token::INT(4)));
}
