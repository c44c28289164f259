//! The token model: the closed set of lexical categories, a mathematical
//! view of each token, and the human-readable rendering used in
//! diagnostics.

use vstd::prelude::*;
use vstd::string::StrSliceExecFns;
use vstd::string::StringExecFns;

use crate::digits::spec_int_string;
use crate::digits::i64_string;

verus! {

/// One lexical unit of source text.
#[allow(non_camel_case_types)]
#[derive(Debug, Clone, PartialEq)]
pub enum Token {
    ILLEGAL,
    EOF,
    /// An identifier, holding its spelling.
    IDENT(String),
    /// An integer literal, holding its parsed value.
    INT(i64),
    ASSIGN,
    PLUS,
    MINUS,
    BANG,
    ASTERISK,
    SLASH,
    LT,
    GT,
    EQ,
    NotEq,
    COMMA,
    SEMICOLON,
    LPAREN,
    RPAREN,
    LBRACE,
    RBRACE,
    FUNCTION,
    LET,
    TRUE,
    FALSE,
    IF,
    ELSE,
    RETURN,
}

/// The mathematical value of a `Token`: identifier text as a character
/// sequence, everything else as a plain tag.
#[allow(non_camel_case_types)]
pub enum TokenModel {
    ILLEGAL,
    EOF,
    IDENT(Seq<char>),
    INT(i64),
    ASSIGN,
    PLUS,
    MINUS,
    BANG,
    ASTERISK,
    SLASH,
    LT,
    GT,
    EQ,
    NotEq,
    COMMA,
    SEMICOLON,
    LPAREN,
    RPAREN,
    LBRACE,
    RBRACE,
    FUNCTION,
    LET,
    TRUE,
    FALSE,
    IF,
    ELSE,
    RETURN,
}

impl View for Token {
    type V = TokenModel;

    open spec fn view(&self) -> TokenModel {
        match self {
            Token::ILLEGAL => TokenModel::ILLEGAL,
            Token::EOF => TokenModel::EOF,
            Token::IDENT(s) => TokenModel::IDENT(s@),
            Token::INT(i) => TokenModel::INT(*i),
            Token::ASSIGN => TokenModel::ASSIGN,
            Token::PLUS => TokenModel::PLUS,
            Token::MINUS => TokenModel::MINUS,
            Token::BANG => TokenModel::BANG,
            Token::ASTERISK => TokenModel::ASTERISK,
            Token::SLASH => TokenModel::SLASH,
            Token::LT => TokenModel::LT,
            Token::GT => TokenModel::GT,
            Token::EQ => TokenModel::EQ,
            Token::NotEq => TokenModel::NotEq,
            Token::COMMA => TokenModel::COMMA,
            Token::SEMICOLON => TokenModel::SEMICOLON,
            Token::LPAREN => TokenModel::LPAREN,
            Token::RPAREN => TokenModel::RPAREN,
            Token::LBRACE => TokenModel::LBRACE,
            Token::RBRACE => TokenModel::RBRACE,
            Token::FUNCTION => TokenModel::FUNCTION,
            Token::LET => TokenModel::LET,
            Token::TRUE => TokenModel::TRUE,
            Token::FALSE => TokenModel::FALSE,
            Token::IF => TokenModel::IF,
            Token::ELSE => TokenModel::ELSE,
            Token::RETURN => TokenModel::RETURN,
        }
    }
}

/// The rendering of a token for diagnostics: the variant name, with the
/// payload in parentheses for identifiers and integer literals.
pub open spec fn spec_token_display(t: TokenModel) -> Seq<char> {
    match t {
        TokenModel::ILLEGAL => "ILLEGAL"@,
        TokenModel::EOF => "EOF"@,
        TokenModel::IDENT(s) => "IDENT("@ + s + ")"@,
        TokenModel::INT(i) => "INT("@ + spec_int_string(i as int) + ")"@,
        TokenModel::ASSIGN => "ASSIGN"@,
        TokenModel::PLUS => "PLUS"@,
        TokenModel::MINUS => "MINUS"@,
        TokenModel::BANG => "BANG"@,
        TokenModel::ASTERISK => "ASTERISK"@,
        TokenModel::SLASH => "SLASH"@,
        TokenModel::LT => "LT"@,
        TokenModel::GT => "GT"@,
        TokenModel::EQ => "EQ"@,
        TokenModel::NotEq => "NotEq"@,
        TokenModel::COMMA => "COMMA"@,
        TokenModel::SEMICOLON => "SEMICOLON"@,
        TokenModel::LPAREN => "LPAREN"@,
        TokenModel::RPAREN => "RPAREN"@,
        TokenModel::LBRACE => "LBRACE"@,
        TokenModel::RBRACE => "RBRACE"@,
        TokenModel::FUNCTION => "FUNCTION"@,
        TokenModel::LET => "LET"@,
        TokenModel::TRUE => "TRUE"@,
        TokenModel::FALSE => "FALSE"@,
        TokenModel::IF => "IF"@,
        TokenModel::ELSE => "ELSE"@,
        TokenModel::RETURN => "RETURN"@,
    }
}

impl Token {
    /// Whether this token has the same shape and payload as `other`.
    pub fn is(&self, other: &Token) -> (r: bool)
        ensures
            r == (self@ == other@),
    {
        match (self, other) {
            (Token::ILLEGAL, Token::ILLEGAL) => true,
            (Token::EOF, Token::EOF) => true,
            (Token::IDENT(a), Token::IDENT(b)) => a.eq(b),
            (Token::INT(a), Token::INT(b)) => *a == *b,
            (Token::ASSIGN, Token::ASSIGN) => true,
            (Token::PLUS, Token::PLUS) => true,
            (Token::MINUS, Token::MINUS) => true,
            (Token::BANG, Token::BANG) => true,
            (Token::ASTERISK, Token::ASTERISK) => true,
            (Token::SLASH, Token::SLASH) => true,
            (Token::LT, Token::LT) => true,
            (Token::GT, Token::GT) => true,
            (Token::EQ, Token::EQ) => true,
            (Token::NotEq, Token::NotEq) => true,
            (Token::COMMA, Token::COMMA) => true,
            (Token::SEMICOLON, Token::SEMICOLON) => true,
            (Token::LPAREN, Token::LPAREN) => true,
            (Token::RPAREN, Token::RPAREN) => true,
            (Token::LBRACE, Token::LBRACE) => true,
            (Token::RBRACE, Token::RBRACE) => true,
            (Token::FUNCTION, Token::FUNCTION) => true,
            (Token::LET, Token::LET) => true,
            (Token::TRUE, Token::TRUE) => true,
            (Token::FALSE, Token::FALSE) => true,
            (Token::IF, Token::IF) => true,
            (Token::ELSE, Token::ELSE) => true,
            (Token::RETURN, Token::RETURN) => true,
            _ => false,
        }
    }

    /// The rendering of this token for diagnostics; a pure function of the
    /// token's value.
    pub fn token_string(&self) -> (r: String)
        ensures
            r@ == spec_token_display(self@),
    {
        match self {
            Token::ILLEGAL => String::from_str("ILLEGAL"),
            Token::EOF => String::from_str("EOF"),
            Token::IDENT(s) => {
                let mut r = String::from_str("IDENT(");
                r.append(s.as_str());
                r.append(")");
                r
            },
            Token::INT(i) => {
                let mut r = String::from_str("INT(");
                let d = i64_string(*i);
                r.append(d.as_str());
                r.append(")");
                r
            },
            Token::ASSIGN => String::from_str("ASSIGN"),
            Token::PLUS => String::from_str("PLUS"),
            Token::MINUS => String::from_str("MINUS"),
            Token::BANG => String::from_str("BANG"),
            Token::ASTERISK => String::from_str("ASTERISK"),
            Token::SLASH => String::from_str("SLASH"),
            Token::LT => String::from_str("LT"),
            Token::GT => String::from_str("GT"),
            Token::EQ => String::from_str("EQ"),
            Token::NotEq => String::from_str("NotEq"),
            Token::COMMA => String::from_str("COMMA"),
            Token::SEMICOLON => String::from_str("SEMICOLON"),
            Token::LPAREN => String::from_str("LPAREN"),
            Token::RPAREN => String::from_str("RPAREN"),
            Token::LBRACE => String::from_str("LBRACE"),
            Token::RBRACE => String::from_str("RBRACE"),
            Token::FUNCTION => String::from_str("FUNCTION"),
            Token::LET => String::from_str("LET"),
            Token::TRUE => String::from_str("TRUE"),
            Token::FALSE => String::from_str("FALSE"),
            Token::IF => String::from_str("IF"),
            Token::ELSE => String::from_str("ELSE"),
            Token::RETURN => String::from_str("RETURN"),
        }
    }
}

} // verus!
