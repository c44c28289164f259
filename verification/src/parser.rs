//! The Pratt (precedence-climbing) expression parser. It consumes tokens
//! with one token of lookahead, dispatches on the current token to a
//! prefix rule, then folds infix operators while the peeked operator binds
//! more strongly than the caller's minimum precedence; equal precedence
//! does not recurse, which makes every binary operator left-associative.
//! Syntax errors are accumulated in a list and parsing continues with the
//! next statement.

use vstd::prelude::*;
use vstd::string::StrSliceExecFns;
use vstd::string::StringExecFns;

use crate::token::Token;
use crate::token::TokenModel;
use crate::token::spec_token_display;
use crate::lexer::Lexer;
use crate::lexer::spec_tokenize;
use crate::lexer::spec_next_token;
use crate::lexer::lemma_next_token_advances;
use crate::ast::BinaryOperator;
use crate::ast::bp;
use crate::ast::Prefix;
use crate::ast::Infix;
use crate::ast::Expression;
use crate::ast::ExprModel;
use crate::ast::Identifier;
use crate::ast::Integer;
use crate::ast::Boolean;
use crate::ast::Literal;
use crate::ast::LitModel;
use crate::ast::PrefixExpression;
use crate::ast::InfixExpression;
use crate::ast::IfExpression;
use crate::ast::Statement;
use crate::ast::StmtModel;
use crate::ast::ExpressionStatement;
use crate::ast::BlockStatement;
use crate::ast::BlockModel;
use crate::ast::Program;
use crate::ast::stmt_model;
use crate::ast::stmts_models;
use crate::ast::expr_model;

verus! {

/// The token at position `i` of a token sequence; `EOF` past the end, so
/// a parser that runs off the stream keeps seeing end-of-input.
pub open spec fn tok_at(t: Seq<TokenModel>, i: nat) -> TokenModel {
    if i < t.len() {
        t[i as int]
    } else {
        TokenModel::EOF
    }
}

/// The position after one advance: one step forward, saturating at the
/// stream's last token.
pub open spec fn adv(t: Seq<TokenModel>, p: nat) -> nat {
    if p + 1 < t.len() {
        (p + 1) as nat
    } else {
        p
    }
}

/// How many tokens remain at or after position `p`.
pub open spec fn remt(t: Seq<TokenModel>, p: nat) -> nat {
    if p <= t.len() {
        (t.len() - p) as nat
    } else {
        0
    }
}

/// The precedence level of a token when it stands as a binary operator;
/// `Lowest` for any token that is not one.
pub open spec fn spec_bin_op(t: TokenModel) -> BinaryOperator {
    match t {
        TokenModel::EQ => BinaryOperator::Equals,
        TokenModel::NotEq => BinaryOperator::Equals,
        TokenModel::LT => BinaryOperator::LtGt,
        TokenModel::GT => BinaryOperator::LtGt,
        TokenModel::PLUS => BinaryOperator::Sum,
        TokenModel::MINUS => BinaryOperator::Sum,
        TokenModel::ASTERISK => BinaryOperator::Product,
        TokenModel::SLASH => BinaryOperator::Product,
        _ => BinaryOperator::Lowest,
    }
}

/// The infix operator a token stands for, if any.
pub open spec fn spec_infix_of(t: TokenModel) -> Option<Infix> {
    match t {
        TokenModel::PLUS => Option::Some(Infix::Plus),
        TokenModel::MINUS => Option::Some(Infix::Minus),
        TokenModel::SLASH => Option::Some(Infix::Slash),
        TokenModel::ASTERISK => Option::Some(Infix::Asterisk),
        TokenModel::GT => Option::Some(Infix::Gt),
        TokenModel::LT => Option::Some(Infix::Lt),
        TokenModel::EQ => Option::Some(Infix::Equal),
        TokenModel::NotEq => Option::Some(Infix::NotEq),
        _ => Option::None,
    }
}

/// The prefix operator a token stands for, if any.
pub open spec fn spec_prefix_of(t: TokenModel) -> Option<Prefix> {
    match t {
        TokenModel::MINUS => Option::Some(Prefix::Minus),
        TokenModel::BANG => Option::Some(Prefix::Bang),
        _ => Option::None,
    }
}

/// The error recorded when the current token cannot start an expression.
pub open spec fn no_prefix_msg(t: TokenModel) -> Seq<char> {
    "no prefix parse function for "@ + spec_token_display(t)
}

/// The error recorded when a required token is missing.
pub open spec fn expect_msg(want: TokenModel, got: TokenModel) -> Seq<char> {
    "expected next token to be "@ + spec_token_display(want) + ", got "@ + spec_token_display(got)
        + " instead"@
}

/// The outcome of parsing one expression: the node if one was built, the
/// position of the last token consumed, and the errors recorded.
pub struct PRes {
    pub expr: Option<ExprModel>,
    pub pos: nat,
    pub errs: Seq<Seq<char>>,
}

/// The outcome of parsing one statement.
pub struct SRes {
    pub stmt: Option<StmtModel>,
    pub pos: nat,
    pub errs: Seq<Seq<char>>,
}

/// The outcome of parsing a statement list.
pub struct LRes {
    pub stmts: Seq<StmtModel>,
    pub pos: nat,
    pub errs: Seq<Seq<char>>,
}

/// The outcome of parsing a block.
pub struct BRes {
    pub block: BlockModel,
    pub pos: nat,
    pub errs: Seq<Seq<char>>,
}

/// The outcome of requiring the peeked token to have a given shape:
/// whether it did, the resulting position, and the error recorded if not.
pub open spec fn sp_expect(t: Seq<TokenModel>, p: nat, want: TokenModel) -> (bool, nat, Seq<
    Seq<char>,
>) {
    if tok_at(t, p + 1) == want {
        (true, adv(t, p), Seq::empty())
    } else {
        (false, p, seq![expect_msg(want, tok_at(t, p + 1))])
    }
}

/// Parsing an expression at a minimum precedence: the prefix rule for the
/// current token, then the infix loop.
pub open spec fn sp_expr(t: Seq<TokenModel>, p: nat, min: BinaryOperator) -> PRes
    decreases remt(t, p), 3int,
{
    let pr = sp_prefix(t, p);
    match pr.expr {
        Option::None => pr,
        Option::Some(left) => {
            if pr.pos >= p {
                let l = sp_infix_loop(t, pr.pos, min, left);
                PRes { expr: l.expr, pos: l.pos, errs: pr.errs + l.errs }
            } else {
                pr
            }
        },
    }
}

/// The infix loop: while the peeked token is not a semicolon and binds
/// more strongly than the minimum precedence, absorb it and its right
/// operand into the expression built so far.
pub open spec fn sp_infix_loop(t: Seq<TokenModel>, p: nat, min: BinaryOperator, left: ExprModel) -> PRes
    decreases remt(t, p), 2int,
{
    let pk = tok_at(t, p + 1);
    if pk != TokenModel::SEMICOLON && bp(min) < bp(spec_bin_op(pk)) {
        let r = sp_infix(t, adv(t, p), left);
        match r.expr {
            Option::None => PRes { expr: Option::None, pos: r.pos, errs: r.errs },
            Option::Some(e2) => {
                if r.pos > p {
                    let rec = sp_infix_loop(t, r.pos, min, e2);
                    PRes { expr: rec.expr, pos: rec.pos, errs: r.errs + rec.errs }
                } else {
                    r
                }
            },
        }
    } else {
        PRes { expr: Option::Some(left), pos: p, errs: Seq::empty() }
    }
}

/// One infix step: the current token as operator, then the right operand
/// parsed at that operator's precedence.
pub open spec fn sp_infix(t: Seq<TokenModel>, p: nat, left: ExprModel) -> PRes
    decreases remt(t, p), 1int,
{
    match spec_infix_of(tok_at(t, p)) {
        Option::None => PRes { expr: Option::None, pos: p, errs: Seq::empty() },
        Option::Some(op) => {
            let prec = spec_bin_op(tok_at(t, p));
            let p1 = adv(t, p);
            if p1 > p {
                let r = sp_expr(t, p1, prec);
                match r.expr {
                    Option::None => PRes { expr: Option::None, pos: r.pos, errs: r.errs },
                    Option::Some(rt) => PRes {
                        expr: Option::Some(
                            ExprModel::Infix(Box::new(left), op, Box::new(rt)),
                        ),
                        pos: r.pos,
                        errs: r.errs,
                    },
                }
            } else {
                PRes { expr: Option::None, pos: p, errs: Seq::empty() }
            }
        },
    }
}

/// The prefix rule: dispatch on the current token to the construct it can
/// start, or record that it cannot start an expression.
pub open spec fn sp_prefix(t: Seq<TokenModel>, p: nat) -> PRes
    decreases remt(t, p), 2int,
{
    match tok_at(t, p) {
        TokenModel::IDENT(s) => PRes {
            expr: Option::Some(ExprModel::Ident(s)),
            pos: p,
            errs: Seq::empty(),
        },
        TokenModel::INT(i) => PRes {
            expr: Option::Some(ExprModel::Lit(LitModel::Int(i))),
            pos: p,
            errs: Seq::empty(),
        },
        TokenModel::TRUE => PRes {
            expr: Option::Some(ExprModel::Lit(LitModel::Bool(true))),
            pos: p,
            errs: Seq::empty(),
        },
        TokenModel::FALSE => PRes {
            expr: Option::Some(ExprModel::Lit(LitModel::Bool(false))),
            pos: p,
            errs: Seq::empty(),
        },
        TokenModel::BANG => sp_prefix_expr(t, p),
        TokenModel::MINUS => sp_prefix_expr(t, p),
        TokenModel::LPAREN => sp_grouped(t, p),
        TokenModel::IF => sp_if(t, p),
        _ => PRes { expr: Option::None, pos: p, errs: seq![no_prefix_msg(tok_at(t, p))] },
    }
}

/// A prefix operation: the operator, then its operand parsed at `Prefix`
/// precedence.
pub open spec fn sp_prefix_expr(t: Seq<TokenModel>, p: nat) -> PRes
    decreases remt(t, p), 1int,
{
    match spec_prefix_of(tok_at(t, p)) {
        Option::None => PRes {
            expr: Option::None,
            pos: p,
            errs: seq![no_prefix_msg(tok_at(t, p))],
        },
        Option::Some(op) => {
            let p1 = adv(t, p);
            if p1 > p {
                let r = sp_expr(t, p1, BinaryOperator::Prefix);
                match r.expr {
                    Option::None => PRes { expr: Option::None, pos: r.pos, errs: r.errs },
                    Option::Some(e) => PRes {
                        expr: Option::Some(ExprModel::Prefix(op, Box::new(e))),
                        pos: r.pos,
                        errs: r.errs,
                    },
                }
            } else {
                PRes { expr: Option::None, pos: p, errs: Seq::empty() }
            }
        },
    }
}

/// A grouped expression: everything after the opening parenthesis at
/// `Lowest` precedence, then a required closing parenthesis.
pub open spec fn sp_grouped(t: Seq<TokenModel>, p: nat) -> PRes
    decreases remt(t, p), 1int,
{
    let p1 = adv(t, p);
    if p1 > p {
        let r = sp_expr(t, p1, BinaryOperator::Lowest);
        let e = sp_expect(t, r.pos, TokenModel::RPAREN);
        if e.0 {
            PRes { expr: r.expr, pos: e.1, errs: r.errs + e.2 }
        } else {
            PRes { expr: Option::None, pos: e.1, errs: r.errs + e.2 }
        }
    } else {
        PRes { expr: Option::None, pos: p, errs: Seq::empty() }
    }
}

/// An if-expression: `if ( condition ) { consequence }` and, only when an
/// `else` token is peeked, ` else { alternative }`. A missing `else` is
/// the valid no-alternative case, never an error; a present `else` not
/// followed by a brace is an error.
pub open spec fn sp_if(t: Seq<TokenModel>, p: nat) -> PRes
    decreases remt(t, p), 1int,
{
    let e1 = sp_expect(t, p, TokenModel::LPAREN);
    if !e1.0 {
        PRes { expr: Option::None, pos: e1.1, errs: e1.2 }
    } else {
        let p2 = adv(t, e1.1);
        if p2 > p {
            let c = sp_expr(t, p2, BinaryOperator::Lowest);
            match c.expr {
                Option::None => PRes { expr: Option::None, pos: c.pos, errs: c.errs },
                Option::Some(cond) => {
                    let e2 = sp_expect(t, c.pos, TokenModel::RPAREN);
                    if !e2.0 {
                        PRes { expr: Option::None, pos: e2.1, errs: c.errs + e2.2 }
                    } else {
                        let e3 = sp_expect(t, e2.1, TokenModel::LBRACE);
                        if !e3.0 {
                            PRes { expr: Option::None, pos: e3.1, errs: c.errs + e3.2 }
                        } else {
                            if e3.1 > p {
                                let b = sp_block(t, e3.1);
                                if tok_at(t, b.pos + 1) == TokenModel::ELSE {
                                    let pe = adv(t, b.pos);
                                    let e4 = sp_expect(t, pe, TokenModel::LBRACE);
                                    if !e4.0 {
                                        PRes {
                                            expr: Option::None,
                                            pos: e4.1,
                                            errs: c.errs + b.errs + e4.2,
                                        }
                                    } else {
                                        if e4.1 > p {
                                            let b2 = sp_block(t, e4.1);
                                            PRes {
                                                expr: Option::Some(
                                                    ExprModel::If(
                                                        Box::new(cond),
                                                        b.block,
                                                        Option::Some(b2.block),
                                                    ),
                                                ),
                                                pos: b2.pos,
                                                errs: c.errs + b.errs + b2.errs,
                                            }
                                        } else {
                                            PRes {
                                                expr: Option::None,
                                                pos: e4.1,
                                                errs: c.errs + b.errs,
                                            }
                                        }
                                    }
                                } else {
                                    PRes {
                                        expr: Option::Some(
                                            ExprModel::If(Box::new(cond), b.block, Option::None),
                                        ),
                                        pos: b.pos,
                                        errs: c.errs + b.errs,
                                    }
                                }
                            } else {
                                PRes { expr: Option::None, pos: e3.1, errs: c.errs }
                            }
                        }
                    }
                },
            }
        } else {
            PRes { expr: Option::None, pos: e1.1, errs: e1.2 }
        }
    }
}

/// A block: every statement after the opening brace until a closing brace
/// or the end of input.
pub open spec fn sp_block(t: Seq<TokenModel>, p: nat) -> BRes
    decreases remt(t, p), 6int,
{
    let p1 = adv(t, p);
    if p1 > p {
        let l = sp_block_list(t, p1);
        BRes { block: BlockModel { stmts: l.stmts }, pos: l.pos, errs: l.errs }
    } else {
        BRes { block: BlockModel { stmts: Seq::empty() }, pos: p, errs: Seq::empty() }
    }
}

/// The statements of a block, ending at a closing brace or end of input.
pub open spec fn sp_block_list(t: Seq<TokenModel>, p: nat) -> LRes
    decreases remt(t, p), 5int,
{
    let c = tok_at(t, p);
    if c == TokenModel::RBRACE || c == TokenModel::EOF {
        LRes { stmts: Seq::empty(), pos: p, errs: Seq::empty() }
    } else {
        let s = sp_expr_stmt(t, p);
        let p2 = adv(t, s.pos);
        if s.pos >= p && p2 > p {
            let rest = sp_block_list(t, p2);
            LRes {
                stmts: (match s.stmt {
                    Option::Some(st) => seq![st],
                    Option::None => Seq::empty(),
                }) + rest.stmts,
                pos: rest.pos,
                errs: s.errs + rest.errs,
            }
        } else {
            LRes {
                stmts: (match s.stmt {
                    Option::Some(st) => seq![st],
                    Option::None => Seq::empty(),
                }),
                pos: s.pos,
                errs: s.errs,
            }
        }
    }
}

/// The top-level statements, until end of input.
pub open spec fn sp_stmt_list(t: Seq<TokenModel>, p: nat) -> LRes
    decreases remt(t, p), 5int,
{
    if tok_at(t, p) == TokenModel::EOF {
        LRes { stmts: Seq::empty(), pos: p, errs: Seq::empty() }
    } else {
        let s = sp_expr_stmt(t, p);
        let p2 = adv(t, s.pos);
        if s.pos >= p && p2 > p {
            let rest = sp_stmt_list(t, p2);
            LRes {
                stmts: (match s.stmt {
                    Option::Some(st) => seq![st],
                    Option::None => Seq::empty(),
                }) + rest.stmts,
                pos: rest.pos,
                errs: s.errs + rest.errs,
            }
        } else {
            LRes {
                stmts: (match s.stmt {
                    Option::Some(st) => seq![st],
                    Option::None => Seq::empty(),
                }),
                pos: s.pos,
                errs: s.errs,
            }
        }
    }
}

/// An expression statement: one expression at `Lowest` precedence; a
/// trailing semicolon is consumed when one is peeked.
pub open spec fn sp_expr_stmt(t: Seq<TokenModel>, p: nat) -> SRes
    decreases remt(t, p), 4int,
{
    let r = sp_expr(t, p, BinaryOperator::Lowest);
    match r.expr {
        Option::None => SRes { stmt: Option::None, pos: r.pos, errs: r.errs },
        Option::Some(e) => {
            let p2 = if tok_at(t, r.pos + 1) == TokenModel::SEMICOLON {
                adv(t, r.pos)
            } else {
                r.pos
            };
            SRes { stmt: Option::Some(StmtModel::Expr(e)), pos: p2, errs: r.errs }
        },
    }
}

/// The model of a possibly absent expression node.
pub open spec fn opt_expr_model(r: Option<Expression>) -> Option<ExprModel> {
    match r {
        Option::Some(e) => Option::Some(expr_model(e)),
        Option::None => Option::None,
    }
}

/// The model of a possibly absent statement node.
pub open spec fn opt_stmt_model(r: Option<Statement>) -> Option<StmtModel> {
    match r {
        Option::Some(s) => Option::Some(stmt_model(s)),
        Option::None => Option::None,
    }
}

/// The models of the recorded error messages.
pub open spec fn errs_model(es: Seq<String>) -> Seq<Seq<char>> {
    es.map_values(|s: String| s@)
}

impl Token {
    /// The precedence level of this token when it stands as a binary
    /// operator; `Lowest` for any token that is not one.
    pub fn to_binary_operator(&self) -> (r: BinaryOperator)
        ensures
            r == spec_bin_op(self@),
    {
        match self {
            Token::EQ | Token::NotEq => BinaryOperator::Equals,
            Token::LT | Token::GT => BinaryOperator::LtGt,
            Token::PLUS | Token::MINUS => BinaryOperator::Sum,
            Token::ASTERISK | Token::SLASH => BinaryOperator::Product,
            _ => BinaryOperator::Lowest,
        }
    }
}

/// Parser state: the token stream with an end-of-input marker at its end,
/// the position of the current token, and the accumulated syntax errors.
pub struct Parser {
    /// The tokens of the program, ending with `EOF`.
    pub tokens: Vec<Token>,
    /// The position of the current token; the peeked token follows it.
    pub pos: usize,
    /// The syntax errors recorded so far, oldest first.
    pub errors: Vec<String>,
}

impl Parser {
    /// The models of the parser's tokens.
    pub open spec fn toks(self) -> Seq<TokenModel> {
        self.tokens@.map_values(|t: Token| t@)
    }

    /// The token stream is nonempty, ends with `EOF`, and the cursor lies
    /// on one of its tokens.
    pub open spec fn wf(self) -> bool {
        self.toks().len() >= 1 && self.toks().last() == TokenModel::EOF && self.pos
            < self.tokens@.len()
    }

    /// A parser over every token the given lexer produces. The lexer is
    /// drained up to its end-of-input marker.
    pub fn new(lexer: Lexer) -> (p: Parser)
        requires
            lexer.wf(),
        ensures
            p.wf(),
            p.pos == 0,
            p.errors@ == Seq::<String>::empty(),
            p.toks() == spec_tokenize(lexer.input@, lexer.pos as nat) + seq![TokenModel::EOF],
    {
        let ghost s = lexer.input@;
        let ghost q0 = lexer.pos as nat;
        let mut lx = lexer;
        let mut tokens: Vec<Token> = Vec::new();
        proof {
            assert(errs_model(Seq::<String>::empty()) =~= Seq::<Seq<char>>::empty());
            assert(tokens@.map_values(|t: Token| t@) =~= Seq::<TokenModel>::empty());
        }
        loop
            invariant
                lx.wf(),
                lx.input@ == s,
                q0 <= lx.pos as nat,
                spec_tokenize(s, q0) == tokens@.map_values(|t: Token| t@) + spec_tokenize(
                    s,
                    lx.pos as nat,
                ),
            ensures
                spec_tokenize(s, q0) == tokens@.map_values(|t: Token| t@),
            decreases s.len() - lx.pos as nat,
        {
            let ghost q = lx.pos as nat;
            let t = lx.next_token();
            proof {
                lemma_next_token_advances(s, q);
            }
            if t.is(&Token::EOF) {
                proof {
                    assert(spec_tokenize(s, q) =~= Seq::<TokenModel>::empty());
                    assert(tokens@.map_values(|t2: Token| t2@) + Seq::<TokenModel>::empty()
                        =~= tokens@.map_values(|t2: Token| t2@));
                }
                break;
            }
            proof {
                let (tm, qn) = spec_next_token(s, q);
                assert(spec_tokenize(s, q) == seq![tm] + spec_tokenize(s, qn));
                assert(tokens@.push(t).map_values(|t2: Token| t2@) =~= tokens@.map_values(
                    |t2: Token| t2@,
                ).push(t@));
                assert(tokens@.map_values(|t2: Token| t2@) + (seq![tm] + spec_tokenize(s, qn))
                    =~= tokens@.map_values(|t2: Token| t2@).push(t@) + spec_tokenize(s, qn));
            }
            tokens.push(t);
        }
        let ghost before = tokens@;
        tokens.push(Token::EOF);
        proof {
            assert(tokens@.map_values(|t2: Token| t2@) =~= before.map_values(|t2: Token| t2@).push(
                TokenModel::EOF,
            ));
            assert(before.map_values(|t2: Token| t2@).push(TokenModel::EOF) =~= before.map_values(
                |t2: Token| t2@,
            ) + seq![TokenModel::EOF]);
        }
        Parser { tokens, pos: 0, errors: Vec::new() }
    }

    /// The current token.
    fn cur(&self) -> (t: &Token)
        requires
            self.wf(),
        ensures
            t@ == tok_at(self.toks(), self.pos as nat),
    {
        &self.tokens[self.pos]
    }

    /// The peeked token: the one after the current token, or `EOF` when
    /// none follows.
    fn peek(&self) -> (t: &Token)
        requires
            self.wf(),
        ensures
            t@ == tok_at(self.toks(), self.pos as nat + 1),
    {
        let n = self.tokens.len();
        if self.pos + 1 < n {
            &self.tokens[self.pos + 1]
        } else {
            proof {
                assert(self.toks()[self.tokens@.len() - 1] == self.toks().last());
            }
            &self.tokens[self.tokens.len() - 1]
        }
    }

    /// Advance by one token: the peeked token becomes current. At the
    /// end-of-input marker this changes nothing, so the parser keeps
    /// seeing `EOF`.
    fn next_token(&mut self)
        requires
            old(self).wf(),
        ensures
            final(self).wf(),
            final(self).tokens == old(self).tokens,
            final(self).errors == old(self).errors,
            final(self).pos as nat == adv(old(self).toks(), old(self).pos as nat),
    {
        let n = self.tokens.len();
        if self.pos + 1 < n {
            self.pos = self.pos + 1;
        }
    }

    /// Require the peeked token to have the given shape: advance past it
    /// when it does, record an error and stay in place when it does not.
    pub fn expect_peek(&mut self, expected: Token) -> (r: bool)
        requires
            old(self).wf(),
        ensures
            final(self).wf(),
            final(self).tokens == old(self).tokens,
            old(self).pos <= final(self).pos,
            ({
                let e = sp_expect(old(self).toks(), old(self).pos as nat, expected@);
                &&& r == e.0
                &&& final(self).pos as nat == e.1
                &&& errs_model(final(self).errors@) == errs_model(old(self).errors@) + e.2
            }),
    {
        let ok = self.peek().is(&expected);
        if ok {
            self.next_token();
            proof {
                assert(errs_model(self.errors@) + Seq::<Seq<char>>::empty() =~= errs_model(
                    self.errors@,
                ));
            }
            true
        } else {
            let got = self.peek().token_string();
            let mut m = String::from_str("expected next token to be ");
            let w = expected.token_string();
            m.append(w.as_str());
            m.append(", got ");
            m.append(got.as_str());
            m.append(" instead");
            let ghost before = self.errors@;
            self.errors.push(m);
            proof {
                assert(errs_model(self.errors@) =~= errs_model(before).push(m@));
                assert(errs_model(before).push(m@) =~= errs_model(before) + seq![m@]);
            }
            false
        }
    }

    /// Record that the current token cannot start an expression.
    pub fn no_prefix_parse_error(&mut self)
        requires
            old(self).wf(),
        ensures
            final(self).wf(),
            final(self).tokens == old(self).tokens,
            final(self).pos == old(self).pos,
            errs_model(final(self).errors@) == errs_model(old(self).errors@) + seq![
                no_prefix_msg(tok_at(old(self).toks(), old(self).pos as nat)),
            ],
    {
        let mut m = String::from_str("no prefix parse function for ");
        let t = self.cur().token_string();
        m.append(t.as_str());
        let ghost before = self.errors@;
        self.errors.push(m);
        proof {
            assert(errs_model(self.errors@) =~= errs_model(before).push(m@));
            assert(errs_model(before).push(m@) =~= errs_model(before) + seq![m@]);
        }
    }

    /// An identifier expression for the given spelling.
    pub fn parse_identifier(&self, value: String) -> (r: Option<Expression>)
        ensures
            opt_expr_model(r) == Option::Some(ExprModel::Ident(value@)),
    {
        Some(Expression::Identifier(Identifier::new(value)))
    }

    /// An integer literal expression for the given value.
    pub fn parse_integer_literal(&self, value: i64) -> (r: Option<Expression>)
        ensures
            opt_expr_model(r) == Option::Some(ExprModel::Lit(LitModel::Int(value))),
    {
        proof {
            reveal_with_fuel(expr_model, 2);
        }
        Some(Expression::Literal(Literal::Integer(Integer::new(value))))
    }

    /// A boolean literal expression: true exactly when the current token
    /// is the `true` keyword.
    pub fn parse_boolean_literal(&self) -> (r: Option<Expression>)
        requires
            self.wf(),
        ensures
            opt_expr_model(r) == Option::Some(
                ExprModel::Lit(
                    LitModel::Bool(tok_at(self.toks(), self.pos as nat) == TokenModel::TRUE),
                ),
            ),
    {
        proof {
            reveal_with_fuel(expr_model, 2);
        }
        let b = self.cur().is(&Token::TRUE);
        Some(Expression::Literal(Literal::Boolean(Boolean::new(b))))
    }

    /// The prefix rule: dispatch on the current token to the construct it
    /// can start; record an error if it can start none.
    pub fn parse_prefix(&mut self) -> (r: Option<Expression>)
        requires
            old(self).wf(),
        ensures
            final(self).wf(),
            final(self).tokens == old(self).tokens,
            old(self).pos <= final(self).pos,
            ({
                let s = sp_prefix(old(self).toks(), old(self).pos as nat);
                &&& opt_expr_model(r) == s.expr
                &&& final(self).pos as nat == s.pos
                &&& errs_model(final(self).errors@) == errs_model(old(self).errors@) + s.errs
            }),
        decreases remt(old(self).toks(), old(self).pos as nat), 2int,
    {
        proof {
            assert(errs_model(self.errors@) + Seq::<Seq<char>>::empty() =~= errs_model(
                self.errors@,
            ));
        }
        let c = self.cur();
        match c {
            Token::IDENT(s) => {
                let v = s.clone();
                self.parse_identifier(v)
            },
            Token::INT(i) => {
                let v = *i;
                self.parse_integer_literal(v)
            },
            Token::TRUE | Token::FALSE => self.parse_boolean_literal(),
            Token::BANG | Token::MINUS => self.parse_prefix_expression(),
            Token::LPAREN => self.parse_grouped_expression(),
            Token::IF => self.parse_if_expression(),
            _ => {
                self.no_prefix_parse_error();
                None
            },
        }
    }

    /// One infix step: the current token as operator, then the right
    /// operand parsed at that operator's precedence, folded with the
    /// already-built left operand.
    pub fn parse_infix(&mut self, left: Expression) -> (r: Option<Expression>)
        requires
            old(self).wf(),
        ensures
            final(self).wf(),
            final(self).tokens == old(self).tokens,
            old(self).pos <= final(self).pos,
            ({
                let s = sp_infix(old(self).toks(), old(self).pos as nat, expr_model(left));
                &&& opt_expr_model(r) == s.expr
                &&& final(self).pos as nat == s.pos
                &&& errs_model(final(self).errors@) == errs_model(old(self).errors@) + s.errs
            }),
        decreases remt(old(self).toks(), old(self).pos as nat), 1int,
    {
        let ghost t = self.toks();
        let ghost p = self.pos as nat;
        proof {
            assert(errs_model(self.errors@) + Seq::<Seq<char>>::empty() =~= errs_model(
                self.errors@,
            ));
        }
        let operator = match self.cur() {
            Token::PLUS => Infix::Plus,
            Token::MINUS => Infix::Minus,
            Token::SLASH => Infix::Slash,
            Token::ASTERISK => Infix::Asterisk,
            Token::GT => Infix::Gt,
            Token::LT => Infix::Lt,
            Token::EQ => Infix::Equal,
            Token::NotEq => Infix::NotEq,
            _ => {
                return None;
            },
        };
        proof {
            assert(spec_infix_of(tok_at(t, p)) == Option::Some(operator));
            assert(t.last() == TokenModel::EOF);
            assert(tok_at(t, p) != TokenModel::EOF);
            assert(t[t.len() - 1] == TokenModel::EOF);
            assert(p < t.len() - 1);
            assert(adv(t, p) == p + 1);
        }
        let precedence = self.cur().to_binary_operator();
        self.next_token();
        let right = match self.parse_expression(precedence) {
            Some(expr) => expr,
            None => {
                return None;
            },
        };
        let expr = Expression::Infix(InfixExpression::new(Box::new(left), operator, Box::new(right)));
        Some(expr)
    }

    /// A prefix operation: the operator, then its operand parsed at
    /// `Prefix` precedence.
    pub fn parse_prefix_expression(&mut self) -> (r: Option<Expression>)
        requires
            old(self).wf(),
        ensures
            final(self).wf(),
            final(self).tokens == old(self).tokens,
            old(self).pos <= final(self).pos,
            ({
                let s = sp_prefix_expr(old(self).toks(), old(self).pos as nat);
                &&& opt_expr_model(r) == s.expr
                &&& final(self).pos as nat == s.pos
                &&& errs_model(final(self).errors@) == errs_model(old(self).errors@) + s.errs
            }),
        decreases remt(old(self).toks(), old(self).pos as nat), 1int,
    {
        let ghost t = self.toks();
        let ghost p = self.pos as nat;
        let operator = match self.cur() {
            Token::MINUS => Prefix::Minus,
            Token::BANG => Prefix::Bang,
            _ => {
                self.no_prefix_parse_error();
                return None;
            },
        };
        proof {
            assert(spec_prefix_of(tok_at(t, p)) == Option::Some(operator));
            assert(t[t.len() - 1] == TokenModel::EOF);
            assert(tok_at(t, p) != TokenModel::EOF);
            assert(p < t.len() - 1);
            assert(adv(t, p) == p + 1);
        }
        self.next_token();
        let right = match self.parse_expression(BinaryOperator::Prefix) {
            Some(expr) => expr,
            None => {
                return None;
            },
        };
        Some(Expression::Prefix(PrefixExpression::new(operator, Box::new(right))))
    }

    /// A grouped expression: everything after the opening parenthesis at
    /// `Lowest` precedence, then a required closing parenthesis.
    pub fn parse_grouped_expression(&mut self) -> (r: Option<Expression>)
        requires
            old(self).wf(),
            tok_at(old(self).toks(), old(self).pos as nat) == TokenModel::LPAREN,
        ensures
            final(self).wf(),
            final(self).tokens == old(self).tokens,
            old(self).pos <= final(self).pos,
            ({
                let s = sp_grouped(old(self).toks(), old(self).pos as nat);
                &&& opt_expr_model(r) == s.expr
                &&& final(self).pos as nat == s.pos
                &&& errs_model(final(self).errors@) == errs_model(old(self).errors@) + s.errs
            }),
        decreases remt(old(self).toks(), old(self).pos as nat), 1int,
    {
        let ghost t = self.toks();
        let ghost p = self.pos as nat;
        proof {
            assert(t[t.len() - 1] == TokenModel::EOF);
            assert(p < t.len() - 1);
            assert(adv(t, p) == p + 1);
        }
        self.next_token();
        let left = self.parse_expression(BinaryOperator::Lowest);
        let ghost rr = sp_expr(t, (p + 1) as nat, BinaryOperator::Lowest);
        if !self.expect_peek(Token::RPAREN) {
            proof {
                let e = sp_expect(t, rr.pos, TokenModel::RPAREN);
                assert(errs_model(self.errors@) =~= errs_model(old(self).errors@) + (rr.errs
                    + e.2));
            }
            return None;
        }
        proof {
            let e = sp_expect(t, rr.pos, TokenModel::RPAREN);
            assert(errs_model(self.errors@) =~= errs_model(old(self).errors@) + (rr.errs + e.2));
        }
        left
    }

    /// An if-expression: `if ( condition ) { consequence }`, and an
    /// alternative block only when an `else` token is peeked after the
    /// consequence. A missing `else` is not an error; a present `else`
    /// without a following brace is.
    #[verifier::rlimit(100)]
    pub fn parse_if_expression(&mut self) -> (r: Option<Expression>)
        requires
            old(self).wf(),
            tok_at(old(self).toks(), old(self).pos as nat) == TokenModel::IF,
        ensures
            final(self).wf(),
            final(self).tokens == old(self).tokens,
            old(self).pos <= final(self).pos,
            ({
                let s = sp_if(old(self).toks(), old(self).pos as nat);
                &&& opt_expr_model(r) == s.expr
                &&& final(self).pos as nat == s.pos
                &&& errs_model(final(self).errors@) == errs_model(old(self).errors@) + s.errs
            }),
        decreases remt(old(self).toks(), old(self).pos as nat), 1int,
    {
        let ghost t = self.toks();
        let ghost p = self.pos as nat;
        let ghost e0 = self.errors@;
        if !self.expect_peek(Token::LPAREN) {
            return None;
        }
        proof {
            assert(tok_at(t, p + 1) == TokenModel::LPAREN);
            assert(t[t.len() - 1] == TokenModel::EOF);
            assert(p + 1 < t.len() - 1);
            assert(self.pos as nat == p + 1);
            assert(adv(t, (p + 1) as nat) == p + 2);
        }
        self.next_token();
        let ghost c = sp_expr(t, (p + 2) as nat, BinaryOperator::Lowest);
        let condition = match self.parse_expression(BinaryOperator::Lowest) {
            Some(expr) => expr,
            None => {
                return None;
            },
        };
        let ghost e2 = sp_expect(t, c.pos, TokenModel::RPAREN);
        if !self.expect_peek(Token::RPAREN) {
            proof {
                assert(errs_model(self.errors@) =~= errs_model(e0) + (c.errs + e2.2));
            }
            return None;
        }
        proof {
            assert(errs_model(self.errors@) =~= errs_model(e0) + c.errs);
        }
        let ghost e3 = sp_expect(t, e2.1, TokenModel::LBRACE);
        if !self.expect_peek(Token::LBRACE) {
            proof {
                assert(errs_model(self.errors@) =~= errs_model(e0) + (c.errs + e3.2));
            }
            return None;
        }
        proof {
            assert(errs_model(self.errors@) =~= errs_model(e0) + c.errs);
            assert(e3.1 > p);
        }
        let ghost b = sp_block(t, e3.1);
        let consequence = self.parse_block_statement();
        proof {
            assert(errs_model(self.errors@) =~= errs_model(e0) + (c.errs + b.errs));
        }
        // The `else` keyword is checked only by lookahead, so a missing
        // `else` is the valid no-alternative case, not a syntax error.
        let has_else = self.peek().is(&Token::ELSE);
        let alternative = if has_else {
            proof {
                assert(tok_at(t, b.pos + 1) == TokenModel::ELSE);
                assert(t[t.len() - 1] == TokenModel::EOF);
                assert(b.pos < t.len() - 1);
                assert(adv(t, b.pos) == b.pos + 1);
            }
            self.next_token();
            let ghost e4 = sp_expect(t, (b.pos + 1) as nat, TokenModel::LBRACE);
            if !self.expect_peek(Token::LBRACE) {
                proof {
                    assert(errs_model(self.errors@) =~= errs_model(e0) + (c.errs + b.errs
                        + e4.2));
                }
                return None;
            }
            proof {
                assert(e4.1 > p);
            }
            let ghost b2 = sp_block(t, e4.1);
            let alt = self.parse_block_statement();
            proof {
                assert(errs_model(self.errors@) =~= errs_model(e0) + (c.errs + b.errs + b2.errs));
            }
            Some(alt)
        } else {
            None
        };
        Some(Expression::If(IfExpression::new(Box::new(condition), consequence, alternative)))
    }

    /// A block: every statement after the opening brace until a closing
    /// brace or the end of input.
    #[verifier::rlimit(100)]
    pub fn parse_block_statement(&mut self) -> (b: BlockStatement)
        requires
            old(self).wf(),
        ensures
            final(self).wf(),
            final(self).tokens == old(self).tokens,
            old(self).pos <= final(self).pos,
            ({
                let s = sp_block(old(self).toks(), old(self).pos as nat);
                &&& b@ == s.block
                &&& final(self).pos as nat == s.pos
                &&& errs_model(final(self).errors@) == errs_model(old(self).errors@) + s.errs
            }),
        decreases remt(old(self).toks(), old(self).pos as nat), 6int,
    {
        let ghost t = self.toks();
        let ghost p = self.pos as nat;
        let ghost e0 = self.errors@;
        self.next_token();
        let ghost p1 = self.pos as nat;
        let ghost whole = sp_block_list(t, p1);
        let mut statements: Vec<Statement> = Vec::new();
        proof {
            assert(stmts_models(statements@) =~= Seq::<StmtModel>::empty());
            assert(Seq::<StmtModel>::empty() + whole.stmts =~= whole.stmts);
            assert(errs_model(e0) + Seq::<Seq<char>>::empty() =~= errs_model(e0));
        }
        loop
            invariant
                self.wf(),
                self.tokens == old(self).tokens,
                t == self.toks(),
                t == old(self).toks(),
                e0 == old(self).errors@,
                p == old(self).pos as nat,
                p1 <= self.pos as nat,
                p <= self.pos as nat,
                whole == sp_block_list(t, p1),
                ({
                    let f = sp_block_list(t, self.pos as nat);
                    &&& whole.stmts == stmts_models(statements@) + f.stmts
                    &&& whole.pos == f.pos
                    &&& errs_model(e0) + whole.errs == errs_model(self.errors@) + f.errs
                }),
            ensures
                self.wf(),
                self.tokens == old(self).tokens,
                t == self.toks(),
                e0 == old(self).errors@,
                p <= self.pos as nat,
                whole.stmts == stmts_models(statements@),
                whole.pos == self.pos as nat,
                errs_model(e0) + whole.errs == errs_model(self.errors@),
            decreases remt(t, self.pos as nat),
        {
            let at_end = {
                let c = self.cur();
                c.is(&Token::RBRACE) || c.is(&Token::EOF)
            };
            if at_end {
                proof {
                    let f = sp_block_list(t, self.pos as nat);
                    assert(f.stmts =~= Seq::<StmtModel>::empty());
                    assert(f.errs =~= Seq::<Seq<char>>::empty());
                    assert(stmts_models(statements@) + Seq::<StmtModel>::empty() =~= stmts_models(
                        statements@,
                    ));
                    assert(errs_model(self.errors@) + Seq::<Seq<char>>::empty() =~= errs_model(
                        self.errors@,
                    ));
                }
                break;
            }
            let ghost pi = self.pos as nat;
            let ghost ei = self.errors@;
            let ghost sv = statements@;
            let ghost s = sp_expr_stmt(t, pi);
            let ghost fi = sp_block_list(t, pi);
            let stmt_opt = self.parse_expression_statement();
            proof {
                assert(t[t.len() - 1] == TokenModel::EOF);
                assert(tok_at(t, pi) != TokenModel::EOF);
                assert(pi < t.len() - 1);
                assert(s.pos >= pi);
                assert(adv(t, s.pos) > pi);
            }
            match stmt_opt {
                Some(stmt) => {
                    proof {
                        assert(stmts_models(statements@.push(stmt)) =~= stmts_models(statements@)
                            + seq![stmt_model(stmt)]);
                    }
                    statements.push(stmt);
                },
                None => {
                    proof {
                        assert(stmts_models(statements@) + Seq::<StmtModel>::empty()
                            =~= stmts_models(statements@));
                    }
                },
            }
            self.next_token();
            proof {
                let rest = sp_block_list(t, adv(t, s.pos));
                let first = match s.stmt {
                    Option::Some(st) => seq![st],
                    Option::None => Seq::<StmtModel>::empty(),
                };
                assert(fi.stmts == first + rest.stmts);
                assert(whole.stmts == stmts_models(sv) + fi.stmts);
                assert(stmts_models(sv) + (first + rest.stmts) =~= (stmts_models(sv) + first)
                    + rest.stmts);
                assert(stmts_models(statements@) =~= stmts_models(sv) + first);
                assert(errs_model(ei) + (s.errs + rest.errs) =~= (errs_model(ei) + s.errs)
                    + rest.errs);
                assert(errs_model(self.errors@) =~= errs_model(ei) + s.errs);
            }
        }
        proof {
            let sb = sp_block(t, p);
            if adv(t, p) > p {
                assert(p1 == adv(t, p));
                assert(sb.block.stmts == whole.stmts);
                assert(sb.pos == whole.pos);
                assert(sb.errs == whole.errs);
            } else {
                assert(p1 == p);
                assert(p + 1 >= t.len());
                assert(t[t.len() - 1] == TokenModel::EOF);
                assert(tok_at(t, p1) == TokenModel::EOF);
                assert(whole.stmts =~= Seq::<StmtModel>::empty());
                assert(whole.errs =~= Seq::<Seq<char>>::empty());
                assert(errs_model(e0) + Seq::<Seq<char>>::empty() =~= errs_model(e0));
            }
        }
        BlockStatement { statements }
    }

    /// An expression at the given minimum precedence: the prefix rule for
    /// the current token, then every peeked operator that binds more
    /// strongly, folded left-associatively.
    #[verifier::rlimit(100)]
    pub fn parse_expression(&mut self, op: BinaryOperator) -> (r: Option<Expression>)
        requires
            old(self).wf(),
        ensures
            final(self).wf(),
            final(self).tokens == old(self).tokens,
            old(self).pos <= final(self).pos,
            ({
                let s = sp_expr(old(self).toks(), old(self).pos as nat, op);
                &&& opt_expr_model(r) == s.expr
                &&& final(self).pos as nat == s.pos
                &&& errs_model(final(self).errors@) == errs_model(old(self).errors@) + s.errs
            }),
        decreases remt(old(self).toks(), old(self).pos as nat), 3int,
    {
        let ghost t = self.toks();
        let ghost p0 = self.pos as nat;
        let ghost e0 = self.errors@;
        let ghost pr = sp_prefix(t, p0);
        let mut left = match self.parse_prefix() {
            Some(expr) => expr,
            None => {
                return None;
            },
        };
        let ghost whole = sp_infix_loop(t, pr.pos, op, expr_model(left));
        proof {
            assert(sp_expr(t, p0, op).expr == whole.expr);
            assert(sp_expr(t, p0, op).pos == whole.pos);
            assert(sp_expr(t, p0, op).errs == pr.errs + whole.errs);
            assert(errs_model(e0) + pr.errs + whole.errs =~= (errs_model(e0) + pr.errs)
                + whole.errs);
        }
        loop
            invariant
                self.wf(),
                self.tokens == old(self).tokens,
                t == self.toks(),
                t == old(self).toks(),
                e0 == old(self).errors@,
                p0 == old(self).pos as nat,
                p0 <= self.pos as nat,
                sp_expr(t, p0, op).expr == whole.expr,
                sp_expr(t, p0, op).pos == whole.pos,
                sp_expr(t, p0, op).errs == pr.errs + whole.errs,
                sp_infix_loop(t, self.pos as nat, op, left@).expr == whole.expr,
                sp_infix_loop(t, self.pos as nat, op, left@).pos == whole.pos,
                errs_model(e0) + pr.errs + whole.errs == errs_model(self.errors@) + sp_infix_loop(
                    t,
                    self.pos as nat,
                    op,
                    left@,
                ).errs,
            ensures
                self.wf(),
                self.tokens == old(self).tokens,
                p0 <= self.pos as nat,
                opt_expr_model(Some(left)) == sp_expr(t, p0, op).expr,
                self.pos as nat == sp_expr(t, p0, op).pos,
                errs_model(self.errors@) == errs_model(e0) + sp_expr(t, p0, op).errs,
            decreases remt(t, self.pos as nat),
        {
            let semi = self.peek().is(&Token::SEMICOLON);
            let pbp = self.peek().to_binary_operator().binding_power();
            let obp = op.binding_power();
            if !(!semi && obp < pbp) {
                proof {
                    let f = sp_infix_loop(t, self.pos as nat, op, left@);
                    assert(f.expr == Option::Some(left@));
                    assert(f.pos == self.pos as nat);
                    assert(f.errs =~= Seq::<Seq<char>>::empty());
                    assert(errs_model(self.errors@) + Seq::<Seq<char>>::empty() =~= errs_model(
                        self.errors@,
                    ));
                    assert(errs_model(e0) + (pr.errs + whole.errs) =~= errs_model(e0) + pr.errs
                        + whole.errs);
                }
                break;
            }
            let ghost pi = self.pos as nat;
            let ghost ei = self.errors@;
            let ghost li = left@;
            proof {
                let pk = tok_at(t, pi + 1);
                assert(pk != TokenModel::EOF);
                assert(pi + 1 < t.len());
                assert(adv(t, pi) == pi + 1);
            }
            self.next_token();
            let ghost rsp = sp_infix(t, (pi + 1) as nat, li);
            left = match self.parse_infix(left) {
                Some(expr) => expr,
                None => {
                    proof {
                        let f = sp_infix_loop(t, pi, op, li);
                        assert(f.expr == Option::<ExprModel>::None);
                        assert(f.pos == rsp.pos);
                        assert(f.errs == rsp.errs);
                        assert(errs_model(e0) + (pr.errs + whole.errs) =~= errs_model(e0)
                            + pr.errs + whole.errs);
                    }
                    return None;
                },
            };
            proof {
                let f = sp_infix_loop(t, pi, op, li);
                assert(rsp.pos >= pi + 1);
                assert(rsp.expr == Option::Some(left@));
                let rec = sp_infix_loop(t, rsp.pos, op, left@);
                assert(f.expr == rec.expr);
                assert(f.pos == rec.pos);
                assert(f.errs == rsp.errs + rec.errs);
                assert(errs_model(ei) + (rsp.errs + rec.errs) =~= (errs_model(ei) + rsp.errs)
                    + rec.errs);
                assert(errs_model(self.errors@) =~= errs_model(ei) + rsp.errs);
            }
        }
        Some(left)
    }

    /// An expression statement: one expression at `Lowest` precedence,
    /// consuming a trailing semicolon when one is peeked.
    pub fn parse_expression_statement(&mut self) -> (r: Option<Statement>)
        requires
            old(self).wf(),
        ensures
            final(self).wf(),
            final(self).tokens == old(self).tokens,
            old(self).pos <= final(self).pos,
            ({
                let s = sp_expr_stmt(old(self).toks(), old(self).pos as nat);
                &&& opt_stmt_model(r) == s.stmt
                &&& final(self).pos as nat == s.pos
                &&& errs_model(final(self).errors@) == errs_model(old(self).errors@) + s.errs
            }),
        decreases remt(old(self).toks(), old(self).pos as nat), 4int,
    {
        let expr = match self.parse_expression(BinaryOperator::Lowest) {
            Some(e) => e,
            None => {
                return None;
            },
        };
        let stmt = Statement::Expr(ExpressionStatement::new(expr));
        if self.peek().is(&Token::SEMICOLON) {
            self.next_token();
        }
        Some(stmt)
    }

    /// Every top-level statement until end of input. Syntax errors are
    /// recorded in the error list; a construct that fails to parse adds
    /// no statement, and parsing resumes with the next one.
    #[verifier::rlimit(100)]
    pub fn parse_program(&mut self) -> (prog: Program)
        requires
            old(self).wf(),
        ensures
            final(self).wf(),
            final(self).tokens == old(self).tokens,
            old(self).pos <= final(self).pos,
            ({
                let s = sp_stmt_list(old(self).toks(), old(self).pos as nat);
                &&& prog@ == s.stmts
                &&& final(self).pos as nat == s.pos
                &&& errs_model(final(self).errors@) == errs_model(old(self).errors@) + s.errs
            }),
    {
        let ghost t = self.toks();
        let ghost p0 = self.pos as nat;
        let ghost e0 = self.errors@;
        let ghost whole = sp_stmt_list(t, p0);
        let mut program = Program::new();
        proof {
            assert(program@ =~= Seq::<StmtModel>::empty());
            assert(Seq::<StmtModel>::empty() + whole.stmts =~= whole.stmts);
        }
        loop
            invariant
                self.wf(),
                self.tokens == old(self).tokens,
                t == self.toks(),
                t == old(self).toks(),
                e0 == old(self).errors@,
                p0 == old(self).pos as nat,
                p0 <= self.pos as nat,
                whole == sp_stmt_list(t, p0),
                ({
                    let f = sp_stmt_list(t, self.pos as nat);
                    &&& whole.stmts == program@ + f.stmts
                    &&& whole.pos == f.pos
                    &&& errs_model(e0) + whole.errs == errs_model(self.errors@) + f.errs
                }),
            ensures
                self.wf(),
                self.tokens == old(self).tokens,
                p0 <= self.pos as nat,
                whole.stmts == program@,
                whole.pos == self.pos as nat,
                errs_model(e0) + whole.errs == errs_model(self.errors@),
            decreases remt(t, self.pos as nat),
        {
            let at_end = self.cur().is(&Token::EOF);
            if at_end {
                proof {
                    let f = sp_stmt_list(t, self.pos as nat);
                    assert(f.stmts =~= Seq::<StmtModel>::empty());
                    assert(f.errs =~= Seq::<Seq<char>>::empty());
                    assert(program@ + Seq::<StmtModel>::empty() =~= program@);
                    assert(errs_model(self.errors@) + Seq::<Seq<char>>::empty() =~= errs_model(
                        self.errors@,
                    ));
                }
                break;
            }
            let ghost pi = self.pos as nat;
            let ghost ei = self.errors@;
            let ghost pv = program@;
            let ghost s = sp_expr_stmt(t, pi);
            let ghost fi = sp_stmt_list(t, pi);
            let stmt_opt = self.parse_expression_statement();
            proof {
                assert(t[t.len() - 1] == TokenModel::EOF);
                assert(tok_at(t, pi) != TokenModel::EOF);
                assert(pi < t.len() - 1);
                assert(s.pos >= pi);
                assert(adv(t, s.pos) > pi);
            }
            match stmt_opt {
                Some(stmt) => {
                    proof {
                        assert(pv.push(stmt_model(stmt)) =~= pv + seq![stmt_model(stmt)]);
                    }
                    program.statements.push(stmt);
                    proof {
                        assert(program@ =~= pv.push(stmt_model(stmt)));
                    }
                },
                None => {
                    proof {
                        assert(pv + Seq::<StmtModel>::empty() =~= pv);
                    }
                },
            }
            self.next_token();
            proof {
                let rest = sp_stmt_list(t, adv(t, s.pos));
                let first = match s.stmt {
                    Option::Some(st) => seq![st],
                    Option::None => Seq::<StmtModel>::empty(),
                };
                assert(fi.stmts == first + rest.stmts);
                assert(pv + (first + rest.stmts) =~= (pv + first) + rest.stmts);
                assert(program@ =~= pv + first);
                assert(errs_model(ei) + (s.errs + rest.errs) =~= (errs_model(ei) + s.errs)
                    + rest.errs);
                assert(errs_model(self.errors@) =~= errs_model(ei) + s.errs);
            }
        }
        program
    }

    /// `Ok` exactly when no syntax error has been recorded; otherwise the
    /// recorded messages, each on its own line.
    pub fn check_parse_errors(&self) -> (r: Result<(), String>)
        ensures
            r is Ok <==> self.errors@.len() == 0,
            (r matches Err(m) ==> m@ == joined_errs(errs_model(self.errors@))),
    {
        if self.errors.len() == 0 {
            Ok(())
        } else {
            let ghost es = errs_model(self.errors@);
            let mut m = String::new();
            let mut i: usize = 0;
            proof {
                assert(joined_errs(es.take(0)) =~= Seq::<char>::empty());
            }
            while i < self.errors.len()
                invariant
                    i <= self.errors@.len(),
                    es == errs_model(self.errors@),
                    es.len() == self.errors@.len(),
                    m@ == joined_errs(es.take(i as int)),
                decreases self.errors@.len() - i,
            {
                proof {
                    assert(es.take(i + 1) =~= es.take(i as int).push(es[i as int]));
                    lemma_joined_errs_snoc(es.take(i as int), es[i as int]);
                    assert(es[i as int] == self.errors@[i as int]@);
                }
                m.append(self.errors[i].as_str());
                m.append("\n");
                proof {
                    reveal_strlit("\n");
                }
                i = i + 1;
            }
            proof {
                assert(es.take(self.errors@.len() as int) =~= es);
            }
            Err(m)
        }
    }
}

/// The recorded error messages as one report: each message followed by a
/// newline, in order.
pub open spec fn joined_errs(es: Seq<Seq<char>>) -> Seq<char>
    decreases es.len(),
{
    if es.len() == 0 {
        Seq::empty()
    } else {
        es[0] + seq!['\n'] + joined_errs(es.drop_first())
    }
}

/// Appending a message on the right extends the report by that message
/// and a newline.
pub proof fn lemma_joined_errs_snoc(es: Seq<Seq<char>>, x: Seq<char>)
    ensures
        joined_errs(es.push(x)) == joined_errs(es) + x + seq!['\n'],
    decreases es.len(),
{
    if es.len() == 0 {
        assert(es.push(x)[0] == x);
        assert(es.push(x).drop_first() =~= Seq::<Seq<char>>::empty());
        assert(joined_errs(Seq::<Seq<char>>::empty()) =~= Seq::<char>::empty());
        assert(joined_errs(es.push(x)) =~= joined_errs(es) + x + seq!['\n']);
    } else {
        assert(es.push(x).drop_first() =~= es.drop_first().push(x));
        lemma_joined_errs_snoc(es.drop_first(), x);
        assert(es.push(x)[0] == es[0]);
        assert(es[0] + seq!['\n'] + ((joined_errs(es.drop_first()) + x) + seq!['\n']) =~= (((es[0]
            + seq!['\n']) + joined_errs(es.drop_first())) + x) + seq!['\n']);
        assert(joined_errs(es.push(x)) =~= joined_errs(es) + x + seq!['\n']);
    }
}

} // verus!
