//! General properties of the lexer and the parser, stated over their
//! functional models and proved once for all inputs they quantify over.

use vstd::prelude::*;

use crate::token::TokenModel;
use crate::lexer::spec_next_token;
use crate::lexer::single_char_token;
use crate::lexer::is_ws;
use crate::lexer::is_letter;
use crate::lexer::is_digit;
use crate::ast::BinaryOperator;
use crate::ast::bp;
use crate::ast::ExprModel;
use crate::ast::StmtModel;
use crate::ast::BlockModel;
use crate::ast::infix_str;
use crate::ast::prefix_str;
use crate::ast::render_expr;
use crate::ast::render_stmt;
use crate::ast::render_stmts;
use crate::parser::sp_stmt_list;
use crate::parser::sp_expr_stmt;
use crate::parser::sp_expr;
use crate::parser::sp_prefix;
use crate::parser::sp_prefix_expr;
use crate::parser::sp_infix;
use crate::parser::sp_infix_loop;
use crate::parser::sp_grouped;
use crate::parser::sp_if;
use crate::parser::sp_block;
use crate::parser::sp_block_list;
use crate::parser::sp_expect;
use crate::parser::spec_bin_op;
use crate::parser::spec_infix_of;
use crate::parser::spec_prefix_of;
use crate::parser::tok_at;
use crate::parser::adv;
use crate::parser::no_prefix_msg;

verus! {

/// Whether a character is one of the single-character operators of the
/// language.
pub open spec fn is_single_operator_char(c: char) -> bool {
    c == '=' || c == '+' || c == '-' || c == '!' || c == '*' || c == '/' || c == '<' || c == '>'
}

/// The token that a single operator character lexes to in isolation.
pub open spec fn single_operator_token(c: char) -> TokenModel {
    if c == '=' {
        TokenModel::ASSIGN
    } else if c == '!' {
        TokenModel::BANG
    } else {
        single_char_token(c)
    }
}

/// Lexing any supported operator character in isolation yields exactly
/// one matching token and consumes the whole input.
pub proof fn lemma_operator_lexes_alone(c: char)
    requires
        is_single_operator_char(c),
    ensures
        spec_next_token(seq![c], 0) == (single_operator_token(c), 1nat),
{
    let s = seq![c];
    assert(s.len() == 1);
    assert(s[0] == c);
    assert(!is_ws(c));
    assert(!is_letter(c));
    assert(!is_digit(c));
}

/// Lexing the two-character operators in isolation yields exactly one
/// token each.
pub proof fn lemma_two_char_operators_lex_alone()
    ensures
        spec_next_token(seq!['=', '='], 0) == (TokenModel::EQ, 2nat),
        spec_next_token(seq!['!', '='], 0) == (TokenModel::NotEq, 2nat),
{
    let s1 = seq!['=', '='];
    assert(!is_ws(s1[0]) && !is_letter(s1[0]) && !is_digit(s1[0]));
    let s2 = seq!['!', '='];
    assert(!is_ws(s2[0]) && !is_letter(s2[0]) && !is_digit(s2[0]));
}

/// Past the end of the input the lexer is exhausted: it yields `EOF`
/// without moving, so repeated calls keep returning `EOF` indefinitely.
pub proof fn lemma_lexer_exhausted(s: Seq<char>, p: nat)
    requires
        p >= s.len(),
    ensures
        spec_next_token(s, p) == (TokenModel::EOF, p),
{
}

/// Wherever a token starts with `=`, an immediately following `=` makes
/// one `EQ` token, and anything else makes `ASSIGN`: never two `ASSIGN`
/// for `==`.
pub proof fn lemma_assign_vs_equals(s: Seq<char>, p: nat)
    requires
        p < s.len(),
        s[p as int] == '=',
    ensures
        p + 1 < s.len() && s[p + 1 as int] == '=' ==> spec_next_token(s, p) == (
            TokenModel::EQ,
            (p + 2) as nat,
        ),
        !(p + 1 < s.len() && s[p + 1 as int] == '=') ==> spec_next_token(s, p) == (
            TokenModel::ASSIGN,
            (p + 1) as nat,
        ),
{
    assert(!is_ws(s[p as int]));
    assert(!is_letter(s[p as int]));
    assert(!is_digit(s[p as int]));
}

/// Wherever a token starts with `!`, an immediately following `=` makes
/// one `NotEq` token, and anything else makes `BANG`.
pub proof fn lemma_bang_vs_not_equals(s: Seq<char>, p: nat)
    requires
        p < s.len(),
        s[p as int] == '!',
    ensures
        p + 1 < s.len() && s[p + 1 as int] == '=' ==> spec_next_token(s, p) == (
            TokenModel::NotEq,
            (p + 2) as nat,
        ),
        !(p + 1 < s.len() && s[p + 1 as int] == '=') ==> spec_next_token(s, p) == (
            TokenModel::BANG,
            (p + 1) as nat,
        ),
{
    assert(!is_ws(s[p as int]));
    assert(!is_letter(s[p as int]));
    assert(!is_digit(s[p as int]));
}

/// For any two infix operators, `a op1 b op2 c` parses into the tree the
/// precedence table dictates: the right operator wins the middle operand
/// exactly when it binds more strongly; at equal or lower binding power
/// the tree leans left, so every binary operator is left-associative.
pub proof fn lemma_infix_chain_shape(
    a: Seq<char>,
    b: Seq<char>,
    c: Seq<char>,
    op1: TokenModel,
    op2: TokenModel,
)
    requires
        spec_infix_of(op1) is Some,
        spec_infix_of(op2) is Some,
    ensures
        ({
            let t = seq![
                TokenModel::IDENT(a),
                op1,
                TokenModel::IDENT(b),
                op2,
                TokenModel::IDENT(c),
                TokenModel::EOF,
            ];
            let i1 = spec_infix_of(op1)->0;
            let i2 = spec_infix_of(op2)->0;
            let r = sp_stmt_list(t, 0);
            &&& r.errs.len() == 0
            &&& r.stmts =~= seq![
                StmtModel::Expr(
                    if bp(spec_bin_op(op1)) < bp(spec_bin_op(op2)) {
                        ExprModel::Infix(
                            Box::new(ExprModel::Ident(a)),
                            i1,
                            Box::new(
                                ExprModel::Infix(
                                    Box::new(ExprModel::Ident(b)),
                                    i2,
                                    Box::new(ExprModel::Ident(c)),
                                ),
                            ),
                        )
                    } else {
                        ExprModel::Infix(
                            Box::new(
                                ExprModel::Infix(
                                    Box::new(ExprModel::Ident(a)),
                                    i1,
                                    Box::new(ExprModel::Ident(b)),
                                ),
                            ),
                            i2,
                            Box::new(ExprModel::Ident(c)),
                        )
                    },
                ),
            ]
        }),
{
    let t = seq![
        TokenModel::IDENT(a),
        op1,
        TokenModel::IDENT(b),
        op2,
        TokenModel::IDENT(c),
        TokenModel::EOF,
    ];
    let i1 = spec_infix_of(op1)->0;
    let i2 = spec_infix_of(op2)->0;
    let am = ExprModel::Ident(a);
    let bm = ExprModel::Ident(b);
    let cm = ExprModel::Ident(c);
    assert(t.len() == 6);
    assert(op1 != TokenModel::SEMICOLON && op1 != TokenModel::EOF);
    assert(op2 != TokenModel::SEMICOLON && op2 != TokenModel::EOF);
    assert(bp(spec_bin_op(op1)) >= 1);
    assert(bp(spec_bin_op(op2)) >= 1);

    // The leaf operands.
    let pa = sp_prefix(t, 0);
    assert(pa.expr == Option::Some(am) && pa.pos == 0 && pa.errs.len() == 0);
    let pb = sp_prefix(t, 2);
    assert(pb.expr == Option::Some(bm) && pb.pos == 2 && pb.errs.len() == 0);
    let pc = sp_prefix(t, 4);
    assert(pc.expr == Option::Some(cm) && pc.pos == 4 && pc.errs.len() == 0);

    // `c` stands alone: the next token is `EOF`.
    let lc = sp_infix_loop(t, 4, spec_bin_op(op2), cm);
    assert(tok_at(t, 5) == TokenModel::EOF);
    assert(lc.expr == Option::Some(cm) && lc.pos == 4 && lc.errs.len() == 0);
    let ec = sp_expr(t, 4, spec_bin_op(op2));
    assert(ec.expr == Option::Some(cm) && ec.pos == 4 && ec.errs.len() == 0);

    if bp(spec_bin_op(op1)) < bp(spec_bin_op(op2)) {
        // The right operator binds more strongly: `b op2 c` nests first.
        let lb = sp_infix_loop(t, 2, spec_bin_op(op1), bm);
        assert(tok_at(t, 3) == op2);
        assert(adv(t, 2) == 3);
        let ib = sp_infix(t, 3, bm);
        assert(adv(t, 3) == 4);
        let bc = ExprModel::Infix(Box::new(bm), i2, Box::new(cm));
        assert(ib.expr == Option::Some(bc) && ib.pos == 4 && ib.errs.len() == 0);
        let lb2 = sp_infix_loop(t, 4, spec_bin_op(op1), bc);
        assert(tok_at(t, 5) == TokenModel::EOF);
        assert(lb2.expr == Option::Some(bc) && lb2.pos == 4 && lb2.errs.len() == 0);
        assert(lb.expr == Option::Some(bc) && lb.pos == 4 && lb.errs.len() == 0);
        let eb = sp_expr(t, 2, spec_bin_op(op1));
        assert(eb.expr == Option::Some(bc) && eb.pos == 4 && eb.errs.len() == 0);
        let ia = sp_infix(t, 1, am);
        assert(tok_at(t, 1) == op1 && adv(t, 1) == 2);
        let abc = ExprModel::Infix(Box::new(am), i1, Box::new(bc));
        assert(ia.expr == Option::Some(abc) && ia.pos == 4 && ia.errs.len() == 0);
        let la2 = sp_infix_loop(t, 4, BinaryOperator::Lowest, abc);
        assert(la2.expr == Option::Some(abc) && la2.pos == 4 && la2.errs.len() == 0);
        let la = sp_infix_loop(t, 0, BinaryOperator::Lowest, am);
        assert(tok_at(t, 1) == op1 && adv(t, 0) == 1);
        assert(la.expr == Option::Some(abc) && la.pos == 4 && la.errs.len() == 0);
        let ea = sp_expr(t, 0, BinaryOperator::Lowest);
        assert(ea.expr == Option::Some(abc) && ea.pos == 4 && ea.errs.len() == 0);
        let st = sp_expr_stmt(t, 0);
        assert(tok_at(t, 5) == TokenModel::EOF);
        assert(st.stmt == Option::Some(StmtModel::Expr(abc)) && st.pos == 4 && st.errs.len()
            == 0);
        let rest = sp_stmt_list(t, 5);
        assert(tok_at(t, 5) == TokenModel::EOF);
        assert(rest.stmts.len() == 0 && rest.errs.len() == 0);
        assert(adv(t, 4) == 5);
        let r = sp_stmt_list(t, 0);
        assert(r.stmts =~= seq![StmtModel::Expr(abc)]);
        assert(r.errs.len() == 0);
    } else {
        // Equal or lower binding power on the right: the tree leans left.
        let lb = sp_infix_loop(t, 2, spec_bin_op(op1), bm);
        assert(tok_at(t, 3) == op2);
        assert(!(bp(spec_bin_op(op1)) < bp(spec_bin_op(op2))));
        assert(lb.expr == Option::Some(bm) && lb.pos == 2 && lb.errs.len() == 0);
        let eb = sp_expr(t, 2, spec_bin_op(op1));
        assert(eb.expr == Option::Some(bm) && eb.pos == 2 && eb.errs.len() == 0);
        let ia = sp_infix(t, 1, am);
        assert(tok_at(t, 1) == op1 && adv(t, 1) == 2);
        let ab = ExprModel::Infix(Box::new(am), i1, Box::new(bm));
        assert(ia.expr == Option::Some(ab) && ia.pos == 2 && ia.errs.len() == 0);
        let ic = sp_infix(t, 3, ab);
        assert(tok_at(t, 3) == op2 && adv(t, 3) == 4);
        let abc = ExprModel::Infix(Box::new(ab), i2, Box::new(cm));
        assert(ic.expr == Option::Some(abc) && ic.pos == 4 && ic.errs.len() == 0);
        let la3 = sp_infix_loop(t, 4, BinaryOperator::Lowest, abc);
        assert(tok_at(t, 5) == TokenModel::EOF);
        assert(la3.expr == Option::Some(abc) && la3.pos == 4 && la3.errs.len() == 0);
        let la2 = sp_infix_loop(t, 2, BinaryOperator::Lowest, ab);
        assert(tok_at(t, 3) == op2);
        assert(la2.expr == Option::Some(abc) && la2.pos == 4 && la2.errs.len() == 0);
        let la = sp_infix_loop(t, 0, BinaryOperator::Lowest, am);
        assert(tok_at(t, 1) == op1 && adv(t, 0) == 1);
        assert(la.expr == Option::Some(abc) && la.pos == 4 && la.errs.len() == 0);
        let ea = sp_expr(t, 0, BinaryOperator::Lowest);
        assert(ea.expr == Option::Some(abc) && ea.pos == 4 && ea.errs.len() == 0);
        let st = sp_expr_stmt(t, 0);
        assert(tok_at(t, 5) == TokenModel::EOF);
        assert(st.stmt == Option::Some(StmtModel::Expr(abc)) && st.pos == 4 && st.errs.len()
            == 0);
        let rest = sp_stmt_list(t, 5);
        assert(rest.stmts.len() == 0 && rest.errs.len() == 0);
        assert(adv(t, 4) == 5);
        let r = sp_stmt_list(t, 0);
        assert(r.stmts =~= seq![StmtModel::Expr(abc)]);
        assert(r.errs.len() == 0);
    }
}

/// Rendering the parse of `a op1 b op2 c`: with a right operator of
/// equal or lower binding power the rendering is `((a op1 b) op2 c)` —
/// left-associative — and with a more strongly binding right operator it
/// is `(a op1 (b op2 c))`.
pub proof fn lemma_infix_chain_render(
    a: Seq<char>,
    b: Seq<char>,
    c: Seq<char>,
    op1: TokenModel,
    op2: TokenModel,
)
    requires
        spec_infix_of(op1) is Some,
        spec_infix_of(op2) is Some,
    ensures
        ({
            let t = seq![
                TokenModel::IDENT(a),
                op1,
                TokenModel::IDENT(b),
                op2,
                TokenModel::IDENT(c),
                TokenModel::EOF,
            ];
            let s1 = infix_str(spec_infix_of(op1)->0);
            let s2 = infix_str(spec_infix_of(op2)->0);
            let r = sp_stmt_list(t, 0);
            &&& bp(spec_bin_op(op1)) < bp(spec_bin_op(op2)) ==> render_stmts(r.stmts) == "("@ + a
                + " "@ + s1 + " "@ + ("("@ + b + " "@ + s2 + " "@ + c + ")"@) + ")"@
            &&& bp(spec_bin_op(op1)) >= bp(spec_bin_op(op2)) ==> render_stmts(r.stmts) == "("@ + (
            "("@ + a + " "@ + s1 + " "@ + b + ")"@) + " "@ + s2 + " "@ + c + ")"@
        }),
{
    lemma_infix_chain_shape(a, b, c, op1, op2);
    let t = seq![
        TokenModel::IDENT(a),
        op1,
        TokenModel::IDENT(b),
        op2,
        TokenModel::IDENT(c),
        TokenModel::EOF,
    ];
    let i1 = spec_infix_of(op1)->0;
    let i2 = spec_infix_of(op2)->0;
    let am = ExprModel::Ident(a);
    let bm = ExprModel::Ident(b);
    let cm = ExprModel::Ident(c);
    let r = sp_stmt_list(t, 0);
    assert(render_expr(am) == a);
    assert(render_expr(bm) == b);
    assert(render_expr(cm) == c);
    assert(render_stmts(Seq::<StmtModel>::empty()) =~= Seq::<char>::empty());
    if bp(spec_bin_op(op1)) < bp(spec_bin_op(op2)) {
        let bc = ExprModel::Infix(Box::new(bm), i2, Box::new(cm));
        let abc = ExprModel::Infix(Box::new(am), i1, Box::new(bc));
        assert(r.stmts == seq![StmtModel::Expr(abc)]);
        assert(render_expr(bc) == "("@ + b + " "@ + infix_str(i2) + " "@ + c + ")"@);
        assert(render_expr(abc) == "("@ + a + " "@ + infix_str(i1) + " "@ + render_expr(bc)
            + ")"@);
        assert(seq![StmtModel::Expr(abc)].drop_first() =~= Seq::<StmtModel>::empty());
        assert(seq![StmtModel::Expr(abc)][0] == StmtModel::Expr(abc));
        assert(render_stmt(StmtModel::Expr(abc)) == render_expr(abc));
        assert(render_stmts(seq![StmtModel::Expr(abc)]) == render_expr(abc) + Seq::<
            char,
        >::empty());
        assert(render_expr(abc) + Seq::<char>::empty() =~= render_expr(abc));
    } else {
        let ab = ExprModel::Infix(Box::new(am), i1, Box::new(bm));
        let abc = ExprModel::Infix(Box::new(ab), i2, Box::new(cm));
        assert(r.stmts == seq![StmtModel::Expr(abc)]);
        assert(render_expr(ab) == "("@ + a + " "@ + infix_str(i1) + " "@ + b + ")"@);
        assert(render_expr(abc) == "("@ + render_expr(ab) + " "@ + infix_str(i2) + " "@ + c
            + ")"@);
        assert(seq![StmtModel::Expr(abc)].drop_first() =~= Seq::<StmtModel>::empty());
        assert(seq![StmtModel::Expr(abc)][0] == StmtModel::Expr(abc));
        assert(render_stmt(StmtModel::Expr(abc)) == render_expr(abc));
        assert(render_stmts(seq![StmtModel::Expr(abc)]) == render_expr(abc) + Seq::<
            char,
        >::empty());
        assert(render_expr(abc) + Seq::<char>::empty() =~= render_expr(abc));
    }
}

/// A parenthesized group is parsed before any operator outside it: for
/// any two infix operators, `( a op1 b ) op2 c` parses with `a op1 b`
/// nested on the left, whatever the two operators' precedences.
pub proof fn lemma_parentheses_override_precedence(
    a: Seq<char>,
    b: Seq<char>,
    c: Seq<char>,
    op1: TokenModel,
    op2: TokenModel,
)
    requires
        spec_infix_of(op1) is Some,
        spec_infix_of(op2) is Some,
    ensures
        ({
            let t = seq![
                TokenModel::LPAREN,
                TokenModel::IDENT(a),
                op1,
                TokenModel::IDENT(b),
                TokenModel::RPAREN,
                op2,
                TokenModel::IDENT(c),
                TokenModel::EOF,
            ];
            let r = sp_stmt_list(t, 0);
            &&& r.errs.len() == 0
            &&& r.stmts =~= seq![
                StmtModel::Expr(
                    ExprModel::Infix(
                        Box::new(
                            ExprModel::Infix(
                                Box::new(ExprModel::Ident(a)),
                                spec_infix_of(op1)->0,
                                Box::new(ExprModel::Ident(b)),
                            ),
                        ),
                        spec_infix_of(op2)->0,
                        Box::new(ExprModel::Ident(c)),
                    ),
                ),
            ]
        }),
{
    let t = seq![
        TokenModel::LPAREN,
        TokenModel::IDENT(a),
        op1,
        TokenModel::IDENT(b),
        TokenModel::RPAREN,
        op2,
        TokenModel::IDENT(c),
        TokenModel::EOF,
    ];
    let i1 = spec_infix_of(op1)->0;
    let i2 = spec_infix_of(op2)->0;
    let am = ExprModel::Ident(a);
    let bm = ExprModel::Ident(b);
    let cm = ExprModel::Ident(c);
    assert(t.len() == 8);
    assert(op1 != TokenModel::SEMICOLON && op1 != TokenModel::EOF && op1 != TokenModel::RPAREN);
    assert(op2 != TokenModel::SEMICOLON && op2 != TokenModel::EOF);
    assert(bp(spec_bin_op(op1)) >= 1);
    assert(bp(spec_bin_op(op2)) >= 1);
    assert(spec_bin_op(TokenModel::RPAREN) == BinaryOperator::Lowest);

    let pb = sp_prefix(t, 3);
    assert(pb.expr == Option::Some(bm) && pb.pos == 3 && pb.errs.len() == 0);
    let lb = sp_infix_loop(t, 3, spec_bin_op(op1), bm);
    assert(tok_at(t, 4) == TokenModel::RPAREN);
    assert(lb.expr == Option::Some(bm) && lb.pos == 3 && lb.errs.len() == 0);
    let eb = sp_expr(t, 3, spec_bin_op(op1));
    assert(eb.expr == Option::Some(bm) && eb.pos == 3 && eb.errs.len() == 0);

    let pa = sp_prefix(t, 1);
    assert(pa.expr == Option::Some(am) && pa.pos == 1 && pa.errs.len() == 0);
    let ia = sp_infix(t, 2, am);
    assert(tok_at(t, 2) == op1 && adv(t, 2) == 3);
    let ab = ExprModel::Infix(Box::new(am), i1, Box::new(bm));
    assert(ia.expr == Option::Some(ab) && ia.pos == 3 && ia.errs.len() == 0);
    let la2 = sp_infix_loop(t, 3, BinaryOperator::Lowest, ab);
    assert(tok_at(t, 4) == TokenModel::RPAREN);
    assert(la2.expr == Option::Some(ab) && la2.pos == 3 && la2.errs.len() == 0);
    let la = sp_infix_loop(t, 1, BinaryOperator::Lowest, am);
    assert(tok_at(t, 2) == op1 && adv(t, 1) == 2);
    assert(la.expr == Option::Some(ab) && la.pos == 3 && la.errs.len() == 0);
    let ein = sp_expr(t, 1, BinaryOperator::Lowest);
    assert(ein.expr == Option::Some(ab) && ein.pos == 3 && ein.errs.len() == 0);

    let ex = sp_expect(t, 3, TokenModel::RPAREN);
    assert(tok_at(t, 4) == TokenModel::RPAREN);
    assert(ex.0 == true && ex.1 == 4 && ex.2.len() == 0);
    let g = sp_grouped(t, 0);
    assert(adv(t, 0) == 1);
    assert(g.expr == Option::Some(ab) && g.pos == 4 && g.errs.len() == 0);
    let pr = sp_prefix(t, 0);
    assert(pr.expr == Option::Some(ab) && pr.pos == 4 && pr.errs.len() == 0);

    let pc = sp_prefix(t, 6);
    assert(pc.expr == Option::Some(cm) && pc.pos == 6 && pc.errs.len() == 0);
    let lc = sp_infix_loop(t, 6, spec_bin_op(op2), cm);
    assert(tok_at(t, 7) == TokenModel::EOF);
    assert(lc.expr == Option::Some(cm) && lc.pos == 6 && lc.errs.len() == 0);
    let ec = sp_expr(t, 6, spec_bin_op(op2));
    assert(ec.expr == Option::Some(cm) && ec.pos == 6 && ec.errs.len() == 0);
    let ic = sp_infix(t, 5, ab);
    assert(tok_at(t, 5) == op2 && adv(t, 5) == 6);
    let abc = ExprModel::Infix(Box::new(ab), i2, Box::new(cm));
    assert(ic.expr == Option::Some(abc) && ic.pos == 6 && ic.errs.len() == 0);
    let lo2 = sp_infix_loop(t, 6, BinaryOperator::Lowest, abc);
    assert(tok_at(t, 7) == TokenModel::EOF);
    assert(lo2.expr == Option::Some(abc) && lo2.pos == 6 && lo2.errs.len() == 0);
    let lo = sp_infix_loop(t, 4, BinaryOperator::Lowest, ab);
    assert(tok_at(t, 5) == op2 && adv(t, 4) == 5);
    assert(lo.expr == Option::Some(abc) && lo.pos == 6 && lo.errs.len() == 0);
    let ea = sp_expr(t, 0, BinaryOperator::Lowest);
    assert(ea.expr == Option::Some(abc) && ea.pos == 6 && ea.errs.len() == 0);
    let st = sp_expr_stmt(t, 0);
    assert(tok_at(t, 7) == TokenModel::EOF);
    assert(st.stmt == Option::Some(StmtModel::Expr(abc)) && st.pos == 6 && st.errs.len() == 0);
    let rest = sp_stmt_list(t, 7);
    assert(rest.stmts.len() == 0 && rest.errs.len() == 0);
    assert(adv(t, 6) == 7);
    let r = sp_stmt_list(t, 0);
    assert(r.stmts =~= seq![StmtModel::Expr(abc)]);
    assert(r.errs.len() == 0);
}

/// A prefix operator binds more tightly than any infix operator: for any
/// prefix operator and any infix operator, `pre a op b` parses with the
/// prefix applied to `a` alone.
pub proof fn lemma_prefix_binds_tighter_than_infix(
    pt: TokenModel,
    a: Seq<char>,
    ot: TokenModel,
    b: Seq<char>,
)
    requires
        spec_prefix_of(pt) is Some,
        spec_infix_of(ot) is Some,
    ensures
        ({
            let t = seq![pt, TokenModel::IDENT(a), ot, TokenModel::IDENT(b), TokenModel::EOF];
            let r = sp_stmt_list(t, 0);
            &&& r.errs.len() == 0
            &&& r.stmts =~= seq![
                StmtModel::Expr(
                    ExprModel::Infix(
                        Box::new(
                            ExprModel::Prefix(spec_prefix_of(pt)->0, Box::new(ExprModel::Ident(a))),
                        ),
                        spec_infix_of(ot)->0,
                        Box::new(ExprModel::Ident(b)),
                    ),
                ),
            ]
        }),
{
    let t = seq![pt, TokenModel::IDENT(a), ot, TokenModel::IDENT(b), TokenModel::EOF];
    let q = spec_prefix_of(pt)->0;
    let i = spec_infix_of(ot)->0;
    let am = ExprModel::Ident(a);
    let bm = ExprModel::Ident(b);
    assert(t.len() == 5);
    assert(ot != TokenModel::SEMICOLON && ot != TokenModel::EOF);
    assert(bp(spec_bin_op(ot)) >= 1 && bp(spec_bin_op(ot)) <= 4);
    assert(bp(BinaryOperator::Prefix) == 5);

    let pa = sp_prefix(t, 1);
    assert(pa.expr == Option::Some(am) && pa.pos == 1 && pa.errs.len() == 0);
    let la = sp_infix_loop(t, 1, BinaryOperator::Prefix, am);
    assert(tok_at(t, 2) == ot);
    assert(!(bp(BinaryOperator::Prefix) < bp(spec_bin_op(ot))));
    assert(la.expr == Option::Some(am) && la.pos == 1 && la.errs.len() == 0);
    let ea = sp_expr(t, 1, BinaryOperator::Prefix);
    assert(ea.expr == Option::Some(am) && ea.pos == 1 && ea.errs.len() == 0);
    let pe = sp_prefix_expr(t, 0);
    assert(adv(t, 0) == 1);
    let pm = ExprModel::Prefix(q, Box::new(am));
    assert(pe.expr == Option::Some(pm) && pe.pos == 1 && pe.errs.len() == 0);
    let pr = sp_prefix(t, 0);
    assert(pr.expr == Option::Some(pm) && pr.pos == 1 && pr.errs.len() == 0);

    let pb = sp_prefix(t, 3);
    assert(pb.expr == Option::Some(bm) && pb.pos == 3 && pb.errs.len() == 0);
    let lb = sp_infix_loop(t, 3, spec_bin_op(ot), bm);
    assert(tok_at(t, 4) == TokenModel::EOF);
    assert(lb.expr == Option::Some(bm) && lb.pos == 3 && lb.errs.len() == 0);
    let eb = sp_expr(t, 3, spec_bin_op(ot));
    assert(eb.expr == Option::Some(bm) && eb.pos == 3 && eb.errs.len() == 0);
    let ix = sp_infix(t, 2, pm);
    assert(tok_at(t, 2) == ot && adv(t, 2) == 3);
    let full = ExprModel::Infix(Box::new(pm), i, Box::new(bm));
    assert(ix.expr == Option::Some(full) && ix.pos == 3 && ix.errs.len() == 0);
    let lo2 = sp_infix_loop(t, 3, BinaryOperator::Lowest, full);
    assert(lo2.expr == Option::Some(full) && lo2.pos == 3 && lo2.errs.len() == 0);
    let lo = sp_infix_loop(t, 1, BinaryOperator::Lowest, pm);
    assert(tok_at(t, 2) == ot && adv(t, 1) == 2);
    assert(lo.expr == Option::Some(full) && lo.pos == 3 && lo.errs.len() == 0);
    let ew = sp_expr(t, 0, BinaryOperator::Lowest);
    assert(ew.expr == Option::Some(full) && ew.pos == 3 && ew.errs.len() == 0);
    let st = sp_expr_stmt(t, 0);
    assert(tok_at(t, 4) == TokenModel::EOF);
    assert(st.stmt == Option::Some(StmtModel::Expr(full)) && st.pos == 3 && st.errs.len() == 0);
    let rest = sp_stmt_list(t, 4);
    assert(rest.stmts.len() == 0 && rest.errs.len() == 0);
    assert(adv(t, 3) == 4);
    let r = sp_stmt_list(t, 0);
    assert(r.stmts =~= seq![StmtModel::Expr(full)]);
    assert(r.errs.len() == 0);
}

/// Prefix operators nest: for any two prefix operators, `p1 p2 a` parses
/// as the outer operator applied to the inner prefix expression.
pub proof fn lemma_prefix_operators_nest(p1: TokenModel, p2: TokenModel, a: Seq<char>)
    requires
        spec_prefix_of(p1) is Some,
        spec_prefix_of(p2) is Some,
    ensures
        ({
            let t = seq![p1, p2, TokenModel::IDENT(a), TokenModel::EOF];
            let r = sp_stmt_list(t, 0);
            &&& r.errs.len() == 0
            &&& r.stmts =~= seq![
                StmtModel::Expr(
                    ExprModel::Prefix(
                        spec_prefix_of(p1)->0,
                        Box::new(
                            ExprModel::Prefix(spec_prefix_of(p2)->0, Box::new(ExprModel::Ident(a))),
                        ),
                    ),
                ),
            ]
        }),
{
    let t = seq![p1, p2, TokenModel::IDENT(a), TokenModel::EOF];
    let q1 = spec_prefix_of(p1)->0;
    let q2 = spec_prefix_of(p2)->0;
    let am = ExprModel::Ident(a);
    assert(t.len() == 4);

    let pa = sp_prefix(t, 2);
    assert(pa.expr == Option::Some(am) && pa.pos == 2 && pa.errs.len() == 0);
    let la = sp_infix_loop(t, 2, BinaryOperator::Prefix, am);
    assert(tok_at(t, 3) == TokenModel::EOF);
    assert(la.expr == Option::Some(am) && la.pos == 2 && la.errs.len() == 0);
    let ea = sp_expr(t, 2, BinaryOperator::Prefix);
    assert(ea.expr == Option::Some(am) && ea.pos == 2 && ea.errs.len() == 0);
    let inner = ExprModel::Prefix(q2, Box::new(am));
    let pi = sp_prefix_expr(t, 1);
    assert(adv(t, 1) == 2);
    assert(pi.expr == Option::Some(inner) && pi.pos == 2 && pi.errs.len() == 0);
    let pri = sp_prefix(t, 1);
    assert(pri.expr == Option::Some(inner) && pri.pos == 2 && pri.errs.len() == 0);
    let li = sp_infix_loop(t, 2, BinaryOperator::Prefix, inner);
    assert(li.expr == Option::Some(inner) && li.pos == 2 && li.errs.len() == 0);
    let ei = sp_expr(t, 1, BinaryOperator::Prefix);
    assert(ei.expr == Option::Some(inner) && ei.pos == 2 && ei.errs.len() == 0);
    let outer = ExprModel::Prefix(q1, Box::new(inner));
    let po = sp_prefix_expr(t, 0);
    assert(adv(t, 0) == 1);
    assert(po.expr == Option::Some(outer) && po.pos == 2 && po.errs.len() == 0);
    let pro = sp_prefix(t, 0);
    assert(pro.expr == Option::Some(outer) && pro.pos == 2 && pro.errs.len() == 0);
    let lo = sp_infix_loop(t, 2, BinaryOperator::Lowest, outer);
    assert(tok_at(t, 3) == TokenModel::EOF);
    assert(lo.expr == Option::Some(outer) && lo.pos == 2 && lo.errs.len() == 0);
    let ew = sp_expr(t, 0, BinaryOperator::Lowest);
    assert(ew.expr == Option::Some(outer) && ew.pos == 2 && ew.errs.len() == 0);
    let st = sp_expr_stmt(t, 0);
    assert(tok_at(t, 3) == TokenModel::EOF);
    assert(st.stmt == Option::Some(StmtModel::Expr(outer)) && st.pos == 2 && st.errs.len() == 0);
    let rest = sp_stmt_list(t, 3);
    assert(rest.stmts.len() == 0 && rest.errs.len() == 0);
    assert(adv(t, 2) == 3);
    let r = sp_stmt_list(t, 0);
    assert(r.stmts =~= seq![StmtModel::Expr(outer)]);
    assert(r.errs.len() == 0);
}

/// Rendering the parse of `( a op1 b ) op2 c`: always the fully
/// parenthesized `((a op1 b) op2 c)`, whatever the two operators'
/// precedences — parenthesization overrides precedence.
pub proof fn lemma_parentheses_render(
    a: Seq<char>,
    b: Seq<char>,
    c: Seq<char>,
    op1: TokenModel,
    op2: TokenModel,
)
    requires
        spec_infix_of(op1) is Some,
        spec_infix_of(op2) is Some,
    ensures
        ({
            let t = seq![
                TokenModel::LPAREN,
                TokenModel::IDENT(a),
                op1,
                TokenModel::IDENT(b),
                TokenModel::RPAREN,
                op2,
                TokenModel::IDENT(c),
                TokenModel::EOF,
            ];
            let s1 = infix_str(spec_infix_of(op1)->0);
            let s2 = infix_str(spec_infix_of(op2)->0);
            render_stmts(sp_stmt_list(t, 0).stmts) == "("@ + ("("@ + a + " "@ + s1 + " "@ + b
                + ")"@) + " "@ + s2 + " "@ + c + ")"@
        }),
{
    lemma_parentheses_override_precedence(a, b, c, op1, op2);
    let t = seq![
        TokenModel::LPAREN,
        TokenModel::IDENT(a),
        op1,
        TokenModel::IDENT(b),
        TokenModel::RPAREN,
        op2,
        TokenModel::IDENT(c),
        TokenModel::EOF,
    ];
    let i1 = spec_infix_of(op1)->0;
    let i2 = spec_infix_of(op2)->0;
    let am = ExprModel::Ident(a);
    let bm = ExprModel::Ident(b);
    let cm = ExprModel::Ident(c);
    let ab = ExprModel::Infix(Box::new(am), i1, Box::new(bm));
    let abc = ExprModel::Infix(Box::new(ab), i2, Box::new(cm));
    let r = sp_stmt_list(t, 0);
    assert(r.stmts == seq![StmtModel::Expr(abc)]);
    assert(render_expr(am) == a);
    assert(render_expr(bm) == b);
    assert(render_expr(cm) == c);
    assert(render_expr(ab) == "("@ + a + " "@ + infix_str(i1) + " "@ + b + ")"@);
    assert(render_expr(abc) == "("@ + render_expr(ab) + " "@ + infix_str(i2) + " "@ + c + ")"@);
    assert(seq![StmtModel::Expr(abc)].drop_first() =~= Seq::<StmtModel>::empty());
    assert(seq![StmtModel::Expr(abc)][0] == StmtModel::Expr(abc));
    assert(render_stmt(StmtModel::Expr(abc)) == render_expr(abc));
    assert(render_stmts(Seq::<StmtModel>::empty()) =~= Seq::<char>::empty());
    assert(render_stmts(seq![StmtModel::Expr(abc)]) == render_expr(abc) + Seq::<char>::empty());
    assert(render_expr(abc) + Seq::<char>::empty() =~= render_expr(abc));
}

/// Rendering the parse of `pre a op b` for any prefix and any infix
/// operator: the prefix operation is parenthesized on its own inside the
/// infix one, as in `((-a) + b)`.
pub proof fn lemma_prefix_binds_render(pt: TokenModel, a: Seq<char>, ot: TokenModel, b: Seq<char>)
    requires
        spec_prefix_of(pt) is Some,
        spec_infix_of(ot) is Some,
    ensures
        ({
            let t = seq![pt, TokenModel::IDENT(a), ot, TokenModel::IDENT(b), TokenModel::EOF];
            let q = prefix_str(spec_prefix_of(pt)->0);
            let s = infix_str(spec_infix_of(ot)->0);
            render_stmts(sp_stmt_list(t, 0).stmts) == "("@ + ("("@ + q + a + ")"@) + " "@ + s
                + " "@ + b + ")"@
        }),
{
    lemma_prefix_binds_tighter_than_infix(pt, a, ot, b);
    let t = seq![pt, TokenModel::IDENT(a), ot, TokenModel::IDENT(b), TokenModel::EOF];
    let q = spec_prefix_of(pt)->0;
    let i = spec_infix_of(ot)->0;
    let am = ExprModel::Ident(a);
    let bm = ExprModel::Ident(b);
    let pm = ExprModel::Prefix(q, Box::new(am));
    let full = ExprModel::Infix(Box::new(pm), i, Box::new(bm));
    let r = sp_stmt_list(t, 0);
    assert(r.stmts == seq![StmtModel::Expr(full)]);
    assert(render_expr(am) == a);
    assert(render_expr(bm) == b);
    assert(render_expr(pm) == "("@ + prefix_str(q) + a + ")"@);
    assert(render_expr(full) == "("@ + render_expr(pm) + " "@ + infix_str(i) + " "@ + b + ")"@);
    assert(seq![StmtModel::Expr(full)].drop_first() =~= Seq::<StmtModel>::empty());
    assert(seq![StmtModel::Expr(full)][0] == StmtModel::Expr(full));
    assert(render_stmt(StmtModel::Expr(full)) == render_expr(full));
    assert(render_stmts(Seq::<StmtModel>::empty()) =~= Seq::<char>::empty());
    assert(render_stmts(seq![StmtModel::Expr(full)]) == render_expr(full) + Seq::<char>::empty());
    assert(render_expr(full) + Seq::<char>::empty() =~= render_expr(full));
}

/// Rendering the parse of `p1 p2 a` for any two prefix operators: each
/// application is parenthesized on its own, as in `(!(-a))`.
pub proof fn lemma_prefix_nest_render(p1: TokenModel, p2: TokenModel, a: Seq<char>)
    requires
        spec_prefix_of(p1) is Some,
        spec_prefix_of(p2) is Some,
    ensures
        ({
            let t = seq![p1, p2, TokenModel::IDENT(a), TokenModel::EOF];
            let q1 = prefix_str(spec_prefix_of(p1)->0);
            let q2 = prefix_str(spec_prefix_of(p2)->0);
            render_stmts(sp_stmt_list(t, 0).stmts) == "("@ + q1 + ("("@ + q2 + a + ")"@) + ")"@
        }),
{
    lemma_prefix_operators_nest(p1, p2, a);
    let t = seq![p1, p2, TokenModel::IDENT(a), TokenModel::EOF];
    let q1 = spec_prefix_of(p1)->0;
    let q2 = spec_prefix_of(p2)->0;
    let am = ExprModel::Ident(a);
    let inner = ExprModel::Prefix(q2, Box::new(am));
    let outer = ExprModel::Prefix(q1, Box::new(inner));
    let r = sp_stmt_list(t, 0);
    assert(r.stmts == seq![StmtModel::Expr(outer)]);
    assert(render_expr(am) == a);
    assert(render_expr(inner) == "("@ + prefix_str(q2) + a + ")"@);
    assert(render_expr(outer) == "("@ + prefix_str(q1) + render_expr(inner) + ")"@);
    assert(seq![StmtModel::Expr(outer)].drop_first() =~= Seq::<StmtModel>::empty());
    assert(seq![StmtModel::Expr(outer)][0] == StmtModel::Expr(outer));
    assert(render_stmt(StmtModel::Expr(outer)) == render_expr(outer));
    assert(render_stmts(Seq::<StmtModel>::empty()) =~= Seq::<char>::empty());
    assert(render_stmts(seq![StmtModel::Expr(outer)]) == render_expr(outer) + Seq::<
        char,
    >::empty());
    assert(render_expr(outer) + Seq::<char>::empty() =~= render_expr(outer));
}

/// An if-expression without `else` parses successfully, with no
/// alternative branch: a missing `else` is the valid no-alternative
/// case, never a syntax error. Holds for any infix condition and any
/// identifiers.
pub proof fn lemma_if_without_else(a: Seq<char>, op: TokenModel, b: Seq<char>, c: Seq<char>)
    requires
        spec_infix_of(op) is Some,
    ensures
        ({
            let t = seq![
                TokenModel::IF,
                TokenModel::LPAREN,
                TokenModel::IDENT(a),
                op,
                TokenModel::IDENT(b),
                TokenModel::RPAREN,
                TokenModel::LBRACE,
                TokenModel::IDENT(c),
                TokenModel::RBRACE,
                TokenModel::EOF,
            ];
            let r = sp_stmt_list(t, 0);
            &&& r.errs.len() == 0
            &&& r.stmts =~= seq![
                StmtModel::Expr(
                    ExprModel::If(
                        Box::new(
                            ExprModel::Infix(
                                Box::new(ExprModel::Ident(a)),
                                spec_infix_of(op)->0,
                                Box::new(ExprModel::Ident(b)),
                            ),
                        ),
                        BlockModel { stmts: seq![StmtModel::Expr(ExprModel::Ident(c))] },
                        Option::None,
                    ),
                ),
            ]
        }),
{
    let t = seq![
        TokenModel::IF,
        TokenModel::LPAREN,
        TokenModel::IDENT(a),
        op,
        TokenModel::IDENT(b),
        TokenModel::RPAREN,
        TokenModel::LBRACE,
        TokenModel::IDENT(c),
        TokenModel::RBRACE,
        TokenModel::EOF,
    ];
    let i = spec_infix_of(op)->0;
    let am = ExprModel::Ident(a);
    let bm = ExprModel::Ident(b);
    let cm = ExprModel::Ident(c);
    assert(t.len() == 10);
    assert(op != TokenModel::SEMICOLON && op != TokenModel::EOF && op != TokenModel::RPAREN);
    assert(bp(spec_bin_op(op)) >= 1);
    assert(spec_bin_op(TokenModel::RPAREN) == BinaryOperator::Lowest);

    // The condition `a op b`, stopped by the closing parenthesis.
    let pb = sp_prefix(t, 4);
    assert(pb.expr == Option::Some(bm) && pb.pos == 4 && pb.errs.len() == 0);
    let lb = sp_infix_loop(t, 4, spec_bin_op(op), bm);
    assert(tok_at(t, 5) == TokenModel::RPAREN);
    assert(lb.expr == Option::Some(bm) && lb.pos == 4 && lb.errs.len() == 0);
    let eb = sp_expr(t, 4, spec_bin_op(op));
    assert(eb.expr == Option::Some(bm) && eb.pos == 4 && eb.errs.len() == 0);
    let pa = sp_prefix(t, 2);
    assert(pa.expr == Option::Some(am) && pa.pos == 2 && pa.errs.len() == 0);
    let ix = sp_infix(t, 3, am);
    assert(tok_at(t, 3) == op && adv(t, 3) == 4);
    let ab = ExprModel::Infix(Box::new(am), i, Box::new(bm));
    assert(ix.expr == Option::Some(ab) && ix.pos == 4 && ix.errs.len() == 0);
    let la2 = sp_infix_loop(t, 4, BinaryOperator::Lowest, ab);
    assert(la2.expr == Option::Some(ab) && la2.pos == 4 && la2.errs.len() == 0);
    let la = sp_infix_loop(t, 2, BinaryOperator::Lowest, am);
    assert(tok_at(t, 3) == op && adv(t, 2) == 3);
    assert(la.expr == Option::Some(ab) && la.pos == 4 && la.errs.len() == 0);
    let ec = sp_expr(t, 2, BinaryOperator::Lowest);
    assert(ec.expr == Option::Some(ab) && ec.pos == 4 && ec.errs.len() == 0);

    // The consequence block holds the single statement `c`.
    let pc = sp_prefix(t, 7);
    assert(pc.expr == Option::Some(cm) && pc.pos == 7 && pc.errs.len() == 0);
    let lc = sp_infix_loop(t, 7, BinaryOperator::Lowest, cm);
    assert(tok_at(t, 8) == TokenModel::RBRACE);
    assert(lc.expr == Option::Some(cm) && lc.pos == 7 && lc.errs.len() == 0);
    let ecc = sp_expr(t, 7, BinaryOperator::Lowest);
    assert(ecc.expr == Option::Some(cm) && ecc.pos == 7 && ecc.errs.len() == 0);
    let sc = sp_expr_stmt(t, 7);
    assert(sc.stmt == Option::Some(StmtModel::Expr(cm)) && sc.pos == 7 && sc.errs.len() == 0);
    let rest_in = sp_block_list(t, 8);
    assert(tok_at(t, 8) == TokenModel::RBRACE);
    assert(rest_in.stmts.len() == 0 && rest_in.errs.len() == 0);
    let bl = sp_block_list(t, 7);
    assert(adv(t, 7) == 8);
    assert(bl.stmts =~= seq![StmtModel::Expr(cm)] && bl.pos == 8 && bl.errs.len() == 0);
    let blk = sp_block(t, 6);
    assert(adv(t, 6) == 7);
    assert(blk.block.stmts =~= seq![StmtModel::Expr(cm)] && blk.pos == 8 && blk.errs.len() == 0);

    // The whole if-expression: `else` is only peeked, and `EOF` follows,
    // so the alternative is absent and nothing is recorded as an error.
    let fi = sp_if(t, 0);
    assert(sp_expect(t, 0, TokenModel::LPAREN).0 && sp_expect(t, 0, TokenModel::LPAREN).1 == 1);
    assert(adv(t, 1) == 2);
    assert(sp_expect(t, 4, TokenModel::RPAREN).0 && sp_expect(t, 4, TokenModel::RPAREN).1 == 5);
    assert(sp_expect(t, 5, TokenModel::LBRACE).0 && sp_expect(t, 5, TokenModel::LBRACE).1 == 6);
    assert(tok_at(t, 9) == TokenModel::EOF);
    let ifm = ExprModel::If(
        Box::new(ab),
        BlockModel { stmts: seq![StmtModel::Expr(cm)] },
        Option::None,
    );
    assert(blk.block == BlockModel { stmts: seq![StmtModel::Expr(cm)] });
    assert(fi.expr == Option::Some(ifm) && fi.pos == 8 && fi.errs.len() == 0);
    let pr = sp_prefix(t, 0);
    assert(pr.expr == Option::Some(ifm) && pr.pos == 8 && pr.errs.len() == 0);
    let lo = sp_infix_loop(t, 8, BinaryOperator::Lowest, ifm);
    assert(tok_at(t, 9) == TokenModel::EOF);
    assert(lo.expr == Option::Some(ifm) && lo.pos == 8 && lo.errs.len() == 0);
    let ew = sp_expr(t, 0, BinaryOperator::Lowest);
    assert(ew.expr == Option::Some(ifm) && ew.pos == 8 && ew.errs.len() == 0);
    let st = sp_expr_stmt(t, 0);
    assert(st.stmt == Option::Some(StmtModel::Expr(ifm)) && st.pos == 8 && st.errs.len() == 0);
    let rest = sp_stmt_list(t, 9);
    assert(rest.stmts.len() == 0 && rest.errs.len() == 0);
    assert(adv(t, 8) == 9);
    let r = sp_stmt_list(t, 0);
    assert(r.stmts =~= seq![StmtModel::Expr(ifm)]);
    assert(r.errs.len() == 0);
}

/// An if-expression with `else` populates the alternative block: the
/// block after `else` becomes the alternative. Holds for any infix
/// condition and any identifiers.
pub proof fn lemma_if_with_else(
    a: Seq<char>,
    op: TokenModel,
    b: Seq<char>,
    c: Seq<char>,
    d: Seq<char>,
)
    requires
        spec_infix_of(op) is Some,
    ensures
        ({
            let t = seq![
                TokenModel::IF,
                TokenModel::LPAREN,
                TokenModel::IDENT(a),
                op,
                TokenModel::IDENT(b),
                TokenModel::RPAREN,
                TokenModel::LBRACE,
                TokenModel::IDENT(c),
                TokenModel::RBRACE,
                TokenModel::ELSE,
                TokenModel::LBRACE,
                TokenModel::IDENT(d),
                TokenModel::RBRACE,
                TokenModel::EOF,
            ];
            let r = sp_stmt_list(t, 0);
            &&& r.errs.len() == 0
            &&& r.stmts =~= seq![
                StmtModel::Expr(
                    ExprModel::If(
                        Box::new(
                            ExprModel::Infix(
                                Box::new(ExprModel::Ident(a)),
                                spec_infix_of(op)->0,
                                Box::new(ExprModel::Ident(b)),
                            ),
                        ),
                        BlockModel { stmts: seq![StmtModel::Expr(ExprModel::Ident(c))] },
                        Option::Some(
                            BlockModel { stmts: seq![StmtModel::Expr(ExprModel::Ident(d))] },
                        ),
                    ),
                ),
            ]
        }),
{
    let t = seq![
        TokenModel::IF,
        TokenModel::LPAREN,
        TokenModel::IDENT(a),
        op,
        TokenModel::IDENT(b),
        TokenModel::RPAREN,
        TokenModel::LBRACE,
        TokenModel::IDENT(c),
        TokenModel::RBRACE,
        TokenModel::ELSE,
        TokenModel::LBRACE,
        TokenModel::IDENT(d),
        TokenModel::RBRACE,
        TokenModel::EOF,
    ];
    let i = spec_infix_of(op)->0;
    let am = ExprModel::Ident(a);
    let bm = ExprModel::Ident(b);
    let cm = ExprModel::Ident(c);
    let dm = ExprModel::Ident(d);
    assert(t.len() == 14);
    assert(op != TokenModel::SEMICOLON && op != TokenModel::EOF && op != TokenModel::RPAREN);
    assert(bp(spec_bin_op(op)) >= 1);
    assert(spec_bin_op(TokenModel::RPAREN) == BinaryOperator::Lowest);

    // The condition `a op b`, stopped by the closing parenthesis.
    let pb = sp_prefix(t, 4);
    assert(pb.expr == Option::Some(bm) && pb.pos == 4 && pb.errs.len() == 0);
    let lb = sp_infix_loop(t, 4, spec_bin_op(op), bm);
    assert(tok_at(t, 5) == TokenModel::RPAREN);
    assert(lb.expr == Option::Some(bm) && lb.pos == 4 && lb.errs.len() == 0);
    let eb = sp_expr(t, 4, spec_bin_op(op));
    assert(eb.expr == Option::Some(bm) && eb.pos == 4 && eb.errs.len() == 0);
    let pa = sp_prefix(t, 2);
    assert(pa.expr == Option::Some(am) && pa.pos == 2 && pa.errs.len() == 0);
    let ix = sp_infix(t, 3, am);
    assert(tok_at(t, 3) == op && adv(t, 3) == 4);
    let ab = ExprModel::Infix(Box::new(am), i, Box::new(bm));
    assert(ix.expr == Option::Some(ab) && ix.pos == 4 && ix.errs.len() == 0);
    let la2 = sp_infix_loop(t, 4, BinaryOperator::Lowest, ab);
    assert(la2.expr == Option::Some(ab) && la2.pos == 4 && la2.errs.len() == 0);
    let la = sp_infix_loop(t, 2, BinaryOperator::Lowest, am);
    assert(tok_at(t, 3) == op && adv(t, 2) == 3);
    assert(la.expr == Option::Some(ab) && la.pos == 4 && la.errs.len() == 0);
    let ecnd = sp_expr(t, 2, BinaryOperator::Lowest);
    assert(ecnd.expr == Option::Some(ab) && ecnd.pos == 4 && ecnd.errs.len() == 0);

    // The consequence block holds the single statement `c`.
    let pc = sp_prefix(t, 7);
    assert(pc.expr == Option::Some(cm) && pc.pos == 7 && pc.errs.len() == 0);
    let lc = sp_infix_loop(t, 7, BinaryOperator::Lowest, cm);
    assert(tok_at(t, 8) == TokenModel::RBRACE);
    assert(lc.expr == Option::Some(cm) && lc.pos == 7 && lc.errs.len() == 0);
    let ecc = sp_expr(t, 7, BinaryOperator::Lowest);
    assert(ecc.expr == Option::Some(cm) && ecc.pos == 7 && ecc.errs.len() == 0);
    let sc = sp_expr_stmt(t, 7);
    assert(sc.stmt == Option::Some(StmtModel::Expr(cm)) && sc.pos == 7 && sc.errs.len() == 0);
    let rest_in = sp_block_list(t, 8);
    assert(rest_in.stmts.len() == 0 && rest_in.errs.len() == 0);
    let bl = sp_block_list(t, 7);
    assert(adv(t, 7) == 8);
    assert(bl.stmts =~= seq![StmtModel::Expr(cm)] && bl.pos == 8 && bl.errs.len() == 0);
    let blk = sp_block(t, 6);
    assert(adv(t, 6) == 7);
    assert(blk.block.stmts =~= seq![StmtModel::Expr(cm)] && blk.pos == 8 && blk.errs.len() == 0);

    // The alternative block holds the single statement `d`.
    let pd = sp_prefix(t, 11);
    assert(pd.expr == Option::Some(dm) && pd.pos == 11 && pd.errs.len() == 0);
    let ld = sp_infix_loop(t, 11, BinaryOperator::Lowest, dm);
    assert(tok_at(t, 12) == TokenModel::RBRACE);
    assert(ld.expr == Option::Some(dm) && ld.pos == 11 && ld.errs.len() == 0);
    let edd = sp_expr(t, 11, BinaryOperator::Lowest);
    assert(edd.expr == Option::Some(dm) && edd.pos == 11 && edd.errs.len() == 0);
    let sd = sp_expr_stmt(t, 11);
    assert(sd.stmt == Option::Some(StmtModel::Expr(dm)) && sd.pos == 11 && sd.errs.len() == 0);
    let rest_alt = sp_block_list(t, 12);
    assert(rest_alt.stmts.len() == 0 && rest_alt.errs.len() == 0);
    let bl2 = sp_block_list(t, 11);
    assert(adv(t, 11) == 12);
    assert(bl2.stmts =~= seq![StmtModel::Expr(dm)] && bl2.pos == 12 && bl2.errs.len() == 0);
    let blk2 = sp_block(t, 10);
    assert(adv(t, 10) == 11);
    assert(blk2.block.stmts =~= seq![StmtModel::Expr(dm)] && blk2.pos == 12 && blk2.errs.len()
        == 0);

    // The whole if-expression: `else` is peeked after the consequence,
    // and the block after it becomes the alternative.
    let fi = sp_if(t, 0);
    assert(sp_expect(t, 0, TokenModel::LPAREN).0 && sp_expect(t, 0, TokenModel::LPAREN).1 == 1);
    assert(adv(t, 1) == 2);
    assert(sp_expect(t, 4, TokenModel::RPAREN).0 && sp_expect(t, 4, TokenModel::RPAREN).1 == 5);
    assert(sp_expect(t, 5, TokenModel::LBRACE).0 && sp_expect(t, 5, TokenModel::LBRACE).1 == 6);
    assert(tok_at(t, 9) == TokenModel::ELSE);
    assert(adv(t, 8) == 9);
    assert(sp_expect(t, 9, TokenModel::LBRACE).0 && sp_expect(t, 9, TokenModel::LBRACE).1 == 10);
    let ifm = ExprModel::If(
        Box::new(ab),
        BlockModel { stmts: seq![StmtModel::Expr(cm)] },
        Option::Some(BlockModel { stmts: seq![StmtModel::Expr(dm)] }),
    );
    assert(blk.block == BlockModel { stmts: seq![StmtModel::Expr(cm)] });
    assert(blk2.block == BlockModel { stmts: seq![StmtModel::Expr(dm)] });
    assert(fi.expr == Option::Some(ifm) && fi.pos == 12 && fi.errs.len() == 0);
    let pr = sp_prefix(t, 0);
    assert(pr.expr == Option::Some(ifm) && pr.pos == 12 && pr.errs.len() == 0);
    let lo = sp_infix_loop(t, 12, BinaryOperator::Lowest, ifm);
    assert(tok_at(t, 13) == TokenModel::EOF);
    assert(lo.expr == Option::Some(ifm) && lo.pos == 12 && lo.errs.len() == 0);
    let ew = sp_expr(t, 0, BinaryOperator::Lowest);
    assert(ew.expr == Option::Some(ifm) && ew.pos == 12 && ew.errs.len() == 0);
    let st = sp_expr_stmt(t, 0);
    assert(st.stmt == Option::Some(StmtModel::Expr(ifm)) && st.pos == 12 && st.errs.len() == 0);
    let rest = sp_stmt_list(t, 13);
    assert(rest.stmts.len() == 0 && rest.errs.len() == 0);
    assert(adv(t, 12) == 13);
    let r = sp_stmt_list(t, 0);
    assert(r.stmts =~= seq![StmtModel::Expr(ifm)]);
    assert(r.errs.len() == 0);
}

/// Top-level statements separated by a semicolon are parsed
/// independently, in order, with no error: for any identifiers, the
/// program `a; b` has exactly the two expression statements.
pub proof fn lemma_statements_parse_independently(a: Seq<char>, b: Seq<char>)
    ensures
        ({
            let t = seq![
                TokenModel::IDENT(a),
                TokenModel::SEMICOLON,
                TokenModel::IDENT(b),
                TokenModel::EOF,
            ];
            let r = sp_stmt_list(t, 0);
            &&& r.errs.len() == 0
            &&& r.stmts =~= seq![
                StmtModel::Expr(ExprModel::Ident(a)),
                StmtModel::Expr(ExprModel::Ident(b)),
            ]
        }),
{
    let t = seq![
        TokenModel::IDENT(a),
        TokenModel::SEMICOLON,
        TokenModel::IDENT(b),
        TokenModel::EOF,
    ];
    let am = ExprModel::Ident(a);
    let bm = ExprModel::Ident(b);
    assert(t.len() == 4);
    let pa = sp_prefix(t, 0);
    assert(pa.expr == Option::Some(am) && pa.pos == 0 && pa.errs.len() == 0);
    let la = sp_infix_loop(t, 0, BinaryOperator::Lowest, am);
    assert(tok_at(t, 1) == TokenModel::SEMICOLON);
    assert(la.expr == Option::Some(am) && la.pos == 0 && la.errs.len() == 0);
    let ea = sp_expr(t, 0, BinaryOperator::Lowest);
    assert(ea.expr == Option::Some(am) && ea.pos == 0 && ea.errs.len() == 0);
    let sa = sp_expr_stmt(t, 0);
    assert(adv(t, 0) == 1);
    assert(sa.stmt == Option::Some(StmtModel::Expr(am)) && sa.pos == 1 && sa.errs.len() == 0);
    let pb = sp_prefix(t, 2);
    assert(pb.expr == Option::Some(bm) && pb.pos == 2 && pb.errs.len() == 0);
    let lb = sp_infix_loop(t, 2, BinaryOperator::Lowest, bm);
    assert(tok_at(t, 3) == TokenModel::EOF);
    assert(lb.expr == Option::Some(bm) && lb.pos == 2 && lb.errs.len() == 0);
    let ebx = sp_expr(t, 2, BinaryOperator::Lowest);
    assert(ebx.expr == Option::Some(bm) && ebx.pos == 2 && ebx.errs.len() == 0);
    let sb = sp_expr_stmt(t, 2);
    assert(sb.stmt == Option::Some(StmtModel::Expr(bm)) && sb.pos == 2 && sb.errs.len() == 0);
    let rest2 = sp_stmt_list(t, 3);
    assert(tok_at(t, 3) == TokenModel::EOF);
    assert(rest2.stmts.len() == 0 && rest2.errs.len() == 0);
    let rest = sp_stmt_list(t, 2);
    assert(adv(t, 2) == 3);
    assert(rest.stmts =~= seq![StmtModel::Expr(bm)] && rest.errs.len() == 0);
    let r = sp_stmt_list(t, 0);
    assert(adv(t, 1) == 2);
    assert(r.stmts =~= seq![StmtModel::Expr(am), StmtModel::Expr(bm)]);
    assert(r.errs.len() == 0);
}

/// Whether a token can start an expression.
pub open spec fn can_start_expression(t: TokenModel) -> bool {
    match t {
        TokenModel::IDENT(_) => true,
        TokenModel::INT(_) => true,
        TokenModel::TRUE => true,
        TokenModel::FALSE => true,
        TokenModel::BANG => true,
        TokenModel::MINUS => true,
        TokenModel::LPAREN => true,
        TokenModel::IF => true,
        _ => false,
    }
}

/// A token that cannot start an expression, standing where an expression
/// is expected, produces exactly one recorded error and no statement —
/// the parse never fails in any other way.
pub proof fn lemma_invalid_expression_start(t0: TokenModel)
    requires
        !can_start_expression(t0),
        t0 != TokenModel::EOF,
    ensures
        ({
            let r = sp_stmt_list(seq![t0, TokenModel::EOF], 0);
            &&& r.stmts.len() == 0
            &&& r.errs =~= seq![no_prefix_msg(t0)]
        }),
{
    let t = seq![t0, TokenModel::EOF];
    assert(t.len() == 2);
    let pr = sp_prefix(t, 0);
    assert(tok_at(t, 0) == t0);
    assert(pr.expr == Option::<ExprModel>::None && pr.pos == 0 && pr.errs =~= seq![
        no_prefix_msg(t0),
    ]);
    let e = sp_expr(t, 0, BinaryOperator::Lowest);
    assert(e.expr == Option::<ExprModel>::None && e.pos == 0 && e.errs == pr.errs);
    let st = sp_expr_stmt(t, 0);
    assert(st.stmt == Option::<StmtModel>::None && st.pos == 0 && st.errs == pr.errs);
    let rest = sp_stmt_list(t, 1);
    assert(tok_at(t, 1) == TokenModel::EOF);
    assert(rest.stmts.len() == 0 && rest.errs.len() == 0);
    assert(adv(t, 0) == 1);
    let r = sp_stmt_list(t, 0);
    assert(r.stmts.len() == 0);
    assert(r.errs =~= seq![no_prefix_msg(t0)]);
}

} // verus!
