//! The AST model: expression, literal and statement nodes, their
//! mathematical views, and the canonical textual rendering used for
//! diagnostics and round-trip checks. Rendering fully parenthesizes
//! prefix and infix operations.

use vstd::prelude::*;
use vstd::string::StrSliceExecFns;
use vstd::string::StringExecFns;

use crate::digits::spec_int_string;
use crate::digits::i64_string;

verus! {

broadcast use vstd::seq::axiom_seq_index_decreases, vstd::seq::axiom_seq_subrange_decreases, vstd::std_specs::vec::axiom_vec_index_decreases, vstd::std_specs::vec::axiom_vec_decreases_to_view;

/// A prefix (unary) operator.
#[derive(Debug, Clone, Copy, PartialEq, Eq, Structural)]
pub enum Prefix {
    Minus,
    Bang,
}

/// An infix (binary) operator.
#[derive(Debug, Clone, Copy, PartialEq, Eq, Structural)]
pub enum Infix {
    Plus,
    Minus,
    Asterisk,
    Slash,
    Gt,
    Lt,
    Equal,
    NotEq,
}

/// A binding-power level of the precedence table, lowest to highest.
#[derive(Debug, Clone, Copy, PartialEq, Eq, Structural)]
pub enum BinaryOperator {
    Lowest,
    Equals,
    LtGt,
    Sum,
    Product,
    Prefix,
    Call,
}

/// The numeric binding power of a precedence level.
pub open spec fn bp(op: BinaryOperator) -> int {
    match op {
        BinaryOperator::Lowest => 0,
        BinaryOperator::Equals => 1,
        BinaryOperator::LtGt => 2,
        BinaryOperator::Sum => 3,
        BinaryOperator::Product => 4,
        BinaryOperator::Prefix => 5,
        BinaryOperator::Call => 6,
    }
}

impl BinaryOperator {
    /// The numeric binding power, for comparing two precedence levels.
    pub fn binding_power(&self) -> (r: u8)
        ensures
            r as int == bp(*self),
    {
        match self {
            BinaryOperator::Lowest => 0,
            BinaryOperator::Equals => 1,
            BinaryOperator::LtGt => 2,
            BinaryOperator::Sum => 3,
            BinaryOperator::Product => 4,
            BinaryOperator::Prefix => 5,
            BinaryOperator::Call => 6,
        }
    }
}

/// An identifier expression, holding its spelling.
#[derive(Debug)]
pub struct Identifier {
    pub value: String,
}

/// An integer literal.
#[derive(Debug)]
pub struct Integer {
    pub value: i64,
}

/// A boolean literal.
#[derive(Debug)]
pub struct Boolean {
    pub value: bool,
}

/// A function literal: its parameter identifiers and its body block.
#[derive(Debug)]
pub struct Func {
    pub args: Vec<Identifier>,
    pub body: BlockStatement,
}

/// A literal expression: a value known directly from the source text.
#[derive(Debug)]
pub enum Literal {
    Integer(Integer),
    Boolean(Boolean),
    Func(Func),
}

/// A prefix operator applied to an owned sub-expression.
#[derive(Debug)]
pub struct PrefixExpression {
    pub operator: Prefix,
    pub right: Box<Expression>,
}

/// An infix operator between two owned sub-expressions.
#[derive(Debug)]
pub struct InfixExpression {
    pub left: Box<Expression>,
    pub operator: Infix,
    pub right: Box<Expression>,
}

/// An if-expression: a condition, a consequence block, and an optional
/// alternative block.
#[derive(Debug)]
pub struct IfExpression {
    pub condition: Box<Expression>,
    pub consequence: BlockStatement,
    pub alternative: Option<BlockStatement>,
}

/// An expression node.
#[derive(Debug)]
pub enum Expression {
    Identifier(Identifier),
    Literal(Literal),
    Prefix(PrefixExpression),
    Infix(InfixExpression),
    If(IfExpression),
}

/// A statement whose whole content is one expression.
#[derive(Debug)]
pub struct ExpressionStatement {
    pub value: Expression,
}

/// A statement node.
#[derive(Debug)]
pub enum Statement {
    Expr(ExpressionStatement),
    Block(BlockStatement),
}

/// An ordered, exclusively owned sequence of statements.
#[derive(Debug)]
pub struct BlockStatement {
    pub statements: Vec<Statement>,
}

/// An ordered sequence of top-level statements.
#[derive(Debug)]
pub struct Program {
    pub statements: Vec<Statement>,
}

/// The mathematical value of a function literal.
pub struct FuncModel {
    pub args: Seq<Seq<char>>,
    pub body: BlockModel,
}

/// The mathematical value of a literal.
pub enum LitModel {
    Int(i64),
    Bool(bool),
    FuncLit(FuncModel),
}

/// The mathematical value of an expression: the tree shape with
/// identifier spellings as character sequences.
pub enum ExprModel {
    Ident(Seq<char>),
    Lit(LitModel),
    Prefix(Prefix, Box<ExprModel>),
    Infix(Box<ExprModel>, Infix, Box<ExprModel>),
    If(Box<ExprModel>, BlockModel, Option<BlockModel>),
}

/// The mathematical value of a statement.
pub enum StmtModel {
    Expr(ExprModel),
    Block(BlockModel),
}

/// The mathematical value of a block: the sequence of its statements'
/// values.
pub struct BlockModel {
    pub stmts: Seq<StmtModel>,
}

/// The value of an expression node.
pub open spec fn expr_model(e: Expression) -> ExprModel
    decreases e,
{
    match e {
        Expression::Identifier(id) => ExprModel::Ident(id.value@),
        Expression::Literal(l) => ExprModel::Lit(lit_model(l)),
        Expression::Prefix(p) => ExprModel::Prefix(p.operator, Box::new(expr_model(*p.right))),
        Expression::Infix(i) => ExprModel::Infix(
            Box::new(expr_model(*i.left)),
            i.operator,
            Box::new(expr_model(*i.right)),
        ),
        Expression::If(f) => ExprModel::If(
            Box::new(expr_model(*f.condition)),
            block_model(f.consequence),
            match f.alternative {
                Option::None => Option::None,
                Option::Some(b) => Option::Some(block_model(b)),
            },
        ),
    }
}

/// The value of a literal node.
pub open spec fn lit_model(l: Literal) -> LitModel
    decreases l,
{
    match l {
        Literal::Integer(i) => LitModel::Int(i.value),
        Literal::Boolean(b) => LitModel::Bool(b.value),
        Literal::Func(f) => LitModel::FuncLit(func_model(f)),
    }
}

/// The value of a function literal node.
pub open spec fn func_model(f: Func) -> FuncModel
    decreases f,
{
    FuncModel {
        args: Seq::new(
            f.args@.len(),
            |k: int|
                if 0 <= k < f.args@.len() {
                    f.args[k].value@
                } else {
                    Seq::empty()
                },
        ),
        body: block_model(f.body),
    }
}

/// The value of a statement node.
pub open spec fn stmt_model(s: Statement) -> StmtModel
    decreases s,
{
    match s {
        Statement::Expr(es) => StmtModel::Expr(expr_model(es.value)),
        Statement::Block(b) => StmtModel::Block(block_model(b)),
    }
}

/// The values of a statement sequence, elementwise.
pub open spec fn stmts_models(v: Seq<Statement>) -> Seq<StmtModel>
    decreases v,
{
    Seq::new(
        v.len(),
        |k: int|
            if 0 <= k < v.len() {
                stmt_model(v[k])
            } else {
                arbitrary()
            },
    )
}

/// The value of a block node.
pub open spec fn block_model(b: BlockStatement) -> BlockModel
    decreases b,
{
    BlockModel { stmts: stmts_models(b.statements@) }
}

impl View for Identifier {
    type V = Seq<char>;

    open spec fn view(&self) -> Seq<char> {
        self.value@
    }
}

impl View for Literal {
    type V = LitModel;

    open spec fn view(&self) -> LitModel {
        lit_model(*self)
    }
}

impl View for Func {
    type V = FuncModel;

    open spec fn view(&self) -> FuncModel {
        func_model(*self)
    }
}

impl View for Expression {
    type V = ExprModel;

    open spec fn view(&self) -> ExprModel {
        expr_model(*self)
    }
}

impl View for PrefixExpression {
    type V = ExprModel;

    open spec fn view(&self) -> ExprModel {
        ExprModel::Prefix(self.operator, Box::new(expr_model(*self.right)))
    }
}

impl View for InfixExpression {
    type V = ExprModel;

    open spec fn view(&self) -> ExprModel {
        ExprModel::Infix(
            Box::new(expr_model(*self.left)),
            self.operator,
            Box::new(expr_model(*self.right)),
        )
    }
}

impl View for IfExpression {
    type V = ExprModel;

    open spec fn view(&self) -> ExprModel {
        ExprModel::If(
            Box::new(expr_model(*self.condition)),
            block_model(self.consequence),
            match self.alternative {
                Option::None => Option::None,
                Option::Some(b) => Option::Some(block_model(b)),
            },
        )
    }
}

impl View for ExpressionStatement {
    type V = ExprModel;

    open spec fn view(&self) -> ExprModel {
        expr_model(self.value)
    }
}

impl View for Statement {
    type V = StmtModel;

    open spec fn view(&self) -> StmtModel {
        stmt_model(*self)
    }
}

impl View for BlockStatement {
    type V = BlockModel;

    open spec fn view(&self) -> BlockModel {
        block_model(*self)
    }
}

impl View for Program {
    type V = Seq<StmtModel>;

    open spec fn view(&self) -> Seq<StmtModel> {
        stmts_models(self.statements@)
    }
}

/// The source spelling of a prefix operator.
pub open spec fn prefix_str(p: Prefix) -> Seq<char> {
    match p {
        Prefix::Minus => "-"@,
        Prefix::Bang => "!"@,
    }
}

/// The source spelling of an infix operator.
pub open spec fn infix_str(i: Infix) -> Seq<char> {
    match i {
        Infix::Plus => "+"@,
        Infix::Minus => "-"@,
        Infix::Asterisk => "*"@,
        Infix::Slash => "/"@,
        Infix::Gt => ">"@,
        Infix::Lt => "<"@,
        Infix::Equal => "=="@,
        Infix::NotEq => "!="@,
    }
}

/// The canonical rendering of an expression value: identifiers and
/// literals render as themselves, prefix and infix operations fully
/// parenthesized.
pub open spec fn render_expr(e: ExprModel) -> Seq<char>
    decreases e,
{
    match e {
        ExprModel::Ident(s) => s,
        ExprModel::Lit(l) => render_lit(l),
        ExprModel::Prefix(op, r) => "("@ + prefix_str(op) + render_expr(*r) + ")"@,
        ExprModel::Infix(l, op, r) => "("@ + render_expr(*l) + " "@ + infix_str(op) + " "@
            + render_expr(*r) + ")"@,
        ExprModel::If(c, cons, alt) => match alt {
            Option::None => "if"@ + render_expr(*c) + " "@ + render_stmts(cons.stmts),
            Option::Some(a) => "if"@ + render_expr(*c) + " "@ + render_stmts(cons.stmts)
                + " else "@ + render_stmts(a.stmts),
        },
    }
}

/// The canonical rendering of a literal value.
pub open spec fn render_lit(l: LitModel) -> Seq<char>
    decreases l,
{
    match l {
        LitModel::Int(i) => spec_int_string(i as int),
        LitModel::Bool(b) => if b {
            "true"@
        } else {
            "false"@
        },
        LitModel::FuncLit(f) => "fn("@ + render_args(f.args) + ") "@ + render_stmts(f.body.stmts),
    }
}

/// The parameter list rendering of a function literal: each parameter
/// followed by a comma and a space.
pub open spec fn render_args(args: Seq<Seq<char>>) -> Seq<char>
    decreases args.len(),
{
    if args.len() == 0 {
        Seq::empty()
    } else {
        args[0] + ", "@ + render_args(args.drop_first())
    }
}

/// The rendering of a statement value.
pub open spec fn render_stmt(s: StmtModel) -> Seq<char>
    decreases s,
{
    match s {
        StmtModel::Expr(e) => render_expr(e),
        StmtModel::Block(b) => render_stmts(b.stmts),
    }
}

/// The rendering of a statement sequence: each statement's rendering in
/// order, with no separator.
pub open spec fn render_stmts(ss: Seq<StmtModel>) -> Seq<char>
    decreases ss,
{
    if ss.len() == 0 {
        Seq::empty()
    } else {
        render_stmt(ss[0]) + render_stmts(ss.drop_first())
    }
}

/// Extending a statement sequence on the right appends that statement's
/// rendering.
pub proof fn lemma_render_stmts_snoc(ss: Seq<StmtModel>, s: StmtModel)
    ensures
        render_stmts(ss.push(s)) == render_stmts(ss) + render_stmt(s),
    decreases ss.len(),
{
    if ss.len() == 0 {
        assert(ss.push(s)[0] == s);
        assert(ss.push(s).drop_first() =~= Seq::<StmtModel>::empty());
        assert(render_stmts(Seq::<StmtModel>::empty()) =~= Seq::<char>::empty());
        assert(render_stmts(ss.push(s)) =~= render_stmts(ss) + render_stmt(s));
    } else {
        assert(ss.push(s).drop_first() =~= ss.drop_first().push(s));
        lemma_render_stmts_snoc(ss.drop_first(), s);
        assert(ss.push(s)[0] == ss[0]);
        assert(ss.push(s).len() != 0);
        assert(render_stmts(ss.push(s)) == render_stmt(ss.push(s)[0]) + render_stmts(
            ss.push(s).drop_first(),
        ));
        assert(render_stmts(ss.push(s)) == render_stmt(ss[0]) + (render_stmts(ss.drop_first())
            + render_stmt(s)));
        assert(render_stmt(ss[0]) + (render_stmts(ss.drop_first()) + render_stmt(s)) =~= (
        render_stmt(ss[0]) + render_stmts(ss.drop_first())) + render_stmt(s));
        assert(render_stmts(ss) == render_stmt(ss[0]) + render_stmts(ss.drop_first()));
        assert(render_stmts(ss.push(s)) =~= render_stmts(ss) + render_stmt(s));
    }
}

/// Extending a parameter list on the right appends that parameter and a
/// comma-space.
pub proof fn lemma_render_args_snoc(args: Seq<Seq<char>>, x: Seq<char>)
    ensures
        render_args(args.push(x)) == render_args(args) + x + ", "@,
    decreases args.len(),
{
    if args.len() == 0 {
        assert(args.push(x)[0] == x);
        assert(args.push(x).drop_first() =~= Seq::<Seq<char>>::empty());
        assert(render_args(Seq::<Seq<char>>::empty()) =~= Seq::<char>::empty());
        assert(render_args(args.push(x)) =~= render_args(args) + x + ", "@);
    } else {
        assert(args.push(x).drop_first() =~= args.drop_first().push(x));
        lemma_render_args_snoc(args.drop_first(), x);
        assert(args.push(x)[0] == args[0]);
        assert(args[0] + ", "@ + ((render_args(args.drop_first()) + x) + ", "@) =~= (((args[0]
            + ", "@) + render_args(args.drop_first())) + x) + ", "@);
        assert(render_args(args.push(x)) =~= render_args(args) + x + ", "@);
    }
}

impl Identifier {
    /// An identifier node with the given spelling.
    pub fn new(value: String) -> (r: Identifier)
        ensures
            r@ == value@,
    {
        Identifier { value }
    }

    /// The canonical rendering: the spelling itself.
    pub fn render(&self) -> (r: String)
        ensures
            r@ == self@,
    {
        self.value.clone()
    }
}

impl Integer {
    /// An integer literal node with the given value.
    pub fn new(value: i64) -> (r: Integer)
        ensures
            r.value == value,
    {
        Integer { value }
    }

    /// The canonical rendering: the decimal string of the value.
    pub fn render(&self) -> (r: String)
        ensures
            r@ == spec_int_string(self.value as int),
    {
        i64_string(self.value)
    }
}

impl Boolean {
    /// A boolean literal node with the given value.
    pub fn new(value: bool) -> (r: Boolean)
        ensures
            r.value == value,
    {
        Boolean { value }
    }

    /// The canonical rendering: `true` or `false`.
    pub fn render(&self) -> (r: String)
        ensures
            r@ == render_lit(LitModel::Bool(self.value)),
    {
        if self.value {
            String::from_str("true")
        } else {
            String::from_str("false")
        }
    }
}

impl Func {
    /// A function literal node with the given parameters and body.
    pub fn new(args: Vec<Identifier>, body: BlockStatement) -> (r: Func)
        ensures
            r.args == args,
            r.body == body,
    {
        Func { args, body }
    }

    /// The canonical rendering: `fn(` the parameters `) ` the body.
    pub fn render(&self) -> (r: String)
        ensures
            r@ == render_lit(LitModel::FuncLit(self@)),
        decreases *self,
    {
        let ghost am = func_model(*self).args;
        let mut r = String::from_str("fn(");
        let mut i: usize = 0;
        proof {
            assert(am.take(0) =~= Seq::<Seq<char>>::empty());
        }
        while i < self.args.len()
            invariant
                i <= self.args.len(),
                am == func_model(*self).args,
                am.len() == self.args@.len(),
                r@ == "fn("@ + render_args(am.take(i as int)),
            decreases self.args.len() - i,
        {
            proof {
                assert(am.take(i + 1) =~= am.take(i as int).push(am[i as int]));
                lemma_render_args_snoc(am.take(i as int), am[i as int]);
            }
            r.append(self.args[i].value.as_str());
            r.append(", ");
            i = i + 1;
        }
        proof {
            assert(am.take(self.args@.len() as int) =~= am);
        }
        r.append(") ");
        let b = self.body.render();
        r.append(b.as_str());
        r
    }
}

impl Literal {
    /// The canonical rendering of the literal.
    pub fn render(&self) -> (r: String)
        ensures
            r@ == render_lit(self@),
        decreases *self,
    {
        match self {
            Literal::Integer(i) => i.render(),
            Literal::Boolean(b) => b.render(),
            Literal::Func(f) => f.render(),
        }
    }
}

impl PrefixExpression {
    /// A prefix node owning its operand.
    pub fn new(operator: Prefix, right: Box<Expression>) -> (r: PrefixExpression)
        ensures
            r.operator == operator,
            r.right == right,
    {
        PrefixExpression { operator, right }
    }

    /// The canonical rendering: `(` operator operand `)`.
    pub fn render(&self) -> (r: String)
        ensures
            r@ == render_expr(self@),
        decreases *self,
    {
        let mut r = String::from_str("(");
        match self.operator {
            Prefix::Minus => r.append("-"),
            Prefix::Bang => r.append("!"),
        }
        let inner = self.right.render();
        r.append(inner.as_str());
        r.append(")");
        r
    }
}

impl InfixExpression {
    /// An infix node owning both operands.
    pub fn new(left: Box<Expression>, operator: Infix, right: Box<Expression>) -> (r:
        InfixExpression)
        ensures
            r.left == left,
            r.operator == operator,
            r.right == right,
    {
        InfixExpression { left, operator, right }
    }

    /// The canonical rendering: `(` left ` ` operator ` ` right `)`.
    pub fn render(&self) -> (r: String)
        ensures
            r@ == render_expr(self@),
        decreases *self,
    {
        let mut r = String::from_str("(");
        let l = self.left.render();
        r.append(l.as_str());
        r.append(" ");
        match self.operator {
            Infix::Plus => r.append("+"),
            Infix::Minus => r.append("-"),
            Infix::Asterisk => r.append("*"),
            Infix::Slash => r.append("/"),
            Infix::Gt => r.append(">"),
            Infix::Lt => r.append("<"),
            Infix::Equal => r.append("=="),
            Infix::NotEq => r.append("!="),
        }
        r.append(" ");
        let rr = self.right.render();
        r.append(rr.as_str());
        r.append(")");
        r
    }
}

impl IfExpression {
    /// An if node owning its condition and blocks.
    pub fn new(
        condition: Box<Expression>,
        consequence: BlockStatement,
        alternative: Option<BlockStatement>,
    ) -> (r: IfExpression)
        ensures
            r.condition == condition,
            r.consequence == consequence,
            r.alternative == alternative,
    {
        IfExpression { condition, consequence, alternative }
    }

    /// The canonical rendering: `if` condition ` ` consequence, then
    /// ` else ` alternative when one is present.
    pub fn render(&self) -> (r: String)
        ensures
            r@ == render_expr(self@),
        decreases *self,
    {
        let mut r = String::from_str("if");
        let c = self.condition.render();
        r.append(c.as_str());
        r.append(" ");
        let cons = self.consequence.render();
        r.append(cons.as_str());
        match &self.alternative {
            Option::None => {},
            Option::Some(a) => {
                r.append(" else ");
                let alt = a.render();
                r.append(alt.as_str());
            },
        }
        r
    }
}

impl Expression {
    /// The canonical rendering of the expression.
    pub fn render(&self) -> (r: String)
        ensures
            r@ == render_expr(self@),
        decreases *self,
    {
        match self {
            Expression::Identifier(id) => id.render(),
            Expression::Literal(l) => l.render(),
            Expression::Prefix(p) => p.render(),
            Expression::Infix(i) => i.render(),
            Expression::If(f) => f.render(),
        }
    }
}

impl ExpressionStatement {
    /// An expression statement holding the given expression.
    pub fn new(value: Expression) -> (r: ExpressionStatement)
        ensures
            r.value == value,
    {
        ExpressionStatement { value }
    }

    /// The canonical rendering: that of the held expression.
    pub fn render(&self) -> (r: String)
        ensures
            r@ == render_expr(self@),
        decreases *self,
    {
        self.value.render()
    }
}

impl Statement {
    /// The canonical rendering of the statement.
    pub fn render(&self) -> (r: String)
        ensures
            r@ == render_stmt(self@),
        decreases *self,
    {
        match self {
            Statement::Expr(es) => es.render(),
            Statement::Block(b) => b.render(),
        }
    }
}

impl BlockStatement {
    /// The canonical rendering: the statements' renderings in order.
    pub fn render(&self) -> (r: String)
        ensures
            r@ == render_stmts(self@.stmts),
        decreases *self,
    {
        let ghost bm = block_model(*self).stmts;
        let mut r = String::new();
        let mut i: usize = 0;
        proof {
            assert(bm.take(0) =~= Seq::<StmtModel>::empty());
        }
        while i < self.statements.len()
            invariant
                i <= self.statements.len(),
                bm == block_model(*self).stmts,
                bm.len() == self.statements@.len(),
                r@ == render_stmts(bm.take(i as int)),
            decreases self.statements.len() - i,
        {
            proof {
                assert(bm.take(i + 1) =~= bm.take(i as int).push(bm[i as int]));
                lemma_render_stmts_snoc(bm.take(i as int), bm[i as int]);
            }
            let s = self.statements[i].render();
            r.append(s.as_str());
            i = i + 1;
        }
        proof {
            assert(bm.take(self.statements@.len() as int) =~= bm);
        }
        r
    }
}

impl Program {
    /// A program with no statements yet.
    pub fn new() -> (r: Program)
        ensures
            r@ =~= Seq::<StmtModel>::empty(),
    {
        Program { statements: Vec::new() }
    }

    /// The canonical rendering: the statements' renderings in order, with
    /// no separator.
    pub fn render(&self) -> (r: String)
        ensures
            r@ == render_stmts(self@),
    {
        let ghost pm = self@;
        let mut r = String::new();
        let mut i: usize = 0;
        proof {
            assert(pm.take(0) =~= Seq::<StmtModel>::empty());
        }
        while i < self.statements.len()
            invariant
                i <= self.statements.len(),
                pm == self@,
                pm.len() == self.statements@.len(),
                r@ == render_stmts(pm.take(i as int)),
            decreases self.statements.len() - i,
        {
            proof {
                assert(pm.take(i + 1) =~= pm.take(i as int).push(pm[i as int]));
                lemma_render_stmts_snoc(pm.take(i as int), pm[i as int]);
            }
            let s = self.statements[i].render();
            r.append(s.as_str());
            i = i + 1;
        }
        proof {
            assert(pm.take(self.statements@.len() as int) =~= pm);
        }
        r
    }
}

} // verus!
