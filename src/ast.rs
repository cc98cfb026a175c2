//! The syntax tree, its value model, and its canonical rendering.
use vstd::prelude::*;

use crate::text::{push_char, push_seq};
use crate::token::{Tok, Token};

verus! {

/// A name: `x`, `foobar`.
pub struct Identifier {
    pub token: Token,
    pub value: String,
}

/// A decimal integer literal and the value it denotes.
pub struct IntegerLiteral {
    pub token: Token,
    pub value: i64,
}

/// `true` or `false`.
pub struct Boolean {
    pub token: Token,
    pub value: bool,
}

/// A unary operator applied to an operand: `-x`, `!x`.
pub struct PrefixExpression {
    pub token: Token,
    pub operator: String,
    pub right: Box<Expression>,
}

/// A binary operator applied to two operands: `a + b`.
pub struct InfixExpression {
    pub token: Token,
    pub left: Box<Expression>,
    pub operator: String,
    pub right: Box<Expression>,
}

/// `if (condition) { ... }`, with an optional `else { ... }`.
pub struct IfExpression {
    pub token: Token,
    pub condition: Box<Expression>,
    pub consequence: BlockStatement,
    pub alternative: Option<BlockStatement>,
}

/// `fn(x, y) { ... }`.
pub struct FunctionLiteral {
    pub token: Token,
    pub parameters: Vec<Identifier>,
    pub body: BlockStatement,
}

/// `callee(arg1, arg2)`.
pub struct CallExpression {
    pub token: Token,
    pub function: Box<Expression>,
    pub arguments: Vec<Expression>,
}

/// The expressions of the language.
pub enum Expression {
    Identifier(Identifier),
    IntegerLiteral(IntegerLiteral),
    Boolean(Boolean),
    Prefix(PrefixExpression),
    Infix(InfixExpression),
    If(IfExpression),
    Function(FunctionLiteral),
    Call(CallExpression),
}

/// `let name = value;`.
pub struct LetStatement {
    pub token: Token,
    pub name: Identifier,
    pub value: Expression,
}

/// `return value;`.
pub struct ReturnStatement {
    pub token: Token,
    pub return_value: Expression,
}

/// An expression standing as a statement.
pub struct ExpressionStatement {
    pub token: Token,
    pub expression: Expression,
}

/// `{ statements }`.
pub struct BlockStatement {
    pub token: Token,
    pub statements: Vec<Statement>,
}

/// The statements of the language.
pub enum Statement {
    Let(LetStatement),
    Return(ReturnStatement),
    Expression(ExpressionStatement),
    Block(BlockStatement),
}

/// Any node of the tree below the program.
pub enum NodeType {
    Statement(Statement),
    Expression(Expression),
}

/// The root of the tree: the top-level statements, in order.
pub struct Program {
    pub statements: Vec<Statement>,
}

/// An identifier as a value.
pub struct Ident {
    pub token: Tok,
    pub value: Seq<char>,
}

/// A block as a value.
pub struct Block {
    pub token: Tok,
    pub statements: Seq<Stmt>,
}

/// An expression as a value: the tree that an `Expression` stands for.
pub enum Expr {
    Identifier(Ident),
    IntegerLiteral { token: Tok, value: i64 },
    Boolean { token: Tok, value: bool },
    Prefix { token: Tok, operator: Seq<char>, right: Box<Expr> },
    Infix { token: Tok, left: Box<Expr>, operator: Seq<char>, right: Box<Expr> },
    If { token: Tok, condition: Box<Expr>, consequence: Block, alternative: Option<Block> },
    Function { token: Tok, parameters: Seq<Ident>, body: Block },
    Call { token: Tok, function: Box<Expr>, arguments: Seq<Expr> },
}

/// A statement as a value.
pub enum Stmt {
    Let { token: Tok, name: Ident, value: Expr },
    Return { token: Tok, value: Expr },
    Expression { token: Tok, expression: Expr },
    Block(Block),
}

pub open spec fn ident_view(i: Identifier) -> Ident {
    Ident { token: i.token@, value: i.value@ }
}

pub open spec fn idents_view(ps: Seq<Identifier>) -> Seq<Ident> {
    ps.map_values(|p: Identifier| ident_view(p))
}

/// The value of an expression tree.
pub open spec fn expr_view(e: Expression) -> Expr
    decreases e,
{
    match e {
        Expression::Identifier(i) => Expr::Identifier(ident_view(i)),
        Expression::IntegerLiteral(l) => Expr::IntegerLiteral { token: l.token@, value: l.value },
        Expression::Boolean(b) => Expr::Boolean { token: b.token@, value: b.value },
        Expression::Prefix(p) => Expr::Prefix {
            token: p.token@,
            operator: p.operator@,
            right: Box::new(expr_view(*p.right)),
        },
        Expression::Infix(x) => Expr::Infix {
            token: x.token@,
            left: Box::new(expr_view(*x.left)),
            operator: x.operator@,
            right: Box::new(expr_view(*x.right)),
        },
        Expression::If(x) => Expr::If {
            token: x.token@,
            condition: Box::new(expr_view(*x.condition)),
            consequence: block_view(x.consequence),
            alternative: match x.alternative {
                Some(b) => Some(block_view(b)),
                None => None,
            },
        },
        Expression::Function(f) => Expr::Function {
            token: f.token@,
            parameters: idents_view(f.parameters@),
            body: block_view(f.body),
        },
        Expression::Call(c) => Expr::Call {
            token: c.token@,
            function: Box::new(expr_view(*c.function)),
            arguments: exprs_view(c.arguments@),
        },
    }
}

pub open spec fn exprs_view(es: Seq<Expression>) -> Seq<Expr>
    decreases es,
{
    if es.len() == 0 {
        Seq::empty()
    } else {
        exprs_view(es.drop_last()).push(expr_view(es.last()))
    }
}

pub open spec fn block_view(b: BlockStatement) -> Block
    decreases b,
{
    Block { token: b.token@, statements: stmts_view(b.statements@) }
}

/// The value of a statement tree.
pub open spec fn stmt_view(s: Statement) -> Stmt
    decreases s,
{
    match s {
        Statement::Let(l) => Stmt::Let {
            token: l.token@,
            name: ident_view(l.name),
            value: expr_view(l.value),
        },
        Statement::Return(r) => Stmt::Return { token: r.token@, value: expr_view(r.return_value) },
        Statement::Expression(x) => Stmt::Expression {
            token: x.token@,
            expression: expr_view(x.expression),
        },
        Statement::Block(b) => Stmt::Block(block_view(b)),
    }
}

pub open spec fn stmts_view(ss: Seq<Statement>) -> Seq<Stmt>
    decreases ss,
{
    if ss.len() == 0 {
        Seq::empty()
    } else {
        stmts_view(ss.drop_last()).push(stmt_view(ss.last()))
    }
}

impl View for Identifier {
    type V = Ident;

    open spec fn view(&self) -> Ident {
        ident_view(*self)
    }
}

impl View for Expression {
    type V = Expr;

    open spec fn view(&self) -> Expr {
        expr_view(*self)
    }
}

impl View for Statement {
    type V = Stmt;

    open spec fn view(&self) -> Stmt {
        stmt_view(*self)
    }
}

impl View for BlockStatement {
    type V = Block;

    open spec fn view(&self) -> Block {
        block_view(*self)
    }
}

impl View for Program {
    type V = Seq<Stmt>;

    open spec fn view(&self) -> Seq<Stmt> {
        stmts_view(self.statements@)
    }
}

/// The canonical text of an expression: binary and unary operations are
/// fully parenthesized, so the text shows how the operands were grouped.
pub open spec fn expr_text(e: Expr) -> Seq<char>
    decreases e,
{
    match e {
        Expr::Identifier(i) => i.value,
        Expr::IntegerLiteral { token, .. } => token.1,
        Expr::Boolean { token, .. } => token.1,
        Expr::Prefix { operator, right, .. } => seq!['('] + operator + expr_text(*right) + seq![')'],
        Expr::Infix { left, operator, right, .. } => seq!['('] + expr_text(*left) + seq![' ']
            + operator + seq![' '] + expr_text(*right) + seq![')'],
        Expr::If { condition, consequence, alternative, .. } => seq!['i', 'f'] + expr_text(
            *condition,
        ) + seq![' '] + stmts_text(consequence.statements) + match alternative {
            Some(b) => seq!['e', 'l', 's', 'e', ' '] + stmts_text(b.statements),
            None => Seq::empty(),
        },
        Expr::Function { token, parameters, body } => token.1 + seq!['('] + idents_text(
            parameters,
        ) + seq![')', ' '] + stmts_text(body.statements),
        Expr::Call { function, arguments, .. } => expr_text(*function) + seq!['('] + exprs_text(
            arguments,
        ) + seq![')'],
    }
}

/// The texts of expressions, separated by `", "`.
pub open spec fn exprs_text(es: Seq<Expr>) -> Seq<char>
    decreases es,
{
    if es.len() == 0 {
        Seq::empty()
    } else if es.len() == 1 {
        expr_text(es[0])
    } else {
        exprs_text(es.drop_last()) + seq![',', ' '] + expr_text(es.last())
    }
}

/// The names of identifiers, separated by `", "`.
pub open spec fn idents_text(ps: Seq<Ident>) -> Seq<char>
    decreases ps.len(),
{
    if ps.len() == 0 {
        Seq::empty()
    } else if ps.len() == 1 {
        ps[0].value
    } else {
        idents_text(ps.drop_last()) + seq![',', ' '] + ps.last().value
    }
}

/// The canonical text of a statement.
pub open spec fn stmt_text(s: Stmt) -> Seq<char>
    decreases s,
{
    match s {
        Stmt::Let { token, name, value } => token.1 + seq![' '] + name.value + seq![' ', '=', ' ']
            + expr_text(value) + seq![';'],
        Stmt::Return { token, value } => token.1 + seq![' '] + expr_text(value) + seq![';'],
        Stmt::Expression { expression, .. } => expr_text(expression),
        Stmt::Block(b) => stmts_text(b.statements),
    }
}

/// The texts of statements, one after the other.
pub open spec fn stmts_text(ss: Seq<Stmt>) -> Seq<char>
    decreases ss,
{
    if ss.len() == 0 {
        Seq::empty()
    } else {
        stmts_text(ss.drop_last()) + stmt_text(ss.last())
    }
}

/// The texts of statements, one per line.
pub open spec fn stmts_lines(ss: Seq<Stmt>) -> Seq<char>
    decreases ss.len(),
{
    if ss.len() == 0 {
        Seq::empty()
    } else if ss.len() == 1 {
        stmt_text(ss[0])
    } else {
        stmts_lines(ss.drop_last()) + seq!['\n'] + stmt_text(ss.last())
    }
}

/// Appends the characters of `cs`.
fn push_chars(s: &mut String, cs: &[char])
    ensures
        final(s)@ == old(s)@ + cs@,
{
    let mut i: usize = 0;
    while i < cs.len()
        invariant
            i <= cs@.len(),
            s@ == old(s)@ + cs@.subrange(0, i as int),
        decreases cs@.len() - i,
    {
        push_char(s, cs[i]);
        assert(s@ =~= old(s)@ + cs@.subrange(0, i + 1));
        i = i + 1;
    }
    assert(cs@.subrange(0, cs@.len() as int) =~= cs@);
}

pub(crate) proof fn lemma_stmts_view_push(v: Seq<Statement>, x: Statement)
    ensures
        stmts_view(v.push(x)) == stmts_view(v).push(stmt_view(x)),
{
    assert(v.push(x).drop_last() =~= v);
}

pub(crate) proof fn lemma_exprs_view_push(v: Seq<Expression>, x: Expression)
    ensures
        exprs_view(v.push(x)) == exprs_view(v).push(expr_view(x)),
{
    assert(v.push(x).drop_last() =~= v);
}

proof fn lemma_stmts_view_step(ss: Seq<Statement>, i: int)
    requires
        0 <= i < ss.len(),
    ensures
        stmts_view(ss.take(i + 1)) == stmts_view(ss.take(i)).push(stmt_view(ss[i])),
        stmts_view(ss.take(i)).len() == i,
{
    assert(ss.take(i + 1).drop_last() =~= ss.take(i));
    lemma_stmts_view_len(ss.take(i));
}

proof fn lemma_stmts_view_len(ss: Seq<Statement>)
    ensures
        stmts_view(ss).len() == ss.len(),
    decreases ss.len(),
{
    if ss.len() > 0 {
        lemma_stmts_view_len(ss.drop_last());
    }
}

proof fn lemma_exprs_view_step(es: Seq<Expression>, i: int)
    requires
        0 <= i < es.len(),
    ensures
        exprs_view(es.take(i + 1)) == exprs_view(es.take(i)).push(expr_view(es[i])),
        exprs_view(es.take(i)).len() == i,
{
    assert(es.take(i + 1).drop_last() =~= es.take(i));
    lemma_exprs_view_len(es.take(i));
}

proof fn lemma_exprs_view_len(es: Seq<Expression>)
    ensures
        exprs_view(es).len() == es.len(),
    decreases es.len(),
{
    if es.len() > 0 {
        lemma_exprs_view_len(es.drop_last());
    }
}

/// The canonical text of an expression.
pub fn expr_string(e: &Expression) -> (r: String)
    ensures
        r@ == expr_text(e@),
    decreases e,
{
    match e {
        Expression::Identifier(i) => i.value.clone(),
        Expression::IntegerLiteral(l) => l.token.literal.clone(),
        Expression::Boolean(b) => b.token.literal.clone(),
        Expression::Prefix(p) => prefix_string(p),
        Expression::Infix(x) => infix_string(x),
        Expression::If(x) => if_string(x),
        Expression::Function(f) => function_string(f),
        Expression::Call(c) => call_string(c),
    }
}

fn prefix_string(p: &PrefixExpression) -> (r: String)
    ensures
        r@ == expr_text(expr_view(Expression::Prefix(*p))),
    decreases p,
{
    let mut out = String::new();
    push_char(&mut out, '(');
    push_seq(&mut out, &p.operator);
    let right = expr_string(&p.right);
    push_seq(&mut out, &right);
    push_char(&mut out, ')');
    assert(out@ =~= expr_text(expr_view(Expression::Prefix(*p))));
    out
}

fn infix_string(x: &InfixExpression) -> (r: String)
    ensures
        r@ == expr_text(expr_view(Expression::Infix(*x))),
    decreases x,
{
    let mut out = String::new();
    push_char(&mut out, '(');
    let left = expr_string(&x.left);
    push_seq(&mut out, &left);
    push_char(&mut out, ' ');
    push_seq(&mut out, &x.operator);
    push_char(&mut out, ' ');
    let right = expr_string(&x.right);
    push_seq(&mut out, &right);
    push_char(&mut out, ')');
    assert(out@ =~= expr_text(expr_view(Expression::Infix(*x))));
    out
}

fn if_string(x: &IfExpression) -> (r: String)
    ensures
        r@ == expr_text(expr_view(Expression::If(*x))),
    decreases x,
{
    let mut out = String::new();
    push_chars(&mut out, &['i', 'f']);
    let cond = expr_string(&x.condition);
    push_seq(&mut out, &cond);
    push_char(&mut out, ' ');
    let cons = stmts_string(&x.consequence.statements);
    assert(block_view(x.consequence).statements == stmts_view(x.consequence.statements@));
    push_seq(&mut out, &cons);
    match &x.alternative {
        Some(b) => {
            push_chars(&mut out, &['e', 'l', 's', 'e', ' ']);
            let alt = stmts_string(&b.statements);
            assert(block_view(*b).statements == stmts_view(b.statements@));
            push_seq(&mut out, &alt);
        },
        None => {},
    }
    assert(out@ =~= expr_text(expr_view(Expression::If(*x))));
    out
}

fn function_string(f: &FunctionLiteral) -> (r: String)
    ensures
        r@ == expr_text(expr_view(Expression::Function(*f))),
    decreases f,
{
    let mut out = f.token.literal.clone();
    push_char(&mut out, '(');
    let params = idents_string(&f.parameters);
    push_seq(&mut out, &params);
    push_chars(&mut out, &[')', ' ']);
    let body = stmts_string(&f.body.statements);
    assert(block_view(f.body).statements == stmts_view(f.body.statements@));
    push_seq(&mut out, &body);
    assert(out@ =~= expr_text(expr_view(Expression::Function(*f))));
    out
}

fn call_string(c: &CallExpression) -> (r: String)
    ensures
        r@ == expr_text(expr_view(Expression::Call(*c))),
    decreases c,
{
    let mut out = expr_string(&c.function);
    push_char(&mut out, '(');
    let args = exprs_string(&c.arguments);
    push_seq(&mut out, &args);
    push_char(&mut out, ')');
    assert(out@ =~= expr_text(expr_view(Expression::Call(*c))));
    out
}

/// The texts of expressions, separated by `", "`.
fn exprs_string(es: &Vec<Expression>) -> (r: String)
    ensures
        r@ == exprs_text(exprs_view(es@)),
    decreases es,
{
    let mut out = String::new();
    let mut i: usize = 0;
    while i < es.len()
        invariant
            i <= es@.len(),
            out@ == exprs_text(exprs_view(es@.take(i as int))),
        decreases es@.len() - i,
    {
        if i > 0 {
            push_chars(&mut out, &[',', ' ']);
        }
        let t = expr_string(&es[i]);
        push_seq(&mut out, &t);
        proof {
            lemma_exprs_view_step(es@, i as int);
            let v = exprs_view(es@.take(i + 1));
            assert(v.drop_last() =~= exprs_view(es@.take(i as int)));
        }
        assert(out@ =~= exprs_text(exprs_view(es@.take(i + 1))));
        i = i + 1;
    }
    assert(es@.take(es@.len() as int) =~= es@);
    out
}

/// The names of identifiers, separated by `", "`.
fn idents_string(ps: &Vec<Identifier>) -> (r: String)
    ensures
        r@ == idents_text(idents_view(ps@)),
{
    let mut out = String::new();
    let mut i: usize = 0;
    while i < ps.len()
        invariant
            i <= ps@.len(),
            out@ == idents_text(idents_view(ps@.take(i as int))),
        decreases ps@.len() - i,
    {
        if i > 0 {
            push_chars(&mut out, &[',', ' ']);
        }
        push_seq(&mut out, &ps[i].value);
        proof {
            let v = idents_view(ps@.take(i + 1));
            assert(v.drop_last() =~= idents_view(ps@.take(i as int)));
        }
        assert(out@ =~= idents_text(idents_view(ps@.take(i + 1))));
        i = i + 1;
    }
    assert(ps@.take(ps@.len() as int) =~= ps@);
    out
}

/// The canonical text of a statement.
pub fn stmt_string(s: &Statement) -> (r: String)
    ensures
        r@ == stmt_text(s@),
    decreases s,
{
    match s {
        Statement::Let(l) => let_string(l),
        Statement::Return(r) => return_string(r),
        Statement::Expression(x) => expr_string(&x.expression),
        Statement::Block(b) => stmts_string(&b.statements),
    }
}

fn let_string(l: &LetStatement) -> (r: String)
    ensures
        r@ == stmt_text(stmt_view(Statement::Let(*l))),
    decreases l,
{
    let mut out = l.token.literal.clone();
    push_char(&mut out, ' ');
    push_seq(&mut out, &l.name.value);
    push_chars(&mut out, &[' ', '=', ' ']);
    let v = expr_string(&l.value);
    push_seq(&mut out, &v);
    push_char(&mut out, ';');
    assert(out@ =~= stmt_text(stmt_view(Statement::Let(*l))));
    out
}

fn return_string(r: &ReturnStatement) -> (out: String)
    ensures
        out@ == stmt_text(stmt_view(Statement::Return(*r))),
    decreases r,
{
    let mut out = r.token.literal.clone();
    push_char(&mut out, ' ');
    let v = expr_string(&r.return_value);
    push_seq(&mut out, &v);
    push_char(&mut out, ';');
    assert(out@ =~= stmt_text(stmt_view(Statement::Return(*r))));
    out
}

/// The texts of statements, one after the other.
fn stmts_string(ss: &Vec<Statement>) -> (r: String)
    ensures
        r@ == stmts_text(stmts_view(ss@)),
    decreases ss,
{
    let mut out = String::new();
    let mut i: usize = 0;
    while i < ss.len()
        invariant
            i <= ss@.len(),
            out@ == stmts_text(stmts_view(ss@.take(i as int))),
        decreases ss@.len() - i,
    {
        let t = stmt_string(&ss[i]);
        push_seq(&mut out, &t);
        proof {
            lemma_stmts_view_step(ss@, i as int);
            let v = stmts_view(ss@.take(i + 1));
            assert(v.drop_last() =~= stmts_view(ss@.take(i as int)));
        }
        assert(out@ =~= stmts_text(stmts_view(ss@.take(i + 1))));
        i = i + 1;
    }
    assert(ss@.take(ss@.len() as int) =~= ss@);
    out
}

/// The texts of statements, one per line.
fn stmts_lines_string(ss: &Vec<Statement>) -> (r: String)
    ensures
        r@ == stmts_lines(stmts_view(ss@)),
{
    let mut out = String::new();
    let mut i: usize = 0;
    while i < ss.len()
        invariant
            i <= ss@.len(),
            out@ == stmts_lines(stmts_view(ss@.take(i as int))),
        decreases ss@.len() - i,
    {
        if i > 0 {
            push_char(&mut out, '\n');
        }
        let t = stmt_string(&ss[i]);
        push_seq(&mut out, &t);
        proof {
            lemma_stmts_view_step(ss@, i as int);
            let v = stmts_view(ss@.take(i + 1));
            assert(v.drop_last() =~= stmts_view(ss@.take(i as int)));
        }
        assert(out@ =~= stmts_lines(stmts_view(ss@.take(i + 1))));
        i = i + 1;
    }
    assert(ss@.take(ss@.len() as int) =~= ss@);
    out
}

/// A copy of a token.
pub(crate) fn clone_token(t: &Token) -> (r: Token)
    ensures
        r@ == t@,
{
    Token { token_type: t.token_type, literal: t.literal.clone() }
}

fn clone_ident(i: &Identifier) -> (r: Identifier)
    ensures
        r@ == i@,
{
    Identifier { token: clone_token(&i.token), value: i.value.clone() }
}

fn clone_expr(e: &Expression) -> (r: Expression)
    ensures
        r@ == e@,
    decreases e,
{
    match e {
        Expression::Identifier(i) => Expression::Identifier(clone_ident(i)),
        Expression::IntegerLiteral(l) => Expression::IntegerLiteral(
            IntegerLiteral { token: clone_token(&l.token), value: l.value },
        ),
        Expression::Boolean(b) => Expression::Boolean(
            Boolean { token: clone_token(&b.token), value: b.value },
        ),
        Expression::Prefix(p) => Expression::Prefix(
            PrefixExpression {
                token: clone_token(&p.token),
                operator: p.operator.clone(),
                right: Box::new(clone_expr(&p.right)),
            },
        ),
        Expression::Infix(x) => Expression::Infix(
            InfixExpression {
                token: clone_token(&x.token),
                left: Box::new(clone_expr(&x.left)),
                operator: x.operator.clone(),
                right: Box::new(clone_expr(&x.right)),
            },
        ),
        Expression::If(x) => {
            let alternative = match &x.alternative {
                Some(b) => Some(clone_block(b)),
                None => None,
            };
            Expression::If(
                IfExpression {
                    token: clone_token(&x.token),
                    condition: Box::new(clone_expr(&x.condition)),
                    consequence: clone_block(&x.consequence),
                    alternative,
                },
            )
        },
        Expression::Function(f) => Expression::Function(
            FunctionLiteral {
                token: clone_token(&f.token),
                parameters: clone_idents(&f.parameters),
                body: clone_block(&f.body),
            },
        ),
        Expression::Call(c) => Expression::Call(
            CallExpression {
                token: clone_token(&c.token),
                function: Box::new(clone_expr(&c.function)),
                arguments: clone_exprs(&c.arguments),
            },
        ),
    }
}

fn clone_idents(ps: &Vec<Identifier>) -> (r: Vec<Identifier>)
    ensures
        idents_view(r@) == idents_view(ps@),
{
    let mut r: Vec<Identifier> = Vec::new();
    let mut i: usize = 0;
    while i < ps.len()
        invariant
            i <= ps@.len(),
            r@.len() == i,
            forall|j: int| 0 <= j < i ==> #[trigger] ident_view(r@[j]) == ident_view(ps@[j]),
        decreases ps@.len() - i,
    {
        r.push(clone_ident(&ps[i]));
        i = i + 1;
    }
    assert(idents_view(r@) =~= idents_view(ps@));
    r
}

fn clone_exprs(es: &Vec<Expression>) -> (r: Vec<Expression>)
    ensures
        exprs_view(r@) == exprs_view(es@),
    decreases es,
{
    let mut r: Vec<Expression> = Vec::new();
    let mut i: usize = 0;
    while i < es.len()
        invariant
            i <= es@.len(),
            exprs_view(r@) == exprs_view(es@.take(i as int)),
        decreases es@.len() - i,
    {
        let a = clone_expr(&es[i]);
        let ghost before = r@;
        r.push(a);
        proof {
            lemma_exprs_view_step(es@, i as int);
            assert(r@.drop_last() =~= before);
        }
        i = i + 1;
    }
    assert(es@.take(es@.len() as int) =~= es@);
    r
}

fn clone_block(b: &BlockStatement) -> (r: BlockStatement)
    ensures
        r@ == b@,
    decreases b,
{
    let mut statements: Vec<Statement> = Vec::new();
    let mut i: usize = 0;
    while i < b.statements.len()
        invariant
            i <= b.statements@.len(),
            stmts_view(statements@) == stmts_view(b.statements@.take(i as int)),
        decreases b.statements@.len() - i,
    {
        let s = clone_stmt(&b.statements[i]);
        let ghost before = statements@;
        statements.push(s);
        proof {
            lemma_stmts_view_step(b.statements@, i as int);
            assert(statements@.drop_last() =~= before);
        }
        i = i + 1;
    }
    assert(b.statements@.take(b.statements@.len() as int) =~= b.statements@);
    BlockStatement { token: clone_token(&b.token), statements }
}

fn clone_stmt(s: &Statement) -> (r: Statement)
    ensures
        r@ == s@,
    decreases s,
{
    match s {
        Statement::Let(l) => Statement::Let(
            LetStatement {
                token: clone_token(&l.token),
                name: clone_ident(&l.name),
                value: clone_expr(&l.value),
            },
        ),
        Statement::Return(r) => Statement::Return(
            ReturnStatement {
                token: clone_token(&r.token),
                return_value: clone_expr(&r.return_value),
            },
        ),
        Statement::Expression(x) => Statement::Expression(
            ExpressionStatement {
                token: clone_token(&x.token),
                expression: clone_expr(&x.expression),
            },
        ),
        Statement::Block(b) => Statement::Block(clone_block(b)),
    }
}

/// A node as a value.
pub enum Tree {
    Stmt(Stmt),
    Expr(Expr),
}

impl View for NodeType {
    type V = Tree;

    open spec fn view(&self) -> Tree {
        match *self {
            NodeType::Statement(s) => Tree::Stmt(stmt_view(s)),
            NodeType::Expression(e) => Tree::Expr(expr_view(e)),
        }
    }
}

impl NodeType {
    /// A deep copy of the node.
    pub fn clone_node(&self) -> (r: Self)
        ensures
            r@ == self@,
    {
        match self {
            NodeType::Statement(s) => NodeType::Statement(clone_stmt(s)),
            NodeType::Expression(e) => NodeType::Expression(clone_expr(e)),
        }
    }
}

/// The text of the token an expression starts from.
pub open spec fn expr_literal(e: Expr) -> Seq<char> {
    match e {
        Expr::Identifier(i) => i.token.1,
        Expr::IntegerLiteral { token, .. } => token.1,
        Expr::Boolean { token, .. } => token.1,
        Expr::Prefix { token, .. } => token.1,
        Expr::Infix { token, .. } => token.1,
        Expr::If { token, .. } => token.1,
        Expr::Function { token, .. } => token.1,
        Expr::Call { token, .. } => token.1,
    }
}

/// The text of the token a statement starts from.
pub open spec fn stmt_literal(s: Stmt) -> Seq<char> {
    match s {
        Stmt::Let { token, .. } => token.1,
        Stmt::Return { token, .. } => token.1,
        Stmt::Expression { token, .. } => token.1,
        Stmt::Block(b) => b.token.1,
    }
}

fn expr_token_literal(e: &Expression) -> (r: String)
    ensures
        r@ == expr_literal(e@),
{
    match e {
        Expression::Identifier(i) => i.token.literal.clone(),
        Expression::IntegerLiteral(l) => l.token.literal.clone(),
        Expression::Boolean(b) => b.token.literal.clone(),
        Expression::Prefix(p) => p.token.literal.clone(),
        Expression::Infix(x) => x.token.literal.clone(),
        Expression::If(x) => x.token.literal.clone(),
        Expression::Function(f) => f.token.literal.clone(),
        Expression::Call(c) => c.token.literal.clone(),
    }
}

fn stmt_token_literal(s: &Statement) -> (r: String)
    ensures
        r@ == stmt_literal(s@),
{
    match s {
        Statement::Let(l) => l.token.literal.clone(),
        Statement::Return(r) => r.token.literal.clone(),
        Statement::Expression(x) => x.token.literal.clone(),
        Statement::Block(b) => b.token.literal.clone(),
    }
}

impl Program {
    /// An empty program.
    pub fn new() -> (p: Self)
        ensures
            p@ == Seq::<Stmt>::empty(),
    {
        Program { statements: Vec::new() }
    }

    /// The canonical texts of the statements, one per line.
    pub fn string(&self) -> (r: String)
        ensures
            r@ == stmts_lines(self@),
    {
        stmts_lines_string(&self.statements)
    }
}

/// What every node of the tree offers: the text of the token it starts from,
/// and its canonical text.
pub trait Node {
    spec fn literal_view(&self) -> Seq<char>;

    spec fn text_view(&self) -> Seq<char>;

    fn token_literal(&self) -> (r: String)
        ensures
            r@ == self.literal_view(),
    ;

    fn to_string(&self) -> (r: String)
        ensures
            r@ == self.text_view(),
    ;
}

impl Node for Program {
    open spec fn literal_view(&self) -> Seq<char> {
        if self.statements@.len() > 0 {
            stmt_literal(stmt_view(self.statements@[0]))
        } else {
            Seq::empty()
        }
    }

    open spec fn text_view(&self) -> Seq<char> {
        stmts_text(self@)
    }

    fn token_literal(&self) -> (r: String) {
        if self.statements.len() > 0 {
            stmt_token_literal(&self.statements[0])
        } else {
            String::new()
        }
    }

    fn to_string(&self) -> (r: String) {
        stmts_string(&self.statements)
    }
}

impl Node for NodeType {
    open spec fn literal_view(&self) -> Seq<char> {
        match self@ {
            Tree::Stmt(s) => stmt_literal(s),
            Tree::Expr(e) => expr_literal(e),
        }
    }

    open spec fn text_view(&self) -> Seq<char> {
        match self@ {
            Tree::Stmt(s) => stmt_text(s),
            Tree::Expr(e) => expr_text(e),
        }
    }

    fn token_literal(&self) -> (r: String) {
        match self {
            NodeType::Statement(s) => stmt_token_literal(s),
            NodeType::Expression(e) => expr_token_literal(e),
        }
    }

    fn to_string(&self) -> (r: String) {
        match self {
            NodeType::Statement(s) => stmt_string(s),
            NodeType::Expression(e) => expr_string(e),
        }
    }
}

impl Node for Statement {
    open spec fn literal_view(&self) -> Seq<char> {
        stmt_literal(self@)
    }

    open spec fn text_view(&self) -> Seq<char> {
        stmt_text(self@)
    }

    fn token_literal(&self) -> (r: String) {
        stmt_token_literal(self)
    }

    fn to_string(&self) -> (r: String) {
        stmt_string(self)
    }
}

impl Node for Expression {
    open spec fn literal_view(&self) -> Seq<char> {
        expr_literal(self@)
    }

    open spec fn text_view(&self) -> Seq<char> {
        expr_text(self@)
    }

    fn token_literal(&self) -> (r: String) {
        expr_token_literal(self)
    }

    fn to_string(&self) -> (r: String) {
        expr_string(self)
    }
}

impl Node for LetStatement {
    open spec fn literal_view(&self) -> Seq<char> {
        self.token.literal@
    }

    open spec fn text_view(&self) -> Seq<char> {
        stmt_text(stmt_view(Statement::Let(*self)))
    }

    fn token_literal(&self) -> (r: String) {
        self.token.literal.clone()
    }

    fn to_string(&self) -> (r: String) {
        let_string(self)
    }
}

impl Node for ReturnStatement {
    open spec fn literal_view(&self) -> Seq<char> {
        self.token.literal@
    }

    open spec fn text_view(&self) -> Seq<char> {
        stmt_text(stmt_view(Statement::Return(*self)))
    }

    fn token_literal(&self) -> (r: String) {
        self.token.literal.clone()
    }

    fn to_string(&self) -> (r: String) {
        return_string(self)
    }
}

impl Node for ExpressionStatement {
    open spec fn literal_view(&self) -> Seq<char> {
        self.token.literal@
    }

    open spec fn text_view(&self) -> Seq<char> {
        expr_text(expr_view(self.expression))
    }

    fn token_literal(&self) -> (r: String) {
        self.token.literal.clone()
    }

    fn to_string(&self) -> (r: String) {
        expr_string(&self.expression)
    }
}

impl Node for BlockStatement {
    open spec fn literal_view(&self) -> Seq<char> {
        self.token.literal@
    }

    open spec fn text_view(&self) -> Seq<char> {
        stmts_text(stmts_view(self.statements@))
    }

    fn token_literal(&self) -> (r: String) {
        self.token.literal.clone()
    }

    fn to_string(&self) -> (r: String) {
        stmts_string(&self.statements)
    }
}

impl Node for Identifier {
    open spec fn literal_view(&self) -> Seq<char> {
        self.token.literal@
    }

    open spec fn text_view(&self) -> Seq<char> {
        self.value@
    }

    fn token_literal(&self) -> (r: String) {
        self.token.literal.clone()
    }

    fn to_string(&self) -> (r: String) {
        self.value.clone()
    }
}

impl Node for IntegerLiteral {
    open spec fn literal_view(&self) -> Seq<char> {
        self.token.literal@
    }

    open spec fn text_view(&self) -> Seq<char> {
        self.token.literal@
    }

    fn token_literal(&self) -> (r: String) {
        self.token.literal.clone()
    }

    fn to_string(&self) -> (r: String) {
        self.token.literal.clone()
    }
}

impl Node for Boolean {
    open spec fn literal_view(&self) -> Seq<char> {
        self.token.literal@
    }

    open spec fn text_view(&self) -> Seq<char> {
        self.token.literal@
    }

    fn token_literal(&self) -> (r: String) {
        self.token.literal.clone()
    }

    fn to_string(&self) -> (r: String) {
        self.token.literal.clone()
    }
}

impl Node for PrefixExpression {
    open spec fn literal_view(&self) -> Seq<char> {
        self.token.literal@
    }

    open spec fn text_view(&self) -> Seq<char> {
        expr_text(expr_view(Expression::Prefix(*self)))
    }

    fn token_literal(&self) -> (r: String) {
        self.token.literal.clone()
    }

    fn to_string(&self) -> (r: String) {
        prefix_string(self)
    }
}

impl Node for InfixExpression {
    open spec fn literal_view(&self) -> Seq<char> {
        self.token.literal@
    }

    open spec fn text_view(&self) -> Seq<char> {
        expr_text(expr_view(Expression::Infix(*self)))
    }

    fn token_literal(&self) -> (r: String) {
        self.token.literal.clone()
    }

    fn to_string(&self) -> (r: String) {
        infix_string(self)
    }
}

impl Node for IfExpression {
    open spec fn literal_view(&self) -> Seq<char> {
        self.token.literal@
    }

    open spec fn text_view(&self) -> Seq<char> {
        expr_text(expr_view(Expression::If(*self)))
    }

    fn token_literal(&self) -> (r: String) {
        self.token.literal.clone()
    }

    fn to_string(&self) -> (r: String) {
        if_string(self)
    }
}

impl Node for FunctionLiteral {
    open spec fn literal_view(&self) -> Seq<char> {
        self.token.literal@
    }

    open spec fn text_view(&self) -> Seq<char> {
        expr_text(expr_view(Expression::Function(*self)))
    }

    fn token_literal(&self) -> (r: String) {
        self.token.literal.clone()
    }

    fn to_string(&self) -> (r: String) {
        function_string(self)
    }
}

impl Node for CallExpression {
    open spec fn literal_view(&self) -> Seq<char> {
        self.token.literal@
    }

    open spec fn text_view(&self) -> Seq<char> {
        expr_text(expr_view(Expression::Call(*self)))
    }

    fn token_literal(&self) -> (r: String) {
        self.token.literal.clone()
    }

    fn to_string(&self) -> (r: String) {
        call_string(self)
    }
}

} // verus!
