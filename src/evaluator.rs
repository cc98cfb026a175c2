//! The evaluator, stated as functions over tree and binding values.
use vstd::prelude::*;

use crate::ast::{
    block_view, expr_view, stmt_view, stmts_view, BlockStatement, Block, Expr, Expression,
    IfExpression, NodeType, Program, Statement, Stmt, Tree,
};
use crate::object::{
    kind_name, Boolean, Environment, Error, Integer, Null, Object, ReturnValue, Value,
};
use crate::text::{push_seq, string_of};
use crate::token::Tok;

verus! {

/// Name-to-value bindings.
pub type Env = Map<Seq<char>, Value>;

pub open spec fn not_found_msg(name: Seq<char>) -> Seq<char> {
    seq!['i', 'd', 'e', 'n', 't', 'i', 'f', 'i', 'e', 'r', ' ', 'n', 'o', 't', ' ', 'f', 'o', 'u', 'n', 'd', ':', ' '] + name
}

pub open spec fn unknown_prefix_msg(op: Seq<char>, v: Value) -> Seq<char> {
    seq!['u', 'n', 'k', 'n', 'o', 'w', 'n', ' ', 'o', 'p', 'e', 'r', 'a', 't', 'o', 'r', ':', ' '] + op + kind_name(v)
}

pub open spec fn mismatch_msg(op: Seq<char>, l: Value, r: Value) -> Seq<char> {
    seq!['t', 'y', 'p', 'e', ' ', 'm', 'i', 's', 'm', 'a', 't', 'c', 'h', ':', ' '] + kind_name(l) + seq![' '] + op + seq![' '] + kind_name(r)
}

pub open spec fn unknown_infix_msg(op: Seq<char>, l: Value, r: Value) -> Seq<char> {
    seq!['u', 'n', 'k', 'n', 'o', 'w', 'n', ' ', 'o', 'p', 'e', 'r', 'a', 't', 'o', 'r', ':', ' '] + kind_name(l) + seq![' '] + op + seq![' '] + kind_name(r)
}

/// The message of an arithmetic result outside the 64-bit range.
pub open spec fn overflow_msg() -> Seq<char> {
    seq!['i', 'n', 't', 'e', 'g', 'e', 'r', ' ', 'o', 'v', 'e', 'r', 'f', 'l', 'o', 'w']
}

/// The message of a division by zero.
pub open spec fn division_by_zero_msg() -> Seq<char> {
    seq!['d', 'i', 'v', 'i', 's', 'i', 'o', 'n', ' ', 'b', 'y', ' ', 'z', 'e', 'r', 'o']
}

/// Truthiness: `null` and `false` are false, every other value is true.
pub open spec fn truthy(v: Value) -> bool {
    match v {
        Value::Null => false,
        Value::Boolean(b) => b,
        _ => true,
    }
}

/// An integer result, or an overflow error when it does not fit in 64 bits.
pub open spec fn int_result(n: int) -> Value {
    if i64::MIN <= n <= i64::MAX {
        Value::Integer(n as i64)
    } else {
        Value::Error(overflow_msg())
    }
}

/// Integer division rounding toward zero.
pub open spec fn trunc_div(a: int, b: int) -> int {
    let q = (if a < 0 { -a } else { a }) / (if b < 0 { -b } else { b });
    if (a < 0) == (b < 0) {
        q
    } else {
        -q
    }
}

pub open spec fn eval_bang(v: Value) -> Value {
    match v {
        Value::Boolean(b) => Value::Boolean(!b),
        Value::Null => Value::Boolean(true),
        _ => Value::Boolean(false),
    }
}

pub open spec fn eval_minus(v: Value) -> Value {
    match v {
        Value::Integer(n) => int_result(-(n as int)),
        _ => Value::Error(unknown_prefix_msg(seq!['-'], v)),
    }
}

pub open spec fn eval_prefix(op: Seq<char>, v: Value) -> Value {
    if op == seq!['!'] {
        eval_bang(v)
    } else if op == seq!['-'] {
        eval_minus(v)
    } else {
        Value::Error(unknown_prefix_msg(op, v))
    }
}

pub open spec fn eval_integer_infix(op: Seq<char>, l: i64, r: i64) -> Value {
    if op == seq!['+'] {
        int_result(l + r)
    } else if op == seq!['-'] {
        int_result(l - r)
    } else if op == seq!['*'] {
        int_result(l * r)
    } else if op == seq!['/'] {
        if r == 0 {
            Value::Error(division_by_zero_msg())
        } else {
            int_result(trunc_div(l as int, r as int))
        }
    } else if op == seq!['<'] {
        Value::Boolean(l < r)
    } else if op == seq!['>'] {
        Value::Boolean(l > r)
    } else if op == seq!['=', '='] {
        Value::Boolean(l == r)
    } else if op == seq!['!', '='] {
        Value::Boolean(l != r)
    } else {
        Value::Error(unknown_infix_msg(op, Value::Integer(l), Value::Integer(r)))
    }
}

pub open spec fn eval_boolean_infix(op: Seq<char>, l: bool, r: bool) -> Value {
    if op == seq!['=', '='] {
        Value::Boolean(l == r)
    } else if op == seq!['!', '='] {
        Value::Boolean(l != r)
    } else {
        Value::Error(unknown_infix_msg(op, Value::Boolean(l), Value::Boolean(r)))
    }
}

pub open spec fn eval_infix(op: Seq<char>, l: Value, r: Value) -> Value {
    match (l, r) {
        (Value::Integer(a), Value::Integer(b)) => eval_integer_infix(op, a, b),
        (Value::Boolean(a), Value::Boolean(b)) => eval_boolean_infix(op, a, b),
        _ => if kind_name(l) != kind_name(r) {
            Value::Error(mismatch_msg(op, l, r))
        } else {
            Value::Error(unknown_infix_msg(op, l, r))
        },
    }
}

/// The value of an expression and the bindings afterwards.
pub open spec fn eval_expr(e: Expr, env: Env) -> (Value, Env)
    decreases e,
{
    match e {
        Expr::Identifier(i) => if env.contains_key(i.value) {
            (env[i.value], env)
        } else {
            (Value::Error(not_found_msg(i.value)), env)
        },
        Expr::IntegerLiteral { value, .. } => (Value::Integer(value), env),
        Expr::Boolean { value, .. } => (Value::Boolean(value), env),
        Expr::Prefix { operator, right, .. } => {
            let (v, env1) = eval_expr(*right, env);
            if v is Error {
                (v, env1)
            } else {
                (eval_prefix(operator, v), env1)
            }
        },
        Expr::Infix { left, operator, right, .. } => {
            let (l, env1) = eval_expr(*left, env);
            if l is Error {
                (l, env1)
            } else {
                let (r, env2) = eval_expr(*right, env1);
                if r is Error {
                    (r, env2)
                } else {
                    (eval_infix(operator, l, r), env2)
                }
            }
        },
        Expr::If { condition, consequence, alternative, .. } => {
            let (c, env1) = eval_expr(*condition, env);
            if c is Error {
                (c, env1)
            } else if truthy(c) {
                eval_block(consequence.statements, env1)
            } else {
                match alternative {
                    Some(b) => eval_block(b.statements, env1),
                    None => (Value::Null, env1),
                }
            }
        },
        Expr::Function { .. } => (Value::Null, env),
        Expr::Call { .. } => (Value::Null, env),
    }
}

/// The value of a statement and the bindings afterwards.
pub open spec fn eval_stmt(s: Stmt, env: Env) -> (Value, Env)
    decreases s,
{
    match s {
        Stmt::Let { name, value, .. } => {
            let (v, env1) = eval_expr(value, env);
            if v is Error {
                (v, env1)
            } else {
                (Value::Null, env1.insert(name.value, v))
            }
        },
        Stmt::Return { value, .. } => {
            let (v, env1) = eval_expr(value, env);
            if v is Error {
                (v, env1)
            } else {
                (Value::ReturnValue(Box::new(v)), env1)
            }
        },
        Stmt::Expression { expression, .. } => eval_expr(expression, env),
        Stmt::Block(b) => eval_block(b.statements, env),
    }
}

/// The statements of a block, in order: a return value or an error stops
/// the rest and is the result as it is; otherwise the last value is.
pub open spec fn eval_block(ss: Seq<Stmt>, env: Env) -> (Value, Env)
    decreases ss,
{
    if ss.len() == 0 {
        (Value::Null, env)
    } else {
        let (v, env1) = eval_stmt(ss[0], env);
        if ss.len() == 1 || v is ReturnValue || v is Error {
            (v, env1)
        } else {
            eval_block(ss.drop_first(), env1)
        }
    }
}

/// The top-level statements, in order: a return ends the program with the
/// value it carries, an error ends it with the error; otherwise the last
/// value is the result.
pub open spec fn eval_statements(ss: Seq<Stmt>, env: Env) -> (Value, Env)
    decreases ss.len(),
{
    if ss.len() == 0 {
        (Value::Null, env)
    } else {
        let (v, env1) = eval_stmt(ss[0], env);
        match v {
            Value::ReturnValue(inner) => (*inner, env1),
            Value::Error(_) => (v, env1),
            _ => if ss.len() == 1 {
                (v, env1)
            } else {
                eval_statements(ss.drop_first(), env1)
            },
        }
    }
}

proof fn lemma_stmts_view_index(ss: Seq<Statement>)
    ensures
        stmts_view(ss).len() == ss.len(),
        forall|i: int| 0 <= i < ss.len() ==> #[trigger] stmts_view(ss)[i] == stmt_view(ss[i]),
    decreases ss.len(),
{
    if ss.len() > 0 {
        lemma_stmts_view_index(ss.drop_last());
        assert forall|i: int| 0 <= i < ss.len() implies #[trigger] stmts_view(ss)[i] == stmt_view(
            ss[i],
        ) by {
            if i < ss.len() - 1 {
                assert(ss.drop_last()[i] == ss[i]);
            }
        }
    }
}

fn native_bool_to_boolean_object(input: bool) -> (r: Object)
    ensures
        r@ == Value::Boolean(input),
{
    Object::Boolean(Boolean::new(input))
}

/// The null value.
pub fn get_null_object() -> (r: Object)
    ensures
        r@ == Value::Null,
{
    Object::Null(Null {})
}

fn new_error(message: String) -> (r: Object)
    ensures
        r@ == Value::Error(message@),
{
    Object::Error(Error { message })
}

fn is_error(obj: &Object) -> (r: bool)
    ensures
        r == obj@ is Error,
{
    match obj {
        Object::Error(_) => true,
        _ => false,
    }
}

fn is_return(obj: &Object) -> (r: bool)
    ensures
        r == obj@ is ReturnValue,
{
    match obj {
        Object::ReturnValue(_) => true,
        _ => false,
    }
}

fn is_truthy(obj: &Object) -> (r: bool)
    ensures
        r == truthy(obj@),
{
    match obj {
        Object::Null(_) => false,
        Object::Boolean(b) => b.value,
        _ => true,
    }
}

/// Whether `s` is the one-character text `c`.
fn is_one_char(s: &String, c: char) -> (r: bool)
    ensures
        r == (s@ == seq![c]),
{
    let t = s.as_str();
    if t.unicode_len() != 1 {
        return false;
    }
    let r = t.get_char(0) == c;
    if r {
        assert(s@ =~= seq![c]);
    }
    r
}

/// Whether `s` is the two-character text `c` `d`.
fn is_two_chars(s: &String, c: char, d: char) -> (r: bool)
    ensures
        r == (s@ == seq![c, d]),
{
    let t = s.as_str();
    if t.unicode_len() != 2 {
        return false;
    }
    let r = t.get_char(0) == c && t.get_char(1) == d;
    if r {
        assert(s@ =~= seq![c, d]);
    }
    r
}

fn int_object(n: i128) -> (r: Object)
    ensures
        r@ == int_result(n as int),
{
    if n < i64::MIN as i128 || n > i64::MAX as i128 {
        new_error(string_of(&['i', 'n', 't', 'e', 'g', 'e', 'r', ' ', 'o', 'v', 'e', 'r', 'f', 'l', 'o', 'w']))
    } else {
        Object::Integer(Integer::new(n as i64))
    }
}

fn unknown_prefix_error(operator: &String, right: &Object) -> (r: Object)
    ensures
        r@ == Value::Error(unknown_prefix_msg(operator@, right@)),
{
    let mut msg = string_of(&['u', 'n', 'k', 'n', 'o', 'w', 'n', ' ', 'o', 'p', 'e', 'r', 'a', 't', 'o', 'r', ':', ' ']);
    push_seq(&mut msg, operator);
    let t = right.type_obj();
    push_seq(&mut msg, &t);
    assert(msg@ =~= unknown_prefix_msg(operator@, right@));
    new_error(msg)
}

fn infix_error(mismatch: bool, operator: &String, left: &Object, right: &Object) -> (r: Object)
    ensures
        mismatch ==> r@ == Value::Error(mismatch_msg(operator@, left@, right@)),
        !mismatch ==> r@ == Value::Error(unknown_infix_msg(operator@, left@, right@)),
{
    let mut msg = if mismatch {
        string_of(&['t', 'y', 'p', 'e', ' ', 'm', 'i', 's', 'm', 'a', 't', 'c', 'h', ':', ' '])
    } else {
        string_of(&['u', 'n', 'k', 'n', 'o', 'w', 'n', ' ', 'o', 'p', 'e', 'r', 'a', 't', 'o', 'r', ':', ' '])
    };
    let l = left.type_obj();
    push_seq(&mut msg, &l);
    push_seq(&mut msg, &string_of(&[' ']));
    push_seq(&mut msg, operator);
    push_seq(&mut msg, &string_of(&[' ']));
    let r = right.type_obj();
    push_seq(&mut msg, &r);
    if mismatch {
        assert(msg@ =~= mismatch_msg(operator@, left@, right@));
    } else {
        assert(msg@ =~= unknown_infix_msg(operator@, left@, right@));
    }
    new_error(msg)
}

fn eval_bang_operator_expression(right: Object) -> (r: Object)
    ensures
        r@ == eval_bang(right@),
{
    match right {
        Object::Boolean(b) => native_bool_to_boolean_object(!b.value),
        Object::Null(_) => native_bool_to_boolean_object(true),
        _ => native_bool_to_boolean_object(false),
    }
}

fn eval_minus_prefix_operator_expression(right: Object) -> (r: Object)
    ensures
        r@ == eval_minus(right@),
{
    match right {
        Object::Integer(i) => int_object(-(i.value as i128)),
        _ => {
            let minus = string_of(&['-']);
            assert(minus@ =~= seq!['-']);
            unknown_prefix_error(&minus, &right)
        },
    }
}

fn eval_prefix_expression(operator: &String, right: Object) -> (r: Object)
    ensures
        r@ == eval_prefix(operator@, right@),
{
    if is_one_char(operator, '!') {
        eval_bang_operator_expression(right)
    } else if is_one_char(operator, '-') {
        eval_minus_prefix_operator_expression(right)
    } else {
        unknown_prefix_error(operator, &right)
    }
}

fn eval_integer_infix_expression(operator: &String, left: i64, right: i64) -> (r: Object)
    ensures
        r@ == eval_integer_infix(operator@, left, right),
{
    let l = left as i128;
    let r = right as i128;
    if is_one_char(operator, '+') {
        int_object(l + r)
    } else if is_one_char(operator, '-') {
        int_object(l - r)
    } else if is_one_char(operator, '*') {
        assert(-0x4000_0000_0000_0000_0000_0000_0000_0000 <= l * r
            <= 0x4000_0000_0000_0000_0000_0000_0000_0000) by (nonlinear_arith)
            requires
                -0x8000_0000_0000_0000 <= l <= 0x7fff_ffff_ffff_ffff,
                -0x8000_0000_0000_0000 <= r <= 0x7fff_ffff_ffff_ffff,
        ;
        int_object(l * r)
    } else if is_one_char(operator, '/') {
        if r == 0 {
            new_error(string_of(&['d', 'i', 'v', 'i', 's', 'i', 'o', 'n', ' ', 'b', 'y', ' ', 'z', 'e', 'r', 'o']))
        } else {
            let la: u128 = if l < 0 { (-l) as u128 } else { l as u128 };
            let ra: u128 = if r < 0 { (-r) as u128 } else { r as u128 };
            let q = (la / ra) as i128;
            if (l < 0) == (r < 0) {
                int_object(q)
            } else {
                int_object(-q)
            }
        }
    } else if is_one_char(operator, '<') {
        native_bool_to_boolean_object(left < right)
    } else if is_one_char(operator, '>') {
        native_bool_to_boolean_object(left > right)
    } else if is_two_chars(operator, '=', '=') {
        native_bool_to_boolean_object(left == right)
    } else if is_two_chars(operator, '!', '=') {
        native_bool_to_boolean_object(left != right)
    } else {
        infix_error(
            false,
            operator,
            &Object::Integer(Integer::new(left)),
            &Object::Integer(Integer::new(right)),
        )
    }
}

fn eval_boolean_infix_expression(operator: &String, left: bool, right: bool) -> (r: Object)
    ensures
        r@ == eval_boolean_infix(operator@, left, right),
{
    if is_two_chars(operator, '=', '=') {
        native_bool_to_boolean_object(left == right)
    } else if is_two_chars(operator, '!', '=') {
        native_bool_to_boolean_object(left != right)
    } else {
        infix_error(
            false,
            operator,
            &Object::Boolean(Boolean::new(left)),
            &Object::Boolean(Boolean::new(right)),
        )
    }
}

fn same_kind(a: &Object, b: &Object) -> (r: bool)
    ensures
        r == (kind_name(a@) == kind_name(b@)),
{
    proof {
        reveal_strlit("");
    }
    match (a, b) {
        (Object::Integer(_), Object::Integer(_)) => true,
        (Object::Boolean(_), Object::Boolean(_)) => true,
        (Object::Null(_), Object::Null(_)) => true,
        (Object::ReturnValue(_), Object::ReturnValue(_)) => true,
        (Object::Error(_), Object::Error(_)) => true,
        _ => {
            assert(kind_name(a@) != kind_name(b@)) by {
                let x = kind_name(a@);
                let y = kind_name(b@);
                assert(x.len() != y.len() || x[0] != y[0] || x[1] != y[1]);
            }
            false
        },
    }
}

fn eval_infix_expression(operator: &String, left: Object, right: Object) -> (r: Object)
    ensures
        r@ == eval_infix(operator@, left@, right@),
{
    match (&left, &right) {
        (Object::Integer(a), Object::Integer(b)) => eval_integer_infix_expression(
            operator,
            a.value,
            b.value,
        ),
        (Object::Boolean(a), Object::Boolean(b)) => eval_boolean_infix_expression(
            operator,
            a.value,
            b.value,
        ),
        _ => {
            let same = same_kind(&left, &right);
            infix_error(!same, operator, &left, &right)
        },
    }
}

fn eval_identifier(name: &String, env: &Environment) -> (r: Object)
    requires
        env.wf(),
    ensures
        env.bindings().contains_key(name@) ==> r@ == env.bindings()[name@],
        !env.bindings().contains_key(name@) ==> r@ == Value::Error(not_found_msg(name@)),
{
    match env.get(name.as_str()) {
        Some(val) => val.clone_object(),
        None => {
            let mut msg = string_of(&['i', 'd', 'e', 'n', 't', 'i', 'f', 'i', 'e', 'r', ' ', 'n', 'o', 't', ' ', 'f', 'o', 'u', 'n', 'd', ':', ' ']);
            push_seq(&mut msg, name);
            assert(msg@ =~= not_found_msg(name@));
            new_error(msg)
        },
    }
}

fn eval_if_expression(ie: &IfExpression, env: &mut Environment) -> (r: Object)
    requires
        old(env).wf(),
    ensures
        final(env).wf(),
        (r@, final(env).bindings()) == eval_expr(
            expr_view(Expression::If(*ie)),
            old(env).bindings(),
        ),
    decreases ie,
{
    let condition = eval_expression(&ie.condition, env);
    if is_error(&condition) {
        return condition;
    }
    if is_truthy(&condition) {
        eval_block_statement(&ie.consequence, env)
    } else {
        match &ie.alternative {
            Some(alt) => eval_block_statement(alt, env),
            None => get_null_object(),
        }
    }
}

/// Evaluates an expression against the bindings, which `let` statements
/// inside it may change.
pub fn eval_expression(e: &Expression, env: &mut Environment) -> (r: Object)
    requires
        old(env).wf(),
    ensures
        final(env).wf(),
        (r@, final(env).bindings()) == eval_expr(e@, old(env).bindings()),
    decreases e,
{
    match e {
        Expression::Identifier(i) => eval_identifier(&i.value, env),
        Expression::IntegerLiteral(l) => Object::Integer(Integer::new(l.value)),
        Expression::Boolean(b) => native_bool_to_boolean_object(b.value),
        Expression::Prefix(p) => {
            let right = eval_expression(&p.right, env);
            if is_error(&right) {
                return right;
            }
            eval_prefix_expression(&p.operator, right)
        },
        Expression::Infix(x) => {
            let left = eval_expression(&x.left, env);
            if is_error(&left) {
                return left;
            }
            let right = eval_expression(&x.right, env);
            if is_error(&right) {
                return right;
            }
            eval_infix_expression(&x.operator, left, right)
        },
        Expression::If(x) => eval_if_expression(x, env),
        Expression::Function(_) => get_null_object(),
        Expression::Call(_) => get_null_object(),
    }
}

/// Evaluates a statement against the bindings.
pub fn eval_statement(s: &Statement, env: &mut Environment) -> (r: Object)
    requires
        old(env).wf(),
    ensures
        final(env).wf(),
        (r@, final(env).bindings()) == eval_stmt(s@, old(env).bindings()),
    decreases s,
{
    match s {
        Statement::Let(l) => {
            let val = eval_expression(&l.value, env);
            if is_error(&val) {
                return val;
            }
            env.set(l.name.value.as_str(), val);
            get_null_object()
        },
        Statement::Return(r) => {
            let val = eval_expression(&r.return_value, env);
            if is_error(&val) {
                return val;
            }
            Object::ReturnValue(ReturnValue::new(val))
        },
        Statement::Expression(x) => eval_expression(&x.expression, env),
        Statement::Block(b) => eval_block_statement(b, env),
    }
}

/// Evaluates the statements of a block: a return value or an error stops
/// the block and is passed on as it is.
pub fn eval_block_statement(block: &BlockStatement, env: &mut Environment) -> (r: Object)
    requires
        old(env).wf(),
    ensures
        final(env).wf(),
        (r@, final(env).bindings()) == eval_block(block@.statements, old(env).bindings()),
    decreases block,
{
    let r = eval_block_statements(&block.statements, env);
    assert(block_view(*block).statements == stmts_view(block.statements@));
    r
}

fn eval_block_statements(ss: &Vec<Statement>, env: &mut Environment) -> (r: Object)
    requires
        old(env).wf(),
    ensures
        final(env).wf(),
        (r@, final(env).bindings()) == eval_block(stmts_view(ss@), old(env).bindings()),
    decreases ss,
{
    let ghost all = stmts_view(ss@);
    proof {
        lemma_stmts_view_index(ss@);
    }
    let n = ss.len();
    if n == 0 {
        return get_null_object();
    }
    assert(all.skip(0) =~= all);
    let mut i: usize = 0;
    while i < n
        invariant
            all == stmts_view(ss@),
            n == ss@.len() == all.len(),
            i < n,
            env.wf(),
            forall|j: int| 0 <= j < n ==> #[trigger] all[j] == stmt_view(ss@[j]),
            eval_block(all.skip(i as int), env.bindings()) == eval_block(
                all,
                old(env).bindings(),
            ),
        decreases n - i,
    {
        let ghost rest = all.skip(i as int);
        let ghost before = env.bindings();
        let r = eval_statement(&ss[i], env);
        assert(rest[0] == all[i as int]);
        assert(rest.len() == n - i);
        if i + 1 == n || is_return(&r) || is_error(&r) {
            assert(eval_block(rest, before) == (r@, env.bindings()));
            return r;
        }
        assert(rest.drop_first() =~= all.skip(i + 1));
        i = i + 1;
    }
    assert(false);
    get_null_object()
}

/// Evaluates a program: the statements in order, until a `return` (whose
/// value becomes the result) or an error (which becomes the result).
pub fn eval_program(program: &Program, env: &mut Environment) -> (r: Object)
    requires
        old(env).wf(),
    ensures
        final(env).wf(),
        (r@, final(env).bindings()) == eval_statements(program@, old(env).bindings()),
{
    let ss = &program.statements;
    let ghost all = program@;
    proof {
        lemma_stmts_view_index(ss@);
    }
    let n = ss.len();
    if n == 0 {
        return get_null_object();
    }
    assert(all.skip(0) =~= all);
    let mut i: usize = 0;
    while i < n
        invariant
            ss == &program.statements,
            all == program@,
            n == ss@.len() == all.len(),
            i < n,
            env.wf(),
            forall|j: int| 0 <= j < n ==> #[trigger] all[j] == stmt_view(ss@[j]),
            eval_statements(all.skip(i as int), env.bindings()) == eval_statements(
                all,
                old(env).bindings(),
            ),
        decreases n - i,
    {
        let ghost rest = all.skip(i as int);
        let r = eval_statement(&ss[i], env);
        assert(rest[0] == all[i as int]);
        match r {
            Object::ReturnValue(rv) => {
                return rv.take_value();
            },
            Object::Error(_) => {
                return r;
            },
            _ => {
                if i + 1 == n {
                    return r;
                }
            },
        }
        assert(rest.drop_first() =~= all.skip(i + 1));
        i = i + 1;
    }
    assert(false);
    get_null_object()
}

/// Evaluates a node of the tree against the bindings.
pub fn eval(node: &NodeType, env: &mut Environment) -> (r: Object)
    requires
        old(env).wf(),
    ensures
        final(env).wf(),
        node@ matches Tree::Stmt(s) ==> (r@, final(env).bindings()) == eval_stmt(
            s,
            old(env).bindings(),
        ),
        node@ matches Tree::Expr(e) ==> (r@, final(env).bindings()) == eval_expr(
            e,
            old(env).bindings(),
        ),
{
    match node {
        NodeType::Statement(s) => eval_statement(s, env),
        NodeType::Expression(e) => eval_expression(e, env),
    }
}

/// The bindings after the first `k` statements of `ss`.
pub open spec fn env_after(ss: Seq<Stmt>, env: Env, k: nat) -> Env
    decreases k,
{
    if k == 0 {
        env
    } else {
        eval_stmt(ss[k - 1], env_after(ss, env, (k - 1) as nat)).1
    }
}

/// The statements before `k` complete normally: none of them returns or
/// fails.
pub open spec fn completes_normally(ss: Seq<Stmt>, env: Env, k: nat) -> bool {
    forall|j: nat|
        j < k ==> {
            let v = #[trigger] eval_stmt(ss[j as int], env_after(ss, env, j)).0;
            !(v is ReturnValue) && !(v is Error)
        }
}

proof fn lemma_env_after_shift(ss: Seq<Stmt>, env: Env, k: nat)
    requires
        0 < ss.len(),
        k < ss.len(),
    ensures
        env_after(ss.drop_first(), eval_stmt(ss[0], env).1, k) == env_after(ss, env, k + 1),
    decreases k,
{
    let env1 = eval_stmt(ss[0], env).1;
    if k > 0 {
        lemma_env_after_shift(ss, env, (k - 1) as nat);
        assert(ss.drop_first()[k - 1] == ss[k as int]);
        assert(env_after(ss.drop_first(), env1, k) == eval_stmt(
            ss[k as int],
            env_after(ss, env, k),
        ).1);
    } else {
        assert(env_after(ss, env, 0) == env);
        assert(env_after(ss, env, 1) == env1);
    }
}

/// An error raised by a top-level statement, after statements that
/// completed normally, is the program's result, unchanged.
pub proof fn lemma_program_error_propagates(ss: Seq<Stmt>, env: Env, k: nat)
    requires
        k < ss.len(),
        completes_normally(ss, env, k),
        eval_stmt(ss[k as int], env_after(ss, env, k)).0 is Error,
    ensures
        eval_statements(ss, env).0 == eval_stmt(ss[k as int], env_after(ss, env, k)).0,
    decreases k,
{
    if k > 0 {
        let v0 = eval_stmt(ss[0], env_after(ss, env, 0)).0;
        assert(!(v0 is ReturnValue) && !(v0 is Error));
        let rest = ss.drop_first();
        let env1 = eval_stmt(ss[0], env).1;
        assert forall|j: nat| j < (k - 1) as nat implies {
            let v = #[trigger] eval_stmt(rest[j as int], env_after(rest, env1, j)).0;
            !(v is ReturnValue) && !(v is Error)
        } by {
            lemma_env_after_shift(ss, env, j);
            assert(rest[j as int] == ss[j + 1int]);
            let v = eval_stmt(ss[(j + 1) as int], env_after(ss, env, j + 1)).0;
            assert(!(v is ReturnValue) && !(v is Error));
        }
        lemma_env_after_shift(ss, env, (k - 1) as nat);
        assert(rest[k - 1] == ss[k as int]);
        lemma_program_error_propagates(rest, env1, (k - 1) as nat);
    }
}

/// Inside a block too, an error raised by a statement after statements that
/// completed normally is the block's result, unchanged.
pub proof fn lemma_block_error_propagates(ss: Seq<Stmt>, env: Env, k: nat)
    requires
        k < ss.len(),
        completes_normally(ss, env, k),
        eval_stmt(ss[k as int], env_after(ss, env, k)).0 is Error,
    ensures
        eval_block(ss, env).0 == eval_stmt(ss[k as int], env_after(ss, env, k)).0,
    decreases k,
{
    if k > 0 {
        let v0 = eval_stmt(ss[0], env_after(ss, env, 0)).0;
        assert(!(v0 is ReturnValue) && !(v0 is Error));
        let rest = ss.drop_first();
        let env1 = eval_stmt(ss[0], env).1;
        assert forall|j: nat| j < (k - 1) as nat implies {
            let v = #[trigger] eval_stmt(rest[j as int], env_after(rest, env1, j)).0;
            !(v is ReturnValue) && !(v is Error)
        } by {
            lemma_env_after_shift(ss, env, j);
            assert(rest[j as int] == ss[j + 1int]);
            let v = eval_stmt(ss[(j + 1) as int], env_after(ss, env, j + 1)).0;
            assert(!(v is ReturnValue) && !(v is Error));
        }
        lemma_env_after_shift(ss, env, (k - 1) as nat);
        assert(rest[k - 1] == ss[k as int]);
        lemma_block_error_propagates(rest, env1, (k - 1) as nat);
    }
}

/// An error from the branch that a conditional takes is the conditional's
/// result, unchanged.
pub proof fn lemma_if_error_propagates(
    token: Tok,
    condition: Expr,
    consequence: Block,
    alternative: Option<Block>,
    env: Env,
)
    requires
        ({
            let (c, env1) = eval_expr(condition, env);
            &&& !(c is Error)
            &&& truthy(c) ==> eval_block(consequence.statements, env1).0 is Error
            &&& !truthy(c) && alternative is Some ==> eval_block(
                alternative->0.statements,
                env1,
            ).0 is Error
        }),
    ensures
        ({
            let (c, env1) = eval_expr(condition, env);
            let r = eval_expr(
                Expr::If { token, condition: Box::new(condition), consequence, alternative },
                env,
            ).0;
            &&& truthy(c) ==> r == eval_block(consequence.statements, env1).0
            &&& !truthy(c) && alternative is Some ==> r == eval_block(
                alternative->0.statements,
                env1,
            ).0
        }),
{
}

/// An error in the value of `return` is the statement's result as it is: it
/// is not wrapped as a return value.
pub proof fn lemma_return_error_propagates(token: Tok, value: Expr, env: Env)
    requires
        eval_expr(value, env).0 is Error,
    ensures
        eval_stmt(Stmt::Return { token, value }, env) == eval_expr(value, env),
{
}

/// The statements of the branch that a conditional takes for the value of
/// its condition, if it takes one.
pub open spec fn taken_branch(c: Value, consequence: Block, alternative: Option<Block>) -> Option<
    Seq<Stmt>,
> {
    if truthy(c) {
        Some(consequence.statements)
    } else {
        match alternative {
            Some(b) => Some(b.statements),
            None => None,
        }
    }
}

/// An error raised by a statement of the branch that a conditional takes,
/// after statements of that branch that completed normally, is the result,
/// unchanged, of the statement holding the conditional. Such a statement may
/// itself hold a conditional, and the statement holding the outer one may be
/// a top-level statement (`lemma_program_error_propagates`), so an error
/// travels out of any depth of nesting.
pub proof fn lemma_branch_error_propagates(
    stmt_token: Tok,
    token: Tok,
    condition: Expr,
    consequence: Block,
    alternative: Option<Block>,
    env: Env,
    m: nat,
)
    requires
        ({
            let (c, env1) = eval_expr(condition, env);
            &&& !(c is Error)
            &&& taken_branch(c, consequence, alternative) matches Some(ss) && m < ss.len()
                && completes_normally(ss, env1, m) && eval_stmt(
                ss[m as int],
                env_after(ss, env1, m),
            ).0 is Error
        }),
    ensures
        ({
            let (c, env1) = eval_expr(condition, env);
            let ss = taken_branch(c, consequence, alternative)->0;
            eval_stmt(
                Stmt::Expression {
                    token: stmt_token,
                    expression: Expr::If {
                        token,
                        condition: Box::new(condition),
                        consequence,
                        alternative,
                    },
                },
                env,
            ).0 == eval_stmt(ss[m as int], env_after(ss, env1, m)).0
        }),
{
    let (c, env1) = eval_expr(condition, env);
    let ss = taken_branch(c, consequence, alternative)->0;
    lemma_block_error_propagates(ss, env1, m);
}

} // verus!
