//! The Pratt parser, stated as functions over a token sequence.
use vstd::prelude::*;

use crate::ast::{
    clone_token, exprs_view, idents_view, lemma_exprs_view_push, lemma_stmts_view_push, stmts_view,
    Block, BlockStatement, Boolean, CallExpression, Expr, Expression, ExpressionStatement,
    FunctionLiteral, Ident, Identifier, IfExpression, InfixExpression, IntegerLiteral, LetStatement,
    PrefixExpression, Program, ReturnStatement, Statement, Stmt,
};
use crate::lexer::{lemma_next_token_progress, lex_tokens, Lexer};
use crate::text::{push_seq, string_of};
use crate::token::{Tok, Token, TokenType};

verus! {

/// Binding strength of operators, from loosest to tightest.
#[derive(Clone, Copy, PartialEq, Eq, Debug)]
pub enum Precedence {
    LOWEST,
    EQUALS,
    LESSGREATER,
    SUM,
    PRODUCT,
    PREFIX,
    CALL,
}

impl Precedence {
    pub open spec fn rank(self) -> nat {
        match self {
            Precedence::LOWEST => 0,
            Precedence::EQUALS => 1,
            Precedence::LESSGREATER => 2,
            Precedence::SUM => 3,
            Precedence::PRODUCT => 4,
            Precedence::PREFIX => 5,
            Precedence::CALL => 6,
        }
    }
}

/// How tightly a token binds as an infix operator; 0 for other tokens.
pub open spec fn prec_of(t: TokenType) -> nat {
    match t {
        TokenType::EQ | TokenType::NOTEQ => 1,
        TokenType::LT | TokenType::GT => 2,
        TokenType::PLUS | TokenType::MINUS => 3,
        TokenType::SLASH | TokenType::ASTERISK => 4,
        TokenType::LPAREN => 6,
        _ => 0,
    }
}

/// The rank of prefix operators.
pub open spec fn prefix_rank() -> nat {
    5
}

/// The name of a token category, as diagnostics show it.
pub open spec fn kind_label(t: TokenType) -> Seq<char> {
    match t {
        TokenType::LET => seq!['L', 'E', 'T'],
        TokenType::FN => seq!['F', 'N'],
        TokenType::ILLEGAL => seq!['I', 'L', 'L', 'E', 'G', 'A', 'L'],
        TokenType::EOF => seq!['E', 'O', 'F'],
        TokenType::IDENT => seq!['I', 'D', 'E', 'N', 'T'],
        TokenType::INT => seq!['I', 'N', 'T'],
        TokenType::STRING => seq!['S', 'T', 'R', 'I', 'N', 'G'],
        TokenType::ASSIGN => seq!['A', 'S', 'S', 'I', 'G', 'N'],
        TokenType::PLUS => seq!['P', 'L', 'U', 'S'],
        TokenType::MINUS => seq!['M', 'I', 'N', 'U', 'S'],
        TokenType::ASTERISK => seq!['A', 'S', 'T', 'E', 'R', 'I', 'S', 'K'],
        TokenType::SLASH => seq!['S', 'L', 'A', 'S', 'H'],
        TokenType::COMMA => seq!['C', 'O', 'M', 'M', 'A'],
        TokenType::COLON => seq!['C', 'O', 'L', 'O', 'N'],
        TokenType::SEMICOLON => seq!['S', 'E', 'M', 'I', 'C', 'O', 'L', 'O', 'N'],
        TokenType::LPAREN => seq!['L', 'P', 'A', 'R', 'E', 'N'],
        TokenType::RPAREN => seq!['R', 'P', 'A', 'R', 'E', 'N'],
        TokenType::LBRACE => seq!['L', 'B', 'R', 'A', 'C', 'E'],
        TokenType::RBRACE => seq!['R', 'B', 'R', 'A', 'C', 'E'],
        TokenType::LBRACKET => seq!['L', 'B', 'R', 'A', 'C', 'K', 'E', 'T'],
        TokenType::RBRACKET => seq!['R', 'B', 'R', 'A', 'C', 'K', 'E', 'T'],
        TokenType::LT => seq!['L', 'T'],
        TokenType::GT => seq!['G', 'T'],
        TokenType::EQ => seq!['E', 'Q'],
        TokenType::NOTEQ => seq!['N', 'O', 'T', 'E', 'Q'],
        TokenType::IF => seq!['I', 'F'],
        TokenType::ELSE => seq!['E', 'L', 'S', 'E'],
        TokenType::RETURN => seq!['R', 'E', 'T', 'U', 'R', 'N'],
        TokenType::TRUE => seq!['T', 'R', 'U', 'E'],
        TokenType::FALSE => seq!['F', 'A', 'L', 'S', 'E'],
        TokenType::BANG => seq!['B', 'A', 'N', 'G'],
    }
}

pub open spec fn peek_error_msg(expected: TokenType, got: TokenType) -> Seq<char> {
    seq!['e', 'x', 'p', 'e', 'c', 't', 'e', 'd', ' ', 'n', 'e', 'x', 't', ' ', 't', 'o', 'k', 'e', 'n', ' ', 't', 'o', ' ', 'b', 'e', ' '] + kind_label(expected) + seq![',', ' ', 'g', 'o', 't', ' '] + kind_label(got)
        + seq![' ', 'i', 'n', 's', 't', 'e', 'a', 'd']
}

pub open spec fn no_prefix_msg(t: TokenType) -> Seq<char> {
    seq!['n', 'o', ' ', 'p', 'r', 'e', 'f', 'i', 'x', ' ', 'p', 'a', 'r', 's', 'e', ' ', 'f', 'u', 'n', 'c', 't', 'i', 'o', 'n', ' ', 'f', 'o', 'r', ' '] + kind_label(t) + seq![' ', 'f', 'o', 'u', 'n', 'd']
}

pub open spec fn bad_integer_msg(lit: Seq<char>) -> Seq<char> {
    seq!['c', 'o', 'u', 'l', 'd', ' ', 'n', 'o', 't', ' ', 'p', 'a', 'r', 's', 'e', ' '] + lit + seq![' ', 'a', 's', ' ', 'i', 'n', 't', 'e', 'g', 'e', 'r']
}

/// The value of the decimal digits `s[i..]` read after `acc`, or `None`
/// when a character is not a digit or the value passes `i64::MAX`.
pub open spec fn decimal_from(s: Seq<char>, i: int, acc: int) -> Option<int>
    decreases s.len() - i,
{
    if i < 0 || i >= s.len() {
        Some(acc)
    } else if !('0' <= s[i] && s[i] <= '9') {
        None
    } else {
        let a = acc * 10 + (s[i] as int - '0' as int);
        if a > i64::MAX {
            None
        } else {
            decimal_from(s, i + 1, a)
        }
    }
}

/// The value of an integer literal's text, when it is a run of digits whose
/// value fits in 64 signed bits.
pub open spec fn literal_value(s: Seq<char>) -> Option<int> {
    if s.len() == 0 {
        None
    } else {
        decimal_from(s, 0, 0)
    }
}

/// Where the parser stands in the token sequence, and the diagnostics
/// recorded so far.
pub struct PState {
    pub pos: nat,
    pub errors: Seq<Seq<char>>,
}

/// The token at index `k`; past the end, end-of-input.
pub open spec fn tok(ts: Seq<Tok>, k: int) -> Tok {
    if 0 <= k < ts.len() {
        ts[k]
    } else {
        (TokenType::EOF, Seq::empty())
    }
}

pub open spec fn kind(ts: Seq<Tok>, k: int) -> TokenType {
    tok(ts, k).0
}

/// How many tokens are left from index `k`.
pub open spec fn remaining(ts: Seq<Tok>, k: int) -> nat {
    if 0 <= k < ts.len() {
        (ts.len() - k) as nat
    } else {
        0
    }
}

/// One token further, staying put at the end.
pub open spec fn adv(ts: Seq<Tok>, st: PState) -> PState {
    if st.pos < ts.len() {
        PState { pos: st.pos + 1, ..st }
    } else {
        st
    }
}

pub open spec fn with_error(st: PState, msg: Seq<char>) -> PState {
    PState { errors: st.errors.push(msg), ..st }
}

pub open spec fn cur_kind(ts: Seq<Tok>, st: PState) -> TokenType {
    kind(ts, st.pos as int)
}

pub open spec fn peek_kind(ts: Seq<Tok>, st: PState) -> TokenType {
    kind(ts, st.pos + 1int)
}

/// Moves on when the next token is `t`; otherwise records a diagnostic.
pub open spec fn expect_peek(ts: Seq<Tok>, st: PState, t: TokenType) -> (bool, PState) {
    if peek_kind(ts, st) == t {
        (true, adv(ts, st))
    } else {
        (false, with_error(st, peek_error_msg(t, peek_kind(ts, st))))
    }
}

/// Steps over a `;` that follows.
pub open spec fn skip_semicolon(ts: Seq<Tok>, st: PState) -> PState {
    if peek_kind(ts, st) == TokenType::SEMICOLON {
        adv(ts, st)
    } else {
        st
    }
}

pub open spec fn has_prefix(t: TokenType) -> bool {
    t == TokenType::IDENT || t == TokenType::INT || t == TokenType::BANG || t == TokenType::MINUS
        || t == TokenType::TRUE || t == TokenType::FALSE || t == TokenType::LPAREN || t
        == TokenType::IF || t == TokenType::FN
}

pub open spec fn is_binary(t: TokenType) -> bool {
    t == TokenType::PLUS || t == TokenType::MINUS || t == TokenType::SLASH || t
        == TokenType::ASTERISK || t == TokenType::EQ || t == TokenType::NOTEQ || t == TokenType::LT
        || t == TokenType::GT
}

pub open spec fn has_infix(t: TokenType) -> bool {
    is_binary(t) || t == TokenType::LPAREN
}

pub open spec fn ident_at(ts: Seq<Tok>, k: int) -> Ident {
    Ident { token: tok(ts, k), value: tok(ts, k).1 }
}

/// An integer literal at the current token.
pub open spec fn p_integer(ts: Seq<Tok>, st: PState) -> (Option<Expr>, PState) {
    let t = tok(ts, st.pos as int);
    match literal_value(t.1) {
        Some(v) => (Some(Expr::IntegerLiteral { token: t, value: v as i64 }), st),
        None => (None, with_error(st, bad_integer_msg(t.1))),
    }
}

// The parse functions below take the token sequence and the parser state
// and give the result with the state after it. Each one only moves the
// position forward (the executable parser's contracts show it); the
// comparisons of positions after a nested parse make every recursion step
// visibly decrease the number of tokens left, and never decide a result.
/// A statement starting at the current token.
pub open spec fn p_statement(ts: Seq<Tok>, st: PState) -> (Option<Stmt>, PState)
    decreases remaining(ts, st.pos as int), 6nat,
{
    match cur_kind(ts, st) {
        TokenType::LET => p_let(ts, st),
        TokenType::RETURN => p_return(ts, st),
        _ => p_expression_statement(ts, st),
    }
}

/// `let <ident> = <expression>` with an optional `;`.
pub open spec fn p_let(ts: Seq<Tok>, st: PState) -> (Option<Stmt>, PState)
    decreases remaining(ts, st.pos as int), 5nat,
{
    let (ok1, s1) = expect_peek(ts, st, TokenType::IDENT);
    if !ok1 {
        (None, s1)
    } else {
        let name = ident_at(ts, s1.pos as int);
        let (ok2, s2) = expect_peek(ts, s1, TokenType::ASSIGN);
        if !ok2 {
            (None, s2)
        } else {
            let (v, s3) = p_expression(ts, adv(ts, s2), 0);
            match v {
                None => (None, s3),
                Some(value) => (
                    Some(Stmt::Let { token: tok(ts, st.pos as int), name, value }),
                    skip_semicolon(ts, s3),
                ),
            }
        }
    }
}

/// `return <expression>` with an optional `;`.
pub open spec fn p_return(ts: Seq<Tok>, st: PState) -> (Option<Stmt>, PState)
    decreases remaining(ts, st.pos as int), 5nat,
{
    if cur_kind(ts, st) != TokenType::RETURN {
        (None, st)
    } else {
        let (v, s1) = p_expression(ts, adv(ts, st), 0);
        match v {
            None => (None, s1),
            Some(value) => (
                Some(Stmt::Return { token: tok(ts, st.pos as int), value }),
                skip_semicolon(ts, s1),
            ),
        }
    }
}

/// An expression standing as a statement, with an optional `;`.
pub open spec fn p_expression_statement(ts: Seq<Tok>, st: PState) -> (Option<Stmt>, PState)
    decreases remaining(ts, st.pos as int), 5nat,
{
    let (e, s1) = p_expression(ts, st, 0);
    match e {
        None => (None, s1),
        Some(expression) => (
            Some(Stmt::Expression { token: tok(ts, st.pos as int), expression }),
            skip_semicolon(ts, s1),
        ),
    }
}

/// An expression whose operators bind more tightly than `prec`: a prefix
/// form, then infix operators as long as they bind more tightly.
pub open spec fn p_expression(ts: Seq<Tok>, st: PState, prec: nat) -> (Option<Expr>, PState)
    decreases remaining(ts, st.pos as int), 4nat,
{
    if !has_prefix(cur_kind(ts, st)) {
        (None, with_error(st, no_prefix_msg(cur_kind(ts, st))))
    } else {
        let (l, s1) = p_prefix(ts, st);
        match l {
            None => (None, s1),
            Some(left) => if s1.pos < st.pos {
                (None, s1)
            } else {
                p_infix_loop(ts, s1, prec, left)
            },
        }
    }
}

/// The prefix form at the current token.
pub open spec fn p_prefix(ts: Seq<Tok>, st: PState) -> (Option<Expr>, PState)
    decreases remaining(ts, st.pos as int), 3nat,
{
    match cur_kind(ts, st) {
        TokenType::IDENT => (Some(Expr::Identifier(ident_at(ts, st.pos as int))), st),
        TokenType::INT => p_integer(ts, st),
        TokenType::BANG | TokenType::MINUS => p_prefix_expression(ts, st),
        TokenType::TRUE | TokenType::FALSE => (
            Some(
                Expr::Boolean {
                    token: tok(ts, st.pos as int),
                    value: cur_kind(ts, st) == TokenType::TRUE,
                },
            ),
            st,
        ),
        TokenType::LPAREN => p_grouped(ts, st),
        TokenType::IF => p_if(ts, st),
        TokenType::FN => p_function(ts, st),
        _ => (None, st),
    }
}

/// A unary operator and its operand.
pub open spec fn p_prefix_expression(ts: Seq<Tok>, st: PState) -> (Option<Expr>, PState)
    decreases remaining(ts, st.pos as int), 2nat,
{
    if cur_kind(ts, st) == TokenType::EOF {
        (None, st)
    } else {
        let t = tok(ts, st.pos as int);
        let (r, s1) = p_expression(ts, adv(ts, st), prefix_rank());
        match r {
            None => (None, s1),
            Some(right) => (
                Some(Expr::Prefix { token: t, operator: t.1, right: Box::new(right) }),
                s1,
            ),
        }
    }
}

/// `( <expression> )`.
pub open spec fn p_grouped(ts: Seq<Tok>, st: PState) -> (Option<Expr>, PState)
    decreases remaining(ts, st.pos as int), 2nat,
{
    if cur_kind(ts, st) == TokenType::EOF {
        (None, st)
    } else {
        let (e, s1) = p_expression(ts, adv(ts, st), 0);
        let (ok, s2) = expect_peek(ts, s1, TokenType::RPAREN);
        if !ok {
            (None, s2)
        } else {
            (e, s2)
        }
    }
}

/// `if ( <condition> ) <block>` with an optional `else <block>`.
pub open spec fn p_if(ts: Seq<Tok>, st: PState) -> (Option<Expr>, PState)
    decreases remaining(ts, st.pos as int), 2nat,
{
    let (ok1, s1) = expect_peek(ts, st, TokenType::LPAREN);
    if !ok1 {
        (None, s1)
    } else {
        let (c, s2) = p_expression(ts, adv(ts, s1), 0);
        match c {
            None => (None, s2),
            Some(condition) => {
                let (ok3, s3) = expect_peek(ts, s2, TokenType::RPAREN);
                let (ok4, s4) = expect_peek(ts, s3, TokenType::LBRACE);
                if !ok3 {
                    (None, s3)
                } else if !ok4 {
                    (None, s4)
                } else if s4.pos <= st.pos {
                    (None, s4)
                } else {
                    let (b, s5) = p_block(ts, s4);
                    match b {
                        None => (None, s5),
                        Some(consequence) => if peek_kind(ts, s5) == TokenType::ELSE {
                            let (ok7, s7) = expect_peek(ts, adv(ts, s5), TokenType::LBRACE);
                            if !ok7 {
                                (None, s7)
                            } else if s7.pos <= st.pos {
                                (None, s7)
                            } else {
                                let (a, s8) = p_block(ts, s7);
                                match a {
                                    None => (None, s8),
                                    Some(alt) => (
                                        Some(
                                            Expr::If {
                                                token: tok(ts, st.pos as int),
                                                condition: Box::new(condition),
                                                consequence,
                                                alternative: Some(alt),
                                            },
                                        ),
                                        s8,
                                    ),
                                }
                            }
                        } else {
                            (
                                Some(
                                    Expr::If {
                                        token: tok(ts, st.pos as int),
                                        condition: Box::new(condition),
                                        consequence,
                                        alternative: None,
                                    },
                                ),
                                s5,
                            )
                        },
                    }
                }
            },
        }
    }
}

/// `{ <statements> }`, starting at the `{`. The block fails when one of
/// its statements does, or when the input ends before the `}`.
pub open spec fn p_block(ts: Seq<Tok>, st: PState) -> (Option<Block>, PState)
    decreases remaining(ts, st.pos as int), 8nat,
{
    if cur_kind(ts, st) == TokenType::EOF {
        (None, st)
    } else {
        p_block_loop(ts, adv(ts, st), tok(ts, st.pos as int), Seq::empty())
    }
}

/// The diagnostic for a block that the input ends before its `}`.
pub open spec fn unclosed_block_msg() -> Seq<char> {
    peek_error_msg(TokenType::RBRACE, TokenType::EOF)
}

/// The statements of a block from the current token on, after `acc`; the
/// input must close the block with `}`.
pub open spec fn p_block_loop(ts: Seq<Tok>, st: PState, open: Tok, acc: Seq<Stmt>) -> (
    Option<Block>,
    PState,
)
    decreases remaining(ts, st.pos as int), 7nat,
{
    if cur_kind(ts, st) == TokenType::RBRACE {
        (Some(Block { token: open, statements: acc }), st)
    } else if cur_kind(ts, st) == TokenType::EOF {
        (None, with_error(st, unclosed_block_msg()))
    } else {
        let (s, s1) = p_statement(ts, st);
        match s {
            None => (None, s1),
            Some(stmt) => if s1.pos < st.pos {
                (None, s1)
            } else if cur_kind(ts, s1) == TokenType::EOF {
                (None, with_error(adv(ts, s1), unclosed_block_msg()))
            } else {
                p_block_loop(ts, adv(ts, s1), open, acc.push(stmt))
            },
        }
    }
}

/// `fn ( <parameters> ) <block>`.
pub open spec fn p_function(ts: Seq<Tok>, st: PState) -> (Option<Expr>, PState)
    decreases remaining(ts, st.pos as int), 2nat,
{
    let (ok1, s1) = expect_peek(ts, st, TokenType::LPAREN);
    if !ok1 {
        (None, s1)
    } else {
        let (ps, s2) = p_params(ts, s1);
        match ps {
            None => (None, s2),
            Some(parameters) => {
                let (ok3, s3) = expect_peek(ts, s2, TokenType::LBRACE);
                if !ok3 {
                    (None, s3)
                } else if s3.pos <= st.pos {
                    (None, s3)
                } else {
                    let (b, s4) = p_block(ts, s3);
                    match b {
                        None => (None, s4),
                        Some(body) => (
                            Some(
                                Expr::Function {
                                    token: tok(ts, st.pos as int),
                                    parameters,
                                    body,
                                },
                            ),
                            s4,
                        ),
                    }
                }
            },
        }
    }
}

/// The parameter names after `(`, up to and including the `)`.
pub open spec fn p_params(ts: Seq<Tok>, st: PState) -> (Option<Seq<Ident>>, PState) {
    if peek_kind(ts, st) == TokenType::RPAREN {
        (Some(Seq::empty()), adv(ts, st))
    } else {
        let (ok, s1) = expect_peek(ts, st, TokenType::IDENT);
        if !ok {
            (None, s1)
        } else {
            p_params_loop(ts, s1, seq![ident_at(ts, s1.pos as int)])
        }
    }
}

/// Further `, <ident>` after `acc`, then the closing `)`.
pub open spec fn p_params_loop(ts: Seq<Tok>, st: PState, acc: Seq<Ident>) -> (
    Option<Seq<Ident>>,
    PState,
)
    decreases remaining(ts, st.pos as int),
{
    if peek_kind(ts, st) == TokenType::COMMA {
        let (ok, s2) = expect_peek(ts, adv(ts, st), TokenType::IDENT);
        if !ok {
            (None, s2)
        } else {
            p_params_loop(ts, s2, acc.push(ident_at(ts, s2.pos as int)))
        }
    } else {
        let (ok, s1) = expect_peek(ts, st, TokenType::RPAREN);
        if !ok {
            (None, s1)
        } else {
            (Some(acc), s1)
        }
    }
}

/// Infix operators after `left`, as long as they bind more tightly than
/// `prec`; a `;` ends the expression.
pub open spec fn p_infix_loop(ts: Seq<Tok>, st: PState, prec: nat, left: Expr) -> (
    Option<Expr>,
    PState,
)
    decreases remaining(ts, st.pos as int), 1nat,
{
    if peek_kind(ts, st) == TokenType::SEMICOLON || prec >= prec_of(peek_kind(ts, st)) {
        (Some(left), st)
    } else if !has_infix(peek_kind(ts, st)) {
        (Some(left), st)
    } else {
        let s1 = adv(ts, st);
        let (r, s2) = p_infix(ts, s1, left);
        match r {
            None => (None, s2),
            Some(l2) => if s2.pos < s1.pos {
                (None, s2)
            } else {
                p_infix_loop(ts, s2, prec, l2)
            },
        }
    }
}

/// The infix form whose operator is the current token, applied to `left`.
pub open spec fn p_infix(ts: Seq<Tok>, st: PState, left: Expr) -> (Option<Expr>, PState)
    decreases remaining(ts, st.pos as int), 3nat,
{
    if cur_kind(ts, st) == TokenType::LPAREN {
        p_call(ts, st, left)
    } else if cur_kind(ts, st) == TokenType::EOF {
        (None, st)
    } else {
        let t = tok(ts, st.pos as int);
        let (r, s1) = p_expression(ts, adv(ts, st), prec_of(t.0));
        match r {
            None => (None, s1),
            Some(right) => (
                Some(
                    Expr::Infix {
                        token: t,
                        left: Box::new(left),
                        operator: t.1,
                        right: Box::new(right),
                    },
                ),
                s1,
            ),
        }
    }
}

/// A call: the arguments after `(`, applied to `function`.
pub open spec fn p_call(ts: Seq<Tok>, st: PState, function: Expr) -> (Option<Expr>, PState)
    decreases remaining(ts, st.pos as int), 2nat,
{
    let (args, s1) = p_arguments(ts, st);
    match args {
        None => (None, s1),
        Some(arguments) => (
            Some(
                Expr::Call {
                    token: tok(ts, st.pos as int),
                    function: Box::new(function),
                    arguments,
                },
            ),
            s1,
        ),
    }
}

/// The arguments after `(`, up to and including the `)`.
pub open spec fn p_arguments(ts: Seq<Tok>, st: PState) -> (Option<Seq<Expr>>, PState)
    decreases remaining(ts, st.pos as int), 1nat,
{
    if peek_kind(ts, st) == TokenType::RPAREN {
        (Some(Seq::empty()), adv(ts, st))
    } else if cur_kind(ts, st) == TokenType::EOF {
        (None, st)
    } else {
        let s1 = adv(ts, st);
        let (a, s2) = p_expression(ts, s1, 0);
        match a {
            None => (None, s2),
            Some(arg) => if s2.pos < s1.pos {
                (None, s2)
            } else {
                p_arguments_loop(ts, s2, seq![arg])
            },
        }
    }
}

/// Further `, <expression>` after `acc`, then the closing `)`.
pub open spec fn p_arguments_loop(ts: Seq<Tok>, st: PState, acc: Seq<Expr>) -> (
    Option<Seq<Expr>>,
    PState,
)
    decreases remaining(ts, st.pos as int), 0nat,
{
    if peek_kind(ts, st) == TokenType::COMMA {
        let s2 = adv(ts, adv(ts, st));
        let (a, s3) = p_expression(ts, s2, 0);
        match a {
            None => (None, s3),
            Some(arg) => if s3.pos < s2.pos {
                (None, s3)
            } else {
                p_arguments_loop(ts, s3, acc.push(arg))
            },
        }
    } else {
        let (ok, s1) = expect_peek(ts, st, TokenType::RPAREN);
        if !ok {
            (None, s1)
        } else {
            (Some(acc), s1)
        }
    }
}

/// The top-level statements from the current token on, after `acc`: a
/// statement that fails is left out, and parsing goes on after it.
pub open spec fn p_program_loop(ts: Seq<Tok>, st: PState, acc: Seq<Stmt>) -> (Seq<Stmt>, PState)
    decreases remaining(ts, st.pos as int),
{
    if cur_kind(ts, st) == TokenType::EOF {
        (acc, st)
    } else {
        let (s, s1) = p_statement(ts, st);
        let acc1 = match s {
            Some(stmt) => acc.push(stmt),
            None => acc,
        };
        if s1.pos < st.pos {
            (acc1, s1)
        } else if cur_kind(ts, s1) == TokenType::EOF {
            (acc1, adv(ts, s1))
        } else {
            p_program_loop(ts, adv(ts, s1), acc1)
        }
    }
}

/// The program of a token sequence, and its diagnostics.
pub open spec fn parse_tokens(ts: Seq<Tok>) -> (Seq<Stmt>, Seq<Seq<char>>) {
    let (ss, st) = p_program_loop(ts, PState { pos: 0, errors: Seq::empty() }, Seq::empty());
    (ss, st.errors)
}


/// An expression result as a value.
pub open spec fn opt_expr(r: Option<Expression>) -> Option<Expr> {
    match r {
        Some(e) => Some(e@),
        None => None,
    }
}

/// A statement result as a value.
pub open spec fn opt_stmt(r: Option<Statement>) -> Option<Stmt> {
    match r {
        Some(s) => Some(s@),
        None => None,
    }
}

/// A block result as a value.
pub open spec fn opt_block(r: Option<BlockStatement>) -> Option<Block> {
    match r {
        Some(b) => Some(b@),
        None => None,
    }
}

/// A parameter list result as a value.
pub open spec fn opt_idents(r: Option<Vec<Identifier>>) -> Option<Seq<Ident>> {
    match r {
        Some(v) => Some(idents_view(v@)),
        None => None,
    }
}

/// An argument list result as a value.
pub open spec fn opt_exprs(r: Option<Vec<Expression>>) -> Option<Seq<Expr>> {
    match r {
        Some(v) => Some(exprs_view(v@)),
        None => None,
    }
}

/// The name of a token category.
fn kind_label_string(t: TokenType) -> (r: String)
    ensures
        r@ == kind_label(t),
{
    match t {
        TokenType::LET => string_of(&['L', 'E', 'T']),
        TokenType::FN => string_of(&['F', 'N']),
        TokenType::ILLEGAL => string_of(&['I', 'L', 'L', 'E', 'G', 'A', 'L']),
        TokenType::EOF => string_of(&['E', 'O', 'F']),
        TokenType::IDENT => string_of(&['I', 'D', 'E', 'N', 'T']),
        TokenType::INT => string_of(&['I', 'N', 'T']),
        TokenType::STRING => string_of(&['S', 'T', 'R', 'I', 'N', 'G']),
        TokenType::ASSIGN => string_of(&['A', 'S', 'S', 'I', 'G', 'N']),
        TokenType::PLUS => string_of(&['P', 'L', 'U', 'S']),
        TokenType::MINUS => string_of(&['M', 'I', 'N', 'U', 'S']),
        TokenType::ASTERISK => string_of(&['A', 'S', 'T', 'E', 'R', 'I', 'S', 'K']),
        TokenType::SLASH => string_of(&['S', 'L', 'A', 'S', 'H']),
        TokenType::COMMA => string_of(&['C', 'O', 'M', 'M', 'A']),
        TokenType::COLON => string_of(&['C', 'O', 'L', 'O', 'N']),
        TokenType::SEMICOLON => string_of(&['S', 'E', 'M', 'I', 'C', 'O', 'L', 'O', 'N']),
        TokenType::LPAREN => string_of(&['L', 'P', 'A', 'R', 'E', 'N']),
        TokenType::RPAREN => string_of(&['R', 'P', 'A', 'R', 'E', 'N']),
        TokenType::LBRACE => string_of(&['L', 'B', 'R', 'A', 'C', 'E']),
        TokenType::RBRACE => string_of(&['R', 'B', 'R', 'A', 'C', 'E']),
        TokenType::LBRACKET => string_of(&['L', 'B', 'R', 'A', 'C', 'K', 'E', 'T']),
        TokenType::RBRACKET => string_of(&['R', 'B', 'R', 'A', 'C', 'K', 'E', 'T']),
        TokenType::LT => string_of(&['L', 'T']),
        TokenType::GT => string_of(&['G', 'T']),
        TokenType::EQ => string_of(&['E', 'Q']),
        TokenType::NOTEQ => string_of(&['N', 'O', 'T', 'E', 'Q']),
        TokenType::IF => string_of(&['I', 'F']),
        TokenType::ELSE => string_of(&['E', 'L', 'S', 'E']),
        TokenType::RETURN => string_of(&['R', 'E', 'T', 'U', 'R', 'N']),
        TokenType::TRUE => string_of(&['T', 'R', 'U', 'E']),
        TokenType::FALSE => string_of(&['F', 'A', 'L', 'S', 'E']),
        TokenType::BANG => string_of(&['B', 'A', 'N', 'G']),
    }
}

fn level(p: Precedence) -> (r: u8)
    ensures
        r as nat == p.rank(),
{
    match p {
        Precedence::LOWEST => 0,
        Precedence::EQUALS => 1,
        Precedence::LESSGREATER => 2,
        Precedence::SUM => 3,
        Precedence::PRODUCT => 4,
        Precedence::PREFIX => 5,
        Precedence::CALL => 6,
    }
}

/// The value of an integer literal's text.
fn literal_int(s: &String) -> (r: Option<i64>)
    ensures
        r matches Some(v) ==> literal_value(s@) == Some(v as int),
        r is None ==> literal_value(s@) is None,
{
    let t = s.as_str();
    let n = t.unicode_len();
    if n == 0 {
        return None;
    }
    let mut acc: i64 = 0;
    let mut i: usize = 0;
    while i < n
        invariant
            n == t@.len() == s@.len(),
            t@ == s@,
            i <= n,
            0 <= acc,
            decimal_from(s@, i as int, acc as int) == decimal_from(s@, 0, 0),
        decreases n - i,
    {
        let c = t.get_char(i);
        if !('0' <= c && c <= '9') {
            return None;
        }
        let d = (c as u32 - '0' as u32) as i64;
        if acc > (i64::MAX - d) / 10 {
            assert(acc * 10 + d > i64::MAX) by (nonlinear_arith)
                requires
                    acc > (i64::MAX - d) / 10,
                    0 <= d <= 9,
            ;
            return None;
        }
        assert(acc * 10 + d <= i64::MAX) by (nonlinear_arith)
            requires
                acc <= (i64::MAX - d) / 10,
                0 <= d <= 9,
                0 <= acc,
        ;
        acc = acc * 10 + d;
        i = i + 1;
    }
    Some(acc)
}

/// Parses a token sequence, read from a lexer, into a program, recording a
/// diagnostic for each construct that cannot be completed.
pub struct Parser {
    tokens: Vec<Token>,
    position: usize,
    errors: Vec<String>,
}

impl Parser {
    /// The tokens being parsed.
    pub closed spec fn ts(&self) -> Seq<Tok> {
        self.tokens@.map_values(|t: Token| t@)
    }

    /// The current position and the diagnostics so far.
    pub closed spec fn state(&self) -> PState {
        PState { pos: self.position as nat, errors: self.errors@.map_values(|e: String| e@) }
    }

    pub closed spec fn wf(&self) -> bool {
        self.position <= self.tokens@.len()
    }

    /// A parser over every token that `l` has still to give, up to and
    /// including end-of-input.
    pub fn new(l: Lexer) -> (p: Self)
        requires
            l.wf(),
        ensures
            p.wf(),
            p.ts() == lex_tokens(l.source(), l.pos()),
            p.state() == (PState { pos: 0, errors: Seq::empty() }),
    {
        let mut l = l;
        let ghost s = l.source();
        let ghost start = l.pos();
        let mut tokens: Vec<Token> = Vec::new();
        let mut done = false;
        proof {
            lemma_next_token_progress(s, start);
            reveal(lex_tokens);
        }
        while !done
            invariant
                l.wf(),
                l.source() == s,
                0 <= l.pos() <= s.len(),
                !done ==> tokens@.map_values(|t: Token| t@) + lex_tokens(s, l.pos()) == lex_tokens(
                    s,
                    start,
                ),
                done ==> tokens@.map_values(|t: Token| t@) == lex_tokens(s, start),
            decreases s.len() - l.pos() + (if done { 0int } else { 1int }),
        {
            let ghost before = tokens@.map_values(|t: Token| t@);
            let ghost i = l.pos();
            proof {
                lemma_next_token_progress(s, i);
                reveal(lex_tokens);
            }
            let t = l.next_token();
            let eof = t.token_type == TokenType::EOF;
            tokens.push(t);
            assert(tokens@.map_values(|t: Token| t@) =~= before.push(t@));
            if eof {
                assert(lex_tokens(s, i) == seq![t@]);
                assert(before + seq![t@] =~= before.push(t@));
                done = true;
            } else {
                assert(lex_tokens(s, i) == seq![t@] + lex_tokens(s, l.pos()));
                assert(before + (seq![t@] + lex_tokens(s, l.pos())) =~= before.push(t@) + lex_tokens(
                    s,
                    l.pos(),
                ));
            }
        }
        let p = Parser { tokens, position: 0, errors: Vec::new() };
        assert(p.state().errors =~= Seq::<Seq<char>>::empty());
        p
    }

    /// The diagnostics recorded so far, in order.
    pub fn errors(&self) -> (r: Vec<String>)
        ensures
            r@.map_values(|e: String| e@) == self.state().errors,
    {
        let mut r: Vec<String> = Vec::new();
        let mut i: usize = 0;
        while i < self.errors.len()
            invariant
                i <= self.errors@.len(),
                r@.len() == i,
                forall|j: int| 0 <= j < i ==> #[trigger] r@[j]@ == self.errors@[j]@,
            decreases self.errors@.len() - i,
        {
            r.push(self.errors[i].clone());
            i = i + 1;
        }
        assert(r@.map_values(|e: String| e@) =~= self.state().errors);
        r
    }

    fn current_kind(&self) -> (r: TokenType)
        ensures
            r == cur_kind(self.ts(), self.state()),
    {
        if self.position < self.tokens.len() {
            self.tokens[self.position].token_type
        } else {
            TokenType::EOF
        }
    }

    fn peek_kind(&self) -> (r: TokenType)
        requires
            self.wf(),
        ensures
            r == peek_kind(self.ts(), self.state()),
    {
        if self.tokens.len() - self.position > 1 {
            self.tokens[self.position + 1].token_type
        } else {
            TokenType::EOF
        }
    }

    fn cur_token_is(&self, t: TokenType) -> (r: bool)
        ensures
            r == (cur_kind(self.ts(), self.state()) == t),
    {
        self.current_kind() == t
    }

    fn peek_token_is(&self, t: TokenType) -> (r: bool)
        requires
            self.wf(),
        ensures
            r == (peek_kind(self.ts(), self.state()) == t),
    {
        self.peek_kind() == t
    }

    fn current_token(&self) -> (r: Token)
        ensures
            r@ == tok(self.ts(), self.position as int),
    {
        if self.position < self.tokens.len() {
            clone_token(&self.tokens[self.position])
        } else {
            Token { token_type: TokenType::EOF, literal: String::new() }
        }
    }

    fn token_precedence(t: TokenType) -> (r: Precedence)
        ensures
            r.rank() == prec_of(t),
    {
        match t {
            TokenType::EQ | TokenType::NOTEQ => Precedence::EQUALS,
            TokenType::LT | TokenType::GT => Precedence::LESSGREATER,
            TokenType::PLUS | TokenType::MINUS => Precedence::SUM,
            TokenType::SLASH | TokenType::ASTERISK => Precedence::PRODUCT,
            TokenType::LPAREN => Precedence::CALL,
            _ => Precedence::LOWEST,
        }
    }

    fn cur_precedence(&self) -> (r: Precedence)
        ensures
            r.rank() == prec_of(cur_kind(self.ts(), self.state())),
    {
        Self::token_precedence(self.current_kind())
    }

    fn peek_precedence(&self) -> (r: Precedence)
        requires
            self.wf(),
        ensures
            r.rank() == prec_of(peek_kind(self.ts(), self.state())),
    {
        Self::token_precedence(self.peek_kind())
    }

    fn next_token(&mut self)
        requires
            old(self).wf(),
        ensures
            final(self).wf(),
            final(self).ts() == old(self).ts(),
            final(self).tokens@ == old(self).tokens@,
            final(self).state() == adv(old(self).ts(), old(self).state()),
            final(self).position >= old(self).position,
    {
        if self.position < self.tokens.len() {
            self.position = self.position + 1;
        }
    }

    fn push_error(&mut self, msg: String)
        requires
            old(self).wf(),
        ensures
            final(self).wf(),
            final(self).ts() == old(self).ts(),
            final(self).position == old(self).position,
            final(self).state() == with_error(old(self).state(), msg@),
    {
        let ghost before = self.errors@.map_values(|e: String| e@);
        self.errors.push(msg);
        assert(self.errors@.map_values(|e: String| e@) =~= before.push(msg@));
    }

    fn peek_error(&mut self, t: TokenType)
        requires
            old(self).wf(),
        ensures
            final(self).wf(),
            final(self).ts() == old(self).ts(),
            final(self).position == old(self).position,
            final(self).state() == with_error(
                old(self).state(),
                peek_error_msg(t, peek_kind(old(self).ts(), old(self).state())),
            ),
    {
        let got = self.peek_kind();
        self.expected_error(t, got);
    }

    fn expected_error(&mut self, t: TokenType, got: TokenType)
        requires
            old(self).wf(),
        ensures
            final(self).wf(),
            final(self).ts() == old(self).ts(),
            final(self).position == old(self).position,
            final(self).state() == with_error(old(self).state(), peek_error_msg(t, got)),
    {
        let mut msg = string_of(&['e', 'x', 'p', 'e', 'c', 't', 'e', 'd', ' ', 'n', 'e', 'x', 't', ' ', 't', 'o', 'k', 'e', 'n', ' ', 't', 'o', ' ', 'b', 'e', ' ']);
        push_seq(&mut msg, &kind_label_string(t));
        push_seq(&mut msg, &string_of(&[',', ' ', 'g', 'o', 't', ' ']));
        push_seq(&mut msg, &kind_label_string(got));
        push_seq(&mut msg, &string_of(&[' ', 'i', 'n', 's', 't', 'e', 'a', 'd']));
        assert(msg@ =~= peek_error_msg(t, got));
        self.push_error(msg);
    }

    fn no_prefix_parse_fn_error(&mut self, t: TokenType)
        requires
            old(self).wf(),
        ensures
            final(self).wf(),
            final(self).ts() == old(self).ts(),
            final(self).position == old(self).position,
            final(self).state() == with_error(old(self).state(), no_prefix_msg(t)),
    {
        let mut msg = string_of(&['n', 'o', ' ', 'p', 'r', 'e', 'f', 'i', 'x', ' ', 'p', 'a', 'r', 's', 'e', ' ', 'f', 'u', 'n', 'c', 't', 'i', 'o', 'n', ' ', 'f', 'o', 'r', ' ']);
        push_seq(&mut msg, &kind_label_string(t));
        push_seq(&mut msg, &string_of(&[' ', 'f', 'o', 'u', 'n', 'd']));
        assert(msg@ =~= no_prefix_msg(t));
        self.push_error(msg);
    }

    fn expect_peek(&mut self, t: TokenType) -> (r: bool)
        requires
            old(self).wf(),
        ensures
            final(self).wf(),
            final(self).ts() == old(self).ts(),
            final(self).position >= old(self).position,
            (r, final(self).state()) == expect_peek(old(self).ts(), old(self).state(), t),
    {
        if self.peek_token_is(t) {
            self.next_token();
            true
        } else {
            self.peek_error(t);
            false
        }
    }

    fn skip_semicolon(&mut self)
        requires
            old(self).wf(),
        ensures
            final(self).wf(),
            final(self).ts() == old(self).ts(),
            final(self).position >= old(self).position,
            final(self).state() == skip_semicolon(old(self).ts(), old(self).state()),
    {
        if self.peek_token_is(TokenType::SEMICOLON) {
            self.next_token();
        }
    }

    /// Parses the whole token sequence from the current token on.
    pub fn parse_program(&mut self) -> (program: Program)
        requires
            old(self).wf(),
        ensures
            final(self).wf(),
            final(self).ts() == old(self).ts(),
            (program@, final(self).state()) == p_program_loop(
                old(self).ts(),
                old(self).state(),
                Seq::empty(),
            ),
            old(self).state() == (PState { pos: 0, errors: Seq::empty() }) ==> (
            program@,
            final(self).state().errors,
            ) == parse_tokens(old(self).ts()),
    {
        let mut program = Program::new();
        let ghost ts = self.ts();
        let ghost target = p_program_loop(ts, self.state(), Seq::empty());
        let mut done = false;
        while !done && !self.cur_token_is(TokenType::EOF)
            invariant
                self.wf(),
                self.ts() == ts,
                ts == old(self).ts(),
                target == p_program_loop(old(self).ts(), old(self).state(), Seq::empty()),
                !done ==> p_program_loop(ts, self.state(), program@) == target,
                done ==> (program@, self.state()) == target,
            decreases remaining(ts, self.position as int) + (if done { 0int } else { 1int }),
        {
            let ghost st = self.state();
            let ghost acc = program@;
            let s = self.parse_statement();
            match s {
                Some(stmt) => {
                    let ghost before = program.statements@;
                    let ghost sv = stmt;
                    program.statements.push(stmt);
                    proof {
                        lemma_stmts_view_push(before, sv);
                    }
                },
                None => {},
            }
            if self.cur_token_is(TokenType::EOF) {
                done = true;
            }
            self.next_token();
        }
        program
    }

    fn parse_statement(&mut self) -> (r: Option<Statement>)
        requires
            old(self).wf(),
        ensures
            final(self).wf(),
            final(self).ts() == old(self).ts(),
            final(self).position >= old(self).position,
            (opt_stmt(r), final(self).state()) == p_statement(old(self).ts(), old(self).state()),
        decreases remaining(old(self).ts(), old(self).position as int), 6nat,
    {
        match self.current_kind() {
            TokenType::LET => self.parse_let_statement(),
            TokenType::RETURN => self.parse_return_statement(),
            _ => self.parse_expression_statement(),
        }
    }

    fn parse_let_statement(&mut self) -> (r: Option<Statement>)
        requires
            old(self).wf(),
        ensures
            final(self).wf(),
            final(self).ts() == old(self).ts(),
            final(self).position >= old(self).position,
            (opt_stmt(r), final(self).state()) == p_let(old(self).ts(), old(self).state()),
        decreases remaining(old(self).ts(), old(self).position as int), 5nat,
    {
        let token = self.current_token();
        if !self.expect_peek(TokenType::IDENT) {
            return None;
        }
        let name = self.parse_name();
        if !self.expect_peek(TokenType::ASSIGN) {
            return None;
        }
        self.next_token();
        let value = match self.parse_expression(Precedence::LOWEST) {
            Some(v) => v,
            None => return None,
        };
        self.skip_semicolon();
        Some(Statement::Let(LetStatement { token, name, value }))
    }

    /// An identifier made of the current token.
    fn parse_name(&self) -> (r: Identifier)
        ensures
            r@ == ident_at(self.ts(), self.position as int),
    {
        let token = self.current_token();
        let value = token.literal.clone();
        Identifier { token, value }
    }

    fn parse_return_statement(&mut self) -> (r: Option<Statement>)
        requires
            old(self).wf(),
            cur_kind(old(self).ts(), old(self).state()) == TokenType::RETURN,
        ensures
            final(self).wf(),
            final(self).ts() == old(self).ts(),
            final(self).position >= old(self).position,
            (opt_stmt(r), final(self).state()) == p_return(old(self).ts(), old(self).state()),
        decreases remaining(old(self).ts(), old(self).position as int), 5nat,
    {
        let token = self.current_token();
        self.next_token();
        let return_value = match self.parse_expression(Precedence::LOWEST) {
            Some(v) => v,
            None => return None,
        };
        self.skip_semicolon();
        Some(Statement::Return(ReturnStatement { token, return_value }))
    }

    fn parse_expression_statement(&mut self) -> (r: Option<Statement>)
        requires
            old(self).wf(),
        ensures
            final(self).wf(),
            final(self).ts() == old(self).ts(),
            final(self).position >= old(self).position,
            (opt_stmt(r), final(self).state()) == p_expression_statement(old(self).ts(), old(self).state()),
        decreases remaining(old(self).ts(), old(self).position as int), 5nat,
    {
        let token = self.current_token();
        let expression = match self.parse_expression(Precedence::LOWEST) {
            Some(e) => e,
            None => return None,
        };
        self.skip_semicolon();
        Some(Statement::Expression(ExpressionStatement { token, expression }))
    }

    fn has_prefix_parse_fn(t: TokenType) -> (r: bool)
        ensures
            r == has_prefix(t),
    {
        match t {
            TokenType::IDENT | TokenType::INT | TokenType::BANG | TokenType::MINUS
            | TokenType::TRUE | TokenType::FALSE | TokenType::LPAREN | TokenType::IF
            | TokenType::FN => true,
            _ => false,
        }
    }

    fn has_infix_parse_fn(t: TokenType) -> (r: bool)
        ensures
            r == has_infix(t),
    {
        match t {
            TokenType::PLUS | TokenType::MINUS | TokenType::SLASH | TokenType::ASTERISK
            | TokenType::EQ | TokenType::NOTEQ | TokenType::LT | TokenType::GT
            | TokenType::LPAREN => true,
            _ => false,
        }
    }

    fn parse_expression(&mut self, precedence: Precedence) -> (r: Option<Expression>)
        requires
            old(self).wf(),
        ensures
            final(self).wf(),
            final(self).ts() == old(self).ts(),
            final(self).position >= old(self).position,
            (opt_expr(r), final(self).state()) == p_expression(old(self).ts(), old(self).state(), precedence.rank()),
        decreases remaining(old(self).ts(), old(self).position as int), 4nat,
    {
        let ghost ts = self.ts();
        let ghost st = self.state();
        let k = self.current_kind();
        if !Self::has_prefix_parse_fn(k) {
            self.no_prefix_parse_fn_error(k);
            return None;
        }
        let mut left = match self.parse_prefix() {
            Some(e) => e,
            None => return None,
        };
        let ghost target = p_expression(ts, st, precedence.rank());
        loop
            invariant
                self.wf(),
                self.ts() == ts,
                self.position >= st.pos,
                ts == old(self).ts(),
                st == old(self).state(),
                target == p_expression(old(self).ts(), old(self).state(), precedence.rank()),
                p_infix_loop(ts, self.state(), precedence.rank(), left@) == target,
            decreases remaining(ts, self.position as int),
        {
            if self.peek_token_is(TokenType::SEMICOLON) || level(precedence) >= level(
                self.peek_precedence(),
            ) {
                return Some(left);
            }
            if !Self::has_infix_parse_fn(self.peek_kind()) {
                return Some(left);
            }
            self.next_token();
            left = match self.parse_infix_expression(left) {
                Some(e) => e,
                None => return None,
            };
        }
    }

    /// The prefix form at the current token.
    fn parse_prefix(&mut self) -> (r: Option<Expression>)
        requires
            old(self).wf(),
        ensures
            final(self).wf(),
            final(self).ts() == old(self).ts(),
            final(self).position >= old(self).position,
            (opt_expr(r), final(self).state()) == p_prefix(old(self).ts(), old(self).state()),
        decreases remaining(old(self).ts(), old(self).position as int), 3nat,
    {
        match self.current_kind() {
            TokenType::IDENT => Some(self.parse_identifier()),
            TokenType::INT => self.parse_integer_literal(),
            TokenType::BANG | TokenType::MINUS => self.parse_prefix_expression(),
            TokenType::TRUE | TokenType::FALSE => Some(self.parse_boolean()),
            TokenType::LPAREN => self.parse_grouped_expression(),
            TokenType::IF => self.parse_if_expression(),
            TokenType::FN => self.parse_function_literal(),
            _ => None,
        }
    }

    fn parse_identifier(&self) -> (r: Expression)
        ensures
            r@ == Expr::Identifier(ident_at(self.ts(), self.position as int)),
    {
        Expression::Identifier(self.parse_name())
    }

    fn parse_integer_literal(&mut self) -> (r: Option<Expression>)
        requires
            old(self).wf(),
        ensures
            final(self).wf(),
            final(self).ts() == old(self).ts(),
            final(self).position >= old(self).position,
            (opt_expr(r), final(self).state()) == p_integer(old(self).ts(), old(self).state()),
    {
        let token = self.current_token();
        match literal_int(&token.literal) {
            Some(value) => Some(Expression::IntegerLiteral(IntegerLiteral { token, value })),
            None => {
                let mut msg = string_of(&['c', 'o', 'u', 'l', 'd', ' ', 'n', 'o', 't', ' ', 'p', 'a', 'r', 's', 'e', ' ']);
                push_seq(&mut msg, &token.literal);
                push_seq(&mut msg, &string_of(&[' ', 'a', 's', ' ', 'i', 'n', 't', 'e', 'g', 'e', 'r']));
                assert(msg@ =~= bad_integer_msg(token.literal@));
                self.push_error(msg);
                None
            },
        }
    }

    fn parse_boolean(&self) -> (r: Expression)
        ensures
            r@ == (Expr::Boolean {
                token: tok(self.ts(), self.position as int),
                value: cur_kind(self.ts(), self.state()) == TokenType::TRUE,
            }),
    {
        let token = self.current_token();
        let value = self.cur_token_is(TokenType::TRUE);
        Expression::Boolean(Boolean { token, value })
    }

    fn parse_prefix_expression(&mut self) -> (r: Option<Expression>)
        requires
            old(self).wf(),
            cur_kind(old(self).ts(), old(self).state()) != TokenType::EOF,
        ensures
            final(self).wf(),
            final(self).ts() == old(self).ts(),
            final(self).position >= old(self).position,
            (opt_expr(r), final(self).state()) == p_prefix_expression(old(self).ts(), old(self).state()),
        decreases remaining(old(self).ts(), old(self).position as int), 2nat,
    {
        let token = self.current_token();
        let operator = token.literal.clone();
        self.next_token();
        let right = match self.parse_expression(Precedence::PREFIX) {
            Some(e) => e,
            None => return None,
        };
        Some(Expression::Prefix(PrefixExpression { token, operator, right: Box::new(right) }))
    }

    fn parse_grouped_expression(&mut self) -> (r: Option<Expression>)
        requires
            old(self).wf(),
            cur_kind(old(self).ts(), old(self).state()) != TokenType::EOF,
        ensures
            final(self).wf(),
            final(self).ts() == old(self).ts(),
            final(self).position >= old(self).position,
            (opt_expr(r), final(self).state()) == p_grouped(old(self).ts(), old(self).state()),
        decreases remaining(old(self).ts(), old(self).position as int), 2nat,
    {
        self.next_token();
        let exp = self.parse_expression(Precedence::LOWEST);
        if !self.expect_peek(TokenType::RPAREN) {
            return None;
        }
        exp
    }

    fn parse_if_expression(&mut self) -> (r: Option<Expression>)
        requires
            old(self).wf(),
        ensures
            final(self).wf(),
            final(self).ts() == old(self).ts(),
            final(self).position >= old(self).position,
            (opt_expr(r), final(self).state()) == p_if(old(self).ts(), old(self).state()),
        decreases remaining(old(self).ts(), old(self).position as int), 2nat,
    {
        let token = self.current_token();
        if !self.expect_peek(TokenType::LPAREN) {
            return None;
        }
        self.next_token();
        let condition = match self.parse_expression(Precedence::LOWEST) {
            Some(c) => c,
            None => return None,
        };
        if !self.expect_peek(TokenType::RPAREN) {
            return None;
        }
        if !self.expect_peek(TokenType::LBRACE) {
            return None;
        }
        let consequence = match self.parse_block_statement() {
            Some(b) => b,
            None => return None,
        };
        if self.peek_token_is(TokenType::ELSE) {
            self.next_token();
            if !self.expect_peek(TokenType::LBRACE) {
                return None;
            }
            let alternative = match self.parse_block_statement() {
                Some(b) => b,
                None => return None,
            };
            Some(
                Expression::If(
                    IfExpression {
                        token,
                        condition: Box::new(condition),
                        consequence,
                        alternative: Some(alternative),
                    },
                ),
            )
        } else {
            Some(
                Expression::If(
                    IfExpression {
                        token,
                        condition: Box::new(condition),
                        consequence,
                        alternative: None,
                    },
                ),
            )
        }
    }

    fn parse_block_statement(&mut self) -> (r: Option<BlockStatement>)
        requires
            old(self).wf(),
            cur_kind(old(self).ts(), old(self).state()) != TokenType::EOF,
        ensures
            final(self).wf(),
            final(self).ts() == old(self).ts(),
            final(self).position >= old(self).position,
            (opt_block(r), final(self).state()) == p_block(old(self).ts(), old(self).state()),
        decreases remaining(old(self).ts(), old(self).position as int), 8nat,
    {
        let ghost ts = self.ts();
        let ghost target = p_block(ts, self.state());
        let token = self.current_token();
        self.next_token();
        let mut statements: Vec<Statement> = Vec::new();
        loop
            invariant
                self.wf(),
                self.ts() == ts,
                self.position >= old(self).position,
                ts == old(self).ts(),
                target == p_block(old(self).ts(), old(self).state()),
                p_block_loop(ts, self.state(), token@, stmts_view(statements@)) == target,
            decreases remaining(ts, self.position as int),
        {
            if self.cur_token_is(TokenType::RBRACE) {
                return Some(BlockStatement { token, statements });
            }
            if self.cur_token_is(TokenType::EOF) {
                self.expected_error(TokenType::RBRACE, TokenType::EOF);
                return None;
            }
            let stmt = match self.parse_statement() {
                Some(s) => s,
                None => return None,
            };
            let ghost before = statements@;
            let ghost sv = stmt;
            statements.push(stmt);
            proof {
                lemma_stmts_view_push(before, sv);
            }
            if self.cur_token_is(TokenType::EOF) {
                self.next_token();
                self.expected_error(TokenType::RBRACE, TokenType::EOF);
                return None;
            }
            self.next_token();
        }
    }

    fn parse_function_literal(&mut self) -> (r: Option<Expression>)
        requires
            old(self).wf(),
        ensures
            final(self).wf(),
            final(self).ts() == old(self).ts(),
            final(self).position >= old(self).position,
            (opt_expr(r), final(self).state()) == p_function(old(self).ts(), old(self).state()),
        decreases remaining(old(self).ts(), old(self).position as int), 2nat,
    {
        let token = self.current_token();
        if !self.expect_peek(TokenType::LPAREN) {
            return None;
        }
        let parameters = match self.parse_function_parameters() {
            Some(ps) => ps,
            None => return None,
        };
        if !self.expect_peek(TokenType::LBRACE) {
            return None;
        }
        let body = match self.parse_block_statement() {
            Some(b) => b,
            None => return None,
        };
        Some(Expression::Function(FunctionLiteral { token, parameters, body }))
    }

    fn parse_function_parameters(&mut self) -> (r: Option<Vec<Identifier>>)
        requires
            old(self).wf(),
        ensures
            final(self).wf(),
            final(self).ts() == old(self).ts(),
            final(self).position >= old(self).position,
            (opt_idents(r), final(self).state()) == p_params(old(self).ts(), old(self).state()),
    {
        let ghost ts = self.ts();
        let ghost target = p_params(ts, self.state());
        let mut identifiers: Vec<Identifier> = Vec::new();
        if self.peek_token_is(TokenType::RPAREN) {
            self.next_token();
            assert(idents_view(identifiers@) =~= Seq::<Ident>::empty());
            return Some(identifiers);
        }
        if !self.expect_peek(TokenType::IDENT) {
            return None;
        }
        identifiers.push(self.parse_name());
        assert(idents_view(identifiers@) =~= seq![ident_at(ts, self.position as int)]);
        while self.peek_token_is(TokenType::COMMA)
            invariant
                self.wf(),
                self.ts() == ts,
                self.position >= old(self).position,
                ts == old(self).ts(),
                target == p_params(old(self).ts(), old(self).state()),
                p_params_loop(ts, self.state(), idents_view(identifiers@)) == target,
            decreases remaining(ts, self.position as int),
        {
            self.next_token();
            if !self.expect_peek(TokenType::IDENT) {
                return None;
            }
            let ghost before = identifiers@;
            identifiers.push(self.parse_name());
            assert(idents_view(identifiers@) =~= idents_view(before).push(
                ident_at(ts, self.position as int),
            ));
        }
        if !self.expect_peek(TokenType::RPAREN) {
            return None;
        }
        Some(identifiers)
    }

    fn parse_infix_expression(&mut self, left: Expression) -> (r: Option<Expression>)
        requires
            old(self).wf(),
            cur_kind(old(self).ts(), old(self).state()) != TokenType::EOF,
        ensures
            final(self).wf(),
            final(self).ts() == old(self).ts(),
            final(self).position >= old(self).position,
            (opt_expr(r), final(self).state()) == p_infix(old(self).ts(), old(self).state(), left@),
        decreases remaining(old(self).ts(), old(self).position as int), 3nat,
    {
        if self.cur_token_is(TokenType::LPAREN) {
            return self.parse_call_expression(left);
        }
        let token = self.current_token();
        let operator = token.literal.clone();
        let precedence = self.cur_precedence();
        self.next_token();
        let right = match self.parse_expression(precedence) {
            Some(e) => e,
            None => return None,
        };
        Some(
            Expression::Infix(
                InfixExpression { token, left: Box::new(left), operator, right: Box::new(right) },
            ),
        )
    }

    fn parse_call_expression(&mut self, function: Expression) -> (r: Option<Expression>)
        requires
            old(self).wf(),
            cur_kind(old(self).ts(), old(self).state()) == TokenType::LPAREN,
        ensures
            final(self).wf(),
            final(self).ts() == old(self).ts(),
            final(self).position >= old(self).position,
            (opt_expr(r), final(self).state()) == p_call(old(self).ts(), old(self).state(), function@),
        decreases remaining(old(self).ts(), old(self).position as int), 2nat,
    {
        let token = self.current_token();
        let arguments = match self.parse_call_arguments() {
            Some(a) => a,
            None => return None,
        };
        Some(Expression::Call(CallExpression { token, function: Box::new(function), arguments }))
    }

    fn parse_call_arguments(&mut self) -> (r: Option<Vec<Expression>>)
        requires
            old(self).wf(),
            cur_kind(old(self).ts(), old(self).state()) == TokenType::LPAREN,
        ensures
            final(self).wf(),
            final(self).ts() == old(self).ts(),
            final(self).position >= old(self).position,
            (opt_exprs(r), final(self).state()) == p_arguments(old(self).ts(), old(self).state()),
        decreases remaining(old(self).ts(), old(self).position as int), 1nat,
    {
        let ghost ts = self.ts();
        let ghost target = p_arguments(ts, self.state());
        let mut args: Vec<Expression> = Vec::new();
        if self.peek_token_is(TokenType::RPAREN) {
            self.next_token();
            assert(exprs_view(args@) =~= Seq::<Expr>::empty());
            return Some(args);
        }
        self.next_token();
        let first = match self.parse_expression(Precedence::LOWEST) {
            Some(e) => e,
            None => return None,
        };
        let ghost fv = first;
        args.push(first);
        proof {
            lemma_exprs_view_push(Seq::empty(), fv);
            assert(Seq::<Expression>::empty().push(fv) =~= args@);
            assert(exprs_view(Seq::<Expression>::empty()) =~= Seq::<Expr>::empty());
        }
        while self.peek_token_is(TokenType::COMMA)
            invariant
                self.wf(),
                self.ts() == ts,
                self.position >= old(self).position,
                ts == old(self).ts(),
                target == p_arguments(old(self).ts(), old(self).state()),
                cur_kind(old(self).ts(), old(self).state()) == TokenType::LPAREN,
                p_arguments_loop(ts, self.state(), exprs_view(args@)) == target,
            decreases remaining(ts, self.position as int),
        {
            self.next_token();
            self.next_token();
            let arg = match self.parse_expression(Precedence::LOWEST) {
                Some(e) => e,
                None => return None,
            };
            let ghost before = args@;
            let ghost av = arg;
            args.push(arg);
            proof {
                lemma_exprs_view_push(before, av);
            }
        }
        if !self.expect_peek(TokenType::RPAREN) {
            return None;
        }
        Some(args)
    }
}

} // verus!
