use monkey::ast::{
    Expression, ExpressionStatement, Identifier, LetStatement, Node, NodeType, Program,
    ReturnStatement, Statement,
};
use monkey::lexer::Lexer;
use monkey::parser::Parser;
use monkey::token::{Token, TokenType};

fn parse(input: &str) -> (Program, Vec<String>) {
    let l = Lexer::new(input.to_string());
    let mut p = Parser::new(l);
    let program = p.parse_program();
    let errors = p.errors();
    (program, errors)
}

fn check_parser_errors(errors: &[String]) {
    for err in errors {
        println!("parser error: {}", err);
    }
    assert!(errors.is_empty(), "parser has {} errors", errors.len());
}

fn token(token_type: TokenType, literal: &str) -> Token {
    Token { token_type, literal: literal.to_string() }
}

fn ident(name: &str) -> Identifier {
    Identifier { token: token(TokenType::IDENT, name), value: name.to_string() }
}

enum Expected {
    Integer(i64),
    Boolean(bool),
    Name(&'static str),
}

fn test_literal_expression(e: &Expression, expected: &Expected) {
    match (e, expected) {
        (Expression::IntegerLiteral(l), Expected::Integer(v)) => {
            assert_eq!(l.value, *v);
            assert_eq!(l.token_literal(), v.to_string());
        }
        (Expression::Boolean(b), Expected::Boolean(v)) => {
            assert_eq!(b.value, *v);
            assert_eq!(b.token_literal(), v.to_string());
        }
        (Expression::Identifier(i), Expected::Name(n)) => {
            assert_eq!(i.value, *n);
            assert_eq!(i.token_literal(), *n);
        }
        _ => panic!("unexpected expression {}", e.to_string()),
    }
}

fn test_infix_expression(e: &Expression, left: &Expected, operator: &str, right: &Expected) {
    match e {
        Expression::Infix(x) => {
            test_literal_expression(&x.left, left);
            assert_eq!(x.operator, operator);
            test_literal_expression(&x.right, right);
        }
        _ => panic!("not an infix expression: {}", e.to_string()),
    }
}

fn single_expression(program: &Program) -> &Expression {
    assert_eq!(program.statements.len(), 1, "program.statements does not contain 1 statements");
    match &program.statements[0] {
        Statement::Expression(s) => &s.expression,
        _ => panic!("program.statements[0] is not ExpressionStatement"),
    }
}

#[test]
fn test_let_statements() {
    let tests = vec![
        ("let x = 5;", "x", Expected::Integer(5)),
        ("let y = true;", "y", Expected::Boolean(true)),
        ("let foobar = y;", "foobar", Expected::Name("y")),
    ];
    for (input, name, value) in tests {
        let (program, errors) = parse(input);
        check_parser_errors(&errors);
        assert_eq!(program.statements.len(), 1);
        match &program.statements[0] {
            Statement::Let(l) => {
                assert_eq!(l.token_literal(), "let");
                assert_eq!(l.name.value, name);
                assert_eq!(l.name.token_literal(), name);
                test_literal_expression(&l.value, &value);
            }
            _ => panic!("statement not LetStatement"),
        }
    }
}

#[test]
fn tests_test_return_statements() {
    let tests = vec![
        ("return 5;", Expected::Integer(5)),
        ("return true;", Expected::Boolean(true)),
        ("return y;", Expected::Name("y")),
    ];
    for (input, value) in tests {
        let (program, errors) = parse(input);
        check_parser_errors(&errors);
        assert_eq!(program.statements.len(), 1);
        match &program.statements[0] {
            Statement::Return(r) => {
                assert_eq!(r.token_literal(), "return");
                test_literal_expression(&r.return_value, &value);
            }
            _ => panic!("not ReturnStatement"),
        }
    }
}

#[test]
fn test_to_string() {
    let i = ident("testVar");
    assert_eq!(i.to_string(), "testVar", "Identifier to_string failed");

    let let_stmt = LetStatement {
        token: token(TokenType::LET, "let"),
        name: ident("x"),
        value: Expression::Identifier(ident("y")),
    };
    assert_eq!(let_stmt.to_string(), "let x = y;", "LetStatement to_string failed");

    let return_stmt = ReturnStatement {
        token: token(TokenType::RETURN, "return"),
        return_value: Expression::Identifier(ident("result")),
    };
    assert_eq!(return_stmt.to_string(), "return result;", "ReturnStatement to_string failed");

    let expr_stmt = ExpressionStatement {
        token: token(TokenType::IDENT, "x"),
        expression: Expression::Identifier(ident("x")),
    };
    assert_eq!(expr_stmt.to_string(), "x", "ExpressionStatement to_string failed");

    let program = Program {
        statements: vec![
            Statement::Let(let_stmt),
            Statement::Return(return_stmt),
            Statement::Expression(expr_stmt),
        ],
    };
    let expected = "let x = y;return result;x";
    assert_eq!(program.to_string(), expected, "Program to_string wrong. got={}", program.to_string());
    assert_eq!(program.string(), "let x = y;\nreturn result;\nx");
}

#[test]
fn test_identifier_expression() {
    let (program, errors) = parse("foobar;");
    check_parser_errors(&errors);
    test_literal_expression(single_expression(&program), &Expected::Name("foobar"));
}

#[test]
fn test_boolean_expression() {
    let (program, errors) = parse("true");
    check_parser_errors(&errors);
    test_literal_expression(single_expression(&program), &Expected::Boolean(true));
}

#[test]
fn test_integer_literal_expression() {
    let (program, errors) = parse("5;");
    check_parser_errors(&errors);
    test_literal_expression(single_expression(&program), &Expected::Integer(5));
}

#[test]
fn test_parsing_prefix_expressions() {
    let tests = vec![
        ("!5;", "!", Expected::Integer(5)),
        ("-15;", "-", Expected::Integer(15)),
        ("!true", "!", Expected::Boolean(true)),
        ("!false", "!", Expected::Boolean(false)),
    ];
    for (input, operator, value) in tests {
        let (program, errors) = parse(input);
        check_parser_errors(&errors);
        match single_expression(&program) {
            Expression::Prefix(p) => {
                assert_eq!(p.operator, operator);
                test_literal_expression(&p.right, &value);
            }
            _ => panic!("expression is not PrefixExpression"),
        }
    }
}

#[test]
fn test_parsing_infix_expressions() {
    let tests = vec![
        ("5 + 5 ;", Expected::Integer(5), "+", Expected::Integer(5)),
        ("5 - 5;", Expected::Integer(5), "-", Expected::Integer(5)),
        ("5 * 5;", Expected::Integer(5), "*", Expected::Integer(5)),
        ("5 / 5;", Expected::Integer(5), "/", Expected::Integer(5)),
        ("5 > 5;", Expected::Integer(5), ">", Expected::Integer(5)),
        ("5 < 5;", Expected::Integer(5), "<", Expected::Integer(5)),
        ("5 == 5;", Expected::Integer(5), "==", Expected::Integer(5)),
        ("5 != 5;", Expected::Integer(5), "!=", Expected::Integer(5)),
        ("true == true", Expected::Boolean(true), "==", Expected::Boolean(true)),
        ("true != false", Expected::Boolean(true), "!=", Expected::Boolean(false)),
        ("false == false", Expected::Boolean(false), "==", Expected::Boolean(false)),
    ];
    for (input, left, operator, right) in tests {
        let (program, errors) = parse(input);
        check_parser_errors(&errors);
        test_infix_expression(single_expression(&program), &left, operator, &right);
    }
}

#[test]
fn test_operator_precedence_parsing() {
    let tests = vec![
        ("-a * b", "((-a) * b)"),
        ("!-a", "(!(-a))"),
        ("a + b + c", "((a + b) + c)"),
        ("a + b - c", "((a + b) - c)"),
        ("a * b * c", "((a * b) * c)"),
        ("a * b / c", "((a * b) / c)"),
        ("a + b / c", "(a + (b / c))"),
        ("a + b * c + d / e - f", "(((a + (b * c)) + (d / e)) - f)"),
        ("3 + 4; -5 * 5", "(3 + 4)((-5) * 5)"),
        ("5 > 4 == 3 < 4", "((5 > 4) == (3 < 4))"),
        ("5 < 4 != 3 > 4", "((5 < 4) != (3 > 4))"),
        ("3 + 4 * 5 == 3 * 1 + 4 * 5", "((3 + (4 * 5)) == ((3 * 1) + (4 * 5)))"),
        ("true", "true"),
        ("false", "false"),
        ("3 > 5 == false", "((3 > 5) == false)"),
        ("3 < 5 == true", "((3 < 5) == true)"),
        ("1 + (2 + 3) + 4", "((1 + (2 + 3)) + 4)"),
        ("(5 + 5) * 2", "((5 + 5) * 2)"),
        ("2 / (5 + 5)", "(2 / (5 + 5))"),
        ("-(5 + 5)", "(-(5 + 5))"),
        ("!(true == true)", "(!(true == true))"),
    ];
    for (input, expected) in tests {
        let (program, errors) = parse(input);
        check_parser_errors(&errors);
        assert_eq!(program.to_string(), expected);
    }
}

#[test]
fn call_precedence_rendering() {
    let tests = vec![
        ("a + add(b * c) + d", "((a + add((b * c))) + d)"),
        ("add(a, b, 1, 2 * 3, 4 + 5, add(6, 7 * 8))", "add(a, b, 1, (2 * 3), (4 + 5), add(6, (7 * 8)))"),
        ("add(a + b + c * d / f + g)", "add((((a + b) + ((c * d) / f)) + g))"),
    ];
    for (input, expected) in tests {
        let (program, errors) = parse(input);
        check_parser_errors(&errors);
        assert_eq!(program.to_string(), expected);
    }
}

#[test]
fn test_if_expression() {
    let (program, errors) = parse("if (x>y){x}");
    check_parser_errors(&errors);
    match single_expression(&program) {
        Expression::If(i) => {
            test_infix_expression(&i.condition, &Expected::Name("x"), ">", &Expected::Name("y"));
            assert_eq!(i.consequence.statements.len(), 1);
            match &i.consequence.statements[0] {
                Statement::Expression(s) => test_literal_expression(&s.expression, &Expected::Name("x")),
                _ => panic!("Consequence.Statements[0] is not ExpressionStatement"),
            }
            assert!(i.alternative.is_none(), "if_expr.alternative was not None");
        }
        _ => panic!("not IfExpression"),
    }
}

#[test]
fn test_if_else_expression() {
    let (program, errors) = parse("if (x>y) {x}else{y}");
    check_parser_errors(&errors);
    match single_expression(&program) {
        Expression::If(i) => {
            test_infix_expression(&i.condition, &Expected::Name("x"), ">", &Expected::Name("y"));
            assert_eq!(i.consequence.statements.len(), 1);
            match &i.consequence.statements[0] {
                Statement::Expression(s) => test_literal_expression(&s.expression, &Expected::Name("x")),
                _ => panic!("Consequence.Statements[0] is not ExpressionStatement"),
            }
            let alt = i.alternative.as_ref().expect("if_expr.alternative was None");
            assert_eq!(alt.statements.len(), 1);
            match &alt.statements[0] {
                Statement::Expression(s) => test_literal_expression(&s.expression, &Expected::Name("y")),
                _ => panic!("Alternative.Statements[0] is not ExpressionStatement"),
            }
        }
        _ => panic!("not IfExpression"),
    }
}

#[test]
fn test_function_literal_parsing() {
    let (program, errors) = parse("fn(x,y){x+y;}");
    check_parser_errors(&errors);
    match single_expression(&program) {
        Expression::Function(f) => {
            assert_eq!(f.parameters.len(), 2, "function literal params wrong");
            assert_eq!(f.parameters[0].value, "x");
            assert_eq!(f.parameters[1].value, "y");
            assert_eq!(f.body.statements.len(), 1);
            match &f.body.statements[0] {
                Statement::Expression(s) => test_infix_expression(
                    &s.expression,
                    &Expected::Name("x"),
                    "+",
                    &Expected::Name("y"),
                ),
                _ => panic!("function body stmt is not ExpressionStatement"),
            }
        }
        _ => panic!("not function literal"),
    }
}

#[test]
fn test_function_parameter_parsing() {
    let tests: Vec<(&str, Vec<&str>)> = vec![
        ("fn() {};", vec![]),
        ("fn(x) {};", vec!["x"]),
        ("fn(x, y, z) {};", vec!["x", "y", "z"]),
    ];
    for (input, expected_params) in tests {
        let (program, errors) = parse(input);
        check_parser_errors(&errors);
        match single_expression(&program) {
            Expression::Function(f) => {
                assert_eq!(f.parameters.len(), expected_params.len());
                for (index, name) in expected_params.iter().enumerate() {
                    assert_eq!(f.parameters[index].value, *name);
                }
            }
            _ => panic!("not function literal"),
        }
    }
}

#[test]
fn test_call_expression_parsing() {
    let (program, errors) = parse("add(1, 2 * 3, 4 + 5);");
    check_parser_errors(&errors);
    match single_expression(&program) {
        Expression::Call(c) => {
            test_literal_expression(&c.function, &Expected::Name("add"));
            assert_eq!(c.arguments.len(), 3, "wrong length of arguments");
            test_literal_expression(&c.arguments[0], &Expected::Integer(1));
            test_infix_expression(&c.arguments[1], &Expected::Integer(2), "*", &Expected::Integer(3));
            test_infix_expression(&c.arguments[2], &Expected::Integer(4), "+", &Expected::Integer(5));
        }
        _ => panic!("not CallExpression"),
    }
}

#[test]
fn let_without_name_is_dropped_with_a_diagnostic() {
    let (program, errors) = parse("let = 5; let x 5; 7;");
    assert_eq!(
        errors,
        vec![
            "expected next token to be IDENT, got ASSIGN instead".to_string(),
            "no prefix parse function for ASSIGN found".to_string(),
            "expected next token to be ASSIGN, got INT instead".to_string(),
        ]
    );
    assert_eq!(program.to_string(), "557");
}

#[test]
fn missing_prefix_and_oversized_literal_are_reported() {
    let (_, errors) = parse("* 1");
    assert_eq!(errors[0], "no prefix parse function for ASTERISK found");
    let (program, errors) = parse("9223372036854775808");
    assert_eq!(errors, vec!["could not parse 9223372036854775808 as integer".to_string()]);
    assert_eq!(program.statements.len(), 0);
    let (program, errors) = parse("9223372036854775807");
    assert!(errors.is_empty());
    assert_eq!(program.to_string(), "9223372036854775807");
}

#[test]
fn unclosed_group_is_reported() {
    let (program, errors) = parse("(1 + 2");
    assert_eq!(errors, vec!["expected next token to be RPAREN, got EOF instead".to_string()]);
    assert_eq!(program.statements.len(), 0);
}

#[test]
fn if_else_and_function_rendering() {
    let (program, errors) = parse("if (a < b) { a } else { b }; fn(x, y) { x + y; }");
    check_parser_errors(&errors);
    assert_eq!(program.to_string(), "if(a < b) aelse bfn(x, y) (x + y)");
    assert_eq!(program.string(), "if(a < b) aelse b\nfn(x, y) (x + y)");
}

#[test]
fn token_literal_of_program_is_first_statement_token() {
    let (program, _) = parse("let a = 1; a");
    assert_eq!(program.token_literal(), "let");
    let empty = Program::new();
    assert_eq!(empty.token_literal(), "");
    assert_eq!(empty.to_string(), "");
}

#[test]
fn clone_node_copies_the_whole_tree() {
    let (mut program, errors) =
        parse("if (x) { let y = add(1, -x); } else { return fn(a) { a }; }");
    check_parser_errors(&errors);
    let node = NodeType::Statement(program.statements.remove(0));
    let copy = node.clone_node();
    assert_eq!(copy.to_string(), "ifx let y = add(1, (-x));else return fn(a) a;");
    assert_eq!(copy.to_string(), node.to_string());
    assert_eq!(copy.token_literal(), "if");
}

#[test]
fn block_left_open_by_end_of_input_is_reported() {
    let (program, errors) = parse("if (x) { x");
    assert_eq!(errors, vec!["expected next token to be RBRACE, got EOF instead".to_string()]);
    assert_eq!(program.statements.len(), 0);
    let (program, errors) = parse("fn() { 1");
    assert_eq!(errors, vec!["expected next token to be RBRACE, got EOF instead".to_string()]);
    assert_eq!(program.statements.len(), 0);
    let (program, errors) = parse("if (x) {");
    assert_eq!(errors, vec!["expected next token to be RBRACE, got EOF instead".to_string()]);
    assert_eq!(program.statements.len(), 0);
}
