use monkey::ast::{Expression, NodeType, Statement};
use monkey::evaluator::{eval, eval_program, get_null_object};
use monkey::lexer::Lexer;
use monkey::object::{Boolean, Environment, Integer, Object, ReturnValue};
use monkey::parser::Parser;

fn test_eval(input: &str) -> Object {
    let mut env = Environment::new();
    eval_in(input, &mut env)
}

fn eval_in(input: &str, env: &mut Environment) -> Object {
    let l = Lexer::new(input.to_string());
    let mut p = Parser::new(l);
    let program = p.parse_program();
    assert!(p.errors().is_empty(), "parser errors: {:?}", p.errors());
    eval_program(&program, env)
}

fn test_integer_object(obj: &Object, expected: i64) {
    match obj {
        Object::Integer(i) => assert_eq!(i.value, expected),
        _ => panic!("object is not Integer. got={}", obj.inspect()),
    }
}

fn test_boolean_object(obj: &Object, expected: bool) {
    match obj {
        Object::Boolean(b) => assert_eq!(b.value, expected),
        _ => panic!("object is not Boolean. got={}", obj.inspect()),
    }
}

fn test_error_object(obj: &Object, expected: &str) {
    match obj {
        Object::Error(e) => assert_eq!(e.message, expected),
        _ => panic!("no error object returned. got={}({})", obj.type_obj(), obj.inspect()),
    }
}

#[test]
fn test_eval_integer_expression() {
    let tests = vec![
        ("5", 5_i64),
        ("10", 10_i64),
        ("-5", -5),
        ("5+5+5-10", 5),
        ("20+2* -10", 0),
        ("2*(5+10)", 30),
        ("(5+10*2+15/3)*2+ -10", 50),
        ("2*2*2*2", 16),
        ("3*(3*3)+1", 28),
    ];
    for (input, expected) in tests {
        let evaluated = test_eval(input);
        test_integer_object(&evaluated, expected);
    }
}

#[test]
fn test_eval_boolean_expression() {
    let tests = vec![
        ("true", true),
        ("false", false),
        ("1>1", false),
        ("1!=1", false),
        ("1!=2", true),
        ("1<2", true),
    ];
    for (input, expected) in tests {
        let evaluated = test_eval(input);
        test_boolean_object(&evaluated, expected);
    }
}

#[test]
fn test_bang_operator() {
    let tests = vec![
        ("!true", false),
        ("!false", true),
        ("!5", false),
        ("!!true", true),
        ("!!false", false),
    ];
    for (input, expected) in tests {
        let evaluated = test_eval(input);
        test_boolean_object(&evaluated, expected);
    }
}

#[test]
fn test_eval_if_else_expression() {
    let tests = vec![
        ("if (true) { 10 }", Some(10)),
        ("if (false) { 10 }", None),
        ("if (1) { 10 }", Some(10)),
        ("if (1 < 2) { 10 }", Some(10)),
        ("if (1 > 2) { 10 }", None),
        ("if (1 > 2) { 10 } else { 20 }", Some(20)),
        ("if (1 < 2) { 10 } else { 20 }", Some(10)),
    ];
    for (input, expected) in tests {
        let evaluated = test_eval(input);
        match expected {
            Some(value) => test_integer_object(&evaluated, value),
            None => assert_eq!(evaluated.type_obj(), "NULL", "object is not NULL. got={}", evaluated.inspect()),
        }
    }
}

#[test]
fn evaluator_test_test_return_statements() {
    let tests = vec![
        ("return 10;", 10),
        ("return 10; 9", 10),
        ("return 2 * 5; 9;", 10),
        ("9; return 2 * 5; 9;", 10),
    ];
    for (input, expected) in tests {
        let evaluated = test_eval(input);
        test_integer_object(&evaluated, expected);
    }
}

#[test]
fn test_error_handling() {
    let tests = vec![
        ("5+true", "type mismatch: INTEGER + BOOLEAN"),
        ("5 + true; 5;", "type mismatch: INTEGER + BOOLEAN"),
        ("-true", "unknown operator: -BOOLEAN"),
        ("true + false;", "unknown operator: BOOLEAN + BOOLEAN"),
        ("5; true + false; 5", "unknown operator: BOOLEAN + BOOLEAN"),
        ("if (10 > 1) { true + false; }", "unknown operator: BOOLEAN + BOOLEAN"),
        (
            "if (10 > 1) {
              if (10 > 1) {
                return true + false;
              }
              return 1;
            } ",
            "unknown operator: BOOLEAN + BOOLEAN",
        ),
    ];
    for (input, expected_msg) in tests {
        let evaluated = test_eval(input);
        assert_eq!(evaluated.type_obj(), "ERROR");
        test_error_object(&evaluated, expected_msg);
    }
}

#[test]
fn let_bindings_persist_across_inputs() {
    let mut env = Environment::new();
    test_eval_null(eval_in("let a = 5;", &mut env));
    test_integer_object(&eval_in("let b = a * 2; b + a", &mut env), 15);
    test_eval_null(eval_in("let a = true;", &mut env));
    test_boolean_object(&eval_in("a", &mut env), true);
    test_integer_object(&eval_in("if (a) { let c = 1; } c", &mut env), 1);
    test_integer_object(&env.get("b").unwrap().clone_object(), 10);
}

fn test_eval_null(obj: Object) {
    assert_eq!(obj.type_obj(), "NULL");
    assert_eq!(obj.inspect(), "null");
}


#[test]
fn unknown_identifier_is_an_error() {
    test_error_object(&test_eval("foobar"), "identifier not found: foobar");
    test_error_object(&test_eval("let x = y; 5"), "identifier not found: y");
}

#[test]
fn error_inside_return_and_let_is_not_wrapped() {
    test_error_object(&test_eval("return -true; 5"), "unknown operator: -BOOLEAN");
    let mut env = Environment::new();
    test_error_object(&eval_in("let x = 1 + false;", &mut env), "type mismatch: INTEGER + BOOLEAN");
    assert!(env.get("x").is_none());
    test_error_object(
        &test_eval("if (if (true) { 1 == true }) { 1 } else { 2 }"),
        "type mismatch: INTEGER == BOOLEAN",
    );
}

#[test]
fn integer_arithmetic_edges() {
    test_integer_object(&test_eval("7 / 2"), 3);
    test_integer_object(&test_eval("-7 / 2"), -3);
    test_integer_object(&test_eval("7 / -2"), -3);
    test_integer_object(&test_eval("9223372036854775807"), i64::MAX);
    test_integer_object(&test_eval("-9223372036854775807 - 1"), i64::MIN);
    test_error_object(&test_eval("5 / 0"), "division by zero");
    test_error_object(&test_eval("9223372036854775807 + 1"), "integer overflow");
    test_error_object(&test_eval("-9223372036854775807 - 2"), "integer overflow");
    test_error_object(&test_eval("(-9223372036854775807 - 1) / -1"), "integer overflow");
    test_error_object(&test_eval("-(-9223372036854775807 - 1)"), "integer overflow");
    test_error_object(&test_eval("4611686018427387904 * 2"), "integer overflow");
}

#[test]
fn comparisons_and_boolean_operators() {
    test_boolean_object(&test_eval("1 == 1"), true);
    test_boolean_object(&test_eval("true == false"), false);
    test_boolean_object(&test_eval("true != false"), true);
    test_boolean_object(&test_eval("(1 < 2) == true"), true);
    test_error_object(&test_eval("true < false"), "unknown operator: BOOLEAN < BOOLEAN");
    test_error_object(&test_eval("if (false) { 1 } == 1"), "type mismatch: NULL == INTEGER");
    test_error_object(&test_eval("if (false) { 1 } + if (false) { 1 }"), "unknown operator: NULL + NULL");
}

#[test]
fn truthiness_of_null_and_integers() {
    test_boolean_object(&test_eval("!if (false) { 1 }"), true);
    test_integer_object(&test_eval("if (0) { 1 } else { 2 }"), 1);
    test_integer_object(&test_eval("if (if (false) { 1 }) { 1 } else { 2 }"), 2);
}

#[test]
fn functions_and_calls_evaluate_to_null() {
    test_eval_null(test_eval("fn(x) { x }"));
    test_eval_null(test_eval("add(1, 2)"));
    test_eval_null(test_eval(""));
}

#[test]
fn rendering_of_values() {
    assert_eq!(test_eval("-1234").inspect(), "-1234");
    assert_eq!(test_eval("0").inspect(), "0");
    assert_eq!(test_eval("-9223372036854775807 - 1").inspect(), "-9223372036854775808");
    assert_eq!(test_eval("true").inspect(), "true");
    assert_eq!(test_eval("1 > 2").inspect(), "false");
    assert_eq!(test_eval("5 + true").inspect(), "ERROR: type mismatch: INTEGER + BOOLEAN");
    assert_eq!(Object::Integer(Integer::new(42)).type_obj(), "INTEGER");
    assert_eq!(Object::Boolean(Boolean::new(true)).type_obj(), "BOOLEAN");
    let wrapped = Object::ReturnValue(ReturnValue::new(Object::Integer(Integer::new(7))));
    assert_eq!(wrapped.type_obj(), "RETURN_VALUE");
    assert_eq!(wrapped.inspect(), "7");
    match wrapped {
        Object::ReturnValue(r) => test_integer_object(&r.take_value(), 7),
        _ => unreachable!(),
    }
    assert_eq!(get_null_object().inspect(), "null");
}

#[test]
fn eval_on_single_nodes() {
    let l = Lexer::new("let q = 3 * 4; q - 2".to_string());
    let mut p = Parser::new(l);
    let mut program = p.parse_program();
    let mut env = Environment::new();
    let second = program.statements.remove(1);
    let first = program.statements.remove(0);
    test_eval_null(eval(&NodeType::Statement(first), &mut env));
    let expr = match second {
        Statement::Expression(s) => s.expression,
        _ => panic!("not an expression statement"),
    };
    match &expr {
        Expression::Infix(_) => {}
        _ => panic!("not an infix expression"),
    }
    test_integer_object(&eval(&NodeType::Expression(expr), &mut env), 10);
}

#[test]
fn set_returns_the_value_just_bound() {
    let mut env = Environment::new();
    match env.set("a", Object::Integer(Integer::new(1))) {
        Some(o) => test_integer_object(o, 1),
        None => panic!("set returned nothing"),
    }
    match env.set("a", Object::Boolean(Boolean::new(false))) {
        Some(o) => test_boolean_object(o, false),
        None => panic!("set returned nothing"),
    }
    test_boolean_object(env.get("a").unwrap(), false);
    assert!(env.get("b").is_none());
}

#[test]
fn identifiers_with_digits_evaluate() {
    let mut env = Environment::new();
    test_integer_object(&eval_in("let x1 = 4; let x2 = x1 * 2; x2 - x1", &mut env), 4);
}
