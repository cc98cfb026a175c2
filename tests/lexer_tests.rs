use monkey::lexer::Lexer;
use monkey::token::TokenType;

fn assert_tokens(input: &str, expected: &[(TokenType, &str)]) {
    let mut l = Lexer::new(input.to_string());
    for (expected_type, expected_literal) in expected {
        let tok = l.next_token();
        assert_eq!(tok.token_type, *expected_type);
        assert_eq!(tok.literal, *expected_literal);
    }
}

#[test]
fn test_next_token() {
    let input = "=+(){},;";
    let tests = vec![
        (TokenType::ASSIGN, "="),
        (TokenType::PLUS, "+"),
        (TokenType::LPAREN, "("),
        (TokenType::RPAREN, ")"),
        (TokenType::LBRACE, "{"),
        (TokenType::RBRACE, "}"),
        (TokenType::COMMA, ","),
        (TokenType::SEMICOLON, ";"),
        (TokenType::EOF, ""),
    ];
    let mut l = Lexer::new(input.to_string());
    for (expected_type, expected_literal) in tests {
        let tok = l.next_token();
        assert_eq!(tok.token_type, expected_type);
        assert_eq!(tok.literal, expected_literal);
    }
}

#[test]
fn test_next_token_2() {
    let input = r#"
    let five = 5;
    let ten = 10;

    let add = fn(x, y) {
      x + y;
    };

    let result = add(five, ten);
    !-/*5;
    5 < 10 > 5;

    if (5 < 10) {
    return true;
    } else {
    return false;
    }

    10 == 10;
    10 != 9;
    "foobar"
    "foo bar"
    [1, 2];
    {"foo": "bar"}
    "#;

    let tests = vec![
        (TokenType::LET, "let"),
        (TokenType::IDENT, "five"),
        (TokenType::ASSIGN, "="),
        (TokenType::INT, "5"),
        (TokenType::SEMICOLON, ";"),
        (TokenType::LET, "let"),
        (TokenType::IDENT, "ten"),
        (TokenType::ASSIGN, "="),
        (TokenType::INT, "10"),
        (TokenType::SEMICOLON, ";"),
        (TokenType::LET, "let"),
        (TokenType::IDENT, "add"),
        (TokenType::ASSIGN, "="),
        (TokenType::FN, "fn"),
        (TokenType::LPAREN, "("),
        (TokenType::IDENT, "x"),
        (TokenType::COMMA, ","),
        (TokenType::IDENT, "y"),
        (TokenType::RPAREN, ")"),
        (TokenType::LBRACE, "{"),
        (TokenType::IDENT, "x"),
        (TokenType::PLUS, "+"),
        (TokenType::IDENT, "y"),
        (TokenType::SEMICOLON, ";"),
        (TokenType::RBRACE, "}"),
        (TokenType::SEMICOLON, ";"),
        (TokenType::LET, "let"),
        (TokenType::IDENT, "result"),
        (TokenType::ASSIGN, "="),
        (TokenType::IDENT, "add"),
        (TokenType::LPAREN, "("),
        (TokenType::IDENT, "five"),
        (TokenType::COMMA, ","),
        (TokenType::IDENT, "ten"),
        (TokenType::RPAREN, ")"),
        (TokenType::SEMICOLON, ";"),
        (TokenType::BANG, "!"),
        (TokenType::MINUS, "-"),
        (TokenType::SLASH, "/"),
        (TokenType::ASTERISK, "*"),
        (TokenType::INT, "5"),
        (TokenType::SEMICOLON, ";"),
        (TokenType::INT, "5"),
        (TokenType::LT, "<"),
        (TokenType::INT, "10"),
        (TokenType::GT, ">"),
        (TokenType::INT, "5"),
        (TokenType::SEMICOLON, ";"),
        (TokenType::IF, "if"),
        (TokenType::LPAREN, "("),
        (TokenType::INT, "5"),
        (TokenType::LT, "<"),
        (TokenType::INT, "10"),
        (TokenType::RPAREN, ")"),
        (TokenType::LBRACE, "{"),
        (TokenType::RETURN, "return"),
        (TokenType::TRUE, "true"),
        (TokenType::SEMICOLON, ";"),
        (TokenType::RBRACE, "}"),
        (TokenType::ELSE, "else"),
        (TokenType::LBRACE, "{"),
        (TokenType::RETURN, "return"),
        (TokenType::FALSE, "false"),
        (TokenType::SEMICOLON, ";"),
        (TokenType::RBRACE, "}"),
        (TokenType::INT, "10"),
        (TokenType::EQ, "=="),
        (TokenType::INT, "10"),
        (TokenType::SEMICOLON, ";"),
        (TokenType::INT, "10"),
        (TokenType::NOTEQ, "!="),
        (TokenType::INT, "9"),
        (TokenType::SEMICOLON, ";"),
        (TokenType::STRING, "foobar"),
        (TokenType::STRING, "foo bar"),
        (TokenType::LBRACKET, "["),
        (TokenType::INT, "1"),
        (TokenType::COMMA, ","),
        (TokenType::INT, "2"),
        (TokenType::RBRACKET, "]"),
        (TokenType::SEMICOLON, ";"),
        (TokenType::LBRACE, "{"),
        (TokenType::STRING, "foo"),
        (TokenType::COLON, ":"),
        (TokenType::STRING, "bar"),
        (TokenType::RBRACE, "}"),
        (TokenType::EOF, ""),
    ];

    let mut l = Lexer::new(input.to_string());
    for (expected_type, expected_literal) in tests {
        let tok = l.next_token();
        assert_eq!(tok.token_type, expected_type);
        assert_eq!(tok.literal, expected_literal);
    }
}

#[test]
fn operators_without_spaces_then_end_of_input_forever() {
    assert_tokens(
        "=+-*/<>(){},;:[]==!=!",
        &[
            (TokenType::ASSIGN, "="),
            (TokenType::PLUS, "+"),
            (TokenType::MINUS, "-"),
            (TokenType::ASTERISK, "*"),
            (TokenType::SLASH, "/"),
            (TokenType::LT, "<"),
            (TokenType::GT, ">"),
            (TokenType::LPAREN, "("),
            (TokenType::RPAREN, ")"),
            (TokenType::LBRACE, "{"),
            (TokenType::RBRACE, "}"),
            (TokenType::COMMA, ","),
            (TokenType::SEMICOLON, ";"),
            (TokenType::COLON, ":"),
            (TokenType::LBRACKET, "["),
            (TokenType::RBRACKET, "]"),
            (TokenType::EQ, "=="),
            (TokenType::NOTEQ, "!="),
            (TokenType::BANG, "!"),
            (TokenType::EOF, ""),
            (TokenType::EOF, ""),
            (TokenType::EOF, ""),
        ],
    );
}

#[test]
fn maximal_munch_two_character_operators() {
    assert_tokens("==", &[(TokenType::EQ, "=="), (TokenType::EOF, "")]);
    assert_tokens("!=", &[(TokenType::NOTEQ, "!="), (TokenType::EOF, "")]);
    assert_tokens("===", &[(TokenType::EQ, "=="), (TokenType::ASSIGN, "="), (TokenType::EOF, "")]);
    assert_tokens("!!", &[(TokenType::BANG, "!"), (TokenType::BANG, "!"), (TokenType::EOF, "")]);
}

#[test]
fn empty_and_blank_input_give_end_of_input() {
    assert_tokens("", &[(TokenType::EOF, ""), (TokenType::EOF, "")]);
    assert_tokens(" \t\r\n ", &[(TokenType::EOF, ""), (TokenType::EOF, "")]);
}

#[test]
fn keywords_are_case_sensitive_and_words_take_underscores() {
    assert_tokens(
        "Let let_x iffy fn_ return",
        &[
            (TokenType::IDENT, "Let"),
            (TokenType::IDENT, "let_x"),
            (TokenType::IDENT, "iffy"),
            (TokenType::IDENT, "fn_"),
            (TokenType::RETURN, "return"),
            (TokenType::EOF, ""),
        ],
    );
}

#[test]
fn digits_then_letters_and_unknown_characters() {
    assert_tokens(
        "12ab @ \"open",
        &[
            (TokenType::INT, "12"),
            (TokenType::IDENT, "ab"),
            (TokenType::ILLEGAL, "@"),
            (TokenType::STRING, "open"),
            (TokenType::EOF, ""),
        ],
    );
}

#[test]
fn identifiers_continue_through_digits() {
    assert_tokens(
        "x1 foo_2",
        &[(TokenType::IDENT, "x1"), (TokenType::IDENT, "foo_2"), (TokenType::EOF, "")],
    );
    assert_tokens(
        "_a9b let2 if",
        &[
            (TokenType::IDENT, "_a9b"),
            (TokenType::IDENT, "let2"),
            (TokenType::IF, "if"),
            (TokenType::EOF, ""),
        ],
    );
}
