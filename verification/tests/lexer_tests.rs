use sidelang::lexer::{get_next_token, parse_code, Token, TokenType};

fn tok(
    token_type: TokenType,
    lexeme: &str,
    error_msg: &str,
    start: usize,
    end: usize,
    line: usize,
) -> Token {
    Token {
        token_type,
        lexeme: String::from(lexeme),
        error_msg: String::from(error_msg),
        start,
        end,
        line,
    }
}

#[test]
fn test_const_int() {
    assert_eq!(
        get_next_token(&String::from("0"), 0, 0).0,
        tok(TokenType::ConstInt, "0", "", 0, 1, 0)
    );
    assert_eq!(
        get_next_token(&String::from("123"), 0, 0).0,
        tok(TokenType::ConstInt, "123", "", 0, 3, 0)
    );
    assert_eq!(
        get_next_token(&String::from("-123"), 0, 0).0,
        tok(TokenType::ConstInt, "-123", "", 0, 4, 0)
    );
}

#[test]
fn test_const_float() {
    assert_eq!(
        get_next_token(&String::from("0.0"), 0, 0).0,
        tok(TokenType::ConstFloat, "0.0", "", 0, 3, 0)
    );
    assert_eq!(
        get_next_token(&String::from("123.123"), 0, 0).0,
        tok(TokenType::ConstFloat, "123.123", "", 0, 7, 0)
    );
    assert_eq!(
        get_next_token(&String::from("-123.123"), 0, 0).0,
        tok(TokenType::ConstFloat, "-123.123", "", 0, 8, 0)
    );
    assert_eq!(
        get_next_token(&String::from("0.123"), 0, 0).0,
        tok(TokenType::ConstFloat, "0.123", "", 0, 5, 0)
    );
    assert_eq!(
        get_next_token(&String::from("0.123.123"), 0, 0).0,
        tok(
            TokenType::Error,
            "0.123",
            "Invalid float literal: Floats cannot contain multiple decimal points",
            0,
            5,
            0
        )
    );
}

#[test]
fn test_const_char() {
    assert_eq!(
        get_next_token(&String::from("'a'"), 0, 0).0,
        tok(TokenType::ConstChar, "'a'", "", 0, 3, 0)
    );
    assert_eq!(
        get_next_token(&String::from("'\\n'"), 0, 0).0,
        tok(TokenType::ConstChar, "'\\n'", "", 0, 4, 0)
    );
    assert_eq!(
        get_next_token(&String::from("'a"), 0, 0).0,
        tok(
            TokenType::Error,
            "'a",
            "Invalid char literal: Unterminated character constant",
            0,
            2,
            0
        )
    );
    assert_eq!(
        get_next_token(&String::from("'ab'"), 0, 0).0,
        tok(
            TokenType::Error,
            "'ab'",
            "Invalid char literal: Character constant too long",
            0,
            4,
            0
        )
    );
}

#[test]
fn test_const_string() {
    assert_eq!(
        get_next_token(&String::from("\"a\""), 0, 0).0,
        tok(TokenType::ConstString, "\"a\"", "", 0, 3, 0)
    );
    assert_eq!(
        get_next_token(&String::from("\"abc\""), 0, 0).0,
        tok(TokenType::ConstString, "\"abc\"", "", 0, 5, 0)
    );
    assert_eq!(
        get_next_token(&String::from("\"abcdef\""), 0, 0).0,
        tok(TokenType::ConstString, "\"abcdef\"", "", 0, 8, 0)
    );
    assert_eq!(
        get_next_token(&String::from("\"abcd efghijklmnopqrst uvwxyz\""), 0, 0).0,
        tok(
            TokenType::ConstString,
            "\"abcd efghijklmnopqrst uvwxyz\"",
            "",
            0,
            30,
            0
        )
    );
    assert_eq!(
        get_next_token(&String::from("\"abcdefghijklm\nopqrstuvwxyz\n0123456789\""), 0, 0).0,
        tok(
            TokenType::ConstString,
            "\"abcdefghijklm\nopqrstuvwxyz\n0123456789\"",
            "",
            0,
            39,
            0
        )
    );
    assert_eq!(
        get_next_token(&String::from("\"this is a test"), 0, 0).0,
        tok(
            TokenType::Error,
            "\"this is a test",
            "Invalid string literal: Unterminated string constant",
            0,
            15,
            0
        )
    );
}

#[test]
fn test_lex_const_int() {
    assert_eq!(
        get_next_token(&String::from("0"), 0, 0).0,
        tok(TokenType::ConstInt, "0", "", 0, 1, 0)
    );
    assert_eq!(
        get_next_token(&String::from("123"), 0, 0).0,
        tok(TokenType::ConstInt, "123", "", 0, 3, 0)
    );
    assert_eq!(
        get_next_token(&String::from("-123"), 0, 0).0,
        tok(TokenType::ConstInt, "-123", "", 0, 4, 0)
    );
}

#[test]
fn test_lex_const_float() {
    assert_eq!(
        get_next_token(&String::from("0.0"), 0, 0).0,
        tok(TokenType::ConstFloat, "0.0", "", 0, 3, 0)
    );
    assert_eq!(
        get_next_token(&String::from("123.123"), 0, 0).0,
        tok(TokenType::ConstFloat, "123.123", "", 0, 7, 0)
    );
    assert_eq!(
        get_next_token(&String::from("-123.123"), 0, 0).0,
        tok(TokenType::ConstFloat, "-123.123", "", 0, 8, 0)
    );
    assert_eq!(
        get_next_token(&String::from("0.123"), 0, 0).0,
        tok(TokenType::ConstFloat, "0.123", "", 0, 5, 0)
    );
    assert_eq!(
        get_next_token(&String::from("0.123.123"), 0, 0).0,
        tok(
            TokenType::Error,
            "0.123",
            "Invalid float literal: Floats cannot contain multiple decimal points",
            0,
            5,
            0
        )
    );
    assert_eq!(
        get_next_token(&String::from("1234."), 0, 0).0,
        tok(
            TokenType::Error,
            "1234.",
            "Invalid float literal: missing decimal portion",
            0,
            5,
            0
        )
    );
}

#[test]
fn test_lex_const_char() {
    assert_eq!(
        get_next_token(&String::from("'a'"), 0, 0).0,
        tok(TokenType::ConstChar, "'a'", "", 0, 3, 0)
    );
    assert_eq!(
        get_next_token(&String::from("'\\n'"), 0, 0).0,
        tok(TokenType::ConstChar, "'\\n'", "", 0, 4, 0)
    );
    assert_eq!(
        get_next_token(&String::from("'a"), 0, 0).0,
        tok(
            TokenType::Error,
            "'a",
            "Invalid char literal: Unterminated character constant",
            0,
            2,
            0
        )
    );
    assert_eq!(
        get_next_token(&String::from("'ab'"), 0, 0).0,
        tok(
            TokenType::Error,
            "'ab'",
            "Invalid char literal: Character constant too long",
            0,
            4,
            0
        )
    );
}

#[test]
fn test_lex_const_string() {
    assert_eq!(
        get_next_token(&String::from("\"a\""), 0, 0).0,
        tok(TokenType::ConstString, "\"a\"", "", 0, 3, 0)
    );
    assert_eq!(
        get_next_token(&String::from("\"abc\""), 0, 0).0,
        tok(TokenType::ConstString, "\"abc\"", "", 0, 5, 0)
    );
    assert_eq!(
        get_next_token(&String::from("\"abcdef\""), 0, 0).0,
        tok(TokenType::ConstString, "\"abcdef\"", "", 0, 8, 0)
    );
    assert_eq!(
        get_next_token(&String::from("\"abcd efghijklmnopqrst uvwxyz\""), 0, 0).0,
        tok(
            TokenType::ConstString,
            "\"abcd efghijklmnopqrst uvwxyz\"",
            "",
            0,
            30,
            0
        )
    );
    assert_eq!(
        get_next_token(&String::from("\"abcdefghijklm\nopqrstuvwxyz\n0123456789\""), 0, 0).0,
        tok(
            TokenType::ConstString,
            "\"abcdefghijklm\nopqrstuvwxyz\n0123456789\"",
            "",
            0,
            39,
            0
        )
    );
    assert_eq!(
        get_next_token(&String::from("\"this is a test"), 0, 0).0,
        tok(
            TokenType::Error,
            "\"this is a test",
            "Invalid string literal: Unterminated string constant",
            0,
            15,
            0
        )
    );
}

#[test]
fn test_lex_instr() {
    assert_eq!(
        get_next_token(&String::from("instr"), 0, 0).0,
        tok(TokenType::Instr, "instr", "", 0, 5, 0)
    );
    assert_eq!(
        get_next_token(&String::from("true"), 0, 0).0,
        tok(TokenType::Instr, "true", "", 0, 4, 0)
    );
    assert_eq!(
        get_next_token(&String::from("-"), 0, 0).0,
        tok(TokenType::Instr, "-", "", 0, 1, 0)
    );
    assert_eq!(
        get_next_token(&String::from("+"), 0, 0).0,
        tok(TokenType::Instr, "+", "", 0, 1, 0)
    );
    assert_eq!(
        get_next_token(&String::from("dup"), 0, 0).0,
        tok(TokenType::Instr, "dup", "", 0, 3, 0)
    );
    assert_eq!(
        get_next_token(&String::from("in"), 0, 0).0,
        tok(TokenType::Instr, "in", "", 0, 2, 0)
    );
    assert_eq!(
        get_next_token(&String::from("this_isnt_an_instr_but_it_should_work"), 0, 0).0,
        tok(
            TokenType::Instr,
            "this_isnt_an_instr_but_it_should_work",
            "",
            0,
            37,
            0
        )
    );
}

#[test]
fn test_lex_single_char_tokens() {
    assert_eq!(
        get_next_token(&String::from("!"), 0, 0).0,
        tok(TokenType::Bang, "!", "", 0, 1, 0)
    );
    assert_eq!(
        get_next_token(&String::from("~"), 0, 0).0,
        tok(TokenType::Tilde, "~", "", 0, 1, 0)
    );
    assert_eq!(
        get_next_token(&String::from(","), 0, 0).0,
        tok(TokenType::Comma, ",", "", 0, 1, 0)
    );
    assert_eq!(
        get_next_token(&String::from("{"), 0, 0).0,
        tok(TokenType::LeftCurly, "{", "", 0, 1, 0)
    );
    assert_eq!(
        get_next_token(&String::from("}"), 0, 0).0,
        tok(TokenType::RightCurly, "}", "", 0, 1, 0)
    );
    assert_eq!(
        get_next_token(&String::from("["), 0, 0).0,
        tok(TokenType::LeftSquare, "[", "", 0, 1, 0)
    );
    assert_eq!(
        get_next_token(&String::from("]"), 0, 0).0,
        tok(TokenType::RightSquare, "]", "", 0, 1, 0)
    );
}

#[test]
fn test_lex_multiple_tokens() {
    let expected = vec![
        tok(TokenType::Bang, "!", "", 0, 1, 0),
        tok(TokenType::Tilde, "~", "", 1, 2, 0),
        tok(TokenType::Comma, ",", "", 2, 3, 0),
        tok(TokenType::LeftCurly, "{", "", 3, 4, 0),
        tok(TokenType::RightCurly, "}", "", 4, 5, 0),
        tok(TokenType::LeftSquare, "[", "", 5, 6, 0),
        tok(TokenType::RightSquare, "]", "", 6, 7, 0),
    ];
    let input_str = String::from("!~,{}[]");
    assert_eq!(expected, parse_code(&input_str));

    let expected = vec![
        tok(TokenType::LeftSquare, "[", "", 0, 1, 0),
        tok(TokenType::ConstInt, "1", "", 1, 2, 0),
        tok(TokenType::Comma, ",", "", 2, 3, 0),
        tok(TokenType::ConstFloat, "2.2", "", 4, 7, 0),
        tok(TokenType::Comma, ",", "", 7, 8, 0),
        tok(TokenType::ConstChar, "'3'", "", 9, 12, 0),
        tok(TokenType::Comma, ",", "", 12, 13, 0),
        tok(TokenType::Instr, "true", "", 14, 18, 0),
        tok(TokenType::Comma, ",", "", 18, 19, 0),
        tok(TokenType::Instr, "false", "", 20, 25, 0),
        tok(TokenType::Comma, ",", "", 25, 26, 0),
        tok(TokenType::LeftSquare, "[", "", 27, 28, 0),
        tok(TokenType::RightSquare, "]", "", 28, 29, 0),
        tok(TokenType::Comma, ",", "", 29, 30, 0),
        tok(TokenType::LeftCurly, "{", "", 31, 32, 0),
        tok(TokenType::RightCurly, "}", "", 32, 33, 0),
        tok(TokenType::Comma, ",", "", 33, 34, 0),
        tok(TokenType::ConstString, "\"\"", "", 35, 37, 0),
        tok(TokenType::RightSquare, "]", "", 37, 38, 0),
    ];
    let input_str = String::from("[1, 2.2, '3', true, false, [], {}, \"\"]");
    assert_eq!(expected, parse_code(&input_str));
}

#[test]
fn test_lex_hello_world() {
    let expected = vec![
        tok(TokenType::ConstString, "\"Hello World!\"", "", 0, 15, 0),
        tok(TokenType::Tilde, "~", "", 15, 16, 0),
        tok(TokenType::Instr, "ow", "", 17, 19, 0),
        tok(TokenType::Tilde, "~", "", 19, 20, 0),
    ];
    let hello_world = String::from("\"Hello World!\"~ ow~");
    assert_eq!(expected, parse_code(&hello_world));
}

#[test]
fn test_lex_comments() {
    let input_str = String::from("# This is a comment\n# This is another #comment\n");
    let expected: Vec<Token> = Vec::new();
    assert_eq!(expected, parse_code(&input_str));
}

#[test]
fn test_lex_comments_and_code() {
    let input_str =
        String::from("# This is a comment\nthis is some code\n# This is another #comment\n");
    let expected = vec![
        tok(TokenType::Instr, "this", "", 19, 24, 1),
        tok(TokenType::Instr, "is", "", 25, 27, 1),
        tok(TokenType::Instr, "some", "", 28, 32, 1),
        tok(TokenType::Instr, "code", "", 33, 38, 1),
    ];
    assert_eq!(expected, parse_code(&input_str));
}
