use sidelang::lexer::{get_next_token, tokenize_code};
use sidelang::parser::{parse_exec, parse_list, parse_literal, parse_op, parse_tokens};
use sidelang::values::{Exec, Literal, Op};

#[test]
fn test_par_hello_world() {
    let input_str = String::from("\"Hello World!\"~ ow!");
    let tokens = tokenize_code(&input_str);
    let code = parse_tokens(&tokens).unwrap();
    let expected = vec![
        Exec::Right(Op::Literal(Literal::List(vec![
            Literal::Char('H'),
            Literal::Char('e'),
            Literal::Char('l'),
            Literal::Char('l'),
            Literal::Char('o'),
            Literal::Char(' '),
            Literal::Char('W'),
            Literal::Char('o'),
            Literal::Char('r'),
            Literal::Char('l'),
            Literal::Char('d'),
            Literal::Char('!'),
        ]))),
        Exec::Left(Op::Instruction(String::from("ow"))),
    ];
    assert_eq!(code, expected);
}

#[test]
#[should_panic(expected = "Parser Error: Unexpected token type")]
fn test_par_invalid_literal() {
    let input_str = String::from("ow");
    let token = get_next_token(&input_str, 0, 0).0;
    parse_literal(&token).unwrap();
}

#[test]
fn test_par_ints() {
    let ints = vec![
        String::from("1"),
        String::from("-1"),
        String::from("0"),
        String::from("-0"),
        String::from("123"),
        String::from("-123"),
        String::from("123456789"),
        String::from("-123456789"),
    ];
    let expected = vec![
        Literal::Int(1),
        Literal::Int(-1),
        Literal::Int(0),
        Literal::Int(0),
        Literal::Int(123),
        Literal::Int(-123),
        Literal::Int(123456789),
        Literal::Int(-123456789),
    ];
    for (i, input) in ints.iter().enumerate() {
        let token = get_next_token(input, 0, 0).0;
        let literal = parse_literal(&token).unwrap();
        assert_eq!(expected[i], literal);
    }
}

#[test]
fn test_par_floats() {
    let floats = vec![
        String::from("1.0"),
        String::from("-1.0"),
        String::from("0.0"),
        String::from("-0.0"),
        String::from("123.0"),
        String::from("-123.0"),
        String::from("123456789.0"),
        String::from("-123456789.0"),
        String::from("1.23456789"),
        String::from("-1.23456789"),
    ];
    let expected = vec![
        Literal::Float((1.0f64).to_bits()),
        Literal::Float((-1.0f64).to_bits()),
        Literal::Float((0.0f64).to_bits()),
        Literal::Float((-0.0f64).to_bits()),
        Literal::Float((123.0f64).to_bits()),
        Literal::Float((-123.0f64).to_bits()),
        Literal::Float((123456789.0f64).to_bits()),
        Literal::Float((-123456789.0f64).to_bits()),
        Literal::Float((1.23456789f64).to_bits()),
        Literal::Float((-1.23456789f64).to_bits()),
    ];
    for (i, input) in floats.iter().enumerate() {
        let token = get_next_token(input, 0, 0).0;
        let literal = parse_literal(&token).unwrap();
        assert_eq!(expected[i], literal);
    }
}

#[test]
fn test_par_chars() {
    let chars = vec![
        String::from("'a'"),
        String::from("'X'"),
        String::from("'0'"),
        String::from("'!'"),
        String::from("'\\\"'"),
        String::from("'\\''"),
        String::from("'\\n'"),
        String::from("'\\t'"),
        String::from("'\\r'"),
        String::from("'\\0'"),
        String::from("'\\\\'"),
    ];
    let expected = vec![
        Literal::Char('a'),
        Literal::Char('X'),
        Literal::Char('0'),
        Literal::Char('!'),
        Literal::Char('"'),
        Literal::Char('\''),
        Literal::Char('\n'),
        Literal::Char('\t'),
        Literal::Char('\r'),
        Literal::Char('\0'),
        Literal::Char('\\'),
    ];
    for (i, input) in chars.iter().enumerate() {
        let token = get_next_token(input, 0, 0).0;
        let literal = parse_literal(&token).unwrap();
        assert_eq!(expected[i], literal);
    }
}

#[test]
fn test_par_strings() {
    let strings = vec![
        String::from("\"Hello World!\""),
        String::from("\"\""),
        String::from("\"Hello\""),
        String::from("\"\\\"\""),
        String::from("\"\\'\\'\""),
        String::from("\"Hello\\nWorld!\""),
        String::from("\"Hello\\n\\tWorld!\""),
    ];
    let expected_texts = vec![
        String::from("Hello World!"),
        String::from(""),
        String::from("Hello"),
        String::from("\""),
        String::from("''"),
        String::from("Hello\nWorld!"),
        String::from("Hello\n\tWorld!"),
    ];
    for (text, input) in expected_texts.iter().zip(strings.iter()) {
        let expect = Literal::List(text.chars().map(Literal::Char).collect::<Vec<Literal>>());
        let token = get_next_token(input, 0, 0).0;
        let literal = parse_literal(&token).unwrap();
        assert_eq!(expect, literal);
    }
}

#[test]
#[should_panic(expected = "Parser Error: Unrecognized character escape sequence")]
fn test_par_invalid_char_escapes_for_char() {
    let input_str = String::from("'\\a'");
    let token = get_next_token(&input_str, 0, 0).0;
    parse_literal(&token).unwrap();
}

#[test]
#[should_panic(expected = "Parser Error: Unrecognized character escape sequence")]
fn test_par_invalid_char_escapes_for_string() {
    let input_str = String::from("\"\\a\"");
    let token = get_next_token(&input_str, 0, 0).0;
    parse_literal(&token).unwrap();
}

#[test]
#[should_panic(expected = "Parsing Error: Unclosed list")]
fn test_par_invalid_list() {
    let input_str = String::from("[1, 2, 3");
    let tokens = tokenize_code(&input_str);
    parse_list(&tokens, 0, false).unwrap();
}

#[test]
#[should_panic(expected = "Parsing Error: Unclosed list")]
fn test_par_invalid_nested_list() {
    let input_str = String::from("[1, [2, 3");
    let tokens = tokenize_code(&input_str);
    parse_list(&tokens, 0, false).unwrap();
}

#[test]
fn test_par_list() {
    let input_str = String::from("[1, 2, 3]");
    let tokens = tokenize_code(&input_str);
    let (list, _) = parse_list(&tokens, 0, false).unwrap();
    let expected = Literal::List(vec![Literal::Int(1), Literal::Int(2), Literal::Int(3)]);
    assert_eq!(expected, list);
}

#[test]
fn test_par_nested_list_end() {
    let input_str = String::from("[1, 4, [2, 3]]");
    let tokens = tokenize_code(&input_str);
    let (list, _) = parse_list(&tokens, 0, false).unwrap();
    let expected = Literal::List(vec![
        Literal::Int(1),
        Literal::Int(4),
        Literal::List(vec![Literal::Int(2), Literal::Int(3)]),
    ]);
    assert_eq!(expected, list);
}

#[test]
fn test_par_nested_list_middle() {
    let input_str = String::from("[1, [2, 3], 4]");
    let tokens = tokenize_code(&input_str);
    let (list, _) = parse_list(&tokens, 0, false).unwrap();
    let expected = Literal::List(vec![
        Literal::Int(1),
        Literal::List(vec![Literal::Int(2), Literal::Int(3)]),
        Literal::Int(4),
    ]);
    assert_eq!(expected, list);
}

#[test]
fn test_par_nested_list_start() {
    let input_str = String::from("[[2, 3], 1, 4]");
    let tokens = tokenize_code(&input_str);
    let (list, _) = parse_list(&tokens, 0, false).unwrap();
    let expected = Literal::List(vec![
        Literal::List(vec![Literal::Int(2), Literal::Int(3)]),
        Literal::Int(1),
        Literal::Int(4),
    ]);
    assert_eq!(expected, list);
}

#[test]
fn test_par_nested_list_multiple() {
    let input_str = String::from("[[2, 3], [1, 4]]");
    let tokens = tokenize_code(&input_str);
    let (list, _) = parse_list(&tokens, 0, false).unwrap();
    let expected = Literal::List(vec![
        Literal::List(vec![Literal::Int(2), Literal::Int(3)]),
        Literal::List(vec![Literal::Int(1), Literal::Int(4)]),
    ]);
    assert_eq!(expected, list);
}

#[test]
fn test_par_nested_list_strings() {
    let input_str = String::from("[[\"hello\", \"world\"], [\"[this,isnt]\", \"[a,list]\"]]");
    let tokens = tokenize_code(&input_str);
    let (list, _) = parse_list(&tokens, 0, false).unwrap();
    let chars = |s: &str| Literal::List(s.chars().map(Literal::Char).collect::<Vec<Literal>>());
    let expected = Literal::List(vec![
        Literal::List(vec![chars("hello"), chars("world")]),
        Literal::List(vec![chars("[this,isnt]"), chars("[a,list]")]),
    ]);
    assert_eq!(expected, list);
}

#[test]
fn test_par_list_readme() {
    let input_str = String::from("[1.2, 'a', [true, 3], -4]");
    let tokens = tokenize_code(&input_str);
    let (list, _) = parse_list(&tokens, 0, false).unwrap();
    let expected = Literal::List(vec![
        Literal::Float((1.2f64).to_bits()),
        Literal::Char('a'),
        Literal::List(vec![Literal::Bool(true), Literal::Int(3)]),
        Literal::Int(-4),
    ]);
    assert_eq!(expected, list);
}

#[test]
fn test_par_op() {
    let input_strs = vec![
        String::from("1"),
        String::from("\"hello\""),
        String::from("[1, 2, 3]"),
        String::from("true"),
        String::from("false"),
        String::from("ol"),
        String::from("hello"),
        String::from("+"),
    ];
    let expected = vec![
        Op::Literal(Literal::Int(1)),
        Op::Literal(Literal::List(vec![
            Literal::Char('h'),
            Literal::Char('e'),
            Literal::Char('l'),
            Literal::Char('l'),
            Literal::Char('o'),
        ])),
        Op::Literal(Literal::List(vec![
            Literal::Int(1),
            Literal::Int(2),
            Literal::Int(3),
        ])),
        Op::Literal(Literal::Bool(true)),
        Op::Literal(Literal::Bool(false)),
        Op::Instruction(String::from("ol")),
        Op::Instruction(String::from("hello")),
        Op::Instruction(String::from("+")),
    ];
    for (input_str, expect) in input_strs.iter().zip(expected.iter()) {
        let tokens = tokenize_code(input_str);
        let (op, _) = parse_op(&tokens, 0).unwrap();
        assert_eq!(expect, &op);
    }
}

#[test]
#[should_panic]
fn test_par_exec_fail() {
    let input_str = String::from("[1, 2, 3]not");
    let tokens = tokenize_code(&input_str);
    parse_exec(&tokens, 0).unwrap();
}

#[test]
fn test_par_exec_left() {
    let input_strings = vec![
        String::from("1!"),
        String::from("\"hello\"!"),
        String::from("[1, 2, 3]!"),
        String::from("true!"),
        String::from("false!"),
        String::from("ol!"),
        String::from("hello!"),
        String::from("+!"),
    ];
    let expected = vec![
        Exec::Left(Op::Literal(Literal::Int(1))),
        Exec::Left(Op::Literal(Literal::List(vec![
            Literal::Char('h'),
            Literal::Char('e'),
            Literal::Char('l'),
            Literal::Char('l'),
            Literal::Char('o'),
        ]))),
        Exec::Left(Op::Literal(Literal::List(vec![
            Literal::Int(1),
            Literal::Int(2),
            Literal::Int(3),
        ]))),
        Exec::Left(Op::Literal(Literal::Bool(true))),
        Exec::Left(Op::Literal(Literal::Bool(false))),
        Exec::Left(Op::Instruction(String::from("ol"))),
        Exec::Left(Op::Instruction(String::from("hello"))),
        Exec::Left(Op::Instruction(String::from("+"))),
    ];
    for (input_str, expect) in input_strings.iter().zip(expected.iter()) {
        let tokens = tokenize_code(input_str);
        let (exec, _) = parse_exec(&tokens, 0).unwrap();
        assert_eq!(expect, &exec);
    }
}

#[test]
fn test_par_exec_right() {
    let input_strings = vec![
        String::from("1~"),
        String::from("\"hello\"~"),
        String::from("[1, 2, 3]~"),
        String::from("true~"),
        String::from("false~"),
        String::from("ol~"),
        String::from("hello~"),
        String::from("+~"),
    ];
    let expected = vec![
        Exec::Right(Op::Literal(Literal::Int(1))),
        Exec::Right(Op::Literal(Literal::List(vec![
            Literal::Char('h'),
            Literal::Char('e'),
            Literal::Char('l'),
            Literal::Char('l'),
            Literal::Char('o'),
        ]))),
        Exec::Right(Op::Literal(Literal::List(vec![
            Literal::Int(1),
            Literal::Int(2),
            Literal::Int(3),
        ]))),
        Exec::Right(Op::Literal(Literal::Bool(true))),
        Exec::Right(Op::Literal(Literal::Bool(false))),
        Exec::Right(Op::Instruction(String::from("ol"))),
        Exec::Right(Op::Instruction(String::from("hello"))),
        Exec::Right(Op::Instruction(String::from("+"))),
    ];
    for (input_str, expect) in input_strings.iter().zip(expected.iter()) {
        let tokens = tokenize_code(input_str);
        let (exec, _) = parse_exec(&tokens, 0).unwrap();
        assert_eq!(expect, &exec);
    }
}

#[test]
fn test_par_block() {
    let input_str = String::from("{1~ 2! 3~}!");
    let tokens = tokenize_code(&input_str);
    let (block, _) = parse_exec(&tokens, 0).unwrap();
    let expected = Exec::Left(Op::Literal(Literal::Block(vec![
        Exec::Right(Op::Literal(Literal::Int(1))),
        Exec::Left(Op::Literal(Literal::Int(2))),
        Exec::Right(Op::Literal(Literal::Int(3))),
    ])));
    assert_eq!(expected, block);
}

#[test]
fn test_par_block_nested() {
    let input_str = String::from("{1~ {dup~ 2! rot~ <!}~ 3~}!");
    let tokens = tokenize_code(&input_str);
    let (block, _) = parse_exec(&tokens, 0).unwrap();
    let expected = Exec::Left(Op::Literal(Literal::Block(vec![
        Exec::Right(Op::Literal(Literal::Int(1))),
        Exec::Right(Op::Literal(Literal::Block(vec![
            Exec::Right(Op::Instruction(String::from("dup"))),
            Exec::Left(Op::Literal(Literal::Int(2))),
            Exec::Right(Op::Instruction(String::from("rot"))),
            Exec::Left(Op::Instruction(String::from("<"))),
        ]))),
        Exec::Right(Op::Literal(Literal::Int(3))),
    ])));
    assert_eq!(expected, block);
}
