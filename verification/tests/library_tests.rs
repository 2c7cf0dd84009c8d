use std::collections::VecDeque;

use sidelang::evaluator::{
    add, call_instr, intdiv, modulo, mult, run_ast, run_ast_with_io, Io, Place, EVAL_FUEL,
};
use sidelang::lexer::{parse_code, tokenize, TokenType};
use sidelang::parser::{parse_literal, parse_tokens};
use sidelang::values::{Literal, Value};

fn parse(src: &str) -> sidelang::values::Code {
    parse_tokens(&tokenize(&String::from(src))).unwrap()
}

fn run(src: &str) -> Result<VecDeque<Value>, String> {
    run_ast(Option::None, parse(src))
}

fn float(x: f64) -> Value {
    Value::Float(x.to_bits())
}

#[test]
fn scenario_hello_world_no_newline() {
    let (result, output) = run_ast_with_io(Option::None, parse("\"Hello World!\"~ ow~"), "");
    assert!(result.is_ok());
    assert_eq!(output, "Hello World!");
}

#[test]
fn scenario_hello_world_with_newline() {
    let (result, output) = run_ast_with_io(Option::None, parse("\"Hello World!\"~ ol~"), "");
    assert!(result.is_ok());
    assert_eq!(output, "Hello World!\n");
}

#[test]
fn scenario_list_index() {
    let deque = run("[1, 2, 3]~ 1~ li~").unwrap();
    assert_eq!(deque, VecDeque::from(vec![Value::Int(2)]));
}

#[test]
fn scenario_list_index_missing() {
    let result = run("[1, 2, 3]~ li~");
    assert_eq!(result, Err(String::from("tried to pop empty deque")));
}

#[test]
fn scenario_invalid_add_keeps_stack() {
    let mut deque = VecDeque::from(vec![float(1.2), Value::Char('a')]);
    let mut io = Io {
        input: Vec::new(),
        pos: 0,
        output: String::new(),
    };
    let r = call_instr(&mut deque, &mut io, String::from("+"), Place::Left, EVAL_FUEL);
    assert_eq!(r, Err(String::from("invalid operands for addition")));
    assert_eq!(deque, VecDeque::from(vec![float(1.2), Value::Char('a')]));
}

#[test]
fn scenario_sidedness() {
    let deque = run("1! 2! 3~").unwrap();
    assert_eq!(
        deque,
        VecDeque::from(vec![Value::Int(2), Value::Int(1), Value::Int(3)])
    );
}

#[test]
fn int_literal_round_trip() {
    let tokens = tokenize("-123");
    assert_eq!(tokens[0].token_type, TokenType::ConstInt);
    let lit = parse_literal(&tokens[0]).unwrap();
    assert_eq!(lit, Literal::Int(-123));
    assert_eq!(lit.to_string(), "-123");
}

#[test]
fn string_literal_round_trips() {
    let lit = Literal::List("hi there".chars().map(Literal::Char).collect::<Vec<Literal>>());
    let text = lit.to_string();
    assert_eq!(text, "\"hi there\"");
    let tokens = tokenize(&text);
    assert_eq!(tokens[0].token_type, TokenType::ConstString);
    assert_eq!(parse_literal(&tokens[0]).unwrap(), lit);
}

#[test]
fn char_literal_round_trips() {
    let lit = Literal::Char('q');
    let text = lit.to_string();
    assert_eq!(text, "'q'");
    let tokens = tokenize(&text);
    assert_eq!(tokens[0].token_type, TokenType::ConstChar);
    assert_eq!(parse_literal(&tokens[0]).unwrap(), lit);
}

#[test]
fn bad_float_literal_is_error_token() {
    let tokens = parse_code(&String::from("0.123.123"));
    assert_eq!(tokens[0].token_type, TokenType::Error);
}

#[test]
fn division_by_zero_errors() {
    assert_eq!(run("1~ 0~ /!"), Err(String::from("integer division by zero")));
    assert_eq!(
        run("1~ 0.0~ /!"),
        Err(String::from("integer division by zero"))
    );
    assert_eq!(run("1~ 0~ //!"), Err(String::from("float division by zero")));
    assert_eq!(run("1.5~ 0~ %!"), Err(String::from("modulo by zero")));
}

#[test]
fn integer_division_truncates() {
    assert_eq!(run("7~ 2~ /!").unwrap(), VecDeque::from(vec![Value::Int(3)]));
    assert_eq!(
        run("-7~ 2~ /!").unwrap(),
        VecDeque::from(vec![Value::Int(-3)])
    );
}

#[test]
fn mixed_division_gives_float() {
    assert_eq!(
        run("7~ 2.0~ /!").unwrap(),
        VecDeque::from(vec![float(3.5)])
    );
    assert_eq!(
        run("7~ 2~ //!").unwrap(),
        VecDeque::from(vec![float(3.5)])
    );
}

#[test]
fn float_arithmetic_matches_hardware() {
    assert_eq!(
        add(float(1.5), float(2.25)),
        Ok(float(1.5f64 + 2.25f64))
    );
    assert_eq!(
        mult(float(2.5), float(4.0)),
        Ok(float(2.5f64 * 4.0f64))
    );
    assert_eq!(
        intdiv(float(1.0), float(3.0)),
        Ok(float(1.0f64 / 3.0f64))
    );
    assert_eq!(
        modulo(float(7.5), float(2.0)),
        Ok(float(7.5f64 % 2.0f64))
    );
}

#[test]
fn casts_between_kinds() {
    assert_eq!(
        run("5~ toFloat~").unwrap(),
        VecDeque::from(vec![float(5.0)])
    );
    assert_eq!(run("2.9~ toInt~").unwrap(), VecDeque::from(vec![Value::Int(2)]));
    assert_eq!(
        run("66~ toChar~").unwrap(),
        VecDeque::from(vec![Value::Char('B')])
    );
    assert_eq!(
        run("65.9~ toChar~").unwrap(),
        VecDeque::from(vec![Value::Char('A')])
    );
    assert_eq!(
        run("\"42\"~ toInt~").unwrap(),
        VecDeque::from(vec![Value::Int(42)])
    );
    assert_eq!(
        run("\"1.5\"~ toFloat~").unwrap(),
        VecDeque::from(vec![float(1.5)])
    );
    assert_eq!(
        run("0~ toBool~").unwrap(),
        VecDeque::from(vec![Value::Bool(false)])
    );
}

#[test]
fn render_zero_float() {
    assert_eq!(float(0.0).to_string(), "0");
}

#[test]
fn bitwise_on_bits() {
    assert_eq!(
        run("12~ 10~ &!").unwrap(),
        VecDeque::from(vec![Value::Int(8)])
    );
    assert_eq!(
        run("12~ 10~ |!").unwrap(),
        VecDeque::from(vec![Value::Int(14)])
    );
    assert_eq!(
        run("12~ 10~ ^!").unwrap(),
        VecDeque::from(vec![Value::Int(6)])
    );
    assert_eq!(run("0~ n~").unwrap(), VecDeque::from(vec![Value::Int(-1)]));
}

#[test]
fn logical_negation_uses_truthiness() {
    assert_eq!(
        run("5~ nn~").unwrap(),
        VecDeque::from(vec![Value::Bool(false)])
    );
    assert_eq!(
        run("0~ nn~").unwrap(),
        VecDeque::from(vec![Value::Bool(true)])
    );
    assert_eq!(
        run("true~ nn~").unwrap(),
        VecDeque::from(vec![Value::Bool(false)])
    );
    assert_eq!(
        run("[]~ nn~").unwrap(),
        VecDeque::from(vec![Value::Bool(true)])
    );
}

#[test]
fn comparisons_promote() {
    assert_eq!(
        run("1~ 1.0~ =!").unwrap(),
        VecDeque::from(vec![Value::Bool(true)])
    );
    assert_eq!(
        run("2~ 1.5~ >=~").unwrap(),
        VecDeque::from(vec![Value::Bool(false)])
    );
    assert_eq!(
        run("'a'~ 'b'~ <!").unwrap(),
        VecDeque::from(vec![Value::Bool(true)])
    );
    assert_eq!(run("true~ 1~ =!"), Err(String::from("invalid operands for equality")));
}

#[test]
fn stack_shapes() {
    assert_eq!(
        run("swap!"),
        Err(String::from("tried to swap on deque with 1 item"))
    );
    assert_eq!(
        run("1~ swap~"),
        Err(String::from("tried to swap on deque with 1 item"))
    );
    assert_eq!(
        run("1~ 2~ swap~").unwrap(),
        VecDeque::from(vec![Value::Int(2), Value::Int(1)])
    );
    assert_eq!(
        run("1~ 2~ 3~ rot~").unwrap(),
        VecDeque::from(vec![Value::Int(3), Value::Int(1), Value::Int(2)])
    );
    assert_eq!(
        run("1~ 2~ over~").unwrap(),
        VecDeque::from(vec![Value::Int(1), Value::Int(1), Value::Int(2)])
    );
    assert_eq!(
        run("1~ 2~ len~").unwrap(),
        VecDeque::from(vec![Value::Int(1), Value::Int(2), Value::Int(2)])
    );
    assert_eq!(run("1~ 2~ clear~").unwrap(), VecDeque::new());
    assert_eq!(run("dup~"), Err(String::from("tried to dup empty deque")));
}

#[test]
fn list_operations() {
    assert_eq!(
        run("[1, 2]~ [3]~ l+~").unwrap(),
        VecDeque::from(vec![Literal::List(vec![
            Value::Int(3),
            Value::Int(1),
            Value::Int(2)
        ])])
    );
    assert_eq!(
        run("0~ [1, 2]~ lj~").unwrap(),
        VecDeque::from(vec![Literal::List(vec![
            Value::Int(1),
            Value::Int(0),
            Value::Int(2)
        ])])
    );
    assert_eq!(
        run("[1, 2, 3]~ ll~").unwrap(),
        VecDeque::from(vec![Value::Int(3)])
    );
    assert_eq!(
        run("3~ 1~ [9, 8, 7]~ l/~").unwrap(),
        VecDeque::from(vec![Literal::List(vec![Value::Int(8), Value::Int(7)])])
    );
    assert_eq!(
        run("5~ 1~ [9, 8, 7]~ l/~"),
        Err(String::from("list slice out of bounds"))
    );
    assert_eq!(
        run("1~ 2~ 2~ lb~").unwrap(),
        VecDeque::from(vec![Literal::List(vec![Value::Int(2), Value::Int(1)])])
    );
    assert_eq!(
        run("[1, 2]~ ld~").unwrap(),
        VecDeque::from(vec![Value::Int(1), Value::Int(2)])
    );
}

#[test]
fn control_flow() {
    assert_eq!(
        run("{1~ 2~ +~}~ exec~").unwrap(),
        VecDeque::from(vec![Value::Int(3)])
    );
    assert_eq!(
        run("0~ {1~ +~}~ {dup~ 3~ >~}~ while~").unwrap(),
        VecDeque::from(vec![Value::Int(3)])
    );
    assert_eq!(
        run("{1~} ~ {2~} ~ {true~} ~ ite~").unwrap(),
        VecDeque::from(vec![Value::Int(2)])
    );
    assert_eq!(
        run("{body~} ! {tr~} ! ite!"),
        Err(String::from("ite: expected condition, true, and false blocks"))
    );
    assert_eq!(
        run("{}~ 1~ 3~ 0~ range~").unwrap(),
        VecDeque::from(vec![Value::Int(0), Value::Int(1), Value::Int(2)])
    );
    assert_eq!(
        run("{}~ 2~ 7~ 0~ range~").unwrap(),
        VecDeque::from(vec![
            Value::Int(0),
            Value::Int(2),
            Value::Int(4),
            Value::Int(6)
        ])
    );
}

#[test]
fn loop_never_finishes_on_its_own() {
    let result = run("{}~ loop~");
    assert_eq!(result, Err(String::from("evaluation budget exhausted")));
}

#[test]
fn map_filter_reduce() {
    assert_eq!(
        run("{1~ +~}~ [1, 2, 3]~ map~").unwrap(),
        VecDeque::from(vec![Literal::List(vec![
            Value::Int(2),
            Value::Int(3),
            Value::Int(4)
        ])])
    );
    assert_eq!(
        run("{2~ >=~}~ [1, 2, 3]~ filter~").unwrap(),
        VecDeque::from(vec![Literal::List(vec![Value::Int(1), Value::Int(2)])])
    );
    assert_eq!(
        run("{+~}~ 0~ [1, 2, 3]~ reduce~").unwrap(),
        VecDeque::from(vec![Value::Int(6)])
    );
}

#[test]
fn map_blocks_run_isolated() {
    // The block pushes junk beside its result; sibling iterations still see
    // only their own element.
    let deque = run("{9! 9! pop! pop! 10~ +~}~ [1, 2, 3]~ map~").unwrap();
    assert_eq!(
        deque,
        VecDeque::from(vec![Literal::List(vec![
            Value::Int(11),
            Value::Int(12),
            Value::Int(13)
        ])])
    );
}

#[test]
fn reading_input_lines() {
    let (result, output) = run_ast_with_io(Option::None, parse("il~ ol~ il~ ol~"), "one\ntwo\n");
    assert!(result.is_ok());
    assert_eq!(output, "one\ntwo\n");
    let (result, output) = run_ast_with_io(Option::None, parse("ia~ ow~"), "  all of it  \n");
    assert!(result.is_ok());
    assert_eq!(output, "all of it");
}

#[test]
fn unknown_instruction_errors() {
    assert_eq!(run("foo!"), Err(String::from("Unknown instruction: foo")));
    assert_eq!(run("1~ 2~ exp!"), Err(String::from("Unknown instruction: exp")));
}

#[test]
fn repl_style_stack_reuse() {
    let first = run("1~ 2~").unwrap();
    let second = run_ast(Option::Some(first), parse("+~")).unwrap();
    assert_eq!(second, VecDeque::from(vec![Value::Int(3)]));
}

#[test]
fn rendering_values() {
    assert_eq!(Literal::Int(42).to_string(), "42");
    assert_eq!(Literal::Bool(true).to_string(), "true");
    assert_eq!(Literal::Char('x').to_string(), "'x'");
    assert_eq!(
        Literal::List(vec![Literal::Char('h'), Literal::Char('i')]).to_string(),
        "\"hi\""
    );
    assert_eq!(
        Literal::List(vec![Literal::Int(1), Literal::Int(2)]).to_string(),
        "[1, 2, ]"
    );
    let block = parse("{1~ 2! +~}!");
    if let sidelang::values::Exec::Left(sidelang::values::Op::Literal(b)) = &block[0] {
        assert_eq!(b.to_string(), "{1~ 2! +~ }");
    } else {
        panic!("expected a block literal");
    }
}
