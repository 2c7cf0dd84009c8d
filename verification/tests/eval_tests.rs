use std::collections::VecDeque;

use sidelang::evaluator::run_ast;
use sidelang::lexer::tokenize_code;
use sidelang::parser::parse_tokens;
use sidelang::values::Value;

fn run(src: &str) -> Result<VecDeque<Value>, String> {
    let tokens = tokenize_code(&String::from(src));
    let ast = parse_tokens(&tokens).unwrap();
    run_ast(Option::None, ast)
}

fn round_to_nth_decimal_place(num: f64, n: usize) -> f64 {
    let ten_to_nth = 10_f64.powi(n as i32);
    (num * ten_to_nth).round() / ten_to_nth
}

fn rounded(deque: VecDeque<Value>) -> VecDeque<Value> {
    deque
        .into_iter()
        .map(|v| {
            if let Value::Float(bits) = v {
                Value::Float(round_to_nth_decimal_place(f64::from_bits(bits), 1).to_bits())
            } else {
                v
            }
        })
        .collect::<VecDeque<Value>>()
}

fn float(x: f64) -> Value {
    Value::Float(x.to_bits())
}

#[test]
fn test_eval_literals() {
    let result = run("[1.2, 'a', [true, 3], -4]~ {ol~}~");
    assert!(result.is_ok());
}

#[test]
fn test_eval_test_eval_literals() {
    let result = run("[1.2, 'a', [true, 3], -4]~ {ol~}~");
    assert!(result.is_ok());
}

#[test]
fn test_eval_hello_world() {
    let result = run("\"Hello, World!\"~ ol~");
    assert!(result.is_ok());
}

#[test]
fn test_eval_test_eval_hello_world() {
    let result = run("\"Hello, World!\"~ ol~");
    assert!(result.is_ok());
}

#[test]
fn test_eval_dup() {
    let deque = run("1~ dup~").unwrap();
    let expected = VecDeque::from(vec![Value::Int(1), Value::Int(1)]);
    assert_eq!(deque, expected);
}

#[test]
fn test_eval_test_eval_dup() {
    let deque = run("1~ dup~").unwrap();
    let expected = VecDeque::from(vec![Value::Int(1), Value::Int(1)]);
    assert_eq!(deque, expected);
}

#[test]
#[should_panic]
fn test_eval_invalid_types_for_add() {
    run("1.2! 'a'~ +!").unwrap();
}

#[test]
fn test_eval_add_int_only() {
    let inputs = vec!["1~ 2~ +!", "-1~ 2~ +!", "1~ -2~ +!", "-1~ -2~ +!"];
    let expected = vec![
        VecDeque::from(vec![Value::Int(3)]),
        VecDeque::from(vec![Value::Int(1)]),
        VecDeque::from(vec![Value::Int(-1)]),
        VecDeque::from(vec![Value::Int(-3)]),
    ];
    for (input, expect) in inputs.iter().zip(expected.iter()) {
        let deque = run(input).unwrap();
        assert_eq!(deque, *expect);
    }
}

#[test]
fn test_eval_test_eval_add_int_only() {
    let inputs = vec!["1~ 2~ +!", "-1~ 2~ +!", "1~ -2~ +!", "-1~ -2~ +!"];
    let expected = vec![
        VecDeque::from(vec![Value::Int(3)]),
        VecDeque::from(vec![Value::Int(1)]),
        VecDeque::from(vec![Value::Int(-1)]),
        VecDeque::from(vec![Value::Int(-3)]),
    ];
    for (input, expect) in inputs.iter().zip(expected.iter()) {
        let deque = run(input).unwrap();
        assert_eq!(deque, *expect);
    }
}

#[test]
fn test_eval_add_mixed() {
    let inputs = vec![
        "1.1~ 2~ +!",
        "1~ 2.2~ +!",
        "-1.1~ 2~ +!",
        "-1~ 2.2~ +!",
        "1.1~ -2~ +!",
        "1~ -2.2~ +!",
        "-1.1~ -2~ +!",
        "-1~ -2.2~ +!",
    ];
    let expected = vec![
        VecDeque::from(vec![float(3.1)]),
        VecDeque::from(vec![float(3.2)]),
        VecDeque::from(vec![float(0.9)]),
        VecDeque::from(vec![float(1.2)]),
        VecDeque::from(vec![float(-0.9)]),
        VecDeque::from(vec![float(-1.2)]),
        VecDeque::from(vec![float(-3.1)]),
        VecDeque::from(vec![float(-3.2)]),
    ];
    for (input, expect) in inputs.iter().zip(expected.iter()) {
        let deque = rounded(run(input).unwrap());
        assert_eq!(deque, *expect);
    }
}

#[test]
fn test_eval_add_float_only() {
    let inputs = vec![
        "1.1~ 2.2~ +!",
        "-1.1~ 2.2~ +!",
        "1.1~ -2.2~ +!",
        "-1.1~ -2.2~ +!",
    ];
    let expected = vec![
        VecDeque::from(vec![float(3.3)]),
        VecDeque::from(vec![float(1.1)]),
        VecDeque::from(vec![float(-1.1)]),
        VecDeque::from(vec![float(-3.3)]),
    ];
    for (input, expect) in inputs.iter().zip(expected.iter()) {
        let deque = rounded(run(input).unwrap());
        assert_eq!(deque, *expect);
    }
}

#[test]
fn test_eval_sub_int_only() {
    let inputs = vec!["1~ 2~ -~", "-1~ 2~ -~", "1~ -2~ -~", "-1~ -2~ -~"];
    let expected = vec![
        VecDeque::from(vec![Value::Int(1)]),
        VecDeque::from(vec![Value::Int(3)]),
        VecDeque::from(vec![Value::Int(-3)]),
        VecDeque::from(vec![Value::Int(-1)]),
    ];
    for (input, expect) in inputs.iter().zip(expected.iter()) {
        let deque = run(input).unwrap();
        assert_eq!(deque, *expect);
    }
}

#[test]
fn test_eval_sub_mixed() {
    let inputs = vec![
        "1.1~ 2~ -!",
        "1~ 2.2~ -!",
        "-1.1~ 2~ -!",
        "-1~ 2.2~ -!",
        "1.1~ -2~ -!",
        "1~ -2.2~ -!",
        "-1.1~ -2~ -!",
        "-1~ -2.2~ -!",
    ];
    let expected = vec![
        VecDeque::from(vec![float(-0.9)]),
        VecDeque::from(vec![float(-1.2)]),
        VecDeque::from(vec![float(-3.1)]),
        VecDeque::from(vec![float(-3.2)]),
        VecDeque::from(vec![float(3.1)]),
        VecDeque::from(vec![float(3.2)]),
        VecDeque::from(vec![float(0.9)]),
        VecDeque::from(vec![float(1.2)]),
    ];
    for (input, expect) in inputs.iter().zip(expected.iter()) {
        let deque = rounded(run(input).unwrap());
        assert_eq!(deque, *expect);
    }
}

#[test]
fn test_eval_sub_float_only() {
    let inputs = vec![
        "1.1~ 2.2~ -!",
        "-1.1~ 2.2~ -!",
        "1.1~ -2.2~ -!",
        "-1.1~ -2.2~ -!",
    ];
    let expected = vec![
        VecDeque::from(vec![float(-1.1)]),
        VecDeque::from(vec![float(-3.3)]),
        VecDeque::from(vec![float(3.3)]),
        VecDeque::from(vec![float(1.1)]),
    ];
    for (input, expect) in inputs.iter().zip(expected.iter()) {
        let deque = rounded(run(input).unwrap());
        assert_eq!(deque, *expect);
    }
}
