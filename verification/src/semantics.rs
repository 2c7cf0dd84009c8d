//! The mathematical semantics of the language: a total, fuel-bounded
//! interpreter over value views.  Every contract of [`crate::evaluator`] is
//! stated against these functions.
//!
//! A state holds the double-ended stack, the characters not yet read by the
//! input instructions, and the text written by the output instructions.
//! Every nested block execution runs with one unit of fuel less, and each
//! turn of an unbounded loop costs a unit, so the semantics is total; a
//! program that runs out of fuel fails with a budget error.
use vstd::prelude::*;

use crate::floats::{
    f64_add, f64_div, f64_eq, f64_is_zero, f64_le, f64_lt, f64_mul, f64_neg, f64_of_int,
    f64_of_text, f64_rem, f64_sub, f64_text, f64_to_byte_sat, f64_to_int_sat,
};
use crate::numtext::{int_text, parse_int_spec};
use crate::render::{is_char_list, list_chars, lit_text};
use crate::values::{chars_to_lits, spec_truthy, ExecV, LitV, OpV};

verus! {

/// The end of the stack an operation targets.
#[derive(Debug, Clone, Copy, PartialEq, Eq, Structural)]
pub enum Place {
    Left,
    Right,
}

/// A program state: the stack, the unread input, and the written output.
pub struct StV {
    pub stack: Seq<LitV>,
    pub input: Seq<char>,
    pub output: Seq<char>,
}

/// The outcome of running a piece of a program: a final state, or an error
/// message together with the state reached when the error arose.
pub enum Outcome {
    Done(StV),
    Fail(StV, Seq<char>),
}

/// Pushes a value at an end of the stack: `Left` is the front.
pub open spec fn push_at(stack: Seq<LitV>, place: Place, v: LitV) -> Seq<LitV> {
    if place == Place::Left {
        seq![v] + stack
    } else {
        stack.push(v)
    }
}

/// Pops a value from an end of the stack, if one is there.
pub open spec fn pop_at(stack: Seq<LitV>, place: Place) -> Option<(LitV, Seq<LitV>)> {
    if stack.len() == 0 {
        Option::None
    } else if place == Place::Left {
        Option::Some((stack[0], stack.skip(1)))
    } else {
        Option::Some((stack.last(), stack.drop_last()))
    }
}

pub open spec fn with_stack(st: StV, stack: Seq<LitV>) -> StV {
    StV { stack, input: st.input, output: st.output }
}

/// The divisor counts as zero when it is the integer zero or a float zero
/// of either sign.
pub open spec fn is_zero_operand(v: LitV) -> bool {
    v == LitV::Int(0i64) || (v is Float && f64_is_zero(v->Float_0))
}

pub open spec fn int_abs(a: int) -> int {
    if a < 0 {
        -a
    } else {
        a
    }
}

/// Division truncating toward zero, as `/` on machine integers computes it.
pub open spec fn trunc_div(a: int, b: int) -> int {
    if (a < 0) != (b < 0) {
        -(int_abs(a) / int_abs(b))
    } else {
        int_abs(a) / int_abs(b)
    }
}

/// Remainder with the sign of the dividend, as `%` on machine integers
/// computes it.
pub open spec fn trunc_rem(a: int, b: int) -> int {
    if a < 0 {
        -(int_abs(a) % int_abs(b))
    } else {
        int_abs(a) % int_abs(b)
    }
}

/// Addition: integers add (wrapping at the 64-bit boundary); a float on
/// either side promotes to float arithmetic.
pub open spec fn sem_add(a: LitV, b: LitV) -> Result<LitV, Seq<char>> {
    match (a, b) {
        (LitV::Int(x), LitV::Int(y)) => Result::Ok(LitV::Int(((x + y) as i64))),
        (LitV::Int(x), LitV::Float(y)) => Result::Ok(LitV::Float(f64_add(f64_of_int(x), y))),
        (LitV::Float(x), LitV::Int(y)) => Result::Ok(LitV::Float(f64_add(x, f64_of_int(y)))),
        (LitV::Float(x), LitV::Float(y)) => Result::Ok(LitV::Float(f64_add(x, y))),
        _ => Result::Err("invalid operands for addition"@),
    }
}

pub open spec fn sem_sub(a: LitV, b: LitV) -> Result<LitV, Seq<char>> {
    match (a, b) {
        (LitV::Int(x), LitV::Int(y)) => Result::Ok(LitV::Int(((x - y) as i64))),
        (LitV::Int(x), LitV::Float(y)) => Result::Ok(LitV::Float(f64_sub(f64_of_int(x), y))),
        (LitV::Float(x), LitV::Int(y)) => Result::Ok(LitV::Float(f64_sub(x, f64_of_int(y)))),
        (LitV::Float(x), LitV::Float(y)) => Result::Ok(LitV::Float(f64_sub(x, y))),
        _ => Result::Err("invalid operands for subtraction"@),
    }
}

pub open spec fn sem_mult(a: LitV, b: LitV) -> Result<LitV, Seq<char>> {
    match (a, b) {
        (LitV::Int(x), LitV::Int(y)) => Result::Ok(LitV::Int(((x * y) as i64))),
        (LitV::Int(x), LitV::Float(y)) => Result::Ok(LitV::Float(f64_mul(f64_of_int(x), y))),
        (LitV::Float(x), LitV::Int(y)) => Result::Ok(LitV::Float(f64_mul(x, f64_of_int(y)))),
        (LitV::Float(x), LitV::Float(y)) => Result::Ok(LitV::Float(f64_mul(x, y))),
        _ => Result::Err("invalid operands for multiplication"@),
    }
}

/// `/`: integer division truncates; any float operand promotes to float
/// division.  A zero divisor of either numeric type is an error.
pub open spec fn sem_intdiv(a: LitV, b: LitV) -> Result<LitV, Seq<char>> {
    if is_zero_operand(b) {
        Result::Err("integer division by zero"@)
    } else {
        match (a, b) {
            (LitV::Int(x), LitV::Int(y)) => Result::Ok(LitV::Int((trunc_div(x as int, y as int) as i64))),
            (LitV::Int(x), LitV::Float(y)) => Result::Ok(LitV::Float(f64_div(f64_of_int(x), y))),
            (LitV::Float(x), LitV::Int(y)) => Result::Ok(LitV::Float(f64_div(x, f64_of_int(y)))),
            (LitV::Float(x), LitV::Float(y)) => Result::Ok(LitV::Float(f64_div(x, y))),
            _ => Result::Err("invalid operands for integer division"@),
        }
    }
}

/// `//`: float division whatever the numeric operand types.
pub open spec fn sem_floatdiv(a: LitV, b: LitV) -> Result<LitV, Seq<char>> {
    if is_zero_operand(b) {
        Result::Err("float division by zero"@)
    } else {
        match (a, b) {
            (LitV::Int(x), LitV::Int(y)) => Result::Ok(
                LitV::Float(f64_div(f64_of_int(x), f64_of_int(y))),
            ),
            (LitV::Int(x), LitV::Float(y)) => Result::Ok(LitV::Float(f64_div(f64_of_int(x), y))),
            (LitV::Float(x), LitV::Int(y)) => Result::Ok(LitV::Float(f64_div(x, f64_of_int(y)))),
            (LitV::Float(x), LitV::Float(y)) => Result::Ok(LitV::Float(f64_div(x, y))),
            _ => Result::Err("invalid operands for float division"@),
        }
    }
}

pub open spec fn sem_modulo(a: LitV, b: LitV) -> Result<LitV, Seq<char>> {
    if is_zero_operand(b) {
        Result::Err("modulo by zero"@)
    } else {
        match (a, b) {
            (LitV::Int(x), LitV::Int(y)) => Result::Ok(LitV::Int((trunc_rem(x as int, y as int) as i64))),
            (LitV::Int(x), LitV::Float(y)) => Result::Ok(LitV::Float(f64_rem(f64_of_int(x), y))),
            (LitV::Float(x), LitV::Int(y)) => Result::Ok(LitV::Float(f64_rem(x, f64_of_int(y)))),
            (LitV::Float(x), LitV::Float(y)) => Result::Ok(LitV::Float(f64_rem(x, y))),
            _ => Result::Err("invalid operands for modulo"@),
        }
    }
}

/// `--`: numeric negation; a float flips its sign bit.
pub open spec fn sem_neg(a: LitV) -> Result<LitV, Seq<char>> {
    match a {
        LitV::Int(x) => Result::Ok(LitV::Int(((-x) as i64))),
        LitV::Float(x) => Result::Ok(LitV::Float(f64_neg(x))),
        _ => Result::Err("invalid operand for negation"@),
    }
}

/// Bitwise operations act on the integer's bits, or on a float's IEEE-754
/// bit pattern, and always give an integer.
pub open spec fn sem_bitand(a: LitV, b: LitV) -> Result<LitV, Seq<char>> {
    match (a, b) {
        (LitV::Int(x), LitV::Int(y)) => Result::Ok(LitV::Int(x & y)),
        (LitV::Int(x), LitV::Float(y)) => Result::Ok(LitV::Int((((x as u64) & y) as i64))),
        (LitV::Float(x), LitV::Int(y)) => Result::Ok(LitV::Int(((x & (y as u64)) as i64))),
        (LitV::Float(x), LitV::Float(y)) => Result::Ok(LitV::Int(((x & y) as i64))),
        _ => Result::Err("invalid operands for bitwise AND"@),
    }
}

pub open spec fn sem_bitor(a: LitV, b: LitV) -> Result<LitV, Seq<char>> {
    match (a, b) {
        (LitV::Int(x), LitV::Int(y)) => Result::Ok(LitV::Int(x | y)),
        (LitV::Int(x), LitV::Float(y)) => Result::Ok(LitV::Int((((x as u64) | y) as i64))),
        (LitV::Float(x), LitV::Int(y)) => Result::Ok(LitV::Int(((x | (y as u64)) as i64))),
        (LitV::Float(x), LitV::Float(y)) => Result::Ok(LitV::Int(((x | y) as i64))),
        _ => Result::Err("invalid operands for bitwise OR"@),
    }
}

pub open spec fn sem_bitxor(a: LitV, b: LitV) -> Result<LitV, Seq<char>> {
    match (a, b) {
        (LitV::Int(x), LitV::Int(y)) => Result::Ok(LitV::Int(x ^ y)),
        (LitV::Int(x), LitV::Float(y)) => Result::Ok(LitV::Int((((x as u64) ^ y) as i64))),
        (LitV::Float(x), LitV::Int(y)) => Result::Ok(LitV::Int(((x ^ (y as u64)) as i64))),
        (LitV::Float(x), LitV::Float(y)) => Result::Ok(LitV::Int(((x ^ y) as i64))),
        _ => Result::Err("invalid operands for bitwise XOR"@),
    }
}

pub open spec fn sem_bitnot(a: LitV) -> Result<LitV, Seq<char>> {
    match a {
        LitV::Int(x) => Result::Ok(LitV::Int((((x as u64) ^ 0xffff_ffff_ffff_ffffu64) as i64))),
        LitV::Float(x) => Result::Ok(LitV::Int(((x ^ 0xffff_ffff_ffff_ffffu64) as i64))),
        _ => Result::Err("invalid operand for bitwise NOT"@),
    }
}

/// Comparisons take two numbers (an integer beside a float promotes to
/// float) or two characters; anything else is an error.
pub open spec fn sem_eq(a: LitV, b: LitV) -> Result<LitV, Seq<char>> {
    match (a, b) {
        (LitV::Int(x), LitV::Int(y)) => Result::Ok(LitV::Bool(x == y)),
        (LitV::Int(x), LitV::Float(y)) => Result::Ok(LitV::Bool(f64_eq(f64_of_int(x), y))),
        (LitV::Float(x), LitV::Int(y)) => Result::Ok(LitV::Bool(f64_eq(x, f64_of_int(y)))),
        (LitV::Float(x), LitV::Float(y)) => Result::Ok(LitV::Bool(f64_eq(x, y))),
        (LitV::Char(x), LitV::Char(y)) => Result::Ok(LitV::Bool(x == y)),
        _ => Result::Err("invalid operands for equality"@),
    }
}

pub open spec fn sem_neq(a: LitV, b: LitV) -> Result<LitV, Seq<char>> {
    match (a, b) {
        (LitV::Int(x), LitV::Int(y)) => Result::Ok(LitV::Bool(x != y)),
        (LitV::Int(x), LitV::Float(y)) => Result::Ok(LitV::Bool(!f64_eq(f64_of_int(x), y))),
        (LitV::Float(x), LitV::Int(y)) => Result::Ok(LitV::Bool(!f64_eq(x, f64_of_int(y)))),
        (LitV::Float(x), LitV::Float(y)) => Result::Ok(LitV::Bool(!f64_eq(x, y))),
        (LitV::Char(x), LitV::Char(y)) => Result::Ok(LitV::Bool(x != y)),
        _ => Result::Err("invalid operands for inequality"@),
    }
}

pub open spec fn sem_lt(a: LitV, b: LitV) -> Result<LitV, Seq<char>> {
    match (a, b) {
        (LitV::Int(x), LitV::Int(y)) => Result::Ok(LitV::Bool(x < y)),
        (LitV::Int(x), LitV::Float(y)) => Result::Ok(LitV::Bool(f64_lt(f64_of_int(x), y))),
        (LitV::Float(x), LitV::Int(y)) => Result::Ok(LitV::Bool(f64_lt(x, f64_of_int(y)))),
        (LitV::Float(x), LitV::Float(y)) => Result::Ok(LitV::Bool(f64_lt(x, y))),
        (LitV::Char(x), LitV::Char(y)) => Result::Ok(LitV::Bool(x < y)),
        _ => Result::Err("invalid operands for less than"@),
    }
}

pub open spec fn sem_gt(a: LitV, b: LitV) -> Result<LitV, Seq<char>> {
    match (a, b) {
        (LitV::Int(x), LitV::Int(y)) => Result::Ok(LitV::Bool(x > y)),
        (LitV::Int(x), LitV::Float(y)) => Result::Ok(LitV::Bool(f64_lt(y, f64_of_int(x)))),
        (LitV::Float(x), LitV::Int(y)) => Result::Ok(LitV::Bool(f64_lt(f64_of_int(y), x))),
        (LitV::Float(x), LitV::Float(y)) => Result::Ok(LitV::Bool(f64_lt(y, x))),
        (LitV::Char(x), LitV::Char(y)) => Result::Ok(LitV::Bool(x > y)),
        _ => Result::Err("invalid operands for greater than"@),
    }
}

pub open spec fn sem_leq(a: LitV, b: LitV) -> Result<LitV, Seq<char>> {
    match (a, b) {
        (LitV::Int(x), LitV::Int(y)) => Result::Ok(LitV::Bool(x <= y)),
        (LitV::Int(x), LitV::Float(y)) => Result::Ok(LitV::Bool(f64_le(f64_of_int(x), y))),
        (LitV::Float(x), LitV::Int(y)) => Result::Ok(LitV::Bool(f64_le(x, f64_of_int(y)))),
        (LitV::Float(x), LitV::Float(y)) => Result::Ok(LitV::Bool(f64_le(x, y))),
        (LitV::Char(x), LitV::Char(y)) => Result::Ok(LitV::Bool(x <= y)),
        _ => Result::Err("invalid operands for less than or equal"@),
    }
}

pub open spec fn sem_geq(a: LitV, b: LitV) -> Result<LitV, Seq<char>> {
    match (a, b) {
        (LitV::Int(x), LitV::Int(y)) => Result::Ok(LitV::Bool(x >= y)),
        (LitV::Int(x), LitV::Float(y)) => Result::Ok(LitV::Bool(f64_le(y, f64_of_int(x)))),
        (LitV::Float(x), LitV::Int(y)) => Result::Ok(LitV::Bool(f64_le(f64_of_int(y), x))),
        (LitV::Float(x), LitV::Float(y)) => Result::Ok(LitV::Bool(f64_le(y, x))),
        (LitV::Char(x), LitV::Char(y)) => Result::Ok(LitV::Bool(x >= y)),
        _ => Result::Err("invalid operands for greater than or equal"@),
    }
}

/// `nn`: negates a boolean; any other value yields the negation of its
/// derived truthiness.
pub open spec fn sem_lognot(a: LitV) -> Result<LitV, Seq<char>> {
    match a {
        LitV::Bool(x) => Result::Ok(LitV::Bool(!x)),
        _ => Result::Ok(LitV::Bool(!spec_truthy(a))),
    }
}

pub open spec fn sem_logand(a: LitV, b: LitV) -> Result<LitV, Seq<char>> {
    match (a, b) {
        (LitV::Bool(x), LitV::Bool(y)) => Result::Ok(LitV::Bool(x && y)),
        _ => Result::Ok(LitV::Bool(spec_truthy(a) && spec_truthy(b))),
    }
}

pub open spec fn sem_logor(a: LitV, b: LitV) -> Result<LitV, Seq<char>> {
    match (a, b) {
        (LitV::Bool(x), LitV::Bool(y)) => Result::Ok(LitV::Bool(x || y)),
        _ => Result::Ok(LitV::Bool(spec_truthy(a) || spec_truthy(b))),
    }
}

/// `toInt`: numeric and boolean conversions; a list of characters parses as
/// decimal text.
pub open spec fn sem_cast_int(v: LitV) -> Result<LitV, Seq<char>> {
    match v {
        LitV::Int(i) => Result::Ok(LitV::Int(i)),
        LitV::Float(f) => Result::Ok(LitV::Int(f64_to_int_sat(f))),
        LitV::Bool(b) => Result::Ok(LitV::Int(if b {
            1i64
        } else {
            0i64
        })),
        LitV::Char(c) => Result::Ok(LitV::Int(((c as u32) as i64))),
        LitV::List(l) => if is_char_list(l) && parse_int_spec(list_chars(l)) is Some {
            Result::Ok(LitV::Int(parse_int_spec(list_chars(l))->0))
        } else {
            Result::Err("Could not cast to int"@)
        },
        _ => Result::Err("Cannot cast to int"@),
    }
}

pub open spec fn sem_cast_float(v: LitV) -> Result<LitV, Seq<char>> {
    match v {
        LitV::Int(i) => Result::Ok(LitV::Float(f64_of_int(i))),
        LitV::Float(f) => Result::Ok(LitV::Float(f)),
        LitV::Bool(b) => Result::Ok(LitV::Float(f64_of_int(
            if b {
                1i64
            } else {
                0i64
            },
        ))),
        LitV::Char(c) => Result::Ok(LitV::Float(f64_of_int(((c as u32) as i64)))),
        LitV::List(l) => if is_char_list(l) && list_chars(l).len() < 0x8000_0000 && f64_of_text(
            list_chars(l),
        ) is Some {
            Result::Ok(LitV::Float(f64_of_text(list_chars(l))->0))
        } else {
            Result::Err("Could not cast to float"@)
        },
        _ => Result::Err("Cannot cast to float"@),
    }
}

pub open spec fn sem_cast_bool(v: LitV) -> Result<LitV, Seq<char>> {
    Result::Ok(LitV::Bool(spec_truthy(v)))
}

pub open spec fn sem_cast_char(v: LitV) -> Result<LitV, Seq<char>> {
    match v {
        LitV::Int(i) => Result::Ok(LitV::Char(((i as u8) as char))),
        LitV::Float(f) => Result::Ok(LitV::Char((f64_to_byte_sat(f) as char))),
        LitV::Bool(b) => Result::Ok(LitV::Char(if b {
            '1'
        } else {
            '0'
        })),
        LitV::Char(c) => Result::Ok(LitV::Char(c)),
        _ => Result::Err("Cannot cast to char"@),
    }
}

/// `l+`: two lists concatenate; a list and a value append the value at the
/// list's end; two plain values build a two-element list.
pub open spec fn sem_listcat(a: LitV, b: LitV) -> Result<LitV, Seq<char>> {
    match (a, b) {
        (LitV::List(x), LitV::List(y)) => Result::Ok(LitV::List(x + y)),
        (LitV::List(x), _) => Result::Ok(LitV::List(x.push(b))),
        (_, LitV::List(y)) => Result::Ok(LitV::List(y.push(a))),
        _ => Result::Ok(LitV::List(seq![a, b])),
    }
}

/// The elements of `l` with `j` between each neighbouring pair.
pub open spec fn join_list(l: Seq<LitV>, j: LitV) -> Seq<LitV>
    decreases l.len(),
{
    if l.len() == 0 {
        Seq::empty()
    } else if l.len() == 1 {
        seq![l[0]]
    } else {
        join_list(l.drop_last(), j) + seq![j, l.last()]
    }
}

pub open spec fn sem_listjoin(list: LitV, joiner: LitV) -> Result<LitV, Seq<char>> {
    match list {
        LitV::List(l) => Result::Ok(LitV::List(join_list(l, joiner))),
        _ => Result::Err("listjoin: first argument must be a list"@),
    }
}

/// `l/`: a half-open slice of a list; the list may stand first or last.
/// Bounds outside the list are a reported error.
pub open spec fn sem_listslice(a: LitV, b: LitV, c: LitV) -> Result<LitV, Seq<char>> {
    if a is List && b is Int && c is Int {
        let l = a->List_0;
        let s = b->Int_0;
        let e = c->Int_0;
        if 0 <= s <= e <= l.len() {
            Result::Ok(LitV::List(l.subrange(s as int, e as int)))
        } else {
            Result::Err("list slice out of bounds"@)
        }
    } else if a is Int && b is Int && c is List {
        let l = c->List_0;
        let s = b->Int_0;
        let e = a->Int_0;
        if 0 <= s <= e <= l.len() {
            Result::Ok(LitV::List(l.subrange(s as int, e as int)))
        } else {
            Result::Err("list slice out of bounds"@)
        }
    } else {
        Result::Err("invalid operands for list slice"@)
    }
}

pub open spec fn sem_listindex(a: LitV, b: LitV) -> Result<LitV, Seq<char>> {
    if a is List && b is Int {
        let l = a->List_0;
        let i = b->Int_0;
        if 0 <= i < l.len() {
            Result::Ok(l[i as int])
        } else {
            Result::Err("list index out of bounds"@)
        }
    } else if a is Int && b is List {
        let l = b->List_0;
        let i = a->Int_0;
        if 0 <= i < l.len() {
            Result::Ok(l[i as int])
        } else {
            Result::Err("list index out of bounds"@)
        }
    } else {
        Result::Err("invalid operands for list index"@)
    }
}

pub open spec fn sem_listlen(a: LitV) -> Result<LitV, Seq<char>> {
    match a {
        LitV::List(l) => Result::Ok(LitV::Int((l.len() as i64))),
        _ => Result::Err("invalid operands for list length"@),
    }
}

/// The text a value prints as: a list whose every element is a character
/// prints as the bare text; anything else prints as its canonical literal
/// text.
pub open spec fn print_text(v: LitV) -> Seq<char> {
    if v is List && is_char_list(v->List_0) {
        list_chars(v->List_0)
    } else {
        lit_text(v)
    }
}

/// Whitespace as the input instructions trim it.
pub open spec fn is_trim_ws(c: char) -> bool {
    c == ' ' || c == '\t' || c == '\n' || c == '\r'
}

pub open spec fn trim_front(s: Seq<char>) -> Seq<char>
    decreases s.len(),
{
    if s.len() > 0 && is_trim_ws(s[0]) {
        trim_front(s.skip(1))
    } else {
        s
    }
}

pub open spec fn trim_back(s: Seq<char>) -> Seq<char>
    decreases s.len(),
{
    if s.len() > 0 && is_trim_ws(s.last()) {
        trim_back(s.drop_last())
    } else {
        s
    }
}

/// The trimmed text: leading and trailing whitespace dropped.
pub open spec fn spec_trim(s: Seq<char>) -> Seq<char> {
    trim_back(trim_front(s))
}

/// One line read from the input: the characters before the first newline,
/// trimmed, and the input that remains after that newline.  Without a
/// newline the whole input is the line.
pub open spec fn read_line(input: Seq<char>) -> (Seq<char>, Seq<char>) {
    let n = crate::lexer::spec_find(input, 0, '\n');
    if n >= input.len() {
        (spec_trim(input), Seq::empty())
    } else {
        (spec_trim(input.subrange(0, n)), input.skip(n + 1))
    }
}


/// Pops up to `n` values from an end, in pop order, with what remains.
pub open spec fn pop_n(stack: Seq<LitV>, place: Place, n: int) -> (Seq<LitV>, Seq<LitV>)
    decreases n,
{
    if n <= 0 {
        (Seq::empty(), stack)
    } else {
        match pop_at(stack, place) {
            Option::None => (Seq::empty(), stack),
            Option::Some((v, rest)) => {
                let (more, left) = pop_n(rest, place, n - 1);
                (seq![v] + more, left)
            }
        }
    }
}

/// The one-operand pure operations.
#[derive(Debug, Clone, Copy, PartialEq, Eq, Structural)]
pub enum UnOp {
    ToInt,
    ToFloat,
    ToChar,
    ToBool,
    Neg,
    BitNot,
    LogNot,
    ListLen,
}

/// The two-operand pure operations.
#[derive(Debug, Clone, Copy, PartialEq, Eq, Structural)]
pub enum BinOp {
    Add,
    Sub,
    Mult,
    IntDiv,
    FloatDiv,
    Modulo,
    BitAnd,
    BitOr,
    BitXor,
    CmpEq,
    CmpNeq,
    CmpLt,
    CmpGt,
    CmpLeq,
    CmpGeq,
    LogAnd,
    LogOr,
    ListCat,
    ListJoin,
    ListIndex,
}

pub open spec fn sem_un_op(op: UnOp, a: LitV) -> Result<LitV, Seq<char>> {
    match op {
        UnOp::ToInt => sem_cast_int(a),
        UnOp::ToFloat => sem_cast_float(a),
        UnOp::ToChar => sem_cast_char(a),
        UnOp::ToBool => sem_cast_bool(a),
        UnOp::Neg => sem_neg(a),
        UnOp::BitNot => sem_bitnot(a),
        UnOp::LogNot => sem_lognot(a),
        UnOp::ListLen => sem_listlen(a),
    }
}

pub open spec fn sem_bin_op(op: BinOp, a: LitV, b: LitV) -> Result<LitV, Seq<char>> {
    match op {
        BinOp::Add => sem_add(a, b),
        BinOp::Sub => sem_sub(a, b),
        BinOp::Mult => sem_mult(a, b),
        BinOp::IntDiv => sem_intdiv(a, b),
        BinOp::FloatDiv => sem_floatdiv(a, b),
        BinOp::Modulo => sem_modulo(a, b),
        BinOp::BitAnd => sem_bitand(a, b),
        BinOp::BitOr => sem_bitor(a, b),
        BinOp::BitXor => sem_bitxor(a, b),
        BinOp::CmpEq => sem_eq(a, b),
        BinOp::CmpNeq => sem_neq(a, b),
        BinOp::CmpLt => sem_lt(a, b),
        BinOp::CmpGt => sem_gt(a, b),
        BinOp::CmpLeq => sem_leq(a, b),
        BinOp::CmpGeq => sem_geq(a, b),
        BinOp::LogAnd => sem_logand(a, b),
        BinOp::LogOr => sem_logor(a, b),
        BinOp::ListCat => sem_listcat(a, b),
        BinOp::ListJoin => sem_listjoin(a, b),
        BinOp::ListIndex => sem_listindex(a, b),
    }
}

/// Pops one operand, applies the operation, and pushes the result back at
/// the same end; on any error the stack is as it stood before the
/// instruction.
pub open spec fn sem_unary(st: StV, place: Place, op: UnOp) -> Outcome {
    match pop_at(st.stack, place) {
        Option::None => Outcome::Fail(st, "tried to pop empty deque"@),
        Option::Some((a, rest)) => match sem_un_op(op, a) {
            Result::Ok(v) => Outcome::Done(with_stack(st, push_at(rest, place, v))),
            Result::Err(e) => Outcome::Fail(st, e),
        },
    }
}

/// Pops two operands (the first popped is the operation's first argument),
/// applies, and pushes the result back; errors leave the stack as before.
pub open spec fn sem_binary(st: StV, place: Place, op: BinOp) -> Outcome {
    match pop_at(st.stack, place) {
        Option::None => Outcome::Fail(st, "tried to pop empty deque"@),
        Option::Some((a, rest1)) => match pop_at(rest1, place) {
            Option::None => Outcome::Fail(st, "tried to pop empty deque"@),
            Option::Some((b, rest2)) => match sem_bin_op(op, a, b) {
                Result::Ok(v) => Outcome::Done(with_stack(st, push_at(rest2, place, v))),
                Result::Err(e) => Outcome::Fail(st, e),
            },
        },
    }
}

/// Pops three operands, applies the slice operation, and pushes the result
/// back; errors leave the stack as before.
pub open spec fn sem_ternary_slice(st: StV, place: Place) -> Outcome {
    match pop_at(st.stack, place) {
        Option::None => Outcome::Fail(st, "tried to pop empty deque"@),
        Option::Some((a, rest1)) => match pop_at(rest1, place) {
            Option::None => Outcome::Fail(st, "tried to pop empty deque"@),
            Option::Some((b, rest2)) => match pop_at(rest2, place) {
                Option::None => Outcome::Fail(st, "tried to pop empty deque"@),
                Option::Some((c, rest3)) => match sem_listslice(a, b, c) {
                    Result::Ok(v) => Outcome::Done(with_stack(st, push_at(rest3, place, v))),
                    Result::Err(e) => Outcome::Fail(st, e),
                },
            },
        },
    }
}

/// `clear`, `pop`, `dup`, `rot`, `over`, `swap`, `len`: the stack-shape
/// instructions.
pub open spec fn sem_stack_instr(st: StV, name: Seq<char>, place: Place) -> Outcome {
    let stack = st.stack;
    if name == "clear"@ {
        Outcome::Done(with_stack(st, Seq::empty()))
    } else if name == "pop"@ {
        match pop_at(stack, place) {
            Option::None => Outcome::Fail(st, "tried to pop empty deque"@),
            Option::Some((_, rest)) => Outcome::Done(with_stack(st, rest)),
        }
    } else if name == "dup"@ {
        if stack.len() == 0 {
            Outcome::Fail(st, "tried to dup empty deque"@)
        } else if place == Place::Left {
            Outcome::Done(with_stack(st, push_at(stack, place, stack[0])))
        } else {
            Outcome::Done(with_stack(st, push_at(stack, place, stack.last())))
        }
    } else if name == "rot"@ {
        if stack.len() == 0 {
            Outcome::Done(st)
        } else if place == Place::Left {
            Outcome::Done(with_stack(st, stack.skip(1).push(stack[0])))
        } else {
            Outcome::Done(with_stack(st, seq![stack.last()] + stack.drop_last()))
        }
    } else if name == "over"@ {
        if stack.len() < 2 {
            Outcome::Fail(st, "tried to over deque with less than 2 items"@)
        } else if place == Place::Left {
            if stack[1] is Nothing {
                Outcome::Fail(st, "tried to over deque with less than 2 items"@)
            } else {
                Outcome::Done(with_stack(st, stack.push(stack[1])))
            }
        } else {
            if stack[stack.len() - 2] is Nothing {
                Outcome::Fail(st, "tried to over deque with less than 2 items"@)
            } else {
                Outcome::Done(with_stack(st, seq![stack[stack.len() - 2]] + stack))
            }
        }
    } else if name == "swap"@ {
        if stack.len() < 2 {
            Outcome::Fail(st, "tried to swap on deque with 1 item"@)
        } else if place == Place::Left {
            Outcome::Done(with_stack(st, seq![stack[1], stack[0]] + stack.skip(2)))
        } else {
            Outcome::Done(
                with_stack(
                    st,
                    stack.take(stack.len() - 2) + seq![stack.last(), stack[stack.len() - 2]],
                ),
            )
        }
    } else {
        // len
        Outcome::Done(with_stack(st, push_at(stack, place, LitV::Int((stack.len() as i64)))))
    }
}

/// `lb`: pops a count, then that many values, and bundles them, in pop
/// order, into a list.  `ld` is the inverse: spreads a list's elements back,
/// each pushed at the same end.
pub open spec fn sem_bundle(st: StV, place: Place) -> Outcome {
    match pop_at(st.stack, place) {
        Option::None => Outcome::Fail(st, "lb: expected int"@),
        Option::Some((v, rest)) => match v {
            LitV::Int(n) => {
                if n <= 0 {
                    Outcome::Done(with_stack(st, push_at(rest, place, LitV::List(Seq::empty()))))
                } else if rest.len() < n {
                    Outcome::Fail(
                        with_stack(st, Seq::empty()),
                        "Not enough elements in deque to fill list."@,
                    )
                } else {
                    let (items, left) = pop_n(rest, place, n as int);
                    Outcome::Done(with_stack(st, push_at(left, place, LitV::List(items))))
                }
            }
            _ => Outcome::Fail(with_stack(st, rest), "lb: expected int"@),
        },
    }
}

pub open spec fn sem_spread(st: StV, place: Place) -> Outcome {
    match pop_at(st.stack, place) {
        Option::None => Outcome::Fail(st, "ld: expected list"@),
        Option::Some((v, rest)) => match v {
            LitV::List(l) => if place == Place::Left {
                Outcome::Done(with_stack(st, l.reverse() + rest))
            } else {
                Outcome::Done(with_stack(st, rest + l))
            },
            _ => Outcome::Fail(with_stack(st, rest), "ld: expected list"@),
        },
    }
}

/// `il` and `ia`: one trimmed line, or all the remaining input, pushed as a
/// list of characters.  `ol` and `ow` pop a value and write its text, `ol`
/// with a trailing newline.
pub open spec fn sem_read_line(st: StV, place: Place) -> Outcome {
    let (line, rest) = read_line(st.input);
    Outcome::Done(
        StV { stack: push_at(st.stack, place, LitV::List(chars_to_lits(line))), input: rest, output: st.output },
    )
}

pub open spec fn sem_read_all(st: StV, place: Place) -> Outcome {
    Outcome::Done(
        StV {
            stack: push_at(st.stack, place, LitV::List(chars_to_lits(spec_trim(st.input)))),
            input: Seq::empty(),
            output: st.output,
        },
    )
}

pub open spec fn sem_write(st: StV, place: Place, newline: bool) -> Outcome {
    match pop_at(st.stack, place) {
        Option::None => Outcome::Fail(st, "tried to pop empty deque"@),
        Option::Some((v, rest)) => Outcome::Done(
            StV {
                stack: rest,
                input: st.input,
                output: st.output + print_text(v) + (if newline {
                    seq!['\n']
                } else {
                    Seq::empty()
                }),
            },
        ),
    }
}

pub open spec fn budget_msg() -> Seq<char> {
    "evaluation budget exhausted"@
}

/// Runs a body against the current state forever; every turn costs fuel, so
/// this never completes normally: the outcome is always a failure, from the
/// body or from the budget.
pub open spec fn sem_loop(st: StV, body: Seq<ExecV>, fuel: nat) -> Outcome
    decreases fuel, 2int, 0int,
{
    if fuel == 0 {
        Outcome::Fail(st, budget_msg())
    } else {
        match sem_code(st, body, (fuel - 1) as nat) {
            Outcome::Fail(st2, e) => Outcome::Fail(st2, e),
            Outcome::Done(st2) => sem_loop(st2, body, (fuel - 1) as nat),
        }
    }
}

/// Runs the condition, consumes its result, and while it is truthy runs the
/// body and repeats.
pub open spec fn sem_while(st: StV, cond: Seq<ExecV>, body: Seq<ExecV>, place: Place, fuel: nat) -> Outcome
    decreases fuel, 2int, 0int,
{
    if fuel == 0 {
        Outcome::Fail(st, budget_msg())
    } else {
        match sem_code(st, cond, (fuel - 1) as nat) {
            Outcome::Fail(st2, e) => Outcome::Fail(st2, e),
            Outcome::Done(st2) => match pop_at(st2.stack, place) {
                Option::None => Outcome::Fail(st2, "while: failed to get condition result"@),
                Option::Some((v, rest)) => {
                    let st3 = with_stack(st2, rest);
                    if !spec_truthy(v) {
                        Outcome::Done(st3)
                    } else {
                        match sem_code(st3, body, (fuel - 1) as nat) {
                            Outcome::Fail(st4, e) => Outcome::Fail(st4, e),
                            Outcome::Done(st4) => sem_while(st4, cond, body, place, (fuel - 1) as nat),
                        }
                    }
                }
            },
        }
    }
}

/// Pushes each counter value and runs the body, from `lower` (inclusive) to
/// `upper` (exclusive), stepping by `step` read as an unsigned amount; the
/// iteration stops early when the counter would leave the 64-bit range.
pub open spec fn sem_range(
    st: StV,
    lower: i64,
    upper: i64,
    step: u64,
    body: Seq<ExecV>,
    place: Place,
    fuel: nat,
) -> Outcome
    decreases fuel, 2int, (if lower < upper { upper - lower } else { 0int }),
{
    if lower >= upper {
        Outcome::Done(st)
    } else if step == 0 {
        Outcome::Fail(st, "range: step cannot be zero"@)
    } else if fuel == 0 {
        Outcome::Fail(st, budget_msg())
    } else {
        let st1 = with_stack(st, push_at(st.stack, place, LitV::Int(lower)));
        match sem_code(st1, body, (fuel - 1) as nat) {
            Outcome::Fail(st2, e) => Outcome::Fail(st2, e),
            Outcome::Done(st2) => if lower + step > i64::MAX {
                Outcome::Done(st2)
            } else {
                sem_range(st2, (lower + step) as i64, upper, step, body, place, fuel)
            },
        }
    }
}

/// Runs the block once per element against a fresh stack seeded with that
/// element alone, reading one result back from the front; input and output
/// thread through the iterations.  The accumulated results ride in the
/// state's stack.
pub open spec fn sem_map_elems(st: StV, items: Seq<LitV>, body: Seq<ExecV>, fuel: nat) -> Outcome
    decreases fuel, 2int, items.len(),
{
    if items.len() == 0 {
        Outcome::Done(st)
    } else if fuel == 0 {
        Outcome::Fail(st, budget_msg())
    } else {
        let tmp = StV { stack: seq![items[0]], input: st.input, output: st.output };
        match sem_code(tmp, body, (fuel - 1) as nat) {
            Outcome::Fail(st2, e) => Outcome::Fail(
                StV { stack: st.stack, input: st2.input, output: st2.output },
                e,
            ),
            Outcome::Done(st2) => {
                if st2.stack.len() == 0 {
                    Outcome::Fail(
                        StV { stack: st.stack, input: st2.input, output: st2.output },
                        "map: block produced no result"@,
                    )
                } else {
                    sem_map_elems(
                        StV {
                            stack: st.stack.push(st2.stack[0]),
                            input: st2.input,
                            output: st2.output,
                        },
                        items.skip(1),
                        body,
                        fuel,
                    )
                }
            }
        }
    }
}

/// Like `sem_map_elems`, but keeps the source element exactly when the
/// block's result is the boolean true.
pub open spec fn sem_filter_elems(st: StV, items: Seq<LitV>, body: Seq<ExecV>, fuel: nat) -> Outcome
    decreases fuel, 2int, items.len(),
{
    if items.len() == 0 {
        Outcome::Done(st)
    } else if fuel == 0 {
        Outcome::Fail(st, budget_msg())
    } else {
        let tmp = StV { stack: seq![items[0]], input: st.input, output: st.output };
        match sem_code(tmp, body, (fuel - 1) as nat) {
            Outcome::Fail(st2, e) => Outcome::Fail(
                StV { stack: st.stack, input: st2.input, output: st2.output },
                e,
            ),
            Outcome::Done(st2) => {
                if st2.stack.len() == 0 {
                    Outcome::Fail(
                        StV { stack: st.stack, input: st2.input, output: st2.output },
                        "filter: block produced no result"@,
                    )
                } else {
                    let kept = if st2.stack[0] == LitV::Bool(true) {
                        st.stack.push(items[0])
                    } else {
                        st.stack
                    };
                    sem_filter_elems(
                        StV { stack: kept, input: st2.input, output: st2.output },
                        items.skip(1),
                        body,
                        fuel,
                    )
                }
            }
        }
    }
}

/// Folds the block over the elements: each run sees a fresh stack holding
/// the element at the front and the accumulator at the back, and the new
/// accumulator is read from the front.  The accumulator rides as the only
/// element of the state's stack.
pub open spec fn sem_reduce_elems(st: StV, acc: LitV, items: Seq<LitV>, body: Seq<ExecV>, fuel: nat) -> Outcome
    decreases fuel, 2int, items.len(),
{
    if items.len() == 0 {
        Outcome::Done(with_stack(st, seq![acc]))
    } else if fuel == 0 {
        Outcome::Fail(st, budget_msg())
    } else {
        let tmp = StV { stack: seq![items[0], acc], input: st.input, output: st.output };
        match sem_code(tmp, body, (fuel - 1) as nat) {
            Outcome::Fail(st2, e) => Outcome::Fail(
                StV { stack: st.stack, input: st2.input, output: st2.output },
                e,
            ),
            Outcome::Done(st2) => {
                if st2.stack.len() == 0 {
                    Outcome::Fail(
                        StV { stack: st.stack, input: st2.input, output: st2.output },
                        "reduce: block produced no result"@,
                    )
                } else {
                    sem_reduce_elems(
                        StV { stack: st.stack, input: st2.input, output: st2.output },
                        st2.stack[0],
                        items.skip(1),
                        body,
                        fuel,
                    )
                }
            }
        }
    }
}

/// `exec`: pops a block and runs its body against the current stack.
pub open spec fn sem_exec_instr(st: StV, place: Place, fuel: nat) -> Outcome
    decreases fuel, 3int, 0int,
{
    match pop_at(st.stack, place) {
        Option::None => Outcome::Fail(st, "Failed to pop block"@),
        Option::Some((v, rest)) => match v {
            LitV::Block(body) => {
                if fuel == 0 {
                    Outcome::Fail(with_stack(st, rest), budget_msg())
                } else {
                    sem_code(with_stack(st, rest), body, (fuel - 1) as nat)
                }
            }
            _ => Outcome::Fail(with_stack(st, rest), "exec: expected block"@),
        },
    }
}

/// `loop`: pops a block and runs it forever; only an error ends it.
pub open spec fn sem_loop_instr(st: StV, place: Place, fuel: nat) -> Outcome
    decreases fuel, 3int, 0int,
{
    match pop_at(st.stack, place) {
        Option::None => Outcome::Fail(st, "loop: failed to pop block"@),
        Option::Some((v, rest)) => match v {
            LitV::Block(body) => sem_loop(with_stack(st, rest), body, fuel),
            _ => Outcome::Fail(with_stack(st, rest), "loop: expected block"@),
        },
    }
}

/// `range`: pops lower bound, upper bound, increment and body block, then
/// runs the body once per counter value.
pub open spec fn sem_range_instr(st: StV, place: Place, fuel: nat) -> Outcome
    decreases fuel, 3int, 0int,
{
    let (vals, rest) = pop_n(st.stack, place, 4);
    if vals.len() < 4 {
        Outcome::Fail(with_stack(st, rest), "range: expected start, end, step, and block"@)
    } else if vals[0] is Int && vals[1] is Int && vals[2] is Int && vals[3] is Block {
        let step = (vals[2]->Int_0 as u64);
        if step == 0 {
            Outcome::Fail(with_stack(st, rest), "range: step cannot be zero"@)
        } else {
            sem_range(
                with_stack(st, rest),
                vals[0]->Int_0,
                vals[1]->Int_0,
                step,
                vals[3]->Block_0,
                place,
                fuel,
            )
        }
    } else {
        Outcome::Fail(with_stack(st, rest), "range: expected start, end, step, and block"@)
    }
}

/// `while`: pops a condition block and a body block, then alternates them
/// while the condition's result is truthy.
pub open spec fn sem_while_instr(st: StV, place: Place, fuel: nat) -> Outcome
    decreases fuel, 3int, 0int,
{
    let (vals, rest) = pop_n(st.stack, place, 2);
    if vals.len() < 2 {
        Outcome::Fail(with_stack(st, rest), "while: failed to pop block"@)
    } else if !(vals[0] is Block) {
        Outcome::Fail(with_stack(st, rest), "while: expected condition block"@)
    } else if !(vals[1] is Block) {
        Outcome::Fail(with_stack(st, rest), "while: expected loop body block"@)
    } else {
        sem_while(with_stack(st, rest), vals[0]->Block_0, vals[1]->Block_0, place, fuel)
    }
}

/// `ite`: pops condition, true and false blocks, runs the condition, and
/// then the branch its truthiness picks.
pub open spec fn sem_ite_instr(st: StV, place: Place, fuel: nat) -> Outcome
    decreases fuel, 3int, 0int,
{
    let (vals, rest) = pop_n(st.stack, place, 3);
    if vals.len() < 3 {
        Outcome::Fail(with_stack(st, rest), "ite: expected condition, true, and false blocks"@)
    } else if !(vals[0] is Block) || !(vals[1] is Block) || !(vals[2] is Block) {
        Outcome::Fail(with_stack(st, rest), "ite: expected condition, true, and false blocks"@)
    } else if fuel == 0 {
        Outcome::Fail(with_stack(st, rest), budget_msg())
    } else {
        match sem_code(with_stack(st, rest), vals[0]->Block_0, (fuel - 1) as nat) {
            Outcome::Fail(st2, e) => Outcome::Fail(st2, e),
            Outcome::Done(st2) => match pop_at(st2.stack, place) {
                Option::None => Outcome::Fail(st2, "ite: failed to get condition result"@),
                Option::Some((v, rest2)) => {
                    let st3 = with_stack(st2, rest2);
                    if spec_truthy(v) {
                        sem_code(st3, vals[1]->Block_0, (fuel - 1) as nat)
                    } else {
                        sem_code(st3, vals[2]->Block_0, (fuel - 1) as nat)
                    }
                }
            },
        }
    }
}

/// `map`: pops a list and a block; each element runs against a fresh stack
/// and the results build the new list.
pub open spec fn sem_map_instr(st: StV, place: Place, fuel: nat) -> Outcome
    decreases fuel, 3int, 0int,
{
    match pop_at(st.stack, place) {
        Option::None => Outcome::Fail(st, "tried to pop empty deque"@),
        Option::Some((a, rest1)) => match pop_at(rest1, place) {
            Option::None => Outcome::Fail(st, "tried to pop empty deque"@),
            Option::Some((b, rest2)) => {
                if a is List && b is Block {
                    let st0 = with_stack(st, rest2);
                    match sem_map_elems(with_stack(st0, Seq::empty()), a->List_0, b->Block_0, fuel) {
                        Outcome::Fail(st2, e) => Outcome::Fail(
                            StV { stack: rest2, input: st2.input, output: st2.output },
                            e,
                        ),
                        Outcome::Done(st2) => Outcome::Done(
                            StV {
                                stack: push_at(rest2, place, LitV::List(st2.stack)),
                                input: st2.input,
                                output: st2.output,
                            },
                        ),
                    }
                } else {
                    Outcome::Fail(st, "invalid operands for map"@)
                }
            }
        },
    }
}

/// `filter`: like `map`, but keeps the elements whose block result is the
/// boolean true.
pub open spec fn sem_filter_instr(st: StV, place: Place, fuel: nat) -> Outcome
    decreases fuel, 3int, 0int,
{
    match pop_at(st.stack, place) {
        Option::None => Outcome::Fail(st, "tried to pop empty deque"@),
        Option::Some((a, rest1)) => match pop_at(rest1, place) {
            Option::None => Outcome::Fail(st, "tried to pop empty deque"@),
            Option::Some((b, rest2)) => {
                if a is List && b is Block {
                    let st0 = with_stack(st, rest2);
                    match sem_filter_elems(
                        with_stack(st0, Seq::empty()),
                        a->List_0,
                        b->Block_0,
                        fuel,
                    ) {
                        Outcome::Fail(st2, e) => Outcome::Fail(
                            StV { stack: rest2, input: st2.input, output: st2.output },
                            e,
                        ),
                        Outcome::Done(st2) => Outcome::Done(
                            StV {
                                stack: push_at(rest2, place, LitV::List(st2.stack)),
                                input: st2.input,
                                output: st2.output,
                            },
                        ),
                    }
                } else {
                    Outcome::Fail(st, "invalid operands for filter"@)
                }
            }
        },
    }
}

/// `reduce`: pops a list, an accumulator and a block, and folds the block
/// over the elements.
pub open spec fn sem_reduce_instr(st: StV, place: Place, fuel: nat) -> Outcome
    decreases fuel, 3int, 0int,
{
    match pop_at(st.stack, place) {
        Option::None => Outcome::Fail(st, "tried to pop empty deque"@),
        Option::Some((a, rest1)) => match pop_at(rest1, place) {
            Option::None => Outcome::Fail(st, "tried to pop empty deque"@),
            Option::Some((b, rest2)) => match pop_at(rest2, place) {
                Option::None => Outcome::Fail(st, "tried to pop empty deque"@),
                Option::Some((c, rest3)) => {
                    if a is List && c is Block {
                        match sem_reduce_elems(
                            StV { stack: Seq::empty(), input: st.input, output: st.output },
                            b,
                            a->List_0,
                            c->Block_0,
                            fuel,
                        ) {
                            Outcome::Fail(st2, e) => Outcome::Fail(
                                StV { stack: rest3, input: st2.input, output: st2.output },
                                e,
                            ),
                            Outcome::Done(st2) => Outcome::Done(
                                StV {
                                    stack: push_at(rest3, place, st2.stack[0]),
                                    input: st2.input,
                                    output: st2.output,
                                },
                            ),
                        }
                    } else {
                        Outcome::Fail(st, "invalid operands for reduce"@)
                    }
                }
            },
        },
    }
}

/// Dispatches one named instruction at one end of the stack.
pub open spec fn sem_instr(st: StV, name: Seq<char>, place: Place, fuel: nat) -> Outcome
    decreases fuel, 4int, 0int,
{
    if name == "clear"@ || name == "pop"@ || name == "dup"@ || name == "rot"@ || name == "over"@
        || name == "swap"@ || name == "len"@ {
        sem_stack_instr(st, name, place)
    } else if name == "toInt"@ {
        sem_unary(st, place, UnOp::ToInt)
    } else if name == "toFloat"@ {
        sem_unary(st, place, UnOp::ToFloat)
    } else if name == "toChar"@ {
        sem_unary(st, place, UnOp::ToChar)
    } else if name == "toBool"@ {
        sem_unary(st, place, UnOp::ToBool)
    } else if name == "+"@ {
        sem_binary(st, place, BinOp::Add)
    } else if name == "-"@ {
        sem_binary(st, place, BinOp::Sub)
    } else if name == "*"@ {
        sem_binary(st, place, BinOp::Mult)
    } else if name == "/"@ {
        sem_binary(st, place, BinOp::IntDiv)
    } else if name == "//"@ {
        sem_binary(st, place, BinOp::FloatDiv)
    } else if name == "%"@ {
        sem_binary(st, place, BinOp::Modulo)
    } else if name == "--"@ {
        sem_unary(st, place, UnOp::Neg)
    } else if name == "&"@ {
        sem_binary(st, place, BinOp::BitAnd)
    } else if name == "|"@ {
        sem_binary(st, place, BinOp::BitOr)
    } else if name == "^"@ {
        sem_binary(st, place, BinOp::BitXor)
    } else if name == "n"@ {
        sem_unary(st, place, UnOp::BitNot)
    } else if name == "="@ {
        sem_binary(st, place, BinOp::CmpEq)
    } else if name == "ne"@ {
        sem_binary(st, place, BinOp::CmpNeq)
    } else if name == "<"@ {
        sem_binary(st, place, BinOp::CmpLt)
    } else if name == ">"@ {
        sem_binary(st, place, BinOp::CmpGt)
    } else if name == "<="@ {
        sem_binary(st, place, BinOp::CmpLeq)
    } else if name == ">="@ {
        sem_binary(st, place, BinOp::CmpGeq)
    } else if name == "nn"@ {
        sem_unary(st, place, UnOp::LogNot)
    } else if name == "&&"@ {
        sem_binary(st, place, BinOp::LogAnd)
    } else if name == "||"@ {
        sem_binary(st, place, BinOp::LogOr)
    } else if name == "l+"@ {
        sem_binary(st, place, BinOp::ListCat)
    } else if name == "lj"@ {
        sem_binary(st, place, BinOp::ListJoin)
    } else if name == "l/"@ {
        sem_ternary_slice(st, place)
    } else if name == "li"@ {
        sem_binary(st, place, BinOp::ListIndex)
    } else if name == "ll"@ {
        sem_unary(st, place, UnOp::ListLen)
    } else if name == "lb"@ {
        sem_bundle(st, place)
    } else if name == "ld"@ {
        sem_spread(st, place)
    } else if name == "map"@ {
        sem_map_instr(st, place, fuel)
    } else if name == "filter"@ {
        sem_filter_instr(st, place, fuel)
    } else if name == "reduce"@ {
        sem_reduce_instr(st, place, fuel)
    } else if name == "exec"@ {
        sem_exec_instr(st, place, fuel)
    } else if name == "loop"@ {
        sem_loop_instr(st, place, fuel)
    } else if name == "range"@ {
        sem_range_instr(st, place, fuel)
    } else if name == "while"@ {
        sem_while_instr(st, place, fuel)
    } else if name == "ite"@ {
        sem_ite_instr(st, place, fuel)
    } else if name == "il"@ {
        sem_read_line(st, place)
    } else if name == "ia"@ {
        sem_read_all(st, place)
    } else if name == "ol"@ {
        sem_write(st, place, true)
    } else if name == "ow"@ {
        sem_write(st, place, false)
    } else {
        Outcome::Fail(st, "Unknown instruction: "@ + name)
    }
}

/// Runs one sided step: a literal pushes its value at the step's end; an
/// instruction dispatches by name.
pub open spec fn sem_exec_step(st: StV, e: ExecV, fuel: nat) -> Outcome
    decreases fuel, 5int, 0int,
{
    let (place, op) = match e {
        ExecV::Left(op) => (Place::Left, op),
        ExecV::Right(op) => (Place::Right, op),
    };
    match op {
        OpV::Literal(l) => Outcome::Done(with_stack(st, push_at(st.stack, place, l))),
        OpV::Instruction(name) => sem_instr(st, name, place, fuel),
    }
}

/// Runs a sequence of sided steps in order, stopping at the first failure.
pub open spec fn sem_code(st: StV, code: Seq<ExecV>, fuel: nat) -> Outcome
    decreases fuel, 6int, code.len(),
{
    if code.len() == 0 {
        Outcome::Done(st)
    } else {
        match sem_exec_step(st, code[0], fuel) {
            Outcome::Fail(st2, e) => Outcome::Fail(st2, e),
            Outcome::Done(st2) => sem_code(st2, code.skip(1), fuel),
        }
    }
}

} // verus!
