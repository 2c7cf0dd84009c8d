//! The tree-walking evaluator: one double-ended stack of values, an input
//! buffer the read instructions consume, and an output text the write
//! instructions append to.  Every function's contract says that it computes
//! exactly what the semantics in [`crate::semantics`] gives.
//!
//! Two instruction names are not in the table: `exp` and `log`.  Their
//! meaning is transcendental floating-point arithmetic, which no verified
//! code here can carry out and no integer-level outside implementation is
//! available for, so a program using them gets the unknown-instruction
//! error.
use vstd::prelude::*;

use std::collections::VecDeque;

use crate::floats::{
    f64_bits_add, f64_bits_div, f64_bits_eq, f64_bits_is_zero, f64_bits_le, f64_bits_lt,
    f64_bits_mul, f64_bits_neg, f64_bits_of_int, f64_bits_of_text, f64_bits_rem, f64_bits_sub,
    f64_bits_to_byte_sat, f64_bits_to_int_sat,
};
use crate::render::chars_of_char_list;
use crate::semantics::{
    budget_msg, is_zero_operand, pop_n, sem_code, sem_exec_instr, sem_exec_step, sem_filter_elems,
    sem_filter_instr, sem_instr, sem_ite_instr, sem_loop, sem_loop_instr, sem_map_elems,
    sem_map_instr, sem_range, sem_range_instr, sem_reduce_elems, sem_reduce_instr, sem_while,
    sem_while_instr, sem_bundle, sem_spread, sem_read_line, sem_read_all, pop_at, push_at, read_line, sem_add, sem_bin_op, sem_binary,
    sem_bitand, sem_bitnot, sem_bitor, sem_bitxor, sem_cast_bool, sem_cast_char, sem_cast_float,
    sem_cast_int, sem_eq, sem_floatdiv, sem_geq, sem_gt, sem_intdiv, sem_leq, sem_listcat,
    sem_listindex, sem_listjoin, sem_listlen, sem_listslice, sem_logand, sem_lognot, sem_logor,
    sem_lt, sem_modulo, sem_mult, sem_neg, sem_neq, sem_stack_instr, sem_sub, sem_ternary_slice,
    sem_un_op, sem_unary, sem_write, spec_trim, trim_back, trim_front, is_trim_ws, join_list,
    trunc_div, trunc_rem, int_abs, BinOp, Outcome, StV, UnOp, with_stack,
};
use crate::strutil::{char_at, chars_of, str_eq};

pub use crate::semantics::Place;
use crate::values::{
    chars_to_lits, exec_view, op_view, lit_view, lits_view, ExecV, OpV, lits_view_props, lits_view_push, execs_view, execs_view_props, truthiness_of,
    Code, Exec, Literal, LitV, Op, Value,
};

verus! {

broadcast use lits_view_props, execs_view_props;

/// The world outside the stack: input characters not yet read, and the text
/// written so far.
pub struct Io {
    pub input: Vec<char>,
    pub pos: usize,
    pub output: String,
}

/// The reading position never passes the end of the input.
pub open spec fn io_wf(io: Io) -> bool {
    io.pos <= io.input@.len()
}

/// The input characters still unread.
pub open spec fn io_rem(io: Io) -> Seq<char> {
    io.input@.skip(io.pos as int)
}

/// The mathematical state that a stack and an io side make up.
pub open spec fn state_of(stack: Seq<Value>, io: Io) -> StV {
    StV { stack: lits_view(stack), input: io_rem(io), output: io.output@ }
}

/// The views of two concatenated rows of values concatenate.
pub proof fn lits_view_concat(a: Seq<Value>, b: Seq<Value>)
    ensures
        lits_view(a + b) == lits_view(a) + lits_view(b),
{
    assert(lits_view(a + b) =~= lits_view(a) + lits_view(b)) by {
        assert(forall|i: int|
            0 <= i < a.len() ==> (a + b)[i] == a[i] && lits_view(a + b)[i] == lit_view((a + b)[i]));
        assert(forall|i: int|
            a.len() <= i < a.len() + b.len() ==> (a + b)[i] == b[i - a.len()] && lits_view(a + b)[i]
                == lit_view((a + b)[i]));
    }
}

/// The view of a subrange is the subrange of the view.
pub proof fn lits_view_subrange(s: Seq<Value>, a: int, b: int)
    requires
        0 <= a <= b <= s.len(),
    ensures
        lits_view(s.subrange(a, b)) == lits_view(s).subrange(a, b),
{
    assert(lits_view(s.subrange(a, b)) =~= lits_view(s).subrange(a, b)) by {
        assert(forall|i: int|
            0 <= i < b - a ==> s.subrange(a, b)[i] == s[a + i] && lits_view(s.subrange(a, b))[i]
                == lit_view(s.subrange(a, b)[i]));
    }
}

/// Pops one value at an end of the stack.
pub fn pop_place(stack: &mut VecDeque<Value>, place: Place) -> (r: Option<Value>)
    ensures
        match r {
            Option::Some(v) => pop_at(lits_view(old(stack)@), place) == Option::Some(
                (lit_view(v), lits_view(final(stack)@)),
            ),
            Option::None => pop_at(lits_view(old(stack)@), place) is None && final(stack)@ == old(
                stack,
            )@,
        },
{
    proof {
        lits_view_props(old(stack)@);
    }
    let r = match place {
        Place::Left => stack.pop_front(),
        Place::Right => stack.pop_back(),
    };
    proof {
        if old(stack)@.len() > 0 {
            if place == Place::Left {
                lits_view_subrange(old(stack)@, 1, old(stack)@.len() as int);
                assert(old(stack)@.subrange(1, old(stack)@.len() as int) =~= old(stack)@.skip(1));
                assert(lits_view(old(stack)@).subrange(1, lits_view(old(stack)@).len() as int)
                    =~= lits_view(old(stack)@).skip(1));
            } else {
                lits_view_subrange(old(stack)@, 0, old(stack)@.len() - 1);
                assert(old(stack)@.subrange(0, old(stack)@.len() - 1) =~= old(stack)@.drop_last());
                assert(lits_view(old(stack)@).subrange(0, lits_view(old(stack)@).len() - 1)
                    =~= lits_view(old(stack)@).drop_last());
            }
        }
    }
    r
}

/// Pushes one value at an end of the stack.
pub fn push_place(stack: &mut VecDeque<Value>, place: Place, v: Value)
    ensures
        lits_view(final(stack)@) == push_at(lits_view(old(stack)@), place, lit_view(v)),
{
    let ghost vv = lit_view(v);
    let ghost before = stack@;
    match place {
        Place::Left => stack.push_front(v),
        Place::Right => stack.push_back(v),
    }
    proof {
        if place == Place::Left {
            assert(stack@ == seq![stack@[0]] + before);
            lits_view_concat(seq![stack@[0]], before);
            assert(lits_view(seq![stack@[0]]) =~= seq![vv]);
        } else {
            lits_view_push(before, stack@.last());
            assert(stack@ == before.push(stack@.last()));
            assert(lit_view(stack@.last()) == vv);
        }
    }
}

pub open spec fn val_res_view(r: Result<Value, String>) -> Result<LitV, Seq<char>> {
    match r {
        Result::Ok(v) => Result::Ok(lit_view(v)),
        Result::Err(e) => Result::Err(e@),
    }
}

/// Adds two values.
pub fn add(a: Value, b: Value) -> (r: Result<Value, String>)
    ensures
        val_res_view(r) == sem_add(a@, b@),
{
    match (a, b) {
        (Literal::Int(x), Literal::Int(y)) => Result::Ok(
            Literal::Int((#[verifier::truncate] ((x as i128 + y as i128) as i64))),
        ),
        (Literal::Int(x), Literal::Float(y)) => Result::Ok(
            Literal::Float(f64_bits_add(f64_bits_of_int(x), y)),
        ),
        (Literal::Float(x), Literal::Int(y)) => Result::Ok(
            Literal::Float(f64_bits_add(x, f64_bits_of_int(y))),
        ),
        (Literal::Float(x), Literal::Float(y)) => Result::Ok(Literal::Float(f64_bits_add(x, y))),
        _ => Result::Err("invalid operands for addition".to_owned()),
    }
}

/// Subtracts the second value from the first.
pub fn sub(a: Value, b: Value) -> (r: Result<Value, String>)
    ensures
        val_res_view(r) == sem_sub(a@, b@),
{
    match (a, b) {
        (Literal::Int(x), Literal::Int(y)) => Result::Ok(
            Literal::Int((#[verifier::truncate] ((x as i128 - y as i128) as i64))),
        ),
        (Literal::Int(x), Literal::Float(y)) => Result::Ok(
            Literal::Float(f64_bits_sub(f64_bits_of_int(x), y)),
        ),
        (Literal::Float(x), Literal::Int(y)) => Result::Ok(
            Literal::Float(f64_bits_sub(x, f64_bits_of_int(y))),
        ),
        (Literal::Float(x), Literal::Float(y)) => Result::Ok(Literal::Float(f64_bits_sub(x, y))),
        _ => Result::Err("invalid operands for subtraction".to_owned()),
    }
}

/// Multiplies two values.
pub fn mult(a: Value, b: Value) -> (r: Result<Value, String>)
    ensures
        val_res_view(r) == sem_mult(a@, b@),
{
    match (a, b) {
        (Literal::Int(x), Literal::Int(y)) => Result::Ok(Literal::Int(mul_wrap_i64(x, y))),
        (Literal::Int(x), Literal::Float(y)) => Result::Ok(
            Literal::Float(f64_bits_mul(f64_bits_of_int(x), y)),
        ),
        (Literal::Float(x), Literal::Int(y)) => Result::Ok(
            Literal::Float(f64_bits_mul(x, f64_bits_of_int(y))),
        ),
        (Literal::Float(x), Literal::Float(y)) => Result::Ok(Literal::Float(f64_bits_mul(x, y))),
        _ => Result::Err("invalid operands for multiplication".to_owned()),
    }
}

fn mul_wrap_i64(x: i64, y: i64) -> (r: i64)
    ensures
        r as int == ((x as int * y as int) as i64) as int,
{
    proof {
        assert((x as i128) * (y as i128) <= 0x4000_0000_0000_0000_0000_0000_0000_0000i128
            && (x as i128) * (y as i128) >= -0x4000_0000_0000_0000_0000_0000_0000_0000i128)
            by (nonlinear_arith)
            requires
                -0x8000_0000_0000_0000 <= x as i128 <= 0x7fff_ffff_ffff_ffff,
                -0x8000_0000_0000_0000 <= y as i128 <= 0x7fff_ffff_ffff_ffff,
        ;
    }
    #[verifier::truncate] (((x as i128) * (y as i128)) as i64)
}

/// Whether a value is a numeric zero divisor.
fn is_zero_divisor(b: &Value) -> (r: bool)
    ensures
        r == is_zero_operand(b@),
{
    match b {
        Literal::Int(y) => *y == 0,
        Literal::Float(y) => f64_bits_is_zero(*y),
        _ => false,
    }
}

/// Truncating division of 64-bit integers, wrapping on the one overflowing
/// pair.
fn div_trunc_i64(x: i64, y: i64) -> (r: i64)
    requires
        y != 0,
    ensures
        r as int == trunc_div(x as int, y as int) as i64 as int,
{
    let ux: u64 = if x < 0 {
        (-(x as i128)) as u64
    } else {
        x as u64
    };
    let uy: u64 = if y < 0 {
        (-(y as i128)) as u64
    } else {
        y as u64
    };
    let q = ux / uy;
    proof {
        assert(ux as int == int_abs(x as int));
        assert(uy as int == int_abs(y as int));
    }
    if (x < 0) != (y < 0) {
        #[verifier::truncate] ((-(q as i128)) as i64)
    } else {
        #[verifier::truncate] (q as i64)
    }
}

/// Truncating remainder of 64-bit integers.
fn rem_trunc_i64(x: i64, y: i64) -> (r: i64)
    requires
        y != 0,
    ensures
        r as int == trunc_rem(x as int, y as int) as i64 as int,
{
    let ux: u64 = if x < 0 {
        (-(x as i128)) as u64
    } else {
        x as u64
    };
    let uy: u64 = if y < 0 {
        (-(y as i128)) as u64
    } else {
        y as u64
    };
    let m = ux % uy;
    proof {
        assert(ux as int == int_abs(x as int));
        assert(uy as int == int_abs(y as int));
        assert(m < uy);
    }
    if x < 0 {
        #[verifier::truncate] ((-(m as i128)) as i64)
    } else {
        #[verifier::truncate] (m as i64)
    }
}

/// `/`: truncating integer division, or float division when a float is on
/// either side; a numeric zero divisor is an error.
pub fn intdiv(a: Value, b: Value) -> (r: Result<Value, String>)
    ensures
        val_res_view(r) == sem_intdiv(a@, b@),
{
    if is_zero_divisor(&b) {
        return Result::Err("integer division by zero".to_owned());
    }
    match (a, b) {
        (Literal::Int(x), Literal::Int(y)) => Result::Ok(Literal::Int(div_trunc_i64(x, y))),
        (Literal::Int(x), Literal::Float(y)) => Result::Ok(
            Literal::Float(f64_bits_div(f64_bits_of_int(x), y)),
        ),
        (Literal::Float(x), Literal::Int(y)) => Result::Ok(
            Literal::Float(f64_bits_div(x, f64_bits_of_int(y))),
        ),
        (Literal::Float(x), Literal::Float(y)) => Result::Ok(Literal::Float(f64_bits_div(x, y))),
        _ => Result::Err("invalid operands for integer division".to_owned()),
    }
}

/// `//`: float division of any numeric operands.
pub fn floatdiv(a: Value, b: Value) -> (r: Result<Value, String>)
    ensures
        val_res_view(r) == crate::semantics::sem_floatdiv(a@, b@),
{
    if is_zero_divisor(&b) {
        return Result::Err("float division by zero".to_owned());
    }
    match (a, b) {
        (Literal::Int(x), Literal::Int(y)) => Result::Ok(
            Literal::Float(f64_bits_div(f64_bits_of_int(x), f64_bits_of_int(y))),
        ),
        (Literal::Int(x), Literal::Float(y)) => Result::Ok(
            Literal::Float(f64_bits_div(f64_bits_of_int(x), y)),
        ),
        (Literal::Float(x), Literal::Int(y)) => Result::Ok(
            Literal::Float(f64_bits_div(x, f64_bits_of_int(y))),
        ),
        (Literal::Float(x), Literal::Float(y)) => Result::Ok(Literal::Float(f64_bits_div(x, y))),
        _ => Result::Err("invalid operands for float division".to_owned()),
    }
}

/// `%`: remainder with the dividend's sign.
pub fn modulo(a: Value, b: Value) -> (r: Result<Value, String>)
    ensures
        val_res_view(r) == crate::semantics::sem_modulo(a@, b@),
{
    if is_zero_divisor(&b) {
        return Result::Err("modulo by zero".to_owned());
    }
    match (a, b) {
        (Literal::Int(x), Literal::Int(y)) => Result::Ok(Literal::Int(rem_trunc_i64(x, y))),
        (Literal::Int(x), Literal::Float(y)) => Result::Ok(
            Literal::Float(f64_bits_rem(f64_bits_of_int(x), y)),
        ),
        (Literal::Float(x), Literal::Int(y)) => Result::Ok(
            Literal::Float(f64_bits_rem(x, f64_bits_of_int(y))),
        ),
        (Literal::Float(x), Literal::Float(y)) => Result::Ok(Literal::Float(f64_bits_rem(x, y))),
        _ => Result::Err("invalid operands for modulo".to_owned()),
    }
}

/// `--`: numeric negation.
pub fn neg(a: Value) -> (r: Result<Value, String>)
    ensures
        val_res_view(r) == sem_neg(a@),
{
    match a {
        Literal::Int(x) => Result::Ok(Literal::Int((#[verifier::truncate] ((-(x as i128)) as i64)))),
        Literal::Float(x) => Result::Ok(Literal::Float(f64_bits_neg(x))),
        _ => Result::Err("invalid operand for negation".to_owned()),
    }
}

/// `&`: bitwise AND over integer bits or float bit patterns.
pub fn bitand(a: Value, b: Value) -> (r: Result<Value, String>)
    ensures
        val_res_view(r) == sem_bitand(a@, b@),
{
    match (a, b) {
        (Literal::Int(x), Literal::Int(y)) => Result::Ok(Literal::Int(x & y)),
        (Literal::Int(x), Literal::Float(y)) => Result::Ok(Literal::Int((#[verifier::truncate] (((x as u64) & y) as i64)))),
        (Literal::Float(x), Literal::Int(y)) => Result::Ok(Literal::Int((#[verifier::truncate] ((x & (y as u64)) as i64)))),
        (Literal::Float(x), Literal::Float(y)) => Result::Ok(Literal::Int((#[verifier::truncate] ((x & y) as i64)))),
        _ => Result::Err("invalid operands for bitwise AND".to_owned()),
    }
}

/// `|`: bitwise OR.
pub fn bitor(a: Value, b: Value) -> (r: Result<Value, String>)
    ensures
        val_res_view(r) == sem_bitor(a@, b@),
{
    match (a, b) {
        (Literal::Int(x), Literal::Int(y)) => Result::Ok(Literal::Int(x | y)),
        (Literal::Int(x), Literal::Float(y)) => Result::Ok(Literal::Int((#[verifier::truncate] (((x as u64) | y) as i64)))),
        (Literal::Float(x), Literal::Int(y)) => Result::Ok(Literal::Int((#[verifier::truncate] ((x | (y as u64)) as i64)))),
        (Literal::Float(x), Literal::Float(y)) => Result::Ok(Literal::Int((#[verifier::truncate] ((x | y) as i64)))),
        _ => Result::Err("invalid operands for bitwise OR".to_owned()),
    }
}

/// `^`: bitwise XOR.
pub fn bitxor(a: Value, b: Value) -> (r: Result<Value, String>)
    ensures
        val_res_view(r) == sem_bitxor(a@, b@),
{
    match (a, b) {
        (Literal::Int(x), Literal::Int(y)) => Result::Ok(Literal::Int(x ^ y)),
        (Literal::Int(x), Literal::Float(y)) => Result::Ok(Literal::Int((#[verifier::truncate] (((x as u64) ^ y) as i64)))),
        (Literal::Float(x), Literal::Int(y)) => Result::Ok(Literal::Int((#[verifier::truncate] ((x ^ (y as u64)) as i64)))),
        (Literal::Float(x), Literal::Float(y)) => Result::Ok(Literal::Int((#[verifier::truncate] ((x ^ y) as i64)))),
        _ => Result::Err("invalid operands for bitwise XOR".to_owned()),
    }
}

/// `n`: bitwise NOT.
pub fn bitnot(a: Value) -> (r: Result<Value, String>)
    ensures
        val_res_view(r) == sem_bitnot(a@),
{
    match a {
        Literal::Int(x) => Result::Ok(
            Literal::Int((#[verifier::truncate] (((x as u64) ^ 0xffff_ffff_ffff_ffffu64) as i64))),
        ),
        Literal::Float(x) => Result::Ok(
            Literal::Int((#[verifier::truncate] ((x ^ 0xffff_ffff_ffff_ffffu64) as i64))),
        ),
        _ => Result::Err("invalid operand for bitwise NOT".to_owned()),
    }
}

/// `=`: numeric or character equality.
pub fn eq(a: Value, b: Value) -> (r: Result<Value, String>)
    ensures
        val_res_view(r) == sem_eq(a@, b@),
{
    match (a, b) {
        (Literal::Int(x), Literal::Int(y)) => Result::Ok(Literal::Bool(x == y)),
        (Literal::Int(x), Literal::Float(y)) => Result::Ok(
            Literal::Bool(f64_bits_eq(f64_bits_of_int(x), y)),
        ),
        (Literal::Float(x), Literal::Int(y)) => Result::Ok(
            Literal::Bool(f64_bits_eq(x, f64_bits_of_int(y))),
        ),
        (Literal::Float(x), Literal::Float(y)) => Result::Ok(Literal::Bool(f64_bits_eq(x, y))),
        (Literal::Char(x), Literal::Char(y)) => Result::Ok(Literal::Bool(x == y)),
        _ => Result::Err("invalid operands for equality".to_owned()),
    }
}

/// `ne`: numeric or character inequality.
pub fn neq(a: Value, b: Value) -> (r: Result<Value, String>)
    ensures
        val_res_view(r) == sem_neq(a@, b@),
{
    match (a, b) {
        (Literal::Int(x), Literal::Int(y)) => Result::Ok(Literal::Bool(x != y)),
        (Literal::Int(x), Literal::Float(y)) => Result::Ok(
            Literal::Bool(!f64_bits_eq(f64_bits_of_int(x), y)),
        ),
        (Literal::Float(x), Literal::Int(y)) => Result::Ok(
            Literal::Bool(!f64_bits_eq(x, f64_bits_of_int(y))),
        ),
        (Literal::Float(x), Literal::Float(y)) => Result::Ok(Literal::Bool(!f64_bits_eq(x, y))),
        (Literal::Char(x), Literal::Char(y)) => Result::Ok(Literal::Bool(x != y)),
        _ => Result::Err("invalid operands for inequality".to_owned()),
    }
}

/// `<`: numeric or character order.
pub fn lt(a: Value, b: Value) -> (r: Result<Value, String>)
    ensures
        val_res_view(r) == sem_lt(a@, b@),
{
    match (a, b) {
        (Literal::Int(x), Literal::Int(y)) => Result::Ok(Literal::Bool(x < y)),
        (Literal::Int(x), Literal::Float(y)) => Result::Ok(
            Literal::Bool(f64_bits_lt(f64_bits_of_int(x), y)),
        ),
        (Literal::Float(x), Literal::Int(y)) => Result::Ok(
            Literal::Bool(f64_bits_lt(x, f64_bits_of_int(y))),
        ),
        (Literal::Float(x), Literal::Float(y)) => Result::Ok(Literal::Bool(f64_bits_lt(x, y))),
        (Literal::Char(x), Literal::Char(y)) => Result::Ok(Literal::Bool(x < y)),
        _ => Result::Err("invalid operands for less than".to_owned()),
    }
}

/// `>`: numeric or character order.
pub fn gt(a: Value, b: Value) -> (r: Result<Value, String>)
    ensures
        val_res_view(r) == sem_gt(a@, b@),
{
    match (a, b) {
        (Literal::Int(x), Literal::Int(y)) => Result::Ok(Literal::Bool(x > y)),
        (Literal::Int(x), Literal::Float(y)) => Result::Ok(
            Literal::Bool(f64_bits_lt(y, f64_bits_of_int(x))),
        ),
        (Literal::Float(x), Literal::Int(y)) => Result::Ok(
            Literal::Bool(f64_bits_lt(f64_bits_of_int(y), x)),
        ),
        (Literal::Float(x), Literal::Float(y)) => Result::Ok(Literal::Bool(f64_bits_lt(y, x))),
        (Literal::Char(x), Literal::Char(y)) => Result::Ok(Literal::Bool(x > y)),
        _ => Result::Err("invalid operands for greater than".to_owned()),
    }
}

/// `<=`: numeric or character order.
pub fn leq(a: Value, b: Value) -> (r: Result<Value, String>)
    ensures
        val_res_view(r) == sem_leq(a@, b@),
{
    match (a, b) {
        (Literal::Int(x), Literal::Int(y)) => Result::Ok(Literal::Bool(x <= y)),
        (Literal::Int(x), Literal::Float(y)) => Result::Ok(
            Literal::Bool(f64_bits_le(f64_bits_of_int(x), y)),
        ),
        (Literal::Float(x), Literal::Int(y)) => Result::Ok(
            Literal::Bool(f64_bits_le(x, f64_bits_of_int(y))),
        ),
        (Literal::Float(x), Literal::Float(y)) => Result::Ok(Literal::Bool(f64_bits_le(x, y))),
        (Literal::Char(x), Literal::Char(y)) => Result::Ok(Literal::Bool(x <= y)),
        _ => Result::Err("invalid operands for less than or equal".to_owned()),
    }
}

/// `>=`: numeric or character order.
pub fn geq(a: Value, b: Value) -> (r: Result<Value, String>)
    ensures
        val_res_view(r) == sem_geq(a@, b@),
{
    match (a, b) {
        (Literal::Int(x), Literal::Int(y)) => Result::Ok(Literal::Bool(x >= y)),
        (Literal::Int(x), Literal::Float(y)) => Result::Ok(
            Literal::Bool(f64_bits_le(y, f64_bits_of_int(x))),
        ),
        (Literal::Float(x), Literal::Int(y)) => Result::Ok(
            Literal::Bool(f64_bits_le(f64_bits_of_int(y), x)),
        ),
        (Literal::Float(x), Literal::Float(y)) => Result::Ok(Literal::Bool(f64_bits_le(y, x))),
        (Literal::Char(x), Literal::Char(y)) => Result::Ok(Literal::Bool(x >= y)),
        _ => Result::Err("invalid operands for greater than or equal".to_owned()),
    }
}

/// `nn`: negates a boolean; other values yield their negated truthiness.
pub fn lognot(a: Value) -> (r: Result<Value, String>)
    ensures
        val_res_view(r) == sem_lognot(a@),
{
    match a {
        Literal::Bool(x) => Result::Ok(Literal::Bool(!x)),
        _ => Result::Ok(Literal::Bool(!truthiness_of(a))),
    }
}

/// `&&`: boolean AND, through truthiness unless both operands are booleans.
pub fn logand(a: Value, b: Value) -> (r: Result<Value, String>)
    ensures
        val_res_view(r) == sem_logand(a@, b@),
{
    match (&a, &b) {
        (Literal::Bool(x), Literal::Bool(y)) => Result::Ok(Literal::Bool(*x && *y)),
        _ => {
            let ta = truthiness_of(a);
            let tb = truthiness_of(b);
            Result::Ok(Literal::Bool(ta && tb))
        }
    }
}

/// `||`: boolean OR, through truthiness unless both operands are booleans.
pub fn logor(a: Value, b: Value) -> (r: Result<Value, String>)
    ensures
        val_res_view(r) == sem_logor(a@, b@),
{
    match (&a, &b) {
        (Literal::Bool(x), Literal::Bool(y)) => Result::Ok(Literal::Bool(*x || *y)),
        _ => {
            let ta = truthiness_of(a);
            let tb = truthiness_of(b);
            Result::Ok(Literal::Bool(ta || tb))
        }
    }
}

/// `toInt`.
pub fn cast_to_int(val: Value) -> (r: Result<Value, String>)
    ensures
        val_res_view(r) == sem_cast_int(val@),
{
    match val {
        Literal::Int(i) => Result::Ok(Literal::Int(i)),
        Literal::Float(f) => Result::Ok(Literal::Int(f64_bits_to_int_sat(f))),
        Literal::Bool(b) => Result::Ok(Literal::Int(if b {
            1
        } else {
            0
        })),
        Literal::Char(c) => Result::Ok(Literal::Int(((c as u32) as i64))),
        Literal::List(l) => {
            match chars_of_char_list(&l) {
                Option::Some(s) => {
                    let cs = chars_of(s.as_str());
                    match crate::numtext::parse_i64_chars(&cs) {
                        Option::Some(i) => Result::Ok(Literal::Int(i)),
                        Option::None => Result::Err("Could not cast to int".to_owned()),
                    }
                }
                Option::None => Result::Err("Could not cast to int".to_owned()),
            }
        }
        _ => Result::Err("Cannot cast to int".to_owned()),
    }
}

/// `toFloat`.
pub fn cast_to_float(val: Value) -> (r: Result<Value, String>)
    ensures
        val_res_view(r) == sem_cast_float(val@),
{
    match val {
        Literal::Int(i) => Result::Ok(Literal::Float(f64_bits_of_int(i))),
        Literal::Float(f) => Result::Ok(Literal::Float(f)),
        Literal::Bool(b) => Result::Ok(Literal::Float(f64_bits_of_int(
            if b {
                1
            } else {
                0
            },
        ))),
        Literal::Char(c) => Result::Ok(Literal::Float(f64_bits_of_int(((c as u32) as i64)))),
        Literal::List(l) => {
            match chars_of_char_list(&l) {
                Option::Some(s) => {
                    let cs = chars_of(s.as_str());
                    if cs.len() < 0x8000_0000 {
                        match f64_bits_of_text(s.as_str()) {
                            Option::Some(b) => Result::Ok(Literal::Float(b)),
                            Option::None => Result::Err("Could not cast to float".to_owned()),
                        }
                    } else {
                        Result::Err("Could not cast to float".to_owned())
                    }
                }
                Option::None => Result::Err("Could not cast to float".to_owned()),
            }
        }
        _ => Result::Err("Cannot cast to float".to_owned()),
    }
}

/// `toBool`: the value's truthiness.
pub fn cast_to_bool(val: Value) -> (r: Result<Value, String>)
    ensures
        val_res_view(r) == sem_cast_bool(val@),
{
    Result::Ok(Literal::Bool(truthiness_of(val)))
}

/// `toChar`.
pub fn cast_to_char(val: Value) -> (r: Result<Value, String>)
    ensures
        val_res_view(r) == sem_cast_char(val@),
{
    match val {
        Literal::Int(i) => Result::Ok(Literal::Char(((#[verifier::truncate] (i as u8)) as char))),
        Literal::Float(f) => Result::Ok(Literal::Char((f64_bits_to_byte_sat(f) as char))),
        Literal::Bool(b) => Result::Ok(Literal::Char(if b {
            '1'
        } else {
            '0'
        })),
        Literal::Char(c) => Result::Ok(Literal::Char(c)),
        _ => Result::Err("Cannot cast to char".to_owned()),
    }
}


/// Appends one value to a vector of values.
fn push_value(dst: &mut Vec<Literal>, v: Literal)
    ensures
        final(dst)@ == old(dst)@.push(v),
        lits_view(final(dst)@) == lits_view(old(dst)@).push(lit_view(v)),
{
    proof {
        lits_view_push(dst@, v);
        assert(lits_view(dst@) + seq![lit_view(v)] =~= lits_view(dst@).push(lit_view(v)));
    }
    dst.push(v);
}

/// Clones the elements of `src2` onto the end of `dst`.
#[verifier::loop_isolation(false)]
fn append_clones(dst: &mut Vec<Literal>, src2: &Vec<Literal>)
    ensures
        lits_view(final(dst)@) == lits_view(old(dst)@) + lits_view(src2@),
{
    let ghost base = lits_view(old(dst)@);
    let mut j: usize = 0;
    while j < src2.len()
        invariant
            j <= src2@.len(),
            lits_view(dst@) == base + lits_view(src2@).take(j as int),
        decreases src2@.len() - j,
    {
        let c = src2[j].clone();
        proof {
            assert(lit_view(c) == lits_view(src2@)[j as int]);
        }
        push_value(dst, c);
        proof {
            assert(lits_view(src2@).take(j + 1 as int).drop_last() =~= lits_view(src2@).take(
                j as int,
            ));
            assert(lits_view(dst@) =~= base + lits_view(src2@).take(j + 1 as int));
        }
        j += 1;
    }
    proof {
        assert(lits_view(src2@).take(src2@.len() as int) =~= lits_view(src2@));
    }
}

/// `l+`: concatenation, appending, or pairing into a fresh list.
pub fn listcat(a: Value, b: Value) -> (r: Result<Value, String>)
    ensures
        val_res_view(r) == sem_listcat(a@, b@),
{
    match (a, b) {
        (Literal::List(mut x), Literal::List(y)) => {
            append_clones(&mut x, &y);
            Result::Ok(Literal::List(x))
        }
        (Literal::List(mut x), b2) => {
            push_value(&mut x, b2);
            Result::Ok(Literal::List(x))
        }
        (a2, Literal::List(mut y)) => {
            push_value(&mut y, a2);
            Result::Ok(Literal::List(y))
        }
        (a2, b2) => {
            let ghost av = lit_view(a2);
            let ghost bv = lit_view(b2);
            let mut v: Vec<Literal> = Vec::new();
            push_value(&mut v, a2);
            push_value(&mut v, b2);
            proof {
                assert(lits_view(v@) =~= seq![av, bv]);
            }
            Result::Ok(Literal::List(v))
        }
    }
}

/// `lj`: the list's elements with the joiner between each pair.
#[verifier::loop_isolation(false)]
pub fn listjoin(list: Value, joiner: Value) -> (r: Result<Value, String>)
    ensures
        val_res_view(r) == sem_listjoin(list@, joiner@),
{
    match list {
        Literal::List(l) => {
            let ghost lv = lits_view(l@);
            let ghost jv = lit_view(joiner);
            let mut out: Vec<Literal> = Vec::new();
            let mut j: usize = 0;
            proof {
                assert(lits_view(out@) =~= Seq::<LitV>::empty());
                assert(lv.take(0) =~= Seq::<LitV>::empty());
            }
            while j < l.len()
                invariant
                    j <= l@.len(),
                    lits_view(out@) == join_list(lv.take(j as int), jv),
                decreases l@.len() - j,
            {
                if j > 0 {
                    let jc = joiner.clone();
                    proof {
                        assert(lit_view(jc) == jv);
                    }
                    push_value(&mut out, jc);
                }
                let c = l[j].clone();
                proof {
                    assert(lit_view(c) == lv[j as int]);
                }
                push_value(&mut out, c);
                proof {
                    assert(lv.take(j + 1 as int).drop_last() =~= lv.take(j as int));
                    assert(lv.take(j + 1 as int).last() == lv[j as int]);
                    if j == 0 {
                        assert(lv.take(1)[0] == lv[0]);
                        assert(lits_view(out@) =~= seq![lv[0]]);
                        assert(join_list(lv.take(1), jv) == seq![lv.take(1)[0]]);
                    } else {
                        assert(join_list(lv.take(j + 1 as int), jv) == join_list(
                            lv.take(j as int),
                            jv,
                        ) + seq![jv, lv[j as int]]);
                        assert(lits_view(out@) =~= join_list(lv.take(j as int), jv) + seq![
                            jv,
                            lv[j as int],
                        ]);
                    }
                }
                j += 1;
            }
            proof {
                assert(lv.take(l@.len() as int) =~= lv);
            }
            Result::Ok(Literal::List(out))
        }
        _ => Result::Err("listjoin: first argument must be a list".to_owned()),
    }
}

/// Clones the elements `a..b` of a list into a fresh vector.
#[verifier::loop_isolation(false)]
fn clone_range(l: &Vec<Literal>, a: usize, b: usize) -> (r: Vec<Literal>)
    requires
        a <= b <= l@.len(),
    ensures
        lits_view(r@) == lits_view(l@).subrange(a as int, b as int),
{
    let mut out: Vec<Literal> = Vec::new();
    let mut j = a;
    proof {
        assert(lits_view(out@) =~= lits_view(l@).subrange(a as int, a as int));
    }
    while j < b
        invariant
            a <= j <= b,
            lits_view(out@) == lits_view(l@).subrange(a as int, j as int),
        decreases b - j,
    {
        let c = l[j].clone();
        proof {
            assert(lit_view(c) == lits_view(l@)[j as int]);
        }
        push_value(&mut out, c);
        proof {
            assert(lits_view(l@).subrange(a as int, j + 1 as int).drop_last() =~= lits_view(
                l@,
            ).subrange(a as int, j as int));
            assert(lits_view(out@) =~= lits_view(l@).subrange(a as int, j + 1 as int));
        }
        j += 1;
    }
    out
}

/// `l/`: a half-open slice of a list; out-of-range bounds are an error.
pub fn listslice(list: Value, start: Value, end: Value) -> (r: Result<Value, String>)
    ensures
        val_res_view(r) == sem_listslice(list@, start@, end@),
{
    match (&list, &start, &end) {
        (Literal::List(l), Literal::Int(s), Literal::Int(e)) => {
            proof {
                assert(lits_view(l@).len() == l@.len());
            }
            if 0 <= *s && *s <= *e && (*e as u64) <= (l.len() as u64) {
                let out = clone_range(l, *s as usize, *e as usize);
                Result::Ok(Literal::List(out))
            } else {
                Result::Err("list slice out of bounds".to_owned())
            }
        }
        (Literal::Int(e), Literal::Int(s), Literal::List(l)) => {
            proof {
                assert(lits_view(l@).len() == l@.len());
            }
            if 0 <= *s && *s <= *e && (*e as u64) <= (l.len() as u64) {
                let out = clone_range(l, *s as usize, *e as usize);
                Result::Ok(Literal::List(out))
            } else {
                Result::Err("list slice out of bounds".to_owned())
            }
        }
        _ => Result::Err("invalid operands for list slice".to_owned()),
    }
}

/// `li`: looks one element up by non-negative index.
pub fn listindex(list: Value, index: Value) -> (r: Result<Value, String>)
    ensures
        val_res_view(r) == sem_listindex(list@, index@),
{
    match (&list, &index) {
        (Literal::List(l), Literal::Int(i)) => {
            if 0 <= *i && (*i as u64) < (l.len() as u64) {
                let c = l[*i as usize].clone();
                proof {
                    assert(lit_view(c) == lits_view(l@)[*i as int]);
                }
                Result::Ok(c)
            } else {
                Result::Err("list index out of bounds".to_owned())
            }
        }
        (Literal::Int(i), Literal::List(l)) => {
            if 0 <= *i && (*i as u64) < (l.len() as u64) {
                let c = l[*i as usize].clone();
                proof {
                    assert(lit_view(c) == lits_view(l@)[*i as int]);
                }
                Result::Ok(c)
            } else {
                Result::Err("list index out of bounds".to_owned())
            }
        }
        _ => Result::Err("invalid operands for list index".to_owned()),
    }
}

/// `ll`: the list's element count.
pub fn listlen(list: Value) -> (r: Result<Value, String>)
    ensures
        val_res_view(r) == sem_listlen(list@),
{
    match list {
        Literal::List(l) => {
            proof {
                assert(lits_view(l@).len() == l@.len());
            }
            Result::Ok(Literal::Int((#[verifier::truncate] (l.len() as i64))))
        }
        _ => Result::Err("invalid operands for list length".to_owned()),
    }
}


/// Applies a one-operand pure operation to a value.
pub fn un_op_eval(op: UnOp, a: Value) -> (r: Result<Value, String>)
    ensures
        val_res_view(r) == sem_un_op(op, a@),
{
    match op {
        UnOp::ToInt => cast_to_int(a),
        UnOp::ToFloat => cast_to_float(a),
        UnOp::ToChar => cast_to_char(a),
        UnOp::ToBool => cast_to_bool(a),
        UnOp::Neg => neg(a),
        UnOp::BitNot => bitnot(a),
        UnOp::LogNot => lognot(a),
        UnOp::ListLen => listlen(a),
    }
}

/// Applies a two-operand pure operation to two values.
pub fn bin_op_eval(op: BinOp, a: Value, b: Value) -> (r: Result<Value, String>)
    ensures
        val_res_view(r) == sem_bin_op(op, a@, b@),
{
    match op {
        BinOp::Add => crate::evaluator::add(a, b),
        BinOp::Sub => crate::evaluator::sub(a, b),
        BinOp::Mult => mult(a, b),
        BinOp::IntDiv => intdiv(a, b),
        BinOp::FloatDiv => floatdiv(a, b),
        BinOp::Modulo => modulo(a, b),
        BinOp::BitAnd => bitand(a, b),
        BinOp::BitOr => bitor(a, b),
        BinOp::BitXor => bitxor(a, b),
        BinOp::CmpEq => eq(a, b),
        BinOp::CmpNeq => neq(a, b),
        BinOp::CmpLt => lt(a, b),
        BinOp::CmpGt => gt(a, b),
        BinOp::CmpLeq => leq(a, b),
        BinOp::CmpGeq => geq(a, b),
        BinOp::LogAnd => logand(a, b),
        BinOp::LogOr => logor(a, b),
        BinOp::ListCat => listcat(a, b),
        BinOp::ListJoin => listjoin(a, b),
        BinOp::ListIndex => listindex(a, b),
    }
}

/// Pops one operand, applies the operation, and pushes the result back at
/// the same end; on error the operand is put back.
pub fn unary_apply(deque: &mut VecDeque<Value>, io: &Io, place: Place, op: UnOp) -> (r: Result<
    (),
    String,
>)
    ensures
        ({
            let o = sem_unary(state_of(old(deque)@, *io), place, op);
            match r {
                Result::Ok(()) => o == Outcome::Done(state_of(final(deque)@, *io)),
                Result::Err(e) => o == Outcome::Fail(state_of(final(deque)@, *io), e@),
            }
        }),
{
    match pop_place(deque, place) {
        Option::None => Result::Err("tried to pop empty deque".to_owned()),
        Option::Some(a) => {
            let ghost av = lit_view(a);
            let backup = a.clone();
            match un_op_eval(op, a) {
                Result::Ok(v) => {
                    push_place(deque, place, v);
                    Result::Ok(())
                }
                Result::Err(e) => {
                    push_place(deque, place, backup);
                    proof {
                        restore_one(lits_view(old(deque)@), place);
                    }
                    Result::Err(e)
                }
            }
        }
    }
}

/// Pops two operands, applies the operation, and pushes the result back at
/// the same end; on error the operands are put back.
pub fn binary_apply(deque: &mut VecDeque<Value>, io: &Io, place: Place, op: BinOp) -> (r: Result<
    (),
    String,
>)
    ensures
        ({
            let o = sem_binary(state_of(old(deque)@, *io), place, op);
            match r {
                Result::Ok(()) => o == Outcome::Done(state_of(final(deque)@, *io)),
                Result::Err(e) => o == Outcome::Fail(state_of(final(deque)@, *io), e@),
            }
        }),
{
    let ghost st0 = lits_view(old(deque)@);
    match pop_place(deque, place) {
        Option::None => Result::Err("tried to pop empty deque".to_owned()),
        Option::Some(a) => {
            let ghost av = lit_view(a);
            let ghost rest1 = lits_view(deque@);
            match pop_place(deque, place) {
                Option::None => {
                    push_place(deque, place, a);
                    proof {
                        restore_one(st0, place);
                    }
                    Result::Err("tried to pop empty deque".to_owned())
                }
                Option::Some(b) => {
                    let ghost bv = lit_view(b);
                    let a2 = a.clone();
                    let b2 = b.clone();
                    match bin_op_eval(op, a, b) {
                        Result::Ok(v) => {
                            push_place(deque, place, v);
                            Result::Ok(())
                        }
                        Result::Err(e) => {
                            push_place(deque, place, b2);
                            push_place(deque, place, a2);
                            proof {
                                restore_one(rest1, place);
                                restore_one(st0, place);
                            }
                            Result::Err(e)
                        }
                    }
                }
            }
        }
    }
}

/// Pops three operands for the slice operation; on error they are put back.
pub fn ternary_apply_slice(deque: &mut VecDeque<Value>, io: &Io, place: Place) -> (r: Result<
    (),
    String,
>)
    ensures
        ({
            let o = sem_ternary_slice(state_of(old(deque)@, *io), place);
            match r {
                Result::Ok(()) => o == Outcome::Done(state_of(final(deque)@, *io)),
                Result::Err(e) => o == Outcome::Fail(state_of(final(deque)@, *io), e@),
            }
        }),
{
    let ghost st0 = lits_view(old(deque)@);
    match pop_place(deque, place) {
        Option::None => Result::Err("tried to pop empty deque".to_owned()),
        Option::Some(a) => {
            let ghost rest1 = lits_view(deque@);
            match pop_place(deque, place) {
                Option::None => {
                    push_place(deque, place, a);
                    proof {
                        restore_one(st0, place);
                    }
                    Result::Err("tried to pop empty deque".to_owned())
                }
                Option::Some(b) => {
                    let ghost rest2 = lits_view(deque@);
                    match pop_place(deque, place) {
                        Option::None => {
                            push_place(deque, place, b);
                            push_place(deque, place, a);
                            proof {
                                restore_one(rest1, place);
                                restore_one(st0, place);
                            }
                            Result::Err("tried to pop empty deque".to_owned())
                        }
                        Option::Some(c) => {
                            let a2 = a.clone();
                            let b2 = b.clone();
                            let c2 = c.clone();
                            match listslice(a, b, c) {
                                Result::Ok(v) => {
                                    push_place(deque, place, v);
                                    Result::Ok(())
                                }
                                Result::Err(e) => {
                                    push_place(deque, place, c2);
                                    push_place(deque, place, b2);
                                    push_place(deque, place, a2);
                                    proof {
                                        restore_one(rest2, place);
                                        restore_one(rest1, place);
                                        restore_one(st0, place);
                                    }
                                    Result::Err(e)
                                }
                            }
                        }
                    }
                }
            }
        }
    }
}

/// Popping and pushing back at the same end restores the stack.
pub proof fn restore_one(stack: Seq<LitV>, place: Place)
    requires
        stack.len() > 0,
    ensures
        ({
            let p = pop_at(stack, place)->0;
            pop_at(stack, place) is Some ==> push_at(p.1, place, p.0) == stack
        }),
{
    if place == Place::Left {
        assert(seq![stack[0]] + stack.skip(1) =~= stack);
    } else {
        assert(stack.drop_last().push(stack.last()) =~= stack);
    }
}


/// `clear`: empties the stack.
pub fn clear(deque: &mut VecDeque<Value>, place: Place) -> (r: Result<(), String>)
    ensures
        r is Ok,
        final(deque)@ == Seq::<Value>::empty(),
{
    deque.clear();
    Result::Ok(())
}

/// `pop`: discards the value nearest the given end.
pub fn pop(deque: &mut VecDeque<Value>, place: Place) -> (r: Result<(), String>)
    ensures
        ({
            match pop_at(lits_view(old(deque)@), place) {
                Option::None => r is Err && (r->Err_0)@ == "tried to pop empty deque"@ && final(deque)@ == old(deque)@,
                Option::Some(p) => r is Ok && lits_view(final(deque)@) == p.1,
            }
        }),
{
    match pop_place(deque, place) {
        Option::Some(_) => Result::Ok(()),
        Option::None => Result::Err("tried to pop empty deque".to_owned()),
    }
}

/// `dup`: pushes a copy of the value nearest the given end.
pub fn dup(deque: &mut VecDeque<Value>, place: Place) -> (r: Result<(), String>)
    ensures
        ({
            let s = lits_view(old(deque)@);
            if s.len() == 0 {
                r is Err && (r->Err_0)@ == "tried to dup empty deque"@ && final(deque)@ == old(
                    deque,
                )@
            } else {
                r is Ok && lits_view(final(deque)@) == push_at(
                    s,
                    place,
                    if place == Place::Left {
                        s[0]
                    } else {
                        s.last()
                    },
                )
            }
        }),
{
    if deque.len() == 0 {
        return Result::Err("tried to dup empty deque".to_owned());
    }
    let v = match place {
        Place::Left => deque[0].clone(),
        Place::Right => deque[deque.len() - 1].clone(),
    };
    push_place(deque, place, v);
    Result::Ok(())
}

/// `rot`: rotates the whole stack by one position toward the given end.
pub fn rot(deque: &mut VecDeque<Value>, place: Place) -> (r: Result<(), String>)
    ensures
        r is Ok,
        ({
            let s = lits_view(old(deque)@);
            if s.len() == 0 {
                final(deque)@ == old(deque)@
            } else if place == Place::Left {
                lits_view(final(deque)@) == s.skip(1).push(s[0])
            } else {
                lits_view(final(deque)@) == seq![s.last()] + s.drop_last()
            }
        }),
{
    if deque.len() == 0 {
        return Result::Ok(());
    }
    match place {
        Place::Left => {
            match pop_place(deque, place) {
                Option::Some(v) => {
                    push_place(deque, Place::Right, v);
                }
                Option::None => {}
            }
        }
        Place::Right => {
            match pop_place(deque, place) {
                Option::Some(v) => {
                    push_place(deque, Place::Left, v);
                }
                Option::None => {}
            }
        }
    }
    Result::Ok(())
}

/// `over`: copies the second-nearest value onto the opposite end.
pub fn over(deque: &mut VecDeque<Value>, place: Place) -> (r: Result<(), String>)
    ensures
        ({
            let s = lits_view(old(deque)@);
            let second = if place == Place::Left {
                s[1]
            } else {
                s[s.len() - 2]
            };
            if s.len() < 2 || second is Nothing {
                r is Err && (r->Err_0)@ == "tried to over deque with less than 2 items"@ && final(deque)@ == old(deque)@
            } else {
                r is Ok && lits_view(final(deque)@) == (if place == Place::Left {
                    s.push(second)
                } else {
                    seq![second] + s
                })
            }
        }),
{
    if deque.len() < 2 {
        return Result::Err("tried to over deque with less than 2 items".to_owned());
    }
    let v = match place {
        Place::Left => deque[1].clone(),
        Place::Right => deque[deque.len() - 2].clone(),
    };
    if matches!(v, Literal::Nothing) {
        proof {
            assert(lit_view(v) is Nothing);
        }
        return Result::Err("tried to over deque with less than 2 items".to_owned());
    }
    match place {
        Place::Left => push_place(deque, Place::Right, v),
        Place::Right => push_place(deque, Place::Left, v),
    }
    Result::Ok(())
}

/// `swap`: exchanges the two values nearest the given end; fewer than two
/// values is an error.
pub fn swap(deque: &mut VecDeque<Value>, place: Place) -> (r: Result<(), String>)
    ensures
        ({
            let s = lits_view(old(deque)@);
            if s.len() < 2 {
                r is Err && (r->Err_0)@ == "tried to swap on deque with 1 item"@ && final(deque)@
                    == old(deque)@
            } else if place == Place::Left {
                r is Ok && lits_view(final(deque)@) == seq![s[1], s[0]] + s.skip(2)
            } else {
                r is Ok && lits_view(final(deque)@) == s.take(s.len() - 2) + seq![
                    s.last(),
                    s[s.len() - 2],
                ]
            }
        }),
{
    if deque.len() < 2 {
        return Result::Err("tried to swap on deque with 1 item".to_owned());
    }
    let ghost s = lits_view(old(deque)@);
    match pop_place(deque, place) {
        Option::Some(a) => {
            match pop_place(deque, place) {
                Option::Some(b) => {
                    match place {
                        Place::Left => {
                            push_place(deque, place, a);
                            push_place(deque, place, b);
                            proof {
                                assert(seq![lits_view(old(deque)@)[1]] + (seq![lits_view(
                                    old(deque)@,
                                )[0]] + lits_view(old(deque)@).skip(1).skip(1)) =~= seq![
                                    s[1],
                                    s[0],
                                ] + s.skip(2));
                            }
                        }
                        Place::Right => {
                            push_place(deque, place, a);
                            push_place(deque, place, b);
                            proof {
                                assert(s.drop_last().drop_last().push(s.last()).push(
                                    s[s.len() - 2],
                                ) =~= s.take(s.len() - 2) + seq![s.last(), s[s.len() - 2]]);
                            }
                        }
                    }
                    Result::Ok(())
                }
                Option::None => Result::Err("tried to swap on deque with 1 item".to_owned()),
            }
        }
        Option::None => Result::Err("tried to swap on deque with 1 item".to_owned()),
    }
}

/// `len`: pushes the element count as an integer.
pub fn len(deque: &mut VecDeque<Value>, place: Place) -> (r: Result<(), String>)
    ensures
        r is Ok,
        lits_view(final(deque)@) == push_at(
            lits_view(old(deque)@),
            place,
            LitV::Int((lits_view(old(deque)@).len() as i64)),
        ),
{
    let n = deque.len();
    proof {
        assert(lits_view(deque@).len() == deque@.len());
    }
    push_place(deque, place, Literal::Int((#[verifier::truncate] (n as i64))));
    Result::Ok(())
}

/// Dispatches one of the stack-shape instructions by name.
fn stack_instr_apply(deque: &mut VecDeque<Value>, io: &Io, name: &String, place: Place) -> (r:
    Result<(), String>)
    requires
        name@ == "clear"@ || name@ == "pop"@ || name@ == "dup"@ || name@ == "rot"@ || name@
            == "over"@ || name@ == "swap"@ || name@ == "len"@,
    ensures
        ({
            let o = sem_stack_instr(state_of(old(deque)@, *io), name@, place);
            match r {
                Result::Ok(()) => o == Outcome::Done(state_of(final(deque)@, *io)),
                Result::Err(e) => o == Outcome::Fail(state_of(final(deque)@, *io), e@),
            }
        }),
{
    proof {
        assert(lits_view(deque@).len() == deque@.len());
    }
    if str_eq(name.as_str(), "clear") {
        let r = clear(deque, place);
        proof {
            assert(lits_view(final(deque)@) =~= Seq::<LitV>::empty());
        }
        r
    } else if str_eq(name.as_str(), "pop") {
        pop(deque, place)
    } else if str_eq(name.as_str(), "dup") {
        dup(deque, place)
    } else if str_eq(name.as_str(), "rot") {
        rot(deque, place)
    } else if str_eq(name.as_str(), "over") {
        over(deque, place)
    } else if str_eq(name.as_str(), "swap") {
        swap(deque, place)
    } else {
        len(deque, place)
    }
}


/// `lb`: pops a count and bundles that many popped values into a list.
#[verifier::loop_isolation(false)]
fn bundle_apply(deque: &mut VecDeque<Value>, io: &Io, place: Place) -> (r: Result<(), String>)
    ensures
        ({
            let o = crate::semantics::sem_bundle(state_of(old(deque)@, *io), place);
            match r {
                Result::Ok(()) => o == Outcome::Done(state_of(final(deque)@, *io)),
                Result::Err(e) => o == Outcome::Fail(state_of(final(deque)@, *io), e@),
            }
        }),
{
    let ghost st0 = lits_view(old(deque)@);
    match pop_place(deque, place) {
        Option::None => Result::Err("lb: expected int".to_owned()),
        Option::Some(v) => {
            match v {
                Literal::Int(n) => {
                    if n <= 0 {
                        push_place(deque, place, Literal::List(Vec::new()));
                        proof {
                            assert(lits_view(Seq::<Value>::empty()) =~= Seq::<LitV>::empty());
                        }
                        return Result::Ok(());
                    }
                    if (deque.len() as u64) < (n as u64) {
                        deque.clear();
                        proof {
                            assert(lits_view(final(deque)@) =~= Seq::<LitV>::empty());
                        }
                        return Result::Err("Not enough elements in deque to fill list.".to_owned());
                    }
                    let ghost rest0 = lits_view(deque@);
                    let count = n as usize;
                    let mut items: Vec<Literal> = Vec::new();
                    let mut k: usize = 0;
                    proof {
                        assert(lits_view(items@) =~= Seq::<LitV>::empty());
                        assert(Seq::<LitV>::empty() + crate::semantics::pop_n(
                            rest0,
                            place,
                            n as int,
                        ).0 =~= crate::semantics::pop_n(rest0, place, n as int).0);
                    }
                    while k < count
                        invariant
                            k <= count,
                            count == n as int,
                            deque@.len() == rest0.len() - k,
                            ({
                                let p = crate::semantics::pop_n(rest0, place, n as int);
                                let q = crate::semantics::pop_n(
                                    lits_view(deque@),
                                    place,
                                    n - k as int,
                                );
                                p.0 == lits_view(items@) + q.0 && p.1 == q.1
                            }),
                        decreases count - k,
                    {
                        proof {
                            assert(lits_view(deque@).len() == deque@.len());
                        }
                        let ghost before = lits_view(deque@);
                        let ghost old_items = lits_view(items@);
                        match pop_place(deque, place) {
                            Option::Some(x) => {
                                let ghost xv = lit_view(x);
                                let ghost after = lits_view(deque@);
                                push_value(&mut items, x);
                                proof {
                                    let q = crate::semantics::pop_n(
                                        after,
                                        place,
                                        n - k - 1 as int,
                                    );
                                    assert(crate::semantics::pop_n(before, place, n - k as int).0
                                        == seq![xv] + q.0);
                                    assert(crate::semantics::pop_n(before, place, n - k as int).1
                                        == q.1);
                                    assert(old_items + (seq![xv] + q.0) =~= lits_view(items@)
                                        + q.0);
                                }
                            }
                            Option::None => {
                                proof {
                                    assert(false);
                                }
                            }
                        }
                        k += 1;
                    }
                    proof {
                        let q = crate::semantics::pop_n(lits_view(deque@), place, 0);
                        assert(q.0 =~= Seq::<LitV>::empty());
                        assert(lits_view(items@) + Seq::<LitV>::empty() =~= lits_view(items@));
                    }
                    push_place(deque, place, Literal::List(items));
                    Result::Ok(())
                }
                _ => Result::Err("lb: expected int".to_owned()),
            }
        }
    }
}

/// `ld`: pops a list and pushes each of its elements back at the same end.
#[verifier::loop_isolation(false)]
fn spread_apply(deque: &mut VecDeque<Value>, io: &Io, place: Place) -> (r: Result<(), String>)
    ensures
        ({
            let o = crate::semantics::sem_spread(state_of(old(deque)@, *io), place);
            match r {
                Result::Ok(()) => o == Outcome::Done(state_of(final(deque)@, *io)),
                Result::Err(e) => o == Outcome::Fail(state_of(final(deque)@, *io), e@),
            }
        }),
{
    match pop_place(deque, place) {
        Option::None => Result::Err("ld: expected list".to_owned()),
        Option::Some(v) => {
            match v {
                Literal::List(l) => {
                    let ghost rest = lits_view(deque@);
                    let ghost lv = lits_view(l@);
                    let mut j: usize = 0;
                    proof {
                        assert(lv.take(0).reverse() =~= Seq::<LitV>::empty());
                        assert(Seq::<LitV>::empty() + rest =~= rest);
                        assert(rest + lv.take(0) =~= rest);
                    }
                    while j < l.len()
                        invariant
                            j <= l@.len(),
                            place == Place::Left ==> lits_view(deque@) == lv.take(
                                j as int,
                            ).reverse() + rest,
                            place == Place::Right ==> lits_view(deque@) == rest + lv.take(j as int),
                        decreases l@.len() - j,
                    {
                        let c = l[j].clone();
                        proof {
                            assert(lit_view(c) == lv[j as int]);
                        }
                        push_place(deque, place, c);
                        proof {
                            if place == Place::Left {
                                assert(lv.take(j + 1 as int).reverse() =~= seq![lv[j as int]]
                                    + lv.take(j as int).reverse());
                                assert(seq![lv[j as int]] + (lv.take(j as int).reverse() + rest)
                                    =~= lv.take(j + 1 as int).reverse() + rest);
                            } else {
                                assert((rest + lv.take(j as int)).push(lv[j as int]) =~= rest
                                    + lv.take(j + 1 as int));
                            }
                        }
                        j += 1;
                    }
                    proof {
                        assert(lv.take(l@.len() as int) =~= lv);
                    }
                    Result::Ok(())
                }
                _ => Result::Err("ld: expected list".to_owned()),
            }
        }
    }
}

/// Whitespace as the read instructions trim it.
fn is_trim_space(c: char) -> (r: bool)
    ensures
        r == is_trim_ws(c),
{
    c == ' ' || c == '\t' || c == '\n' || c == '\r'
}

/// The characters `v[lo..hi]`, trimmed of leading and trailing whitespace,
/// as a list-of-characters value.
#[verifier::loop_isolation(false)]
fn trimmed_list(v: &Vec<char>, lo: usize, hi: usize) -> (r: Value)
    requires
        lo <= hi <= v@.len(),
    ensures
        lit_view(r) == LitV::List(chars_to_lits(spec_trim(v@.subrange(lo as int, hi as int)))),
{
    let ghost s = v@.subrange(lo as int, hi as int);
    let mut a: usize = 0;
    let n = hi - lo;
    proof {
        assert(s.skip(0) =~= s);
    }
    while a < n && is_trim_space(char_at(v, lo + a))
        invariant
            a <= n,
            n == hi - lo,
            trim_front(s) == trim_front(s.skip(a as int)),
        decreases n - a,
    {
        proof {
            assert(s.skip(a as int)[0] == s[a as int]);
            assert(s[a as int] == v@[lo + a]);
            crate::strutil::skip_skip(s, a as int, 1);
            assert(s.skip(a as int).skip(1) =~= s.skip(a + 1 as int));
        }
        a += 1;
    }
    proof {
        if a < n {
            assert(s.skip(a as int)[0] == v@[lo + a]);
        }
        assert(trim_front(s) == s.skip(a as int));
    }
    let ghost f = s.skip(a as int);
    let mut b = n;
    proof {
        assert(f.len() == n - a);
        assert(f.take(f.len() as int) =~= f);
    }
    while b > a && is_trim_space(char_at(v, lo + b - 1))
        invariant
            a <= b <= n,
            n == hi - lo,
            trim_back(f) == trim_back(f.take(b - a as int)),
        decreases b,
    {
        proof {
            assert(f.take(b - a as int).last() == f[b - a - 1]);
            assert(f[b - a - 1] == s[b - 1]);
            assert(s[b - 1] == v@[lo + b - 1]);
            assert(f.take(b - a as int).drop_last() =~= f.take(b - a - 1 as int));
        }
        b -= 1;
    }
    proof {
        if b > a {
            assert(f.take(b - a as int).last() == v@[lo + b - 1]);
        }
        assert(trim_back(f.take(b - a as int)) == f.take(b - a as int));
        assert(spec_trim(s) == f.take(b - a as int));
    }
    let ghost line = f.take(b - a as int);
    let mut out: Vec<Literal> = Vec::new();
    let mut j = a;
    proof {
        assert(line.take(0) =~= Seq::<char>::empty());
        assert(lits_view(out@) =~= Seq::<LitV>::empty());
    }
    while j < b
        invariant
            a <= j <= b <= n,
            n == hi - lo,
            line == f.take(b - a as int),
            f == s.skip(a as int),
            s == v@.subrange(lo as int, hi as int),
            lits_view(out@) == chars_to_lits(line.take(j - a as int)),
        decreases b - j,
    {
        let c = char_at(v, lo + j);
        proof {
            assert(line.len() == b - a);
            assert(line[j - a] == f[j - a]);
            assert(f[j - a] == s[j as int]);
            assert(s[j as int] == v@[lo + j]);
        }
        push_value(&mut out, Literal::Char(c));
        proof {
            assert(line.take(j - a + 1).drop_last() =~= line.take(j - a as int));
            assert(line.take(j - a + 1).last() == line[j - a]);
            assert(chars_to_lits(line.take(j - a + 1)) == chars_to_lits(
                line.take(j - a as int),
            ).push(LitV::Char(line[j - a])));
        }
        j += 1;
    }
    proof {
        assert(line.take(b - a as int) =~= line);
    }
    Literal::List(out)
}

/// `il`: reads one line from the input into a list of characters,
/// consuming it and its newline; at the end of input the line is empty.
pub fn il(io: &mut Io) -> (r: Value)
    requires
        io_wf(*old(io)),
    ensures
        io_wf(*final(io)),
        final(io).input == old(io).input,
        final(io).output == old(io).output,
        lit_view(r) == LitV::List(chars_to_lits(read_line(io_rem(*old(io))).0)),
        io_rem(*final(io)) == read_line(io_rem(*old(io))).1,
{
    let ghost rem = io_rem(*old(io));
    let n = io.input.len();
    let mut k: usize = 0;
    proof {
        assert(rem.len() == n - io.pos);
    }
    while io.pos + k < n && io.input[io.pos + k] != '\n'
        invariant
            io == old(io),
            io.pos + k <= n,
            n == io.input@.len(),
            rem == io_rem(*io),
            crate::lexer::spec_find(rem, 0, '\n') == crate::lexer::spec_find(rem, k as int, '\n'),
        decreases n - io.pos - k,
    {
        proof {
            assert(rem[k as int] == io.input@[io.pos + k]);
        }
        k += 1;
    }
    proof {
        if io.pos + k < n {
            assert(rem[k as int] == io.input@[io.pos + k]);
        }
        assert(crate::lexer::spec_find(rem, 0, '\n') == k as int);
    }
    let line_val = trimmed_list(&io.input, io.pos, io.pos + k);
    proof {
        assert(io.input@.subrange(io.pos as int, io.pos + k) =~= rem.subrange(0, k as int));
        if (k as int) < rem.len() {
            assert(rem.subrange(0, k as int) =~= rem.subrange(0, crate::lexer::spec_find(rem, 0, '\n')));
        } else {
            assert(rem.subrange(0, k as int) =~= rem);
        }
    }
    if io.pos + k < n {
        io.pos = io.pos + k + 1;
        proof {
            crate::strutil::skip_skip(io.input@, old(io).pos as int, k + 1);
            assert(io_rem(*io) =~= rem.skip(k + 1));
        }
    } else {
        io.pos = n;
        proof {
            assert(io_rem(*io) =~= Seq::<char>::empty());
        }
    }
    line_val
}

/// `ia`: reads all the remaining input, trimmed, into a list of characters.
pub fn ia(io: &mut Io) -> (r: Value)
    requires
        io_wf(*old(io)),
    ensures
        io_wf(*final(io)),
        final(io).input == old(io).input,
        final(io).output == old(io).output,
        lit_view(r) == LitV::List(chars_to_lits(spec_trim(io_rem(*old(io))))),
        io_rem(*final(io)) == Seq::<char>::empty(),
{
    let ghost rem = io_rem(*old(io));
    let n = io.input.len();
    let line_val = trimmed_list(&io.input, io.pos, n);
    proof {
        assert(io.input@.subrange(io.pos as int, n as int) =~= rem);
    }
    io.pos = n;
    proof {
        assert(io_rem(*io) =~= Seq::<char>::empty());
    }
    line_val
}

/// Renders a popped value for the write instructions: a list of characters
/// prints bare, everything else prints as its literal text.
fn print_string(v: &Value) -> (r: String)
    ensures
        r@ == crate::semantics::print_text(v@),
{
    match v {
        Literal::List(l) => {
            match chars_of_char_list(l) {
                Option::Some(s) => s,
                Option::None => v.to_string(),
            }
        }
        _ => v.to_string(),
    }
}

/// `ol`: pops one value and writes its text and a newline.
pub fn ol(literal: Value, io: &mut Io) -> (r: Result<Value, String>)
    ensures
        r is Ok && r->Ok_0 == Literal::Nothing,
        final(io).input == old(io).input,
        final(io).pos == old(io).pos,
        final(io).output@ == old(io).output@ + crate::semantics::print_text(literal@) + seq!['\n'],
{
    let text = print_string(&literal);
    io.output.push_str(text.as_str());
    io.output.push('\n');
    Result::Ok(Literal::Nothing)
}

/// `ow`: pops one value and writes its text, with no newline.
pub fn ow(literal: Value, io: &mut Io) -> (r: Result<Value, String>)
    ensures
        r is Ok && r->Ok_0 == Literal::Nothing,
        final(io).input == old(io).input,
        final(io).pos == old(io).pos,
        final(io).output@ == old(io).output@ + crate::semantics::print_text(literal@),
{
    let text = print_string(&literal);
    io.output.push_str(text.as_str());
    Result::Ok(Literal::Nothing)
}


/// The evaluation runs out of shared budget before this many units of work.
pub const EVAL_FUEL: u64 = 1000000;

/// The result `r` with the machine left as `stack` and `io` realizes the
/// outcome `o`.
pub open spec fn runs_to(r: Result<(), String>, o: Outcome, stack: Seq<Value>, io: Io) -> bool {
    match r {
        Result::Ok(()) => o == Outcome::Done(state_of(stack, io)),
        Result::Err(e) => o == Outcome::Fail(state_of(stack, io), e@),
    }
}

fn budget_err() -> (r: String)
    ensures
        r@ == budget_msg(),
{
    "evaluation budget exhausted".to_owned()
}

/// `exec`: pops a block and runs its body against the current stack, so its
/// effects are fully visible to the caller.
pub fn exec(deque: &mut VecDeque<Value>, io: &mut Io, place: Place, fuel: u64) -> (r: Result<
    (),
    String,
>)
    requires
        io_wf(*old(io)),
    ensures
        io_wf(*final(io)),
        runs_to(
            r,
            sem_exec_instr(state_of(old(deque)@, *old(io)), place, fuel as nat),
            final(deque)@,
            *final(io),
        ),
    decreases fuel, 3int, 0int,
{
    match pop_place(deque, place) {
        Option::None => Result::Err("Failed to pop block".to_owned()),
        Option::Some(v) => {
            match v {
                Literal::Block(body) => {
                    if fuel == 0 {
                        Result::Err(budget_err())
                    } else {
                        eval_code(deque, io, &body, fuel - 1)
                    }
                }
                _ => Result::Err("exec: expected block".to_owned()),
            }
        }
    }
}

/// `loop`: pops a block and replays it against the current stack until an
/// error (or the budget) stops it; it never returns success.
#[verifier::loop_isolation(false)]
pub fn loop_instr(deque: &mut VecDeque<Value>, io: &mut Io, place: Place, fuel: u64) -> (r: Result<
    (),
    String,
>)
    requires
        io_wf(*old(io)),
    ensures
        io_wf(*final(io)),
        runs_to(
            r,
            sem_loop_instr(state_of(old(deque)@, *old(io)), place, fuel as nat),
            final(deque)@,
            *final(io),
        ),
    decreases fuel, 3int, 0int,
{
    match pop_place(deque, place) {
        Option::None => Result::Err("loop: failed to pop block".to_owned()),
        Option::Some(v) => {
            let ghost vv = lit_view(v);
            match v {
                Literal::Block(body) => {
                    let ghost bodyv = execs_view(body@);
                    let ghost st1 = state_of(deque@, *io);
                    proof {
                        assert(vv == LitV::Block(bodyv));
                        assert(sem_loop_instr(state_of(old(deque)@, *old(io)), place, fuel as nat)
                            == sem_loop(st1, bodyv, fuel as nat));
                    }
                    let mut k = fuel;
                    loop
                        invariant
                            io_wf(*io),
                            k <= fuel,
                            sem_loop(st1, bodyv, fuel as nat) == sem_loop(
                                state_of(deque@, *io),
                                bodyv,
                                k as nat,
                            ),
                        decreases k,
                    {
                        if k == 0 {
                            return Result::Err(budget_err());
                        }
                        match eval_code(deque, io, &body, k - 1) {
                            Result::Ok(()) => {
                                k = k - 1;
                            }
                            Result::Err(e) => {
                                return Result::Err(e);
                            }
                        }
                    }
                }
                _ => Result::Err("loop: expected block".to_owned()),
            }
        }
    }
}

/// `range`: pops lower bound, upper bound, increment and body, then pushes
/// each counter value and runs the body.
#[verifier::rlimit(100)]
#[verifier::spinoff_prover]
#[verifier::loop_isolation(false)]
pub fn range(deque: &mut VecDeque<Value>, io: &mut Io, place: Place, fuel: u64) -> (r: Result<
    (),
    String,
>)
    requires
        io_wf(*old(io)),
    ensures
        io_wf(*final(io)),
        runs_to(
            r,
            sem_range_instr(state_of(old(deque)@, *old(io)), place, fuel as nat),
            final(deque)@,
            *final(io),
        ),
    decreases fuel, 3int, 0int,
{
    let ghost s0 = lits_view(old(deque)@);
    let msg = "range: expected start, end, step, and block";
    let v0 = match pop_place(deque, place) {
        Option::None => {
            return Result::Err(msg.to_owned());
        }
        Option::Some(v) => v,
    };
    let ghost s1 = lits_view(deque@);
    let v1 = match pop_place(deque, place) {
        Option::None => {
            proof {
                assert(pop_n(s1, place, 3).0 =~= Seq::<LitV>::empty());
                assert(pop_n(s0, place, 4).0 =~= seq![lit_view(v0)]);
            }
            return Result::Err(msg.to_owned());
        }
        Option::Some(v) => v,
    };
    let ghost s2 = lits_view(deque@);
    let v2 = match pop_place(deque, place) {
        Option::None => {
            proof {
                assert(pop_n(s2, place, 2).0 =~= Seq::<LitV>::empty());
                assert(pop_n(s1, place, 3).0 =~= seq![lit_view(v1)]);
                assert(pop_n(s0, place, 4).0 =~= seq![lit_view(v0), lit_view(v1)]);
            }
            return Result::Err(msg.to_owned());
        }
        Option::Some(v) => v,
    };
    let ghost s3 = lits_view(deque@);
    let v3 = match pop_place(deque, place) {
        Option::None => {
            proof {
                assert(pop_n(s3, place, 1).0 =~= Seq::<LitV>::empty());
                assert(pop_n(s2, place, 2).0 =~= seq![lit_view(v2)]);
                assert(pop_n(s1, place, 3).0 =~= seq![lit_view(v1), lit_view(v2)]);
                assert(pop_n(s0, place, 4).0 =~= seq![lit_view(v0), lit_view(v1), lit_view(v2)]);
            }
            return Result::Err(msg.to_owned());
        }
        Option::Some(v) => v,
    };
    let ghost s4 = lits_view(deque@);
    proof {
        assert(pop_n(s4, place, 0).0 =~= Seq::<LitV>::empty());
        assert(pop_n(s3, place, 1).0 =~= seq![lit_view(v3)]);
        assert(pop_n(s2, place, 2).0 =~= seq![lit_view(v2), lit_view(v3)]);
        assert(pop_n(s1, place, 3).0 =~= seq![lit_view(v1), lit_view(v2), lit_view(v3)]);
        assert(pop_n(s0, place, 4).0 =~= seq![
            lit_view(v0),
            lit_view(v1),
            lit_view(v2),
            lit_view(v3),
        ]);
        assert(pop_n(s0, place, 4).0[0] == lit_view(v0));
        assert(pop_n(s0, place, 4).0[1] == lit_view(v1));
        assert(pop_n(s0, place, 4).0[2] == lit_view(v2));
        assert(pop_n(s0, place, 4).0[3] == lit_view(v3));
        assert(pop_n(s0, place, 4).1 == lits_view(deque@));
    }
    let ghost v0v = lit_view(v0);
    let ghost v1v = lit_view(v1);
    let ghost v2v = lit_view(v2);
    let ghost v3v = lit_view(v3);
    match (v0, v1, v2, &v3) {
        (Literal::Int(lower), Literal::Int(upper), Literal::Int(inc), Literal::Block(body)) => {
            let step = #[verifier::truncate] (inc as u64);
            if step == 0 {
                return Result::Err("range: step cannot be zero".to_owned());
            }
            let ghost bodyv = execs_view(body@);
            let ghost st1 = state_of(deque@, *io);
            proof {
                assert(v0v == LitV::Int(lower));
                assert(v1v == LitV::Int(upper));
                assert(v2v == LitV::Int(inc));
                assert(v3v == LitV::Block(bodyv));
                assert(sem_range_instr(state_of(old(deque)@, *old(io)), place, fuel as nat)
                    == sem_range(st1, lower, upper, step, bodyv, place, fuel as nat));
            }
            let mut cur = lower;
            if cur >= upper {
                return Result::Ok(());
            }
            loop
                invariant
                    io_wf(*io),
                    step == inc as u64,
                    step != 0,
                    cur < upper,
                    sem_range_instr(state_of(old(deque)@, *old(io)), place, fuel as nat)
                        == sem_range(
                        state_of(deque@, *io),
                        cur,
                        upper,
                        step,
                        bodyv,
                        place,
                        fuel as nat,
                    ),
                decreases upper - cur,
            {
                if fuel == 0 {
                    return Result::Err(budget_err());
                }
                push_place(deque, place, Literal::Int(cur));
                match eval_code(deque, io, body, fuel - 1) {
                    Result::Ok(()) => {}
                    Result::Err(e) => {
                        return Result::Err(e);
                    }
                }
                let next = cur as i128 + step as i128;
                if next > 0x7fff_ffff_ffff_ffffi128 {
                    return Result::Ok(());
                }
                let nexti = next as i64;
                if nexti >= upper {
                    proof {
                        assert(sem_range(
                            state_of(deque@, *io),
                            nexti,
                            upper,
                            step,
                            bodyv,
                            place,
                            fuel as nat,
                        ) == Outcome::Done(state_of(deque@, *io)));
                    }
                    return Result::Ok(());
                }
                cur = nexti;
            }
        }
        _ => Result::Err(msg.to_owned()),
    }
}

/// `while`: pops a condition block and a body block, and alternates them
/// while the condition result is truthy.
#[verifier::loop_isolation(false)]
pub fn while_instr(deque: &mut VecDeque<Value>, io: &mut Io, place: Place, fuel: u64) -> (r: Result<
    (),
    String,
>)
    requires
        io_wf(*old(io)),
    ensures
        io_wf(*final(io)),
        runs_to(
            r,
            sem_while_instr(state_of(old(deque)@, *old(io)), place, fuel as nat),
            final(deque)@,
            *final(io),
        ),
    decreases fuel, 3int, 0int,
{
    let ghost s0 = lits_view(old(deque)@);
    let v0 = match pop_place(deque, place) {
        Option::None => {
            return Result::Err("while: failed to pop block".to_owned());
        }
        Option::Some(v) => v,
    };
    let ghost s1 = lits_view(deque@);
    let v1 = match pop_place(deque, place) {
        Option::None => {
            proof {
                assert(pop_n(s1, place, 1).0 =~= Seq::<LitV>::empty());
                assert(pop_n(s0, place, 2).0 =~= seq![lit_view(v0)]);
            }
            return Result::Err("while: failed to pop block".to_owned());
        }
        Option::Some(v) => v,
    };
    let ghost s2 = lits_view(deque@);
    proof {
        assert(pop_n(s2, place, 0).0 =~= Seq::<LitV>::empty());
        assert(pop_n(s1, place, 1).0 =~= seq![lit_view(v1)]);
        assert(pop_n(s0, place, 2).0 =~= seq![lit_view(v0), lit_view(v1)]);
        assert(pop_n(s0, place, 2).0[0] == lit_view(v0));
        assert(pop_n(s0, place, 2).0[1] == lit_view(v1));
        assert(pop_n(s0, place, 2).1 == lits_view(deque@));
    }
    match (&v0, &v1) {
        (Literal::Block(cond), Literal::Block(body)) => {
            let ghost condv = execs_view(cond@);
            let ghost bodyv = execs_view(body@);
            let ghost st1 = state_of(deque@, *io);
            proof {
                assert(lit_view(v0) == LitV::Block(condv));
                assert(lit_view(v1) == LitV::Block(bodyv));
                assert(sem_while_instr(state_of(old(deque)@, *old(io)), place, fuel as nat)
                    == sem_while(st1, condv, bodyv, place, fuel as nat));
            }
            let mut k = fuel;
            loop
                invariant
                    io_wf(*io),
                    k <= fuel,
                    v0 is Block && v0->Block_0@ == cond@,
                    v1 is Block && v1->Block_0@ == body@,
                    sem_while(st1, condv, bodyv, place, fuel as nat) == sem_while(
                        state_of(deque@, *io),
                        condv,
                        bodyv,
                        place,
                        k as nat,
                    ),
                decreases k,
            {
                if k == 0 {
                    return Result::Err(budget_err());
                }
                match eval_code(deque, io, cond, k - 1) {
                    Result::Ok(()) => {}
                    Result::Err(e) => {
                        return Result::Err(e);
                    }
                }
                match pop_place(deque, place) {
                    Option::None => {
                        return Result::Err("while: failed to get condition result".to_owned());
                    }
                    Option::Some(v) => {
                        if !truthiness_of(v) {
                            return Result::Ok(());
                        }
                    }
                }
                match eval_code(deque, io, body, k - 1) {
                    Result::Ok(()) => {}
                    Result::Err(e) => {
                        return Result::Err(e);
                    }
                }
                k = k - 1;
            }
        }
        (Literal::Block(_), _) => Result::Err("while: expected loop body block".to_owned()),
        _ => Result::Err("while: expected condition block".to_owned()),
    }
}

/// `ite`: pops condition, true and false blocks, runs the condition, and
/// runs the branch its truthiness picks.
pub fn ite(deque: &mut VecDeque<Value>, io: &mut Io, place: Place, fuel: u64) -> (r: Result<
    (),
    String,
>)
    requires
        io_wf(*old(io)),
    ensures
        io_wf(*final(io)),
        runs_to(
            r,
            sem_ite_instr(state_of(old(deque)@, *old(io)), place, fuel as nat),
            final(deque)@,
            *final(io),
        ),
    decreases fuel, 3int, 0int,
{
    let ghost s0 = lits_view(old(deque)@);
    let msg = "ite: expected condition, true, and false blocks";
    let v0 = match pop_place(deque, place) {
        Option::None => {
            return Result::Err(msg.to_owned());
        }
        Option::Some(v) => v,
    };
    let ghost s1 = lits_view(deque@);
    let v1 = match pop_place(deque, place) {
        Option::None => {
            proof {
                assert(pop_n(s1, place, 2).0 =~= Seq::<LitV>::empty());
                assert(pop_n(s0, place, 3).0 =~= seq![lit_view(v0)]);
            }
            return Result::Err(msg.to_owned());
        }
        Option::Some(v) => v,
    };
    let ghost s2 = lits_view(deque@);
    let v2 = match pop_place(deque, place) {
        Option::None => {
            proof {
                assert(pop_n(s2, place, 1).0 =~= Seq::<LitV>::empty());
                assert(pop_n(s1, place, 2).0 =~= seq![lit_view(v1)]);
                assert(pop_n(s0, place, 3).0 =~= seq![lit_view(v0), lit_view(v1)]);
            }
            return Result::Err(msg.to_owned());
        }
        Option::Some(v) => v,
    };
    let ghost s3 = lits_view(deque@);
    proof {
        assert(pop_n(s3, place, 0).0 =~= Seq::<LitV>::empty());
        assert(pop_n(s2, place, 1).0 =~= seq![lit_view(v2)]);
        assert(pop_n(s1, place, 2).0 =~= seq![lit_view(v1), lit_view(v2)]);
        assert(pop_n(s0, place, 3).0 =~= seq![lit_view(v0), lit_view(v1), lit_view(v2)]);
        assert(pop_n(s0, place, 3).0[0] == lit_view(v0));
        assert(pop_n(s0, place, 3).0[1] == lit_view(v1));
        assert(pop_n(s0, place, 3).0[2] == lit_view(v2));
        assert(pop_n(s0, place, 3).1 == lits_view(deque@));
    }
    match (&v0, &v1, &v2) {
        (Literal::Block(cond), Literal::Block(tbody), Literal::Block(fbody)) => {
            proof {
                assert(lit_view(v0) == LitV::Block(execs_view(cond@)));
                assert(lit_view(v1) == LitV::Block(execs_view(tbody@)));
                assert(lit_view(v2) == LitV::Block(execs_view(fbody@)));
            }
            if fuel == 0 {
                return Result::Err(budget_err());
            }
            match eval_code(deque, io, cond, fuel - 1) {
                Result::Ok(()) => {}
                Result::Err(e) => {
                    return Result::Err(e);
                }
            }
            match pop_place(deque, place) {
                Option::None => Result::Err("ite: failed to get condition result".to_owned()),
                Option::Some(v) => {
                    if truthiness_of(v) {
                        eval_code(deque, io, tbody, fuel - 1)
                    } else {
                        eval_code(deque, io, fbody, fuel - 1)
                    }
                }
            }
        }
        _ => Result::Err(msg.to_owned()),
    }
}

/// `map`: runs the block once per element of the list against a fresh stack
/// seeded with that element, reading one result back per element.
#[verifier::loop_isolation(false)]
pub fn map(list: Value, block: Value, io: &mut Io, fuel: u64) -> (r: Result<Value, String>)
    requires
        io_wf(*old(io)),
        list@ is List,
        block@ is Block,
    ensures
        io_wf(*final(io)),
        ({
            let o = sem_map_elems(
                StV {
                    stack: Seq::empty(),
                    input: io_rem(*old(io)),
                    output: old(io).output@,
                },
                list@->List_0,
                block@->Block_0,
                fuel as nat,
            );
            match r {
                Result::Ok(v) => o is Done && o->Done_0.stack == lit_view(v)->List_0 && lit_view(
                    v,
                ) is List && o->Done_0.input == io_rem(*final(io)) && o->Done_0.output == final(io).output@,
                Result::Err(e) => o is Fail && o->Fail_0.input == io_rem(*final(io))
                    && o->Fail_0.output == final(io).output@ && o->Fail_1 == e@,
            }
        }),
    decreases fuel, 3int, 0int,
{
    let (l, body) = match (list, block) {
        (Literal::List(l), Literal::Block(b)) => (l, b),
        _ => {
            return Result::Err("invalid operands for map".to_owned());
        }
    };
    let ghost items = lits_view(l@);
    let ghost bodyv = execs_view(body@);
    let ghost io0 = *io;
    let mut results: Vec<Literal> = Vec::new();
    let mut j: usize = 0;
    proof {
        assert(lits_view(results@) =~= Seq::<LitV>::empty());
        assert(items.skip(0) =~= items);
    }
    while j < l.len()
        invariant
            io_wf(*io),
            j <= l@.len(),
            items == lits_view(l@),
            bodyv == execs_view(body@),
            sem_map_elems(
                StV { stack: Seq::empty(), input: io_rem(io0), output: io0.output@ },
                items,
                bodyv,
                fuel as nat,
            ) == sem_map_elems(
                StV {
                    stack: lits_view(results@),
                    input: io_rem(*io),
                    output: io.output@,
                },
                items.skip(j as int),
                bodyv,
                fuel as nat,
            ),
        decreases l@.len() - j,
    {
        proof {
            assert(items.skip(j as int).len() == items.len() - j);
            assert(items.skip(j as int)[0] == items[j as int]);
        }
        if fuel == 0 {
            return Result::Err(budget_err());
        }
        let mut tmp: VecDeque<Value> = VecDeque::new();
        let elem = l[j].clone();
        proof {
            assert(lit_view(elem) == items[j as int]);
            assert(lits_view(tmp@) =~= Seq::<LitV>::empty());
        }
        tmp.push_front(elem);
        proof {
            assert(tmp@ =~= seq![tmp@[0]]);
            lits_view_concat(seq![tmp@[0]], Seq::empty());
            assert(lits_view(tmp@) =~= seq![items[j as int]]);
        }
        match eval_code(&mut tmp, io, &body, fuel - 1) {
            Result::Ok(()) => {}
            Result::Err(e) => {
                return Result::Err(e);
            }
        }
        match pop_place(&mut tmp, Place::Left) {
            Option::None => {
                return Result::Err("map: block produced no result".to_owned());
            }
            Option::Some(res) => {
                let ghost prev = lits_view(results@);
                proof {
                    crate::values::lits_view_push(results@, res);
                    crate::strutil::skip_skip_lits(items, j as int, 1);
                }
                results.push(res);
                proof {
                    assert(lits_view(results@) =~= prev.push(lit_view(res)));
                    assert(items.skip(j as int).skip(1) =~= items.skip(j + 1));
                }
            }
        }
        j += 1;
    }
    proof {
        assert(items.skip(l@.len() as int) =~= Seq::<LitV>::empty());
    }
    Result::Ok(Literal::List(results))
}


/// `filter`: runs the block once per element and keeps the elements whose
/// result is the boolean true.
#[verifier::loop_isolation(false)]
pub fn filter(list: Value, block: Value, io: &mut Io, fuel: u64) -> (r: Result<Value, String>)
    requires
        io_wf(*old(io)),
        list@ is List,
        block@ is Block,
    ensures
        io_wf(*final(io)),
        ({
            let o = sem_filter_elems(
                StV { stack: Seq::empty(), input: io_rem(*old(io)), output: old(io).output@ },
                list@->List_0,
                block@->Block_0,
                fuel as nat,
            );
            match r {
                Result::Ok(v) => o is Done && o->Done_0.stack == lit_view(v)->List_0 && lit_view(
                    v,
                ) is List && o->Done_0.input == io_rem(*final(io)) && o->Done_0.output == final(io).output@,
                Result::Err(e) => o is Fail && o->Fail_0.input == io_rem(*final(io))
                    && o->Fail_0.output == final(io).output@ && o->Fail_1 == e@,
            }
        }),
    decreases fuel, 3int, 0int,
{
    let (l, body) = match (list, block) {
        (Literal::List(l), Literal::Block(b)) => (l, b),
        _ => {
            return Result::Err("invalid operands for filter".to_owned());
        }
    };
    let ghost items = lits_view(l@);
    let ghost bodyv = execs_view(body@);
    let ghost io0 = *io;
    let mut results: Vec<Literal> = Vec::new();
    let mut j: usize = 0;
    proof {
        assert(lits_view(results@) =~= Seq::<LitV>::empty());
        assert(items.skip(0) =~= items);
    }
    while j < l.len()
        invariant
            io_wf(*io),
            j <= l@.len(),
            items == lits_view(l@),
            bodyv == execs_view(body@),
            sem_filter_elems(
                StV { stack: Seq::empty(), input: io_rem(io0), output: io0.output@ },
                items,
                bodyv,
                fuel as nat,
            ) == sem_filter_elems(
                StV { stack: lits_view(results@), input: io_rem(*io), output: io.output@ },
                items.skip(j as int),
                bodyv,
                fuel as nat,
            ),
        decreases l@.len() - j,
    {
        proof {
            assert(items.skip(j as int).len() == items.len() - j);
            assert(items.skip(j as int)[0] == items[j as int]);
        }
        if fuel == 0 {
            return Result::Err(budget_err());
        }
        let mut tmp: VecDeque<Value> = VecDeque::new();
        let elem = l[j].clone();
        proof {
            assert(lit_view(elem) == items[j as int]);
            assert(lits_view(tmp@) =~= Seq::<LitV>::empty());
        }
        tmp.push_front(elem);
        proof {
            assert(tmp@ =~= seq![tmp@[0]]);
            lits_view_concat(seq![tmp@[0]], Seq::empty());
            assert(lits_view(tmp@) =~= seq![items[j as int]]);
        }
        match eval_code(&mut tmp, io, &body, fuel - 1) {
            Result::Ok(()) => {}
            Result::Err(e) => {
                return Result::Err(e);
            }
        }
        match pop_place(&mut tmp, Place::Left) {
            Option::None => {
                return Result::Err("filter: block produced no result".to_owned());
            }
            Option::Some(res) => {
                let keep = matches!(res, Literal::Bool(true));
                let ghost prev = lits_view(results@);
                proof {
                    assert(keep == (lit_view(res) == LitV::Bool(true)));
                    crate::strutil::skip_skip_lits(items, j as int, 1);
                    assert(items.skip(j as int).skip(1) =~= items.skip(j + 1));
                }
                if keep {
                    let kept = l[j].clone();
                    proof {
                        assert(lit_view(kept) == items[j as int]);
                        crate::values::lits_view_push(results@, kept);
                    }
                    results.push(kept);
                    proof {
                        assert(lits_view(results@) =~= prev.push(items[j as int]));
                    }
                }
            }
        }
        j += 1;
    }
    proof {
        assert(items.skip(l@.len() as int) =~= Seq::<LitV>::empty());
    }
    Result::Ok(Literal::List(results))
}

/// `reduce`: folds the block over the elements; each run sees a fresh stack
/// with the element at the front and the running accumulator at the back.
#[verifier::loop_isolation(false)]
pub fn reduce(list: Value, accumulator: Value, block: Value, io: &mut Io, fuel: u64) -> (r: Result<
    Value,
    String,
>)
    requires
        io_wf(*old(io)),
        list@ is List,
        block@ is Block,
    ensures
        io_wf(*final(io)),
        ({
            let o = sem_reduce_elems(
                StV { stack: Seq::empty(), input: io_rem(*old(io)), output: old(io).output@ },
                accumulator@,
                list@->List_0,
                block@->Block_0,
                fuel as nat,
            );
            match r {
                Result::Ok(v) => o is Done && o->Done_0.stack == seq![lit_view(v)]
                    && o->Done_0.input == io_rem(*final(io)) && o->Done_0.output == final(io).output@,
                Result::Err(e) => o is Fail && o->Fail_0.input == io_rem(*final(io))
                    && o->Fail_0.output == final(io).output@ && o->Fail_1 == e@,
            }
        }),
    decreases fuel, 3int, 0int,
{
    let (l, body) = match (list, block) {
        (Literal::List(l), Literal::Block(b)) => (l, b),
        _ => {
            return Result::Err("invalid operands for reduce".to_owned());
        }
    };
    let ghost items = lits_view(l@);
    let ghost bodyv = execs_view(body@);
    let ghost io0 = *io;
    let mut acc = accumulator;
    let mut j: usize = 0;
    proof {
        assert(items.skip(0) =~= items);
    }
    while j < l.len()
        invariant
            io_wf(*io),
            j <= l@.len(),
            items == lits_view(l@),
            bodyv == execs_view(body@),
            sem_reduce_elems(
                StV { stack: Seq::empty(), input: io_rem(io0), output: io0.output@ },
                accumulator@,
                items,
                bodyv,
                fuel as nat,
            ) == sem_reduce_elems(
                StV { stack: Seq::empty(), input: io_rem(*io), output: io.output@ },
                lit_view(acc),
                items.skip(j as int),
                bodyv,
                fuel as nat,
            ),
        decreases l@.len() - j,
    {
        proof {
            assert(items.skip(j as int).len() == items.len() - j);
            assert(items.skip(j as int)[0] == items[j as int]);
        }
        if fuel == 0 {
            return Result::Err(budget_err());
        }
        let mut tmp: VecDeque<Value> = VecDeque::new();
        let elem = l[j].clone();
        proof {
            assert(lit_view(elem) == items[j as int]);
            assert(lits_view(tmp@) =~= Seq::<LitV>::empty());
        }
        tmp.push_front(elem);
        let ghost one = lits_view(tmp@);
        proof {
            assert(tmp@ =~= seq![tmp@[0]]);
            lits_view_concat(seq![tmp@[0]], Seq::empty());
            assert(one =~= seq![items[j as int]]);
        }
        let ghost accv = lit_view(acc);
        let ghost tmp_before = tmp@;
        tmp.push_back(acc);
        proof {
            crate::values::lits_view_push(tmp_before, tmp@.last());
            assert(tmp@ == tmp_before.push(tmp@.last()));
            assert(lit_view(tmp@.last()) == accv);
            assert(lits_view(tmp@) =~= seq![items[j as int], accv]);
        }
        match eval_code(&mut tmp, io, &body, fuel - 1) {
            Result::Ok(()) => {}
            Result::Err(e) => {
                return Result::Err(e);
            }
        }
        match pop_place(&mut tmp, Place::Left) {
            Option::None => {
                return Result::Err("reduce: block produced no result".to_owned());
            }
            Option::Some(res) => {
                proof {
                    crate::strutil::skip_skip_lits(items, j as int, 1);
                }
                acc = res;
            }
        }
        j += 1;
    }
    proof {
        assert(items.skip(l@.len() as int) =~= Seq::<LitV>::empty());
    }
    Result::Ok(acc)
}


/// Runs a block value's body against the current stack; a non-block value
/// is ignored.
pub fn exec_block(deque: &mut VecDeque<Value>, io: &mut Io, block: &Value, fuel: u64) -> (r: Result<
    (),
    String,
>)
    requires
        io_wf(*old(io)),
    ensures
        io_wf(*final(io)),
        block@ is Block ==> runs_to(
            r,
            sem_code(state_of(old(deque)@, *old(io)), block@->Block_0, fuel as nat),
            final(deque)@,
            *final(io),
        ),
        !(block@ is Block) ==> r is Ok && final(deque)@ == old(deque)@ && *final(io) == *old(io),
    decreases fuel, 7int, 0int,
{
    match block {
        Literal::Block(body) => eval_code(deque, io, body, fuel),
        _ => Result::Ok(()),
    }
}

/// Runs one sided step: a literal pushes its value; an instruction
/// dispatches by name.
pub fn eval_exec_step(deque: &mut VecDeque<Value>, io: &mut Io, e: &Exec, fuel: u64) -> (r: Result<
    (),
    String,
>)
    requires
        io_wf(*old(io)),
    ensures
        io_wf(*final(io)),
        runs_to(
            r,
            sem_exec_step(state_of(old(deque)@, *old(io)), e@, fuel as nat),
            final(deque)@,
            *final(io),
        ),
    decreases fuel, 5int, 0int,
{
    match e {
        Exec::Left(op) => {
            match op {
                Op::Literal(l) => {
                    let c = l.clone();
                    proof {
                        assert(lit_view(c) == crate::values::op_view(*op)->Literal_0);
                    }
                    push_place(deque, Place::Left, c);
                    Result::Ok(())
                }
                Op::Instruction(name) => call_instr(deque, io, name.clone(), Place::Left, fuel),
            }
        }
        Exec::Right(op) => {
            match op {
                Op::Literal(l) => {
                    let c = l.clone();
                    proof {
                        assert(lit_view(c) == crate::values::op_view(*op)->Literal_0);
                    }
                    push_place(deque, Place::Right, c);
                    Result::Ok(())
                }
                Op::Instruction(name) => call_instr(deque, io, name.clone(), Place::Right, fuel),
            }
        }
    }
}

/// Runs a sequence of sided steps in order, stopping at the first error.
#[verifier::loop_isolation(false)]
pub fn eval_code(deque: &mut VecDeque<Value>, io: &mut Io, code: &Vec<Exec>, fuel: u64) -> (r:
    Result<(), String>)
    requires
        io_wf(*old(io)),
    ensures
        io_wf(*final(io)),
        runs_to(
            r,
            sem_code(state_of(old(deque)@, *old(io)), execs_view(code@), fuel as nat),
            final(deque)@,
            *final(io),
        ),
    decreases fuel, 6int, 0int,
{
    let ghost cv = execs_view(code@);
    let ghost st0 = state_of(old(deque)@, *old(io));
    let mut i: usize = 0;
    proof {
        assert(cv.skip(0) =~= cv);
    }
    while i < code.len()
        invariant
            io_wf(*io),
            i <= code@.len(),
            sem_code(st0, cv, fuel as nat) == sem_code(
                state_of(deque@, *io),
                cv.skip(i as int),
                fuel as nat,
            ),
        decreases code@.len() - i,
    {
        proof {
            assert(cv.skip(i as int).len() == cv.len() - i);
            assert(cv.skip(i as int)[0] == cv[i as int]);
            assert(cv[i as int] == crate::values::exec_view(code@[i as int]));
        }
        match eval_exec_step(deque, io, &code[i], fuel) {
            Result::Ok(()) => {}
            Result::Err(e) => {
                return Result::Err(e);
            }
        }
        proof {
            skip_skip_execs(cv, i as int, 1);
        }
        i += 1;
    }
    proof {
        assert(cv.skip(code@.len() as int) =~= Seq::<ExecV>::empty());
    }
    Result::Ok(())
}

/// Looks one instruction name up and runs its handler at the given end.
/// An unknown name — including `exp` and `log`, which stand for
/// transcendental float operations no verified implementation covers — is
/// an error naming the instruction.
#[verifier::rlimit(100)]
#[verifier::spinoff_prover]
pub fn call_instr(deque: &mut VecDeque<Value>, io: &mut Io, instr: String, place: Place, fuel: u64) -> (r: Result<(), String>)
    requires
        io_wf(*old(io)),
    ensures
        io_wf(*final(io)),
        runs_to(
            r,
            sem_instr(state_of(old(deque)@, *old(io)), instr@, place, fuel as nat),
            final(deque)@,
            *final(io),
        ),
    decreases fuel, 4int, 1int,
{
    let s = instr.as_str();
    if str_eq(s, "clear") || str_eq(s, "pop") || str_eq(s, "dup") || str_eq(s, "rot") || str_eq(
        s,
        "over",
    ) || str_eq(s, "swap") || str_eq(s, "len") {
        stack_instr_apply(deque, io, &instr, place)
    } else if str_eq(s, "toInt") {
        unary_apply(deque, io, place, UnOp::ToInt)
    } else if str_eq(s, "toFloat") {
        unary_apply(deque, io, place, UnOp::ToFloat)
    } else if str_eq(s, "toChar") {
        unary_apply(deque, io, place, UnOp::ToChar)
    } else if str_eq(s, "toBool") {
        unary_apply(deque, io, place, UnOp::ToBool)
    } else if str_eq(s, "+") {
        binary_apply(deque, io, place, BinOp::Add)
    } else if str_eq(s, "-") {
        binary_apply(deque, io, place, BinOp::Sub)
    } else if str_eq(s, "*") {
        binary_apply(deque, io, place, BinOp::Mult)
    } else if str_eq(s, "/") {
        binary_apply(deque, io, place, BinOp::IntDiv)
    } else if str_eq(s, "//") {
        binary_apply(deque, io, place, BinOp::FloatDiv)
    } else if str_eq(s, "%") {
        binary_apply(deque, io, place, BinOp::Modulo)
    } else if str_eq(s, "--") {
        unary_apply(deque, io, place, UnOp::Neg)
    } else if str_eq(s, "&") {
        binary_apply(deque, io, place, BinOp::BitAnd)
    } else if str_eq(s, "|") {
        binary_apply(deque, io, place, BinOp::BitOr)
    } else if str_eq(s, "^") {
        binary_apply(deque, io, place, BinOp::BitXor)
    } else if str_eq(s, "n") {
        unary_apply(deque, io, place, UnOp::BitNot)
    } else if str_eq(s, "=") {
        binary_apply(deque, io, place, BinOp::CmpEq)
    } else if str_eq(s, "ne") {
        binary_apply(deque, io, place, BinOp::CmpNeq)
    } else if str_eq(s, "<") {
        binary_apply(deque, io, place, BinOp::CmpLt)
    } else if str_eq(s, ">") {
        binary_apply(deque, io, place, BinOp::CmpGt)
    } else if str_eq(s, "<=") {
        binary_apply(deque, io, place, BinOp::CmpLeq)
    } else if str_eq(s, ">=") {
        binary_apply(deque, io, place, BinOp::CmpGeq)
    } else if str_eq(s, "nn") {
        unary_apply(deque, io, place, UnOp::LogNot)
    } else if str_eq(s, "&&") {
        binary_apply(deque, io, place, BinOp::LogAnd)
    } else if str_eq(s, "||") {
        binary_apply(deque, io, place, BinOp::LogOr)
    } else if str_eq(s, "l+") {
        binary_apply(deque, io, place, BinOp::ListCat)
    } else if str_eq(s, "lj") {
        binary_apply(deque, io, place, BinOp::ListJoin)
    } else if str_eq(s, "l/") {
        ternary_apply_slice(deque, io, place)
    } else if str_eq(s, "li") {
        binary_apply(deque, io, place, BinOp::ListIndex)
    } else if str_eq(s, "ll") {
        unary_apply(deque, io, place, UnOp::ListLen)
    } else if str_eq(s, "lb") {
        bundle_apply(deque, io, place)
    } else if str_eq(s, "ld") {
        spread_apply(deque, io, place)
    } else if str_eq(s, "map") {
        combinator_apply(deque, io, place, fuel, 0)
    } else if str_eq(s, "filter") {
        combinator_apply(deque, io, place, fuel, 1)
    } else if str_eq(s, "reduce") {
        reduce_apply(deque, io, place, fuel)
    } else if str_eq(s, "exec") {
        crate::evaluator::exec(deque, io, place, fuel)
    } else if str_eq(s, "loop") {
        loop_instr(deque, io, place, fuel)
    } else if str_eq(s, "range") {
        range(deque, io, place, fuel)
    } else if str_eq(s, "while") {
        while_instr(deque, io, place, fuel)
    } else if str_eq(s, "ite") {
        ite(deque, io, place, fuel)
    } else if str_eq(s, "il") {
        let v = il(io);
        push_place(deque, place, v);
        Result::Ok(())
    } else if str_eq(s, "ia") {
        let v = ia(io);
        push_place(deque, place, v);
        Result::Ok(())
    } else if str_eq(s, "ol") {
        match pop_place(deque, place) {
            Option::None => Result::Err("tried to pop empty deque".to_owned()),
            Option::Some(v) => {
                match ol(v, io) {
                    Result::Ok(_) => Result::Ok(()),
                    Result::Err(e) => Result::Err(e),
                }
            }
        }
    } else if str_eq(s, "ow") {
        match pop_place(deque, place) {
            Option::None => Result::Err("tried to pop empty deque".to_owned()),
            Option::Some(v) => {
                match ow(v, io) {
                    Result::Ok(_) => Result::Ok(()),
                    Result::Err(e) => Result::Err(e),
                }
            }
        }
    } else {
        let mut m = "Unknown instruction: ".to_owned();
        m.push_str(instr.as_str());
        Result::Err(m)
    }
}

/// Pops a list and a block and runs `map` (`which == 0`) or `filter`.
fn combinator_apply(deque: &mut VecDeque<Value>, io: &mut Io, place: Place, fuel: u64, which: u8) -> (r: Result<(), String>)
    requires
        io_wf(*old(io)),
        which == 0 || which == 1,
    ensures
        io_wf(*final(io)),
        which == 0 ==> runs_to(
            r,
            sem_map_instr(state_of(old(deque)@, *old(io)), place, fuel as nat),
            final(deque)@,
            *final(io),
        ),
        which == 1 ==> runs_to(
            r,
            sem_filter_instr(state_of(old(deque)@, *old(io)), place, fuel as nat),
            final(deque)@,
            *final(io),
        ),
    decreases fuel, 4int, 0int,
{
    let ghost st0 = lits_view(old(deque)@);
    match pop_place(deque, place) {
        Option::None => Result::Err("tried to pop empty deque".to_owned()),
        Option::Some(a) => {
            let ghost rest1 = lits_view(deque@);
            match pop_place(deque, place) {
                Option::None => {
                    push_place(deque, place, a);
                    proof {
                        restore_one(st0, place);
                    }
                    Result::Err("tried to pop empty deque".to_owned())
                }
                Option::Some(b) => {
                    let a_list = matches!(a, Literal::List(_));
                    let b_block = matches!(b, Literal::Block(_));
                    proof {
                        assert(a_list == (lit_view(a) is List));
                        assert(b_block == (lit_view(b) is Block));
                    }
                    if a_list && b_block {
                        let res = if which == 0 {
                            map(a, b, io, fuel)
                        } else {
                            filter(a, b, io, fuel)
                        };
                        match res {
                            Result::Ok(v) => {
                                push_place(deque, place, v);
                                Result::Ok(())
                            }
                            Result::Err(e) => Result::Err(e),
                        }
                    } else {
                        push_place(deque, place, b);
                        push_place(deque, place, a);
                        proof {
                            restore_one(rest1, place);
                            restore_one(st0, place);
                        }
                        let msg = if which == 0 {
                            "invalid operands for map"
                        } else {
                            "invalid operands for filter"
                        };
                        Result::Err(msg.to_owned())
                    }
                }
            }
        }
    }
}

/// Pops a list, an accumulator and a block and folds the block over the
/// elements.
fn reduce_apply(deque: &mut VecDeque<Value>, io: &mut Io, place: Place, fuel: u64) -> (r: Result<
    (),
    String,
>)
    requires
        io_wf(*old(io)),
    ensures
        io_wf(*final(io)),
        runs_to(
            r,
            sem_reduce_instr(state_of(old(deque)@, *old(io)), place, fuel as nat),
            final(deque)@,
            *final(io),
        ),
    decreases fuel, 4int, 0int,
{
    let ghost st0 = lits_view(old(deque)@);
    match pop_place(deque, place) {
        Option::None => Result::Err("tried to pop empty deque".to_owned()),
        Option::Some(a) => {
            let ghost rest1 = lits_view(deque@);
            match pop_place(deque, place) {
                Option::None => {
                    push_place(deque, place, a);
                    proof {
                        restore_one(st0, place);
                    }
                    Result::Err("tried to pop empty deque".to_owned())
                }
                Option::Some(b) => {
                    let ghost rest2 = lits_view(deque@);
                    match pop_place(deque, place) {
                        Option::None => {
                            push_place(deque, place, b);
                            push_place(deque, place, a);
                            proof {
                                restore_one(rest1, place);
                                restore_one(st0, place);
                            }
                            Result::Err("tried to pop empty deque".to_owned())
                        }
                        Option::Some(c) => {
                            let a_list = matches!(a, Literal::List(_));
                            let c_block = matches!(c, Literal::Block(_));
                            proof {
                                assert(a_list == (lit_view(a) is List));
                                assert(c_block == (lit_view(c) is Block));
                            }
                            if a_list && c_block {
                                match reduce(a, b, c, io, fuel) {
                                    Result::Ok(v) => {
                                        push_place(deque, place, v);
                                        Result::Ok(())
                                    }
                                    Result::Err(e) => Result::Err(e),
                                }
                            } else {
                                push_place(deque, place, c);
                                push_place(deque, place, b);
                                push_place(deque, place, a);
                                proof {
                                    restore_one(rest2, place);
                                    restore_one(rest1, place);
                                    restore_one(st0, place);
                                }
                                Result::Err("invalid operands for reduce".to_owned())
                            }
                        }
                    }
                }
            }
        }
    }
}

/// Runs a parsed program against an optional starting stack, with no input
/// and the output discarded; the result is the final stack, or the error
/// that stopped the run.
pub fn run_ast(deque: Option<VecDeque<Value>>, ast: Code) -> (r: Result<VecDeque<Value>, String>)
    ensures
        ({
            let st0 = StV {
                stack: lits_view(
                    match deque {
                        Option::Some(d) => d@,
                        Option::None => Seq::empty(),
                    },
                ),
                input: Seq::empty(),
                output: Seq::empty(),
            };
            let o = sem_code(st0, execs_view(ast@), EVAL_FUEL as nat);
            match r {
                Result::Ok(d) => o is Done && o->Done_0.stack == lits_view(d@),
                Result::Err(e) => o is Fail && o->Fail_1 == e@,
            }
        }),
{
    proof {
        reveal_strlit("");
        assert(""@ =~= Seq::<char>::empty());
    }
    let (result, _) = run_ast_with_io(deque, ast, "");
    result
}

/// Runs a parsed program with the given text as its input source; returns
/// the run's result beside everything the program wrote.
pub fn run_ast_with_io(deque: Option<VecDeque<Value>>, ast: Code, input: &str) -> (r: (
    Result<VecDeque<Value>, String>,
    String,
))
    ensures
        ({
            let st0 = StV {
                stack: lits_view(
                    match deque {
                        Option::Some(d) => d@,
                        Option::None => Seq::empty(),
                    },
                ),
                input: input@,
                output: Seq::empty(),
            };
            let o = sem_code(st0, execs_view(ast@), EVAL_FUEL as nat);
            match r.0 {
                Result::Ok(d) => o is Done && o->Done_0.stack == lits_view(d@) && o->Done_0.output
                    == (r.1)@,
                Result::Err(e) => o is Fail && o->Fail_1 == e@ && o->Fail_0.output == (r.1)@,
            }
        }),
{
    let (stack, res, output) = run_program(deque, ast, input);
    match res {
        Result::Ok(()) => (Result::Ok(stack), output),
        Result::Err(e) => (Result::Err(e), output),
    }
}

/// Runs a parsed program with the given text as its input source, and
/// always hands the stack back: the final stack on success, or the stack in
/// the state it had reached when the error arose, so a caller can display
/// both the message and the stack.
pub fn run_program(deque: Option<VecDeque<Value>>, ast: Code, input: &str) -> (r: (
    VecDeque<Value>,
    Result<(), String>,
    String,
))
    ensures
        ({
            let st0 = StV {
                stack: lits_view(
                    match deque {
                        Option::Some(d) => d@,
                        Option::None => Seq::empty(),
                    },
                ),
                input: input@,
                output: Seq::empty(),
            };
            let o = sem_code(st0, execs_view(ast@), EVAL_FUEL as nat);
            match r.1 {
                Result::Ok(()) => o == Outcome::Done(
                    StV { stack: lits_view(r.0@), input: o->Done_0.input, output: (r.2)@ },
                ),
                Result::Err(e) => o == Outcome::Fail(
                    StV { stack: lits_view(r.0@), input: o->Fail_0.input, output: (r.2)@ },
                    e@,
                ),
            }
        }),
{
    let mut stack = match deque {
        Option::Some(d) => d,
        Option::None => VecDeque::new(),
    };
    let mut io = Io { input: chars_of(input), pos: 0, output: String::new() };
    proof {
        assert(io_rem(io) =~= input@);
        if deque is None {
            assert(lits_view(stack@) =~= lits_view(Seq::<Value>::empty()));
        }
    }
    let res = eval_code(&mut stack, &mut io, &ast, EVAL_FUEL);
    let Io { input: _, pos: _, output } = io;
    (stack, res, output)
}

/// Skipping `j` then `k` steps skips `j + k`.
proof fn skip_skip_execs(s: Seq<ExecV>, j: int, k: int)
    requires
        0 <= j,
        0 <= k,
        j + k <= s.len(),
    ensures
        s.skip(j).skip(k) =~= s.skip(j + k),
{
    assert forall|i: int| 0 <= i < s.skip(j).skip(k).len() implies s.skip(j).skip(k)[i] == s.skip(
        j + k,
    )[i] by {
        assert(s.skip(j).skip(k)[i] == s.skip(j)[i + k]);
        assert(s.skip(j)[i + k] == s[j + i + k]);
        assert(s.skip(j + k)[i] == s[j + k + i]);
    }
}


} // verus!
