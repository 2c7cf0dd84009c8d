//! The abstract syntax tree and runtime values.
//!
//! Interpreter values and literal syntax share one representation: a `Block`
//! owns its body, a source string becomes a `List` of `Char`, and the
//! `Nothing` marker stands for "no value produced" and is never created by
//! the parser.  Every type has a mathematical view (`LitV`, `OpV`, `ExecV`)
//! that the contracts of the lexer, parser and evaluator are stated over.
use vstd::prelude::*;

verus! {

/// Mathematical model of a [`Literal`].
pub enum LitV {
    Int(i64),
    Float(u64),
    Bool(bool),
    Char(char),
    List(Seq<LitV>),
    Block(Seq<ExecV>),
    Nothing,
}

/// Mathematical model of an [`Op`].
pub enum OpV {
    Literal(LitV),
    Instruction(Seq<char>),
}

/// Mathematical model of an [`Exec`].
pub enum ExecV {
    Left(OpV),
    Right(OpV),
}

/// A literal value: integers, floats (as IEEE-754 bit patterns), booleans,
/// characters, lists of literals, and unevaluated blocks of code.
#[derive(Debug, PartialEq)]
pub enum Literal {
    Int(i64),
    Float(u64),
    Bool(bool),
    Char(char),
    List(Vec<Literal>),
    Block(Vec<Exec>),
    Nothing,
}

/// An operation: a literal to push, or a named instruction to run.
#[derive(Debug, PartialEq)]
pub enum Op {
    Literal(Literal),
    Instruction(String),
}

/// One sided step of a program: the operation and the stack end it targets.
#[derive(Debug, PartialEq)]
pub enum Exec {
    Left(Op),
    Right(Op),
}

/// A parsed program: an ordered sequence of sided operations.
pub type Code = Vec<Exec>;

/// Runtime values share the literal representation.
pub type Value = Literal;

pub open spec fn lit_view(l: Literal) -> LitV
    decreases l,
{
    match l {
        Literal::Int(i) => LitV::Int(i),
        Literal::Float(b) => LitV::Float(b),
        Literal::Bool(b) => LitV::Bool(b),
        Literal::Char(c) => LitV::Char(c),
        Literal::List(v) => LitV::List(lits_view(v@)),
        Literal::Block(b) => LitV::Block(execs_view(b@)),
        Literal::Nothing => LitV::Nothing,
    }
}

pub open spec fn lits_view(s: Seq<Literal>) -> Seq<LitV>
    decreases s,
{
    if s.len() == 0 {
        Seq::empty()
    } else {
        seq![lit_view(s[0])] + lits_view(s.skip(1))
    }
}

pub open spec fn op_view(o: Op) -> OpV
    decreases o,
{
    match o {
        Op::Literal(l) => OpV::Literal(lit_view(l)),
        Op::Instruction(name) => OpV::Instruction(name@),
    }
}

pub open spec fn exec_view(e: Exec) -> ExecV
    decreases e,
{
    match e {
        Exec::Left(o) => ExecV::Left(op_view(o)),
        Exec::Right(o) => ExecV::Right(op_view(o)),
    }
}

pub open spec fn execs_view(s: Seq<Exec>) -> Seq<ExecV>
    decreases s,
{
    if s.len() == 0 {
        Seq::empty()
    } else {
        seq![exec_view(s[0])] + execs_view(s.skip(1))
    }
}

impl View for Literal {
    type V = LitV;

    open spec fn view(&self) -> LitV {
        lit_view(*self)
    }
}

impl View for Op {
    type V = OpV;

    open spec fn view(&self) -> OpV {
        op_view(*self)
    }
}

impl View for Exec {
    type V = ExecV;

    open spec fn view(&self) -> ExecV {
        exec_view(*self)
    }
}

/// A list's view has the same length and holds the views of its elements.
pub broadcast proof fn lits_view_props(s: Seq<Literal>)
    ensures
        (#[trigger] lits_view(s)).len() == s.len(),
        forall|i: int| 0 <= i < s.len() ==> lits_view(s)[i] == lit_view(s[i]),
    decreases s.len(),
{
    if s.len() > 0 {
        lits_view_props(s.skip(1));
        assert forall|i: int| 0 <= i < s.len() implies lits_view(s)[i] == lit_view(s[i]) by {
            if i > 0 {
                assert(lits_view(s)[i] == lits_view(s.skip(1))[i - 1]);
                assert(s.skip(1)[i - 1] == s[i]);
            }
        }
    }
}

/// A body's view has the same length and holds the views of its steps.
pub broadcast proof fn execs_view_props(s: Seq<Exec>)
    ensures
        (#[trigger] execs_view(s)).len() == s.len(),
        forall|i: int| 0 <= i < s.len() ==> execs_view(s)[i] == exec_view(s[i]),
    decreases s.len(),
{
    if s.len() > 0 {
        execs_view_props(s.skip(1));
        assert forall|i: int| 0 <= i < s.len() implies execs_view(s)[i] == exec_view(s[i]) by {
            if i > 0 {
                assert(execs_view(s)[i] == execs_view(s.skip(1))[i - 1]);
                assert(s.skip(1)[i - 1] == s[i]);
            }
        }
    }
}

impl Clone for Literal {
    #[verifier::loop_isolation(false)]
    fn clone(&self) -> (r: Literal)
        ensures
            r@ == self@,
        decreases *self,
    {
        match self {
            Literal::Int(i) => Literal::Int(*i),
            Literal::Float(b) => Literal::Float(*b),
            Literal::Bool(b) => Literal::Bool(*b),
            Literal::Char(c) => Literal::Char(*c),
            Literal::Nothing => Literal::Nothing,
            Literal::List(v) => {
                let mut out: Vec<Literal> = Vec::new();
                let mut j: usize = 0;
                while j < v.len()
                    invariant
                        j <= v.len(),
                        out@.len() == j,
                        forall|i: int| 0 <= i < j ==> lit_view(out@[i]) == lit_view(v@[i]),
                    decreases v.len() - j,
                {
                    proof {
                        assert(decreases_to!(*self => (*self)->List_0@[j as int]));
                        assert((*self)->List_0@[j as int] == v@[j as int]);
                    }
                    out.push(v[j].clone());
                    j += 1;
                }
                proof {
                    lits_view_props(out@);
                    lits_view_props(v@);
                    assert(lits_view(out@) =~= lits_view(v@));
                }
                Literal::List(out)
            }
            Literal::Block(b) => {
                let mut out: Vec<Exec> = Vec::new();
                let mut j: usize = 0;
                while j < b.len()
                    invariant
                        j <= b.len(),
                        out@.len() == j,
                        forall|i: int| 0 <= i < j ==> exec_view(out@[i]) == exec_view(b@[i]),
                    decreases b.len() - j,
                {
                    proof {
                        assert(decreases_to!(*self => (*self)->Block_0@[j as int]));
                        assert((*self)->Block_0@[j as int] == b@[j as int]);
                    }
                    out.push(b[j].clone());
                    j += 1;
                }
                proof {
                    execs_view_props(out@);
                    execs_view_props(b@);
                    assert(execs_view(out@) =~= execs_view(b@));
                }
                Literal::Block(out)
            }
        }
    }
}

impl Clone for Op {
    fn clone(&self) -> (r: Op)
        ensures
            r@ == self@,
        decreases *self,
    {
        match self {
            Op::Literal(l) => {
                proof {
                    assert(decreases_to!(*self => (*self)->Literal_0));
                    assert((*self)->Literal_0 == *l);
                }
                Op::Literal(l.clone())
            }
            Op::Instruction(name) => Op::Instruction(name.clone()),
        }
    }
}

impl Clone for Exec {
    fn clone(&self) -> (r: Exec)
        ensures
            r@ == self@,
        decreases *self,
    {
        match self {
            Exec::Left(o) => {
                proof {
                    assert(decreases_to!(*self => (*self)->Left_0));
                    assert((*self)->Left_0 == *o);
                }
                Exec::Left(o.clone())
            }
            Exec::Right(o) => {
                proof {
                    assert(decreases_to!(*self => (*self)->Right_0));
                    assert((*self)->Right_0 == *o);
                }
                Exec::Right(o.clone())
            }
        }
    }
}

/// The derived boolean reading of a value: non-zero numbers and characters,
/// non-empty lists and every block are true; `Nothing` is false.
pub open spec fn spec_truthy(v: LitV) -> bool {
    match v {
        LitV::Int(a) => a != 0,
        LitV::Char(a) => a != '\0',
        LitV::Float(a) => !crate::floats::f64_is_zero(a),
        LitV::List(l) => l.len() != 0,
        LitV::Bool(a) => a,
        LitV::Block(_) => true,
        LitV::Nothing => false,
    }
}

/// Returns the truthiness of a value.
pub fn truthiness_of(val: Value) -> (r: bool)
    ensures
        r == spec_truthy(val@),
{
    match val {
        Literal::Int(a) => a != 0,
        Literal::Char(a) => a != '\0',
        Literal::Float(a) => crate::floats::f64_bits_is_zero(a) == false,
        Literal::List(a) => a.len() != 0,
        Literal::Bool(a) => a,
        Literal::Block(_) => true,
        Literal::Nothing => false,
    }
}

impl Literal {
    pub fn new_int(value: i64) -> (r: Literal)
        ensures
            r@ == LitV::Int(value),
    {
        Literal::Int(value)
    }

    /// Builds a float literal from the IEEE-754 bit pattern of its value.
    pub fn new_float(bits: u64) -> (r: Literal)
        ensures
            r@ == LitV::Float(bits),
    {
        Literal::Float(bits)
    }

    pub fn new_bool(value: bool) -> (r: Literal)
        ensures
            r@ == LitV::Bool(value),
    {
        Literal::Bool(value)
    }

    pub fn new_char(value: char) -> (r: Literal)
        ensures
            r@ == LitV::Char(value),
    {
        Literal::Char(value)
    }

    pub fn new_list(value: Vec<Literal>) -> (r: Literal)
        ensures
            r@ == LitV::List(lits_view(value@)),
    {
        Literal::List(value)
    }

    pub fn new_block(value: Vec<Exec>) -> (r: Literal)
        ensures
            r@ == LitV::Block(execs_view(value@)),
    {
        Literal::Block(value)
    }
}

impl Op {
    pub fn new_literal(literal: Literal) -> (r: Op)
        ensures
            r@ == OpV::Literal(literal@),
    {
        Op::Literal(literal)
    }

    pub fn new_instruction(instruction: String) -> (r: Op)
        ensures
            r@ == OpV::Instruction(instruction@),
    {
        Op::Instruction(instruction)
    }
}

impl Exec {
    pub fn new_left(op: Op) -> (r: Exec)
        ensures
            r@ == ExecV::Left(op@),
    {
        Exec::Left(op)
    }

    pub fn new_right(op: Op) -> (r: Exec)
        ensures
            r@ == ExecV::Right(op@),
    {
        Exec::Right(op)
    }
}


/// Appending one literal appends its view.
pub proof fn lits_view_push(s: Seq<Literal>, t: Literal)
    ensures
        lits_view(s.push(t)) == lits_view(s) + seq![lit_view(t)],
    decreases s.len(),
{
    if s.len() == 0 {
        assert(s.push(t).skip(1) =~= Seq::<Literal>::empty());
        assert(s.push(t)[0] == t);
        assert(s.push(t).len() == 1);
        assert(lits_view(s.push(t)) == seq![lit_view(t)] + lits_view(Seq::<Literal>::empty()));
        assert(lits_view(s.push(t)) =~= lits_view(s) + seq![lit_view(t)]);
    } else {
        lits_view_push(s.skip(1), t);
        assert(s.push(t).skip(1) =~= s.skip(1).push(t));
        assert(s.push(t)[0] == s[0]);
        assert(s.push(t).len() == s.len() + 1);
        assert(lits_view(s.push(t)) == seq![lit_view(s[0])] + lits_view(s.push(t).skip(1)));
        assert(lits_view(s.push(t).skip(1)) == lits_view(s.skip(1).push(t)));
        assert(lits_view(s) == seq![lit_view(s[0])] + lits_view(s.skip(1)));
        assert(lits_view(s.push(t)) =~= lits_view(s) + seq![lit_view(t)]);
    }
}

/// Appending one step appends its view.
pub proof fn execs_view_push(s: Seq<Exec>, t: Exec)
    ensures
        execs_view(s.push(t)) == execs_view(s) + seq![exec_view(t)],
    decreases s.len(),
{
    if s.len() == 0 {
        assert(s.push(t).skip(1) =~= Seq::<Exec>::empty());
        assert(s.push(t)[0] == t);
        assert(s.push(t).len() == 1);
        assert(execs_view(s.push(t)) == seq![exec_view(t)] + execs_view(Seq::<Exec>::empty()));
        assert(execs_view(s.push(t)) =~= execs_view(s) + seq![exec_view(t)]);
    } else {
        execs_view_push(s.skip(1), t);
        assert(s.push(t).skip(1) =~= s.skip(1).push(t));
        assert(s.push(t)[0] == s[0]);
        assert(s.push(t).len() == s.len() + 1);
        assert(execs_view(s.push(t)) == seq![exec_view(s[0])] + execs_view(s.push(t).skip(1)));
        assert(execs_view(s.push(t).skip(1)) == execs_view(s.skip(1).push(t)));
        assert(execs_view(s) == seq![exec_view(s[0])] + execs_view(s.skip(1)));
        assert(execs_view(s.push(t)) =~= execs_view(s) + seq![exec_view(t)]);
    }
}


/// The characters of `s` as character values, in order.
pub open spec fn chars_to_lits(s: Seq<char>) -> Seq<LitV>
    decreases s.len(),
{
    if s.len() == 0 {
        Seq::empty()
    } else {
        chars_to_lits(s.drop_last()).push(LitV::Char(s.last()))
    }
}

} // verus!
