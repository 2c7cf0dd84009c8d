//! Canonical text for values: integers and floats in decimal, booleans as
//! `true`/`false`, characters single-quoted, lists bracketed (a list whose
//! every element is a character prints as a double-quoted string), and blocks
//! re-serialized as sided source.
use vstd::prelude::*;

use crate::floats::f64_text;
use crate::numtext::int_text;
use crate::values::{
    lit_view, lits_view, exec_view, execs_view, lits_view_props, execs_view_props, op_view, Exec,
    ExecV, Literal, LitV, Op, OpV,
};

verus! {

broadcast use lits_view_props, execs_view_props;

/// Every element of the list is a character.
pub open spec fn is_char_list(l: Seq<LitV>) -> bool {
    forall|i: int| 0 <= i < l.len() ==> l[i] is Char
}

/// The characters held by a list of character values.
pub open spec fn list_chars(l: Seq<LitV>) -> Seq<char>
    decreases l.len(),
{
    if l.len() == 0 {
        Seq::empty()
    } else {
        list_chars(l.drop_last()) + seq![l.last()->Char_0]
    }
}

pub open spec fn lit_text(v: LitV) -> Seq<char>
    decreases v,
{
    match v {
        LitV::Int(i) => int_text(i as int),
        LitV::Float(b) => f64_text(b),
        LitV::Bool(b) => if b {
            "true"@
        } else {
            "false"@
        },
        LitV::Char(c) => seq!['\''] + seq![c] + seq!['\''],
        LitV::List(l) => if is_char_list(l) {
            seq!['"'] + list_chars(l) + seq!['"']
        } else {
            seq!['['] + list_items_text(l) + seq![']']
        },
        LitV::Block(b) => seq!['{'] + block_items_text(b) + seq!['}'],
        LitV::Nothing => Seq::empty(),
    }
}

/// The elements of a bracketed list, each followed by a comma and a space.
pub open spec fn list_items_text(l: Seq<LitV>) -> Seq<char>
    decreases l,
{
    if l.len() == 0 {
        Seq::empty()
    } else {
        list_items_text(l.drop_last()) + lit_text(l.last()) + ", "@
    }
}

/// The steps of a block, each followed by its sigil and a space.
pub open spec fn block_items_text(b: Seq<ExecV>) -> Seq<char>
    decreases b,
{
    if b.len() == 0 {
        Seq::empty()
    } else {
        block_items_text(b.drop_last()) + exec_text(b.last())
    }
}

pub open spec fn exec_text(e: ExecV) -> Seq<char>
    decreases e,
{
    match e {
        ExecV::Left(o) => op_text(o) + "!"@ + " "@,
        ExecV::Right(o) => op_text(o) + "~"@ + " "@,
    }
}

pub open spec fn op_text(o: OpV) -> Seq<char>
    decreases o,
{
    match o {
        OpV::Literal(l) => lit_text(l),
        OpV::Instruction(name) => name,
    }
}

/// The concatenated characters of a list value, when every element is a
/// character; `Option::None` otherwise.
#[verifier::loop_isolation(false)]
pub fn chars_of_char_list(v: &Vec<Literal>) -> (r: Option<String>)
    ensures
        match r {
            Option::Some(s) => is_char_list(lits_view(v@)) && s@ == list_chars(lits_view(v@)),
            Option::None => !is_char_list(lits_view(v@)),
        },
{
    let mut out = String::new();
    let mut j: usize = 0;
    while j < v.len()
        invariant
            j <= v.len(),
            forall|i: int| 0 <= i < j ==> lits_view(v@)[i] is Char,
            out@ == list_chars(lits_view(v@).take(j as int)),
        decreases v.len() - j,
    {
        match &v[j] {
            Literal::Char(c) => {
                out.push(*c);
                proof {
                    let l = lits_view(v@);
                    assert(l[j as int] == lit_view(v@[j as int]));
                    assert(l.take(j + 1).drop_last() =~= l.take(j as int));
                    assert(l.take(j + 1).last() == l[j as int]);
                }
            }
            _ => {
                proof {
                    assert(lits_view(v@)[j as int] == lit_view(v@[j as int]));
                }
                return Option::None;
            }
        }
        j += 1;
    }
    proof {
        assert(lits_view(v@).take(v@.len() as int) =~= lits_view(v@));
    }
    Option::Some(out)
}

impl Op {
    /// The canonical text of an operation.
    pub fn to_string(&self) -> (r: String)
        ensures
            r@ == op_text(self@),
        decreases *self,
    {
        match self {
            Op::Literal(literal) => {
                proof {
                    assert(decreases_to!(*self => (*self)->Literal_0));
                    assert((*self)->Literal_0 == *literal);
                }
                literal.to_string()
            }
            Op::Instruction(instruction) => {
                let mut s = String::new();
                s.push_str(instruction.as_str());
                proof {
                    assert(Seq::<char>::empty() + instruction@ =~= instruction@);
                }
                s
            }
        }
    }
}

impl Literal {
    /// The canonical text of a value.
    #[verifier::loop_isolation(false)]
    pub fn to_string(&self) -> (r: String)
        ensures
            r@ == lit_text(self@),
        decreases *self,
    {
        match self {
            Literal::Int(i) => crate::numtext::render_i64(*i),
            Literal::Float(b) => crate::floats::f64_bits_text(*b),
            Literal::Bool(b) => {
                if *b {
                    "true".to_owned()
                } else {
                    "false".to_owned()
                }
            }
            Literal::Char(c) => {
                let mut s = String::new();
                s.push('\'');
                s.push(*c);
                s.push('\'');
                proof {
                    assert(s@ =~= seq!['\''] + seq![*c] + seq!['\'']);
                }
                s
            }
            Literal::Nothing => String::new(),
            Literal::List(v) => {
                match chars_of_char_list(v) {
                    Option::Some(chars) => {
                        let mut s = String::new();
                        s.push('"');
                        s.push_str(chars.as_str());
                        s.push('"');
                        proof {
                            assert(s@ =~= seq!['"'] + list_chars(lits_view(v@)) + seq!['"']);
                        }
                        s
                    }
                    Option::None => {
                        let mut s = String::new();
                        s.push('[');
                        let mut j: usize = 0;
                        while j < v.len()
                            invariant
                                j <= v.len(),
                                s@ == seq!['['] + list_items_text(lits_view(v@).take(j as int)),
                            decreases v.len() - j,
                        {
                            proof {
                                assert(decreases_to!(*self => (*self)->List_0@[j as int]));
                                assert((*self)->List_0@[j as int] == v@[j as int]);
                            }
                            let item = v[j].to_string();
                            s.push_str(item.as_str());
                            s.push_str(", ");
                            proof {
                                let l = lits_view(v@);
                                assert(l.take(j + 1).drop_last() =~= l.take(j as int));
                                assert(l.take(j + 1).last() == l[j as int]);
                                assert(l[j as int] == lit_view(v@[j as int]));
                                assert(s@ =~= seq!['['] + list_items_text(l.take(j + 1)));
                            }
                            j += 1;
                        }
                        s.push(']');
                        proof {
                            let l = lits_view(v@);
                            assert(l.take(v@.len() as int) =~= l);
                            assert(s@ =~= seq!['['] + list_items_text(l) + seq![']']);
                        }
                        s
                    }
                }
            }
            Literal::Block(b) => {
                let mut s = String::new();
                s.push('{');
                let mut j: usize = 0;
                while j < b.len()
                    invariant
                        j <= b.len(),
                        s@ == seq!['{'] + block_items_text(execs_view(b@).take(j as int)),
                    decreases b.len() - j,
                {
                    proof {
                        assert(decreases_to!(*self => (*self)->Block_0@[j as int]));
                        assert((*self)->Block_0@[j as int] == b@[j as int]);
                    }
                    match &b[j] {
                        Exec::Left(op) => {
                            proof {
                                assert(decreases_to!(b@[j as int] => b@[j as int]->Left_0));
                                assert(b@[j as int]->Left_0 == *op);
                            }
                            let t = op.to_string();
                            s.push_str(t.as_str());
                            s.push_str("!");
                            s.push_str(" ");
                            proof {
                                let l = execs_view(b@);
                                assert(l.take(j + 1).drop_last() =~= l.take(j as int));
                                assert(l.take(j + 1).last() == l[j as int]);
                                assert(l[j as int] == exec_view(b@[j as int]));
                                assert(exec_view(b@[j as int]) == ExecV::Left(op_view(*op)));
                                assert(exec_text(l[j as int]) == op_text(op_view(*op)) + "!"@
                                    + " "@);
                                assert(s@ =~= seq!['{'] + block_items_text(l.take(j + 1)));
                            }
                        }
                        Exec::Right(op) => {
                            proof {
                                assert(decreases_to!(b@[j as int] => b@[j as int]->Right_0));
                                assert(b@[j as int]->Right_0 == *op);
                            }
                            let t = op.to_string();
                            s.push_str(t.as_str());
                            s.push_str("~");
                            s.push_str(" ");
                            proof {
                                let l = execs_view(b@);
                                assert(l.take(j + 1).drop_last() =~= l.take(j as int));
                                assert(l.take(j + 1).last() == l[j as int]);
                                assert(l[j as int] == exec_view(b@[j as int]));
                                assert(exec_view(b@[j as int]) == ExecV::Right(op_view(*op)));
                                assert(exec_text(l[j as int]) == op_text(op_view(*op)) + "~"@
                                    + " "@);
                                assert(s@ =~= seq!['{'] + block_items_text(l.take(j + 1)));
                            }
                        }
                    }
                    j += 1;
                }
                s.push('}');
                proof {
                    let l = execs_view(b@);
                    assert(l.take(b@.len() as int) =~= l);
                    assert(s@ =~= seq!['{'] + block_items_text(l) + seq!['}']);
                }
                s
            }
        }
    }
}

} // verus!
