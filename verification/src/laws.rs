//! General properties of the pipeline, each proved from the public
//! contracts and the semantics.
use vstd::prelude::*;

use crate::lexer::{tokv, TokenType};
use crate::numtext::int_text;
use crate::parser::{spec_decode_chars, spec_parse_literal};
use crate::render::{is_char_list, list_chars, lit_text};
use crate::semantics::{
    pop_at, push_at, sem_add, sem_code, sem_exec_step, sem_floatdiv, sem_intdiv, sem_loop,
    sem_map_elems, sem_modulo, sem_mult, sem_range, sem_sub, sem_while, with_stack, Outcome, Place,
    StV,
};
use crate::values::{ExecV, LitV, OpV};

verus! {

/// Rendering an integer value and parsing the text back as an integer token
/// yields the same value, and the token's text is the value's canonical
/// text.
pub proof fn lemma_int_literal_round_trip(i: i64, start: int, end: int, line: int)
    ensures
        lit_text(LitV::Int(i)) == int_text(i as int),
        spec_parse_literal(
            tokv(TokenType::ConstInt, int_text(i as int), Seq::empty(), start, end, line),
        ) == Result::<LitV, Seq<char>>::Ok(LitV::Int(i)),
{
    crate::numtext::lemma_int_text_round_trip(i);
}

/// A boolean renders as `true` or `false`, and an instruction token holding
/// that text parses back to the same boolean.
pub proof fn lemma_bool_literal_round_trip(b: bool, start: int, end: int, line: int)
    ensures
        lit_text(LitV::Bool(b)) == (if b {
            "true"@
        } else {
            "false"@
        }),
        spec_parse_literal(
            tokv(TokenType::Instr, lit_text(LitV::Bool(b)), Seq::empty(), start, end, line),
        ) == Result::<LitV, Seq<char>>::Ok(LitV::Bool(b)),
{
    reveal_strlit("true");
    reveal_strlit("false");
    assert("true"@ != "false"@) by {
        assert("true"@.len() == 4);
        assert("false"@.len() == 5);
    }
}

/// A character that is not the escape lead renders single-quoted, and a
/// character token holding that text parses back to the same character.
/// The backslash itself renders without an escape, so its text does not
/// read back as the same literal.
pub proof fn lemma_char_literal_round_trip(c: char, start: int, end: int, line: int)
    requires
        c != '\\',
    ensures
        lit_text(LitV::Char(c)) == seq!['\''] + seq![c] + seq!['\''],
        spec_parse_literal(
            tokv(TokenType::ConstChar, lit_text(LitV::Char(c)), Seq::empty(), start, end, line),
        ) == Result::<LitV, Seq<char>>::Ok(LitV::Char(c)),
{
    let lex = lit_text(LitV::Char(c));
    assert(lex.len() == 3);
    assert(lex.subrange(1, 2) =~= seq![c]);
}

/// Whether every step of a program only pushes a literal.
pub open spec fn all_literal_pushes(code: Seq<ExecV>) -> bool {
    forall|i: int|
        0 <= i < code.len() ==> match #[trigger] code[i] {
            ExecV::Left(op) => op is Literal,
            ExecV::Right(op) => op is Literal,
        }
}

/// The literals a program pushes at the left end, in program order.
pub open spec fn left_pushes(code: Seq<ExecV>) -> Seq<LitV>
    decreases code.len(),
{
    if code.len() == 0 {
        Seq::empty()
    } else {
        (match code[0] {
            ExecV::Left(OpV::Literal(l)) => seq![l],
            _ => Seq::empty(),
        }) + left_pushes(code.skip(1))
    }
}

/// The literals a program pushes at the right end, in program order.
pub open spec fn right_pushes(code: Seq<ExecV>) -> Seq<LitV>
    decreases code.len(),
{
    if code.len() == 0 {
        Seq::empty()
    } else {
        (match code[0] {
            ExecV::Right(OpV::Literal(l)) => seq![l],
            _ => Seq::empty(),
        }) + right_pushes(code.skip(1))
    }
}

/// Sidedness: a program of literal pushes always succeeds, and its final
/// stack is the left-pushed literals in reverse program order, then the
/// starting stack, then the right-pushed literals in program order.
pub proof fn lemma_sidedness(st: StV, code: Seq<ExecV>, fuel: nat)
    requires
        all_literal_pushes(code),
    ensures
        sem_code(st, code, fuel) == Outcome::Done(
            with_stack(st, left_pushes(code).reverse() + st.stack + right_pushes(code)),
        ),
    decreases code.len(),
{
    if code.len() == 0 {
        assert(left_pushes(code).reverse() + st.stack + right_pushes(code) =~= st.stack);
    } else {
        let head = code[0];
        let rest = code.skip(1);
        assert(all_literal_pushes(rest)) by {
            assert(forall|i: int| 0 <= i < rest.len() ==> rest[i] == code[i + 1]);
        }
        match head {
            ExecV::Left(op) => {
                let l = op->Literal_0;
                let st1 = with_stack(st, seq![l] + st.stack);
                assert(sem_exec_step(st, code[0], fuel) == Outcome::Done(st1));
                lemma_sidedness(st1, rest, fuel);
                assert(left_pushes(rest).reverse() + (seq![l] + st.stack) + right_pushes(rest)
                    =~= (seq![l] + left_pushes(rest)).reverse() + st.stack + right_pushes(rest));
                assert(left_pushes(code) == seq![l] + left_pushes(rest));
                assert(right_pushes(code) =~= right_pushes(rest));
            }
            ExecV::Right(op) => {
                let l = op->Literal_0;
                let st1 = with_stack(st, st.stack.push(l));
                assert(sem_exec_step(st, code[0], fuel) == Outcome::Done(st1));
                lemma_sidedness(st1, rest, fuel);
                assert(left_pushes(rest).reverse() + st.stack.push(l) + right_pushes(rest)
                    =~= left_pushes(rest).reverse() + st.stack + (seq![l] + right_pushes(rest)));
                assert(right_pushes(code) == seq![l] + right_pushes(rest));
                assert(left_pushes(code) =~= left_pushes(rest));
            }
        }
    }
}

/// Type promotion: an integer beside a float yields a float under `+`, `-`,
/// `*` and `//`, whichever side the float stands on.
pub proof fn lemma_arith_promotion(i: i64, f: u64)
    ensures
        sem_add(LitV::Int(i), LitV::Float(f)) is Ok && sem_add(LitV::Int(i), LitV::Float(f))->Ok_0
            is Float,
        sem_add(LitV::Float(f), LitV::Int(i)) is Ok && sem_add(LitV::Float(f), LitV::Int(i))->Ok_0
            is Float,
        sem_sub(LitV::Int(i), LitV::Float(f)) is Ok && sem_sub(LitV::Int(i), LitV::Float(f))->Ok_0
            is Float,
        sem_sub(LitV::Float(f), LitV::Int(i)) is Ok && sem_sub(LitV::Float(f), LitV::Int(i))->Ok_0
            is Float,
        sem_mult(LitV::Int(i), LitV::Float(f)) is Ok && sem_mult(LitV::Int(i), LitV::Float(f))->Ok_0
            is Float,
        sem_mult(LitV::Float(f), LitV::Int(i)) is Ok && sem_mult(LitV::Float(f), LitV::Int(i))->Ok_0
            is Float,
        !crate::floats::f64_is_zero(f) ==> sem_floatdiv(LitV::Int(i), LitV::Float(f)) is Ok
            && sem_floatdiv(LitV::Int(i), LitV::Float(f))->Ok_0 is Float,
        i != 0 ==> sem_floatdiv(LitV::Float(f), LitV::Int(i)) is Ok && sem_floatdiv(
            LitV::Float(f),
            LitV::Int(i),
        )->Ok_0 is Float,
{
}

/// Integer division truncates toward zero, and a zero divisor of either
/// numeric type is always an error, whatever the dividend is.
pub proof fn lemma_division_by_zero(a: LitV, z: u64)
    requires
        crate::floats::f64_is_zero(z),
    ensures
        sem_intdiv(a, LitV::Int(0i64)) is Err,
        sem_intdiv(a, LitV::Float(z)) is Err,
        sem_floatdiv(a, LitV::Int(0i64)) is Err,
        sem_floatdiv(a, LitV::Float(z)) is Err,
        sem_modulo(a, LitV::Int(0i64)) is Err,
        sem_modulo(a, LitV::Float(z)) is Err,
        forall|x: i64, y: i64|
            y != 0 ==> #[trigger] sem_intdiv(LitV::Int(x), LitV::Int(y)) == Result::<
                LitV,
                Seq<char>,
            >::Ok(LitV::Int((crate::semantics::trunc_div(x as int, y as int) as i64))),
{
}

/// The `loop` instruction's body replays forever: the loop itself never
/// completes normally, so its outcome is always a failure, either from the
/// body or from the evaluation budget.
pub proof fn lemma_loop_never_succeeds(st: StV, body: Seq<ExecV>, fuel: nat)
    ensures
        sem_loop(st, body, fuel) is Fail,
    decreases fuel,
{
    if fuel > 0 {
        match sem_code(st, body, (fuel - 1) as nat) {
            Outcome::Fail(_, _) => {}
            Outcome::Done(st2) => {
                lemma_loop_never_succeeds(st2, body, (fuel - 1) as nat);
            }
        }
    }
}

/// Isolation of `map`, `filter` and `reduce`: the caller's stack never
/// reaches the block, so what the block would do to auxiliary stack
/// positions cannot leak between iterations or back to the caller.  Two
/// runs over the same elements from the same io state behave identically
/// whatever the accumulated stacks hold: the same elements come out beside
/// the accumulators, and errors and io effects agree.
pub proof fn lemma_map_isolation(s1: Seq<LitV>, s2: Seq<LitV>, inp: Seq<char>, outp: Seq<char>, items: Seq<LitV>, body: Seq<ExecV>, fuel: nat)
    ensures
        ({
            let o1 = sem_map_elems(StV { stack: s1, input: inp, output: outp }, items, body, fuel);
            let o2 = sem_map_elems(StV { stack: s2, input: inp, output: outp }, items, body, fuel);
            match (o1, o2) {
                (Outcome::Done(d1), Outcome::Done(d2)) => d1.stack.len() >= s1.len()
                    && d2.stack.len() >= s2.len() && d1.stack.skip(s1.len() as int)
                    == d2.stack.skip(s2.len() as int) && d1.stack.take(s1.len() as int) == s1
                    && d2.stack.take(s2.len() as int) == s2 && d1.input == d2.input && d1.output
                    == d2.output,
                (Outcome::Fail(f1, e1), Outcome::Fail(f2, e2)) => e1 == e2 && f1.input == f2.input
                    && f1.output == f2.output,
                _ => false,
            }
        }),
    decreases fuel, items.len(),
{
    let st1 = StV { stack: s1, input: inp, output: outp };
    let st2 = StV { stack: s2, input: inp, output: outp };
    if items.len() == 0 {
        assert(s1.take(s1.len() as int) =~= s1);
        assert(s2.take(s2.len() as int) =~= s2);
        assert(s1.skip(s1.len() as int) =~= Seq::<LitV>::empty());
        assert(s2.skip(s2.len() as int) =~= Seq::<LitV>::empty());
    } else if fuel > 0 {
        let tmp = StV { stack: seq![items[0]], input: inp, output: outp };
        match sem_code(tmp, body, (fuel - 1) as nat) {
            Outcome::Fail(_, _) => {}
            Outcome::Done(stb) => {
                if stb.stack.len() > 0 {
                    lemma_map_isolation(
                        s1.push(stb.stack[0]),
                        s2.push(stb.stack[0]),
                        stb.input,
                        stb.output,
                        items.skip(1),
                        body,
                        fuel,
                    );
                    let o1 = sem_map_elems(st1, items, body, fuel);
                    let o2 = sem_map_elems(st2, items, body, fuel);
                    assert(o1 == sem_map_elems(
                            StV {
                                stack: s1.push(stb.stack[0]),
                                input: stb.input,
                                output: stb.output,
                            },
                            items.skip(1),
                            body,
                            fuel,
                        ));
                    assert(o2 == sem_map_elems(
                        StV {
                            stack: s2.push(stb.stack[0]),
                            input: stb.input,
                            output: stb.output,
                        },
                        items.skip(1),
                        body,
                        fuel,
                    ));
                    match (o1, o2) {
                        (Outcome::Done(d1), Outcome::Done(d2)) => {
                            assert(d1.stack.len() >= s1.len() + 1);
                            assert(d2.stack.len() >= s2.len() + 1);
                            assert(d1.stack.take(s1.len() as int + 1).take(s1.len() as int)
                                =~= d1.stack.take(s1.len() as int));
                            assert(d2.stack.take(s2.len() as int + 1).take(s2.len() as int)
                                =~= d2.stack.take(s2.len() as int));
                            assert(d1.stack.take(s1.len() as int) =~= s1) by {
                                assert(d1.stack.take(s1.len() as int + 1) == s1.push(stb.stack[0]));
                                assert(forall|k: int|
                                    0 <= k < s1.len() ==> d1.stack.take(s1.len() as int + 1)[k] == s1[k]);
                                assert(forall|k: int|
                                    0 <= k < s1.len() ==> d1.stack.take(s1.len() as int)[k]
                                        == d1.stack.take(s1.len() as int + 1)[k]);
                            }
                            assert(d2.stack.take(s2.len() as int) =~= s2) by {
                                assert(d2.stack.take(s2.len() as int + 1) == s2.push(stb.stack[0]));
                                assert(forall|k: int|
                                    0 <= k < s2.len() ==> d2.stack.take(s2.len() as int + 1)[k] == s2[k]);
                                assert(forall|k: int|
                                    0 <= k < s2.len() ==> d2.stack.take(s2.len() as int)[k]
                                        == d2.stack.take(s2.len() as int + 1)[k]);
                            }
                            assert(d1.stack.skip(s1.len() as int) =~= seq![stb.stack[0]]
                                + d1.stack.skip(s1.len() as int + 1)) by {
                                assert(d1.stack.take(s1.len() as int + 1)[s1.len() as int]
                                    == stb.stack[0]);
                                assert(d1.stack[s1.len() as int] == stb.stack[0]);
                            }
                            assert(d2.stack.skip(s2.len() as int) =~= seq![stb.stack[0]]
                                + d2.stack.skip(s2.len() as int + 1)) by {
                                assert(d2.stack.take(s2.len() as int + 1)[s2.len() as int]
                                    == stb.stack[0]);
                                assert(d2.stack[s2.len() as int] == stb.stack[0]);
                            }
                        }
                        _ => {}
                    }
                }
            }
        }
    }
}


/// The counter values one `range` run pushes: from the lower bound,
/// stepping by the increment, while below the upper bound; the sequence
/// stops early when the next counter would leave the 64-bit range, which by
/// then is the last counter below the upper bound anyway.
pub open spec fn counter_seq(lower: i64, upper: i64, step: u64) -> Seq<LitV>
    decreases
            (if lower < upper {
                upper - lower
            } else {
                0int
            }),
{
    if lower >= upper || step == 0 {
        Seq::empty()
    } else if lower + step > i64::MAX {
        seq![LitV::Int(lower)]
    } else {
        seq![LitV::Int(lower)] + counter_seq((lower + step) as i64, upper, step)
    }
}

/// Pushes a row of values at one end, first value first.
pub open spec fn push_all(stack: Seq<LitV>, place: Place, vs: Seq<LitV>) -> Seq<LitV>
    decreases vs.len(),
{
    if vs.len() == 0 {
        stack
    } else {
        push_all(push_at(stack, place, vs[0]), place, vs.skip(1))
    }
}

/// `range` runs one iteration per counter value: with a body of no steps it
/// pushes exactly the counters `lower, lower + step, ...` below the upper
/// bound, in order, and succeeds.  Together with `counter_seq_len` this
/// pins the iteration count.
pub proof fn lemma_range_counts(
    st: StV,
    lower: i64,
    upper: i64,
    step: u64,
    place: Place,
    fuel: nat,
)
    requires
        step > 0,
        fuel > 0,
    ensures
        sem_range(st, lower, upper, step, Seq::empty(), place, fuel) == Outcome::Done(
            with_stack(st, push_all(st.stack, place, counter_seq(lower, upper, step))),
        ),
    decreases
            (if lower < upper {
                upper - lower
            } else {
                0int
            }),
{
    if lower >= upper {
        assert(push_all(st.stack, place, counter_seq(lower, upper, step)) == st.stack);
        assert(with_stack(st, st.stack) == st);
    } else {
        let st1 = with_stack(st, push_at(st.stack, place, LitV::Int(lower)));
        assert(sem_code(st1, Seq::empty(), (fuel - 1) as nat) == Outcome::Done(st1));
        let cs = counter_seq(lower, upper, step);
        assert(cs[0] == LitV::Int(lower));
        if lower + step > i64::MAX {
            assert(cs =~= seq![LitV::Int(lower)]);
            assert(cs.skip(1) =~= Seq::<LitV>::empty());
            assert(push_all(push_at(st.stack, place, LitV::Int(lower)), place, cs.skip(1))
                == push_at(st.stack, place, LitV::Int(lower)));
            assert(push_all(st.stack, place, cs) == st1.stack);
        } else {
            lemma_range_counts(st1, (lower + step) as i64, upper, step, place, fuel);
            assert(cs.skip(1) =~= counter_seq((lower + step) as i64, upper, step));
            assert(with_stack(st1, push_all(st1.stack, place, cs.skip(1))) == with_stack(
                st,
                push_all(st.stack, place, cs),
            ));
        }
    }
}

/// How many counters a `range` run pushes: none when the lower bound is not
/// below the upper one, else the upper-rounded quotient of the distance by
/// the step.
pub proof fn counter_seq_len(lower: i64, upper: i64, step: u64)
    requires
        step > 0,
    ensures
        counter_seq(lower, upper, step).len() == (if lower >= upper {
            0int
        } else {
            (upper - lower + step - 1) / (step as int)
        }),
    decreases
            (if lower < upper {
                upper - lower
            } else {
                0int
            }),
{
    if lower < upper {
        if lower + step > i64::MAX {
            assert(upper - lower <= step);
            assert((upper - lower + step - 1) / (step as int) == 1) by (nonlinear_arith)
                requires
                    0 < upper - lower <= step,
                    step > 0,
            ;
        } else {
            counter_seq_len((lower + step) as i64, upper, step);
            let next = lower + step;
            if next >= upper {
                assert(counter_seq(next as i64, upper, step).len() == 0);
                assert((upper - lower + step - 1) / (step as int) == 1) by (nonlinear_arith)
                    requires
                        0 < upper - lower <= step,
                        step > 0,
                ;
            } else {
                assert((upper - lower + step - 1) / (step as int) == (upper - next + step - 1) / (
                step as int) + 1) by (nonlinear_arith)
                    requires
                        next == lower + step,
                        next < upper,
                        step > 0,
                ;
            }
        }
    }
}

/// One round of `while`: when the condition run completes and its result,
/// consumed from the worked end, is falsy, the whole loop completes there
/// with that result removed and nothing else changed.
pub proof fn lemma_while_stops_when_falsy(
    st: StV,
    cond: Seq<ExecV>,
    body: Seq<ExecV>,
    place: Place,
    fuel: nat,
)
    requires
        fuel > 0,
        sem_code(st, cond, (fuel - 1) as nat) is Done,
        ({
            let st2 = sem_code(st, cond, (fuel - 1) as nat)->Done_0;
            pop_at(st2.stack, place) is Some && ({
                let pr = pop_at(st2.stack, place)->0;
                !crate::values::spec_truthy(pr.0)
            })
        }),
    ensures
        ({
            let st2 = sem_code(st, cond, (fuel - 1) as nat)->Done_0;
            let pr = pop_at(st2.stack, place)->0;
            sem_while(st, cond, body, place, fuel) == Outcome::Done(with_stack(st2, pr.1))
        }),
{
}

/// One round of `while`: when the condition's consumed result is truthy and
/// the body run completes, the loop continues from the body's state with
/// one budget unit less — so a run whose condition turns falsy after `k`
/// rounds performs exactly `k` body runs.
pub proof fn lemma_while_runs_body_when_truthy(
    st: StV,
    cond: Seq<ExecV>,
    body: Seq<ExecV>,
    place: Place,
    fuel: nat,
)
    requires
        fuel > 0,
        sem_code(st, cond, (fuel - 1) as nat) is Done,
        ({
            let st2 = sem_code(st, cond, (fuel - 1) as nat)->Done_0;
            pop_at(st2.stack, place) is Some && ({
                let pr = pop_at(st2.stack, place)->0;
                crate::values::spec_truthy(pr.0)
            })
        }),
        ({
            let st2 = sem_code(st, cond, (fuel - 1) as nat)->Done_0;
            let pr = pop_at(st2.stack, place)->0;
            sem_code(with_stack(st2, pr.1), body, (fuel - 1) as nat) is Done
        }),
    ensures
        ({
            let st2 = sem_code(st, cond, (fuel - 1) as nat)->Done_0;
            let pr = pop_at(st2.stack, place)->0;
            let st3 = sem_code(with_stack(st2, pr.1), body, (fuel - 1) as nat)->Done_0;
            sem_while(st, cond, body, place, fuel) == sem_while(st3, cond, body, place, (fuel
                - 1) as nat)
        }),
{
}

/// Every element is a character other than the escape lead.
pub open spec fn plain_char_list(l: Seq<LitV>) -> bool {
    forall|i: int|
        0 <= i < l.len() ==> (#[trigger] l[i]) is Char && l[i]->Char_0 != '\\'
}

proof fn lemma_list_chars_head(l: Seq<LitV>)
    requires
        l.len() > 0,
        is_char_list(l),
    ensures
        list_chars(l) == seq![l[0]->Char_0] + list_chars(l.skip(1)),
    decreases l.len(),
{
    if l.len() == 1 {
        assert(l.drop_last() =~= Seq::<LitV>::empty());
        assert(l.skip(1) =~= Seq::<LitV>::empty());
        assert(l.last() == l[0]);
        assert(list_chars(Seq::<LitV>::empty()) =~= Seq::<char>::empty());
        assert(list_chars(l) == list_chars(l.drop_last()) + seq![l.last()->Char_0]);
        assert(list_chars(l) =~= seq![l[0]->Char_0] + list_chars(l.skip(1)));
    } else {
        assert(is_char_list(l.drop_last())) by {
            assert(forall|i: int|
                0 <= i < l.len() - 1 ==> l.drop_last()[i] == l[i] && l[i] is Char);
        }
        lemma_list_chars_head(l.drop_last());
        assert(l.drop_last()[0] == l[0]);
        assert(l.drop_last().skip(1) =~= l.skip(1).drop_last());
        assert(l.skip(1).last() == l.last());
        assert(l.skip(1).len() > 0);
        assert(list_chars(l) == list_chars(l.drop_last()) + seq![l.last()->Char_0]);
        assert(list_chars(l.skip(1)) == list_chars(l.skip(1).drop_last()) + seq![
            l.skip(1).last()->Char_0,
        ]);
        assert(list_chars(l) =~= seq![l[0]->Char_0] + list_chars(l.skip(1)));
    }
}

proof fn lemma_decode_char_list(l: Seq<LitV>)
    requires
        plain_char_list(l),
    ensures
        spec_decode_chars(list_chars(l)) == Option::Some(l),
    decreases l.len(),
{
    if l.len() == 0 {
        assert(list_chars(l) =~= Seq::<char>::empty());
        assert(Seq::<LitV>::empty() =~= l);
    } else {
        assert(is_char_list(l));
        lemma_list_chars_head(l);
        let cs = list_chars(l);
        assert(cs[0] == l[0]->Char_0);
        assert(cs[0] != '\\');
        assert(plain_char_list(l.skip(1))) by {
            assert(forall|i: int| 0 <= i < l.skip(1).len() ==> l.skip(1)[i] == l[i + 1]);
        }
        lemma_decode_char_list(l.skip(1));
        assert(cs.skip(1) =~= list_chars(l.skip(1)));
        assert(LitV::Char(cs[0]) == l[0]);
        assert(spec_decode_chars(cs) == Option::Some(seq![LitV::Char(cs[0])] + l.skip(1)));
        assert(seq![LitV::Char(cs[0])] + l.skip(1) =~= l);
    }
}

/// A list of characters free of the escape lead renders as its text in
/// double quotes, and a string token holding that text parses back to the
/// same list.  A backslash element is out: it renders unescaped, so its
/// text reads back as an escape; a double-quote element reads back at this
/// level but would end the string early if the text went through the
/// tokenizer again.
pub proof fn lemma_string_literal_round_trip(l: Seq<LitV>, start: int, end: int, line: int)
    requires
        plain_char_list(l),
    ensures
        lit_text(LitV::List(l)) == seq!['"'] + list_chars(l) + seq!['"'],
        spec_parse_literal(
            tokv(
                TokenType::ConstString,
                lit_text(LitV::List(l)),
                Seq::empty(),
                start,
                end,
                line,
            ),
        ) == Result::<LitV, Seq<char>>::Ok(LitV::List(l)),
{
    assert(is_char_list(l));
    let lex = seq!['"'] + list_chars(l) + seq!['"'];
    assert(crate::parser::quoted_inner(lex) =~= list_chars(l));
    lemma_decode_char_list(l);
}

} // verus!
