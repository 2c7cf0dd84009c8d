//! Recursive-descent parsing of the token stream into a sided syntax tree.
//!
//! Every operation must be followed by a sigil (`!` for the left end, `~`
//! for the right); lists hold literals between `[` and `]`, ignoring commas;
//! blocks hold sided steps between `{` and `}`.  Escape sequences in
//! character and string literals resolve here.
use vstd::prelude::*;

use crate::floats::f64_of_text;
use crate::lexer::{toks_view, toks_view_props, TokV, Token, TokenType};
use crate::numtext::parse_int_spec;
use crate::strutil::{char_at, chars_of, skip_skip, str_eq, string_of_chars};
use crate::values::{
    lits_view, lits_view_props, execs_view, execs_view_props, Code, Exec, ExecV, Literal, LitV, Op,
    OpV,
};

verus! {

broadcast use toks_view_props, lits_view_props, execs_view_props;

/// The name of a token type, as diagnostics print it.
pub open spec fn tt_name(tt: TokenType) -> Seq<char> {
    match tt {
        TokenType::Bang => "Bang"@,
        TokenType::Tilde => "Tilde"@,
        TokenType::Comma => "Comma"@,
        TokenType::LeftCurly => "LeftCurly"@,
        TokenType::RightCurly => "RightCurly"@,
        TokenType::LeftSquare => "LeftSquare"@,
        TokenType::RightSquare => "RightSquare"@,
        TokenType::ConstInt => "ConstInt"@,
        TokenType::ConstFloat => "ConstFloat"@,
        TokenType::ConstChar => "ConstChar"@,
        TokenType::ConstString => "ConstString"@,
        TokenType::Instr => "Instr"@,
        TokenType::Error => "Error"@,
        TokenType::End => "End"@,
    }
}

fn tt_name_str(tt: TokenType) -> (r: String)
    ensures
        r@ == tt_name(tt),
{
    match tt {
        TokenType::Bang => "Bang".to_owned(),
        TokenType::Tilde => "Tilde".to_owned(),
        TokenType::Comma => "Comma".to_owned(),
        TokenType::LeftCurly => "LeftCurly".to_owned(),
        TokenType::RightCurly => "RightCurly".to_owned(),
        TokenType::LeftSquare => "LeftSquare".to_owned(),
        TokenType::RightSquare => "RightSquare".to_owned(),
        TokenType::ConstInt => "ConstInt".to_owned(),
        TokenType::ConstFloat => "ConstFloat".to_owned(),
        TokenType::ConstChar => "ConstChar".to_owned(),
        TokenType::ConstString => "ConstString".to_owned(),
        TokenType::Instr => "Instr".to_owned(),
        TokenType::Error => "Error".to_owned(),
        TokenType::End => "End".to_owned(),
    }
}

/// The resolution of a character escape: `\n \r \t \\ \' \" \0`.
pub open spec fn spec_unescape(c: char) -> Option<char> {
    if c == 'n' {
        Option::Some('\n')
    } else if c == 'r' {
        Option::Some('\r')
    } else if c == 't' {
        Option::Some('\t')
    } else if c == '\\' {
        Option::Some('\\')
    } else if c == '\'' {
        Option::Some('\'')
    } else if c == '"' {
        Option::Some('"')
    } else if c == '0' {
        Option::Some('\0')
    } else {
        Option::None
    }
}

fn unescape(c: char) -> (r: Option<char>)
    ensures
        r == spec_unescape(c),
{
    if c == 'n' {
        Option::Some('\n')
    } else if c == 'r' {
        Option::Some('\r')
    } else if c == 't' {
        Option::Some('\t')
    } else if c == '\\' {
        Option::Some('\\')
    } else if c == '\'' {
        Option::Some('\'')
    } else if c == '"' {
        Option::Some('"')
    } else if c == '0' {
        Option::Some('\0')
    } else {
        Option::None
    }
}

/// The message for an unrecognized escape in the quoted text `inner`.
pub open spec fn esc_err(inner: Seq<char>) -> Seq<char> {
    "Parser Error: Unrecognized character escape sequence `"@ + inner + "`"@
}

/// The text between the quotes of a quoted lexeme.
pub open spec fn quoted_inner(lex: Seq<char>) -> Seq<char> {
    if lex.len() >= 2 {
        lex.subrange(1, lex.len() - 1)
    } else {
        Seq::empty()
    }
}

/// A character literal's value: the single inner character, or a resolved
/// escape sequence.
pub open spec fn spec_char_literal(lex: Seq<char>) -> Result<LitV, Seq<char>> {
    let inner = quoted_inner(lex);
    if inner.len() >= 1 && inner[0] == '\\' {
        if inner.len() >= 2 && spec_unescape(inner[1]) is Some {
            Result::Ok(LitV::Char(spec_unescape(inner[1])->0))
        } else {
            Result::Err(esc_err(inner))
        }
    } else if inner.len() == 1 {
        Result::Ok(LitV::Char(inner[0]))
    } else {
        Result::Err("Parser Error: Invalid character literal"@)
    }
}

/// The characters a string literal's inner text decodes to, honoring the
/// escape sequences; `Option::None` on an unrecognized or unfinished escape.
pub open spec fn spec_decode_chars(s: Seq<char>) -> Option<Seq<LitV>>
    decreases s.len(),
{
    if s.len() == 0 {
        Option::Some(Seq::empty())
    } else if s[0] == '\\' {
        if s.len() >= 2 && spec_unescape(s[1]) is Some {
            match spec_decode_chars(s.skip(2)) {
                Option::Some(r) => Option::Some(seq![LitV::Char(spec_unescape(s[1])->0)] + r),
                Option::None => Option::None,
            }
        } else {
            Option::None
        }
    } else {
        match spec_decode_chars(s.skip(1)) {
            Option::Some(r) => Option::Some(seq![LitV::Char(s[0])] + r),
            Option::None => Option::None,
        }
    }
}

/// A string literal's value: a list of its decoded characters.
pub open spec fn spec_string_literal(lex: Seq<char>) -> Result<LitV, Seq<char>> {
    let inner = quoted_inner(lex);
    match spec_decode_chars(inner) {
        Option::Some(cs) => Result::Ok(LitV::List(cs)),
        Option::None => Result::Err(esc_err(inner)),
    }
}

/// The literal a single token denotes.  Integer and float tokens parse
/// their decimal text, quoted tokens resolve escapes, and the instruction
/// names `true` and `false` read as booleans; every other token is an error.
pub open spec fn spec_parse_literal(t: TokV) -> Result<LitV, Seq<char>> {
    match t.token_type {
        TokenType::ConstInt => match parse_int_spec(t.lexeme) {
            Option::Some(i) => Result::Ok(LitV::Int(i)),
            Option::None => Result::Err("Parser Error: Invalid integer literal"@),
        },
        TokenType::ConstFloat => if t.lexeme.len() < 0x8000_0000 && f64_of_text(t.lexeme) is Some {
            Result::Ok(LitV::Float(f64_of_text(t.lexeme)->0))
        } else {
            Result::Err("Parser Error: Invalid float literal"@)
        },
        TokenType::ConstChar => spec_char_literal(t.lexeme),
        TokenType::ConstString => spec_string_literal(t.lexeme),
        TokenType::Instr => if t.lexeme == "true"@ {
            Result::Ok(LitV::Bool(true))
        } else if t.lexeme == "false"@ {
            Result::Ok(LitV::Bool(false))
        } else {
            Result::Err(
                "Parser Error: Unexpected token type "@ + tt_name(t.token_type) + " for Literal"@,
            )
        },
        _ => Result::Err(
            "Parser Error: Unexpected token type "@ + tt_name(t.token_type) + " for Literal"@,
        ),
    }
}

/// The view of a literal parse result.
pub open spec fn lit_res_view(r: Result<Literal, String>) -> Result<LitV, Seq<char>> {
    match r {
        Result::Ok(l) => Result::Ok(l@),
        Result::Err(e) => Result::Err(e@),
    }
}

fn esc_err_string(inner: &Vec<char>) -> (r: String)
    ensures
        r@ == esc_err(inner@),
{
    let mut m = "Parser Error: Unrecognized character escape sequence `".to_owned();
    let mid = string_of_chars(inner);
    m.push_str(mid.as_str());
    m.push_str("`");
    m
}

fn unexpected_literal_err(tt: TokenType) -> (r: String)
    ensures
        r@ == "Parser Error: Unexpected token type "@ + tt_name(tt) + " for Literal"@,
{
    let mut m = "Parser Error: Unexpected token type ".to_owned();
    let name = tt_name_str(tt);
    m.push_str(name.as_str());
    m.push_str(" for Literal");
    m
}

/// The characters between the first and last character of the lexeme.
fn inner_chars(lexeme: &String) -> (r: Vec<char>)
    ensures
        r@ == quoted_inner(lexeme@),
{
    let cs = chars_of(lexeme.as_str());
    let mut out: Vec<char> = Vec::new();
    if cs.len() < 2 {
        return out;
    }
    let stop = cs.len() - 1;
    let mut j: usize = 1;
    while j < stop
        invariant
            1 <= j <= stop,
            stop == cs@.len() - 1,
            cs@.len() >= 2,
            cs@ == lexeme@,
            out@ == lexeme@.subrange(1, j as int),
        decreases stop - j,
    {
        out.push(cs[j]);
        proof {
            assert(out@ =~= lexeme@.subrange(1, j + 1 as int));
        }
        j += 1;
    }
    proof {
        assert(out@ =~= quoted_inner(lexeme@));
    }
    out
}

fn push_char_value(out: &mut Vec<Literal>, c: char)
    ensures
        final(out)@ == old(out)@.push(Literal::Char(c)),
        lits_view(final(out)@) == lits_view(old(out)@) + seq![LitV::Char(c)],
{
    proof {
        crate::values::lits_view_push(out@, Literal::Char(c));
    }
    out.push(Literal::Char(c));
}






/// Decodes a string literal's lexeme into a list of character values.
#[verifier::spinoff_prover]
#[verifier::loop_isolation(false)]
fn parse_string_literal(lexeme: &String) -> (r: Result<Literal, String>)
    ensures
        lit_res_view(r) == spec_string_literal(lexeme@),
{

            let inner = inner_chars(lexeme);
            let mut out: Vec<Literal> = Vec::new();
            let mut j: usize = 0;
            proof {
                assert(inner@.skip(0) =~= inner@);
                assert(lits_view(out@) =~= Seq::<LitV>::empty());
                if spec_decode_chars(inner@) is Some {
                    assert(lits_view(out@) + spec_decode_chars(inner@)->0 =~= spec_decode_chars(
                        inner@,
                    )->0);
                }
            }
            while j < inner.len()
                invariant
                    inner@ == quoted_inner(lexeme@),
                    j <= inner@.len(),
                    spec_decode_chars(inner@) is Some ==> spec_decode_chars(inner@)->0
                        == lits_view(out@) + spec_decode_chars(inner@.skip(j as int))->0,
                    spec_decode_chars(inner@) is Some <==> spec_decode_chars(
                        inner@.skip(j as int),
                    ) is Some,
                decreases inner@.len() - j,
            {
                let ghost pre = inner@.skip(j as int);
                proof {
                    assert(pre.len() == inner@.len() - j);
                    assert(pre[0] == inner@[j as int]);
                }
                let c = char_at(&inner, j);
                if c == '\\' {
                    if j + 1 >= inner.len() {
                        proof {
                            assert(spec_decode_chars(pre) is None);
                        }
                        return Result::Err(esc_err_string(&inner));
                    }
                    proof {
                        assert(pre[1] == inner@[j + 1]);
                    }
                    match unescape(char_at(&inner, j + 1)) {
                        Option::Some(e) => {
                            let ghost old_out = out@;
                            proof {
                                skip_skip(inner@, j as int, 2);
                            }
                            push_char_value(&mut out, e);
                            proof {
                                assert(lits_view(out@) == lits_view(old_out) + seq![
                                    LitV::Char(e),
                                ]);
                                if spec_decode_chars(inner@) is Some {
                                    assert(spec_decode_chars(pre) is Some);
                                    assert(spec_decode_chars(pre)->0 == seq![LitV::Char(e)]
                                        + spec_decode_chars(pre.skip(2))->0);
                                    assert(lits_view(old_out) + spec_decode_chars(pre)->0
                                        =~= lits_view(out@) + spec_decode_chars(
                                        inner@.skip(j + 2),
                                    )->0);
                                }
                            }
                            j += 2;
                        }
                        Option::None => {
                            proof {
                                assert(spec_decode_chars(pre) is None);
                            }
                            return Result::Err(esc_err_string(&inner));
                        }
                    }
                } else {
                    let ghost old_out = out@;
                    proof {
                        skip_skip(inner@, j as int, 1);
                    }
                    push_char_value(&mut out, c);
                    proof {
                        assert(lits_view(out@) == lits_view(old_out) + seq![LitV::Char(c)]);
                        if spec_decode_chars(inner@) is Some {
                            assert(spec_decode_chars(pre) is Some);
                            assert(spec_decode_chars(pre)->0 == seq![LitV::Char(c)]
                                + spec_decode_chars(pre.skip(1))->0);
                            assert(lits_view(old_out) + spec_decode_chars(pre)->0 =~= lits_view(
                                out@,
                            ) + spec_decode_chars(inner@.skip(j + 1))->0);
                        }
                    }
                    j += 1;
                }
            }
            proof {
                assert(inner@.skip(j as int) =~= Seq::<char>::empty());
                assert(spec_decode_chars(inner@.skip(j as int)) == Option::Some(
                    Seq::<LitV>::empty(),
                ));
                assert(lits_view(out@) + Seq::<LitV>::empty() =~= lits_view(out@));
            }
            Result::Ok(Literal::List(out))
        }

/// Parses a literal token into a literal value.
pub fn parse_literal(token: &Token) -> (r: Result<Literal, String>)
    ensures
        lit_res_view(r) == spec_parse_literal(token@),
{
    match token.token_type {
        TokenType::ConstInt => {
            let cs = chars_of(token.lexeme.as_str());
            match crate::numtext::parse_i64_chars(&cs) {
                Option::Some(i) => Result::Ok(Literal::Int(i)),
                Option::None => Result::Err("Parser Error: Invalid integer literal".to_owned()),
            }
        }
        TokenType::ConstFloat => {
            let cs = chars_of(token.lexeme.as_str());
            if cs.len() < 0x8000_0000 {
                match crate::floats::f64_bits_of_text(token.lexeme.as_str()) {
                    Option::Some(b) => Result::Ok(Literal::Float(b)),
                    Option::None => Result::Err("Parser Error: Invalid float literal".to_owned()),
                }
            } else {
                Result::Err("Parser Error: Invalid float literal".to_owned())
            }
        }
        TokenType::ConstChar => {
            let inner = inner_chars(&token.lexeme);
            if inner.len() >= 1 && char_at(&inner, 0) == '\\' {
                if inner.len() >= 2 {
                    match unescape(char_at(&inner, 1)) {
                        Option::Some(c) => Result::Ok(Literal::Char(c)),
                        Option::None => Result::Err(esc_err_string(&inner)),
                    }
                } else {
                    Result::Err(esc_err_string(&inner))
                }
            } else if inner.len() == 1 {
                Result::Ok(Literal::Char(char_at(&inner, 0)))
            } else {
                Result::Err("Parser Error: Invalid character literal".to_owned())
            }
        }
        TokenType::ConstString => parse_string_literal(&token.lexeme),
        TokenType::Instr => {
            if str_eq(token.lexeme.as_str(), "true") {
                Result::Ok(Literal::Bool(true))
            } else if str_eq(token.lexeme.as_str(), "false") {
                Result::Ok(Literal::Bool(false))
            } else {
                Result::Err(unexpected_literal_err(token.token_type))
            }
        }
        _ => Result::Err(unexpected_literal_err(token.token_type)),
    }
}


/// A clamp that keeps the parser's recursion well-founded: parsing always
/// moves the cursor forward and never past the end, as the bounds in each
/// parsing function's contract show, so the clamp never alters a reachable
/// position.
pub open spec fn bump(ts: Seq<TokV>, pos: int, np: int) -> int {
    if pos < np <= ts.len() {
        np
    } else if pos + 1 <= ts.len() {
        pos + 1
    } else {
        ts.len() as int
    }
}

/// The elements of a list read from inside its brackets: literals and nested
/// lists until the closing bracket, commas skipped.  Returns the elements
/// and the position after the closing bracket.
pub open spec fn spec_parse_list(ts: Seq<TokV>, pos: int) -> Result<(Seq<LitV>, int), Seq<char>>
    decreases ts.len() - pos, 0int,
{
    if !(0 <= pos < ts.len()) {
        Result::Err("Parsing Error: Unclosed list"@)
    } else if ts[pos].token_type == TokenType::RightSquare {
        Result::Ok((Seq::empty(), pos + 1))
    } else if ts[pos].token_type == TokenType::Comma {
        spec_parse_list(ts, pos + 1)
    } else if ts[pos].token_type == TokenType::LeftSquare {
        match spec_parse_list(ts, pos + 1) {
            Result::Ok((inner, np)) => match spec_parse_list(ts, bump(ts, pos, np)) {
                Result::Ok((rest, np2)) => Result::Ok((seq![LitV::List(inner)] + rest, np2)),
                Result::Err(e) => Result::Err(e),
            },
            Result::Err(e) => Result::Err(e),
        }
    } else {
        match spec_parse_literal(ts[pos]) {
            Result::Ok(l) => match spec_parse_list(ts, pos + 1) {
                Result::Ok((rest, np)) => Result::Ok((seq![l] + rest, np)),
                Result::Err(e) => Result::Err(e),
            },
            Result::Err(e) => Result::Err(e),
        }
    }
}

/// One operation: a literal (a literal token, a bracketed list or a curly
/// block) or an instruction name.  Returns the operation and the position
/// after it.
pub open spec fn spec_parse_op(ts: Seq<TokV>, pos: int) -> Result<(OpV, int), Seq<char>>
    decreases ts.len() - pos, 1int,
{
    if !(0 <= pos < ts.len()) {
        Result::Err("Parse Error: Unexpected end of input for Op"@)
    } else {
        let t = ts[pos];
        if t.token_type == TokenType::ConstInt || t.token_type == TokenType::ConstFloat
            || t.token_type == TokenType::ConstChar || t.token_type == TokenType::ConstString || (
        t.token_type == TokenType::Instr && (t.lexeme == "true"@ || t.lexeme == "false"@)) {
            match spec_parse_literal(t) {
                Result::Ok(l) => Result::Ok((OpV::Literal(l), pos + 1)),
                Result::Err(e) => Result::Err(e),
            }
        } else if t.token_type == TokenType::Instr {
            Result::Ok((OpV::Instruction(t.lexeme), pos + 1))
        } else if t.token_type == TokenType::LeftSquare {
            match spec_parse_list(ts, pos + 1) {
                Result::Ok((items, np)) => Result::Ok((OpV::Literal(LitV::List(items)), np)),
                Result::Err(e) => Result::Err(e),
            }
        } else if t.token_type == TokenType::LeftCurly {
            match spec_parse_block(ts, pos + 1) {
                Result::Ok((body, np)) => Result::Ok((OpV::Literal(LitV::Block(body)), np)),
                Result::Err(e) => Result::Err(e),
            }
        } else {
            Result::Err("Parse Error: Unexpected token type "@ + tt_name(t.token_type) + " for Op"@)
        }
    }
}

/// One sided step: an operation followed by its mandatory sigil.
pub open spec fn spec_parse_exec(ts: Seq<TokV>, pos: int) -> Result<(ExecV, int), Seq<char>>
    decreases ts.len() - pos, 2int,
{
    match spec_parse_op(ts, pos) {
        Result::Err(e) => Result::Err(e),
        Result::Ok((op, np)) => if !(0 <= np < ts.len()) {
            Result::Err("Parser Error: Expected sigil Bang or Tilde, instead got End"@)
        } else if ts[np].token_type == TokenType::Bang {
            Result::Ok((ExecV::Left(op), np + 1))
        } else if ts[np].token_type == TokenType::Tilde {
            Result::Ok((ExecV::Right(op), np + 1))
        } else {
            Result::Err(
                "Parser Error: Expected sigil Bang or Tilde, instead got "@ + tt_name(
                    ts[np].token_type,
                ),
            )
        },
    }
}

/// The steps of a block read from inside its braces, up to and including
/// the closing brace.
pub open spec fn spec_parse_block(ts: Seq<TokV>, pos: int) -> Result<(Seq<ExecV>, int), Seq<char>>
    decreases ts.len() - pos, 3int,
{
    if !(0 <= pos < ts.len()) {
        Result::Err("Parser Error: Unclosed block"@)
    } else if ts[pos].token_type == TokenType::RightCurly {
        Result::Ok((Seq::empty(), pos + 1))
    } else {
        match spec_parse_exec(ts, pos) {
            Result::Err(e) => Result::Err(e),
            Result::Ok((e, np)) => match spec_parse_block(ts, bump(ts, pos, np)) {
                Result::Ok((rest, np2)) => Result::Ok((seq![e] + rest, np2)),
                Result::Err(er) => Result::Err(er),
            },
        }
    }
}

/// A whole program: sided steps until the tokens run out.
pub open spec fn spec_parse_tokens(ts: Seq<TokV>, pos: int) -> Result<Seq<ExecV>, Seq<char>>
    decreases ts.len() - pos, 4int,
{
    if !(0 <= pos < ts.len()) {
        Result::Ok(Seq::empty())
    } else {
        match spec_parse_exec(ts, pos) {
            Result::Err(e) => Result::Err(e),
            Result::Ok((e, np)) => match spec_parse_tokens(ts, bump(ts, pos, np)) {
                Result::Ok(rest) => Result::Ok(seq![e] + rest),
                Result::Err(er) => Result::Err(er),
            },
        }
    }
}


/// The kind of literal a token resolves to, if any: the instruction names
/// `true` and `false` look like boolean literals.
#[derive(Debug, Clone, Copy, PartialEq, Eq, Structural)]
pub enum LiteralType {
    Int,
    Float,
    Bool,
    Char,
    String,
}

/// Classifies a token as a literal of some kind, or not a literal.
pub fn literal_kind(token: &Token) -> (r: Option<LiteralType>)
    ensures
        r is Some <==> (token@.token_type == TokenType::ConstInt || token@.token_type
            == TokenType::ConstFloat || token@.token_type == TokenType::ConstChar
            || token@.token_type == TokenType::ConstString || (token@.token_type
            == TokenType::Instr && (token@.lexeme == "true"@ || token@.lexeme == "false"@))),
{
    match token.token_type {
        TokenType::ConstInt => Option::Some(LiteralType::Int),
        TokenType::ConstFloat => Option::Some(LiteralType::Float),
        TokenType::ConstChar => Option::Some(LiteralType::Char),
        TokenType::ConstString => Option::Some(LiteralType::String),
        TokenType::Instr => {
            if str_eq(token.lexeme.as_str(), "true") || str_eq(token.lexeme.as_str(), "false") {
                Option::Some(LiteralType::Bool)
            } else {
                Option::None
            }
        }
        _ => Option::None,
    }
}

fn unexpected_op_err(tt: TokenType) -> (r: String)
    ensures
        r@ == "Parse Error: Unexpected token type "@ + tt_name(tt) + " for Op"@,
{
    let mut m = "Parse Error: Unexpected token type ".to_owned();
    let name = tt_name_str(tt);
    m.push_str(name.as_str());
    m.push_str(" for Op");
    m
}

fn sigil_err(tt: TokenType) -> (r: String)
    ensures
        r@ == "Parser Error: Expected sigil Bang or Tilde, instead got "@ + tt_name(tt),
{
    let mut m = "Parser Error: Expected sigil Bang or Tilde, instead got ".to_owned();
    let name = tt_name_str(tt);
    m.push_str(name.as_str());
    m
}

/// Parses the elements of a list from inside its brackets.
#[verifier::loop_isolation(false)]
fn parse_list_inside(tokens: &Vec<Token>, pos: usize) -> (r: Result<(Literal, usize), String>)
    requires
        pos <= tokens@.len(),
    ensures
        ({
            let s = spec_parse_list(toks_view(tokens@), pos as int);
            match r {
                Result::Ok(p) => s is Ok && p.0@ == LitV::List(s->Ok_0.0) && p.1 as int
                    == s->Ok_0.1 && pos < p.1 <= tokens@.len(),
                Result::Err(e) => s is Err && e@ == s->Err_0,
            }
        }),
    decreases tokens@.len() - pos, 0int,
{
    let ghost ts = toks_view(tokens@);
    let mut acc: Vec<Literal> = Vec::new();
    let mut cur = pos;
    proof {
        assert(lits_view(acc@) =~= Seq::<LitV>::empty());
        if spec_parse_list(ts, pos as int) is Ok {
            let p = spec_parse_list(ts, pos as int)->Ok_0;
            assert(Seq::<LitV>::empty() + p.0 =~= p.0);
        }
    }
    loop
        invariant
            pos <= cur <= tokens@.len(),
            ({
                let s0 = spec_parse_list(ts, pos as int);
                match spec_parse_list(ts, cur as int) {
                    Result::Ok(p) => s0 is Ok && s0->Ok_0.0 == lits_view(acc@) + p.0
                        && s0->Ok_0.1 == p.1,
                    Result::Err(e) => s0 is Err && s0->Err_0 == e,
                }
            }),
        decreases tokens@.len() - cur,
    {
        if cur >= tokens.len() {
            return Result::Err("Parsing Error: Unclosed list".to_owned());
        }
        proof {
            assert(ts[cur as int] == tokens@[cur as int]@);
        }
        let tt = tokens[cur].token_type;
        if tt == TokenType::RightSquare {
            proof {
                assert(lits_view(acc@) + Seq::<LitV>::empty() =~= lits_view(acc@));
            }
            return Result::Ok((Literal::List(acc), cur + 1));
        } else if tt == TokenType::Comma {
            cur = cur + 1;
        } else if tt == TokenType::LeftSquare {
            match parse_list_inside(tokens, cur + 1) {
                Result::Ok((lit2, np)) => {
                    let ghost old_acc = acc@;
                    proof {
                        crate::values::lits_view_push(acc@, lit2);
                    }
                    let ghost inner = spec_parse_list(ts, cur + 1 as int)->Ok_0.0;
                    acc.push(lit2);
                    proof {
                        assert(bump(ts, cur as int, np as int) == np as int);
                        assert(lits_view(acc@) == lits_view(old_acc) + seq![LitV::List(inner)]);
                        if spec_parse_list(ts, np as int) is Ok {
                            let p = spec_parse_list(ts, np as int)->Ok_0;
                            assert(spec_parse_list(ts, cur as int) == Result::<
                                (Seq<LitV>, int),
                                Seq<char>,
                            >::Ok(((seq![LitV::List(inner)] + p.0), p.1)));
                            assert(lits_view(old_acc) + (seq![LitV::List(inner)] + p.0)
                                =~= lits_view(acc@) + p.0);
                        }
                    }
                    cur = np;
                }
                Result::Err(e) => {
                    return Result::Err(e);
                }
            }
        } else {
            match parse_literal(&tokens[cur]) {
                Result::Ok(l) => {
                    let ghost old_acc = acc@;
                    proof {
                        crate::values::lits_view_push(acc@, l);
                    }
                    let ghost lv = l@;
                    acc.push(l);
                    proof {
                        assert(lits_view(acc@) == lits_view(old_acc) + seq![lv]);
                        if spec_parse_list(ts, cur + 1 as int) is Ok {
                            let p = spec_parse_list(ts, cur + 1 as int)->Ok_0;
                            assert(spec_parse_list(ts, cur as int) == Result::<
                                (Seq<LitV>, int),
                                Seq<char>,
                            >::Ok(((seq![lv] + p.0), p.1)));
                            assert(lits_view(old_acc) + (seq![lv] + p.0) =~= lits_view(acc@)
                                + p.0);
                        }
                    }
                    cur = cur + 1;
                }
                Result::Err(e) => {
                    return Result::Err(e);
                }
            }
        }
    }
}

/// Parses a list literal.  When `nested` is false the bracket that opens
/// the list is still in the stream and is skipped first.
pub fn parse_list(tokens: &Vec<Token>, pos: usize, nested: bool) -> (r: Result<
    (Literal, usize),
    String,
>)
    requires
        pos <= tokens@.len(),
    ensures
        ({
            let start = if nested {
                pos as int
            } else {
                pos as int + 1
            };
            let s = spec_parse_list(toks_view(tokens@), start);
            match r {
                Result::Ok(p) => s is Ok && p.0@ == LitV::List(s->Ok_0.0) && p.1 as int
                    == s->Ok_0.1,
                Result::Err(e) => s is Err && e@ == s->Err_0,
            }
        }),
{
    if nested {
        parse_list_inside(tokens, pos)
    } else {
        if pos >= tokens.len() {
            return Result::Err("Parsing Error: Unclosed list".to_owned());
        }
        parse_list_inside(tokens, pos + 1)
    }
}

/// Parses the steps of a block from inside its braces.
#[verifier::loop_isolation(false)]
pub fn parse_block(tokens: &Vec<Token>, pos: usize) -> (r: Result<(Literal, usize), String>)
    requires
        pos <= tokens@.len(),
    ensures
        ({
            let s = spec_parse_block(toks_view(tokens@), pos as int);
            match r {
                Result::Ok(p) => s is Ok && p.0@ == LitV::Block(s->Ok_0.0) && p.1 as int
                    == s->Ok_0.1 && pos < p.1 <= tokens@.len(),
                Result::Err(e) => s is Err && e@ == s->Err_0,
            }
        }),
    decreases tokens@.len() - pos, 3int,
{
    let ghost ts = toks_view(tokens@);
    let mut acc: Vec<Exec> = Vec::new();
    let mut cur = pos;
    proof {
        assert(execs_view(acc@) =~= Seq::<ExecV>::empty());
        if spec_parse_block(ts, pos as int) is Ok {
            let p = spec_parse_block(ts, pos as int)->Ok_0;
            assert(Seq::<ExecV>::empty() + p.0 =~= p.0);
        }
    }
    loop
        invariant
            pos <= cur <= tokens@.len(),
            ({
                let s0 = spec_parse_block(ts, pos as int);
                match spec_parse_block(ts, cur as int) {
                    Result::Ok(p) => s0 is Ok && s0->Ok_0.0 == execs_view(acc@) + p.0
                        && s0->Ok_0.1 == p.1,
                    Result::Err(e) => s0 is Err && s0->Err_0 == e,
                }
            }),
        decreases tokens@.len() - cur,
    {
        if cur >= tokens.len() {
            return Result::Err("Parser Error: Unclosed block".to_owned());
        }
        proof {
            assert(ts[cur as int] == tokens@[cur as int]@);
        }
        if tokens[cur].token_type == TokenType::RightCurly {
            proof {
                assert(execs_view(acc@) + Seq::<ExecV>::empty() =~= execs_view(acc@));
            }
            return Result::Ok((Literal::Block(acc), cur + 1));
        }
        match parse_exec(tokens, cur) {
            Result::Ok((e, np)) => {
                let ghost old_acc = acc@;
                proof {
                    crate::values::execs_view_push(acc@, e);
                }
                let ghost ev = e@;
                acc.push(e);
                proof {
                    assert(bump(ts, cur as int, np as int) == np as int);
                    assert(execs_view(acc@) == execs_view(old_acc) + seq![ev]);
                    if spec_parse_block(ts, np as int) is Ok {
                        let p = spec_parse_block(ts, np as int)->Ok_0;
                        assert(spec_parse_block(ts, cur as int) == Result::<
                            (Seq<ExecV>, int),
                            Seq<char>,
                        >::Ok(((seq![ev] + p.0), p.1)));
                        assert(execs_view(old_acc) + (seq![ev] + p.0) =~= execs_view(acc@) + p.0);
                    }
                }
                cur = np;
            }
            Result::Err(e) => {
                return Result::Err(e);
            }
        }
    }
}

/// Parses one operation: a literal or an instruction name.
pub fn parse_op(tokens: &Vec<Token>, pos: usize) -> (r: Result<(Op, usize), String>)
    requires
        pos <= tokens@.len(),
    ensures
        ({
            let s = spec_parse_op(toks_view(tokens@), pos as int);
            match r {
                Result::Ok(p) => s is Ok && p.0@ == s->Ok_0.0 && p.1 as int == s->Ok_0.1 && pos
                    < p.1 <= tokens@.len(),
                Result::Err(e) => s is Err && e@ == s->Err_0,
            }
        }),
    decreases tokens@.len() - pos, 1int,
{
    let ghost ts = toks_view(tokens@);
    if pos >= tokens.len() {
        return Result::Err("Parse Error: Unexpected end of input for Op".to_owned());
    }
    proof {
        assert(ts[pos as int] == tokens@[pos as int]@);
    }
    match literal_kind(&tokens[pos]) {
        Option::Some(_) => {
            match parse_literal(&tokens[pos]) {
                Result::Ok(l) => Result::Ok((Op::Literal(l), pos + 1)),
                Result::Err(e) => Result::Err(e),
            }
        }
        Option::None => {
            let tt = tokens[pos].token_type;
            if tt == TokenType::Instr {
                Result::Ok((Op::Instruction(tokens[pos].lexeme.clone()), pos + 1))
            } else if tt == TokenType::LeftSquare {
                match parse_list_inside(tokens, pos + 1) {
                    Result::Ok((lit, np)) => Result::Ok((Op::Literal(lit), np)),
                    Result::Err(e) => Result::Err(e),
                }
            } else if tt == TokenType::LeftCurly {
                match parse_block(tokens, pos + 1) {
                    Result::Ok((lit, np)) => Result::Ok((Op::Literal(lit), np)),
                    Result::Err(e) => Result::Err(e),
                }
            } else {
                Result::Err(unexpected_op_err(tt))
            }
        }
    }
}

/// Parses one sided step: an operation and the sigil that follows it.
pub fn parse_exec(tokens: &Vec<Token>, pos: usize) -> (r: Result<(Exec, usize), String>)
    requires
        pos <= tokens@.len(),
    ensures
        ({
            let s = spec_parse_exec(toks_view(tokens@), pos as int);
            match r {
                Result::Ok(p) => s is Ok && p.0@ == s->Ok_0.0 && p.1 as int == s->Ok_0.1 && pos
                    < p.1 <= tokens@.len(),
                Result::Err(e) => s is Err && e@ == s->Err_0,
            }
        }),
    decreases tokens@.len() - pos, 2int,
{
    let ghost ts = toks_view(tokens@);
    match parse_op(tokens, pos) {
        Result::Err(e) => Result::Err(e),
        Result::Ok((op, np)) => {
            if np >= tokens.len() {
                return Result::Err(
                    "Parser Error: Expected sigil Bang or Tilde, instead got End".to_owned(),
                );
            }
            proof {
                assert(ts[np as int] == tokens@[np as int]@);
            }
            let tt = tokens[np].token_type;
            if tt == TokenType::Bang {
                Result::Ok((Exec::Left(op), np + 1))
            } else if tt == TokenType::Tilde {
                Result::Ok((Exec::Right(op), np + 1))
            } else {
                Result::Err(sigil_err(tt))
            }
        }
    }
}

/// Parses a whole token stream into a program.
#[verifier::loop_isolation(false)]
pub fn parse_tokens(tokens: &Vec<Token>) -> (r: Result<Code, String>)
    ensures
        ({
            let s = spec_parse_tokens(toks_view(tokens@), 0);
            match r {
                Result::Ok(code) => s is Ok && execs_view(code@) == s->Ok_0,
                Result::Err(e) => s is Err && e@ == s->Err_0,
            }
        }),
{
    let ghost ts = toks_view(tokens@);
    let mut code: Vec<Exec> = Vec::new();
    let mut cur: usize = 0;
    proof {
        assert(execs_view(code@) =~= Seq::<ExecV>::empty());
        if spec_parse_tokens(ts, 0) is Ok {
            assert(Seq::<ExecV>::empty() + spec_parse_tokens(ts, 0)->Ok_0 =~= spec_parse_tokens(
                ts,
                0,
            )->Ok_0);
        }
    }
    loop
        invariant
            cur <= tokens@.len(),
            ({
                let s0 = spec_parse_tokens(ts, 0);
                match spec_parse_tokens(ts, cur as int) {
                    Result::Ok(rest) => s0 is Ok && s0->Ok_0 == execs_view(code@) + rest,
                    Result::Err(e) => s0 is Err && s0->Err_0 == e,
                }
            }),
        decreases tokens@.len() - cur,
    {
        if cur >= tokens.len() {
            proof {
                assert(execs_view(code@) + Seq::<ExecV>::empty() =~= execs_view(code@));
            }
            return Result::Ok(code);
        }
        match parse_exec(tokens, cur) {
            Result::Ok((e, np)) => {
                let ghost old_code = code@;
                proof {
                    crate::values::execs_view_push(code@, e);
                }
                let ghost ev = e@;
                code.push(e);
                proof {
                    assert(bump(ts, cur as int, np as int) == np as int);
                    assert(execs_view(code@) == execs_view(old_code) + seq![ev]);
                    if spec_parse_tokens(ts, np as int) is Ok {
                        let rest = spec_parse_tokens(ts, np as int)->Ok_0;
                        assert(spec_parse_tokens(ts, cur as int) == Result::<
                            Seq<ExecV>,
                            Seq<char>,
                        >::Ok(seq![ev] + rest));
                        assert(execs_view(old_code) + (seq![ev] + rest) =~= execs_view(code@)
                            + rest);
                    }
                }
                cur = np;
            }
            Result::Err(e) => {
                return Result::Err(e);
            }
        }
    }
}

} // verus!
