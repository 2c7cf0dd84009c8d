//! Lexical analysis: a single left-to-right scan that turns source text into
//! tokens, attaching offsets and line numbers, and embedding malformed
//! literals as `Error` tokens rather than stopping early.
use vstd::prelude::*;

use crate::numtext::is_dec_digit;
use crate::strutil::chars_of;

verus! {

/// The type of a token.
#[derive(Debug, Clone, Copy, PartialEq, Eq, Structural)]
pub enum TokenType {
    Bang,
    Tilde,
    Comma,
    LeftCurly,
    RightCurly,
    LeftSquare,
    RightSquare,
    ConstInt,
    ConstFloat,
    ConstChar,
    ConstString,
    Instr,
    Error,
    End,
}

/// The scanning mode the lexer enters after its first look at a character.
#[derive(Debug, Clone, Copy, PartialEq, Eq, Structural)]
pub enum LexerState {
    Start,
    InInt,
    InChar,
    InString,
    InInstrOrInt,
    InInstr,
}

/// A lexical token.
#[derive(Debug, Clone, PartialEq)]
pub struct Token {
    pub token_type: TokenType,
    pub lexeme: String,
    pub error_msg: String,
    /// Offset where the scan of this token began.
    pub start: usize,
    /// Offset just past the last character consumed for this token.
    pub end: usize,
    /// Line number at the start of the token.
    pub line: usize,
}

/// Mathematical view of a [`Token`].
pub struct TokV {
    pub token_type: TokenType,
    pub lexeme: Seq<char>,
    pub error_msg: Seq<char>,
    pub start: int,
    pub end: int,
    pub line: int,
}

impl View for Token {
    type V = TokV;

    open spec fn view(&self) -> TokV {
        TokV {
            token_type: self.token_type,
            lexeme: self.lexeme@,
            error_msg: self.error_msg@,
            start: self.start as int,
            end: self.end as int,
            line: self.line as int,
        }
    }
}

impl Token {
    pub fn new(
        token_type: TokenType,
        lexeme: String,
        error_msg: String,
        start: usize,
        end: usize,
        line: usize,
    ) -> (r: Token)
        ensures
            r@ == (TokV {
                token_type,
                lexeme: lexeme@,
                error_msg: error_msg@,
                start: start as int,
                end: end as int,
                line: line as int,
            }),
    {
        Token { token_type, lexeme, error_msg, start, end, line }
    }
}

pub open spec fn is_space(c: char) -> bool {
    c == ' ' || c == '\t'
}

pub open spec fn is_single(c: char) -> bool {
    c == '{' || c == '}' || c == '[' || c == ']' || c == ',' || c == '!' || c == '~'
}

pub open spec fn single_type(c: char) -> TokenType {
    if c == '{' {
        TokenType::LeftCurly
    } else if c == '}' {
        TokenType::RightCurly
    } else if c == '[' {
        TokenType::LeftSquare
    } else if c == ']' {
        TokenType::RightSquare
    } else if c == ',' {
        TokenType::Comma
    } else if c == '!' {
        TokenType::Bang
    } else {
        TokenType::Tilde
    }
}

/// Characters that end an instruction name.
pub open spec fn stops_instr(c: char) -> bool {
    is_space(c) || c == '\n' || is_single(c) || c == '"' || c == '\'' || c == '#'
}

/// Skips spaces, newlines and `#` comments.  Returns the position of the
/// next token's first character, the anchor recorded as the token's start
/// offset, and the updated line number.  Skipped spaces move the anchor with
/// them; a skipped newline does not.
pub open spec fn spec_skip(s: Seq<char>, i: int, anchor: int, line: int, in_comment: bool) -> (
    int,
    int,
    int,
)
    decreases s.len() - i,
{
    if !(0 <= i < s.len()) {
        (i, anchor, line)
    } else if in_comment {
        if s[i] == '\n' {
            spec_skip(s, i + 1, i, line + 1, false)
        } else {
            spec_skip(s, i + 1, anchor, line, true)
        }
    } else if is_space(s[i]) {
        spec_skip(s, i + 1, i + 1, line, false)
    } else if s[i] == '\n' {
        spec_skip(s, i + 1, anchor, line + 1, false)
    } else if s[i] == '#' {
        spec_skip(s, i + 1, anchor, line, true)
    } else {
        (i, anchor, line)
    }
}

/// The first position at or after `i` holding a non-digit.
pub open spec fn spec_scan_digits(s: Seq<char>, i: int) -> int
    decreases s.len() - i,
{
    if 0 <= i < s.len() && is_dec_digit(s[i]) {
        spec_scan_digits(s, i + 1)
    } else {
        i
    }
}

/// The first position at or after `i` holding `q`, or the input's length.
pub open spec fn spec_find(s: Seq<char>, i: int, q: char) -> int
    decreases s.len() - i,
{
    if i >= s.len() {
        s.len() as int
    } else if 0 <= i && s[i] == q {
        i
    } else {
        spec_find(s, i + 1, q)
    }
}

/// The first position at or after `i` holding an unescaped `q`: a
/// backslash passes over the character after it, so a two-character escape
/// never closes the quote.
pub open spec fn spec_find_quote(s: Seq<char>, i: int, q: char) -> int
    decreases s.len() - i,
{
    if i >= s.len() {
        s.len() as int
    } else if 0 <= i && s[i] == q {
        i
    } else if 0 <= i && s[i] == '\\' {
        if i + 2 <= s.len() {
            spec_find_quote(s, i + 2, q)
        } else {
            s.len() as int
        }
    } else {
        spec_find_quote(s, i + 1, q)
    }
}

/// The number of newlines in `s[a..b]`.
pub open spec fn count_nl(s: Seq<char>, a: int, b: int) -> int
    decreases b - a,
{
    if a >= b {
        0
    } else {
        count_nl(s, a, b - 1) + if 0 <= b - 1 < s.len() && s[b - 1] == '\n' {
            1int
        } else {
            0int
        }
    }
}

/// The first position at or after `i` where an instruction name stops.
pub open spec fn spec_scan_instr(s: Seq<char>, i: int) -> int
    decreases s.len() - i,
{
    if 0 <= i < s.len() && !stops_instr(s[i]) {
        spec_scan_instr(s, i + 1)
    } else {
        i
    }
}

pub open spec fn tokv(
    token_type: TokenType,
    lexeme: Seq<char>,
    error_msg: Seq<char>,
    start: int,
    end: int,
    line: int,
) -> TokV {
    TokV { token_type, lexeme, error_msg, start, end, line }
}

/// An integer or float token beginning at `i`, with digits from `dfrom`.
pub open spec fn spec_number_token(s: Seq<char>, i: int, dfrom: int, anchor: int, line: int) -> (
    TokV,
    int,
    int,
) {
    let j = spec_scan_digits(s, dfrom);
    if j < s.len() && s[j] == '.' {
        let k = spec_scan_digits(s, j + 1);
        if k < s.len() && s[k] == '.' {
            (
                tokv(
                    TokenType::Error,
                    s.subrange(i, k),
                    "Invalid float literal: Floats cannot contain multiple decimal points"@,
                    anchor,
                    k,
                    line,
                ),
                k,
                line,
            )
        } else if k == j + 1 {
            (
                tokv(
                    TokenType::Error,
                    s.subrange(i, k),
                    "Invalid float literal: missing decimal portion"@,
                    anchor,
                    k,
                    line,
                ),
                k,
                line,
            )
        } else {
            (tokv(TokenType::ConstFloat, s.subrange(i, k), Seq::<char>::empty(), anchor, k, line), k, line)
        }
    } else {
        (tokv(TokenType::ConstInt, s.subrange(i, j), Seq::<char>::empty(), anchor, j, line), j, line)
    }
}

/// A character literal token beginning at the opening quote at `i`.
pub open spec fn spec_char_token(s: Seq<char>, i: int, anchor: int, line: int) -> (TokV, int, int) {
    let j = spec_find_quote(s, i + 1, '\'');
    if j >= s.len() {
        (
            tokv(
                TokenType::Error,
                s.subrange(i, s.len() as int),
                "Invalid char literal: Unterminated character constant"@,
                anchor,
                s.len() as int,
                line,
            ),
            s.len() as int,
            line + count_nl(s, i, s.len() as int),
        )
    } else {
        let lex = s.subrange(i, j + 1);
        let line2 = line + count_nl(s, i, j + 1);
        if lex.len() > 3 && s[i + 1] != '\\' {
            (
                tokv(
                    TokenType::Error,
                    lex,
                    "Invalid char literal: Character constant too long"@,
                    anchor,
                    j + 1,
                    line,
                ),
                j + 1,
                line2,
            )
        } else {
            (tokv(TokenType::ConstChar, lex, Seq::<char>::empty(), anchor, j + 1, line), j + 1, line2)
        }
    }
}

/// A string literal token beginning at the opening quote at `i`.
pub open spec fn spec_string_token(s: Seq<char>, i: int, anchor: int, line: int) -> (
    TokV,
    int,
    int,
) {
    let j = spec_find_quote(s, i + 1, '"');
    if j >= s.len() {
        (
            tokv(
                TokenType::Error,
                s.subrange(i, s.len() as int),
                "Invalid string literal: Unterminated string constant"@,
                anchor,
                s.len() as int,
                line,
            ),
            s.len() as int,
            line + count_nl(s, i, s.len() as int),
        )
    } else {
        (
            tokv(TokenType::ConstString, s.subrange(i, j + 1), Seq::<char>::empty(), anchor, j + 1, line),
            j + 1,
            line + count_nl(s, i, j + 1),
        )
    }
}

/// An instruction-name token beginning at `i`; a trailing newline is
/// consumed but not part of the name.
pub open spec fn spec_instr_token(s: Seq<char>, i: int, anchor: int, line: int) -> (TokV, int, int) {
    let j = spec_scan_instr(s, i + 1);
    if j < s.len() && s[j] == '\n' {
        (tokv(TokenType::Instr, s.subrange(i, j), Seq::<char>::empty(), anchor, j + 1, line), j + 1, line + 1)
    } else {
        (tokv(TokenType::Instr, s.subrange(i, j), Seq::<char>::empty(), anchor, j, line), j, line)
    }
}

/// The next token of `s` scanning from `start` on line `line`, together with
/// the position and line at which the following scan resumes.
pub open spec fn spec_next_token(s: Seq<char>, start: int, line: int) -> (TokV, int, int) {
    let (i, anchor, line1) = spec_skip(s, start, start, line, false);
    if !(0 <= i < s.len()) {
        (tokv(TokenType::End, Seq::<char>::empty(), Seq::<char>::empty(), anchor, i, line1), i, line1)
    } else {
        let c = s[i];
        if is_single(c) {
            (tokv(single_type(c), seq![c], Seq::<char>::empty(), anchor, i + 1, line1), i + 1, line1)
        } else if is_dec_digit(c) {
            spec_number_token(s, i, i, anchor, line1)
        } else if c == '-' && i + 1 < s.len() && is_dec_digit(s[i + 1]) {
            spec_number_token(s, i, i + 1, anchor, line1)
        } else if c == '\'' {
            spec_char_token(s, i, anchor, line1)
        } else if c == '"' {
            spec_string_token(s, i, anchor, line1)
        } else {
            spec_instr_token(s, i, anchor, line1)
        }
    }
}

proof fn spec_skip_bounds(s: Seq<char>, i: int, anchor: int, line: int, in_comment: bool)
    requires
        0 <= i,
        anchor <= i,
    ensures
        ({
            let (j, a2, l2) = spec_skip(s, i, anchor, line, in_comment);
            &&& i <= j
            &&& anchor <= a2 <= j
            &&& (j <= s.len() || j == i)
            &&& line <= l2 <= line + (j - i)
        }),
    decreases s.len() - i,
{
    if 0 <= i < s.len() {
        if in_comment {
            if s[i] == '\n' {
                spec_skip_bounds(s, i + 1, i, line + 1, false);
            } else {
                spec_skip_bounds(s, i + 1, anchor, line, true);
            }
        } else if is_space(s[i]) {
            spec_skip_bounds(s, i + 1, i + 1, line, false);
        } else if s[i] == '\n' {
            spec_skip_bounds(s, i + 1, anchor, line + 1, false);
        } else if s[i] == '#' {
            spec_skip_bounds(s, i + 1, anchor, line, true);
        }
    }
}

proof fn spec_scan_digits_bounds(s: Seq<char>, i: int)
    requires
        0 <= i,
    ensures
        i <= spec_scan_digits(s, i),
        spec_scan_digits(s, i) <= s.len() || spec_scan_digits(s, i) == i,
    decreases s.len() - i,
{
    if 0 <= i < s.len() && is_dec_digit(s[i]) {
        spec_scan_digits_bounds(s, i + 1);
    }
}

proof fn spec_find_quote_bounds(s: Seq<char>, i: int, q: char)
    requires
        0 <= i <= s.len(),
    ensures
        i <= spec_find_quote(s, i, q),
        spec_find_quote(s, i, q) <= s.len(),
        spec_find_quote(s, i, q) < s.len() ==> s[spec_find_quote(s, i, q)] == q,
    decreases s.len() - i,
{
    if i < s.len() && s[i] != q {
        if s[i] == '\\' {
            if i + 2 <= s.len() {
                spec_find_quote_bounds(s, i + 2, q);
            }
        } else {
            spec_find_quote_bounds(s, i + 1, q);
        }
    }
}

proof fn spec_scan_instr_bounds(s: Seq<char>, i: int)
    requires
        0 <= i,
    ensures
        i <= spec_scan_instr(s, i),
        spec_scan_instr(s, i) <= s.len() || spec_scan_instr(s, i) == i,
    decreases s.len() - i,
{
    if 0 <= i < s.len() && !stops_instr(s[i]) {
        spec_scan_instr_bounds(s, i + 1);
    }
}

proof fn count_nl_bounds(s: Seq<char>, a: int, b: int)
    ensures
        0 <= count_nl(s, a, b),
        count_nl(s, a, b) <= (if b > a {
            b - a
        } else {
            0
        }),
    decreases b - a,
{
    if a < b {
        count_nl_bounds(s, a, b - 1);
    }
}

proof fn count_nl_split(s: Seq<char>, a: int, m: int, b: int)
    requires
        a <= m <= b,
    ensures
        count_nl(s, a, b) == count_nl(s, a, m) + count_nl(s, m, b),
    decreases b - m,
{
    if m < b {
        count_nl_split(s, a, m, b - 1);
    }
}

/// Scanning one token always makes progress: the resume position moves
/// strictly forward unless the token is `End`, never past the input, and the
/// line count grows by at most the characters consumed.
pub proof fn spec_next_token_progress(s: Seq<char>, start: int, line: int)
    requires
        0 <= start,
    ensures
        ({
            let (t, np, nl) = spec_next_token(s, start, line);
            &&& start <= np
            &&& (np <= s.len() || np == start)
            &&& (t.token_type != TokenType::End ==> np > start || start > s.len())
            &&& line <= nl <= line + (np - start) + 1
            &&& (t.token_type == TokenType::End ==> np >= s.len())
            &&& t.lexeme.len() <= np - start || start > s.len()
            &&& t.end == np
            &&& start <= t.start <= np
        }),
{
    spec_skip_bounds(s, start, start, line, false);
    let (i, anchor, line1) = spec_skip(s, start, start, line, false);
    if 0 <= i < s.len() {
        let c = s[i];
        if is_single(c) {
        } else if is_dec_digit(c) {
            spec_scan_digits_bounds(s, i);
            spec_scan_digits_bounds(s, i + 1);
            let j = spec_scan_digits(s, i);
            if j < s.len() && s[j] == '.' {
                spec_scan_digits_bounds(s, j + 1);
            }
        } else if c == '-' && i + 1 < s.len() && is_dec_digit(s[i + 1]) {
            spec_scan_digits_bounds(s, i + 1);
            let j = spec_scan_digits(s, i + 1);
            if j < s.len() && s[j] == '.' {
                spec_scan_digits_bounds(s, j + 1);
            }
        } else if c == '\'' {
            spec_find_quote_bounds(s, i + 1, '\'');
            count_nl_bounds(s, i, s.len() as int);
            count_nl_bounds(s, i, spec_find_quote(s, i + 1, '\'') + 1);
        } else if c == '"' {
            spec_find_quote_bounds(s, i + 1, '"');
            count_nl_bounds(s, i, s.len() as int);
            count_nl_bounds(s, i, spec_find_quote(s, i + 1, '"') + 1);
        } else {
            spec_scan_instr_bounds(s, i + 1);
        }
    }
}

/// Skips whitespace and comments ahead of a token.
fn skip_ws(v: &Vec<char>, start: usize, line: usize) -> (r: (usize, usize, usize))
    requires
        line + v@.len() <= usize::MAX,
    ensures
        (r.0 as int, r.1 as int, r.2 as int) == spec_skip(
            v@,
            start as int,
            start as int,
            line as int,
            false,
        ),
        r.0 <= v@.len() || r.0 == start,
        start <= r.0,
        r.1 <= r.0,
        r.2 <= line + (r.0 - start),
{
    let mut i = start;
    let mut anchor = start;
    let mut ln = line;
    let mut in_comment = false;
    proof {
        spec_skip_bounds(v@, start as int, start as int, line as int, false);
    }
    loop
        invariant
            line + v@.len() <= usize::MAX,
            start <= i,
            anchor <= i,
            line <= ln,
            ln <= line + (i - start),
            i <= v@.len() || i == start,
            spec_skip(v@, start as int, start as int, line as int, false) == spec_skip(
                v@,
                i as int,
                anchor as int,
                ln as int,
                in_comment,
            ),
        ensures
            (i as int, anchor as int, ln as int) == spec_skip(
                v@,
                start as int,
                start as int,
                line as int,
                false,
            ),
        decreases v@.len() - i,
    {
        if i >= v.len() {
            break;
        }
        let c = v[i];
        if in_comment {
            if c == '\n' {
                anchor = i;
                ln = ln + 1;
                i = i + 1;
                in_comment = false;
            } else {
                i = i + 1;
            }
        } else if c == ' ' || c == '\t' {
            i = i + 1;
            anchor = i;
        } else if c == '\n' {
            ln = ln + 1;
            i = i + 1;
        } else if c == '#' {
            i = i + 1;
            in_comment = true;
        } else {
            break;
        }
    }
    proof {
        spec_skip_bounds(v@, start as int, start as int, line as int, false);
    }
    (i, anchor, ln)
}

/// Scans past decimal digits.
fn scan_digits(v: &Vec<char>, from: usize) -> (r: usize)
    ensures
        r as int == spec_scan_digits(v@, from as int),
        from <= r,
        r <= v@.len() || r == from,
{
    let mut i = from;
    loop
        invariant
            from <= i,
            i <= v@.len() || i == from,
            spec_scan_digits(v@, from as int) == spec_scan_digits(v@, i as int),
        ensures
            i as int == spec_scan_digits(v@, from as int),
        decreases v@.len() - i,
    {
        if i < v.len() {
            let c = v[i];
            if '0' <= c && c <= '9' {
                i = i + 1;
                continue;
            }
        }
        break;
    }
    i
}

/// Scans to the next unescaped occurrence of `q`, counting newlines passed
/// on the way.
fn find_quote(v: &Vec<char>, from: usize, q: char) -> (r: (usize, usize))
    requires
        from <= v@.len(),
    ensures
        r.0 as int == spec_find_quote(v@, from as int, q),
        from <= r.0,
        r.0 <= v@.len(),
        r.1 as int == count_nl(v@, from as int, r.0 as int),
        r.1 + from <= r.0,
{
    let mut i = from;
    let mut nls: usize = 0;
    proof {
        spec_find_quote_bounds(v@, from as int, q);
    }
    loop
        invariant
            from <= i,
            nls + from <= i,
            i <= v@.len(),
            spec_find_quote(v@, from as int, q) == spec_find_quote(v@, i as int, q),
            nls as int == count_nl(v@, from as int, i as int),
        ensures
            i as int == spec_find_quote(v@, from as int, q),
            nls as int == count_nl(v@, from as int, i as int),
        decreases v@.len() - i,
    {
        if i >= v.len() {
            break;
        }
        let c = v[i];
        if c == q {
            break;
        }
        if c == '\\' {
            if i + 1 < v.len() {
                proof {
                    assert(count_nl(v@, from as int, i + 1 as int) == count_nl(
                        v@,
                        from as int,
                        i as int,
                    ) + (if v@[i as int] == '\n' {
                        1int
                    } else {
                        0int
                    }));
                }
                if v[i] == '\n' {
                    nls = nls + 1;
                }
                if v[i + 1] == '\n' {
                    nls = nls + 1;
                }
                i = i + 2;
            } else {
                if v[i] == '\n' {
                    nls = nls + 1;
                }
                i = i + 1;
                proof {
                    assert(spec_find_quote(v@, i as int, q) == v@.len() as int);
                }
                break;
            }
        } else {
            if c == '\n' {
                nls = nls + 1;
            }
            i = i + 1;
        }
    }
    (i, nls)
}

/// Scans past the characters of an instruction name.
fn scan_instr(v: &Vec<char>, from: usize) -> (r: usize)
    ensures
        r as int == spec_scan_instr(v@, from as int),
        from <= r,
        r <= v@.len() || r == from,
{
    let mut i = from;
    loop
        invariant
            from <= i,
            i <= v@.len() || i == from,
            spec_scan_instr(v@, from as int) == spec_scan_instr(v@, i as int),
        ensures
            i as int == spec_scan_instr(v@, from as int),
        decreases v@.len() - i,
    {
        if i < v.len() {
            let c = v[i];
            let stop = c == ' ' || c == '\t' || c == '\n' || c == '{' || c == '}' || c == '['
                || c == ']' || c == ',' || c == '!' || c == '~' || c == '"' || c == '\'' || c
                == '#';
            if !stop {
                i = i + 1;
                continue;
            }
        }
        break;
    }
    i
}

/// Copies the characters of `v[a..b]` into a string.
#[verifier::loop_isolation(false)]
fn string_of_range(v: &Vec<char>, a: usize, b: usize) -> (r: String)
    requires
        a <= b,
        b <= v@.len(),
    ensures
        r@ == v@.subrange(a as int, b as int),
{
    let mut s = String::new();
    let mut i = a;
    while i < b
        invariant
            a <= i <= b,
            s@ == v@.subrange(a as int, i as int),
        decreases b - i,
    {
        s.push(v[i]);
        proof {
            assert(s@ =~= v@.subrange(a as int, i + 1 as int));
        }
        i = i + 1;
    }
    s
}

/// Gets the next token from an input string, scanning from byte offset
/// `start` with the current line number `line`.  Returns the token, the
/// offset at which the next scan should resume, and the updated line number.
pub fn get_next_token(input: &str, start: usize, line: usize) -> (r: (Token, usize, usize))
    requires
        line + input@.len() + 1 <= usize::MAX,
        start + input@.len() <= usize::MAX,
    ensures
        ((r.0)@, r.1 as int, r.2 as int) == spec_next_token(input@, start as int, line as int),
        r.1 <= input@.len() || r.1 == start,
        start <= r.1,
        r.2 <= line + input@.len() + 1,
{
    let v = chars_of(input);
    proof {
        spec_next_token_progress(input@, start as int, line as int);
    }
    let (i, anchor, line1) = skip_ws(&v, start, line);
    if i >= v.len() {
        return (
            Token::new(TokenType::End, String::new(), String::new(), anchor, i, line1),
            i,
            line1,
        );
    }
    let c = v[i];
    if c == '{' || c == '}' || c == '[' || c == ']' || c == ',' || c == '!' || c == '~' {
        let tt = if c == '{' {
            TokenType::LeftCurly
        } else if c == '}' {
            TokenType::RightCurly
        } else if c == '[' {
            TokenType::LeftSquare
        } else if c == ']' {
            TokenType::RightSquare
        } else if c == ',' {
            TokenType::Comma
        } else if c == '!' {
            TokenType::Bang
        } else {
            TokenType::Tilde
        };
        let mut lx = String::new();
        lx.push(c);
        proof {
            assert(lx@ =~= seq![c]);
        }
        return (Token::new(tt, lx, String::new(), anchor, i + 1, line1), i + 1, line1);
    }
    let state = if '0' <= c && c <= '9' {
        LexerState::InInt
    } else if c == '-' {
        LexerState::InInstrOrInt
    } else if c == '\'' {
        LexerState::InChar
    } else if c == '"' {
        LexerState::InString
    } else {
        LexerState::InInstr
    };
    match state {
        LexerState::InInt => number_token(&v, i, i, anchor, line1),
        LexerState::InInstrOrInt => {
            if i + 1 < v.len() {
                let d = v[i + 1];
                if '0' <= d && d <= '9' {
                    return number_token(&v, i, i + 1, anchor, line1);
                }
            }
            instr_token(&v, i, anchor, line1)
        }
        LexerState::InChar => quoted_token(&v, i, anchor, line1, true),
        LexerState::InString => quoted_token(&v, i, anchor, line1, false),
        _ => instr_token(&v, i, anchor, line1),
    }
}

fn number_token(v: &Vec<char>, i: usize, dfrom: usize, anchor: usize, line: usize) -> (r: (
    Token,
    usize,
    usize,
))
    requires
        i <= dfrom,
        dfrom <= v@.len(),
        anchor <= i,
    ensures
        ((r.0)@, r.1 as int, r.2 as int) == spec_number_token(
            v@,
            i as int,
            dfrom as int,
            anchor as int,
            line as int,
        ),
{
    proof {
        spec_scan_digits_bounds(v@, dfrom as int);
    }
    let j = scan_digits(v, dfrom);
    if j < v.len() && v[j] == '.' {
        proof {
            spec_scan_digits_bounds(v@, j + 1 as int);
        }
        let k = scan_digits(v, j + 1);
        if k < v.len() && v[k] == '.' {
            let msg = "Invalid float literal: Floats cannot contain multiple decimal points";
            (
                Token::new(TokenType::Error, string_of_range(v, i, k), msg.to_owned(), anchor, k, line),
                k,
                line,
            )
        } else if k == j + 1 {
            let msg = "Invalid float literal: missing decimal portion";
            (
                Token::new(TokenType::Error, string_of_range(v, i, k), msg.to_owned(), anchor, k, line),
                k,
                line,
            )
        } else {
            (
                Token::new(TokenType::ConstFloat, string_of_range(v, i, k), String::new(), anchor, k, line),
                k,
                line,
            )
        }
    } else {
        (
            Token::new(TokenType::ConstInt, string_of_range(v, i, j), String::new(), anchor, j, line),
            j,
            line,
        )
    }
}

fn quoted_token(v: &Vec<char>, i: usize, anchor: usize, line: usize, is_char: bool) -> (r: (
    Token,
    usize,
    usize,
))
    requires
        i < v@.len(),
        anchor <= i,
        v@[i as int] != '\n',
        line + v@.len() - i <= usize::MAX,
    ensures
        is_char ==> ((r.0)@, r.1 as int, r.2 as int) == spec_char_token(
            v@,
            i as int,
            anchor as int,
            line as int,
        ),
        !is_char ==> ((r.0)@, r.1 as int, r.2 as int) == spec_string_token(
            v@,
            i as int,
            anchor as int,
            line as int,
        ),
{
    let q = if is_char {
        '\''
    } else {
        '"'
    };
    let n = v.len();
    assert(i < n);
    let (j, nls) = find_quote(v, i + 1, q);
    proof {
        count_nl_bounds(v@, i as int, j + 1 as int);
        count_nl_bounds(v@, i as int, v@.len() as int);
        assert(count_nl(v@, i as int, i as int) == 0);
        assert(count_nl(v@, i as int, i + 1 as int) == 0);
        count_nl_split(v@, i as int, i + 1, v@.len() as int);
        spec_find_quote_bounds(v@, i + 1 as int, q);
        if (j as int) < v@.len() {
            count_nl_split(v@, i as int, i + 1, j + 1 as int);
            assert(v@[j as int] == q);
            assert(count_nl(v@, i + 1 as int, j + 1 as int) == count_nl(v@, i + 1 as int, j as int));
        }
    }
    if j >= v.len() {
        let msg = if is_char {
            "Invalid char literal: Unterminated character constant"
        } else {
            "Invalid string literal: Unterminated string constant"
        };
        let lx = string_of_range(v, i, v.len());
        let end = v.len();
        return (
            Token::new(TokenType::Error, lx, msg.to_owned(), anchor, end, line),
            end,
            line + nls,
        );
    }
    let lx = string_of_range(v, i, j + 1);
    let line2 = line + nls;
    if is_char {
        if j + 1 - i > 3 && v[i + 1] != '\\' {
            let msg = "Invalid char literal: Character constant too long";
            (Token::new(TokenType::Error, lx, msg.to_owned(), anchor, j + 1, line), j + 1, line2)
        } else {
            (Token::new(TokenType::ConstChar, lx, String::new(), anchor, j + 1, line), j + 1, line2)
        }
    } else {
        (Token::new(TokenType::ConstString, lx, String::new(), anchor, j + 1, line), j + 1, line2)
    }
}

fn instr_token(v: &Vec<char>, i: usize, anchor: usize, line: usize) -> (r: (Token, usize, usize))
    requires
        i < v@.len(),
        anchor <= i,
        line + 1 <= usize::MAX,
    ensures
        ((r.0)@, r.1 as int, r.2 as int) == spec_instr_token(
            v@,
            i as int,
            anchor as int,
            line as int,
        ),
{
    proof {
        spec_scan_instr_bounds(v@, i + 1 as int);
    }
    let n = v.len();
    assert(i < n);
    let j = scan_instr(v, i + 1);
    let lx = string_of_range(v, i, j);
    if j < v.len() && v[j] == '\n' {
        (Token::new(TokenType::Instr, lx, String::new(), anchor, j + 1, line), j + 1, line + 1)
    } else {
        (Token::new(TokenType::Instr, lx, String::new(), anchor, j, line), j, line)
    }
}


/// The number of spaces in a token's text.
pub open spec fn spaces_in(l: Seq<char>) -> int
    decreases l.len(),
{
    if l.len() == 0 {
        0
    } else {
        spaces_in(l.drop_last()) + if l.last() == ' ' {
            1int
        } else {
            0int
        }
    }
}

proof fn spaces_in_bounds(l: Seq<char>)
    ensures
        0 <= spaces_in(l) <= l.len(),
    decreases l.len(),
{
    if l.len() > 0 {
        spaces_in_bounds(l.drop_last());
    }
}

/// The extra width recorded for a token: a space inside a string literal
/// counts twice toward the stream's offsets.
pub open spec fn tok_extra(t: TokV) -> int {
    if t.token_type == TokenType::ConstString {
        spaces_in(t.lexeme)
    } else {
        0
    }
}

/// A token as the token stream reports it, its offsets pushed right by the
/// accumulated extra width of the string literals before it.
pub open spec fn adjust_tok(t: TokV, shift: int) -> TokV {
    TokV {
        token_type: t.token_type,
        lexeme: t.lexeme,
        error_msg: t.error_msg,
        start: t.start + shift,
        end: t.end + shift + tok_extra(t),
        line: t.line,
    }
}

/// The token stream of the source from position `pos` on: every token up to
/// but not including the `End` marker, with offsets shifted as reported.
pub open spec fn spec_tokens(s: Seq<char>, pos: int, line: int, shift: int) -> Seq<TokV>
    decreases s.len() - pos,
    via spec_tokens_dec
{
    let (t, np, nl) = spec_next_token(s, pos, line);
    if t.token_type == TokenType::End {
        Seq::empty()
    } else {
        seq![adjust_tok(t, shift)] + spec_tokens(s, np, nl, shift + tok_extra(t))
    }
}

#[via_fn]
proof fn spec_tokens_dec(s: Seq<char>, pos: int, line: int, shift: int) {
    if 0 <= pos {
        spec_next_token_progress(s, pos, line);
    }
}

pub open spec fn toks_view(s: Seq<Token>) -> Seq<TokV>
    decreases s,
{
    if s.len() == 0 {
        Seq::empty()
    } else {
        seq![s[0]@] + toks_view(s.skip(1))
    }
}

/// A token vector's view has the same length and holds the views of its
/// tokens.
pub broadcast proof fn toks_view_props(s: Seq<Token>)
    ensures
        (#[trigger] toks_view(s)).len() == s.len(),
        forall|i: int| 0 <= i < s.len() ==> toks_view(s)[i] == s[i]@,
    decreases s.len(),
{
    if s.len() > 0 {
        toks_view_props(s.skip(1));
        assert forall|i: int| 0 <= i < s.len() implies toks_view(s)[i] == s[i]@ by {
            if i > 0 {
                assert(toks_view(s)[i] == toks_view(s.skip(1))[i - 1]);
                assert(s.skip(1)[i - 1] == s[i]);
            }
        }
    }
}

proof fn toks_view_push(s: Seq<Token>, t: Token)
    ensures
        toks_view(s.push(t)) == toks_view(s) + seq![t@],
    decreases s.len(),
{
    if s.len() == 0 {
        assert(s.push(t).skip(1) =~= Seq::<Token>::empty());
        assert(s.push(t)[0] == t);
        assert(s.push(t).len() == 1);
        assert(toks_view(s.push(t)) == seq![t@] + toks_view(Seq::<Token>::empty()));
        assert(toks_view(s.push(t)) =~= toks_view(s) + seq![t@]);
    } else {
        toks_view_push(s.skip(1), t);
        assert(s.push(t).skip(1) =~= s.skip(1).push(t));
        assert(s.push(t)[0] == s[0]);
        assert(s.push(t).len() == s.len() + 1);
        assert(toks_view(s.push(t)) == seq![s[0]@] + toks_view(s.push(t).skip(1)));
        assert(toks_view(s.push(t).skip(1)) == toks_view(s.skip(1).push(t)));
        assert(toks_view(s) == seq![s[0]@] + toks_view(s.skip(1)));
        assert(toks_view(s.push(t)) =~= toks_view(s) + seq![t@]);
    }
}

/// Counts the spaces of a string.
fn count_spaces(s: &String) -> (r: usize)
    ensures
        r as int == spaces_in(s@),
{
    let v = chars_of(s.as_str());
    let mut j: usize = 0;
    let mut n: usize = 0;
    while j < v.len()
        invariant
            j <= v@.len(),
            n <= j,
            v@ == s@,
            n as int == spaces_in(s@.take(j as int)),
        decreases v@.len() - j,
    {
        proof {
            assert(s@.take(j + 1 as int).drop_last() =~= s@.take(j as int));
            assert(s@.take(j + 1 as int).last() == s@[j as int]);
        }
        if v[j] == ' ' {
            n = n + 1;
        }
        j = j + 1;
    }
    proof {
        assert(s@.take(s@.len() as int) =~= s@);
    }
    n
}

/// Converts code text into its token stream: every token of the source in
/// order, with the `End` marker dropped.
#[verifier::loop_isolation(false)]
pub fn tokenize(code: &str) -> (r: Vec<Token>)
    requires
        code@.len() < 0x1000_0000,
    ensures
        toks_view(r@) == spec_tokens(code@, 0, 0, 0),
{
    let mut out: Vec<Token> = Vec::new();
    let mut pos: usize = 0;
    let mut line: usize = 0;
    let mut shift: usize = 0;
    loop
        invariant
            pos <= code@.len(),
            line <= 2 * pos,
            shift <= pos,
            spec_tokens(code@, 0, 0, 0) == toks_view(out@) + spec_tokens(
                code@,
                pos as int,
                line as int,
                shift as int,
            ),
        decreases code@.len() - pos,
    {
        proof {
            spec_next_token_progress(code@, pos as int, line as int);
        }
        let (tok, np, nline) = get_next_token(code, pos, line);
        if tok.token_type == TokenType::End {
            proof {
                assert(spec_tokens(code@, pos as int, line as int, shift as int)
                    =~= Seq::<TokV>::empty());
                assert(toks_view(out@) + Seq::<TokV>::empty() =~= toks_view(out@));
            }
            break;
        }
        let ghost tv = tok@;
        let extra: usize = if tok.token_type == TokenType::ConstString {
            proof {
                spaces_in_bounds(tok@.lexeme);
            }
            count_spaces(&tok.lexeme)
        } else {
            0
        };
        let Token { token_type, lexeme, error_msg, start: tstart, end: tend, line: tline } = tok;
        let adjusted = Token::new(
            token_type,
            lexeme,
            error_msg,
            tstart + shift,
            tend + shift + extra,
            tline,
        );
        proof {
            assert(adjusted@ == adjust_tok(tv, shift as int));
            toks_view_push(out@, adjusted);
        }
        out.push(adjusted);
        proof {
            assert(toks_view(out@) + spec_tokens(
                code@,
                np as int,
                nline as int,
                shift + extra,
            ) =~= spec_tokens(code@, 0, 0, 0));
        }
        pos = np;
        line = nline;
        shift = shift + extra;
    }
    out
}

/// Converts code text into its token stream; the name `tokenize` also
/// carries this meaning.
pub fn tokenize_code(code: &str) -> (r: Vec<Token>)
    requires
        code@.len() < 0x1000_0000,
    ensures
        toks_view(r@) == spec_tokens(code@, 0, 0, 0),
{
    tokenize(code)
}

/// Converts code text into its token stream; a synonym of [`tokenize`].
pub fn parse_code(code: &str) -> (r: Vec<Token>)
    requires
        code@.len() < 0x1000_0000,
    ensures
        toks_view(r@) == spec_tokens(code@, 0, 0, 0),
{
    tokenize(code)
}

} // verus!
