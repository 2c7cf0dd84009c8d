//! Decimal text for integers: rendering and parsing, with exact
//! specifications and a round-trip proof.
use vstd::prelude::*;

verus! {

/// The decimal digit character for a value below ten.
pub open spec fn dec_digit(d: int) -> char {
    if d == 0 {
        '0'
    } else if d == 1 {
        '1'
    } else if d == 2 {
        '2'
    } else if d == 3 {
        '3'
    } else if d == 4 {
        '4'
    } else if d == 5 {
        '5'
    } else if d == 6 {
        '6'
    } else if d == 7 {
        '7'
    } else if d == 8 {
        '8'
    } else {
        '9'
    }
}

/// The decimal text of a natural number, without sign or leading zeros.
pub open spec fn nat_text(n: int) -> Seq<char>
    decreases n,
{
    if n < 10 {
        seq![dec_digit(n)]
    } else {
        nat_text(n / 10) + seq![dec_digit(n % 10)]
    }
}

/// The decimal text of an integer: a leading `-` for negatives.
pub open spec fn int_text(i: int) -> Seq<char> {
    if i < 0 {
        seq!['-'] + nat_text(-i)
    } else {
        nat_text(i)
    }
}

/// The character is an ASCII decimal digit.
pub open spec fn is_dec_digit(c: char) -> bool {
    '0' <= c && c <= '9'
}

/// The numeric value of a digit character.
pub open spec fn digit_val(c: char) -> int {
    c as int - '0' as int
}

/// Every character of the sequence is a decimal digit.
pub open spec fn all_digits(s: Seq<char>) -> bool {
    forall|i: int| 0 <= i < s.len() ==> is_dec_digit(s[i])
}

/// The value of a digit string read in base ten.
pub open spec fn digits_val(s: Seq<char>) -> int
    decreases s.len(),
{
    if s.len() == 0 {
        0
    } else {
        digits_val(s.drop_last()) * 10 + digit_val(s.last())
    }
}

/// What `str::parse::<i64>` accepts: an optional sign, then one or more
/// digits, with the value inside the 64-bit range.
pub open spec fn parse_int_spec(s: Seq<char>) -> Option<i64> {
    let neg = s.len() > 0 && s[0] == '-';
    let ds = if s.len() > 0 && (s[0] == '-' || s[0] == '+') {
        s.skip(1)
    } else {
        s
    };
    if ds.len() == 0 || !all_digits(ds) {
        Option::None
    } else {
        let m = digits_val(ds);
        if neg && m <= 0x8000_0000_0000_0000 {
            Option::Some((-m) as i64)
        } else if !neg && m < 0x8000_0000_0000_0000 {
            Option::Some(m as i64)
        } else {
            Option::None
        }
    }
}

proof fn digits_val_nonneg(s: Seq<char>)
    requires
        all_digits(s),
    ensures
        digits_val(s) >= 0,
    decreases s.len(),
{
    if s.len() > 0 {
        assert(all_digits(s.drop_last())) by {
            assert(forall|i: int|
                0 <= i < s.len() - 1 ==> s.drop_last()[i] == s[i] && is_dec_digit(s[i]));
        }
        digits_val_nonneg(s.drop_last());
    }
}

proof fn nat_text_digits(n: int)
    requires
        n >= 0,
    ensures
        all_digits(nat_text(n)),
        nat_text(n).len() >= 1,
        digits_val(nat_text(n)) == n,
    decreases n,
{
    if n < 10 {
        let t = nat_text(n);
        assert(t == seq![dec_digit(n)]);
        assert(t.drop_last() =~= Seq::<char>::empty());
        assert(t.last() == dec_digit(n));
        assert(digit_val(dec_digit(n)) == n);
        assert(digits_val(t) == digits_val(t.drop_last()) * 10 + digit_val(t.last()));
    } else {
        nat_text_digits(n / 10);
        let t = nat_text(n);
        let h = nat_text(n / 10);
        assert(t == h + seq![dec_digit(n % 10)]);
        assert(t.drop_last() =~= h);
        assert(t.last() == dec_digit(n % 10));
        assert(digit_val(dec_digit(n % 10)) == n % 10);
        assert(digits_val(t) == n / 10 * 10 + n % 10);
        assert(forall|i: int| 0 <= i < t.len() - 1 ==> t[i] == h[i]);
    }
}

/// Rendering an integer in decimal and parsing the text back yields the same
/// integer.
pub proof fn lemma_int_text_round_trip(i: i64)
    ensures
        parse_int_spec(int_text(i as int)) == Option::Some(i),
{
    if i >= 0 {
        nat_text_digits(i as int);
        let t = int_text(i as int);
        assert(t == nat_text(i as int));
        assert(is_dec_digit(t[0]));
        assert(t[0] != '-' && t[0] != '+');
        assert(digits_val(t) == i as int);
    } else {
        nat_text_digits(-(i as int));
        let m = nat_text(-(i as int));
        let t = int_text(i as int);
        assert(t == seq!['-'] + m);
        assert(t[0] == '-');
        assert(t.skip(1) =~= m);
        assert(digits_val(m) == -(i as int));
        assert(-(i as int) <= 0x8000_0000_0000_0000);
    }
}

/// The digit character for a value below ten.
pub fn digit_char(d: u64) -> (r: char)
    requires
        d < 10,
    ensures
        r == dec_digit(d as int),
{
    if d == 0 {
        '0'
    } else if d == 1 {
        '1'
    } else if d == 2 {
        '2'
    } else if d == 3 {
        '3'
    } else if d == 4 {
        '4'
    } else if d == 5 {
        '5'
    } else if d == 6 {
        '6'
    } else if d == 7 {
        '7'
    } else if d == 8 {
        '8'
    } else {
        '9'
    }
}

/// Appends the decimal digits of `m` to the string.
fn push_nat(s: &mut String, m: u64)
    ensures
        final(s)@ == old(s)@ + nat_text(m as int),
    decreases m,
{
    if m < 10 {
        s.push(digit_char(m));
    } else {
        push_nat(s, m / 10);
        s.push(digit_char(m % 10));
        proof {
            assert(old(s)@ + nat_text((m / 10) as int) + seq![dec_digit((m % 10) as int)] =~= old(
                s,
            )@ + nat_text(m as int));
        }
    }
}

/// The decimal text of a 64-bit integer.
pub fn render_i64(i: i64) -> (r: String)
    ensures
        r@ == int_text(i as int),
{
    let mut s = String::new();
    if i < 0 {
        s.push('-');
        let m: u64 = (-(i as i128)) as u64;
        push_nat(&mut s, m);
        proof {
            assert(Seq::<char>::empty().push('-') =~= seq!['-']);
        }
    } else {
        push_nat(&mut s, i as u64);
        proof {
            assert(Seq::<char>::empty() + nat_text(i as int) =~= nat_text(i as int));
        }
    }
    s
}

/// Parses decimal text as `str::parse::<i64>` would: an optional sign, then
/// one or more digits, rejecting anything else and values out of range.
#[verifier::loop_isolation(false)]
pub fn parse_i64_chars(v: &Vec<char>) -> (r: Option<i64>)
    ensures
        r == parse_int_spec(v@),
{
    let ghost whole = v@;
    let mut j: usize = 0;
    let mut neg = false;
    if v.len() > 0 && (v[0] == '-' || v[0] == '+') {
        neg = v[0] == '-';
        j = 1;
    }
    let ghost ds = if whole.len() > 0 && (whole[0] == '-' || whole[0] == '+') {
        whole.skip(1)
    } else {
        whole
    };
    let start = j;
    if j == v.len() {
        return Option::None;
    }
    let mut m: u128 = 0;
    let mut too_big = false;
    while j < v.len()
        invariant
            start <= j <= v.len(),
            ds =~= whole.skip(start as int),
            all_digits(ds.take(j - start)),
            !too_big ==> m == digits_val(ds.take(j - start)) && m <= 0xffff_ffff_ffff_ffff,
            too_big ==> digits_val(ds.take(j - start)) > 0x8000_0000_0000_0000,
        decreases v.len() - j,
    {
        let c = v[j];
        if c < '0' || c > '9' {
            proof {
                assert(ds[j - start] == c);
                assert(!is_dec_digit(ds[j - start]));
            }
            return Option::None;
        }
        let d: u64 = (c as u32 as u64) - 48;
        proof {
            assert(ds.take(j + 1 - start).drop_last() =~= ds.take(j - start));
            assert(ds.take(j + 1 - start).last() == ds[j - start]);
            assert(ds[j - start] == c);
            assert(digit_val(c) == d);
            assert(digits_val(ds.take(j + 1 - start)) == digits_val(ds.take(j - start)) * 10 + d);
        }
        if too_big {
            proof {
                digits_val_nonneg(ds.take(j - start));
            }
        } else {
            m = m * 10 + (d as u128);
            if m > 0x8000_0000_0000_0000 {
                too_big = true;
            }
        }
        j += 1;
    }
    proof {
        assert(ds.take(v@.len() - start) =~= ds);
    }
    if too_big {
        return Option::None;
    }
    if neg {
        if m > 0x8000_0000_0000_0000 {
            return Option::None;
        }
        if m == 0x8000_0000_0000_0000 {
            return Option::Some(i64::MIN);
        }
        return Option::Some(-((m as u64) as i64));
    }
    if m >= 0x8000_0000_0000_0000 {
        return Option::None;
    }
    Option::Some(m as i64)
}

} // verus!
