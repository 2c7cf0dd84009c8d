//! Small verified helpers over strings and character vectors.
use vstd::prelude::*;

verus! {

/// Relies on `String::push`: appends one character to the string.
pub assume_specification[ std::string::String::push ](s: &mut String, ch: char)
    ensures
        final(s)@ == old(s)@.push(ch),
;

/// Relies on `String::push_str`: appends the characters of a slice.
pub assume_specification[ std::string::String::push_str ](s: &mut String, other: &str)
    ensures
        final(s)@ == old(s)@ + other@,
;

/// Collects the characters of a string slice into a vector.
pub fn chars_of(s: &str) -> (r: Vec<char>)
    ensures
        r@ == s@,
{
    let mut out: Vec<char> = Vec::new();
    let mut it = s.chars();
    loop
        invariant
            vstd::std_specs::iter::IteratorSpec::obeys_prophetic_iter_laws(&it),
            s@ == out@ + vstd::std_specs::iter::IteratorSpec::remaining(&it),
            vstd::std_specs::iter::IteratorSpec::decrease(&it) is Some,
        ensures
            out@ == s@,
        decreases vstd::std_specs::iter::IteratorSpec::decrease(&it)->0,
    {
        match it.next() {
            Some(c) => {
                out.push(c);
            }
            None => {
                proof {
                    assert(out@ =~= s@);
                }
                break;
            }
        }
    }
    out
}

/// Builds a string from a vector of characters.
#[verifier::loop_isolation(false)]
pub fn string_of_chars(v: &Vec<char>) -> (r: String)
    ensures
        r@ == v@,
{
    let mut out = String::new();
    let mut j: usize = 0;
    while j < v.len()
        invariant
            j <= v.len(),
            out@ == v@.take(j as int),
        decreases v.len() - j,
    {
        out.push(v[j]);
        proof {
            assert(out@ =~= v@.take(j + 1 as int));
        }
        j += 1;
    }
    proof {
        assert(v@.take(v@.len() as int) =~= v@);
    }
    out
}

/// Reads one character of a vector.
pub fn char_at(v: &Vec<char>, i: usize) -> (c: char)
    requires
        i < v@.len(),
    ensures
        c == v@[i as int],
{
    v[i]
}

/// Skipping `j` then `k` values skips `j + k`.
pub proof fn skip_skip_lits(s: Seq<crate::values::LitV>, j: int, k: int)
    requires
        0 <= j,
        0 <= k,
        j + k <= s.len(),
    ensures
        s.skip(j).skip(k) =~= s.skip(j + k),
{
    assert forall|i: int| 0 <= i < s.skip(j).skip(k).len() implies s.skip(j).skip(k)[i] == s.skip(
        j + k,
    )[i] by {
        assert(s.skip(j).skip(k)[i] == s.skip(j)[i + k]);
        assert(s.skip(j)[i + k] == s[j + i + k]);
        assert(s.skip(j + k)[i] == s[j + k + i]);
    }
}

/// Compares two character vectors for equality of their contents.
#[verifier::loop_isolation(false)]
pub fn chars_eq(a: &Vec<char>, b: &Vec<char>) -> (r: bool)
    ensures
        r == (a@ == b@),
{
    if a.len() != b.len() {
        proof {
            assert(a@ != b@);
        }
        return false;
    }
    let mut j: usize = 0;
    while j < a.len()
        invariant
            j <= a.len(),
            a@.len() == b@.len(),
            forall|i: int| 0 <= i < j ==> a@[i] == b@[i],
        decreases a.len() - j,
    {
        if a[j] != b[j] {
            proof {
                assert(a@ != b@);
            }
            return false;
        }
        j += 1;
    }
    proof {
        assert(a@ =~= b@);
    }
    true
}

/// Skipping `j` then `k` characters skips `j + k`.
pub proof fn skip_skip(s: Seq<char>, j: int, k: int)
    requires
        0 <= j,
        0 <= k,
        j + k <= s.len(),
    ensures
        s.skip(j).skip(k) =~= s.skip(j + k),
{
    assert forall|i: int| 0 <= i < s.skip(j).skip(k).len() implies s.skip(j).skip(k)[i] == s.skip(
        j + k,
    )[i] by {
        assert(s.skip(j).skip(k)[i] == s.skip(j)[i + k]);
        assert(s.skip(j)[i + k] == s[j + i + k]);
        assert(s.skip(j + k)[i] == s[j + k + i]);
    }
}

/// Compares two string slices character by character.
pub fn str_eq(a: &str, b: &str) -> (r: bool)
    ensures
        r == (a@ == b@),
{
    let av = chars_of(a);
    let bv = chars_of(b);
    chars_eq(&av, &bv)
}

} // verus!
