//! Character-level text utilities shared by the parsing and reporting code.
//!
//! Strings are reasoned about as sequences of characters; these helpers move
//! between `&str`/`String` and explicit character vectors, and render
//! unsigned numbers in decimal.

use vstd::prelude::*;

verus! {

/// Relies on `String::push`: appends exactly the given character.
#[verifier::external_body]
pub fn push_char(s: &mut String, c: char)
    ensures
        final(s)@ == old(s)@.push(c),
{
    s.push(c);
}

/// Collects the characters of a string slice into a vector.
pub fn chars_of(s: &str) -> (r: Vec<char>)
    ensures
        r@ == s@,
{
    let n = s.unicode_len();
    let mut r: Vec<char> = Vec::new();
    for i in 0..n
        invariant
            n == s@.len(),
            r@ == s@.subrange(0, i as int),
    {
        r.push(s.get_char(i));
        proof {
            assert(r@ =~= s@.subrange(0, i + 1));
        }
    }
    proof {
        assert(r@ =~= s@);
    }
    r
}

/// Rebuilds a `String` from a vector of characters.
pub fn string_of(cs: &Vec<char>) -> (r: String)
    ensures
        r@ == cs@,
{
    let mut r = String::new();
    let n = cs.len();
    for i in 0..n
        invariant
            n == cs@.len(),
            r@ == cs@.subrange(0, i as int),
    {
        push_char(&mut r, cs[i]);
        proof {
            assert(r@ =~= cs@.subrange(0, i + 1));
        }
    }
    proof {
        assert(r@ =~= cs@);
    }
    r
}

/// The decimal digit character for a value below ten.
pub open spec fn spec_digit(d: int) -> char {
    if d == 0 {
        '0'
    } else if d == 1 {
        '1'
    } else if d == 2 {
        '2'
    } else if d == 3 {
        '3'
    } else if d == 4 {
        '4'
    } else if d == 5 {
        '5'
    } else if d == 6 {
        '6'
    } else if d == 7 {
        '7'
    } else if d == 8 {
        '8'
    } else {
        '9'
    }
}

/// Decimal rendering of a non-negative number, most significant digit first.
pub open spec fn spec_decimal(n: int) -> Seq<char>
    decreases n,
{
    if n < 10 {
        seq![spec_digit(n)]
    } else {
        spec_decimal(n / 10).push(spec_digit(n % 10))
    }
}

fn digit_char(d: u64) -> (r: char)
    requires
        d < 10,
    ensures
        r == spec_digit(d as int),
{
    if d == 0 {
        '0'
    } else if d == 1 {
        '1'
    } else if d == 2 {
        '2'
    } else if d == 3 {
        '3'
    } else if d == 4 {
        '4'
    } else if d == 5 {
        '5'
    } else if d == 6 {
        '6'
    } else if d == 7 {
        '7'
    } else if d == 8 {
        '8'
    } else {
        '9'
    }
}

fn prepend_char(c: char, rest: &Vec<char>) -> (r: Vec<char>)
    ensures
        r@ == seq![c] + rest@,
{
    let mut r: Vec<char> = Vec::new();
    r.push(c);
    let n = rest.len();
    for i in 0..n
        invariant
            n == rest@.len(),
            r@ == seq![c] + rest@.subrange(0, i as int),
    {
        r.push(rest[i]);
        proof {
            assert(r@ =~= seq![c] + rest@.subrange(0, i + 1));
        }
    }
    proof {
        assert(r@ =~= seq![c] + rest@);
    }
    r
}

/// Renders `n` in decimal.
pub fn format_u64(n: u64) -> (r: String)
    ensures
        r@ == spec_decimal(n as int),
{
    let mut digits: Vec<char> = Vec::new();
    let mut rest: u64 = n;
    loop
        invariant
            spec_decimal(n as int) == spec_decimal(rest as int) + digits@,
        decreases rest,
    {
        let d = rest % 10;
        let next = rest / 10;
        if next == 0 {
            proof {
                assert(spec_decimal(rest as int) == seq![spec_digit(d as int)]);
            }
            let out = prepend_char(digit_char(d), &digits);
            proof {
                assert(out@ =~= spec_decimal(rest as int) + digits@);
            }
            return string_of(&out);
        }
        proof {
            assert(spec_decimal(rest as int) == spec_decimal(next as int).push(
                spec_digit(d as int),
            ));
            assert(spec_decimal(next as int).push(spec_digit(d as int)) + digits@
                =~= spec_decimal(next as int) + (seq![spec_digit(d as int)] + digits@));
        }
        digits = prepend_char(digit_char(d), &digits);
        rest = next;
    }
}

} // verus!
