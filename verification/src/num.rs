//! Small shared executable helpers for fixed-point arithmetic and buffer
//! copying.

use vstd::prelude::*;

verus! {

/// Floor division by a positive divisor, written without signed division:
/// the result is the mathematical (euclidean) quotient.
pub fn div_floor(a: i64, b: i64) -> (q: i64)
    requires
        1 <= b <= 1_000_000_000,
        -1_000_000_000_000_000 <= a <= 1_000_000_000_000_000,
    ensures
        q == a as int / b as int,
{
    let bu = b as u64;
    if a >= 0 {
        ((a as u64) / bu) as i64
    } else {
        let na = (-a) as u64;
        let qn = na / bu;
        let rn = na % bu;
        if rn == 0 {
            proof {
                vstd::arithmetic::div_mod::lemma_fundamental_div_mod(na as int, b as int);
                assert(a as int == (-(qn as int)) * b as int + 0) by (nonlinear_arith)
                    requires
                        a as int == -(na as int),
                        na as int == b as int * (qn as int) + rn as int,
                        rn == 0;
                vstd::arithmetic::div_mod::lemma_fundamental_div_mod_converse(
                    a as int,
                    b as int,
                    -(qn as int),
                    0,
                );
            }
            -(qn as i64)
        } else {
            proof {
                vstd::arithmetic::div_mod::lemma_fundamental_div_mod(na as int, b as int);
                assert(a as int == (-(qn as int) - 1) * b as int + (b as int - rn as int))
                    by (nonlinear_arith)
                    requires
                        a as int == -(na as int),
                        na as int == b as int * (qn as int) + rn as int;
                vstd::arithmetic::div_mod::lemma_fundamental_div_mod_converse(
                    a as int,
                    b as int,
                    -(qn as int) - 1,
                    b as int - rn as int,
                );
            }
            -(qn as i64) - 1
        }
    }
}

/// Copies a vector of plain values, value for value.
pub fn copy_vec<T: Copy>(v: &Vec<T>) -> (r: Vec<T>)
    ensures
        r@ == v@,
{
    let mut r: Vec<T> = Vec::new();
    let n = v.len();
    for i in 0..n
        invariant
            n == v@.len(),
            r@ == v@.subrange(0, i as int),
    {
        r.push(v[i]);
        proof {
            assert(r@ =~= v@.subrange(0, i + 1));
        }
    }
    proof {
        assert(r@ =~= v@);
    }
    r
}

} // verus!
