//! Fixed-point coordinates.
//!
//! A normalized coordinate is an integer count of steps, `UNIT` steps making one
//! whole image side: `0` is the left (or top) edge and `UNIT` the right (or
//! bottom) edge.
use vstd::prelude::*;
use vstd::arithmetic::div_mod::{lemma_fundamental_div_mod, lemma_fundamental_div_mod_converse, lemma_mod_pos_bound};

verus! {

/// Number of fixed-point steps in one normalized unit.
pub const UNIT: i64 = 65536;

/// Floor division by a positive divisor: the largest `q` with `q * d <= n`.
pub fn div_floor(n: i128, d: i128) -> (q: i128)
    requires
        d > 0,
        n > i128::MIN,
    ensures
        q == n / d,
{
    if n >= 0 {
        let q = (n as u128 / d as u128) as i128;
        q
    } else {
        let m: u128 = (0 - n) as u128;
        let du: u128 = d as u128;
        assert(m + du - 1 <= u128::MAX);
        let c: u128 = (m + du - 1) / du;
        proof {
            let x: int = m + du - 1;
            lemma_fundamental_div_mod(x, du as int);
            lemma_mod_pos_bound(x, du as int);
            assert(x == du * c + x % (du as int));
            let p: int = (du as int) * (c as int);
            assert(p <= x);
            assert(p > x - du);
            let r: int = n + p;
            assert(0 <= r < d);
            assert((-(c as int)) * (d as int) == -p) by (nonlinear_arith)
                requires
                    p == (du as int) * (c as int),
                    du as int == d as int,
            ;
            lemma_fundamental_div_mod_converse(n as int, d as int, -(c as int), r);
            assert(c <= m) by (nonlinear_arith)
                requires
                    p == (du as int) * (c as int),
                    p < m + du,
                    du >= 1,
            ;
        }
        0 - (c as i128)
    }
}

} // verus!
