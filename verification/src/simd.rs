//! Scalar reference kernel for the coarse integer metric.
//!
//! The coarse distance between a quantized query (signed bytes) and a
//! stored quantized vector (unsigned bytes) is the negated dot product,
//! so that lower is closer. This scalar implementation is the reference
//! the graph navigates by; a hardware-specific kernel may replace it
//! outside the verified core, but must agree with this contract exactly.

use vstd::prelude::*;

verus! {

/// Largest vector dimension the kernel accepts: keeps the accumulated dot
/// product comfortably inside `i32`.
pub const MAX_KERNEL_DIM: usize = 65536;

/// Dot product of the first `n` components: `sum q[i] * v[i]`.
pub open spec fn coarse_dot_upto(q: Seq<i8>, v: Seq<u8>, n: int) -> int
    decreases n,
{
    if n <= 0 {
        0
    } else {
        coarse_dot_upto(q, v, n - 1) + q[n - 1] * v[n - 1]
    }
}

/// Full dot product of a signed query against an unsigned stored vector.
pub open spec fn coarse_dot(q: Seq<i8>, v: Seq<u8>) -> int {
    coarse_dot_upto(q, v, q.len() as int)
}

/// The coarse distance: the negated dot product, so that smaller means
/// closer.
pub open spec fn coarse_distance(q: Seq<i8>, v: Seq<u8>) -> int {
    -coarse_dot(q, v)
}

/// Scalar integer dot-product kernel: returns the negated dot product of
/// `q` against `v`, exactly.
pub fn scalar_dot_u8(q: &[i8], v: &[u8]) -> (r: i32)
    requires
        q@.len() == v@.len(),
        q@.len() <= MAX_KERNEL_DIM,
    ensures
        r == coarse_distance(q@, v@),
{
    let n = q.len();
    let mut sum: i64 = 0;
    let mut i: usize = 0;
    while i < n
        invariant
            i <= n,
            n == q@.len(),
            n == v@.len(),
            n <= MAX_KERNEL_DIM,
            sum == coarse_dot_upto(q@, v@, i as int),
            -32640 * (i as int) <= sum <= 32640 * (i as int),
        decreases n - i,
    {
        let qi = *vstd::slice::slice_index_get(q, i) as i64;
        let vi = *vstd::slice::slice_index_get(v, i) as i64;
        proof {
            assert(-32640 <= qi * vi <= 32640) by (nonlinear_arith)
                requires
                    -128 <= qi <= 127,
                    0 <= vi <= 255,
            ;
        }
        let p = qi * vi;
        sum = sum + p;
        i += 1;
    }
    assert(-32640 * 65536 <= sum <= 32640 * 65536);
    (-sum) as i32
}

} // verus!
