//! Scalar quantization support.
//!
//! Stored vectors are L2-normalized and mapped linearly from [-1, 1] onto
//! the unsigned byte range; queries are mapped onto the signed byte range.
//! Those two mappings work on floating-point input and live outside the
//! verified core. What the core owns is the integer bridge between them:
//! re-centering a stored unsigned row into the signed query domain, which
//! the graph needs when a freshly inserted vector becomes the query that
//! navigates the layers.

use vstd::prelude::*;

verus! {

/// Scalar quantizer: the integer side of the codec.
pub struct ScalarQuantizer;

impl ScalarQuantizer {
    /// Re-centers a stored quantized row into the signed query domain by
    /// shifting each component down by 128.
    pub fn center(v: &[u8]) -> (r: Vec<i8>)
        ensures
            r@.len() == v@.len(),
            forall|i: int| 0 <= i < v@.len() ==> r@[i] == v@[i] - 128,
    {
        let n = v.len();
        let mut out: Vec<i8> = Vec::new();
        let mut i: usize = 0;
        while i < n
            invariant
                i <= n,
                n == v@.len(),
                out@.len() == i,
                forall|j: int| 0 <= j < i ==> out@[j] == v@[j] - 128,
            decreases n - i,
        {
            let c = *vstd::slice::slice_index_get(v, i) as i16 - 128;
            out.push(c as i8);
            i += 1;
        }
        out
    }
}

} // verus!
