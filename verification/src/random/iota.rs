use vstd::prelude::*;

use crate::array_routines::arange::arange_op;
use crate::ndarray::identity_indexes;
use crate::selection::{full_slice, lemma_full_slice};
use crate::shape::{shape_count, shape_product};
use crate::types::IndexSlice;

verus! {

/// The counter words for an array of shape `shape`: `0, 1, ..`, one for each
/// position the shape addresses.
pub fn iota_op(shape: &[u32]) -> (values: Vec<u32>)
    requires
        shape_product(shape@) <= u32::MAX,
    ensures
        values@ == identity_indexes(shape_product(shape@)),
{
    let total_count: u32 = match shape_count(shape) {
        Some(count) => count,
        None => 0,
    };
    let slice = match IndexSlice::new(0, total_count as i64, 1, total_count) {
        Ok(slice) => slice,
        Err(_) => IndexSlice { start: 0, stop: total_count, step: 1 },
    };
    proof {
        assert(slice == full_slice(total_count));
        lemma_full_slice(total_count);
    }
    let values = arange_op(&slice);
    proof {
        assert(values@ =~= identity_indexes(shape_product(shape@)));
    }
    values
}

} // verus!
