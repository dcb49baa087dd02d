use vstd::prelude::*;

use crate::errors::{NdArrayError, NdArrayResult};
use crate::ndarray::NdArray;
use crate::shape::shape_product;
use crate::selection::undirected_message;
use crate::types::{Dtype, IndexSlice};
use crate::errors::{error_view, NdArrayErrorView};

verus! {

/// An array of evenly spaced positions: its description and its values.
#[derive(Debug)]
pub struct Arange {
    pub array: NdArray,
    pub values: Vec<u32>,
}

/// The message for a step of zero.
pub open spec fn zero_step_message() -> Seq<char> {
    "Step is zero"@
}

/// The message for an element kind that `arange` does not produce.
pub open spec fn arange_dtype_message() -> Seq<char> {
    "arange supports only uint32"@
}

/// The slice that an `arange` walks: from `start`, or 0, to `stop`, by
/// `step`, or 1.
pub open spec fn arange_slice(start: Option<u32>, stop: u32, step: Option<i32>) -> IndexSlice {
    IndexSlice {
        start: match start {
            Some(first) => first,
            None => 0,
        },
        stop,
        step: match step {
            Some(stride) => stride,
            None => 1,
        },
    }
}

/// What `arange` refuses, and why: a step of zero, a step that leads away
/// from `stop`, or an element kind other than unsigned 32-bit integers.
pub open spec fn arange_refusal(
    start: Option<u32>,
    stop: u32,
    step: Option<i32>,
    dtype: Option<Dtype>,
) -> Option<NdArrayErrorView> {
    let slice = arange_slice(start, stop, step);
    if slice.step == 0 {
        Some(NdArrayErrorView::Slice(zero_step_message()))
    } else if !slice.directed() {
        Some(NdArrayErrorView::Slice(undirected_message()))
    } else if dtype is Some && dtype != Some(Dtype::UInt32) {
        Some(NdArrayErrorView::Dtype(arange_dtype_message()))
    } else {
        None
    }
}

/// The positions that a slice selects, in order.
pub fn arange_op(slice: &IndexSlice) -> (values: Vec<u32>)
    requires
        slice.wf(),
        slice.directed(),
    ensures
        values@ == slice.positions(),
{
    slice.iterate().collect()
}

/// The array of the positions from `start`, or 0, up to but excluding
/// `stop`, by `step`, or 1. It has one axis and holds unsigned 32-bit
/// integers.
pub fn arange(start: Option<u32>, stop: u32, step: Option<i32>, dtype: Option<Dtype>) -> (res:
    NdArrayResult<Arange>)
    ensures
        match res {
            Err(error) => arange_refusal(start, stop, step, dtype) == Some(error_view(error)),
            Ok(range) => {
                let slice = arange_slice(start, stop, step);
                &&& arange_refusal(start, stop, step, dtype) is None
                &&& range.values@ == slice.positions()
                &&& range.array.shape@ == seq![slice.spec_element_count() as u32]
                &&& range.array.dims == 1
                &&& range.array.dtype == Dtype::UInt32
                &&& range.array.wf()
            },
        },
{
    let start = match start {
        Some(first) => first,
        None => 0,
    };
    let step = match step {
        Some(stride) => stride,
        None => 1,
    };
    let index_slice = IndexSlice { start, stop, step };
    if step == 0 {
        return Err(NdArrayError::SliceError("Step is zero".to_string()));
    }
    let directed = if step > 0 {
        start <= stop
    } else {
        stop <= start
    };
    if !directed {
        return Err(NdArrayError::SliceError("Slice step points away from its stop".to_string()));
    }
    match dtype {
        Some(Dtype::UInt32) => {},
        None => {},
        Some(_) => {
            return Err(NdArrayError::DtypeError("arange supports only uint32".to_string()));
        },
    }
    let values = arange_op(&index_slice);
    let count = index_slice.element_count();
    let mut shape: Vec<u32> = Vec::new();
    shape.push(count);
    proof {
        assert(shape@ =~= seq![count]);
        assert(shape@.drop_first() =~= Seq::<u32>::empty());
        assert(shape@[0] == count);
        assert(shape_product(shape@.drop_first()) == 1);
        assert(shape_product(shape@) == (shape@[0] as nat) * shape_product(shape@.drop_first()));
        assert((count as nat) * 1 == count) by (nonlinear_arith);
    }
    Ok(Arange { array: NdArray { shape, dims: 1, dtype: Dtype::UInt32 }, values })
}

} // verus!
