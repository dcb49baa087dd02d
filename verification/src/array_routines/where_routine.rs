use vstd::prelude::*;

use crate::array_routines::broadcast::{
    broadcast_input, broadcast_message, broadcast_shape, broadcastable, input_plan,
    lemma_broadcast_shape_expands, lemma_expands_to_transitive, spec_broadcast_shape,
};
use crate::errors::{NdArrayError, NdArrayResult};
use crate::ndarray::{copy_shape, optional_gathered_view, shape_fits, Gathered, NdArray};
use crate::shape::shape_product;
use crate::types::Dtype;
use crate::errors::{error_view, NdArrayErrorView};
use crate::ufunc::mask_dtype_message;

verus! {

/// The inputs of a selection between two arrays under a mask, as the merge
/// is to see them, and the array that comes of it. Each input is gathered to
/// the common shape, or used as it is where it has that shape.
#[derive(Debug)]
pub struct WhereInputs {
    pub array: NdArray,
    pub mask: Option<Gathered>,
    pub x: Option<Gathered>,
    pub y: Option<Gathered>,
}

/// The shape that the mask and the two arrays broadcast to.
pub open spec fn where_shape(mask: Seq<u32>, x: Seq<u32>, y: Seq<u32>) -> Seq<u32> {
    spec_broadcast_shape(mask, spec_broadcast_shape(x, y))
}

/// What `where_` refuses, and why: a mask that is not boolean, or shapes
/// that do not broadcast.
pub open spec fn where_refusal(mask: &NdArray, x: &NdArray, y: &NdArray) -> Option<
    NdArrayErrorView,
> {
    if mask.dtype != Dtype::Bool {
        Some(NdArrayErrorView::Dtype(mask_dtype_message()))
    } else if !broadcastable(x.shape@, y.shape@) {
        Some(NdArrayErrorView::Broadcast(broadcast_message(x.shape@, y.shape@)))
    } else if !broadcastable(mask.shape@, spec_broadcast_shape(x.shape@, y.shape@)) {
        Some(
            NdArrayErrorView::Broadcast(
                broadcast_message(mask.shape@, spec_broadcast_shape(x.shape@, y.shape@)),
            ),
        )
    } else {
        None
    }
}

/// The machine limits of `where_`: the common shape, where there is one, has
/// no more axes than the rank counter holds and addresses no more positions
/// than an index can name.
pub open spec fn where_fits(mask: Seq<u32>, x: Seq<u32>, y: Seq<u32>) -> bool {
    broadcastable(x, y) && broadcastable(mask, spec_broadcast_shape(x, y)) ==> where_shape(
        mask,
        x,
        y,
    ).len() <= u16::MAX && shape_product(where_shape(mask, x, y)) <= u32::MAX
}

/// Selects between two arrays under a mask: where the mask is set the
/// element of `x` stands, elsewhere that of `y`.
///
/// The mask must be boolean. The mask and the two arrays are broadcast to
/// their common shape; those that do not have it are gathered. The array that
/// comes of the merge is described with the shape, rank and element kind of
/// `x`.
pub fn where_(mask: &NdArray, x: &NdArray, y: &NdArray) -> (res: NdArrayResult<WhereInputs>)
    requires
        where_fits(mask.shape@, x.shape@, y.shape@),
    ensures
        match res {
            Err(error) => where_refusal(mask, x, y) == Some(error_view(error)),
            Ok(inputs) => {
                let common = where_shape(mask.shape@, x.shape@, y.shape@);
                &&& where_refusal(mask, x, y) is None
                &&& inputs.array.shape@ == x.shape@
                &&& inputs.array.dims == x.dims
                &&& inputs.array.dtype == x.dtype
                &&& optional_gathered_view(inputs.mask) == input_plan(mask.shape@, common)
                &&& optional_gathered_view(inputs.x) == input_plan(x.shape@, common)
                &&& optional_gathered_view(inputs.y) == input_plan(y.shape@, common)
            },
        },
{
    if mask.dtype != Dtype::Bool {
        return Err(NdArrayError::DtypeError("Mask is not of boolean type".to_string()));
    }
    let values_shape = match broadcast_shape(x.shape.as_slice(), y.shape.as_slice()) {
        Ok(shape) => shape,
        Err(error) => {
            return Err(error);
        },
    };
    let common = match broadcast_shape(mask.shape.as_slice(), values_shape.as_slice()) {
        Ok(shape) => shape,
        Err(error) => {
            return Err(error);
        },
    };
    proof {
        lemma_broadcast_shape_expands(x.shape@, y.shape@);
        lemma_broadcast_shape_expands(mask.shape@, values_shape@);
        lemma_expands_to_transitive(x.shape@, values_shape@, common@);
        lemma_expands_to_transitive(y.shape@, values_shape@, common@);
    }
    let broadcasted_x = broadcast_input(x, common.as_slice());
    let broadcasted_y = broadcast_input(y, common.as_slice());
    let broadcasted_mask = broadcast_input(mask, common.as_slice());
    Ok(
        WhereInputs {
            array: NdArray {
                shape: copy_shape(x.shape.as_slice()),
                dims: x.dims,
                dtype: x.dtype,
            },
            mask: broadcasted_mask,
            x: broadcasted_x,
            y: broadcasted_y,
        },
    )
}

/// Whether a selection under a mask stays within the machine limits; see
/// [`where_fits`].
pub fn check_where_fits(mask: &[u32], x: &[u32], y: &[u32]) -> (fits: bool)
    ensures
        fits == where_fits(mask@, x@, y@),
{
    match broadcast_shape(x, y) {
        Ok(values) => match broadcast_shape(mask, values.as_slice()) {
            Ok(common) => shape_fits(common.as_slice()),
            Err(_) => true,
        },
        Err(_) => true,
    }
}

} // verus!
