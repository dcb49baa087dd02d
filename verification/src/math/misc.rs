use vstd::prelude::*;

use crate::array_routines::broadcast::{
    broadcast_input, broadcast_shape, broadcast_shape_outcome, input_plan,
    lemma_broadcast_shape_expands, lemma_expands_to_transitive,
};
use crate::errors::{error_view, NdArrayErrorView, NdArrayResult};
use crate::ndarray::{optional_gathered_view, Gathered, NdArray};
use crate::shape::shape_product;

verus! {

/// The inputs of a clip, as the kernels are to see them, and the array that
/// comes of it.
///
/// The values and each bound that is given are gathered to the common
/// shape, or used as they are where they have that shape: for a bound,
/// `None` says that there is none, `Some(None)` that it is used as it is.
/// The values are first raised to the lower bound, then lowered to the
/// upper bound.
#[derive(Debug)]
pub struct ClipInputs {
    pub array: NdArray,
    pub values: Option<Gathered>,
    pub lower: Option<Option<Gathered>>,
    pub upper: Option<Option<Gathered>>,
}

/// The shape of a bound, if there is one.
pub open spec fn bound_shape(bound: Option<&NdArray>) -> Option<Seq<u32>> {
    match bound {
        Some(array) => Some(array.shape@),
        None => None,
    }
}

/// The shape that the values and the bounds that are given broadcast to,
/// folding from the left over the values, the lower and the upper bound; or
/// the error of the first pair that cannot be reconciled.
pub open spec fn clip_shape_outcome(
    a: Seq<u32>,
    lower: Option<Seq<u32>>,
    upper: Option<Seq<u32>>,
) -> Result<Seq<u32>, NdArrayErrorView> {
    let raised = match lower {
        Some(shape) => broadcast_shape_outcome(a, shape),
        None => Ok(a),
    };
    match raised {
        Err(error) => Err(error),
        Ok(shape) => match upper {
            Some(bound) => broadcast_shape_outcome(shape, bound),
            None => Ok(shape),
        },
    }
}

/// The machine limits of a clip: the common shape, where there is one, has
/// no more axes than the rank counter holds and addresses no more positions
/// than an index can name.
pub open spec fn clip_fits(a: Seq<u32>, lower: Option<Seq<u32>>, upper: Option<Seq<u32>>) -> bool {
    clip_shape_outcome(a, lower, upper) matches Ok(shape) ==> shape.len() <= u16::MAX
        && shape_product(shape) <= u32::MAX
}

/// An optional bound by how it reaches the kernels, if there is one.
pub open spec fn bound_view(bound: Option<Option<Gathered>>) -> Option<
    Option<(Seq<u32>, Seq<u32>)>,
> {
    match bound {
        None => None,
        Some(input) => Some(optional_gathered_view(input)),
    }
}

/// How a bound of shape `bound`, if there is one, reaches the kernels of a
/// clip to shape `common`.
pub open spec fn bound_plan(bound: Option<Seq<u32>>, common: Seq<u32>) -> Option<
    Option<(Seq<u32>, Seq<u32>)>,
> {
    match bound {
        None => None,
        Some(shape) => Some(input_plan(shape, common)),
    }
}

/// Limits the values of an array to a lower bound, an upper bound, or both.
///
/// The values and the bounds are broadcast to their common shape. The result
/// has that shape and the element kind of the values. Shapes that cannot be
/// reconciled give a `BroadcastError`.
pub fn clip(a: &NdArray, a_min: Option<&NdArray>, a_max: Option<&NdArray>) -> (res: NdArrayResult<
    ClipInputs,
>)
    requires
        a_min is Some || a_max is Some,
        clip_fits(a.shape@, bound_shape(a_min), bound_shape(a_max)),
    ensures
        match res {
            Err(error) => clip_shape_outcome(a.shape@, bound_shape(a_min), bound_shape(a_max))
                == Err::<Seq<u32>, NdArrayErrorView>(error_view(error)),
            Ok(inputs) => {
                &&& clip_shape_outcome(a.shape@, bound_shape(a_min), bound_shape(a_max)) == Ok::<
                    Seq<u32>,
                    NdArrayErrorView,
                >(inputs.array.shape@)
                &&& inputs.array.wf()
                &&& inputs.array.dtype == a.dtype
                &&& optional_gathered_view(inputs.values) == input_plan(
                    a.shape@,
                    inputs.array.shape@,
                )
                &&& bound_view(inputs.lower) == bound_plan(bound_shape(a_min), inputs.array.shape@)
                &&& bound_view(inputs.upper) == bound_plan(bound_shape(a_max), inputs.array.shape@)
            },
        },
{
    let raised: Vec<u32> = match a_min {
        Some(min_values) => match broadcast_shape(
            a.shape.as_slice(),
            min_values.shape.as_slice(),
        ) {
            Ok(shape) => shape,
            Err(error) => {
                return Err(error);
            },
        },
        None => crate::ndarray::copy_shape(a.shape.as_slice()),
    };
    let broadcasted_shape: Vec<u32> = match a_max {
        Some(max_values) => match broadcast_shape(
            raised.as_slice(),
            max_values.shape.as_slice(),
        ) {
            Ok(shape) => shape,
            Err(error) => {
                return Err(error);
            },
        },
        None => crate::ndarray::copy_shape(raised.as_slice()),
    };
    proof {
        match a_min {
            Some(min_values) => {
                lemma_broadcast_shape_expands(a.shape@, min_values.shape@);
            },
            None => {
                crate::array_routines::broadcast::lemma_expands_to_self(a.shape@);
            },
        }
        match a_max {
            Some(max_values) => {
                lemma_broadcast_shape_expands(raised@, max_values.shape@);
            },
            None => {
                crate::array_routines::broadcast::lemma_expands_to_self(raised@);
            },
        }
        lemma_expands_to_transitive(a.shape@, raised@, broadcasted_shape@);
    }
    let lower = match a_min {
        Some(min_values) => {
            proof {
                lemma_expands_to_transitive(min_values.shape@, raised@, broadcasted_shape@);
            }
            Some(broadcast_input(min_values, broadcasted_shape.as_slice()))
        },
        None => None,
    };
    let values = broadcast_input(a, broadcasted_shape.as_slice());
    let upper = match a_max {
        Some(max_values) => Some(broadcast_input(max_values, broadcasted_shape.as_slice())),
        None => None,
    };
    let dims = broadcasted_shape.len() as u16;
    Ok(
        ClipInputs {
            array: NdArray { shape: broadcasted_shape, dims, dtype: a.dtype },
            values,
            lower,
            upper,
        },
    )
}

/// Whether a clip stays within the machine limits; see [`clip_fits`].
pub fn check_clip_fits(a: &[u32], lower: Option<&[u32]>, upper: Option<&[u32]>) -> (fits: bool)
    ensures
        fits == clip_fits(
            a@,
            match lower {
                Some(shape) => Some(shape@),
                None => None,
            },
            match upper {
                Some(shape) => Some(shape@),
                None => None,
            },
        ),
{
    let raised: Vec<u32> = match lower {
        Some(shape) => match broadcast_shape(a, shape) {
            Ok(raised) => raised,
            Err(_) => {
                return true;
            },
        },
        None => crate::ndarray::copy_shape(a),
    };
    match upper {
        Some(shape) => match broadcast_shape(raised.as_slice(), shape) {
            Ok(common) => crate::ndarray::shape_fits(common.as_slice()),
            Err(_) => true,
        },
        None => crate::ndarray::shape_fits(raised.as_slice()),
    }
}

} // verus!
