use vstd::prelude::*;
use vstd::string::*;

use crate::errors::{NdArrayError, NdArrayResult};
use crate::ndarray::{copy_shape, NdArray};
use crate::text::{shape_text, shape_to_text};
use crate::types::Dtype;
use crate::errors::{error_view, NdArrayErrorView};

verus! {

/// The number of bytes of one 32-bit float.
pub const F32_ITEM_SIZE: u64 = 4;

/// A cross product that is ready for its kernel: the array that comes of it
/// and the lengths of the vectors on either side, which the kernel is told.
#[derive(Debug)]
pub struct CrossProduct {
    pub array: NdArray,
    pub vector_lengths: [u32; 2],
}

/// The sizes of a launch of the cross kernel: the bytes of the buffer it
/// fills, the number of its work groups and the number of elements of the
/// result.
#[derive(Debug, Clone, Copy, PartialEq, Eq)]
pub struct CrossLaunch {
    pub new_buffer_size: u64,
    pub dispatch_size: u32,
    pub len: usize,
}

/// The lengths of the vectors of two arrays: the sizes of their last axes,
/// where both have one.
pub open spec fn vector_lengths(a: Seq<u32>, b: Seq<u32>) -> Option<(u32, u32)> {
    if a.len() > 0 && b.len() > 0 {
        Some((a.last(), b.last()))
    } else {
        None
    }
}

/// The vector lengths that a cross product takes: 2 or 3 on either side.
pub open spec fn crossable(left: u32, right: u32) -> bool {
    (left == 2 || left == 3) && (right == 2 || right == 3)
}

/// The shape of the cross product of arrays of shapes `a` and `b`: that of
/// `a` where its vectors have three components, that of `b` where only
/// its vectors have three, and that of `a` without its last axis where both
/// have two.
pub open spec fn cross_shape(a: Seq<u32>, b: Seq<u32>) -> Seq<u32> {
    if a.last() == 3 {
        a
    } else if b.last() == 3 {
        b
    } else {
        a.drop_last()
    }
}

/// The message for shapes whose vectors a cross product does not take.
pub open spec fn cross_shapes_message(a: Seq<u32>, b: Seq<u32>) -> Seq<char> {
    "cross not supported for shapes "@ + shape_text(a) + " and "@ + shape_text(b)
}

/// The message for element kinds that a cross product does not take.
pub open spec fn cross_dtypes_message(a: Dtype, b: Dtype) -> Seq<char> {
    "cross not supported for dtype "@ + a.spec_name() + " and "@ + b.spec_name()
}

/// What `cross` refuses, and why: vectors that do not have two or three
/// components, or elements that are not 32-bit floats.
pub open spec fn cross_refusal(a: &NdArray, b: &NdArray) -> Option<NdArrayErrorView> {
    match vector_lengths(a.shape@, b.shape@) {
        Some((left, right)) => if !crossable(left, right) {
            Some(NdArrayErrorView::Broadcast(cross_shapes_message(a.shape@, b.shape@)))
        } else if a.dtype != Dtype::Float32 || b.dtype != Dtype::Float32 {
            Some(NdArrayErrorView::Dtype(cross_dtypes_message(a.dtype, b.dtype)))
        } else {
            None
        },
        None => Some(NdArrayErrorView::Broadcast(cross_shapes_message(a.shape@, b.shape@))),
    }
}

fn cross_shapes_error(a: &[u32], b: &[u32]) -> (error: NdArrayError)
    ensures
        error_view(error) == NdArrayErrorView::Broadcast(cross_shapes_message(a@, b@)),
{
    let mut message = String::from_str("cross not supported for shapes ");
    message.append(shape_to_text(a).as_str());
    message.append(" and ");
    message.append(shape_to_text(b).as_str());
    NdArrayError::BroadcastError(message)
}

fn cross_dtypes_error(a: Dtype, b: Dtype) -> (error: NdArrayError)
    ensures
        error_view(error) == NdArrayErrorView::Dtype(cross_dtypes_message(a, b)),
{
    let mut message = String::from_str("cross not supported for dtype ");
    message.append(a.name());
    message.append(" and ");
    message.append(b.name());
    NdArrayError::DtypeError(message)
}

/// The cross product of the vectors along the last axes of two arrays of
/// 32-bit floats.
///
/// The vectors have two or three components. The result has the shape of
/// the side whose vectors have three components, the first side where both
/// have; where both have two, every product is a single number and the last
/// axis is dropped.
pub fn cross(a: &NdArray, b: &NdArray) -> (res: NdArrayResult<CrossProduct>)
    requires
        a.wf(),
        b.wf(),
    ensures
        match res {
            Err(error) => cross_refusal(a, b) == Some(error_view(error)),
            Ok(product) => {
                &&& cross_refusal(a, b) is None
                &&& product.array.shape@ == cross_shape(a.shape@, b.shape@)
                &&& product.array.dims as int == product.array.shape@.len()
                &&& product.array.dtype == a.dtype
                &&& product.vector_lengths@ == seq![a.shape@.last(), b.shape@.last()]
            },
        },
{
    if a.shape.len() == 0 || b.shape.len() == 0 {
        return Err(cross_shapes_error(a.shape.as_slice(), b.shape.as_slice()));
    }
    let shape_last_a = a.shape[a.shape.len() - 1];
    let shape_last_b = b.shape[b.shape.len() - 1];
    let supported = (shape_last_a == 2 || shape_last_a == 3) && (shape_last_b == 2
        || shape_last_b == 3);
    if !supported {
        return Err(cross_shapes_error(a.shape.as_slice(), b.shape.as_slice()));
    }
    if a.dtype != Dtype::Float32 || b.dtype != Dtype::Float32 {
        return Err(cross_dtypes_error(a.dtype, b.dtype));
    }
    let shape = if shape_last_a == 3 {
        copy_shape(a.shape.as_slice())
    } else if shape_last_b == 3 {
        copy_shape(b.shape.as_slice())
    } else {
        let mut shape = copy_shape(a.shape.as_slice());
        shape.pop();
        shape
    };
    let dims = shape.len() as u16;
    Ok(
        CrossProduct {
            array: NdArray { shape, dims, dtype: a.dtype },
            vector_lengths: [shape_last_a, shape_last_b],
        },
    )
}

/// The bytes of the buffer that a cross product fills: those of the left
/// buffer where the left vectors have three components, those of the right
/// buffer where only the right vectors have three, and half those of the
/// left buffer where both have two.
pub open spec fn cross_buffer_size(left_size: u64, right_size: u64, left: u32, right: u32) -> int {
    if left == 3 {
        left_size as int
    } else if right == 3 {
        right_size as int
    } else {
        (left_size / 2) as int
    }
}

/// The sizes of a launch of the cross kernel over buffers of `left_size`
/// and `right_size` bytes, whose vectors have `left` and `right` components.
///
/// One work group is launched for each vector of the left buffer.
pub fn cross_launch(left_size: u64, right_size: u64, left: u32, right: u32) -> (launch:
    CrossLaunch)
    requires
        crossable(left, right),
        left_size / F32_ITEM_SIZE <= u32::MAX,
        right_size / F32_ITEM_SIZE <= u32::MAX,
    ensures
        launch.new_buffer_size == cross_buffer_size(left_size, right_size, left, right),
        launch.dispatch_size == (left_size / F32_ITEM_SIZE) / (left as u64),
        launch.len == launch.new_buffer_size / F32_ITEM_SIZE,
{
    let dispatch_size = ((left_size / F32_ITEM_SIZE) as u32) / left;
    let new_buffer_size = if left == 3 {
        left_size
    } else if right == 3 {
        right_size
    } else {
        left_size / 2
    };
    CrossLaunch {
        new_buffer_size,
        dispatch_size,
        len: (new_buffer_size / F32_ITEM_SIZE) as usize,
    }
}

} // verus!
