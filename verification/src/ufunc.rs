use vstd::prelude::*;
use vstd::string::*;

use crate::array_routines::broadcast::{
    broadcast_fits, broadcast_input, broadcast_message, broadcast_shape, broadcastable,
    input_plan, lemma_broadcast_shape_expands, spec_broadcast_shape,
};
use crate::errors::{error_view, NdArrayError, NdArrayErrorView, NdArrayResult};
use crate::ndarray::{copy_shape, optional_gathered_view, same_shape, Gathered, NdArray};
use crate::operand::ScalarValue;
use crate::text::{shape_text, shape_to_text};
use crate::types::Dtype;

verus! {

/// What the buffer that a kernel produced reports of itself.
#[derive(Debug, Clone, Copy)]
pub struct KernelOutput {
    pub dtype: Dtype,
    pub len: usize,
}

/// The merge of a kernel's result with zeros under a mask: where the mask is
/// set the result stands, elsewhere the zero. `len` zeros are needed.
#[derive(Debug)]
pub struct MaskMerge {
    pub zero: ScalarValue,
    pub len: usize,
}

/// A step that a ufunc takes after its kernel.
#[derive(Debug)]
pub enum UfuncStep {
    /// The merge of the kernel's result with zeros under the mask.
    Merge(MaskMerge),
    /// The cast of the result to another element kind.
    Cast(Dtype),
}

/// What is left to do once the kernel of a ufunc has run, and the array that
/// comes of it. The steps are to be taken in the order they stand in.
#[derive(Debug)]
pub struct UfuncOutput {
    pub array: NdArray,
    pub steps: Vec<UfuncStep>,
}

/// The message for a mask whose elements are not booleans.
pub open spec fn mask_dtype_message() -> Seq<char> {
    "Mask is not of boolean type"@
}

/// The message for a mask whose shape is not that of the result.
pub open spec fn mask_shape_message(mask: Seq<u32>, result: Seq<u32>) -> Seq<char> {
    "Cannot apply mask of shape "@ + shape_text(mask) + " to result of shape "@ + shape_text(
        result,
    )
}

/// Why a mask cannot be applied to a result of shape `result`, if it cannot:
/// its elements are not booleans, or its shape is not that of the result.
pub open spec fn mask_refusal(mask: Option<&NdArray>, result: Seq<u32>) -> Option<
    NdArrayErrorView,
> {
    match mask {
        None => None,
        Some(mask) => if mask.dtype != Dtype::Bool {
            Some(NdArrayErrorView::Dtype(mask_dtype_message()))
        } else if mask.shape@ != result {
            Some(NdArrayErrorView::Broadcast(mask_shape_message(mask.shape@, result)))
        } else {
            None
        },
    }
}

/// The element kind of the array a ufunc returns: the one asked for, or the
/// kernel's own.
pub open spec fn output_dtype(natural: Dtype, asked: Option<Dtype>) -> Dtype {
    match asked {
        Some(dtype) => dtype,
        None => natural,
    }
}

/// The cast a ufunc ends with: to the element kind asked for, where that is
/// not the kernel's own.
pub open spec fn output_cast(natural: Dtype, asked: Option<Dtype>) -> Option<Dtype> {
    match asked {
        Some(dtype) => if dtype != natural {
            Some(dtype)
        } else {
            None
        },
        None => None,
    }
}

/// The steps that follow the kernel, in order: first the merge under the
/// mask, if there is a mask, then the cast, if there is one.
pub open spec fn output_steps(
    masked: bool,
    zero_dtype: Dtype,
    zero_len: usize,
    natural: Dtype,
    asked: Option<Dtype>,
) -> Seq<UfuncStep> {
    let merge = if masked {
        seq![
            UfuncStep::Merge(MaskMerge { zero: ScalarValue::spec_zero(zero_dtype), len: zero_len }),
        ]
    } else {
        Seq::empty()
    };
    let cast = match output_cast(natural, asked) {
        Some(dtype) => seq![UfuncStep::Cast(dtype)],
        None => Seq::empty(),
    };
    merge + cast
}

/// The steps after the kernel and the array that comes of them.
///
/// `zero_dtype` and `zero_len` say of which kind and how many the zeros of a
/// merge are; `natural` is the element kind of the kernel's result.
pub open spec fn finished(
    output: UfuncOutput,
    shape: Seq<u32>,
    masked: bool,
    zero_dtype: Dtype,
    zero_len: usize,
    natural: Dtype,
    asked: Option<Dtype>,
) -> bool {
    &&& output.array.shape@ == shape
    &&& output.array.dims as int == shape.len()
    &&& output.array.dtype == output_dtype(natural, asked)
    &&& output.steps@ == output_steps(masked, zero_dtype, zero_len, natural, asked)
}

fn mask_shape_error(mask: &[u32], result: &[u32]) -> (error: NdArrayError)
    ensures
        error_view(error) == NdArrayErrorView::Broadcast(mask_shape_message(mask@, result@)),
{
    let mut message = String::from_str("Cannot apply mask of shape ");
    message.append(shape_to_text(mask).as_str());
    message.append(" to result of shape ");
    message.append(shape_to_text(result).as_str());
    NdArrayError::BroadcastError(message)
}

/// Checks that a mask can be applied to a result of shape `result`.
pub fn check_mask(mask: Option<&NdArray>, result: &[u32]) -> (res: NdArrayResult<()>)
    ensures
        match res {
            Ok(_) => mask_refusal(mask, result@) is None,
            Err(error) => mask_refusal(mask, result@) == Some(error_view(error)),
        },
{
    match mask {
        None => Ok(()),
        Some(mask) => {
            if mask.dtype != Dtype::Bool {
                Err(NdArrayError::DtypeError("Mask is not of boolean type".to_string()))
            } else if !same_shape(mask.shape.as_slice(), result) {
                Err(mask_shape_error(mask.shape.as_slice(), result))
            } else {
                Ok(())
            }
        },
    }
}

/// The steps after the kernel of a ufunc, and the array that comes of them.
///
/// The result has shape `shape`. With a mask, the kernel's result is merged
/// with `zero_len` zeros of kind `zero_dtype`. Where an element kind is asked
/// for that is not the kernel's own, the result is cast to it.
pub fn finish_ufunc(
    shape: Vec<u32>,
    masked: bool,
    zero_dtype: Dtype,
    zero_len: usize,
    natural: Dtype,
    dtype: Option<Dtype>,
) -> (output: UfuncOutput)
    requires
        shape@.len() <= u16::MAX,
    ensures
        finished(output, shape@, masked, zero_dtype, zero_len, natural, dtype),
{
    let mut steps: Vec<UfuncStep> = Vec::new();
    if masked {
        steps.push(
            UfuncStep::Merge(MaskMerge { zero: ScalarValue::zero(&zero_dtype), len: zero_len }),
        );
    }
    let out_dtype = match dtype {
        Some(asked) => {
            if asked != natural {
                steps.push(UfuncStep::Cast(asked));
            }
            asked
        },
        None => natural,
    };
    proof {
        assert(steps@ =~= output_steps(masked, zero_dtype, zero_len, natural, dtype));
    }
    let dims = shape.len() as u16;
    UfuncOutput { array: NdArray { shape, dims, dtype: out_dtype }, steps }
}

/// Runs a kernel of one input over an array.
///
/// The kernel is handed the array and reports the buffer it produced. With a
/// mask, which must be boolean and of the array's shape, the result is then
/// merged with zeros of the array's element kind, as many as the array has
/// elements: where the mask is unset, the zero stands. With an element kind
/// asked for that is not the kernel's own, the result is cast last. The
/// shape of the result is the array's.
///
/// A mask that cannot be applied is refused before the kernel runs.
pub fn ufunc_nin1_nout1<F>(
    dyn_function: F,
    ndarray: &NdArray,
    where_: Option<&NdArray>,
    dtype: Option<Dtype>,
) -> (res: NdArrayResult<UfuncOutput>) where F: FnOnce(&NdArray) -> KernelOutput
    requires
        ndarray.wf(),
        call_requires(dyn_function, (ndarray,)),
    ensures
        match res {
            Err(error) => mask_refusal(where_, ndarray.shape@) == Some(error_view(error)),
            Ok(output) => mask_refusal(where_, ndarray.shape@) is None && exists|
                kernel: KernelOutput,
            |
                call_ensures(dyn_function, (ndarray,), kernel) && finished(
                    output,
                    ndarray.shape@,
                    where_ is Some,
                    ndarray.dtype,
                    ndarray.spec_len() as usize,
                    kernel.dtype,
                    dtype,
                ),
        },
{
    match check_mask(where_, ndarray.shape.as_slice()) {
        Err(error) => {
            return Err(error);
        },
        Ok(_) => {},
    }
    let kernel = dyn_function(ndarray);
    let zero_len = ndarray.len() as usize;
    Ok(
        finish_ufunc(
            copy_shape(ndarray.shape.as_slice()),
            where_.is_some(),
            ndarray.dtype,
            zero_len,
            kernel.dtype,
            dtype,
        ),
    )
}

/// What is handed to a kernel of two inputs: for each input, the gathered
/// array that stands in for it, or nothing where the input is used as it is.
pub open spec fn kernel_inputs(
    first: Option<Gathered>,
    second: Option<Gathered>,
    x: &NdArray,
    y: &NdArray,
) -> bool {
    let shape = spec_broadcast_shape(x.shape@, y.shape@);
    &&& optional_gathered_view(first) == input_plan(x.shape@, shape)
    &&& optional_gathered_view(second) == input_plan(y.shape@, shape)
    &&& first matches Some(gathered) ==> gathered.array.wf() && gathered.array.dtype == x.dtype
    &&& second matches Some(gathered) ==> gathered.array.wf() && gathered.array.dtype == y.dtype
}

/// What `ufunc_nin2_nout1` refuses, and why: shapes that do not broadcast,
/// or a mask that cannot be applied to the result.
pub open spec fn binary_refusal(x: &NdArray, y: &NdArray, mask: Option<&NdArray>) -> Option<
    NdArrayErrorView,
> {
    if !broadcastable(x.shape@, y.shape@) {
        Some(NdArrayErrorView::Broadcast(broadcast_message(x.shape@, y.shape@)))
    } else {
        mask_refusal(mask, spec_broadcast_shape(x.shape@, y.shape@))
    }
}

/// Runs a kernel of two inputs over two arrays.
///
/// The two shapes are broadcast to a common shape. An input that has that
/// shape already is handed to the kernel as it is; for any other input the
/// kernel is handed the gathered array that realises its broadcast. The
/// kernel reports the buffer it produced. With a mask, which must be boolean
/// and of the common shape, the result is then merged with zeros of the
/// result's element kind, as many as the result has elements. With an
/// element kind asked for that is not the kernel's own, the result is cast
/// last. The shape of the result is the common shape.
///
/// Shapes that cannot be reconciled and a mask that cannot be applied are
/// refused before the kernel runs.
pub fn ufunc_nin2_nout1<F>(
    dyn_function: F,
    ndarray1: &NdArray,
    ndarray2: &NdArray,
    where_: Option<&NdArray>,
    dtype: Option<Dtype>,
) -> (res: NdArrayResult<UfuncOutput>) where
    F: FnOnce(Option<Gathered>, Option<Gathered>) -> KernelOutput,

    requires
        broadcast_fits(ndarray1.shape@, ndarray2.shape@),
        forall|first: Option<Gathered>, second: Option<Gathered>|
            kernel_inputs(first, second, ndarray1, ndarray2) ==> call_requires(
                dyn_function,
                (first, second),
            ),
    ensures
        match res {
            Err(error) => binary_refusal(ndarray1, ndarray2, where_) == Some(error_view(error)),
            Ok(output) => binary_refusal(ndarray1, ndarray2, where_) is None && exists|
                first: Option<Gathered>,
                second: Option<Gathered>,
                kernel: KernelOutput,
            |
                kernel_inputs(first, second, ndarray1, ndarray2) && call_ensures(
                    dyn_function,
                    (first, second),
                    kernel,
                ) && finished(
                    output,
                    spec_broadcast_shape(ndarray1.shape@, ndarray2.shape@),
                    where_ is Some,
                    kernel.dtype,
                    kernel.len,
                    kernel.dtype,
                    dtype,
                ),
        },
{
    let broadcasted_shape = match broadcast_shape(
        ndarray1.shape.as_slice(),
        ndarray2.shape.as_slice(),
    ) {
        Ok(shape) => shape,
        Err(error) => {
            return Err(error);
        },
    };
    match check_mask(where_, broadcasted_shape.as_slice()) {
        Err(error) => {
            return Err(error);
        },
        Ok(_) => {},
    }
    proof {
        lemma_broadcast_shape_expands(ndarray1.shape@, ndarray2.shape@);
    }
    let in1 = broadcast_input(ndarray1, broadcasted_shape.as_slice());
    let in2 = broadcast_input(ndarray2, broadcasted_shape.as_slice());
    let ghost first = in1;
    let ghost second = in2;
    proof {
        assert(kernel_inputs(in1, in2, ndarray1, ndarray2));
    }
    let kernel = dyn_function(in1, in2);
    let output = finish_ufunc(
        broadcasted_shape,
        where_.is_some(),
        kernel.dtype,
        kernel.len,
        kernel.dtype,
        dtype,
    );
    proof {
        assert(kernel_inputs(first, second, ndarray1, ndarray2));
        assert(call_ensures(dyn_function, (first, second), kernel));
    }
    Ok(output)
}

} // verus!
