use vstd::prelude::*;

use crate::types::{Dtype, OperandType, UfuncType};

verus! {

/// The signature of a kernel that takes an array of kind `input` and gives
/// an array of 32-bit floats.
pub open spec fn float_signature(input: Dtype) -> UfuncType {
    UfuncType::UfuncNin1Nout1Type(
        [OperandType::NdArrayType(input)],
        OperandType::NdArrayType(Dtype::Float32),
    )
}

fn float_kernel(input: Dtype) -> (signature: UfuncType)
    ensures
        signature == float_signature(input),
{
    UfuncType::UfuncNin1Nout1Type(
        [OperandType::NdArrayType(input)],
        OperandType::NdArrayType(Dtype::Float32),
    )
}

/// The signatures of the cosine: it takes 32-bit floats and the integers of
/// 8 and 16 bits, and gives 32-bit floats.
pub fn cos_types() -> (types: [UfuncType; 5])
    ensures
        types@ == seq![
            float_signature(Dtype::Float32),
            float_signature(Dtype::UInt8),
            float_signature(Dtype::UInt16),
            float_signature(Dtype::Int8),
            float_signature(Dtype::Int16),
        ],
{
    let types = [
        float_kernel(Dtype::Float32),
        float_kernel(Dtype::UInt8),
        float_kernel(Dtype::UInt16),
        float_kernel(Dtype::Int8),
        float_kernel(Dtype::Int16),
    ];
    proof {
        assert(types@ =~= seq![
            float_signature(Dtype::Float32),
            float_signature(Dtype::UInt8),
            float_signature(Dtype::UInt16),
            float_signature(Dtype::Int8),
            float_signature(Dtype::Int16),
        ]);
    }
    types
}

/// The signatures of the sine: those of the cosine.
pub fn sin_types() -> (types: [UfuncType; 5])
    ensures
        types@ == seq![
            float_signature(Dtype::Float32),
            float_signature(Dtype::UInt8),
            float_signature(Dtype::UInt16),
            float_signature(Dtype::Int8),
            float_signature(Dtype::Int16),
        ],
{
    cos_types()
}

} // verus!
