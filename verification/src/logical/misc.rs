use vstd::prelude::*;
use vstd::string::*;

use crate::errors::{NdArrayError, NdArrayResult};
use crate::ndarray::NdArray;
use crate::types::Dtype;

verus! {

/// The message for an array whose elements are not booleans.
pub open spec fn any_dtype_message(dtype: Dtype) -> Seq<char> {
    "Cant perform any on dtype "@ + dtype.spec_name()
}

/// Whether any element of a boolean array is set, given what the reduction
/// over its buffer found. An array of any other element kind is refused.
pub fn any(x: &NdArray, found: bool) -> (res: NdArrayResult<bool>)
    ensures
        match res {
            Ok(answer) => x.dtype == Dtype::Bool && answer == found,
            Err(NdArrayError::DtypeError(message)) => x.dtype != Dtype::Bool && message@
                == any_dtype_message(x.dtype),
            Err(_) => false,
        },
{
    if x.dtype == Dtype::Bool {
        Ok(found)
    } else {
        let mut message = String::from_str("Cant perform any on dtype ");
        message.append(x.dtype.name());
        Err(NdArrayError::DtypeError(message))
    }
}

} // verus!
