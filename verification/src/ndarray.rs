use vstd::prelude::*;

use crate::errors::{error_view, NdArrayError, NdArrayErrorView, NdArrayResult};
use crate::operand::{Operand, ScalarArrayRef, ScalarValue};
use crate::shape::{shape_count, shape_product};
use crate::types::Dtype;

verus! {

/// The logical array: its shape, the number of its axes and its element kind.
///
/// The elements themselves live in a dense row-major buffer on the compute
/// device, which the host of the array keeps beside this description. The
/// operations of the library say what a new array looks like and which
/// elements of which buffer it is made of.
#[derive(Debug)]
pub struct NdArray {
    pub shape: Vec<u32>,
    pub dims: u16,
    pub dtype: Dtype,
}

/// An array made by reading one source buffer: the new array, and for each of
/// its elements, in row-major order, the position to read in the source.
#[derive(Debug)]
pub struct Gathered {
    pub array: NdArray,
    pub indexes: Vec<u32>,
}

/// An array whose buffer holds one value throughout: the new array, the
/// value, the number of elements to write, and the element kind to cast the
/// buffer to afterwards, if any.
#[derive(Debug)]
pub struct Filled {
    pub array: NdArray,
    pub value: ScalarValue,
    pub len: usize,
    pub cast: Option<Dtype>,
}

/// A gathered array by what it says: the shape of the array and the gather
/// indexes.
pub open spec fn gathered_view(gathered: Gathered) -> (Seq<u32>, Seq<u32>) {
    (gathered.array.shape@, gathered.indexes@)
}

/// A gathered array that may be absent, by what it says.
pub open spec fn optional_gathered_view(gathered: Option<Gathered>) -> Option<
    (Seq<u32>, Seq<u32>),
> {
    match gathered {
        Some(gathered) => Some(gathered_view(gathered)),
        None => None,
    }
}

/// A gathered array by what it says, or the error by its kind and text.
pub open spec fn gathered_result_view(res: NdArrayResult<Gathered>) -> Result<
    (Seq<u32>, Seq<u32>),
    NdArrayErrorView,
> {
    match res {
        Ok(gathered) => Ok(gathered_view(gathered)),
        Err(error) => Err(error_view(error)),
    }
}

/// The elements read from `source` at the positions `indexes`, in order.
pub open spec fn gather<T>(source: Seq<T>, indexes: Seq<u32>) -> Seq<T> {
    Seq::new(indexes.len(), |i: int| source[indexes[i] as int])
}

/// The positions `0, 1, ..` up to `count`: reading a buffer there gives the
/// buffer back.
pub open spec fn identity_indexes(count: nat) -> Seq<u32> {
    Seq::new(count, |i: int| i as u32)
}

/// Reading a buffer at every one of its positions, in order, gives the buffer
/// back unchanged.
pub proof fn lemma_gather_identity<T>(source: Seq<T>)
    requires
        source.len() <= u32::MAX,
    ensures
        gather(source, identity_indexes(source.len())) == source,
{
    assert(gather(source, identity_indexes(source.len())) =~= source);
}

/// The number of elements of an array of this shape: the product of its
/// sizes, and 0 for a shape without axes.
pub open spec fn spec_len(shape: Seq<u32>) -> nat {
    if shape.len() == 0 {
        0
    } else {
        shape_product(shape)
    }
}

/// A copy of a run of sizes.
pub fn copy_shape(shape: &[u32]) -> (copy: Vec<u32>)
    ensures
        copy@ == shape@,
{
    let mut copy: Vec<u32> = Vec::new();
    let mut i: usize = 0;
    while i < shape.len()
        invariant
            i <= shape.len(),
            copy@ == shape@.take(i as int),
        decreases shape.len() - i,
    {
        copy.push(shape[i]);
        proof {
            assert(shape@.take(i as int + 1) =~= shape@.take(i as int).push(shape@[i as int]));
        }
        i += 1;
    }
    proof {
        assert(shape@.take(i as int) =~= shape@);
    }
    copy
}

/// Whether two runs of sizes are the same shape.
pub fn same_shape(x: &[u32], y: &[u32]) -> (same: bool)
    ensures
        same == (x@ == y@),
{
    if x.len() != y.len() {
        return false;
    }
    let mut i: usize = 0;
    while i < x.len()
        invariant
            i <= x.len(),
            x.len() == y.len(),
            forall|a: int| 0 <= a < i ==> x@[a] == y@[a],
        decreases x.len() - i,
    {
        if x[i] != y[i] {
            return false;
        }
        i += 1;
    }
    proof {
        assert(x@ =~= y@);
    }
    true
}

impl NdArray {
    /// The cached number of axes agrees with the shape, and the shape
    /// addresses no more positions than an index can name.
    pub open spec fn wf(&self) -> bool {
        &&& self.dims as int == self.shape@.len()
        &&& shape_product(self.shape@) <= u32::MAX
    }

    /// The number of elements: the product of the sizes, and 0 for an array
    /// without axes.
    pub open spec fn spec_len(&self) -> nat {
        spec_len(self.shape@)
    }

    /// The description of an array of the given shape and element kind.
    pub fn describe(shape: Vec<u32>, dtype: Dtype) -> (array: Option<Self>)
        ensures
            match array {
                Some(a) => a.wf() && a.shape@ == shape@ && a.dtype == dtype,
                None => shape@.len() > u16::MAX || shape_product(shape@) > u32::MAX,
            },
    {
        if shape.len() > u16::MAX as usize {
            return None;
        }
        match shape_count(shape.as_slice()) {
            Some(_) => {
                let dims = shape.len() as u16;
                Some(NdArray { shape, dims, dtype })
            },
            None => None,
        }
    }

    /// The element kind.
    pub fn get_dtype(&self) -> (dtype: &Dtype)
        ensures
            *dtype == self.dtype,
    {
        &self.dtype
    }

    /// The description of the array that a host run of elements makes when
    /// it is laid out in `shape`: the element kind is that of the run.
    pub fn from_slice(values_array: ScalarArrayRef<'_>, shape: Vec<u32>) -> (array: Self)
        requires
            shape@.len() <= u16::MAX,
            shape_product(shape@) <= u32::MAX,
        ensures
            array.wf(),
            array.shape@ == shape@,
            array.dtype == values_array.spec_dtype(),
    {
        let dims = shape.len() as u16;
        let dtype = values_array.dtype();
        NdArray { shape, dims, dtype }
    }

    /// The same array with its elements cast to `dtype`.
    pub fn astype(&self, dtype: Dtype) -> (cast: Self)
        ensures
            cast.shape@ == self.shape@,
            cast.dims == self.dims,
            cast.dtype == dtype,
    {
        Self { shape: copy_shape(self.shape.as_slice()), dims: self.dims, dtype }
    }

    /// The number of elements: the product of the sizes, and 0 for an array
    /// without axes.
    pub fn len(&self) -> (len: u32)
        requires
            shape_product(self.shape@) <= u32::MAX,
        ensures
            len == self.spec_len(),
    {
        if self.shape.len() == 0 {
            0
        } else {
            match shape_count(self.shape.as_slice()) {
                Some(count) => count,
                None => 0,
            }
        }
    }

    /// A description equal to this one, for a copy of the buffer.
    pub fn clone_array(&self) -> (copy: Self)
        ensures
            copy.shape@ == self.shape@,
            copy.dims == self.dims,
            copy.dtype == self.dtype,
    {
        Self { shape: copy_shape(self.shape.as_slice()), dims: self.dims, dtype: self.dtype }
    }

    /// The array after negation, given the element kind that the negated
    /// buffer reports: the shape is kept.
    pub fn neg(&self, negated: Dtype) -> (result: Self)
        ensures
            result.shape@ == self.shape@,
            result.dims == self.dims,
            result.dtype == negated,
    {
        Self { shape: copy_shape(self.shape.as_slice()), dims: self.dims, dtype: negated }
    }
}

/// The message for a gather along an axis.
pub open spec fn take_axis_message() -> Seq<char> {
    "take along an axis is not supported"@
}

/// The message for positions that are not unsigned 32-bit integers.
pub open spec fn take_dtype_message() -> Seq<char> {
    "Indices are not of uint32 type"@
}

/// The message for a fill value that is not a scalar.
pub open spec fn full_value_message() -> Seq<char> {
    "full takes a scalar value"@
}

impl NdArray {
    /// The description of a new array of zeros; see [`zeros`].
    pub fn new(shape: Vec<u32>, dtype: Dtype) -> (filled: Filled)
        requires
            shape@.len() <= u16::MAX,
            shape_product(shape@) <= u32::MAX,
        ensures
            filled.array.wf(),
            filled.array.shape@ == shape@,
            filled.array.dtype == dtype,
            filled.value == ScalarValue::spec_zero(dtype),
            filled.len == shape_product(shape@),
            filled.cast is None,
    {
        zeros(shape, Some(dtype))
    }

    /// The array of the elements of this one at the positions that `indices`
    /// holds: it has one axis, as long as `indices` has elements, and this
    /// array's element kind.
    ///
    /// The positions must be unsigned 32-bit integers, and no axis can be
    /// given.
    pub fn take(&self, indices: &NdArray, axis: Option<u32>) -> (res: NdArrayResult<Self>)
        requires
            shape_product(indices.shape@) <= u32::MAX,
        ensures
            match res {
                Ok(taken) => {
                    &&& axis is None
                    &&& indices.dtype == Dtype::UInt32
                    &&& taken.shape@ == seq![indices.spec_len() as u32]
                    &&& taken.dims == 1
                    &&& taken.dtype == self.dtype
                },
                Err(NdArrayError::SliceError(message)) => axis is Some && message@
                    == take_axis_message(),
                Err(NdArrayError::DtypeError(message)) => axis is None && indices.dtype
                    != Dtype::UInt32 && message@ == take_dtype_message(),
                Err(_) => false,
            },
    {
        if axis.is_some() {
            Err(NdArrayError::SliceError("take along an axis is not supported".to_string()))
        } else if indices.dtype != Dtype::UInt32 {
            Err(NdArrayError::DtypeError("Indices are not of uint32 type".to_string()))
        } else {
            let mut shape: Vec<u32> = Vec::new();
            shape.push(indices.len());
            Ok(Self { shape, dims: 1, dtype: self.dtype })
        }
    }
}

/// The description of an array filled with one value.
///
/// The value must be a scalar. The array has the element kind of the value,
/// or, where another kind is asked for, that kind after a cast.
pub fn full(shape: Vec<u32>, value: Operand<'_>, dtype: Option<Dtype>) -> (res: NdArrayResult<
    Filled,
>)
    requires
        shape@.len() <= u16::MAX,
        shape_product(shape@) <= u32::MAX,
    ensures
        match res {
            Ok(filled) => {
                &&& value matches Operand::Scalar(scalar)
                &&& filled.array.wf()
                &&& filled.array.shape@ == shape@
                &&& filled.value == scalar
                &&& filled.len == shape_product(shape@)
                &&& filled.array.dtype == (match dtype {
                    Some(asked) => asked,
                    None => scalar.spec_dtype(),
                })
                &&& filled.cast == (match dtype {
                    Some(asked) => if asked != scalar.spec_dtype() {
                        Some(asked)
                    } else {
                        None
                    },
                    None => None,
                })
            },
            Err(NdArrayError::DtypeError(message)) => !(value is Scalar) && message@
                == full_value_message(),
            Err(_) => false,
        },
{
    match value {
        Operand::Scalar(value) => {
            let dims = shape.len() as u16;
            let len = match shape_count(shape.as_slice()) {
                Some(count) => count as usize,
                None => 0,
            };
            let own = value.dtype();
            let (cast, dtype) = match dtype {
                Some(asked) => if asked != own {
                    (Some(asked), asked)
                } else {
                    (None, own)
                },
                None => (None, own),
            };
            Ok(Filled { array: NdArray { shape, dims, dtype }, value, len, cast })
        },
        _ => Err(NdArrayError::DtypeError("full takes a scalar value".to_string())),
    }
}

/// The description of an array of zeros, of 32-bit floats unless another
/// element kind is asked for.
pub fn zeros(shape: Vec<u32>, dtype: Option<Dtype>) -> (filled: Filled)
    requires
        shape@.len() <= u16::MAX,
        shape_product(shape@) <= u32::MAX,
    ensures
        filled.array.wf(),
        filled.array.shape@ == shape@,
        filled.array.dtype == (match dtype {
            Some(asked) => asked,
            None => Dtype::Float32,
        }),
        filled.value == ScalarValue::spec_zero(filled.array.dtype),
        filled.len == shape_product(shape@),
        filled.cast is None,
{
    let dtype = match dtype {
        Some(asked) => asked,
        None => Dtype::Float32,
    };
    let dims = shape.len() as u16;
    let len = match shape_count(shape.as_slice()) {
        Some(count) => count as usize,
        None => 0,
    };
    Filled {
        array: NdArray { shape, dims, dtype },
        value: ScalarValue::zero(&dtype),
        len,
        cast: None,
    }
}

/// The description of an array of ones, of 32-bit floats unless another
/// element kind is asked for.
pub fn ones(shape: Vec<u32>, dtype: Option<Dtype>) -> (filled: Filled)
    requires
        shape@.len() <= u16::MAX,
        shape_product(shape@) <= u32::MAX,
    ensures
        filled.array.wf(),
        filled.array.shape@ == shape@,
        filled.array.dtype == (match dtype {
            Some(asked) => asked,
            None => Dtype::Float32,
        }),
        filled.value == ScalarValue::spec_one(filled.array.dtype),
        filled.len == shape_product(shape@),
        filled.cast is None,
{
    let dtype = match dtype {
        Some(asked) => asked,
        None => Dtype::Float32,
    };
    let dims = shape.len() as u16;
    let len = match shape_count(shape.as_slice()) {
        Some(count) => count as usize,
        None => 0,
    };
    Filled {
        array: NdArray { shape, dims, dtype },
        value: ScalarValue::one(&dtype),
        len,
        cast: None,
    }
}

impl NdArray {
    /// The same elements as one run: a single axis that holds them all.
    pub fn flatten(&self) -> (flat: Self)
        requires
            shape_product(self.shape@) <= u32::MAX,
        ensures
            flat.shape@ == seq![shape_product(self.shape@) as u32],
            flat.dims == 1,
            flat.dtype == self.dtype,
    {
        let count = match shape_count(self.shape.as_slice()) {
            Some(count) => count,
            None => 0,
        };
        let mut shape: Vec<u32> = Vec::new();
        shape.push(count);
        Self { shape, dims: 1, dtype: self.dtype }
    }

    /// The same elements laid out in another shape. The shape is taken as it
    /// is given: that it addresses as many elements as the array has is for
    /// the caller to see to.
    pub fn reshape(&self, shape: Vec<u32>) -> (reshaped: Self)
        requires
            shape@.len() <= u16::MAX,
        ensures
            reshaped.shape@ == shape@,
            reshaped.dims as int == shape@.len(),
            reshaped.dtype == self.dtype,
    {
        let dims = shape.len() as u16;
        Self { shape, dims, dtype: self.dtype }
    }
}

/// Whether the library describes arrays of this shape: it has no more axes
/// than the rank counter holds and addresses no more positions than an index
/// can name.
pub fn shape_fits(shape: &[u32]) -> (fits: bool)
    ensures
        fits == (shape@.len() <= u16::MAX && shape_product(shape@) <= u32::MAX),
{
    shape.len() <= u16::MAX as usize && shape_count(shape).is_some()
}

impl NdArray {
    /// Whether the description is in step with itself; see [`wf`](Self::wf).
    pub fn is_wf(&self) -> (ok: bool)
        ensures
            ok == self.wf(),
    {
        self.dims as usize == self.shape.len() && shape_count(self.shape.as_slice()).is_some()
    }
}

} // verus!
