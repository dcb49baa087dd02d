use vstd::prelude::*;

use crate::ndarray::NdArray;
use crate::types::Dtype;

verus! {

/// The bit pattern of the 32-bit float 0.0.
pub const F32_ZERO_BITS: u32 = 0;

/// The bit pattern of the 32-bit float 1.0.
pub const F32_ONE_BITS: u32 = 0x3f80_0000;

/// One element of some kind. A 32-bit float is held by its bit pattern.
#[derive(Debug)]
pub enum ScalarValue {
    F32(u32),
    U32(u32),
    U16(u16),
    U8(u8),
    I32(i32),
    I16(i16),
    I8(i8),
    BOOL(bool),
}

impl ScalarValue {
    /// The element kind of the value.
    pub open spec fn spec_dtype(&self) -> Dtype {
        match *self {
            ScalarValue::F32(_) => Dtype::Float32,
            ScalarValue::U32(_) => Dtype::UInt32,
            ScalarValue::U16(_) => Dtype::UInt16,
            ScalarValue::U8(_) => Dtype::UInt8,
            ScalarValue::I32(_) => Dtype::Int32,
            ScalarValue::I16(_) => Dtype::Int16,
            ScalarValue::I8(_) => Dtype::Int8,
            ScalarValue::BOOL(_) => Dtype::Bool,
        }
    }

    /// The zero of an element kind; `false` for booleans.
    pub open spec fn spec_zero(dtype: Dtype) -> ScalarValue {
        match dtype {
            Dtype::Int8 => ScalarValue::I8(0),
            Dtype::Int16 => ScalarValue::I16(0),
            Dtype::Int32 => ScalarValue::I32(0),
            Dtype::UInt8 => ScalarValue::U8(0),
            Dtype::UInt16 => ScalarValue::U16(0),
            Dtype::UInt32 => ScalarValue::U32(0),
            Dtype::Float32 => ScalarValue::F32(F32_ZERO_BITS),
            Dtype::Bool => ScalarValue::BOOL(false),
        }
    }

    /// The one of an element kind; `true` for booleans.
    pub open spec fn spec_one(dtype: Dtype) -> ScalarValue {
        match dtype {
            Dtype::Int8 => ScalarValue::I8(1),
            Dtype::Int16 => ScalarValue::I16(1),
            Dtype::Int32 => ScalarValue::I32(1),
            Dtype::UInt8 => ScalarValue::U8(1),
            Dtype::UInt16 => ScalarValue::U16(1),
            Dtype::UInt32 => ScalarValue::U32(1),
            Dtype::Float32 => ScalarValue::F32(F32_ONE_BITS),
            Dtype::Bool => ScalarValue::BOOL(true),
        }
    }

    /// The zero of an element kind.
    pub fn zero(dtype: &Dtype) -> (value: Self)
        ensures
            value == Self::spec_zero(*dtype),
            value.spec_dtype() == *dtype,
    {
        match *dtype {
            Dtype::Int8 => ScalarValue::I8(0),
            Dtype::Int16 => ScalarValue::I16(0),
            Dtype::Int32 => ScalarValue::I32(0),
            Dtype::UInt8 => ScalarValue::U8(0),
            Dtype::UInt16 => ScalarValue::U16(0),
            Dtype::UInt32 => ScalarValue::U32(0),
            Dtype::Float32 => ScalarValue::F32(F32_ZERO_BITS),
            Dtype::Bool => ScalarValue::BOOL(false),
        }
    }

    /// The one of an element kind.
    pub fn one(dtype: &Dtype) -> (value: Self)
        ensures
            value == Self::spec_one(*dtype),
            value.spec_dtype() == *dtype,
    {
        match *dtype {
            Dtype::Int8 => ScalarValue::I8(1),
            Dtype::Int16 => ScalarValue::I16(1),
            Dtype::Int32 => ScalarValue::I32(1),
            Dtype::UInt8 => ScalarValue::U8(1),
            Dtype::UInt16 => ScalarValue::U16(1),
            Dtype::UInt32 => ScalarValue::U32(1),
            Dtype::Float32 => ScalarValue::F32(F32_ONE_BITS),
            Dtype::Bool => ScalarValue::BOOL(true),
        }
    }

    /// The element kind of the value.
    pub fn dtype(&self) -> (dtype: Dtype)
        ensures
            dtype == self.spec_dtype(),
    {
        match self {
            ScalarValue::F32(_) => Dtype::Float32,
            ScalarValue::U32(_) => Dtype::UInt32,
            ScalarValue::U16(_) => Dtype::UInt16,
            ScalarValue::U8(_) => Dtype::UInt8,
            ScalarValue::I32(_) => Dtype::Int32,
            ScalarValue::I16(_) => Dtype::Int16,
            ScalarValue::I8(_) => Dtype::Int8,
            ScalarValue::BOOL(_) => Dtype::Bool,
        }
    }
}

/// A borrowed run of host elements of one kind. 32-bit floats are held by
/// their bit patterns.
#[derive(Debug)]
pub enum ScalarArrayRef<'a> {
    F32ARRAY(&'a [u32]),
    U32ARRAY(&'a [u32]),
    U16ARRAY(&'a [u16]),
    U8ARRAY(&'a [u8]),
    I32ARRAY(&'a [i32]),
    I16ARRAY(&'a [i16]),
    I8ARRAY(&'a [i8]),
    BOOLARRAY(&'a [bool]),
}

impl<'a> ScalarArrayRef<'a> {
    /// The element kind of the run.
    pub open spec fn spec_dtype(&self) -> Dtype {
        match *self {
            ScalarArrayRef::F32ARRAY(_) => Dtype::Float32,
            ScalarArrayRef::U32ARRAY(_) => Dtype::UInt32,
            ScalarArrayRef::U16ARRAY(_) => Dtype::UInt16,
            ScalarArrayRef::U8ARRAY(_) => Dtype::UInt8,
            ScalarArrayRef::I32ARRAY(_) => Dtype::Int32,
            ScalarArrayRef::I16ARRAY(_) => Dtype::Int16,
            ScalarArrayRef::I8ARRAY(_) => Dtype::Int8,
            ScalarArrayRef::BOOLARRAY(_) => Dtype::Bool,
        }
    }

    /// The number of elements in the run.
    pub open spec fn spec_len(&self) -> nat {
        match *self {
            ScalarArrayRef::F32ARRAY(x) => x@.len(),
            ScalarArrayRef::U32ARRAY(x) => x@.len(),
            ScalarArrayRef::U16ARRAY(x) => x@.len(),
            ScalarArrayRef::U8ARRAY(x) => x@.len(),
            ScalarArrayRef::I32ARRAY(x) => x@.len(),
            ScalarArrayRef::I16ARRAY(x) => x@.len(),
            ScalarArrayRef::I8ARRAY(x) => x@.len(),
            ScalarArrayRef::BOOLARRAY(x) => x@.len(),
        }
    }

    /// The element kind of the run.
    pub fn dtype(&self) -> (dtype: Dtype)
        ensures
            dtype == self.spec_dtype(),
    {
        match self {
            ScalarArrayRef::F32ARRAY(_) => Dtype::Float32,
            ScalarArrayRef::U32ARRAY(_) => Dtype::UInt32,
            ScalarArrayRef::U16ARRAY(_) => Dtype::UInt16,
            ScalarArrayRef::U8ARRAY(_) => Dtype::UInt8,
            ScalarArrayRef::I32ARRAY(_) => Dtype::Int32,
            ScalarArrayRef::I16ARRAY(_) => Dtype::Int16,
            ScalarArrayRef::I8ARRAY(_) => Dtype::Int8,
            ScalarArrayRef::BOOLARRAY(_) => Dtype::Bool,
        }
    }
}

/// What an operation can be handed as an input.
#[derive(Debug)]
pub enum Operand<'a> {
    Scalar(ScalarValue),
    ScalarArrayRef(ScalarArrayRef<'a>),
    NdArrayRef(&'a NdArray),
}

impl<'a> Operand<'a> {
    /// The array an operand refers to; scalars and host runs are not arrays.
    pub fn into_nd_array(&self) -> (array: Option<&NdArray>)
        ensures
            array == match *self {
                Operand::NdArrayRef(x) => Some(x),
                _ => None::<&NdArray>,
            },
    {
        match self {
            Operand::Scalar(_) => None,
            Operand::ScalarArrayRef(_) => None,
            Operand::NdArrayRef(x) => Some(*x),
        }
    }
}

impl From<u32> for ScalarValue {
    fn from(value: u32) -> (scalar: Self) {
        Self::U32(value)
    }
}

impl vstd::std_specs::convert::FromSpecImpl<u32> for ScalarValue {
    open spec fn obeys_from_spec() -> bool {
        true
    }

    open spec fn from_spec(value: u32) -> Self {
        Self::U32(value)
    }
}

impl From<u16> for ScalarValue {
    fn from(value: u16) -> (scalar: Self) {
        Self::U16(value)
    }
}

impl vstd::std_specs::convert::FromSpecImpl<u16> for ScalarValue {
    open spec fn obeys_from_spec() -> bool {
        true
    }

    open spec fn from_spec(value: u16) -> Self {
        Self::U16(value)
    }
}

impl From<u8> for ScalarValue {
    fn from(value: u8) -> (scalar: Self) {
        Self::U8(value)
    }
}

impl vstd::std_specs::convert::FromSpecImpl<u8> for ScalarValue {
    open spec fn obeys_from_spec() -> bool {
        true
    }

    open spec fn from_spec(value: u8) -> Self {
        Self::U8(value)
    }
}

impl From<i32> for ScalarValue {
    fn from(value: i32) -> (scalar: Self) {
        Self::I32(value)
    }
}

impl vstd::std_specs::convert::FromSpecImpl<i32> for ScalarValue {
    open spec fn obeys_from_spec() -> bool {
        true
    }

    open spec fn from_spec(value: i32) -> Self {
        Self::I32(value)
    }
}

impl From<i16> for ScalarValue {
    fn from(value: i16) -> (scalar: Self) {
        Self::I16(value)
    }
}

impl vstd::std_specs::convert::FromSpecImpl<i16> for ScalarValue {
    open spec fn obeys_from_spec() -> bool {
        true
    }

    open spec fn from_spec(value: i16) -> Self {
        Self::I16(value)
    }
}

impl From<i8> for ScalarValue {
    fn from(value: i8) -> (scalar: Self) {
        Self::I8(value)
    }
}

impl vstd::std_specs::convert::FromSpecImpl<i8> for ScalarValue {
    open spec fn obeys_from_spec() -> bool {
        true
    }

    open spec fn from_spec(value: i8) -> Self {
        Self::I8(value)
    }
}

impl From<bool> for ScalarValue {
    fn from(value: bool) -> (scalar: Self) {
        Self::BOOL(value)
    }
}

impl vstd::std_specs::convert::FromSpecImpl<bool> for ScalarValue {
    open spec fn obeys_from_spec() -> bool {
        true
    }

    open spec fn from_spec(value: bool) -> Self {
        Self::BOOL(value)
    }
}

impl<'a> From<&'a [i32]> for ScalarArrayRef<'a> {
    fn from(value: &'a [i32]) -> (run: Self) {
        ScalarArrayRef::I32ARRAY(value)
    }
}

impl<'a> vstd::std_specs::convert::FromSpecImpl<&'a [i32]> for ScalarArrayRef<'a> {
    open spec fn obeys_from_spec() -> bool {
        true
    }

    open spec fn from_spec(value: &'a [i32]) -> Self {
        ScalarArrayRef::I32ARRAY(value)
    }
}

impl<'a> From<&'a [i16]> for ScalarArrayRef<'a> {
    fn from(value: &'a [i16]) -> (run: Self) {
        ScalarArrayRef::I16ARRAY(value)
    }
}

impl<'a> vstd::std_specs::convert::FromSpecImpl<&'a [i16]> for ScalarArrayRef<'a> {
    open spec fn obeys_from_spec() -> bool {
        true
    }

    open spec fn from_spec(value: &'a [i16]) -> Self {
        ScalarArrayRef::I16ARRAY(value)
    }
}

impl<'a> From<&'a [i8]> for ScalarArrayRef<'a> {
    fn from(value: &'a [i8]) -> (run: Self) {
        ScalarArrayRef::I8ARRAY(value)
    }
}

impl<'a> vstd::std_specs::convert::FromSpecImpl<&'a [i8]> for ScalarArrayRef<'a> {
    open spec fn obeys_from_spec() -> bool {
        true
    }

    open spec fn from_spec(value: &'a [i8]) -> Self {
        ScalarArrayRef::I8ARRAY(value)
    }
}

impl<'a> From<&'a [u32]> for ScalarArrayRef<'a> {
    fn from(value: &'a [u32]) -> (run: Self) {
        ScalarArrayRef::U32ARRAY(value)
    }
}

impl<'a> vstd::std_specs::convert::FromSpecImpl<&'a [u32]> for ScalarArrayRef<'a> {
    open spec fn obeys_from_spec() -> bool {
        true
    }

    open spec fn from_spec(value: &'a [u32]) -> Self {
        ScalarArrayRef::U32ARRAY(value)
    }
}

impl<'a> From<&'a [u16]> for ScalarArrayRef<'a> {
    fn from(value: &'a [u16]) -> (run: Self) {
        ScalarArrayRef::U16ARRAY(value)
    }
}

impl<'a> vstd::std_specs::convert::FromSpecImpl<&'a [u16]> for ScalarArrayRef<'a> {
    open spec fn obeys_from_spec() -> bool {
        true
    }

    open spec fn from_spec(value: &'a [u16]) -> Self {
        ScalarArrayRef::U16ARRAY(value)
    }
}

impl<'a> From<&'a [u8]> for ScalarArrayRef<'a> {
    fn from(value: &'a [u8]) -> (run: Self) {
        ScalarArrayRef::U8ARRAY(value)
    }
}

impl<'a> vstd::std_specs::convert::FromSpecImpl<&'a [u8]> for ScalarArrayRef<'a> {
    open spec fn obeys_from_spec() -> bool {
        true
    }

    open spec fn from_spec(value: &'a [u8]) -> Self {
        ScalarArrayRef::U8ARRAY(value)
    }
}

impl<'a> From<&'a [bool]> for ScalarArrayRef<'a> {
    fn from(value: &'a [bool]) -> (run: Self) {
        ScalarArrayRef::BOOLARRAY(value)
    }
}

impl<'a> vstd::std_specs::convert::FromSpecImpl<&'a [bool]> for ScalarArrayRef<'a> {
    open spec fn obeys_from_spec() -> bool {
        true
    }

    open spec fn from_spec(value: &'a [bool]) -> Self {
        ScalarArrayRef::BOOLARRAY(value)
    }
}

impl<'a> From<ScalarArrayRef<'a>> for Operand<'a> {
    fn from(value: ScalarArrayRef<'a>) -> (operand: Self) {
        Operand::ScalarArrayRef(value)
    }
}

impl<'a> vstd::std_specs::convert::FromSpecImpl<ScalarArrayRef<'a>> for Operand<'a> {
    open spec fn obeys_from_spec() -> bool {
        true
    }

    open spec fn from_spec(value: ScalarArrayRef<'a>) -> Self {
        Operand::ScalarArrayRef(value)
    }
}

impl<'a> From<ScalarValue> for Operand<'a> {
    fn from(value: ScalarValue) -> (operand: Self) {
        Operand::Scalar(value)
    }
}

impl<'a> vstd::std_specs::convert::FromSpecImpl<ScalarValue> for Operand<'a> {
    open spec fn obeys_from_spec() -> bool {
        true
    }

    open spec fn from_spec(value: ScalarValue) -> Self {
        Operand::Scalar(value)
    }
}

impl<'a> From<&'a NdArray> for Operand<'a> {
    fn from(value: &'a NdArray) -> (operand: Self) {
        Operand::NdArrayRef(value)
    }
}

impl<'a> vstd::std_specs::convert::FromSpecImpl<&'a NdArray> for Operand<'a> {
    open spec fn obeys_from_spec() -> bool {
        true
    }

    open spec fn from_spec(value: &'a NdArray) -> Self {
        Operand::NdArrayRef(value)
    }
}

impl<'a> From<&'a ScalarValue> for Dtype {
    fn from(value: &'a ScalarValue) -> (dtype: Self) {
        value.dtype()
    }
}

impl<'a> vstd::std_specs::convert::FromSpecImpl<&'a ScalarValue> for Dtype {
    open spec fn obeys_from_spec() -> bool {
        true
    }

    open spec fn from_spec(value: &'a ScalarValue) -> Self {
        value.spec_dtype()
    }
}

} // verus!
