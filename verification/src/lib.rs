//! Shape, broadcast and slice algebra of an n-dimensional array whose element
//! buffers live on a compute device.
//!
//! The library describes arrays by shape, rank and element kind, and plans
//! every operation on them: the shape and element kind of the result, and
//! the positions of the buffers that its elements are read from or written
//! to. The device side performs the plans.

pub mod array_routines;
pub mod dtype_py;
pub mod errors;
pub mod logical;
pub mod math;
pub mod ndarray;
pub mod operand;
pub mod random;
pub mod selection;
pub mod shape;
pub mod text;
pub mod types;
pub mod ufunc;
pub mod utils;

pub use array_routines::{
    arange, arange_op, broadcast_if_required, broadcast_input, broadcast_shape, broadcast_shapes,
    broadcast_to, broadcast_to_op, check_broadcast_fits, check_expands_to, check_repeat_fits,
    check_stack_fits,
    check_where_fits, dstack, generate_repeat_indexes, generate_repeat_shape, recast_shape,
    repeat, shape_to_indexes, validate_and_genereate_new_shapes, where_, Arange, Put, Stacked,
    WhereInputs,
};
pub use dtype_py::DtypePy;
pub use errors::{NdArrayError, NdArrayResult};
pub use logical::any;
pub use math::{
    check_clip_fits, clip, cos_types, cross, cross_launch, sin_types, ClipInputs, CrossLaunch,
    CrossProduct,
};
pub use ndarray::{full, ones, shape_fits, zeros, Filled, Gathered, NdArray};
pub use operand::{Operand, ScalarArrayRef, ScalarValue};
pub use random::{
    iota_op, threefry2x32_block, threefry2x32_op, threefry_dispatch_size, Generator, RandomFloats,
    ThreeFry2x32,
};
pub use types::{
    Dtype, IndexSlice, IndexSliceIter, IndexSliceOp, IntoIndexSliceOp, OperandType, UfuncType,
};
pub use ufunc::{
    check_mask, finish_ufunc, ufunc_nin1_nout1, ufunc_nin2_nout1, KernelOutput, MaskMerge,
    UfuncOutput, UfuncStep,
};
pub use utils::Holder;
