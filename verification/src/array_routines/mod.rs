pub mod arange;
pub mod broadcast;
pub mod dstack;
pub mod repeat;
pub mod strides;
pub mod where_routine;

pub use arange::{arange, arange_op, Arange};
pub use broadcast::{
    broadcast_if_required, broadcast_input, broadcast_shape, broadcast_shapes, broadcast_to,
    broadcast_to_op, check_broadcast_fits, check_expands_to, shape_to_indexes,
};
pub use dstack::{
    check_stack_fits, dstack, recast_shape, validate_and_genereate_new_shapes, Put, Stacked,
};
pub use repeat::{check_repeat_fits, generate_repeat_indexes, generate_repeat_shape, repeat};
pub use where_routine::{check_where_fits, where_, WhereInputs};
