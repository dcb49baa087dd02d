use vstd::prelude::*;
use vstd::string::*;

use crate::errors::{NdArrayError, NdArrayResult};
use crate::ndarray::{copy_shape, identity_indexes, same_shape, zeros, Filled, NdArray};
use crate::operand::ScalarValue;
use crate::shape::{lemma_product_last, shape_count, shape_product};
use crate::text::{shape_text, shape_to_text};
use crate::types::Dtype;
use crate::errors::{error_view, NdArrayErrorView};

verus! {

/// One write into the buffer of a stacked array: the elements of an input at
/// `src_indexes` go to the positions `dst_indexes`, one for one.
#[derive(Debug)]
pub struct Put {
    pub src_indexes: Vec<u32>,
    pub dst_indexes: Vec<u32>,
}

/// A stacked array: the array of zeros that is allocated for it, and one
/// write for each input, in the order of the inputs.
#[derive(Debug)]
pub struct Stacked {
    pub array: Filled,
    pub puts: Vec<Put>,
}

/// A shape made fit for stacking along the third axis: a shape of two axes
/// gets a third one of size 1, any other shape stays.
pub open spec fn spec_recast_shape(shape: Seq<u32>) -> Seq<u32> {
    if shape.len() == 2 {
        shape.push(1)
    } else {
        shape
    }
}

/// A shape made fit for stacking along the third axis.
pub fn recast_shape(shape: &Vec<u32>) -> (new_shape: Vec<u32>)
    ensures
        new_shape@ == spec_recast_shape(shape@),
{
    if shape.len() == 2 {
        let mut new_shape = copy_shape(shape.as_slice());
        new_shape.push(1);
        new_shape
    } else {
        copy_shape(shape.as_slice())
    }
}

/// The message for two inputs of different shapes.
pub open spec fn stack_shapes_message(first: Seq<u32>, other: Seq<u32>) -> Seq<char> {
    "Cant dstack shapes "@ + shape_text(first) + " and "@ + shape_text(other)
}

/// The message for two inputs of different element kinds.
pub open spec fn stack_dtypes_message(first: Dtype, other: Dtype) -> Seq<char> {
    "Cant dstack dtypes "@ + first.spec_name() + " and "@ + other.spec_name()
}

/// Why the first `upto` inputs cannot be stacked, if they cannot: the first
/// input that differs from the first one in shape or, with the same shape, in
/// element kind.
pub open spec fn stack_refusal(tup: Seq<&NdArray>, upto: int) -> Option<NdArrayErrorView>
    decreases upto,
{
    if upto <= 1 {
        None
    } else {
        match stack_refusal(tup, upto - 1) {
            Some(refusal) => Some(refusal),
            None => {
                let other = tup[upto - 1];
                if tup[0].shape@ != other.shape@ {
                    Some(
                        NdArrayErrorView::Broadcast(
                            stack_shapes_message(tup[0].shape@, other.shape@),
                        ),
                    )
                } else if tup[0].dtype != other.dtype {
                    Some(
                        NdArrayErrorView::Dtype(stack_dtypes_message(tup[0].dtype, other.dtype)),
                    )
                } else {
                    None
                }
            },
        }
    }
}

/// Once an input is refused, the whole list is refused for the same reason.
pub proof fn lemma_stack_refusal_stays(tup: Seq<&NdArray>, upto: int, more: int)
    requires
        upto <= more,
        stack_refusal(tup, upto) is Some,
    ensures
        stack_refusal(tup, more) == stack_refusal(tup, upto),
    decreases more - upto,
{
    if upto < more {
        lemma_stack_refusal_stays(tup, upto, more - 1);
    }
}

/// Inputs that are not refused all have the shape and element kind of the
/// first.
pub proof fn lemma_stack_accepted(tup: Seq<&NdArray>, upto: int, i: int)
    requires
        stack_refusal(tup, upto) is None,
        0 <= i < upto,
    ensures
        tup[i].shape@ == tup[0].shape@,
        tup[i].dtype == tup[0].dtype,
    decreases upto,
{
    if i < upto - 1 {
        lemma_stack_accepted(tup, upto - 1, i);
    }
}

fn stack_shapes_error(first: &[u32], other: &[u32]) -> (error: NdArrayError)
    ensures
        error_view(error) == NdArrayErrorView::Broadcast(stack_shapes_message(first@, other@)),
{
    let mut message = String::from_str("Cant dstack shapes ");
    message.append(shape_to_text(first).as_str());
    message.append(" and ");
    message.append(shape_to_text(other).as_str());
    NdArrayError::BroadcastError(message)
}

fn stack_dtypes_error(first: Dtype, other: Dtype) -> (error: NdArrayError)
    ensures
        error_view(error) == NdArrayErrorView::Dtype(stack_dtypes_message(first, other)),
{
    let mut message = String::from_str("Cant dstack dtypes ");
    message.append(first.name());
    message.append(" and ");
    message.append(other.name());
    NdArrayError::DtypeError(message)
}

/// Checks that the inputs can be stacked, and gives the shape of each made
/// fit for stacking.
///
/// Every input must have the shape and the element kind of the first.
pub fn validate_and_genereate_new_shapes(tup: &[&NdArray]) -> (res: NdArrayResult<Vec<Vec<u32>>>)
    requires
        tup@.len() >= 1,
    ensures
        match res {
            Err(error) => stack_refusal(tup@, tup@.len() as int) == Some(error_view(error)),
            Ok(new_shapes) => {
                &&& stack_refusal(tup@, tup@.len() as int) is None
                &&& new_shapes@.len() == tup@.len()
                &&& forall|i: int|
                    0 <= i < tup@.len() ==> (#[trigger] new_shapes@[i])@ == spec_recast_shape(
                        tup@[i].shape@,
                    )
            },
        },
{
    let mut new_shapes: Vec<Vec<u32>> = Vec::new();
    new_shapes.push(recast_shape(&tup[0].shape));
    let mut i: usize = 1;
    while i < tup.len()
        invariant
            1 <= i <= tup@.len(),
            stack_refusal(tup@, i as int) is None,
            new_shapes@.len() == i,
            forall|a: int|
                0 <= a < i ==> (#[trigger] new_shapes@[a])@ == spec_recast_shape(tup@[a].shape@),
        decreases tup.len() - i,
    {
        if !same_shape(tup[0].shape.as_slice(), tup[i].shape.as_slice()) {
            proof {
                lemma_stack_refusal_stays(tup@, i as int + 1, tup@.len() as int);
            }
            return Err(stack_shapes_error(tup[0].shape.as_slice(), tup[i].shape.as_slice()));
        }
        if tup[0].dtype != tup[i].dtype {
            proof {
                lemma_stack_refusal_stays(tup@, i as int + 1, tup@.len() as int);
            }
            return Err(stack_dtypes_error(tup[0].dtype, tup[i].dtype));
        }
        new_shapes.push(recast_shape(&tup[i].shape));
        i += 1;
    }
    Ok(new_shapes)
}

/// The position, in the stacked buffer, of element `x` of input `k`, where
/// every input is `depth` deep along the stacking axis and there are
/// `inputs` of them: the element's row, stretched to the stacked depth, then
/// the input's own place within the row.
pub open spec fn stack_position(x: int, k: int, depth: int, inputs: int) -> int {
    (x / depth) * (inputs * depth) + k * depth + x % depth
}

/// The writes of the inputs into a stacked buffer never meet, and stay
/// within the buffer: different elements, or elements of different inputs,
/// go to different positions, all below the number of elements of the
/// stacked array.
pub proof fn lemma_stack_positions_disjoint(
    x: int,
    k: int,
    other_x: int,
    other_k: int,
    depth: int,
    inputs: int,
    rows: int,
)
    requires
        depth > 0,
        0 <= k < inputs,
        0 <= other_k < inputs,
        0 <= x < rows * depth,
        0 <= other_x < rows * depth,
    ensures
        0 <= stack_position(x, k, depth, inputs) < rows * depth * inputs,
        stack_position(x, k, depth, inputs) == stack_position(other_x, other_k, depth, inputs)
            ==> x == other_x && k == other_k,
{
    lemma_stack_position_parts(x, k, depth, inputs, rows);
    lemma_stack_position_parts(other_x, other_k, depth, inputs, rows);
    if stack_position(x, k, depth, inputs) == stack_position(other_x, other_k, depth, inputs) {
        vstd::arithmetic::div_mod::lemma_fundamental_div_mod(x, depth);
        vstd::arithmetic::div_mod::lemma_fundamental_div_mod(other_x, depth);
    }
}

/// A stacked position names its row, its input and its place within the
/// input: the three can be read back from it.
pub proof fn lemma_stack_position_parts(x: int, k: int, depth: int, inputs: int, rows: int)
    requires
        depth > 0,
        0 <= k < inputs,
        0 <= x < rows * depth,
    ensures
        0 <= stack_position(x, k, depth, inputs) < rows * depth * inputs,
        stack_position(x, k, depth, inputs) / (inputs * depth) == x / depth,
        (stack_position(x, k, depth, inputs) % (inputs * depth)) / depth == k,
        (stack_position(x, k, depth, inputs) % (inputs * depth)) % depth == x % depth,
{
    let row = x / depth;
    let place = x % depth;
    let stride = inputs * depth;
    vstd::arithmetic::div_mod::lemma_fundamental_div_mod(x, depth);
    vstd::arithmetic::div_mod::lemma_mod_bound(x, depth);
    assert(0 <= row < rows) by (nonlinear_arith)
        requires
            x == depth * row + place,
            0 <= place < depth,
            0 <= x < rows * depth,
    ;
    let within = k * depth + place;
    assert(0 <= within < stride) by (nonlinear_arith)
        requires
            0 <= k < inputs,
            0 <= place < depth,
            within == k * depth + place,
            stride == inputs * depth,
    ;
    assert(stride > 0);
    vstd::arithmetic::div_mod::lemma_fundamental_div_mod_converse(
        row * stride + within,
        stride,
        row,
        within,
    );
    vstd::arithmetic::div_mod::lemma_fundamental_div_mod_converse(within, depth, k, place);
    assert(0 <= row * stride + within < rows * depth * inputs) by (nonlinear_arith)
        requires
            0 <= row < rows,
            0 <= within < stride,
            stride == inputs * depth,
    ;
}

/// What the writes of a stack are: for input `k`, every element in order,
/// each to its stacked position.
pub open spec fn stack_put(put: Put, k: int, count: nat, depth: int, inputs: int) -> bool {
    &&& put.src_indexes@ == identity_indexes(count)
    &&& put.dst_indexes@ == Seq::new(
        count,
        |x: int| stack_position(x, k, depth, inputs) as u32,
    )
}

/// The shape of the stack of `inputs` arrays of shape `shape`: the shape made
/// fit for stacking, its last axis `inputs` times as deep.
pub open spec fn stacked_shape(shape: Seq<u32>, inputs: nat) -> Seq<u32> {
    let recast = spec_recast_shape(shape);
    recast.update(recast.len() - 1, (inputs * recast.last()) as u32)
}

/// The machine limits of a stack: the stacked shape has no more axes than
/// the rank counter holds and addresses no more positions than an index can
/// name.
pub open spec fn stack_fits(shape: Seq<u32>, inputs: nat) -> bool {
    &&& spec_recast_shape(shape).len() <= u16::MAX
    &&& inputs * spec_recast_shape(shape).last() <= u32::MAX
    &&& shape_product(shape) * inputs <= u32::MAX
}

/// Stacks arrays of one shape and element kind along their last axis, arrays
/// of two axes along a new third one.
///
/// The result is allocated as an array of zeros of the stacked shape. Each
/// input is then written into it: all its elements, in order, each to its
/// stacked position. The writes of different inputs never meet.
pub fn dstack(tup: &[&NdArray]) -> (res: NdArrayResult<Stacked>)
    requires
        tup@.len() >= 2,
        tup@[0].shape@.len() >= 1,
        stack_fits(tup@[0].shape@, tup@.len()),
    ensures
        match res {
            Err(error) => stack_refusal(tup@, tup@.len() as int) == Some(error_view(error)),
            Ok(stacked) => {
                let shape = tup@[0].shape@;
                let depth = spec_recast_shape(shape).last() as int;
                &&& stack_refusal(tup@, tup@.len() as int) is None
                &&& stacked.array.array.wf()
                &&& stacked.array.array.shape@ == stacked_shape(shape, tup@.len())
                &&& stacked.array.array.dtype == tup@[0].dtype
                &&& stacked.array.value == ScalarValue::spec_zero(tup@[0].dtype)
                &&& stacked.array.len == shape_product(shape) * tup@.len()
                &&& stacked.array.cast is None
                &&& stacked.puts@.len() == tup@.len()
                &&& forall|k: int|
                    0 <= k < tup@.len() ==> stack_put(
                        #[trigger] stacked.puts@[k],
                        k,
                        shape_product(shape),
                        depth,
                        tup@.len() as int,
                    )
            },
        },
{
    let new_shapes = match validate_and_genereate_new_shapes(tup) {
        Ok(new_shapes) => new_shapes,
        Err(error) => {
            return Err(error);
        },
    };
    let ghost shape = tup@[0].shape@;
    let ghost recast = spec_recast_shape(shape);
    let inputs = tup.len();
    let mut new_shape = copy_shape(new_shapes[0].as_slice());
    let shape_len = new_shape.len();
    let depth: u32 = new_shape[shape_len - 1];
    let last_dimension_size: u32 = (inputs as u64 * depth as u64) as u32;
    new_shape.set(shape_len - 1, last_dimension_size);
    proof {
        let elements = shape_product(shape);
        assert(elements <= u32::MAX) by (nonlinear_arith)
            requires
                elements * inputs <= u32::MAX,
                inputs >= 2,
        ;
    }
    let count: u32 = match shape_count(tup[0].shape.as_slice()) {
        Some(count) => count,
        None => 0,
    };
    proof {
        lemma_recast_product(shape);
        lemma_product_last(recast);
        lemma_product_last(new_shape@);
        assert(new_shape@.drop_last() =~= recast.drop_last());
        let lead = shape_product(recast.drop_last());
        assert(lead * ((inputs * depth) as nat) == (lead * (depth as nat)) * (inputs as nat))
            by (nonlinear_arith);
    }
    let array = zeros(new_shape, Some(tup[0].dtype));
    let mut puts: Vec<Put> = Vec::new();
    let mut last_dimension: u32 = 0;
    let mut k: usize = 0;
    while k < inputs
        invariant
            k <= inputs,
            inputs == tup@.len(),
            shape == tup@[0].shape@,
            recast == spec_recast_shape(shape),
            recast.len() > 0,
            depth == recast.last(),
            count == shape_product(shape),
            shape_product(shape) == shape_product(recast.drop_last()) * (depth as nat),
            last_dimension_size == inputs * depth,
            count * inputs <= u32::MAX,
            last_dimension == k * depth,
            puts@.len() == k,
            forall|a: int|
                0 <= a < k ==> stack_put(
                    #[trigger] puts@[a],
                    a,
                    count as nat,
                    depth as int,
                    inputs as int,
                ),
        decreases inputs - k,
    {
        let mut src_indexes: Vec<u32> = Vec::new();
        let mut dst_indexes: Vec<u32> = Vec::new();
        let mut x: u32 = 0;
        while x < count
            invariant
                x <= count,
                k < inputs,
                recast.len() > 0,
                depth == recast.last(),
                count == shape_product(recast.drop_last()) * (depth as nat),
                last_dimension_size == inputs * depth,
                count * inputs <= u32::MAX,
                last_dimension == k * depth,
                src_indexes@.len() == x,
                dst_indexes@.len() == x,
                forall|i: int| 0 <= i < x ==> src_indexes@[i] == i,
                forall|i: int|
                    0 <= i < x ==> dst_indexes@[i] == stack_position(
                        i,
                        k as int,
                        depth as int,
                        inputs as int,
                    ),
            decreases count - x,
        {
            proof {
                let rows = shape_product(recast.drop_last()) as int;
                assert(depth > 0) by (nonlinear_arith)
                    requires
                        x < count,
                        count == rows * depth,
                        rows >= 0,
                        depth >= 0,
                ;
                lemma_stack_position_parts(x as int, k as int, depth as int, inputs as int, rows);
                assert(rows * depth * inputs == count * inputs) by (nonlinear_arith)
                    requires
                        count == rows * depth,
                ;
                let row = (x / depth) as int;
                assert(0 <= row * (inputs * depth)) by (nonlinear_arith)
                    requires
                        0 <= row,
                        0 <= inputs * depth,
                ;
            }
            src_indexes.push(x);
            let row: u64 = (x / depth) as u64;
            let place: u64 = (x % depth) as u64;
            let position: u64 = row * (last_dimension_size as u64) + last_dimension as u64 + place;
            dst_indexes.push(position as u32);
            x += 1;
        }
        proof {
            assert(src_indexes@ =~= identity_indexes(count as nat));
            assert(dst_indexes@ =~= Seq::new(
                count as nat,
                |x: int| stack_position(x, k as int, depth as int, inputs as int) as u32,
            ));
            assert((k + 1) * depth == k * depth + depth) by (nonlinear_arith);
            assert(k * depth + depth <= inputs * depth) by (nonlinear_arith)
                requires
                    k < inputs,
                    depth >= 0,
            ;
        }
        puts.push(Put { src_indexes, dst_indexes });
        last_dimension = last_dimension + depth;
        k += 1;
    }
    Ok(Stacked { array, puts })
}

/// Making a shape fit for stacking does not change the number of its
/// elements.
pub proof fn lemma_recast_product(shape: Seq<u32>)
    ensures
        shape_product(spec_recast_shape(shape)) == shape_product(shape),
{
    if shape.len() == 2 {
        let recast = shape.push(1);
        lemma_product_last(recast);
        assert(recast.drop_last() =~= shape);
        assert(shape_product(shape) * 1 == shape_product(shape)) by (nonlinear_arith);
    }
}

/// Whether a stack of `inputs` arrays of shape `shape` stays within the
/// machine limits; see [`stack_fits`].
pub fn check_stack_fits(shape: &[u32], inputs: usize) -> (fits: bool)
    requires
        shape@.len() >= 1,
    ensures
        fits == stack_fits(shape@, inputs as nat),
{
    let rank = if shape.len() == 2 {
        3
    } else {
        shape.len()
    };
    let depth: u32 = if shape.len() == 2 {
        1
    } else {
        shape[shape.len() - 1]
    };
    proof {
        assert(spec_recast_shape(shape@).len() == rank);
        assert(spec_recast_shape(shape@).last() == depth);
    }
    if rank > u16::MAX as usize {
        return false;
    }
    proof {
        assert(inputs * depth <= 0xffff_ffff_ffff_ffff * 0xffff_ffff) by (nonlinear_arith)
            requires
                0 <= inputs <= 0xffff_ffff_ffff_ffff,
                0 <= depth <= 0xffff_ffff,
        ;
    }
    if inputs as u128 * depth as u128 > u32::MAX as u128 {
        return false;
    }
    match shape_count(shape) {
        Some(count) => {
            proof {
                assert(count * inputs <= 0xffff_ffff * 0xffff_ffff_ffff_ffff) by (nonlinear_arith)
                    requires
                        0 <= inputs <= 0xffff_ffff_ffff_ffff,
                        0 <= count <= 0xffff_ffff,
                ;
            }
            count as u128 * inputs as u128 <= u32::MAX as u128
        },
        None => {
            proof {
                let elements = shape_product(shape@);
                if inputs >= 1 {
                    assert(elements * inputs >= elements) by (nonlinear_arith)
                        requires
                            inputs >= 1,
                    ;
                } else {
                    assert(elements * inputs == 0) by (nonlinear_arith)
                        requires
                            inputs == 0,
                    ;
                }
            }
            inputs == 0
        },
    }
}

} // verus!
