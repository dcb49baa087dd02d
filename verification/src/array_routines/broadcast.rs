use vstd::prelude::*;
use vstd::string::*;

use crate::errors::{error_view, NdArrayError, NdArrayErrorView, NdArrayResult};
use crate::ndarray::{
    gather, gathered_result_view, identity_indexes, lemma_gather_identity,
    optional_gathered_view, same_shape, Gathered, NdArray,
};
use crate::shape::{
    all_positive, lemma_product_positive, lemma_product_zero, lemma_suffix_product_le,
    shape_count, shape_product,
};
use crate::text::{shape_text, shape_to_text};

verus! {

/// The size that `shape` has at `axis` once it is right-aligned in `rank`
/// axes: its own size where it has an axis there, 1 where it has none.
pub open spec fn aligned_size(shape: Seq<u32>, rank: int, axis: int) -> u32 {
    if axis >= rank - shape.len() {
        shape[axis - (rank - shape.len())]
    } else {
        1
    }
}

/// The size two aligned sizes broadcast to: the common one when they are
/// equal, the other one when one of them is 1, none otherwise.
pub open spec fn broadcast_size(x: u32, y: u32) -> Option<u32> {
    if x == y {
        Some(x)
    } else if x == 1 {
        Some(y)
    } else if y == 1 {
        Some(x)
    } else {
        None
    }
}

/// The rank of the shape two shapes broadcast to: the larger of their ranks.
pub open spec fn broadcast_rank(x: Seq<u32>, y: Seq<u32>) -> int {
    if x.len() >= y.len() {
        x.len() as int
    } else {
        y.len() as int
    }
}

/// The two shapes can be reconciled: every pair of aligned sizes broadcasts.
pub open spec fn broadcastable(x: Seq<u32>, y: Seq<u32>) -> bool {
    forall|axis: int|
        0 <= axis < broadcast_rank(x, y) ==> (#[trigger] broadcast_size(
            aligned_size(x, broadcast_rank(x, y), axis),
            aligned_size(y, broadcast_rank(x, y), axis),
        )) is Some
}

/// The shape two reconcilable shapes broadcast to.
pub open spec fn spec_broadcast_shape(x: Seq<u32>, y: Seq<u32>) -> Seq<u32> {
    Seq::new(
        broadcast_rank(x, y) as nat,
        |axis: int|
            broadcast_size(
                aligned_size(x, broadcast_rank(x, y), axis),
                aligned_size(y, broadcast_rank(x, y), axis),
            ).unwrap(),
    )
}

/// The message for two shapes that cannot be reconciled.
pub open spec fn broadcast_message(x: Seq<u32>, y: Seq<u32>) -> Seq<char> {
    "Cannot broadcast shapes "@ + shape_text(x) + ", "@ + shape_text(y)
}

/// What `broadcast_shape` returns.
pub open spec fn broadcast_shape_outcome(x: Seq<u32>, y: Seq<u32>) -> Result<
    Seq<u32>,
    NdArrayErrorView,
> {
    if broadcastable(x, y) {
        Ok(spec_broadcast_shape(x, y))
    } else {
        Err(NdArrayErrorView::Broadcast(broadcast_message(x, y)))
    }
}

/// A shape, or the error by its kind and text.
pub open spec fn shape_result_view(res: NdArrayResult<Vec<u32>>) -> Result<
    Seq<u32>,
    NdArrayErrorView,
> {
    match res {
        Ok(shape) => Ok(shape@),
        Err(error) => Err(error_view(error)),
    }
}

fn broadcast_error(x: &[u32], y: &[u32]) -> (error: NdArrayError)
    ensures
        error_view(error) == NdArrayErrorView::Broadcast(broadcast_message(x@, y@)),
{
    let mut message = String::from_str("Cannot broadcast shapes ");
    let first = shape_to_text(x);
    message.append(first.as_str());
    message.append(", ");
    let second = shape_to_text(y);
    message.append(second.as_str());
    NdArrayError::BroadcastError(message)
}

/// The shape that `x` and `y` broadcast to.
///
/// The shapes are right-aligned, the shorter one padded with 1s on the left.
/// Each pair of aligned sizes gives the common size when the two are equal and
/// the other size when one of them is 1. Any other pair makes the call fail
/// with a `BroadcastError` that names both shapes.
pub fn broadcast_shape(x: &[u32], y: &[u32]) -> (res: NdArrayResult<Vec<u32>>)
    ensures
        shape_result_view(res) == broadcast_shape_outcome(x@, y@),
{
    let rank = if x.len() >= y.len() { x.len() } else { y.len() };
    let mut new_shape: Vec<u32> = Vec::new();
    let mut axis: usize = 0;
    while axis < rank
        invariant
            axis <= rank,
            rank == broadcast_rank(x@, y@),
            new_shape@.len() == axis,
            forall|a: int|
                0 <= a < axis ==> (#[trigger] broadcast_size(
                    aligned_size(x@, rank as int, a),
                    aligned_size(y@, rank as int, a),
                )) == Some(new_shape@[a]),
        decreases rank - axis,
    {
        let v1: u32 = if axis >= rank - x.len() { x[axis - (rank - x.len())] } else { 1 };
        let v2: u32 = if axis >= rank - y.len() { y[axis - (rank - y.len())] } else { 1 };
        if v1 == v2 {
            new_shape.push(v1);
        } else if v1 == 1 {
            new_shape.push(v2);
        } else if v2 == 1 {
            new_shape.push(v1);
        } else {
            proof {
                assert(broadcast_size(
                    aligned_size(x@, rank as int, axis as int),
                    aligned_size(y@, rank as int, axis as int),
                ) is None);
            }
            return Err(broadcast_error(x, y));
        }
        axis += 1;
    }
    proof {
        assert(new_shape@ =~= spec_broadcast_shape(x@, y@));
    }
    Ok(new_shape)
}

/// The message for a list of fewer than two shapes.
pub open spec fn too_few_shapes_message() -> Seq<char> {
    "cannot broadcast shapes array of length less than 2"@
}

/// What `broadcast_shapes` returns: the left fold of `broadcast_shape` over
/// the list.
pub open spec fn broadcast_shapes_outcome(shapes: Seq<Seq<u32>>) -> Result<
    Seq<u32>,
    NdArrayErrorView,
>
    decreases shapes.len(),
{
    if shapes.len() < 2 {
        Err(NdArrayErrorView::Broadcast(too_few_shapes_message()))
    } else if shapes.len() == 2 {
        broadcast_shape_outcome(shapes[0], shapes[1])
    } else {
        match broadcast_shapes_outcome(shapes.drop_last()) {
            Ok(folded) => broadcast_shape_outcome(folded, shapes.last()),
            Err(error) => Err(error),
        }
    }
}

/// The shapes of a list, each by its sizes.
pub open spec fn shapes_view(shapes: &[&[u32]]) -> Seq<Seq<u32>> {
    Seq::new(shapes@.len(), |i: int| shapes@[i]@)
}

/// The shape that all the shapes of a list broadcast to, folding
/// `broadcast_shape` over the list from the left. A list of fewer than two
/// shapes is refused.
pub fn broadcast_shapes(shapes: &[&[u32]]) -> (res: NdArrayResult<Vec<u32>>)
    ensures
        shape_result_view(res) == broadcast_shapes_outcome(shapes_view(shapes)),
{
    if shapes.len() < 2 {
        Err(
            NdArrayError::BroadcastError(
                "cannot broadcast shapes array of length less than 2".to_string(),
            ),
        )
    } else {
        let ghost all = shapes_view(shapes);
        proof {
            assert(all.take(2) =~= seq![all[0], all[1]]);
        }
        let mut new_shape = match broadcast_shape(shapes[0], shapes[1]) {
            Ok(shape) => shape,
            Err(error) => {
                proof {
                    lemma_broadcast_shapes_failure(all, 2);
                }
                return Err(error);
            },
        };
        let mut i: usize = 2;
        while i < shapes.len()
            invariant
                2 <= i <= shapes.len(),
                all == shapes_view(shapes),
                broadcast_shapes_outcome(all.take(i as int)) == Ok::<Seq<u32>, NdArrayErrorView>(
                    new_shape@,
                ),
            decreases shapes.len() - i,
        {
            proof {
                assert(all.take(i as int + 1).drop_last() =~= all.take(i as int));
                assert(all.take(i as int + 1).last() == shapes@[i as int]@);
            }
            new_shape = match broadcast_shape(new_shape.as_slice(), shapes[i]) {
                Ok(shape) => shape,
                Err(error) => {
                    proof {
                        lemma_broadcast_shapes_failure(all, i as int + 1);
                    }
                    return Err(error);
                },
            };
            i += 1;
        }
        proof {
            assert(all.take(i as int) =~= all);
        }
        Ok(new_shape)
    }
}

/// Once a prefix of the list fails to broadcast, the whole list fails with
/// the same error.
pub proof fn lemma_broadcast_shapes_failure(shapes: Seq<Seq<u32>>, prefix: int)
    requires
        2 <= prefix <= shapes.len(),
        broadcast_shapes_outcome(shapes.take(prefix)) is Err,
    ensures
        broadcast_shapes_outcome(shapes) == broadcast_shapes_outcome(shapes.take(prefix)),
    decreases shapes.len() - prefix,
{
    if prefix == shapes.len() {
        assert(shapes.take(prefix) =~= shapes);
    } else {
        assert(shapes.take(prefix + 1).drop_last() =~= shapes.take(prefix));
        lemma_broadcast_shapes_failure(shapes, prefix + 1);
    }
}

/// An array of shape `from` can be read as one of shape `to`: it has no more
/// axes, and each of its sizes is the size `to` has at the aligned axis, or 1.
pub open spec fn expands_to(from: Seq<u32>, to: Seq<u32>) -> bool {
    &&& from.len() <= to.len()
    &&& forall|axis: int|
        0 <= axis < from.len() ==> from[axis] == #[trigger] to[axis + (to.len() - from.len())]
            || from[axis] == 1
}

/// The position, in an array of shape `from`, of the element that stands at
/// position `k` of its broadcast to shape `to`. Both positions are row-major.
///
/// Position `k` is split into its coordinate along the leading axis of `to`
/// and its position within the trailing axes. The coordinate counts, with
/// the source's own stride, where the source has that axis in the same size;
/// where the source lacks the axis or has it in size 1, it does not count.
pub open spec fn source_index(to: Seq<u32>, from: Seq<u32>, k: int) -> int
    decreases to.len(),
{
    if to.len() == 0 {
        0
    } else {
        let inner = shape_product(to.drop_first()) as int;
        if from.len() == to.len() {
            let own = if from[0] == to[0] {
                (k / inner) * shape_product(from.drop_first())
            } else {
                0
            };
            own + source_index(to.drop_first(), from.drop_first(), k % inner)
        } else {
            source_index(to.drop_first(), from, k % inner)
        }
    }
}

/// The gather-index sequence of a broadcast: for each position of the
/// target, in row-major order, the source position to read.
pub open spec fn broadcast_indexes(to: Seq<u32>, from: Seq<u32>) -> Seq<u32> {
    Seq::new(shape_product(to), |k: int| source_index(to, from, k) as u32)
}

/// `count` copies of `block`, one after another, the `p`-th copy raised by
/// `p * stride`.
pub open spec fn replicated(block: Seq<u32>, count: nat, stride: nat) -> Seq<u32> {
    Seq::new(
        count * block.len(),
        |k: int| (block[k % (block.len() as int)] + (k / (block.len() as int)) * stride) as u32,
    )
}

/// A shape that addresses at least one position has no empty axis.
pub proof fn lemma_nonzero_product_all_positive(shape: Seq<u32>)
    requires
        shape_product(shape) > 0,
    ensures
        all_positive(shape),
{
    assert forall|axis: int| 0 <= axis < shape.len() implies shape[axis] >= 1 by {
        if shape[axis] == 0 {
            lemma_product_zero(shape, axis);
        }
    }
}

/// Dropping the leading axis of the target keeps the source readable as the
/// target: without its own leading axis where the ranks agree, whole where
/// the source has fewer axes.
pub proof fn lemma_expands_to_rest(from: Seq<u32>, to: Seq<u32>)
    requires
        expands_to(from, to),
        to.len() > 0,
    ensures
        from.len() == to.len() ==> expands_to(from.drop_first(), to.drop_first()) && (from[0]
            == to[0] || from[0] == 1),
        from.len() < to.len() ==> expands_to(from, to.drop_first()),
{
    let rest = to.drop_first();
    if from.len() == to.len() {
        let inner = from.drop_first();
        assert forall|axis: int| 0 <= axis < inner.len() implies inner[axis] == #[trigger] rest[axis
            + (rest.len() - inner.len())] || inner[axis] == 1 by {
            assert(inner[axis] == from[axis + 1]);
            assert(rest[axis] == to[axis + 1 + (to.len() - from.len())]);
        }
        assert(to[0] == to[0 + (to.len() - from.len())]);
    } else {
        assert forall|axis: int| 0 <= axis < from.len() implies from[axis] == #[trigger] rest[axis
            + (rest.len() - from.len())] || from[axis] == 1 by {
            assert(rest[axis + (rest.len() - from.len())] == to[axis + (to.len() - from.len())]);
        }
    }
}

/// Every gather index of a broadcast addresses an element of the source.
pub proof fn lemma_source_index_bound(to: Seq<u32>, from: Seq<u32>, k: int)
    requires
        expands_to(from, to),
        0 <= k < shape_product(to),
    ensures
        0 <= source_index(to, from, k) < shape_product(from),
    decreases to.len(),
{
    if to.len() == 0 {
        assert(from =~= Seq::<u32>::empty());
    } else {
        let rest = to.drop_first();
        let inner = shape_product(rest) as int;
        let head = to[0] as int;
        assert(inner > 0 && head > 0) by (nonlinear_arith)
            requires
                0 <= k < head * inner,
                0 <= inner,
                0 <= head,
        ;
        let c = k / inner;
        let r = k % inner;
        vstd::arithmetic::div_mod::lemma_fundamental_div_mod(k, inner);
        vstd::arithmetic::div_mod::lemma_mod_bound(k, inner);
        assert(0 <= c < head) by (nonlinear_arith)
            requires
                k == inner * c + r,
                0 <= r < inner,
                0 <= k < head * inner,
        ;
        lemma_expands_to_rest(from, to);
        if from.len() == to.len() {
            let source_rest = from.drop_first();
            lemma_source_index_bound(rest, source_rest, r);
            let below = source_index(rest, source_rest, r);
            let block = shape_product(source_rest) as int;
            if from[0] == to[0] {
                assert(0 <= c * block + below < head * block) by (nonlinear_arith)
                    requires
                        0 <= c < head,
                        0 <= below < block,
                ;
            } else {
                assert(1 * block == block) by (nonlinear_arith);
            }
        } else {
            lemma_source_index_bound(rest, from, r);
        }
    }
}

/// Broadcasting a shape to itself reads every element from its own place.
pub proof fn lemma_source_index_identity(shape: Seq<u32>, k: int)
    requires
        0 <= k < shape_product(shape),
    ensures
        source_index(shape, shape, k) == k,
    decreases shape.len(),
{
    if shape.len() > 0 {
        let rest = shape.drop_first();
        let inner = shape_product(rest) as int;
        let head = shape[0] as int;
        assert(inner > 0) by (nonlinear_arith)
            requires
                0 <= k < head * inner,
                0 <= inner,
                0 <= head,
        ;
        vstd::arithmetic::div_mod::lemma_fundamental_div_mod(k, inner);
        vstd::arithmetic::div_mod::lemma_mod_bound(k, inner);
        lemma_source_index_identity(rest, k % inner);
        assert((k / inner) * inner == inner * (k / inner)) by (nonlinear_arith);
    } else {
        assert(shape_product(shape) == 1);
    }
}

/// The gather indexes for a target are those for its trailing axes, once for
/// each position along the leading axis: raised by the position times the
/// source's stride where the source has the axis in the same size, unchanged
/// where it lacks the axis or has it in size 1.
pub proof fn lemma_broadcast_indexes_unfold(to: Seq<u32>, from: Seq<u32>)
    requires
        expands_to(from, to),
        to.len() > 0,
        all_positive(to),
        shape_product(to) <= u32::MAX,
    ensures
        from.len() == to.len() && from[0] == to[0] ==> broadcast_indexes(to, from) == replicated(
            broadcast_indexes(to.drop_first(), from.drop_first()),
            to[0] as nat,
            shape_product(from.drop_first()),
        ),
        from.len() == to.len() && from[0] != to[0] ==> broadcast_indexes(to, from) == replicated(
            broadcast_indexes(to.drop_first(), from.drop_first()),
            to[0] as nat,
            0,
        ),
        from.len() < to.len() ==> broadcast_indexes(to, from) == replicated(
            broadcast_indexes(to.drop_first(), from),
            to[0] as nat,
            0,
        ),
{
    let rest = to.drop_first();
    let inner = shape_product(rest) as int;
    let head = to[0] as nat;
    lemma_suffix_product_le(to, 1);
    assert(to.skip(1) =~= rest);
    lemma_expands_to_rest(from, to);
    let aligned = from.len() == to.len();
    let source_rest = if aligned { from.drop_first() } else { from };
    let stride: nat = if aligned && from[0] == to[0] {
        shape_product(from.drop_first())
    } else {
        0
    };
    lemma_suffix_source_le(from, to);
    lemma_suffix_source_le(source_rest, rest);
    let block = broadcast_indexes(rest, source_rest);
    let whole = broadcast_indexes(to, from);
    let copies = replicated(block, head, stride);
    assert(block.len() == inner);
    assert(shape_product(to) == head * shape_product(rest));
    assert(whole.len() == copies.len());
    assert forall|k: int| 0 <= k < whole.len() implies whole[k] == copies[k] by {
        let c = k / inner;
        let r = k % inner;
        vstd::arithmetic::div_mod::lemma_mod_bound(k, inner);
        lemma_source_index_bound(rest, source_rest, r);
        lemma_source_index_bound(to, from, k);
        let below = source_index(rest, source_rest, r);
        assert(block[r] == below);
        assert(c * 0 == 0) by (nonlinear_arith);
        assert(source_index(to, from, k) == c * stride + below);
        assert(copies[k] == (block[r] + c * stride) as u32);
    }
    assert(whole =~= copies);
}

/// A source that can be read as a target without empty axes has no empty
/// axis either and addresses no more positions than the target.
pub proof fn lemma_suffix_source_le(from: Seq<u32>, to: Seq<u32>)
    requires
        expands_to(from, to),
        all_positive(to),
    ensures
        all_positive(from),
        1 <= shape_product(from) <= shape_product(to),
    decreases to.len(),
{
    assert forall|axis: int| 0 <= axis < from.len() implies from[axis] >= 1 by {
        assert(from[axis] == to[axis + (to.len() - from.len())] || from[axis] == 1);
    }
    lemma_product_positive(from);
    lemma_product_positive(to);
    if to.len() > 0 {
        let rest = to.drop_first();
        lemma_expands_to_rest(from, to);
        lemma_suffix_product_le(to, 1);
        assert(to.skip(1) =~= rest);
        if from.len() == to.len() {
            lemma_suffix_source_le(from.drop_first(), rest);
            let a = shape_product(from.drop_first());
            let b = shape_product(rest);
            let x = from[0] as nat;
            let y = to[0] as nat;
            assert(x * a <= y * b) by (nonlinear_arith)
                requires
                    a <= b,
                    x <= y,
            ;
        } else {
            lemma_suffix_source_le(from, rest);
        }
    } else {
        assert(from =~= Seq::<u32>::empty());
    }
}

/// `count` copies of `block`, the `p`-th raised by `p * stride`.
fn replicate(block: &Vec<u32>, count: u32, stride: u32) -> (copies: Vec<u32>)
    requires
        block@.len() > 0,
        count * block@.len() <= u32::MAX,
        forall|q: int| 0 <= q < block@.len() ==> block@[q] + count * stride <= u32::MAX + stride,
    ensures
        copies@ == replicated(block@, count as nat, stride as nat),
{
    let len = block.len();
    let mut copies: Vec<u32> = Vec::new();
    let mut p: u32 = 0;
    while p < count
        invariant
            len == block@.len(),
            len > 0,
            p <= count,
            count * len <= u32::MAX,
            forall|q: int| 0 <= q < len ==> block@[q] + count * stride <= u32::MAX + stride,
            copies@.len() == p * len,
            forall|k: int|
                0 <= k < copies@.len() ==> copies@[k] == block@[k % (len as int)] + (k / (
                len as int)) * stride,
        decreases count - p,
    {
        let mut q: usize = 0;
        while q < len
            invariant
                len == block@.len(),
                len > 0,
                q <= len,
                p < count,
                count * len <= u32::MAX,
                forall|q: int| 0 <= q < len ==> block@[q] + count * stride <= u32::MAX + stride,
                copies@.len() == p * len + q,
                forall|k: int|
                    0 <= k < copies@.len() ==> copies@[k] == block@[k % (len as int)] + (k / (
                    len as int)) * stride,
            decreases len - q,
        {
            proof {
                assert(p * stride + stride <= count * stride) by (nonlinear_arith)
                    requires
                        p < count,
                        0 <= stride,
                ;
                assert(0 <= p * stride) by (nonlinear_arith)
                    requires
                        0 <= p,
                        0 <= stride,
                ;
                assert(p * len + q < count * len) by (nonlinear_arith)
                    requires
                        p < count,
                        q < len,
                ;
                vstd::arithmetic::div_mod::lemma_fundamental_div_mod_converse(
                    p * len + q,
                    len as int,
                    p as int,
                    q as int,
                );
            }
            let raised: u64 = block[q] as u64 + (p as u64) * (stride as u64);
            copies.push(raised as u32);
            q += 1;
        }
        proof {
            assert(p * len + len == (p + 1) * len) by (nonlinear_arith);
        }
        p += 1;
    }
    proof {
        assert(copies@ =~= replicated(block@, count as nat, stride as nat));
    }
    copies
}

/// The gather-index sequence that realises the broadcast of an array of
/// shape `from_shape` to shape `to_shape`: one source position for each
/// position of the target, in row-major order.
///
/// The sequence is built axis by axis from the trailing axis inward. It
/// starts as the single position 0. An axis that the source has in the same
/// size repeats the sequence once for each position along the axis, each
/// repetition raised by the position times the number of source elements
/// already covered. An axis that the source lacks, or has in size 1, repeats
/// the sequence unchanged.
pub fn shape_to_indexes(to_shape: &[u32], from_shape: &[u32]) -> (indexes: Vec<u32>)
    requires
        expands_to(from_shape@, to_shape@),
        shape_product(to_shape@) <= u32::MAX,
    ensures
        indexes@ == broadcast_indexes(to_shape@, from_shape@),
        forall|k: int| 0 <= k < indexes@.len() ==> indexes@[k] < shape_product(from_shape@),
{
    let ghost to = to_shape@;
    let ghost from = from_shape@;
    let total = shape_count(to_shape);
    if total == Some(0) {
        let empty: Vec<u32> = Vec::new();
        proof {
            assert(empty@ =~= broadcast_indexes(to, from));
        }
        return empty;
    }
    proof {
        lemma_nonzero_product_all_positive(to);
    }
    let rank = to_shape.len();
    let source_rank = from_shape.len();
    let mut indexes: Vec<u32> = Vec::new();
    indexes.push(0);
    let mut stride: u32 = 1;
    let mut done: usize = 0;
    proof {
        assert(to.skip(rank as int) =~= Seq::<u32>::empty());
        assert(from.skip(source_rank as int) =~= Seq::<u32>::empty());
        assert(indexes@ =~= broadcast_indexes(Seq::<u32>::empty(), Seq::<u32>::empty()));
    }
    while done < rank
        invariant
            to == to_shape@,
            from == from_shape@,
            rank == to.len(),
            source_rank == from.len(),
            expands_to(from, to),
            all_positive(to),
            shape_product(to) <= u32::MAX,
            done <= rank,
            indexes@ == broadcast_indexes(
                to.skip(rank - done),
                from.skip(if done <= source_rank { source_rank - done } else { 0 }),
            ),
            stride == shape_product(
                from.skip(if done <= source_rank { source_rank - done } else { 0 }),
            ),
        decreases rank - done,
    {
        let axis = rank - 1 - done;
        let size = to_shape[axis];
        let ghost target = to.skip(axis as int);
        let ghost target_rest = to.skip(axis as int + 1);
        let ghost source_before = from.skip(
            if done <= source_rank {
                source_rank - done
            } else {
                0
            },
        );
        let ghost source_after = from.skip(
            if done + 1 <= source_rank {
                source_rank - done - 1
            } else {
                0
            },
        );
        proof {
            assert(target.drop_first() =~= target_rest);
            assert(target[0] == size);
            lemma_suffix_product_le(to, axis as int);
            lemma_suffix_product_le(to, axis as int + 1);
            lemma_expands_to_suffix(from, to, done as int + 1);
            lemma_expands_to_suffix(from, to, done as int);
            lemma_suffix_source_le(source_after, target);
            lemma_suffix_source_le(source_before, target_rest);
            lemma_broadcast_indexes_unfold(target, source_after);
            if done < source_rank {
                assert(source_after.drop_first() =~= source_before);
                assert(source_after[0] == from[source_rank - done - 1]);
                assert(source_after.len() == target.len());
            } else {
                assert(source_after =~= source_before);
                assert(source_after.len() < target.len());
            }
            assert(indexes@.len() == shape_product(target_rest));
            assert(shape_product(target) == (size as nat) * shape_product(target_rest));
        }
        let matched = done < source_rank && from_shape[source_rank - 1 - done] == size;
        let raise: u32 = if matched { stride } else { 0 };
        proof {
            assert forall|q: int| 0 <= q < indexes@.len() implies indexes@[q] + size * raise
                <= u32::MAX + raise by {
                lemma_source_index_bound(target_rest, source_before, q);
                if matched {
                    assert(shape_product(source_after) == (size as nat) * (stride as nat));
                    assert(size * raise == (size as nat) * (stride as nat)) by (nonlinear_arith)
                        requires
                            raise == stride,
                    ;
                } else {
                    assert(size * raise == 0) by (nonlinear_arith)
                        requires
                            raise == 0,
                    ;
                }
            }
        }
        indexes = replicate(&indexes, size, raise);
        if done < source_rank {
            proof {
                assert(shape_product(source_after) == (from[source_rank - done - 1] as nat)
                    * shape_product(source_before));
            }
            stride = from_shape[source_rank - 1 - done] * stride;
        }
        done += 1;
    }
    proof {
        assert(to.skip(0) =~= to);
        assert(from.skip(0) =~= from);
        assert forall|k: int| 0 <= k < indexes@.len() implies indexes@[k] < shape_product(
            from,
        ) by {
            lemma_source_index_bound(to, from, k);
        }
    }
    indexes
}

/// The trailing axes of a source can be read as as many trailing axes of the
/// target; where the target run is longer than the source, the whole source
/// can.
pub proof fn lemma_expands_to_suffix(from: Seq<u32>, to: Seq<u32>, run: int)
    requires
        expands_to(from, to),
        0 <= run <= to.len(),
    ensures
        expands_to(from.skip(if run <= from.len() { from.len() - run } else { 0 }), to.skip(
            to.len() - run,
        )),
{
    let source = from.skip(if run <= from.len() { from.len() - run } else { 0 });
    let target = to.skip(to.len() - run);
    assert forall|axis: int| 0 <= axis < source.len() implies source[axis] == #[trigger] target[axis
        + (target.len() - source.len())] || source[axis] == 1 by {
        let whole_axis = axis + (from.len() - source.len());
        assert(source[axis] == from[whole_axis]);
        assert(target[axis + (target.len() - source.len())] == to[whole_axis + (to.len()
            - from.len())]);
    }
}

/// Each of two reconcilable shapes can be read as the shape they broadcast to.
pub proof fn lemma_broadcast_shape_expands(x: Seq<u32>, y: Seq<u32>)
    requires
        broadcastable(x, y),
    ensures
        expands_to(x, spec_broadcast_shape(x, y)),
        expands_to(y, spec_broadcast_shape(x, y)),
        spec_broadcast_shape(x, y).len() == broadcast_rank(x, y),
{
    let rank = broadcast_rank(x, y);
    let shape = spec_broadcast_shape(x, y);
    assert forall|axis: int| 0 <= axis < x.len() implies x[axis] == #[trigger] shape[axis + (
    shape.len() - x.len())] || x[axis] == 1 by {
        let a = axis + (rank - x.len());
        assert(broadcast_size(aligned_size(x, rank, a), aligned_size(y, rank, a)) is Some);
    }
    assert forall|axis: int| 0 <= axis < y.len() implies y[axis] == #[trigger] shape[axis + (
    shape.len() - y.len())] || y[axis] == 1 by {
        let a = axis + (rank - y.len());
        assert(broadcast_size(aligned_size(x, rank, a), aligned_size(y, rank, a)) is Some);
    }
}

/// The shape that two reconcilable shapes broadcast to has the larger of
/// their ranks, and at each axis the larger of the two aligned sizes, unless
/// the two are an empty axis and an axis of size 1: those give an empty axis.
pub proof fn lemma_broadcast_shape_is_max(x: Seq<u32>, y: Seq<u32>, axis: int)
    requires
        broadcastable(x, y),
        0 <= axis < broadcast_rank(x, y),
    ensures
        spec_broadcast_shape(x, y).len() == if x.len() >= y.len() {
            x.len()
        } else {
            y.len()
        },
        ({
            let a = aligned_size(x, broadcast_rank(x, y), axis);
            let b = aligned_size(y, broadcast_rank(x, y), axis);
            let size = spec_broadcast_shape(x, y)[axis];
            if (a == 0 && b == 1) || (a == 1 && b == 0) {
                size == 0
            } else {
                &&& (a == b || a == 1 || b == 1)
                &&& size == if a >= b {
                    a
                } else {
                    b
                }
            }
        }),
{
    let rank = broadcast_rank(x, y);
    assert(broadcast_size(aligned_size(x, rank, axis), aligned_size(y, rank, axis)) is Some);
}

/// Broadcasting is symmetric: the two shapes can be given in either order.
pub proof fn lemma_broadcast_shape_symmetric(x: Seq<u32>, y: Seq<u32>)
    ensures
        broadcastable(x, y) == broadcastable(y, x),
        broadcastable(x, y) ==> spec_broadcast_shape(x, y) == spec_broadcast_shape(y, x),
{
    let rank = broadcast_rank(x, y);
    assert(rank == broadcast_rank(y, x));
    if broadcastable(x, y) {
        assert forall|axis: int| 0 <= axis < rank implies (#[trigger] broadcast_size(
            aligned_size(y, rank, axis),
            aligned_size(x, rank, axis),
        )) is Some by {
            assert(broadcast_size(aligned_size(x, rank, axis), aligned_size(y, rank, axis))
                is Some);
        }
        assert forall|axis: int| 0 <= axis < rank implies spec_broadcast_shape(x, y)[axis]
            == spec_broadcast_shape(y, x)[axis] by {
            assert(broadcast_size(aligned_size(x, rank, axis), aligned_size(y, rank, axis))
                is Some);
        }
        assert(spec_broadcast_shape(x, y) =~= spec_broadcast_shape(y, x));
    }
    if broadcastable(y, x) {
        assert forall|axis: int| 0 <= axis < rank implies (#[trigger] broadcast_size(
            aligned_size(x, rank, axis),
            aligned_size(y, rank, axis),
        )) is Some by {
            assert(broadcast_size(aligned_size(y, rank, axis), aligned_size(x, rank, axis))
                is Some);
        }
    }
}

/// A shape broadcasts with itself to itself, and the gather indexes of that
/// broadcast are `0, 1, ..`: every element is read from its own place.
pub proof fn lemma_broadcast_to_own_shape(shape: Seq<u32>)
    requires
        shape_product(shape) <= u32::MAX,
    ensures
        broadcastable(shape, shape),
        spec_broadcast_shape(shape, shape) == shape,
        broadcast_indexes(shape, shape) == identity_indexes(shape_product(shape)),
{
    assert(spec_broadcast_shape(shape, shape) =~= shape);
    assert forall|k: int| 0 <= k < shape_product(shape) implies broadcast_indexes(shape, shape)[k]
        == identity_indexes(shape_product(shape))[k] by {
        lemma_source_index_identity(shape, k);
    }
    assert(broadcast_indexes(shape, shape) =~= identity_indexes(shape_product(shape)));
}

/// Broadcasting an array to its own shape gives its data back: the same
/// values in the same order.
pub proof fn lemma_broadcast_to_own_shape_keeps_data<T>(shape: Seq<u32>, data: Seq<T>)
    requires
        shape_product(shape) <= u32::MAX,
        data.len() == shape_product(shape),
    ensures
        gather(data, broadcast_indexes(spec_broadcast_shape(shape, shape), shape)) == data,
{
    lemma_broadcast_to_own_shape(shape);
    lemma_gather_identity(data);
}

/// What `broadcast_to_op` returns for an array of shape `from`, asked to take
/// shape `shape`: the shape of the result and its gather indexes, or the
/// broadcast error.
pub open spec fn broadcast_to_outcome(from: Seq<u32>, shape: Seq<u32>) -> Result<
    (Seq<u32>, Seq<u32>),
    NdArrayErrorView,
> {
    if broadcastable(from, shape) {
        Ok(
            (
                spec_broadcast_shape(from, shape),
                broadcast_indexes(spec_broadcast_shape(from, shape), from),
            ),
        )
    } else {
        Err(NdArrayErrorView::Broadcast(broadcast_message(from, shape)))
    }
}

/// The machine limits of a broadcast of shape `from` against `shape`: where
/// the two can be reconciled, the result has no more axes than the rank
/// counter holds and addresses no more positions than an index can name.
pub open spec fn broadcast_fits(from: Seq<u32>, shape: Seq<u32>) -> bool {
    broadcastable(from, shape) ==> broadcast_rank(from, shape) <= u16::MAX && shape_product(
        spec_broadcast_shape(from, shape),
    ) <= u32::MAX
}

/// Broadcasts an array against a shape.
///
/// The result has the shape that the array's shape and `shape` broadcast to,
/// and the array's element kind. Its elements are read from the array's
/// buffer at the gather indexes of the broadcast. Shapes that cannot be
/// reconciled give a `BroadcastError`.
pub fn broadcast_to_op(x: &NdArray, shape: &[u32]) -> (res: NdArrayResult<Gathered>)
    requires
        broadcast_fits(x.shape@, shape@),
    ensures
        gathered_result_view(res) == broadcast_to_outcome(x.shape@, shape@),
        res matches Ok(gathered) ==> {
            &&& gathered.array.wf()
            &&& gathered.array.dtype == x.dtype
            &&& forall|k: int|
                0 <= k < gathered.indexes@.len() ==> gathered.indexes@[k] < shape_product(
                    x.shape@,
                )
        },
{
    let broadcasted_shape = match broadcast_shape(x.shape.as_slice(), shape) {
        Ok(broadcasted_shape) => broadcasted_shape,
        Err(error) => {
            return Err(error);
        },
    };
    proof {
        lemma_broadcast_shape_expands(x.shape@, shape@);
    }
    let indexes = shape_to_indexes(broadcasted_shape.as_slice(), x.shape.as_slice());
    let dims = broadcasted_shape.len() as u16;
    Ok(Gathered { array: NdArray { shape: broadcasted_shape, dims, dtype: x.dtype }, indexes })
}

/// Broadcasts an array against a shape; see [`broadcast_to_op`].
pub fn broadcast_to(x: &NdArray, shape: &[u32]) -> (res: NdArrayResult<Gathered>)
    requires
        broadcast_fits(x.shape@, shape@),
    ensures
        gathered_result_view(res) == broadcast_to_outcome(x.shape@, shape@),
        res matches Ok(gathered) ==> {
            &&& gathered.array.wf()
            &&& gathered.array.dtype == x.dtype
            &&& forall|k: int|
                0 <= k < gathered.indexes@.len() ==> gathered.indexes@[k] < shape_product(
                    x.shape@,
                )
        },
{
    broadcast_to_op(x, shape)
}

/// How an input of shape `from` reaches a kernel that works on shape
/// `common`: as it is where it has that shape, else gathered to it.
pub open spec fn input_plan(from: Seq<u32>, common: Seq<u32>) -> Option<(Seq<u32>, Seq<u32>)> {
    if from == common {
        None
    } else {
        Some((common, broadcast_indexes(common, from)))
    }
}

/// What `broadcast_if_required` returns: nothing where the array has the
/// shape already, else what `broadcast_to_op` returns.
pub open spec fn broadcast_if_required_outcome(from: Seq<u32>, shape: Seq<u32>) -> Result<
    Option<(Seq<u32>, Seq<u32>)>,
    NdArrayErrorView,
> {
    if from == shape {
        Ok(None)
    } else {
        match broadcast_to_outcome(from, shape) {
            Ok(gathered) => Ok(Some(gathered)),
            Err(error) => Err(error),
        }
    }
}

/// An optional gathered array by what it says, or the error by its kind and
/// text.
pub open spec fn optional_gathered_result_view(res: NdArrayResult<Option<Gathered>>) -> Result<
    Option<(Seq<u32>, Seq<u32>)>,
    NdArrayErrorView,
> {
    match res {
        Ok(gathered) => Ok(optional_gathered_view(gathered)),
        Err(error) => Err(error_view(error)),
    }
}

/// Broadcasts an array to a shape unless it has that shape already: `None`
/// says that the array can be used as it is, which saves the gather.
pub fn broadcast_if_required(arr: &NdArray, broadcasted_shape: &[u32]) -> (res: NdArrayResult<
    Option<Gathered>,
>)
    requires
        broadcast_fits(arr.shape@, broadcasted_shape@),
    ensures
        optional_gathered_result_view(res) == broadcast_if_required_outcome(
            arr.shape@,
            broadcasted_shape@,
        ),
        res matches Ok(Some(gathered)) ==> {
            &&& gathered.array.wf()
            &&& gathered.array.dtype == arr.dtype
            &&& forall|k: int|
                0 <= k < gathered.indexes@.len() ==> gathered.indexes@[k] < shape_product(
                    arr.shape@,
                )
        },
{
    if !same_shape(arr.shape.as_slice(), broadcasted_shape) {
        match broadcast_to_op(arr, broadcasted_shape) {
            Ok(gathered) => Ok(Some(gathered)),
            Err(error) => Err(error),
        }
    } else {
        Ok(None)
    }
}

/// A shape that can be read as another broadcasts with it to that other.
pub proof fn lemma_expanded_broadcast(from: Seq<u32>, to: Seq<u32>)
    requires
        expands_to(from, to),
    ensures
        broadcastable(from, to),
        spec_broadcast_shape(from, to) == to,
{
    let rank = broadcast_rank(from, to);
    assert(rank == to.len());
    assert forall|axis: int| 0 <= axis < rank implies (#[trigger] broadcast_size(
        aligned_size(from, rank, axis),
        aligned_size(to, rank, axis),
    )) == Some(to[axis]) by {
        if axis >= rank - from.len() {
            let own = axis - (rank - from.len());
            assert(from[own] == to[own + (to.len() - from.len())] || from[own] == 1);
        }
    }
    assert(spec_broadcast_shape(from, to) =~= to);
}

/// What can be read as a shape can be read as any shape that shape can be
/// read as.
pub proof fn lemma_expands_to_transitive(from: Seq<u32>, middle: Seq<u32>, to: Seq<u32>)
    requires
        expands_to(from, middle),
        expands_to(middle, to),
    ensures
        expands_to(from, to),
{
    assert forall|axis: int| 0 <= axis < from.len() implies from[axis] == #[trigger] to[axis + (
    to.len() - from.len())] || from[axis] == 1 by {
        let between = axis + (middle.len() - from.len());
        assert(from[axis] == middle[between] || from[axis] == 1);
        assert(middle[between] == to[between + (to.len() - middle.len())] || middle[between]
            == 1);
    }
}

/// An input of a broadcast of several shapes, as the kernel is to see it:
/// gathered to the common shape, or as it is where it has that shape.
pub fn broadcast_input(arr: &NdArray, common: &[u32]) -> (input: Option<Gathered>)
    requires
        expands_to(arr.shape@, common@),
        common@.len() <= u16::MAX,
        shape_product(common@) <= u32::MAX,
    ensures
        optional_gathered_view(input) == input_plan(arr.shape@, common@),
        input matches Some(gathered) ==> {
            &&& gathered.array.wf()
            &&& gathered.array.shape@ == common@
            &&& gathered.array.dtype == arr.dtype
            &&& gathered.indexes@ == broadcast_indexes(common@, arr.shape@)
            &&& forall|k: int|
                0 <= k < gathered.indexes@.len() ==> gathered.indexes@[k] < shape_product(
                    arr.shape@,
                )
        },
{
    proof {
        lemma_expanded_broadcast(arr.shape@, common@);
    }
    match broadcast_if_required(arr, common) {
        Ok(input) => input,
        Err(_) => None,
    }
}

/// Every shape can be read as itself.
pub proof fn lemma_expands_to_self(shape: Seq<u32>)
    ensures
        expands_to(shape, shape),
{
}

/// Whether a broadcast of the two shapes stays within the machine limits;
/// see [`broadcast_fits`].
pub fn check_broadcast_fits(x: &[u32], y: &[u32]) -> (fits: bool)
    ensures
        fits == broadcast_fits(x@, y@),
{
    match broadcast_shape(x, y) {
        Ok(shape) => shape.len() <= u16::MAX as usize && shape_count(shape.as_slice()).is_some(),
        Err(_) => true,
    }
}

/// Whether an array of shape `from` can be read as one of shape `to`; see
/// [`expands_to`].
pub fn check_expands_to(from: &[u32], to: &[u32]) -> (expands: bool)
    ensures
        expands == expands_to(from@, to@),
{
    if from.len() > to.len() {
        return false;
    }
    let offset = to.len() - from.len();
    let mut axis: usize = 0;
    while axis < from.len()
        invariant
            axis <= from@.len(),
            from@.len() <= to@.len(),
            from@.len() == from.len(),
            to@.len() == to.len(),
            offset == to@.len() - from@.len(),
            forall|a: int|
                0 <= a < axis ==> from@[a] == #[trigger] to@[a + (to@.len() - from@.len())]
                    || from@[a] == 1,
        decreases from.len() - axis,
    {
        if from[axis] != to[axis + offset] && from[axis] != 1 {
            proof {
                assert(to@[axis as int + (to@.len() - from@.len())] == to@[axis + offset]);
            }
            return false;
        }
        axis += 1;
    }
    true
}

/// Right-aligned in more axes than its own, the shape that two shapes
/// broadcast to has at every axis the size that the two aligned sizes
/// broadcast to.
pub proof fn lemma_aligned_broadcast_size(x: Seq<u32>, y: Seq<u32>, rank: int, axis: int)
    requires
        broadcastable(x, y),
        broadcast_rank(x, y) <= rank,
        0 <= axis < rank,
    ensures
        broadcast_size(aligned_size(x, rank, axis), aligned_size(y, rank, axis)) == Some(
            aligned_size(spec_broadcast_shape(x, y), rank, axis),
        ),
{
    let own = broadcast_rank(x, y);
    let shape = spec_broadcast_shape(x, y);
    if axis >= rank - own {
        let a = axis - (rank - own);
        assert(broadcast_size(aligned_size(x, own, a), aligned_size(y, own, a)) is Some);
        assert(aligned_size(x, own, a) == aligned_size(x, rank, axis));
        assert(aligned_size(y, own, a) == aligned_size(y, rank, axis));
        assert(shape[a] == aligned_size(shape, rank, axis));
    }
}

/// Two shapes can be reconciled exactly when, right-aligned in any number
/// of axes that holds them both, every pair of aligned sizes broadcasts.
pub proof fn lemma_broadcastable_in(x: Seq<u32>, y: Seq<u32>, rank: int)
    requires
        broadcast_rank(x, y) <= rank,
    ensures
        broadcastable(x, y) <==> forall|axis: int|
            0 <= axis < rank ==> (#[trigger] broadcast_size(
                aligned_size(x, rank, axis),
                aligned_size(y, rank, axis),
            )) is Some,
{
    let own = broadcast_rank(x, y);
    if broadcastable(x, y) {
        assert forall|axis: int| 0 <= axis < rank implies (#[trigger] broadcast_size(
            aligned_size(x, rank, axis),
            aligned_size(y, rank, axis),
        )) is Some by {
            lemma_aligned_broadcast_size(x, y, rank, axis);
        }
    }
    if forall|axis: int|
        0 <= axis < rank ==> (#[trigger] broadcast_size(
            aligned_size(x, rank, axis),
            aligned_size(y, rank, axis),
        )) is Some {
        assert forall|a: int| 0 <= a < own implies (#[trigger] broadcast_size(
            aligned_size(x, own, a),
            aligned_size(y, own, a),
        )) is Some by {
            let axis = a + (rank - own);
            assert(broadcast_size(aligned_size(x, rank, axis), aligned_size(y, rank, axis))
                is Some);
            assert(aligned_size(x, own, a) == aligned_size(x, rank, axis));
            assert(aligned_size(y, own, a) == aligned_size(y, rank, axis));
        }
    }
}

/// Broadcasting is associative: three shapes reconcile the same way, and to
/// the same shape, whichever two are taken first.
pub proof fn lemma_broadcast_shape_associative(a: Seq<u32>, b: Seq<u32>, c: Seq<u32>)
    ensures
        (broadcastable(a, b) && broadcastable(spec_broadcast_shape(a, b), c)) == (broadcastable(
            b,
            c,
        ) && broadcastable(a, spec_broadcast_shape(b, c))),
        broadcastable(a, b) && broadcastable(spec_broadcast_shape(a, b), c)
            ==> spec_broadcast_shape(spec_broadcast_shape(a, b), c) == spec_broadcast_shape(
            a,
            spec_broadcast_shape(b, c),
        ),
{
    let ab = spec_broadcast_shape(a, b);
    let bc = spec_broadcast_shape(b, c);
    let rank = broadcast_rank(ab, c);
    assert(rank == broadcast_rank(a, bc));
    let left = broadcastable(a, b) && broadcastable(ab, c);
    let right = broadcastable(b, c) && broadcastable(a, bc);
    lemma_broadcastable_in(a, b, rank);
    lemma_broadcastable_in(b, c, rank);
    lemma_broadcastable_in(ab, c, rank);
    lemma_broadcastable_in(a, bc, rank);
    if left {
        assert forall|axis: int| 0 <= axis < rank implies (#[trigger] broadcast_size(
            aligned_size(b, rank, axis),
            aligned_size(c, rank, axis),
        )) is Some by {
            lemma_aligned_broadcast_size(a, b, rank, axis);
            assert(broadcast_size(aligned_size(ab, rank, axis), aligned_size(c, rank, axis))
                is Some);
        }
        assert(broadcastable(b, c));
        assert forall|axis: int| 0 <= axis < rank implies (#[trigger] broadcast_size(
            aligned_size(a, rank, axis),
            aligned_size(bc, rank, axis),
        )) is Some by {
            lemma_aligned_broadcast_size(a, b, rank, axis);
            lemma_aligned_broadcast_size(b, c, rank, axis);
            assert(broadcast_size(aligned_size(ab, rank, axis), aligned_size(c, rank, axis))
                is Some);
        }
        assert(right);
    }
    if right {
        assert forall|axis: int| 0 <= axis < rank implies (#[trigger] broadcast_size(
            aligned_size(a, rank, axis),
            aligned_size(b, rank, axis),
        )) is Some by {
            lemma_aligned_broadcast_size(b, c, rank, axis);
            assert(broadcast_size(aligned_size(a, rank, axis), aligned_size(bc, rank, axis))
                is Some);
        }
        assert(broadcastable(a, b));
        assert forall|axis: int| 0 <= axis < rank implies (#[trigger] broadcast_size(
            aligned_size(ab, rank, axis),
            aligned_size(c, rank, axis),
        )) is Some by {
            lemma_aligned_broadcast_size(a, b, rank, axis);
            lemma_aligned_broadcast_size(b, c, rank, axis);
            assert(broadcast_size(aligned_size(a, rank, axis), aligned_size(bc, rank, axis))
                is Some);
        }
        assert(left);
    }
    if left {
        let one = spec_broadcast_shape(ab, c);
        let other = spec_broadcast_shape(a, bc);
        assert forall|axis: int| 0 <= axis < rank implies one[axis] == other[axis] by {
            lemma_aligned_broadcast_size(a, b, rank, axis);
            lemma_aligned_broadcast_size(b, c, rank, axis);
            assert(broadcast_size(aligned_size(ab, rank, axis), aligned_size(c, rank, axis))
                is Some);
            assert(broadcast_size(aligned_size(a, rank, axis), aligned_size(bc, rank, axis))
                is Some);
        }
        assert(one =~= other);
    }
}

} // verus!
