use vstd::prelude::*;

use crate::array_routines::broadcast::{
    expands_to, lemma_expands_to_rest, lemma_nonzero_product_all_positive, source_index,
};
use crate::shape::{all_positive, lemma_suffix_product_le, shape_product};

verus! {

/// The coordinate along `axis` of position `k` of a row-major array of shape
/// `shape`.
pub open spec fn coordinate(shape: Seq<u32>, k: int, axis: int) -> int {
    (k / (shape_product(shape.skip(axis + 1)) as int)) % (shape[axis] as int)
}

/// The stride of `axis` in a row-major array of shape `shape`: the number of
/// positions that one step along the axis passes.
pub open spec fn stride(shape: Seq<u32>, axis: int) -> int {
    shape_product(shape.skip(axis + 1)) as int
}

/// What axis `axis` of the source adds to the source position of position `k`
/// of its broadcast to `to`: the coordinate of `k` along the aligned axis of
/// `to` times the stride of the axis, where the source has the axis in the
/// size of `to`; nothing, where it has the axis in size 1.
pub open spec fn strided_term(to: Seq<u32>, from: Seq<u32>, k: int, axis: int) -> int {
    let aligned = axis + (to.len() - from.len());
    if from[axis] == to[aligned] {
        coordinate(to, k, aligned) * stride(from, axis)
    } else {
        0
    }
}

/// The sum of what the first `axes` axes of the source add.
pub open spec fn strided_sum(to: Seq<u32>, from: Seq<u32>, k: int, axes: int) -> int
    decreases axes,
{
    if axes <= 0 {
        0
    } else {
        strided_sum(to, from, k, axes - 1) + strided_term(to, from, k, axes - 1)
    }
}

/// The source position that a strided view of the source, stretched to shape
/// `to`, reads for position `k`: every axis of the source adds its coordinate
/// times its stride, and a stretched axis adds nothing.
pub open spec fn strided_index(to: Seq<u32>, from: Seq<u32>, k: int) -> int {
    strided_sum(to, from, k, from.len() as int)
}

/// Below a multiple of `digits * place`, the digit of weight `place` is
/// what it is in the whole number.
pub proof fn lemma_digit_below(k: int, place: int, digits: int, above: int)
    requires
        0 <= k,
        0 < place,
        0 < digits,
        0 < above,
    ensures
        ((k % (above * digits * place)) / place) % digits == (k / place) % digits,
{
    let whole = above * digits * place;
    assert(whole > 0) by (nonlinear_arith)
        requires
            0 < place,
            0 < digits,
            0 < above,
            whole == above * digits * place,
    ;
    let a = k / whole;
    let r = k % whole;
    vstd::arithmetic::div_mod::lemma_fundamental_div_mod(k, whole);
    let j = above * digits * a;
    assert(k == r + j * place) by (nonlinear_arith)
        requires
            k == whole * a + r,
            whole == above * digits * place,
            j == above * digits * a,
    ;
    vstd::arithmetic::div_mod::lemma_hoist_over_denominator(r, j, place as nat);
    assert(k / place == r / place + j);
    let turns = above * a;
    assert(j == digits * turns) by (nonlinear_arith)
        requires
            j == above * digits * a,
            turns == above * a,
    ;
    vstd::arithmetic::div_mod::lemma_mod_multiples_vanish(turns, r / place, digits);
}

/// The coordinate along the leading axis is the number of whole blocks of
/// trailing axes before the position.
pub proof fn lemma_coordinate_lead(shape: Seq<u32>, k: int)
    requires
        shape.len() > 0,
        0 <= k < shape_product(shape),
    ensures
        coordinate(shape, k, 0) == k / (shape_product(shape.drop_first()) as int),
{
    let inner = shape_product(shape.drop_first()) as int;
    let head = shape[0] as int;
    assert(shape.skip(1) =~= shape.drop_first());
    assert(inner > 0 && head > 0) by (nonlinear_arith)
        requires
            0 <= k < head * inner,
            0 <= inner,
            0 <= head,
    ;
    let c = k / inner;
    let r = k % inner;
    vstd::arithmetic::div_mod::lemma_fundamental_div_mod(k, inner);
    vstd::arithmetic::div_mod::lemma_mod_bound(k, inner);
    assert(0 <= c < head) by (nonlinear_arith)
        requires
            k == inner * c + r,
            0 <= r < inner,
            0 <= k < head * inner,
    ;
    vstd::arithmetic::div_mod::lemma_small_mod(c as nat, head as nat);
}

/// The coordinate along any axis but the leading one is the coordinate,
/// within the trailing axes, of the position within its block.
pub proof fn lemma_coordinate_rest(shape: Seq<u32>, k: int, axis: int)
    requires
        1 <= axis < shape.len(),
        0 <= k,
        all_positive(shape),
    ensures
        coordinate(shape, k, axis) == coordinate(
            shape.drop_first(),
            k % (shape_product(shape.drop_first()) as int),
            axis - 1,
        ),
{
    let rest = shape.drop_first();
    let inner = shape_product(rest) as int;
    let place = shape_product(shape.skip(axis + 1)) as int;
    let digits = shape[axis] as int;
    let lead = rest.take(axis - 1);
    let above = shape_product(lead) as int;
    assert(rest.skip(axis) =~= shape.skip(axis + 1));
    assert(rest[axis - 1] == shape[axis]);
    lemma_suffix_product_le(shape, axis + 1);
    lemma_suffix_product_le(shape, 1);
    assert(shape.skip(1) =~= rest);
    assert(all_positive(lead)) by {
        assert forall|a: int| 0 <= a < lead.len() implies lead[a] >= 1 by {
            assert(lead[a] == shape[a + 1]);
        }
    }
    crate::shape::lemma_product_positive(lead);
    let tail = rest.skip(axis - 1);
    assert(lead + tail =~= rest);
    crate::shape::lemma_product_concat(lead, tail);
    assert(tail.drop_first() =~= rest.skip(axis));
    assert(tail[0] == shape[axis]);
    assert(shape_product(tail) == (digits as nat) * (place as nat));
    assert(inner == above * digits * place) by (nonlinear_arith)
        requires
            inner == above * (digits * place),
    ;
    lemma_digit_below(k, place, digits, above);
}

/// What the source axes add for a target is what they add for its trailing
/// axes, at the position within the block; where the source has the leading
/// axis too, that axis adds its own term on top.
pub proof fn lemma_strided_sum_rest(to: Seq<u32>, from: Seq<u32>, k: int, axes: int)
    requires
        expands_to(from, to),
        to.len() > 0,
        all_positive(to),
        0 <= k,
        0 <= axes,
    ensures
        from.len() < to.len() && axes <= from.len() ==> strided_sum(to, from, k, axes)
            == strided_sum(
            to.drop_first(),
            from,
            k % (shape_product(to.drop_first()) as int),
            axes,
        ),
        from.len() == to.len() && axes + 1 <= from.len() ==> strided_sum(to, from, k, axes + 1)
            == strided_term(to, from, k, 0) + strided_sum(
            to.drop_first(),
            from.drop_first(),
            k % (shape_product(to.drop_first()) as int),
            axes,
        ),
    decreases axes,
{
    let rest = to.drop_first();
    let inner = shape_product(rest) as int;
    if axes > 0 {
        lemma_strided_sum_rest(to, from, k, axes - 1);
        if from.len() < to.len() && axes <= from.len() {
            let axis = axes - 1;
            let aligned = axis + (to.len() - from.len());
            lemma_coordinate_rest(to, k, aligned);
            assert(rest[aligned - 1] == to[aligned]);
        }
        if from.len() == to.len() && axes + 1 <= from.len() {
            let inner_from = from.drop_first();
            let axis = axes;
            lemma_coordinate_rest(to, k, axis);
            assert(inner_from[axis - 1] == from[axis]);
            assert(rest[axis - 1] == to[axis]);
            assert(inner_from.skip(axis) =~= from.skip(axis + 1));
            assert(strided_term(to, from, k, axis) == strided_term(
                rest,
                inner_from,
                k % inner,
                axis - 1,
            ));
        }
    } else {
        if from.len() == to.len() && 1 <= from.len() {
            assert(strided_sum(to, from, k, 0) == 0);
        }
    }
}

/// The gather indexes of a broadcast are the addresses of a strided view:
/// every source position is the sum, over the axes of the source, of the
/// coordinate along the axis times the stride of the axis, where stretched
/// axes count for nothing.
pub proof fn lemma_source_index_is_strided(to: Seq<u32>, from: Seq<u32>, k: int)
    requires
        expands_to(from, to),
        0 <= k < shape_product(to),
    ensures
        source_index(to, from, k) == strided_index(to, from, k),
    decreases to.len(),
{
    if to.len() == 0 {
        assert(from =~= Seq::<u32>::empty());
    } else {
        lemma_nonzero_product_all_positive(to);
        let rest = to.drop_first();
        let inner = shape_product(rest) as int;
        lemma_suffix_product_le(to, 1);
        assert(to.skip(1) =~= rest);
        vstd::arithmetic::div_mod::lemma_mod_bound(k, inner);
        lemma_expands_to_rest(from, to);
        if from.len() == to.len() {
            lemma_source_index_is_strided(rest, from.drop_first(), k % inner);
            lemma_strided_sum_rest(to, from, k, from.len() - 1);
            lemma_coordinate_lead(to, k);
            assert(from.skip(1) =~= from.drop_first());
        } else {
            lemma_source_index_is_strided(rest, from, k % inner);
            lemma_strided_sum_rest(to, from, k, from.len() as int);
        }
    }
}

} // verus!
