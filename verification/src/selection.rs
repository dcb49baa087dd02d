use vstd::prelude::*;

use crate::errors::{error_view, NdArrayError, NdArrayErrorView, NdArrayResult};
use crate::ndarray::{
    gather, gathered_result_view, identity_indexes, lemma_gather_identity, Gathered, NdArray,
};
use crate::array_routines::strides::{coordinate, stride};
use crate::shape::{
    all_positive, lemma_product_concat, lemma_product_last, lemma_product_positive,
    lemma_suffix_product_le, shape_count, shape_product,
};
use crate::types::{lemma_ceil_div_bounds, slice_result_view, IndexSlice, IndexSliceOp};

verus! {

/// The slice that selects a whole axis of `length` positions, in order.
pub open spec fn full_slice(length: u32) -> IndexSlice {
    IndexSlice { start: 0, stop: length, step: 1 }
}

/// The message for a request list without requests.
pub open spec fn empty_request_message() -> Seq<char> {
    "cant get items from empty slice"@
}

/// The message for a slice whose step leads away from its stop.
pub open spec fn undirected_message() -> Seq<char> {
    "Slice step points away from its stop"@
}

/// The message for a slice that selects a position beyond the axis.
pub open spec fn beyond_axis_message() -> Seq<char> {
    "Index greater than length"@
}

/// A slice that can be applied to an axis of `length` positions: its step
/// leads from start to stop, and every position it selects exists.
pub open spec fn selectable(slice: IndexSlice, length: u32) -> bool {
    &&& slice.wf()
    &&& slice.directed()
    &&& slice.within(length)
    &&& (slice.step < 0 && slice.start != slice.stop ==> slice.start < length)
}

/// The slice applied to an axis of `length` positions: the request of that
/// axis resolved against the length, or the whole axis where the list has no
/// request for it; or the message with which the request is refused.
pub open spec fn axis_choice(slices: Seq<IndexSliceOp>, axis: int, length: u32) -> Result<
    IndexSlice,
    Seq<char>,
> {
    let resolved = if axis < slices.len() {
        slices[axis].spec_into_index_slice(length)
    } else {
        Ok(full_slice(length))
    };
    match resolved {
        Err(message) => Err(message),
        Ok(slice) => if !slice.directed() {
            Err(undirected_message())
        } else if slice.step < 0 && slice.start != slice.stop && slice.start >= length {
            Err(beyond_axis_message())
        } else {
            Ok(slice)
        },
    }
}

/// The slice applied to `axis` of an array of shape `shape`.
pub open spec fn axis_selection(shape: Seq<u32>, slices: Seq<IndexSliceOp>, axis: int) -> Result<
    IndexSlice,
    Seq<char>,
> {
    axis_choice(slices, axis, shape[axis])
}

/// The slices applied to the first `axes` axes, or the message of the first
/// axis whose request is refused.
pub open spec fn selection(shape: Seq<u32>, slices: Seq<IndexSliceOp>, axes: int) -> Result<
    Seq<IndexSlice>,
    Seq<char>,
>
    decreases axes,
{
    if axes <= 0 {
        Ok(Seq::empty())
    } else {
        match selection(shape, slices, axes - 1) {
            Err(message) => Err(message),
            Ok(chosen) => match axis_selection(shape, slices, axes - 1) {
                Err(message) => Err(message),
                Ok(slice) => Ok(chosen.push(slice)),
            },
        }
    }
}

/// The shape of a selection over the first `axes` axes: an axis selected by
/// a bare index is dropped, any other axis has as many positions as its
/// slice selects.
pub open spec fn selected_shape(
    slices: Seq<IndexSliceOp>,
    chosen: Seq<IndexSlice>,
    axes: int,
) -> Seq<u32>
    decreases axes,
{
    if axes <= 0 {
        Seq::empty()
    } else {
        let before = selected_shape(slices, chosen, axes - 1);
        if axes - 1 < slices.len() && slices[axes - 1].is_index() {
            before
        } else {
            before.push(chosen[axes - 1].spec_element_count() as u32)
        }
    }
}

/// The number of elements a selection picks: the product of what its slices
/// select.
pub open spec fn selection_count(chosen: Seq<IndexSlice>) -> nat
    decreases chosen.len(),
{
    if chosen.len() == 0 {
        1
    } else {
        selection_count(chosen.drop_last()) * (chosen.last().spec_element_count() as nat)
    }
}

/// The position, in a row-major buffer of shape `shape`, of the `k`-th
/// element of a selection.
///
/// `k` is split into its place among what the last slice selects and the
/// rank of the element among the selections of the leading axes. The
/// position is that of the leading selection, shifted by one whole last
/// axis, plus the position the last slice selects.
pub open spec fn item_index(shape: Seq<u32>, chosen: Seq<IndexSlice>, k: int) -> int
    decreases chosen.len(),
{
    if chosen.len() == 0 {
        0
    } else {
        let count = chosen.last().spec_element_count();
        item_index(shape.drop_last(), chosen.drop_last(), k / count) * shape.last()
            + chosen.last().spec_position(k % count)
    }
}

/// The gather-index sequence of a selection: for each selected element, in
/// row-major order of the result, the source position to read.
pub open spec fn selection_indexes(shape: Seq<u32>, chosen: Seq<IndexSlice>) -> Seq<u32> {
    Seq::new(selection_count(chosen), |k: int| item_index(shape, chosen, k) as u32)
}

/// What `get_items` returns for an array of shape `shape`: the shape of the
/// result and its gather indexes, or the slice error.
pub open spec fn get_items_outcome(shape: Seq<u32>, slices: Seq<IndexSliceOp>) -> Result<
    (Seq<u32>, Seq<u32>),
    NdArrayErrorView,
> {
    if slices.len() == 0 {
        Err(NdArrayErrorView::Slice(empty_request_message()))
    } else {
        match selection(shape, slices, shape.len() as int) {
            Err(message) => Err(NdArrayErrorView::Slice(message)),
            Ok(chosen) => Ok(
                (
                    selected_shape(slices, chosen, shape.len() as int),
                    selection_indexes(shape, chosen),
                ),
            ),
        }
    }
}

/// For every element of `running`, in order, one element for each of
/// `positions`: the running element shifted by a whole axis of `length`
/// positions, plus the position.
pub open spec fn combined(running: Seq<u32>, positions: Seq<u32>, length: u32) -> Seq<u32> {
    Seq::new(
        running.len() * positions.len(),
        |k: int|
            (running[k / (positions.len() as int)] * length + positions[k % (
            positions.len() as int)]) as u32,
    )
}

/// A slice that can be applied to an axis selects no more positions than the
/// axis has, and only positions of the axis.
pub proof fn lemma_selectable_positions(slice: IndexSlice, length: u32)
    requires
        selectable(slice, length),
    ensures
        0 <= slice.spec_element_count() <= length,
        slice.positions().len() == slice.spec_element_count(),
        forall|k: int|
            0 <= k < slice.spec_element_count() ==> 0 <= #[trigger] slice.spec_position(k) < length
                && slice.positions()[k] == slice.spec_position(k),
{
    let magnitude = crate::types::step_magnitude(slice.step);
    lemma_ceil_div_bounds(slice.spec_span(), magnitude);
    assert forall|k: int| 0 <= k < slice.spec_element_count() implies 0
        <= #[trigger] slice.spec_position(k) < length && slice.positions()[k]
        == slice.spec_position(k) by {
        slice.lemma_positions_between(k);
    }
}

/// A selection picks no more elements than the array has.
pub proof fn lemma_selection_count_le(shape: Seq<u32>, chosen: Seq<IndexSlice>)
    requires
        chosen.len() == shape.len(),
        forall|axis: int|
            0 <= axis < shape.len() ==> selectable(#[trigger] chosen[axis], shape[axis]),
    ensures
        selection_count(chosen) <= product_from_last(shape),
    decreases chosen.len(),
{
    if chosen.len() > 0 {
        let last = chosen.len() - 1;
        lemma_selection_count_le(shape.drop_last(), chosen.drop_last());
        assert(selectable(chosen[last], shape[last]));
        lemma_selectable_positions(chosen.last(), shape.last());
        let a = selection_count(chosen.drop_last());
        let b = product_from_last(shape.drop_last());
        let c = chosen.last().spec_element_count() as nat;
        let d = shape.last() as nat;
        assert(a * c <= b * d) by (nonlinear_arith)
            requires
                a <= b,
                c <= d,
        ;
    }
}

/// The product of the sizes, taken from the trailing axis.
pub open spec fn product_from_last(shape: Seq<u32>) -> nat
    decreases shape.len(),
{
    if shape.len() == 0 {
        1
    } else {
        product_from_last(shape.drop_last()) * (shape.last() as nat)
    }
}

/// The product of the sizes is the same from either end.
pub proof fn lemma_product_from_last(shape: Seq<u32>)
    ensures
        product_from_last(shape) == shape_product(shape),
    decreases shape.len(),
{
    if shape.len() > 0 {
        lemma_product_from_last(shape.drop_last());
        lemma_product_last(shape);
    }
}

/// Every gather index of a selection addresses an element of the array.
pub proof fn lemma_item_index_bound(shape: Seq<u32>, chosen: Seq<IndexSlice>, k: int)
    requires
        chosen.len() == shape.len(),
        forall|axis: int|
            0 <= axis < shape.len() ==> selectable(#[trigger] chosen[axis], shape[axis]),
        0 <= k < selection_count(chosen),
    ensures
        0 <= item_index(shape, chosen, k) < product_from_last(shape),
    decreases chosen.len(),
{
    if chosen.len() > 0 {
        let last = chosen.len() - 1;
        let count = chosen.last().spec_element_count();
        let before = selection_count(chosen.drop_last()) as int;
        assert(selectable(chosen[last], shape[last]));
        lemma_selectable_positions(chosen.last(), shape.last());
        assert(count > 0 && before > 0) by (nonlinear_arith)
            requires
                0 <= k < before * count,
                0 <= count,
                0 <= before,
        ;
        vstd::arithmetic::div_mod::lemma_fundamental_div_mod(k, count);
        vstd::arithmetic::div_mod::lemma_mod_bound(k, count);
        let lead = k / count;
        let place = k % count;
        assert(0 <= lead < before) by (nonlinear_arith)
            requires
                k == count * lead + place,
                0 <= place < count,
                0 <= k < before * count,
        ;
        lemma_item_index_bound(shape.drop_last(), chosen.drop_last(), lead);
        let outer = item_index(shape.drop_last(), chosen.drop_last(), lead);
        let limit = product_from_last(shape.drop_last()) as int;
        let length = shape.last() as int;
        let position = chosen.last().spec_position(place);
        assert(0 <= outer * length + position < limit * length) by (nonlinear_arith)
            requires
                0 <= outer < limit,
                0 <= position < length,
        ;
    }
}

/// The gather indexes of a selection are those of the selection over the
/// leading axes, combined with the positions that the last slice selects.
pub proof fn lemma_selection_indexes_unfold(shape: Seq<u32>, chosen: Seq<IndexSlice>)
    requires
        chosen.len() == shape.len(),
        chosen.len() > 0,
        forall|axis: int|
            0 <= axis < shape.len() ==> selectable(#[trigger] chosen[axis], shape[axis]),
        product_from_last(shape) <= u32::MAX,
        all_positive(shape),
    ensures
        selection_indexes(shape, chosen) == combined(
            selection_indexes(shape.drop_last(), chosen.drop_last()),
            chosen.last().positions(),
            shape.last(),
        ),
{
    let last = chosen.len() - 1;
    let slice = chosen.last();
    let count = slice.spec_element_count();
    let lead_shape = shape.drop_last();
    let lead_chosen = chosen.drop_last();
    let running = selection_indexes(lead_shape, lead_chosen);
    let whole = selection_indexes(shape, chosen);
    let joined = combined(running, slice.positions(), shape.last());
    assert(selectable(chosen[last], shape[last]));
    lemma_selectable_positions(slice, shape.last());
    assert(whole.len() == joined.len());
    let limit = product_from_last(lead_shape) as int;
    let length = shape.last() as int;
    assert(limit <= limit * length) by (nonlinear_arith)
        requires
            length >= 1,
            limit >= 0,
    ;
    assert forall|k: int| 0 <= k < whole.len() implies whole[k] == joined[k] by {
        let before = selection_count(lead_chosen) as int;
        assert(count > 0 && before > 0) by (nonlinear_arith)
            requires
                0 <= k < before * count,
                0 <= count,
                0 <= before,
        ;
        vstd::arithmetic::div_mod::lemma_fundamental_div_mod(k, count);
        vstd::arithmetic::div_mod::lemma_mod_bound(k, count);
        let lead = k / count;
        let place = k % count;
        assert(0 <= lead < before) by (nonlinear_arith)
            requires
                k == count * lead + place,
                0 <= place < count,
                0 <= k < before * count,
        ;
        lemma_item_index_bound(lead_shape, lead_chosen, lead);
        lemma_item_index_bound(shape, chosen, k);
        assert(running[lead] == item_index(lead_shape, lead_chosen, lead));
        assert(slice.positions()[place] == slice.spec_position(place));
        assert(joined[k] == (running[lead] * shape.last() + slice.positions()[place]) as u32);
    }
    assert(whole =~= joined);
}

/// Selecting every axis whole, in order, reads every element from its own
/// place: the gather indexes are `0, 1, ..`, as many as the array has
/// elements.
pub proof fn lemma_full_selection_identity(shape: Seq<u32>, chosen: Seq<IndexSlice>)
    requires
        chosen.len() == shape.len(),
        forall|axis: int|
            0 <= axis < shape.len() ==> #[trigger] chosen[axis] == full_slice(shape[axis]),
        shape_product(shape) <= u32::MAX,
    ensures
        selection_count(chosen) == shape_product(shape),
        selection_indexes(shape, chosen) == identity_indexes(shape_product(shape)),
{
    lemma_full_selection_count(shape, chosen);
    lemma_product_from_last(shape);
    assert forall|k: int| 0 <= k < selection_count(chosen) implies selection_indexes(
        shape,
        chosen,
    )[k] == identity_indexes(shape_product(shape))[k] by {
        lemma_full_item_index(shape, chosen, k);
    }
    assert(selection_indexes(shape, chosen) =~= identity_indexes(shape_product(shape)));
}

/// A whole axis selects as many positions as it has, the `k`-th being `k`.
pub proof fn lemma_full_slice(length: u32)
    ensures
        full_slice(length).spec_element_count() == length,
        selectable(full_slice(length), length),
        forall|k: int| #[trigger] full_slice(length).spec_position(k) == k,
{
    assert forall|k: int| #[trigger] full_slice(length).spec_position(k) == k by {
        assert(k * 1 == k) by (nonlinear_arith);
    }
}

/// Selecting every axis whole picks every element.
pub proof fn lemma_full_selection_count(shape: Seq<u32>, chosen: Seq<IndexSlice>)
    requires
        chosen.len() == shape.len(),
        forall|axis: int|
            0 <= axis < shape.len() ==> #[trigger] chosen[axis] == full_slice(shape[axis]),
    ensures
        selection_count(chosen) == product_from_last(shape),
    decreases chosen.len(),
{
    if chosen.len() > 0 {
        let last = chosen.len() - 1;
        assert(chosen[last] == full_slice(shape[last]));
        lemma_full_slice(shape.last());
        lemma_full_selection_count(shape.drop_last(), chosen.drop_last());
    }
}

/// Selecting every axis whole reads the `k`-th element at position `k`.
pub proof fn lemma_full_item_index(shape: Seq<u32>, chosen: Seq<IndexSlice>, k: int)
    requires
        chosen.len() == shape.len(),
        forall|axis: int|
            0 <= axis < shape.len() ==> #[trigger] chosen[axis] == full_slice(shape[axis]),
        0 <= k < selection_count(chosen),
    ensures
        item_index(shape, chosen, k) == k,
    decreases chosen.len(),
{
    if chosen.len() > 0 {
        let last = chosen.len() - 1;
        assert(chosen[last] == full_slice(shape[last]));
        lemma_full_slice(shape.last());
        lemma_full_selection_count(shape.drop_last(), chosen.drop_last());
        let count = shape.last() as int;
        let before = selection_count(chosen.drop_last()) as int;
        assert(count > 0 && before > 0) by (nonlinear_arith)
            requires
                0 <= k < before * count,
                0 <= count,
                0 <= before,
        ;
        vstd::arithmetic::div_mod::lemma_fundamental_div_mod(k, count);
        vstd::arithmetic::div_mod::lemma_mod_bound(k, count);
        let lead = k / count;
        let place = k % count;
        assert(0 <= lead < before) by (nonlinear_arith)
            requires
                k == count * lead + place,
                0 <= place < count,
                0 <= k < before * count,
        ;
        lemma_full_item_index(shape.drop_last(), chosen.drop_last(), lead);
        assert(lead * count == count * lead) by (nonlinear_arith);
    } else {
        assert(selection_count(chosen) == 1);
    }
}

/// Once the request of an axis is refused, the whole list is refused with the
/// same message.
pub proof fn lemma_selection_failure(
    shape: Seq<u32>,
    slices: Seq<IndexSliceOp>,
    axes: int,
    more: int,
)
    requires
        0 <= axes <= more,
        selection(shape, slices, axes) is Err,
    ensures
        selection(shape, slices, more) == selection(shape, slices, axes),
    decreases more - axes,
{
    if axes < more {
        lemma_selection_failure(shape, slices, axes, more - 1);
    }
}

/// The shape of a selection over some axes depends on the slices of those
/// axes only.
pub proof fn lemma_selected_shape_prefix(
    slices: Seq<IndexSliceOp>,
    chosen: Seq<IndexSlice>,
    longer: Seq<IndexSlice>,
    axes: int,
)
    requires
        0 <= axes <= chosen.len() <= longer.len(),
        forall|axis: int| 0 <= axis < axes ==> chosen[axis] == longer[axis],
    ensures
        selected_shape(slices, chosen, axes) == selected_shape(slices, longer, axes),
    decreases axes,
{
    if axes > 0 {
        lemma_selected_shape_prefix(slices, chosen, longer, axes - 1);
    }
}

/// In a shape without an empty axis, a run of leading axes addresses no more
/// positions than the whole shape.
pub proof fn lemma_prefix_product_le(shape: Seq<u32>, axes: int)
    requires
        all_positive(shape),
        0 <= axes <= shape.len(),
    ensures
        all_positive(shape.take(axes)),
        1 <= product_from_last(shape.take(axes)) <= shape_product(shape),
{
    let lead = shape.take(axes);
    let rest = shape.skip(axes);
    assert(all_positive(lead)) by {
        assert forall|axis: int| 0 <= axis < lead.len() implies lead[axis] >= 1 by {
            assert(lead[axis] == shape[axis]);
        }
    }
    lemma_product_positive(lead);
    lemma_suffix_product_le(shape, axes);
    assert(lead + rest =~= shape);
    lemma_product_concat(lead, rest);
    lemma_product_from_last(lead);
    let a = shape_product(lead);
    let b = shape_product(rest);
    assert(a <= a * b) by (nonlinear_arith)
        requires
            b >= 1,
    ;
}

/// The slices that take every axis of `shape` whole.
pub open spec fn full_selection(shape: Seq<u32>) -> Seq<IndexSlice> {
    Seq::new(shape.len(), |axis: int| full_slice(shape[axis]))
}

/// A selection whose every request takes its axis whole, in order, gives the
/// array back: the gather indexes are `0, 1, ..`, one for each element, so
/// the data of the result is the data of the array, unchanged. Unless a
/// request is a bare index, the shape is the array's own.
pub proof fn lemma_get_items_full_range(shape: Seq<u32>, slices: Seq<IndexSliceOp>)
    requires
        slices.len() > 0,
        shape_product(shape) <= u32::MAX,
        forall|axis: int|
            0 <= axis < shape.len() && axis < slices.len() ==> (
            #[trigger] slices[axis]).spec_into_index_slice(shape[axis]) == Ok::<
                IndexSlice,
                Seq<char>,
            >(full_slice(shape[axis])),
    ensures
        get_items_outcome(shape, slices) is Ok,
        get_items_outcome(shape, slices)->Ok_0.1 == identity_indexes(shape_product(shape)),
        (forall|axis: int| 0 <= axis < slices.len() ==> !(#[trigger] slices[axis]).is_index())
            ==> get_items_outcome(shape, slices)->Ok_0.0 == shape,
{
    let chosen = full_selection(shape);
    lemma_full_selection_chosen(shape, slices, shape.len() as int);
    assert(chosen.take(shape.len() as int) =~= chosen);
    lemma_full_selection_identity(shape, chosen);
    if forall|axis: int| 0 <= axis < slices.len() ==> !(#[trigger] slices[axis]).is_index() {
        lemma_full_selection_shape(shape, slices, shape.len() as int);
        assert(shape.take(shape.len() as int) =~= shape);
    }
}

/// A selection whose every request takes its axis whole gives the data of
/// the array back: the same values in the same order.
pub proof fn lemma_get_items_full_range_keeps_data<T>(
    shape: Seq<u32>,
    slices: Seq<IndexSliceOp>,
    data: Seq<T>,
)
    requires
        slices.len() > 0,
        shape_product(shape) <= u32::MAX,
        data.len() == shape_product(shape),
        forall|axis: int|
            0 <= axis < shape.len() && axis < slices.len() ==> (
            #[trigger] slices[axis]).spec_into_index_slice(shape[axis]) == Ok::<
                IndexSlice,
                Seq<char>,
            >(full_slice(shape[axis])),
    ensures
        get_items_outcome(shape, slices) is Ok,
        gather(data, get_items_outcome(shape, slices)->Ok_0.1) == data,
{
    lemma_get_items_full_range(shape, slices);
    lemma_gather_identity(data);
}

/// Requests that take their axes whole choose the whole-axis slices.
pub proof fn lemma_full_selection_chosen(shape: Seq<u32>, slices: Seq<IndexSliceOp>, axes: int)
    requires
        0 <= axes <= shape.len(),
        forall|axis: int|
            0 <= axis < shape.len() && axis < slices.len() ==> (
            #[trigger] slices[axis]).spec_into_index_slice(shape[axis]) == Ok::<
                IndexSlice,
                Seq<char>,
            >(full_slice(shape[axis])),
    ensures
        selection(shape, slices, axes) == Ok::<Seq<IndexSlice>, Seq<char>>(
            full_selection(shape).take(axes),
        ),
    decreases axes,
{
    if axes > 0 {
        lemma_full_selection_chosen(shape, slices, axes - 1);
        let axis = axes - 1;
        lemma_full_slice(shape[axis]);
        if axis < slices.len() {
            assert(slices[axis].spec_into_index_slice(shape[axis]) == Ok::<IndexSlice, Seq<char>>(
                full_slice(shape[axis]),
            ));
        }
        assert(axis_selection(shape, slices, axis) == Ok::<IndexSlice, Seq<char>>(
            full_slice(shape[axis]),
        ));
        assert(full_selection(shape).take(axes) =~= full_selection(shape).take(axes - 1).push(
            full_slice(shape[axis]),
        ));
    } else {
        assert(full_selection(shape).take(0) =~= Seq::<IndexSlice>::empty());
    }
}

/// Taking every axis whole, without a bare index, keeps the shape.
pub proof fn lemma_full_selection_shape(shape: Seq<u32>, slices: Seq<IndexSliceOp>, axes: int)
    requires
        0 <= axes <= shape.len(),
        forall|axis: int| 0 <= axis < slices.len() ==> !(#[trigger] slices[axis]).is_index(),
    ensures
        selected_shape(slices, full_selection(shape), axes) == shape.take(axes),
    decreases axes,
{
    if axes > 0 {
        lemma_full_selection_shape(shape, slices, axes - 1);
        let axis = axes - 1;
        lemma_full_slice(shape[axis]);
        if axis < slices.len() {
            assert(!slices[axis].is_index());
        }
        assert(shape.take(axes) =~= shape.take(axes - 1).push(shape[axis]));
    } else {
        assert(shape.take(0) =~= Seq::<u32>::empty());
    }
}

/// A bare index that fits its axis selects exactly one position.
pub proof fn lemma_index_selects_one(op: IndexSliceOp, length: u32)
    requires
        op.is_index(),
        op.spec_into_index_slice(length) is Ok,
    ensures
        op.spec_into_index_slice(length)->Ok_0.spec_element_count() == 1,
        op.spec_into_index_slice(length)->Ok_0.directed(),
{
    let slice = op.spec_into_index_slice(length)->Ok_0;
    assert(slice.step == 1);
    assert(slice.stop == slice.start + 1);
    assert(slice.spec_span() == 1);
    assert(crate::types::step_magnitude(slice.step) == 1);
    assert(crate::types::ceil_div(1, 1) == 1);
}

/// The number of bare indexes among the requests that reach the first `axes`
/// axes.
pub open spec fn index_requests(slices: Seq<IndexSliceOp>, axes: int) -> nat
    decreases axes,
{
    if axes <= 0 {
        0
    } else if axes - 1 < slices.len() && slices[axes - 1].is_index() {
        index_requests(slices, axes - 1) + 1
    } else {
        index_requests(slices, axes - 1)
    }
}

/// Every bare index removes its axis from the shape of the result: the
/// result has as many axes as the array, less the bare indexes among the
/// requests.
pub proof fn lemma_selected_shape_rank(
    slices: Seq<IndexSliceOp>,
    chosen: Seq<IndexSlice>,
    axes: int,
)
    requires
        0 <= axes,
    ensures
        selected_shape(slices, chosen, axes).len() + index_requests(slices, axes) == axes,
    decreases axes,
{
    if axes > 0 {
        lemma_selected_shape_rank(slices, chosen, axes - 1);
    }
}

fn slice_error(text: &str) -> (error: NdArrayError)
    ensures
        error_view(error) == NdArrayErrorView::Slice(text@),
{
    NdArrayError::SliceError(text.to_string())
}

/// The slice applied to an axis of `length` positions.
fn choose_axis(slices: &[IndexSliceOp], axis: usize, length: u32) -> (res: Result<
    IndexSlice,
    String,
>)
    ensures
        slice_result_view(res) == axis_choice(slices@, axis as int, length),
        res matches Ok(slice) ==> selectable(slice, length),
{
    let resolved = if axis < slices.len() {
        slices[axis].into_index_slice(length)
    } else {
        Ok(IndexSlice { start: 0, stop: length, step: 1 })
    };
    match resolved {
        Err(message) => Err(message),
        Ok(slice) => {
            let directed = if slice.step > 0 {
                slice.start <= slice.stop
            } else {
                slice.stop <= slice.start
            };
            if !directed {
                Err("Slice step points away from its stop".to_string())
            } else if slice.step < 0 && slice.start != slice.stop && slice.start >= length {
                Err("Index greater than length".to_string())
            } else {
                Ok(slice)
            }
        },
    }
}

/// For every element of `running`, one element for each of `positions`.
fn combine(running: &Vec<u32>, positions: &Vec<u32>, length: u32) -> (joined: Vec<u32>)
    requires
        forall|a: int| 0 <= a < running@.len() ==> (running@[a] + 1) * length <= u32::MAX,
        forall|b: int| 0 <= b < positions@.len() ==> positions@[b] < length,
        running@.len() * positions@.len() <= u32::MAX,
    ensures
        joined@ == combined(running@, positions@, length),
{
    let count = positions.len();
    let mut joined: Vec<u32> = Vec::new();
    let mut a: usize = 0;
    while a < running.len()
        invariant
            count == positions@.len(),
            a <= running@.len(),
            forall|a: int| 0 <= a < running@.len() ==> (running@[a] + 1) * length <= u32::MAX,
            forall|b: int| 0 <= b < positions@.len() ==> positions@[b] < length,
            joined@.len() == a * count,
            forall|k: int|
                0 <= k < joined@.len() ==> joined@[k] == running@[k / (count as int)] * length
                    + positions@[k % (count as int)],
        decreases running@.len() - a,
    {
        let mut b: usize = 0;
        while b < count
            invariant
                count == positions@.len(),
                a < running@.len(),
                b <= count,
                forall|a: int| 0 <= a < running@.len() ==> (running@[a] + 1) * length <= u32::MAX,
                forall|b: int| 0 <= b < positions@.len() ==> positions@[b] < length,
                joined@.len() == a * count + b,
                forall|k: int|
                    0 <= k < joined@.len() ==> joined@[k] == running@[k / (count as int)] * length
                        + positions@[k % (count as int)],
            decreases count - b,
        {
            proof {
                let lead = running@[a as int] as int;
                let place = positions@[b as int] as int;
                assert(0 <= lead * length && lead * length + place < (lead + 1) * length)
                    by (nonlinear_arith)
                    requires
                        0 <= lead,
                        0 <= place < length,
                ;
                vstd::arithmetic::div_mod::lemma_fundamental_div_mod_converse(
                    a * count + b,
                    count as int,
                    a as int,
                    b as int,
                );
            }
            let index: u64 = (running[a] as u64) * (length as u64) + positions[b] as u64;
            joined.push(index as u32);
            b += 1;
        }
        proof {
            assert(a * count + count == (a + 1) * count) by (nonlinear_arith);
        }
        a += 1;
    }
    proof {
        assert(joined@ =~= combined(running@, positions@, length));
    }
    joined
}

impl NdArray {
    /// Selects elements by one request per axis.
    ///
    /// `slices` gives the requests for the leading axes; the axes it does
    /// not reach are taken whole, and requests beyond the last axis are not
    /// looked at. An axis selected by a bare index does not appear in the
    /// shape of the result; every other axis appears with the number of
    /// positions selected on it. The elements of the result are read from
    /// the array's buffer at the gather indexes of the selection.
    ///
    /// An empty list, a request that does not fit its axis and a slice whose
    /// step leads away from its stop give a `SliceError`.
    pub fn get_items(&self, slices: &[IndexSliceOp]) -> (res: NdArrayResult<Gathered>)
        requires
            self.wf(),
        ensures
            gathered_result_view(res) == get_items_outcome(self.shape@, slices@),
            res matches Ok(gathered) ==> {
                &&& gathered.array.wf()
                &&& gathered.array.dtype == self.dtype
                &&& gathered.indexes@.len() == shape_product(gathered.array.shape@)
                &&& forall|k: int|
                    0 <= k < gathered.indexes@.len() ==> gathered.indexes@[k] < shape_product(
                        self.shape@,
                    )
            },
    {
        if slices.len() == 0 {
            return Err(slice_error("cant get items from empty slice"));
        }
        let ghost shape = self.shape@;
        let rank = self.shape.len();
        let mut chosen: Vec<IndexSlice> = Vec::new();
        let mut new_shape: Vec<u32> = Vec::new();
        let mut axis: usize = 0;
        while axis < rank
            invariant
                shape == self.shape@,
                rank == shape.len(),
                axis <= rank,
                chosen@.len() == axis,
                selection(shape, slices@, axis as int) == Ok::<Seq<IndexSlice>, Seq<char>>(
                    chosen@,
                ),
                new_shape@ == selected_shape(slices@, chosen@, axis as int),
                new_shape@.len() <= axis,
                product_from_last(new_shape@) == selection_count(chosen@),
                forall|a: int|
                    0 <= a < axis ==> selectable(#[trigger] chosen@[a], shape[a]),
            decreases rank - axis,
        {
            let length = self.shape[axis];
            let slice = match choose_axis(slices, axis, length) {
                Ok(slice) => slice,
                Err(message) => {
                    proof {
                        lemma_selection_failure(shape, slices@, axis as int + 1, rank as int);
                    }
                    return Err(NdArrayError::SliceError(message));
                },
            };
            let ghost before = chosen@;
            let ghost after = chosen@.push(slice);
            proof {
                lemma_selectable_positions(slice, length);
                lemma_selected_shape_prefix(slices@, before, after, axis as int);
                assert(after.drop_last() =~= before);
                assert(after.last() == slice);
            }
            let is_index = axis < slices.len() && match slices[axis] {
                IndexSliceOp::Index(_) => true,
                _ => false,
            };
            if !is_index {
                let count = slice.element_count();
                proof {
                    let grown = new_shape@.push(count);
                    assert(grown.drop_last() =~= new_shape@);
                    assert(grown.last() == count);
                }
                new_shape.push(count);
            } else {
                proof {
                    lemma_index_selects_one(slices@[axis as int], length);
                    assert(selection_count(before) * 1 == selection_count(before))
                        by (nonlinear_arith);
                }
            }
            chosen.push(slice);
            axis += 1;
        }
        let ghost picked = chosen@;
        proof {
            lemma_product_from_last(new_shape@);
            lemma_product_from_last(shape);
            lemma_selection_count_le(shape, picked);
        }
        let total = shape_count(self.shape.as_slice());
        let mut running: Vec<u32> = Vec::new();
        if total != Some(0) {
            proof {
                crate::array_routines::broadcast::lemma_nonzero_product_all_positive(shape);
                assert(shape.take(0) =~= Seq::<u32>::empty());
                assert(picked.take(0) =~= Seq::<IndexSlice>::empty());
            }
            running.push(0);
            proof {
                assert(running@ =~= selection_indexes(
                    Seq::<u32>::empty(),
                    Seq::<IndexSlice>::empty(),
                ));
            }
            let mut axis: usize = 0;
            while axis < rank
                invariant
                    shape == self.shape@,
                    picked == chosen@,
                    rank == shape.len(),
                    picked.len() == rank,
                    axis <= rank,
                    all_positive(shape),
                    shape_product(shape) <= u32::MAX,
                    forall|a: int|
                        0 <= a < rank ==> selectable(#[trigger] picked[a], shape[a]),
                    running@ == selection_indexes(
                        shape.take(axis as int),
                        picked.take(axis as int),
                    ),
                decreases rank - axis,
            {
                let length = self.shape[axis];
                let ghost lead_shape = shape.take(axis as int);
                let ghost lead_picked = picked.take(axis as int);
                let ghost next_shape = shape.take(axis as int + 1);
                let ghost next_picked = picked.take(axis as int + 1);
                proof {
                    assert(next_shape.drop_last() =~= lead_shape);
                    assert(next_picked.drop_last() =~= lead_picked);
                    assert(next_shape.last() == length);
                    assert(next_picked.last() == picked[axis as int]);
                    assert(selectable(picked[axis as int], shape[axis as int]));
                    lemma_selectable_positions(picked[axis as int], length);
                    lemma_prefix_product_le(shape, axis as int);
                    lemma_prefix_product_le(shape, axis as int + 1);
                    assert forall|a: int| 0 <= a < next_shape.len() implies selectable(
                        #[trigger] next_picked[a],
                        next_shape[a],
                    ) by {
                        assert(selectable(picked[a], shape[a]));
                    }
                    assert forall|a: int| 0 <= a < lead_shape.len() implies selectable(
                        #[trigger] lead_picked[a],
                        lead_shape[a],
                    ) by {
                        assert(selectable(picked[a], shape[a]));
                    }
                    lemma_selection_indexes_unfold(next_shape, next_picked);
                    lemma_selection_count_le(next_shape, next_picked);
                    lemma_selection_count_le(lead_shape, lead_picked);
                }
                let slice = &chosen[axis];
                let positions = slice.iterate().collect();
                proof {
                    let limit = product_from_last(lead_shape) as int;
                    assert forall|a: int| 0 <= a < running@.len() implies (running@[a] + 1)
                        * length <= u32::MAX by {
                        lemma_item_index_bound(lead_shape, lead_picked, a);
                        let value = running@[a] as int;
                        assert((value + 1) * length <= limit * length) by (nonlinear_arith)
                            requires
                                0 <= value < limit,
                                0 <= length,
                        ;
                    }
                    assert(selection_count(next_picked) == selection_count(lead_picked) * (
                    picked[axis as int].spec_element_count() as nat));
                }
                running = combine(&running, &positions, length);
                axis += 1;
            }
            proof {
                assert(shape.take(rank as int) =~= shape);
                assert(picked.take(rank as int) =~= picked);
                assert forall|k: int| 0 <= k < running@.len() implies running@[k]
                    < shape_product(shape) by {
                    lemma_item_index_bound(shape, picked, k);
                }
            }
        } else {
            proof {
                assert(running@ =~= selection_indexes(shape, picked));
            }
        }
        let dims = new_shape.len() as u16;
        Ok(
            Gathered {
                array: NdArray { shape: new_shape, dims, dtype: self.dtype },
                indexes: running,
            },
        )
    }
}

/// The numbers of positions that the slices of a selection select, axis by
/// axis: the shape of the selection before bare indexes drop their axes.
pub open spec fn selection_counts(chosen: Seq<IndexSlice>) -> Seq<u32> {
    Seq::new(chosen.len(), |axis: int| chosen[axis].spec_element_count() as u32)
}

/// What axis `axis` adds to the source position of element `k` of a
/// selection: the position that the slice of the axis selects at the
/// coordinate of `k` along the axis, times the stride of the axis in the
/// source.
pub open spec fn selected_term(shape: Seq<u32>, chosen: Seq<IndexSlice>, k: int, axis: int) -> int {
    chosen[axis].spec_position(coordinate(selection_counts(chosen), k, axis)) * stride(
        shape,
        axis,
    )
}

/// The sum of what the first `axes` axes add.
pub open spec fn selected_sum(shape: Seq<u32>, chosen: Seq<IndexSlice>, k: int, axes: int) -> int
    decreases axes,
{
    if axes <= 0 {
        0
    } else {
        selected_sum(shape, chosen, k, axes - 1) + selected_term(shape, chosen, k, axes - 1)
    }
}

/// A selection without an empty slice counts as many elements as its counts
/// multiply to.
pub proof fn lemma_selection_counts_product(shape: Seq<u32>, chosen: Seq<IndexSlice>)
    requires
        chosen.len() == shape.len(),
        forall|axis: int|
            0 <= axis < shape.len() ==> selectable(#[trigger] chosen[axis], shape[axis]),
    ensures
        shape_product(selection_counts(chosen)) == selection_count(chosen),
    decreases chosen.len(),
{
    let counts = selection_counts(chosen);
    lemma_product_from_last(counts);
    if chosen.len() > 0 {
        let last = chosen.len() - 1;
        assert(selectable(chosen[last], shape[last]));
        lemma_selectable_positions(chosen.last(), shape.last());
        lemma_selection_counts_product(shape.drop_last(), chosen.drop_last());
        assert(counts.drop_last() =~= selection_counts(chosen.drop_last()));
        lemma_product_from_last(counts.drop_last());
    }
}

/// What the leading axes add for a selection is what they add for the
/// selection without its last axis, at the rank of the element among the
/// leading selections, stretched by the length of the last axis.
pub proof fn lemma_selected_sum_lead(shape: Seq<u32>, chosen: Seq<IndexSlice>, k: int, axes: int)
    requires
        chosen.len() == shape.len(),
        chosen.len() > 0,
        forall|axis: int|
            0 <= axis < shape.len() ==> selectable(#[trigger] chosen[axis], shape[axis]),
        0 <= k < selection_count(chosen),
        0 <= axes <= chosen.len() - 1,
    ensures
        selected_sum(shape, chosen, k, axes) == selected_sum(
            shape.drop_last(),
            chosen.drop_last(),
            k / chosen.last().spec_element_count(),
            axes,
        ) * shape.last(),
    decreases axes,
{
    let lead_shape = shape.drop_last();
    let lead_chosen = chosen.drop_last();
    let counts = selection_counts(chosen);
    let lead_counts = selection_counts(lead_chosen);
    let last = chosen.len() - 1;
    let n = chosen.last().spec_element_count();
    let d = shape.last() as int;
    assert(selectable(chosen[last], shape[last]));
    lemma_selectable_positions(chosen.last(), shape.last());
    lemma_selection_counts_product(shape, chosen);
    lemma_product_from_last(counts);
    assert(n > 0) by (nonlinear_arith)
        requires
            0 <= k < selection_count(chosen.drop_last()) * n,
            0 <= n,
    ;
    if axes > 0 {
        let axis = axes - 1;
        lemma_selected_sum_lead(shape, chosen, k, axes - 1);
        assert(counts.drop_last() =~= lead_counts);
        let after = counts.skip(axis + 1);
        let lead_after = lead_counts.skip(axis + 1);
        assert(after.drop_last() =~= lead_after);
        assert(after.last() == counts.last());
        lemma_product_last(after);
        let place = shape_product(lead_after) as int;
        crate::array_routines::broadcast::lemma_nonzero_product_all_positive(counts);
        lemma_suffix_product_le(counts, axis + 1);
        assert(shape_product(after) == place * n);
        assert(place > 0) by (nonlinear_arith)
            requires
                place * n >= 1,
                n > 0,
                place >= 0,
        ;
        vstd::arithmetic::div_mod::lemma_div_denominator(k, n, place);
        assert(n * place == place * n) by (nonlinear_arith);
        assert(coordinate(counts, k, axis) == coordinate(lead_counts, k / n, axis));
        let shape_after = shape.skip(axis + 1);
        assert(shape_after.drop_last() =~= lead_shape.skip(axis + 1));
        assert(shape_after.last() == shape.last());
        lemma_product_last(shape_after);
        assert(stride(shape, axis) == stride(lead_shape, axis) * d);
        let position = chosen[axis].spec_position(coordinate(counts, k, axis));
        let below = selected_sum(lead_shape, lead_chosen, k / n, axes - 1);
        let step = stride(lead_shape, axis);
        assert(lead_chosen[axis] == chosen[axis]);
        assert(below * d + position * (step * d) == (below + position * step) * d)
            by (nonlinear_arith);
    } else {
        assert(0 * d == 0) by (nonlinear_arith);
    }
}

/// The gather indexes of a selection are the addresses of a strided view:
/// every source position is the sum, over the axes, of the position that
/// the slice of the axis selects at the coordinate of the element, times the
/// stride of the axis in the source.
pub proof fn lemma_item_index_is_strided(shape: Seq<u32>, chosen: Seq<IndexSlice>, k: int)
    requires
        chosen.len() == shape.len(),
        forall|axis: int|
            0 <= axis < shape.len() ==> selectable(#[trigger] chosen[axis], shape[axis]),
        0 <= k < selection_count(chosen),
    ensures
        item_index(shape, chosen, k) == selected_sum(shape, chosen, k, shape.len() as int),
    decreases chosen.len(),
{
    if chosen.len() > 0 {
        let last = chosen.len() - 1;
        let counts = selection_counts(chosen);
        let n = chosen.last().spec_element_count();
        let before = selection_count(chosen.drop_last()) as int;
        assert(selectable(chosen[last], shape[last]));
        lemma_selectable_positions(chosen.last(), shape.last());
        assert(n > 0 && before > 0) by (nonlinear_arith)
            requires
                0 <= k < before * n,
                0 <= n,
                0 <= before,
        ;
        vstd::arithmetic::div_mod::lemma_fundamental_div_mod(k, n);
        vstd::arithmetic::div_mod::lemma_mod_bound(k, n);
        let lead = k / n;
        assert(0 <= lead < before) by (nonlinear_arith)
            requires
                k == n * lead + k % n,
                0 <= k % n < n,
                0 <= k < before * n,
        ;
        lemma_item_index_is_strided(shape.drop_last(), chosen.drop_last(), lead);
        lemma_selected_sum_lead(shape, chosen, k, last);
        assert(counts.skip(last + 1) =~= Seq::<u32>::empty());
        assert(shape.skip(last + 1) =~= Seq::<u32>::empty());
        assert(counts[last] == n);
        assert(shape_product(counts.skip(last + 1)) == 1);
        assert(shape_product(shape.skip(last + 1)) == 1);
        assert(k / 1 == k);
        assert(coordinate(counts, k, last) == k % n);
        assert(stride(shape, last) == 1);
        assert(chosen.last().spec_position(k % n) * 1 == chosen.last().spec_position(k % n))
            by (nonlinear_arith);
    }
}

} // verus!
