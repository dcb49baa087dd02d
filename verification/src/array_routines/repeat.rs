use vstd::prelude::*;

use vstd::string::*;

use crate::errors::{error_view, NdArrayError, NdArrayErrorView, NdArrayResult};
use crate::ndarray::{gathered_result_view, Gathered, NdArray};
use crate::shape::{shape_count, shape_product};
use crate::text::{decimal, decimal_text};

verus! {

/// `times` copies of `block`, one after another.
pub open spec fn repeated(block: Seq<u32>, times: nat) -> Seq<u32>
    decreases times,
{
    if times == 0 {
        Seq::empty()
    } else {
        repeated(block, (times - 1) as nat) + block
    }
}

/// The sum of a run of counts.
pub open spec fn counts_sum(counts: Seq<u32>) -> nat
    decreases counts.len(),
{
    if counts.len() == 0 {
        0
    } else {
        counts_sum(counts.drop_last()) + counts.last() as nat
    }
}

/// How often row `row` of the repeated axis appears: the one count where
/// there is a single one, else the count of that row.
pub open spec fn repeat_count(repeats: Seq<u32>, row: int) -> nat {
    repeats[row % (repeats.len() as int)] as nat
}

/// The size of the repeated axis afterwards: its size times the count where
/// there is a single count, else the sum of the counts.
pub open spec fn repeated_size(size: u32, repeats: Seq<u32>) -> nat {
    if repeats.len() == 1 {
        (size as nat) * (repeats[0] as nat)
    } else {
        counts_sum(repeats)
    }
}

/// The shape after repeating along `axis`: the size of that axis becomes
/// its repeated size, the other axes stay.
pub open spec fn repeat_shape(shape: Seq<u32>, repeats: Seq<u32>, axis: u32) -> Seq<u32> {
    Seq::new(
        shape.len(),
        |i: int|
            if i == axis {
                repeated_size(shape[i], repeats) as u32
            } else {
                shape[i]
            },
    )
}

/// The source positions of the first `rows` rows at depth `depth` of an
/// array repeated along `axis`, where the block at that depth starts at
/// position `base` of the source.
///
/// On the last axis a row is one source position; on any other axis it is
/// the block one axis deeper. Each row appears once, except along the
/// repeated axis, where it appears as often as its count says.
pub open spec fn repeat_rows(
    shape: Seq<u32>,
    repeats: Seq<u32>,
    axis: u32,
    depth: int,
    base: int,
    rows: int,
) -> Seq<u32>
    decreases shape.len() - depth, rows,
{
    if rows <= 0 || depth < 0 || depth >= shape.len() {
        Seq::empty()
    } else {
        let row = rows - 1;
        let inner = shape_product(shape.skip(depth + 1)) as int;
        let block = if depth == shape.len() - 1 {
            seq![(base + row) as u32]
        } else {
            repeat_rows(
                shape,
                repeats,
                axis,
                depth + 1,
                base + row * inner,
                shape[depth + 1] as int,
            )
        };
        let times = if axis == depth {
            repeat_count(repeats, row)
        } else {
            1
        };
        repeat_rows(shape, repeats, axis, depth, base, rows - 1) + repeated(block, times)
    }
}

/// The gather indexes of an array of shape `shape` repeated along `axis`.
pub open spec fn repeat_indexes(shape: Seq<u32>, repeats: Seq<u32>, axis: u32) -> Seq<u32> {
    repeat_rows(shape, repeats, axis, 0, 0, shape[0] as int)
}

/// The counts that the rows of the repeated axis use are there and are at
/// least 1.
pub open spec fn counts_usable(shape: Seq<u32>, repeats: Seq<u32>, axis: u32) -> bool {
    axis < shape.len() && shape[axis as int] > 0 ==> repeats.len() > 0 && forall|row: int|
        0 <= row < shape[axis as int] ==> #[trigger] repeat_count(repeats, row) >= 1
}

/// The shape after repeating along `axis`.
pub fn generate_repeat_shape(shape: &[u32], repeats: &[u32], axis: u32) -> (new_shape: Vec<u32>)
    requires
        axis < shape@.len() ==> repeated_size(shape@[axis as int], repeats@) <= u32::MAX,
    ensures
        new_shape@ == repeat_shape(shape@, repeats@, axis),
{
    let mut new_shape: Vec<u32> = Vec::new();
    let mut i: usize = 0;
    while i < shape.len()
        invariant
            i <= shape.len(),
            axis < shape@.len() ==> repeated_size(shape@[axis as int], repeats@) <= u32::MAX,
            new_shape@.len() == i,
            forall|a: int| 0 <= a < i ==> new_shape@[a] == repeat_shape(shape@, repeats@, axis)[a],
        decreases shape.len() - i,
    {
        if axis as usize == i {
            if repeats.len() == 1 {
                new_shape.push(shape[i] * repeats[0])
            } else {
                new_shape.push(sum_counts(repeats))
            }
        } else {
            new_shape.push(shape[i])
        }
        i += 1;
    }
    proof {
        assert(new_shape@ =~= repeat_shape(shape@, repeats@, axis));
    }
    new_shape
}

/// The sum of a run of counts.
pub fn sum_counts(counts: &[u32]) -> (sum: u32)
    requires
        counts_sum(counts@) <= u32::MAX,
    ensures
        sum == counts_sum(counts@),
{
    let mut sum: u32 = 0;
    let mut i: usize = 0;
    proof {
        assert(counts@.take(0) =~= Seq::<u32>::empty());
    }
    while i < counts.len()
        invariant
            i <= counts.len(),
            sum == counts_sum(counts@.take(i as int)),
            counts_sum(counts@) <= u32::MAX,
        decreases counts.len() - i,
    {
        proof {
            assert(counts@.take(i as int + 1).drop_last() =~= counts@.take(i as int));
            lemma_counts_sum_prefix(counts@, i as int + 1);
        }
        sum = sum + counts[i];
        i += 1;
    }
    proof {
        assert(counts@.take(i as int) =~= counts@);
    }
    sum
}

/// The sum of the first counts is no more than the sum of all.
pub proof fn lemma_counts_sum_prefix(counts: Seq<u32>, prefix: int)
    requires
        0 <= prefix <= counts.len(),
    ensures
        counts_sum(counts.take(prefix)) <= counts_sum(counts),
    decreases counts.len() - prefix,
{
    if prefix < counts.len() {
        lemma_counts_sum_prefix(counts, prefix + 1);
        assert(counts.take(prefix + 1).drop_last() =~= counts.take(prefix));
    } else {
        assert(counts.take(prefix) =~= counts);
    }
}

/// Appends to `indexes` further copies of its tail from `from` on, so that
/// the tail stands there `times` times in all.
fn append_copies(indexes: &mut Vec<u32>, from: usize, times: u32)
    requires
        from <= old(indexes)@.len(),
        times >= 1,
    ensures
        final(indexes)@ == old(indexes)@.take(from as int) + repeated(
            old(indexes)@.skip(from as int),
            times as nat,
        ),
{
    let ghost lead = indexes@.take(from as int);
    let ghost block = indexes@.skip(from as int);
    let end = indexes.len();
    let mut done: u32 = 1;
    proof {
        assert(repeated(block, 0) =~= Seq::<u32>::empty());
        assert(repeated(block, 1) =~= block);
        assert(indexes@ =~= lead + repeated(block, 1));
    }
    while done < times
        invariant
            1 <= done <= times,
            from <= end,
            end - from == block.len(),
            lead.len() == from,
            indexes@ == lead + repeated(block, done as nat),
        decreases times - done,
    {
        let ghost before = indexes@;
        let mut j: usize = from;
        proof {
            assert(block.take(0) =~= Seq::<u32>::empty());
            assert(before + block.take(0) =~= before);
            lemma_repeated_starts_with_block(block, done as nat);
        }
        while j < end
            invariant
                from <= j <= end,
                end - from == block.len(),
                lead.len() == from,
                before == lead + repeated(block, done as nat),
                done >= 1,
                repeated(block, done as nat).take(block.len() as int) == block,
                indexes@ == before + block.take(j - from),
            decreases end - j,
        {
            proof {
                assert(indexes@[j as int] == before[j as int]);
                assert(before[j as int] == repeated(block, done as nat)[j - from]);
                assert(repeated(block, done as nat).take(block.len() as int)[j - from] == block[j
                    - from]);
                assert(block.take(j - from + 1) =~= block.take(j - from).push(block[j - from]));
            }
            let value = indexes[j];
            indexes.push(value);
            proof {
                assert(indexes@ =~= before + block.take(j - from + 1));
            }
            j += 1;
        }
        proof {
            assert(block.take(end - from) =~= block);
            assert(indexes@ =~= lead + (repeated(block, done as nat) + block));
        }
        done += 1;
    }
}

/// Copies of a block begin with the block.
pub proof fn lemma_repeated_starts_with_block(block: Seq<u32>, times: nat)
    requires
        times >= 1,
    ensures
        repeated(block, times).len() == times * block.len(),
        repeated(block, times).take(block.len() as int) == block,
    decreases times,
{
    if times == 1 {
        assert(repeated(block, 0) =~= Seq::<u32>::empty());
        assert(repeated(block, 1) =~= block);
        assert(block.take(block.len() as int) =~= block);
    } else {
        lemma_repeated_starts_with_block(block, (times - 1) as nat);
        let fewer = repeated(block, (times - 1) as nat);
        assert(fewer.len() >= block.len()) by (nonlinear_arith)
            requires
                fewer.len() == (times - 1) * block.len(),
                times >= 2,
        ;
        assert((fewer + block).take(block.len() as int) =~= fewer.take(block.len() as int));
        assert((times - 1) * block.len() + block.len() == times * block.len())
            by (nonlinear_arith);
    }
}

/// Appends to `indexes` the gather indexes of the block at depth `depth` of
/// an array repeated along `axis`, and moves `base_index` past the block.
///
/// `base_index` is the source position at which the block starts. On the
/// last axis every position of the block is appended once, or as often as its
/// count says where the last axis is the repeated one. On any other axis the
/// blocks one axis deeper are appended in turn, each once, or as often as
/// its count says where the axis is the repeated one.
pub fn generate_repeat_indexes(
    shape: &[u32],
    repeats: &[u32],
    axis: u32,
    base_index: &mut u32,
    depth: u32,
    indexes: &mut Vec<u32>,
)
    requires
        depth < shape@.len() <= u32::MAX,
        *old(base_index) + shape_product(shape@.skip(depth as int)) <= u32::MAX,
        counts_usable(shape@, repeats@, axis),
    ensures
        final(indexes)@ == old(indexes)@ + repeat_rows(
            shape@,
            repeats@,
            axis,
            depth as int,
            *old(base_index) as int,
            shape@[depth as int] as int,
        ),
        *final(base_index) == *old(base_index) + shape_product(shape@.skip(depth as int)),
    decreases shape@.len() - depth,
{
    let ghost start = indexes@;
    let ghost base = *base_index as int;
    let ghost block_shape = shape@.skip(depth as int);
    let ghost inner = shape_product(shape@.skip(depth as int + 1)) as int;
    let rows = shape[depth as usize];
    proof {
        assert(block_shape.drop_first() =~= shape@.skip(depth as int + 1));
        assert(block_shape[0] == rows);
        assert(shape_product(block_shape) == (rows as nat) * (inner as nat));
        assert(start + Seq::<u32>::empty() =~= start);
    }
    if depth as usize == shape.len() - 1 {
        proof {
            assert(shape@.skip(depth as int + 1) =~= Seq::<u32>::empty());
            assert(inner == 1);
            assert((rows as nat) * 1 == rows) by (nonlinear_arith);
        }
        let mut i: u32 = 0;
        while i < rows
            invariant
                i <= rows,
                depth == shape@.len() - 1,
                rows == shape@[depth as int],
                *base_index == base,
                base + rows <= u32::MAX,
                counts_usable(shape@, repeats@, axis),
                indexes@ == start + repeat_rows(
                    shape@,
                    repeats@,
                    axis,
                    depth as int,
                    base,
                    i as int,
                ),
            decreases rows - i,
        {
            let ghost before = indexes@;
            let at = indexes.len();
            indexes.push(*base_index + i);
            proof {
                assert(before =~= indexes@.take(at as int));
                assert(indexes@.skip(at as int) =~= seq![(base + i) as u32]);
            }
            if axis == depth {
                proof {
                    assert(repeat_count(repeats@, i as int) >= 1);
                }
                let times = repeats[i as usize % repeats.len()];
                append_copies(indexes, at, times);
            } else {
                proof {
                    let block = seq![(base + i) as u32];
                    assert(repeated(block, 0) =~= Seq::<u32>::empty());
                    assert(repeated(block, 1) =~= block);
                    assert(indexes@ =~= before + repeated(block, 1));
                }
            }
            proof {
                let block = seq![(base + i) as u32];
                let times = if axis == depth {
                    repeat_count(repeats@, i as int)
                } else {
                    1
                };
                assert(indexes@ =~= start + (repeat_rows(
                    shape@,
                    repeats@,
                    axis,
                    depth as int,
                    base,
                    i as int,
                ) + repeated(block, times)));
            }
            i += 1;
        }
        *base_index += rows;
    } else {
        let mut i: u32 = 0;
        proof {
            assert(0 * inner == 0) by (nonlinear_arith);
        }
        while i < rows
            invariant
                i <= rows,
                depth < shape@.len() - 1,
                shape@.len() <= u32::MAX,
                rows == shape@[depth as int],
                0 <= inner,
                inner == shape_product(shape@.skip(depth as int + 1)),
                *base_index == base + i * inner,
                base + rows * inner <= u32::MAX,
                counts_usable(shape@, repeats@, axis),
                indexes@ == start + repeat_rows(
                    shape@,
                    repeats@,
                    axis,
                    depth as int,
                    base,
                    i as int,
                ),
            decreases rows - i,
        {
            let ghost before = indexes@;
            let ghost at_base = *base_index as int;
            proof {
                assert(i * inner + inner <= rows * inner) by (nonlinear_arith)
                    requires
                        i < rows,
                        0 <= inner,
                ;
                assert((i + 1) * inner == i * inner + inner) by (nonlinear_arith);
            }
            let old_count = indexes.len();
            generate_repeat_indexes(shape, repeats, axis, base_index, depth + 1, indexes);
            let ghost block = repeat_rows(
                shape@,
                repeats@,
                axis,
                depth as int + 1,
                at_base,
                shape@[depth as int + 1] as int,
            );
            proof {
                assert(before =~= indexes@.take(old_count as int));
                assert(indexes@.skip(old_count as int) =~= block);
            }
            if axis == depth {
                proof {
                    assert(repeat_count(repeats@, i as int) >= 1);
                }
                let times = repeats[i as usize % repeats.len()];
                append_copies(indexes, old_count, times);
            } else {
                proof {
                    assert(repeated(block, 0) =~= Seq::<u32>::empty());
                    assert(repeated(block, 1) =~= block);
                    assert(indexes@ =~= before + repeated(block, 1));
                }
            }
            proof {
                let times = if axis == depth {
                    repeat_count(repeats@, i as int)
                } else {
                    1
                };
                assert(indexes@ =~= start + (repeat_rows(
                    shape@,
                    repeats@,
                    axis,
                    depth as int,
                    base,
                    i as int,
                ) + repeated(block, times)));
            }
            i += 1;
        }
    }
}

/// The message for a run of counts that matches neither one count nor one
/// count for each element.
pub open spec fn flat_count_message(counts: nat, elements: nat) -> Seq<char> {
    "repeat count "@ + decimal_text(counts) + " is not equal to array of count "@ + decimal_text(
        elements,
    )
}

/// The message for a run of counts that matches neither one count nor one
/// count for each row of the axis.
pub open spec fn axis_count_message(counts: nat, rows: nat, axis: nat) -> Seq<char> {
    "repeat count "@ + decimal_text(counts) + " is not equal to array count "@ + decimal_text(rows)
        + " at axis "@ + decimal_text(axis)
}

/// The message for an axis that the array does not have.
pub open spec fn axis_out_of_bounds_message(axis: nat, rank: nat) -> Seq<char> {
    "axis "@ + decimal_text(axis) + " is out of bounds for array of rank "@ + decimal_text(rank)
}

/// The message for a count of zero along an axis.
pub open spec fn zero_count_message(axis: nat) -> Seq<char> {
    "repeat count of zero at axis "@ + decimal_text(axis)
}

/// What `repeat` returns for an array of shape `shape`: the shape of the
/// result and its gather indexes, or the repeat error.
///
/// Without an axis the array is taken as one run of elements, which is
/// repeated along its single axis.
pub open spec fn repeat_outcome(shape: Seq<u32>, repeats: Seq<u32>, axis: Option<u32>) -> Result<
    (Seq<u32>, Seq<u32>),
    NdArrayErrorView,
> {
    let elements = shape_product(shape);
    match axis {
        None => if repeats.len() != 1 && repeats.len() != elements {
            Err(NdArrayErrorView::Repeat(flat_count_message(repeats.len(), elements)))
        } else {
            let flat = seq![elements as u32];
            Ok((repeat_shape(flat, repeats, 0), repeat_indexes(flat, repeats, 0)))
        },
        Some(y) => if y >= shape.len() {
            Err(NdArrayErrorView::Repeat(axis_out_of_bounds_message(y as nat, shape.len())))
        } else if repeats.len() != 1 && repeats.len() != shape[y as int] {
            Err(
                NdArrayErrorView::Repeat(
                    axis_count_message(repeats.len(), shape[y as int] as nat, y as nat),
                ),
            )
        } else if !counts_usable(shape, repeats, y) {
            Err(NdArrayErrorView::Repeat(zero_count_message(y as nat)))
        } else {
            Ok((repeat_shape(shape, repeats, y), repeat_indexes(shape, repeats, y)))
        },
    }
}

/// The machine limits of a repeat: where the counts match, the repeated axis
/// and the result as a whole stay within what an index can name.
pub open spec fn repeat_fits(shape: Seq<u32>, repeats: Seq<u32>, axis: Option<u32>) -> bool {
    match repeat_outcome(shape, repeats, axis) {
        Err(_) => true,
        Ok((repeated_shape, _)) => match axis {
            None => repeated_size(shape_product(shape) as u32, repeats) <= u32::MAX,
            Some(y) => repeated_size(shape[y as int], repeats) <= u32::MAX && shape_product(
                repeated_shape,
            ) <= u32::MAX,
        },
    }
}

fn flat_count_error(counts: usize, elements: u32) -> (error: NdArrayError)
    ensures
        error_view(error) == NdArrayErrorView::Repeat(
            flat_count_message(counts as nat, elements as nat),
        ),
{
    let mut message = String::from_str("repeat count ");
    message.append(decimal(counts as u64).as_str());
    message.append(" is not equal to array of count ");
    message.append(decimal(elements as u64).as_str());
    NdArrayError::RepeatError(message)
}

fn axis_count_error(counts: usize, rows: u32, axis: u32) -> (error: NdArrayError)
    ensures
        error_view(error) == NdArrayErrorView::Repeat(
            axis_count_message(counts as nat, rows as nat, axis as nat),
        ),
{
    let mut message = String::from_str("repeat count ");
    message.append(decimal(counts as u64).as_str());
    message.append(" is not equal to array count ");
    message.append(decimal(rows as u64).as_str());
    message.append(" at axis ");
    message.append(decimal(axis as u64).as_str());
    NdArrayError::RepeatError(message)
}

fn axis_out_of_bounds_error(axis: u32, rank: usize) -> (error: NdArrayError)
    ensures
        error_view(error) == NdArrayErrorView::Repeat(
            axis_out_of_bounds_message(axis as nat, rank as nat),
        ),
{
    let mut message = String::from_str("axis ");
    message.append(decimal(axis as u64).as_str());
    message.append(" is out of bounds for array of rank ");
    message.append(decimal(rank as u64).as_str());
    NdArrayError::RepeatError(message)
}

fn zero_count_error(axis: u32) -> (error: NdArrayError)
    ensures
        error_view(error) == NdArrayErrorView::Repeat(
            zero_count_message(axis as nat),
        ),
{
    let mut message = String::from_str("repeat count of zero at axis ");
    message.append(decimal(axis as u64).as_str());
    NdArrayError::RepeatError(message)
}

/// Whether the counts that the rows of an axis of `rows` rows use are all at
/// least 1.
fn counts_are_usable(repeats: &[u32], rows: u32) -> (usable: bool)
    requires
        repeats@.len() == 1 || repeats@.len() == rows,
    ensures
        usable == (rows > 0 ==> repeats@.len() > 0 && forall|row: int|
            0 <= row < rows ==> #[trigger] repeat_count(repeats@, row) >= 1),
{
    if rows == 0 {
        return true;
    }
    let mut i: usize = 0;
    while i < repeats.len()
        invariant
            i <= repeats@.len(),
            rows > 0,
            repeats@.len() == 1 || repeats@.len() == rows,
            forall|a: int| 0 <= a < i ==> repeats@[a] >= 1,
        decreases repeats.len() - i,
    {
        if repeats[i] == 0 {
            proof {
                assert(repeat_count(repeats@, i as int) == 0) by {
                    vstd::arithmetic::div_mod::lemma_small_mod(i as nat, repeats@.len());
                }
            }
            return false;
        }
        i += 1;
    }
    proof {
        assert forall|row: int| 0 <= row < rows implies #[trigger] repeat_count(repeats@, row)
            >= 1 by {
            vstd::arithmetic::div_mod::lemma_mod_bound(row, repeats@.len() as int);
        }
    }
    true
}

/// The gather indexes of a run of `elements` elements repeated by `repeats`.
fn flat_repeat_indexes(elements: u32, repeats: &[u32]) -> (indexes: Vec<u32>)
    requires
        elements > 0 ==> repeats@.len() > 0,
    ensures
        indexes@ == repeat_indexes(seq![elements], repeats@, 0),
{
    let ghost flat = seq![elements];
    let mut indexes: Vec<u32> = Vec::new();
    let mut i: u32 = 0;
    while i < elements
        invariant
            i <= elements,
            flat == seq![elements],
            elements > 0 ==> repeats@.len() > 0,
            indexes@ == repeat_rows(flat, repeats@, 0, 0, 0, i as int),
        decreases elements - i,
    {
        let ghost before = indexes@;
        let ghost block = seq![i];
        let times = repeats[i as usize % repeats.len()];
        let mut done: u32 = 0;
        proof {
            assert(before + repeated(block, 0) =~= before);
        }
        while done < times
            invariant
                done <= times,
                block == seq![i],
                indexes@ == before + repeated(block, done as nat),
            decreases times - done,
        {
            indexes.push(i);
            proof {
                assert(indexes@ =~= before + (repeated(block, done as nat) + block));
            }
            done += 1;
        }
        proof {
            assert(seq![(0 + i) as u32] == block);
        }
        i += 1;
    }
    indexes
}

/// Repeats the elements of an array.
///
/// Without an axis the array is taken as one run of elements: with a single
/// count every element appears that often, with one count for each element
/// each appears as often as its count says, and the result has one axis.
/// With an axis the rows along that axis are repeated, by a single count or
/// by one count for each row, and the other axes stay.
///
/// Counts that match neither way, an axis that the array does not have and
/// a count of zero along an axis give a `RepeatError`.
pub fn repeat(arr: &NdArray, repeats: &[u32], axis: Option<u32>) -> (res: NdArrayResult<Gathered>)
    requires
        arr.wf(),
        repeat_fits(arr.shape@, repeats@, axis),
    ensures
        gathered_result_view(res) == repeat_outcome(arr.shape@, repeats@, axis),
        res matches Ok(gathered) ==> {
            &&& gathered.array.wf()
            &&& gathered.array.dtype == arr.dtype
            &&& gathered.indexes@.len() == shape_product(gathered.array.shape@)
            &&& forall|k: int|
                0 <= k < gathered.indexes@.len() ==> gathered.indexes@[k] < shape_product(
                    arr.shape@,
                )
        },
{
    let array_count = match shape_count(arr.shape.as_slice()) {
        Some(count) => count,
        None => 0,
    };
    let dtype = arr.dtype;
    match axis {
        None => {
            if repeats.len() != 1 && repeats.len() as u64 != array_count as u64 {
                return Err(flat_count_error(repeats.len(), array_count));
            }
            let ghost flat = seq![array_count];
            let indexes = flat_repeat_indexes(array_count, repeats);
            let final_length = if repeats.len() == 1 {
                array_count * repeats[0]
            } else {
                sum_counts(repeats)
            };
            let mut shape: Vec<u32> = Vec::new();
            shape.push(final_length);
            proof {
                assert(flat.drop_first() =~= Seq::<u32>::empty());
                assert(shape_product(flat.drop_first()) == 1);
                assert(shape_product(flat) == (flat[0] as nat) * shape_product(flat.drop_first()));
                assert((array_count as nat) * 1 == array_count) by (nonlinear_arith);
                lemma_repeat_indexes_within(flat, repeats@, 0);
                lemma_repeat_indexes_len(flat, repeats@, 0);
                assert(shape@ =~= repeat_shape(flat, repeats@, 0));
                assert(shape@.drop_first() =~= Seq::<u32>::empty());
                assert(shape@[0] == final_length);
                assert(shape_product(shape@.drop_first()) == 1);
                assert(shape_product(shape@) == (shape@[0] as nat) * shape_product(
                    shape@.drop_first(),
                ));
                assert((final_length as nat) * 1 == final_length) by (nonlinear_arith);
            }
            Ok(Gathered { array: NdArray { shape, dims: 1, dtype }, indexes })
        },
        Some(y) => {
            if y as usize >= arr.shape.len() {
                return Err(axis_out_of_bounds_error(y, arr.shape.len()));
            }
            let rows = arr.shape[y as usize];
            if repeats.len() != 1 && repeats.len() as u64 != rows as u64 {
                return Err(axis_count_error(repeats.len(), rows, y));
            }
            if !counts_are_usable(repeats, rows) {
                return Err(zero_count_error(y));
            }
            let mut indexes: Vec<u32> = Vec::new();
            let mut base: u32 = 0;
            proof {
                assert(arr.shape@.skip(0) =~= arr.shape@);
                assert(indexes@ + repeat_indexes(arr.shape@, repeats@, y) =~= repeat_indexes(
                    arr.shape@,
                    repeats@,
                    y,
                ));
            }
            generate_repeat_indexes(arr.shape.as_slice(), repeats, y, &mut base, 0, &mut indexes);
            let shape = generate_repeat_shape(arr.shape.as_slice(), repeats, y);
            proof {
                lemma_repeat_indexes_within(arr.shape@, repeats@, y);
                lemma_repeat_indexes_len(arr.shape@, repeats@, y);
            }
            let dims = shape.len() as u16;
            Ok(Gathered { array: NdArray { shape, dims, dtype }, indexes })
        },
    }
}

/// What holds of every element of a block holds of every element of its
/// copies: they lie in the same range.
pub proof fn lemma_repeated_within(block: Seq<u32>, times: nat, low: int, high: int)
    requires
        forall|i: int| 0 <= i < block.len() ==> low <= #[trigger] block[i] < high,
    ensures
        repeated(block, times).len() == times * block.len(),
        forall|i: int|
            0 <= i < repeated(block, times).len() ==> low <= #[trigger] repeated(block, times)[i]
                < high,
    decreases times,
{
    if times > 0 {
        lemma_repeated_within(block, (times - 1) as nat, low, high);
        assert((times - 1) * block.len() + block.len() == times * block.len())
            by (nonlinear_arith);
    } else {
        assert(0 * block.len() == 0) by (nonlinear_arith);
    }
}

/// The rows of a block are read from the block: every gather index of a
/// repeat lies between the start of the block and the end of its last row.
pub proof fn lemma_repeat_rows_within(
    shape: Seq<u32>,
    repeats: Seq<u32>,
    axis: u32,
    depth: int,
    base: int,
    rows: int,
)
    requires
        0 <= depth < shape.len(),
        0 <= rows <= shape[depth],
        0 <= base,
        base + shape_product(shape.skip(depth)) <= u32::MAX,
    ensures
        forall|i: int|
            0 <= i < repeat_rows(shape, repeats, axis, depth, base, rows).len() ==> base
                <= #[trigger] repeat_rows(shape, repeats, axis, depth, base, rows)[i] < base + rows
                * shape_product(shape.skip(depth + 1)),
    decreases shape.len() - depth, rows,
{
    let inner = shape_product(shape.skip(depth + 1)) as int;
    let block_shape = shape.skip(depth);
    assert(block_shape.drop_first() =~= shape.skip(depth + 1));
    assert(block_shape[0] == shape[depth]);
    assert(shape_product(block_shape) == (shape[depth] as nat) * (inner as nat));
    if rows > 0 {
        let row = rows - 1;
        lemma_repeat_rows_within(shape, repeats, axis, depth, base, rows - 1);
        assert(row * inner + inner == rows * inner) by (nonlinear_arith)
            requires
                row == rows - 1,
        ;
        assert(0 <= row * inner && (rows - 1) * inner <= rows * inner && rows * inner
            <= shape[depth] * inner) by (nonlinear_arith)
            requires
                0 <= row,
                row == rows - 1,
                rows <= shape[depth],
                0 <= inner,
        ;
        let times = if axis == depth {
            repeat_count(repeats, row)
        } else {
            1
        };
        let block = if depth == shape.len() - 1 {
            seq![(base + row) as u32]
        } else {
            repeat_rows(
                shape,
                repeats,
                axis,
                depth + 1,
                base + row * inner,
                shape[depth + 1] as int,
            )
        };
        if depth == shape.len() - 1 {
            assert(shape.skip(depth + 1) =~= Seq::<u32>::empty());
            assert(inner == 1);
            assert(rows * 1 == rows) by (nonlinear_arith);
            assert(shape[depth] * 1 == shape[depth]) by (nonlinear_arith);
        } else {
            let deeper = shape.skip(depth + 1);
            assert(deeper.drop_first() =~= shape.skip(depth + 2));
            assert(deeper[0] == shape[depth + 1]);
            lemma_repeat_rows_within(
                shape,
                repeats,
                axis,
                depth + 1,
                base + row * inner,
                shape[depth + 1] as int,
            );
        }
        lemma_repeated_within(block, times, base + row * inner, base + rows * inner);
        let before = repeat_rows(shape, repeats, axis, depth, base, rows - 1);
        let whole = repeat_rows(shape, repeats, axis, depth, base, rows);
        assert(whole == before + repeated(block, times));
        assert forall|i: int| 0 <= i < whole.len() implies base <= #[trigger] whole[i] < base
            + rows * inner by {
            if i < before.len() {
                assert(whole[i] == before[i]);
            } else {
                assert(whole[i] == repeated(block, times)[i - before.len()]);
            }
        }
    }
}

/// Every gather index of a repeat addresses an element of the array.
pub proof fn lemma_repeat_indexes_within(shape: Seq<u32>, repeats: Seq<u32>, axis: u32)
    requires
        shape.len() > 0,
        shape_product(shape) <= u32::MAX,
    ensures
        forall|i: int|
            0 <= i < repeat_indexes(shape, repeats, axis).len() ==> #[trigger] repeat_indexes(
                shape,
                repeats,
                axis,
            )[i] < shape_product(shape),
{
    assert(shape.skip(0) =~= shape);
    assert(shape.skip(1) =~= shape.drop_first());
    lemma_repeat_rows_within(shape, repeats, axis, 0, 0, shape[0] as int);
}

/// The sum of the counts of the first `rows` rows of the repeated axis.
pub open spec fn counts_total(repeats: Seq<u32>, rows: int) -> nat
    decreases rows,
{
    if rows <= 0 {
        0
    } else {
        counts_total(repeats, rows - 1) + repeat_count(repeats, rows - 1)
    }
}

/// The number of gather indexes of a block at depth `depth`: the product of
/// the sizes from that axis on, with the repeated axis counted by the sum of
/// the counts of its rows.
pub open spec fn repeat_block_len(shape: Seq<u32>, repeats: Seq<u32>, axis: u32, depth: int) -> nat
    decreases shape.len() - depth,
{
    if depth < 0 || depth >= shape.len() {
        1
    } else if axis == depth {
        counts_total(repeats, shape[depth] as int) * repeat_block_len(
            shape,
            repeats,
            axis,
            depth + 1,
        )
    } else {
        (shape[depth] as nat) * repeat_block_len(shape, repeats, axis, depth + 1)
    }
}

/// The rows of a block come to as many gather indexes as their counts say.
pub proof fn lemma_repeat_rows_len(
    shape: Seq<u32>,
    repeats: Seq<u32>,
    axis: u32,
    depth: int,
    base: int,
    rows: int,
)
    requires
        0 <= depth < shape.len(),
        0 <= rows,
    ensures
        repeat_rows(shape, repeats, axis, depth, base, rows).len() == (if axis == depth {
            counts_total(repeats, rows)
        } else {
            rows as nat
        }) * repeat_block_len(shape, repeats, axis, depth + 1),
    decreases shape.len() - depth, rows,
{
    let below = repeat_block_len(shape, repeats, axis, depth + 1);
    if rows > 0 {
        let row = rows - 1;
        let inner = shape_product(shape.skip(depth + 1)) as int;
        lemma_repeat_rows_len(shape, repeats, axis, depth, base, rows - 1);
        let times = if axis == depth {
            repeat_count(repeats, row)
        } else {
            1
        };
        let block = if depth == shape.len() - 1 {
            seq![(base + row) as u32]
        } else {
            repeat_rows(
                shape,
                repeats,
                axis,
                depth + 1,
                base + row * inner,
                shape[depth + 1] as int,
            )
        };
        if depth < shape.len() - 1 {
            lemma_repeat_rows_len(
                shape,
                repeats,
                axis,
                depth + 1,
                base + row * inner,
                shape[depth + 1] as int,
            );
        }
        assert(block.len() == below);
        lemma_repeated_within(block, times, 0, 0x1_0000_0000);
        let before: nat = if axis == depth {
            counts_total(repeats, rows - 1)
        } else {
            (rows - 1) as nat
        };
        assert(before * below + times * below == (before + times) * below) by (nonlinear_arith);
    } else {
        assert(0 * below == 0) by (nonlinear_arith);
    }
}

/// The counts of all the rows of the repeated axis sum to its size
/// afterwards, where there is a single count or one count for each row.
pub proof fn lemma_counts_total(repeats: Seq<u32>, size: u32, rows: int)
    requires
        repeats.len() == 1 || repeats.len() == size,
        0 <= rows <= size,
    ensures
        repeats.len() == 1 ==> counts_total(repeats, rows) == rows * repeats[0],
        repeats.len() == size && repeats.len() != 1 ==> counts_total(repeats, rows) == counts_sum(
            repeats.take(rows),
        ),
        rows == size ==> counts_total(repeats, rows) == repeated_size(size, repeats),
    decreases rows,
{
    if rows > 0 {
        lemma_counts_total(repeats, size, rows - 1);
        if repeats.len() == 1 {
            assert((rows - 1) % 1 == 0);
            assert((rows - 1) * repeats[0] + repeats[0] == rows * repeats[0])
                by (nonlinear_arith);
        } else {
            vstd::arithmetic::div_mod::lemma_small_mod((rows - 1) as nat, repeats.len());
            assert(repeats.take(rows).drop_last() =~= repeats.take(rows - 1));
            assert(repeats.take(rows).last() == repeats[rows - 1]);
        }
    } else {
        assert(repeats.take(0) =~= Seq::<u32>::empty());
        assert(0 * repeats[0] == 0) by (nonlinear_arith);
    }
    if rows == size {
        assert(repeats.len() != 1 ==> repeats.take(rows) =~= repeats);
    }
}

/// The number of gather indexes of a block is the number of elements that
/// the repeated shape has from that axis on.
pub proof fn lemma_repeat_block_len(shape: Seq<u32>, repeats: Seq<u32>, axis: u32, depth: int)
    requires
        0 <= depth <= shape.len(),
        axis < shape.len() ==> (repeats.len() == 1 || repeats.len() == shape[axis as int])
            && repeated_size(shape[axis as int], repeats) <= u32::MAX,
    ensures
        repeat_block_len(shape, repeats, axis, depth) == shape_product(
            repeat_shape(shape, repeats, axis).skip(depth),
        ),
    decreases shape.len() - depth,
{
    let after = repeat_shape(shape, repeats, axis);
    if depth < shape.len() {
        lemma_repeat_block_len(shape, repeats, axis, depth + 1);
        let block = after.skip(depth);
        assert(block.drop_first() =~= after.skip(depth + 1));
        assert(block[0] == after[depth]);
        if axis == depth {
            lemma_counts_total(repeats, shape[depth], shape[depth] as int);
        }
    } else {
        assert(after.skip(depth) =~= Seq::<u32>::empty());
    }
}

/// A repeat gives one gather index for each element of the repeated shape.
pub proof fn lemma_repeat_indexes_len(shape: Seq<u32>, repeats: Seq<u32>, axis: u32)
    requires
        shape.len() > 0,
        axis < shape.len() ==> (repeats.len() == 1 || repeats.len() == shape[axis as int])
            && repeated_size(shape[axis as int], repeats) <= u32::MAX,
    ensures
        repeat_indexes(shape, repeats, axis).len() == shape_product(
            repeat_shape(shape, repeats, axis),
        ),
{
    let after = repeat_shape(shape, repeats, axis);
    lemma_repeat_rows_len(shape, repeats, axis, 0, 0, shape[0] as int);
    lemma_repeat_block_len(shape, repeats, axis, 0);
    lemma_repeat_block_len(shape, repeats, axis, 1);
    assert(after.skip(0) =~= after);
    assert(after.drop_first() =~= after.skip(1));
    assert(after[0] == if axis == 0 {
        repeated_size(shape[0], repeats) as u32
    } else {
        shape[0]
    });
    if axis == 0 {
        lemma_counts_total(repeats, shape[0], shape[0] as int);
    }
}

/// Whether a repeat stays within the machine limits; see [`repeat_fits`].
pub fn check_repeat_fits(arr: &NdArray, repeats: &[u32], axis: Option<u32>) -> (fits: bool)
    requires
        arr.wf(),
    ensures
        fits == repeat_fits(arr.shape@, repeats@, axis),
{
    let elements: u32 = match shape_count(arr.shape.as_slice()) {
        Some(count) => count,
        None => 0,
    };
    match axis {
        None => {
            if repeats.len() != 1 && repeats.len() as u64 != elements as u64 {
                return true;
            }
            size_fits(elements, repeats)
        },
        Some(y) => {
            if y as usize >= arr.shape.len() {
                return true;
            }
            let rows = arr.shape[y as usize];
            if repeats.len() != 1 && repeats.len() as u64 != rows as u64 {
                return true;
            }
            if !counts_are_usable(repeats, rows) {
                return true;
            }
            if !size_fits(rows, repeats) {
                return false;
            }
            let after = generate_repeat_shape(arr.shape.as_slice(), repeats, y);
            shape_count(after.as_slice()).is_some()
        },
    }
}

/// Whether the size of the repeated axis afterwards is one an index can name.
fn size_fits(size: u32, repeats: &[u32]) -> (fits: bool)
    ensures
        fits == (repeated_size(size, repeats@) <= u32::MAX),
{
    if repeats.len() == 1 {
        proof {
            assert(repeated_size(size, repeats@) == (size as nat) * (repeats@[0] as nat));
            assert(size * repeats@[0] <= 0xffff_ffff * 0xffff_ffff) by (nonlinear_arith)
                requires
                    0 <= size <= 0xffff_ffff,
                    0 <= repeats@[0] <= 0xffff_ffff,
            ;
        }
        size as u64 * repeats[0] as u64 <= u32::MAX as u64
    } else {
        let mut sum: u64 = 0;
        let mut i: usize = 0;
        proof {
            assert(repeats@.take(0) =~= Seq::<u32>::empty());
        }
        while i < repeats.len()
            invariant
                i <= repeats@.len(),
                sum == counts_sum(repeats@.take(i as int)),
                sum <= u32::MAX,
            decreases repeats.len() - i,
        {
            proof {
                assert(repeats@.take(i as int + 1).drop_last() =~= repeats@.take(i as int));
                lemma_counts_sum_prefix(repeats@, i as int + 1);
            }
            sum = sum + repeats[i] as u64;
            if sum > u32::MAX as u64 {
                return false;
            }
            i += 1;
        }
        proof {
            assert(repeats@.take(i as int) =~= repeats@);
        }
        true
    }
}

} // verus!
