use webgpupy::{IndexSlice, IndexSliceOp, IntoIndexSliceOp};

#[test]
fn test_index_slice_iter() {
    let index_slice = IndexSlice::new(0, 4, 1, 10).unwrap();
    assert_eq!([0, 1, 2, 3].as_ref(), &index_slice.iterate().collect());

    let index_slice = IndexSlice::new(0, 4, 2, 10).unwrap();
    assert_eq!([0, 2].as_ref(), &index_slice.iterate().collect());
}

#[test]
fn test_index_slice_iter_rev() {
    let index_slice = IndexSlice::new(-3, -1, 1, 10).unwrap();
    assert_eq!([7, 8].as_ref(), &index_slice.iterate().collect());
}

#[test]
fn index_slice_next_stops_at_stop() {
    let index_slice = IndexSlice::new(0, 4, 2, 10).unwrap();
    let mut iter = index_slice.iterate();
    assert_eq!(iter.next(), Some(0));
    assert_eq!(iter.next(), Some(2));
    assert_eq!(iter.next(), None);
    assert_eq!(iter.next(), None);
}

#[test]
fn index_slice_step_that_passes_stop() {
    let index_slice = IndexSlice::new(3, 10, 2, 10).unwrap();
    assert_eq!(index_slice.element_count(), 4);
    assert_eq!(index_slice.iterate().collect(), vec![3, 5, 7, 9]);
}

#[test]
fn index_slice_descending() {
    let index_slice = IndexSlice::new(9, 2, -3, 10).unwrap();
    assert_eq!(index_slice.start, 9);
    assert_eq!(index_slice.stop, 2);
    assert_eq!(index_slice.step, -3);
    assert_eq!(index_slice.element_count(), 3);
    assert_eq!(index_slice.iterate().collect(), vec![9, 6, 3]);
}

#[test]
fn index_slice_empty() {
    let index_slice = IndexSlice::new(5, 5, 1, 10).unwrap();
    assert_eq!(index_slice.element_count(), 0);
    assert_eq!(index_slice.iterate().collect(), Vec::<u32>::new());
}

#[test]
fn index_slice_element_count_rounds_up() {
    assert_eq!(IndexSlice::new(0, 10, 3, 10).unwrap().element_count(), 4);
    assert_eq!(IndexSlice::new(0, 9, 3, 10).unwrap().element_count(), 3);
    assert_eq!(IndexSlice::new(0, 1, 7, 10).unwrap().element_count(), 1);
    assert_eq!(IndexSlice { start: 0, stop: u32::MAX, step: i32::MIN }.element_count(), 2);
}

#[test]
fn index_slice_new_resolves_negative_ends() {
    let index_slice = IndexSlice::new(-10, -1, 1, 10).unwrap();
    assert_eq!((index_slice.start, index_slice.stop, index_slice.step), (0, 9, 1));
}

#[test]
fn index_slice_new_refuses_ends_beyond_length() {
    assert_eq!(IndexSlice::new(11, 4, 1, 10).unwrap_err(), "Index greater than length");
    assert_eq!(IndexSlice::new(0, 11, 1, 10).unwrap_err(), "Index greater than length");
    assert!(IndexSlice::new(10, 10, 1, 10).is_ok());
}

#[test]
fn index_slice_new_refuses_ends_below_zero() {
    assert_eq!(IndexSlice::new(-11, 4, 1, 10).unwrap_err(), "Index less than negative length");
    assert_eq!(IndexSlice::new(0, -11, 1, 10).unwrap_err(), "Index less than negative length");
}

#[test]
fn index_slice_new_refuses_bad_steps() {
    assert_eq!(IndexSlice::new(0, 4, 0, 10).unwrap_err(), "Step is zero");
    assert_eq!(IndexSlice::new(0, 4, 1 << 40, 10).unwrap_err(), "Step out of range");
    assert_eq!(IndexSlice::new(0, 4, -(1 << 40), 10).unwrap_err(), "Step out of range");
}

fn parts(slice: IndexSlice) -> (u32, u32, i32) {
    (slice.start, slice.stop, slice.step)
}

#[test]
fn into_index_slice_bare_index() {
    assert_eq!(parts(IndexSliceOp::Index(3).into_index_slice(10).unwrap()), (3, 4, 1));
    assert_eq!(parts(IndexSliceOp::Index(-1).into_index_slice(10).unwrap()), (9, 10, 1));
    assert_eq!(parts(IndexSliceOp::Index(-10).into_index_slice(10).unwrap()), (0, 1, 1));
    assert_eq!(
        IndexSliceOp::Index(10).into_index_slice(10).unwrap_err(),
        "Index greater than length"
    );
    assert_eq!(
        IndexSliceOp::Index(i64::MAX).into_index_slice(10).unwrap_err(),
        "Index greater than length"
    );
    assert_eq!(
        IndexSliceOp::Index(-11).into_index_slice(10).unwrap_err(),
        "Index less than negative length"
    );
}

#[test]
fn into_index_slice_ranges() {
    assert_eq!(parts(IndexSliceOp::Range(1..3).into_index_slice(10).unwrap()), (1, 3, 1));
    assert_eq!(parts(IndexSliceOp::RangeFrom(2..).into_index_slice(10).unwrap()), (2, 10, 1));
    assert_eq!(
        parts(IndexSliceOp::RangeWithStep(1..9, 4).into_index_slice(10).unwrap()),
        (1, 9, 4)
    );
    assert_eq!(
        parts(IndexSliceOp::RangeFromWithStep(1.., 4).into_index_slice(10).unwrap()),
        (1, 10, 4)
    );
    assert_eq!(
        parts(IndexSliceOp::RangeWithStep(8..2, -2).into_index_slice(10).unwrap()),
        (8, 2, -2)
    );
}

#[test]
fn into_index_slice_refuses_ranges_without_start() {
    assert_eq!(
        IndexSliceOp::RangeTo(..3).into_index_slice(10).unwrap_err(),
        "Range without a start is not supported"
    );
    assert_eq!(
        IndexSliceOp::RangeToWithStep(..3, 2).into_index_slice(10).unwrap_err(),
        "Range without a start is not supported"
    );
}

#[test]
fn slice_ops_from_values() {
    assert!(matches!(IndexSliceOp::from(5), IndexSliceOp::Index(5)));
    assert!(matches!(IndexSliceOp::from(1..3), IndexSliceOp::Range(r) if r == (1..3)));
    assert!(matches!(IndexSliceOp::from(2..), IndexSliceOp::RangeFrom(r) if r == (2..)));
    assert!(
        matches!(IndexSliceOp::from((1..3, -1)), IndexSliceOp::RangeWithStep(r, -1) if r == (1..3))
    );
    assert!(matches!(7i64.into_slice_op(), IndexSliceOp::Index(7)));
    assert!(matches!((1..3i64).into_slice_op(), IndexSliceOp::Range(r) if r == (1..3)));
    assert!(matches!((2..).into_slice_op(), IndexSliceOp::RangeFrom(r) if r == (2i64..)));
}

#[test]
fn index_slice_can_iterate() {
    assert!(IndexSlice { start: 1, stop: 4, step: 1 }.can_iterate());
    assert!(IndexSlice { start: 4, stop: 4, step: -1 }.can_iterate());
    assert!(IndexSlice { start: 4, stop: 1, step: -2 }.can_iterate());
    assert!(!IndexSlice { start: 4, stop: 1, step: 2 }.can_iterate());
    assert!(!IndexSlice { start: 1, stop: 4, step: -2 }.can_iterate());
    assert!(!IndexSlice { start: 1, stop: 4, step: 0 }.can_iterate());
}
