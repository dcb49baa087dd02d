use webgpupy::{Dtype, IndexSliceOp, NdArray, NdArrayError, ScalarArrayRef};

fn take<T: Copy>(values: &[T], indexes: &[u32]) -> Vec<T> {
    indexes.iter().map(|i| values[*i as usize]).collect()
}

fn bits(values: &[f32]) -> Vec<u32> {
    values.iter().map(|x| x.to_bits()).collect()
}

#[test]
fn test_get_items() {
    let values = (0..300).collect::<Vec<i32>>();
    let array = NdArray::from_slice(values.as_slice().into(), vec![10, 10, 3]);
    let slices = vec![(1..3).into()];

    let result = (30..90).collect::<Vec<i32>>();

    let items = array.get_items(&slices).unwrap();

    assert_eq!(&items.array.shape, &[2, 10, 3]);

    assert_eq!(take(&values, &items.indexes), result);
}

#[test]
fn test_get_items_mixed() {
    let values = (0..300).map(|x| x as f32).collect::<Vec<f32>>();
    let stored = bits(&values);
    let array = NdArray::from_slice(ScalarArrayRef::F32ARRAY(&stored), vec![10, 10, 3]);
    let slices = vec![(5..7).into(), (1..2).into()];

    let items = array.get_items(&slices).unwrap();

    assert_eq!(&items.array.shape, &[2, 1, 3]);

    assert_eq!(
        take(&values, &items.indexes),
        vec![153.0f32, 154.0, 155.0, 183.0, 184.0, 185.0]
    );
}

#[test]
fn test_get_items_all() {
    let values = (0..300).map(|x| x as f32).collect::<Vec<f32>>();
    let stored = bits(&values);
    let array = NdArray::from_slice(ScalarArrayRef::F32ARRAY(&stored), vec![10, 10, 3]);

    let items = array.get_items(&[(5..7).into(), (1..2).into(), (2..).into()]).unwrap();

    assert_eq!(&items.array.shape, &[2, 1, 1]);

    assert_eq!(take(&values, &items.indexes), vec![155.0f32, 185.0]);
}

#[test]
fn test_get_items_index() {
    let values = (0..300).map(|x| x as f32).collect::<Vec<f32>>();
    let stored = bits(&values);
    let array = NdArray::from_slice(ScalarArrayRef::F32ARRAY(&stored), vec![10, 10, 3]);

    let items = array.get_items(&[5.into(), 1.into()]).unwrap();

    assert_eq!(&items.array.shape, &[3]);

    assert_eq!(take(&values, &items.indexes), vec![153.0f32, 154.0, 155.0]);
}

#[test]
fn test_get_items_last() {
    let values = (0..1500).map(|x| x as f32).collect::<Vec<f32>>();
    let stored = bits(&values);
    let array = NdArray::from_slice(ScalarArrayRef::F32ARRAY(&stored), vec![10, 50, 3]);

    for i in 0..3 {
        let items = array.get_items(&[(0..).into(), (0..).into(), i.into()]).unwrap();

        let result = (0..500).into_iter().map(|x| ((x * 3) + i) as f32).collect::<Vec<f32>>();

        assert_eq!(&items.array.shape, &[10, 50]);

        assert_eq!(take(&values, &items.indexes), result);
    }
}

#[test]
fn get_items_keeps_rank_in_step_with_shape() {
    let array = NdArray::describe(vec![10, 10, 3], Dtype::Int32).unwrap();
    let items = array.get_items(&[5.into(), (1..4).into()]).unwrap();
    assert_eq!(items.array.shape, vec![3, 3]);
    assert_eq!(items.array.dims, 2);
    assert_eq!(items.array.dtype, Dtype::Int32);
    let items = array.get_items(&[5.into(), 1.into(), 2.into()]).unwrap();
    assert_eq!(items.array.shape, Vec::<u32>::new());
    assert_eq!(items.array.dims, 0);
    assert_eq!(items.indexes, vec![155]);
}

#[test]
fn get_items_full_range_gives_the_array_back() {
    let array = NdArray::describe(vec![4, 5, 6], Dtype::UInt16).unwrap();
    let items = array.get_items(&[(0..).into(), (0..5).into(), (0..).into()]).unwrap();
    assert_eq!(items.array.shape, vec![4, 5, 6]);
    assert_eq!(items.indexes, (0..120).collect::<Vec<u32>>());
    let items = array.get_items(&[(0..).into()]).unwrap();
    assert_eq!(items.array.shape, vec![4, 5, 6]);
    assert_eq!(items.indexes, (0..120).collect::<Vec<u32>>());
}

#[test]
fn get_items_with_steps() {
    let array = NdArray::describe(vec![4, 5], Dtype::UInt16).unwrap();
    let items = array.get_items(&[(3..0, -2).into(), (0..5, 2).into()]).unwrap();
    assert_eq!(items.array.shape, vec![2, 3]);
    assert_eq!(items.indexes, vec![15, 17, 19, 5, 7, 9]);
}

#[test]
fn get_items_negative_index_counts_from_the_end() {
    let array = NdArray::describe(vec![4, 5], Dtype::UInt16).unwrap();
    let items = array.get_items(&[(-1).into()]).unwrap();
    assert_eq!(items.array.shape, vec![5]);
    assert_eq!(items.indexes, vec![15, 16, 17, 18, 19]);
}

#[test]
fn get_items_ignores_requests_beyond_the_last_axis() {
    let array = NdArray::describe(vec![2, 2], Dtype::UInt16).unwrap();
    let items = array.get_items(&[1.into(), (0..).into(), 9.into()]).unwrap();
    assert_eq!(items.array.shape, vec![2]);
    assert_eq!(items.indexes, vec![2, 3]);
}

#[test]
fn get_items_on_an_empty_axis() {
    let array = NdArray::describe(vec![70000, 70000, 0], Dtype::UInt16).unwrap();
    let items = array.get_items(&[(0..2).into()]).unwrap();
    assert_eq!(items.array.shape, vec![2, 70000, 0]);
    assert_eq!(items.indexes, Vec::<u32>::new());
}

fn slice_error(array: &NdArray, slices: &[IndexSliceOp]) -> String {
    match array.get_items(slices) {
        Err(NdArrayError::SliceError(message)) => message,
        _ => panic!("expected a slice error"),
    }
}

#[test]
fn get_items_refusals() {
    let array = NdArray::describe(vec![4, 5], Dtype::UInt16).unwrap();
    assert_eq!(slice_error(&array, &[]), "cant get items from empty slice");
    assert_eq!(slice_error(&array, &[(0..5).into()]), "Index greater than length");
    assert_eq!(slice_error(&array, &[(0..).into(), 5.into()]), "Index greater than length");
    assert_eq!(slice_error(&array, &[(-5..2).into()]), "Index less than negative length");
    assert_eq!(slice_error(&array, &[(0..2, 0).into()]), "Step is zero");
    assert_eq!(slice_error(&array, &[(3..1).into()]), "Slice step points away from its stop");
    assert_eq!(slice_error(&array, &[(1..3, -1).into()]), "Slice step points away from its stop");
    assert_eq!(slice_error(&array, &[(4..0, -1).into()]), "Index greater than length");
    assert_eq!(
        slice_error(&array, &[IndexSliceOp::RangeTo(..2)]),
        "Range without a start is not supported"
    );
    assert_eq!(
        slice_error(&array, &[(3..1).into(), 9.into()]),
        "Slice step points away from its stop"
    );
}

#[test]
fn get_items_indexes_are_those_of_a_strided_view() {
    let array = NdArray::describe(vec![5, 6, 7], Dtype::UInt16).unwrap();
    let items = array.get_items(&[(4..0, -2).into(), 3.into(), (1..7, 3).into()]).unwrap();
    assert_eq!(items.array.shape, vec![2, 2]);
    let mut expected = vec![];
    for a in [4u32, 2] {
        for c in [1u32, 4] {
            expected.push(a * 42 + 3 * 7 + c);
        }
    }
    assert_eq!(items.indexes, expected);
}
