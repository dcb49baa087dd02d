use webgpupy::{
    generate_repeat_indexes, generate_repeat_shape, repeat, NdArray, NdArrayError, ScalarArrayRef,
};

fn bits(values: &[f32]) -> Vec<u32> {
    values.iter().map(|x| x.to_bits()).collect()
}

fn take(values: &[f32], indexes: &[u32]) -> Vec<f32> {
    indexes.iter().map(|i| values[*i as usize]).collect()
}

fn array(values: &[f32], shape: Vec<u32>) -> NdArray {
    let stored = bits(values);
    NdArray::from_slice(ScalarArrayRef::F32ARRAY(&stored), shape)
}

#[test]
fn test_repeat() {
    let values = [1.0f32, 2.0, 3.0];
    let input = array(&values, vec![1, 1, 3]);
    let new_array = repeat(&input, &vec![2], None).unwrap();
    assert_eq!(take(&values, &new_array.indexes), vec![1.0f32, 1.0, 2.0, 2.0, 3.0, 3.0]);
    assert_eq!(&new_array.array.shape, &[6]);

    let input = array(&values, vec![1, 1, 3]);
    let new_array = repeat(&input, &vec![2, 1, 3], None).unwrap();
    assert_eq!(take(&values, &new_array.indexes), vec![1.0f32, 1.0, 2.0, 3.0, 3.0, 3.0]);
    assert_eq!(&new_array.array.shape, &[6]);
}

#[test]
fn test_generate_repeat_indexes() {
    let mut result_indexes = vec![];
    generate_repeat_indexes(&[1, 1, 3], &[2], 1, &mut 0, 0, &mut result_indexes);
    assert_eq!(&result_indexes, &[0, 1, 2, 0, 1, 2]);

    result_indexes = vec![];
    generate_repeat_indexes(&[1, 2, 3], &[2, 1], 1, &mut 0, 0, &mut result_indexes);
    assert_eq!(&result_indexes, &[0, 1, 2, 0, 1, 2, 3, 4, 5]);

    result_indexes = vec![];
    generate_repeat_indexes(&[3, 1], &[2], 1, &mut 0, 0, &mut result_indexes);
    assert_eq!(&result_indexes, &[0, 0, 1, 1, 2, 2]);

    result_indexes = vec![];
    generate_repeat_indexes(&[3, 1], &[2, 3, 1], 0, &mut 0, 0, &mut result_indexes);
    assert_eq!(&result_indexes, &[0, 0, 1, 1, 1, 2]);
}

#[test]
fn test_repeat_with_axis() {
    let values = [1.0f32, 2.0, 3.0];
    let input = array(&values, vec![1, 1, 3]);
    let new_array = repeat(&input, &vec![2], Some(2)).unwrap();
    assert_eq!(take(&values, &new_array.indexes), vec![1.0f32, 1.0, 2.0, 2.0, 3.0, 3.0]);
    assert_eq!(&new_array.array.shape, &[1, 1, 6]);

    let input = array(&values, vec![1, 1, 3]);
    let new_array = repeat(&input, &vec![1, 2, 3], Some(2)).unwrap();
    assert_eq!(take(&values, &new_array.indexes), vec![1.0f32, 2.0, 2.0, 3.0, 3.0, 3.0]);
    assert_eq!(&new_array.array.shape, &[1, 1, 6]);

    let input = array(&values, vec![1, 1, 3]);
    let new_array = repeat(&input, &vec![2], Some(1)).unwrap();
    assert_eq!(take(&values, &new_array.indexes), vec![1.0f32, 2.0, 3.0, 1.0, 2.0, 3.0]);
    assert_eq!(&new_array.array.shape, &[1, 2, 3]);

    let values = [1.0f32, 2.0, 3.0, 4.0, 5.0, 6.0];
    let input = array(&values, vec![1, 2, 3]);
    let new_array = repeat(&input, &vec![2, 1], Some(1)).unwrap();
    assert_eq!(
        take(&values, &new_array.indexes),
        vec![1.0f32, 2.0, 3.0, 1.0, 2.0, 3.0, 4.0, 5.0, 6.0]
    );
    assert_eq!(&new_array.array.shape, &[1, 3, 3]);
}

#[test]
fn generate_repeat_indexes_moves_the_base_and_appends() {
    let mut result_indexes = vec![7, 7];
    let mut base = 10;
    generate_repeat_indexes(&[2, 2], &[1, 2], 1, &mut base, 0, &mut result_indexes);
    assert_eq!(result_indexes, vec![7, 7, 10, 11, 11, 12, 13, 13]);
    assert_eq!(base, 14);

    let mut result_indexes = vec![];
    let mut base = 4;
    generate_repeat_indexes(&[5, 2], &[3], 1, &mut base, 1, &mut result_indexes);
    assert_eq!(result_indexes, vec![4, 4, 4, 5, 5, 5]);
    assert_eq!(base, 6);
}

#[test]
fn generate_repeat_indexes_axis_out_of_reach() {
    let mut result_indexes = vec![];
    generate_repeat_indexes(&[2, 3], &[2], 5, &mut 0, 0, &mut result_indexes);
    assert_eq!(result_indexes, vec![0, 1, 2, 3, 4, 5]);
}

#[test]
fn generate_repeat_shape_values() {
    assert_eq!(generate_repeat_shape(&[1, 1, 3], &[2], 2), vec![1, 1, 6]);
    assert_eq!(generate_repeat_shape(&[1, 2, 3], &[2, 1], 1), vec![1, 3, 3]);
    assert_eq!(generate_repeat_shape(&[4, 2], &[5], 0), vec![20, 2]);
    assert_eq!(generate_repeat_shape(&[4, 2], &[5], 2), vec![4, 2]);
    assert_eq!(generate_repeat_shape(&[4, 2], &[], 1), vec![4, 0]);
}

#[test]
fn repeat_keeps_rank_in_step_with_shape() {
    let input = array(&[1.0, 2.0, 3.0, 4.0, 5.0, 6.0], vec![1, 2, 3]);
    let new_array = repeat(&input, &[2, 1], Some(1)).unwrap();
    assert_eq!(new_array.array.dims, 3);
    let new_array = repeat(&input, &[2], None).unwrap();
    assert_eq!(new_array.array.dims, 1);
    assert_eq!(new_array.array.shape, vec![12]);
    assert_eq!(new_array.indexes, vec![0, 0, 1, 1, 2, 2, 3, 3, 4, 4, 5, 5]);
}

#[test]
fn repeat_flat_with_zero_counts() {
    let input = array(&[1.0, 2.0, 3.0], vec![3]);
    let new_array = repeat(&input, &[0, 2, 0], None).unwrap();
    assert_eq!(new_array.array.shape, vec![2]);
    assert_eq!(new_array.indexes, vec![1, 1]);
}

fn repeat_error(input: &NdArray, repeats: &[u32], axis: Option<u32>) -> String {
    match repeat(input, repeats, axis) {
        Err(NdArrayError::RepeatError(message)) => message,
        _ => panic!("expected a repeat error"),
    }
}

#[test]
fn repeat_refusals() {
    let input = array(&[1.0, 2.0, 3.0, 4.0, 5.0, 6.0], vec![1, 2, 3]);
    assert_eq!(
        repeat_error(&input, &[1, 2], None),
        "repeat count 2 is not equal to array of count 6"
    );
    assert_eq!(
        repeat_error(&input, &[], None),
        "repeat count 0 is not equal to array of count 6"
    );
    assert_eq!(
        repeat_error(&input, &[1, 2], Some(2)),
        "repeat count 2 is not equal to array count 3 at axis 2"
    );
    assert_eq!(
        repeat_error(&input, &[1, 2], Some(3)),
        "axis 3 is out of bounds for array of rank 3"
    );
    assert_eq!(repeat_error(&input, &[1, 0, 2], Some(2)), "repeat count of zero at axis 2");
    assert_eq!(repeat_error(&input, &[0], Some(0)), "repeat count of zero at axis 0");
}
