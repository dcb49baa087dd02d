use webgpupy::{
    check_mask, finish_ufunc, ufunc_nin1_nout1, ufunc_nin2_nout1, Dtype, Gathered, KernelOutput,
    NdArray, NdArrayError, ScalarArrayRef, ScalarValue, UfuncStep,
};

fn bits(values: &[f32]) -> Vec<u32> {
    values.iter().map(|x| x.to_bits()).collect()
}

fn array(values: &[f32], shape: Vec<u32>) -> NdArray {
    let stored = bits(values);
    NdArray::from_slice(ScalarArrayRef::F32ARRAY(&stored), shape)
}

fn mask(values: &[bool], shape: Vec<u32>) -> NdArray {
    NdArray::from_slice(ScalarArrayRef::BOOLARRAY(values), shape)
}

fn input(values: &[f32], gathered: &Option<Gathered>) -> Vec<f32> {
    match gathered {
        Some(gathered) => gathered.indexes.iter().map(|i| values[*i as usize]).collect(),
        None => values.to_vec(),
    }
}

fn merge(values: Vec<f32>, zero: &ScalarValue, len: usize, mask: &[bool]) -> Vec<f32> {
    let zero = match zero {
        ScalarValue::F32(bits) => f32::from_bits(*bits),
        _ => panic!("expected a float zero"),
    };
    let zeros = vec![zero; len];
    (0..values.len()).map(|i| if mask[i] { values[i] } else { zeros[i] }).collect()
}

fn binary(
    kernel: fn(f32, f32) -> f32,
    a: (&[f32], Vec<u32>),
    b: (&[f32], Vec<u32>),
    where_: Option<(&[bool], Vec<u32>)>,
) -> (Vec<u32>, Vec<f32>) {
    let arr1 = array(a.0, a.1);
    let arr2 = array(b.0, b.1);
    let where_array = where_.as_ref().map(|(values, shape)| mask(values, shape.clone()));
    let mut data = vec![];
    let result = ufunc_nin2_nout1(
        |first: Option<Gathered>, second: Option<Gathered>| {
            let x = input(a.0, &first);
            let y = input(b.0, &second);
            data = (0..x.len()).map(|i| kernel(x[i], y[i])).collect();
            KernelOutput { dtype: Dtype::Float32, len: data.len() }
        },
        &arr1,
        &arr2,
        where_array.as_ref(),
        None,
    )
    .unwrap();
    for step in &result.steps {
        match step {
            UfuncStep::Merge(step) => {
                data = merge(data, &step.zero, step.len, where_.as_ref().unwrap().0);
            }
            UfuncStep::Cast(_) => panic!("no cast was asked for"),
        }
    }
    assert_eq!(result.steps.len(), if where_.is_some() { 1 } else { 0 });
    assert_eq!(result.array.dtype, Dtype::Float32);
    assert_eq!(result.array.dims as usize, result.array.shape.len());
    (result.array.shape, data)
}

#[test]
fn test_multiply() {
    let (shape, data) = binary(
        |x, y| x * y,
        (&[1.0f32, 2.0, 3.0], vec![3]),
        (&[1.0, 2.0], vec![1, 2, 1]),
        None,
    );

    assert_eq!(shape, [1, 2, 3]);

    assert_eq!(data, vec![1.0, 2.0, 3.0, 2.0, 4.0, 6.0]);
}

#[test]
fn add_broadcasts_and_masks_with_zero() {
    let (shape, data) = binary(
        |x, y| x + y,
        (&[1.0f32, 2.0, 3.0], vec![3]),
        (&[10.0, 20.0], vec![1, 2, 1]),
        Some((&[true, false, true, false, false, true], vec![1, 2, 3])),
    );
    assert_eq!(shape, [1, 2, 3]);
    assert_eq!(data, vec![11.0, 0.0, 13.0, 0.0, 0.0, 23.0]);
}

#[test]
fn binary_ufunc_hands_matching_inputs_over_as_they_are() {
    let arr1 = array(&[1.0, 2.0, 3.0, 4.0], vec![2, 2]);
    let arr2 = array(&[1.0, 2.0], vec![2]);
    let result = ufunc_nin2_nout1(
        |first: Option<Gathered>, second: Option<Gathered>| {
            assert!(first.is_none());
            let second = second.unwrap();
            assert_eq!(second.array.shape, vec![2, 2]);
            assert_eq!(second.indexes, vec![0, 1, 0, 1]);
            KernelOutput { dtype: Dtype::Bool, len: 4 }
        },
        &arr1,
        &arr2,
        None,
        Some(Dtype::UInt8),
    )
    .unwrap();
    assert_eq!(result.array.shape, vec![2, 2]);
    assert_eq!(result.array.dims, 2);
    assert_eq!(result.array.dtype, Dtype::UInt8);
    assert!(matches!(result.steps.as_slice(), [UfuncStep::Cast(Dtype::UInt8)]));
}

#[test]
fn binary_ufunc_masks_with_zero_of_the_result_kind() {
    let arr1 = array(&[1.0, 2.0], vec![2]);
    let arr2 = array(&[1.0, 2.0], vec![2]);
    let where_ = mask(&[true, false], vec![2]);
    let result = ufunc_nin2_nout1(
        |_: Option<Gathered>, _: Option<Gathered>| KernelOutput { dtype: Dtype::Bool, len: 2 },
        &arr1,
        &arr2,
        Some(&where_),
        Some(Dtype::Bool),
    )
    .unwrap();
    match result.steps.as_slice() {
        [UfuncStep::Merge(step)] => {
            assert!(matches!(step.zero, ScalarValue::BOOL(false)));
            assert_eq!(step.len, 2);
        }
        _ => panic!("expected a merge and nothing else"),
    }
    assert_eq!(result.array.dtype, Dtype::Bool);
}

#[test]
fn binary_ufunc_refusals() {
    let arr1 = array(&[1.0, 2.0], vec![2]);
    let arr2 = array(&[1.0, 2.0, 3.0], vec![3]);
    let kernel = |_: Option<Gathered>, _: Option<Gathered>| -> KernelOutput {
        panic!("the kernel must not run")
    };
    match ufunc_nin2_nout1(kernel, &arr1, &arr2, None, None) {
        Err(NdArrayError::BroadcastError(message)) => {
            assert_eq!(message, "Cannot broadcast shapes [2], [3]")
        }
        _ => panic!("expected a broadcast error"),
    }
    let arr2 = array(&[1.0, 2.0], vec![1, 2, 1]);
    let where_ = array(&[1.0, 0.0, 1.0, 0.0], vec![1, 2, 2]);
    match ufunc_nin2_nout1(kernel, &arr1, &arr2, Some(&where_), None) {
        Err(NdArrayError::DtypeError(message)) => {
            assert_eq!(message, "Mask is not of boolean type")
        }
        _ => panic!("expected a dtype error"),
    }
    let where_ = mask(&[true, false], vec![2]);
    match ufunc_nin2_nout1(kernel, &arr1, &arr2, Some(&where_), None) {
        Err(NdArrayError::BroadcastError(message)) => {
            assert_eq!(message, "Cannot apply mask of shape [2] to result of shape [1, 2, 2]")
        }
        _ => panic!("expected a broadcast error"),
    }
}

#[test]
fn test_sin_f32_mask_mixed() {
    let values = [1.0f32, 1.0];
    let where_values = [true, false];
    let input_ndarray = array(&values, vec![2]);
    let mask_array = mask(&where_values, vec![2]);
    let mut data = vec![];
    let result = ufunc_nin1_nout1(
        |_: &NdArray| {
            data = values.iter().map(|x| x.sin()).collect();
            KernelOutput { dtype: Dtype::Float32, len: 2 }
        },
        &input_ndarray,
        Some(&mask_array),
        None,
    )
    .unwrap();
    let data = match result.steps.as_slice() {
        [UfuncStep::Merge(step)] => merge(data, &step.zero, step.len, &where_values),
        _ => panic!("expected a merge and nothing else"),
    };
    assert_eq!(data, vec![1.0f32.sin(), 0.0]);
    assert_eq!(result.array.shape, vec![2]);
}

#[test]
fn unary_ufunc_without_mask_keeps_the_shape() {
    let input_ndarray = NdArray::describe(vec![2, 3], Dtype::UInt8).unwrap();
    let result = ufunc_nin1_nout1(
        |x: &NdArray| {
            assert_eq!(x.shape, vec![2, 3]);
            KernelOutput { dtype: Dtype::Float32, len: 6 }
        },
        &input_ndarray,
        None,
        None,
    )
    .unwrap();
    assert_eq!(result.array.shape, vec![2, 3]);
    assert_eq!(result.array.dims, 2);
    assert_eq!(result.array.dtype, Dtype::Float32);
    assert!(result.steps.is_empty());
}

#[test]
fn unary_ufunc_masks_with_zero_of_the_input_kind() {
    let input_ndarray = NdArray::describe(vec![2, 3], Dtype::UInt8).unwrap();
    let where_ = NdArray::describe(vec![2, 3], Dtype::Bool).unwrap();
    let result = ufunc_nin1_nout1(
        |_: &NdArray| KernelOutput { dtype: Dtype::Float32, len: 6 },
        &input_ndarray,
        Some(&where_),
        Some(Dtype::Int16),
    )
    .unwrap();
    match result.steps.as_slice() {
        [UfuncStep::Merge(step), UfuncStep::Cast(Dtype::Int16)] => {
            assert!(matches!(step.zero, ScalarValue::U8(0)));
            assert_eq!(step.len, 6);
        }
        _ => panic!("expected a merge, then a cast"),
    }
    assert_eq!(result.array.dtype, Dtype::Int16);
}

#[test]
fn unary_ufunc_refusals() {
    let input_ndarray = NdArray::describe(vec![2, 3], Dtype::UInt8).unwrap();
    let kernel = |_: &NdArray| -> KernelOutput { panic!("the kernel must not run") };
    let where_ = NdArray::describe(vec![2, 3], Dtype::UInt8).unwrap();
    assert!(matches!(
        ufunc_nin1_nout1(kernel, &input_ndarray, Some(&where_), None),
        Err(NdArrayError::DtypeError(_))
    ));
    let where_ = NdArray::describe(vec![3], Dtype::Bool).unwrap();
    match ufunc_nin1_nout1(kernel, &input_ndarray, Some(&where_), None) {
        Err(NdArrayError::BroadcastError(message)) => {
            assert_eq!(message, "Cannot apply mask of shape [3] to result of shape [2, 3]")
        }
        _ => panic!("expected a broadcast error"),
    }
}

#[test]
fn check_mask_and_finish() {
    assert!(check_mask(None, &[2]).is_ok());
    let where_ = NdArray::describe(vec![2], Dtype::Bool).unwrap();
    assert!(check_mask(Some(&where_), &[2]).is_ok());
    assert!(check_mask(Some(&where_), &[1, 2]).is_err());
    let output = finish_ufunc(vec![4, 5], true, Dtype::Int32, 20, Dtype::Int32, None);
    assert_eq!(output.array.shape, vec![4, 5]);
    assert_eq!(output.array.dims, 2);
    assert_eq!(output.array.dtype, Dtype::Int32);
    match output.steps.as_slice() {
        [UfuncStep::Merge(step)] => {
            assert!(matches!(step.zero, ScalarValue::I32(0)));
            assert_eq!(step.len, 20);
        }
        _ => panic!("expected a merge and nothing else"),
    }
    let output = finish_ufunc(vec![4], true, Dtype::Int32, 4, Dtype::Bool, Some(Dtype::UInt8));
    assert!(matches!(output.steps.as_slice(), [UfuncStep::Merge(_), UfuncStep::Cast(Dtype::UInt8)]));
    assert_eq!(output.array.dtype, Dtype::UInt8);
}
