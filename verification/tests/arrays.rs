use webgpupy::{
    check_broadcast_fits, check_clip_fits, check_repeat_fits, check_stack_fits, check_where_fits,
    shape_fits,
};
use webgpupy::{
    any, arange, arange_op, clip, cos_types, cross, cross_launch, dstack, full, ones,
    recast_shape, sin_types, validate_and_genereate_new_shapes, where_, zeros, Dtype, DtypePy,
    Holder, IndexSlice, NdArray, NdArrayError, Operand, OperandType, ScalarArrayRef, ScalarValue,
    UfuncType,
};

fn bits(values: &[f32]) -> Vec<u32> {
    values.iter().map(|x| x.to_bits()).collect()
}

fn array(values: &[f32], shape: Vec<u32>) -> NdArray {
    let stored = bits(values);
    NdArray::from_slice(ScalarArrayRef::F32ARRAY(&stored), shape)
}

fn input<T: Copy>(values: &[T], gathered: &Option<webgpupy::Gathered>) -> Vec<T> {
    match gathered {
        Some(gathered) => gathered.indexes.iter().map(|i| values[*i as usize]).collect(),
        None => values.to_vec(),
    }
}

#[test]
fn test_arange() {
    let input_1 = arange(None, 10, None, None).unwrap();
    let result = (0..10).into_iter().collect::<Vec<u32>>();
    assert_eq!(input_1.values, result);

    let input_1 = arange(Some(2), 10, None, None).unwrap();
    let result = (2..10).into_iter().collect::<Vec<u32>>();
    assert_eq!(input_1.values, result);

    let input_1 = arange(Some(3), 10, Some(2), None).unwrap();
    let result = (3..10).into_iter().step_by(2).collect::<Vec<u32>>();
    assert_eq!(input_1.values, result);
}

#[test]
fn arange_describes_one_axis_of_unsigned_integers() {
    let range = arange(Some(3), 10, Some(2), Some(Dtype::UInt32)).unwrap();
    assert_eq!(range.array.shape, vec![4]);
    assert_eq!(range.array.dims, 1);
    assert_eq!(range.array.dtype, Dtype::UInt32);
    let range = arange(Some(10), 0, Some(-3), None).unwrap();
    assert_eq!(range.values, vec![10, 7, 4, 1]);
    assert_eq!(range.array.shape, vec![4]);
    assert_eq!(arange_op(&IndexSlice { start: 1, stop: 4, step: 1 }), vec![1, 2, 3]);
}

#[test]
fn arange_refusals() {
    assert!(matches!(
        arange(None, 10, Some(0), None),
        Err(NdArrayError::SliceError(message)) if message == "Step is zero"
    ));
    assert!(matches!(
        arange(Some(10), 0, None, None),
        Err(NdArrayError::SliceError(message)) if message == "Slice step points away from its stop"
    ));
    assert!(matches!(
        arange(None, 10, None, Some(Dtype::Float32)),
        Err(NdArrayError::DtypeError(message)) if message == "arange supports only uint32"
    ));
    assert!(matches!(
        arange(None, 10, Some(0), Some(Dtype::Float32)),
        Err(NdArrayError::SliceError(_))
    ));
}

#[test]
fn test_where() {
    let x_values = [1.0f32, 2.0, 3.0];
    let y_values = [10.0f32];
    let mask_values = [true, false, false];
    let input_1 = array(&x_values, vec![1, 1, 3]);
    let input_2 = array(&y_values, vec![1]);
    let mask = NdArray::from_slice(ScalarArrayRef::BOOLARRAY(&mask_values), vec![1, 1, 3]);
    let inputs = where_(&mask, &input_1, &input_2).unwrap();
    let x = input(&x_values, &inputs.x);
    let y = input(&y_values, &inputs.y);
    let m = input(&mask_values, &inputs.mask);
    let merged: Vec<f32> = (0..m.len()).map(|i| if m[i] { x[i] } else { y[i] }).collect();
    assert_eq!(merged, vec![1.0f32, 10.0, 10.0]);

    let mask_values = [false, false, false];
    let mask = NdArray::from_slice(ScalarArrayRef::BOOLARRAY(&mask_values), vec![1, 1, 3]);
    let inputs = where_(&mask, &input_1, &input_2).unwrap();
    let x = input(&x_values, &inputs.x);
    let y = input(&y_values, &inputs.y);
    let m = input(&mask_values, &inputs.mask);
    let merged: Vec<f32> = (0..m.len()).map(|i| if m[i] { x[i] } else { y[i] }).collect();
    assert_eq!(merged, vec![10.0f32, 10.0, 10.0]);
}

#[test]
fn where_gathers_what_lacks_the_common_shape() {
    let x = NdArray::describe(vec![2, 3], Dtype::Int32).unwrap();
    let y = NdArray::describe(vec![3], Dtype::Int32).unwrap();
    let mask = NdArray::describe(vec![2, 1], Dtype::Bool).unwrap();
    let inputs = where_(&mask, &x, &y).unwrap();
    assert!(inputs.x.is_none());
    assert_eq!(inputs.y.unwrap().indexes, vec![0, 1, 2, 0, 1, 2]);
    assert_eq!(inputs.mask.unwrap().indexes, vec![0, 0, 0, 1, 1, 1]);
    assert_eq!(inputs.array.shape, vec![2, 3]);
    assert_eq!(inputs.array.dims, 2);
    assert_eq!(inputs.array.dtype, Dtype::Int32);
}

#[test]
fn where_refusals() {
    let x = NdArray::describe(vec![2, 3], Dtype::Int32).unwrap();
    let y = NdArray::describe(vec![2], Dtype::Int32).unwrap();
    let mask = NdArray::describe(vec![2, 1], Dtype::Bool).unwrap();
    assert!(matches!(
        where_(&x, &x, &y),
        Err(NdArrayError::DtypeError(message)) if message == "Mask is not of boolean type"
    ));
    assert!(matches!(
        where_(&mask, &x, &y),
        Err(NdArrayError::BroadcastError(message)) if message == "Cannot broadcast shapes [2, 3], [2]"
    ));
    let mask = NdArray::describe(vec![4, 1], Dtype::Bool).unwrap();
    assert!(matches!(
        where_(&mask, &x, &x),
        Err(NdArrayError::BroadcastError(message)) if message == "Cannot broadcast shapes [4, 1], [2, 3]"
    ));
}

fn clipped(values: &[f32], lower: Option<&[f32]>, upper: Option<&[f32]>) -> Vec<f32> {
    let arr1 = array(values, vec![values.len() as u32]);
    let min_values = lower.map(|x| array(x, vec![x.len() as u32]));
    let max_values = upper.map(|x| array(x, vec![x.len() as u32]));
    let inputs = clip(&arr1, min_values.as_ref(), max_values.as_ref()).unwrap();
    let mut data = input(values, &inputs.values);
    if let Some(bound) = &inputs.lower {
        let bound = input(lower.unwrap(), bound);
        data = (0..data.len()).map(|i| data[i].max(bound[i])).collect();
    }
    if let Some(bound) = &inputs.upper {
        let bound = input(upper.unwrap(), bound);
        data = (0..data.len()).map(|i| data[i].min(bound[i])).collect();
    }
    data
}

#[test]
fn test_clip() {
    let values = [1.0, 2.0, 3.0, 100.0];

    assert_eq!(clipped(&values, Some(&[2.0]), None), vec![2.0, 2.0, 3.0, 100.0]);

    assert_eq!(clipped(&values, None, Some(&[50.0])), vec![1.0, 2.0, 3.0, 50.0]);

    assert_eq!(clipped(&values, Some(&[2.0]), Some(&[50.0])), vec![2.0, 2.0, 3.0, 50.0]);
}

#[test]
fn clip_broadcasts_to_the_common_shape() {
    let a = NdArray::describe(vec![3], Dtype::Int16).unwrap();
    let lower = NdArray::describe(vec![2, 1], Dtype::Int16).unwrap();
    let upper = NdArray::describe(vec![2, 3], Dtype::Int16).unwrap();
    let inputs = clip(&a, Some(&lower), Some(&upper)).unwrap();
    assert_eq!(inputs.array.shape, vec![2, 3]);
    assert_eq!(inputs.array.dims, 2);
    assert_eq!(inputs.array.dtype, Dtype::Int16);
    assert_eq!(inputs.values.unwrap().indexes, vec![0, 1, 2, 0, 1, 2]);
    assert_eq!(inputs.lower.unwrap().unwrap().indexes, vec![0, 0, 0, 1, 1, 1]);
    assert!(inputs.upper.unwrap().is_none());
    let inputs = clip(&a, None, Some(&a)).unwrap();
    assert!(inputs.lower.is_none());
    assert!(inputs.values.is_none());
    assert!(inputs.upper.unwrap().is_none());
}

#[test]
fn clip_refusals() {
    let a = NdArray::describe(vec![3], Dtype::Int16).unwrap();
    let two = NdArray::describe(vec![2], Dtype::Int16).unwrap();
    let column = NdArray::describe(vec![2, 1], Dtype::Int16).unwrap();
    assert!(matches!(
        clip(&a, Some(&two), None),
        Err(NdArrayError::BroadcastError(message)) if message == "Cannot broadcast shapes [3], [2]"
    ));
    assert!(matches!(
        clip(&a, Some(&column), Some(&two)),
        Err(NdArrayError::BroadcastError(message)) if message == "Cannot broadcast shapes [2, 3], [2]"
    ));
}

fn stacked(inputs: &[(&[f32], Vec<u32>)]) -> (Vec<u32>, Vec<f32>) {
    let arrays: Vec<NdArray> = inputs.iter().map(|(v, s)| array(v, s.clone())).collect();
    let refs: Vec<&NdArray> = arrays.iter().collect();
    let stacked = dstack(&refs).unwrap();
    let zero = match stacked.array.value {
        ScalarValue::F32(bits) => f32::from_bits(bits),
        _ => panic!("expected a float zero"),
    };
    let mut data = vec![zero; stacked.array.len];
    for (k, put) in stacked.puts.iter().enumerate() {
        for (src, dst) in put.src_indexes.iter().zip(put.dst_indexes.iter()) {
            data[*dst as usize] = inputs[k].0[*src as usize];
        }
    }
    (stacked.array.array.shape, data)
}

#[test]
fn test_dstack_2() {
    let (_, data) = stacked(&[
        (&[1.0f32, 2.0, 3.0, 4.0], vec![2, 2, 1]),
        (&[5.0f32, 6.0, 7.0, 8.0], vec![2, 2, 1]),
    ]);
    assert_eq!(data, vec![1.0f32, 5.0, 2.0, 6.0, 3.0, 7.0, 4.0, 8.0]);
}

#[test]
fn test_dstack_3() {
    let (_, data) = stacked(&[
        (&[1.0f32, 2.0, 3.0, 4.0], vec![2, 2, 1]),
        (&[5.0f32, 6.0, 7.0, 8.0], vec![2, 2, 1]),
        (&[9.0f32, 10.0, 11.0, 12.0], vec![2, 2, 1]),
    ]);
    assert_eq!(data, vec![1.0f32, 5.0, 9.0, 2.0, 6.0, 10.0, 3.0, 7.0, 11.0, 4.0, 8.0, 12.0]);
}

#[test]
fn dstack_of_arrays_of_two_axes_adds_a_third() {
    let (shape, data) =
        stacked(&[(&[1.0f32, 2.0, 3.0, 4.0], vec![2, 2]), (&[5.0f32, 6.0, 7.0, 8.0], vec![2, 2])]);
    assert_eq!(shape, vec![2, 2, 2]);
    assert_eq!(data, vec![1.0f32, 5.0, 2.0, 6.0, 3.0, 7.0, 4.0, 8.0]);
}

#[test]
fn dstack_of_deeper_arrays_keeps_their_rows_together() {
    let (shape, data) = stacked(&[
        (&[1.0f32, 2.0, 3.0, 4.0], vec![1, 2, 2]),
        (&[5.0f32, 6.0, 7.0, 8.0], vec![1, 2, 2]),
    ]);
    assert_eq!(shape, vec![1, 2, 4]);
    assert_eq!(data, vec![1.0f32, 2.0, 5.0, 6.0, 3.0, 4.0, 7.0, 8.0]);
}

#[test]
fn dstack_writes_never_meet() {
    let a = NdArray::describe(vec![3, 2, 4], Dtype::Int8).unwrap();
    let stacked = dstack(&[&a, &a, &a]).unwrap();
    assert_eq!(stacked.array.array.shape, vec![3, 2, 12]);
    assert_eq!(stacked.array.array.dims, 3);
    assert_eq!(stacked.array.array.dtype, Dtype::Int8);
    assert!(matches!(stacked.array.value, ScalarValue::I8(0)));
    assert_eq!(stacked.array.len, 72);
    let mut seen = vec![false; 72];
    for put in &stacked.puts {
        assert_eq!(put.src_indexes, (0..24).collect::<Vec<u32>>());
        for dst in &put.dst_indexes {
            assert!(!seen[*dst as usize]);
            seen[*dst as usize] = true;
        }
    }
    assert!(seen.iter().all(|x| *x));
}

#[test]
fn dstack_refusals() {
    let a = NdArray::describe(vec![2, 2, 1], Dtype::Int8).unwrap();
    let b = NdArray::describe(vec![2, 2], Dtype::Int8).unwrap();
    let c = NdArray::describe(vec![2, 2, 1], Dtype::Float32).unwrap();
    assert!(matches!(
        dstack(&[&a, &a, &b]),
        Err(NdArrayError::BroadcastError(message)) if message == "Cant dstack shapes [2, 2, 1] and [2, 2]"
    ));
    assert!(matches!(
        dstack(&[&a, &c, &b]),
        Err(NdArrayError::DtypeError(message)) if message == "Cant dstack dtypes Int8 and Float32"
    ));
    assert!(matches!(
        validate_and_genereate_new_shapes(&[&a, &b, &c]),
        Err(NdArrayError::BroadcastError(_))
    ));
}

#[test]
fn recast_shape_adds_a_third_axis_to_two() {
    assert_eq!(recast_shape(&vec![4, 5]), vec![4, 5, 1]);
    assert_eq!(recast_shape(&vec![4]), vec![4]);
    assert_eq!(recast_shape(&vec![4, 5, 6]), vec![4, 5, 6]);
    assert_eq!(recast_shape(&vec![]), Vec::<u32>::new());
    let a = NdArray::describe(vec![2, 2], Dtype::Int8).unwrap();
    let b = NdArray::describe(vec![2, 2], Dtype::Int8).unwrap();
    assert_eq!(
        validate_and_genereate_new_shapes(&[&a, &b]).unwrap(),
        vec![vec![2, 2, 1], vec![2, 2, 1]]
    );
}

fn cross_f32(a: &[f32], la: usize, b: &[f32], lb: usize) -> Vec<f32> {
    let rows = a.len() / la;
    let mut out = vec![];
    for r in 0..rows {
        let x = &a[r * la..(r + 1) * la];
        let y = &b[r * lb..(r + 1) * lb];
        let (x2, y2) = (if la == 3 { x[2] } else { 0.0 }, if lb == 3 { y[2] } else { 0.0 });
        let z = x[0] * y[1] - x[1] * y[0];
        if la == 2 && lb == 2 {
            out.push(z);
        } else {
            out.extend_from_slice(&[x[1] * y2 - x2 * y[1], x2 * y[0] - x[0] * y2, z]);
        }
    }
    out
}

fn test_cross_f32_results(
    input1: &[f32],
    input1_shape: Vec<u32>,
    input2: &[f32],
    input2_shape: Vec<u32>,
    output: Vec<f32>,
) {
    let array_1 = array(input1, input1_shape);
    let array_2 = array(input2, input2_shape);
    let product = cross(&array_1, &array_2).unwrap();
    let [left, right] = product.vector_lengths;
    let launch =
        cross_launch(4 * input1.len() as u64, 4 * input2.len() as u64, left, right);
    let new_values = cross_f32(input1, left as usize, input2, right as usize);
    assert_eq!(launch.len, new_values.len());
    assert_eq!(launch.len, output.len());
    assert_eq!(product.array.shape.iter().product::<u32>() as usize, output.len());
    float_slice_eq_in_error(output, new_values);
}

fn float_eq_in_error(left: f32, right: f32) -> bool {
    if (left.is_nan() && !right.is_nan()) || (right.is_nan() && !left.is_nan()) {
        return false;
    }
    if left.is_nan() && right.is_nan() {
        return true;
    }
    if (right == f32::NEG_INFINITY && left != f32::NEG_INFINITY)
        || (left == f32::NEG_INFINITY && right != f32::NEG_INFINITY)
    {
        return false;
    }
    if (left == f32::INFINITY && right != f32::INFINITY)
        || (right == f32::INFINITY && left != f32::INFINITY)
    {
        return false;
    }
    if (left.abs() - right.abs()).abs() > 0.01 {
        return false;
    }
    true
}

fn float_slice_eq_in_error(x: Vec<f32>, y: Vec<f32>) {
    assert_eq!(x.len(), y.len());
    for i in 0..x.len() {
        if !float_eq_in_error(x[i], y[i]) {
            panic!(
                "assertion failed: `(left {} == right {}) \n left: `{:?}` \n right: `{:?}`",
                x[i], y[i], x, y
            );
        }
    }
}

#[test]
fn test_cross_f32() {
    test_cross_f32_results(
        &[1.0f32, 2.0, 3.0, 4.0, 5.0, 6.0],
        vec![2, 3],
        &[10.0f32, 20.0, 30.0, 11.0, 22.0, 33.0],
        vec![2, 3],
        vec![0.0f32, 0.0, 0.0, 33.0, -66.0, 33.0],
    );

    test_cross_f32_results(
        &[1.0f32, 2.0, 3.0, 4.0, 5.0, 6.0],
        vec![2, 3],
        &[7.0, 8.0, 11.0, 12.0],
        vec![2, 2],
        vec![-24., 21., -6., -72., 66., -7.],
    );

    test_cross_f32_results(
        &[7.0, 8.0, 11.0, 12.0],
        vec![2, 2],
        &[1.0f32, 2.0, 3.0, 4.0, 5.0, 6.0],
        vec![2, 3],
        vec![-24., 21., -6., -72., 66., -7.],
    );

    test_cross_f32_results(
        &[7.0, 8.0, 11.0, 12.0],
        vec![2, 2],
        &[1.0f32, 2.0, 4.0, 5.0],
        vec![2, 2],
        vec![-6., -7.],
    );
}

#[test]
fn cross_shapes_and_launches() {
    let three = NdArray::describe(vec![5, 3], Dtype::Float32).unwrap();
    let two = NdArray::describe(vec![5, 2], Dtype::Float32).unwrap();
    let product = cross(&three, &two).unwrap();
    assert_eq!(product.array.shape, vec![5, 3]);
    assert_eq!(product.vector_lengths, [3, 2]);
    let product = cross(&two, &three).unwrap();
    assert_eq!(product.array.shape, vec![5, 3]);
    assert_eq!(product.array.dims, 2);
    let product = cross(&two, &two).unwrap();
    assert_eq!(product.array.shape, vec![5]);
    assert_eq!(product.array.dims, 1);
    assert_eq!(product.array.dtype, Dtype::Float32);

    let launch = cross_launch(60, 40, 3, 2);
    assert_eq!((launch.new_buffer_size, launch.dispatch_size, launch.len), (60, 5, 15));
    let launch = cross_launch(40, 60, 2, 3);
    assert_eq!((launch.new_buffer_size, launch.dispatch_size, launch.len), (60, 5, 15));
    let launch = cross_launch(40, 40, 2, 2);
    assert_eq!((launch.new_buffer_size, launch.dispatch_size, launch.len), (20, 5, 5));
}

#[test]
fn cross_refusals() {
    let three = NdArray::describe(vec![5, 3], Dtype::Float32).unwrap();
    let four = NdArray::describe(vec![5, 4], Dtype::Float32).unwrap();
    let none = NdArray::describe(vec![], Dtype::Float32).unwrap();
    let ints = NdArray::describe(vec![5, 3], Dtype::Int32).unwrap();
    assert!(matches!(
        cross(&three, &four),
        Err(NdArrayError::BroadcastError(message)) if message == "cross not supported for shapes [5, 3] and [5, 4]"
    ));
    assert!(matches!(
        cross(&none, &three),
        Err(NdArrayError::BroadcastError(message)) if message == "cross not supported for shapes [] and [5, 3]"
    ));
    assert!(matches!(
        cross(&three, &ints),
        Err(NdArrayError::DtypeError(message)) if message == "cross not supported for dtype Float32 and Int32"
    ));
}

#[test]
fn any_takes_booleans_only() {
    let flags = NdArray::describe(vec![4], Dtype::Bool).unwrap();
    assert_eq!(any(&flags, true).unwrap(), true);
    assert_eq!(any(&flags, false).unwrap(), false);
    let bytes = NdArray::describe(vec![4], Dtype::UInt8).unwrap();
    assert!(matches!(
        any(&bytes, true),
        Err(NdArrayError::DtypeError(message)) if message == "Cant perform any on dtype UInt8"
    ));
}

#[test]
fn filled_arrays() {
    let filled = zeros(vec![2, 3], None);
    assert_eq!(filled.array.shape, vec![2, 3]);
    assert_eq!(filled.array.dims, 2);
    assert_eq!(filled.array.dtype, Dtype::Float32);
    assert!(matches!(filled.value, ScalarValue::F32(0)));
    assert_eq!(filled.len, 6);
    assert!(filled.cast.is_none());

    let filled = ones(vec![4], Some(Dtype::Bool));
    assert!(matches!(filled.value, ScalarValue::BOOL(true)));
    assert_eq!(filled.array.dtype, Dtype::Bool);
    assert_eq!(filled.len, 4);

    let filled = ones(vec![], None);
    assert!(matches!(filled.value, ScalarValue::F32(bits) if f32::from_bits(bits) == 1.0));
    assert_eq!(filled.len, 1);

    let filled = NdArray::new(vec![2, 0], Dtype::Int16);
    assert!(matches!(filled.value, ScalarValue::I16(0)));
    assert_eq!(filled.len, 0);

    let filled = full(vec![2, 2], Operand::Scalar(ScalarValue::I32(7)), None).unwrap();
    assert!(matches!(filled.value, ScalarValue::I32(7)));
    assert_eq!(filled.array.dtype, Dtype::Int32);
    assert!(filled.cast.is_none());
    assert_eq!(filled.len, 4);

    let filled =
        full(vec![2, 2], Operand::Scalar(ScalarValue::I32(7)), Some(Dtype::Float32)).unwrap();
    assert_eq!(filled.array.dtype, Dtype::Float32);
    assert_eq!(filled.cast, Some(Dtype::Float32));

    let filled = full(vec![2, 2], Operand::Scalar(ScalarValue::I32(7)), Some(Dtype::Int32)).unwrap();
    assert!(filled.cast.is_none());

    let other = NdArray::describe(vec![1], Dtype::Int32).unwrap();
    assert!(matches!(
        full(vec![2, 2], Operand::NdArrayRef(&other), None),
        Err(NdArrayError::DtypeError(message)) if message == "full takes a scalar value"
    ));
    assert!(matches!(
        full(vec![2, 2], Operand::ScalarArrayRef(ScalarArrayRef::U8ARRAY(&[1, 2])), None),
        Err(NdArrayError::DtypeError(_))
    ));
}

#[test]
fn scalar_zeros_and_ones() {
    let kinds = [
        Dtype::Int8,
        Dtype::Int16,
        Dtype::Int32,
        Dtype::UInt8,
        Dtype::UInt16,
        Dtype::UInt32,
        Dtype::Float32,
        Dtype::Bool,
    ];
    for kind in kinds {
        assert_eq!(ScalarValue::zero(&kind).dtype(), kind);
        assert_eq!(ScalarValue::one(&kind).dtype(), kind);
    }
    assert!(matches!(ScalarValue::zero(&Dtype::UInt16), ScalarValue::U16(0)));
    assert!(matches!(ScalarValue::one(&Dtype::Int8), ScalarValue::I8(1)));
    assert!(matches!(ScalarValue::one(&Dtype::UInt32), ScalarValue::U32(1)));
    assert!(matches!(ScalarValue::zero(&Dtype::Float32), ScalarValue::F32(b) if f32::from_bits(b) == 0.0));
    assert!(matches!(ScalarValue::one(&Dtype::Float32), ScalarValue::F32(b) if f32::from_bits(b) == 1.0));
    assert!(matches!(ScalarValue::zero(&Dtype::Bool), ScalarValue::BOOL(false)));
}

#[test]
fn array_descriptions() {
    let a = NdArray::from_slice(ScalarArrayRef::U16ARRAY(&[1, 2, 3, 4, 5, 6]), vec![2, 3]);
    assert_eq!(a.shape, vec![2, 3]);
    assert_eq!(a.dims, 2);
    assert_eq!(*a.get_dtype(), Dtype::UInt16);
    assert_eq!(a.len(), 6);
    assert_eq!(NdArray::describe(vec![], Dtype::Int8).unwrap().len(), 0);
    assert_eq!(NdArray::describe(vec![4, 0], Dtype::Int8).unwrap().len(), 0);
    assert!(NdArray::describe(vec![65536, 65536], Dtype::Int8).is_none());
    assert!(NdArray::describe(vec![65536, 65536, 0], Dtype::Int8).is_some());
    assert!(NdArray::describe(vec![1; 70000], Dtype::Int8).is_none());

    let cast = a.astype(Dtype::Float32);
    assert_eq!((cast.shape.clone(), cast.dims, cast.dtype), (vec![2, 3], 2, Dtype::Float32));
    let copy = a.clone_array();
    assert_eq!((copy.shape.clone(), copy.dims, copy.dtype), (vec![2, 3], 2, Dtype::UInt16));
    let negated = a.neg(Dtype::Int32);
    assert_eq!((negated.shape.clone(), negated.dims, negated.dtype), (vec![2, 3], 2, Dtype::Int32));

    let indices = NdArray::describe(vec![2, 2], Dtype::UInt32).unwrap();
    let taken = a.take(&indices, None).unwrap();
    assert_eq!((taken.shape.clone(), taken.dims, taken.dtype), (vec![4], 1, Dtype::UInt16));
    assert!(matches!(
        a.take(&indices, Some(0)),
        Err(NdArrayError::SliceError(message)) if message == "take along an axis is not supported"
    ));
    assert!(matches!(
        a.take(&a, None),
        Err(NdArrayError::DtypeError(message)) if message == "Indices are not of uint32 type"
    ));
}

#[test]
fn operands_and_holders() {
    let a = NdArray::describe(vec![2], Dtype::Int8).unwrap();
    assert!(Operand::NdArrayRef(&a).into_nd_array().is_some());
    assert!(Operand::Scalar(ScalarValue::U8(1)).into_nd_array().is_none());
    assert!(Operand::ScalarArrayRef(ScalarArrayRef::I8ARRAY(&[1])).into_nd_array().is_none());
    assert_eq!(ScalarArrayRef::U8ARRAY(&[1]).dtype(), Dtype::UInt8);
    assert_eq!(ScalarArrayRef::I16ARRAY(&[1]).dtype(), Dtype::Int16);
    assert_eq!(ScalarArrayRef::F32ARRAY(&[1]).dtype(), Dtype::Float32);

    let borrowed = Holder::Borrowed(&a);
    assert_eq!(borrowed.as_ref().shape, vec![2]);
    let owned = Holder::Owned(NdArray::describe(vec![3], Dtype::Int8).unwrap());
    assert_eq!(owned.as_ref().shape, vec![3]);
}

#[test]
fn dtype_names() {
    assert_eq!(Dtype::from_name("float"), Some(Dtype::Float32));
    assert_eq!(Dtype::from_name("float32"), Some(Dtype::Float32));
    assert_eq!(Dtype::from_name("uint32"), Some(Dtype::UInt32));
    assert_eq!(Dtype::from_name("uint16"), Some(Dtype::UInt16));
    assert_eq!(Dtype::from_name("uint8"), Some(Dtype::UInt8));
    assert_eq!(Dtype::from_name("int32"), Some(Dtype::Int32));
    assert_eq!(Dtype::from_name("int16"), Some(Dtype::Int16));
    assert_eq!(Dtype::from_name("int8"), Some(Dtype::Int8));
    assert_eq!(Dtype::from_name("bool"), Some(Dtype::Bool));
    assert_eq!(Dtype::from_name("double"), None);
    assert_eq!(Dtype::from_name(""), None);
    assert_eq!(Dtype::Float32.name(), "Float32");
    assert_eq!(Dtype::UInt8.name(), format!("{:?}", Dtype::UInt8));
    assert_eq!(Dtype::Bool.name(), format!("{:?}", Dtype::Bool));
}

#[test]
fn scripting_side_dtypes() {
    assert_eq!(DtypePy::new(Dtype::Int8).dtype, Dtype::Int8);
    assert_eq!(DtypePy::from_type_name("bool").unwrap().dtype, Dtype::Bool);
    assert_eq!(DtypePy::from_type_name("float").unwrap().dtype, Dtype::Float32);
    assert_eq!(DtypePy::from_type_name("int").unwrap().dtype, Dtype::Int32);
    assert_eq!(
        DtypePy::from_type_name("str").unwrap_err(),
        "Cannot convert type str into DtypePy "
    );
    assert_eq!(Dtype::from(DtypePy::new(Dtype::UInt16)), Dtype::UInt16);
    assert_eq!(DtypePy::from(Dtype::UInt16).dtype, Dtype::UInt16);
}

#[test]
fn ufunc_signatures() {
    let types = cos_types();
    assert_eq!(types.len(), 5);
    let inputs =
        [Dtype::Float32, Dtype::UInt8, Dtype::UInt16, Dtype::Int8, Dtype::Int16];
    for (signature, input) in types.iter().zip(inputs.iter()) {
        match signature {
            UfuncType::UfuncNin1Nout1Type(
                [OperandType::NdArrayType(from)],
                OperandType::NdArrayType(to),
            ) => {
                assert_eq!(from, input);
                assert_eq!(*to, Dtype::Float32);
            }
            _ => panic!("expected a signature of one array input"),
        }
    }
    assert_eq!(format!("{:?}", sin_types()), format!("{:?}", cos_types()));
}

#[test]
fn conversions_into_operands() {
    assert!(matches!(ScalarValue::from(7u32), ScalarValue::U32(7)));
    assert!(matches!(ScalarValue::from(7u16), ScalarValue::U16(7)));
    assert!(matches!(ScalarValue::from(7u8), ScalarValue::U8(7)));
    assert!(matches!(ScalarValue::from(-7i32), ScalarValue::I32(-7)));
    assert!(matches!(ScalarValue::from(-7i16), ScalarValue::I16(-7)));
    assert!(matches!(ScalarValue::from(-7i8), ScalarValue::I8(-7)));
    assert!(matches!(ScalarValue::from(true), ScalarValue::BOOL(true)));
    assert_eq!(Dtype::from(&ScalarValue::from(7u16)), Dtype::UInt16);

    let words = [1u32, 2];
    assert!(matches!(ScalarArrayRef::from(words.as_slice()), ScalarArrayRef::U32ARRAY(x) if x == [1, 2]));
    let flags = [true, false];
    assert!(matches!(ScalarArrayRef::from(flags.as_slice()), ScalarArrayRef::BOOLARRAY(x) if x == [true, false]));
    let small = [1i8, -2];
    assert_eq!(ScalarArrayRef::from(small.as_slice()).dtype(), Dtype::Int8);

    let a = NdArray::describe(vec![2], Dtype::Int8).unwrap();
    assert!(matches!(Operand::from(&a), Operand::NdArrayRef(x) if x.shape == vec![2]));
    assert!(matches!(Operand::from(ScalarValue::U8(3)), Operand::Scalar(ScalarValue::U8(3))));
    assert!(matches!(
        Operand::from(ScalarArrayRef::from(words.as_slice())),
        Operand::ScalarArrayRef(ScalarArrayRef::U32ARRAY(_))
    ));
    let filled = full(vec![3], ScalarValue::from(2u8).into(), None).unwrap();
    assert!(matches!(filled.value, ScalarValue::U8(2)));
}

#[test]
fn machine_limits() {
    assert!(shape_fits(&[65535, 65537]));
    assert!(!shape_fits(&[65536, 65536]));
    assert!(!shape_fits(&vec![1; 65536]));
    assert!(shape_fits(&vec![1; 65535]));

    assert!(check_broadcast_fits(&[65535, 1], &[65537]));
    assert!(!check_broadcast_fits(&[65536, 1], &[65536]));
    assert!(check_broadcast_fits(&[65536, 2], &[65536, 3]));

    assert!(check_where_fits(&[2], &[3, 1], &[1]));
    assert!(!check_where_fits(&[65536], &[65536, 1], &[1]));
    assert!(check_where_fits(&[65536], &[2, 1], &[3]));

    assert!(check_clip_fits(&[3], Some(&[2, 1]), None));
    assert!(!check_clip_fits(&[65536], Some(&[65536, 1]), Some(&[1])));
    assert!(!check_clip_fits(&[65536], None, Some(&[65536, 1])));
    assert!(check_clip_fits(&[65536], Some(&[7, 1]), Some(&[3, 65536])));

    assert!(check_stack_fits(&[2, 2], 3));
    assert!(!check_stack_fits(&[65536, 16384], 4));
    assert!(check_stack_fits(&[65536, 16384], 3));
    assert!(!check_stack_fits(&[1, 1, 2147483648], 2));

    let a = NdArray::describe(vec![65536, 4], Dtype::Int8).unwrap();
    assert!(a.is_wf());
    assert!(check_repeat_fits(&a, &[16383], None));
    assert!(!check_repeat_fits(&a, &[16384], None));
    assert!(check_repeat_fits(&a, &[16384, 1], None));
    assert!(check_repeat_fits(&a, &[16383], Some(0)));
    assert!(!check_repeat_fits(&a, &[16384], Some(0)));
    assert!(!check_repeat_fits(&a, &[4294967295, 4294967295, 1, 1], Some(1)));
    assert!(check_repeat_fits(&a, &[16384], Some(2)));
    let broken = NdArray { shape: vec![2, 2], dims: 3, dtype: Dtype::Int8 };
    assert!(!broken.is_wf());
}
