use webgpupy::{iota_op, Dtype, Generator, ThreeFry2x32};

fn float_eq_in_error(left: f32, right: f32) -> bool {
    if (left.is_nan() && !right.is_nan()) || (right.is_nan() && !left.is_nan()) {
        return false;
    }
    if left.is_nan() && right.is_nan() {
        return true;
    }
    (left - right).abs() <= 0.000001
}

#[test]
fn test_iota() {
    let shape = [10, 20];
    let total = shape.iter().product();
    let result = iota_op(&shape);
    assert_eq!(result, (0..total).collect::<Vec<u32>>())
}

#[test]
fn test_threefry_generator() {
    let mut rng = ThreeFry2x32::new(1701);
    let rands = rng.random_bit(&[4]);

    assert_eq!(&rands, &vec![56197195u32, 1801093307, 961309823, 1704866707]);

    assert_eq!(rng.get_keys(), [[56197195u32, 1801093307], [961309823, 1704866707]])
}

fn uniform(floats: &[u32]) -> Vec<f32> {
    floats.iter().map(|bits| f32::from_bits(*bits) - 1.0).collect()
}

#[test]
fn test_threefry_random() {
    let mut rng = ThreeFry2x32::new(1701);

    let drawn = uniform(&rng.uniform_op(&[4]).float_bits);
    let expected = [0.013084412f32, 0.41934967, 0.22382236, 0.39694512];
    for i in 0..4 {
        assert!(float_eq_in_error(drawn[i], expected[i]));
    }

    rng = ThreeFry2x32::new(1701);
    let drawn = uniform(&rng.uniform_op(&[6]).float_bits);
    let expected = [0.21588242f32, 0.911929, 0.42731953, 0.15760279, 0.7366872, 0.9338119];
    for i in 0..6 {
        assert!(float_eq_in_error(drawn[i], expected[i]));
    }
}

#[test]
fn generator_starts_with_its_seed() {
    let rng = ThreeFry2x32::new(7);
    assert_eq!(rng.get_keys(), [[0, 7], [0, 7]]);
}

#[test]
fn generator_moves_on_with_every_draw() {
    let mut rng = ThreeFry2x32::new(1701);
    let first = rng.random_bit_op(&[2, 2]);
    let keys = rng.get_keys();
    let second = rng.random_bit_op(&[2, 2]);
    assert_eq!(first, vec![56197195u32, 1801093307, 961309823, 1704866707]);
    assert_ne!(first, second);
    assert_eq!(second, webgpupy::threefry2x32_op(&keys[1], &[0, 1, 2, 3]));
    assert_ne!(rng.get_keys(), keys);
}

#[test]
fn uniform_draw_describes_floats_between_one_and_two() {
    let mut rng = ThreeFry2x32::new(3);
    let floats = rng.uniform_op(&[2, 3]);
    assert_eq!(floats.array.shape, vec![2, 3]);
    assert_eq!(floats.array.dims, 2);
    assert_eq!(floats.array.dtype, Dtype::Float32);
    assert_eq!(floats.float_bits.len(), 6);
    let mut again = ThreeFry2x32::new(3);
    let words = again.random_bit_op(&[2, 3]);
    for i in 0..6 {
        assert_eq!(floats.float_bits[i], (words[i] >> 9) | 0x3f80_0000);
        let value = f32::from_bits(floats.float_bits[i]);
        assert!(1.0 <= value && value < 2.0);
    }
    assert_eq!(rng.get_keys(), again.get_keys());
}

#[test]
fn normal_draw_uses_the_uniform_words() {
    let mut rng = ThreeFry2x32::new(1701);
    let mut other = ThreeFry2x32::new(1701);
    let normal = rng.normal(&[4]);
    let uniform = other.uniform_op(&[4]);
    assert_eq!(normal.float_bits, uniform.float_bits);
    assert_eq!(normal.array.shape, vec![4]);
}

#[test]
fn read_buffer_reads_words_in_the_byte_order_of_the_machine() {
    let words = [56197195u32, 1801093307, 961309823, 1704866707];
    let mut bytes = vec![];
    for word in words {
        bytes.extend_from_slice(&word.to_ne_bytes());
    }
    let aligned: Vec<u32> = words.to_vec();
    let view: &[u8] = aligned_view(&aligned, &bytes);
    match ThreeFry2x32::read_buffer(view) {
        Some(read) => assert_eq!(read, words),
        None => panic!("aligned bytes must be readable"),
    }
    assert!(ThreeFry2x32::read_buffer(&view[..7]).is_none());
}

fn aligned_view<'a>(words: &'a [u32], bytes: &'a [u8]) -> &'a [u8] {
    let offset = bytes.as_ptr().align_offset(4);
    if offset == 0 {
        bytes
    } else {
        bytemuck::cast_slice(words)
    }
}

#[test]
fn generator_from_key_buffers() {
    let keys: Vec<u32> = vec![56197195u32, 1801093307, 961309823, 1704866707];
    let bytes: &[u8] = bytemuck::cast_slice(&keys);
    let rng = ThreeFry2x32::from_key_buffers(&bytes[..8], &bytes[8..]).unwrap();
    assert_eq!(rng.get_keys(), [[56197195u32, 1801093307], [961309823, 1704866707]]);
    assert!(ThreeFry2x32::from_key_buffers(&bytes[..4], &bytes[8..]).is_none());
    assert!(ThreeFry2x32::from_key_buffers(&bytes[..8], bytes).is_none());
}

fn erfinv(x: f32) -> f32 {
    let mut w = -((1.0 - x) * (1.0 + x)).ln();
    let mut p;
    if w < 5.0 {
        w -= 2.5;
        p = 2.81022636e-08;
        p = 3.43273939e-07 + p * w;
        p = -3.5233877e-06 + p * w;
        p = -4.39150654e-06 + p * w;
        p = 0.00021858087 + p * w;
        p = -0.00125372503 + p * w;
        p = -0.00417768164 + p * w;
        p = 0.246640727 + p * w;
        p = 1.50140941 + p * w;
    } else {
        w = w.sqrt() - 3.0;
        p = -0.000200214257;
        p = 0.000100950558 + p * w;
        p = 0.00134934322 + p * w;
        p = -0.00367342844 + p * w;
        p = 0.00573950773 + p * w;
        p = -0.0076224613 + p * w;
        p = 0.00943887047 + p * w;
        p = 1.00167406 + p * w;
        p = 2.83297682 + p * w;
    }
    p * x
}

#[test]
fn test_threefry_normal() {
    let mut rng = ThreeFry2x32::new(1701);

    let lo = -1.0f32 + f32::EPSILON;
    let hi = 1.0f32;
    let drawn: Vec<f32> = rng
        .normal(&[4])
        .float_bits
        .iter()
        .map(|bits| {
            let unit = f32::from_bits(*bits) - 1.0;
            let u = lo.max(unit * (hi - lo) + lo);
            erfinv(u) * std::f32::consts::SQRT_2
        })
        .collect();
    let expected = [-2.2236953f32, -0.20355737, -0.7593474, -0.26126227];
    for i in 0..4 {
        assert!((drawn[i] - expected[i]).abs() <= 0.01);
    }
}

#[test]
fn generator_from_key_words() {
    let rng = ThreeFry2x32::from_key_words(Some(vec![5, 6]), Some(vec![7, 8])).unwrap();
    assert_eq!(rng.get_keys(), [[5, 6], [7, 8]]);
    assert!(ThreeFry2x32::from_key_words(None, Some(vec![7, 8])).is_none());
    assert!(ThreeFry2x32::from_key_words(Some(vec![5, 6]), None).is_none());
    assert!(ThreeFry2x32::from_key_words(Some(vec![5]), Some(vec![7, 8])).is_none());
    assert!(ThreeFry2x32::from_key_words(Some(vec![5, 6]), Some(vec![7, 8, 9])).is_none());
    assert!(ThreeFry2x32::from_key_words(Some(vec![]), Some(vec![])).is_none());
}
